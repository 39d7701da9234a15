//! What every producer of the stream offers, whichever way it is built.

use vstd::prelude::*;

verus! {

/// A source that fills caller-supplied buffers, of any size, with the next
/// bytes of its output and says so when it has no more.
pub trait PersistSerializer {
    /// Whether the source is in a state that its own operations can leave
    /// it in.
    spec fn wf(&self) -> bool;

    /// Whether the source has found its output at an end.
    spec fn exhausted(&self) -> bool;

    /// Writes the next bytes of the output into `buf`, from its start, and
    /// returns how many it wrote.
    ///
    /// The rest of `buf` keeps what it held. A count below the size of `buf`
    /// means that the source is exhausted; an exhausted source writes
    /// nothing and stays exhausted.
    fn read(&mut self, buf: &mut [u8]) -> (written: usize)
        requires
            old(self).wf(),
        ensures
            final(self).wf(),
            written <= old(buf)@.len(),
            final(buf)@.len() == old(buf)@.len(),
            final(buf)@.skip(written as int) == old(buf)@.skip(written as int),
            old(self).exhausted() ==> {
                &&& written == 0
                &&& final(self).exhausted()
                &&& final(buf)@ == old(buf)@
            },
            written < old(buf)@.len() ==> final(self).exhausted(),
    ;
}

} // verus!
