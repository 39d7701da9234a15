//! The producer that pulls its output from a suspended computation.
//!
//! The computation writes one byte into a shared register and suspends; the
//! producer resumes it once for every byte it needs and copies the register
//! into the caller's buffer.

use crate::executor::AsyncStateMachine;
use crate::register::ByteRegister;
use crate::serializer::PersistSerializer;
use core::future::Future;
use core::pin::Pin;
use vstd::prelude::*;

verus! {

/// Takes in what one resumption of the computation gave: the byte handed
/// over at a suspension, or `None` when the computation ended.
///
/// A byte is written at `pos` and the next position is returned; the end
/// writes nothing and returns `None`. Nothing else in `buf` changes.
pub fn absorb(buf: &mut [u8], pos: usize, event: Option<u8>) -> (next: Option<usize>)
    requires
        pos < old(buf)@.len(),
    ensures
        event matches Some(byte) ==> next == Some((pos + 1) as usize) && final(buf)@ == old(
            buf,
        )@.update(pos as int, byte),
        event is None ==> next is None && final(buf)@ == old(buf)@,
{
    match event {
        Some(byte) => {
            buf[pos] = byte;
            Some(pos + 1)
        },
        None => None,
    }
}

/// Fills buffers with the bytes that a suspended computation hands over
/// through a register.
///
/// The computation must suspend after each byte it stores, and only then.
#[verifier::reject_recursive_types(F)]
pub struct AsyncSerializer<'a, 'b, F: Future<Output = ()>> {
    machine: AsyncStateMachine<'a, F, ()>,
    reg: &'b ByteRegister,
    loaded: Ghost<Seq<u8>>,
}

impl<'a, 'b, F> AsyncSerializer<'a, 'b, F> where F: Future<Output = ()> {
    /// How many times the computation has been resumed.
    pub closed spec fn steps(&self) -> nat {
        self.machine.steps()
    }

    /// The bytes that the serializer has taken from the register so far, one
    /// after each resumption that ended in a suspension.
    pub closed spec fn loaded(&self) -> Seq<u8> {
        self.loaded@
    }

    /// Creates a serializer from a computation and the register that it
    /// writes.
    ///
    /// `fut` must be pinned and must not have been resumed yet.
    pub fn new(fut: Pin<&'a mut F>, reg: &'b ByteRegister) -> (serializer: Self)
        ensures
            !serializer.exhausted(),
            serializer.steps() == 0,
            serializer.loaded() == Seq::<u8>::empty(),
    {
        Self { machine: AsyncStateMachine::new(fut), reg, loaded: Ghost(Seq::empty()) }
    }
}

impl<'a, 'b, F> PersistSerializer for AsyncSerializer<'a, 'b, F> where F: Future<Output = ()> {
    /// Every serializer is well formed.
    open spec fn wf(&self) -> bool {
        true
    }

    /// Whether a resumption has found the computation at its end.
    closed spec fn exhausted(&self) -> bool {
        self.machine.finished()
    }

    /// Fills `buf` from its start, one resumption of the computation per
    /// byte, until `buf` is full or the computation ends, and returns how
    /// many bytes it wrote. The rest of `buf` keeps what it held.
    ///
    /// An empty buffer and an exhausted serializer resume nothing. The
    /// resumption that finds the computation at its end writes no byte. The
    /// bytes written are those taken from the register, in the order taken.
    fn read(&mut self, buf: &mut [u8]) -> (written: usize)
        ensures
            final(self).loaded() == old(self).loaded() + final(buf)@.take(written as int),
            !old(self).exhausted() ==> (final(self).exhausted() <==> written < old(buf)@.len()),
            final(self).steps() == old(self).steps() + written + if final(self).exhausted()
                && !old(self).exhausted() {
                1nat
            } else {
                0nat
            },
    {
        let mut pos: usize = 0;
        loop
            invariant_except_break
                self.exhausted() == old(self).exhausted(),
                self.steps() == old(self).steps() + pos,
            invariant
                pos <= buf@.len(),
                buf@.len() == old(buf)@.len(),
                self.loaded() == old(self).loaded() + buf@.take(pos as int),
                forall|i: int| pos <= i < buf@.len() ==> buf@[i] == old(buf)@[i],
                old(self).exhausted() ==> pos == 0,
            ensures
                old(self).exhausted() ==> self.exhausted(),
                !old(self).exhausted() ==> (self.exhausted() <==> pos < buf@.len()),
                self.steps() == old(self).steps() + pos + if self.exhausted() && !old(
                    self,
                ).exhausted() {
                    1nat
                } else {
                    0nat
                },
            decreases buf@.len() - pos,
        {
            if pos >= buf.len() || self.machine.is_finished() {
                break;
            }
            let event = match self.machine.exec() {
                Some(_) => None,
                None => Some(self.reg.load()),
            };
            match absorb(buf, pos, event) {
                None => {
                    break;
                },
                Some(next) => {
                    proof {
                        self.loaded = Ghost(self.loaded@.push(event->0));
                        assert(buf@.take(next as int) =~= buf@.take(pos as int).push(event->0));
                    }
                    pos = next;
                },
            }
        }
        assert(final(buf)@.skip(pos as int) =~= old(buf)@.skip(pos as int));
        assert(pos == 0 ==> final(buf)@ =~= old(buf)@);
        pos
    }
}

} // verus!
