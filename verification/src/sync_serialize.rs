//! The producer written as an explicit state machine.
//!
//! A state tag and a cursor into the objects say which byte of the stream
//! comes next. Each emitted byte moves the tag one step along a fixed table;
//! nothing is suspended and nothing is kept but the tag and the cursor.

use crate::record::lemma_stream_prefix;
use crate::record::lemma_stream_take_next;
use crate::record::length_prefix;
use crate::record::record;
use crate::record::stream;
use crate::record::Object;
use crate::serializer::PersistSerializer;
use vstd::prelude::*;

verus! {

/// Which byte of the current object's record comes next.
pub enum State {
    /// The low byte of the length field.
    Len1,
    /// The high byte of the length field.
    Len2,
    /// The type byte.
    Type,
    /// The data byte at this offset.
    Data(usize),
}

impl State {
    /// The state in which every record starts.
    pub fn new() -> (state: Self)
        ensures
            state == State::Len1,
    {
        State::Len1
    }
}

/// How many bytes of its record an object has given out when the machine is
/// in `state`.
pub open spec fn offset_in_record(state: State) -> nat {
    match state {
        State::Len1 => 0,
        State::Len2 => 1,
        State::Type => 2,
        State::Data(offset) => (3 + offset) as nat,
    }
}

/// The byte that the machine emits in `state` while its cursor is on `object`.
pub open spec fn emitted(object: Object, state: State) -> u8 {
    match state {
        State::Len1 => length_prefix(object.data@.len())[0],
        State::Len2 => length_prefix(object.data@.len())[1],
        State::Type => object.object_type,
        State::Data(offset) => object.data@[offset as int],
    }
}

/// Whether the byte emitted in `state` is the last of `object`'s record, so
/// that the cursor moves on to the next object.
pub open spec fn completes_record(object: Object, state: State) -> bool {
    match state {
        State::Len1 => false,
        State::Len2 => false,
        State::Type => object.data@.len() == 0,
        State::Data(offset) => offset + 1 >= object.data@.len(),
    }
}

/// The state that follows `state` once its byte is out.
pub open spec fn successor(object: Object, state: State) -> State {
    match state {
        State::Len1 => State::Len2,
        State::Len2 => State::Type,
        State::Type => if object.data@.len() > 0 {
            State::Data(0)
        } else {
            State::Len1
        },
        State::Data(offset) => if offset + 1 < object.data@.len() {
            State::Data((offset + 1) as usize)
        } else {
            State::Len1
        },
    }
}

/// Whether `state` names a byte that `object`'s record has.
pub open spec fn state_fits(object: Object, state: State) -> bool {
    match state {
        State::Data(offset) => offset < object.data@.len(),
        _ => true,
    }
}

/// In a state that fits, the table emits the byte of the record at the
/// state's offset, and the record ends exactly where the table says it does.
pub proof fn lemma_table_follows_record(object: Object, state: State)
    requires
        state_fits(object, state),
    ensures
        offset_in_record(state) < record(object).len(),
        emitted(object, state) == record(object)[offset_in_record(state) as int],
        completes_record(object, state) <==> offset_in_record(state) + 1 == record(object).len(),
        !completes_record(object, state) ==> {
            &&& state_fits(object, successor(object, state))
            &&& offset_in_record(successor(object, state)) == offset_in_record(state) + 1
        },
        completes_record(object, state) ==> successor(object, state) == State::Len1,
{
    assert(object.data@.len() == object.data.len());
}

/// A synchronous state machine that produces the encoded stream of a list of
/// objects in pieces of any size.
///
/// It keeps its place in the stream between calls, so that it can stop and
/// resume at any byte.
pub struct SyncSerializer<'a> {
    objects: &'a [Object],
    state: State,
    idx: usize,
}

impl<'a> SyncSerializer<'a> {
    /// The objects that the machine encodes.
    pub closed spec fn objects(&self) -> Seq<Object> {
        self.objects@
    }

    /// The state tag.
    pub closed spec fn state(&self) -> State {
        self.state
    }

    /// The cursor: the index of the object whose record is being emitted, or
    /// the number of objects once all are done.
    pub closed spec fn index(&self) -> nat {
        self.idx as nat
    }

    /// The number of bytes of the stream that the machine has given out.
    pub open spec fn position(&self) -> nat {
        stream(self.objects().take(self.index() as int)).len() + offset_in_record(self.state())
    }

    /// The part of the stream that is still to come.
    pub open spec fn remaining(&self) -> Seq<u8> {
        stream(self.objects()).skip(self.position() as int)
    }

    /// The position is within the stream, at its end exactly when the
    /// machine is exhausted, and before that the table emits the byte of the
    /// stream at the position.
    pub proof fn lemma_position(&self)
        requires
            self.wf(),
        ensures
            self.position() <= stream(self.objects()).len(),
            self.exhausted() <==> self.position() == stream(self.objects()).len(),
            !self.exhausted() ==> stream(self.objects())[self.position() as int] == emitted(
                self.objects()[self.index() as int],
                self.state(),
            ),
    {
        let objects = self.objects();
        let k = self.index() as int;
        if k == objects.len() {
            assert(objects.take(k) =~= objects);
        } else {
            lemma_table_follows_record(objects[k], self.state());
            lemma_stream_take_next(objects, k);
            lemma_stream_prefix(objects, k + 1);
            let before = stream(objects.take(k));
            let through = stream(objects.take(k + 1));
            let at = self.position() as int;
            assert(through[at] == record(objects[k])[at - before.len()]);
            assert(stream(objects).take(through.len() as int)[at] == stream(objects)[at]);
        }
    }

    /// Creates a machine at the start of the stream of `objects`.
    pub fn new(objects: &'a [Object]) -> (serializer: Self)
        ensures
            serializer.wf(),
            serializer.objects() == objects@,
            serializer.state() == State::Len1,
            serializer.index() == 0,
            serializer.position() == 0,
            serializer.remaining() == stream(objects@),
    {
        proof {
            assert(objects@.take(0) =~= Seq::<Object>::empty());
            assert(stream(objects@).skip(0) =~= stream(objects@));
        }
        Self { objects, state: State::new(), idx: 0 }
    }

    /// Emits the next byte of the stream and moves the state tag one step
    /// along the table, or returns `None` and changes nothing when the cursor
    /// is past the last object.
    pub fn next_byte(&mut self) -> (byte: Option<u8>)
        requires
            old(self).wf(),
        ensures
            final(self).wf(),
            final(self).objects() == old(self).objects(),
            old(self).exhausted() ==> byte.is_none() && *final(self) == *old(self),
            !old(self).exhausted() ==> {
                let object = old(self).objects()[old(self).index() as int];
                &&& byte == Some(emitted(object, old(self).state()))
                &&& final(self).state() == successor(object, old(self).state())
                &&& final(self).index() == old(self).index() + if completes_record(
                    object,
                    old(self).state(),
                ) {
                    1nat
                } else {
                    0nat
                }
                &&& byte == Some(stream(old(self).objects())[old(self).position() as int])
                &&& final(self).position() == old(self).position() + 1
            },
    {
        proof {
            self.lemma_position();
        }
        if self.idx >= self.objects.len() {
            return None;
        }
        let objects: &'a [Object] = self.objects;
        let obj = &objects[self.idx];
        proof {
            lemma_table_follows_record(*obj, self.state);
            lemma_stream_take_next(objects@, self.idx as int);
        }
        let byte: u8;
        match self.state {
            State::Len1 => {
                let len = obj.length_prefix();
                byte = len[0];
                self.state = State::Len2;
            },
            State::Len2 => {
                let len = obj.length_prefix();
                byte = len[1];
                self.state = State::Type;
            },
            State::Type => {
                byte = obj.object_type;
                if obj.data.len() > 0 {
                    self.state = State::Data(0);
                } else {
                    self.state = State::Len1;
                    self.idx += 1;
                }
            },
            State::Data(offset) => {
                byte = obj.data[offset];
                if offset >= obj.data.len() - 1 {
                    self.state = State::Len1;
                    self.idx += 1;
                } else {
                    self.state = State::Data(offset + 1);
                }
            },
        }
        Some(byte)
    }

    /// Reads until the stream ends, through `buf`, one bufferful at a time,
    /// and returns all that was read. Whatever the size of `buf`, the result
    /// is the part of the stream that was still to come.
    pub fn drain(&mut self, buf: &mut [u8]) -> (output: Vec<u8>)
        requires
            old(self).wf(),
            old(buf)@.len() >= 1,
        ensures
            final(self).wf(),
            final(self).objects() == old(self).objects(),
            final(self).exhausted(),
            output@ == old(self).remaining(),
            final(buf)@.len() == old(buf)@.len(),
    {
        let mut output: Vec<u8> = Vec::new();
        proof {
            self.lemma_position();
            assert(output@ =~= stream(self.objects()).subrange(
                self.position() as int,
                self.position() as int,
            ));
        }
        loop
            invariant
                self.wf(),
                self.objects() == old(self).objects(),
                buf@.len() == old(buf)@.len(),
                buf@.len() >= 1,
                old(self).position() <= self.position() <= stream(self.objects()).len(),
                output@ == stream(self.objects()).subrange(
                    old(self).position() as int,
                    self.position() as int,
                ),
            ensures
                self.exhausted(),
                output@ == old(self).remaining(),
            decreases stream(self.objects()).len() - self.position(),
        {
            let ghost collected = output@;
            let written = self.read(buf);
            let mut i: usize = 0;
            while i < written
                invariant
                    i <= written <= buf@.len(),
                    output@ == collected + buf@.take(i as int),
                decreases written - i,
            {
                output.push(buf[i]);
                i += 1;
                assert(buf@.take(i as int) =~= buf@.take(i - 1).push(buf@[i - 1]));
            }
            proof {
                self.lemma_position();
                assert(output@ =~= stream(self.objects()).subrange(
                    old(self).position() as int,
                    self.position() as int,
                ));
            }
            if written < buf.len() {
                proof {
                    assert(output@ =~= old(self).remaining());
                }
                break;
            }
        }
        output
    }
}

impl<'a> PersistSerializer for SyncSerializer<'a> {
    /// The machine's invariant: the cursor never passes the end of the
    /// objects; past the last object the state tag rests on `Len1`; before
    /// it, the state tag names a byte that the current record has.
    open spec fn wf(&self) -> bool {
        &&& self.index() <= self.objects().len()
        &&& self.index() == self.objects().len() ==> self.state() == State::Len1
        &&& self.index() < self.objects().len() ==> state_fits(
            self.objects()[self.index() as int],
            self.state(),
        )
    }

    /// Whether the whole stream has been given out.
    open spec fn exhausted(&self) -> bool {
        self.index() == self.objects().len()
    }

    /// Writes the next bytes of the stream into `buf`, from its start, until
    /// `buf` is full or the stream ends, and returns how many it wrote. The
    /// rest of `buf` keeps what it held.
    fn read(&mut self, buf: &mut [u8]) -> (written: usize)
        ensures
            final(self).objects() == old(self).objects(),
            written as int == if old(buf)@.len() <= old(self).remaining().len() {
                old(buf)@.len() as int
            } else {
                old(self).remaining().len() as int
            },
            final(self).position() == old(self).position() + written,
            final(buf)@ == old(self).remaining().take(written as int) + old(buf)@.skip(
                written as int,
            ),
            written == 0 ==> *final(self) == *old(self),
    {
        let mut pos: usize = 0;
        proof {
            self.lemma_position();
        }
        loop
            invariant
                self.wf(),
                self.objects() == old(self).objects(),
                pos <= buf@.len(),
                buf@.len() == old(buf)@.len(),
                self.position() == old(self).position() + pos,
                self.position() <= stream(self.objects()).len(),
                forall|i: int|
                    0 <= i < pos ==> buf@[i] == stream(self.objects())[old(self).position() + i],
                forall|i: int| pos <= i < buf@.len() ==> buf@[i] == old(buf)@[i],
                pos == 0 ==> *self == *old(self),
            ensures
                pos == buf@.len() || self.exhausted(),
            decreases buf@.len() - pos,
        {
            proof {
                self.lemma_position();
            }
            if pos >= buf.len() {
                break;
            }
            match self.next_byte() {
                None => {
                    break;
                },
                Some(byte) => {
                    buf[pos] = byte;
                    pos += 1;
                },
            }
        }
        proof {
            self.lemma_position();
            assert(final(buf)@ =~= old(self).remaining().take(pos as int) + old(buf)@.skip(
                pos as int,
            ));
        }
        pos
    }
}

} // verus!
