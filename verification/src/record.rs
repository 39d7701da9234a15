//! The byte format of the encoded stream.
//!
//! Every object becomes one record: a two-byte little-endian length field,
//! one type byte, then the data bytes. The stream is the records laid end to
//! end, with nothing between them and nothing after the last.

use vstd::prelude::*;

verus! {

/// A tagged block of bytes.
pub struct Object {
    pub object_type: u8,
    pub data: Vec<u8>,
}

/// Value of the length field of a record that carries `data_len` data bytes:
/// the data and the type byte, counted modulo 2^16 because the field is two
/// bytes wide.
pub open spec fn length_field(data_len: nat) -> nat {
    (data_len + 1) % 0x1_0000
}

/// The two bytes of the length field, low byte first.
pub open spec fn length_prefix(data_len: nat) -> Seq<u8> {
    seq![(length_field(data_len) % 256) as u8, (length_field(data_len) / 256) as u8]
}

/// The record of one object.
pub open spec fn record(object: Object) -> Seq<u8> {
    length_prefix(object.data@.len()) + seq![object.object_type] + object.data@
}

/// The encoded stream of a sequence of objects.
pub open spec fn stream(objects: Seq<Object>) -> Seq<u8>
    decreases objects.len(),
{
    if objects.len() == 0 {
        Seq::empty()
    } else {
        stream(objects.drop_last()) + record(objects.last())
    }
}

/// The length field is one more than the data length taken modulo 2^16,
/// except that it starts again at zero after 0xffff.
proof fn lemma_length_field_steps(data_len: nat)
    ensures
        data_len % 0x1_0000 == 0xffff ==> length_field(data_len) == 0,
        data_len % 0x1_0000 != 0xffff ==> length_field(data_len) == data_len % 0x1_0000 + 1,
{
    let q = data_len / 0x1_0000;
    let r = data_len % 0x1_0000;
    assert(data_len == q * 0x1_0000 + r) by (nonlinear_arith)
        requires
            q == data_len / 0x1_0000,
            r == data_len % 0x1_0000,
    ;
    if r == 0xffff {
        assert((data_len + 1) % 0x1_0000 == 0) by (nonlinear_arith)
            requires
                data_len + 1 == (q + 1) * 0x1_0000,
        ;
    } else {
        assert((data_len + 1) % 0x1_0000 == r + 1) by (nonlinear_arith)
            requires
                data_len + 1 == q * 0x1_0000 + (r + 1),
                0 <= r + 1 < 0x1_0000,
        ;
    }
}

impl Object {
    /// The length field of this object's record, low byte first.
    pub fn length_prefix(&self) -> (bytes: [u8; 2])
        ensures
            bytes@ == length_prefix(self.data@.len()),
    {
        let low16: usize = self.data.len() % 0x1_0000;
        let field: u16 = if low16 == 0xffff {
            0
        } else {
            (low16 + 1) as u16
        };
        assert(field as nat == length_field(self.data@.len())) by {
            lemma_length_field_steps(self.data@.len());
        }
        let low: u8 = (field % 256) as u8;
        let high: u8 = (field / 256) as u8;
        let bytes: [u8; 2] = [low, high];
        assert(bytes@ =~= length_prefix(self.data@.len()));
        bytes
    }

    /// The record of this object: the length field, the type, the data.
    pub fn encode(&self) -> (bytes: Vec<u8>)
        ensures
            bytes@ == record(*self),
    {
        let prefix = self.length_prefix();
        let mut bytes: Vec<u8> = Vec::new();
        bytes.push(prefix[0]);
        bytes.push(prefix[1]);
        bytes.push(self.object_type);
        bytes.extend_from_slice(self.data.as_slice());
        assert(bytes@ =~= record(*self));
        bytes
    }
}

/// As long as the data and the type byte fit the two-byte field, the length
/// field read back as a little-endian number counts exactly the bytes that
/// follow it in the record.
pub proof fn lemma_length_field_counts_rest(object: Object)
    requires
        object.data@.len() < 0xffff,
    ensures
        record(object)[0] + 256 * record(object)[1] == object.data@.len() + 1,
        record(object)[0] + 256 * record(object)[1] == record(object).len() - 2,
{
}

/// The encoded stream of `objects`: their records, one after the other.
pub fn encode_all(objects: &[Object]) -> (bytes: Vec<u8>)
    ensures
        bytes@ == stream(objects@),
{
    let mut bytes: Vec<u8> = Vec::new();
    let mut i: usize = 0;
    assert(objects@.take(0) =~= Seq::<Object>::empty());
    while i < objects.len()
        invariant
            i <= objects@.len(),
            bytes@ == stream(objects@.take(i as int)),
        decreases objects@.len() - i,
    {
        let mut record = objects[i].encode();
        proof {
            lemma_stream_take_next(objects@, i as int);
        }
        bytes.append(&mut record);
        i += 1;
    }
    assert(objects@.take(i as int) =~= objects@);
    bytes
}

/// The stream of the first `k + 1` objects is the stream of the first `k`
/// followed by the record of object `k`.
pub proof fn lemma_stream_take_next(objects: Seq<Object>, k: int)
    requires
        0 <= k < objects.len(),
    ensures
        stream(objects.take(k + 1)) == stream(objects.take(k)) + record(objects[k]),
{
    assert(objects.take(k + 1).drop_last() =~= objects.take(k));
}

/// The stream of a prefix of the objects is a prefix of the stream.
pub proof fn lemma_stream_prefix(objects: Seq<Object>, k: int)
    requires
        0 <= k <= objects.len(),
    ensures
        stream(objects.take(k)).len() <= stream(objects).len(),
        stream(objects.take(k)) == stream(objects).take(stream(objects.take(k)).len() as int),
    decreases objects.len() - k,
{
    if k == objects.len() {
        assert(objects.take(k) =~= objects);
        assert(stream(objects) =~= stream(objects).take(stream(objects).len() as int));
    } else {
        lemma_stream_prefix(objects, k + 1);
        lemma_stream_take_next(objects, k);
        let shorter = stream(objects.take(k));
        let longer = stream(objects.take(k + 1));
        assert(shorter =~= longer.take(shorter.len() as int));
        assert(shorter =~= stream(objects).take(shorter.len() as int));
    }
}

/// Records are laid end to end with nothing between them: the stream of two
/// object sequences, one after the other, is the two streams, one after the
/// other.
pub proof fn lemma_stream_concat(first: Seq<Object>, second: Seq<Object>)
    ensures
        stream(first + second) == stream(first) + stream(second),
    decreases second.len(),
{
    if second.len() == 0 {
        assert(first + second =~= first);
        assert(stream(first) + stream(second) =~= stream(first));
    } else {
        lemma_stream_concat(first, second.drop_last());
        assert((first + second).drop_last() =~= first + second.drop_last());
        assert((first + second).last() == second.last());
        assert(stream(first + second) =~= stream(first) + stream(second));
    }
}

} // verus!
