use vstd::prelude::*;
use vstd::bytes::{spec_u32_from_le_bytes, spec_u32_to_le_bytes, u32_to_le_bytes};
use crate::decode::{check_len_outcome, check_type_outcome, Decode};
use crate::type_id::{TYPE_BOOL, TYPE_U32};

verus! {

/// Writes the canonical tagged encoding into a byte buffer, front to back.
pub struct Encoder {
    buf: Vec<u8>,
    with_type: bool,
}

impl Encoder {
    /// The bytes written so far.
    pub closed spec fn bytes(&self) -> Seq<u8> {
        self.buf@
    }

    /// Whether type tags are written.
    pub closed spec fn typed(&self) -> bool {
        self.with_type
    }

    pub fn new(with_type: bool) -> (r: Self)
        ensures
            r.bytes() == Seq::<u8>::empty(),
            r.typed() == with_type,
    {
        Encoder { buf: Vec::new(), with_type }
    }

    pub fn with_type() -> (r: Self)
        ensures
            r.bytes() == Seq::<u8>::empty(),
            r.typed(),
    {
        Self::new(true)
    }

    pub fn no_type() -> (r: Self)
        ensures
            r.bytes() == Seq::<u8>::empty(),
            !r.typed(),
    {
        Self::new(false)
    }

    /// Writes a type tag, in typed mode only.
    pub fn write_type(&mut self, ty: u8)
        ensures
            final(self).typed() == old(self).typed(),
            old(self).typed() ==> final(self).bytes() == old(self).bytes().push(ty),
            !old(self).typed() ==> final(self).bytes() == old(self).bytes(),
    {
        if self.with_type {
            self.buf.push(ty);
        }
    }

    pub fn write_u8(&mut self, v: u8)
        ensures
            final(self).typed() == old(self).typed(),
            final(self).bytes() == old(self).bytes().push(v),
    {
        self.buf.push(v);
    }

    /// Writes a length as four little-endian bytes.
    pub fn write_len(&mut self, len: usize)
        requires
            len <= u32::MAX,
        ensures
            final(self).typed() == old(self).typed(),
            final(self).bytes() == old(self).bytes() + spec_u32_to_le_bytes(len as u32),
    {
        let mut b = u32_to_le_bytes(len as u32);
        self.buf.append(&mut b);
    }

    pub fn write_slice(&mut self, slice: &[u8])
        ensures
            final(self).typed() == old(self).typed(),
            final(self).bytes() == old(self).bytes() + slice@,
    {
        let mut i: usize = 0;
        let ghost start = self.buf@;
        while i < slice.len()
            invariant
                i <= slice@.len(),
                self.buf@ == start + slice@.take(i as int),
                self.with_type == old(self).with_type,
                start == old(self).buf@,
            decreases slice@.len() - i,
        {
            self.buf.push(slice[i]);
            i = i + 1;
            proof {
                assert(self.buf@ =~= start + slice@.take(i as int));
            }
        }
        proof {
            assert(slice@.take(slice@.len() as int) =~= slice@);
        }
    }

    /// Hands out the bytes written.
    pub fn into_bytes(self) -> (r: Vec<u8>)
        ensures
            r@ == self.bytes(),
    {
        self.buf
    }
}

/// A type tag written by an encoder is accepted by a typed decoder expecting that tag,
/// whatever follows it.
pub proof fn lemma_type_round_trip(ty: u8, rest: Seq<u8>)
    ensures
        check_type_outcome(seq![ty] + rest, ty) is Ok,
{
    assert((seq![ty] + rest)[0] == ty);
}

/// A length written by an encoder reads back as the same length, whatever follows it;
/// a decoder expecting any other length rejects it.
pub proof fn lemma_len_round_trip(len: u32, other: usize, rest: Seq<u8>)
    ensures
        spec_u32_from_le_bytes((spec_u32_to_le_bytes(len) + rest).take(4)) == len,
        check_len_outcome(spec_u32_to_le_bytes(len) + rest, len as usize) is Ok,
        other != len as usize ==> check_len_outcome(spec_u32_to_le_bytes(len) + rest, other)
            is Err,
{
    vstd::bytes::lemma_auto_spec_u32_to_from_le_bytes();
    assert((spec_u32_to_le_bytes(len) + rest).take(4) =~= spec_u32_to_le_bytes(len));
}

/// A `u32` written as its tag and four little-endian bytes decodes back to itself, and
/// decoding is owed to succeed there, whatever follows.
pub proof fn lemma_u32_round_trip(v: u32, rest: Seq<u8>)
    ensures
        ({
            let b = seq![TYPE_U32] + spec_u32_to_le_bytes(v) + rest;
            &&& b[0] == <u32 as Decode>::spec_type_id()
            &&& <u32 as Decode>::spec_ok(b, 1, true)
            &&& forall|w: u32, q: int| <u32 as Decode>::spec_decodes(b, 1, true, w, q) ==> w == v && q == 5
        }),
{
    vstd::bytes::lemma_auto_spec_u32_to_from_le_bytes();
    let b = seq![TYPE_U32] + spec_u32_to_le_bytes(v) + rest;
    assert(b.subrange(1, 5) =~= spec_u32_to_le_bytes(v));
}

/// A `bool` written as its tag and one byte, 1 for true and 0 for false, decodes back to
/// itself, whatever follows.
pub proof fn lemma_bool_round_trip(v: bool, rest: Seq<u8>)
    ensures
        ({
            let b = seq![TYPE_BOOL, if v { 1u8 } else { 0u8 }] + rest;
            &&& b[0] == <bool as Decode>::spec_type_id()
            &&& <bool as Decode>::spec_ok(b, 1, true)
            &&& forall|w: bool, q: int| <bool as Decode>::spec_decodes(b, 1, true, w, q) ==> w == v && q == 2
        }),
{
}

} // verus!
