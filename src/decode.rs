use vstd::prelude::*;
use vstd::bytes::{
    spec_u128_from_le_bytes, spec_u16_from_le_bytes, spec_u64_from_le_bytes,
    spec_u32_from_le_bytes, u128_from_le_bytes, u16_from_le_bytes, u32_from_le_bytes,
    u64_from_le_bytes,
};
use vstd::slice::slice_to_vec;
use std::collections::{BTreeMap, BTreeSet, HashMap, HashSet};
use std::hash::Hash;
use vstd::laws_cmp::obeys_cmp;
use vstd::std_specs::hash::{builds_valid_hashers, obeys_key_model};
use std::cell::RefCell;
use std::rc::Rc;
use crate::type_id::{
    OPTION_TYPE_NONE, OPTION_TYPE_SOME, RESULT_TYPE_ERR, RESULT_TYPE_OK, TYPE_ARRAY, TYPE_BOOL,
    TYPE_I128, TYPE_I16, TYPE_I32, TYPE_I64, TYPE_I8, TYPE_OPTION, TYPE_RESULT, TYPE_STRING,
    TYPE_TREE_MAP, TYPE_TREE_SET, TYPE_TUPLE, TYPE_U128, TYPE_U16, TYPE_U32, TYPE_U64, TYPE_U8,
    TYPE_UNIT, TYPE_VEC, TYPE_HASH_MAP, TYPE_HASH_SET,
};
use vstd::slice::slice_subrange;

verus! {

/// Represents an error that occurred during decoding.
#[derive(Debug, Clone, PartialEq, Eq)]
pub enum DecodeError {
    Underflow { required: usize, remaining: usize },
    InvalidType { expected: Option<u8>, actual: u8 },
    InvalidName { expected: String, actual: String },
    InvalidLength { expected: usize, actual: usize },
    InvalidIndex(u8),
    InvalidEnumVariant(String),
    InvalidBool(u8),
    InvalidUtf8,
    NotAllBytesUsed(usize),
    CustomError(String),
}

/// Reads the canonical tagged encoding from a byte slice, front to back.
pub struct Decoder<'de> {
    input: &'de [u8],
    offset: usize,
    with_type: bool,
}

impl<'de> Decoder<'de> {
    /// The whole input.
    pub closed spec fn bytes(&self) -> Seq<u8> {
        self.input@
    }

    /// How many bytes have been consumed.
    pub closed spec fn pos(&self) -> int {
        self.offset as int
    }

    /// Whether every value is preceded by its type tag.
    pub closed spec fn typed(&self) -> bool {
        self.with_type
    }

    /// The cursor lies within the input.
    pub open spec fn wf(&self) -> bool {
        0 <= self.pos() <= self.bytes().len()
    }

    /// The bytes not yet consumed.
    pub open spec fn rest(&self) -> Seq<u8> {
        self.bytes().subrange(self.pos(), self.bytes().len() as int)
    }

    /// Same input and mode, cursor moved forward by `n` bytes.
    pub open spec fn advanced(&self, other: &Decoder<'de>, n: int) -> bool {
        &&& other.bytes() == self.bytes()
        &&& other.typed() == self.typed()
        &&& other.pos() == self.pos() + n
    }

    /// Same input and mode, cursor not moved backward.
    pub open spec fn moved_on(&self, other: &Decoder<'de>) -> bool {
        &&& other.bytes() == self.bytes()
        &&& other.typed() == self.typed()
        &&& self.pos() <= other.pos() <= other.bytes().len()
    }

    pub fn new(input: &'de [u8], with_type: bool) -> (r: Self)
        ensures
            r.bytes() == input@,
            r.pos() == 0,
            r.typed() == with_type,
            r.wf(),
    {
        Self { input, offset: 0, with_type }
    }

    pub fn with_type(input: &'de [u8]) -> (r: Self)
        ensures
            r.bytes() == input@,
            r.pos() == 0,
            r.typed(),
    {
        Self::new(input, true)
    }

    pub fn no_type(input: &'de [u8]) -> (r: Self)
        ensures
            r.bytes() == input@,
            r.pos() == 0,
            !r.typed(),
    {
        Self::new(input, false)
    }

    /// The whole input.
    pub fn input(&self) -> (r: &'de [u8])
        ensures
            r@ == self.bytes(),
    {
        self.input
    }

    /// How many bytes have been consumed.
    pub fn position(&self) -> (r: usize)
        ensures
            r == self.pos(),
    {
        self.offset
    }

    pub fn remaining(&self) -> (r: usize)
        requires
            self.wf(),
        ensures
            r == self.bytes().len() - self.pos(),
    {
        self.input.len() - self.offset
    }

    pub fn require(&self, n: usize) -> (r: Result<(), DecodeError>)
        requires
            self.wf(),
        ensures
            r is Ok <==> n <= self.bytes().len() - self.pos(),
            r is Err ==> r == Err::<(), DecodeError>(
                DecodeError::Underflow {
                    required: n,
                    remaining: (self.bytes().len() - self.pos()) as usize,
                },
            ),
    {
        if self.remaining() < n {
            Err(DecodeError::Underflow { required: n, remaining: self.remaining() })
        } else {
            Ok(())
        }
    }

    pub fn read_type(&mut self) -> (r: Result<u8, DecodeError>)
        requires
            old(self).wf(),
        ensures
            final(self).wf(),
            old(self).pos() < old(self).bytes().len() ==> r == Ok::<u8, DecodeError>(
                old(self).bytes()[old(self).pos()],
            ) && old(self).advanced(final(self), 1),
            old(self).pos() == old(self).bytes().len() ==> r == Err::<u8, DecodeError>(
                DecodeError::Underflow { required: 1, remaining: 0 },
            ) && *final(self) == *old(self),
    {
        self.read_u8()
    }

    pub fn read_len(&mut self) -> (r: Result<usize, DecodeError>)
        requires
            old(self).wf(),
        ensures
            final(self).wf(),
            old(self).pos() + 4 <= old(self).bytes().len() ==> r == Ok::<usize, DecodeError>(
                spec_u32_from_le_bytes(old(self).rest().take(4)) as usize,
            ) && old(self).advanced(final(self), 4),
            old(self).pos() + 4 > old(self).bytes().len() ==> r == Err::<usize, DecodeError>(
                DecodeError::Underflow {
                    required: 4,
                    remaining: (old(self).bytes().len() - old(self).pos()) as usize,
                },
            ) && *final(self) == *old(self),
    {
        let bytes = self.read_bytes(4)?;
        Ok(u32_from_le_bytes(bytes) as usize)
    }

    pub fn read_u8(&mut self) -> (r: Result<u8, DecodeError>)
        requires
            old(self).wf(),
        ensures
            final(self).wf(),
            old(self).pos() < old(self).bytes().len() ==> r == Ok::<u8, DecodeError>(
                old(self).bytes()[old(self).pos()],
            ) && old(self).advanced(final(self), 1),
            old(self).pos() == old(self).bytes().len() ==> r == Err::<u8, DecodeError>(
                DecodeError::Underflow { required: 1, remaining: 0 },
            ) && *final(self) == *old(self),
    {
        if self.offset >= self.input.len() {
            return Err(DecodeError::Underflow { required: 1, remaining: 0 });
        }
        let result = self.input[self.offset];
        self.offset = self.offset + 1;
        Ok(result)
    }

    pub fn read_bytes(&mut self, n: usize) -> (r: Result<&'de [u8], DecodeError>)
        requires
            old(self).wf(),
        ensures
            final(self).wf(),
            old(self).pos() + n <= old(self).bytes().len() ==> r is Ok && r->Ok_0@ == old(
                self,
            ).rest().take(n as int) && old(self).advanced(final(self), n as int),
            old(self).pos() + n > old(self).bytes().len() ==> r == Err::<&'de [u8], DecodeError>(
                DecodeError::Underflow {
                    required: n,
                    remaining: (old(self).bytes().len() - old(self).pos()) as usize,
                },
            ) && *final(self) == *old(self),
    {
        let rem = self.input.len() - self.offset;
        if rem < n {
            return Err(DecodeError::Underflow { required: n, remaining: rem });
        }
        let slice = slice_subrange(self.input, self.offset, self.offset + n);
        self.offset = self.offset + n;
        proof {
            assert(slice@ =~= old(self).rest().take(n as int));
        }
        Ok(slice)
    }

    pub fn check_type(&mut self, expected: u8) -> (r: Result<(), DecodeError>)
        requires
            old(self).wf(),
        ensures
            final(self).wf(),
            !old(self).typed() ==> r is Ok && *final(self) == *old(self),
            old(self).typed() ==> r == check_type_outcome(old(self).rest(), expected),
            old(self).typed() && r is Ok ==> old(self).advanced(final(self), 1),
            old(self).typed() && (r matches Err(DecodeError::InvalidType { .. })) ==> old(
                self,
            ).advanced(final(self), 1),
            (r matches Err(DecodeError::Underflow { .. })) ==> *final(self) == *old(self),
            r is Err ==> old(self).moved_on(final(self)),
    {
        if self.with_type {
            let ty = self.read_type()?;
            if ty != expected {
                return Err(DecodeError::InvalidType { expected: Some(expected), actual: ty });
            }
        }
        Ok(())
    }

    pub fn check_len(&mut self, expected: usize) -> (r: Result<(), DecodeError>)
        requires
            old(self).wf(),
        ensures
            final(self).wf(),
            r == check_len_outcome(old(self).rest(), expected),
            r is Ok ==> old(self).advanced(final(self), 4),
            (r matches Err(DecodeError::InvalidLength { .. })) ==> old(self).advanced(final(self), 4),
            (r matches Err(DecodeError::Underflow { .. })) ==> *final(self) == *old(self),
            r is Err ==> old(self).moved_on(final(self)),
    {
        let len = self.read_len()?;
        if len != expected {
            return Err(DecodeError::InvalidLength { expected, actual: len });
        }
        Ok(())
    }

    pub fn check_end(&self) -> (r: Result<(), DecodeError>)
        requires
            self.wf(),
        ensures
            r is Ok <==> self.pos() == self.bytes().len(),
            r is Err ==> r == Err::<(), DecodeError>(
                DecodeError::NotAllBytesUsed((self.bytes().len() - self.pos()) as usize),
            ),
    {
        let n = self.remaining();
        if n != 0 {
            Err(DecodeError::NotAllBytesUsed(n))
        } else {
            Ok(())
        }
    }
}

/// What checking for type tag `expected` yields on the unread bytes `rest` of a typed decoder.
pub open spec fn check_type_outcome(rest: Seq<u8>, expected: u8) -> Result<(), DecodeError> {
    if rest.len() == 0 {
        Err(DecodeError::Underflow { required: 1, remaining: 0 })
    } else if rest[0] != expected {
        Err(DecodeError::InvalidType { expected: Some(expected), actual: rest[0] })
    } else {
        Ok(())
    }
}

/// What checking for a length prefix equal to `expected` yields on the unread bytes `rest`.
pub open spec fn check_len_outcome(rest: Seq<u8>, expected: usize) -> Result<(), DecodeError> {
    if rest.len() < 4 {
        Err(DecodeError::Underflow { required: 4, remaining: rest.len() as usize })
    } else if spec_u32_from_le_bytes(rest.take(4)) as usize != expected {
        Err(
            DecodeError::InvalidLength {
                expected,
                actual: spec_u32_from_le_bytes(rest.take(4)) as usize,
            },
        )
    } else {
        Ok(())
    }
}

/// The text that the bytes `b` spell in UTF-8, or `None` where they are not valid UTF-8.
pub uninterp spec fn utf8_text(b: Seq<u8>) -> Option<Seq<char>>;

/// Relies on `String::from_utf8`: it accepts exactly the valid UTF-8 byte strings and keeps
/// their text.
#[verifier::external_body]
pub(crate) fn string_from_utf8(b: Vec<u8>) -> (r: Option<String>)
    ensures
        r is Some <==> utf8_text(b@) is Some,
        r is Some ==> utf8_text(b@) == Some(r->Some_0@),
{
    String::from_utf8(b).ok()
}

/// std's `RefCell`, carried as an opaque value.
#[verifier::external_type_specification]
#[verifier::external_body]
#[verifier::reject_recursive_types(T)]
pub struct ExRefCell<T: ?Sized>(RefCell<T>);

/// Relies on `RefCell::new`: it wraps the value and never fails. Nothing is stated of the
/// opaque result.
pub assume_specification<T>[ RefCell::<T>::new ](value: T) -> RefCell<T>;

/// The four-byte little-endian length at `p`.
pub open spec fn length_at(b: Seq<u8>, p: int) -> int {
    spec_u32_from_le_bytes(b.subrange(p, p + 4)) as int
}

/// Where the body of a value at `p` starts: after its tag in typed mode.
pub open spec fn body_at(p: int, typed: bool) -> int {
    if typed {
        p + 1
    } else {
        p
    }
}

/// Decoding a whole value of type `T` at `p`, its tag first in typed mode, is owed to succeed.
pub open spec fn full_ok<T: Decode>(b: Seq<u8>, p: int, typed: bool) -> bool {
    &&& typed ==> p < b.len() && b[p] == T::spec_type_id()
    &&& T::spec_ok(b, body_at(p, typed), typed)
}

/// Decoding a whole value of type `T` at `p` gives `v` and ends at `q`.
pub open spec fn full_decodes<T: Decode>(b: Seq<u8>, p: int, typed: bool, v: T, q: int) -> bool {
    &&& typed ==> p < b.len() && b[p] == T::spec_type_id()
    &&& T::spec_decodes(b, body_at(p, typed), typed, v, q)
}

/// `n` bodies of type `T` one after another from `p` are each owed to decode.
pub open spec fn elements_ok<T: Decode>(b: Seq<u8>, p: int, typed: bool, n: nat) -> bool
    decreases n,
{
    if n == 0 {
        true
    } else {
        T::spec_ok(b, p, typed) && elements_ok::<T>(b, T::spec_end(b, p, typed), typed, (n - 1) as nat)
    }
}

/// Where `n` bodies of type `T` one after another from `p` end.
pub open spec fn elements_end<T: Decode>(b: Seq<u8>, p: int, typed: bool, n: nat) -> int
    decreases n,
{
    if n == 0 {
        p
    } else {
        elements_end::<T>(b, T::spec_end(b, p, typed), typed, (n - 1) as nat)
    }
}

/// `T` behaves as a key of std's hash collections, with their default hasher.
pub open spec fn hashes_well<T>() -> bool {
    obeys_key_model::<T>() && builds_valid_hashers::<std::hash::RandomState>()
}

/// Where the pairs of a map body start: after the key and value tags in typed mode.
pub open spec fn map_body(p: int, typed: bool) -> int {
    if typed {
        p + 2
    } else {
        p
    }
}

/// `n` key-value pairs one after another from `p` are each owed to decode.
pub open spec fn pairs_ok<K: Decode, V: Decode>(b: Seq<u8>, p: int, typed: bool, n: nat) -> bool
    decreases n,
{
    if n == 0 {
        true
    } else {
        K::spec_ok(b, p, typed) && V::spec_ok(b, K::spec_end(b, p, typed), typed) && pairs_ok::<
            K,
            V,
        >(b, V::spec_end(b, K::spec_end(b, p, typed), typed), typed, (n - 1) as nat)
    }
}

/// Where `n` key-value pairs one after another from `p` end.
pub open spec fn pairs_end<K: Decode, V: Decode>(b: Seq<u8>, p: int, typed: bool, n: nat) -> int
    decreases n,
{
    if n == 0 {
        p
    } else {
        pairs_end::<K, V>(b, V::spec_end(b, K::spec_end(b, p, typed), typed), typed, (n - 1) as nat)
    }
}

/// The pairs `(ks[i], vs[i])`, key then value, one after another from `p`, end at `q`.
pub open spec fn pairs_decode<K: Decode, V: Decode>(
    b: Seq<u8>,
    p: int,
    typed: bool,
    ks: Seq<K>,
    vs: Seq<V>,
    q: int,
) -> bool {
    exists|ps: Seq<int>, ms: Seq<int>|
        #![trigger ps.len(), ms.len()]
        ps.len() == ks.len() + 1 && ms.len() == ks.len() && vs.len() == ks.len() && ps[0] == p
            && ps[ks.len() as int] == q && forall|i: int|
            0 <= i < ks.len() ==> K::spec_decodes(b, #[trigger] ps[i], typed, ks[i], ms[i])
                && V::spec_decodes(b, ms[i], typed, vs[i], ps[i + 1])
}

/// Every run of at most `n` pairs decoded one after another from `p` has different keys.
pub open spec fn keys_distinct<K: Decode, V: Decode>(b: Seq<u8>, p: int, typed: bool, n: int) -> bool {
    forall|ks: Seq<K>, vs: Seq<V>, q: int|
        #![trigger pairs_decode::<K, V>(b, p, typed, ks, vs, q)]
        ks.len() <= n && pairs_decode::<K, V>(b, p, typed, ks, vs, q) ==> ks.no_duplicates()
}

proof fn lemma_keys_push<K, V>(before: Map<K, V>, after: Map<K, V>, ks: Seq<K>, vs: Seq<V>, k: K, v: V)
    requires
        after == before.insert(k, v),
        before == pairs_map(ks, vs),
        ks.len() == vs.len(),
        ks.no_duplicates(),
        forall|x: K| #[trigger] before.contains_key(x) <==> ks.contains(x),
        !ks.contains(k),
    ensures
        after == pairs_map(ks.push(k), vs.push(v)),
        ks.push(k).no_duplicates(),
        forall|x: K| #[trigger] after.contains_key(x) <==> ks.push(k).contains(x),
{
    let ks2 = ks.push(k);
    assert(ks2.drop_last() =~= ks && vs.push(v).drop_last() =~= vs);
    assert forall|x: K| #[trigger] after.contains_key(x) <==> ks2.contains(x) by {
        if x == k {
            assert(ks2[ks.len() as int] == k);
        } else if ks.contains(x) {
            let m = choose|m: int| 0 <= m < ks.len() && ks[m] == x;
            assert(ks2[m] == x);
        } else if ks2.contains(x) {
            let m = choose|m: int| 0 <= m < ks2.len() && ks2[m] == x;
            assert(ks[m] == x);
        }
    }
    assert forall|x: int, y: int| 0 <= x < ks2.len() && 0 <= y < ks2.len() && x != y implies ks2[x]
        != ks2[y] by {
        if x != ks.len() {
            assert(ks.contains(ks[x]));
        }
        if y != ks.len() {
            assert(ks.contains(ks[y]));
        }
    }
}

/// The map that putting the pairs `(ks[i], vs[i])` in order gives.
pub open spec fn pairs_map<K, V>(ks: Seq<K>, vs: Seq<V>) -> Map<K, V>
    decreases ks.len(),
{
    if ks.len() == 0 || vs.len() == 0 {
        Map::empty()
    } else {
        pairs_map(ks.drop_last(), vs.drop_last()).insert(ks.last(), vs.last())
    }
}

/// Every run of at most `n` elements of type `T` decoded one after another from `p` holds
/// different values.
pub open spec fn prefix_distinct<T: Decode>(b: Seq<u8>, p: int, typed: bool, n: int) -> bool {
    forall|vs: Seq<T>, q: int|
        #![trigger elements_decode::<T>(b, p, typed, vs, q)]
        vs.len() <= n && elements_decode::<T>(b, p, typed, vs, q) ==> vs.no_duplicates()
}

/// The bodies of `vs`, one after another from `p`, end at `q`.
pub open spec fn elements_decode<T: Decode>(b: Seq<u8>, p: int, typed: bool, vs: Seq<T>, q: int) -> bool {
    exists|ps: Seq<int>|
        #![trigger ps.len()]
        ps.len() == vs.len() + 1 && ps[0] == p && ps[vs.len() as int] == q && forall|i: int|
            0 <= i < vs.len() ==> T::spec_decodes(b, #[trigger] ps[i], typed, vs[i], ps[i + 1])
}

/// A data structure that can be decoded from a byte array.
pub trait Decode: Sized {
    /// The type tag that precedes a value of this type in typed mode. A type that leaves it
    /// out promises nothing of its tag.
    open spec fn spec_type_id() -> u8 {
        0
    }

    /// Inputs on which decoding the body of a value of this type at `p` is owed to succeed.
    /// A type that leaves it out promises success on no input.
    open spec fn spec_ok(b: Seq<u8>, p: int, typed: bool) -> bool {
        false
    }

    /// Where decoding a body at `p` ends when it is owed to succeed.
    open spec fn spec_end(b: Seq<u8>, p: int, typed: bool) -> int {
        p
    }

    /// A successful decoding of a body at `p` gives `v` and ends at `q`. A type that leaves
    /// it out says nothing of what it gives.
    open spec fn spec_decodes(b: Seq<u8>, p: int, typed: bool, v: Self, q: int) -> bool {
        true
    }

    fn type_id() -> (r: u8)
        ensures
            r == Self::spec_type_id(),
    ;

    fn decode(decoder: &mut Decoder) -> (r: Result<Self, DecodeError>)
        requires
            old(decoder).wf(),
        ensures
            old(decoder).moved_on(final(decoder)),
            (old(decoder).typed() ==> old(decoder).pos() < old(decoder).bytes().len()
                && old(decoder).bytes()[old(decoder).pos()] == Self::spec_type_id()) && Self::spec_ok(
                old(decoder).bytes(),
                if old(decoder).typed() {
                    old(decoder).pos() + 1
                } else {
                    old(decoder).pos()
                },
                old(decoder).typed(),
            ) ==> r is Ok && final(decoder).pos() == Self::spec_end(
                old(decoder).bytes(),
                if old(decoder).typed() {
                    old(decoder).pos() + 1
                } else {
                    old(decoder).pos()
                },
                old(decoder).typed(),
            ),
            r is Ok ==> (old(decoder).typed() ==> old(decoder).pos() < old(decoder).bytes().len()
                && old(decoder).bytes()[old(decoder).pos()] == Self::spec_type_id())
                && Self::spec_decodes(
                old(decoder).bytes(),
                if old(decoder).typed() {
                    old(decoder).pos() + 1
                } else {
                    old(decoder).pos()
                },
                old(decoder).typed(),
                r->Ok_0,
                final(decoder).pos(),
            ),
    {
        Self::decode_type(decoder)?;
        Self::decode_value(decoder)
    }

    fn decode_type(decoder: &mut Decoder) -> (r: Result<(), DecodeError>)
        requires
            old(decoder).wf(),
        ensures
            old(decoder).moved_on(final(decoder)),
            !old(decoder).typed() ==> r is Ok && *final(decoder) == *old(decoder),
            old(decoder).typed() ==> r == check_type_outcome(old(decoder).rest(), Self::spec_type_id()),
            old(decoder).typed() && r is Ok ==> old(decoder).advanced(final(decoder), 1),
    ;

    fn decode_value(decoder: &mut Decoder) -> (r: Result<Self, DecodeError>)
        requires
            old(decoder).wf(),
        ensures
            old(decoder).moved_on(final(decoder)),
            Self::spec_ok(old(decoder).bytes(), old(decoder).pos(), old(decoder).typed()) ==> r is Ok
                && final(decoder).pos() == Self::spec_end(
                old(decoder).bytes(),
                old(decoder).pos(),
                old(decoder).typed(),
            ),
            r is Ok ==> Self::spec_decodes(
                old(decoder).bytes(),
                old(decoder).pos(),
                old(decoder).typed(),
                r->Ok_0,
                final(decoder).pos(),
            ),
    ;
}

/// What `rest` means in terms of the whole input.
pub proof fn lemma_rest_take(d: Decoder, n: int)
    requires
        d.wf(),
        0 <= n,
    ensures
        d.pos() + n <= d.bytes().len() ==> d.rest().take(n) == d.bytes().subrange(
            d.pos(),
            d.pos() + n,
        ),
        d.pos() < d.bytes().len() ==> d.rest()[0] == d.bytes()[d.pos()],
{
    if d.pos() + n <= d.bytes().len() {
        assert(d.rest().take(n) =~= d.bytes().subrange(d.pos(), d.pos() + n));
    }
}

impl Decode for () {

    open spec fn spec_type_id() -> u8 {
        TYPE_UNIT
    }

    open spec fn spec_ok(b: Seq<u8>, p: int, typed: bool) -> bool {
        true
    }

    open spec fn spec_end(b: Seq<u8>, p: int, typed: bool) -> int {
        p
    }

    open spec fn spec_decodes(b: Seq<u8>, p: int, typed: bool, v: Self, q: int) -> bool {
        q == p
    }
    fn type_id() -> (r: u8) {
        TYPE_UNIT
    }

    fn decode_type(decoder: &mut Decoder) -> (r: Result<(), DecodeError>) {
        decoder.check_type(Self::type_id())
    }

    fn decode_value(decoder: &mut Decoder) -> (r: Result<Self, DecodeError>) {
        Ok(())
    }
}

impl Decode for bool {

    open spec fn spec_type_id() -> u8 {
        TYPE_BOOL
    }

    open spec fn spec_ok(b: Seq<u8>, p: int, typed: bool) -> bool {
        p < b.len() && b[p] <= 1
    }

    open spec fn spec_end(b: Seq<u8>, p: int, typed: bool) -> int {
        p + 1
    }

    open spec fn spec_decodes(b: Seq<u8>, p: int, typed: bool, v: Self, q: int) -> bool {
        p < b.len() && b[p] <= 1 && v == (b[p] == 1) && q == p + 1
    }
    fn type_id() -> (r: u8) {
        TYPE_BOOL
    }

    fn decode_type(decoder: &mut Decoder) -> (r: Result<(), DecodeError>) {
        decoder.check_type(Self::type_id())
    }

    fn decode_value(decoder: &mut Decoder) -> (r: Result<Self, DecodeError>) {
        let value = decoder.read_u8()?;
        if value == 0 {
            Ok(false)
        } else if value == 1 {
            Ok(true)
        } else {
            Err(DecodeError::InvalidBool(value))
        }
    }
}

impl Decode for i8 {

    open spec fn spec_type_id() -> u8 {
        TYPE_I8
    }

    open spec fn spec_ok(b: Seq<u8>, p: int, typed: bool) -> bool {
        p < b.len()
    }

    open spec fn spec_end(b: Seq<u8>, p: int, typed: bool) -> int {
        p + 1
    }

    open spec fn spec_decodes(b: Seq<u8>, p: int, typed: bool, v: Self, q: int) -> bool {
        p < b.len() && v == b[p] as i8 && q == p + 1
    }
    fn type_id() -> (r: u8) {
        TYPE_I8
    }

    fn decode_type(decoder: &mut Decoder) -> (r: Result<(), DecodeError>) {
        decoder.check_type(Self::type_id())
    }

    fn decode_value(decoder: &mut Decoder) -> (r: Result<Self, DecodeError>) {
        let value = decoder.read_u8()?;
        Ok(value as i8)
    }
}

impl Decode for u8 {

    open spec fn spec_type_id() -> u8 {
        TYPE_U8
    }

    open spec fn spec_ok(b: Seq<u8>, p: int, typed: bool) -> bool {
        p < b.len()
    }

    open spec fn spec_end(b: Seq<u8>, p: int, typed: bool) -> int {
        p + 1
    }

    open spec fn spec_decodes(b: Seq<u8>, p: int, typed: bool, v: Self, q: int) -> bool {
        p < b.len() && v == b[p] && q == p + 1
    }
    fn type_id() -> (r: u8) {
        TYPE_U8
    }

    fn decode_type(decoder: &mut Decoder) -> (r: Result<(), DecodeError>) {
        decoder.check_type(Self::type_id())
    }

    fn decode_value(decoder: &mut Decoder) -> (r: Result<Self, DecodeError>) {
        decoder.read_u8()
    }
}

impl Decode for u16 {

    open spec fn spec_type_id() -> u8 {
        TYPE_U16
    }

    open spec fn spec_ok(b: Seq<u8>, p: int, typed: bool) -> bool {
        p + 2 <= b.len()
    }

    open spec fn spec_end(b: Seq<u8>, p: int, typed: bool) -> int {
        p + 2
    }

    open spec fn spec_decodes(b: Seq<u8>, p: int, typed: bool, v: Self, q: int) -> bool {
        p + 2 <= b.len() && v == spec_u16_from_le_bytes(b.subrange(p, p + 2)) && q == p + 2
    }
    fn type_id() -> (r: u8) {
        TYPE_U16
    }

    fn decode_type(decoder: &mut Decoder) -> (r: Result<(), DecodeError>) {
        decoder.check_type(Self::type_id())
    }

    fn decode_value(decoder: &mut Decoder) -> (r: Result<Self, DecodeError>) {
        proof {
            lemma_rest_take(*decoder, 2);
        }
        let slice = decoder.read_bytes(2)?;
        Ok(u16_from_le_bytes(slice))
    }
}

impl Decode for u32 {

    open spec fn spec_type_id() -> u8 {
        TYPE_U32
    }

    open spec fn spec_ok(b: Seq<u8>, p: int, typed: bool) -> bool {
        p + 4 <= b.len()
    }

    open spec fn spec_end(b: Seq<u8>, p: int, typed: bool) -> int {
        p + 4
    }

    open spec fn spec_decodes(b: Seq<u8>, p: int, typed: bool, v: Self, q: int) -> bool {
        p + 4 <= b.len() && v == spec_u32_from_le_bytes(b.subrange(p, p + 4)) && q == p + 4
    }
    fn type_id() -> (r: u8) {
        TYPE_U32
    }

    fn decode_type(decoder: &mut Decoder) -> (r: Result<(), DecodeError>) {
        decoder.check_type(Self::type_id())
    }

    fn decode_value(decoder: &mut Decoder) -> (r: Result<Self, DecodeError>) {
        proof {
            lemma_rest_take(*decoder, 4);
        }
        let slice = decoder.read_bytes(4)?;
        Ok(u32_from_le_bytes(slice))
    }
}

impl Decode for u64 {

    open spec fn spec_type_id() -> u8 {
        TYPE_U64
    }

    open spec fn spec_ok(b: Seq<u8>, p: int, typed: bool) -> bool {
        p + 8 <= b.len()
    }

    open spec fn spec_end(b: Seq<u8>, p: int, typed: bool) -> int {
        p + 8
    }

    open spec fn spec_decodes(b: Seq<u8>, p: int, typed: bool, v: Self, q: int) -> bool {
        p + 8 <= b.len() && v == spec_u64_from_le_bytes(b.subrange(p, p + 8)) && q == p + 8
    }
    fn type_id() -> (r: u8) {
        TYPE_U64
    }

    fn decode_type(decoder: &mut Decoder) -> (r: Result<(), DecodeError>) {
        decoder.check_type(Self::type_id())
    }

    fn decode_value(decoder: &mut Decoder) -> (r: Result<Self, DecodeError>) {
        proof {
            lemma_rest_take(*decoder, 8);
        }
        let slice = decoder.read_bytes(8)?;
        Ok(u64_from_le_bytes(slice))
    }
}

impl Decode for u128 {

    open spec fn spec_type_id() -> u8 {
        TYPE_U128
    }

    open spec fn spec_ok(b: Seq<u8>, p: int, typed: bool) -> bool {
        p + 16 <= b.len()
    }

    open spec fn spec_end(b: Seq<u8>, p: int, typed: bool) -> int {
        p + 16
    }

    open spec fn spec_decodes(b: Seq<u8>, p: int, typed: bool, v: Self, q: int) -> bool {
        p + 16 <= b.len() && v == spec_u128_from_le_bytes(b.subrange(p, p + 16)) && q == p + 16
    }
    fn type_id() -> (r: u8) {
        TYPE_U128
    }

    fn decode_type(decoder: &mut Decoder) -> (r: Result<(), DecodeError>) {
        decoder.check_type(Self::type_id())
    }

    fn decode_value(decoder: &mut Decoder) -> (r: Result<Self, DecodeError>) {
        proof {
            lemma_rest_take(*decoder, 16);
        }
        let slice = decoder.read_bytes(16)?;
        Ok(u128_from_le_bytes(slice))
    }
}

impl Decode for i16 {

    open spec fn spec_type_id() -> u8 {
        TYPE_I16
    }

    open spec fn spec_ok(b: Seq<u8>, p: int, typed: bool) -> bool {
        p + 2 <= b.len()
    }

    open spec fn spec_end(b: Seq<u8>, p: int, typed: bool) -> int {
        p + 2
    }

    open spec fn spec_decodes(b: Seq<u8>, p: int, typed: bool, v: Self, q: int) -> bool {
        p + 2 <= b.len() && v == spec_u16_from_le_bytes(b.subrange(p, p + 2)) as i16 && q == p + 2
    }
    fn type_id() -> (r: u8) {
        TYPE_I16
    }

    fn decode_type(decoder: &mut Decoder) -> (r: Result<(), DecodeError>) {
        decoder.check_type(Self::type_id())
    }

    fn decode_value(decoder: &mut Decoder) -> (r: Result<Self, DecodeError>) {
        let v = u16::decode_value(decoder)?;
        Ok(v as i16)
    }
}

impl Decode for i32 {

    open spec fn spec_type_id() -> u8 {
        TYPE_I32
    }

    open spec fn spec_ok(b: Seq<u8>, p: int, typed: bool) -> bool {
        p + 4 <= b.len()
    }

    open spec fn spec_end(b: Seq<u8>, p: int, typed: bool) -> int {
        p + 4
    }

    open spec fn spec_decodes(b: Seq<u8>, p: int, typed: bool, v: Self, q: int) -> bool {
        p + 4 <= b.len() && v == spec_u32_from_le_bytes(b.subrange(p, p + 4)) as i32 && q == p + 4
    }
    fn type_id() -> (r: u8) {
        TYPE_I32
    }

    fn decode_type(decoder: &mut Decoder) -> (r: Result<(), DecodeError>) {
        decoder.check_type(Self::type_id())
    }

    fn decode_value(decoder: &mut Decoder) -> (r: Result<Self, DecodeError>) {
        let v = u32::decode_value(decoder)?;
        Ok(v as i32)
    }
}

impl Decode for i64 {

    open spec fn spec_type_id() -> u8 {
        TYPE_I64
    }

    open spec fn spec_ok(b: Seq<u8>, p: int, typed: bool) -> bool {
        p + 8 <= b.len()
    }

    open spec fn spec_end(b: Seq<u8>, p: int, typed: bool) -> int {
        p + 8
    }

    open spec fn spec_decodes(b: Seq<u8>, p: int, typed: bool, v: Self, q: int) -> bool {
        p + 8 <= b.len() && v == spec_u64_from_le_bytes(b.subrange(p, p + 8)) as i64 && q == p + 8
    }
    fn type_id() -> (r: u8) {
        TYPE_I64
    }

    fn decode_type(decoder: &mut Decoder) -> (r: Result<(), DecodeError>) {
        decoder.check_type(Self::type_id())
    }

    fn decode_value(decoder: &mut Decoder) -> (r: Result<Self, DecodeError>) {
        let v = u64::decode_value(decoder)?;
        Ok(v as i64)
    }
}

impl Decode for i128 {

    open spec fn spec_type_id() -> u8 {
        TYPE_I128
    }

    open spec fn spec_ok(b: Seq<u8>, p: int, typed: bool) -> bool {
        p + 16 <= b.len()
    }

    open spec fn spec_end(b: Seq<u8>, p: int, typed: bool) -> int {
        p + 16
    }

    open spec fn spec_decodes(b: Seq<u8>, p: int, typed: bool, v: Self, q: int) -> bool {
        p + 16 <= b.len() && v == spec_u128_from_le_bytes(b.subrange(p, p + 16)) as i128 && q == p + 16
    }
    fn type_id() -> (r: u8) {
        TYPE_I128
    }

    fn decode_type(decoder: &mut Decoder) -> (r: Result<(), DecodeError>) {
        decoder.check_type(Self::type_id())
    }

    fn decode_value(decoder: &mut Decoder) -> (r: Result<Self, DecodeError>) {
        let v = u128::decode_value(decoder)?;
        Ok(v as i128)
    }
}

impl Decode for String {

    open spec fn spec_type_id() -> u8 {
        TYPE_STRING
    }

    open spec fn spec_ok(b: Seq<u8>, p: int, typed: bool) -> bool {
        p + 4 <= b.len() && p + 4 + length_at(b, p) <= b.len() && utf8_text(b.subrange(p + 4, p + 4 + length_at(b, p))) is Some
    }

    open spec fn spec_end(b: Seq<u8>, p: int, typed: bool) -> int {
        p + 4 + length_at(b, p)
    }

    open spec fn spec_decodes(b: Seq<u8>, p: int, typed: bool, v: Self, q: int) -> bool {
        p + 4 <= b.len() && p + 4 + length_at(b, p) <= b.len() && utf8_text(b.subrange(p + 4, p + 4 + length_at(b, p))) == Some(v@) && q == p + 4 + length_at(b, p)
    }
    fn type_id() -> (r: u8) {
        TYPE_STRING
    }

    fn decode_type(decoder: &mut Decoder) -> (r: Result<(), DecodeError>) {
        decoder.check_type(Self::type_id())
    }

    fn decode_value(decoder: &mut Decoder) -> (r: Result<Self, DecodeError>) {
        proof {
            lemma_rest_take(*decoder, 4);
        }
        let len = decoder.read_len()?;
        proof {
            lemma_rest_take(*decoder, len as int);
        }
        let slice = decoder.read_bytes(len)?;
        match string_from_utf8(slice_to_vec(slice)) {
            Some(s) => Ok(s),
            None => Err(DecodeError::InvalidUtf8),
        }
    }
}

impl<T: Decode> Decode for Option<T> {

    open spec fn spec_type_id() -> u8 {
        TYPE_OPTION
    }

    open spec fn spec_ok(b: Seq<u8>, p: int, typed: bool) -> bool {
        p < b.len() && (b[p] == OPTION_TYPE_NONE || (b[p] == OPTION_TYPE_SOME && ((typed ==> p + 1 < b.len() && b[p + 1] == T::spec_type_id()) && T::spec_ok(b, if typed { p + 1 + 1 } else { p + 1 }, typed))))
    }

    open spec fn spec_end(b: Seq<u8>, p: int, typed: bool) -> int {
        if b[p] == OPTION_TYPE_NONE { p + 1 } else { T::spec_end(b, body_at(p + 1, typed), typed) }
    }

    open spec fn spec_decodes(b: Seq<u8>, p: int, typed: bool, v: Self, q: int) -> bool {
        p < b.len() && ((b[p] == OPTION_TYPE_NONE && v is None && q == p + 1) || (b[p] == OPTION_TYPE_SOME && v is Some && ((typed ==> p + 1 < b.len() && b[p + 1] == T::spec_type_id()) && T::spec_decodes(b, if typed { p + 1 + 1 } else { p + 1 }, typed, v->Some_0, q))))
    }
    fn type_id() -> (r: u8) {
        TYPE_OPTION
    }

    fn decode_type(decoder: &mut Decoder) -> (r: Result<(), DecodeError>) {
        decoder.check_type(Self::type_id())
    }

    fn decode_value(decoder: &mut Decoder) -> (r: Result<Self, DecodeError>) {
        let index = decoder.read_u8()?;
        if index == OPTION_TYPE_NONE {
            Ok(None)
        } else if index == OPTION_TYPE_SOME {
            let v = T::decode(decoder)?;
            Ok(Some(v))
        } else {
            Err(DecodeError::InvalidIndex(index))
        }
    }
}

impl<T: Decode> Decode for Box<T> {

    open spec fn spec_type_id() -> u8 {
        T::spec_type_id()
    }

    open spec fn spec_ok(b: Seq<u8>, p: int, typed: bool) -> bool {
        T::spec_ok(b, p, typed)
    }

    open spec fn spec_end(b: Seq<u8>, p: int, typed: bool) -> int {
        T::spec_end(b, p, typed)
    }

    open spec fn spec_decodes(b: Seq<u8>, p: int, typed: bool, v: Self, q: int) -> bool {
        T::spec_decodes(b, p, typed, *v, q)
    }
    fn type_id() -> (r: u8) {
        T::type_id()
    }

    fn decode_type(decoder: &mut Decoder) -> (r: Result<(), DecodeError>) {
        decoder.check_type(T::type_id())
    }

    fn decode_value(decoder: &mut Decoder) -> (r: Result<Self, DecodeError>) {
        let v = T::decode_value(decoder)?;
        Ok(Box::new(v))
    }
}

impl<T: Decode> Decode for Rc<T> {

    open spec fn spec_type_id() -> u8 {
        T::spec_type_id()
    }

    open spec fn spec_ok(b: Seq<u8>, p: int, typed: bool) -> bool {
        T::spec_ok(b, p, typed)
    }

    open spec fn spec_end(b: Seq<u8>, p: int, typed: bool) -> int {
        T::spec_end(b, p, typed)
    }

    open spec fn spec_decodes(b: Seq<u8>, p: int, typed: bool, v: Self, q: int) -> bool {
        T::spec_decodes(b, p, typed, *v, q)
    }
    fn type_id() -> (r: u8) {
        T::type_id()
    }

    fn decode_type(decoder: &mut Decoder) -> (r: Result<(), DecodeError>) {
        decoder.check_type(T::type_id())
    }

    fn decode_value(decoder: &mut Decoder) -> (r: Result<Self, DecodeError>) {
        let v = T::decode_value(decoder)?;
        Ok(Rc::new(v))
    }
}

impl<T: Decode> Decode for RefCell<T> {

    open spec fn spec_type_id() -> u8 {
        T::spec_type_id()
    }

    open spec fn spec_ok(b: Seq<u8>, p: int, typed: bool) -> bool {
        T::spec_ok(b, p, typed)
    }

    open spec fn spec_end(b: Seq<u8>, p: int, typed: bool) -> int {
        T::spec_end(b, p, typed)
    }

    open spec fn spec_decodes(b: Seq<u8>, p: int, typed: bool, v: Self, q: int) -> bool {
        true
    }
    fn type_id() -> (r: u8) {
        T::type_id()
    }

    fn decode_type(decoder: &mut Decoder) -> (r: Result<(), DecodeError>) {
        decoder.check_type(T::type_id())
    }

    fn decode_value(decoder: &mut Decoder) -> (r: Result<Self, DecodeError>) {
        let v = T::decode_value(decoder)?;
        Ok(RefCell::new(v))
    }
}

impl<A: Decode, B: Decode> Decode for (A, B) {

    open spec fn spec_type_id() -> u8 {
        TYPE_TUPLE
    }

    open spec fn spec_ok(b: Seq<u8>, p: int, typed: bool) -> bool {
        p + 4 <= b.len() && length_at(b, p) == 2 && (typed ==> p + 4 < b.len() && b[p + 4] == A::spec_type_id()) && A::spec_ok(b, body_at(p + 4, typed), typed) && (typed ==> A::spec_end(b, body_at(p + 4, typed), typed) < b.len() && b[A::spec_end(b, body_at(p + 4, typed), typed)] == B::spec_type_id()) && B::spec_ok(b, body_at(A::spec_end(b, body_at(p + 4, typed), typed), typed), typed)
    }

    open spec fn spec_end(b: Seq<u8>, p: int, typed: bool) -> int {
        B::spec_end(b, body_at(A::spec_end(b, body_at(p + 4, typed), typed), typed), typed)
    }

    open spec fn spec_decodes(b: Seq<u8>, p: int, typed: bool, v: Self, q: int) -> bool {
        p + 4 <= b.len() && length_at(b, p) == 2 && exists|q1: int| #![trigger B::spec_decodes(b, body_at(q1, typed), typed, v.1, q)] ((typed ==> p + 4 < b.len() && b[p + 4] == A::spec_type_id()) && A::spec_decodes(b, body_at(p + 4, typed), typed, v.0, q1)) && ((typed ==> q1 < b.len() && b[q1] == B::spec_type_id()) && B::spec_decodes(b, body_at(q1, typed), typed, v.1, q))
    }
    fn type_id() -> (r: u8) {
        TYPE_TUPLE
    }

    fn decode_type(decoder: &mut Decoder) -> (r: Result<(), DecodeError>) {
        decoder.check_type(Self::type_id())
    }

    fn decode_value(decoder: &mut Decoder) -> (r: Result<Self, DecodeError>) {
        proof {
            lemma_rest_take(*decoder, 4);
        }
        let len = decoder.read_len()?;
        if len != 2 {
            return Err(DecodeError::InvalidLength { expected: 2, actual: len });
        }
        let ghost mid = decoder.pos();
        let a = A::decode(decoder)?;
        let ghost q1 = decoder.pos();
        let b = B::decode(decoder)?;
        proof {
            let bs = decoder.bytes();
            let t = decoder.typed();
            assert(mid == old(decoder).pos() + 4);
            assert(A::spec_decodes(bs, body_at(mid, t), t, a, q1));
            assert(B::spec_decodes(bs, body_at(q1, t), t, b, decoder.pos()));
            assert((a, b).0 == a && (a, b).1 == b);
            assert(Self::spec_decodes(bs, old(decoder).pos(), t, (a, b), decoder.pos()));
        }
        Ok((a, b))
    }
}

impl<T: Decode, E: Decode> Decode for Result<T, E> {

    open spec fn spec_type_id() -> u8 {
        TYPE_RESULT
    }

    open spec fn spec_ok(b: Seq<u8>, p: int, typed: bool) -> bool {
        p < b.len() && ((b[p] == RESULT_TYPE_OK && ((typed ==> p + 1 < b.len() && b[p + 1] == T::spec_type_id()) && T::spec_ok(b, if typed { p + 1 + 1 } else { p + 1 }, typed))) || (b[p] == RESULT_TYPE_ERR && ((typed ==> p + 1 < b.len() && b[p + 1] == E::spec_type_id()) && E::spec_ok(b, if typed { p + 1 + 1 } else { p + 1 }, typed))))
    }

    open spec fn spec_end(b: Seq<u8>, p: int, typed: bool) -> int {
        if b[p] == RESULT_TYPE_OK { T::spec_end(b, body_at(p + 1, typed), typed) } else { E::spec_end(b, body_at(p + 1, typed), typed) }
    }

    open spec fn spec_decodes(b: Seq<u8>, p: int, typed: bool, v: Self, q: int) -> bool {
        p < b.len() && ((b[p] == RESULT_TYPE_OK && v is Ok && ((typed ==> p + 1 < b.len() && b[p + 1] == T::spec_type_id()) && T::spec_decodes(b, if typed { p + 1 + 1 } else { p + 1 }, typed, v->Ok_0, q))) || (b[p] == RESULT_TYPE_ERR && v is Err && ((typed ==> p + 1 < b.len() && b[p + 1] == E::spec_type_id()) && E::spec_decodes(b, if typed { p + 1 + 1 } else { p + 1 }, typed, v->Err_0, q))))
    }
    fn type_id() -> (r: u8) {
        TYPE_RESULT
    }

    fn decode_type(decoder: &mut Decoder) -> (r: Result<(), DecodeError>) {
        decoder.check_type(Self::type_id())
    }

    fn decode_value(decoder: &mut Decoder) -> (r: Result<Self, DecodeError>) {
        let index = decoder.read_u8()?;
        if index == RESULT_TYPE_OK {
            let v = T::decode(decoder)?;
            Ok(Ok(v))
        } else if index == RESULT_TYPE_ERR {
            let e = E::decode(decoder)?;
            Ok(Err(e))
        } else {
            Err(DecodeError::InvalidIndex(index))
        }
    }
}

/// Decodes `len` untagged elements of type `T`, one after another.
fn decode_elements<T: Decode>(decoder: &mut Decoder, len: usize) -> (r: Result<
    Vec<T>,
    DecodeError,
>)
    requires
        old(decoder).wf(),
    ensures
        old(decoder).moved_on(final(decoder)),
        r is Ok ==> r->Ok_0@.len() == len,
        r is Ok ==> elements_decode::<T>(
            old(decoder).bytes(),
            old(decoder).pos(),
            old(decoder).typed(),
            r->Ok_0@,
            final(decoder).pos(),
        ),
        elements_ok::<T>(old(decoder).bytes(), old(decoder).pos(), old(decoder).typed(), len as nat)
            ==> r is Ok && final(decoder).pos() == elements_end::<T>(
            old(decoder).bytes(),
            old(decoder).pos(),
            old(decoder).typed(),
            len as nat,
        ),
{
    let mut result: Vec<T> = Vec::new();
    let ghost mut ps: Seq<int> = seq![old(decoder).pos()];
    let mut i: usize = 0;
    while i < len
        invariant
            old(decoder).moved_on(decoder),
            result@.len() == i,
            i <= len,
            ps.len() == i + 1,
            ps[0] == old(decoder).pos(),
            ps[i as int] == decoder.pos(),
            elements_ok::<T>(old(decoder).bytes(), old(decoder).pos(), old(decoder).typed(), len as nat)
                ==> elements_ok::<T>(old(decoder).bytes(), decoder.pos(), old(decoder).typed(), (len - i) as nat)
                && elements_end::<T>(old(decoder).bytes(), old(decoder).pos(), old(decoder).typed(), len as nat)
                == elements_end::<T>(old(decoder).bytes(), decoder.pos(), old(decoder).typed(), (len - i) as nat),
            forall|k: int|
                0 <= k < i ==> T::spec_decodes(
                    old(decoder).bytes(),
                    #[trigger] ps[k],
                    old(decoder).typed(),
                    result@[k],
                    ps[k + 1],
                ),
        decreases len - i,
    {
        let v = T::decode_value(decoder)?;
        let ghost prev = ps;
        proof {
            ps = ps.push(decoder.pos());
            assert forall|k: int| 0 <= k < i + 1 implies T::spec_decodes(
                old(decoder).bytes(),
                #[trigger] ps[k],
                old(decoder).typed(),
                result@.push(v)[k],
                ps[k + 1],
            ) by {
                if k < i {
                    assert(ps[k] == prev[k] && ps[k + 1] == prev[k + 1]);
                    assert(result@.push(v)[k] == result@[k]);
                }
            }
        }
        result.push(v);
        i = i + 1;
    }
    proof {
        assert(ps.len() == result@.len() + 1);
    }
    Ok(result)
}

impl<T: Decode> Decode for Vec<T> {

    open spec fn spec_type_id() -> u8 {
        TYPE_VEC
    }

    open spec fn spec_ok(b: Seq<u8>, p: int, typed: bool) -> bool {
        (typed ==> p < b.len() && b[p] == T::spec_type_id()) && body_at(p, typed) + 4 <= b.len() && elements_ok::<T>(b, body_at(p, typed) + 4, typed, length_at(b, body_at(p, typed)) as nat)
    }

    open spec fn spec_end(b: Seq<u8>, p: int, typed: bool) -> int {
        elements_end::<T>(b, body_at(p, typed) + 4, typed, length_at(b, body_at(p, typed)) as nat)
    }

    open spec fn spec_decodes(b: Seq<u8>, p: int, typed: bool, v: Self, q: int) -> bool {
        (typed ==> p < b.len() && b[p] == T::spec_type_id()) && (if typed { p + 1 } else { p }) + 4 <= b.len() && v@.len() == length_at(b, if typed { p + 1 } else { p }) && exists|ps: Seq<int>| #![trigger ps.len()] ps.len() == v@.len() + 1 && ps[0] == (if typed { p + 1 } else { p }) + 4 && ps[v@.len() as int] == q && forall|i: int| 0 <= i < v@.len() ==> T::spec_decodes(b, #[trigger] ps[i], typed, v@[i], ps[i + 1])
    }
    fn type_id() -> (r: u8) {
        TYPE_VEC
    }

    fn decode_type(decoder: &mut Decoder) -> (r: Result<(), DecodeError>) {
        decoder.check_type(Self::type_id())
    }

    fn decode_value(decoder: &mut Decoder) -> (r: Result<Self, DecodeError>) {
        decoder.check_type(T::type_id())?;
        proof {
            lemma_rest_take(*decoder, 4);
        }
        let len = decoder.read_len()?;
        decode_elements(decoder, len)
    }
}

/// Decodes the body of a fixed-size array of `n` elements of type `T`: the element tag, the
/// length, which must equal `n`, then the elements.
pub fn decode_array_value<T: Decode>(decoder: &mut Decoder, n: usize) -> (r: Result<
    Vec<T>,
    DecodeError,
>)
    requires
        old(decoder).wf(),
    ensures
        old(decoder).moved_on(final(decoder)),
        r is Ok ==> r->Ok_0@.len() == n,
        r is Ok ==> (old(decoder).typed() ==> old(decoder).pos() < old(decoder).bytes().len()
            && old(decoder).bytes()[old(decoder).pos()] == T::spec_type_id()) && elements_decode::<T>(
            old(decoder).bytes(),
            body_at(old(decoder).pos(), old(decoder).typed()) + 4,
            old(decoder).typed(),
            r->Ok_0@,
            final(decoder).pos(),
        ),
        (old(decoder).typed() ==> old(decoder).pos() < old(decoder).bytes().len()
            && old(decoder).bytes()[old(decoder).pos()] == T::spec_type_id()) && body_at(
            old(decoder).pos(),
            old(decoder).typed(),
        ) + 4 <= old(decoder).bytes().len() && length_at(
            old(decoder).bytes(),
            body_at(old(decoder).pos(), old(decoder).typed()),
        ) == n && elements_ok::<T>(
            old(decoder).bytes(),
            body_at(old(decoder).pos(), old(decoder).typed()) + 4,
            old(decoder).typed(),
            n as nat,
        ) ==> r is Ok,
{
    proof {
        lemma_rest_take(*decoder, 1);
    }
    decoder.check_type(T::type_id())?;
    proof {
        lemma_rest_take(*decoder, 4);
    }
    decoder.check_len(n)?;
    decode_elements(decoder, n)
}

/// Decodes a fixed-size array of `n` elements of type `T`, with its tag in typed mode.
pub fn decode_array<T: Decode>(decoder: &mut Decoder, n: usize) -> (r: Result<
    Vec<T>,
    DecodeError,
>)
    requires
        old(decoder).wf(),
    ensures
        old(decoder).moved_on(final(decoder)),
        r is Ok ==> r->Ok_0@.len() == n,
        r is Ok ==> (old(decoder).typed() ==> old(decoder).pos() + 1 < old(decoder).bytes().len()
            && old(decoder).bytes()[old(decoder).pos()] == TYPE_ARRAY
            && old(decoder).bytes()[old(decoder).pos() + 1] == T::spec_type_id())
            && elements_decode::<T>(
            old(decoder).bytes(),
            old(decoder).pos() + (if old(decoder).typed() { 2int } else { 0int }) + 4,
            old(decoder).typed(),
            r->Ok_0@,
            final(decoder).pos(),
        ),
        (old(decoder).typed() ==> old(decoder).pos() + 1 < old(decoder).bytes().len()
            && old(decoder).bytes()[old(decoder).pos()] == TYPE_ARRAY
            && old(decoder).bytes()[old(decoder).pos() + 1] == T::spec_type_id())
            && old(decoder).pos() + (if old(decoder).typed() { 2int } else { 0int }) + 4
            <= old(decoder).bytes().len() && length_at(
            old(decoder).bytes(),
            old(decoder).pos() + (if old(decoder).typed() { 2int } else { 0int }),
        ) == n && elements_ok::<T>(
            old(decoder).bytes(),
            old(decoder).pos() + (if old(decoder).typed() { 2int } else { 0int }) + 4,
            old(decoder).typed(),
            n as nat,
        ) ==> r is Ok,
{
    proof {
        lemma_rest_take(*decoder, 1);
    }
    decoder.check_type(TYPE_ARRAY)?;
    decode_array_value(decoder, n)
}

impl<T: Decode + Ord> Decode for BTreeSet<T> {
    open spec fn spec_type_id() -> u8 {
        TYPE_TREE_SET
    }

    /// Success is owed when the elements decode, `T` obeys the ordering laws, and no run of
    /// decoded elements from the start repeats a value.
    open spec fn spec_ok(b: Seq<u8>, p: int, typed: bool) -> bool {
        &&& typed ==> p < b.len() && b[p] == T::spec_type_id()
        &&& body_at(p, typed) + 4 <= b.len()
        &&& elements_ok::<T>(
            b,
            body_at(p, typed) + 4,
            typed,
            length_at(b, body_at(p, typed)) as nat,
        )
        &&& obeys_cmp::<T>()
        &&& prefix_distinct::<T>(
            b,
            body_at(p, typed) + 4,
            typed,
            length_at(b, body_at(p, typed)),
        )
    }

    open spec fn spec_end(b: Seq<u8>, p: int, typed: bool) -> int {
        elements_end::<T>(b, body_at(p, typed) + 4, typed, length_at(b, body_at(p, typed)) as nat)
    }

    /// The set holds exactly the decoded elements, which are all different.
    open spec fn spec_decodes(b: Seq<u8>, p: int, typed: bool, v: Self, q: int) -> bool {
        &&& typed ==> p < b.len() && b[p] == T::spec_type_id()
        &&& body_at(p, typed) + 4 <= b.len()
        &&& exists|vs: Seq<T>|
            #[trigger] elements_decode::<T>(b, body_at(p, typed) + 4, typed, vs, q) && vs.len()
                == length_at(b, body_at(p, typed)) && (obeys_cmp::<T>() ==> vs.no_duplicates()
                && v@ == vs.to_set())
    }

    fn type_id() -> (r: u8) {
        TYPE_TREE_SET
    }

    fn decode_type(decoder: &mut Decoder) -> (r: Result<(), DecodeError>) {
        decoder.check_type(Self::type_id())
    }

    fn decode_value(decoder: &mut Decoder) -> (r: Result<Self, DecodeError>) {
        let ghost b = decoder.bytes();
        let ghost typed = decoder.typed();
        proof {
            lemma_rest_take(*decoder, 1);
        }
        decoder.check_type(T::type_id())?;
        proof {
            lemma_rest_take(*decoder, 4);
        }
        let len = decoder.read_len()?;
        let ghost start = decoder.pos();
        let mut result = BTreeSet::new();
        let ghost mut vs: Seq<T> = seq![];
        let ghost mut ps: Seq<int> = seq![start];
        let mut i: usize = 0;
        proof {
            assert(vs.to_set() =~= Set::<T>::empty());
        }
        while i < len
            invariant
                old(decoder).moved_on(decoder),
                b == old(decoder).bytes(),
                typed == old(decoder).typed(),
                start == body_at(old(decoder).pos(), typed) + 4,
                len == length_at(b, body_at(old(decoder).pos(), typed)),
                i <= len,
                vs.len() == i,
                ps.len() == i + 1,
                ps[0] == start,
                ps[i as int] == decoder.pos(),
                forall|k: int| 0 <= k < i ==> T::spec_decodes(b, #[trigger] ps[k], typed, vs[k], ps[k + 1]),
                obeys_cmp::<T>() ==> result@ == vs.to_set() && vs.no_duplicates(),
                elements_ok::<T>(b, start, typed, len as nat) ==> elements_ok::<T>(
                    b,
                    decoder.pos(),
                    typed,
                    (len - i) as nat,
                ) && elements_end::<T>(b, start, typed, len as nat) == elements_end::<T>(
                    b,
                    decoder.pos(),
                    typed,
                    (len - i) as nat,
                ),
            decreases len - i,
        {
            let v = T::decode_value(decoder)?;
            let ghost gv = v;
            let ghost vs2 = vs.push(gv);
            let ghost ps2 = ps.push(decoder.pos());
            proof {
                assert forall|k: int| 0 <= k < i + 1 implies T::spec_decodes(
                    b,
                    #[trigger] ps2[k],
                    typed,
                    vs2[k],
                    ps2[k + 1],
                ) by {
                    if k < i {
                        assert(ps2[k] == ps[k] && ps2[k + 1] == ps[k + 1] && vs2[k] == vs[k]);
                    }
                }
                assert(elements_decode::<T>(b, start, typed, vs2, decoder.pos())) by {
                    assert(ps2.len() == vs2.len() + 1);
                }
            }
            let ghost before = result@;
            if !result.insert(v) {
                proof {
                    if obeys_cmp::<T>() {
                        assert(vs.to_set().contains(gv));
                        assert(vs.contains(gv));
                        let m = choose|m: int| 0 <= m < vs.len() && vs[m] == gv;
                        assert(vs2[m] == vs2[i as int]);
                        assert(!vs2.no_duplicates());
                        assert(!prefix_distinct::<T>(b, start, typed, len as int));
                    }
                }
                return Err(DecodeError::CustomError("Duplicate BTreeSet entries".to_string()));
            }
            proof {
                if obeys_cmp::<T>() {
                    assert(!vs.to_set().contains(gv));
                    vs.lemma_push_to_set_commute(gv);
                    assert(vs2.to_set() =~= vs.to_set().insert(gv));
                    assert forall|x: int, y: int| 0 <= x < vs2.len() && 0 <= y < vs2.len() && x != y
                        implies vs2[x] != vs2[y] by {
                        if x == i || y == i {
                            if x != i {
                                assert(vs.contains(vs[x]));
                            }
                            if y != i {
                                assert(vs.contains(vs[y]));
                            }
                        }
                    }
                }
            }
            proof {
                vs = vs2;
                ps = ps2;
            }
            i = i + 1;
        }
        proof {
            assert(elements_decode::<T>(b, start, typed, vs, decoder.pos()));
        }
        Ok(result)
    }
}

impl<K: Decode + Ord, V: Decode> Decode for BTreeMap<K, V> {
    open spec fn spec_type_id() -> u8 {
        TYPE_TREE_MAP
    }

    /// Success is owed when the pairs decode, `K` obeys the ordering laws, and no run of
    /// decoded pairs from the start repeats a key.
    open spec fn spec_ok(b: Seq<u8>, p: int, typed: bool) -> bool {
        &&& typed ==> p + 1 < b.len() && b[p] == K::spec_type_id() && b[p + 1] == V::spec_type_id()
        &&& map_body(p, typed) + 4 <= b.len()
        &&& pairs_ok::<K, V>(b, map_body(p, typed) + 4, typed, length_at(b, map_body(p, typed)) as nat)
        &&& obeys_cmp::<K>()
        &&& keys_distinct::<K, V>(b, map_body(p, typed) + 4, typed, length_at(b, map_body(p, typed)))
    }

    open spec fn spec_end(b: Seq<u8>, p: int, typed: bool) -> int {
        pairs_end::<K, V>(b, map_body(p, typed) + 4, typed, length_at(b, map_body(p, typed)) as nat)
    }

    /// The map holds exactly the decoded pairs, whose keys are all different.
    open spec fn spec_decodes(b: Seq<u8>, p: int, typed: bool, v: Self, q: int) -> bool {
        &&& typed ==> p + 1 < b.len() && b[p] == K::spec_type_id() && b[p + 1] == V::spec_type_id()
        &&& map_body(p, typed) + 4 <= b.len()
        &&& exists|ks: Seq<K>, vs: Seq<V>|
            #[trigger] pairs_decode::<K, V>(b, map_body(p, typed) + 4, typed, ks, vs, q) && ks.len()
                == length_at(b, map_body(p, typed)) && (obeys_cmp::<K>() ==> ks.no_duplicates()
                && v@ == pairs_map(ks, vs))
    }

    fn type_id() -> (r: u8) {
        TYPE_TREE_MAP
    }

    fn decode_type(decoder: &mut Decoder) -> (r: Result<(), DecodeError>) {
        decoder.check_type(Self::type_id())
    }

    fn decode_value(decoder: &mut Decoder) -> (r: Result<Self, DecodeError>) {
        let ghost b = decoder.bytes();
        let ghost typed = decoder.typed();
        proof {
            lemma_rest_take(*decoder, 1);
        }
        decoder.check_type(K::type_id())?;
        proof {
            lemma_rest_take(*decoder, 1);
        }
        decoder.check_type(V::type_id())?;
        proof {
            lemma_rest_take(*decoder, 4);
        }
        let len = decoder.read_len()?;
        let ghost start = decoder.pos();
        let mut map = BTreeMap::new();
        let ghost mut ks: Seq<K> = seq![];
        let ghost mut vs: Seq<V> = seq![];
        let ghost mut ps: Seq<int> = seq![start];
        let ghost mut ms: Seq<int> = seq![];
        let mut i: usize = 0;
        proof {
            assert(pairs_map(ks, vs) =~= Map::<K, V>::empty());
        }
        while i < len
            invariant
                old(decoder).moved_on(decoder),
                b == old(decoder).bytes(),
                typed == old(decoder).typed(),
                start == map_body(old(decoder).pos(), typed) + 4,
                len == length_at(b, map_body(old(decoder).pos(), typed)),
                i <= len,
                ks.len() == i,
                vs.len() == i,
                ms.len() == i,
                ps.len() == i + 1,
                ps[0] == start,
                ps[i as int] == decoder.pos(),
                forall|k: int|
                    0 <= k < i ==> K::spec_decodes(b, #[trigger] ps[k], typed, ks[k], ms[k])
                        && V::spec_decodes(b, ms[k], typed, vs[k], ps[k + 1]),
                obeys_cmp::<K>() ==> map@ == pairs_map(ks, vs) && ks.no_duplicates() && forall|x: K|
                    #[trigger] map@.contains_key(x) <==> ks.contains(x),
                pairs_ok::<K, V>(b, start, typed, len as nat) ==> pairs_ok::<K, V>(
                    b,
                    decoder.pos(),
                    typed,
                    (len - i) as nat,
                ) && pairs_end::<K, V>(b, start, typed, len as nat) == pairs_end::<K, V>(
                    b,
                    decoder.pos(),
                    typed,
                    (len - i) as nat,
                ),
            decreases len - i,
        {
            let ghost at = decoder.pos();
            let k = K::decode_value(decoder)?;
            let ghost mid = decoder.pos();
            let v = V::decode_value(decoder)?;
            let ghost gk = k;
            let ghost gv = v;
            let ghost ks2 = ks.push(gk);
            let ghost vs2 = vs.push(gv);
            let ghost ms2 = ms.push(mid);
            let ghost ps2 = ps.push(decoder.pos());
            proof {
                assert forall|j: int| 0 <= j < i + 1 implies K::spec_decodes(
                    b,
                    #[trigger] ps2[j],
                    typed,
                    ks2[j],
                    ms2[j],
                ) && V::spec_decodes(b, ms2[j], typed, vs2[j], ps2[j + 1]) by {
                    if j < i {
                        assert(ps2[j] == ps[j] && ps2[j + 1] == ps[j + 1] && ks2[j] == ks[j]
                            && vs2[j] == vs[j] && ms2[j] == ms[j]);
                    }
                }
                assert(pairs_decode::<K, V>(b, start, typed, ks2, vs2, decoder.pos())) by {
                    assert(ps2.len() == ks2.len() + 1 && ms2.len() == ks2.len());
                }
            }
            let ghost before = map@;
            if map.insert(k, v).is_some() {
                proof {
                    if obeys_cmp::<K>() {
                        assert(ks.contains(gk));
                        let m = choose|m: int| 0 <= m < ks.len() && ks[m] == gk;
                        assert(ks2[m] == ks2[i as int]);
                        assert(!ks2.no_duplicates());
                        assert(!keys_distinct::<K, V>(b, start, typed, len as int));
                    }
                }
                return Err(DecodeError::CustomError("Duplicate BTreeMap entries".to_string()));
            }
            proof {
                if obeys_cmp::<K>() {
                    assert(!ks.contains(gk));
                    lemma_keys_push::<K, V>(before, map@, ks, vs, gk, gv);
                }
                ks = ks2;
                vs = vs2;
                ms = ms2;
                ps = ps2;
            }
            i = i + 1;
        }
        proof {
            assert(pairs_decode::<K, V>(b, start, typed, ks, vs, decoder.pos()));
        }
        Ok(map)
    }
}

impl Decode for isize {

    open spec fn spec_type_id() -> u8 {
        TYPE_I32
    }

    open spec fn spec_ok(b: Seq<u8>, p: int, typed: bool) -> bool {
        p + 4 <= b.len()
    }

    open spec fn spec_end(b: Seq<u8>, p: int, typed: bool) -> int {
        p + 4
    }

    open spec fn spec_decodes(b: Seq<u8>, p: int, typed: bool, v: Self, q: int) -> bool {
        p + 4 <= b.len() && v == (spec_u32_from_le_bytes(b.subrange(p, p + 4)) as i32) as isize && q == p + 4
    }
    fn type_id() -> (r: u8) {
        TYPE_I32
    }

    fn decode_type(decoder: &mut Decoder) -> (r: Result<(), DecodeError>) {
        decoder.check_type(Self::type_id())
    }

    fn decode_value(decoder: &mut Decoder) -> (r: Result<Self, DecodeError>) {
        let v = i32::decode_value(decoder)?;
        Ok(v as isize)
    }
}

impl Decode for usize {

    open spec fn spec_type_id() -> u8 {
        TYPE_U32
    }

    open spec fn spec_ok(b: Seq<u8>, p: int, typed: bool) -> bool {
        p + 4 <= b.len()
    }

    open spec fn spec_end(b: Seq<u8>, p: int, typed: bool) -> int {
        p + 4
    }

    open spec fn spec_decodes(b: Seq<u8>, p: int, typed: bool, v: Self, q: int) -> bool {
        p + 4 <= b.len() && v == spec_u32_from_le_bytes(b.subrange(p, p + 4)) as usize && q == p + 4
    }
    fn type_id() -> (r: u8) {
        TYPE_U32
    }

    fn decode_type(decoder: &mut Decoder) -> (r: Result<(), DecodeError>) {
        decoder.check_type(Self::type_id())
    }

    fn decode_value(decoder: &mut Decoder) -> (r: Result<Self, DecodeError>) {
        let v = u32::decode_value(decoder)?;
        Ok(v as usize)
    }
}

impl<T: Decode + Hash + Eq> Decode for HashSet<T> {
    open spec fn spec_type_id() -> u8 {
        TYPE_HASH_SET
    }

    /// Success is owed when the elements decode, `T` hashes and compares as a key should, and no run of
    /// decoded elements from the start repeats a value.
    open spec fn spec_ok(b: Seq<u8>, p: int, typed: bool) -> bool {
        &&& typed ==> p < b.len() && b[p] == T::spec_type_id()
        &&& body_at(p, typed) + 4 <= b.len()
        &&& elements_ok::<T>(
            b,
            body_at(p, typed) + 4,
            typed,
            length_at(b, body_at(p, typed)) as nat,
        )
        &&& hashes_well::<T>()
        &&& prefix_distinct::<T>(
            b,
            body_at(p, typed) + 4,
            typed,
            length_at(b, body_at(p, typed)),
        )
    }

    open spec fn spec_end(b: Seq<u8>, p: int, typed: bool) -> int {
        elements_end::<T>(b, body_at(p, typed) + 4, typed, length_at(b, body_at(p, typed)) as nat)
    }

    /// The set holds exactly the decoded elements, which are all different.
    open spec fn spec_decodes(b: Seq<u8>, p: int, typed: bool, v: Self, q: int) -> bool {
        &&& typed ==> p < b.len() && b[p] == T::spec_type_id()
        &&& body_at(p, typed) + 4 <= b.len()
        &&& exists|vs: Seq<T>|
            #[trigger] elements_decode::<T>(b, body_at(p, typed) + 4, typed, vs, q) && vs.len()
                == length_at(b, body_at(p, typed)) && (hashes_well::<T>() ==> vs.no_duplicates()
                && v@ == vs.to_set())
    }

    fn type_id() -> (r: u8) {
        TYPE_HASH_SET
    }

    fn decode_type(decoder: &mut Decoder) -> (r: Result<(), DecodeError>) {
        decoder.check_type(Self::type_id())
    }

    fn decode_value(decoder: &mut Decoder) -> (r: Result<Self, DecodeError>) {
        let ghost b = decoder.bytes();
        let ghost typed = decoder.typed();
        proof {
            lemma_rest_take(*decoder, 1);
        }
        decoder.check_type(T::type_id())?;
        proof {
            lemma_rest_take(*decoder, 4);
        }
        let len = decoder.read_len()?;
        let ghost start = decoder.pos();
        let mut result = HashSet::new();
        let ghost mut vs: Seq<T> = seq![];
        let ghost mut ps: Seq<int> = seq![start];
        let mut i: usize = 0;
        proof {
            assert(vs.to_set() =~= Set::<T>::empty());
        }
        while i < len
            invariant
                old(decoder).moved_on(decoder),
                b == old(decoder).bytes(),
                typed == old(decoder).typed(),
                start == body_at(old(decoder).pos(), typed) + 4,
                len == length_at(b, body_at(old(decoder).pos(), typed)),
                i <= len,
                vs.len() == i,
                ps.len() == i + 1,
                ps[0] == start,
                ps[i as int] == decoder.pos(),
                forall|k: int| 0 <= k < i ==> T::spec_decodes(b, #[trigger] ps[k], typed, vs[k], ps[k + 1]),
                hashes_well::<T>() ==> result@ == vs.to_set() && vs.no_duplicates(),
                elements_ok::<T>(b, start, typed, len as nat) ==> elements_ok::<T>(
                    b,
                    decoder.pos(),
                    typed,
                    (len - i) as nat,
                ) && elements_end::<T>(b, start, typed, len as nat) == elements_end::<T>(
                    b,
                    decoder.pos(),
                    typed,
                    (len - i) as nat,
                ),
            decreases len - i,
        {
            let v = T::decode_value(decoder)?;
            let ghost gv = v;
            let ghost vs2 = vs.push(gv);
            let ghost ps2 = ps.push(decoder.pos());
            proof {
                assert forall|k: int| 0 <= k < i + 1 implies T::spec_decodes(
                    b,
                    #[trigger] ps2[k],
                    typed,
                    vs2[k],
                    ps2[k + 1],
                ) by {
                    if k < i {
                        assert(ps2[k] == ps[k] && ps2[k + 1] == ps[k + 1] && vs2[k] == vs[k]);
                    }
                }
                assert(elements_decode::<T>(b, start, typed, vs2, decoder.pos())) by {
                    assert(ps2.len() == vs2.len() + 1);
                }
            }
            let ghost before = result@;
            if !result.insert(v) {
                proof {
                    if hashes_well::<T>() {
                        assert(vs.to_set().contains(gv));
                        assert(vs.contains(gv));
                        let m = choose|m: int| 0 <= m < vs.len() && vs[m] == gv;
                        assert(vs2[m] == vs2[i as int]);
                        assert(!vs2.no_duplicates());
                        assert(!prefix_distinct::<T>(b, start, typed, len as int));
                    }
                }
                return Err(DecodeError::CustomError("Duplicate HashSet entries".to_string()));
            }
            proof {
                if hashes_well::<T>() {
                    assert(!vs.to_set().contains(gv));
                    vs.lemma_push_to_set_commute(gv);
                    assert(vs2.to_set() =~= vs.to_set().insert(gv));
                    assert forall|x: int, y: int| 0 <= x < vs2.len() && 0 <= y < vs2.len() && x != y
                        implies vs2[x] != vs2[y] by {
                        if x == i || y == i {
                            if x != i {
                                assert(vs.contains(vs[x]));
                            }
                            if y != i {
                                assert(vs.contains(vs[y]));
                            }
                        }
                    }
                }
            }
            proof {
                vs = vs2;
                ps = ps2;
            }
            i = i + 1;
        }
        proof {
            assert(elements_decode::<T>(b, start, typed, vs, decoder.pos()));
        }
        Ok(result)
    }
}

impl<K: Decode + Hash + Eq, V: Decode> Decode for HashMap<K, V> {
    open spec fn spec_type_id() -> u8 {
        TYPE_HASH_MAP
    }

    /// Success is owed when the pairs decode, `K` hashes and compares as a key should, and no run of
    /// decoded pairs from the start repeats a key.
    open spec fn spec_ok(b: Seq<u8>, p: int, typed: bool) -> bool {
        &&& typed ==> p + 1 < b.len() && b[p] == K::spec_type_id() && b[p + 1] == V::spec_type_id()
        &&& map_body(p, typed) + 4 <= b.len()
        &&& pairs_ok::<K, V>(b, map_body(p, typed) + 4, typed, length_at(b, map_body(p, typed)) as nat)
        &&& hashes_well::<K>()
        &&& keys_distinct::<K, V>(b, map_body(p, typed) + 4, typed, length_at(b, map_body(p, typed)))
    }

    open spec fn spec_end(b: Seq<u8>, p: int, typed: bool) -> int {
        pairs_end::<K, V>(b, map_body(p, typed) + 4, typed, length_at(b, map_body(p, typed)) as nat)
    }

    /// The map holds exactly the decoded pairs, whose keys are all different.
    open spec fn spec_decodes(b: Seq<u8>, p: int, typed: bool, v: Self, q: int) -> bool {
        &&& typed ==> p + 1 < b.len() && b[p] == K::spec_type_id() && b[p + 1] == V::spec_type_id()
        &&& map_body(p, typed) + 4 <= b.len()
        &&& exists|ks: Seq<K>, vs: Seq<V>|
            #[trigger] pairs_decode::<K, V>(b, map_body(p, typed) + 4, typed, ks, vs, q) && ks.len()
                == length_at(b, map_body(p, typed)) && (hashes_well::<K>() ==> ks.no_duplicates()
                && v@ == pairs_map(ks, vs))
    }

    fn type_id() -> (r: u8) {
        TYPE_HASH_MAP
    }

    fn decode_type(decoder: &mut Decoder) -> (r: Result<(), DecodeError>) {
        decoder.check_type(Self::type_id())
    }

    #[verifier::rlimit(100)]
    fn decode_value(decoder: &mut Decoder) -> (r: Result<Self, DecodeError>) {
        let ghost b = decoder.bytes();
        let ghost typed = decoder.typed();
        proof {
            lemma_rest_take(*decoder, 1);
        }
        decoder.check_type(K::type_id())?;
        proof {
            lemma_rest_take(*decoder, 1);
        }
        decoder.check_type(V::type_id())?;
        proof {
            lemma_rest_take(*decoder, 4);
        }
        let len = decoder.read_len()?;
        let ghost start = decoder.pos();
        let mut map = HashMap::new();
        let ghost mut ks: Seq<K> = seq![];
        let ghost mut vs: Seq<V> = seq![];
        let ghost mut ps: Seq<int> = seq![start];
        let ghost mut ms: Seq<int> = seq![];
        let mut i: usize = 0;
        proof {
            assert(pairs_map(ks, vs) =~= Map::<K, V>::empty());
        }
        while i < len
            invariant
                old(decoder).moved_on(decoder),
                b == old(decoder).bytes(),
                typed == old(decoder).typed(),
                start == map_body(old(decoder).pos(), typed) + 4,
                len == length_at(b, map_body(old(decoder).pos(), typed)),
                i <= len,
                ks.len() == i,
                vs.len() == i,
                ms.len() == i,
                ps.len() == i + 1,
                ps[0] == start,
                ps[i as int] == decoder.pos(),
                forall|k: int|
                    0 <= k < i ==> K::spec_decodes(b, #[trigger] ps[k], typed, ks[k], ms[k])
                        && V::spec_decodes(b, ms[k], typed, vs[k], ps[k + 1]),
                hashes_well::<K>() ==> map@ == pairs_map(ks, vs) && ks.no_duplicates() && forall|x: K|
                    #[trigger] map@.contains_key(x) <==> ks.contains(x),
                pairs_ok::<K, V>(b, start, typed, len as nat) ==> pairs_ok::<K, V>(
                    b,
                    decoder.pos(),
                    typed,
                    (len - i) as nat,
                ) && pairs_end::<K, V>(b, start, typed, len as nat) == pairs_end::<K, V>(
                    b,
                    decoder.pos(),
                    typed,
                    (len - i) as nat,
                ),
            decreases len - i,
        {
            let ghost at = decoder.pos();
            let k = K::decode_value(decoder)?;
            let ghost mid = decoder.pos();
            let v = V::decode_value(decoder)?;
            let ghost gk = k;
            let ghost gv = v;
            let ghost ks2 = ks.push(gk);
            let ghost vs2 = vs.push(gv);
            let ghost ms2 = ms.push(mid);
            let ghost ps2 = ps.push(decoder.pos());
            proof {
                assert forall|j: int| 0 <= j < i + 1 implies K::spec_decodes(
                    b,
                    #[trigger] ps2[j],
                    typed,
                    ks2[j],
                    ms2[j],
                ) && V::spec_decodes(b, ms2[j], typed, vs2[j], ps2[j + 1]) by {
                    if j < i {
                        assert(ps2[j] == ps[j] && ps2[j + 1] == ps[j + 1] && ks2[j] == ks[j]
                            && vs2[j] == vs[j] && ms2[j] == ms[j]);
                    }
                }
                assert(pairs_decode::<K, V>(b, start, typed, ks2, vs2, decoder.pos())) by {
                    assert(ps2.len() == ks2.len() + 1 && ms2.len() == ks2.len());
                }
            }
            let ghost before = map@;
            if map.insert(k, v).is_some() {
                proof {
                    if hashes_well::<K>() {
                        assert(ks.contains(gk));
                        let m = choose|m: int| 0 <= m < ks.len() && ks[m] == gk;
                        assert(ks2[m] == ks2[i as int]);
                        assert(!ks2.no_duplicates());
                        assert(!keys_distinct::<K, V>(b, start, typed, len as int));
                    }
                }
                return Err(DecodeError::CustomError("Duplicate HashMap entries".to_string()));
            }
            proof {
                if hashes_well::<K>() {
                    assert(!ks.contains(gk));
                    lemma_keys_push::<K, V>(before, map@, ks, vs, gk, gv);
                }
                ks = ks2;
                vs = vs2;
                ms = ms2;
                ps = ps2;
            }
            i = i + 1;
        }
        proof {
            assert(pairs_decode::<K, V>(b, start, typed, ks, vs, decoder.pos()));
        }
        Ok(map)
    }
}

} // verus!
