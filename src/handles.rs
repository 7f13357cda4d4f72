use vstd::prelude::*;
use vstd::bytes::{spec_u32_from_le_bytes, spec_u32_to_le_bytes, u32_from_le_bytes, u32_to_le_bytes};
use vstd::slice::slice_subrange;
use std::marker::PhantomData;
use crate::types::{BucketId, KeyValueStoreId, PackageAddress};

verus! {

/// The value of a hexadecimal digit, of either case, or -1 for any other character.
pub open spec fn hex_digit_value(c: char) -> int {
    if '0' <= c && c <= '9' {
        c as int - '0' as int
    } else if 'a' <= c && c <= 'f' {
        c as int - 'a' as int + 10
    } else if 'A' <= c && c <= 'F' {
        c as int - 'A' as int + 10
    } else {
        -1
    }
}

/// A text that spells whole bytes in hexadecimal: an even number of hex digits.
pub open spec fn is_hex(s: Seq<char>) -> bool {
    s.len() % 2 == 0 && forall|i: int| 0 <= i < s.len() ==> hex_digit_value(#[trigger] s[i]) >= 0
}

/// The bytes that a hexadecimal text spells, two digits per byte, high digit first.
pub open spec fn hex_bytes(s: Seq<char>) -> Seq<u8> {
    Seq::new(
        (s.len() / 2) as nat,
        |i: int| (16 * hex_digit_value(s[2 * i]) + hex_digit_value(s[2 * i + 1])) as u8,
    )
}

/// The lowercase hexadecimal digit for a value below 16.
pub open spec fn lower_hex_digit(v: int) -> char {
    if v < 10 {
        (('0' as int) + v) as char
    } else {
        (('a' as int) + v - 10) as char
    }
}

/// The lowercase hexadecimal text of some bytes, two digits per byte, high digit first.
pub open spec fn hex_text(b: Seq<u8>) -> Seq<char> {
    Seq::new(
        2 * b.len(),
        |i: int|
            if i % 2 == 0 {
                lower_hex_digit(b[i / 2] as int / 16)
            } else {
                lower_hex_digit(b[i / 2] as int % 16)
            },
    )
}

/// Relies on `hex::decode`: it accepts an even number of hex digits of either case, and
/// gives one byte per pair of digits, high digit first.
#[verifier::external_body]
fn hex_decode(s: &str) -> (r: Option<Vec<u8>>)
    ensures
        r is Some <==> is_hex(s@),
        r is Some ==> r->Some_0@ == hex_bytes(s@),
{
    hex::decode(s).ok()
}

/// Relies on `hex::encode`: two lowercase hex digits per byte, high digit first.
#[verifier::external_body]
fn hex_encode(b: &[u8]) -> (r: String)
    ensures
        r@ == hex_text(b@),
{
    hex::encode(b)
}

/// Reads a package address from its hexadecimal text: 27 bytes.
pub fn package_address_from_hex(s: &str) -> (r: Option<PackageAddress>)
    ensures
        r is Some <==> is_hex(s@) && hex_bytes(s@).len() == 27,
        r is Some ==> r->Some_0.0@ == hex_bytes(s@),
{
    let bytes = match hex_decode(s) {
        Some(b) => b,
        None => return None,
    };
    if bytes.len() != 27 {
        return None;
    }
    let mut a = [0u8; 27];
    let mut i: usize = 0;
    while i < 27
        invariant
            i <= 27,
            bytes@.len() == 27,
            a@.len() == 27,
            forall|j: int| 0 <= j < i ==> a@[j] == bytes@[j],
        decreases 27 - i,
    {
        a.set(i, bytes[i]);
        i = i + 1;
    }
    assert(a@ =~= bytes@);
    Some(PackageAddress(a))
}

/// Represents an error when decoding a bucket.
#[derive(Debug, Clone, PartialEq, Eq, Structural)]
pub enum ParseBucketError {
    InvalidLength(usize),
}

/// A guest-side handle to a transient resource container.
#[derive(Debug, PartialEq, Eq, Structural)]
pub struct Bucket(pub BucketId);

impl Bucket {
    /// The four little-endian bytes of the bucket id.
    pub fn to_vec(&self) -> (r: Vec<u8>)
        ensures
            r@ == spec_u32_to_le_bytes(self.0),
    {
        u32_to_le_bytes(self.0)
    }

    /// Reads a bucket handle back from its four bytes.
    pub fn try_from(slice: &[u8]) -> (r: Result<Self, ParseBucketError>)
        ensures
            slice@.len() == 4 ==> r == Ok::<Self, ParseBucketError>(
                Bucket(spec_u32_from_le_bytes(slice@)),
            ),
            slice@.len() != 4 ==> r == Err::<Self, ParseBucketError>(
                ParseBucketError::InvalidLength(slice@.len() as usize),
            ),
    {
        if slice.len() == 4 {
            Ok(Bucket(u32_from_le_bytes(slice)))
        } else {
            Err(ParseBucketError::InvalidLength(slice.len()))
        }
    }
}

/// Represents an error when decoding a key-value store handle.
#[derive(Debug, Clone, PartialEq, Eq)]
pub enum ParseKeyValueStoreError {
    InvalidHex(String),
    InvalidLength(usize),
}

/// A guest-side handle to a scalable key-value map, typed by its keys and values.
#[derive(Debug)]
pub struct KeyValueStore<K, V> {
    pub id: KeyValueStoreId,
    pub key: PhantomData<K>,
    pub value: PhantomData<V>,
}

/// The 36 bytes of a key-value store id: the 32 hash bytes, then the counter little-endian.
pub open spec fn kv_id_bytes(id: KeyValueStoreId) -> Seq<u8> {
    id.0.0@ + spec_u32_to_le_bytes(id.1)
}

impl<K, V> KeyValueStore<K, V> {
    /// The handle of the store with the given id.
    pub fn new(id: KeyValueStoreId) -> (r: Self)
        ensures
            r.id == id,
    {
        KeyValueStore { id, key: PhantomData, value: PhantomData }
    }

    pub fn to_vec(&self) -> (r: Vec<u8>)
        ensures
            r@ == kv_id_bytes(self.id),
    {
        let mut v: Vec<u8> = Vec::new();
        let mut i: usize = 0;
        while i < 32
            invariant
                i <= 32,
                v@ == self.id.0.0@.take(i as int),
            decreases 32 - i,
        {
            v.push(self.id.0.0[i]);
            i = i + 1;
            proof {
                assert(v@ =~= self.id.0.0@.take(i as int));
            }
        }
        let mut tail = u32_to_le_bytes(self.id.1);
        v.append(&mut tail);
        proof {
            assert(self.id.0.0@.take(32) =~= self.id.0.0@);
        }
        v
    }

    /// Reads a handle back from its 36 bytes.
    pub fn try_from(slice: &[u8]) -> (r: Result<Self, ParseKeyValueStoreError>)
        ensures
            slice@.len() == 36 ==> r is Ok && kv_id_bytes(r->Ok_0.id) == slice@,
            slice@.len() != 36 ==> r == Err::<Self, ParseKeyValueStoreError>(
                ParseKeyValueStoreError::InvalidLength(slice@.len() as usize),
            ),
    {
        if slice.len() != 36 {
            return Err(ParseKeyValueStoreError::InvalidLength(slice.len()));
        }
        let mut h = [0u8; 32];
        let mut i: usize = 0;
        while i < 32
            invariant
                i <= 32,
                slice@.len() == 36,
                h@.len() == 32,
                forall|j: int| 0 <= j < i ==> h@[j] == slice@[j],
            decreases 32 - i,
        {
            h.set(i, slice[i]);
            i = i + 1;
        }
        let counter_bytes = slice_subrange(slice, 32, 36);
        let counter = u32_from_le_bytes(counter_bytes);
        proof {
            vstd::bytes::lemma_auto_spec_u32_to_from_le_bytes();
            assert(h@ =~= slice@.take(32));
            assert(spec_u32_to_le_bytes(counter) == counter_bytes@);
            assert(slice@ =~= slice@.take(32) + counter_bytes@);
        }
        Ok(KeyValueStore::new((crate::types::Hash(h), counter)))
    }

    /// The hexadecimal text of the handle's bytes.
    pub fn to_hex_string(&self) -> (r: String)
        ensures
            r@ == hex_text(kv_id_bytes(self.id)),
    {
        let v = self.to_vec();
        hex_encode(v.as_slice())
    }

    /// Reads a handle back from its hexadecimal text.
    pub fn from_str(s: &str) -> (r: Result<Self, ParseKeyValueStoreError>)
        ensures
            !is_hex(s@) ==> r is Err && r->Err_0 is InvalidHex,
            is_hex(s@) && hex_bytes(s@).len() == 36 ==> r is Ok && kv_id_bytes(r->Ok_0.id)
                == hex_bytes(s@),
            is_hex(s@) && hex_bytes(s@).len() != 36 ==> r == Err::<Self, ParseKeyValueStoreError>(
                ParseKeyValueStoreError::InvalidLength(hex_bytes(s@).len() as usize),
            ),
    {
        match hex_decode(s) {
            Some(bytes) => Self::try_from(bytes.as_slice()),
            None => Err(ParseKeyValueStoreError::InvalidHex(s.to_owned())),
        }
    }
}

} // verus!
