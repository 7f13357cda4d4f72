use vstd::prelude::*;
use vstd::bytes::{spec_u32_from_le_bytes, spec_u32_to_le_bytes, u32_to_le_bytes};
use crate::any::{
    any_outcome, decode_any, fails_with, laid_out, views, CustomValue, ScanFailure, SpecCustom,
};
use crate::decode::{string_from_utf8, utf8_text, DecodeError};
use vstd::slice::slice_to_vec;
use crate::handles::{kv_id_bytes, Bucket, KeyValueStore, ParseBucketError, ParseKeyValueStoreError};
use crate::type_id::{
    SCRYPTO_TYPE_BLOB, SCRYPTO_TYPE_BUCKET, SCRYPTO_TYPE_COMPONENT,
    SCRYPTO_TYPE_COMPONENT_ADDRESS, SCRYPTO_TYPE_DECIMAL,
    SCRYPTO_TYPE_ECDSA_SECP256K1_PUBLIC_KEY, SCRYPTO_TYPE_ECDSA_SECP256K1_SIGNATURE,
    SCRYPTO_TYPE_EDDSA_ED25519_PUBLIC_KEY, SCRYPTO_TYPE_EDDSA_ED25519_SIGNATURE,
    SCRYPTO_TYPE_EXPRESSION, SCRYPTO_TYPE_HASH, SCRYPTO_TYPE_KEY_VALUE_STORE,
    SCRYPTO_TYPE_NON_FUNGIBLE_ADDRESS, SCRYPTO_TYPE_NON_FUNGIBLE_ID, SCRYPTO_TYPE_PACKAGE_ADDRESS,
    SCRYPTO_TYPE_PRECISE_DECIMAL, SCRYPTO_TYPE_PROOF, SCRYPTO_TYPE_RESOURCE_ADDRESS,
    SCRYPTO_TYPE_VAULT, TYPE_ARRAY, TYPE_BOOL, TYPE_ENUM, TYPE_I128, TYPE_I16, TYPE_I32, TYPE_I64,
    TYPE_I8, TYPE_OPTION, TYPE_RESULT, TYPE_STRING, TYPE_STRUCT, TYPE_TREE_MAP, TYPE_TREE_SET,
    TYPE_TUPLE, TYPE_U128, TYPE_U16, TYPE_U32, TYPE_U64, TYPE_U8, TYPE_UNIT, TYPE_VEC,
};
use crate::types::{
    BucketId, ComponentAddress, KeyValueStoreId, ProofId, RENodeId, ResourceAddress, VaultId,
};

verus! {

/// Whether `t` is a tag of the custom tag space that this library knows.
pub open spec fn known_custom(t: u8) -> bool {
    t == SCRYPTO_TYPE_PACKAGE_ADDRESS || t == SCRYPTO_TYPE_COMPONENT_ADDRESS
        || t == SCRYPTO_TYPE_COMPONENT || t == SCRYPTO_TYPE_KEY_VALUE_STORE || t
        == SCRYPTO_TYPE_HASH || t == SCRYPTO_TYPE_ECDSA_SECP256K1_PUBLIC_KEY || t
        == SCRYPTO_TYPE_ECDSA_SECP256K1_SIGNATURE || t == SCRYPTO_TYPE_EDDSA_ED25519_PUBLIC_KEY
        || t == SCRYPTO_TYPE_EDDSA_ED25519_SIGNATURE || t == SCRYPTO_TYPE_DECIMAL || t
        == SCRYPTO_TYPE_PRECISE_DECIMAL || t == SCRYPTO_TYPE_BUCKET || t == SCRYPTO_TYPE_PROOF
        || t == SCRYPTO_TYPE_VAULT || t == SCRYPTO_TYPE_NON_FUNGIBLE_ID || t
        == SCRYPTO_TYPE_NON_FUNGIBLE_ADDRESS || t == SCRYPTO_TYPE_RESOURCE_ADDRESS || t
        == SCRYPTO_TYPE_EXPRESSION || t == SCRYPTO_TYPE_BLOB
}

/// Represents an error when a value holds an id that cannot be replaced.
#[derive(Debug, Clone, Copy, PartialEq, Eq, Structural)]
pub enum ScryptoValueReplaceError {
    ProofIdNotFound(ProofId),
    BucketIdNotFound(BucketId),
}

/// Represents an error when a value that must hold no custom value holds one.
#[derive(Debug, Clone, Copy, PartialEq, Eq, Structural)]
pub enum ScryptoNoCustomValuesCheckError {
    CustomValueNotAllowed(u8),
}

/// Represents an error when checking the custom values of a value.
#[derive(Debug, Clone, PartialEq, Eq)]
pub enum ScryptoCustomValueCheckError {
    UnknownTypeId(u8),
    InvalidPackageAddress(usize),
    InvalidComponentAddress(usize),
    InvalidResourceAddress(usize),
    InvalidBucket(ParseBucketError),
    InvalidProof(usize),
    InvalidKeyValueStore(ParseKeyValueStoreError),
    InvalidVault(usize),
    InvalidHash(usize),
    InvalidEcdsaSecp256k1PublicKey(usize),
    InvalidEcdsaSecp256k1Signature(usize),
    InvalidEddsaEd25519PublicKey(usize),
    InvalidEddsaEd25519Signature(usize),
    InvalidDecimal(usize),
    InvalidPreciseDecimal(usize),
    InvalidNonFungibleAddress(usize),
    InvalidExpression,
    InvalidBlob(usize),
    DuplicateIds,
}

/// The name of the kind of a check error.
pub open spec fn error_name(e: ScryptoCustomValueCheckError) -> Seq<char> {
    match e {
        ScryptoCustomValueCheckError::UnknownTypeId(..) => "UnknownTypeId"@,
        ScryptoCustomValueCheckError::InvalidPackageAddress(..) => "InvalidPackageAddress"@,
        ScryptoCustomValueCheckError::InvalidComponentAddress(..) => "InvalidComponentAddress"@,
        ScryptoCustomValueCheckError::InvalidResourceAddress(..) => "InvalidResourceAddress"@,
        ScryptoCustomValueCheckError::InvalidBucket(..) => "InvalidBucket"@,
        ScryptoCustomValueCheckError::InvalidProof(..) => "InvalidProof"@,
        ScryptoCustomValueCheckError::InvalidKeyValueStore(..) => "InvalidKeyValueStore"@,
        ScryptoCustomValueCheckError::InvalidVault(..) => "InvalidVault"@,
        ScryptoCustomValueCheckError::InvalidHash(..) => "InvalidHash"@,
        ScryptoCustomValueCheckError::InvalidEcdsaSecp256k1PublicKey(..) => "InvalidEcdsaSecp256k1PublicKey"@,
        ScryptoCustomValueCheckError::InvalidEcdsaSecp256k1Signature(..) => "InvalidEcdsaSecp256k1Signature"@,
        ScryptoCustomValueCheckError::InvalidEddsaEd25519PublicKey(..) => "InvalidEddsaEd25519PublicKey"@,
        ScryptoCustomValueCheckError::InvalidEddsaEd25519Signature(..) => "InvalidEddsaEd25519Signature"@,
        ScryptoCustomValueCheckError::InvalidDecimal(..) => "InvalidDecimal"@,
        ScryptoCustomValueCheckError::InvalidPreciseDecimal(..) => "InvalidPreciseDecimal"@,
        ScryptoCustomValueCheckError::InvalidNonFungibleAddress(..) => "InvalidNonFungibleAddress"@,
        ScryptoCustomValueCheckError::InvalidExpression => "InvalidExpression"@,
        ScryptoCustomValueCheckError::InvalidBlob(..) => "InvalidBlob"@,
        ScryptoCustomValueCheckError::DuplicateIds => "DuplicateIds"@,
    }
}

/// The ids met so far, as bytes where they are not integers: buckets, proofs, vaults,
/// key-value stores, owned components, referenced components, resources, and the bodies of
/// the expressions met.
pub type IdLists = (
    Seq<u32>,
    Seq<u32>,
    Seq<Seq<u8>>,
    Seq<Seq<u8>>,
    Seq<Seq<u8>>,
    Seq<Seq<u8>>,
    Seq<Seq<u8>>,
    Seq<Seq<u8>>,
);

/// No id met yet.
pub open spec fn no_ids() -> IdLists {
    (seq![], seq![], seq![], seq![], seq![], seq![], seq![], seq![])
}

/// What checking one custom value of tag `t` and body `data` does to the ids met so far.
/// The body length of the custom kinds whose body has one fixed size, else 0: a hash and a
/// blob's hash take 32 bytes, a secp256k1 key 33 and its signature 65, an ed25519 key 32 and
/// its signature 64, a decimal 32 and a precise decimal 64.
pub open spec fn fixed_body_len(t: u8) -> int {
    if t == SCRYPTO_TYPE_HASH || t == SCRYPTO_TYPE_BLOB || t == SCRYPTO_TYPE_EDDSA_ED25519_PUBLIC_KEY
        || t == SCRYPTO_TYPE_DECIMAL {
        32
    } else if t == SCRYPTO_TYPE_ECDSA_SECP256K1_PUBLIC_KEY {
        33
    } else if t == SCRYPTO_TYPE_ECDSA_SECP256K1_SIGNATURE {
        65
    } else if t == SCRYPTO_TYPE_EDDSA_ED25519_SIGNATURE || t == SCRYPTO_TYPE_PRECISE_DECIMAL {
        64
    } else {
        0
    }
}

/// The error for a body of kind `t` whose length `n` is not the fixed one.
pub open spec fn body_length_error(t: u8, n: usize) -> ScryptoCustomValueCheckError {
    if t == SCRYPTO_TYPE_HASH {
        ScryptoCustomValueCheckError::InvalidHash(n)
    } else if t == SCRYPTO_TYPE_BLOB {
        ScryptoCustomValueCheckError::InvalidBlob(n)
    } else if t == SCRYPTO_TYPE_EDDSA_ED25519_PUBLIC_KEY {
        ScryptoCustomValueCheckError::InvalidEddsaEd25519PublicKey(n)
    } else if t == SCRYPTO_TYPE_DECIMAL {
        ScryptoCustomValueCheckError::InvalidDecimal(n)
    } else if t == SCRYPTO_TYPE_ECDSA_SECP256K1_PUBLIC_KEY {
        ScryptoCustomValueCheckError::InvalidEcdsaSecp256k1PublicKey(n)
    } else if t == SCRYPTO_TYPE_ECDSA_SECP256K1_SIGNATURE {
        ScryptoCustomValueCheckError::InvalidEcdsaSecp256k1Signature(n)
    } else if t == SCRYPTO_TYPE_EDDSA_ED25519_SIGNATURE {
        ScryptoCustomValueCheckError::InvalidEddsaEd25519Signature(n)
    } else {
        ScryptoCustomValueCheckError::InvalidPreciseDecimal(n)
    }
}

fn fixed_body_len_of(t: u8) -> (r: usize)
    ensures
        r == fixed_body_len(t),
{
    if t == SCRYPTO_TYPE_HASH || t == SCRYPTO_TYPE_BLOB || t == SCRYPTO_TYPE_EDDSA_ED25519_PUBLIC_KEY
        || t == SCRYPTO_TYPE_DECIMAL {
        32
    } else if t == SCRYPTO_TYPE_ECDSA_SECP256K1_PUBLIC_KEY {
        33
    } else if t == SCRYPTO_TYPE_ECDSA_SECP256K1_SIGNATURE {
        65
    } else if t == SCRYPTO_TYPE_EDDSA_ED25519_SIGNATURE || t == SCRYPTO_TYPE_PRECISE_DECIMAL {
        64
    } else {
        0
    }
}

fn body_length_error_of(t: u8, n: usize) -> (r: ScryptoCustomValueCheckError)
    ensures
        r == body_length_error(t, n),
{
    if t == SCRYPTO_TYPE_HASH {
        ScryptoCustomValueCheckError::InvalidHash(n)
    } else if t == SCRYPTO_TYPE_BLOB {
        ScryptoCustomValueCheckError::InvalidBlob(n)
    } else if t == SCRYPTO_TYPE_EDDSA_ED25519_PUBLIC_KEY {
        ScryptoCustomValueCheckError::InvalidEddsaEd25519PublicKey(n)
    } else if t == SCRYPTO_TYPE_DECIMAL {
        ScryptoCustomValueCheckError::InvalidDecimal(n)
    } else if t == SCRYPTO_TYPE_ECDSA_SECP256K1_PUBLIC_KEY {
        ScryptoCustomValueCheckError::InvalidEcdsaSecp256k1PublicKey(n)
    } else if t == SCRYPTO_TYPE_ECDSA_SECP256K1_SIGNATURE {
        ScryptoCustomValueCheckError::InvalidEcdsaSecp256k1Signature(n)
    } else if t == SCRYPTO_TYPE_EDDSA_ED25519_SIGNATURE {
        ScryptoCustomValueCheckError::InvalidEddsaEd25519Signature(n)
    } else {
        ScryptoCustomValueCheckError::InvalidPreciseDecimal(n)
    }
}

pub open spec fn spec_visit(st: IdLists, t: u8, data: Seq<u8>) -> Result<
    IdLists,
    ScryptoCustomValueCheckError,
> {
    let n = data.len() as usize;
    if t == SCRYPTO_TYPE_PACKAGE_ADDRESS {
        if data.len() == 27 {
            Ok(st)
        } else {
            Err(ScryptoCustomValueCheckError::InvalidPackageAddress(n))
        }
    } else if t == SCRYPTO_TYPE_COMPONENT_ADDRESS {
        if data.len() == 27 {
            Ok((st.0, st.1, st.2, st.3, st.4, st.5.push(data), st.6, st.7))
        } else {
            Err(ScryptoCustomValueCheckError::InvalidComponentAddress(n))
        }
    } else if t == SCRYPTO_TYPE_COMPONENT {
        if data.len() != 27 {
            Err(ScryptoCustomValueCheckError::InvalidComponentAddress(n))
        } else if st.4.contains(data) {
            Err(ScryptoCustomValueCheckError::DuplicateIds)
        } else {
            Ok((st.0, st.1, st.2, st.3, st.4.push(data), st.5, st.6, st.7))
        }
    } else if t == SCRYPTO_TYPE_KEY_VALUE_STORE {
        if data.len() != 36 {
            Err(
                ScryptoCustomValueCheckError::InvalidKeyValueStore(
                    ParseKeyValueStoreError::InvalidLength(n),
                ),
            )
        } else if st.3.contains(data) {
            Err(ScryptoCustomValueCheckError::DuplicateIds)
        } else {
            Ok((st.0, st.1, st.2, st.3.push(data), st.4, st.5, st.6, st.7))
        }
    } else if t == SCRYPTO_TYPE_BUCKET {
        if data.len() != 4 {
            Err(ScryptoCustomValueCheckError::InvalidBucket(ParseBucketError::InvalidLength(n)))
        } else if st.0.contains(spec_u32_from_le_bytes(data)) {
            Err(ScryptoCustomValueCheckError::DuplicateIds)
        } else {
            Ok((st.0.push(spec_u32_from_le_bytes(data)), st.1, st.2, st.3, st.4, st.5, st.6, st.7))
        }
    } else if t == SCRYPTO_TYPE_PROOF {
        if data.len() != 4 {
            Err(ScryptoCustomValueCheckError::InvalidProof(n))
        } else if st.1.contains(spec_u32_from_le_bytes(data)) {
            Err(ScryptoCustomValueCheckError::DuplicateIds)
        } else {
            Ok((st.0, st.1.push(spec_u32_from_le_bytes(data)), st.2, st.3, st.4, st.5, st.6, st.7))
        }
    } else if t == SCRYPTO_TYPE_VAULT {
        if data.len() != 36 {
            Err(ScryptoCustomValueCheckError::InvalidVault(n))
        } else if st.2.contains(data) {
            Err(ScryptoCustomValueCheckError::DuplicateIds)
        } else {
            Ok((st.0, st.1, st.2.push(data), st.3, st.4, st.5, st.6, st.7))
        }
    } else if t == SCRYPTO_TYPE_RESOURCE_ADDRESS {
        if data.len() == 27 {
            Ok((st.0, st.1, st.2, st.3, st.4, st.5, st.6.push(data), st.7))
        } else {
            Err(ScryptoCustomValueCheckError::InvalidResourceAddress(n))
        }
    } else if fixed_body_len(t) > 0 {
        if data.len() == fixed_body_len(t) {
            Ok(st)
        } else {
            Err(body_length_error(t, n))
        }
    } else if t == SCRYPTO_TYPE_NON_FUNGIBLE_ADDRESS {
        if data.len() >= 27 {
            Ok(st)
        } else {
            Err(ScryptoCustomValueCheckError::InvalidNonFungibleAddress(n))
        }
    } else if t == SCRYPTO_TYPE_EXPRESSION {
        if utf8_text(data) is Some {
            Ok((st.0, st.1, st.2, st.3, st.4, st.5, st.6, st.7.push(data)))
        } else {
            Err(ScryptoCustomValueCheckError::InvalidExpression)
        }
    } else if t == SCRYPTO_TYPE_NON_FUNGIBLE_ID {
        Ok(st)
    } else {
        Err(ScryptoCustomValueCheckError::UnknownTypeId(t))
    }
}

/// Checking the custom values `cs` in order, from the ids `st`: the ids at the end, or the
/// first failure.
pub open spec fn check_all(st: IdLists, cs: Seq<SpecCustom>) -> Result<
    IdLists,
    ScryptoCustomValueCheckError,
>
    decreases cs.len(),
{
    if cs.len() == 0 {
        Ok(st)
    } else {
        match spec_visit(st, cs[0].0, cs[0].1) {
            Err(e) => Err(e),
            Ok(st2) => check_all(st2, cs.drop_first()),
        }
    }
}

pub open spec fn addr_bytes(a: ComponentAddress) -> Seq<u8> {
    a.0@
}

pub open spec fn resource_bytes(a: ResourceAddress) -> Seq<u8> {
    a.0@
}

impl ScryptoCustomValueCheckError {
    /// The name of the error's kind.
    pub fn name(&self) -> (r: &'static str)
        ensures
            r@ == error_name(*self),
    {
        match self {
            ScryptoCustomValueCheckError::UnknownTypeId(..) => "UnknownTypeId",
            ScryptoCustomValueCheckError::InvalidPackageAddress(..) => "InvalidPackageAddress",
            ScryptoCustomValueCheckError::InvalidComponentAddress(..) => "InvalidComponentAddress",
            ScryptoCustomValueCheckError::InvalidResourceAddress(..) => "InvalidResourceAddress",
            ScryptoCustomValueCheckError::InvalidBucket(..) => "InvalidBucket",
            ScryptoCustomValueCheckError::InvalidProof(..) => "InvalidProof",
            ScryptoCustomValueCheckError::InvalidKeyValueStore(..) => "InvalidKeyValueStore",
            ScryptoCustomValueCheckError::InvalidVault(..) => "InvalidVault",
            ScryptoCustomValueCheckError::InvalidHash(..) => "InvalidHash",
            ScryptoCustomValueCheckError::InvalidEcdsaSecp256k1PublicKey(..) => "InvalidEcdsaSecp256k1PublicKey",
            ScryptoCustomValueCheckError::InvalidEcdsaSecp256k1Signature(..) => "InvalidEcdsaSecp256k1Signature",
            ScryptoCustomValueCheckError::InvalidEddsaEd25519PublicKey(..) => "InvalidEddsaEd25519PublicKey",
            ScryptoCustomValueCheckError::InvalidEddsaEd25519Signature(..) => "InvalidEddsaEd25519Signature",
            ScryptoCustomValueCheckError::InvalidDecimal(..) => "InvalidDecimal",
            ScryptoCustomValueCheckError::InvalidPreciseDecimal(..) => "InvalidPreciseDecimal",
            ScryptoCustomValueCheckError::InvalidNonFungibleAddress(..) => "InvalidNonFungibleAddress",
            ScryptoCustomValueCheckError::InvalidExpression => "InvalidExpression",
            ScryptoCustomValueCheckError::InvalidBlob(..) => "InvalidBlob",
            ScryptoCustomValueCheckError::DuplicateIds => "DuplicateIds",
        }
    }
}

/// Reads a 27-byte address.
fn address_bytes(data: &[u8]) -> (r: Option<[u8; 27]>)
    ensures
        r is Some <==> data@.len() == 27,
        r is Some ==> r->Some_0@ == data@,
{
    if data.len() != 27 {
        return None;
    }
    let mut a = [0u8; 27];
    let mut i: usize = 0;
    while i < 27
        invariant
            i <= 27,
            data@.len() == 27,
            a@.len() == 27,
            forall|j: int| 0 <= j < i ==> a@[j] == data@[j],
        decreases 27 - i,
    {
        a.set(i, data[i]);
        i = i + 1;
    }
    assert(a@ =~= data@);
    Some(a)
}

fn contains_u32(v: &Vec<u32>, x: u32) -> (r: bool)
    ensures
        r == v@.contains(x),
{
    let mut i: usize = 0;
    while i < v.len()
        invariant
            i <= v@.len(),
            forall|j: int| 0 <= j < i ==> v@[j] != x,
        decreases v@.len() - i,
    {
        if v[i] == x {
            return true;
        }
        i = i + 1;
    }
    false
}

/// Whether two stored ids are the same.
pub open spec fn same_stored(a: (crate::types::Hash, u32), b: (crate::types::Hash, u32)) -> bool {
    a.0.0@ == b.0.0@ && a.1 == b.1
}

/// Whether `x` is among the stored ids of `v`.
pub open spec fn has_stored(v: Seq<(crate::types::Hash, u32)>, x: (crate::types::Hash, u32)) -> bool {
    exists|i: int| 0 <= i < v.len() && same_stored(#[trigger] v[i], x)
}

fn contains_stored(v: &Vec<(crate::types::Hash, u32)>, x: (crate::types::Hash, u32)) -> (r: bool)
    ensures
        r == has_stored(v@, x),
{
    let mut i: usize = 0;
    while i < v.len()
        invariant
            i <= v@.len(),
            forall|j: int| 0 <= j < i ==> !same_stored(#[trigger] v@[j], x),
        decreases v@.len() - i,
    {
        if v[i].0 == x.0 && v[i].1 == x.1 {
            return true;
        }
        i = i + 1;
    }
    false
}

/// Whether `x` is among the addresses of `v`.
pub open spec fn has_component(v: Seq<ComponentAddress>, x: ComponentAddress) -> bool {
    exists|i: int| 0 <= i < v.len() && (#[trigger] v[i]).0@ == x.0@
}

fn contains_component(v: &Vec<ComponentAddress>, x: ComponentAddress) -> (r: bool)
    ensures
        r == has_component(v@, x),
{
    let mut i: usize = 0;
    while i < v.len()
        invariant
            i <= v@.len(),
            forall|j: int| 0 <= j < i ==> (#[trigger] v@[j]).0@ != x.0@,
        decreases v@.len() - i,
    {
        if v[i] == x {
            return true;
        }
        i = i + 1;
    }
    false
}

/// Collects the ids that the custom values of a value carry, and rejects a value that
/// carries an owned id twice.
pub struct ScryptoCustomValueChecker {
    pub buckets: Vec<BucketId>,
    pub proofs: Vec<ProofId>,
    pub vaults: Vec<VaultId>,
    pub kv_stores: Vec<KeyValueStoreId>,
    pub components: Vec<ComponentAddress>,
    pub ref_components: Vec<ComponentAddress>,
    pub resource_addresses: Vec<ResourceAddress>,
    pub expressions: Vec<Vec<u8>>,
}

impl ScryptoCustomValueChecker {
    /// The ids met so far.
    pub open spec fn ids(&self) -> IdLists {
        (
            self.buckets@,
            self.proofs@,
            self.vaults@.map_values(|v: VaultId| kv_id_bytes(v)),
            self.kv_stores@.map_values(|k: KeyValueStoreId| kv_id_bytes(k)),
            self.components@.map_values(|c: ComponentAddress| addr_bytes(c)),
            self.ref_components@.map_values(|c: ComponentAddress| addr_bytes(c)),
            self.resource_addresses@.map_values(|a: ResourceAddress| resource_bytes(a)),
            self.expressions@.map_values(|e: Vec<u8>| e@),
        )
    }

    /// No id is held twice in the owned kinds.
    pub open spec fn wf(&self) -> bool {
        &&& self.buckets@.no_duplicates()
        &&& self.proofs@.no_duplicates()
        &&& forall|i: int, j: int|
            0 <= i < j < self.vaults@.len() ==> !same_stored(
                #[trigger] self.vaults@[i],
                #[trigger] self.vaults@[j],
            )
        &&& forall|i: int, j: int|
            0 <= i < j < self.kv_stores@.len() ==> !same_stored(
                #[trigger] self.kv_stores@[i],
                #[trigger] self.kv_stores@[j],
            )
        &&& forall|i: int, j: int|
            0 <= i < j < self.components@.len() ==> (#[trigger] self.components@[i]).0@ != (
            #[trigger] self.components@[j]).0@
    }

    pub fn new() -> (r: Self)
        ensures
            r.wf(),
            r.buckets@.len() == 0,
            r.proofs@.len() == 0,
            r.vaults@.len() == 0,
            r.kv_stores@.len() == 0,
            r.components@.len() == 0,
            r.ref_components@.len() == 0,
            r.resource_addresses@.len() == 0,
            r.expressions@.len() == 0,
    {
        ScryptoCustomValueChecker {
            buckets: Vec::new(),
            proofs: Vec::new(),
            vaults: Vec::new(),
            kv_stores: Vec::new(),
            components: Vec::new(),
            ref_components: Vec::new(),
            resource_addresses: Vec::new(),
            expressions: Vec::new(),
        }
    }

    /// Checks one custom value of tag `type_id` and body `data`, and records the id it
    /// carries. An unknown tag, a body of the wrong length, an expression that is not UTF-8, or
    /// an owned id already seen is rejected. A non-fungible id may be any bytes.
    pub fn visit(&mut self, type_id: u8, data: &[u8]) -> (r: Result<
        (),
        ScryptoCustomValueCheckError,
    >)
        requires
            old(self).wf(),
        ensures
            final(self).wf(),
            !known_custom(type_id) ==> r == Err::<(), ScryptoCustomValueCheckError>(
                ScryptoCustomValueCheckError::UnknownTypeId(type_id),
            ),
            type_id == SCRYPTO_TYPE_BUCKET ==> {
                if data@.len() != 4 {
                    r == Err::<(), ScryptoCustomValueCheckError>(
                        ScryptoCustomValueCheckError::InvalidBucket(
                            ParseBucketError::InvalidLength(data@.len() as usize),
                        ),
                    )
                } else if old(self).buckets@.contains(spec_u32_from_le_bytes(data@)) {
                    r == Err::<(), ScryptoCustomValueCheckError>(
                        ScryptoCustomValueCheckError::DuplicateIds,
                    )
                } else {
                    r is Ok && final(self).buckets@ == old(self).buckets@.push(
                        spec_u32_from_le_bytes(data@),
                    )
                }
            },
            type_id == SCRYPTO_TYPE_PROOF ==> {
                if data@.len() != 4 {
                    r == Err::<(), ScryptoCustomValueCheckError>(
                        ScryptoCustomValueCheckError::InvalidProof(data@.len() as usize),
                    )
                } else if old(self).proofs@.contains(spec_u32_from_le_bytes(data@)) {
                    r == Err::<(), ScryptoCustomValueCheckError>(
                        ScryptoCustomValueCheckError::DuplicateIds,
                    )
                } else {
                    r is Ok && final(self).proofs@ == old(self).proofs@.push(
                        spec_u32_from_le_bytes(data@),
                    )
                }
            },
            type_id == SCRYPTO_TYPE_VAULT ==> {
                if data@.len() != 36 {
                    r == Err::<(), ScryptoCustomValueCheckError>(
                        ScryptoCustomValueCheckError::InvalidVault(data@.len() as usize),
                    )
                } else {
                    (r is Err <==> exists|i: int|
                        0 <= i < old(self).vaults@.len() && kv_id_bytes(
                            #[trigger] old(self).vaults@[i],
                        ) == data@) && (r is Err ==> r
                        == Err::<(), ScryptoCustomValueCheckError>(
                        ScryptoCustomValueCheckError::DuplicateIds,
                    )) && (r is Ok ==> final(self).vaults@.len() == old(self).vaults@.len() + 1
                        && kv_id_bytes(final(self).vaults@.last()) == data@)
                }
            },
            type_id == SCRYPTO_TYPE_RESOURCE_ADDRESS ==> (data@.len() == 27 <==> r is Ok),
            type_id == SCRYPTO_TYPE_COMPONENT_ADDRESS ==> (data@.len() == 27 <==> r is Ok),
            type_id == SCRYPTO_TYPE_PACKAGE_ADDRESS ==> (data@.len() == 27 <==> r is Ok),
            type_id != SCRYPTO_TYPE_BUCKET ==> final(self).buckets == old(self).buckets,
            type_id != SCRYPTO_TYPE_PROOF ==> final(self).proofs == old(self).proofs,
            type_id != SCRYPTO_TYPE_VAULT ==> final(self).vaults == old(self).vaults,
            match spec_visit(old(self).ids(), type_id, data@) {
                Ok(st) => r is Ok && final(self).ids() == st,
                Err(e) => r == Err::<(), ScryptoCustomValueCheckError>(e) && final(self).ids()
                    == old(self).ids(),
            },
    {
        let ghost st = self.ids();
        proof {
            lemma_ids_views(*self);
        }
        if type_id == SCRYPTO_TYPE_PACKAGE_ADDRESS {
            match address_bytes(data) {
                Some(_) => Ok(()),
                None => Err(ScryptoCustomValueCheckError::InvalidPackageAddress(data.len())),
            }
        } else if type_id == SCRYPTO_TYPE_COMPONENT_ADDRESS {
            match address_bytes(data) {
                Some(a) => {
                    self.ref_components.push(ComponentAddress(a));
                    proof {
                        assert(self.ref_components@.map_values(|c: ComponentAddress| addr_bytes(c))
                            =~= st.5.push(data@));
                    }
                    Ok(())
                },
                None => Err(ScryptoCustomValueCheckError::InvalidComponentAddress(data.len())),
            }
        } else if type_id == SCRYPTO_TYPE_COMPONENT {
            match address_bytes(data) {
                Some(a) => {
                    let c = ComponentAddress(a);
                    if contains_component(&self.components, c) {
                        proof {
                            let i = choose|i: int|
                                0 <= i < self.components@.len() && (#[trigger] self.components@[i]).0@
                                    == c.0@;
                            assert(st.4[i] == data@);
                        }
                        return Err(ScryptoCustomValueCheckError::DuplicateIds);
                    }
                    proof {
                        assert(!st.4.contains(data@)) by {
                            if st.4.contains(data@) {
                                let i = choose|i: int| 0 <= i < st.4.len() && st.4[i] == data@;
                                assert(self.components@[i].0@ == c.0@);
                            }
                        }
                    }
                    self.components.push(c);
                    proof {
                        assert(self.components@.map_values(|c: ComponentAddress| addr_bytes(c))
                            =~= st.4.push(data@));
                    }
                    Ok(())
                },
                None => Err(ScryptoCustomValueCheckError::InvalidComponentAddress(data.len())),
            }
        } else if type_id == SCRYPTO_TYPE_KEY_VALUE_STORE {
            match KeyValueStore::<(), ()>::try_from(data) {
                Ok(kv) => {
                    if contains_stored(&self.kv_stores, kv.id) {
                        proof {
                            let i = choose|i: int|
                                0 <= i < self.kv_stores@.len() && same_stored(
                                    #[trigger] self.kv_stores@[i],
                                    kv.id,
                                );
                            assert(self.kv_stores@[i].0.0@ =~= kv.id.0.0@);
                            assert(st.3[i] == data@);
                        }
                        return Err(ScryptoCustomValueCheckError::DuplicateIds);
                    }
                    proof {
                        assert(!st.3.contains(data@)) by {
                            if st.3.contains(data@) {
                                let i = choose|i: int| 0 <= i < st.3.len() && st.3[i] == data@;
                                lemma_kv_id_bytes_injective(self.kv_stores@[i], kv.id);
                            }
                        }
                    }
                    self.kv_stores.push(kv.id);
                    proof {
                        assert(self.kv_stores@.map_values(|k: KeyValueStoreId| kv_id_bytes(k))
                            =~= st.3.push(data@));
                    }
                    Ok(())
                },
                Err(e) => Err(ScryptoCustomValueCheckError::InvalidKeyValueStore(e)),
            }
        } else if type_id == SCRYPTO_TYPE_BUCKET {
            match Bucket::try_from(data) {
                Ok(b) => {
                    if contains_u32(&self.buckets, b.0) {
                        return Err(ScryptoCustomValueCheckError::DuplicateIds);
                    }
                    self.buckets.push(b.0);
                    Ok(())
                },
                Err(e) => Err(ScryptoCustomValueCheckError::InvalidBucket(e)),
            }
        } else if type_id == SCRYPTO_TYPE_PROOF {
            match Bucket::try_from(data) {
                Ok(p) => {
                    if contains_u32(&self.proofs, p.0) {
                        return Err(ScryptoCustomValueCheckError::DuplicateIds);
                    }
                    self.proofs.push(p.0);
                    Ok(())
                },
                Err(_) => Err(ScryptoCustomValueCheckError::InvalidProof(data.len())),
            }
        } else if type_id == SCRYPTO_TYPE_VAULT {
            match KeyValueStore::<(), ()>::try_from(data) {
                Ok(v) => {
                    if contains_stored(&self.vaults, v.id) {
                        proof {
                            let i = choose|i: int|
                                0 <= i < self.vaults@.len() && same_stored(
                                    #[trigger] self.vaults@[i],
                                    v.id,
                                );
                            assert(self.vaults@[i].0.0@ =~= v.id.0.0@);
                            assert(kv_id_bytes(self.vaults@[i]) == data@);
                            assert(st.2[i] == data@);
                        }
                        return Err(ScryptoCustomValueCheckError::DuplicateIds);
                    }
                    proof {
                        assert forall|i: int|
                            0 <= i < self.vaults@.len() implies kv_id_bytes(
                            #[trigger] self.vaults@[i],
                        ) != data@ by {
                            lemma_kv_id_bytes_injective(self.vaults@[i], v.id);
                        }
                    }
                    self.vaults.push(v.id);
                    proof {
                        assert(!st.2.contains(data@)) by {
                            if st.2.contains(data@) {
                                let i = choose|i: int| 0 <= i < st.2.len() && st.2[i] == data@;
                            }
                        }
                        assert(self.vaults@.map_values(|v: VaultId| kv_id_bytes(v))
                            =~= st.2.push(data@));
                    }
                    Ok(())
                },
                Err(_) => Err(ScryptoCustomValueCheckError::InvalidVault(data.len())),
            }
        } else if type_id == SCRYPTO_TYPE_RESOURCE_ADDRESS {
            match address_bytes(data) {
                Some(a) => {
                    self.resource_addresses.push(ResourceAddress(a));
                    proof {
                        assert(self.resource_addresses@.map_values(
                            |a: ResourceAddress| resource_bytes(a),
                        ) =~= st.6.push(data@));
                    }
                    Ok(())
                },
                None => Err(ScryptoCustomValueCheckError::InvalidResourceAddress(data.len())),
            }
        } else if fixed_body_len_of(type_id) > 0 {
            if data.len() == fixed_body_len_of(type_id) {
                Ok(())
            } else {
                Err(body_length_error_of(type_id, data.len()))
            }
        } else if type_id == SCRYPTO_TYPE_NON_FUNGIBLE_ADDRESS {
            if data.len() >= 27 {
                Ok(())
            } else {
                Err(ScryptoCustomValueCheckError::InvalidNonFungibleAddress(data.len()))
            }
        } else if type_id == SCRYPTO_TYPE_EXPRESSION {
            match string_from_utf8(slice_to_vec(data)) {
                Some(_) => {
                    self.expressions.push(slice_to_vec(data));
                    proof {
                        assert(self.expressions@.map_values(|e: Vec<u8>| e@) =~= st.7.push(data@));
                    }
                    Ok(())
                },
                None => Err(ScryptoCustomValueCheckError::InvalidExpression),
            }
        } else if type_id == SCRYPTO_TYPE_NON_FUNGIBLE_ID {
            Ok(())
        } else {
            Err(ScryptoCustomValueCheckError::UnknownTypeId(type_id))
        }
    }
}

proof fn lemma_ids_views(c: ScryptoCustomValueChecker)
    ensures
        forall|i: int|
            0 <= i < c.vaults@.len() ==> #[trigger] c.ids().2[i] == kv_id_bytes(c.vaults@[i]),
        forall|i: int|
            0 <= i < c.kv_stores@.len() ==> #[trigger] c.ids().3[i] == kv_id_bytes(c.kv_stores@[i]),
        forall|i: int|
            0 <= i < c.components@.len() ==> #[trigger] c.ids().4[i] == c.components@[i].0@,
        c.ids().2.len() == c.vaults@.len(),
        c.ids().3.len() == c.kv_stores@.len(),
        c.ids().4.len() == c.components@.len(),
{
}

proof fn lemma_kv_id_bytes_injective(a: (crate::types::Hash, u32), b: (crate::types::Hash, u32))
    ensures
        kv_id_bytes(a) == kv_id_bytes(b) ==> same_stored(a, b),
{
    vstd::bytes::lemma_auto_spec_u32_to_from_le_bytes();
    if kv_id_bytes(a) == kv_id_bytes(b) {
        assert(kv_id_bytes(a).take(32) =~= a.0.0@);
        assert(kv_id_bytes(b).take(32) =~= b.0.0@);
        assert(kv_id_bytes(a).skip(32) =~= vstd::bytes::spec_u32_to_le_bytes(a.1));
        assert(kv_id_bytes(b).skip(32) =~= vstd::bytes::spec_u32_to_le_bytes(b.1));
    }
}

/// The four bytes at `p` in `raw` spell `id`, little-endian.
pub open spec fn id_at(raw: Seq<u8>, p: usize, id: u32) -> bool {
    p + 4 <= raw.len() && raw.subrange(p as int, p + 4) == spec_u32_to_le_bytes(id)
}

/// No two of the four-byte ranges starting at `ps` overlap.
pub open spec fn apart(ps: Seq<usize>) -> bool {
    forall|i: int, j: int|
        0 <= i < ps.len() && 0 <= j < ps.len() && i != j ==> #[trigger] ps[i] + 4 <= #[trigger] ps[j]
            || ps[j] + 4 <= ps[i]
}

/// A value in the canonical encoding, with the ids that its custom values carry. Each bucket
/// and proof id comes with the position of its four bytes in the encoding.
#[derive(Debug)]
pub struct ScryptoValue {
    pub raw: Vec<u8>,
    pub bucket_ids: Vec<BucketId>,
    pub bucket_paths: Vec<usize>,
    pub proof_ids: Vec<ProofId>,
    pub proof_paths: Vec<usize>,
    pub vault_ids: Vec<VaultId>,
    pub kv_store_ids: Vec<KeyValueStoreId>,
    pub owned_component_addresses: Vec<ComponentAddress>,
    pub refed_component_addresses: Vec<ComponentAddress>,
    pub resource_addresses: Vec<ResourceAddress>,
    /// The bodies of the expressions the value holds, in order.
    pub expressions: Vec<Vec<u8>>,
}

/// `r` is what reading the value encoded by `b` gives: its ids, or the first failure.
pub open spec fn decoded_as(r: Result<ScryptoValue, DecodeError>, b: Seq<u8>) -> bool {
    match any_outcome(b) {
        Err(e) => r is Err && fails_with(r->Err_0, e),
        Ok(cs) => match check_all(no_ids(), cs) {
            Ok(st) => r is Ok && r->Ok_0.raw@ == b && r->Ok_0.ids() == st && r->Ok_0.wf(),
            Err(e) => r is Err && r->Err_0 is CustomError && r->Err_0->CustomError_0@ == error_name(
                e,
            ),
        },
    }
}

impl ScryptoValue {
    /// The ids the value carries, as the checker records them.
    pub open spec fn ids(&self) -> IdLists {
        (
            self.bucket_ids@,
            self.proof_ids@,
            self.vault_ids@.map_values(|v: VaultId| kv_id_bytes(v)),
            self.kv_store_ids@.map_values(|k: KeyValueStoreId| kv_id_bytes(k)),
            self.owned_component_addresses@.map_values(|c: ComponentAddress| addr_bytes(c)),
            self.refed_component_addresses@.map_values(|c: ComponentAddress| addr_bytes(c)),
            self.resource_addresses@.map_values(|a: ResourceAddress| resource_bytes(a)),
            self.expressions@.map_values(|e: Vec<u8>| e@),
        )
    }

    /// Each bucket and proof id is spelled in the encoding at its position, and no two
    /// positions overlap.
    pub open spec fn paths_match(&self) -> bool {
        &&& self.bucket_paths@.len() == self.bucket_ids@.len()
        &&& self.proof_paths@.len() == self.proof_ids@.len()
        &&& forall|k: int|
            0 <= k < self.bucket_ids@.len() ==> id_at(
                self.raw@,
                #[trigger] self.bucket_paths@[k],
                self.bucket_ids@[k],
            )
        &&& forall|k: int|
            0 <= k < self.proof_ids@.len() ==> id_at(
                self.raw@,
                #[trigger] self.proof_paths@[k],
                self.proof_ids@[k],
            )
        &&& apart(self.bucket_paths@ + self.proof_paths@)
    }

    /// The owned ids are all distinct, and the ids match the encoding.
    pub open spec fn wf(&self) -> bool {
        &&& self.paths_match()
        &&& self.bucket_ids@.no_duplicates()
        &&& self.proof_ids@.no_duplicates()
        &&& forall|i: int, j: int|
            0 <= i < j < self.vault_ids@.len() ==> !same_stored(
                #[trigger] self.vault_ids@[i],
                #[trigger] self.vault_ids@[j],
            )
    }

    /// The encoded unit value, which carries no id.
    pub fn unit() -> (r: Self)
        ensures
            r.raw@ == seq![TYPE_UNIT],
            r.bucket_ids@.len() == 0,
            r.proof_ids@.len() == 0,
            r.vault_ids@.len() == 0,
            r.wf(),
    {
        let mut raw: Vec<u8> = Vec::new();
        raw.push(TYPE_UNIT);
        proof {
            assert(raw@ =~= seq![TYPE_UNIT]);
        }
        ScryptoValue {
            raw,
            bucket_ids: Vec::new(),
            bucket_paths: Vec::new(),
            proof_ids: Vec::new(),
            proof_paths: Vec::new(),
            vault_ids: Vec::new(),
            kv_store_ids: Vec::new(),
            owned_component_addresses: Vec::new(),
            refed_component_addresses: Vec::new(),
            resource_addresses: Vec::new(),
            expressions: Vec::new(),
        }
    }

    /// Decodes a whole value and checks its custom values.
    pub fn from_slice(slice: &[u8]) -> (r: Result<Self, DecodeError>)
        ensures
            decoded_as(r, slice@),
    {
        let customs = decode_any(slice)?;
        Self::from_value(slice, customs)
    }

    /// Builds a value from its encoding and the custom values inside it, in order, each at
    /// its position: each is checked, and the first failure is returned as a custom decode
    /// error named after it.
    pub fn from_value(raw: &[u8], customs: Vec<CustomValue>) -> (r: Result<Self, DecodeError>)
        requires
            laid_out(customs@, 0, raw@, 0, raw@.len() as int),
        ensures
            match check_all(no_ids(), views(customs@)) {
                Ok(st) => r is Ok && r->Ok_0.raw@ == raw@ && r->Ok_0.ids() == st && r->Ok_0.wf(),
                Err(e) => r is Err && r->Err_0 is CustomError && r->Err_0->CustomError_0@
                    == error_name(e),
            },
    {
        let mut checker = ScryptoCustomValueChecker::new();
        proof {
            assert(checker.ids() =~~= no_ids());
            assert(views(customs@).skip(0) =~= views(customs@));
        }
        let mut bucket_paths: Vec<usize> = Vec::new();
        let mut proof_paths: Vec<usize> = Vec::new();
        let mut i: usize = 0;
        while i < customs.len()
            invariant
                laid_out(customs@, 0, raw@, 0, raw@.len() as int),
                checker.wf(),
                i <= customs@.len(),
                check_all(no_ids(), views(customs@)) == check_all(
                    checker.ids(),
                    views(customs@).skip(i as int),
                ),
                bucket_paths@.len() == checker.buckets@.len(),
                proof_paths@.len() == checker.proofs@.len(),
                forall|k: int|
                    0 <= k < checker.buckets@.len() ==> id_at(
                        raw@,
                        #[trigger] bucket_paths@[k],
                        checker.buckets@[k],
                    ),
                forall|k: int|
                    0 <= k < checker.proofs@.len() ==> id_at(
                        raw@,
                        #[trigger] proof_paths@[k],
                        checker.proofs@[k],
                    ),
                apart(bucket_paths@ + proof_paths@),
                i > 0 ==> forall|k: int|
                    0 <= k < (bucket_paths@ + proof_paths@).len() ==> #[trigger] (bucket_paths@
                        + proof_paths@)[k] + 4 <= customs@[i - 1].2 + customs@[i - 1].1@.len(),
                i == 0 ==> bucket_paths@.len() + proof_paths@.len() == 0,
            decreases customs@.len() - i,
        {
            let t = customs[i].0;
            let at = customs[i].2;
            let ghost old_buckets = checker.buckets@;
            let ghost old_proofs = checker.proofs@;
            let ghost all = bucket_paths@ + proof_paths@;
            let ghost ids_before = checker.ids();
            proof {
                let v = views(customs@).skip(i as int);
                assert(v[0] == (t, customs@[i as int].1@, at as int));
                assert(v.drop_first() =~= views(customs@).skip(i + 1));
            }
            let res = checker.visit(t, customs[i].1.as_slice());
            match res {
                Ok(()) => {},
                Err(e) => {
                    return Err(DecodeError::CustomError(e.name().to_owned()));
                },
            }
            proof {
                vstd::bytes::lemma_auto_spec_u32_to_from_le_bytes();
                assert(customs@[i as int].2 + customs@[i as int].1@.len() <= raw@.len());
                if i > 0 {
                    assert(customs@[i - 1].2 + customs@[i - 1].1@.len() <= customs@[i as int].2);
                }
            }
            if t == SCRYPTO_TYPE_BUCKET {
                bucket_paths.push(at);
                proof {
                    assert(raw@.subrange(at as int, at + 4) == customs@[i as int].1@);
                    assert(id_at(raw@, at, checker.buckets@.last()));
                    let now = bucket_paths@ + proof_paths@;
                    assert forall|a: int, b: int|
                        0 <= a < now.len() && 0 <= b < now.len() && a != b implies #[trigger] now[a]
                        + 4 <= #[trigger] now[b] || now[b] + 4 <= now[a] by {
                        let n = bucket_paths@.len() - 1;
                        if a != n && b != n {
                            let a0 = if a < n { a } else { a - 1 };
                            let b0 = if b < n { b } else { b - 1 };
                            assert(now[a] == all[a0]);
                            assert(now[b] == all[b0]);
                        } else if a == n {
                            let b0 = if b < n { b } else { b - 1 };
                            assert(now[b] == all[b0]);
                        } else {
                            let a0 = if a < n { a } else { a - 1 };
                            assert(now[a] == all[a0]);
                        }
                    }
                    assert forall|k: int| 0 <= k < now.len() implies #[trigger] now[k] + 4
                        <= customs@[i as int].2 + customs@[i as int].1@.len() by {
                        let n = bucket_paths@.len() - 1;
                        if k != n {
                            let k0 = if k < n { k } else { k - 1 };
                            assert(now[k] == all[k0]);
                        }
                    }
                }
            } else if t == SCRYPTO_TYPE_PROOF {
                proof_paths.push(at);
                proof {
                    assert(raw@.subrange(at as int, at + 4) == customs@[i as int].1@);
                    assert(id_at(raw@, at, checker.proofs@.last()));
                    let now = bucket_paths@ + proof_paths@;
                    assert(now =~= all.push(at));
                    assert forall|k: int| 0 <= k < now.len() implies #[trigger] now[k] + 4
                        <= customs@[i as int].2 + customs@[i as int].1@.len() by {
                        if k < all.len() {
                            assert(now[k] == all[k]);
                        }
                    }
                }
            } else {
                proof {
                    assert forall|k: int| 0 <= k < all.len() implies #[trigger] all[k] + 4
                        <= customs@[i as int].2 + customs@[i as int].1@.len() by {}
                }
            }
            i = i + 1;
        }
        proof {
            assert(views(customs@).skip(i as int) =~= Seq::<SpecCustom>::empty());
        }
        Ok(ScryptoValue {
            raw: vstd::slice::slice_to_vec(raw),
            bucket_ids: checker.buckets,
            bucket_paths,
            proof_ids: checker.proofs,
            proof_paths,
            vault_ids: checker.vaults,
            kv_store_ids: checker.kv_stores,
            owned_component_addresses: checker.components,
            refed_component_addresses: checker.ref_components,
            resource_addresses: checker.resource_addresses,
            expressions: checker.expressions,
        })
    }

    /// Decodes a whole value that must hold no custom value at all.
    pub fn from_slice_no_custom_values(slice: &[u8]) -> (r: Result<Self, DecodeError>)
        ensures
            match any_outcome(slice@) {
                Err(e) => r is Err && fails_with(r->Err_0, e),
                Ok(cs) => if cs.len() == 0 {
                    r is Ok && r->Ok_0.raw@ == slice@ && r->Ok_0.ids() == no_ids() && r->Ok_0.wf()
                } else {
                    r is Err && r->Err_0 is CustomError && r->Err_0->CustomError_0@
                        == "CustomValueNotAllowed"@
                },
            },
    {
        let customs = decode_any(slice)?;
        if customs.len() > 0 {
            return Err(DecodeError::CustomError("CustomValueNotAllowed".to_owned()));
        }
        Ok(ScryptoValue {
            raw: vstd::slice::slice_to_vec(slice),
            bucket_ids: Vec::new(),
            bucket_paths: Vec::new(),
            proof_ids: Vec::new(),
            proof_paths: Vec::new(),
            vault_ids: Vec::new(),
            kv_store_ids: Vec::new(),
            owned_component_addresses: Vec::new(),
            refed_component_addresses: Vec::new(),
            resource_addresses: Vec::new(),
            expressions: Vec::new(),
        })
    }

    /// The ids of the nodes that the value persists: vaults, key-value stores, components.
    pub open spec fn spec_stored_node_ids(&self) -> Seq<RENodeId> {
        self.vault_ids@.map_values(|v: VaultId| RENodeId::Vault(v)) + self.kv_store_ids@.map_values(
            |k: KeyValueStoreId| RENodeId::KeyValueStore(k),
        ) + self.owned_component_addresses@.map_values(|c: ComponentAddress| RENodeId::Component(c))
    }

    /// The ids of every node that the value owns: the stored ones, then buckets and proofs.
    pub open spec fn spec_node_ids(&self) -> Seq<RENodeId> {
        self.spec_stored_node_ids() + self.bucket_ids@.map_values(|b: BucketId| RENodeId::Bucket(b))
            + self.proof_ids@.map_values(|p: ProofId| RENodeId::Proof(p))
    }

    pub fn stored_node_ids(&self) -> (r: Vec<RENodeId>)
        ensures
            r@ == self.spec_stored_node_ids(),
    {
        let mut r: Vec<RENodeId> = Vec::new();
        let mut i: usize = 0;
        while i < self.vault_ids.len()
            invariant
                i <= self.vault_ids@.len(),
                r@ == self.vault_ids@.take(i as int).map_values(|v: VaultId| RENodeId::Vault(v)),
            decreases self.vault_ids@.len() - i,
        {
            r.push(RENodeId::Vault(self.vault_ids[i]));
            i = i + 1;
            proof {
                assert(r@ =~= self.vault_ids@.take(i as int).map_values(
                    |v: VaultId| RENodeId::Vault(v),
                ));
            }
        }
        let ghost a = r@;
        let mut i: usize = 0;
        while i < self.kv_store_ids.len()
            invariant
                i <= self.kv_store_ids@.len(),
                r@ == a + self.kv_store_ids@.take(i as int).map_values(
                    |k: KeyValueStoreId| RENodeId::KeyValueStore(k),
                ),
            decreases self.kv_store_ids@.len() - i,
        {
            r.push(RENodeId::KeyValueStore(self.kv_store_ids[i]));
            i = i + 1;
            proof {
                assert(r@ =~= a + self.kv_store_ids@.take(i as int).map_values(
                    |k: KeyValueStoreId| RENodeId::KeyValueStore(k),
                ));
            }
        }
        let ghost b = r@;
        let mut i: usize = 0;
        while i < self.owned_component_addresses.len()
            invariant
                i <= self.owned_component_addresses@.len(),
                r@ == b + self.owned_component_addresses@.take(i as int).map_values(
                    |c: ComponentAddress| RENodeId::Component(c),
                ),
            decreases self.owned_component_addresses@.len() - i,
        {
            r.push(RENodeId::Component(self.owned_component_addresses[i]));
            i = i + 1;
            proof {
                assert(r@ =~= b + self.owned_component_addresses@.take(i as int).map_values(
                    |c: ComponentAddress| RENodeId::Component(c),
                ));
            }
        }
        proof {
            assert(self.vault_ids@.take(self.vault_ids@.len() as int) =~= self.vault_ids@);
            assert(self.kv_store_ids@.take(self.kv_store_ids@.len() as int) =~= self.kv_store_ids@);
            assert(self.owned_component_addresses@.take(
                self.owned_component_addresses@.len() as int,
            ) =~= self.owned_component_addresses@);
            assert(r@ =~= self.spec_stored_node_ids());
        }
        r
    }

    pub fn node_ids(&self) -> (r: Vec<RENodeId>)
        ensures
            r@ == self.spec_node_ids(),
    {
        let mut r = self.stored_node_ids();
        let ghost a = r@;
        let mut i: usize = 0;
        while i < self.bucket_ids.len()
            invariant
                i <= self.bucket_ids@.len(),
                r@ == a + self.bucket_ids@.take(i as int).map_values(|x: BucketId| RENodeId::Bucket(x)),
            decreases self.bucket_ids@.len() - i,
        {
            r.push(RENodeId::Bucket(self.bucket_ids[i]));
            i = i + 1;
            proof {
                assert(r@ =~= a + self.bucket_ids@.take(i as int).map_values(
                    |x: BucketId| RENodeId::Bucket(x),
                ));
            }
        }
        let ghost b = r@;
        let mut i: usize = 0;
        while i < self.proof_ids.len()
            invariant
                i <= self.proof_ids@.len(),
                r@ == b + self.proof_ids@.take(i as int).map_values(|x: ProofId| RENodeId::Proof(x)),
            decreases self.proof_ids@.len() - i,
        {
            r.push(RENodeId::Proof(self.proof_ids[i]));
            i = i + 1;
            proof {
                assert(r@ =~= b + self.proof_ids@.take(i as int).map_values(
                    |x: ProofId| RENodeId::Proof(x),
                ));
            }
        }
        proof {
            assert(self.bucket_ids@.take(self.bucket_ids@.len() as int) =~= self.bucket_ids@);
            assert(self.proof_ids@.take(self.proof_ids@.len() as int) =~= self.proof_ids@);
            assert(r@ =~= self.spec_node_ids());
        }
        r
    }

    /// Replaces every proof id and every bucket id by the one that the replacement lists give
    /// it (the first pair whose key is the id), in the ids and in the encoding alike. An id
    /// without a replacement fails, proofs first, and then nothing changes. On success each
    /// used pair is taken out of its list, and the encoding changes only in the rewritten ids.
    pub fn replace_ids(
        &mut self,
        proof_replacements: &mut Vec<(ProofId, ProofId)>,
        bucket_replacements: &mut Vec<(BucketId, BucketId)>,
    ) -> (r: Result<(), ScryptoValueReplaceError>)
        requires
            old(self).paths_match(),
        ensures
            final(self).paths_match(),
            (exists|k: int|
                0 <= k < old(self).proof_ids@.len() && !has_key(
                    old(proof_replacements)@,
                    #[trigger] old(self).proof_ids@[k],
                )) ==> r matches Err(ScryptoValueReplaceError::ProofIdNotFound(_)),
            r matches Err(ScryptoValueReplaceError::ProofIdNotFound(id)) ==> !has_key(
                old(proof_replacements)@,
                id,
            ),
            r matches Err(ScryptoValueReplaceError::BucketIdNotFound(id)) ==> !has_key(
                old(bucket_replacements)@,
                id,
            ),
            r is Ok <==> (forall|k: int|
                0 <= k < old(self).proof_ids@.len() ==> has_key(
                    old(proof_replacements)@,
                    #[trigger] old(self).proof_ids@[k],
                )) && (forall|k: int|
                0 <= k < old(self).bucket_ids@.len() ==> has_key(
                    old(bucket_replacements)@,
                    #[trigger] old(self).bucket_ids@[k],
                )),
            r is Err ==> *final(self) == *old(self),
            r is Err ==> final(proof_replacements)@ == old(proof_replacements)@,
            r is Err ==> final(bucket_replacements)@ == old(bucket_replacements)@,
            r is Ok ==> final(proof_replacements)@ == remove_each(
                old(proof_replacements)@,
                old(self).proof_ids@,
            ),
            r is Ok ==> final(bucket_replacements)@ == remove_each(
                old(bucket_replacements)@,
                old(self).bucket_ids@,
            ),
            r is Ok ==> final(self).raw@.len() == old(self).raw@.len() && forall|j: int|
                0 <= j < old(self).raw@.len() && outside_ids(old(self).proof_paths@, j) && outside_ids(
                    old(self).bucket_paths@,
                    j,
                ) ==> #[trigger] final(self).raw@[j] == old(self).raw@[j],
            final(self).vault_ids == old(self).vault_ids,
            final(self).kv_store_ids == old(self).kv_store_ids,
            final(self).owned_component_addresses == old(self).owned_component_addresses,
            final(self).refed_component_addresses == old(self).refed_component_addresses,
            final(self).resource_addresses == old(self).resource_addresses,
            r is Ok ==> final(self).proof_ids@.len() == old(self).proof_ids@.len() && forall|k: int|
                0 <= k < old(self).proof_ids@.len() ==> replaced_by(
                    old(proof_replacements)@,
                    #[trigger] old(self).proof_ids@[k],
                    final(self).proof_ids@[k],
                ),
            r is Ok ==> final(self).bucket_ids@.len() == old(self).bucket_ids@.len() && forall|
                k: int,
            |
                0 <= k < old(self).bucket_ids@.len() ==> replaced_by(
                    old(bucket_replacements)@,
                    #[trigger] old(self).bucket_ids@[k],
                    final(self).bucket_ids@[k],
                ),
            r is Ok ==> final(self).proof_paths == old(self).proof_paths && final(self).bucket_paths
                == old(self).bucket_paths,
    {
        let mut k: usize = 0;
        while k < self.proof_ids.len()
            invariant
                *self == *old(self),
                self.paths_match(),
                proof_replacements@ == old(proof_replacements)@,
                bucket_replacements@ == old(bucket_replacements)@,
                k <= self.proof_ids@.len(),
                forall|j: int|
                    0 <= j < k ==> has_key(proof_replacements@, #[trigger] self.proof_ids@[j]),
            decreases self.proof_ids@.len() - k,
        {
            if first_replacement(proof_replacements, self.proof_ids[k]).is_none() {
                return Err(ScryptoValueReplaceError::ProofIdNotFound(self.proof_ids[k]));
            }
            k = k + 1;
        }
        let mut k: usize = 0;
        while k < self.bucket_ids.len()
            invariant
                *self == *old(self),
                self.paths_match(),
                proof_replacements@ == old(proof_replacements)@,
                bucket_replacements@ == old(bucket_replacements)@,
                forall|j: int|
                    0 <= j < self.proof_ids@.len() ==> has_key(
                        proof_replacements@,
                        #[trigger] self.proof_ids@[j],
                    ),
                k <= self.bucket_ids@.len(),
                forall|j: int|
                    0 <= j < k ==> has_key(bucket_replacements@, #[trigger] self.bucket_ids@[j]),
            decreases self.bucket_ids@.len() - k,
        {
            if first_replacement(bucket_replacements, self.bucket_ids[k]).is_none() {
                return Err(ScryptoValueReplaceError::BucketIdNotFound(self.bucket_ids[k]));
            }
            k = k + 1;
        }
        let ghost old_proofs = self.proof_ids@;
        let ghost old_buckets = self.bucket_ids@;
        let ghost old_raw = self.raw@;
        let old_proof_ids = copy_ids(&self.proof_ids);
        let old_bucket_ids = copy_ids(&self.bucket_ids);
        let ghost proof_reps = proof_replacements@;
        let ghost bucket_reps = bucket_replacements@;
        let mut k: usize = 0;
        while k < self.proof_ids.len()
            invariant
                self.paths_match(),
                self.proof_paths == old(self).proof_paths,
                self.bucket_paths == old(self).bucket_paths,
                self.bucket_ids@ == old_buckets,
                proof_replacements@ == proof_reps,
                bucket_replacements@ == bucket_reps,
                self.raw@.len() == old_raw.len(),
                old_raw == old(self).raw@,
                forall|j: int|
                    0 <= j < old_raw.len() && outside_ids(self.proof_paths@, j) && outside_ids(
                        self.bucket_paths@,
                        j,
                    ) ==> #[trigger] self.raw@[j] == old_raw[j],
                self.vault_ids == old(self).vault_ids,
                self.kv_store_ids == old(self).kv_store_ids,
                self.owned_component_addresses == old(self).owned_component_addresses,
                self.refed_component_addresses == old(self).refed_component_addresses,
                self.resource_addresses == old(self).resource_addresses,
                self.proof_ids@.len() == old_proofs.len(),
                k <= old_proofs.len(),
                forall|j: int| 0 <= j < old_proofs.len() ==> has_key(proof_reps, #[trigger] old_proofs[j]),
                forall|j: int|
                    0 <= j < k ==> replaced_by(proof_reps, #[trigger] old_proofs[j], self.proof_ids@[j]),
                forall|j: int| k <= j < old_proofs.len() ==> #[trigger] self.proof_ids@[j] == old_proofs[j],
            decreases old_proofs.len() - k,
        {
            let idx = first_replacement(proof_replacements, self.proof_ids[k]).unwrap();
            let next = proof_replacements[idx].1;
            let p = self.proof_paths[k];
            let ghost before = *self;
            proof {
                assert(id_at(self.raw@, self.proof_paths@[k as int], self.proof_ids@[k as int]));
            }
            let ghost raw_before = self.raw@;
            write_id(&mut self.raw, p, next);
            self.proof_ids.set(k, next);
            proof {
                assert forall|j: int|
                    0 <= j < old_raw.len() && outside_ids(self.proof_paths@, j) && outside_ids(
                        self.bucket_paths@,
                        j,
                    ) implies #[trigger] self.raw@[j] == old_raw[j] by {
                    assert(j < p || j >= p + 4);
                    assert(self.raw@[j] == raw_before[j]);
                }
            }
            proof {
                lemma_paths_after_write(before, *self, true, k as int, next);
            }
            k = k + 1;
        }
        let mut k: usize = 0;
        while k < self.bucket_ids.len()
            invariant
                self.paths_match(),
                self.proof_paths == old(self).proof_paths,
                self.bucket_paths == old(self).bucket_paths,
                bucket_replacements@ == bucket_reps,
                proof_replacements@ == proof_reps,
                self.raw@.len() == old_raw.len(),
                old_raw == old(self).raw@,
                forall|j: int|
                    0 <= j < old_raw.len() && outside_ids(self.proof_paths@, j) && outside_ids(
                        self.bucket_paths@,
                        j,
                    ) ==> #[trigger] self.raw@[j] == old_raw[j],
                self.vault_ids == old(self).vault_ids,
                self.kv_store_ids == old(self).kv_store_ids,
                self.owned_component_addresses == old(self).owned_component_addresses,
                self.refed_component_addresses == old(self).refed_component_addresses,
                self.resource_addresses == old(self).resource_addresses,
                self.bucket_ids@.len() == old_buckets.len(),
                self.proof_ids@.len() == old_proofs.len(),
                forall|j: int|
                    0 <= j < old_proofs.len() ==> replaced_by(proof_reps, #[trigger] old_proofs[j], self.proof_ids@[j]),
                k <= old_buckets.len(),
                forall|j: int| 0 <= j < old_buckets.len() ==> has_key(bucket_reps, #[trigger] old_buckets[j]),
                forall|j: int|
                    0 <= j < k ==> replaced_by(bucket_reps, #[trigger] old_buckets[j], self.bucket_ids@[j]),
                forall|j: int| k <= j < old_buckets.len() ==> #[trigger] self.bucket_ids@[j] == old_buckets[j],
            decreases old_buckets.len() - k,
        {
            let idx = first_replacement(bucket_replacements, self.bucket_ids[k]).unwrap();
            let next = bucket_replacements[idx].1;
            let p = self.bucket_paths[k];
            let ghost before = *self;
            proof {
                assert(id_at(self.raw@, self.bucket_paths@[k as int], self.bucket_ids@[k as int]));
            }
            let ghost raw_before = self.raw@;
            write_id(&mut self.raw, p, next);
            self.bucket_ids.set(k, next);
            proof {
                assert forall|j: int|
                    0 <= j < old_raw.len() && outside_ids(self.proof_paths@, j) && outside_ids(
                        self.bucket_paths@,
                        j,
                    ) implies #[trigger] self.raw@[j] == old_raw[j] by {
                    assert(j < p || j >= p + 4);
                    assert(self.raw@[j] == raw_before[j]);
                }
            }
            proof {
                lemma_paths_after_write(before, *self, false, k as int, next);
            }
            k = k + 1;
        }
        remove_used(proof_replacements, &old_proof_ids);
        remove_used(bucket_replacements, &old_bucket_ids);
        Ok(())
    }

    /// How many owned values the value carries: buckets, proofs, vaults and components.
    pub fn value_count(&self) -> (r: usize)
        requires
            self.bucket_ids@.len() + self.proof_ids@.len() + self.vault_ids@.len()
                + self.owned_component_addresses@.len() <= usize::MAX,
        ensures
            r == self.bucket_ids@.len() + self.proof_ids@.len() + self.vault_ids@.len()
                + self.owned_component_addresses@.len(),
    {
        self.bucket_ids.len() + self.proof_ids.len() + self.vault_ids.len()
            + self.owned_component_addresses.len()
    }
}

/// Rewriting the id at one position keeps every id spelled at its position, since the
/// positions do not overlap.
proof fn lemma_paths_after_write(before: ScryptoValue, after: ScryptoValue, proof_side: bool, k: int, next: u32)
    requires
        before.paths_match(),
        after.bucket_paths == before.bucket_paths,
        after.proof_paths == before.proof_paths,
        after.raw@.len() == before.raw@.len(),
        proof_side ==> 0 <= k < before.proof_ids@.len() && after.proof_ids@ == before.proof_ids@.update(k, next)
            && after.bucket_ids@ == before.bucket_ids@,
        !proof_side ==> 0 <= k < before.bucket_ids@.len() && after.bucket_ids@ == before.bucket_ids@.update(k, next)
            && after.proof_ids@ == before.proof_ids@,
        ({
            let p = if proof_side { before.proof_paths@[k] } else { before.bucket_paths@[k] };
            &&& after.raw@.subrange(p as int, p + 4) == spec_u32_to_le_bytes(next)
            &&& forall|j: int|
                0 <= j < before.raw@.len() && (j < p || j >= p + 4) ==> #[trigger] after.raw@[j]
                    == before.raw@[j]
        }),
    ensures
        after.paths_match(),
{
    let p = if proof_side { before.proof_paths@[k] } else { before.bucket_paths@[k] };
    let all = before.bucket_paths@ + before.proof_paths@;
    let pk = if proof_side { before.bucket_paths@.len() + k } else { k };
    assert(all[pk] == p);
    assert forall|m: int| 0 <= m < all.len() && m != pk implies after.raw@.subrange(
        #[trigger] all[m] as int,
        all[m] + 4,
    ) == before.raw@.subrange(all[m] as int, all[m] + 4) by {
        assert(all[m] + 4 <= p || p + 4 <= all[m]);
        assert(after.raw@.subrange(all[m] as int, all[m] + 4) =~= before.raw@.subrange(
            all[m] as int,
            all[m] + 4,
        ));
    }
    assert forall|m: int| 0 <= m < after.bucket_ids@.len() implies id_at(
        after.raw@,
        #[trigger] after.bucket_paths@[m],
        after.bucket_ids@[m],
    ) by {
        assert(all[m] == before.bucket_paths@[m]);
        if proof_side || m != k {
            assert(id_at(before.raw@, before.bucket_paths@[m], before.bucket_ids@[m]));
        }
    }
    assert forall|m: int| 0 <= m < after.proof_ids@.len() implies id_at(
        after.raw@,
        #[trigger] after.proof_paths@[m],
        after.proof_ids@[m],
    ) by {
        assert(all[before.bucket_paths@.len() + m] == before.proof_paths@[m]);
        if !proof_side || m != k {
            assert(id_at(before.raw@, before.proof_paths@[m], before.proof_ids@[m]));
        }
    }
}

/// Whether `t` is a type tag that has a name: a tag of the grammar or a known custom tag.
pub open spec fn named_type(t: u8) -> bool {
    t == TYPE_UNIT || t == TYPE_BOOL || t == TYPE_I8 || t == TYPE_I16 || t == TYPE_I32 || t
        == TYPE_I64 || t == TYPE_I128 || t == TYPE_U8 || t == TYPE_U16 || t == TYPE_U32 || t
        == TYPE_U64 || t == TYPE_U128 || t == TYPE_STRING || t == TYPE_STRUCT || t == TYPE_ENUM
        || t == TYPE_OPTION || t == TYPE_RESULT || t == TYPE_ARRAY || t == TYPE_TUPLE || t
        == TYPE_VEC || t == TYPE_TREE_SET || t == TYPE_TREE_MAP || known_custom(t)
}

/// The name of a named type tag.
pub open spec fn tag_name(t: u8) -> Seq<char> {
    if t == SCRYPTO_TYPE_PACKAGE_ADDRESS {
        "PackageAddress"@
    } else if t == SCRYPTO_TYPE_COMPONENT_ADDRESS {
        "ComponentAddress"@
    } else if t == SCRYPTO_TYPE_COMPONENT {
        "Component"@
    } else if t == SCRYPTO_TYPE_KEY_VALUE_STORE {
        "KeyValueStore"@
    } else if t == SCRYPTO_TYPE_HASH {
        "Hash"@
    } else if t == SCRYPTO_TYPE_ECDSA_SECP256K1_PUBLIC_KEY {
        "EcdsaSecp256k1PublicKey"@
    } else if t == SCRYPTO_TYPE_ECDSA_SECP256K1_SIGNATURE {
        "EcdsaSecp256k1Signature"@
    } else if t == SCRYPTO_TYPE_EDDSA_ED25519_PUBLIC_KEY {
        "EddsaEd25519PublicKey"@
    } else if t == SCRYPTO_TYPE_EDDSA_ED25519_SIGNATURE {
        "EddsaEd25519Signature"@
    } else if t == SCRYPTO_TYPE_DECIMAL {
        "Decimal"@
    } else if t == SCRYPTO_TYPE_PRECISE_DECIMAL {
        "PreciseDecimal"@
    } else if t == SCRYPTO_TYPE_BUCKET {
        "Bucket"@
    } else if t == SCRYPTO_TYPE_PROOF {
        "Proof"@
    } else if t == SCRYPTO_TYPE_VAULT {
        "Vault"@
    } else if t == SCRYPTO_TYPE_NON_FUNGIBLE_ID {
        "NonFungibleId"@
    } else if t == SCRYPTO_TYPE_NON_FUNGIBLE_ADDRESS {
        "NonFungibleAddress"@
    } else if t == SCRYPTO_TYPE_RESOURCE_ADDRESS {
        "ResourceAddress"@
    } else if t == SCRYPTO_TYPE_EXPRESSION {
        "Expression"@
    } else if t == SCRYPTO_TYPE_BLOB {
        "Blob"@
    } else if t == TYPE_UNIT {
        "Unit"@
    } else if t == TYPE_BOOL {
        "Bool"@
    } else if t == TYPE_I8 {
        "I8"@
    } else if t == TYPE_I16 {
        "I16"@
    } else if t == TYPE_I32 {
        "I32"@
    } else if t == TYPE_I64 {
        "I64"@
    } else if t == TYPE_I128 {
        "I128"@
    } else if t == TYPE_U8 {
        "U8"@
    } else if t == TYPE_U16 {
        "U16"@
    } else if t == TYPE_U32 {
        "U32"@
    } else if t == TYPE_U64 {
        "U64"@
    } else if t == TYPE_U128 {
        "U128"@
    } else if t == TYPE_STRING {
        "String"@
    } else if t == TYPE_STRUCT {
        "Struct"@
    } else if t == TYPE_ENUM {
        "Enum"@
    } else if t == TYPE_OPTION {
        "Option"@
    } else if t == TYPE_RESULT {
        "Result"@
    } else if t == TYPE_ARRAY {
        "Array"@
    } else if t == TYPE_TUPLE {
        "Tuple"@
    } else if t == TYPE_VEC {
        "List"@
    } else if t == TYPE_TREE_SET {
        "Set"@
    } else {
        "Map"@
    }
}

/// Writes values and type tags as text.
pub struct ScryptoValueFormatter {}

impl ScryptoValueFormatter {
    /// The name of a type tag.
    pub fn format_type_id(type_id: u8) -> (r: &'static str)
        requires
            named_type(type_id),
        ensures
            r@ == tag_name(type_id),
    {
        if type_id == SCRYPTO_TYPE_PACKAGE_ADDRESS {
            "PackageAddress"
        } else if type_id == SCRYPTO_TYPE_COMPONENT_ADDRESS {
            "ComponentAddress"
        } else if type_id == SCRYPTO_TYPE_COMPONENT {
            "Component"
        } else if type_id == SCRYPTO_TYPE_KEY_VALUE_STORE {
            "KeyValueStore"
        } else if type_id == SCRYPTO_TYPE_HASH {
            "Hash"
        } else if type_id == SCRYPTO_TYPE_ECDSA_SECP256K1_PUBLIC_KEY {
            "EcdsaSecp256k1PublicKey"
        } else if type_id == SCRYPTO_TYPE_ECDSA_SECP256K1_SIGNATURE {
            "EcdsaSecp256k1Signature"
        } else if type_id == SCRYPTO_TYPE_EDDSA_ED25519_PUBLIC_KEY {
            "EddsaEd25519PublicKey"
        } else if type_id == SCRYPTO_TYPE_EDDSA_ED25519_SIGNATURE {
            "EddsaEd25519Signature"
        } else if type_id == SCRYPTO_TYPE_DECIMAL {
            "Decimal"
        } else if type_id == SCRYPTO_TYPE_PRECISE_DECIMAL {
            "PreciseDecimal"
        } else if type_id == SCRYPTO_TYPE_BUCKET {
            "Bucket"
        } else if type_id == SCRYPTO_TYPE_PROOF {
            "Proof"
        } else if type_id == SCRYPTO_TYPE_VAULT {
            "Vault"
        } else if type_id == SCRYPTO_TYPE_NON_FUNGIBLE_ID {
            "NonFungibleId"
        } else if type_id == SCRYPTO_TYPE_NON_FUNGIBLE_ADDRESS {
            "NonFungibleAddress"
        } else if type_id == SCRYPTO_TYPE_RESOURCE_ADDRESS {
            "ResourceAddress"
        } else if type_id == SCRYPTO_TYPE_EXPRESSION {
            "Expression"
        } else if type_id == SCRYPTO_TYPE_BLOB {
            "Blob"
        } else if type_id == TYPE_UNIT {
            "Unit"
        } else if type_id == TYPE_BOOL {
            "Bool"
        } else if type_id == TYPE_I8 {
            "I8"
        } else if type_id == TYPE_I16 {
            "I16"
        } else if type_id == TYPE_I32 {
            "I32"
        } else if type_id == TYPE_I64 {
            "I64"
        } else if type_id == TYPE_I128 {
            "I128"
        } else if type_id == TYPE_U8 {
            "U8"
        } else if type_id == TYPE_U16 {
            "U16"
        } else if type_id == TYPE_U32 {
            "U32"
        } else if type_id == TYPE_U64 {
            "U64"
        } else if type_id == TYPE_U128 {
            "U128"
        } else if type_id == TYPE_STRING {
            "String"
        } else if type_id == TYPE_STRUCT {
            "Struct"
        } else if type_id == TYPE_ENUM {
            "Enum"
        } else if type_id == TYPE_OPTION {
            "Option"
        } else if type_id == TYPE_RESULT {
            "Result"
        } else if type_id == TYPE_ARRAY {
            "Array"
        } else if type_id == TYPE_TUPLE {
            "Tuple"
        } else if type_id == TYPE_VEC {
            "List"
        } else if type_id == TYPE_TREE_SET {
            "Set"
        } else {
            "Map"
        }
    }
}

/// The byte at `j` lies in none of the four-byte ranges starting at `ps`.
pub open spec fn outside_ids(ps: Seq<usize>, j: int) -> bool {
    forall|k: int| 0 <= k < ps.len() ==> j < #[trigger] ps[k] || j >= ps[k] + 4
}

/// `reps` without its first pair whose key is `id`, if there is one.
pub open spec fn remove_first(reps: Seq<(u32, u32)>, id: u32) -> Seq<(u32, u32)>
    decreases reps.len(),
{
    if reps.len() == 0 {
        reps
    } else if reps[0].0 == id {
        reps.drop_first()
    } else {
        seq![reps[0]] + remove_first(reps.drop_first(), id)
    }
}

/// `reps` with the first pair of each of `ids` taken out, in the order of `ids`.
pub open spec fn remove_each(reps: Seq<(u32, u32)>, ids: Seq<u32>) -> Seq<(u32, u32)>
    decreases ids.len(),
{
    if ids.len() == 0 {
        reps
    } else {
        remove_first(remove_each(reps, ids.drop_last()), ids.last())
    }
}

proof fn lemma_remove_first_at(reps: Seq<(u32, u32)>, id: u32, idx: int)
    requires
        0 <= idx < reps.len(),
        reps[idx].0 == id,
        forall|j: int| 0 <= j < idx ==> (#[trigger] reps[j]).0 != id,
    ensures
        remove_first(reps, id) == reps.remove(idx),
    decreases idx,
{
    if idx > 0 {
        lemma_remove_first_at(reps.drop_first(), id, idx - 1);
        assert(reps.remove(idx) =~= seq![reps[0]] + reps.drop_first().remove(idx - 1));
    } else {
        assert(reps.remove(0) =~= reps.drop_first());
    }
}

proof fn lemma_remove_first_absent(reps: Seq<(u32, u32)>, id: u32)
    requires
        forall|j: int| 0 <= j < reps.len() ==> (#[trigger] reps[j]).0 != id,
    ensures
        remove_first(reps, id) == reps,
    decreases reps.len(),
{
    if reps.len() > 0 {
        assert forall|j: int| 0 <= j < reps.drop_first().len() implies (
        #[trigger] reps.drop_first()[j]).0 != id by {
            assert(reps.drop_first()[j] == reps[j + 1]);
        }
        lemma_remove_first_absent(reps.drop_first(), id);
        assert(seq![reps[0]] + reps.drop_first() =~= reps);
    }
}

fn copy_ids(v: &Vec<u32>) -> (r: Vec<u32>)
    ensures
        r@ == v@,
{
    let mut r: Vec<u32> = Vec::new();
    let mut i: usize = 0;
    while i < v.len()
        invariant
            i <= v@.len(),
            r@ == v@.take(i as int),
        decreases v@.len() - i,
    {
        r.push(v[i]);
        i = i + 1;
        proof {
            assert(r@ =~= v@.take(i as int));
        }
    }
    proof {
        assert(v@.take(v@.len() as int) =~= v@);
    }
    r
}

/// Takes the first pair of each of `ids` out of `reps`, in the order of `ids`.
fn remove_used(reps: &mut Vec<(u32, u32)>, ids: &Vec<u32>)
    ensures
        final(reps)@ == remove_each(old(reps)@, ids@),
{
    let mut k: usize = 0;
    while k < ids.len()
        invariant
            k <= ids@.len(),
            reps@ == remove_each(old(reps)@, ids@.take(k as int)),
        decreases ids@.len() - k,
    {
        let id = ids[k];
        let ghost before = reps@;
        match first_replacement(reps, id) {
            Some(idx) => {
                proof {
                    lemma_remove_first_at(before, id, idx as int);
                }
                reps.remove(idx);
            },
            None => {
                proof {
                    lemma_remove_first_absent(before, id);
                }
            },
        }
        k = k + 1;
        proof {
            assert(ids@.take(k as int).drop_last() =~= ids@.take(k - 1));
            assert(ids@.take(k as int).last() == id);
        }
    }
    proof {
        assert(ids@.take(ids@.len() as int) =~= ids@);
    }
}

/// Whether some pair of `reps` has `id` as its key.
pub open spec fn has_key(reps: Seq<(u32, u32)>, id: u32) -> bool {
    exists|i: int| 0 <= i < reps.len() && (#[trigger] reps[i]).0 == id
}

/// The first pair of `reps` whose key is `id` gives `new`.
pub open spec fn replaced_by(reps: Seq<(u32, u32)>, id: u32, new: u32) -> bool {
    exists|i: int|
        0 <= i < reps.len() && (#[trigger] reps[i]).0 == id && reps[i].1 == new && forall|j: int|
            0 <= j < i ==> (#[trigger] reps[j]).0 != id
}

/// Finds the first pair of `reps` whose key is `id`.
fn first_replacement(reps: &Vec<(u32, u32)>, id: u32) -> (r: Option<usize>)
    ensures
        r is None <==> !has_key(reps@, id),
        r is Some ==> r->Some_0 < reps@.len() && reps@[r->Some_0 as int].0 == id && forall|j: int|
            0 <= j < r->Some_0 ==> (#[trigger] reps@[j]).0 != id,
{
    let mut i: usize = 0;
    while i < reps.len()
        invariant
            i <= reps@.len(),
            forall|j: int| 0 <= j < i ==> (#[trigger] reps@[j]).0 != id,
        decreases reps@.len() - i,
    {
        if reps[i].0 == id {
            return Some(i);
        }
        i = i + 1;
    }
    None
}

/// Writes `id` little-endian into the four bytes at `p`.
fn write_id(raw: &mut Vec<u8>, p: usize, id: u32)
    requires
        p + 4 <= old(raw)@.len(),
    ensures
        final(raw)@.len() == old(raw)@.len(),
        final(raw)@.subrange(p as int, p + 4) == spec_u32_to_le_bytes(id),
        forall|j: int|
            0 <= j < old(raw)@.len() && (j < p || j >= p + 4) ==> #[trigger] final(raw)@[j] == old(
                raw,
            )@[j],
{
    let b = u32_to_le_bytes(id);
    let n = raw.len();
    let mut i: usize = 0;
    while i < 4
        invariant
            n == raw@.len(),
            b@ == spec_u32_to_le_bytes(id),
            b@.len() == 4,
            p + 4 <= raw@.len(),
            raw@.len() == old(raw)@.len(),
            i <= 4,
            forall|j: int| 0 <= j < i ==> raw@[p + j] == b@[j],
            forall|j: int|
                0 <= j < old(raw)@.len() && (j < p || j >= p + i) ==> #[trigger] raw@[j] == old(raw)@[j],
        decreases 4 - i,
    {
        raw.set(p + i, b[i]);
        i = i + 1;
    }
    assert(raw@.subrange(p as int, p + 4) =~= b@);
}

/// Reading a whole value fails with a custom error whose text begins "Duplicate" whenever
/// the value holds a set with two equal elements or a map with two equal keys.
pub proof fn lemma_duplicates_rejected(b: Seq<u8>, r: Result<ScryptoValue, DecodeError>)
    requires
        decoded_as(r, b),
        any_outcome(b) == Err::<Seq<SpecCustom>, ScanFailure>(ScanFailure::DuplicateSet)
            || any_outcome(b) == Err::<Seq<SpecCustom>, ScanFailure>(ScanFailure::DuplicateMap),
    ensures
        r is Err && r->Err_0 is CustomError && r->Err_0->CustomError_0@.take(9) == "Duplicate"@,
{
    reveal_strlit("Duplicate set entries");
    reveal_strlit("Duplicate map entries");
    reveal_strlit("Duplicate");
    assert("Duplicate set entries"@.take(9) =~= "Duplicate"@);
    assert("Duplicate map entries"@.take(9) =~= "Duplicate"@);
}

} // verus!
