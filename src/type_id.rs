use vstd::prelude::*;

verus! {

/// Type tag of the unit value.
pub const TYPE_UNIT: u8 = 0x00;
/// Type tag of a boolean.
pub const TYPE_BOOL: u8 = 0x01;
/// Type tag of a signed 8-bit integer.
pub const TYPE_I8: u8 = 0x02;
/// Type tag of a signed 16-bit integer.
pub const TYPE_I16: u8 = 0x03;
/// Type tag of a signed 32-bit integer.
pub const TYPE_I32: u8 = 0x04;
/// Type tag of a signed 64-bit integer.
pub const TYPE_I64: u8 = 0x05;
/// Type tag of a signed 128-bit integer.
pub const TYPE_I128: u8 = 0x06;
/// Type tag of an unsigned 8-bit integer.
pub const TYPE_U8: u8 = 0x07;
/// Type tag of an unsigned 16-bit integer.
pub const TYPE_U16: u8 = 0x08;
/// Type tag of an unsigned 32-bit integer.
pub const TYPE_U32: u8 = 0x09;
/// Type tag of an unsigned 64-bit integer.
pub const TYPE_U64: u8 = 0x0a;
/// Type tag of an unsigned 128-bit integer.
pub const TYPE_U128: u8 = 0x0b;
/// Type tag of a UTF-8 string.
pub const TYPE_STRING: u8 = 0x0c;
/// Type tag of a struct.
pub const TYPE_STRUCT: u8 = 0x10;
/// Type tag of an enum.
pub const TYPE_ENUM: u8 = 0x11;
/// Type tag of an option.
pub const TYPE_OPTION: u8 = 0x20;
/// Type tag of a fixed-size array.
pub const TYPE_ARRAY: u8 = 0x22;
/// Type tag of a tuple.
pub const TYPE_TUPLE: u8 = 0x23;
/// Type tag of a result.
pub const TYPE_RESULT: u8 = 0x24;
/// Type tag of a growable list.
pub const TYPE_VEC: u8 = 0x30;
/// Type tag of an ordered set.
pub const TYPE_TREE_SET: u8 = 0x31;
/// Type tag of an ordered map.
pub const TYPE_TREE_MAP: u8 = 0x32;
/// Type tag of a hash set.
pub const TYPE_HASH_SET: u8 = 0x33;
/// Type tag of a hash map.
pub const TYPE_HASH_MAP: u8 = 0x34;
/// The first type tag of the custom tag space.
pub const TYPE_CUSTOM_START: u8 = 0x80;

/// Custom tag of a package address.
pub const SCRYPTO_TYPE_PACKAGE_ADDRESS: u8 = 0x80;
/// Custom tag of a reference to a component.
pub const SCRYPTO_TYPE_COMPONENT_ADDRESS: u8 = 0x81;
/// Custom tag of an owned component.
pub const SCRYPTO_TYPE_COMPONENT: u8 = 0x82;
/// Custom tag of a key-value store.
pub const SCRYPTO_TYPE_KEY_VALUE_STORE: u8 = 0x83;
/// Custom tag of a hash.
pub const SCRYPTO_TYPE_HASH: u8 = 0x90;
/// Custom tag of an ECDSA secp256k1 public key.
pub const SCRYPTO_TYPE_ECDSA_SECP256K1_PUBLIC_KEY: u8 = 0x91;
/// Custom tag of an ECDSA secp256k1 signature.
pub const SCRYPTO_TYPE_ECDSA_SECP256K1_SIGNATURE: u8 = 0x92;
/// Custom tag of an EdDSA Ed25519 public key.
pub const SCRYPTO_TYPE_EDDSA_ED25519_PUBLIC_KEY: u8 = 0x93;
/// Custom tag of an EdDSA Ed25519 signature.
pub const SCRYPTO_TYPE_EDDSA_ED25519_SIGNATURE: u8 = 0x94;
/// Custom tag of a decimal.
pub const SCRYPTO_TYPE_DECIMAL: u8 = 0xa1;
/// Custom tag of a precise decimal.
pub const SCRYPTO_TYPE_PRECISE_DECIMAL: u8 = 0xa2;
/// Custom tag of a bucket.
pub const SCRYPTO_TYPE_BUCKET: u8 = 0xb1;
/// Custom tag of a proof.
pub const SCRYPTO_TYPE_PROOF: u8 = 0xb2;
/// Custom tag of a vault.
pub const SCRYPTO_TYPE_VAULT: u8 = 0xb3;
/// Custom tag of a non-fungible id.
pub const SCRYPTO_TYPE_NON_FUNGIBLE_ID: u8 = 0xb4;
/// Custom tag of a non-fungible address.
pub const SCRYPTO_TYPE_NON_FUNGIBLE_ADDRESS: u8 = 0xb5;
/// Custom tag of a resource address.
pub const SCRYPTO_TYPE_RESOURCE_ADDRESS: u8 = 0xb6;
/// Custom tag of an expression.
pub const SCRYPTO_TYPE_EXPRESSION: u8 = 0xc0;
/// Custom tag of a blob.
pub const SCRYPTO_TYPE_BLOB: u8 = 0xc1;

/// Variant index of `None`.
pub const OPTION_TYPE_NONE: u8 = 0x00;
/// Variant index of `Some`.
pub const OPTION_TYPE_SOME: u8 = 0x01;
/// Variant index of `Ok`.
pub const RESULT_TYPE_OK: u8 = 0x00;
/// Variant index of `Err`.
pub const RESULT_TYPE_ERR: u8 = 0x01;

} // verus!
