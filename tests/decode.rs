use radix_engine::decode::{decode_array, Decode, DecodeError, Decoder};
use radix_engine::encode::Encoder;
use radix_engine::handles::Bucket;
use radix_engine::scrypto_value::{ScryptoValue, ScryptoValueReplaceError};
use radix_engine::type_id::{
    SCRYPTO_TYPE_BUCKET, SCRYPTO_TYPE_DECIMAL, SCRYPTO_TYPE_EXPRESSION, SCRYPTO_TYPE_HASH, TYPE_ARRAY,
    TYPE_STRUCT, TYPE_U8, TYPE_VEC,
};
use std::cell::RefCell;
use std::collections::{BTreeMap, BTreeSet, HashMap, HashSet};
use std::rc::Rc;

fn assert_decoding(dec: &mut Decoder) {
    <()>::decode(dec).unwrap();
    assert_eq!(true, <bool>::decode(dec).unwrap());
    assert_eq!(1, <i8>::decode(dec).unwrap());
    assert_eq!(1, <i16>::decode(dec).unwrap());
    assert_eq!(1, <i32>::decode(dec).unwrap());
    assert_eq!(1, <i64>::decode(dec).unwrap());
    assert_eq!(1, <i128>::decode(dec).unwrap());
    assert_eq!(1, <u8>::decode(dec).unwrap());
    assert_eq!(1, <u16>::decode(dec).unwrap());
    assert_eq!(1, <u32>::decode(dec).unwrap());
    assert_eq!(1, <u64>::decode(dec).unwrap());
    assert_eq!(1, <u128>::decode(dec).unwrap());
    assert_eq!("hello", <String>::decode(dec).unwrap());

    assert_eq!(Some(1u32), <Option<u32>>::decode(dec).unwrap());
    assert_eq!(vec![1u32, 2u32, 3u32], decode_array::<u32>(dec, 3).unwrap());
    assert_eq!((1u32, 2u32), <(u32, u32)>::decode(dec).unwrap());
    assert_eq!(Ok(1u32), <Result<u32, String>>::decode(dec).unwrap());
    assert_eq!(
        Err("hello".to_owned()),
        <Result<u32, String>>::decode(dec).unwrap()
    );

    assert_eq!(vec![1u32, 2u32, 3u32], <Vec<u32>>::decode(dec).unwrap());
    let mut set = BTreeSet::<u8>::new();
    set.insert(1);
    set.insert(2);
    assert_eq!(set, <BTreeSet<u8>>::decode(dec).unwrap());
    let mut map = BTreeMap::<u8, u8>::new();
    map.insert(1, 2);
    map.insert(3, 4);
    assert_eq!(map, <BTreeMap<u8, u8>>::decode(dec).unwrap());
}

#[test]
pub fn test_decoding() {
    let bytes = vec![
        0, // unit
        1, 1, // bool
        2, 1, // i8
        3, 1, 0, // i16
        4, 1, 0, 0, 0, // i32
        5, 1, 0, 0, 0, 0, 0, 0, 0, // i64
        6, 1, 0, 0, 0, 0, 0, 0, 0, 0, 0, 0, 0, 0, 0, 0, 0, // i128
        7, 1, // u8
        8, 1, 0, // u16
        9, 1, 0, 0, 0, // u32
        10, 1, 0, 0, 0, 0, 0, 0, 0, // u64
        11, 1, 0, 0, 0, 0, 0, 0, 0, 0, 0, 0, 0, 0, 0, 0, 0, // u128
        12, 5, 0, 0, 0, 104, 101, 108, 108, 111, // string
        32, 1, 9, 1, 0, 0, 0, // option
        34, 9, 3, 0, 0, 0, 1, 0, 0, 0, 2, 0, 0, 0, 3, 0, 0, 0, // array
        35, 2, 0, 0, 0, 9, 1, 0, 0, 0, 9, 2, 0, 0, 0, // tuple
        36, 0, 9, 1, 0, 0, 0, // result
        36, 1, 12, 5, 0, 0, 0, 104, 101, 108, 108, 111, // result
        48, 9, 3, 0, 0, 0, 1, 0, 0, 0, 2, 0, 0, 0, 3, 0, 0, 0, // vec
        49, 7, 2, 0, 0, 0, 1, 2, // set
        50, 7, 7, 2, 0, 0, 0, 1, 2, 3, 4, // map
    ];
    let mut dec = Decoder::with_type(&bytes);
    assert_decoding(&mut dec);
}

#[test]
pub fn test_decoding_no_type() {
    let bytes = vec![
        // unit
        1, // bool
        1, // i8
        1, 0, // i16
        1, 0, 0, 0, // i32
        1, 0, 0, 0, 0, 0, 0, 0, // i64
        1, 0, 0, 0, 0, 0, 0, 0, 0, 0, 0, 0, 0, 0, 0, 0, // i128
        1, // u8
        1, 0, // u16
        1, 0, 0, 0, // u32
        1, 0, 0, 0, 0, 0, 0, 0, // u64
        1, 0, 0, 0, 0, 0, 0, 0, 0, 0, 0, 0, 0, 0, 0, 0, // u128
        5, 0, 0, 0, 104, 101, 108, 108, 111, // string
        1, 1, 0, 0, 0, // option
        3, 0, 0, 0, 1, 0, 0, 0, 2, 0, 0, 0, 3, 0, 0, 0, // array
        2, 0, 0, 0, 1, 0, 0, 0, 2, 0, 0, 0, // tuple
        0, 1, 0, 0, 0, // result
        1, 5, 0, 0, 0, 104, 101, 108, 108, 111, // result
        3, 0, 0, 0, 1, 0, 0, 0, 2, 0, 0, 0, 3, 0, 0, 0, // vec
        2, 0, 0, 0, 1, 2, // set
        2, 0, 0, 0, 1, 2, 3, 4, // map
    ];
    let mut dec = Decoder::no_type(&bytes);
    assert_decoding(&mut dec);
}

#[test]
pub fn test_decode_box() {
    let bytes = vec![7u8, 5u8];
    let mut dec = Decoder::with_type(&bytes);
    let x = <Box<u8>>::decode(&mut dec).unwrap();
    assert_eq!(Box::new(5u8), x);
}

#[test]
pub fn test_decode_rc() {
    let bytes = vec![7u8, 5u8];
    let mut dec = Decoder::with_type(&bytes);
    let x = <Rc<u8>>::decode(&mut dec).unwrap();
    assert_eq!(Rc::new(5u8), x);
}

#[test]
pub fn test_decode_ref_cell() {
    let bytes = vec![7u8, 5u8];
    let mut dec = Decoder::with_type(&bytes);
    let x = <RefCell<u8>>::decode(&mut dec).unwrap();
    assert_eq!(RefCell::new(5u8), x);
}

#[derive(Clone, PartialEq, Eq, Debug)]
struct NFA {
    a: [u8; 32],
    b: Vec<u8>,
}

impl Decode for NFA {
    fn type_id() -> u8 {
        TYPE_STRUCT
    }

    fn decode_type(decoder: &mut Decoder) -> Result<(), DecodeError> {
        decoder.check_type(TYPE_STRUCT)
    }

    fn decode_value(decoder: &mut Decoder) -> Result<Self, DecodeError> {
        decoder.check_len(2)?;
        let a = decode_array::<u8>(decoder, 32)?;
        let b = <Vec<u8>>::decode(decoder)?;
        Ok(NFA {
            a: a.try_into().unwrap(),
            b,
        })
    }
}

fn encode_nfa_value(enc: &mut Encoder, v: &NFA) {
    enc.write_len(2);
    enc.write_type(TYPE_ARRAY);
    enc.write_type(TYPE_U8);
    enc.write_len(32);
    enc.write_slice(&v.a);
    enc.write_type(TYPE_VEC);
    enc.write_type(TYPE_U8);
    enc.write_len(v.b.len());
    enc.write_slice(&v.b);
}

#[test]
pub fn test_generic_array() {
    let value1 = [
        NFA {
            a: [1u8; 32],
            b: vec![1],
        },
        NFA {
            a: [2u8; 32],
            b: vec![2],
        },
    ];

    // Encode
    let mut enc = Encoder::with_type();
    enc.write_type(TYPE_ARRAY);
    enc.write_type(TYPE_STRUCT);
    enc.write_len(2);
    for v in &value1 {
        encode_nfa_value(&mut enc, v);
    }
    let bytes = enc.into_bytes();

    let mut dec = Decoder::with_type(&bytes);
    let value2 = decode_array::<NFA>(&mut dec, 2).unwrap();
    assert_eq!(value1.to_vec(), value2);
}

#[test]
fn should_reject_duplicate_ids() {
    let mut enc = Encoder::with_type();
    enc.write_type(TYPE_VEC);
    enc.write_type(SCRYPTO_TYPE_BUCKET);
    enc.write_len(2);
    for b in [Bucket(0), Bucket(0)] {
        let body = b.to_vec();
        enc.write_len(body.len());
        enc.write_slice(&body);
    }
    let buckets = enc.into_bytes();
    let error = ScryptoValue::from_slice(&buckets).expect_err("Should be an error");
    assert_eq!(error, DecodeError::CustomError("DuplicateIds".to_string()));
}

#[test]
fn trailing_bytes_are_rejected() {
    let bytes = vec![7u8, 5u8, 9u8];
    let mut dec = Decoder::with_type(&bytes);
    assert_eq!(5u8, <u8>::decode(&mut dec).unwrap());
    assert_eq!(Err(DecodeError::NotAllBytesUsed(1)), dec.check_end());
    assert!(ScryptoValue::from_slice(&bytes).is_err());
    assert_eq!(
        DecodeError::NotAllBytesUsed(1),
        ScryptoValue::from_slice(&bytes).unwrap_err()
    );
}

#[test]
fn duplicate_set_entries_are_rejected() {
    let bytes = vec![49u8, 7, 2, 0, 0, 0, 1, 1];
    let mut dec = Decoder::with_type(&bytes);
    assert_eq!(
        Err(DecodeError::CustomError("Duplicate BTreeSet entries".to_string())),
        <BTreeSet<u8>>::decode(&mut dec)
    );
    let bytes = vec![50u8, 7, 7, 2, 0, 0, 0, 1, 2, 1, 3];
    let mut dec = Decoder::with_type(&bytes);
    assert_eq!(
        Err(DecodeError::CustomError("Duplicate BTreeMap entries".to_string())),
        <BTreeMap<u8, u8>>::decode(&mut dec)
    );
}

#[test]
fn decoder_errors() {
    let bytes = vec![1u8, 2];
    let mut dec = Decoder::with_type(&bytes);
    assert_eq!(Err(DecodeError::InvalidBool(2)), <bool>::decode(&mut dec));
    let bytes = vec![9u8, 1, 0];
    let mut dec = Decoder::with_type(&bytes);
    assert_eq!(
        Err(DecodeError::Underflow {
            required: 4,
            remaining: 2
        }),
        <u32>::decode(&mut dec)
    );
    let bytes = vec![8u8, 1, 0];
    let mut dec = Decoder::with_type(&bytes);
    assert_eq!(
        Err(DecodeError::InvalidType {
            expected: Some(9),
            actual: 8
        }),
        <u32>::decode(&mut dec)
    );
    let bytes = vec![32u8, 2];
    let mut dec = Decoder::with_type(&bytes);
    assert_eq!(Err(DecodeError::InvalidIndex(2)), <Option<u8>>::decode(&mut dec));
    let bytes = vec![12u8, 1, 0, 0, 0, 0xff];
    let mut dec = Decoder::with_type(&bytes);
    assert_eq!(Err(DecodeError::InvalidUtf8), <String>::decode(&mut dec));
    let bytes = vec![3u8, 0, 0, 0];
    let mut dec = Decoder::no_type(&bytes);
    assert_eq!(
        Err(DecodeError::InvalidLength {
            expected: 2,
            actual: 3
        }),
        dec.check_len(2)
    );
}

#[test]
fn encoded_length_and_tag_read_back() {
    let mut enc = Encoder::with_type();
    enc.write_type(TYPE_VEC);
    enc.write_len(70000);
    let bytes = enc.into_bytes();
    assert_eq!(vec![48u8, 0x70, 0x11, 0x01, 0x00], bytes);
    let mut dec = Decoder::with_type(&bytes);
    assert_eq!(Ok(()), dec.check_type(TYPE_VEC));
    assert_eq!(Ok(70000), dec.read_len());
    assert_eq!(Ok(()), dec.check_end());
}

#[test]
fn value_ids_are_collected() {
    let mut enc = Encoder::with_type();
    enc.write_type(TYPE_VEC);
    enc.write_type(SCRYPTO_TYPE_BUCKET);
    enc.write_len(2);
    for b in [Bucket(3), Bucket(7)] {
        let body = b.to_vec();
        enc.write_len(body.len());
        enc.write_slice(&body);
    }
    let bytes = enc.into_bytes();
    let value = ScryptoValue::from_slice(&bytes).unwrap();
    assert_eq!(vec![3u32, 7u32], value.bucket_ids);
    assert_eq!(2, value.value_count());
    assert_eq!(2, value.node_ids().len());
    assert_eq!(0, value.stored_node_ids().len());
    assert_eq!(bytes, value.raw);
    assert_eq!(
        DecodeError::CustomError("CustomValueNotAllowed".to_string()),
        ScryptoValue::from_slice_no_custom_values(&bytes).unwrap_err()
    );
    assert_eq!(vec![0u8], ScryptoValue::unit().raw);
}

#[test]
fn hash_collections_and_sizes_decode() {
    let bytes = vec![51u8, 7, 2, 0, 0, 0, 1, 2];
    let mut dec = Decoder::with_type(&bytes);
    let set = <HashSet<u8>>::decode(&mut dec).unwrap();
    assert!(set.contains(&1) && set.contains(&2) && set.len() == 2);
    let bytes = vec![52u8, 7, 7, 2, 0, 0, 0, 1, 2, 1, 3];
    let mut dec = Decoder::with_type(&bytes);
    assert_eq!(
        Err(DecodeError::CustomError("Duplicate HashMap entries".to_string())),
        <HashMap<u8, u8>>::decode(&mut dec)
    );
    let bytes = vec![9u8, 5, 0, 0, 0, 4, 0xff, 0xff, 0xff, 0xff];
    let mut dec = Decoder::with_type(&bytes);
    assert_eq!(5usize, <usize>::decode(&mut dec).unwrap());
    assert_eq!(-1isize, <isize>::decode(&mut dec).unwrap());
}

#[test]
fn replace_ids_rewrites_ids_and_encoding() {
    let mut enc = Encoder::with_type();
    enc.write_type(TYPE_VEC);
    enc.write_type(SCRYPTO_TYPE_BUCKET);
    enc.write_len(2);
    for b in [Bucket(3), Bucket(7)] {
        let body = b.to_vec();
        enc.write_len(body.len());
        enc.write_slice(&body);
    }
    let mut value = ScryptoValue::from_slice(&enc.into_bytes()).unwrap();
    let mut proofs: Vec<(u32, u32)> = vec![];
    let mut buckets = vec![(7u32, 70u32), (3, 30), (3, 31)];
    assert_eq!(Ok(()), value.replace_ids(&mut proofs, &mut buckets));
    assert_eq!(vec![30u32, 70u32], value.bucket_ids);
    assert_eq!(vec![(3u32, 31u32)], buckets);
    let again = ScryptoValue::from_slice(&value.raw).unwrap();
    assert_eq!(vec![30u32, 70u32], again.bucket_ids);
    let mut buckets = vec![(30u32, 1u32)];
    assert_eq!(
        Err(ScryptoValueReplaceError::BucketIdNotFound(70)),
        value.replace_ids(&mut proofs, &mut buckets)
    );
    assert_eq!(vec![30u32, 70u32], value.bucket_ids);
}

#[test]
fn value_with_duplicate_keys_is_rejected() {
    let set = vec![49u8, 7, 2, 0, 0, 0, 1, 1];
    assert_eq!(
        DecodeError::CustomError("Duplicate set entries".to_string()),
        ScryptoValue::from_slice(&set).unwrap_err()
    );
    let map = vec![50u8, 7, 7, 2, 0, 0, 0, 1, 2, 1, 3];
    assert_eq!(
        DecodeError::CustomError("Duplicate map entries".to_string()),
        ScryptoValue::from_slice(&map).unwrap_err()
    );
    let fine = vec![50u8, 7, 7, 2, 0, 0, 0, 1, 2, 3, 4];
    assert!(ScryptoValue::from_slice(&fine).is_ok());
}

#[test]
fn malformed_custom_values_are_rejected() {
    let mut enc = Encoder::with_type();
    enc.write_type(SCRYPTO_TYPE_DECIMAL);
    enc.write_len(3);
    enc.write_slice(&[1, 2, 3]);
    assert_eq!(
        DecodeError::CustomError("InvalidDecimal".to_string()),
        ScryptoValue::from_slice(&enc.into_bytes()).unwrap_err()
    );
    let mut enc = Encoder::with_type();
    enc.write_type(SCRYPTO_TYPE_HASH);
    enc.write_len(32);
    enc.write_slice(&[9u8; 32]);
    assert!(ScryptoValue::from_slice(&enc.into_bytes()).is_ok());
    let mut enc = Encoder::with_type();
    enc.write_type(SCRYPTO_TYPE_EXPRESSION);
    enc.write_len(14);
    enc.write_slice(b"ENTIRE_WORKTOP");
    let value = ScryptoValue::from_slice(&enc.into_bytes()).unwrap();
    assert_eq!(vec![b"ENTIRE_WORKTOP".to_vec()], value.expressions);
    let mut enc = Encoder::with_type();
    enc.write_type(SCRYPTO_TYPE_EXPRESSION);
    enc.write_len(1);
    enc.write_slice(&[0xff]);
    assert_eq!(
        DecodeError::CustomError("InvalidExpression".to_string()),
        ScryptoValue::from_slice(&enc.into_bytes()).unwrap_err()
    );
}
