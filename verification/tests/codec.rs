//! Encode-side tests: byte-exact output, size consistency, rejection of
//! unsupported shapes, and round trips through decode.

use bson_codec::error::Error as SerError;
use bson_codec::value::{Field, Value};
use bson_codec::de::from_bytes;
use bson_codec::{serialised_size_of, to_string};
use bytes::BytesMut;

fn field(key: &[u8], value: Value) -> Field {
    Field { key: key.to_vec(), value }
}

fn encode(v: &Value) -> Vec<u8> {
    let mut out = BytesMut::new();
    to_string(v, &mut out).unwrap();
    out.as_ref().to_vec()
}

#[test]
fn test_basic() {
    let test = Value::Document(vec![
        field(b"cool", Value::Int32(999)),
        field(
            b"beans",
            Value::Binary(b"so there was this one time at bandcamp".to_vec()),
        ),
        field(b"bro", Value::String(b"the craziest thing happened".to_vec())),
        field(
            b"b",
            Value::Document(vec![
                field(b"s", Value::String(b"dddd".to_vec())),
                field(
                    b"a",
                    Value::Array(vec![
                        Value::String(b"yooo".to_vec()),
                        Value::String(b"mayn".to_vec()),
                    ]),
                ),
                field(b"e", Value::UnitVariant(b"Abc".to_vec())),
                field(
                    b"e2",
                    Value::NewtypeVariant(b"Def".to_vec(), Box::new(Value::Int32(1999))),
                ),
                field(
                    b"e3",
                    Value::TupleVariant(
                        b"Ghi".to_vec(),
                        vec![Value::Int32(16), Value::Int32(7), Value::Int32(1999)],
                    ),
                ),
                field(
                    b"e4",
                    Value::StructVariant(
                        b"Jkl".to_vec(),
                        vec![field(b"a", Value::Int32(16)), field(b"b", Value::Int32(7))],
                    ),
                ),
                field(
                    b"t",
                    Value::Array(vec![Value::Int32(16), Value::Int32(7), Value::Int32(1999)]),
                ),
                field(
                    b"ts",
                    Value::Array(vec![Value::Int32(99), Value::Int32(100)]),
                ),
            ]),
        ),
    ]);

    let mut ours = BytesMut::new();
    to_string(&test, &mut ours).unwrap();

    let theirs: Vec<u8> = vec![
        0x34, 0x1, 0x0, 0x0, 0x10, 0x63, 0x6f, 0x6f, 0x6c, 0x0, 0xe7, 0x3, 0x0, 0x0, 0x5, 0x62,
        0x65, 0x61, 0x6e, 0x73, 0x0, 0x26, 0x0, 0x0, 0x0, 0x0, 0x73, 0x6f, 0x20, 0x74, 0x68,
        0x65, 0x72, 0x65, 0x20, 0x77, 0x61, 0x73, 0x20, 0x74, 0x68, 0x69, 0x73, 0x20, 0x6f, 0x6e,
        0x65, 0x20, 0x74, 0x69, 0x6d, 0x65, 0x20, 0x61, 0x74, 0x20, 0x62, 0x61, 0x6e, 0x64, 0x63,
        0x61, 0x6d, 0x70, 0x2, 0x62, 0x72, 0x6f, 0x0, 0x1c, 0x0, 0x0, 0x0, 0x74, 0x68, 0x65,
        0x20, 0x63, 0x72, 0x61, 0x7a, 0x69, 0x65, 0x73, 0x74, 0x20, 0x74, 0x68, 0x69, 0x6e, 0x67,
        0x20, 0x68, 0x61, 0x70, 0x70, 0x65, 0x6e, 0x65, 0x64, 0x0, 0x3, 0x62, 0x0, 0xcb, 0x0,
        0x0, 0x0, 0x2, 0x73, 0x0, 0x5, 0x0, 0x0, 0x0, 0x64, 0x64, 0x64, 0x64, 0x0, 0x4, 0x61,
        0x0, 0x1d, 0x0, 0x0, 0x0, 0x2, 0x30, 0x0, 0x5, 0x0, 0x0, 0x0, 0x79, 0x6f, 0x6f, 0x6f,
        0x0, 0x2, 0x31, 0x0, 0x5, 0x0, 0x0, 0x0, 0x6d, 0x61, 0x79, 0x6e, 0x0, 0x0, 0x2, 0x65,
        0x0, 0x4, 0x0, 0x0, 0x0, 0x41, 0x62, 0x63, 0x0, 0x3, 0x65, 0x32, 0x0, 0xe, 0x0, 0x0,
        0x0, 0x10, 0x44, 0x65, 0x66, 0x0, 0xcf, 0x7, 0x0, 0x0, 0x0, 0x3, 0x65, 0x33, 0x0, 0x24,
        0x0, 0x0, 0x0, 0x4, 0x47, 0x68, 0x69, 0x0, 0x1a, 0x0, 0x0, 0x0, 0x10, 0x30, 0x0, 0x10,
        0x0, 0x0, 0x0, 0x10, 0x31, 0x0, 0x7, 0x0, 0x0, 0x0, 0x10, 0x32, 0x0, 0xcf, 0x7, 0x0,
        0x0, 0x0, 0x0, 0x3, 0x65, 0x34, 0x0, 0x1d, 0x0, 0x0, 0x0, 0x3, 0x4a, 0x6b, 0x6c, 0x0,
        0x13, 0x0, 0x0, 0x0, 0x10, 0x61, 0x0, 0x10, 0x0, 0x0, 0x0, 0x10, 0x62, 0x0, 0x7, 0x0,
        0x0, 0x0, 0x0, 0x0, 0x4, 0x74, 0x0, 0x1a, 0x0, 0x0, 0x0, 0x10, 0x30, 0x0, 0x10, 0x0,
        0x0, 0x0, 0x10, 0x31, 0x0, 0x7, 0x0, 0x0, 0x0, 0x10, 0x32, 0x0, 0xcf, 0x7, 0x0, 0x0,
        0x0, 0x4, 0x74, 0x73, 0x0, 0x13, 0x0, 0x0, 0x0, 0x10, 0x30, 0x0, 0x63, 0x0, 0x0, 0x0,
        0x10, 0x31, 0x0, 0x64, 0x0, 0x0, 0x0, 0x0, 0x0, 0x0,
    ];

    assert_eq!(ours.as_ref(), theirs.as_slice());

    let calculated_size = serialised_size_of(&test).unwrap();
    assert_eq!(calculated_size, ours.len());
    assert_eq!(calculated_size, theirs.len());
}

#[test]
fn empty_struct_encodes_to_five_bytes() {
    let v = Value::Document(vec![]);
    assert_eq!(encode(&v), vec![0x05, 0x00, 0x00, 0x00, 0x00]);
}

#[test]
fn array_field_uses_decimal_index_keys() {
    let v = Value::Document(vec![field(
        b"x",
        Value::Array(vec![
            Value::String(b"a".to_vec()),
            Value::String(b"b".to_vec()),
        ]),
    )]);
    let expected: Vec<u8> = vec![
        0x1f, 0x0, 0x0, 0x0, 0x4, 0x78, 0x0, 0x17, 0x0, 0x0, 0x0, 0x2, 0x30, 0x0, 0x2, 0x0, 0x0,
        0x0, 0x61, 0x0, 0x2, 0x31, 0x0, 0x2, 0x0, 0x0, 0x0, 0x62, 0x0, 0x0, 0x0,
    ];
    assert_eq!(encode(&v), expected);
}

#[test]
fn newtype_variant_encodes_one_field_document() {
    let v = Value::NewtypeVariant(b"Def".to_vec(), Box::new(Value::Int32(1999)));
    let expected: Vec<u8> = vec![
        0xe, 0x0, 0x0, 0x0, 0x10, 0x44, 0x65, 0x66, 0x0, 0xcf, 0x7, 0x0, 0x0, 0x0,
    ];
    assert_eq!(encode(&v), expected);
}

#[test]
fn unsigned_ints_are_rejected() {
    let mut out = BytesMut::new();
    let top = Value::Unsigned(7);
    assert_eq!(
        to_string(&top, &mut out),
        Err(SerError::UnsignedIntNotInSpec)
    );
    let nested = Value::Document(vec![field(b"n", Value::Unsigned(7))]);
    assert_eq!(
        to_string(&nested, &mut out),
        Err(SerError::UnsignedIntNotInSpec)
    );
    assert_eq!(
        serialised_size_of(&nested),
        Err(SerError::UnsignedIntNotInSpec)
    );
}

#[test]
fn chars_are_rejected() {
    let mut out = BytesMut::new();
    let nested = Value::Document(vec![field(b"c", Value::Char('x'))]);
    assert_eq!(
        to_string(&nested, &mut out),
        Err(SerError::UnsignedIntNotInSpec)
    );
}

#[test]
fn bare_scalar_outside_struct_is_rejected() {
    let mut out = BytesMut::new();
    assert_eq!(
        to_string(&Value::Int32(1), &mut out),
        Err(SerError::NotSerializingStruct)
    );
    assert_eq!(
        to_string(&Value::Null, &mut out),
        Err(SerError::NotSerializingStruct)
    );
}

#[test]
fn error_messages_describe_the_kind() {
    assert_eq!(
        SerError::UnsignedIntNotInSpec.message(),
        "unsigned ints are not supported in the bson spec"
    );
    assert_eq!(
        SerError::Serde("boom".to_string()).message(),
        "error from value serialiser: boom"
    );
    assert_eq!(
        bson_codec::de::Error::MalformedInput.message(),
        "malformed input document"
    );
}

#[test]
fn size_matches_encoded_length() {
    let v = Value::Document(vec![
        field(b"s", Value::String(b"hello".to_vec())),
        field(b"n", Value::Int64(-5)),
        field(b"inner", Value::Document(vec![field(b"b", Value::Boolean(true))])),
    ]);
    let bytes = encode(&v);
    assert_eq!(serialised_size_of(&v).unwrap(), bytes.len());
}

#[test]
fn measuring_twice_gives_the_same_count() {
    let v = Value::Document(vec![field(
        b"a",
        Value::Array(vec![Value::Int32(1), Value::Null, Value::Double(0x3ff0000000000000)]),
    )]);
    let first = serialised_size_of(&v).unwrap();
    let second = serialised_size_of(&v).unwrap();
    assert_eq!(first, second);
}

#[test]
fn scalars_round_trip() {
    let v = Value::Document(vec![
        field(b"d", Value::Double(0x4009_21fb_5444_2d18)),
        field(b"s", Value::String(b"text with a \xc3\xa9 char".to_vec())),
        field(b"bin", Value::Binary(vec![0, 1, 2, 0xff])),
        field(b"t", Value::Boolean(true)),
        field(b"f", Value::Boolean(false)),
        field(b"when", Value::DateTime(-1234567890123)),
        field(b"nothing", Value::Null),
        field(b"i", Value::Int32(-2147483648)),
        field(b"ts", Value::Timestamp(u64::MAX)),
        field(b"l", Value::Int64(i64::MIN)),
    ]);
    let bytes = encode(&v);
    assert_eq!(from_bytes(&bytes).unwrap(), v);
}

#[test]
fn nested_containers_round_trip() {
    let v = Value::Document(vec![
        field(
            b"outer",
            Value::Document(vec![
                field(b"empty", Value::Document(vec![])),
                field(
                    b"list",
                    Value::Array(vec![
                        Value::Array(vec![Value::Int32(1)]),
                        Value::Document(vec![field(b"k", Value::String(b"v".to_vec()))]),
                        Value::Null,
                    ]),
                ),
            ]),
        ),
        field(b"tail", Value::Int64(42)),
    ]);
    let bytes = encode(&v);
    assert_eq!(from_bytes(&bytes).unwrap(), v);
}

#[test]
fn encoding_appends_to_existing_output() {
    let mut out = BytesMut::new();
    out.extend_from_slice(b"prefix");
    let v = Value::Document(vec![]);
    to_string(&v, &mut out).unwrap();
    assert_eq!(out.as_ref(), b"prefix\x05\x00\x00\x00\x00");
}

#[test]
fn empty_string_and_empty_binary_encode() {
    let v = Value::Document(vec![
        field(b"s", Value::String(vec![])),
        field(b"b", Value::Binary(vec![])),
    ]);
    // string element: tag, key, NUL, int32 length 1, NUL payload terminator;
    // binary element: tag, key, NUL, int32 length 0, subtype byte
    let bytes = encode(&v);
    assert_eq!(bytes.len(), serialised_size_of(&v).unwrap());
    assert_eq!(bytes.len(), 21);
    assert_eq!(bytes[0], 0x15);
    assert_eq!(from_bytes(&bytes).unwrap(), v);
}
