//! Decode-side tests: the tape builder on well-formed and malformed input,
//! and the pull cursor's error reporting.

use bson_codec::de::{
    close_variant, fields_from_tape, from_bytes, from_bytes_in, items_from_tape, read_variant,
    to_tape, value_from_tape, Error, Tape, VariantForm,
};
use bson_codec::value::{Field, Value};

fn field(key: &[u8], value: Value) -> Field {
    Field { key: key.to_vec(), value }
}

#[test]
fn tape_of_one_int_document() {
    // { "Def": 1999 }
    let data: Vec<u8> = vec![
        0xe, 0x0, 0x0, 0x0, 0x10, 0x44, 0x65, 0x66, 0x0, 0xcf, 0x7, 0x0, 0x0, 0x0,
    ];
    let bump = bumpalo::Bump::new();
    let tape = to_tape(&bump, &data).unwrap();
    assert_eq!(
        &tape[..],
        &[
            Tape::DocumentStart,
            Tape::Key { start: 5, len: 3 },
            Tape::I32 { value: 1999 },
            Tape::DocumentEnd,
        ][..]
    );
}

#[test]
fn untyped_decode_reads_a_newtype_variant_as_a_document() {
    let data: Vec<u8> = vec![
        0xe, 0x0, 0x0, 0x0, 0x10, 0x44, 0x65, 0x66, 0x0, 0xcf, 0x7, 0x0, 0x0, 0x0,
    ];
    let v = from_bytes(&data).unwrap();
    assert_eq!(
        v,
        Value::Document(vec![field(b"Def", Value::Int32(1999))])
    );
}

#[test]
fn unsupported_type_tag_is_a_fatal_decode_error() {
    // tag 0x07 (ObjectId) is outside the supported subset: the scanner must
    // fail fast, never skip silently
    let data: Vec<u8> = vec![
        0x13, 0x0, 0x0, 0x0, 0x07, 0x6b, 0x0, 1, 2, 3, 4, 5, 6, 7, 8, 9, 10, 11, 0x0,
    ];
    let bump = bumpalo::Bump::new();
    assert_eq!(to_tape(&bump, &data).unwrap_err(), Error::MalformedInput);
    assert_eq!(from_bytes(&data), Err(Error::MalformedInput));
}

#[test]
fn unterminated_key_is_malformed() {
    let data: Vec<u8> = vec![0x07, 0x0, 0x0, 0x0, 0x10, 0x6b, 0x6b];
    let bump = bumpalo::Bump::new();
    assert_eq!(to_tape(&bump, &data).unwrap_err(), Error::MalformedInput);
}

#[test]
fn truncated_payload_is_malformed() {
    // int32 element but only two payload bytes inside the declared length
    let data: Vec<u8> = vec![0x09, 0x0, 0x0, 0x0, 0x10, 0x6b, 0x0, 0x1, 0x2];
    let bump = bumpalo::Bump::new();
    assert_eq!(to_tape(&bump, &data).unwrap_err(), Error::MalformedInput);
}

#[test]
fn invalid_utf8_string_is_malformed() {
    // string element whose payload byte 0xff is not UTF-8
    let data: Vec<u8> = vec![
        0x0e, 0x0, 0x0, 0x0, 0x02, 0x73, 0x0, 0x02, 0x0, 0x0, 0x0, 0xff, 0x0, 0x0,
    ];
    let bump = bumpalo::Bump::new();
    assert_eq!(to_tape(&bump, &data).unwrap_err(), Error::MalformedInput);
}

#[test]
fn header_shorter_than_four_bytes_is_malformed() {
    let bump = bumpalo::Bump::new();
    assert_eq!(to_tape(&bump, &[0x03, 0x0, 0x0]).unwrap_err(), Error::MalformedInput);
    assert_eq!(to_tape(&bump, &[]).unwrap_err(), Error::MalformedInput);
}

#[test]
fn declared_length_must_fit_the_buffer() {
    // declares 10 bytes but only 5 are present
    let bump = bumpalo::Bump::new();
    let data: Vec<u8> = vec![0x0a, 0x0, 0x0, 0x0, 0x0];
    assert_eq!(to_tape(&bump, &data).unwrap_err(), Error::MalformedInput);
    // shorter than the minimum five-byte document
    let data: Vec<u8> = vec![0x04, 0x0, 0x0, 0x0, 0x0];
    assert_eq!(to_tape(&bump, &data).unwrap_err(), Error::MalformedInput);
}

#[test]
fn trailing_bytes_beyond_declared_length_are_ignored() {
    let data: Vec<u8> = vec![0x05, 0x0, 0x0, 0x0, 0x0, 0xde, 0xad, 0xbe, 0xef];
    assert_eq!(from_bytes(&data).unwrap(), Value::Document(vec![]));
}

#[test]
fn boolean_payload_decodes_one_as_true_and_others_as_false() {
    let mut data: Vec<u8> = vec![0x09, 0x0, 0x0, 0x0, 0x08, 0x62, 0x0, 0x01, 0x0];
    assert_eq!(
        from_bytes(&data).unwrap(),
        Value::Document(vec![field(b"b", Value::Boolean(true))])
    );
    data[7] = 0x00;
    assert_eq!(
        from_bytes(&data).unwrap(),
        Value::Document(vec![field(b"b", Value::Boolean(false))])
    );
    data[7] = 0x02;
    assert_eq!(
        from_bytes(&data).unwrap(),
        Value::Document(vec![field(b"b", Value::Boolean(false))])
    );
}

#[test]
fn binary_keeps_its_subtype_on_the_tape() {
    // binary element with subtype 0x80 and two payload bytes
    let data: Vec<u8> = vec![
        0x10, 0x0, 0x0, 0x0, 0x05, 0x62, 0x0, 0x02, 0x0, 0x0, 0x0, 0x80, 0xaa, 0xbb, 0x0, 0x0,
    ];
    let bump = bumpalo::Bump::new();
    let tape = to_tape(&bump, &data).unwrap();
    assert_eq!(tape[2], Tape::Binary { start: 12, len: 2, subtype: 0x80 });
}

#[test]
fn cursor_reports_the_entry_kind_it_cannot_take() {
    let data: Vec<u8> = vec![
        0xe, 0x0, 0x0, 0x0, 0x10, 0x44, 0x65, 0x66, 0x0, 0xcf, 0x7, 0x0, 0x0, 0x0,
    ];
    let bump = bumpalo::Bump::new();
    let tape = to_tape(&bump, &data).unwrap();
    // tape: [DocumentStart, Key, I32, DocumentEnd]
    assert_eq!(
        value_from_tape(&tape[..], 1, &data),
        Err(Error::UnexpectedKey)
    );
    assert_eq!(
        value_from_tape(&tape[..], 3, &data),
        Err(Error::UnexpectedMapEnd)
    );
    assert_eq!(value_from_tape(&tape[..], 4, &data), Err(Error::EndOfFile));
    // a value in a key slot is a malformed map
    assert_eq!(
        fields_from_tape(&tape[..], 2, &data),
        Err(Error::MalformedMapMissingKey)
    );
}

#[test]
fn truncated_nesting_is_a_malformed_map() {
    // a nested document that never closes: both terminators missing from the
    // declared span
    let data: Vec<u8> = vec![0x0b, 0x0, 0x0, 0x0, 0x03, 0x6b, 0x0, 0x04, 0x0, 0x0, 0x0];
    assert_eq!(from_bytes(&data), Err(Error::MalformedMapMissingKey));
}

#[test]
fn enum_protocol_decodes_a_newtype_variant() {
    // { "Def": 1999 }: a newtype variant wrapper at the top level
    let data: Vec<u8> = vec![
        0xe, 0x0, 0x0, 0x0, 0x10, 0x44, 0x65, 0x66, 0x0, 0xcf, 0x7, 0x0, 0x0, 0x0,
    ];
    let bump = bumpalo::Bump::new();
    let tape = to_tape(&bump, &data).unwrap();
    let (start, len, form, pos) = read_variant(&tape[..], 0).unwrap();
    assert_eq!(&data[start..start + len], b"Def");
    assert_eq!(form, VariantForm::Wrapped);
    // the consumer declared a newtype variant: one scalar request
    let (v, pos) = value_from_tape(&tape[..], pos, &data).unwrap();
    assert_eq!(v, Value::Int32(1999));
    let pos = close_variant(&tape[..], pos).unwrap();
    assert_eq!(pos, tape.len());
}

#[test]
fn enum_protocol_decodes_a_tuple_variant() {
    // { "Ghi": [16, 7] }
    let data: Vec<u8> = vec![
        0x1d, 0x0, 0x0, 0x0, 0x04, 0x47, 0x68, 0x69, 0x0, 0x13, 0x0, 0x0, 0x0, 0x10, 0x30, 0x0,
        0x10, 0x0, 0x0, 0x0, 0x10, 0x31, 0x0, 0x07, 0x0, 0x0, 0x0, 0x0, 0x0,
    ];
    let bump = bumpalo::Bump::new();
    let tape = to_tape(&bump, &data).unwrap();
    let (start, len, form, pos) = read_variant(&tape[..], 0).unwrap();
    assert_eq!(&data[start..start + len], b"Ghi");
    assert_eq!(form, VariantForm::Wrapped);
    // the consumer declared a tuple variant: sequence-shape consumption
    let (items, pos) = items_from_tape(&tape[..], pos + 1, &data).unwrap();
    assert_eq!(items, vec![Value::Int32(16), Value::Int32(7)]);
    let pos = close_variant(&tape[..], pos).unwrap();
    assert_eq!(pos, tape.len());
}

#[test]
fn enum_protocol_reads_a_unit_variant() {
    // a bare string is a unit variant: its value is the tag name
    let data: Vec<u8> = vec![
        0x10, 0x0, 0x0, 0x0, 0x02, 0x65, 0x0, 0x04, 0x0, 0x0, 0x0, 0x41, 0x62, 0x63, 0x0, 0x0,
    ];
    let bump = bumpalo::Bump::new();
    let tape = to_tape(&bump, &data).unwrap();
    // the enum value is field "e"'s value, at tape position 2
    let (start, len, form, pos) = read_variant(&tape[..], 2).unwrap();
    assert_eq!(&data[start..start + len], b"Abc");
    assert_eq!(form, VariantForm::Unit);
    assert_eq!(pos, 3);
}

#[test]
fn enum_protocol_rejects_a_scalar_opening() {
    let data: Vec<u8> = vec![
        0xe, 0x0, 0x0, 0x0, 0x10, 0x44, 0x65, 0x66, 0x0, 0xcf, 0x7, 0x0, 0x0, 0x0,
    ];
    let bump = bumpalo::Bump::new();
    let tape = to_tape(&bump, &data).unwrap();
    // an int32 entry cannot open an enum
    assert_eq!(read_variant(&tape[..], 2), Err(Error::UnexpectedEnum));
    // a missing wrapper end is reported where the consumer closes
    assert_eq!(close_variant(&tape[..], 2), Err(Error::UnexpectedMapEnd));
}

#[test]
fn arena_is_reusable_across_decode_calls() {
    let mut bump = bumpalo::Bump::new();
    let data: Vec<u8> = vec![0x0c, 0x0, 0x0, 0x0, 0x10, 0x6b, 0x0, 0x2a, 0x0, 0x0, 0x0, 0x0];
    let expected = Value::Document(vec![field(b"k", Value::Int32(42))]);
    assert_eq!(from_bytes_in(&mut bump, &data).unwrap(), expected);
    assert_eq!(from_bytes_in(&mut bump, &data).unwrap(), expected);
    assert_eq!(
        from_bytes_in(&mut bump, &[0x05, 0x0, 0x0, 0x0, 0x0]).unwrap(),
        Value::Document(vec![])
    );
}

#[test]
fn empty_key_is_allowed() {
    // an element whose key is the empty string
    let data: Vec<u8> = vec![0x0b, 0x0, 0x0, 0x0, 0x10, 0x0, 0x2a, 0x0, 0x0, 0x0, 0x0];
    assert_eq!(
        from_bytes(&data).unwrap(),
        Value::Document(vec![field(b"", Value::Int32(42))])
    );
}
