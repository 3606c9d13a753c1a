use dbus_bytestream::demarshal::{demarshal, parse_value, type_end, DemarshalError, MAX_DEPTH};
use dbus_bytestream::types::{
    Array, BasicValue, Dictionary, Path, Signature, Struct, Value, Variant,
};

fn basic(b: BasicValue) -> Value {
    Value::BasicValue(b)
}

fn text(s: &str) -> Value {
    basic(BasicValue::String(s.to_string()))
}

fn decode(buf: &[u8], sig: &str) -> Result<(Value, usize), DemarshalError> {
    let mut offset = 0;
    let value = demarshal(buf, &mut offset, sig)?;
    Ok((value, offset))
}

#[test]
fn fixed_size_values_are_little_endian() {
    assert_eq!(decode(&[0xfe], "y"), Ok((basic(BasicValue::Byte(0xfe)), 1)));
    assert_eq!(decode(&[0x34, 0x12], "q"), Ok((basic(BasicValue::Uint16(0x1234)), 2)));
    assert_eq!(decode(&[0xfe, 0xff], "n"), Ok((basic(BasicValue::Int16(-2)), 2)));
    assert_eq!(
        decode(&[0x78, 0x56, 0x34, 0x12], "u"),
        Ok((basic(BasicValue::Uint32(0x12345678)), 4))
    );
    assert_eq!(decode(&[0xff, 0xff, 0xff, 0xff], "i"), Ok((basic(BasicValue::Int32(-1)), 4)));
    assert_eq!(
        decode(&[0x00, 0x00, 0x00, 0x80], "i"),
        Ok((basic(BasicValue::Int32(i32::MIN)), 4))
    );
    assert_eq!(
        decode(&[8, 7, 6, 5, 4, 3, 2, 1], "t"),
        Ok((basic(BasicValue::Uint64(0x0102030405060708)), 8))
    );
    assert_eq!(
        decode(&[0xff, 0xff, 0xff, 0xff, 0xff, 0xff, 0xff, 0x7f], "x"),
        Ok((basic(BasicValue::Int64(i64::MAX)), 8))
    );
    assert_eq!(
        decode(&[0xfd, 0xff, 0xff, 0xff, 0xff, 0xff, 0xff, 0xff], "x"),
        Ok((basic(BasicValue::Int64(-3)), 8))
    );
    let bits = 1.5f64.to_bits();
    assert_eq!(decode(&bits.to_le_bytes(), "d"), Ok((Value::Double(bits), 8)));
    match decode(&2.25f64.to_le_bytes(), "d") {
        Ok((Value::Double(bits), 8)) => assert_eq!(f64::from_bits(bits), 2.25),
        other => panic!("{:?}", other),
    }
}

#[test]
fn booleans_are_zero_or_one() {
    assert_eq!(decode(&[0, 0, 0, 0], "b"), Ok((basic(BasicValue::Boolean(false)), 4)));
    assert_eq!(decode(&[1, 0, 0, 0], "b"), Ok((basic(BasicValue::Boolean(true)), 4)));
    assert_eq!(decode(&[2, 0, 0, 0], "b"), Err(DemarshalError::CorruptedMessage));
    assert_eq!(decode(&[0, 1, 0, 0], "b"), Err(DemarshalError::CorruptedMessage));
}

#[test]
fn values_start_on_their_boundary() {
    let buf = [9, 0xaa, 0xaa, 0xaa, 7, 0, 0, 0];
    let mut offset = 1;
    assert_eq!(demarshal(&buf, &mut offset, "u"), Ok(basic(BasicValue::Uint32(7))));
    assert_eq!(offset, 8);
    let mut offset = 1;
    assert_eq!(demarshal(&buf, &mut offset, "q"), Ok(basic(BasicValue::Uint16(0xaaaa))));
    assert_eq!(offset, 4);
    let mut offset = 1;
    assert_eq!(demarshal(&buf, &mut offset, "y"), Ok(basic(BasicValue::Byte(0xaa))));
    assert_eq!(offset, 2);
    let mut offset = 1;
    assert_eq!(demarshal(&buf, &mut offset, "t"), Err(DemarshalError::MessageTooShort));
    assert_eq!(offset, 1);
    let mut offset = 9;
    assert_eq!(demarshal(&buf, &mut offset, "y"), Err(DemarshalError::MessageTooShort));
    assert_eq!(offset, 9);
    let mut offset = 8;
    assert_eq!(demarshal(&buf, &mut offset, "y"), Err(DemarshalError::MessageTooShort));
}

#[test]
fn texts_have_a_length_and_a_nul() {
    assert_eq!(decode(&[2, 0, 0, 0, b'h', b'i', 0], "s"), Ok((text("hi"), 7)));
    assert_eq!(decode(&[0, 0, 0, 0, 0], "s"), Ok((text(""), 5)));
    assert_eq!(
        decode(&[2, 0, 0, 0, b'/', b'a', 0], "o"),
        Ok((basic(BasicValue::ObjectPath(Path("/a".to_string()))), 7))
    );
    assert_eq!(
        decode(&[2, b'a', b'i', 0], "g"),
        Ok((basic(BasicValue::Signature(Signature("ai".to_string()))), 4))
    );
    assert_eq!(
        decode(&[5, 0, 0, 0, b'g', b'r', 0xc3, 0xbc, 0xdf, 0], "s"),
        Err(DemarshalError::BadUTF8)
    );
    assert_eq!(
        decode(&[6, 0, 0, 0, b'g', b'r', 0xc3, 0xbc, 0xc3, 0x9f, 0], "s"),
        Ok((text("gr\u{fc}\u{df}"), 11))
    );
    assert_eq!(decode(&[2, 0, 0, 0, b'h', b'i', 1], "s"), Err(DemarshalError::CorruptedMessage));
    assert_eq!(decode(&[2, 0, 0, 0, b'h', b'i'], "s"), Err(DemarshalError::MessageTooShort));
    assert_eq!(decode(&[2, 0, 0], "s"), Err(DemarshalError::MessageTooShort));
    assert_eq!(
        decode(&[0xff, 0xff, 0xff, 0xff, b'h', 0], "s"),
        Err(DemarshalError::MessageTooShort)
    );
    assert_eq!(decode(&[1, 0xff, 0], "g"), Err(DemarshalError::BadUTF8));
    assert_eq!(decode(&[], "g"), Err(DemarshalError::MessageTooShort));
}

#[test]
fn a_signature_has_to_be_one_complete_type() {
    assert_eq!(decode(&[1], ""), Err(DemarshalError::BadSignature));
    assert_eq!(decode(&[1, 2], "yy"), Err(DemarshalError::BadSignature));
    assert_eq!(decode(&[1], "z"), Err(DemarshalError::BadSignature));
    assert_eq!(decode(&[1], "h"), Err(DemarshalError::BadSignature));
    assert_eq!(decode(&[1], ")"), Err(DemarshalError::BadSignature));
    assert_eq!(decode(&[1], "{yy}"), Err(DemarshalError::BadSignature));
    assert_eq!(decode(&[1], "(y"), Err(DemarshalError::BadSignature));
    assert_eq!(decode(&[1], "()"), Err(DemarshalError::BadSignature));
    assert_eq!(decode(&[0, 0, 0, 0], "a"), Err(DemarshalError::BadSignature));
    assert_eq!(decode(&[0, 0, 0, 0], "a{vy}"), Err(DemarshalError::BadSignature));
    assert_eq!(decode(&[0, 0, 0, 0], "a{yy"), Err(DemarshalError::BadSignature));
    assert_eq!(decode(&[0, 0, 0, 0], "a{y}"), Err(DemarshalError::BadSignature));
    assert_eq!(decode(&[0, 0, 0, 0], "a()"), Err(DemarshalError::BadSignature));
    assert_eq!(type_end(b"a{sv}i", 0, MAX_DEPTH), Ok(5));
    assert_eq!(type_end(b"a{sv}i", 5, MAX_DEPTH), Ok(6));
    assert_eq!(type_end(b"(y(ai)v)x", 0, MAX_DEPTH), Ok(8));
    assert_eq!(type_end(b"aay", 0, 2), Ok(3));
    assert_eq!(type_end(b"aay", 0, 1), Err(DemarshalError::NestingTooDeep));
    assert_eq!(type_end(b"y", 1, 1), Err(DemarshalError::BadSignature));
}

#[test]
fn structs_hold_their_fields_in_order() {
    let buf = [7, 0, 0, 0, 1, 0, 0, 0, 2, 0, 0, 0, b'h', b'i', 0];
    assert_eq!(
        decode(&buf, "(yus)"),
        Ok((
            Value::Struct(Struct {
                objects: vec![basic(BasicValue::Byte(7)), basic(BasicValue::Uint32(1)), text("hi")],
                signature: Signature("(yus)".to_string()),
            }),
            15
        ))
    );
    let mut offset = 1;
    let buf = [0, 0, 0, 0, 0, 0, 0, 0, 5, 6];
    assert_eq!(demarshal(&buf, &mut offset, "(y(y))"), Err(DemarshalError::MessageTooShort));
    let buf = [0, 0, 0, 0, 0, 0, 0, 0, 5, 0, 0, 0, 0, 0, 0, 0, 6];
    let mut offset = 1;
    assert_eq!(
        demarshal(&buf, &mut offset, "(y(y))"),
        Ok(Value::Struct(Struct {
            objects: vec![
                basic(BasicValue::Byte(5)),
                Value::Struct(Struct {
                    objects: vec![basic(BasicValue::Byte(6))],
                    signature: Signature("(y)".to_string()),
                })
            ],
            signature: Signature("(y(y))".to_string()),
        }))
    );
    assert_eq!(offset, 17);
}

#[test]
fn arrays_fill_their_length_exactly() {
    assert_eq!(
        decode(&[3, 0, 0, 0, 1, 2, 3], "ay"),
        Ok((
            Value::Array(Array {
                objects: vec![
                    basic(BasicValue::Byte(1)),
                    basic(BasicValue::Byte(2)),
                    basic(BasicValue::Byte(3))
                ],
                signature: Signature("ay".to_string()),
            }),
            7
        ))
    );
    assert_eq!(
        decode(&[0, 0, 0, 0], "au"),
        Ok((Value::Array(Array { objects: vec![], signature: Signature("au".to_string()) }), 4))
    );
    // the length does not count the padding in front of the first element
    assert_eq!(
        decode(&[8, 0, 0, 0, 9, 9, 9, 9, 1, 0, 0, 0, 0, 0, 0, 0], "at"),
        Ok((
            Value::Array(Array {
                objects: vec![basic(BasicValue::Uint64(1))],
                signature: Signature("at".to_string()),
            }),
            16
        ))
    );
    assert_eq!(
        decode(&[0, 0, 0, 0, 9, 9, 9, 9], "at"),
        Ok((Value::Array(Array { objects: vec![], signature: Signature("at".to_string()) }), 8))
    );
    assert_eq!(decode(&[0, 0, 0, 0, 9], "at"), Err(DemarshalError::MessageTooShort));
    assert_eq!(decode(&[6, 0, 0, 0, 1, 0, 0, 0, 2, 0], "au"), Err(DemarshalError::MessageTooShort));
    assert_eq!(decode(&[4, 0, 0, 0, 1, 0, 0], "au"), Err(DemarshalError::MessageTooShort));
    assert_eq!(decode(&[1, 0, 0], "ay"), Err(DemarshalError::MessageTooShort));
    // an element may not reach beyond the array, even if the buffer goes on
    assert_eq!(
        decode(&[2, 0, 0, 0, 1, 0, 0, 0], "au"),
        Err(DemarshalError::MessageTooShort)
    );
    assert_eq!(
        decode(&[8, 0, 0, 0, 1, 0, 0, 0, 0, 2, 0, 0, 0, 0, 0, 0], "aay"),
        Err(DemarshalError::MessageTooShort)
    );
    assert_eq!(
        decode(&[10, 0, 0, 0, 1, 0, 0, 0, 7, 0, 0, 0, 1, 0, 0, 0, 8], "aay"),
        Err(DemarshalError::MessageTooShort)
    );
    assert_eq!(
        decode(&[13, 0, 0, 0, 1, 0, 0, 0, 7, 0, 0, 0, 1, 0, 0, 0, 8], "aay"),
        Ok((
            Value::Array(Array {
                objects: vec![
                    Value::Array(Array {
                        objects: vec![basic(BasicValue::Byte(7))],
                        signature: Signature("ay".to_string()),
                    }),
                    Value::Array(Array {
                        objects: vec![basic(BasicValue::Byte(8))],
                        signature: Signature("ay".to_string()),
                    }),
                ],
                signature: Signature("aay".to_string()),
            }),
            17
        ))
    );
}

#[test]
fn dictionaries_keep_their_entries_in_order() {
    let buf = [
        16, 0, 0, 0, 0, 0, 0, 0, // length, padding up to the first entry
        2, 0, 0, 0, 1, 0, 0, 0, // 2 => true
        1, 0, 0, 0, 0, 0, 0, 0, // 1 => false
    ];
    assert_eq!(
        decode(&buf, "a{ub}"),
        Ok((
            Value::Dictionary(Dictionary {
                entries: vec![
                    (BasicValue::Uint32(2), basic(BasicValue::Boolean(true))),
                    (BasicValue::Uint32(1), basic(BasicValue::Boolean(false))),
                ],
                signature: Signature("a{ub}".to_string()),
            }),
            24
        ))
    );
    assert_eq!(
        decode(&[0, 0, 0, 0, 0, 0, 0, 0], "a{sv}"),
        Ok((
            Value::Dictionary(Dictionary {
                entries: vec![],
                signature: Signature("a{sv}".to_string()),
            }),
            8
        ))
    );
    let buf = [10, 0, 0, 0, 0, 0, 0, 0, 1, 2, 0, 0, 0, 0, 0, 0, 3, 4];
    assert_eq!(
        decode(&buf, "a{yy}"),
        Ok((
            Value::Dictionary(Dictionary {
                entries: vec![
                    (BasicValue::Byte(1), basic(BasicValue::Byte(2))),
                    (BasicValue::Byte(3), basic(BasicValue::Byte(4))),
                ],
                signature: Signature("a{yy}".to_string()),
            }),
            18
        ))
    );
    let buf = [9, 0, 0, 0, 0, 0, 0, 0, 1, 2, 0, 0, 0, 0, 0, 0, 3];
    assert_eq!(decode(&buf, "a{yy}"), Err(DemarshalError::MessageTooShort));
}

#[test]
fn variants_carry_their_signature() {
    assert_eq!(
        decode(&[1, b'u', 0, 0, 5, 0, 0, 0], "v"),
        Ok((
            Value::Variant(Variant {
                object: Box::new(basic(BasicValue::Uint32(5))),
                signature: Signature("u".to_string()),
            }),
            8
        ))
    );
    assert_eq!(
        decode(&[4, b'(', b'y', b'y', b')', 0, 0, 0, 1, 2], "v"),
        Ok((
            Value::Variant(Variant {
                object: Box::new(Value::Struct(Struct {
                    objects: vec![basic(BasicValue::Byte(1)), basic(BasicValue::Byte(2))],
                    signature: Signature("(yy)".to_string()),
                })),
                signature: Signature("(yy)".to_string()),
            }),
            10
        ))
    );
    assert_eq!(decode(&[2, b'y', b'y', 0, 1, 2], "v"), Err(DemarshalError::BadSignature));
    assert_eq!(decode(&[0, 0, 1], "v"), Err(DemarshalError::BadSignature));
    assert_eq!(decode(&[1, b'y', 1, 1], "v"), Err(DemarshalError::CorruptedMessage));
    assert_eq!(decode(&[1, b'y', 0], "v"), Err(DemarshalError::MessageTooShort));
    assert_eq!(decode(&[], "v"), Err(DemarshalError::MessageTooShort));
    assert_eq!(decode(&[1, 0xc0, 0, 1], "v"), Err(DemarshalError::BadUTF8));
}

#[test]
fn nesting_has_a_limit() {
    let mut deep = Vec::new();
    for _ in 0..MAX_DEPTH - 1 {
        deep.extend_from_slice(&[1, b'v', 0]);
    }
    let mut fine = deep.clone();
    fine.extend_from_slice(&[1, b'y', 0, 9]);
    let mut value = decode(&fine, "v").unwrap().0;
    let mut levels = 0;
    while let Value::Variant(v) = value {
        value = *v.object;
        levels += 1;
    }
    assert_eq!(levels, MAX_DEPTH);
    assert_eq!(value, basic(BasicValue::Byte(9)));

    let mut too_deep = deep.clone();
    too_deep.extend_from_slice(&[1, b'v', 0, 1, b'y', 0, 9]);
    assert_eq!(decode(&too_deep, "v"), Err(DemarshalError::NestingTooDeep));

    let sig = "a".repeat(MAX_DEPTH) + "y";
    let mut buf = Vec::new();
    for _ in 0..MAX_DEPTH {
        buf.extend_from_slice(&[0, 0, 0, 0]);
    }
    assert!(matches!(decode(&buf[..4], &sig), Ok((Value::Array(_), 4))));
    let sig = "a".repeat(MAX_DEPTH + 1) + "y";
    assert_eq!(decode(&buf[..4], &sig), Err(DemarshalError::NestingTooDeep));
    assert_eq!(parse_value(&[0], 0, b"(y)", 0, 0), Err(DemarshalError::NestingTooDeep));
    assert!(parse_value(&[0], 0, b"(y)", 0, 1).is_ok());
}
