use dbus_bytestream::decoder::decode_u32;
use dbus_bytestream::types::{BasicValue, Path, Signature};
use dbus_serialize::decoder::DBusDecoder;
use dbus_serialize::types as wire;

fn as_wire(value: &BasicValue) -> wire::Value {
    wire::Value::BasicValue(match value {
        BasicValue::Byte(x) => wire::BasicValue::Byte(*x),
        BasicValue::Boolean(x) => wire::BasicValue::Boolean(*x),
        BasicValue::Int16(x) => wire::BasicValue::Int16(*x),
        BasicValue::Uint16(x) => wire::BasicValue::Uint16(*x),
        BasicValue::Int32(x) => wire::BasicValue::Int32(*x),
        BasicValue::Uint32(x) => wire::BasicValue::Uint32(*x),
        BasicValue::Int64(x) => wire::BasicValue::Int64(*x),
        BasicValue::Uint64(x) => wire::BasicValue::Uint64(*x),
        BasicValue::String(x) => wire::BasicValue::String(x.clone()),
        BasicValue::ObjectPath(x) => wire::BasicValue::ObjectPath(wire::Path(x.0.clone())),
        BasicValue::Signature(x) => wire::BasicValue::Signature(wire::Signature(x.0.clone())),
    })
}

#[test]
fn unsigned_values_that_fit_decode_to_u32() {
    assert_eq!(decode_u32(&BasicValue::Byte(200)), Some(200));
    assert_eq!(decode_u32(&BasicValue::Uint16(40000)), Some(40000));
    assert_eq!(decode_u32(&BasicValue::Uint32(4000000000)), Some(4000000000));
    assert_eq!(decode_u32(&BasicValue::Uint64(4294967295)), Some(4294967295));
    assert_eq!(decode_u32(&BasicValue::Uint64(4294967296)), None);
    assert_eq!(decode_u32(&BasicValue::Uint64(u64::MAX)), None);
    assert_eq!(decode_u32(&BasicValue::Int32(1)), None);
    assert_eq!(decode_u32(&BasicValue::Int16(1)), None);
    assert_eq!(decode_u32(&BasicValue::Int64(1)), None);
    assert_eq!(decode_u32(&BasicValue::Boolean(true)), None);
    assert_eq!(decode_u32(&BasicValue::String("1".to_string())), None);
}

#[test]
fn decoding_agrees_with_the_decoder_of_dbus_serialize() {
    let values = [
        BasicValue::Byte(0),
        BasicValue::Byte(255),
        BasicValue::Boolean(false),
        BasicValue::Boolean(true),
        BasicValue::Int16(-1),
        BasicValue::Int16(7),
        BasicValue::Uint16(0),
        BasicValue::Uint16(65535),
        BasicValue::Int32(-1),
        BasicValue::Int32(i32::MAX),
        BasicValue::Uint32(0),
        BasicValue::Uint32(u32::MAX),
        BasicValue::Int64(5),
        BasicValue::Int64(i64::MIN),
        BasicValue::Uint64(0),
        BasicValue::Uint64(4294967295),
        BasicValue::Uint64(4294967296),
        BasicValue::Uint64(u64::MAX),
        BasicValue::String("12".to_string()),
        BasicValue::ObjectPath(Path("/1".to_string())),
        BasicValue::Signature(Signature("u".to_string())),
    ];
    for value in values.iter() {
        let theirs: Option<u32> = DBusDecoder::decode::<u32>(as_wire(value)).ok();
        assert_eq!(decode_u32(value), theirs, "{:?}", value);
    }
}
