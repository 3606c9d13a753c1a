use dbus_bytestream::marshal::{encode_field, encode_string, encode_u32, pad_to, put_u32_at};
use dbus_bytestream::message::{
    create_method_call, get_length, set_length, HeaderFieldName, MessageBuf,
};

#[test]
fn a_method_call_is_laid_out_byte_by_byte() {
    let msg = create_method_call("a.b", "/c", "d.e", "F");
    let expect: Vec<u8> = vec![
        b'l', 1, 0, 1, // little-endian, method call, no flags, version 1
        80, 0, 0, 0, // the length of the header, for now
        0, 0, 0, 0, // the serial, for now
        58, 0, 0, 0, // the length of the fields
        6, 1, b's', 0, 3, 0, 0, 0, b'a', b'.', b'b', 0, 0, 0, 0, 0, // destination
        1, 1, b'o', 0, 2, 0, 0, 0, b'/', b'c', 0, 0, 0, 0, 0, 0, // path
        2, 1, b's', 0, 3, 0, 0, 0, b'd', b'.', b'e', 0, 0, 0, 0, 0, // interface
        3, 1, b's', 0, 1, 0, 0, 0, b'F', 0, // member
        0, 0, 0, 0, 0, 0, // padding
    ];
    assert_eq!(msg, MessageBuf(expect));
    assert_eq!(get_length(&msg.0), 80);
}

#[test]
fn the_length_and_the_serial_are_set_in_place() {
    let mut msg = create_method_call("a.b", "/c", "d.e", "F").0;
    let before = msg.clone();
    set_length(&mut msg, &vec![1, 2, 3, 4, 5, 6, 7, 8]);
    assert_eq!(&msg[..4], &before[..4]);
    assert_eq!(&msg[4..12], &[1, 2, 3, 4, 5, 6, 7, 8]);
    assert_eq!(&msg[12..], &before[12..]);
    assert_eq!(get_length(&msg), 0x04030201);
    let mut small = vec![0u8; 12];
    set_length(&mut small, &vec![9; 8]);
    assert_eq!(small, vec![0, 0, 0, 0, 9, 9, 9, 9, 9, 9, 9, 9]);
    assert_eq!(get_length(&vec![0, 0, 0, 0, 0xff, 0xff, 0xff, 0xff]), u32::MAX);
}

#[test]
fn numbers_and_texts_are_aligned_as_they_are_written() {
    let mut buf = vec![7];
    encode_u32(0x01020304, &mut buf);
    assert_eq!(buf, vec![7, 0, 0, 0, 4, 3, 2, 1]);
    encode_u32(u32::MAX, &mut buf);
    assert_eq!(buf, vec![7, 0, 0, 0, 4, 3, 2, 1, 255, 255, 255, 255]);
    encode_string(b"hi", &mut buf);
    assert_eq!(&buf[12..], &[2, 0, 0, 0, b'h', b'i', 0]);
    encode_string(b"", &mut buf);
    assert_eq!(&buf[19..], &[0, 0, 0, 0, 0, 0]);
    pad_to(&mut buf, 8);
    assert_eq!(buf.len(), 32);
    pad_to(&mut buf, 8);
    assert_eq!(buf.len(), 32);
    encode_field(5, b'o', b"/", &mut buf);
    assert_eq!(&buf[32..], &[5, 1, b'o', 0, 1, 0, 0, 0, b'/', 0]);
    put_u32_at(&mut buf, 1, 0x0a0b0c0d);
    assert_eq!(&buf[..8], &[7, 0x0d, 0x0c, 0x0b, 0x0a, 3, 2, 1]);
}

#[test]
fn header_fields_have_their_codes() {
    assert_eq!(HeaderFieldName::Invalid.code(), 0);
    assert_eq!(HeaderFieldName::Path.code(), 1);
    assert_eq!(HeaderFieldName::Interface.code(), 2);
    assert_eq!(HeaderFieldName::Member.code(), 3);
    assert_eq!(HeaderFieldName::ErrorName.code(), 4);
    assert_eq!(HeaderFieldName::ReplySerial.code(), 5);
    assert_eq!(HeaderFieldName::Destination.code(), 6);
    assert_eq!(HeaderFieldName::Sender.code(), 7);
    assert_eq!(HeaderFieldName::Signature.code(), 8);
}
