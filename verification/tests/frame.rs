use dbus_bytestream::connection::{read_exactly, read_line, Error};
use dbus_bytestream::demarshal::DemarshalError;
use dbus_bytestream::frame::{bytes_missing, read_frame};
use dbus_bytestream::message::{Message, MessageType, MESSAGE_TYPE_INVALID};
use dbus_bytestream::socket::{Socket, SocketKind};
use dbus_bytestream::types::{BasicValue, Signature, Value, Variant};

fn le32(x: u32) -> [u8; 4] {
    x.to_le_bytes()
}

fn align(v: &mut Vec<u8>, a: usize) {
    while v.len() % a != 0 {
        v.push(0);
    }
}

/// A frame with one field of code 9 whose value is a variant holding an
/// array of `n` bytes, so that the fields take 12 + n bytes.
fn frame_with_fields_of(n: u32, body: &[u8], signature: Option<&str>) -> Vec<u8> {
    let mut v = vec![b'l', 2, 0, 1];
    v.extend_from_slice(&le32(body.len() as u32));
    v.extend_from_slice(&le32(77));
    v.extend_from_slice(&le32(0));
    if let Some(sig) = signature {
        v.extend_from_slice(&[8, 1, b'g', 0]);
        v.push(sig.len() as u8);
        v.extend_from_slice(sig.as_bytes());
        v.push(0);
        align(&mut v, 8);
    }
    v.extend_from_slice(&[9, 2, b'a', b'y', 0, 0, 0, 0]);
    v.extend_from_slice(&le32(n));
    for i in 0..n {
        v.push(i as u8);
    }
    let fields_len = (v.len() - 16) as u32;
    v[12..16].copy_from_slice(&le32(fields_len));
    align(&mut v, 8);
    v.extend_from_slice(body);
    v
}

#[test]
fn padding_is_read_up_to_the_next_multiple_of_eight() {
    for n in 0..17u32 {
        let frame = frame_with_fields_of(n, &[], None);
        assert_eq!(frame.len() % 8, 0);
        assert_eq!(&frame[12..16], &le32(12 + n));
        let pad = frame.len() - (16 + 12 + n as usize);
        assert_eq!(pad, (8 - (28 + n as usize) % 8) % 8);
        let mut sock = Socket::uds();
        sock.receive(&frame);
        sock.receive(b"next");
        let msg = read_frame(&mut sock).unwrap();
        assert_eq!(sock.peek(), b"next");
        assert_eq!(msg.serial, 77);
        assert_eq!(msg.message_type, MessageType(2));
        match &msg.headers[&9] {
            Value::Variant(v) => match &*v.object {
                Value::Array(a) => assert_eq!(a.objects.len(), n as usize),
                other => panic!("{:?}", other),
            },
            other => panic!("{:?}", other),
        }
    }
}

#[test]
fn the_body_starts_behind_the_padding() {
    for n in 0..9u32 {
        let frame = frame_with_fields_of(n, &[42, 0, 0, 0], Some("u"));
        let mut sock = Socket::uds();
        sock.receive(&frame);
        sock.receive(b"next");
        let msg = read_frame(&mut sock).unwrap();
        assert_eq!(msg.body, vec![Value::BasicValue(BasicValue::Uint32(42))]);
        assert_eq!(sock.peek(), b"next");
        assert_eq!(
            msg.headers[&8],
            Value::Variant(Variant {
                object: Box::new(Value::BasicValue(BasicValue::Signature(Signature(
                    "u".to_string()
                )))),
                signature: Signature("g".to_string()),
            })
        );
    }
}

#[test]
fn a_frame_cut_short_anywhere_is_a_disconnect() {
    let frame = frame_with_fields_of(3, &[42, 0, 0, 0, 1, 2], Some("uq"));
    for cut in 0..frame.len() {
        let mut sock = Socket::uds();
        sock.receive(&frame[..cut]);
        assert_eq!(read_frame(&mut sock), Err(Error::Disconnected), "cut at {}", cut);
        assert_eq!(sock.peek(), b"", "cut at {}", cut);
        assert!(bytes_missing(&frame[..cut]) > 0);
        if cut >= 16 {
            assert_eq!(bytes_missing(&frame[..cut]), (frame.len() - cut) as u64);
        } else {
            assert_eq!(bytes_missing(&frame[..cut]), (16 - cut) as u64);
        }

        let mut sock = Socket::tcp();
        sock.receive(&frame[..cut]);
        sock.fail(std::io::ErrorKind::TimedOut);
        assert_eq!(read_frame(&mut sock), Err(Error::IOError(std::io::ErrorKind::TimedOut)));
    }
    let mut sock = Socket::uds();
    sock.receive(&frame);
    assert_eq!(bytes_missing(&frame), 0);
    let msg = read_frame(&mut sock).unwrap();
    assert_eq!(
        msg.body,
        vec![
            Value::BasicValue(BasicValue::Uint32(42)),
            Value::BasicValue(BasicValue::Uint16(0x0201))
        ]
    );
}

#[test]
fn the_header_is_read_field_by_field() {
    let mut frame = vec![b'B', 3, 5, 9];
    frame.extend_from_slice(&le32(0));
    frame.extend_from_slice(&le32(0x01020304));
    frame.extend_from_slice(&le32(0));
    let mut sock = Socket::uds();
    sock.receive(&frame);
    let msg = read_frame(&mut sock).unwrap();
    assert!(msg.big_endian);
    assert_eq!(msg.message_type, MessageType(3));
    assert_eq!(msg.flags, 5);
    assert_eq!(msg.version, 9);
    assert_eq!(msg.serial, 0x01020304);
    assert_eq!(msg.headers.len(), 0);
    assert_eq!(msg.body, vec![]);

    let empty = Message::default();
    assert!(!empty.big_endian);
    assert_eq!(empty.message_type, MessageType(MESSAGE_TYPE_INVALID));
    assert_eq!(empty.headers.len(), 0);
}

#[test]
fn of_two_fields_with_one_code_the_later_stays() {
    let mut v = vec![b'l', 2, 0, 1, 0, 0, 0, 0, 1, 0, 0, 0, 0, 0, 0, 0];
    v.extend_from_slice(&[5, 1, b'y', 0, 1]);
    align(&mut v, 8);
    v.extend_from_slice(&[6, 1, b'y', 0, 2]);
    align(&mut v, 8);
    v.extend_from_slice(&[5, 1, b'y', 0, 3]);
    let fields_len = (v.len() - 16) as u32;
    v[12..16].copy_from_slice(&le32(fields_len));
    align(&mut v, 8);
    let mut sock = Socket::uds();
    sock.receive(&v);
    let msg = read_frame(&mut sock).unwrap();
    assert_eq!(msg.headers.len(), 2);
    let byte = |code: u8| match &msg.headers[&code] {
        Value::Variant(v) => match &*v.object {
            Value::BasicValue(BasicValue::Byte(b)) => *b,
            other => panic!("{:?}", other),
        },
        other => panic!("{:?}", other),
    };
    assert_eq!(byte(5), 3);
    assert_eq!(byte(6), 2);
}

#[test]
fn a_body_needs_a_signature() {
    let frame = frame_with_fields_of(2, &[1, 2, 3, 4], None);
    let mut sock = Socket::uds();
    sock.receive(&frame);
    assert_eq!(
        read_frame(&mut sock),
        Err(Error::DemarshalError(DemarshalError::BadSignature))
    );
    assert_eq!(sock.peek(), &[1, 2, 3, 4]);

    // a signature field that holds a string is no signature
    let mut v = vec![b'l', 2, 0, 1, 4, 0, 0, 0, 1, 0, 0, 0, 0, 0, 0, 0];
    v.extend_from_slice(&[8, 1, b's', 0, 1, 0, 0, 0, b'u', 0]);
    let fields_len = (v.len() - 16) as u32;
    v[12..16].copy_from_slice(&le32(fields_len));
    align(&mut v, 8);
    v.extend_from_slice(&[1, 2, 3, 4]);
    let mut sock = Socket::uds();
    sock.receive(&v);
    assert_eq!(
        read_frame(&mut sock),
        Err(Error::DemarshalError(DemarshalError::BadSignature))
    );

    // an empty signature makes no body
    let frame = frame_with_fields_of(2, &[1, 2, 3, 4], Some(""));
    let mut sock = Socket::uds();
    sock.receive(&frame);
    assert_eq!(
        read_frame(&mut sock),
        Err(Error::DemarshalError(DemarshalError::BadSignature))
    );
    assert_eq!(sock.peek(), b"");

    // nor does one whose parentheses do not match
    let frame = frame_with_fields_of(2, &[1, 2, 3, 4], Some("y)(y"));
    let mut sock = Socket::uds();
    sock.receive(&frame);
    assert_eq!(
        read_frame(&mut sock),
        Err(Error::DemarshalError(DemarshalError::BadSignature))
    );
}

#[test]
fn bytes_behind_the_values_of_a_body_are_passed_over() {
    let frame = frame_with_fields_of(0, &[7, 8, 9], Some("y"));
    let mut sock = Socket::uds();
    sock.receive(&frame);
    sock.receive(b"next");
    let msg = read_frame(&mut sock).unwrap();
    assert_eq!(msg.body, vec![Value::BasicValue(BasicValue::Byte(7))]);
    assert_eq!(sock.peek(), b"next");
}

#[test]
fn header_fields_that_do_not_decode_stop_the_frame() {
    let mut v = vec![b'l', 2, 0, 1, 0, 0, 0, 0, 1, 0, 0, 0, 0, 0, 0, 0];
    v.extend_from_slice(&[5, 1, b'b', 0, 7, 0, 0, 0]);
    let fields_len = (v.len() - 16) as u32;
    v[12..16].copy_from_slice(&le32(fields_len));
    let mut sock = Socket::uds();
    sock.receive(&v);
    sock.receive(b"rest");
    assert_eq!(
        read_frame(&mut sock),
        Err(Error::DemarshalError(DemarshalError::CorruptedMessage))
    );
    assert_eq!(sock.peek(), b"rest");

    // a field that ends behind the array
    let mut v = vec![b'l', 2, 0, 1, 0, 0, 0, 0, 1, 0, 0, 0, 6, 0, 0, 0];
    v.extend_from_slice(&[5, 1, b'u', 0, 7, 0, 0, 0]);
    let mut sock = Socket::uds();
    sock.receive(&v);
    assert_eq!(
        read_frame(&mut sock),
        Err(Error::DemarshalError(DemarshalError::MessageTooShort))
    );
    assert_eq!(sock.peek(), &[0, 0]);
}

#[test]
fn read_exactly_gives_all_or_nothing() {
    let mut sock = Socket::uds();
    sock.receive(b"hello world");
    let mut buf = vec![1, 2, 3];
    assert_eq!(read_exactly(&mut sock, &mut buf, 5), Ok(()));
    assert_eq!(buf, b"hello");
    assert_eq!(sock.peek(), b" world");
    assert_eq!(read_exactly(&mut sock, &mut buf, 0), Ok(()));
    assert_eq!(buf, b"");
    assert_eq!(read_exactly(&mut sock, &mut buf, 7), Err(Error::Disconnected));
    assert_eq!(buf, b" world");
    assert_eq!(sock.peek(), b"");
    assert_eq!(read_exactly(&mut sock, &mut buf, 1), Err(Error::Disconnected));
    assert_eq!(read_exactly(&mut sock, &mut buf, 0), Ok(()));
    sock.receive(b"abc");
    sock.fail(std::io::ErrorKind::UnexpectedEof);
    assert_eq!(read_exactly(&mut sock, &mut buf, 2), Ok(()));
    assert_eq!(buf, b"ab");
    assert_eq!(
        read_exactly(&mut sock, &mut buf, 2),
        Err(Error::IOError(std::io::ErrorKind::UnexpectedEof))
    );
    assert_eq!(sock.get_fault(), Some(std::io::ErrorKind::UnexpectedEof));
}

#[test]
fn read_line_stops_behind_the_first_line() {
    let mut sock = Socket::tcp();
    sock.receive(b"OK 12\r\nDATA\r\n\r\nx");
    assert_eq!(read_line(&mut sock), Ok("OK 12\r\n".to_string()));
    assert_eq!(read_line(&mut sock), Ok("DATA\r\n".to_string()));
    assert_eq!(read_line(&mut sock), Ok("\r\n".to_string()));
    assert_eq!(read_line(&mut sock), Err(Error::Disconnected));
    assert_eq!(sock.peek(), b"");

    let mut sock = Socket::tcp();
    sock.receive(b"\na\rb\n\r\r\n!");
    assert_eq!(read_line(&mut sock), Ok("\na\rb\n\r\r\n".to_string()));
    assert_eq!(sock.peek(), b"!");

    let mut sock = Socket::tcp();
    sock.receive(&[0xe9, 0x80, 13, 10]);
    assert_eq!(read_line(&mut sock), Ok("\u{e9}\u{80}\r\n".to_string()));

    let mut sock = Socket::tcp();
    sock.receive(b"no end\r");
    sock.fail(std::io::ErrorKind::ConnectionReset);
    assert_eq!(read_line(&mut sock), Err(Error::IOError(std::io::ErrorKind::ConnectionReset)));
    assert_eq!(sock.peek(), b"");
    assert_eq!(read_line(&mut sock), Err(Error::IOError(std::io::ErrorKind::ConnectionReset)));

    // a whole line is handed out even from a stream that has failed since
    let mut sock = Socket::tcp();
    sock.receive(b"OK\r\nhalf");
    sock.fail(std::io::ErrorKind::TimedOut);
    assert_eq!(read_line(&mut sock), Ok("OK\r\n".to_string()));
    assert_eq!(read_line(&mut sock), Err(Error::IOError(std::io::ErrorKind::TimedOut)));
}

#[test]
fn a_socket_keeps_what_goes_in_and_out_apart() {
    let mut sock = Socket::new(SocketKind::Tcp);
    assert_eq!(sock.get_kind(), SocketKind::Tcp);
    assert_eq!(Socket::uds().get_kind(), SocketKind::Uds);
    assert_eq!(sock.get_fault(), None);
    assert_eq!(sock.write_all(b"out"), Ok(()));
    assert_eq!(sock.write_all(b"going"), Ok(()));
    sock.receive(b"in");
    assert_eq!(sock.read_byte(), Ok(Some(b'i')));
    sock.receive(b"coming");
    assert_eq!(sock.peek(), b"ncoming");
    assert_eq!(sock.take_written(), b"outgoing");
    assert_eq!(sock.take_written(), b"");
    let mut buf = vec![9];
    assert_eq!(sock.read_upto(&mut buf, 3), Ok(3));
    assert_eq!(buf, &[9, b'n', b'c', b'o']);
    assert_eq!(sock.read_upto(&mut buf, 10), Ok(4));
    assert_eq!(buf, &[9, b'n', b'c', b'o', b'm', b'i', b'n', b'g']);
    assert_eq!(sock.read_byte(), Ok(None));
    sock.fail(std::io::ErrorKind::BrokenPipe);
    assert_eq!(sock.read_byte(), Err(std::io::ErrorKind::BrokenPipe));
    assert_eq!(sock.read_upto(&mut buf, 1), Err(std::io::ErrorKind::BrokenPipe));
    assert_eq!(sock.read_upto(&mut buf, 0), Ok(0));
    assert_eq!(sock.write_all(b"x"), Err(std::io::ErrorKind::BrokenPipe));
    assert_eq!(sock.take_written(), b"");
    sock.receive(b"z");
    assert_eq!(sock.read_byte(), Ok(Some(b'z')));
}
