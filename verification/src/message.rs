//! Messages: the decoded form of an incoming frame, and the byte buffer of an
//! outgoing one.

use std::collections::HashMap;
use vstd::prelude::*;
use vstd::string::StringSliceAdditionalSpecFns;
use crate::demarshal::{le_u32, read_u32};
use crate::marshal::{
    encode_field, lemma_u32_round_trip, pad_to, padded, put_u32_at, with_field, with_u32_at,
};
use crate::types::{models, Value, ValueModel};

verus! {

/// The kind of a message, as the byte that stands for it on the wire.
#[derive(Clone, Copy, PartialEq, Eq, Debug, Structural)]
pub struct MessageType(pub u8);

/// No message has this type.
pub const MESSAGE_TYPE_INVALID: u8 = 0;

/// The type of a method call.
pub const MESSAGE_TYPE_METHOD_CALL: u8 = 1;

/// The type of the reply to a method call.
pub const MESSAGE_TYPE_METHOD_RETURN: u8 = 2;

/// The type of the reply that reports an error.
pub const MESSAGE_TYPE_ERROR: u8 = 3;

/// The type of a signal.
pub const MESSAGE_TYPE_SIGNAL: u8 = 4;

/// The flag of a call whose sender waits for no reply.
pub const FLAGS_NO_REPLY_EXPECTED: u8 = 1;

/// The endianness byte of a little-endian message.
pub const ENDIAN_LITTLE: u8 = 108;

/// The endianness byte of a big-endian message.
pub const ENDIAN_BIG: u8 = 66;

/// The version of the protocol.
pub const PROTOCOL_VERSION: u8 = 1;

/// The header fields that the protocol defines.
#[derive(Clone, Copy, PartialEq, Eq, Debug, Structural)]
pub enum HeaderFieldName {
    Invalid,
    Path,
    Interface,
    Member,
    ErrorName,
    ReplySerial,
    Destination,
    Sender,
    Signature,
}

impl HeaderFieldName {
    /// The code of the field on the wire.
    pub open spec fn spec_code(self) -> u8 {
        match self {
            HeaderFieldName::Invalid => 0,
            HeaderFieldName::Path => 1,
            HeaderFieldName::Interface => 2,
            HeaderFieldName::Member => 3,
            HeaderFieldName::ErrorName => 4,
            HeaderFieldName::ReplySerial => 5,
            HeaderFieldName::Destination => 6,
            HeaderFieldName::Sender => 7,
            HeaderFieldName::Signature => 8,
        }
    }

    /// The code of the field on the wire.
    #[verifier::when_used_as_spec(spec_code)]
    pub fn code(self) -> (c: u8)
        ensures
            c == self.spec_code(),
    {
        match self {
            HeaderFieldName::Invalid => 0,
            HeaderFieldName::Path => 1,
            HeaderFieldName::Interface => 2,
            HeaderFieldName::Member => 3,
            HeaderFieldName::ErrorName => 4,
            HeaderFieldName::ReplySerial => 5,
            HeaderFieldName::Destination => 6,
            HeaderFieldName::Sender => 7,
            HeaderFieldName::Signature => 8,
        }
    }
}

/// One decoded frame.
#[derive(PartialEq, Eq, Debug)]
pub struct Message {
    pub big_endian: bool,
    pub message_type: MessageType,
    pub flags: u8,
    pub version: u8,
    pub serial: u32,
    /// The header fields by their code.  A code occurs once; of two fields
    /// with one code in a frame the later one stays.
    pub headers: HashMap<u8, Value>,
    pub body: Vec<Value>,
}

/// What a `Message` stands for.
pub struct MessageModel {
    pub big_endian: bool,
    pub message_type: u8,
    pub flags: u8,
    pub version: u8,
    pub serial: u32,
    pub headers: Map<u8, ValueModel>,
    pub body: Seq<ValueModel>,
}

/// What a map of header fields stands for.
pub open spec fn header_models(headers: Map<u8, Value>) -> Map<u8, ValueModel> {
    Map::new(|code: u8| headers.contains_key(code), |code: u8| headers[code].model())
}

impl View for Message {
    type V = MessageModel;

    open spec fn view(&self) -> MessageModel {
        MessageModel {
            big_endian: self.big_endian,
            message_type: self.message_type.0,
            flags: self.flags,
            version: self.version,
            serial: self.serial,
            headers: header_models(self.headers@),
            body: models(self.body@),
        }
    }
}

/// What a sequence of messages stands for, message by message.
pub open spec fn message_models(messages: Seq<Message>) -> Seq<MessageModel> {
    Seq::new(messages.len(), |i: int| messages[i]@)
}

impl Default for Message {
    /// A little-endian message of the invalid type with no fields and no body.
    fn default() -> (msg: Message)
        ensures
            msg@ == (MessageModel {
                big_endian: false,
                message_type: MESSAGE_TYPE_INVALID,
                flags: 0,
                version: 0,
                serial: 0,
                headers: Map::empty(),
                body: Seq::empty(),
            }),
    {
        let msg = Message {
            big_endian: false,
            message_type: MessageType(MESSAGE_TYPE_INVALID),
            flags: 0,
            version: 0,
            serial: 0,
            headers: HashMap::new(),
            body: Vec::new(),
        };
        assert(msg@.headers =~= Map::empty());
        assert(msg@.body =~= Seq::empty());
        msg
    }
}

/// The bytes of an outgoing message that has not been sent yet.
///
/// Until it is sent the length field holds the length of the header as it was
/// when the message was built, and the serial field holds nothing of meaning.
#[derive(Clone, PartialEq, Eq, Debug)]
pub struct MessageBuf(pub Vec<u8>);

/// The length field of the frame that starts `msg`.
pub fn get_length(msg: &Vec<u8>) -> (len: u32)
    requires
        msg.len() >= 8,
    ensures
        len == le_u32(msg@, 4),
{
    read_u32(msg.as_slice(), 4)
}

/// Overwrites the length and serial fields of the frame that starts `msg`
/// with the eight bytes of `buf`.
pub fn set_length(msg: &mut Vec<u8>, buf: &Vec<u8>)
    requires
        old(msg).len() >= 12,
        buf.len() == 8,
    ensures
        final(msg)@ == old(msg)@.take(4) + buf@ + old(msg)@.skip(12),
{
    let mut k: usize = 0;
    while k < 8
        invariant
            k <= 8,
            buf.len() == 8,
            msg.len() == old(msg).len(),
            old(msg).len() >= 12,
            msg@ == old(msg)@.take(4) + buf@.take(k as int) + old(msg)@.skip(4 + k),
        decreases 8 - k,
    {
        msg.set(4 + k, buf[k]);
        k = k + 1;
    }
}

/// The most bytes that the four texts of a method call may have together.
/// The header takes at most 119 bytes more than they do, so that with this
/// many its length still fits the 32 bits of the length field.
pub const MAX_CALL_TEXT: usize = 0xffff_ff88;

/// The first sixteen bytes of a little-endian method call before its lengths
/// are known: the endianness, the type, no flags, the version, and zeros
/// where the two lengths and the serial go.
pub open spec fn call_prefix() -> Seq<u8> {
    seq![
        ENDIAN_LITTLE,
        MESSAGE_TYPE_METHOD_CALL,
        0u8,
        PROTOCOL_VERSION,
        0u8,
        0u8,
        0u8,
        0u8,
        0u8,
        0u8,
        0u8,
        0u8,
        0u8,
        0u8,
        0u8,
        0u8,
    ]
}

/// The prefix of a method call followed by its four header fields:
/// destination, path, interface and member.
pub open spec fn call_fields(
    dest: Seq<u8>,
    path: Seq<u8>,
    iface: Seq<u8>,
    method: Seq<u8>,
) -> Seq<u8> {
    with_field(
        with_field(with_field(with_field(call_prefix(), 6, 115, dest), 1, 111, path), 2, 115, iface),
        3,
        115,
        method,
    )
}

/// The buffer of a method call without arguments, as its builder leaves it:
/// the header padded to a multiple of eight, its own length in the length
/// field, and the length of the fields in the field for it.
pub open spec fn spec_method_call(
    dest: Seq<u8>,
    path: Seq<u8>,
    iface: Seq<u8>,
    method: Seq<u8>,
) -> Seq<u8> {
    let fields = call_fields(dest, path, iface, method);
    let header = padded(fields, 8);
    with_u32_at(with_u32_at(header, 4, header.len() as int), 12, fields.len() - 16)
}

/// Builds the prefix of a method call and its four header fields.
fn build_call_fields(dest: &[u8], path: &[u8], iface: &[u8], method: &[u8]) -> (buf: Vec<u8>)
    requires
        dest@.len() + path@.len() + iface@.len() + method@.len() <= MAX_CALL_TEXT,
    ensures
        buf@ == call_fields(dest@, path@, iface@, method@),
        16 <= buf@.len() <= MAX_CALL_TEXT + 112,
        buf@[1] == MESSAGE_TYPE_METHOD_CALL,
        buf@[2] == 0,
{
    let mut buf: Vec<u8> = Vec::new();
    buf.push(ENDIAN_LITTLE);
    buf.push(MESSAGE_TYPE_METHOD_CALL);
    buf.push(0u8);
    buf.push(PROTOCOL_VERSION);
    let mut k: usize = 0;
    while k < 12
        invariant
            k <= 12,
            buf@ == call_prefix().take(4 + k),
        decreases 12 - k,
    {
        buf.push(0u8);
        assert(buf@ =~= call_prefix().take(4 + k + 1));
        k = k + 1;
    }
    assert(buf@ =~= call_prefix());
    encode_field(6, 115, dest, &mut buf);
    let ghost f1 = buf@;
    encode_field(1, 111, path, &mut buf);
    let ghost f2 = buf@;
    encode_field(2, 115, iface, &mut buf);
    let ghost f3 = buf@;
    encode_field(3, 115, method, &mut buf);
    proof {
        assert(f1[1] == f1.take(16)[1] && f1[2] == f1.take(16)[2]);
        assert(f2[1] == f2.take(f1.len() as int)[1] && f2[2] == f2.take(f1.len() as int)[2]);
        assert(f3[1] == f3.take(f2.len() as int)[1] && f3[2] == f3.take(f2.len() as int)[2]);
        assert(buf@[1] == buf@.take(f3.len() as int)[1] && buf@[2] == buf@.take(
            f3.len() as int,
        )[2]);
    }
    buf
}

/// Builds a call of `method` of the interface `iface` on the object `path`
/// of the peer `dest`, without arguments.  The texts have to be short enough
/// for the length of the header to fit its 32-bit field.
pub fn create_method_call(dest: &str, path: &str, iface: &str, method: &str) -> (mbuf: MessageBuf)
    requires
        dest.spec_bytes().len() + path.spec_bytes().len() + iface.spec_bytes().len()
            + method.spec_bytes().len() <= MAX_CALL_TEXT,
    ensures
        mbuf.0@ == spec_method_call(
            dest.spec_bytes(),
            path.spec_bytes(),
            iface.spec_bytes(),
            method.spec_bytes(),
        ),
        16 <= mbuf.0@.len() <= u32::MAX,
        mbuf.0@.len() % 8 == 0,
        le_u32(mbuf.0@, 4) == mbuf.0@.len(),
        mbuf.0@[1] == MESSAGE_TYPE_METHOD_CALL,
        mbuf.0@[2] == 0,
{
    let mut buf = build_call_fields(
        dest.as_bytes(),
        path.as_bytes(),
        iface.as_bytes(),
        method.as_bytes(),
    );
    let fields_len: usize = buf.len();
    pad_to(&mut buf, 8);
    let total: usize = buf.len();
    put_u32_at(&mut buf, 4, total as u32);
    let ghost patched = buf@;
    put_u32_at(&mut buf, 12, (fields_len - 16) as u32);
    proof {
        assert(patched.subrange(4, 8) =~= crate::marshal::le_bytes_u32(total as int));
        assert(buf@.subrange(4, 8) =~= patched.subrange(4, 8));
        lemma_u32_round_trip(buf@, 4, total as int);
    }
    MessageBuf(buf)
}

} // verus!
