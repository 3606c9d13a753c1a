//! Framing: cutting one message out of the incoming bytes.
//!
//! A frame is the fixed header of twelve bytes, the length of the array of
//! header fields, that array, padding up to a multiple of eight, and the
//! body.  `spec_frame` says what a run of pending bytes frames to;
//! `read_frame` computes exactly that from a socket.

use std::collections::HashMap;
use vstd::prelude::*;
use vstd::utf8::encode_utf8;
use crate::connection::{read_exactly, short_read_error, Error};
use crate::demarshal::{
    align_up, le_u32, parse_value, read_u32, spec_value, DemarshalError, MAX_DEPTH,
};
use crate::message::{
    header_models, HeaderFieldName, Message, MessageModel, MessageType, ENDIAN_BIG,
};
use crate::socket::Socket;
use crate::types::{
    lemma_container_models, models, BasicModel, BasicValue, Value, ValueModel,
};

verus! {

broadcast use vstd::std_specs::hash::group_hash_axioms;

/// The length of the part of a frame that comes before the header fields.
pub const PREFIX_LENGTH: usize = 16;

/// The signature of the array of header fields: `a(yv)`.
pub open spec fn fields_signature() -> Seq<u8> {
    seq![97u8, 40u8, 121u8, 118u8, 41u8]
}

/// The code and the value of a decoded header field.
pub open spec fn field_of(field: ValueModel) -> Option<(u8, ValueModel)> {
    match field {
        ValueModel::Struct(objects, _) => if objects.len() == 2 {
            match objects[0] {
                ValueModel::Basic(BasicModel::Byte(code)) => Some((code, objects[1])),
                _ => None,
            }
        } else {
            None
        },
        _ => None,
    }
}

/// The header fields by their code, where a later field replaces an earlier
/// one with the same code.
pub open spec fn spec_headers(fields: Seq<ValueModel>) -> Option<Map<u8, ValueModel>>
    decreases fields.len(),
{
    if fields.len() == 0 {
        Some(Map::empty())
    } else {
        match (spec_headers(fields.drop_last()), field_of(fields.last())) {
            (Some(earlier), Some((code, value))) => Some(earlier.insert(code, value)),
            _ => None,
        }
    }
}

/// The signature of the body, as the header fields give it.
pub open spec fn body_signature(headers: Map<u8, ValueModel>) -> Option<Seq<char>> {
    if headers.contains_key(HeaderFieldName::Signature.code()) {
        match headers[HeaderFieldName::Signature.code()] {
            ValueModel::Variant(inner, _) => match *inner {
                ValueModel::Basic(BasicModel::Signature(text)) => Some(text),
                _ => None,
            },
            _ => None,
        }
    } else {
        None
    }
}

/// A signature put in parentheses, as bytes: the signature of the struct
/// whose members are the values of a body.
pub open spec fn parenthesized(signature: Seq<char>) -> Seq<u8> {
    seq![40u8] + encode_utf8(signature) + seq![41u8]
}

/// The values of a body: the members of the struct of signature `sig` that
/// the bytes decode to.
#[verifier::opaque]
pub open spec fn spec_body(bytes: Seq<u8>, sig: Seq<u8>) -> Result<Seq<ValueModel>, Error> {
    match spec_value(bytes, 0, sig, 0, MAX_DEPTH as nat) {
        Err(e) => Err(Error::DemarshalError(e)),
        Ok((value, _, j)) => if j != sig.len() {
            Err(Error::DemarshalError(DemarshalError::BadSignature))
        } else {
            match value {
                ValueModel::Struct(objects, _) => Ok(objects),
                _ => Err(Error::ProtocolViolation),
            }
        },
    }
}

/// Where the header fields of the frame that starts `bytes` end.
pub open spec fn fields_end(bytes: Seq<u8>) -> int {
    PREFIX_LENGTH + le_u32(bytes, 12)
}

/// Where the body of the frame that starts `bytes` starts: at the first
/// multiple of eight at or after the end of the header fields.
pub open spec fn body_start(bytes: Seq<u8>) -> int {
    align_up(fields_end(bytes), 8)
}

/// The length of the whole frame that starts `bytes`.
pub open spec fn frame_length(bytes: Seq<u8>) -> int {
    body_start(bytes) + le_u32(bytes, 4)
}

/// What a run of pending bytes frames to.
pub enum Frame {
    /// The bytes end before the frame does.
    Short,
    /// The first bytes, as many as the number says, are no well-formed frame.
    Bad(Error, int),
    /// The first bytes, as many as the number says, are this message.
    Good(MessageModel, int),
}

/// The message with the fixed header of `bytes` and the given fields and body.
pub open spec fn message_of(
    bytes: Seq<u8>,
    headers: Map<u8, ValueModel>,
    body: Seq<ValueModel>,
) -> MessageModel {
    MessageModel {
        big_endian: bytes[0] == ENDIAN_BIG,
        message_type: bytes[1],
        flags: bytes[2],
        version: bytes[3],
        serial: le_u32(bytes, 8) as u32,
        headers,
        body,
    }
}

/// The header fields of a frame, decoded from its first bytes up to the end
/// of the array of fields: an array of structs of a byte and a variant, which
/// starts with its length at offset 12.
#[verifier::opaque]
pub open spec fn spec_header_map(head: Seq<u8>) -> Result<Map<u8, ValueModel>, Error> {
    match spec_value(head, 12, fields_signature(), 0, MAX_DEPTH as nat) {
        Err(e) => Err(Error::DemarshalError(e)),
        Ok((ValueModel::Array(fields, _), _, _)) => match spec_headers(fields) {
            Some(headers) => Ok(headers),
            None => Err(Error::ProtocolViolation),
        },
        Ok(_) => Err(Error::ProtocolViolation),
    }
}

/// The frame at the start of `bytes`.  All numbers are read little-endian,
/// whatever the endianness byte says.
pub open spec fn spec_frame(bytes: Seq<u8>) -> Frame {
    if bytes.len() < PREFIX_LENGTH || bytes.len() < fields_end(bytes) {
        Frame::Short
    } else {
        match spec_header_map(bytes.take(fields_end(bytes))) {
            Err(e) => Frame::Bad(e, fields_end(bytes)),
            Ok(headers) => if bytes.len() < body_start(bytes) {
                Frame::Short
            } else if le_u32(bytes, 4) == 0 {
                Frame::Good(message_of(bytes, headers, Seq::empty()), body_start(bytes))
            } else {
                match body_signature(headers) {
                    None => Frame::Bad(
                        Error::DemarshalError(DemarshalError::BadSignature),
                        body_start(bytes),
                    ),
                    Some(signature) => if bytes.len() < frame_length(bytes) {
                        Frame::Short
                    } else {
                        match spec_body(
                            bytes.subrange(body_start(bytes), frame_length(bytes)),
                            parenthesized(signature),
                        ) {
                            Err(e) => Frame::Bad(e, frame_length(bytes)),
                            Ok(body) => Frame::Good(
                                message_of(bytes, headers, body),
                                frame_length(bytes),
                            ),
                        }
                    },
                }
            },
        }
    }
}

/// Takes a decoded header field apart into its code and its value.
fn split_field(field: Value) -> (r: Option<(u8, Value)>)
    ensures
        match (r, field_of(field.model())) {
            (Some((code, value)), Some((c, v))) => code == c && value.model() == v,
            (None, None) => true,
            _ => false,
        },
{
    proof {
        lemma_container_models(field);
    }
    match field {
        Value::Struct(st) => {
            let mut objects = st.objects;
            if objects.len() != 2 {
                return None;
            }
            let ghost both = objects@;
            let value = match objects.pop() {
                Some(value) => value,
                None => {
                    return None;
                },
            };
            let code = match objects.pop() {
                Some(code) => code,
                None => {
                    return None;
                },
            };
            assert(models(both)[0] == code.model());
            assert(models(both)[1] == value.model());
            proof {
                lemma_container_models(code);
            }
            match code {
                Value::BasicValue(BasicValue::Byte(c)) => Some((c, value)),
                _ => None,
            }
        },
        _ => None,
    }
}

/// The fields that `later` holds, and of `earlier` those whose codes `later`
/// does not hold.
pub open spec fn overlay(
    earlier: Option<Map<u8, ValueModel>>,
    later: Map<u8, ValueModel>,
) -> Option<Map<u8, ValueModel>> {
    match earlier {
        Some(m) => Some(m.union_prefer_right(later)),
        None => None,
    }
}

/// Gathers decoded header fields into a map by their code.
fn collect_headers(fields: Vec<Value>) -> (r: Option<HashMap<u8, Value>>)
    ensures
        match (r, spec_headers(models(fields@))) {
            (Some(headers), Some(m)) => header_models(headers@) == m,
            (None, None) => true,
            _ => false,
        },
{
    let ghost whole = spec_headers(models(fields@));
    let mut rest = fields;
    let mut headers: HashMap<u8, Value> = HashMap::new();
    assert(header_models(headers@) =~= Map::empty());
    proof {
        match spec_headers(models(rest@)) {
            Some(m) => {
                assert(m.union_prefer_right(Map::empty()) =~= m);
            },
            None => {},
        }
    }
    while rest.len() > 0
        invariant
            whole == spec_headers(models(fields@)),
            whole == overlay(spec_headers(models(rest@)), header_models(headers@)),
        decreases rest.len(),
    {
        let ghost before = rest@;
        let ghost acc = header_models(headers@);
        let field = match rest.pop() {
            Some(field) => field,
            None => {
                return None;
            },
        };
        let ghost last = field.model();
        assert(models(before).drop_last() =~= models(rest@));
        assert(models(before).last() == last);
        assert(models(before).len() > 0);
        match split_field(field) {
            None => {
                assert(field_of(last) is None);
                assert(spec_headers(models(before)) is None);
                return None;
            },
            Some((code, value)) => {
                if !headers.contains_key(&code) {
                    headers.insert(code, value);
                    assert(header_models(headers@) =~= acc.insert(code, value.model()));
                }
                proof {
                    match spec_headers(models(rest@)) {
                        Some(m) => {
                            assert(m.insert(code, value.model()).union_prefer_right(acc)
                                =~= m.union_prefer_right(header_models(headers@)));
                        },
                        None => {},
                    }
                }
            },
        }
    }
    proof {
        assert(models(rest@) =~= Seq::empty());
        assert(Map::<u8, ValueModel>::empty().union_prefer_right(header_models(headers@))
            =~= header_models(headers@));
    }
    Some(headers)
}

/// The signature of the body in parentheses, as bytes, if the header fields
/// give one.
fn body_signature_bytes(headers: &HashMap<u8, Value>) -> (r: Option<Vec<u8>>)
    ensures
        match (r, body_signature(header_models(headers@))) {
            (Some(sig), Some(text)) => sig@ == parenthesized(text),
            (None, None) => true,
            _ => false,
        },
{
    let code: u8 = HeaderFieldName::Signature.code();
    let field: &Value = match headers.get(&code) {
        Some(field) => field,
        None => {
            return None;
        },
    };
    proof {
        lemma_container_models(*field);
    }
    match field {
        Value::Variant(v) => {
            let inner: &Value = &*v.object;
            proof {
                lemma_container_models(*inner);
            }
            match inner {
                Value::BasicValue(BasicValue::Signature(s)) => {
                    let mut sig: Vec<u8> = Vec::new();
                    sig.push(40u8);
                    sig.extend_from_slice(s.0.as_str().as_bytes());
                    sig.push(41u8);
                    assert(sig@ =~= parenthesized(s.0@));
                    Some(sig)
                },
                _ => None,
            }
        },
        _ => None,
    }
}

/// Decodes a body of `bytes` whose signature in parentheses is `sig`.
fn parse_body(bytes: &Vec<u8>, sig: &Vec<u8>) -> (r: Result<Vec<Value>, Error>)
    ensures
        match (r, spec_body(bytes@, sig@)) {
            (Ok(body), Ok(objects)) => models(body@) == objects,
            (Err(e), Err(se)) => e == se,
            _ => false,
        },
{
    reveal(spec_body);
    match parse_value(bytes.as_slice(), 0, sig.as_slice(), 0, MAX_DEPTH) {
        Err(e) => Err(Error::from(e)),
        Ok((value, _, j)) => {
            proof {
                lemma_container_models(value);
            }
            if j != sig.len() {
                Err(Error::DemarshalError(DemarshalError::BadSignature))
            } else {
                match value {
                    Value::Struct(st) => Ok(st.objects),
                    _ => Err(Error::ProtocolViolation),
                }
            }
        },
    }
}

/// Decodes the header fields of a frame from its first bytes, up to the end
/// of the array of fields.
fn parse_headers(head: &Vec<u8>) -> (r: Result<HashMap<u8, Value>, Error>)
    requires
        head.len() >= PREFIX_LENGTH,
    ensures
        match (r, spec_header_map(head@)) {
            (Ok(headers), Ok(m)) => header_models(headers@) == m,
            (Err(e), Err(se)) => e == se,
            _ => false,
        },
{
    reveal(spec_header_map);
    let mut sig: Vec<u8> = Vec::new();
    sig.push(97u8);
    sig.push(40u8);
    sig.push(121u8);
    sig.push(118u8);
    sig.push(41u8);
    assert(sig@ =~= fields_signature());
    match parse_value(head.as_slice(), 12, sig.as_slice(), 0, MAX_DEPTH) {
        Err(e) => Err(Error::from(e)),
        Ok((value, _, _)) => {
            proof {
                lemma_container_models(value);
            }
            match value {
                Value::Array(a) => match collect_headers(a.objects) {
                    Some(headers) => Ok(headers),
                    None => Err(Error::ProtocolViolation),
                },
                _ => Err(Error::ProtocolViolation),
            }
        },
    }
}

/// Reads the first part of a frame: everything up to the end of the header
/// fields.
fn read_head(sock: &mut Socket) -> (r: Result<Vec<u8>, Error>)
    ensures
        final(sock).written() == old(sock).written(),
        final(sock).fault() == old(sock).fault(),
        final(sock).kind() == old(sock).kind(),
        r is Ok <==> old(sock).pending().len() >= PREFIX_LENGTH && old(sock).pending().len()
            >= fields_end(old(sock).pending()),
        r matches Ok(head) ==> head@ == old(sock).pending().take(fields_end(old(sock).pending()))
            && final(sock).pending() == old(sock).pending().skip(
            fields_end(old(sock).pending()),
        ),
        r is Err ==> r == Err::<Vec<u8>, Error>(short_read_error(old(sock).fault()))
            && final(sock).pending() == Seq::<u8>::empty(),
{
    let ghost p = sock.pending();
    let mut head: Vec<u8> = Vec::new();
    let mut part: Vec<u8> = Vec::new();
    match read_exactly(sock, &mut head, 12) {
        Err(e) => {
            return Err(e);
        },
        Ok(()) => {},
    }
    match read_exactly(sock, &mut part, 4) {
        Err(e) => {
            return Err(e);
        },
        Ok(()) => {},
    }
    head.append(&mut part);
    assert(head@ =~= p.take(16));
    assert(sock.pending() =~= p.skip(16));
    let arr_len: u32 = read_u32(head.as_slice(), 12);
    match read_exactly(sock, &mut part, arr_len as usize) {
        Err(e) => {
            return Err(e);
        },
        Ok(()) => {},
    }
    head.append(&mut part);
    assert(head@ =~= p.take(fields_end(p)));
    assert(sock.pending() =~= p.skip(fields_end(p)));
    Ok(head)
}

/// What `read_frame` returns and leaves pending, given what was pending and
/// whether the stream had failed.
pub open spec fn frame_read(
    before: Seq<u8>,
    fault: Option<std::io::ErrorKind>,
    r: Result<Message, Error>,
    after: Seq<u8>,
) -> bool {
    match spec_frame(before) {
        Frame::Short => r == Err::<Message, Error>(short_read_error(fault)) && after
            == Seq::<u8>::empty(),
        Frame::Bad(e, n) => r == Err::<Message, Error>(e) && after == before.skip(n),
        Frame::Good(m, n) => r matches Ok(msg) && msg@ == m && after == before.skip(n),
    }
}

/// Reads one frame from the socket and decodes it.
///
/// Whenever the pending bytes end before the part being read does, all of
/// them are consumed and the read fails; a frame that cannot be decoded is
/// consumed up to the part that could not.
pub fn read_frame(sock: &mut Socket) -> (r: Result<Message, Error>)
    ensures
        final(sock).written() == old(sock).written(),
        final(sock).fault() == old(sock).fault(),
        final(sock).kind() == old(sock).kind(),
        frame_read(old(sock).pending(), old(sock).fault(), r, final(sock).pending()),
{
    let ghost p = sock.pending();
    let head: Vec<u8> = match read_head(sock) {
        Err(e) => {
            return Err(e);
        },
        Ok(head) => head,
    };
    let mut part: Vec<u8> = Vec::new();
    let big_endian: bool = head[0] == ENDIAN_BIG;
    let message_type: u8 = head[1];
    let flags: u8 = head[2];
    let version: u8 = head[3];
    let body_len: u32 = read_u32(head.as_slice(), 4);
    let serial: u32 = read_u32(head.as_slice(), 8);
    let arr_len: u32 = read_u32(head.as_slice(), 12);
    let headers: HashMap<u8, Value> = match parse_headers(&head) {
        Err(e) => {
            return Err(e);
        },
        Ok(headers) => headers,
    };
    let pad: usize = ((8 - arr_len % 8) % 8) as usize;
    assert(fields_end(p) + pad == body_start(p));
    match read_exactly(sock, &mut part, pad) {
        Err(e) => {
            return Err(e);
        },
        Ok(()) => {},
    }
    assert(sock.pending() =~= p.skip(body_start(p)));
    let mut msg = Message {
        big_endian,
        message_type: MessageType(message_type),
        flags,
        version,
        serial,
        headers,
        body: Vec::new(),
    };
    assert(models(msg.body@) =~= Seq::empty());
    if body_len > 0 {
        let sig: Vec<u8> = match body_signature_bytes(&msg.headers) {
            None => {
                return Err(Error::DemarshalError(DemarshalError::BadSignature));
            },
            Some(sig) => sig,
        };
        match read_exactly(sock, &mut part, body_len as usize) {
            Err(e) => {
                return Err(e);
            },
            Ok(()) => {},
        }
        assert(part@ =~= p.subrange(body_start(p), frame_length(p)));
        assert(sock.pending() =~= p.skip(frame_length(p)));
        match parse_body(&part, &sig) {
            Err(e) => {
                return Err(e);
            },
            Ok(body) => {
                msg.body = body;
            },
        }
    }
    Ok(msg)
}

/// The body of a frame starts on a multiple of eight: behind the header
/// fields come as many bytes of padding as it takes to get there, fewer
/// than eight, and none if the fields end on such a boundary.
pub proof fn lemma_body_starts_on_boundary(bytes: Seq<u8>)
    ensures
        body_start(bytes) % 8 == 0,
        fields_end(bytes) <= body_start(bytes) < fields_end(bytes) + 8,
        fields_end(bytes) % 8 == 0 ==> body_start(bytes) == fields_end(bytes),
        body_start(bytes) - fields_end(bytes) == (8 - fields_end(bytes) % 8) % 8,
{
}

/// A frame that is read takes the bytes of its header, of the padding up to
/// the boundary and of its body, and no others; and whatever a frame comes
/// to, no more bytes are taken than there are.
pub proof fn lemma_frame_extent(bytes: Seq<u8>)
    ensures
        match spec_frame(bytes) {
            Frame::Good(_, n) => n == body_start(bytes) + le_u32(bytes, 4) && 16 <= n
                <= bytes.len(),
            Frame::Bad(_, n) => 16 <= n <= bytes.len(),
            Frame::Short => true,
        },
{
}

/// A frame that is cut short is never taken for a frame: of the bytes of a
/// well-formed frame every shorter run from the start is short, so that
/// reading it ends with the error of a stream that gave out.
pub proof fn lemma_cut_frame_is_short(bytes: Seq<u8>, n: int)
    requires
        spec_frame(bytes) is Good,
        0 <= n < spec_frame(bytes)->Good_1,
    ensures
        spec_frame(bytes.take(n)) is Short,
{
    let cut = bytes.take(n);
    if n >= PREFIX_LENGTH {
        assert(le_u32(cut, 12) == le_u32(bytes, 12));
        assert(le_u32(cut, 4) == le_u32(bytes, 4));
        if n >= fields_end(bytes) {
            assert(cut.take(fields_end(cut)) =~= bytes.take(fields_end(bytes)));
        }
    }
}

/// How many bytes have to arrive yet before the frame that starts `bytes` is
/// whole.  With fewer than sixteen bytes the lengths are not known, and the
/// number is what the sixteen lack.
pub open spec fn spec_bytes_missing(bytes: Seq<u8>) -> int {
    if bytes.len() < PREFIX_LENGTH {
        PREFIX_LENGTH - bytes.len()
    } else if bytes.len() < frame_length(bytes) {
        frame_length(bytes) - bytes.len()
    } else {
        0
    }
}

/// When nothing is missing, reading the frame does not run out of bytes; and
/// when reading would run out, something is missing.
pub proof fn lemma_whole_frame_is_not_short(bytes: Seq<u8>)
    ensures
        spec_bytes_missing(bytes) == 0 ==> !(spec_frame(bytes) is Short),
        spec_frame(bytes) is Short ==> spec_bytes_missing(bytes) > 0,
{
}

/// How many bytes have to arrive yet before the frame that starts `bytes` is
/// whole.
pub fn bytes_missing(bytes: &[u8]) -> (n: u64)
    ensures
        n == spec_bytes_missing(bytes@),
{
    let have: u64 = bytes.len() as u64;
    if bytes.len() < PREFIX_LENGTH {
        return (PREFIX_LENGTH - bytes.len()) as u64;
    }
    let body_len: u64 = read_u32(bytes, 4) as u64;
    let arr_len: u64 = read_u32(bytes, 12) as u64;
    let pad: u64 = (8 - arr_len % 8) % 8;
    let whole: u64 = 16 + arr_len + pad + body_len;
    if have < whole {
        whole - have
    } else {
        0
    }
}

} // verus!
