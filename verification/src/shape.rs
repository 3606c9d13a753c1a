//! The shape of what a frame decodes to: header fields are always pairs of
//! a code and a variant, and a body is always a struct, so that no frame is
//! ever found to violate the protocol.

use vstd::prelude::*;
use crate::connection::Error;
use crate::demarshal::{
    lemma_array_frame, spec_array, spec_array_frame, spec_basic, spec_elements, spec_fields,
    spec_struct, spec_value, spec_variant, DemarshalError, MAX_DEPTH,
};
use crate::frame::{
    body_signature, body_start, field_of, fields_end, fields_signature, frame_length,
    parenthesized, spec_body, spec_frame, spec_header_map, spec_headers, Frame,
};
use crate::types::{BasicModel, ValueModel};

verus! {

/// What is decoded for the type `y` is a byte.
#[verifier::spinoff_prover]
#[verifier::rlimit(40)]
proof fn lemma_byte_shape(buf: Seq<u8>, off: int, depth: nat)
    ensures
        spec_value(buf, off, fields_signature(), 2, depth) matches Ok((value, _, j)) ==> j == 3
            && value matches ValueModel::Basic(BasicModel::Byte(_)),
{
    assert(fields_signature()[2] == 121);
    assert(spec_basic(buf, off, 121) matches Ok((b, _)) ==> b is Byte);
}

/// What is decoded for the type `v` is a variant.
#[verifier::spinoff_prover]
#[verifier::rlimit(40)]
proof fn lemma_variant_shape(buf: Seq<u8>, off: int, depth: nat)
    ensures
        spec_value(buf, off, fields_signature(), 3, depth) matches Ok((value, _, j)) ==> j == 4
            && value is Variant,
{
    assert(fields_signature()[3] == 118);
    assert(spec_variant(buf, off, depth) matches Ok((value, _)) ==> value is Variant);
}

/// The fields of a struct of the type `(yv)` are a byte and a variant.
#[verifier::spinoff_prover]
#[verifier::rlimit(40)]
proof fn lemma_pair_fields(buf: Seq<u8>, off: int, depth: nat)
    ensures
        spec_fields(buf, off, fields_signature(), 2, depth) matches Ok((objects, _, _))
            ==> objects.len() == 2 && objects[0] matches ValueModel::Basic(BasicModel::Byte(_)),
{
    let sig = fields_signature();
    lemma_byte_shape(buf, off, depth);
    match spec_value(buf, off, sig, 2, depth) {
        Ok((first, mid, _)) => {
            lemma_variant_shape(buf, mid, depth);
            match spec_value(buf, mid, sig, 3, depth) {
                Ok((second, end, _)) => {
                    assert(sig[4] == 41);
                    assert(spec_fields(buf, end, sig, 4, depth) == Ok::<
                        (Seq<ValueModel>, int, int),
                        DemarshalError,
                    >((Seq::empty(), end, 4)));
                    match spec_fields(buf, mid, sig, 3, depth) {
                        Ok((rest, _, _)) => {
                            assert(rest =~= seq![second]);
                        },
                        Err(_) => {},
                    }
                },
                Err(_) => {},
            }
        },
        Err(_) => {},
    }
}

/// What is decoded for the type `(yv)` is a header field.
#[verifier::spinoff_prover]
#[verifier::rlimit(40)]
proof fn lemma_pair_shape(buf: Seq<u8>, off: int, depth: nat)
    ensures
        spec_value(buf, off, fields_signature(), 1, depth) matches Ok((value, _, _)) ==> field_of(
            value,
        ) is Some,
{
    let sig = fields_signature();
    assert(sig[1] == 40);
    if depth > 0 {
        lemma_pair_fields(buf, crate::demarshal::align_up(off, 8), (depth - 1) as nat);
    }
    assert(spec_struct(buf, off, sig, 1, depth) matches Ok((value, _, _)) ==> field_of(value)
        is Some);
}

/// The elements of an array of the type `a(yv)` give header fields by code.
#[verifier::spinoff_prover]
#[verifier::rlimit(40)]
proof fn lemma_elements_shape(buf: Seq<u8>, off: int, depth: nat)
    ensures
        spec_elements(buf, off, fields_signature(), 1, depth) matches Ok(fields) ==> spec_headers(
            fields,
        ) is Some,
    decreases buf.len() - off,
{
    let sig = fields_signature();
    if off < buf.len() {
        lemma_pair_shape(buf, off, depth);
        match spec_value(buf, off, sig, 1, depth) {
            Ok((first, next, _)) => {
                if off < next <= buf.len() {
                    lemma_elements_shape(buf, next, depth);
                    match spec_elements(buf, next, sig, 1, depth) {
                        Ok(rest) => {
                            lemma_headers_prepend(first, rest);
                        },
                        Err(_) => {},
                    }
                }
            },
            Err(_) => {},
        }
    }
}

/// One header field more in front leaves header fields by code.
proof fn lemma_headers_prepend(first: ValueModel, rest: Seq<ValueModel>)
    requires
        field_of(first) is Some,
        spec_headers(rest) is Some,
    ensures
        spec_headers(seq![first] + rest) is Some,
    decreases rest.len(),
{
    let all = seq![first] + rest;
    if rest.len() == 0 {
        assert(all.drop_last() =~= Seq::<ValueModel>::empty());
        assert(all.last() == first);
        assert(spec_headers(all.drop_last()) is Some);
    } else {
        assert(spec_headers(rest.drop_last()) is Some && field_of(rest.last()) is Some);
        assert(all.drop_last() =~= seq![first] + rest.drop_last());
        assert(all.last() == rest.last());
        lemma_headers_prepend(first, rest.drop_last());
    }
}

/// What is decoded for the type `a(yv)` is an array of header fields.
#[verifier::spinoff_prover]
#[verifier::rlimit(40)]
proof fn lemma_fields_array_shape(head: Seq<u8>)
    ensures
        spec_array(head, 12, fields_signature(), 0, MAX_DEPTH as nat) matches Ok((value, _, _))
            ==> value matches ValueModel::Array(fields, _) && spec_headers(fields) is Some,
{
    let sig = fields_signature();
    assert(sig[1] == 40);
    lemma_array_frame(head, 12, sig, 0, MAX_DEPTH as nat);
    match spec_array_frame(head, 12, sig, 0, MAX_DEPTH as nat) {
        Ok((start, end, _, _)) => {
            lemma_elements_shape(head.take(end), start, (MAX_DEPTH - 1) as nat);
        },
        Err(_) => {},
    }
}

/// What is decoded for the signature of the header fields is decoded as an
/// array.
#[verifier::spinoff_prover]
#[verifier::rlimit(40)]
proof fn lemma_fields_are_an_array(head: Seq<u8>)
    ensures
        spec_value(head, 12, fields_signature(), 0, MAX_DEPTH as nat) matches Ok((value, _, _))
            ==> value matches ValueModel::Array(fields, _) && spec_headers(fields) is Some,
{
    let sig = fields_signature();
    lemma_fields_array_shape(head);
    assert(sig[0] == 97);
    if 0 <= 12 <= head.len() {
        assert(spec_value(head, 12, sig, 0, MAX_DEPTH as nat) == spec_array(
            head,
            12,
            sig,
            0,
            MAX_DEPTH as nat,
        ));
    }
}

/// The header fields of a frame never decode to anything but header fields:
/// whatever the bytes, they give the fields by their code or cannot be
/// decoded, and are never found to violate the protocol.
pub proof fn lemma_header_fields_keep_their_shape(head: Seq<u8>)
    ensures
        spec_header_map(head) != Err::<Map<u8, ValueModel>, Error>(Error::ProtocolViolation),
{
    reveal(spec_header_map);
    lemma_fields_are_an_array(head);
}

/// A body never decodes to anything but the values of a struct: whatever
/// the bytes and the signature, it gives its values or cannot be decoded,
/// and is never found to violate the protocol.
#[verifier::spinoff_prover]
#[verifier::rlimit(40)]
pub proof fn lemma_body_keeps_its_shape(bytes: Seq<u8>, signature: Seq<char>)
    ensures
        spec_body(bytes, parenthesized(signature)) != Err::<Seq<ValueModel>, Error>(
            Error::ProtocolViolation,
        ),
{
    reveal(spec_body);
    let sig = parenthesized(signature);
    assert(sig[0] == 40);
    assert(spec_value(bytes, 0, sig, 0, MAX_DEPTH as nat) == spec_struct(
        bytes,
        0,
        sig,
        0,
        MAX_DEPTH as nat,
    ));
    assert(spec_struct(bytes, 0, sig, 0, MAX_DEPTH as nat) matches Ok((value, _, _))
        ==> value is Struct);
}

/// No run of bytes frames to a violation of the protocol: a frame is short,
/// or cannot be decoded, or is a message.
pub proof fn lemma_frames_never_violate(bytes: Seq<u8>)
    ensures
        !(spec_frame(bytes) matches Frame::Bad(Error::ProtocolViolation, _)),
{
    lemma_header_fields_keep_their_shape(bytes.take(fields_end(bytes)));
    match spec_header_map(bytes.take(fields_end(bytes))) {
        Ok(headers) => match body_signature(headers) {
            Some(signature) => {
                lemma_body_keeps_its_shape(
                    bytes.subrange(body_start(bytes), frame_length(bytes)),
                    signature,
                );
            },
            None => {},
        },
        Err(_) => {},
    }
}

} // verus!
