//! What is built can be read: a method call, as it is sent, frames to the
//! message that it was built to be.

use vstd::prelude::*;
use vstd::utf8::{
    decode_utf8, encode_utf8, encode_utf8_decode_utf8, encode_utf8_valid_utf8, is_ascii_chars,
    is_ascii_chars_encode_utf8, valid_utf8,
};
use crate::connection::{finalized, lemma_finalized_fields, sendable, Error};
use crate::demarshal::{
    align_up, array_start, le_u32, spec_array, spec_array_frame, spec_basic, spec_elements, spec_fields, spec_fields_end,
    spec_sig_text, spec_struct, spec_text, spec_type_end, spec_value, spec_variant,
    DemarshalError, CODE_OBJECT_PATH, CODE_STRING, MAX_DEPTH,
};
use crate::frame::{
    body_start, field_of, fields_end, fields_signature, message_of, spec_frame, spec_header_map,
    spec_headers, Frame,
};
use crate::marshal::{
    le_bytes_u32, lemma_u32_round_trip, padded, with_field, with_string, with_u32, with_u32_at,
};
use crate::message::{
    call_fields, call_prefix, spec_method_call, MessageModel, MAX_CALL_TEXT,
    MESSAGE_TYPE_METHOD_CALL, PROTOCOL_VERSION,
};
use crate::types::{BasicModel, ValueModel};

verus! {

/// The text of one type code.
pub open spec fn code_text(code: u8) -> Seq<char> {
    seq![code as char]
}

/// The text of the signature of a header field: `(yv)`.
pub open spec fn field_signature_text() -> Seq<char> {
    seq!['(', 'y', 'v', ')']
}

/// Bytes below 128 are well-formed UTF-8 for the characters with their codes.
proof fn lemma_ascii_bytes(bytes: Seq<u8>, chars: Seq<char>)
    requires
        bytes.len() == chars.len(),
        forall|i: int| 0 <= i < bytes.len() ==> bytes[i] < 128 && chars[i] == bytes[i] as char,
    ensures
        valid_utf8(bytes),
        decode_utf8(bytes) == chars,
{
    assert(is_ascii_chars(chars));
    is_ascii_chars_encode_utf8(chars);
    assert(encode_utf8(chars) =~= bytes);
    encode_utf8_valid_utf8(chars);
    encode_utf8_decode_utf8(chars);
}

/// The basic value that a text of the type `code` stands for.
pub open spec fn text_value(code: u8, chars: Seq<char>) -> BasicModel {
    if code == CODE_STRING {
        BasicModel::String(chars)
    } else {
        BasicModel::ObjectPath(chars)
    }
}

/// Whether the buffer holds at `at` the string of `chars`: its length, its
/// bytes and a NUL.
pub open spec fn string_at(buf: Seq<u8>, at: int, chars: Seq<char>) -> bool {
    let text = encode_utf8(chars);
    &&& 0 <= at
    &&& at % 4 == 0
    &&& at + 4 + text.len() + 1 <= buf.len()
    &&& le_u32(buf, at) == text.len()
    &&& buf.subrange(at + 4, at + 4 + text.len()) == text
    &&& buf[at + 4 + text.len()] == 0
}

/// A string that stands in the buffer is decoded as the text it is.
proof fn lemma_string_decodes(buf: Seq<u8>, at: int, code: u8, chars: Seq<char>)
    requires
        code == CODE_STRING || code == CODE_OBJECT_PATH,
        string_at(buf, at, chars),
    ensures
        spec_basic(buf, at, code) == Ok::<(BasicModel, int), DemarshalError>(
            (text_value(code, chars), at + 4 + encode_utf8(chars).len() + 1),
        ),
{
    let text = encode_utf8(chars);
    assert(align_up(at, 4) == at);
    encode_utf8_valid_utf8(chars);
    encode_utf8_decode_utf8(chars);
    assert(spec_text(buf, at + 4, text.len() as int) == Ok::<
        (Seq<char>, int),
        DemarshalError,
    >((chars, at + 4 + text.len() + 1)));
}

/// Whether the buffer holds at `at` a header field: on a multiple of eight
/// the code, then a variant with the signature of the one type `ty`, then
/// the text as a string.
#[verifier::opaque]
pub open spec fn field_at(buf: Seq<u8>, at: int, code: u8, ty: u8, chars: Seq<char>) -> bool {
    &&& 0 <= at
    &&& at % 8 == 0
    &&& at + 8 <= buf.len()
    &&& buf[at] == code
    &&& buf[at + 1] == 1
    &&& buf[at + 2] == ty
    &&& buf[at + 3] == 0
    &&& (ty == CODE_STRING || ty == CODE_OBJECT_PATH)
    &&& string_at(buf, at + 4, chars)
}

/// Where the field that `field_at` finds at `at` ends.
pub open spec fn field_end(at: int, chars: Seq<char>) -> int {
    at + 8 + encode_utf8(chars).len() + 1
}

/// The value of the variant of a header field that holds a text.
pub open spec fn text_variant(ty: u8, chars: Seq<char>) -> ValueModel {
    ValueModel::Variant(Box::new(ValueModel::Basic(text_value(ty, chars))), code_text(ty))
}

/// The value that a header field with a text decodes to.
pub open spec fn field_value(code: u8, ty: u8, chars: Seq<char>) -> ValueModel {
    ValueModel::Struct(
        seq![ValueModel::Basic(BasicModel::Byte(code)), text_variant(ty, chars)],
        field_signature_text(),
    )
}

/// The variant of a header field that stands in the buffer is decoded as
/// the text in a variant.
#[verifier::spinoff_prover]
#[verifier::rlimit(40)]
proof fn lemma_variant_decodes(buf: Seq<u8>, at: int, code: u8, ty: u8, chars: Seq<char>, depth: nat)
    requires
        field_at(buf, at, code, ty, chars),
        depth >= 1,
    ensures
        spec_variant(buf, at + 1, depth) == Ok::<(ValueModel, int), DemarshalError>(
            (text_variant(ty, chars), field_end(at, chars)),
        ),
{
    reveal(field_at);
    let inner = buf.subrange(at + 2, at + 3);
    assert(inner =~= seq![ty]);
    lemma_ascii_bytes(inner, code_text(ty));
    assert(spec_text(buf, at + 2, 1) == Ok::<(Seq<char>, int), DemarshalError>(
        (code_text(ty), at + 4),
    ));
    lemma_string_decodes(buf, at + 4, ty, chars);
    assert(spec_value(buf, at + 4, inner, 0, (depth - 1) as nat) == Ok::<
        (ValueModel, int, int),
        DemarshalError,
    >((ValueModel::Basic(text_value(ty, chars)), field_end(at, chars), 1)));
}

/// Behind the last field of a struct its fields end.
proof fn lemma_fields_close(buf: Seq<u8>, end: int, depth: nat)
    ensures
        spec_fields(buf, end, fields_signature(), 4, depth) == Ok::<
            (Seq<ValueModel>, int, int),
            DemarshalError,
        >((Seq::empty(), end, 4)),
{
}

/// The fields of a header field from its variant on.
#[verifier::spinoff_prover]
#[verifier::rlimit(40)]
proof fn lemma_fields_from_variant(
    buf: Seq<u8>,
    at: int,
    variant: ValueModel,
    end: int,
    depth: nat,
)
    requires
        0 <= at < end <= buf.len(),
        spec_variant(buf, at, depth) == Ok::<(ValueModel, int), DemarshalError>((variant, end)),
    ensures
        spec_fields(buf, at, fields_signature(), 3, depth) == Ok::<
            (Seq<ValueModel>, int, int),
            DemarshalError,
        >((seq![variant], end, 4)),
{
    let sig = fields_signature();
    assert(spec_value(buf, at, sig, 3, depth) == Ok::<(ValueModel, int, int), DemarshalError>(
        (variant, end, 4),
    ));
    lemma_fields_close(buf, end, depth);
    assert(seq![variant] + Seq::<ValueModel>::empty() =~= seq![variant]);
}

/// The fields of a header field from its code on.
#[verifier::spinoff_prover]
#[verifier::rlimit(40)]
proof fn lemma_fields_from_code(
    buf: Seq<u8>,
    at: int,
    variant: ValueModel,
    end: int,
    depth: nat,
)
    requires
        0 <= at,
        at + 1 < end <= buf.len(),
        spec_fields(buf, at + 1, fields_signature(), 3, depth) == Ok::<
            (Seq<ValueModel>, int, int),
            DemarshalError,
        >((seq![variant], end, 4)),
    ensures
        spec_fields(buf, at, fields_signature(), 2, depth) == Ok::<
            (Seq<ValueModel>, int, int),
            DemarshalError,
        >((seq![ValueModel::Basic(BasicModel::Byte(buf[at])), variant], end, 4)),
{
    let sig = fields_signature();
    assert(align_up(at, 1) == at);
    assert(spec_basic(buf, at, 121) == Ok::<(BasicModel, int), DemarshalError>(
        (BasicModel::Byte(buf[at]), at + 1),
    ));
    assert(spec_value(buf, at, sig, 2, depth) == Ok::<(ValueModel, int, int), DemarshalError>(
        (ValueModel::Basic(BasicModel::Byte(buf[at])), at + 1, 3),
    ));
    assert(seq![ValueModel::Basic(BasicModel::Byte(buf[at]))] + seq![variant] =~= seq![
        ValueModel::Basic(BasicModel::Byte(buf[at])),
        variant,
    ]);
}

/// The text of the signature of a header field.
proof fn lemma_field_signature_text()
    ensures
        spec_sig_text(fields_signature(), 1, 5) == Ok::<Seq<char>, DemarshalError>(
            field_signature_text(),
        ),
{
    let sig = fields_signature();
    assert(sig.subrange(1, 5) =~= seq![40u8, 121u8, 118u8, 41u8]);
    lemma_ascii_bytes(sig.subrange(1, 5), field_signature_text());
}

/// A struct whose fields are known.
#[verifier::spinoff_prover]
#[verifier::rlimit(40)]
proof fn lemma_struct_of_fields(
    buf: Seq<u8>,
    off: int,
    objects: Seq<ValueModel>,
    end: int,
    depth: nat,
)
    requires
        0 <= off,
        align_up(off, 8) <= buf.len(),
        depth >= 1,
        objects.len() > 0,
        spec_fields(buf, align_up(off, 8), fields_signature(), 2, (depth - 1) as nat) == Ok::<
            (Seq<ValueModel>, int, int),
            DemarshalError,
        >((objects, end, 4)),
    ensures
        spec_value(buf, off, fields_signature(), 1, depth) == Ok::<
            (ValueModel, int, int),
            DemarshalError,
        >((ValueModel::Struct(objects, field_signature_text()), end, 5)),
{
    lemma_field_signature_text();
    assert(spec_struct(buf, off, fields_signature(), 1, depth) == Ok::<
        (ValueModel, int, int),
        DemarshalError,
    >((ValueModel::Struct(objects, field_signature_text()), end, 5)));
}

/// A header field that stands in the buffer at the first multiple of eight
/// at or after `off` is decoded as the struct of its code and its variant.
#[verifier::spinoff_prover]
#[verifier::rlimit(40)]
proof fn lemma_field_decodes(
    buf: Seq<u8>,
    off: int,
    code: u8,
    ty: u8,
    chars: Seq<char>,
    depth: nat,
)
    requires
        0 <= off,
        field_at(buf, align_up(off, 8), code, ty, chars),
        depth >= 2,
    ensures
        spec_value(buf, off, fields_signature(), 1, depth) == Ok::<
            (ValueModel, int, int),
            DemarshalError,
        >((field_value(code, ty, chars), field_end(align_up(off, 8), chars), 5)),
{
    reveal(field_at);
    let at = align_up(off, 8);
    let inner = (depth - 1) as nat;
    let end = field_end(at, chars);
    lemma_variant_decodes(buf, at, code, ty, chars, inner);
    lemma_fields_from_variant(buf, at + 1, text_variant(ty, chars), end, inner);
    lemma_fields_from_code(buf, at, text_variant(ty, chars), end, inner);
    lemma_struct_of_fields(
        buf,
        off,
        seq![ValueModel::Basic(BasicModel::Byte(code)), text_variant(ty, chars)],
        end,
        depth,
    );
}

/// The text of the signature of the array of header fields: `a(yv)`.
pub open spec fn fields_signature_text() -> Seq<char> {
    seq!['a', '(', 'y', 'v', ')']
}

/// At the end of the buffer no elements are left.
proof fn lemma_elements_end(buf: Seq<u8>, depth: nat)
    ensures
        spec_elements(buf, buf.len() as int, fields_signature(), 1, depth) == Ok::<
            Seq<ValueModel>,
            DemarshalError,
        >(Seq::empty()),
{
}

/// The elements from one element on are that element and those behind it.
proof fn lemma_elements_step(
    buf: Seq<u8>,
    off: int,
    value: ValueModel,
    next: int,
    rest: Seq<ValueModel>,
    depth: nat,
)
    requires
        0 <= off < next <= buf.len(),
        spec_value(buf, off, fields_signature(), 1, depth) == Ok::<
            (ValueModel, int, int),
            DemarshalError,
        >((value, next, 5)),
        spec_elements(buf, next, fields_signature(), 1, depth) == Ok::<
            Seq<ValueModel>,
            DemarshalError,
        >(rest),
    ensures
        spec_elements(buf, off, fields_signature(), 1, depth) == Ok::<
            Seq<ValueModel>,
            DemarshalError,
        >(seq![value] + rest),
{
}

/// The signature of the array of header fields is one complete type.
#[verifier::spinoff_prover]
#[verifier::rlimit(40)]
proof fn lemma_fields_signature_is_complete()
    ensures
        spec_type_end(fields_signature(), 0, MAX_DEPTH as nat) == Ok::<int, DemarshalError>(5),
        spec_sig_text(fields_signature(), 0, 5) == Ok::<Seq<char>, DemarshalError>(
            fields_signature_text(),
        ),
{
    let sig = fields_signature();
    assert(spec_fields_end(sig, 4, 62) == Ok::<int, DemarshalError>(4));
    assert(spec_type_end(sig, 3, 62) == Ok::<int, DemarshalError>(4));
    assert(spec_fields_end(sig, 3, 62) == Ok::<int, DemarshalError>(4));
    assert(spec_type_end(sig, 2, 62) == Ok::<int, DemarshalError>(3));
    assert(spec_fields_end(sig, 2, 62) == Ok::<int, DemarshalError>(4));
    assert(spec_type_end(sig, 1, 63) == Ok::<int, DemarshalError>(5));
    assert(sig.subrange(0, 5) =~= sig);
    lemma_ascii_bytes(sig, fields_signature_text());
}

/// The array of header fields starts at offset 16 and fills the buffer.
#[verifier::spinoff_prover]
#[verifier::rlimit(40)]
proof fn lemma_fields_array_frame(head: Seq<u8>)
    requires
        head.len() >= 16,
        le_u32(head, 12) == head.len() - 16,
    ensures
        spec_array_frame(head, 12, fields_signature(), 0, MAX_DEPTH as nat) == Ok::<
            (int, int, int, Seq<char>),
            DemarshalError,
        >((16, head.len() as int, 5, fields_signature_text())),
{
    reveal(spec_array_frame);
    lemma_fields_signature_is_complete();
    assert(align_up(12, 4) == 12);
    assert(fields_signature()[1] == 40);
    assert(array_start(12, 40) == 16);
}

/// An array of header fields whose elements are known.
#[verifier::spinoff_prover]
#[verifier::rlimit(40)]
proof fn lemma_array_of_fields(head: Seq<u8>, elements: Seq<ValueModel>)
    requires
        head.len() >= 16,
        le_u32(head, 12) == head.len() - 16,
        spec_elements(head, 16, fields_signature(), 1, 63) == Ok::<
            Seq<ValueModel>,
            DemarshalError,
        >(elements),
    ensures
        spec_value(head, 12, fields_signature(), 0, MAX_DEPTH as nat) == Ok::<
            (ValueModel, int, int),
            DemarshalError,
        >((ValueModel::Array(elements, fields_signature_text()), head.len() as int, 5)),
{
    lemma_fields_array_frame(head);
    assert(head.take(head.len() as int) =~= head);
    assert(fields_signature()[1] == 40);
    assert(spec_array(head, 12, fields_signature(), 0, MAX_DEPTH as nat) == Ok::<
        (ValueModel, int, int),
        DemarshalError,
    >((ValueModel::Array(elements, fields_signature_text()), head.len() as int, 5)));
}

/// A header field with a text more brings its code and its variant more.
proof fn lemma_headers_push(
    fields: Seq<ValueModel>,
    earlier: Map<u8, ValueModel>,
    code: u8,
    ty: u8,
    chars: Seq<char>,
)
    requires
        spec_headers(fields) == Some(earlier),
    ensures
        spec_headers(fields.push(field_value(code, ty, chars))) == Some(
            earlier.insert(code, text_variant(ty, chars)),
        ),
{
    let all = fields.push(field_value(code, ty, chars));
    assert(all.drop_last() =~= fields);
    assert(field_of(all.last()) == Some((code, text_variant(ty, chars))));
}

/// A header field that is appended stands where `field_at` looks for it, and
/// what stood in the buffer before stays.
#[verifier::spinoff_prover]
#[verifier::rlimit(40)]
proof fn lemma_with_field(buf: Seq<u8>, code: u8, ty: u8, chars: Seq<char>)
    requires
        ty == CODE_STRING || ty == CODE_OBJECT_PATH,
        encode_utf8(chars).len() <= u32::MAX,
    ensures
        ({
            let out = with_field(buf, code, ty, encode_utf8(chars));
            let at = align_up(buf.len() as int, 8);
            &&& out.len() == field_end(at, chars)
            &&& field_at(out, at, code, ty, chars)
            &&& out.take(buf.len() as int) == buf
        }),
{
    reveal(field_at);
    reveal(with_field);
    let text = encode_utf8(chars);
    let at = align_up(buf.len() as int, 8);
    let start = padded(buf, 8) + seq![code, 1u8, ty, 0u8];
    assert(start.len() == at + 4);
    assert(padded(start, 4) =~= start);
    let numbered = with_u32(start, text.len() as int);
    assert(numbered =~= start + le_bytes_u32(text.len() as int));
    let out = with_field(buf, code, ty, text);
    assert(out == with_string(start, text));
    assert(out =~= start + le_bytes_u32(text.len() as int) + text + seq![0u8]);
    assert(out.subrange(at + 4, at + 8) =~= le_bytes_u32(text.len() as int));
    lemma_u32_round_trip(out, at + 4, text.len() as int);
    assert(out.subrange(at + 8, at + 8 + text.len()) =~= text);
    assert(out.take(buf.len() as int) =~= buf);
}

/// A header field stays where it is when the bytes that make it up stay.
proof fn lemma_field_stays(
    before: Seq<u8>,
    after: Seq<u8>,
    at: int,
    code: u8,
    ty: u8,
    chars: Seq<char>,
)
    requires
        field_at(before, at, code, ty, chars),
        after.len() >= field_end(at, chars),
        forall|i: int| at <= i < field_end(at, chars) ==> after[i] == before[i],
    ensures
        field_at(after, at, code, ty, chars),
{
    reveal(field_at);
    let text = encode_utf8(chars);
    assert(le_u32(after, at + 4) == le_u32(before, at + 4));
    assert(after.subrange(at + 8, at + 8 + text.len()) =~= before.subrange(
        at + 8,
        at + 8 + text.len(),
    ));
}

/// A header field stays where it is when another one is appended.
proof fn lemma_field_kept(
    buf: Seq<u8>,
    at: int,
    code: u8,
    ty: u8,
    chars: Seq<char>,
    next_code: u8,
    next_ty: u8,
    next: Seq<char>,
)
    requires
        field_at(buf, at, code, ty, chars),
        field_end(at, chars) <= buf.len(),
        next_ty == CODE_STRING || next_ty == CODE_OBJECT_PATH,
        encode_utf8(next).len() <= u32::MAX,
    ensures
        field_at(with_field(buf, next_code, next_ty, encode_utf8(next)), at, code, ty, chars),
{
    assert(0 <= at) by {
        reveal(field_at);
    }
    lemma_with_field(buf, next_code, next_ty, next);
    let out = with_field(buf, next_code, next_ty, encode_utf8(next));
    assert(forall|i: int| 0 <= i < buf.len() ==> out[i] == out.take(buf.len() as int)[i]);
    lemma_field_stays(
        buf,
        with_field(buf, next_code, next_ty, encode_utf8(next)),
        at,
        code,
        ty,
        chars,
    );
}

/// Where the four header fields of a method call start and end.
pub struct CallLayout {
    pub dest: int,
    pub path: int,
    pub iface: int,
    pub method: int,
    pub end: int,
}

/// Where the four header fields of a method call with the given texts start
/// and end: the first at offset 16, each of the others on the first multiple
/// of eight behind the one before.
pub open spec fn call_layout(
    dest: Seq<char>,
    path: Seq<char>,
    iface: Seq<char>,
    method: Seq<char>,
) -> CallLayout {
    let s2 = align_up(field_end(16, dest), 8);
    let s3 = align_up(field_end(s2, path), 8);
    let s4 = align_up(field_end(s3, iface), 8);
    CallLayout { dest: 16, path: s2, iface: s3, method: s4, end: field_end(s4, method) }
}

/// Whether the buffer holds the four header fields of a method call where
/// `call_layout` says, and ends with the last of them.
pub open spec fn call_fields_at(
    buf: Seq<u8>,
    dest: Seq<char>,
    path: Seq<char>,
    iface: Seq<char>,
    method: Seq<char>,
) -> bool {
    let at = call_layout(dest, path, iface, method);
    &&& field_at(buf, at.dest, 6, CODE_STRING, dest)
    &&& field_at(buf, at.path, 1, CODE_OBJECT_PATH, path)
    &&& field_at(buf, at.iface, 2, CODE_STRING, iface)
    &&& field_at(buf, at.method, 3, CODE_STRING, method)
}

/// Whether the four texts of a method call are short enough to be built.
pub open spec fn call_fits(
    dest: Seq<char>,
    path: Seq<char>,
    iface: Seq<char>,
    method: Seq<char>,
) -> bool {
    encode_utf8(dest).len() + encode_utf8(path).len() + encode_utf8(iface).len() + encode_utf8(
        method,
    ).len() <= MAX_CALL_TEXT
}

/// The header fields of a method call stand, as they are built, where
/// `call_layout` says.
#[verifier::spinoff_prover]
#[verifier::rlimit(40)]
proof fn lemma_call_fields_layout(
    dest: Seq<char>,
    path: Seq<char>,
    iface: Seq<char>,
    method: Seq<char>,
)
    requires
        call_fits(dest, path, iface, method),
    ensures
        ({
            let fields = call_fields(
                encode_utf8(dest),
                encode_utf8(path),
                encode_utf8(iface),
                encode_utf8(method),
            );
            let at = call_layout(dest, path, iface, method);
            &&& fields.len() == at.end
            &&& 16 <= at.end <= MAX_CALL_TEXT + 112
            &&& call_fields_at(fields, dest, path, iface, method)
            &&& fields.take(16) == call_prefix()
        }),
{
    let at = call_layout(dest, path, iface, method);
    let f0 = call_prefix();
    let f1 = with_field(f0, 6, CODE_STRING, encode_utf8(dest));
    let f2 = with_field(f1, 1, CODE_OBJECT_PATH, encode_utf8(path));
    let f3 = with_field(f2, 2, CODE_STRING, encode_utf8(iface));
    let f4 = with_field(f3, 3, CODE_STRING, encode_utf8(method));
    assert(f0.len() == 16);
    assert(align_up(16, 8) == 16);
    lemma_with_field(f0, 6, CODE_STRING, dest);
    lemma_with_field(f1, 1, CODE_OBJECT_PATH, path);
    lemma_with_field(f2, 2, CODE_STRING, iface);
    lemma_with_field(f3, 3, CODE_STRING, method);
    lemma_field_kept(f1, at.dest, 6, CODE_STRING, dest, 1, CODE_OBJECT_PATH, path);
    lemma_field_kept(f2, at.dest, 6, CODE_STRING, dest, 2, CODE_STRING, iface);
    lemma_field_kept(f3, at.dest, 6, CODE_STRING, dest, 3, CODE_STRING, method);
    lemma_field_kept(f2, at.path, 1, CODE_OBJECT_PATH, path, 2, CODE_STRING, iface);
    lemma_field_kept(f3, at.path, 1, CODE_OBJECT_PATH, path, 3, CODE_STRING, method);
    lemma_field_kept(f3, at.iface, 2, CODE_STRING, iface, 3, CODE_STRING, method);
    assert(f2.take(16) =~= f2.take(f1.len() as int).take(16));
    assert(f3.take(16) =~= f3.take(f2.len() as int).take(16));
    assert(f4.take(16) =~= f4.take(f3.len() as int).take(16));
    assert(f1.take(16) == f0);
}

/// The buffer of a method call as it is sent with the given serial.
pub open spec fn sent_call(
    dest: Seq<char>,
    path: Seq<char>,
    iface: Seq<char>,
    method: Seq<char>,
    serial: u32,
) -> Seq<u8> {
    finalized(
        spec_method_call(
            encode_utf8(dest),
            encode_utf8(path),
            encode_utf8(iface),
            encode_utf8(method),
        ),
        serial,
    )
}

/// A method call that is built can be sent.  As it is sent it is its header
/// and nothing more: the fixed part says so, and the header fields stand in
/// it where `call_layout` says.
#[verifier::spinoff_prover]
#[verifier::rlimit(40)]
proof fn lemma_sent_call_layout(
    dest: Seq<char>,
    path: Seq<char>,
    iface: Seq<char>,
    method: Seq<char>,
    serial: u32,
)
    requires
        call_fits(dest, path, iface, method),
    ensures
        ({
            let sent = sent_call(dest, path, iface, method, serial);
            let at = call_layout(dest, path, iface, method);
            &&& sendable(
                spec_method_call(
                    encode_utf8(dest),
                    encode_utf8(path),
                    encode_utf8(iface),
                    encode_utf8(method),
                ),
            )
            &&& 16 <= at.end <= sent.len()
            &&& sent.len() == align_up(at.end, 8)
            &&& sent[0] == crate::message::ENDIAN_LITTLE
            &&& sent[1] == MESSAGE_TYPE_METHOD_CALL
            &&& sent[2] == 0
            &&& sent[3] == PROTOCOL_VERSION
            &&& le_u32(sent, 4) == 0
            &&& le_u32(sent, 8) == serial
            &&& le_u32(sent, 12) == at.end - 16
            &&& call_fields_at(sent.take(at.end), dest, path, iface, method)
        }),
{
    let at = call_layout(dest, path, iface, method);
    let fields = call_fields(
        encode_utf8(dest),
        encode_utf8(path),
        encode_utf8(iface),
        encode_utf8(method),
    );
    lemma_call_fields_layout(dest, path, iface, method);
    let header = padded(fields, 8);
    let total = header.len() as int;
    assert(total == align_up(at.end, 8));
    let first = with_u32_at(header, 4, total);
    let built = with_u32_at(first, 12, at.end - 16);
    assert(built == spec_method_call(
        encode_utf8(dest),
        encode_utf8(path),
        encode_utf8(iface),
        encode_utf8(method),
    ));
    assert(built.len() == total);
    assert(built.subrange(4, 8) =~= le_bytes_u32(total));
    lemma_u32_round_trip(built, 4, total);
    assert(built.subrange(12, 16) =~= le_bytes_u32(at.end - 16));
    lemma_u32_round_trip(built, 12, at.end - 16);
    assert(forall|i: int| 0 <= i < 4 ==> built[i] == fields.take(16)[i]);
    assert(forall|i: int| 16 <= i < at.end ==> built[i] == fields[i]);
    let sent = finalized(built, serial);
    lemma_finalized_fields(built, serial);
    assert(forall|i: int| 0 <= i < 4 ==> sent[i] == built.take(4)[i]);
    assert(forall|i: int| 12 <= i < sent.len() ==> sent[i] == built.skip(12)[i - 12]);
    assert(le_u32(sent, 12) == le_u32(built, 12));
    let head = sent.take(at.end);
    assert(forall|i: int| 16 <= i < at.end ==> head[i] == fields[i]);
    lemma_field_stays(fields, head, at.dest, 6, CODE_STRING, dest);
    lemma_field_stays(fields, head, at.path, 1, CODE_OBJECT_PATH, path);
    lemma_field_stays(fields, head, at.iface, 2, CODE_STRING, iface);
    lemma_field_stays(fields, head, at.method, 3, CODE_STRING, method);
}

/// The header fields that a method call is built with, by their code.
pub open spec fn call_headers(
    dest: Seq<char>,
    path: Seq<char>,
    iface: Seq<char>,
    method: Seq<char>,
) -> Map<u8, ValueModel> {
    Map::<u8, ValueModel>::empty().insert(6, text_variant(CODE_STRING, dest)).insert(
        1,
        text_variant(CODE_OBJECT_PATH, path),
    ).insert(2, text_variant(CODE_STRING, iface)).insert(3, text_variant(CODE_STRING, method))
}

/// The message that a method call without arguments is built to be: a
/// little-endian method call without flags of the version 1 with its four
/// header fields and no body.
pub open spec fn call_message(
    dest: Seq<char>,
    path: Seq<char>,
    iface: Seq<char>,
    method: Seq<char>,
    serial: u32,
) -> MessageModel {
    MessageModel {
        big_endian: false,
        message_type: MESSAGE_TYPE_METHOD_CALL,
        flags: 0,
        version: PROTOCOL_VERSION,
        serial,
        headers: call_headers(dest, path, iface, method),
        body: Seq::empty(),
    }
}

/// The four header fields of a method call, as they are decoded.
pub open spec fn call_elements(
    dest: Seq<char>,
    path: Seq<char>,
    iface: Seq<char>,
    method: Seq<char>,
) -> Seq<ValueModel> {
    seq![
        field_value(6, CODE_STRING, dest),
        field_value(1, CODE_OBJECT_PATH, path),
        field_value(2, CODE_STRING, iface),
        field_value(3, CODE_STRING, method),
    ]
}

/// The header fields of a method call that stand in a buffer, and fill it,
/// are decoded one after the other.
#[verifier::spinoff_prover]
#[verifier::rlimit(40)]
proof fn lemma_call_elements(
    head: Seq<u8>,
    dest: Seq<char>,
    path: Seq<char>,
    iface: Seq<char>,
    method: Seq<char>,
)
    requires
        call_fields_at(head, dest, path, iface, method),
        head.len() == call_layout(dest, path, iface, method).end,
    ensures
        spec_elements(head, 16, fields_signature(), 1, 63) == Ok::<
            Seq<ValueModel>,
            DemarshalError,
        >(call_elements(dest, path, iface, method)),
{
    let at = call_layout(dest, path, iface, method);
    let e1 = field_end(at.dest, dest);
    let e2 = field_end(at.path, path);
    let e3 = field_end(at.iface, iface);
    let f1 = field_value(6, CODE_STRING, dest);
    let f2 = field_value(1, CODE_OBJECT_PATH, path);
    let f3 = field_value(2, CODE_STRING, iface);
    let f4 = field_value(3, CODE_STRING, method);
    assert(align_up(16, 8) == 16);
    lemma_field_decodes(head, 16, 6, CODE_STRING, dest, 63);
    lemma_field_decodes(head, e1, 1, CODE_OBJECT_PATH, path, 63);
    lemma_field_decodes(head, e2, 2, CODE_STRING, iface, 63);
    lemma_field_decodes(head, e3, 3, CODE_STRING, method, 63);
    lemma_elements_end(head, 63);
    let r4 = seq![f4] + Seq::<ValueModel>::empty();
    lemma_elements_step(head, e3, f4, at.end, Seq::empty(), 63);
    let r3 = seq![f3] + r4;
    lemma_elements_step(head, e2, f3, e3, r4, 63);
    let r2 = seq![f2] + r3;
    lemma_elements_step(head, e1, f2, e2, r3, 63);
    lemma_elements_step(head, 16, f1, e1, r2, 63);
    assert(seq![f1] + r2 =~= call_elements(dest, path, iface, method));
}

/// The decoded header fields of a method call give its headers by code.
proof fn lemma_call_headers(
    dest: Seq<char>,
    path: Seq<char>,
    iface: Seq<char>,
    method: Seq<char>,
)
    ensures
        spec_headers(call_elements(dest, path, iface, method)) == Some(
            call_headers(dest, path, iface, method),
        ),
{
    let none = Seq::<ValueModel>::empty();
    let one = none.push(field_value(6, CODE_STRING, dest));
    let two = one.push(field_value(1, CODE_OBJECT_PATH, path));
    let three = two.push(field_value(2, CODE_STRING, iface));
    let four = three.push(field_value(3, CODE_STRING, method));
    assert(spec_headers(none) == Some(Map::<u8, ValueModel>::empty()));
    lemma_headers_push(none, Map::empty(), 6, CODE_STRING, dest);
    let m1 = Map::<u8, ValueModel>::empty().insert(6, text_variant(CODE_STRING, dest));
    lemma_headers_push(one, m1, 1, CODE_OBJECT_PATH, path);
    let m2 = m1.insert(1, text_variant(CODE_OBJECT_PATH, path));
    lemma_headers_push(two, m2, 2, CODE_STRING, iface);
    let m3 = m2.insert(2, text_variant(CODE_STRING, iface));
    lemma_headers_push(three, m3, 3, CODE_STRING, method);
    assert(four =~= call_elements(dest, path, iface, method));
}

/// What is built can be read.  A method call without arguments that is
/// built from four texts and sent with a serial frames, as it stands on the
/// wire, to the method call with that serial, without flags, with the four
/// texts in its header fields and with an empty body; and the frame is all
/// of what was sent.
#[verifier::spinoff_prover]
#[verifier::rlimit(40)]
pub proof fn lemma_method_call_round_trip(
    dest: Seq<char>,
    path: Seq<char>,
    iface: Seq<char>,
    method: Seq<char>,
    serial: u32,
)
    requires
        call_fits(dest, path, iface, method),
    ensures
        sendable(
            spec_method_call(
                encode_utf8(dest),
                encode_utf8(path),
                encode_utf8(iface),
                encode_utf8(method),
            ),
        ),
        spec_frame(sent_call(dest, path, iface, method, serial)) == Frame::Good(
            call_message(dest, path, iface, method, serial),
            sent_call(dest, path, iface, method, serial).len() as int,
        ),
{
    let sent = sent_call(dest, path, iface, method, serial);
    let at = call_layout(dest, path, iface, method);
    lemma_sent_call_layout(dest, path, iface, method, serial);
    let head = sent.take(fields_end(sent));
    assert(fields_end(sent) == at.end);
    lemma_call_elements(head, dest, path, iface, method);
    assert(le_u32(head, 12) == le_u32(sent, 12));
    lemma_array_of_fields(head, call_elements(dest, path, iface, method));
    lemma_call_headers(dest, path, iface, method);
    assert(spec_header_map(head) == Ok::<Map<u8, ValueModel>, Error>(
        call_headers(dest, path, iface, method),
    )) by {
        reveal(spec_header_map);
    }
    assert(body_start(sent) == sent.len());
    assert(message_of(sent, call_headers(dest, path, iface, method), Seq::empty())
        == call_message(dest, path, iface, method, serial));
}

} // verus!
