//! Decoding of D-Bus values from their little-endian wire form.
//!
//! `spec_value` and its companions say, as mathematical functions of the bytes
//! and the signature, what a buffer decodes to; the executable decoders return
//! exactly that.

use vstd::prelude::*;
use vstd::slice::slice_subrange;
use vstd::string::StringSliceAdditionalSpecFns;
use vstd::utf8::{decode_utf8, valid_utf8};
use crate::types::{
    Array, BasicModel, BasicValue, Dictionary, Path, Signature, Struct, Value, ValueModel,
    Variant,
};

verus! {

/// Why a buffer could not be decoded.
#[derive(Clone, Copy, PartialEq, Eq, Debug, Structural)]
pub enum DemarshalError {
    /// The buffer ends before the value does.
    MessageTooShort,
    /// A boolean other than 0 or 1, a text without its closing NUL, or a
    /// container element that occupies no bytes.
    CorruptedMessage,
    /// A text that is not well-formed UTF-8.
    BadUTF8,
    /// The signature is not the one complete type that was asked for.
    BadSignature,
    /// Containers are nested more deeply than `MAX_DEPTH`.
    NestingTooDeep,
}

/// How deeply arrays, structs, dictionary entries and variants may nest.
pub const MAX_DEPTH: usize = 64;

/// `y`: a byte.
pub const CODE_BYTE: u8 = 121;

/// `b`: a boolean, in 32 bits.
pub const CODE_BOOLEAN: u8 = 98;

/// `n`: a signed number of 16 bits.
pub const CODE_INT16: u8 = 110;

/// `q`: an unsigned number of 16 bits.
pub const CODE_UINT16: u8 = 113;

/// `i`: a signed number of 32 bits.
pub const CODE_INT32: u8 = 105;

/// `u`: an unsigned number of 32 bits.
pub const CODE_UINT32: u8 = 117;

/// `x`: a signed number of 64 bits.
pub const CODE_INT64: u8 = 120;

/// `t`: an unsigned number of 64 bits.
pub const CODE_UINT64: u8 = 116;

/// `d`: a floating-point number of 64 bits.
pub const CODE_DOUBLE: u8 = 100;

/// `s`: a string.
pub const CODE_STRING: u8 = 115;

/// `o`: the path of an object.
pub const CODE_OBJECT_PATH: u8 = 111;

/// `g`: a signature.
pub const CODE_SIGNATURE: u8 = 103;

/// `a`: an array of the type that follows, or a dictionary.
pub const CODE_ARRAY: u8 = 97;

/// `v`: a variant.
pub const CODE_VARIANT: u8 = 118;

/// `(`: the start of a struct.
pub const CODE_STRUCT_OPEN: u8 = 40;

/// `)`: the end of a struct.
pub const CODE_STRUCT_CLOSE: u8 = 41;

/// `{`: the start of a dictionary entry.
pub const CODE_ENTRY_OPEN: u8 = 123;

/// `}`: the end of a dictionary entry.
pub const CODE_ENTRY_CLOSE: u8 = 125;

/// The type codes of the basic types.
pub open spec fn is_basic_code(c: u8) -> bool {
    c == CODE_BYTE || c == CODE_BOOLEAN || c == CODE_INT16 || c == CODE_UINT16 || c == CODE_INT32
        || c == CODE_UINT32 || c == CODE_INT64 || c == CODE_UINT64 || c == CODE_STRING || c
        == CODE_OBJECT_PATH || c == CODE_SIGNATURE
}

/// The boundary on which a value of the type with code `c` starts.
pub open spec fn alignment_of(c: u8) -> int {
    if c == CODE_INT16 || c == CODE_UINT16 {
        2
    } else if c == CODE_BOOLEAN || c == CODE_INT32 || c == CODE_UINT32 || c == CODE_STRING || c
        == CODE_OBJECT_PATH || c == CODE_ARRAY {
        4
    } else if c == CODE_INT64 || c == CODE_UINT64 || c == CODE_DOUBLE || c == CODE_STRUCT_OPEN
        || c == CODE_ENTRY_OPEN {
        8
    } else {
        1
    }
}

/// The number of padding bytes between `off` and the next multiple of `a`.
pub open spec fn padding(off: int, a: int) -> int {
    (a - off % a) % a
}

/// The first multiple of `a` that is not below `off`.
pub open spec fn align_up(off: int, a: int) -> int {
    off + padding(off, a)
}

/// The unsigned 16-bit number held little-endian at `off`.
pub open spec fn le_u16(buf: Seq<u8>, off: int) -> int {
    buf[off] + 256 * buf[off + 1]
}

/// The unsigned 32-bit number held little-endian at `off`.
pub open spec fn le_u32(buf: Seq<u8>, off: int) -> int {
    buf[off] + 256 * buf[off + 1] + 65536 * buf[off + 2] + 16777216 * buf[off + 3]
}

/// The unsigned 64-bit number held little-endian at `off`.
pub open spec fn le_u64(buf: Seq<u8>, off: int) -> int {
    le_u32(buf, off) + 4294967296 * le_u32(buf, off + 4)
}

/// The text of `len` bytes that starts at `start` and is closed by a NUL, and
/// the offset behind that NUL.
pub open spec fn spec_text(buf: Seq<u8>, start: int, len: int) -> Result<
    (Seq<char>, int),
    DemarshalError,
> {
    if start + len + 1 > buf.len() {
        Err(DemarshalError::MessageTooShort)
    } else if buf[start + len] != 0 {
        Err(DemarshalError::CorruptedMessage)
    } else if !valid_utf8(buf.subrange(start, start + len)) {
        Err(DemarshalError::BadUTF8)
    } else {
        Ok((decode_utf8(buf.subrange(start, start + len)), start + len + 1))
    }
}

/// The value of the basic type with code `c` that starts at or after `off`,
/// and the offset behind it.
pub open spec fn spec_basic(buf: Seq<u8>, off: int, c: u8) -> Result<
    (BasicModel, int),
    DemarshalError,
> {
    let at = align_up(off, alignment_of(c));
    if c == CODE_BYTE {
        if at + 1 > buf.len() {
            Err(DemarshalError::MessageTooShort)
        } else {
            Ok((BasicModel::Byte(buf[at]), at + 1))
        }
    } else if c == CODE_INT16 || c == CODE_UINT16 {
        if at + 2 > buf.len() {
            Err(DemarshalError::MessageTooShort)
        } else if c == CODE_INT16 {
            Ok((BasicModel::Int16(le_u16(buf, at) as u16 as i16), at + 2))
        } else {
            Ok((BasicModel::Uint16(le_u16(buf, at) as u16), at + 2))
        }
    } else if c == CODE_BOOLEAN || c == CODE_INT32 || c == CODE_UINT32 {
        if at + 4 > buf.len() {
            Err(DemarshalError::MessageTooShort)
        } else if c == CODE_INT32 {
            Ok((BasicModel::Int32(le_u32(buf, at) as u32 as i32), at + 4))
        } else if c == CODE_UINT32 {
            Ok((BasicModel::Uint32(le_u32(buf, at) as u32), at + 4))
        } else if le_u32(buf, at) == 0 {
            Ok((BasicModel::Boolean(false), at + 4))
        } else if le_u32(buf, at) == 1 {
            Ok((BasicModel::Boolean(true), at + 4))
        } else {
            Err(DemarshalError::CorruptedMessage)
        }
    } else if c == CODE_INT64 || c == CODE_UINT64 {
        if at + 8 > buf.len() {
            Err(DemarshalError::MessageTooShort)
        } else if c == CODE_INT64 {
            Ok((BasicModel::Int64(le_u64(buf, at) as u64 as i64), at + 8))
        } else {
            Ok((BasicModel::Uint64(le_u64(buf, at) as u64), at + 8))
        }
    } else if c == CODE_STRING || c == CODE_OBJECT_PATH {
        if at + 4 > buf.len() {
            Err(DemarshalError::MessageTooShort)
        } else {
            match spec_text(buf, at + 4, le_u32(buf, at)) {
                Err(e) => Err(e),
                Ok((text, end)) => if c == CODE_STRING {
                    Ok((BasicModel::String(text), end))
                } else {
                    Ok((BasicModel::ObjectPath(text), end))
                },
            }
        }
    } else if c == CODE_SIGNATURE {
        if at + 1 > buf.len() {
            Err(DemarshalError::MessageTooShort)
        } else {
            match spec_text(buf, at + 1, buf[at] as int) {
                Err(e) => Err(e),
                Ok((text, end)) => Ok((BasicModel::Signature(text), end)),
            }
        }
    } else {
        Err(DemarshalError::BadSignature)
    }
}

/// `String::from_utf8`: the text that `bytes` encode, if they are well-formed
/// UTF-8, and nothing otherwise.
#[verifier::external_body]
pub(crate) fn string_from_utf8(bytes: Vec<u8>) -> (r: Option<String>)
    ensures
        r is Some <==> valid_utf8(bytes@),
        r matches Some(s) ==> s@ == decode_utf8(bytes@),
{
    String::from_utf8(bytes).ok()
}

/// The first multiple of `a` at or after `off`, if the buffer reaches that far.
fn aligned(len: usize, off: usize, a: usize) -> (r: Option<usize>)
    requires
        off <= len,
        a == 1 || a == 2 || a == 4 || a == 8,
    ensures
        r is Some <==> align_up(off as int, a as int) <= len,
        r matches Some(at) ==> at == align_up(off as int, a as int) && off <= at,
        off <= align_up(off as int, a as int) < off + a,
        align_up(off as int, a as int) % (a as int) == 0,
{
    let pad: usize = (a - off % a) % a;
    if pad > len - off {
        None
    } else {
        Some(off + pad)
    }
}

/// Reads the unsigned 16-bit number at `at`.
fn read_u16(buf: &[u8], at: usize) -> (x: u16)
    requires
        at + 2 <= buf.len(),
    ensures
        x == le_u16(buf@, at as int),
{
    let b0: u16 = buf[at] as u16;
    let b1: u16 = buf[at + 1] as u16;
    b0 + 256 * b1
}

/// Reads the unsigned 32-bit number at `at`.
pub(crate) fn read_u32(buf: &[u8], at: usize) -> (x: u32)
    requires
        at + 4 <= buf.len(),
    ensures
        x == le_u32(buf@, at as int),
{
    let b0: u32 = buf[at] as u32;
    let b1: u32 = buf[at + 1] as u32;
    let b2: u32 = buf[at + 2] as u32;
    let b3: u32 = buf[at + 3] as u32;
    b0 + 256 * b1 + 65536 * b2 + 16777216 * b3
}

/// Reads the unsigned 64-bit number at `at`.
fn read_u64(buf: &[u8], at: usize) -> (x: u64)
    requires
        at + 8 <= buf.len(),
    ensures
        x == le_u64(buf@, at as int),
{
    let lo: u64 = read_u32(buf, at) as u64;
    let hi: u64 = read_u32(buf, at + 4) as u64;
    lo + 4294967296 * hi
}

/// Reads the text of `len` bytes at `start` and its closing NUL.
fn read_text(buf: &[u8], start: usize, len: usize) -> (r: Result<(String, usize), DemarshalError>)
    requires
        start <= buf.len(),
    ensures
        match (r, spec_text(buf@, start as int, len as int)) {
            (Ok((text, end)), Ok((t, e))) => text@ == t && end == e && start < end <= buf.len(),
            (Err(e1), Err(e2)) => e1 == e2,
            _ => false,
        },
{
    if len >= buf.len() - start {
        return Err(DemarshalError::MessageTooShort);
    }
    if buf[start + len] != 0 {
        return Err(DemarshalError::CorruptedMessage);
    }
    let mut bytes: Vec<u8> = Vec::new();
    bytes.extend_from_slice(slice_subrange(buf, start, start + len));
    assert(bytes@ =~= buf@.subrange(start as int, start + len));
    match string_from_utf8(bytes) {
        None => Err(DemarshalError::BadUTF8),
        Some(text) => Ok((text, start + len + 1)),
    }
}

/// Whether `c` is the code of a basic type.
pub fn basic_code(c: u8) -> (b: bool)
    ensures
        b == is_basic_code(c),
{
    c == CODE_BYTE || c == CODE_BOOLEAN || c == CODE_INT16 || c == CODE_UINT16 || c == CODE_INT32
        || c == CODE_UINT32 || c == CODE_INT64 || c == CODE_UINT64 || c == CODE_STRING || c
        == CODE_OBJECT_PATH || c == CODE_SIGNATURE
}

/// The alignment of the type with code `c`.
fn alignment(c: u8) -> (a: usize)
    ensures
        a == alignment_of(c),
        a == 1 || a == 2 || a == 4 || a == 8,
{
    if c == CODE_INT16 || c == CODE_UINT16 {
        2
    } else if c == CODE_BOOLEAN || c == CODE_INT32 || c == CODE_UINT32 || c == CODE_STRING || c
        == CODE_OBJECT_PATH || c == CODE_ARRAY {
        4
    } else if c == CODE_INT64 || c == CODE_UINT64 || c == CODE_DOUBLE || c == CODE_STRUCT_OPEN
        || c == CODE_ENTRY_OPEN {
        8
    } else {
        1
    }
}

/// Whether a decoded basic value and the offset behind it are those that
/// `spec_basic` gives.
pub open spec fn basic_agrees(
    r: Result<(BasicValue, usize), DemarshalError>,
    s: Result<(BasicModel, int), DemarshalError>,
) -> bool {
    match (r, s) {
        (Ok((value, end)), Ok((model, e))) => value@ == model && end == e,
        (Err(e1), Err(e2)) => e1 == e2,
        _ => false,
    }
}

/// Decodes the basic value of type `c` that starts at or after `off`.
pub fn parse_basic(buf: &[u8], off: usize, c: u8) -> (r: Result<(BasicValue, usize), DemarshalError>)
    ensures
        basic_agrees(r, spec_basic(buf@, off as int, c)),
        r matches Ok((_, end)) ==> off < end <= buf.len(),
{
    let len: usize = buf.len();
    if off > len {
        return Err(
            if basic_code(c) {
                DemarshalError::MessageTooShort
            } else {
                DemarshalError::BadSignature
            },
        );
    }
    let at: usize = match aligned(len, off, alignment(c)) {
        None => {
            return Err(
                if basic_code(c) {
                    DemarshalError::MessageTooShort
                } else {
                    DemarshalError::BadSignature
                },
            );
        },
        Some(at) => at,
    };
    let room: usize = len - at;
    if c == CODE_BYTE {
        if room < 1 {
            return Err(DemarshalError::MessageTooShort);
        }
        Ok((BasicValue::Byte(buf[at]), at + 1))
    } else if c == CODE_INT16 || c == CODE_UINT16 {
        if room < 2 {
            return Err(DemarshalError::MessageTooShort);
        }
        let x: u16 = read_u16(buf, at);
        if c == CODE_INT16 {
            Ok((BasicValue::Int16(x as i16), at + 2))
        } else {
            Ok((BasicValue::Uint16(x), at + 2))
        }
    } else if c == CODE_BOOLEAN || c == CODE_INT32 || c == CODE_UINT32 {
        if room < 4 {
            return Err(DemarshalError::MessageTooShort);
        }
        let x: u32 = read_u32(buf, at);
        if c == CODE_INT32 {
            Ok((BasicValue::Int32(x as i32), at + 4))
        } else if c == CODE_UINT32 {
            Ok((BasicValue::Uint32(x), at + 4))
        } else if x == 0 {
            Ok((BasicValue::Boolean(false), at + 4))
        } else if x == 1 {
            Ok((BasicValue::Boolean(true), at + 4))
        } else {
            Err(DemarshalError::CorruptedMessage)
        }
    } else if c == CODE_INT64 || c == CODE_UINT64 {
        if room < 8 {
            return Err(DemarshalError::MessageTooShort);
        }
        let x: u64 = read_u64(buf, at);
        if c == CODE_INT64 {
            Ok((BasicValue::Int64(x as i64), at + 8))
        } else {
            Ok((BasicValue::Uint64(x), at + 8))
        }
    } else if c == CODE_STRING || c == CODE_OBJECT_PATH {
        if room < 4 {
            return Err(DemarshalError::MessageTooShort);
        }
        let n: u32 = read_u32(buf, at);
        match read_text(buf, at + 4, n as usize) {
            Err(e) => Err(e),
            Ok((text, end)) => if c == CODE_STRING {
                Ok((BasicValue::String(text), end))
            } else {
                Ok((BasicValue::ObjectPath(Path(text)), end))
            },
        }
    } else if c == CODE_SIGNATURE {
        if room < 1 {
            return Err(DemarshalError::MessageTooShort);
        }
        let n: u8 = buf[at];
        match read_text(buf, at + 1, n as usize) {
            Err(e) => Err(e),
            Ok((text, end)) => Ok((BasicValue::Signature(Signature(text)), end)),
        }
    } else {
        Err(DemarshalError::BadSignature)
    }
}

/// The text of the signature bytes from `from` up to `to`.
pub open spec fn spec_sig_text(sig: Seq<u8>, from: int, to: int) -> Result<
    Seq<char>,
    DemarshalError,
> {
    if valid_utf8(sig.subrange(from, to)) {
        Ok(decode_utf8(sig.subrange(from, to)))
    } else {
        Err(DemarshalError::BadSignature)
    }
}

/// Where the single complete type that starts at `sig[i]` ends, with at most
/// `depth` containers inside one another.
pub open spec fn spec_type_end(sig: Seq<u8>, i: int, depth: nat) -> Result<int, DemarshalError>
    decreases sig.len() - i, 0nat,
{
    if i < 0 || i >= sig.len() {
        Err(DemarshalError::BadSignature)
    } else if is_basic_code(sig[i]) || sig[i] == CODE_DOUBLE || sig[i] == CODE_VARIANT {
        Ok(i + 1)
    } else if sig[i] == CODE_ARRAY {
        if depth == 0 {
            Err(DemarshalError::NestingTooDeep)
        } else if i + 1 < sig.len() && sig[i + 1] == CODE_ENTRY_OPEN {
            if i + 2 >= sig.len() || !is_basic_code(sig[i + 2]) {
                Err(DemarshalError::BadSignature)
            } else {
                match spec_type_end(sig, i + 3, (depth - 1) as nat) {
                    Err(e) => Err(e),
                    Ok(j) => if 0 <= j < sig.len() && sig[j] == CODE_ENTRY_CLOSE {
                        Ok(j + 1)
                    } else {
                        Err(DemarshalError::BadSignature)
                    },
                }
            }
        } else {
            spec_type_end(sig, i + 1, (depth - 1) as nat)
        }
    } else if sig[i] == CODE_STRUCT_OPEN {
        if depth == 0 {
            Err(DemarshalError::NestingTooDeep)
        } else {
            match spec_fields_end(sig, i + 1, (depth - 1) as nat) {
                Err(e) => Err(e),
                Ok(j) => if j == i + 1 {
                    Err(DemarshalError::BadSignature)
                } else {
                    Ok(j + 1)
                },
            }
        }
    } else {
        Err(DemarshalError::BadSignature)
    }
}

/// Where the `)` stands that closes the struct whose remaining fields start
/// at `sig[i]`.
pub open spec fn spec_fields_end(sig: Seq<u8>, i: int, depth: nat) -> Result<int, DemarshalError>
    decreases sig.len() - i, 1nat,
{
    if i < 0 || i >= sig.len() {
        Err(DemarshalError::BadSignature)
    } else if sig[i] == CODE_STRUCT_CLOSE {
        Ok(i)
    } else {
        match spec_type_end(sig, i, depth) {
            Err(e) => Err(e),
            Ok(j) => if j <= i || j > sig.len() {
                Err(DemarshalError::BadSignature)
            } else {
                spec_fields_end(sig, j, depth)
            },
        }
    }
}

/// The value of the single complete type at `sig[i]` that starts at or after
/// `off`, the offset behind it, and the index behind its type.
pub open spec fn spec_value(buf: Seq<u8>, off: int, sig: Seq<u8>, i: int, depth: nat) -> Result<
    (ValueModel, int, int),
    DemarshalError,
>
    decreases buf.len() - off, sig.len() - i, 1nat,
{
    if i < 0 || i >= sig.len() {
        Err(DemarshalError::BadSignature)
    } else if off < 0 || off > buf.len() {
        Err(DemarshalError::MessageTooShort)
    } else if is_basic_code(sig[i]) {
        match spec_basic(buf, off, sig[i]) {
            Err(e) => Err(e),
            Ok((b, end)) => Ok((ValueModel::Basic(b), end, i + 1)),
        }
    } else if sig[i] == CODE_DOUBLE {
        let at = align_up(off, 8);
        if at + 8 > buf.len() {
            Err(DemarshalError::MessageTooShort)
        } else {
            Ok((ValueModel::Double(le_u64(buf, at) as u64), at + 8, i + 1))
        }
    } else if sig[i] == CODE_VARIANT {
        match spec_variant(buf, off, depth) {
            Err(e) => Err(e),
            Ok((v, end)) => Ok((v, end, i + 1)),
        }
    } else if sig[i] == CODE_ARRAY {
        spec_array(buf, off, sig, i, depth)
    } else if sig[i] == CODE_STRUCT_OPEN {
        spec_struct(buf, off, sig, i, depth)
    } else {
        Err(DemarshalError::BadSignature)
    }
}

/// The variant that starts at `off`: its signature, then the one value of
/// that signature.
pub open spec fn spec_variant(buf: Seq<u8>, off: int, depth: nat) -> Result<
    (ValueModel, int),
    DemarshalError,
>
    decreases buf.len() - off, 0int, 0nat,
{
    if depth == 0 {
        Err(DemarshalError::NestingTooDeep)
    } else if off < 0 || off + 1 > buf.len() {
        Err(DemarshalError::MessageTooShort)
    } else {
        let n = buf[off] as int;
        match spec_text(buf, off + 1, n) {
            Err(e) => Err(e),
            Ok((text, start)) => match spec_value(
                buf,
                start,
                buf.subrange(off + 1, off + 1 + n),
                0,
                (depth - 1) as nat,
            ) {
                Err(e) => Err(e),
                Ok((v, end, j)) => if j != n {
                    Err(DemarshalError::BadSignature)
                } else {
                    Ok((ValueModel::Variant(Box::new(v), text), end))
                },
            },
        }
    }
}

/// Where the elements of the array whose length field stands at `at` start,
/// given the code `c` of their type.
pub open spec fn array_start(at: int, c: u8) -> int {
    align_up(at + 4, alignment_of(c))
}

/// Where the array of the type at `sig[i]`, which is an `a`, that starts at or
/// after `off` has its elements: where they start, where they end, the index
/// behind the type of the array, and the text of its signature.
#[verifier::opaque]
pub open spec fn spec_array_frame(buf: Seq<u8>, off: int, sig: Seq<u8>, i: int, depth: nat) -> Result<
    (int, int, int, Seq<char>),
    DemarshalError,
> {
    let at = align_up(off, 4);
    if depth == 0 {
        Err(DemarshalError::NestingTooDeep)
    } else if off < 0 || at + 4 > buf.len() {
        Err(DemarshalError::MessageTooShort)
    } else if i < 0 || i + 1 >= sig.len() {
        Err(DemarshalError::BadSignature)
    } else {
        let start = array_start(at, sig[i + 1]);
        let end = start + le_u32(buf, at);
        match spec_type_end(sig, i, depth) {
            Err(e) => Err(e),
            Ok(te) => match spec_sig_text(sig, i, te) {
                Err(e) => Err(e),
                Ok(text) => if end > buf.len() {
                    Err(DemarshalError::MessageTooShort)
                } else {
                    Ok((start, end, te, text))
                },
            },
        }
    }
}

/// The elements of an array start behind its length and end in the buffer.
pub proof fn lemma_array_frame(buf: Seq<u8>, off: int, sig: Seq<u8>, i: int, depth: nat)
    ensures
        spec_array_frame(buf, off, sig, i, depth) matches Ok((start, end, _, _)) ==> 0 <= off
            && off + 4 <= start <= end <= buf.len() && depth > 0 && 0 <= i && i + 1 < sig.len(),
{
    reveal(spec_array_frame);
}

/// The array or dictionary of the type at `sig[i]`, which is an `a`, that
/// starts at or after `off`.
pub open spec fn spec_array(buf: Seq<u8>, off: int, sig: Seq<u8>, i: int, depth: nat) -> Result<
    (ValueModel, int, int),
    DemarshalError,
>
    decreases buf.len() - off, sig.len() - i, 0nat,
{
    match spec_array_frame(buf, off, sig, i, depth) {
        Err(e) => Err(e),
        Ok((start, end, te, text)) => {
            proof {
                lemma_array_frame(buf, off, sig, i, depth);
            }
            if sig[i + 1] == CODE_ENTRY_OPEN {
                match spec_entries(buf.take(end), start, sig, i + 1, (depth - 1) as nat) {
                    Err(e) => Err(e),
                    Ok(entries) => Ok((ValueModel::Dictionary(entries, text), end, te)),
                }
            } else {
                match spec_elements(buf.take(end), start, sig, i + 1, (depth - 1) as nat) {
                    Err(e) => Err(e),
                    Ok(objects) => Ok((ValueModel::Array(objects, text), end, te)),
                }
            }
        },
    }
}

/// The struct of the type at `sig[i]`, which is a `(`, that starts at or
/// after `off`.
pub open spec fn spec_struct(buf: Seq<u8>, off: int, sig: Seq<u8>, i: int, depth: nat) -> Result<
    (ValueModel, int, int),
    DemarshalError,
>
    decreases buf.len() - off, sig.len() - i, 0nat,
{
    let at = align_up(off, 8);
    if depth == 0 {
        Err(DemarshalError::NestingTooDeep)
    } else if off < 0 || at > buf.len() {
        Err(DemarshalError::MessageTooShort)
    } else if i < 0 || i >= sig.len() {
        Err(DemarshalError::BadSignature)
    } else {
        match spec_fields(buf, at, sig, i + 1, (depth - 1) as nat) {
            Err(e) => Err(e),
            Ok((objects, end, j)) => match spec_sig_text(sig, i, j + 1) {
                Err(e) => Err(e),
                Ok(text) => if objects.len() == 0 {
                    Err(DemarshalError::BadSignature)
                } else {
                    Ok((ValueModel::Struct(objects, text), end, j + 1))
                },
            },
        }
    }
}

/// The elements of the type at `sig[i]` that fill the buffer from `off` to its
/// end.
pub open spec fn spec_elements(buf: Seq<u8>, off: int, sig: Seq<u8>, i: int, depth: nat) -> Result<
    Seq<ValueModel>,
    DemarshalError,
>
    decreases buf.len() - off, sig.len() - i, 2nat,
{
    if off >= buf.len() {
        Ok(Seq::empty())
    } else {
        match spec_value(buf, off, sig, i, depth) {
            Err(e) => Err(e),
            Ok((v, next, _)) => if next <= off || next > buf.len() {
                Err(DemarshalError::CorruptedMessage)
            } else {
                match spec_elements(buf, next, sig, i, depth) {
                    Err(e) => Err(e),
                    Ok(rest) => Ok(seq![v] + rest),
                }
            },
        }
    }
}

/// The dictionary entries of the type at `sig[i]`, which is a `{`, that fill
/// the buffer from `off` to its end.
pub open spec fn spec_entries(buf: Seq<u8>, off: int, sig: Seq<u8>, i: int, depth: nat) -> Result<
    Seq<(BasicModel, ValueModel)>,
    DemarshalError,
>
    decreases buf.len() - off, sig.len() - i, 2nat,
{
    let at = align_up(off, 8);
    if off >= buf.len() {
        Ok(Seq::empty())
    } else if at > buf.len() || i < 0 || i + 1 >= sig.len() {
        Err(DemarshalError::MessageTooShort)
    } else {
        match spec_basic(buf, at, sig[i + 1]) {
            Err(e) => Err(e),
            Ok((key, mid)) => if mid <= off || mid > buf.len() {
                Err(DemarshalError::CorruptedMessage)
            } else {
                match spec_value(buf, mid, sig, i + 2, depth) {
                    Err(e) => Err(e),
                    Ok((v, next, _)) => if next <= off || next > buf.len() {
                        Err(DemarshalError::CorruptedMessage)
                    } else {
                        match spec_entries(buf, next, sig, i, depth) {
                            Err(e) => Err(e),
                            Ok(rest) => Ok(seq![(key, v)] + rest),
                        }
                    },
                }
            },
        }
    }
}

/// The fields of a struct from `sig[i]` up to its `)`, the offset behind the
/// last of them, and the index of the `)`.
pub open spec fn spec_fields(buf: Seq<u8>, off: int, sig: Seq<u8>, i: int, depth: nat) -> Result<
    (Seq<ValueModel>, int, int),
    DemarshalError,
>
    decreases buf.len() - off, sig.len() - i, 2nat,
{
    if i < 0 || i >= sig.len() {
        Err(DemarshalError::BadSignature)
    } else if sig[i] == CODE_STRUCT_CLOSE {
        Ok((Seq::empty(), off, i))
    } else {
        match spec_value(buf, off, sig, i, depth) {
            Err(e) => Err(e),
            Ok((v, next, j)) => if next <= off || next > buf.len() {
                Err(DemarshalError::CorruptedMessage)
            } else {
                match spec_fields(buf, next, sig, j, depth) {
                    Err(e) => Err(e),
                    Ok((rest, end, close)) => Ok((seq![v] + rest, end, close)),
                }
            },
        }
    }
}

/// Whether a decoded value, the offset behind it and the index behind its
/// type are those that `spec_value` gives.
pub open spec fn value_agrees(
    r: Result<(Value, usize, usize), DemarshalError>,
    s: Result<(ValueModel, int, int), DemarshalError>,
) -> bool {
    match (r, s) {
        (Ok((value, end, j)), Ok((model, e, sj))) => value.model() == model && end == e && j == sj,
        (Err(e1), Err(e2)) => e1 == e2,
        _ => false,
    }
}

/// Whether an index into a signature is the one that `spec_type_end` gives.
pub open spec fn index_agrees(r: Result<usize, DemarshalError>, s: Result<int, DemarshalError>) -> bool {
    match (r, s) {
        (Ok(j), Ok(sj)) => j == sj,
        (Err(e1), Err(e2)) => e1 == e2,
        _ => false,
    }
}

/// Finds the end of the single complete type that starts at `sig[i]`.
pub fn type_end(sig: &[u8], i: usize, depth: usize) -> (r: Result<usize, DemarshalError>)
    ensures
        index_agrees(r, spec_type_end(sig@, i as int, depth as nat)),
        r matches Ok(j) ==> i < j <= sig.len(),
    decreases sig.len() - i, 0nat,
{
    if i >= sig.len() {
        return Err(DemarshalError::BadSignature);
    }
    let c: u8 = sig[i];
    if basic_code(c) || c == CODE_DOUBLE || c == CODE_VARIANT {
        Ok(i + 1)
    } else if c == CODE_ARRAY {
        if depth == 0 {
            Err(DemarshalError::NestingTooDeep)
        } else if i + 1 < sig.len() && sig[i + 1] == CODE_ENTRY_OPEN {
            if i + 2 >= sig.len() || !basic_code(sig[i + 2]) {
                Err(DemarshalError::BadSignature)
            } else {
                match type_end(sig, i + 3, depth - 1) {
                    Err(e) => Err(e),
                    Ok(j) => if j < sig.len() && sig[j] == CODE_ENTRY_CLOSE {
                        Ok(j + 1)
                    } else {
                        Err(DemarshalError::BadSignature)
                    },
                }
            }
        } else {
            type_end(sig, i + 1, depth - 1)
        }
    } else if c == CODE_STRUCT_OPEN {
        if depth == 0 {
            Err(DemarshalError::NestingTooDeep)
        } else {
            match fields_end(sig, i + 1, depth - 1) {
                Err(e) => Err(e),
                Ok(j) => if j == i + 1 {
                    Err(DemarshalError::BadSignature)
                } else {
                    Ok(j + 1)
                },
            }
        }
    } else {
        Err(DemarshalError::BadSignature)
    }
}

/// Finds the `)` that closes the struct whose remaining fields start at `sig[i]`.
fn fields_end(sig: &[u8], i: usize, depth: usize) -> (r: Result<usize, DemarshalError>)
    ensures
        index_agrees(r, spec_fields_end(sig@, i as int, depth as nat)),
        r matches Ok(j) ==> i <= j < sig.len(),
    decreases sig.len() - i, 1nat,
{
    if i >= sig.len() {
        return Err(DemarshalError::BadSignature);
    }
    if sig[i] == CODE_STRUCT_CLOSE {
        return Ok(i);
    }
    match type_end(sig, i, depth) {
        Err(e) => Err(e),
        Ok(j) => fields_end(sig, j, depth),
    }
}

/// The text of the signature bytes from `from` up to `to`.
fn sig_text(sig: &[u8], from: usize, to: usize) -> (r: Result<String, DemarshalError>)
    requires
        from <= to <= sig.len(),
    ensures
        match (r, spec_sig_text(sig@, from as int, to as int)) {
            (Ok(text), Ok(t)) => text@ == t,
            (Err(e1), Err(e2)) => e1 == e2,
            _ => false,
        },
{
    let mut bytes: Vec<u8> = Vec::new();
    bytes.extend_from_slice(slice_subrange(sig, from, to));
    assert(bytes@ =~= sig@.subrange(from as int, to as int));
    match string_from_utf8(bytes) {
        None => Err(DemarshalError::BadSignature),
        Some(text) => Ok(text),
    }
}

/// Decodes the value of the single complete type at `sig[i]` that starts at or
/// after `off`.  Returns the value, the offset behind it and the index behind
/// its type.
pub fn parse_value(buf: &[u8], off: usize, sig: &[u8], i: usize, depth: usize) -> (r: Result<
    (Value, usize, usize),
    DemarshalError,
>)
    ensures
        value_agrees(r, spec_value(buf@, off as int, sig@, i as int, depth as nat)),
        r matches Ok((_, end, j)) ==> off < end <= buf.len() && i < j <= sig.len(),
    decreases buf.len() - off, sig.len() - i, 1nat,
{
    let len: usize = buf.len();
    if i >= sig.len() {
        return Err(DemarshalError::BadSignature);
    }
    if off > len {
        return Err(DemarshalError::MessageTooShort);
    }
    let c: u8 = sig[i];
    if basic_code(c) {
        match parse_basic(buf, off, c) {
            Err(e) => Err(e),
            Ok((b, end)) => Ok((Value::BasicValue(b), end, i + 1)),
        }
    } else if c == CODE_DOUBLE {
        match aligned(len, off, 8) {
            None => Err(DemarshalError::MessageTooShort),
            Some(at) => if len - at < 8 {
                Err(DemarshalError::MessageTooShort)
            } else {
                Ok((Value::Double(read_u64(buf, at)), at + 8, i + 1))
            },
        }
    } else if c == CODE_VARIANT {
        match parse_variant(buf, off, depth) {
            Err(e) => Err(e),
            Ok((v, end)) => Ok((v, end, i + 1)),
        }
    } else if c == CODE_ARRAY {
        parse_array(buf, off, sig, i, depth)
    } else if c == CODE_STRUCT_OPEN {
        parse_struct(buf, off, sig, i, depth)
    } else {
        Err(DemarshalError::BadSignature)
    }
}

/// Decodes the variant that starts at `off`.
fn parse_variant(buf: &[u8], off: usize, depth: usize) -> (r: Result<
    (Value, usize),
    DemarshalError,
>)
    requires
        off <= buf.len(),
    ensures
        match (r, spec_variant(buf@, off as int, depth as nat)) {
            (Ok((value, end)), Ok((model, e))) => value.model() == model && end == e,
            (Err(e1), Err(e2)) => e1 == e2,
            _ => false,
        },
        r matches Ok((_, end)) ==> off < end <= buf.len(),
    decreases buf.len() - off, 0int, 0nat,
{
    if depth == 0 {
        return Err(DemarshalError::NestingTooDeep);
    }
    if buf.len() - off < 1 {
        return Err(DemarshalError::MessageTooShort);
    }
    let n: usize = buf[off] as usize;
    match read_text(buf, off + 1, n) {
        Err(e) => Err(e),
        Ok((text, start)) => {
            let inner = slice_subrange(buf, off + 1, off + 1 + n);
            match parse_value(buf, start, inner, 0, depth - 1) {
                Err(e) => Err(e),
                Ok((v, end, j)) => if j != n {
                    Err(DemarshalError::BadSignature)
                } else {
                    let value = Value::Variant(
                        Variant { object: Box::new(v), signature: Signature(text) },
                    );
                    proof {
                        crate::types::lemma_container_models(value);
                    }
                    Ok((value, end))
                },
            }
        },
    }
}

/// Decodes the struct whose type starts at `sig[i]`, which is a `(`.
fn parse_struct(buf: &[u8], off: usize, sig: &[u8], i: usize, depth: usize) -> (r: Result<
    (Value, usize, usize),
    DemarshalError,
>)
    requires
        off <= buf.len(),
        i < sig.len(),
    ensures
        value_agrees(r, spec_struct(buf@, off as int, sig@, i as int, depth as nat)),
        r matches Ok((_, end, j)) ==> off < end <= buf.len() && i < j <= sig.len(),
    decreases buf.len() - off, sig.len() - i, 0nat,
{
    if depth == 0 {
        return Err(DemarshalError::NestingTooDeep);
    }
    let at: usize = match aligned(buf.len(), off, 8) {
        None => {
            return Err(DemarshalError::MessageTooShort);
        },
        Some(at) => at,
    };
    match parse_fields(buf, at, sig, i + 1, depth - 1) {
        Err(e) => Err(e),
        Ok((objects, end, j)) => match sig_text(sig, i, j + 1) {
            Err(e) => Err(e),
            Ok(text) => if objects.len() == 0 {
                Err(DemarshalError::BadSignature)
            } else {
                let value = Value::Struct(Struct { objects, signature: Signature(text) });
                proof {
                    crate::types::lemma_container_models(value);
                }
                Ok((value, end, j + 1))
            },
        },
    }
}

/// Finds where the array whose type starts at `sig[i]` has its elements.
fn array_frame(buf: &[u8], off: usize, sig: &[u8], i: usize, depth: usize) -> (r: Result<
    (usize, usize, usize, String),
    DemarshalError,
>)
    requires
        off <= buf.len(),
    ensures
        match (r, spec_array_frame(buf@, off as int, sig@, i as int, depth as nat)) {
            (Ok((start, end, te, text)), Ok((s, e, t, x))) => start == s && end == e && te == t
                && text@ == x,
            (Err(e1), Err(e2)) => e1 == e2,
            _ => false,
        },
        r matches Ok((start, end, te, _)) ==> off < start <= end <= buf.len() && i < te
            <= sig.len() && i + 1 < sig.len() && depth > 0,
{
    reveal(spec_array_frame);
    let len: usize = buf.len();
    if depth == 0 {
        return Err(DemarshalError::NestingTooDeep);
    }
    let at: usize = match aligned(len, off, 4) {
        None => {
            return Err(DemarshalError::MessageTooShort);
        },
        Some(at) => at,
    };
    if len - at < 4 {
        return Err(DemarshalError::MessageTooShort);
    }
    if i >= sig.len() || sig.len() - i < 2 {
        return Err(DemarshalError::BadSignature);
    }
    let te: usize = match type_end(sig, i, depth) {
        Err(e) => {
            return Err(e);
        },
        Ok(te) => te,
    };
    let text: String = match sig_text(sig, i, te) {
        Err(e) => {
            return Err(e);
        },
        Ok(text) => text,
    };
    let n: usize = read_u32(buf, at) as usize;
    let start: usize = match aligned(len, at + 4, alignment(sig[i + 1])) {
        None => {
            return Err(DemarshalError::MessageTooShort);
        },
        Some(start) => start,
    };
    if n > len - start {
        return Err(DemarshalError::MessageTooShort);
    }
    Ok((start, start + n, te, text))
}

/// Decodes the array or dictionary whose type starts at `sig[i]`, which is
/// an `a`.
fn parse_array(buf: &[u8], off: usize, sig: &[u8], i: usize, depth: usize) -> (r: Result<
    (Value, usize, usize),
    DemarshalError,
>)
    requires
        off <= buf.len(),
        i < sig.len(),
    ensures
        value_agrees(r, spec_array(buf@, off as int, sig@, i as int, depth as nat)),
        r matches Ok((_, end, j)) ==> off < end <= buf.len() && i < j <= sig.len(),
    decreases buf.len() - off, sig.len() - i, 0nat,
{
    let (start, end, te, text) = match array_frame(buf, off, sig, i, depth) {
        Err(e) => {
            return Err(e);
        },
        Ok(frame) => frame,
    };
    let window = slice_subrange(buf, 0, end);
    assert(window@ == buf@.take(end as int));
    if sig[i + 1] == CODE_ENTRY_OPEN {
        match parse_entries(window, start, sig, i + 1, depth - 1) {
            Err(e) => Err(e),
            Ok(entries) => {
                let value = Value::Dictionary(Dictionary { entries, signature: Signature(text) });
                proof {
                    crate::types::lemma_container_models(value);
                }
                Ok((value, end, te))
            },
        }
    } else {
        match parse_elements(window, start, sig, i + 1, depth - 1) {
            Err(e) => Err(e),
            Ok(objects) => {
                let value = Value::Array(Array { objects, signature: Signature(text) });
                proof {
                    crate::types::lemma_container_models(value);
                }
                Ok((value, end, te))
            },
        }
    }
}

/// Decodes the elements of the type at `sig[i]` that fill the buffer from
/// `off` to its end.
fn parse_elements(buf: &[u8], off: usize, sig: &[u8], i: usize, depth: usize) -> (r: Result<
    Vec<Value>,
    DemarshalError,
>)
    requires
        off <= buf.len(),
    ensures
        match (r, spec_elements(buf@, off as int, sig@, i as int, depth as nat)) {
            (Ok(objects), Ok(ms)) => crate::types::models(objects@) == ms,
            (Err(e1), Err(e2)) => e1 == e2,
            _ => false,
        },
    decreases buf.len() - off, sig.len() - i, 2nat,
{
    let ghost whole = spec_elements(buf@, off as int, sig@, i as int, depth as nat);
    let mut objects: Vec<Value> = Vec::new();
    let mut at: usize = off;
    while at < buf.len()
        invariant
            off <= at <= buf.len(),
            whole == spec_elements(buf@, off as int, sig@, i as int, depth as nat),
            whole == match spec_elements(buf@, at as int, sig@, i as int, depth as nat) {
                Ok(rest) => Ok::<Seq<ValueModel>, DemarshalError>(
                    crate::types::models(objects@) + rest,
                ),
                Err(e) => Err(e),
            },
        decreases buf.len() - at,
    {
        match parse_value(buf, at, sig, i, depth) {
            Err(e) => {
                return Err(e);
            },
            Ok((v, next, _)) => {
                proof {
                    let rest = spec_elements(buf@, next as int, sig@, i as int, depth as nat);
                    if rest is Ok {
                        assert(crate::types::models(objects@.push(v)) + rest->Ok_0
                            =~= crate::types::models(objects@) + (seq![v.model()] + rest->Ok_0));
                    }
                }
                objects.push(v);
                at = next;
            },
        }
    }
    proof {
        assert(crate::types::models(objects@) + Seq::<ValueModel>::empty()
            =~= crate::types::models(objects@));
    }
    Ok(objects)
}

/// Decodes the dictionary entries of the type at `sig[i]`, which is a `{`,
/// that fill the buffer from `off` to its end.
fn parse_entries(buf: &[u8], off: usize, sig: &[u8], i: usize, depth: usize) -> (r: Result<
    Vec<(BasicValue, Value)>,
    DemarshalError,
>)
    requires
        off <= buf.len(),
    ensures
        match (r, spec_entries(buf@, off as int, sig@, i as int, depth as nat)) {
            (Ok(entries), Ok(ms)) => crate::types::entry_models(entries@) == ms,
            (Err(e1), Err(e2)) => e1 == e2,
            _ => false,
        },
    decreases buf.len() - off, sig.len() - i, 2nat,
{
    let ghost whole = spec_entries(buf@, off as int, sig@, i as int, depth as nat);
    let mut entries: Vec<(BasicValue, Value)> = Vec::new();
    let mut at: usize = off;
    while at < buf.len()
        invariant
            off <= at <= buf.len(),
            whole == spec_entries(buf@, off as int, sig@, i as int, depth as nat),
            whole == match spec_entries(buf@, at as int, sig@, i as int, depth as nat) {
                Ok(rest) => Ok::<Seq<(BasicModel, ValueModel)>, DemarshalError>(
                    crate::types::entry_models(entries@) + rest,
                ),
                Err(e) => Err(e),
            },
        decreases buf.len() - at,
    {
        let start: usize = match aligned(buf.len(), at, 8) {
            None => {
                return Err(DemarshalError::MessageTooShort);
            },
            Some(start) => start,
        };
        if i >= sig.len() || sig.len() - i < 2 {
            return Err(DemarshalError::MessageTooShort);
        }
        let (key, mid) = match parse_basic(buf, start, sig[i + 1]) {
            Err(e) => {
                return Err(e);
            },
            Ok(found) => found,
        };
        match parse_value(buf, mid, sig, i + 2, depth) {
            Err(e) => {
                return Err(e);
            },
            Ok((v, next, _)) => {
                proof {
                    let rest = spec_entries(buf@, next as int, sig@, i as int, depth as nat);
                    if rest is Ok {
                        assert(crate::types::entry_models(entries@.push((key, v))) + rest->Ok_0
                            =~= crate::types::entry_models(entries@) + (seq![(key@, v.model())]
                            + rest->Ok_0));
                    }
                }
                entries.push((key, v));
                at = next;
            },
        }
    }
    proof {
        assert(crate::types::entry_models(entries@) + Seq::<(BasicModel, ValueModel)>::empty()
            =~= crate::types::entry_models(entries@));
    }
    Ok(entries)
}

/// Decodes the fields of a struct from `sig[i]` up to its `)`.  Returns the
/// fields, the offset behind the last of them and the index of the `)`.
fn parse_fields(buf: &[u8], off: usize, sig: &[u8], i: usize, depth: usize) -> (r: Result<
    (Vec<Value>, usize, usize),
    DemarshalError,
>)
    requires
        off <= buf.len(),
    ensures
        match (r, spec_fields(buf@, off as int, sig@, i as int, depth as nat)) {
            (Ok((objects, end, j)), Ok((ms, e, sj))) => crate::types::models(objects@) == ms && end
                == e && j == sj,
            (Err(e1), Err(e2)) => e1 == e2,
            _ => false,
        },
        r matches Ok((objects, end, j)) ==> off <= end <= buf.len() && i <= j < sig.len() && (
        objects.len() > 0 ==> off < end),
    decreases buf.len() - off, sig.len() - i, 2nat,
{
    let ghost whole = spec_fields(buf@, off as int, sig@, i as int, depth as nat);
    let mut objects: Vec<Value> = Vec::new();
    let mut at: usize = off;
    let mut k: usize = i;
    loop
        invariant
            off <= at <= buf.len(),
            i <= k,
            objects.len() > 0 ==> off < at,
            whole == spec_fields(buf@, off as int, sig@, i as int, depth as nat),
            whole == match spec_fields(buf@, at as int, sig@, k as int, depth as nat) {
                Ok((rest, end, j)) => Ok::<(Seq<ValueModel>, int, int), DemarshalError>(
                    (crate::types::models(objects@) + rest, end, j),
                ),
                Err(e) => Err(e),
            },
        decreases sig.len() - k,
    {
        if k >= sig.len() {
            return Err(DemarshalError::BadSignature);
        }
        if sig[k] == CODE_STRUCT_CLOSE {
            proof {
                assert(crate::types::models(objects@) + Seq::<ValueModel>::empty()
                    =~= crate::types::models(objects@));
            }
            return Ok((objects, at, k));
        }
        match parse_value(buf, at, sig, k, depth) {
            Err(e) => {
                return Err(e);
            },
            Ok((v, next, j)) => {
                proof {
                    let rest = spec_fields(buf@, next as int, sig@, j as int, depth as nat);
                    if rest is Ok {
                        assert(crate::types::models(objects@.push(v)) + rest->Ok_0.0
                            =~= crate::types::models(objects@) + (seq![v.model()] + rest->Ok_0.0));
                    }
                }
                objects.push(v);
                at = next;
                k = j;
            },
        }
    }
}

/// The value that the buffer holds at or after `offset`, and the offset
/// behind it, where `sig` is the signature of one complete type.
pub open spec fn spec_demarshal(buf: Seq<u8>, offset: int, sig: Seq<u8>) -> Result<
    (ValueModel, int),
    DemarshalError,
> {
    match spec_value(buf, offset, sig, 0, MAX_DEPTH as nat) {
        Err(e) => Err(e),
        Ok((value, end, j)) => if j != sig.len() {
            Err(DemarshalError::BadSignature)
        } else {
            Ok((value, end))
        },
    }
}

/// Decodes the value of the signature `sig`, which has to be one complete
/// type, that the buffer holds at or after `*offset`, and moves `*offset`
/// behind it.  Offsets count from the start of the message, by which values
/// are aligned.  On an error `*offset` stays.
pub fn demarshal(buf: &[u8], offset: &mut usize, sig: &str) -> (r: Result<Value, DemarshalError>)
    ensures
        match spec_demarshal(buf@, *old(offset) as int, sig.spec_bytes()) {
            Ok((model, end)) => r matches Ok(value) && value.model() == model && *final(offset)
                == end,
            Err(e) => r == Err::<Value, DemarshalError>(e) && *final(offset) == *old(offset),
        },
{
    let code = sig.as_bytes();
    match parse_value(buf, *offset, code, 0, MAX_DEPTH) {
        Err(e) => Err(e),
        Ok((value, end, j)) => if j != code.len() {
            Err(DemarshalError::BadSignature)
        } else {
            *offset = end;
            Ok(value)
        },
    }
}

} // verus!
