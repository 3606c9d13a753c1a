//! Encoding of values into their little-endian wire form.

use vstd::prelude::*;
use crate::demarshal::{le_u32, padding};

verus! {

/// The four bytes of `x`, lowest first.
pub open spec fn le_bytes_u32(x: int) -> Seq<u8> {
    seq![
        (x % 256) as u8,
        ((x / 256) % 256) as u8,
        ((x / 65536) % 256) as u8,
        ((x / 16777216) % 256) as u8,
    ]
}

/// As many zero bytes as the number says.
pub open spec fn zeros(n: int) -> Seq<u8> {
    Seq::new(n as nat, |i: int| 0u8)
}

/// `buf` followed by zero bytes up to the next multiple of `a`.
pub open spec fn padded(buf: Seq<u8>, a: int) -> Seq<u8> {
    buf + zeros(padding(buf.len() as int, a))
}

/// `buf` followed by `x` as an aligned 32-bit number.
pub open spec fn with_u32(buf: Seq<u8>, x: int) -> Seq<u8> {
    padded(buf, 4) + le_bytes_u32(x)
}

/// Reading back four bytes written by `le_bytes_u32` gives the number.
pub proof fn lemma_u32_round_trip(buf: Seq<u8>, at: int, x: int)
    requires
        0 <= x <= u32::MAX,
        0 <= at,
        at + 4 <= buf.len(),
        buf.subrange(at, at + 4) == le_bytes_u32(x),
    ensures
        le_u32(buf, at) == x,
{
    let b = buf.subrange(at, at + 4);
    assert(buf[at] == b[0]);
    assert(buf[at + 1] == b[1]);
    assert(buf[at + 2] == b[2]);
    assert(buf[at + 3] == b[3]);
}

/// Appends zero bytes up to the next multiple of `a`.
pub fn pad_to(buf: &mut Vec<u8>, a: usize)
    requires
        a == 1 || a == 2 || a == 4 || a == 8,
    ensures
        final(buf)@ == padded(old(buf)@, a as int),
        final(buf)@.len() % (a as nat) == 0,
        old(buf)@.len() <= final(buf)@.len() < old(buf)@.len() + a,
{
    let pad: usize = (a - buf.len() % a) % a;
    let mut k: usize = 0;
    while k < pad
        invariant
            k <= pad < 8,
            buf@ == old(buf)@ + zeros(k as int),
        decreases pad - k,
    {
        buf.push(0u8);
        assert(buf@ =~= old(buf)@ + zeros(k + 1));
        k = k + 1;
    }
}

/// Appends `x` as an aligned 32-bit number.
pub fn encode_u32(x: u32, buf: &mut Vec<u8>)
    ensures
        final(buf)@ == with_u32(old(buf)@, x as int),
        old(buf)@.len() + 4 <= final(buf)@.len() < old(buf)@.len() + 8,
{
    pad_to(buf, 4);
    let ghost start = buf@;
    buf.push((x % 256) as u8);
    buf.push(((x / 256) % 256) as u8);
    buf.push(((x / 65536) % 256) as u8);
    buf.push(((x / 16777216) % 256) as u8);
    assert(buf@ =~= start + le_bytes_u32(x as int));
}

/// `buf` followed by a text as an aligned string: its length in 32 bits,
/// its bytes and a NUL.
pub open spec fn with_string(buf: Seq<u8>, text: Seq<u8>) -> Seq<u8> {
    with_u32(buf, text.len() as int) + text + seq![0u8]
}

/// `buf` followed by a header field whose value is a text: padding up to a
/// multiple of eight, the code of the field, the signature of the value,
/// which is the one type code `type_code`, and the text as a string.
#[verifier::opaque]
pub open spec fn with_field(buf: Seq<u8>, code: u8, type_code: u8, text: Seq<u8>) -> Seq<u8> {
    with_string(padded(buf, 8) + seq![code, 1u8, type_code, 0u8], text)
}

/// The bytes with the four bytes at `at` replaced by `x` as a 32-bit number.
pub open spec fn with_u32_at(buf: Seq<u8>, at: int, x: int) -> Seq<u8> {
    buf.take(at) + le_bytes_u32(x) + buf.skip(at + 4)
}

/// Appends a text as an aligned string.
pub fn encode_string(text: &[u8], buf: &mut Vec<u8>)
    requires
        text.len() <= u32::MAX,
    ensures
        final(buf)@ == with_string(old(buf)@, text@),
        old(buf)@.len() + text@.len() + 5 <= final(buf)@.len() < old(buf)@.len() + text@.len() + 9,
{
    encode_u32(text.len() as u32, buf);
    buf.extend_from_slice(text);
    buf.push(0u8);
}

/// Appends a header field whose value is a text of the type `type_code`.
pub fn encode_field(code: u8, type_code: u8, text: &[u8], buf: &mut Vec<u8>)
    requires
        text.len() <= u32::MAX,
    ensures
        final(buf)@ == with_field(old(buf)@, code, type_code, text@),
        old(buf)@.len() + text@.len() + 9 <= final(buf)@.len() < old(buf)@.len() + text@.len()
            + 24,
        final(buf)@.take(old(buf)@.len() as int) == old(buf)@,
{
    reveal(with_field);
    pad_to(buf, 8);
    let ghost start = buf@;
    buf.push(code);
    buf.push(1u8);
    buf.push(type_code);
    buf.push(0u8);
    assert(buf@ =~= start + seq![code, 1u8, type_code, 0u8]);
    encode_string(text, buf);
    assert(buf@.take(old(buf)@.len() as int) =~= old(buf)@);
}

/// Replaces the four bytes at `at` by `x` as a 32-bit number.
pub fn put_u32_at(buf: &mut Vec<u8>, at: usize, x: u32)
    requires
        at + 4 <= old(buf).len(),
    ensures
        final(buf)@ == with_u32_at(old(buf)@, at as int, x as int),
        final(buf)@.len() == old(buf)@.len(),
{
    buf.set(at, (x % 256) as u8);
    buf.set(at + 1, ((x / 256) % 256) as u8);
    buf.set(at + 2, ((x / 65536) % 256) as u8);
    buf.set(at + 3, ((x / 16777216) % 256) as u8);
    assert(buf@ =~= with_u32_at(old(buf)@, at as int, x as int));
}

} // verus!
