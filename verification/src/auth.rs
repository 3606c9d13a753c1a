//! The lines of the authentication handshake.

use rustc_serialize::hex::ToHex;
use vstd::prelude::*;
use vstd::string::StringSliceAdditionalSpecFns;

verus! {

/// The lower-case hexadecimal digit for a number below sixteen.
pub open spec fn hex_digit(d: int) -> u8 {
    if d < 10 {
        (48 + d) as u8
    } else {
        (87 + d) as u8
    }
}

/// The bytes in hexadecimal: for each byte two lower-case digits, the high
/// half first.
pub open spec fn spec_hex(data: Seq<u8>) -> Seq<u8> {
    Seq::new(
        2 * data.len(),
        |i: int|
            if i % 2 == 0 {
                hex_digit(data[i / 2] as int / 16)
            } else {
                hex_digit(data[i / 2] as int % 16)
            },
    )
}

/// `rustc_serialize::hex::ToHex::to_hex` for a slice of bytes: two lower-case
/// hexadecimal digits for each byte, the high half first.  The digits are
/// handed back as bytes.
#[verifier::external_body]
fn to_hex(data: &[u8]) -> (r: Vec<u8>)
    requires
        2 * data@.len() <= usize::MAX,
    ensures
        r@ == spec_hex(data@),
{
    data.to_hex().into_bytes()
}

/// The digits of `n` in base ten, without leading zeros.
pub open spec fn decimal_digits(n: nat) -> Seq<u8>
    decreases n,
{
    if n < 10 {
        seq![(48 + n) as u8]
    } else {
        decimal_digits(n / 10).push((48 + n % 10) as u8)
    }
}

/// Writes `n` in base ten.
pub fn decimal(n: u32) -> (r: Vec<u8>)
    ensures
        r@ == decimal_digits(n as nat),
        1 <= r@.len() <= 10,
    decreases n,
{
    if n < 10 {
        let mut digits: Vec<u8> = Vec::new();
        digits.push((48 + n) as u8);
        assert(digits@ =~= decimal_digits(n as nat));
        digits
    } else {
        let mut digits = decimal(n / 10);
        digits.push((48 + n % 10) as u8);
        proof {
            lemma_decimal_length(n as nat);
        }
        digits
    }
}

/// A number below ten to the power of `k` has at most `k` digits.
proof fn lemma_decimal_length(n: nat)
    ensures
        1 <= decimal_digits(n).len(),
        n < 10 ==> decimal_digits(n).len() == 1,
        n < 100 ==> decimal_digits(n).len() <= 2,
        n < 1000 ==> decimal_digits(n).len() <= 3,
        n < 10000 ==> decimal_digits(n).len() <= 4,
        n < 100000 ==> decimal_digits(n).len() <= 5,
        n < 1000000 ==> decimal_digits(n).len() <= 6,
        n < 10000000 ==> decimal_digits(n).len() <= 7,
        n < 100000000 ==> decimal_digits(n).len() <= 8,
        n < 1000000000 ==> decimal_digits(n).len() <= 9,
        n < 10000000000 ==> decimal_digits(n).len() <= 10,
    decreases n,
{
    if n >= 10 {
        lemma_decimal_length(n / 10);
    }
}

/// The name under which a client that does not identify itself signs.
pub open spec fn spec_anonymous_name() -> Seq<u8> {
    "libdbus 1.8.12".spec_bytes()
}

/// The command that asks for anonymous authentication.
pub open spec fn spec_auth_anonymous() -> Seq<u8> {
    "AUTH ANONYMOUS ".spec_bytes() + spec_hex(spec_anonymous_name()) + "\r\n".spec_bytes()
}

/// The command that asks for authentication as the user with the given id:
/// the id in base ten, and that text in hexadecimal.
pub open spec fn spec_auth_external(uid: u32) -> Seq<u8> {
    "AUTH EXTERNAL ".spec_bytes() + spec_hex(decimal_digits(uid as nat)) + "\r\n".spec_bytes()
}

/// The line that ends the handshake.
pub open spec fn spec_begin() -> Seq<u8> {
    "BEGIN\r\n".spec_bytes()
}

/// Whether a reply line accepts the authentication: it begins with `"OK "`.
pub open spec fn accepted(line: Seq<u8>) -> bool {
    line.len() >= 3 && line[0] == 79 && line[1] == 75 && line[2] == 32
}

/// The command that asks for anonymous authentication.
pub fn auth_anonymous_command() -> (cmd: Vec<u8>)
    ensures
        cmd@ == spec_auth_anonymous(),
{
    let name = "libdbus 1.8.12".as_bytes();
    proof {
        reveal_strlit("libdbus 1.8.12");
        vstd::string::is_ascii_spec_bytes("libdbus 1.8.12");
    }
    let mut cmd: Vec<u8> = Vec::new();
    cmd.extend_from_slice("AUTH ANONYMOUS ".as_bytes());
    let digits = to_hex(name);
    cmd.extend_from_slice(digits.as_slice());
    cmd.extend_from_slice("\r\n".as_bytes());
    assert(cmd@ =~= spec_auth_anonymous());
    cmd
}

/// The command that asks for authentication as the user with the given id.
pub fn auth_external_command(uid: u32) -> (cmd: Vec<u8>)
    ensures
        cmd@ == spec_auth_external(uid),
{
    let mut cmd: Vec<u8> = Vec::new();
    cmd.extend_from_slice("AUTH EXTERNAL ".as_bytes());
    let id = decimal(uid);
    let digits = to_hex(id.as_slice());
    cmd.extend_from_slice(digits.as_slice());
    cmd.extend_from_slice("\r\n".as_bytes());
    assert(cmd@ =~= spec_auth_external(uid));
    cmd
}

/// The line that ends the handshake.
pub fn begin_command() -> (cmd: Vec<u8>)
    ensures
        cmd@ == spec_begin(),
{
    let mut cmd: Vec<u8> = Vec::new();
    cmd.extend_from_slice("BEGIN\r\n".as_bytes());
    assert(cmd@ =~= spec_begin());
    cmd
}

} // verus!
