//! Bus addresses.
//!
//! An address names a transport and, after a colon, gives a list of keys
//! with their values, separated by commas: `unix:path=/run/bus,guid=01`.
//! Several addresses may follow one another, separated by semicolons; the
//! first one counts.  In a value a `%` and two hexadecimal digits stand for
//! the byte with that code.

use vstd::prelude::*;
use vstd::slice::slice_subrange;
use vstd::string::StringSliceAdditionalSpecFns;
use vstd::utf8::{decode_utf8, valid_utf8};
use crate::demarshal::string_from_utf8;

verus! {

/// Why a bus address was not accepted.
#[derive(Clone, Copy, PartialEq, Eq, Debug, Structural)]
pub enum ServerAddressError {
    /// The address names a transport other than `unix`.
    UnknownTransport,
    /// The address gives neither a `path` nor an `abstract` name.
    MissingPath,
    /// A `%` in the path is not followed by two hexadecimal digits.
    BadEscape,
    /// The path is not well-formed UTF-8.
    BadPath,
}

/// The address of a Unix domain socket.
#[derive(Clone, PartialEq, Eq, Debug)]
pub struct UnixAddress {
    path: String,
}

impl UnixAddress {
    /// The path of the socket.  The name of an abstract socket follows a NUL.
    pub closed spec fn spec_path(&self) -> Seq<char> {
        self.path@
    }

    /// The path of the socket.  The name of an abstract socket follows a NUL.
    pub fn path(&self) -> (path: &str)
        ensures
            path@ == self.spec_path(),
    {
        self.path.as_str()
    }
}

/// The address of a bus.
#[derive(Clone, PartialEq, Eq, Debug)]
pub enum ServerAddress {
    Unix(UnixAddress),
}

/// The index of the first `c` in `s` at or after `from`, or the length of
/// `s` if there is none.
pub open spec fn find_byte(s: Seq<u8>, c: u8, from: int) -> int
    decreases s.len() - from,
{
    if from < 0 || from >= s.len() {
        s.len() as int
    } else if s[from] == c {
        from
    } else {
        find_byte(s, c, from + 1)
    }
}

/// Whether `prefix` stands in `s` at `at`.
pub open spec fn has_prefix_at(s: Seq<u8>, at: int, prefix: Seq<u8>) -> bool {
    0 <= at && at + prefix.len() <= s.len() && s.subrange(at, at + prefix.len()) == prefix
}

/// The key that gives the path of a socket in the file system.
pub open spec fn key_path() -> Seq<u8> {
    "path=".spec_bytes()
}

/// The key that gives the name of an abstract socket.
pub open spec fn key_abstract() -> Seq<u8> {
    "abstract=".spec_bytes()
}

/// The transport of Unix domain sockets.
pub open spec fn transport_unix() -> Seq<u8> {
    "unix:".spec_bytes()
}

/// The value of the first `path` or `abstract` key among the keys of `s`
/// from `at` on, as it is written, and whether the key is `abstract`.
pub open spec fn spec_unix_path(s: Seq<u8>, at: int) -> Result<(bool, Seq<u8>), ServerAddressError>
    decreases s.len() - at,
{
    let end = find_byte(s, 44, at);
    if at < 0 || at >= s.len() {
        Err(ServerAddressError::MissingPath)
    } else if has_prefix_at(s.take(end), at, key_path()) {
        Ok((false, s.subrange(at + key_path().len(), end)))
    } else if has_prefix_at(s.take(end), at, key_abstract()) {
        Ok((true, s.subrange(at + key_abstract().len(), end)))
    } else if end < at || end >= s.len() {
        Err(ServerAddressError::MissingPath)
    } else {
        spec_unix_path(s, end + 1)
    }
}

/// The number that a hexadecimal digit stands for.
pub open spec fn hex_value(c: u8) -> Option<int> {
    if 48 <= c <= 57 {
        Some(c - 48)
    } else if 97 <= c <= 102 {
        Some(c - 87)
    } else if 65 <= c <= 70 {
        Some(c - 55)
    } else {
        None
    }
}

/// The bytes that the value stands for from `at` on: each byte itself, but
/// for a `%` with its two digits the byte with that code.
pub open spec fn spec_unescape(value: Seq<u8>, at: int) -> Result<Seq<u8>, ServerAddressError>
    decreases value.len() - at,
{
    if at < 0 || at >= value.len() {
        Ok(Seq::empty())
    } else if value[at] != 37 {
        match spec_unescape(value, at + 1) {
            Err(e) => Err(e),
            Ok(rest) => Ok(seq![value[at]] + rest),
        }
    } else if at + 2 >= value.len() {
        Err(ServerAddressError::BadEscape)
    } else {
        match (hex_value(value[at + 1]), hex_value(value[at + 2]), spec_unescape(value, at + 3)) {
            (Some(high), Some(low), Ok(rest)) => Ok(seq![(16 * high + low) as u8] + rest),
            (Some(_), Some(_), Err(e)) => Err(e),
            _ => Err(ServerAddressError::BadEscape),
        }
    }
}

/// The path of the socket that the first address in `addr` names, as bytes.
/// The name of an abstract socket follows a NUL.
pub open spec fn spec_address_path(addr: Seq<u8>) -> Result<Seq<u8>, ServerAddressError> {
    let first = addr.take(find_byte(addr, 59, 0));
    if has_prefix_at(first, 0, transport_unix()) {
        match spec_unix_path(first, transport_unix().len() as int) {
            Err(e) => Err(e),
            Ok((hidden, value)) => match spec_unescape(value, 0) {
                Err(e) => Err(e),
                Ok(path) => if hidden {
                    Ok(seq![0u8] + path)
                } else {
                    Ok(path)
                },
            },
        }
    } else {
        Err(ServerAddressError::UnknownTransport)
    }
}

/// The path of the socket that the first address in `addr` names.
pub open spec fn spec_server_address(addr: Seq<u8>) -> Result<Seq<char>, ServerAddressError> {
    match spec_address_path(addr) {
        Err(e) => Err(e),
        Ok(path) => if valid_utf8(path) {
            Ok(decode_utf8(path))
        } else {
            Err(ServerAddressError::BadPath)
        },
    }
}

/// Finds the first `c` in `s` at or after `from`.
fn find(s: &[u8], c: u8, from: usize) -> (at: usize)
    ensures
        at == find_byte(s@, c, from as int),
        from <= s.len() ==> from <= at <= s.len(),
        at == s.len() || s[at as int] == c,
{
    let mut at: usize = from;
    while at < s.len()
        invariant
            from <= at,
            find_byte(s@, c, from as int) == find_byte(s@, c, at as int),
        decreases s.len() - at,
    {
        if s[at] == c {
            return at;
        }
        at = at + 1;
    }
    s.len()
}

/// Whether `prefix` stands in `s` at `at`.
fn starts_with_at(s: &[u8], at: usize, prefix: &[u8]) -> (b: bool)
    ensures
        b == has_prefix_at(s@, at as int, prefix@),
{
    if at > s.len() || prefix.len() > s.len() - at {
        return false;
    }
    let mut k: usize = 0;
    while k < prefix.len()
        invariant
            k <= prefix.len(),
            at + prefix.len() <= s.len(),
            s@.subrange(at as int, at + k) == prefix@.take(k as int),
        decreases prefix.len() - k,
    {
        if s[at + k] != prefix[k] {
            assert(s@.subrange(at as int, at + prefix.len())[k as int] != prefix@[k as int]);
            return false;
        }
        assert(s@.subrange(at as int, at + k + 1) =~= s@.subrange(at as int, at + k).push(
            s@[at + k],
        ));
        assert(prefix@.take(k + 1) =~= prefix@.take(k as int).push(prefix@[k as int]));
        k = k + 1;
    }
    assert(prefix@.take(prefix.len() as int) =~= prefix@);
    true
}

/// The number that a hexadecimal digit stands for.
fn hex_digit_value(c: u8) -> (r: Option<u8>)
    ensures
        match (r, hex_value(c)) {
            (Some(v), Some(x)) => v == x && v < 16,
            (None, None) => true,
            _ => false,
        },
{
    if 48 <= c && c <= 57 {
        Some(c - 48)
    } else if 97 <= c && c <= 102 {
        Some(c - 87)
    } else if 65 <= c && c <= 70 {
        Some(c - 55)
    } else {
        None
    }
}

/// Appends to `out` the bytes that the part of `s` from `from` up to `to`
/// stands for.
fn unescape(s: &[u8], from: usize, to: usize, out: &mut Vec<u8>) -> (r: Result<
    (),
    ServerAddressError,
>)
    requires
        from <= to <= s.len(),
    ensures
        match spec_unescape(s@.subrange(from as int, to as int), 0) {
            Ok(path) => r is Ok && final(out)@ == old(out)@ + path,
            Err(e) => r == Err::<(), ServerAddressError>(e),
        },
{
    let ghost value = s@.subrange(from as int, to as int);
    let mut at: usize = from;
    while at < to
        invariant
            from <= at <= to <= s.len(),
            value == s@.subrange(from as int, to as int),
            spec_unescape(value, 0) == match spec_unescape(value, at - from) {
                Ok(rest) => Ok::<Seq<u8>, ServerAddressError>(
                    out@.skip(old(out)@.len() as int) + rest,
                ),
                Err(e) => Err(e),
            },
            out@.take(old(out)@.len() as int) == old(out)@,
            old(out)@.len() <= out@.len(),
        decreases to - at,
    {
        let ghost before = out@;
        let ghost start = old(out)@.len() as int;
        if s[at] != 37 {
            out.push(s[at]);
            proof {
                let rest = spec_unescape(value, at - from + 1);
                if rest is Ok {
                    assert(out@.skip(start) + rest->Ok_0 =~= before.skip(start) + (seq![
                        value[at - from],
                    ] + rest->Ok_0));
                }
                assert(out@.take(start) =~= before.take(start));
            }
            at = at + 1;
        } else {
            if to - at < 3 {
                return Err(ServerAddressError::BadEscape);
            }
            let high = match hex_digit_value(s[at + 1]) {
                None => {
                    return Err(ServerAddressError::BadEscape);
                },
                Some(high) => high,
            };
            let low = match hex_digit_value(s[at + 2]) {
                None => {
                    return Err(ServerAddressError::BadEscape);
                },
                Some(low) => low,
            };
            out.push(16 * high + low);
            proof {
                let rest = spec_unescape(value, at - from + 3);
                if rest is Ok {
                    assert(out@.skip(start) + rest->Ok_0 =~= before.skip(start) + (seq![
                        (16 * high + low) as u8,
                    ] + rest->Ok_0));
                }
                assert(out@.take(start) =~= before.take(start));
            }
            at = at + 3;
        }
    }
    proof {
        assert(out@ =~= out@.take(old(out)@.len() as int) + out@.skip(old(out)@.len() as int));
        assert(out@.skip(old(out)@.len() as int) + Seq::<u8>::empty() =~= out@.skip(
            old(out)@.len() as int,
        ));
    }
    Ok(())
}

/// Finds the value of the first `path` or `abstract` key among the keys of
/// `s` from `from` on: whether the key is `abstract`, and where the value
/// starts and ends.
fn unix_path(s: &[u8], from: usize) -> (r: Result<(bool, usize, usize), ServerAddressError>)
    ensures
        match (r, spec_unix_path(s@, from as int)) {
            (Ok((hidden, start, end)), Ok((h, value))) => hidden == h && start <= end <= s.len()
                && value == s@.subrange(start as int, end as int),
            (Err(e1), Err(e2)) => e1 == e2,
            _ => false,
        },
{
    let mut at: usize = from;
    loop
        invariant
            spec_unix_path(s@, from as int) == spec_unix_path(s@, at as int),
        decreases s.len() - at,
    {
        if at >= s.len() {
            return Err(ServerAddressError::MissingPath);
        }
        let end = find(s, 44, at);
        let pair = slice_subrange(s, 0, end);
        if starts_with_at(pair, at, "path=".as_bytes()) {
            return Ok((false, at + "path=".as_bytes().len(), end));
        }
        if starts_with_at(pair, at, "abstract=".as_bytes()) {
            return Ok((true, at + "abstract=".as_bytes().len(), end));
        }
        if end >= s.len() {
            return Err(ServerAddressError::MissingPath);
        }
        at = end + 1;
    }
}

impl ServerAddress {
    /// Reads an address.
    pub fn parse(addr: &str) -> (r: Result<ServerAddress, ServerAddressError>)
        ensures
            match (r, spec_server_address(addr.spec_bytes())) {
                (Ok(ServerAddress::Unix(unix)), Ok(path)) => unix.spec_path() == path,
                (Err(e1), Err(e2)) => e1 == e2,
                _ => false,
            },
    {
        let all = addr.as_bytes();
        let stop = find(all, 59, 0);
        let s = slice_subrange(all, 0, stop);
        assert(s@ == all@.take(stop as int));
        if !starts_with_at(s, 0, "unix:".as_bytes()) {
            return Err(ServerAddressError::UnknownTransport);
        }
        let (hidden, start, end) = match unix_path(s, "unix:".as_bytes().len()) {
            Err(e) => {
                return Err(e);
            },
            Ok(found) => found,
        };
        let mut path: Vec<u8> = Vec::new();
        if hidden {
            path.push(0u8);
        }
        match unescape(s, start, end, &mut path) {
            Err(e) => {
                return Err(e);
            },
            Ok(()) => {},
        }
        match string_from_utf8(path) {
            None => Err(ServerAddressError::BadPath),
            Some(path) => Ok(ServerAddress::Unix(UnixAddress { path })),
        }
    }
}

impl std::str::FromStr for ServerAddress {
    type Err = ServerAddressError;

    /// Reads an address, as `parse` does.
    fn from_str(addr: &str) -> (r: Result<ServerAddress, ServerAddressError>)
        ensures
            match (r, spec_server_address(addr.spec_bytes())) {
                (Ok(ServerAddress::Unix(unix)), Ok(path)) => unix.spec_path() == path,
                (Err(e1), Err(e2)) => e1 == e2,
                _ => false,
            },
    {
        ServerAddress::parse(addr)
    }
}

} // verus!
