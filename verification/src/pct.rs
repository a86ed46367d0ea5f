//! Percent-encoding of generated links and percent-decoding of request paths.
//!
//! The coding itself is done by the `percent-encoding` crate; its exact
//! behaviour is stated here as spec functions, and the path helpers are
//! verified against them.
use vstd::prelude::*;
use crate::ascii::append_bytes;

verus! {

/// ASCII letter or digit.
pub open spec fn is_alnum(b: u8) -> bool {
    (48 <= b <= 57) || (65 <= b <= 90) || (97 <= b <= 122)
}

/// The uppercase hex digit for `x` (`x < 16`).
pub open spec fn hex_upper(x: u8) -> u8 {
    if x < 10 {
        (48 + x) as u8
    } else {
        (55 + x) as u8  // 10 -> 'A'
    }
}

/// The value of a hex digit byte, or `None` if `b` is not one.
pub open spec fn hex_val(b: u8) -> Option<u8> {
    if 48 <= b <= 57 {
        Some((b - 48) as u8)
    } else if 65 <= b <= 70 {
        Some((b - 55) as u8)
    } else if 97 <= b <= 102 {
        Some((b - 87) as u8)
    } else {
        None
    }
}

/// Percent-encoding with every byte that is not an ASCII letter or digit
/// written as `%XX` with uppercase hex digits.
pub open spec fn pct_encode_of(s: Seq<u8>) -> Seq<u8>
    decreases s.len(),
{
    if s.len() == 0 {
        Seq::empty()
    } else {
        let h = s[0];
        (if is_alnum(h) {
            seq![h]
        } else {
            seq![37u8, hex_upper(h / 16), hex_upper(h % 16)]
        }) + pct_encode_of(s.skip(1))
    }
}

/// Percent-decoding: `%` followed by two hex digits (either case) becomes
/// that byte; any other byte is copied through unchanged.
pub open spec fn pct_decode_of(s: Seq<u8>) -> Seq<u8>
    decreases s.len(),
{
    if s.len() == 0 {
        Seq::empty()
    } else if s[0] == 37 && s.len() >= 3 && hex_val(s[1]) is Some && hex_val(s[2]) is Some {
        seq![(hex_val(s[1]).unwrap() * 16 + hex_val(s[2]).unwrap()) as u8] + pct_decode_of(
            s.skip(3),
        )
    } else {
        seq![s[0]] + pct_decode_of(s.skip(1))
    }
}

/// Relies on `percent_encoding::percent_encode` with the `NON_ALPHANUMERIC`
/// set: every byte that is not an ASCII letter or digit (non-ASCII bytes
/// included) is written as `%XX` with uppercase hex digits; letters and
/// digits pass through.
#[verifier::external_body]
fn percent_encode_all(b: &Vec<u8>) -> (r: Vec<u8>)
    ensures
        r@ == pct_encode_of(b@),
{
    percent_encoding::percent_encode(b.as_slice(), percent_encoding::NON_ALPHANUMERIC)
        .to_string()
        .into_bytes()
}

/// Relies on `percent_encoding::percent_decode`: a `%` followed by two hex
/// digits of either case decodes to that byte, and every other byte is
/// passed through unchanged.
#[verifier::external_body]
fn percent_decode_bytes(b: &Vec<u8>) -> (r: Vec<u8>)
    ensures
        r@ == pct_decode_of(b@),
{
    percent_encoding::percent_decode(b.as_slice()).collect()
}

/// A listing link for a directory entry: `./` followed by the
/// percent-encoded name.
pub fn encode_path(name: &Vec<u8>) -> (r: Vec<u8>)
    ensures
        r@ == seq![46u8, 47u8] + pct_encode_of(name@),
{
    let mut r: Vec<u8> = Vec::new();
    r.push(46);
    r.push(47);
    let enc = percent_encode_all(name);
    append_bytes(&mut r, &enc);
    assert(r@ =~= seq![46u8, 47u8] + pct_encode_of(name@));
    r
}

/// Percent-decode a request path into raw bytes.
pub fn decode_path(path: &Vec<u8>) -> (r: Vec<u8>)
    ensures
        r@ == pct_decode_of(path@),
{
    percent_decode_bytes(path)
}

} // verus!
