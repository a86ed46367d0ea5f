//! ASCII string literals as byte vectors, for header values and fixed HTML.
use vstd::prelude::*;

verus! {

/// The bytes of an ASCII string, character by character.
pub open spec fn ascii_of(s: &str) -> Seq<u8> {
    s@.map_values(|c: char| c as u8)
}

/// Render an ASCII string literal as bytes.
pub fn lit(s: &str) -> (r: Vec<u8>)
    requires
        vstd::string::is_ascii(s),
    ensures
        r@ == ascii_of(s),
{
    broadcast use vstd::string::is_ascii_spec_bytes;

    let r = s.as_bytes_vec();
    assert(r@ =~= ascii_of(s));
    r
}

} // verus!
