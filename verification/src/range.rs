//! Parsing and normalization of `Range: bytes=...` headers.
//!
//! The accepted grammar is `bytes=` followed by a comma-separated list of
//! `x-y`, `x-` and `-n` specs. Malformed or unsatisfiable specs are
//! discarded; the survivors keep the order the client gave them.
use vstd::prelude::*;

verus! {

/// A half-open byte interval `[start, end)` inside the file.
#[derive(Clone, Copy, Debug, PartialEq, Eq, Structural)]
pub struct HttpRange {
    pub start: u64,
    pub end: u64,
}

/// One spec from a `Range` header: `x-y`, `x-`, or `-n`.
#[derive(Clone, Copy, Debug, PartialEq, Eq, Structural)]
pub enum RangeSpec {
    FromTo(u64, u64),
    AllFrom(u64),
    Last(u64),
}

/// Clamp one spec against the file length: `x-y` becomes
/// `[x, min(y+1, length))` and is kept when non-empty; `x-` is kept as
/// `[x, length)` when `x < length`; `-n` is kept as `[length-n, length)`
/// when `0 < n < length` (every kept interval is non-empty). Everything
/// else is discarded.
pub open spec fn clamp_of(s: RangeSpec, length: u64) -> Option<HttpRange> {
    match s {
        RangeSpec::FromTo(x, y) => {
            let e = if y >= length {
                length
            } else {
                (y + 1) as u64
            };
            if x < e {
                Some(HttpRange { start: x, end: e })
            } else {
                None
            }
        },
        RangeSpec::AllFrom(x) => if x < length {
            Some(HttpRange { start: x, end: length })
        } else {
            None
        },
        RangeSpec::Last(n) => if 0 < n < length {
            Some(HttpRange { start: (length - n) as u64, end: length })
        } else {
            None
        },
    }
}

/// The satisfiable ranges of a spec list, clamped, in the order the client
/// sent them: each spec contributes its clamped range or nothing.
pub open spec fn norm_of(specs: Seq<RangeSpec>, length: u64) -> Seq<HttpRange>
    decreases specs.len(),
{
    if specs.len() == 0 {
        Seq::empty()
    } else {
        norm_of(specs.drop_last(), length) + (match clamp_of(specs.last(), length) {
            Some(r) => seq![r],
            None => Seq::empty(),
        })
    }
}

/// Clamp one spec against the file length.
pub fn clamp(s: &RangeSpec, length: u64) -> (r: Option<HttpRange>)
    ensures
        r == clamp_of(*s, length),
{
    match s {
        RangeSpec::FromTo(x, y) => {
            let e: u64 = if *y >= length {
                length
            } else {
                *y + 1
            };
            if *x < e {
                Some(HttpRange { start: *x, end: e })
            } else {
                None
            }
        },
        RangeSpec::AllFrom(x) => {
            if *x < length {
                Some(HttpRange { start: *x, end: length })
            } else {
                None
            }
        },
        RangeSpec::Last(n) => {
            if 0 < *n && *n < length {
                Some(HttpRange { start: length - *n, end: length })
            } else {
                None
            }
        },
    }
}

/// Normalize a parsed spec list against the file length, keeping request
/// order.
pub fn process_range(specs: &Vec<RangeSpec>, length: u64) -> (r: Vec<HttpRange>)
    ensures
        r@ == norm_of(specs@, length),
{
    let mut r: Vec<HttpRange> = Vec::new();
    let mut i: usize = 0;
    proof {
        assert(specs@.take(0) =~= Seq::<RangeSpec>::empty());
    }
    while i < specs.len()
        invariant
            i <= specs.len(),
            r@ == norm_of(specs@.take(i as int), length),
        decreases specs.len() - i,
    {
        proof {
            assert(specs@.take(i as int + 1).drop_last() =~= specs@.take(i as int));
            assert(specs@.take(i as int + 1).last() == specs@[i as int]);
        }
        match clamp(&specs[i], length) {
            Some(hr) => r.push(hr),
            None => (),
        }
        assert(r@ =~= norm_of(specs@.take(i as int + 1), length));
        i += 1;
    }
    proof {
        assert(specs@.take(specs.len() as int) =~= specs@);
    }
    r
}

/// Among lists whose satisfiable specs are the same up to order, a single
/// surviving range is the same range: when normalization of one list yields
/// exactly one range and another list's survivors form the same multiset,
/// the two normalizations are equal, so status and body do not depend on
/// the order the specs were given in.
pub proof fn lemma_single_range_order(l1: Seq<RangeSpec>, l2: Seq<RangeSpec>, length: u64)
    requires
        norm_of(l1, length).to_multiset() == norm_of(l2, length).to_multiset(),
        norm_of(l1, length).len() == 1,
    ensures
        norm_of(l2, length) == norm_of(l1, length),
{
    broadcast use vstd::seq_lib::to_multiset_len, vstd::seq_lib::to_multiset_contains;

    let n1 = norm_of(l1, length);
    let n2 = norm_of(l2, length);
    assert(n1.to_multiset().len() == n1.len());
    assert(n2.to_multiset().len() == n2.len());
    assert(n2.len() == 1);
    assert(n1.contains(n1[0]));
    assert(n1.to_multiset().count(n1[0]) > 0);
    assert(n2.contains(n1[0]));
    assert(n2[0] == n1[0]);
    assert(n2 =~= n1);
}

/// Every range that survives normalization is non-empty and inside the
/// file.
pub proof fn lemma_norm_wf(specs: Seq<RangeSpec>, length: u64)
    ensures
        forall|i: int|
            0 <= i < norm_of(specs, length).len() ==> (#[trigger] norm_of(specs, length)[i]).start
                < norm_of(specs, length)[i].end <= length,
    decreases specs.len(),
{
    if specs.len() > 0 {
        lemma_norm_wf(specs.drop_last(), length);
        let prev = norm_of(specs.drop_last(), length);
        let whole = norm_of(specs, length);
        assert forall|i: int| 0 <= i < whole.len() implies (#[trigger] whole[i]).start
            < whole[i].end <= length by {
            if i < prev.len() {
                assert(whole[i] == prev[i]);
            }
        }
    }
}

/// The total number of body bytes the ranges ask for.
pub open spec fn ranges_total(rs: Seq<HttpRange>) -> int
    decreases rs.len(),
{
    if rs.len() == 0 {
        0
    } else {
        ranges_total(rs.drop_last()) + (rs.last().end - rs.last().start)
    }
}

/// Whitespace allowed around a range token.
pub open spec fn is_ws(b: u8) -> bool {
    b == 32 || b == 9
}

/// Drop leading whitespace.
pub open spec fn trim_front(s: Seq<u8>) -> Seq<u8>
    decreases s.len(),
{
    if s.len() > 0 && is_ws(s[0]) {
        trim_front(s.skip(1))
    } else {
        s
    }
}

/// Drop trailing whitespace.
pub open spec fn trim_back(s: Seq<u8>) -> Seq<u8>
    decreases s.len(),
{
    if s.len() > 0 && is_ws(s.last()) {
        trim_back(s.drop_last())
    } else {
        s
    }
}

/// Drop whitespace on both sides.
pub open spec fn trim_of(s: Seq<u8>) -> Seq<u8> {
    trim_back(trim_front(s))
}

/// ASCII decimal digit.
pub open spec fn is_digit(b: u8) -> bool {
    48 <= b <= 57
}

pub open spec fn all_digits(s: Seq<u8>) -> bool {
    forall|i: int| 0 <= i < s.len() ==> is_digit(s[i])
}

/// The value of a digit string.
pub open spec fn dec_val(s: Seq<u8>) -> int
    decreases s.len(),
{
    if s.len() == 0 {
        0
    } else {
        dec_val(s.drop_last()) * 10 + (s.last() - 48)
    }
}

/// A non-empty all-digit string whose value fits in `u64`, or nothing.
pub open spec fn parse_u64_of(s: Seq<u8>) -> Option<u64> {
    if s.len() > 0 && all_digits(s) && dec_val(s) <= u64::MAX {
        Some(dec_val(s) as u64)
    } else {
        None
    }
}

/// The position of the first `-` in `s` at or after `i`.
pub open spec fn find_dash(s: Seq<u8>, i: int) -> Option<int>
    decreases s.len() - i,
{
    if i < 0 || i >= s.len() {
        None
    } else if s[i] == 45 {
        Some(i)
    } else {
        find_dash(s, i + 1)
    }
}

/// Parse one comma-separated token: after trimming, `-n`, `x-` or `x-y`,
/// with the numbers in decimal. Anything else is malformed.
pub open spec fn token_of(tok: Seq<u8>) -> Option<RangeSpec> {
    let t = trim_of(tok);
    match find_dash(t, 0) {
        None => None,
        Some(i) => {
            let pre = t.take(i);
            let suf = t.skip(i + 1);
            if pre.len() == 0 {
                match parse_u64_of(suf) {
                    Some(n) => Some(RangeSpec::Last(n)),
                    None => None,
                }
            } else if suf.len() == 0 {
                match parse_u64_of(pre) {
                    Some(x) => Some(RangeSpec::AllFrom(x)),
                    None => None,
                }
            } else {
                match (parse_u64_of(pre), parse_u64_of(suf)) {
                    (Some(x), Some(y)) => Some(RangeSpec::FromTo(x, y)),
                    _ => None,
                }
            }
        },
    }
}

/// The comma-separated tokens of `s` from position `i` on (empty tokens
/// kept; they are malformed and fall away in parsing).
pub open spec fn tokens_from(s: Seq<u8>, i: int, cur: Seq<u8>) -> Seq<Seq<u8>>
    decreases s.len() - i,
{
    if i < 0 || i >= s.len() {
        seq![cur]
    } else if s[i] == 44 {
        seq![cur] + tokens_from(s, i + 1, Seq::empty())
    } else {
        tokens_from(s, i + 1, cur.push(s[i]))
    }
}

/// The `bytes=` prefix.
pub open spec fn bytes_eq_prefix() -> Seq<u8> {
    seq![98u8, 121, 116, 101, 115, 61]
}

/// The range specs of a token list, malformed tokens dropped, order kept.
pub open spec fn specs_of(tokens: Seq<Seq<u8>>) -> Seq<RangeSpec>
    decreases tokens.len(),
{
    if tokens.len() == 0 {
        Seq::empty()
    } else {
        specs_of(tokens.drop_last()) + (match token_of(tokens.last()) {
            Some(s) => seq![s],
            None => Seq::empty(),
        })
    }
}

/// What a `Range` header value means: `None` when the value does not start
/// with `bytes=` (the header is then ignored); otherwise the well-formed
/// specs among its comma-separated tokens, in order.
pub open spec fn range_header_of(v: Seq<u8>) -> Option<Seq<RangeSpec>> {
    if v.len() >= 6 && v.take(6) == bytes_eq_prefix() {
        Some(specs_of(tokens_from(v.skip(6), 0, Seq::empty())))
    } else {
        None
    }
}

} // verus!
