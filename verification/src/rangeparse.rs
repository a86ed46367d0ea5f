//! The executable parser for `Range` header values, verified against the
//! grammar spec functions in the range module.
use vstd::prelude::*;
use crate::range::{
    RangeSpec, is_ws, trim_front, trim_back, trim_of, is_digit, all_digits, dec_val, parse_u64_of,
    find_dash, token_of, tokens_from, bytes_eq_prefix, range_header_of, specs_of,
};

verus! {

/// A digit string's value never shrinks as more digits are appended.
proof fn lemma_dec_val_nonneg(s: Seq<u8>)
    requires
        all_digits(s),
    ensures
        dec_val(s) >= 0,
    decreases s.len(),
{
    if s.len() > 0 {
        assert(all_digits(s.drop_last()));
        lemma_dec_val_nonneg(s.drop_last());
    }
}

proof fn lemma_dec_val_take_mono(s: Seq<u8>, i: int)
    requires
        all_digits(s),
        0 <= i <= s.len(),
    ensures
        dec_val(s.take(i)) <= dec_val(s),
    decreases s.len(),
{
    if i < s.len() {
        assert(all_digits(s.drop_last()));
        assert(s.drop_last().take(i) =~= s.take(i));
        lemma_dec_val_take_mono(s.drop_last(), i);
        lemma_dec_val_nonneg(s.drop_last());
        assert(dec_val(s) == dec_val(s.drop_last()) * 10 + (s.last() - 48));
        assert(dec_val(s.drop_last()) * 10 >= dec_val(s.drop_last())) by (nonlinear_arith)
            requires
                dec_val(s.drop_last()) >= 0,
        ;
    } else {
        assert(s.take(i) =~= s);
    }
}

/// Parse the decimal digits of `t` between `from` and `to`.
fn parse_u64_digits(t: &Vec<u8>, from: usize, to: usize) -> (r: Option<u64>)
    requires
        from <= to <= t@.len(),
    ensures
        r == parse_u64_of(t@.subrange(from as int, to as int)),
{
    let ghost s = t@.subrange(from as int, to as int);
    if from == to {
        return None;
    }
    let mut val: u64 = 0;
    let mut i: usize = from;
    proof {
        assert(s.take(0) =~= Seq::<u8>::empty());
    }
    while i < to
        invariant
            from <= i <= to <= t@.len(),
            to > from,
            s == t@.subrange(from as int, to as int),
            all_digits(s.take(i - from)),
            val == dec_val(s.take(i - from)),
        decreases to - i,
    {
        let b = t[i];
        proof {
            assert(s[i - from] == t@[i as int]);
            assert(s.take(i - from + 1).drop_last() =~= s.take(i - from));
            assert(s.take(i - from + 1).last() == s[i - from]);
        }
        if b < 48 || b > 57 {
            proof {
                assert(!is_digit(s[i - from]));
                assert(!all_digits(s));
            }
            return None;
        }
        let d = b - 48;
        // would 10 * val + d overflow?
        if val > (u64::MAX - (d as u64)) / 10 {
            proof {
                let m = u64::MAX as int;
                assert(10 * (val as int) + d > m) by (nonlinear_arith)
                    requires
                        val as int > (m - d) / 10,
                        0 <= d <= 9,
                        m == u64::MAX as int,
                        val as int >= 0,
                ;
                assert(dec_val(s.take(i - from + 1)) == 10 * (val as int) + d);
                if all_digits(s) {
                    lemma_dec_val_take_mono(s, i - from + 1);
                    assert(dec_val(s) > u64::MAX);
                }
            }
            return None;
        }
        proof {
            let m = u64::MAX as int;
            assert(10 * (val as int) + d <= m) by (nonlinear_arith)
                requires
                    val as int <= (m - d) / 10,
                    0 <= d <= 9,
                    m == u64::MAX as int,
                    val as int >= 0,
            ;
        }
        val = val * 10 + (d as u64);
        i += 1;
        proof {
            assert(all_digits(s.take(i - from)));
        }
    }
    proof {
        assert(s.take(to - from) =~= s);
        lemma_dec_val_nonneg(s);
    }
    Some(val)
}

/// Trim the whitespace around a token.
pub(crate) fn trim_token(t: &Vec<u8>) -> (r: Vec<u8>)
    ensures
        r@ == trim_of(t@),
{
    let mut a: usize = 0;
    proof {
        assert(t@.skip(0) =~= t@);
    }
    while a < t.len() && (t[a] == 32 || t[a] == 9)
        invariant
            a <= t@.len(),
            trim_front(t@) == trim_front(t@.skip(a as int)),
        decreases t@.len() - a,
    {
        proof {
            assert(t@.skip(a as int)[0] == t@[a as int]);
            assert(t@.skip(a as int).skip(1) =~= t@.skip(a as int + 1));
        }
        a += 1;
    }
    proof {
        if a < t@.len() {
            assert(t@.skip(a as int)[0] == t@[a as int]);
            assert(!is_ws(t@.skip(a as int)[0]));
        }
        assert(trim_front(t@) == t@.skip(a as int));
    }
    let ghost m = t@.skip(a as int);
    let mut end: usize = t.len();
    proof {
        assert(m.take(t@.len() - a) =~= m);
    }
    while end > a && (t[end - 1] == 32 || t[end - 1] == 9)
        invariant
            a <= end <= t@.len(),
            m == t@.skip(a as int),
            trim_back(m) == trim_back(m.take(end - a)),
        decreases end,
    {
        proof {
            assert(m.take(end - a).last() == m[end - a - 1]);
            assert(m[end - a - 1] == t@[end - 1]);
            assert(m.take(end - a).drop_last() =~= m.take(end - 1 - a));
        }
        end -= 1;
    }
    proof {
        if end > a {
            assert(m.take(end - a).last() == m[end - a - 1]);
            assert(m[end - a - 1] == t@[end - 1]);
            assert(!is_ws(m.take(end - a).last()));
        }
        assert(trim_back(m) == m.take(end - a));
    }
    // copy t[a .. end]
    let mut r: Vec<u8> = Vec::new();
    let mut k: usize = a;
    proof {
        assert(m.take(end - a).take(0) =~= Seq::<u8>::empty());
    }
    while k < end
        invariant
            a <= k <= end <= t@.len(),
            m == t@.skip(a as int),
            r@ == m.take(end - a).take(k - a),
        decreases end - k,
    {
        proof {
            assert(m.take(end - a)[k - a] == t@[k as int]);
        }
        r.push(t[k]);
        assert(r@ =~= m.take(end - a).take(k + 1 - a));
        k += 1;
    }
    proof {
        assert(m.take(end - a).take(end - a) =~= m.take(end - a));
        assert(r@ == trim_of(t@));
    }
    r
}

/// Parse one comma-separated token into a range spec, if well formed.
pub fn parse_token(tok: &Vec<u8>) -> (r: Option<RangeSpec>)
    ensures
        r == token_of(tok@),
{
    let t = trim_token(tok);
    // find the first dash
    let mut i: usize = 0;
    let mut dash: Option<usize> = None;
    while i < t.len()
        invariant_except_break
            i <= t@.len(),
            dash is None,
            find_dash(t@, 0) == find_dash(t@, i as int),
        ensures
            match dash {
                Some(d) => 0 <= d < t@.len() && find_dash(t@, 0) == Some(d as int),
                None => find_dash(t@, 0) is None,
            },
        decreases t@.len() - i,
    {
        if t[i] == 45 {
            dash = Some(i);
            break;
        }
        i += 1;
    }
    let d = match dash {
        Some(d) => d,
        None => {
            proof {
                assert(find_dash(t@, 0) is None);
            }
            return None;
        },
    };
    proof {
        assert(t@.take(d as int) =~= t@.subrange(0, d as int));
        assert(t@.skip(d as int + 1) =~= t@.subrange(d as int + 1, t@.len() as int));
    }
    if d == 0 {
        match parse_u64_digits(&t, 1, t.len()) {
            Some(n) => Some(RangeSpec::Last(n)),
            None => None,
        }
    } else if d + 1 == t.len() {
        match parse_u64_digits(&t, 0, d) {
            Some(x) => Some(RangeSpec::AllFrom(x)),
            None => None,
        }
    } else {
        match (parse_u64_digits(&t, 0, d), parse_u64_digits(&t, d + 1, t.len())) {
            (Some(x), Some(y)) => Some(RangeSpec::FromTo(x, y)),
            _ => None,
        }
    }
}

/// Split the header value after `bytes=` on commas, keeping empty tokens.
fn split_tokens(p: &Vec<u8>, from: usize) -> (r: Vec<Vec<u8>>)
    requires
        from <= p@.len(),
    ensures
        r.deep_view() == tokens_from(p@.skip(from as int), 0, Seq::empty()),
{
    let ghost s = p@.skip(from as int);
    let mut r: Vec<Vec<u8>> = Vec::new();
    let mut cur: Vec<u8> = Vec::new();
    let mut i: usize = from;
    assert(r.deep_view() + tokens_from(s, 0, cur@) =~~= tokens_from(s, 0, Seq::empty()));
    while i < p.len()
        invariant
            from <= i <= p@.len(),
            s == p@.skip(from as int),
            r.deep_view() + tokens_from(s, i - from, cur@) == tokens_from(s, 0, Seq::empty()),
        decreases p@.len() - i,
    {
        proof {
            assert(s[i - from] == p@[i as int]);
        }
        if p[i] == 44 {
            let ghost rb = r.deep_view();
            let ghost cb = cur@;
            r.push(cur);
            cur = Vec::new();
            proof {
                assert(r.deep_view() =~~= rb.push(cb));
            }
            assert(cur@ =~= Seq::<u8>::empty());
            assert(r.deep_view() + tokens_from(s, i - from + 1, cur@) =~~= tokens_from(
                s,
                0,
                Seq::empty(),
            ));
        } else {
            cur.push(p[i]);
            assert(r.deep_view() + tokens_from(s, i - from + 1, cur@) =~~= tokens_from(
                s,
                0,
                Seq::empty(),
            ));
        }
        i += 1;
    }
    let ghost rb = r.deep_view();
    let ghost cb = cur@;
    r.push(cur);
    proof {
        assert(r.deep_view() =~~= rb.push(cb));
        assert(r.deep_view() =~~= tokens_from(s, 0, Seq::empty()));
    }
    r
}

/// Parse a whole `Range` header value. `None` means the header does not
/// start with `bytes=` and is ignored; `Some` carries the well-formed specs
/// in request order (possibly none).
pub fn parse_range_header(v: &Vec<u8>) -> (r: Option<Vec<RangeSpec>>)
    ensures
        match r {
            Some(specs) => range_header_of(v@) == Some(specs@),
            None => range_header_of(v@) is None,
        },
{
    if v.len() < 6 {
        return None;
    }
    if v[0] != 98 {
        assert(v@.take(6)[0] != bytes_eq_prefix()[0]);
        return None;
    }
    if v[1] != 121 {
        assert(v@.take(6)[1] != bytes_eq_prefix()[1]);
        return None;
    }
    if v[2] != 116 {
        assert(v@.take(6)[2] != bytes_eq_prefix()[2]);
        return None;
    }
    if v[3] != 101 {
        assert(v@.take(6)[3] != bytes_eq_prefix()[3]);
        return None;
    }
    if v[4] != 115 {
        assert(v@.take(6)[4] != bytes_eq_prefix()[4]);
        return None;
    }
    if v[5] != 61 {
        assert(v@.take(6)[5] != bytes_eq_prefix()[5]);
        return None;
    }
    proof {
        assert(v@.take(6) =~= bytes_eq_prefix());
    }
    let tokens = split_tokens(v, 6);
    let mut specs: Vec<RangeSpec> = Vec::new();
    let mut i: usize = 0;
    proof {
        assert(tokens.deep_view().take(0) =~~= Seq::<Seq<u8>>::empty());
    }
    while i < tokens.len()
        invariant
            i <= tokens.len(),
            tokens.deep_view() == tokens_from(v@.skip(6), 0, Seq::empty()),
            specs@ == specs_of(tokens.deep_view().take(i as int)),
        decreases tokens.len() - i,
    {
        proof {
            assert(tokens.deep_view().take(i as int + 1).drop_last() =~~= tokens.deep_view().take(
                i as int,
            ));
            assert(tokens.deep_view().take(i as int + 1).last() =~= tokens@[i as int]@);
        }
        match parse_token(&tokens[i]) {
            Some(sp) => specs.push(sp),
            None => (),
        }
        assert(specs@ =~= specs_of(tokens.deep_view().take(i as int + 1)));
        i += 1;
    }
    proof {
        assert(tokens.deep_view().take(tokens.len() as int) =~~= tokens.deep_view());
    }
    Some(specs)
}

} // verus!
