//! The humane order on file names: maximal digit runs compare numerically,
//! everything else compares byte by byte, and digits sort before other
//! bytes, so `test2` precedes `test10`.
use vstd::prelude::*;
use crate::range::{is_digit, all_digits, dec_val};

verus! {

/// One token of a name: a maximal run of decimal digits, or a single other
/// byte.
pub enum HumToken {
    Num(Seq<u8>),
    Ch(u8),
}

/// The length of the digit run at the front of `s`.
pub open spec fn run_len(s: Seq<u8>) -> int
    decreases s.len(),
{
    if s.len() > 0 && is_digit(s[0]) {
        1 + run_len(s.skip(1))
    } else {
        0
    }
}

proof fn lemma_run_len_bounds(s: Seq<u8>)
    ensures
        0 <= run_len(s) <= s.len(),
        all_digits(s.take(run_len(s))),
    decreases s.len(),
{
    if s.len() > 0 && is_digit(s[0]) {
        lemma_run_len_bounds(s.skip(1));
        assert(s.skip(1).take(run_len(s) - 1) =~= s.take(run_len(s)).skip(1));
        assert forall|i: int| 0 <= i < run_len(s) implies is_digit(#[trigger] s.take(run_len(s))[i])
        by {
            if i > 0 {
                assert(is_digit(s.skip(1).take(run_len(s) - 1)[i - 1]));
            }
        }
    }
}

/// The tokens of a name, in order.
pub open spec fn hum_tokens(s: Seq<u8>) -> Seq<HumToken>
    decreases s.len(),
    via hum_tokens_decreases
{
    if s.len() == 0 {
        Seq::empty()
    } else if is_digit(s[0]) {
        seq![HumToken::Num(s.take(run_len(s)))] + hum_tokens(s.skip(run_len(s)))
    } else {
        seq![HumToken::Ch(s[0])] + hum_tokens(s.skip(1))
    }
}

#[via_fn]
proof fn hum_tokens_decreases(s: Seq<u8>) {
    if s.len() > 0 && is_digit(s[0]) {
        lemma_run_len_bounds(s);
        lemma_run_len_bounds(s.skip(1));
        assert(run_len(s) == 1 + run_len(s.skip(1)));
        assert(run_len(s) >= 1);
    }
}

/// A digit run with leading zeros dropped (one digit always remains).
pub open spec fn strip_zeros(s: Seq<u8>) -> Seq<u8>
    decreases s.len(),
{
    if s.len() > 1 && s[0] == 48 {
        strip_zeros(s.skip(1))
    } else {
        s
    }
}

/// Three-way byte-wise comparison: negative, zero or positive as `x` is
/// less than, equal to or greater than `y`; a proper prefix is less.
pub open spec fn bytes_cmp(x: Seq<u8>, y: Seq<u8>) -> int
    decreases x.len(),
{
    if x.len() == 0 && y.len() == 0 {
        0
    } else if x.len() == 0 {
        -1
    } else if y.len() == 0 {
        1
    } else if x[0] < y[0] {
        -1
    } else if x[0] > y[0] {
        1
    } else {
        bytes_cmp(x.skip(1), y.skip(1))
    }
}

/// Numeric comparison of two digit runs: drop leading zeros, then a
/// shorter run is smaller, and runs of one length compare byte-wise.
pub open spec fn num_cmp(x: Seq<u8>, y: Seq<u8>) -> int {
    let sx = strip_zeros(x);
    let sy = strip_zeros(y);
    if sx.len() < sy.len() {
        -1
    } else if sx.len() > sy.len() {
        1
    } else {
        bytes_cmp(sx, sy)
    }
}

/// Compare two tokens: digit runs numerically, other bytes by value, and a
/// digit run before any other byte.
pub open spec fn tok_cmp(a: HumToken, b: HumToken) -> int {
    match (a, b) {
        (HumToken::Num(x), HumToken::Num(y)) => num_cmp(x, y),
        (HumToken::Num(_), HumToken::Ch(_)) => -1,
        (HumToken::Ch(_), HumToken::Num(_)) => 1,
        (HumToken::Ch(c), HumToken::Ch(d)) => if c < d {
            -1
        } else if c > d {
            1
        } else {
            0
        },
    }
}

/// Lexicographic comparison of token sequences.
pub open spec fn toks_cmp(x: Seq<HumToken>, y: Seq<HumToken>) -> int
    decreases x.len(),
{
    if x.len() == 0 && y.len() == 0 {
        0
    } else if x.len() == 0 {
        -1
    } else if y.len() == 0 {
        1
    } else if tok_cmp(x[0], y[0]) != 0 {
        tok_cmp(x[0], y[0])
    } else {
        toks_cmp(x.skip(1), y.skip(1))
    }
}

/// The humane comparison of two names.
pub open spec fn hum_cmp_of(a: Seq<u8>, b: Seq<u8>) -> int {
    toks_cmp(hum_tokens(a), hum_tokens(b))
}

/// `a` sorts at or before `b` in humane order.
pub open spec fn hum_le(a: Seq<u8>, b: Seq<u8>) -> bool {
    hum_cmp_of(a, b) <= 0
}

proof fn lemma_bytes_cmp_props(x: Seq<u8>, y: Seq<u8>)
    ensures
        bytes_cmp(x, y) == 0 <==> x == y,
        bytes_cmp(x, y) == -bytes_cmp(y, x),
    decreases x.len() + y.len(),
{
    if x.len() == 0 && y.len() == 0 {
        assert(x =~= y);
    } else if x.len() == 0 || y.len() == 0 {
    } else {
        lemma_bytes_cmp_props(x.skip(1), y.skip(1));
        if bytes_cmp(x, y) == 0 {
            assert(x.skip(1) == y.skip(1));
            assert forall|i: int| 0 <= i < x.len() implies x[i] == y[i] by {
                if i > 0 {
                    assert(x.skip(1)[i - 1] == y.skip(1)[i - 1]);
                }
            }
            assert(x =~= y);
        }
    }
}

proof fn lemma_bytes_cmp_trans(x: Seq<u8>, y: Seq<u8>, z: Seq<u8>)
    requires
        bytes_cmp(x, y) <= 0,
        bytes_cmp(y, z) <= 0,
    ensures
        bytes_cmp(x, z) <= 0,
        bytes_cmp(x, y) < 0 || bytes_cmp(y, z) < 0 ==> bytes_cmp(x, z) < 0,
    decreases x.len() + y.len() + z.len(),
{
    lemma_bytes_cmp_props(x, y);
    lemma_bytes_cmp_props(y, z);
    lemma_bytes_cmp_props(x, z);
    if bytes_cmp(x, y) == 0 {
    } else if bytes_cmp(y, z) == 0 {
    } else {
        // both strictly less
        if x.len() == 0 {
        } else {
            // y and z are non-empty too, else cmp(y, z) could not be < 0
            if x[0] == y[0] && y[0] == z[0] {
                lemma_bytes_cmp_trans(x.skip(1), y.skip(1), z.skip(1));
            }
        }
    }
}

proof fn lemma_num_cmp_props(x: Seq<u8>, y: Seq<u8>)
    ensures
        num_cmp(x, y) == 0 <==> strip_zeros(x) == strip_zeros(y),
        num_cmp(x, y) == -num_cmp(y, x),
{
    lemma_bytes_cmp_props(strip_zeros(x), strip_zeros(y));
    lemma_bytes_cmp_props(strip_zeros(y), strip_zeros(x));
}

proof fn lemma_num_cmp_trans(x: Seq<u8>, y: Seq<u8>, z: Seq<u8>)
    requires
        num_cmp(x, y) <= 0,
        num_cmp(y, z) <= 0,
    ensures
        num_cmp(x, z) <= 0,
        num_cmp(x, y) < 0 || num_cmp(y, z) < 0 ==> num_cmp(x, z) < 0,
{
    let sx = strip_zeros(x);
    let sy = strip_zeros(y);
    let sz = strip_zeros(z);
    lemma_bytes_cmp_props(sx, sy);
    lemma_bytes_cmp_props(sy, sz);
    lemma_bytes_cmp_props(sx, sz);
    if sx.len() == sy.len() && sy.len() == sz.len() {
        lemma_bytes_cmp_trans(sx, sy, sz);
    }
}

proof fn lemma_tok_cmp_props(a: HumToken, b: HumToken)
    ensures
        tok_cmp(a, b) == -tok_cmp(b, a),
{
    match (a, b) {
        (HumToken::Num(x), HumToken::Num(y)) => {
            lemma_num_cmp_props(x, y);
        },
        _ => (),
    }
}

proof fn lemma_tok_cmp_trans(a: HumToken, b: HumToken, c: HumToken)
    requires
        tok_cmp(a, b) <= 0,
        tok_cmp(b, c) <= 0,
    ensures
        tok_cmp(a, c) <= 0,
        tok_cmp(a, b) < 0 || tok_cmp(b, c) < 0 ==> tok_cmp(a, c) < 0,
{
    match (a, b, c) {
        (HumToken::Num(x), HumToken::Num(y), HumToken::Num(z)) => {
            lemma_num_cmp_trans(x, y, z);
        },
        _ => (),
    }
}

/// Token comparison of equal tokens substitutes: if `a` and `b` compare
/// equal, `a` compares to any `c` as `b` does.
proof fn lemma_tok_cmp_zero_subst(a: HumToken, b: HumToken, c: HumToken)
    requires
        tok_cmp(a, b) == 0,
    ensures
        tok_cmp(a, c) == tok_cmp(b, c),
{
    match (a, b, c) {
        (HumToken::Num(x), HumToken::Num(y), HumToken::Num(z)) => {
            lemma_num_cmp_props(x, y);
            lemma_bytes_cmp_props(strip_zeros(x), strip_zeros(z));
            lemma_bytes_cmp_props(strip_zeros(y), strip_zeros(z));
        },
        _ => (),
    }
}

proof fn lemma_toks_cmp_antisym(x: Seq<HumToken>, y: Seq<HumToken>)
    ensures
        toks_cmp(x, y) == -toks_cmp(y, x),
    decreases x.len() + y.len(),
{
    if x.len() > 0 && y.len() > 0 {
        lemma_tok_cmp_props(x[0], y[0]);
        lemma_toks_cmp_antisym(x.skip(1), y.skip(1));
    }
}

proof fn lemma_toks_cmp_trans(x: Seq<HumToken>, y: Seq<HumToken>, z: Seq<HumToken>)
    requires
        toks_cmp(x, y) <= 0,
        toks_cmp(y, z) <= 0,
    ensures
        toks_cmp(x, z) <= 0,
    decreases x.len() + y.len() + z.len(),
{
    if x.len() == 0 {
    } else if y.len() == 0 || z.len() == 0 {
    } else {
        let ta = x[0];
        let tb = y[0];
        let tc = z[0];
        lemma_tok_cmp_props(ta, tb);
        lemma_tok_cmp_props(tb, tc);
        lemma_tok_cmp_props(ta, tc);
        if tok_cmp(ta, tb) == 0 && tok_cmp(tb, tc) == 0 {
            lemma_tok_cmp_zero_subst(ta, tb, tc);
            lemma_toks_cmp_trans(x.skip(1), y.skip(1), z.skip(1));
        } else if tok_cmp(ta, tb) == 0 {
            lemma_tok_cmp_zero_subst(ta, tb, tc);
        } else if tok_cmp(tb, tc) == 0 {
            lemma_tok_cmp_zero_subst(tb, tc, ta);
            lemma_tok_cmp_props(tc, ta);
        } else {
            lemma_tok_cmp_trans(ta, tb, tc);
        }
    }
}

/// The humane order is total: two names always compare one way or the
/// other.
pub proof fn lemma_hum_le_total(a: Seq<u8>, b: Seq<u8>)
    ensures
        hum_le(a, b) || hum_le(b, a),
{
    lemma_toks_cmp_antisym(hum_tokens(a), hum_tokens(b));
}

/// The humane order is transitive.
pub proof fn lemma_hum_le_trans(a: Seq<u8>, b: Seq<u8>, c: Seq<u8>)
    requires
        hum_le(a, b),
        hum_le(b, c),
    ensures
        hum_le(a, c),
{
    lemma_toks_cmp_trans(hum_tokens(a), hum_tokens(b), hum_tokens(c));
}


/// A token as carried at run time.
pub enum TokenE {
    Num(Vec<u8>),
    Ch(u8),
}

impl TokenE {
    pub open spec fn model(&self) -> HumToken {
        match self {
            TokenE::Num(v) => HumToken::Num(v@),
            TokenE::Ch(c) => HumToken::Ch(*c),
        }
    }
}

/// The models of a token vector.
pub open spec fn toks_model(v: Seq<TokenE>) -> Seq<HumToken> {
    Seq::new(v.len(), |i: int| v[i].model())
}

/// The end of the digit run starting at `from`.
fn scan_run(v: &Vec<u8>, from: usize) -> (r: usize)
    requires
        from <= v@.len(),
    ensures
        from <= r <= v@.len(),
        r - from == run_len(v@.skip(from as int)),
{
    let mut k: usize = from;
    proof {
        assert(v@.skip(from as int).skip(0) =~= v@.skip(from as int));
    }
    while k < v.len() && 48 <= v[k] && v[k] <= 57
        invariant
            from <= k <= v@.len(),
            run_len(v@.skip(from as int)) == (k - from) + run_len(v@.skip(k as int)),
        decreases v@.len() - k,
    {
        proof {
            assert(v@.skip(k as int)[0] == v@[k as int]);
            assert(v@.skip(k as int).skip(1) =~= v@.skip(k as int + 1));
            assert(run_len(v@.skip(k as int)) == 1 + run_len(v@.skip(k as int + 1)));
        }
        k += 1;
    }
    proof {
        if k < v@.len() {
            assert(v@.skip(k as int)[0] == v@[k as int]);
        }
        assert(run_len(v@.skip(k as int)) == 0);
    }
    k
}

/// Copy `v[a..b]`.
fn copy_range(v: &Vec<u8>, a: usize, b: usize) -> (r: Vec<u8>)
    requires
        a <= b <= v@.len(),
    ensures
        r@ == v@.subrange(a as int, b as int),
{
    let mut r: Vec<u8> = Vec::new();
    let mut k: usize = a;
    while k < b
        invariant
            a <= k <= b <= v@.len(),
            r@ == v@.subrange(a as int, k as int),
        decreases b - k,
    {
        r.push(v[k]);
        assert(r@ =~= v@.subrange(a as int, k as int + 1));
        k += 1;
    }
    r
}

/// Split a name into its tokens.
fn tokenize(v: &Vec<u8>) -> (r: Vec<TokenE>)
    ensures
        toks_model(r@) == hum_tokens(v@),
{
    let mut r: Vec<TokenE> = Vec::new();
    let mut i: usize = 0;
    proof {
        assert(v@.skip(0) =~= v@);
        assert(toks_model(r@) =~= Seq::<HumToken>::empty());
        assert(toks_model(r@) + hum_tokens(v@.skip(0)) =~= hum_tokens(v@));
    }
    while i < v.len()
        invariant
            i <= v@.len(),
            toks_model(r@) + hum_tokens(v@.skip(i as int)) == hum_tokens(v@),
        decreases v@.len() - i,
    {
        proof {
            assert(v@.skip(i as int)[0] == v@[i as int]);
        }
        let ghost before = toks_model(r@);
        let b = v[i];
        if 48 <= b && b <= 57 {
            let ia = scan_run(v, i);
            proof {
                lemma_run_len_bounds(v@.skip(i as int));
                lemma_run_len_bounds(v@.skip(i as int).skip(1));
                assert(run_len(v@.skip(i as int)) == 1 + run_len(v@.skip(i as int).skip(1)));
                assert(run_len(v@.skip(i as int)) >= 1);
                assert(v@.skip(i as int).take(run_len(v@.skip(i as int))) =~= v@.subrange(
                    i as int,
                    ia as int,
                ));
                assert(v@.skip(i as int).skip(run_len(v@.skip(i as int))) =~= v@.skip(ia as int));
            }
            let run = copy_range(v, i, ia);
            r.push(TokenE::Num(run));
            proof {
                assert(toks_model(r@) =~~= before.push(HumToken::Num(v@.subrange(
                    i as int,
                    ia as int,
                ))));
                assert(toks_model(r@) + hum_tokens(v@.skip(ia as int)) =~~= hum_tokens(v@));
            }
            i = ia;
        } else {
            r.push(TokenE::Ch(b));
            proof {
                assert(v@.skip(i as int).skip(1) =~= v@.skip(i as int + 1));
                assert(toks_model(r@) =~~= before.push(HumToken::Ch(v@[i as int])));
                assert(toks_model(r@) + hum_tokens(v@.skip(i as int + 1)) =~~= hum_tokens(v@));
            }
            i += 1;
        }
    }
    proof {
        assert(v@.skip(v@.len() as int) =~= Seq::<u8>::empty());
        assert(toks_model(r@) =~~= hum_tokens(v@));
    }
    r
}

/// Numeric comparison of two digit runs.
fn num_cmp_exec(x: &Vec<u8>, y: &Vec<u8>) -> (r: i8)
    ensures
        r as int == num_cmp(x@, y@),
{
    let mut zx: usize = 0;
    proof {
        assert(x@.skip(0) =~= x@);
    }
    while x.len() - zx > 1 && x[zx] == 48
        invariant
            zx <= x@.len(),
            strip_zeros(x@) == strip_zeros(x@.skip(zx as int)),
        decreases x@.len() - zx,
    {
        proof {
            assert(x@.skip(zx as int)[0] == x@[zx as int]);
            assert(x@.skip(zx as int).skip(1) =~= x@.skip(zx as int + 1));
        }
        zx += 1;
    }
    proof {
        if zx < x@.len() {
            assert(x@.skip(zx as int)[0] == x@[zx as int]);
        }
        assert(strip_zeros(x@) == x@.skip(zx as int));
    }
    let mut zy: usize = 0;
    proof {
        assert(y@.skip(0) =~= y@);
    }
    while y.len() - zy > 1 && y[zy] == 48
        invariant
            zy <= y@.len(),
            strip_zeros(y@) == strip_zeros(y@.skip(zy as int)),
        decreases y@.len() - zy,
    {
        proof {
            assert(y@.skip(zy as int)[0] == y@[zy as int]);
            assert(y@.skip(zy as int).skip(1) =~= y@.skip(zy as int + 1));
        }
        zy += 1;
    }
    proof {
        if zy < y@.len() {
            assert(y@.skip(zy as int)[0] == y@[zy as int]);
        }
        assert(strip_zeros(y@) == y@.skip(zy as int));
    }
    let ghost sx = x@.skip(zx as int);
    let ghost sy = y@.skip(zy as int);
    let lx = x.len() - zx;
    let ly = y.len() - zy;
    if lx < ly {
        return -1;
    }
    if lx > ly {
        return 1;
    }
    // equal stripped lengths: byte-wise comparison
    let mut k: usize = 0;
    proof {
        assert(sx.skip(0) =~= sx);
        assert(sy.skip(0) =~= sy);
    }
    while k < lx
        invariant
            k <= lx,
            lx == sx.len(),
            lx == sy.len(),
            zx + lx == x@.len(),
            zy + lx == y@.len(),
            zx + lx <= usize::MAX,
            zy + lx <= usize::MAX,
            sx == x@.skip(zx as int),
            sy == y@.skip(zy as int),
            strip_zeros(x@) == sx,
            strip_zeros(y@) == sy,
            bytes_cmp(sx, sy) == bytes_cmp(sx.skip(k as int), sy.skip(k as int)),
        decreases lx - k,
    {
        proof {
            assert(sx.skip(k as int)[0] == x@[zx + k]);
            assert(sy.skip(k as int)[0] == y@[zy + k]);
            assert(sx.skip(k as int).skip(1) =~= sx.skip(k as int + 1));
            assert(sy.skip(k as int).skip(1) =~= sy.skip(k as int + 1));
        }
        let xb = x[zx + k];
        let yb = y[zy + k];
        if xb < yb {
            return -1;
        }
        if xb > yb {
            return 1;
        }
        k += 1;
    }
    proof {
        assert(sx.skip(lx as int).len() == 0);
        assert(sy.skip(lx as int).len() == 0);
    }
    0
}

/// Compare two tokens.
fn tok_cmp_exec(a: &TokenE, b: &TokenE) -> (r: i8)
    ensures
        r as int == tok_cmp(a.model(), b.model()),
{
    match (a, b) {
        (TokenE::Num(x), TokenE::Num(y)) => num_cmp_exec(x, y),
        (TokenE::Num(_), TokenE::Ch(_)) => -1,
        (TokenE::Ch(_), TokenE::Num(_)) => 1,
        (TokenE::Ch(c), TokenE::Ch(d)) => {
            if *c < *d {
                -1
            } else if *c > *d {
                1
            } else {
                0
            }
        },
    }
}

/// Compare two names in humane order.
pub fn hum_cmp(a: &Vec<u8>, b: &Vec<u8>) -> (r: i8)
    ensures
        r as int == hum_cmp_of(a@, b@),
{
    let ta = tokenize(a);
    let tb = tokenize(b);
    let ghost ma = toks_model(ta@);
    let ghost mb = toks_model(tb@);
    let mut k: usize = 0;
    proof {
        assert(ma.skip(0) =~= ma);
        assert(mb.skip(0) =~= mb);
    }
    while k < ta.len() && k < tb.len()
        invariant
            k <= ta@.len(),
            k <= tb@.len(),
            ma == toks_model(ta@),
            mb == toks_model(tb@),
            ma == hum_tokens(a@),
            mb == hum_tokens(b@),
            toks_cmp(ma, mb) == toks_cmp(ma.skip(k as int), mb.skip(k as int)),
        decreases ta@.len() - k,
    {
        proof {
            assert(ma.skip(k as int)[0] == ma[k as int]);
            assert(mb.skip(k as int)[0] == mb[k as int]);
            assert(ma.skip(k as int).skip(1) =~= ma.skip(k as int + 1));
            assert(mb.skip(k as int).skip(1) =~= mb.skip(k as int + 1));
        }
        let c = tok_cmp_exec(&ta[k], &tb[k]);
        if c != 0 {
            proof {
                assert(toks_cmp(ma.skip(k as int), mb.skip(k as int)) == c as int);
            }
            return c;
        }
        k += 1;
    }
    proof {
        if k == ta@.len() && k == tb@.len() {
            assert(toks_cmp(ma.skip(k as int), mb.skip(k as int)) == 0);
        } else if k == ta@.len() {
            assert(ma.skip(k as int).len() == 0);
            assert(mb.skip(k as int).len() > 0);
        } else {
            assert(mb.skip(k as int).len() == 0);
            assert(ma.skip(k as int).len() > 0);
        }
    }
    if ta.len() == tb.len() {
        0
    } else if ta.len() < tb.len() {
        -1
    } else {
        1
    }
}

/// Does `a` sort at or before `b` in humane order?
pub fn humane_le(a: &Vec<u8>, b: &Vec<u8>) -> (r: bool)
    ensures
        r == hum_le(a@, b@),
{
    let c = hum_cmp(a, b);
    c <= 0
}


/// Ten to the `n`.
pub open spec fn pow10(n: nat) -> int
    decreases n,
{
    if n == 0 {
        1
    } else {
        10 * pow10((n - 1) as nat)
    }
}

proof fn lemma_pow10_pos(n: nat)
    ensures
        pow10(n) >= 1,
    decreases n,
{
    if n > 0 {
        lemma_pow10_pos((n - 1) as nat);
    }
}

proof fn lemma_pow10_mono(a: nat, b: nat)
    requires
        a <= b,
    ensures
        pow10(a) <= pow10(b),
    decreases b,
{
    if a < b {
        lemma_pow10_mono(a, (b - 1) as nat);
        lemma_pow10_pos((b - 1) as nat);
    }
}

proof fn lemma_dec_val_cons_zero(t: Seq<u8>)
    ensures
        dec_val(seq![48u8] + t) == dec_val(t),
    decreases t.len(),
{
    let u = seq![48u8] + t;
    if t.len() == 0 {
        assert(u =~= seq![48u8]);
        assert(u.drop_last() =~= Seq::<u8>::empty());
        assert(dec_val(Seq::<u8>::empty()) == 0);
        assert(dec_val(u) == dec_val(u.drop_last()) * 10 + (u.last() - 48));
    } else {
        lemma_dec_val_cons_zero(t.drop_last());
        assert(u.drop_last() =~= seq![48u8] + t.drop_last());
        assert(u.last() == t.last());
        assert(dec_val(u) == dec_val(u.drop_last()) * 10 + (u.last() - 48));
        assert(dec_val(t) == dec_val(t.drop_last()) * 10 + (t.last() - 48));
    }
}

proof fn lemma_dec_val_strip(s: Seq<u8>)
    ensures
        dec_val(strip_zeros(s)) == dec_val(s),
        all_digits(s) ==> all_digits(strip_zeros(s)),
        s.len() > 0 ==> strip_zeros(s).len() > 0,
    decreases s.len(),
{
    if s.len() > 1 && s[0] == 48 {
        assert(s =~= seq![48u8] + s.skip(1));
        lemma_dec_val_cons_zero(s.skip(1));
        lemma_dec_val_strip(s.skip(1));
        assert(all_digits(s) ==> all_digits(s.skip(1)));
    }
}

proof fn lemma_strip_no_leading_zero(s: Seq<u8>)
    ensures
        strip_zeros(s).len() > 1 ==> strip_zeros(s)[0] != 48,
    decreases s.len(),
{
    if s.len() > 1 && s[0] == 48 {
        lemma_strip_no_leading_zero(s.skip(1));
    }
}

proof fn lemma_dec_val_upper(s: Seq<u8>)
    requires
        all_digits(s),
    ensures
        0 <= dec_val(s) < pow10(s.len()),
    decreases s.len(),
{
    if s.len() == 0 {
    } else {
        assert(all_digits(s.drop_last()));
        lemma_dec_val_upper(s.drop_last());
        let v = dec_val(s.drop_last());
        let p = pow10((s.len() - 1) as nat);
        assert(v * 10 <= (p - 1) * 10) by (nonlinear_arith)
            requires
                v <= p - 1,
        ;
    }
}

proof fn lemma_dec_val_lower(s: Seq<u8>)
    requires
        all_digits(s),
        s.len() > 0,
        s[0] != 48,
    ensures
        dec_val(s) >= pow10((s.len() - 1) as nat),
    decreases s.len(),
{
    assert(is_digit(s[s.len() - 1]));
    assert(s.last() == s[s.len() - 1]);
    if s.len() == 1 {
        assert(is_digit(s[0]));
        assert(s.drop_last() =~= Seq::<u8>::empty());
        assert(dec_val(Seq::<u8>::empty()) == 0);
    } else {
        assert(all_digits(s.drop_last()));
        assert(s.drop_last()[0] == s[0]);
        lemma_dec_val_lower(s.drop_last());
        let v = dec_val(s.drop_last());
        let p = pow10((s.len() - 2) as nat);
        assert(v * 10 >= p * 10) by (nonlinear_arith)
            requires
                v >= p,
        ;
        assert(dec_val(s) == v * 10 + (s.last() - 48));
    }
}

proof fn lemma_dec_val_front(s: Seq<u8>)
    requires
        all_digits(s),
        s.len() > 0,
    ensures
        dec_val(s) == (s[0] - 48) * pow10((s.len() - 1) as nat) + dec_val(s.skip(1)),
    decreases s.len(),
{
    if s.len() == 1 {
        assert(s.drop_last() =~= Seq::<u8>::empty());
        assert(s.skip(1) =~= Seq::<u8>::empty());
    } else {
        assert(all_digits(s.drop_last()));
        assert(s.drop_last()[0] == s[0]);
        lemma_dec_val_front(s.drop_last());
        assert(s.drop_last().skip(1) =~= s.skip(1).drop_last());
        assert(s.skip(1).last() == s.last());
        let d0 = s[0] - 48;
        let p = pow10((s.len() - 2) as nat);
        let v1 = dec_val(s.skip(1).drop_last());
        let dl = s.last() - 48;
        assert(dec_val(s) == (d0 * p + v1) * 10 + dl);
        assert((d0 * p + v1) * 10 == d0 * (10 * p) + v1 * 10) by (nonlinear_arith);
        assert(dec_val(s.skip(1)) == v1 * 10 + dl);
    }
}

proof fn lemma_dec_val_lex(x: Seq<u8>, y: Seq<u8>)
    requires
        all_digits(x),
        all_digits(y),
        x.len() == y.len(),
        bytes_cmp(x, y) < 0,
    ensures
        dec_val(x) < dec_val(y),
    decreases x.len(),
{
    assert(x.len() > 0);
    let p = pow10((x.len() - 1) as nat);
    lemma_dec_val_front(x);
    lemma_dec_val_front(y);
    assert(all_digits(x.skip(1)));
    assert(all_digits(y.skip(1)));
    if x[0] == y[0] {
        lemma_dec_val_lex(x.skip(1), y.skip(1));
    } else {
        assert(x[0] < y[0]);
        lemma_dec_val_upper(x.skip(1));
        lemma_dec_val_lower_zero(y.skip(1));
        let a = x[0] - 48;
        let b = y[0] - 48;
        assert(a + 1 <= b);
        assert(a * p + p <= b * p) by (nonlinear_arith)
            requires
                a + 1 <= b,
                p >= 1,
        ;
        assert(pow10((x.len() - 1) as nat) == pow10((x.skip(1).len()) as nat));
        assert(dec_val(x) < a * p + p);
    }
}

proof fn lemma_dec_val_lower_zero(s: Seq<u8>)
    requires
        all_digits(s),
    ensures
        dec_val(s) >= 0,
    decreases s.len(),
{
    if s.len() > 0 {
        assert(all_digits(s.drop_last()));
        lemma_dec_val_lower_zero(s.drop_last());
        let v = dec_val(s.drop_last());
        assert(v * 10 >= 0) by (nonlinear_arith)
            requires
                v >= 0,
        ;
    }
}

/// The digit-run comparison is the numeric order: for two non-empty digit
/// strings it compares exactly as their decimal values do.
pub proof fn lemma_num_cmp_is_numeric(x: Seq<u8>, y: Seq<u8>)
    requires
        all_digits(x),
        all_digits(y),
        x.len() > 0,
        y.len() > 0,
    ensures
        num_cmp(x, y) < 0 <==> dec_val(x) < dec_val(y),
        num_cmp(x, y) == 0 <==> dec_val(x) == dec_val(y),
{
    let sx = strip_zeros(x);
    let sy = strip_zeros(y);
    lemma_dec_val_strip(x);
    lemma_dec_val_strip(y);
    lemma_strip_no_leading_zero(x);
    lemma_strip_no_leading_zero(y);
    lemma_bytes_cmp_props(sx, sy);
    if sx.len() < sy.len() {
        lemma_dec_val_upper(sx);
        lemma_dec_val_lower_len(sy);
        lemma_pow10_mono(sx.len(), (sy.len() - 1) as nat);
    } else if sx.len() > sy.len() {
        lemma_dec_val_upper(sy);
        lemma_dec_val_lower_len(sx);
        lemma_pow10_mono(sy.len(), (sx.len() - 1) as nat);
    } else {
        if bytes_cmp(sx, sy) < 0 {
            lemma_dec_val_lex(sx, sy);
        } else if bytes_cmp(sx, sy) > 0 {
            lemma_dec_val_lex(sy, sx);
        }
    }
}

/// A stripped digit string of two or more digits reaches its length's
/// power of ten.
proof fn lemma_dec_val_lower_len(s: Seq<u8>)
    requires
        all_digits(s),
        s.len() > 1,
        s[0] != 48,
    ensures
        dec_val(s) >= pow10((s.len() - 1) as nat),
{
    lemma_dec_val_lower(s);
}

} // verus!
