//! Small byte-level helpers shared by the response builders: decimal and
//! little-endian rendering of integers, byte-sequence comparison, and HTML
//! escaping of file names.
use vstd::prelude::*;

verus! {

/// The decimal digits of `x`, most significant first.
pub open spec fn dec_of(x: nat) -> Seq<u8>
    decreases x,
{
    if x < 10 {
        seq![(48 + x) as u8]
    } else {
        dec_of(x / 10) + seq![(48 + x % 10) as u8]
    }
}

/// Render `x` in decimal.
pub fn u64_to_dec(x: u64) -> (r: Vec<u8>)
    ensures
        r@ == dec_of(x as nat),
    decreases x,
{
    if x < 10 {
        let mut v: Vec<u8> = Vec::new();
        v.push(48 + (x as u8));
        assert(v@ =~= dec_of(x as nat));
        v
    } else {
        let mut v = u64_to_dec(x / 10);
        v.push(48 + ((x % 10) as u8));
        assert(v@ =~= dec_of(x as nat));
        v
    }
}

/// The `n` lowest bytes of `x`, least significant first.
pub open spec fn le_bytes_rec(x: nat, n: nat) -> Seq<u8>
    decreases n,
{
    if n == 0 {
        Seq::empty()
    } else {
        seq![(x % 256) as u8] + le_bytes_rec(x / 256, (n - 1) as nat)
    }
}

/// The eight little-endian bytes of `x`.
pub open spec fn le_bytes_of(x: u64) -> Seq<u8> {
    le_bytes_rec(x as nat, 8)
}

/// Render `x` as eight little-endian bytes.
pub fn u64_to_bytes(x: u64) -> (r: Vec<u8>)
    ensures
        r@ == le_bytes_of(x),
{
    let mut v: Vec<u8> = Vec::new();
    let mut rem: u64 = x;
    let mut i: usize = 0;
    while i < 8
        invariant
            i <= 8,
            v@.len() == i,
            v@ + le_bytes_rec(rem as nat, (8 - i) as nat) == le_bytes_of(x),
        decreases 8 - i,
    {
        proof {
            assert(le_bytes_rec(rem as nat, (8 - i) as nat) == seq![(rem as nat % 256) as u8]
                + le_bytes_rec(rem as nat / 256, (8 - (i + 1)) as nat));
        }
        v.push((rem % 256) as u8);
        rem = rem / 256;
        i += 1;
        assert(v@ + le_bytes_rec(rem as nat, (8 - i) as nat) =~= le_bytes_of(x));
    }
    assert(v@ =~= le_bytes_of(x));
    v
}

/// True when the two byte vectors hold the same bytes.
pub fn bytes_eq(a: &Vec<u8>, b: &Vec<u8>) -> (r: bool)
    ensures
        r <==> a@ == b@,
{
    if a.len() != b.len() {
        assert(a@ != b@);
        return false;
    }
    let mut i: usize = 0;
    while i < a.len()
        invariant
            i <= a.len(),
            a@.len() == b@.len(),
            forall|j: int| 0 <= j < i ==> a@[j] == b@[j],
        decreases a.len() - i,
    {
        if a[i] != b[i] {
            assert(a@ != b@);
            return false;
        }
        i += 1;
    }
    assert(a@ =~= b@);
    true
}

/// The HTML escape of one byte: `&`, `<`, `>` and `"` become entities,
/// every other byte stands for itself.
pub open spec fn escape_byte(b: u8) -> Seq<u8> {
    if b == 38 {  // &
        seq![38u8, 97, 109, 112, 59]  // &amp;
    } else if b == 60 {  // <
        seq![38u8, 108, 116, 59]  // &lt;
    } else if b == 62 {  // >
        seq![38u8, 103, 116, 59]  // &gt;
    } else if b == 34 {  // "
        seq![38u8, 113, 117, 111, 116, 59]  // &quot;
    } else {
        seq![b]
    }
}

/// The HTML escape of a byte string.
pub open spec fn escape_of(s: Seq<u8>) -> Seq<u8>
    decreases s.len(),
{
    if s.len() == 0 {
        Seq::empty()
    } else {
        escape_byte(s[0]) + escape_of(s.skip(1))
    }
}

/// Escape `&`, `<`, `>` and `"` for embedding in HTML text or attributes.
pub fn html_escape(s: &Vec<u8>) -> (r: Vec<u8>)
    ensures
        r@ == escape_of(s@),
{
    let mut r: Vec<u8> = Vec::new();
    let mut i: usize = 0;
    assert(s@.skip(0) =~= s@);
    while i < s.len()
        invariant
            i <= s.len(),
            r@ + escape_of(s@.skip(i as int)) == escape_of(s@),
        decreases s.len() - i,
    {
        proof {
            assert(s@.skip(i as int)[0] == s@[i as int]);
            assert(s@.skip(i as int).skip(1) =~= s@.skip(i as int + 1));
        }
        let b = s[i];
        if b == 38 {
            r.push(38);
            r.push(97);
            r.push(109);
            r.push(112);
            r.push(59);
        } else if b == 60 {
            r.push(38);
            r.push(108);
            r.push(116);
            r.push(59);
        } else if b == 62 {
            r.push(38);
            r.push(103);
            r.push(116);
            r.push(59);
        } else if b == 34 {
            r.push(38);
            r.push(113);
            r.push(117);
            r.push(111);
            r.push(116);
            r.push(59);
        } else {
            r.push(b);
        }
        i += 1;
        assert(r@ + escape_of(s@.skip(i as int)) =~= escape_of(s@));
    }
    assert(r@ =~= escape_of(s@));
    r
}

/// Append every byte of `src` to `dst`.
pub fn append_bytes(dst: &mut Vec<u8>, src: &Vec<u8>)
    ensures
        final(dst)@ == old(dst)@ + src@,
{
    let mut i: usize = 0;
    while i < src.len()
        invariant
            i <= src.len(),
            dst@ == old(dst)@ + src@.take(i as int),
        decreases src.len() - i,
    {
        dst.push(src[i]);
        assert(dst@ =~= old(dst)@ + src@.take(i as int + 1));
        i += 1;
    }
    assert(dst@ =~= old(dst)@ + src@);
}

} // verus!
