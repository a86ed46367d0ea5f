//! Safe canonicalization of a requested path against the configured root.
//!
//! The requested path is split on `/`; `.` and empty components are dropped,
//! `..` removes the last surviving component but never climbs above the
//! root, and everything else is appended. The result therefore always starts
//! with the root, and the reported depth is the number of surviving
//! components.
use vstd::prelude::*;

verus! {

/// The non-empty `/`-separated segments of `p` from position `i` on, with
/// `cur` the partial segment read so far.
pub open spec fn split_from(p: Seq<u8>, i: int, cur: Seq<u8>) -> Seq<Seq<u8>>
    decreases p.len() - i,
{
    if i < 0 || i >= p.len() {
        if cur.len() == 0 {
            Seq::empty()
        } else {
            seq![cur]
        }
    } else if p[i] == 47 {
        (if cur.len() == 0 {
            Seq::empty()
        } else {
            seq![cur]
        }) + split_from(p, i + 1, Seq::empty())
    } else {
        split_from(p, i + 1, cur.push(p[i]))
    }
}

/// The non-empty `/`-separated segments of `p`.
pub open spec fn segments_of(p: Seq<u8>) -> Seq<Seq<u8>> {
    split_from(p, 0, Seq::empty())
}

/// Fold the segments left to right: `.` is dropped, `..` removes the last
/// accumulated segment if there is one, anything else is appended.
pub open spec fn canon_from(acc: Seq<Seq<u8>>, segs: Seq<Seq<u8>>) -> Seq<Seq<u8>>
    decreases segs.len(),
{
    if segs.len() == 0 {
        acc
    } else {
        let c = segs[0];
        if c == seq![46u8, 46u8] {
            canon_from(if acc.len() > 0 {
                acc.drop_last()
            } else {
                acc
            }, segs.skip(1))
        } else if c == seq![46u8] {
            canon_from(acc, segs.skip(1))
        } else {
            canon_from(acc.push(c), segs.skip(1))
        }
    }
}

/// The components of `p` that survive canonicalization, in order.
pub open spec fn canon_of(p: Seq<u8>) -> Seq<Seq<u8>> {
    canon_from(Seq::empty(), segments_of(p))
}

/// `root` with the segments appended, one `/` between elements (none added
/// after a root that already ends in `/`).
pub open spec fn join_under(root: Seq<u8>, segs: Seq<Seq<u8>>) -> Seq<u8>
    decreases segs.len(),
{
    if segs.len() == 0 {
        root
    } else {
        let base = join_under(root, segs.drop_last());
        (if base.len() > 0 && base[base.len() - 1] == 47 {
            base
        } else {
            base + seq![47u8]
        }) + segs.last()
    }
}

/// Every surviving component is non-empty.
pub open spec fn all_nonempty(segs: Seq<Seq<u8>>) -> bool {
    forall|i: int| 0 <= i < segs.len() ==> segs[i].len() > 0
}

proof fn lemma_split_nonempty(p: Seq<u8>, i: int, cur: Seq<u8>)
    ensures
        all_nonempty(split_from(p, i, cur)),
    decreases p.len() - i,
{
    if i < 0 || i >= p.len() {
    } else if p[i] == 47 {
        lemma_split_nonempty(p, i + 1, Seq::empty());
        assert(all_nonempty(split_from(p, i, cur)));
    } else {
        lemma_split_nonempty(p, i + 1, cur.push(p[i]));
    }
}

proof fn lemma_canon_nonempty(acc: Seq<Seq<u8>>, segs: Seq<Seq<u8>>)
    requires
        all_nonempty(acc),
        all_nonempty(segs),
    ensures
        all_nonempty(canon_from(acc, segs)),
    decreases segs.len(),
{
    if segs.len() == 0 {
    } else {
        let c = segs[0];
        assert(all_nonempty(segs.skip(1)));
        if c == seq![46u8, 46u8] {
            let acc2 = if acc.len() > 0 {
                acc.drop_last()
            } else {
                acc
            };
            assert(all_nonempty(acc2));
            lemma_canon_nonempty(acc2, segs.skip(1));
        } else if c == seq![46u8] {
            lemma_canon_nonempty(acc, segs.skip(1));
        } else {
            assert(all_nonempty(acc.push(c)));
            lemma_canon_nonempty(acc.push(c), segs.skip(1));
        }
    }
}

/// The joined path keeps `root` as a prefix, and is strictly longer than
/// `root` whenever a component survives.
pub proof fn lemma_join_prefix(root: Seq<u8>, segs: Seq<Seq<u8>>)
    requires
        all_nonempty(segs),
    ensures
        join_under(root, segs).len() >= root.len(),
        join_under(root, segs).subrange(0, root.len() as int) == root,
        segs.len() > 0 ==> join_under(root, segs).len() > root.len(),
    decreases segs.len(),
{
    if segs.len() == 0 {
        assert(join_under(root, segs).subrange(0, root.len() as int) =~= root);
    } else {
        assert(all_nonempty(segs.drop_last()));
        lemma_join_prefix(root, segs.drop_last());
        let base = join_under(root, segs.drop_last());
        let whole = join_under(root, segs);
        assert(whole.len() > base.len());
        assert(whole.subrange(0, root.len() as int) =~= base.subrange(0, root.len() as int));
    }
}

/// Split a path on `/`, dropping empty segments.
fn split_segments(p: &Vec<u8>) -> (r: Vec<Vec<u8>>)
    ensures
        r.deep_view() == segments_of(p@),
{
    let mut r: Vec<Vec<u8>> = Vec::new();
    let mut cur: Vec<u8> = Vec::new();
    let mut i: usize = 0;
    assert(r.deep_view() + split_from(p@, 0, cur@) =~~= segments_of(p@));
    while i < p.len()
        invariant
            i <= p.len(),
            r.deep_view() + split_from(p@, i as int, cur@) == segments_of(p@),
        decreases p.len() - i,
    {
        if p[i] == 47 {
            if cur.len() > 0 {
                let ghost rb = r.deep_view();
                let ghost cb = cur@;
                r.push(cur);
                cur = Vec::new();
                proof {
                    assert(r.deep_view() =~~= rb.push(cb));
                }
            } else {
                proof {
                    assert(cur@ =~= Seq::<u8>::empty());
                }
            }
            assert(cur@ =~= Seq::<u8>::empty());
            assert(r.deep_view() + split_from(p@, i as int + 1, cur@) =~~= segments_of(p@));
        } else {
            cur.push(p[i]);
            assert(r.deep_view() + split_from(p@, i as int + 1, cur@) =~~= segments_of(p@));
        }
        i += 1;
    }
    if cur.len() > 0 {
        let ghost rb = r.deep_view();
        let ghost cb = cur@;
        r.push(cur);
        proof {
            assert(r.deep_view() =~~= rb.push(cb));
        }
    }
    assert(r.deep_view() =~~= segments_of(p@));
    r
}

/// True when the component is `..`.
fn is_dotdot(c: &Vec<u8>) -> (r: bool)
    ensures
        r <==> c@ == seq![46u8, 46u8],
{
    if c.len() == 2 && c[0] == 46 && c[1] == 46 {
        assert(c@ =~= seq![46u8, 46u8]);
        true
    } else {
        assert(c@ != seq![46u8, 46u8]);
        false
    }
}

/// True when the component is `.`.
fn is_dot(c: &Vec<u8>) -> (r: bool)
    ensures
        r <==> c@ == seq![46u8],
{
    if c.len() == 1 && c[0] == 46 {
        assert(c@ =~= seq![46u8]);
        true
    } else {
        assert(c@ != seq![46u8]);
        false
    }
}

/// Copy a byte vector.
pub fn clone_bytes(v: &Vec<u8>) -> (r: Vec<u8>)
    ensures
        r@ == v@,
{
    let mut r: Vec<u8> = Vec::new();
    crate::ascii::append_bytes(&mut r, v);
    assert(r@ =~= v@);
    r
}

/// Canonicalize `path` against `root`: apply each component, never letting
/// `..` climb above the root, and return the surviving depth together with
/// the joined absolute path.
///
/// For every input the result starts with `root`, and the depth is `0`
/// exactly when the result is `root` itself.
pub fn path_canonicalize(root: &Vec<u8>, path: &Vec<u8>) -> (r: (usize, Vec<u8>))
    ensures
        r.1@ == join_under(root@, canon_of(path@)),
        r.0 == canon_of(path@).len(),
        r.1@.len() >= root@.len(),
        r.1@.subrange(0, root@.len() as int) == root@,
        (r.0 == 0) <==> (r.1@ == root@),
{
    let comps = split_segments(path);
    let mut segs: Vec<Vec<u8>> = Vec::new();
    let mut j: usize = 0;
    proof {
        assert(comps.deep_view().skip(0) =~~= comps.deep_view());
        assert(segs.deep_view() =~~= Seq::<Seq<u8>>::empty());
    }
    while j < comps.len()
        invariant
            j <= comps.len(),
            comps.deep_view() == segments_of(path@),
            canon_from(segs.deep_view(), comps.deep_view().skip(j as int)) == canon_of(path@),
        decreases comps.len() - j,
    {
        proof {
            assert(comps.deep_view().skip(j as int)[0] == comps.deep_view()[j as int]);
            assert(comps.deep_view()[j as int] =~= comps@[j as int]@);
            assert(comps.deep_view().skip(j as int).skip(1) =~~= comps.deep_view().skip(
                j as int + 1,
            ));
        }
        let c = &comps[j];
        if is_dotdot(c) {
            if segs.len() > 0 {
                let ghost before = segs.deep_view();
                segs.pop();
                proof {
                    assert(segs.deep_view() =~~= before.drop_last());
                }
            }
        } else if is_dot(c) {
            // dropped
        } else {
            let ghost before = segs.deep_view();
            let cc = clone_bytes(c);
            segs.push(cc);
            proof {
                assert(segs.deep_view() =~~= before.push(comps@[j as int]@));
            }
        }
        proof {
            assert(canon_from(segs.deep_view(), comps.deep_view().skip(j as int + 1))
                == canon_of(path@));
        }
        j += 1;
    }
    proof {
        assert(comps.deep_view().skip(comps.len() as int) =~~= Seq::<Seq<u8>>::empty());
        assert(segs.deep_view() == canon_of(path@));
        lemma_split_nonempty(path@, 0, Seq::empty());
        lemma_canon_nonempty(Seq::empty(), segments_of(path@));
        lemma_join_prefix(root@, canon_of(path@));
    }
    // render: root, then each surviving component behind a separator
    let mut out: Vec<u8> = clone_bytes(root);
    let mut k: usize = 0;
    proof {
        assert(segs.deep_view().take(0) =~~= Seq::<Seq<u8>>::empty());
    }
    while k < segs.len()
        invariant
            k <= segs.len(),
            segs.deep_view() == canon_of(path@),
            out@ == join_under(root@, segs.deep_view().take(k as int)),
        decreases segs.len() - k,
    {
        proof {
            assert(segs.deep_view().take(k as int + 1).drop_last() =~~= segs.deep_view().take(
                k as int,
            ));
            assert(segs.deep_view().take(k as int + 1).last() =~= segs@[k as int]@);
        }
        let needs_sep = out.len() == 0 || out[out.len() - 1] != 47;
        if needs_sep {
            out.push(47);
        }
        let seg = &segs[k];
        crate::ascii::append_bytes(&mut out, seg);
        assert(out@ =~= join_under(root@, segs.deep_view().take(k as int + 1)));
        k += 1;
    }
    proof {
        assert(segs.deep_view().take(segs.len() as int) =~~= segs.deep_view());
    }
    let depth = segs.len();
    (depth, out)
}

} // verus!
