//! Conditional request headers: entity-tag lists for `If-Match` and
//! `If-None-Match`, and the date and tag forms of `If-Range`.
//!
//! A tag list is a comma-separated sequence of quoted tags, each optionally
//! prefixed with `W/`; `*` matches anything. Tags are compared against the
//! entity's quoted tag: strongly (both strong, same bytes) for `If-Match`
//! and `If-Range`, weakly (same bytes, weakness ignored) for
//! `If-None-Match`.
use vstd::prelude::*;
use crate::range::{trim_of, tokens_from};
use crate::rangeparse::trim_token;

verus! {

/// One client entity tag: its quoted bytes and whether it was marked weak.
pub struct TagModel {
    pub weak: bool,
    pub opaque: Seq<u8>,
}

/// A parsed tag list: `*`, or the well-formed tags in order.
pub enum TagSetModel {
    Any,
    Tags(Seq<TagModel>),
}

/// One client entity tag, as carried at run time.
pub struct ClientTag {
    pub weak: bool,
    pub opaque: Vec<u8>,
}

impl ClientTag {
    pub open spec fn model(&self) -> TagModel {
        TagModel { weak: self.weak, opaque: self.opaque@ }
    }
}

/// A parsed tag list, as carried at run time.
pub enum TagSet {
    Any,
    Tags(Vec<ClientTag>),
}

/// The tag models of a vector of client tags.
pub open spec fn tags_model(v: Seq<ClientTag>) -> Seq<TagModel> {
    Seq::new(v.len(), |i: int| v[i].model())
}

impl TagSet {
    pub open spec fn model(&self) -> TagSetModel {
        match self {
            TagSet::Any => TagSetModel::Any,
            TagSet::Tags(v) => TagSetModel::Tags(tags_model(v@)),
        }
    }
}

/// Parse one comma-separated tag token: after trimming, `"..."` is a strong
/// tag and `W/"..."` a weak one (the quotes stay part of the tag bytes);
/// anything else is malformed.
pub open spec fn tag_token_of(tok: Seq<u8>) -> Option<TagModel> {
    let t = trim_of(tok);
    if t.len() >= 2 && t[0] == 34 && t.last() == 34 {
        Some(TagModel { weak: false, opaque: t })
    } else if t.len() >= 4 && t[0] == 87 && t[1] == 47 && t[2] == 34 && t.last() == 34 {
        Some(TagModel { weak: true, opaque: t.skip(2) })
    } else {
        None
    }
}

/// The well-formed tags of a token list, in order.
pub open spec fn tags_of(tokens: Seq<Seq<u8>>) -> Seq<TagModel>
    decreases tokens.len(),
{
    if tokens.len() == 0 {
        Seq::empty()
    } else {
        tags_of(tokens.drop_last()) + (match tag_token_of(tokens.last()) {
            Some(t) => seq![t],
            None => Seq::empty(),
        })
    }
}

/// What a tag-list header value means: `*`, or its well-formed tags.
pub open spec fn tagset_of(v: Seq<u8>) -> TagSetModel {
    if trim_of(v) == seq![42u8] {
        TagSetModel::Any
    } else {
        TagSetModel::Tags(tags_of(tokens_from(v, 0, Seq::empty())))
    }
}

/// A strong comparison: the client tag is strong and its bytes equal the
/// entity's quoted tag.
pub open spec fn strong_match(t: TagModel, etag: Seq<u8>) -> bool {
    !t.weak && t.opaque == etag
}

/// A weak comparison: the bytes are equal, weakness ignored.
pub open spec fn weak_match(t: TagModel, etag: Seq<u8>) -> bool {
    t.opaque == etag
}

/// Some tag in the list matches strongly.
pub open spec fn has_strong(l: Seq<TagModel>, etag: Seq<u8>) -> bool {
    exists|i: int| 0 <= i < l.len() && #[trigger] strong_match(l[i], etag)
}

/// Some tag in the list matches weakly.
pub open spec fn has_weak(l: Seq<TagModel>, etag: Seq<u8>) -> bool {
    exists|i: int| 0 <= i < l.len() && #[trigger] weak_match(l[i], etag)
}

/// `If-Match` passes when the list is `*` or holds a strong match.
pub open spec fn if_match_passes(ts: TagSetModel, etag: Seq<u8>) -> bool {
    match ts {
        TagSetModel::Any => true,
        TagSetModel::Tags(l) => has_strong(l, etag),
    }
}

/// `If-None-Match` hits when the list is `*` or holds a weak match.
pub open spec fn if_none_match_hits(ts: TagSetModel, etag: Seq<u8>) -> bool {
    match ts {
        TagSetModel::Any => true,
        TagSetModel::Tags(l) => has_weak(l, etag),
    }
}

/// Parse one tag token.
pub fn parse_tag_token(tok: &Vec<u8>) -> (r: Option<ClientTag>)
    ensures
        match r {
            Some(t) => tag_token_of(tok@) == Some(t.model()),
            None => tag_token_of(tok@) is None,
        },
{
    let t = trim_token(tok);
    if t.len() >= 2 && t[0] == 34 && t[t.len() - 1] == 34 {
        proof {
            assert(t@.last() == t@[t@.len() - 1]);
        }
        Some(ClientTag { weak: false, opaque: t })
    } else if t.len() >= 4 && t[0] == 87 && t[1] == 47 && t[2] == 34 && t[t.len() - 1] == 34 {
        proof {
            assert(t@.last() == t@[t@.len() - 1]);
        }
        let mut opaque: Vec<u8> = Vec::new();
        let mut i: usize = 2;
        while i < t.len()
            invariant
                2 <= i <= t@.len(),
                opaque@ == t@.skip(2).take(i - 2),
            decreases t@.len() - i,
        {
            proof {
                assert(t@.skip(2)[i - 2] == t@[i as int]);
            }
            opaque.push(t[i]);
            assert(opaque@ =~= t@.skip(2).take(i + 1 - 2));
            i += 1;
        }
        proof {
            assert(t@.skip(2).take(t@.len() - 2) =~= t@.skip(2));
        }
        Some(ClientTag { weak: true, opaque })
    } else {
        None
    }
}

/// Parse a tag-list header value.
pub fn parse_tag_list(v: &Vec<u8>) -> (r: TagSet)
    ensures
        r.model() == tagset_of(v@),
{
    let t = trim_token(v);
    if t.len() == 1 && t[0] == 42 {
        proof {
            assert(trim_of(v@) =~= seq![42u8]);
        }
        return TagSet::Any;
    }
    proof {
        assert(trim_of(v@) != seq![42u8]);
    }
    let tokens = split_commas(v);
    let mut tags: Vec<ClientTag> = Vec::new();
    let mut i: usize = 0;
    proof {
        assert(tokens.deep_view().take(0) =~~= Seq::<Seq<u8>>::empty());
        assert(tags_model(tags@) =~= Seq::<TagModel>::empty());
    }
    while i < tokens.len()
        invariant
            i <= tokens.len(),
            tokens.deep_view() == tokens_from(v@, 0, Seq::empty()),
            tags_model(tags@) == tags_of(tokens.deep_view().take(i as int)),
        decreases tokens.len() - i,
    {
        proof {
            assert(tokens.deep_view().take(i as int + 1).drop_last() =~~= tokens.deep_view().take(
                i as int,
            ));
            assert(tokens.deep_view().take(i as int + 1).last() =~= tokens@[i as int]@);
        }
        match parse_tag_token(&tokens[i]) {
            Some(tag) => {
                let ghost before = tags_model(tags@);
                let ghost tm = tag.model();
                tags.push(tag);
                proof {
                    assert(tags_model(tags@) =~= before.push(tm));
                }
            },
            None => (),
        }
        assert(tags_model(tags@) =~= tags_of(tokens.deep_view().take(i as int + 1)));
        i += 1;
    }
    proof {
        assert(tokens.deep_view().take(tokens.len() as int) =~~= tokens.deep_view());
    }
    TagSet::Tags(tags)
}

/// Split a header value on commas, keeping empty tokens.
fn split_commas(p: &Vec<u8>) -> (r: Vec<Vec<u8>>)
    ensures
        r.deep_view() == tokens_from(p@, 0, Seq::empty()),
{
    let ghost s = p@;
    let mut r: Vec<Vec<u8>> = Vec::new();
    let mut cur: Vec<u8> = Vec::new();
    let mut i: usize = 0;
    assert(r.deep_view() + tokens_from(s, 0, cur@) =~~= tokens_from(s, 0, Seq::empty()));
    while i < p.len()
        invariant
            i <= p@.len(),
            s == p@,
            r.deep_view() + tokens_from(s, i as int, cur@) == tokens_from(s, 0, Seq::empty()),
        decreases p@.len() - i,
    {
        if p[i] == 44 {
            let ghost rb = r.deep_view();
            let ghost cb = cur@;
            r.push(cur);
            cur = Vec::new();
            proof {
                assert(r.deep_view() =~~= rb.push(cb));
            }
            assert(cur@ =~= Seq::<u8>::empty());
            assert(r.deep_view() + tokens_from(s, i as int + 1, cur@) =~~= tokens_from(
                s,
                0,
                Seq::empty(),
            ));
        } else {
            cur.push(p[i]);
            assert(r.deep_view() + tokens_from(s, i as int + 1, cur@) =~~= tokens_from(
                s,
                0,
                Seq::empty(),
            ));
        }
        i += 1;
    }
    let ghost rb = r.deep_view();
    let ghost cb = cur@;
    r.push(cur);
    proof {
        assert(r.deep_view() =~~= rb.push(cb));
        assert(r.deep_view() =~~= tokens_from(s, 0, Seq::empty()));
    }
    r
}

/// Does the set hold a strong match for the entity's tag?
pub fn tagset_passes_strong(ts: &TagSet, etag: &Vec<u8>) -> (r: bool)
    ensures
        r == if_match_passes(ts.model(), etag@),
{
    match ts {
        TagSet::Any => true,
        TagSet::Tags(l) => {
            let mut i: usize = 0;
            let mut found = false;
            while i < l.len()
                invariant
                    i <= l@.len(),
                    found <==> exists|j: int|
                        0 <= j < i && #[trigger] strong_match(tags_model(l@)[j], etag@),
                decreases l@.len() - i,
            {
                if !l[i].weak && crate::ascii::bytes_eq(&l[i].opaque, etag) {
                    proof {
                        assert(strong_match(tags_model(l@)[i as int], etag@));
                    }
                    found = true;
                }
                i += 1;
            }
            proof {
                if found {
                    let j = choose|j: int|
                        0 <= j < l@.len() && #[trigger] strong_match(tags_model(l@)[j], etag@);
                    assert(0 <= j < tags_model(l@).len() && strong_match(
                        tags_model(l@)[j],
                        etag@,
                    ));
                    assert(has_strong(tags_model(l@), etag@));
                    assert(if_match_passes(TagSetModel::Tags(tags_model(l@)), etag@));
                }
            }
            found
        },
    }
}

/// Does the set hold a weak match for the entity's tag?
pub fn tagset_hits_weak(ts: &TagSet, etag: &Vec<u8>) -> (r: bool)
    ensures
        r == if_none_match_hits(ts.model(), etag@),
{
    match ts {
        TagSet::Any => true,
        TagSet::Tags(l) => {
            let mut i: usize = 0;
            let mut found = false;
            while i < l.len()
                invariant
                    i <= l@.len(),
                    found <==> exists|j: int| 0 <= j < i && #[trigger] weak_match(tags_model(l@)[j], etag@),
                decreases l@.len() - i,
            {
                if crate::ascii::bytes_eq(&l[i].opaque, etag) {
                    proof {
                        assert(weak_match(tags_model(l@)[i as int], etag@));
                    }
                    found = true;
                }
                i += 1;
            }
            proof {
                if found {
                    let j = choose|j: int|
                        0 <= j < l@.len() && #[trigger] weak_match(tags_model(l@)[j], etag@);
                    assert(0 <= j < tags_model(l@).len() && weak_match(tags_model(l@)[j], etag@));
                    assert(has_weak(tags_model(l@), etag@));
                    assert(if_none_match_hits(TagSetModel::Tags(tags_model(l@)), etag@));
                }
            }
            found
        },
    }
}

/// The validator carried by `If-Range`: an entity tag or an HTTP date
/// (whole seconds since the epoch).
pub enum IfRangeCond {
    Tag(ClientTag),
    Date(u64),
}

/// The spec-level form of an `If-Range` validator.
pub enum IfRangeModel {
    Tag(TagModel),
    Date(u64),
}

impl IfRangeCond {
    pub open spec fn model(&self) -> IfRangeModel {
        match self {
            IfRangeCond::Tag(t) => IfRangeModel::Tag(t.model()),
            IfRangeCond::Date(d) => IfRangeModel::Date(*d),
        }
    }
}

/// Classify an `If-Range` value as an entity tag, if it is one; a value
/// that is not a tag is an HTTP date, which the caller parses.
pub fn classify_if_range(v: &Vec<u8>) -> (r: Option<ClientTag>)
    ensures
        match r {
            Some(t) => tag_token_of(v@) == Some(t.model()),
            None => tag_token_of(v@) is None,
        },
{
    parse_tag_token(v)
}

} // verus!
