//! The server-side view of one stat snapshot of one file, and the decision
//! taken for a request against it.
//!
//! The conditional headers are evaluated in a fixed order, first match
//! wins: `If-Match` (412), `If-None-Match` (304), `If-Modified-Since`
//! (304), then `If-Range` (which may demote a range request to a full
//! body), then the `Range` header itself.
use vstd::prelude::*;
use crate::etag::{FileMeta, etag, etag_of};
use crate::cond::{
    TagSet, TagSetModel, IfRangeCond, IfRangeModel, if_match_passes, if_none_match_hits,
    strong_match, tagset_passes_strong, tagset_hits_weak,
};
use crate::range::{HttpRange, norm_of, range_header_of};
use crate::rangeparse::parse_range_header;
use crate::ascii::bytes_eq;

verus! {

/// The conditional and range headers of one request, as plain values. The
/// dates are whole seconds since the epoch; the `Range` value is kept raw
/// and parsed here.
pub struct ReqHeaders {
    pub if_match: Option<TagSet>,
    pub if_none_match: Option<TagSet>,
    pub if_modified_since: Option<u64>,
    pub if_range: Option<IfRangeCond>,
    pub range: Option<Vec<u8>>,
}

/// The spec-level form of the request headers.
pub struct HeadersModel {
    pub if_match: Option<TagSetModel>,
    pub if_none_match: Option<TagSetModel>,
    pub if_modified_since: Option<u64>,
    pub if_range: Option<IfRangeModel>,
    pub range: Option<Seq<u8>>,
}

impl ReqHeaders {
    pub open spec fn model(&self) -> HeadersModel {
        HeadersModel {
            if_match: match self.if_match {
                Some(ts) => Some(ts.model()),
                None => None,
            },
            if_none_match: match self.if_none_match {
                Some(ts) => Some(ts.model()),
                None => None,
            },
            if_modified_since: self.if_modified_since,
            if_range: match self.if_range {
                Some(c) => Some(c.model()),
                None => None,
            },
            range: match self.range {
                Some(v) => Some(v@),
                None => None,
            },
        }
    }
}

/// What is served for one request: an error, a cache hit, the whole file,
/// one range, or several ranges as multipart parts.
pub enum Decision {
    PrecondFailed,
    NotModified,
    BadRange,
    Full,
    Single(HttpRange),
    Multipart(Vec<HttpRange>),
}

/// The spec-level form of a decision.
pub enum DecisionModel {
    PrecondFailed,
    NotModified,
    BadRange,
    Full,
    Single(HttpRange),
    Multipart(Seq<HttpRange>),
}

impl Decision {
    pub open spec fn model(&self) -> DecisionModel {
        match self {
            Decision::PrecondFailed => DecisionModel::PrecondFailed,
            Decision::NotModified => DecisionModel::NotModified,
            Decision::BadRange => DecisionModel::BadRange,
            Decision::Full => DecisionModel::Full,
            Decision::Single(r) => DecisionModel::Single(*r),
            Decision::Multipart(v) => DecisionModel::Multipart(v@),
        }
    }
}

/// `If-Match` is present and nothing in it matches strongly.
pub open spec fn precond_fails(h: HeadersModel, etag: Seq<u8>) -> bool {
    match h.if_match {
        Some(ts) => !if_match_passes(ts, etag),
        None => false,
    }
}

/// `If-None-Match` is present and something in it matches weakly.
pub open spec fn inm_hits(h: HeadersModel, etag: Seq<u8>) -> bool {
    match h.if_none_match {
        Some(ts) => if_none_match_hits(ts, etag),
        None => false,
    }
}

/// `If-Modified-Since` is present and the file's mtime, at second
/// precision, is equal or earlier.
pub open spec fn ims_hits(h: HeadersModel, meta: FileMeta) -> bool {
    match h.if_modified_since {
        Some(d) => match meta.modified {
            Some(m) => m <= d,
            None => false,
        },
        None => false,
    }
}

/// `If-Range` is present and its validator does not hold: a tag that does
/// not match strongly, or a date strictly older than the mtime. The range
/// request is then demoted to a full body.
pub open spec fn range_demoted(h: HeadersModel, meta: FileMeta, etag: Seq<u8>) -> bool {
    match h.if_range {
        None => false,
        Some(IfRangeModel::Tag(t)) => !strong_match(t, etag),
        Some(IfRangeModel::Date(d)) => match meta.modified {
            Some(m) => d < m,
            None => false,
        },
    }
}

/// The decision for one request against one stat snapshot, per the fixed
/// evaluation order.
pub open spec fn decision_of(meta: FileMeta, h: HeadersModel) -> DecisionModel {
    let etag = etag_of(meta);
    if precond_fails(h, etag) {
        DecisionModel::PrecondFailed
    } else if inm_hits(h, etag) {
        DecisionModel::NotModified
    } else if ims_hits(h, meta) {
        DecisionModel::NotModified
    } else {
        match h.range {
            None => DecisionModel::Full,
            Some(v) => if range_demoted(h, meta, etag) {
                DecisionModel::Full
            } else {
                match range_header_of(v) {
                    None => DecisionModel::Full,
                    Some(specs) => {
                        let rs = norm_of(specs, meta.size);
                        if rs.len() == 0 {
                            DecisionModel::BadRange
                        } else if rs.len() == 1 {
                            DecisionModel::Single(rs[0])
                        } else {
                            DecisionModel::Multipart(rs)
                        }
                    },
                }
            },
        }
    }
}

/// One stat snapshot of one file: its path inside the root, its length,
/// the raw metadata, and the entity tag derived from it. All fields come
/// from the same snapshot; later filesystem changes are ignored.
pub struct Entity {
    pub path: Vec<u8>,
    pub length: u64,
    pub meta: FileMeta,
    pub etag: Vec<u8>,
}

impl Entity {
    /// The fields all describe the same snapshot.
    pub open spec fn wf(&self) -> bool {
        self.etag@ == etag_of(self.meta) && self.length == self.meta.size
    }

    /// Build the entity for one stat snapshot.
    pub fn new(path: Vec<u8>, meta: FileMeta) -> (e: Entity)
        ensures
            e.wf(),
            e.path@ == path@,
            e.meta == meta,
            e.length == meta.size,
    {
        let tag = etag(&meta);
        Entity { path, length: meta.size, meta, etag: tag }
    }

    /// Evaluate the conditional and range headers, first match wins.
    pub fn result(&self, h: &ReqHeaders) -> (d: Decision)
        requires
            self.wf(),
        ensures
            d.model() == decision_of(self.meta, h.model()),
    {
        match &h.if_match {
            Some(ts) => {
                if !tagset_passes_strong(ts, &self.etag) {
                    return Decision::PrecondFailed;
                }
            },
            None => (),
        }
        match &h.if_none_match {
            Some(ts) => {
                if tagset_hits_weak(ts, &self.etag) {
                    return Decision::NotModified;
                }
            },
            None => (),
        }
        match (h.if_modified_since, self.meta.modified) {
            (Some(d), Some(m)) => {
                if m <= d {
                    return Decision::NotModified;
                }
            },
            _ => (),
        }
        let demoted = match &h.if_range {
            None => false,
            Some(IfRangeCond::Tag(t)) => t.weak || !bytes_eq(&t.opaque, &self.etag),
            Some(IfRangeCond::Date(d)) => match self.meta.modified {
                Some(m) => *d < m,
                None => false,
            },
        };
        match &h.range {
            None => Decision::Full,
            Some(v) => {
                if demoted {
                    return Decision::Full;
                }
                match parse_range_header(v) {
                    None => Decision::Full,
                    Some(specs) => {
                        let rs = crate::range::process_range(&specs, self.meta.size);
                        if rs.len() == 0 {
                            Decision::BadRange
                        } else if rs.len() == 1 {
                            let one = rs[0];
                            Decision::Single(one)
                        } else {
                            Decision::Multipart(rs)
                        }
                    },
                }
            },
        }
    }
}

} // verus!
