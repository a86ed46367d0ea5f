//! Building the response head and the body plan for one decision.
//!
//! A response is a status, a header list, and a body plan: a list of
//! segments, each either literal bytes or a byte range of the file as it
//! stood at stat time. The producer that runs the plan lives outside the
//! library; everything it will send is fixed here.
use vstd::prelude::*;
use crate::ascii::{dec_of, u64_to_dec, append_bytes};
use crate::entity::{Entity, Decision, DecisionModel, ReqHeaders, decision_of};
use crate::etag::{FileMeta, etag_of};
use crate::path::clone_bytes;
use crate::pct::is_alnum;
use crate::range::{HttpRange, ranges_total};
use crate::text::{ascii_of, lit};
use rand::RngExt;

verus! {

pub const HTTP_DATE_MAX: u64 = 253402300800;

/// A response header.
#[derive(Clone, Copy, Debug, PartialEq, Eq, Structural)]
pub enum HeaderName {
    ContentType,
    ContentLength,
    ContentRange,
    AcceptRanges,
    ETag,
    LastModified,
    Allow,
}

/// One piece of a body plan: literal bytes, or the file's bytes in
/// `[start, end)` as they stood at stat time.
pub enum Segment {
    Text(Vec<u8>),
    Slice(u64, u64),
}

/// The spec-level form of a segment.
pub enum SegModel {
    Text(Seq<u8>),
    Slice(u64, u64),
}

impl Segment {
    pub open spec fn model(&self) -> SegModel {
        match self {
            Segment::Text(t) => SegModel::Text(t@),
            Segment::Slice(s, e) => SegModel::Slice(*s, *e),
        }
    }
}

/// The models of a segment vector.
pub open spec fn segs_model(v: Seq<Segment>) -> Seq<SegModel> {
    Seq::new(v.len(), |i: int| v[i].model())
}

/// The models of a header vector.
pub open spec fn hdrs_model(v: Seq<(HeaderName, Vec<u8>)>) -> Seq<(HeaderName, Seq<u8>)> {
    Seq::new(v.len(), |i: int| (v[i].0, v[i].1@))
}

/// A response head and its body plan. `total` is the declared body length
/// (it backs `Content-Length` and the stream's size hint); `None` means the
/// length is not declared, as for multipart bodies.
pub struct ResponseHead {
    pub status: u16,
    pub headers: Vec<(HeaderName, Vec<u8>)>,
    pub body: Vec<Segment>,
    pub total: Option<u64>,
}

/// The spec-level form of a response.
pub struct RespModel {
    pub status: u16,
    pub headers: Seq<(HeaderName, Seq<u8>)>,
    pub body: Seq<SegModel>,
    pub total: Option<u64>,
}

impl ResponseHead {
    pub open spec fn model(&self) -> RespModel {
        RespModel {
            status: self.status,
            headers: hdrs_model(self.headers@),
            body: segs_model(self.body@),
            total: self.total,
        }
    }
}

/// What the MIME guess derives from a file name (the extension decides;
/// unknown extensions give `application/octet-stream`).
pub uninterp spec fn mime_of(path: Seq<u8>) -> Seq<u8>;

/// Relies on `mime_guess::from_path` with `first_or_octet_stream`: the MIME
/// type is derived from the name's extension alone, so the result is a
/// function of the path bytes; unknown extensions give
/// `application/octet-stream`.
#[verifier::external_body]
fn guess_mime(path: &Vec<u8>) -> (r: Vec<u8>)
    ensures
        r@ == mime_of(path@),
{
    let name = String::from_utf8_lossy(path.as_slice()).into_owned();
    mime_guess::from_path(std::path::Path::new(&name)).first_or_octet_stream().to_string()
        .into_bytes()
}

/// What an HTTP date (IMF-fixdate) renders the seconds to.
pub uninterp spec fn http_date_of(secs: u64) -> Seq<u8>;

/// Relies on `headers::LastModified` (through `httpdate`): the IMF-fixdate
/// encoding of whole seconds since the epoch, a function of the seconds
/// alone. `httpdate` refuses dates past the year 9999, so the bound keeps
/// the call from panicking.
#[verifier::external_body]
fn fmt_http_date(secs: u64) -> (r: Vec<u8>)
    requires
        secs < HTTP_DATE_MAX,
    ensures
        r@ == http_date_of(secs),
{
    let t = std::time::UNIX_EPOCH + std::time::Duration::from_secs(secs);
    let lm = headers::LastModified::from(t);
    let mut map = http::HeaderMap::new();
    headers::HeaderMapExt::typed_insert(&mut map, lm);
    match map.get("last-modified") {
        Some(v) => v.as_bytes().to_vec(),
        None => Vec::new(),
    }
}

/// Relies on `rand`'s `Alphanumeric` distribution over the thread rng:
/// every drawn byte is an ASCII letter or digit; nothing else is promised
/// of a random value.
#[verifier::external_body]
fn random_boundary() -> (r: Vec<u8>)
    ensures
        r@.len() == 12,
        forall|i: int| 0 <= i < r@.len() ==> is_alnum(r@[i]),
{
    rand::rng().sample_iter(rand::distr::Alphanumeric).take(12).collect()
}

/// A well-formed multipart boundary: twelve ASCII letters or digits.
pub open spec fn boundary_ok(b: Seq<u8>) -> bool {
    b.len() == 12 && (forall|i: int| 0 <= i < b.len() ==> is_alnum(b[i]))
}

/// The `Last-Modified` value of a snapshot, when the filesystem reported a
/// representable mtime.
pub open spec fn lm_of(meta: FileMeta) -> Option<Seq<u8>> {
    match meta.modified {
        Some(s) => if s < HTTP_DATE_MAX {
            Some(http_date_of(s))
        } else {
            None
        },
        None => None,
    }
}

/// The `text/html; charset=utf-8` content type.
pub open spec fn html_utf8_of() -> Seq<u8> {
    ascii_of("text/html; charset=utf-8")
}

/// The `text/html; charset=utf-8` content type value.
pub fn html_utf8() -> (r: Vec<u8>)
    ensures
        r@ == html_utf8_of(),
{
    proof {
        reveal_strlit("text/html; charset=utf-8");
        assert(vstd::string::is_ascii("text/html; charset=utf-8"));
    }
    lit("text/html; charset=utf-8")
}

/// A `Content-Range` value for a served range: `bytes s-e/len` with `e` the
/// last byte position.
pub open spec fn content_range_of(r: HttpRange, length: u64) -> Seq<u8>
    recommends
        r.start < r.end,
{
    ascii_of("bytes ") + dec_of(r.start as nat) + seq![45u8] + dec_of((r.end - 1) as nat) + seq![
        47u8,
    ] + dec_of(length as nat)
}

/// The `Content-Range` of an unsatisfiable request: `bytes */len`.
pub open spec fn unsat_range_of(length: u64) -> Seq<u8> {
    ascii_of("bytes */") + dec_of(length as nat)
}

/// The content type of a multipart response.
pub open spec fn multipart_ct_of(boundary: Seq<u8>) -> Seq<u8> {
    ascii_of("multipart/byteranges; boundary=") + boundary
}

/// Render a `Content-Range` value.
pub fn content_range_value(r: &HttpRange, length: u64) -> (v: Vec<u8>)
    requires
        r.start < r.end,
    ensures
        v@ == content_range_of(*r, length),
{
    proof {
        reveal_strlit("bytes ");
        assert(vstd::string::is_ascii("bytes "));
    }
    let mut v = lit("bytes ");
    let d1 = u64_to_dec(r.start);
    append_bytes(&mut v, &d1);
    v.push(45);
    let d2 = u64_to_dec(r.end - 1);
    append_bytes(&mut v, &d2);
    v.push(47);
    let d3 = u64_to_dec(length);
    append_bytes(&mut v, &d3);
    assert(v@ =~= content_range_of(*r, length));
    v
}

/// Render the unsatisfiable `Content-Range` value.
pub fn unsat_range_value(length: u64) -> (v: Vec<u8>)
    ensures
        v@ == unsat_range_of(length),
{
    proof {
        reveal_strlit("bytes */");
        assert(vstd::string::is_ascii("bytes */"));
    }
    let mut v = lit("bytes */");
    let d = u64_to_dec(length);
    append_bytes(&mut v, &d);
    assert(v@ =~= unsat_range_of(length));
    v
}

/// Append one header, keeping the model aligned.
pub(crate) fn push_header(hs: &mut Vec<(HeaderName, Vec<u8>)>, name: HeaderName, value: Vec<u8>)
    ensures
        hdrs_model(final(hs)@) == hdrs_model(old(hs)@).push((name, value@)),
{
    let ghost vv = value@;
    hs.push((name, value));
    assert(hdrs_model(hs@) =~= hdrs_model(old(hs)@).push((name, vv)));
}

/// Append one segment, keeping the model aligned.
pub(crate) fn push_segment(ss: &mut Vec<Segment>, seg: Segment)
    ensures
        segs_model(final(ss)@) == segs_model(old(ss)@).push(seg.model()),
{
    let ghost m = seg.model();
    ss.push(seg);
    assert(segs_model(ss@) =~= segs_model(old(ss)@).push(m));
}

/// The headers every success response carries: `Accept-Ranges: bytes`, the
/// content type, the entity tag, and `Last-Modified` when available.
pub open spec fn base_headers_of(meta: FileMeta, ct: Seq<u8>) -> Seq<(HeaderName, Seq<u8>)> {
    seq![
        (HeaderName::AcceptRanges, ascii_of("bytes")),
        (HeaderName::ContentType, ct),
        (HeaderName::ETag, etag_of(meta)),
    ] + (match lm_of(meta) {
        Some(d) => seq![(HeaderName::LastModified, d)],
        None => Seq::empty(),
    })
}

impl Entity {
    /// The base headers of this entity, with the given content type.
    fn base_headers(&self, ct: Vec<u8>) -> (hs: Vec<(HeaderName, Vec<u8>)>)
        requires
            self.wf(),
        ensures
            hdrs_model(hs@) == base_headers_of(self.meta, ct@),
    {
        proof {
            reveal_strlit("bytes");
            assert(vstd::string::is_ascii("bytes"));
        }
        let mut hs: Vec<(HeaderName, Vec<u8>)> = Vec::new();
        push_header(&mut hs, HeaderName::AcceptRanges, lit("bytes"));
        push_header(&mut hs, HeaderName::ContentType, ct);
        push_header(&mut hs, HeaderName::ETag, clone_bytes(&self.etag));
        match self.meta.modified {
            Some(s) => {
                if s < HTTP_DATE_MAX {
                    push_header(&mut hs, HeaderName::LastModified, fmt_http_date(s));
                }
            },
            None => (),
        }
        assert(hdrs_model(hs@) =~= base_headers_of(self.meta, ct@));
        hs
    }

    /// The headers of a plain success response (a full body or one range),
    /// with the content type guessed from the file name.
    pub fn headers(&self) -> (hs: Vec<(HeaderName, Vec<u8>)>)
        requires
            self.wf(),
        ensures
            hdrs_model(hs@) == base_headers_of(self.meta, mime_of(self.path@)),
    {
        let ct = guess_mime(&self.path);
        self.base_headers(ct)
    }

    /// The headers of a multipart response with the given boundary.
    pub fn multipart_headers(&self, boundary: &Vec<u8>) -> (hs: Vec<(HeaderName, Vec<u8>)>)
        requires
            self.wf(),
        ensures
            hdrs_model(hs@) == base_headers_of(self.meta, multipart_ct_of(boundary@)),
    {
        proof {
            reveal_strlit("multipart/byteranges; boundary=");
            assert(vstd::string::is_ascii("multipart/byteranges; boundary="));
        }
        let mut ct = lit("multipart/byteranges; boundary=");
        append_bytes(&mut ct, boundary);
        assert(ct@ =~= multipart_ct_of(boundary@));
        self.base_headers(ct)
    }
}

/// The per-part head of a multipart body: the boundary line, then
/// `content-type` and `content-range` for the part, then a blank line.
pub open spec fn part_head_of(boundary: Seq<u8>, mime: Seq<u8>, r: HttpRange, length: u64) -> Seq<
    u8,
> {
    ascii_of("--") + boundary + ascii_of("\r\n") + ascii_of("content-type: ") + mime + ascii_of(
        "\r\n",
    ) + ascii_of("content-range: ") + content_range_of(r, length) + ascii_of("\r\n\r\n")
}

/// The closing line of a multipart body.
pub open spec fn end_marker_of(boundary: Seq<u8>) -> Seq<u8> {
    ascii_of("--") + boundary + ascii_of("--")
}

/// Render one part head.
fn part_head(boundary: &Vec<u8>, mime: &Vec<u8>, r: &HttpRange, length: u64) -> (v: Vec<u8>)
    requires
        r.start < r.end,
    ensures
        v@ == part_head_of(boundary@, mime@, *r, length),
{
    proof {
        reveal_strlit("--");
        reveal_strlit("\r\n");
        reveal_strlit("content-type: ");
        reveal_strlit("content-range: ");
        reveal_strlit("\r\n\r\n");
        assert(vstd::string::is_ascii("--"));
        assert(vstd::string::is_ascii("\r\n"));
        assert(vstd::string::is_ascii("content-type: "));
        assert(vstd::string::is_ascii("content-range: "));
        assert(vstd::string::is_ascii("\r\n\r\n"));
    }
    let mut v = lit("--");
    append_bytes(&mut v, boundary);
    let crlf = lit("\r\n");
    append_bytes(&mut v, &crlf);
    let ctn = lit("content-type: ");
    append_bytes(&mut v, &ctn);
    append_bytes(&mut v, mime);
    append_bytes(&mut v, &crlf);
    let crn = lit("content-range: ");
    append_bytes(&mut v, &crn);
    let crv = content_range_value(r, length);
    append_bytes(&mut v, &crv);
    let blank = lit("\r\n\r\n");
    append_bytes(&mut v, &blank);
    assert(v@ =~= part_head_of(boundary@, mime@, *r, length));
    v
}

/// The segments of a multipart body for the given ranges, in order: each
/// part is its head, the file slice, and a closing line break.
pub open spec fn parts_of(rs: Seq<HttpRange>, boundary: Seq<u8>, mime: Seq<u8>, length: u64) -> Seq<
    SegModel,
>
    decreases rs.len(),
{
    if rs.len() == 0 {
        Seq::empty()
    } else {
        parts_of(rs.drop_last(), boundary, mime, length) + seq![
            SegModel::Text(part_head_of(boundary, mime, rs.last(), length)),
            SegModel::Slice(rs.last().start, rs.last().end),
            SegModel::Text(ascii_of("\r\n")),
        ]
    }
}

/// The whole multipart body: the parts in request order, then the closing
/// line.
pub open spec fn multipart_body_of(
    rs: Seq<HttpRange>,
    boundary: Seq<u8>,
    mime: Seq<u8>,
    length: u64,
) -> Seq<SegModel> {
    parts_of(rs, boundary, mime, length) + seq![SegModel::Text(end_marker_of(boundary))]
}

/// The status code of a decision.
pub open spec fn status_of(d: DecisionModel) -> u16 {
    match d {
        DecisionModel::PrecondFailed => 412,
        DecisionModel::NotModified => 304,
        DecisionModel::BadRange => 416,
        DecisionModel::Full => 200,
        DecisionModel::Single(_) => 206,
        DecisionModel::Multipart(_) => 206,
    }
}

/// The headers of a decision.
pub open spec fn headers_of(
    meta: FileMeta,
    path: Seq<u8>,
    d: DecisionModel,
    boundary: Seq<u8>,
) -> Seq<(HeaderName, Seq<u8>)> {
    match d {
        DecisionModel::PrecondFailed => seq![(HeaderName::ContentType, html_utf8_of())],
        DecisionModel::NotModified => seq![(HeaderName::ContentType, html_utf8_of())],
        DecisionModel::BadRange => base_headers_of(meta, html_utf8_of()) + seq![
            (HeaderName::ContentRange, unsat_range_of(meta.size)),
        ],
        DecisionModel::Full => base_headers_of(meta, mime_of(path)) + seq![
            (HeaderName::ContentLength, dec_of(meta.size as nat)),
        ],
        DecisionModel::Single(r) => base_headers_of(meta, mime_of(path)) + seq![
            (HeaderName::ContentLength, dec_of((r.end - r.start) as nat)),
            (HeaderName::ContentRange, content_range_of(r, meta.size)),
        ],
        DecisionModel::Multipart(_) => base_headers_of(meta, multipart_ct_of(boundary)),
    }
}

/// The body plan of a decision; a HEAD request always gets an empty body.
pub open spec fn body_of(
    meta: FileMeta,
    path: Seq<u8>,
    d: DecisionModel,
    head: bool,
    boundary: Seq<u8>,
) -> Seq<SegModel> {
    if head {
        Seq::empty()
    } else {
        match d {
            DecisionModel::PrecondFailed => seq![SegModel::Text(ascii_of("Precondition failed"))],
            DecisionModel::NotModified => Seq::empty(),
            DecisionModel::BadRange => seq![SegModel::Text(ascii_of("Bad Range"))],
            DecisionModel::Full => seq![SegModel::Slice(0, meta.size)],
            DecisionModel::Single(r) => seq![SegModel::Slice(r.start, r.end)],
            DecisionModel::Multipart(rs) => multipart_body_of(rs, boundary, mime_of(path), meta.size),
        }
    }
}

/// The declared total body length of a decision.
pub open spec fn total_of(meta: FileMeta, d: DecisionModel, head: bool) -> Option<u64> {
    if head {
        Some(0)
    } else {
        match d {
            DecisionModel::PrecondFailed => Some(ascii_of("Precondition failed").len() as u64),
            DecisionModel::NotModified => Some(0),
            DecisionModel::BadRange => Some(ascii_of("Bad Range").len() as u64),
            DecisionModel::Full => Some(meta.size),
            DecisionModel::Single(r) => Some((r.end - r.start) as u64),
            DecisionModel::Multipart(_) => None,
        }
    }
}

/// The whole response for a decision.
pub open spec fn respond_of(
    meta: FileMeta,
    path: Seq<u8>,
    d: DecisionModel,
    head: bool,
    boundary: Seq<u8>,
) -> RespModel {
    RespModel {
        status: status_of(d),
        headers: headers_of(meta, path, d, boundary),
        body: body_of(meta, path, d, head, boundary),
        total: total_of(meta, d, head),
    }
}


/// The ranges named by a decision stay inside the file and are non-empty.
pub open spec fn decision_wf(d: DecisionModel, length: u64) -> bool {
    match d {
        DecisionModel::Single(r) => r.start < r.end <= length,
        DecisionModel::Multipart(rs) => rs.len() >= 2 && (forall|i: int|
            0 <= i < rs.len() ==> (#[trigger] rs[i]).start < rs[i].end <= length),
        _ => true,
    }
}

/// Every decision the evaluation yields is well formed for the file it was
/// made against.
pub proof fn lemma_decision_wf(meta: FileMeta, h: crate::entity::HeadersModel)
    ensures
        decision_wf(decision_of(meta, h), meta.size),
{
    let etag = etag_of(meta);
    if !crate::entity::precond_fails(h, etag) && !crate::entity::inm_hits(h, etag)
        && !crate::entity::ims_hits(h, meta) {
        match h.range {
            Some(v) => {
                if !crate::entity::range_demoted(h, meta, etag) {
                    match crate::range::range_header_of(v) {
                        Some(specs) => {
                            crate::range::lemma_norm_wf(specs, meta.size);
                        },
                        None => (),
                    }
                }
            },
            None => (),
        }
    }
}

impl Entity {
    /// Build the whole response for a decision, with the given multipart
    /// boundary.
    pub fn respond_with(&self, d: &Decision, head: bool, boundary: &Vec<u8>) -> (r: ResponseHead)
        requires
            self.wf(),
            decision_wf(d.model(), self.meta.size),
        ensures
            r.model() == respond_of(self.meta, self.path@, d.model(), head, boundary@),
    {
        let ghost dm = d.model();
        match d {
            Decision::PrecondFailed => {
                proof {
                    reveal_strlit("Precondition failed");
                    assert(vstd::string::is_ascii("Precondition failed"));
                }
                let mut hs: Vec<(HeaderName, Vec<u8>)> = Vec::new();
                proof {
                    assert(hdrs_model(hs@) =~= Seq::<(HeaderName, Seq<u8>)>::empty());
                }
                push_header(&mut hs, HeaderName::ContentType, html_utf8());
                let mut body: Vec<Segment> = Vec::new();
                proof {
                    assert(segs_model(body@) =~= Seq::<SegModel>::empty());
                }
                let mut total: Option<u64> = Some(0);
                if !head {
                    let txt = lit("Precondition failed");
                    total = Some(txt.len() as u64);
                    push_segment(&mut body, Segment::Text(txt));
                }
                let r = ResponseHead { status: 412, headers: hs, body, total };
                proof {
                    assert(r.model().headers =~= headers_of(self.meta, self.path@, dm, boundary@));
                    assert(r.model().body =~= body_of(self.meta, self.path@, dm, head, boundary@));
                }
                r
            },
            Decision::NotModified => {
                let mut hs: Vec<(HeaderName, Vec<u8>)> = Vec::new();
                proof {
                    assert(hdrs_model(hs@) =~= Seq::<(HeaderName, Seq<u8>)>::empty());
                }
                push_header(&mut hs, HeaderName::ContentType, html_utf8());
                let body: Vec<Segment> = Vec::new();
                let r = ResponseHead { status: 304, headers: hs, body, total: Some(0) };
                proof {
                    assert(r.model().headers =~= headers_of(self.meta, self.path@, dm, boundary@));
                    assert(r.model().body =~= body_of(self.meta, self.path@, dm, head, boundary@));
                }
                r
            },
            Decision::BadRange => {
                proof {
                    reveal_strlit("Bad Range");
                    assert(vstd::string::is_ascii("Bad Range"));
                }
                let mut hs = self.base_headers(html_utf8());
                push_header(&mut hs, HeaderName::ContentRange, unsat_range_value(self.length));
                let mut body: Vec<Segment> = Vec::new();
                proof {
                    assert(segs_model(body@) =~= Seq::<SegModel>::empty());
                }
                let mut total: Option<u64> = Some(0);
                if !head {
                    let txt = lit("Bad Range");
                    total = Some(txt.len() as u64);
                    push_segment(&mut body, Segment::Text(txt));
                }
                let r = ResponseHead { status: 416, headers: hs, body, total };
                proof {
                    assert(r.model().headers =~= headers_of(self.meta, self.path@, dm, boundary@));
                    assert(r.model().body =~= body_of(self.meta, self.path@, dm, head, boundary@));
                }
                r
            },
            Decision::Full => {
                let mut hs = self.headers();
                push_header(&mut hs, HeaderName::ContentLength, u64_to_dec(self.length));
                let mut body: Vec<Segment> = Vec::new();
                proof {
                    assert(segs_model(body@) =~= Seq::<SegModel>::empty());
                }
                let total: Option<u64> = if head {
                    Some(0)
                } else {
                    push_segment(&mut body, Segment::Slice(0, self.length));
                    Some(self.length)
                };
                let r = ResponseHead { status: 200, headers: hs, body, total };
                proof {
                    assert(r.model().headers =~= headers_of(self.meta, self.path@, dm, boundary@));
                    assert(r.model().body =~= body_of(self.meta, self.path@, dm, head, boundary@));
                }
                r
            },
            Decision::Single(rg) => {
                let mut hs = self.headers();
                push_header(&mut hs, HeaderName::ContentLength, u64_to_dec(rg.end - rg.start));
                push_header(&mut hs, HeaderName::ContentRange, content_range_value(rg, self.length));
                let mut body: Vec<Segment> = Vec::new();
                proof {
                    assert(segs_model(body@) =~= Seq::<SegModel>::empty());
                }
                let total: Option<u64> = if head {
                    Some(0)
                } else {
                    push_segment(&mut body, Segment::Slice(rg.start, rg.end));
                    Some(rg.end - rg.start)
                };
                let r = ResponseHead { status: 206, headers: hs, body, total };
                proof {
                    assert(r.model().headers =~= headers_of(self.meta, self.path@, dm, boundary@));
                    assert(r.model().body =~= body_of(self.meta, self.path@, dm, head, boundary@));
                }
                r
            },
            Decision::Multipart(rs) => {
                proof {
                    reveal_strlit("\r\n");
                    assert(vstd::string::is_ascii("\r\n"));
                    reveal_strlit("--");
                    assert(vstd::string::is_ascii("--"));
                }
                let hs = self.multipart_headers(boundary);
                let mime = guess_mime(&self.path);
                let mut body: Vec<Segment> = Vec::new();
                if !head {
                    let mut i: usize = 0;
                    proof {
                        assert(segs_model(body@) =~= Seq::<SegModel>::empty());
                        assert(rs@.take(0) =~= Seq::<HttpRange>::empty());
                    }
                    while i < rs.len()
                        invariant
                            i <= rs@.len(),
                            self.wf(),
                            dm == DecisionModel::Multipart(rs@),
                            decision_wf(dm, self.meta.size),
                            mime@ == mime_of(self.path@),
                            segs_model(body@) == parts_of(
                                rs@.take(i as int),
                                boundary@,
                                mime@,
                                self.meta.size,
                            ),
                        decreases rs@.len() - i,
                    {
                        proof {
                            assert(rs@.take(i as int + 1).drop_last() =~= rs@.take(i as int));
                            assert(rs@.take(i as int + 1).last() == rs@[i as int]);
                            assert(rs@[i as int].start < rs@[i as int].end);
                        }
                        let rg = rs[i];
                        let ph = part_head(boundary, &mime, &rg, self.length);
                        push_segment(&mut body, Segment::Text(ph));
                        push_segment(&mut body, Segment::Slice(rg.start, rg.end));
                        proof {
                            reveal_strlit("\r\n");
                            assert(vstd::string::is_ascii("\r\n"));
                        }
                        push_segment(&mut body, Segment::Text(lit("\r\n")));
                        assert(segs_model(body@) =~= parts_of(
                            rs@.take(i as int + 1),
                            boundary@,
                            mime@,
                            self.meta.size,
                        ));
                        i += 1;
                    }
                    proof {
                        assert(rs@.take(rs@.len() as int) =~= rs@);
                    }
                    let mut em = lit("--");
                    append_bytes(&mut em, boundary);
                    let dashes = lit("--");
                    append_bytes(&mut em, &dashes);
                    assert(em@ =~= end_marker_of(boundary@));
                    push_segment(&mut body, Segment::Text(em));
                }
                let total: Option<u64> = if head {
                    Some(0)
                } else {
                    None
                };
                let r = ResponseHead { status: 206, headers: hs, body, total };
                proof {
                    assert(r.model().headers =~= headers_of(self.meta, self.path@, dm, boundary@));
                    assert(r.model().body =~= body_of(self.meta, self.path@, dm, head, boundary@));
                }
                r
            },
        }
    }

    /// Evaluate the request and build its response, drawing a fresh random
    /// boundary for a multipart body.
    pub fn respond(&self, h: &ReqHeaders, head: bool) -> (r: ResponseHead)
        requires
            self.wf(),
        ensures
            exists|b: Seq<u8>|
                #[trigger] boundary_ok(b) && r.model() == respond_of(
                    self.meta,
                    self.path@,
                    decision_of(self.meta, h.model()),
                    head,
                    b,
                ),
    {
        let d = self.result(h);
        proof {
            lemma_decision_wf(self.meta, h.model());
        }
        let b = random_boundary();
        let r = self.respond_with(&d, head, &b);
        proof {
            assert(boundary_ok(b@) && r.model() == respond_of(
                self.meta,
                self.path@,
                decision_of(self.meta, h.model()),
                head,
                b@,
            ));
        }
        r
    }
}


/// The number of file bytes a body plan asks for: the total width of its
/// slice segments.
pub open spec fn slice_total(segs: Seq<SegModel>) -> int
    decreases segs.len(),
{
    if segs.len() == 0 {
        0
    } else {
        slice_total(segs.drop_last()) + (match segs.last() {
            SegModel::Slice(a, b) => b - a,
            SegModel::Text(_) => 0,
        })
    }
}

proof fn lemma_slice_total_concat(a: Seq<SegModel>, b: Seq<SegModel>)
    ensures
        slice_total(a + b) == slice_total(a) + slice_total(b),
    decreases b.len(),
{
    if b.len() == 0 {
        assert(a + b =~= a);
    } else {
        lemma_slice_total_concat(a, b.drop_last());
        assert((a + b).drop_last() =~= a + b.drop_last());
        assert((a + b).last() == b.last());
    }
}

proof fn lemma_parts_total(rs: Seq<HttpRange>, boundary: Seq<u8>, mime: Seq<u8>, length: u64)
    ensures
        slice_total(parts_of(rs, boundary, mime, length)) == ranges_total(rs),
    decreases rs.len(),
{
    reveal_with_fuel(slice_total, 5);
    if rs.len() > 0 {
        lemma_parts_total(rs.drop_last(), boundary, mime, length);
        let unit = seq![
            SegModel::Text(part_head_of(boundary, mime, rs.last(), length)),
            SegModel::Slice(rs.last().start, rs.last().end),
            SegModel::Text(ascii_of("\r\n")),
        ];
        lemma_slice_total_concat(parts_of(rs.drop_last(), boundary, mime, length), unit);
        assert(unit.drop_last().drop_last() =~= seq![
            SegModel::Text(part_head_of(boundary, mime, rs.last(), length)),
        ]);
        assert(slice_total(unit) == rs.last().end - rs.last().start);
    }
}

/// For every ranged response the body plan asks for exactly the bytes the
/// accepted ranges cover: a single range's plan covers `end - start` bytes,
/// and a multipart plan's part payloads sum to the sum of `end - start`
/// over the ranges, in request order.
pub proof fn lemma_payload_total(
    meta: FileMeta,
    path: Seq<u8>,
    d: DecisionModel,
    boundary: Seq<u8>,
)
    ensures
        d is Single ==> slice_total(body_of(meta, path, d, false, boundary)) == d->Single_0.end
            - d->Single_0.start,
        d is Multipart ==> slice_total(body_of(meta, path, d, false, boundary)) == ranges_total(
            d->Multipart_0,
        ),
{
    reveal_with_fuel(slice_total, 3);
    match d {
        DecisionModel::Single(r) => {
            let body = body_of(meta, path, d, false, boundary);
            assert(body.drop_last() =~= Seq::<SegModel>::empty());
        },
        DecisionModel::Multipart(rs) => {
            let m = mime_of(path);
            lemma_parts_total(rs, boundary, m, meta.size);
            lemma_slice_total_concat(
                parts_of(rs, boundary, m, meta.size),
                seq![SegModel::Text(end_marker_of(boundary))],
            );
        },
        _ => (),
    }
}

/// What a body plan sends, given the file bytes as they stood at stat
/// time.
pub open spec fn seg_bytes(s: SegModel, file: Seq<u8>) -> Seq<u8> {
    match s {
        SegModel::Text(t) => t,
        SegModel::Slice(a, b) => if a <= b <= file.len() {
            file.subrange(a as int, b as int)
        } else {
            Seq::empty()
        },
    }
}

/// The byte stream a body plan produces from the file's bytes.
pub open spec fn body_bytes(segs: Seq<SegModel>, file: Seq<u8>) -> Seq<u8>
    decreases segs.len(),
{
    if segs.len() == 0 {
        Seq::empty()
    } else {
        body_bytes(segs.drop_last(), file) + seg_bytes(segs.last(), file)
    }
}

/// A successful plain GET sends exactly the file's bytes, and a single
/// range sends exactly that slice of them.
pub proof fn lemma_body_is_file_slice(
    meta: FileMeta,
    path: Seq<u8>,
    d: DecisionModel,
    boundary: Seq<u8>,
    file: Seq<u8>,
)
    requires
        file.len() == meta.size,
        decision_wf(d, meta.size),
    ensures
        d is Full ==> body_bytes(body_of(meta, path, d, false, boundary), file) == file,
        d is Single ==> body_bytes(body_of(meta, path, d, false, boundary), file)
            == file.subrange(d->Single_0.start as int, d->Single_0.end as int),
{
    reveal_with_fuel(body_bytes, 3);
    match d {
        DecisionModel::Full => {
            let body = body_of(meta, path, d, false, boundary);
            assert(body.drop_last() =~= Seq::<SegModel>::empty());
            assert(body_bytes(body, file) =~= file.subrange(0, meta.size as int));
            assert(file.subrange(0, meta.size as int) =~= file);
        },
        DecisionModel::Single(r) => {
            let body = body_of(meta, path, d, false, boundary);
            assert(body.drop_last() =~= Seq::<SegModel>::empty());
            assert(body_bytes(body, file) =~= file.subrange(r.start as int, r.end as int));
        },
        _ => (),
    }
}

/// The ranges a body plan reads from the file, in the order it reads them.
pub open spec fn slices_of(segs: Seq<SegModel>) -> Seq<HttpRange>
    decreases segs.len(),
{
    if segs.len() == 0 {
        Seq::empty()
    } else {
        slices_of(segs.drop_last()) + (match segs.last() {
            SegModel::Slice(a, b) => seq![HttpRange { start: a, end: b }],
            SegModel::Text(_) => Seq::empty(),
        })
    }
}

proof fn lemma_slices_concat(a: Seq<SegModel>, b: Seq<SegModel>)
    ensures
        slices_of(a + b) == slices_of(a) + slices_of(b),
    decreases b.len(),
{
    if b.len() == 0 {
        assert(a + b =~= a);
        assert(slices_of(a) + slices_of(b) =~= slices_of(a));
    } else {
        lemma_slices_concat(a, b.drop_last());
        assert((a + b).drop_last() =~= a + b.drop_last());
        assert((a + b).last() == b.last());
        assert(slices_of(a + b) =~= slices_of(a) + slices_of(b));
    }
}

/// A multipart body reads exactly the accepted ranges, in the order the
/// client asked for them.
pub proof fn lemma_multipart_order(
    meta: FileMeta,
    path: Seq<u8>,
    rs: Seq<HttpRange>,
    boundary: Seq<u8>,
)
    ensures
        slices_of(
            body_of(meta, path, DecisionModel::Multipart(rs), false, boundary),
        ) == rs,
{
    reveal_with_fuel(slices_of, 3);
    let m = mime_of(path);
    lemma_multipart_slices(rs, boundary, m, meta.size);
    lemma_slices_concat(
        parts_of(rs, boundary, m, meta.size),
        seq![SegModel::Text(end_marker_of(boundary))],
    );
    assert(slices_of(seq![SegModel::Text(end_marker_of(boundary))]) =~= Seq::<HttpRange>::empty());
    assert(slices_of(body_of(meta, path, DecisionModel::Multipart(rs), false, boundary)) =~= rs);
}

proof fn lemma_multipart_slices(rs: Seq<HttpRange>, boundary: Seq<u8>, mime: Seq<u8>, length: u64)
    ensures
        slices_of(parts_of(rs, boundary, mime, length)) == rs,
    decreases rs.len(),
{
    reveal_with_fuel(slices_of, 5);
    if rs.len() == 0 {
    } else {
        lemma_multipart_slices(rs.drop_last(), boundary, mime, length);
        let unit = seq![
            SegModel::Text(part_head_of(boundary, mime, rs.last(), length)),
            SegModel::Slice(rs.last().start, rs.last().end),
            SegModel::Text(ascii_of("\r\n")),
        ];
        lemma_slices_concat(parts_of(rs.drop_last(), boundary, mime, length), unit);
        assert(unit.drop_last().drop_last() =~= seq![
            SegModel::Text(part_head_of(boundary, mime, rs.last(), length)),
        ]);
        assert(slices_of(unit) =~= seq![rs.last()]);
        assert(slices_of(parts_of(rs, boundary, mime, length)) =~= rs);
    }
}

/// GET and HEAD on the same resource carry the same status and the same
/// headers; the HEAD response has an empty body.
pub proof fn lemma_head_matches_get(
    meta: FileMeta,
    path: Seq<u8>,
    d: DecisionModel,
    boundary: Seq<u8>,
)
    ensures
        respond_of(meta, path, d, true, boundary).status == respond_of(
            meta,
            path,
            d,
            false,
            boundary,
        ).status,
        respond_of(meta, path, d, true, boundary).headers == respond_of(
            meta,
            path,
            d,
            false,
            boundary,
        ).headers,
        respond_of(meta, path, d, true, boundary).body == Seq::<SegModel>::empty(),
{
}

} // verus!
