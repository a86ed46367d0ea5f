use webdir::cond::{parse_tag_list, ClientTag, IfRangeCond, TagSet};
use webdir::entity::{Decision, Entity, ReqHeaders};
use webdir::etag::{etag, fs_hash, FileMeta};
use webdir::process::{error_response, method_allowed, method_not_allowed, ErrKind, LimitFile,
    plan_target, Target, err_html};
use webdir::range::HttpRange;
use webdir::respond::{HeaderName, ResponseHead, Segment};

fn b(s: &str) -> Vec<u8> {
    s.as_bytes().to_vec()
}

fn meta(size: u64) -> FileMeta {
    FileMeta { size, ino: 7, mtime: 1000, mtime_nsec: 5, modified: Some(1000) }
}

fn header(r: &ResponseHead, n: HeaderName) -> Option<Vec<u8>> {
    r.headers.iter().find(|h| h.0 == n).map(|h| h.1.clone())
}

fn plain() -> ReqHeaders {
    ReqHeaders {
        if_match: None,
        if_none_match: None,
        if_modified_since: None,
        if_range: None,
        range: None,
    }
}

#[test]
fn etag_shape_and_determinism() {
    let m = meta(3);
    let t1 = etag(&m);
    let t2 = etag(&m);
    assert_eq!(t1, t2);
    // quoted base64url of 8 bytes: 11 characters inside the quotes
    assert_eq!(t1.len(), 13);
    assert_eq!(t1[0], b'"');
    assert_eq!(t1[12], b'"');
    for &c in &t1[1..12] {
        assert!(c.is_ascii_alphanumeric() || c == b'-' || c == b'_');
    }
    // a change in any input changes the hash
    let mut m2 = m;
    m2.mtime = 1001;
    assert_ne!(etag(&m), etag(&m2));
    let mut m3 = m;
    m3.ino = 8;
    assert_ne!(etag(&m), etag(&m3));
    let mut m4 = m;
    m4.size = 4;
    assert_ne!(etag(&m), etag(&m4));
    assert_ne!(fs_hash(&m), fs_hash(&m2));
}

#[test]
fn full_body_response() {
    // a 3-byte file served plain: 200, Content-Length 3, Accept-Ranges
    let e = Entity::new(b("/srv/hello.txt"), meta(3));
    let d = e.result(&plain());
    assert!(matches!(d, Decision::Full));
    let r = e.respond_with(&d, false, &b("AAAABBBBCCCC"));
    assert_eq!(r.status, 200);
    assert_eq!(header(&r, HeaderName::ContentLength), Some(b("3")));
    assert_eq!(header(&r, HeaderName::AcceptRanges), Some(b("bytes")));
    assert_eq!(header(&r, HeaderName::ContentType), Some(b("text/plain")));
    assert_eq!(header(&r, HeaderName::ETag), Some(etag(&meta(3))));
    assert_eq!(
        header(&r, HeaderName::LastModified),
        Some(b("Thu, 01 Jan 1970 00:16:40 GMT"))
    );
    assert_eq!(r.total, Some(3));
    assert_eq!(r.body.len(), 1);
    assert!(matches!(r.body[0], Segment::Slice(0, 3)));
}

#[test]
fn single_range_response() {
    // Range: bytes=1-1 on a 3-byte file: 206, Content-Range: bytes 1-1/3
    let e = Entity::new(b("/srv/hello.txt"), meta(3));
    let mut h = plain();
    h.range = Some(b("bytes=1-1"));
    let d = e.result(&h);
    match &d {
        Decision::Single(r) => assert_eq!(*r, HttpRange { start: 1, end: 2 }),
        _ => panic!("expected a single range"),
    }
    let r = e.respond_with(&d, false, &b("AAAABBBBCCCC"));
    assert_eq!(r.status, 206);
    assert_eq!(header(&r, HeaderName::ContentLength), Some(b("1")));
    assert_eq!(header(&r, HeaderName::ContentRange), Some(b("bytes 1-1/3")));
    assert_eq!(r.total, Some(1));
    assert!(matches!(r.body[0], Segment::Slice(1, 2)));
}

#[test]
fn multipart_response() {
    // three ranges on a 100-byte file, served in request order
    let e = Entity::new(b("/srv/file.txt"), meta(100));
    let mut h = plain();
    h.range = Some(b("bytes=0-9,20-29,90-99"));
    let d = e.result(&h);
    let boundary = b("XXXXXXXXXXXX");
    let r = e.respond_with(&d, false, &boundary);
    assert_eq!(r.status, 206);
    assert_eq!(
        header(&r, HeaderName::ContentType),
        Some(b("multipart/byteranges; boundary=XXXXXXXXXXXX"))
    );
    assert_eq!(r.total, None);
    // three parts of (head, slice, crlf), then the end marker
    assert_eq!(r.body.len(), 10);
    let slices: Vec<(u64, u64)> = r
        .body
        .iter()
        .filter_map(|s| match s {
            Segment::Slice(a, b2) => Some((*a, *b2)),
            _ => None,
        })
        .collect();
    assert_eq!(slices, vec![(0, 10), (20, 30), (90, 100)]);
    match &r.body[0] {
        Segment::Text(t) => {
            let head = String::from_utf8(t.clone()).unwrap();
            assert_eq!(
                head,
                "--XXXXXXXXXXXX\r\ncontent-type: text/plain\r\ncontent-range: bytes 0-9/100\r\n\r\n"
            );
        },
        _ => panic!("expected a part head"),
    }
    match &r.body[9] {
        Segment::Text(t) => assert_eq!(t, &b("--XXXXXXXXXXXX--")),
        _ => panic!("expected the end marker"),
    }
    // the sum of the slice widths is the sum over the accepted ranges
    let total: u64 = slices.iter().map(|(a, b2)| b2 - a).sum();
    assert_eq!(total, 30);
}

#[test]
fn fresh_boundary_is_alnum() {
    let e = Entity::new(b("/srv/file.txt"), meta(100));
    let mut h = plain();
    h.range = Some(b("bytes=0-9,20-29"));
    let r1 = e.respond(&h, false);
    let ct = header(&r1, HeaderName::ContentType).unwrap();
    let prefix = b"multipart/byteranges; boundary=";
    assert_eq!(&ct[..prefix.len()], &prefix[..]);
    let boundary = &ct[prefix.len()..];
    assert_eq!(boundary.len(), 12);
    assert!(boundary.iter().all(|c| c.is_ascii_alphanumeric()));
    // two draws differ (collisions are negligible)
    let r2 = e.respond(&h, false);
    assert_ne!(header(&r2, HeaderName::ContentType).unwrap(), ct);
}

#[test]
fn head_matches_get() {
    let e = Entity::new(b("/srv/hello.txt"), meta(3));
    let mut h = plain();
    h.range = Some(b("bytes=1-1"));
    let d = e.result(&h);
    let boundary = b("AAAABBBBCCCC");
    let get = e.respond_with(&d, false, &boundary);
    let head = e.respond_with(&e.result(&h), true, &boundary);
    assert_eq!(get.status, head.status);
    assert_eq!(get.headers.len(), head.headers.len());
    for (a, b2) in get.headers.iter().zip(head.headers.iter()) {
        assert_eq!(a.0, b2.0);
        assert_eq!(a.1, b2.1);
    }
    assert!(head.body.is_empty());
    assert_eq!(head.total, Some(0));
}

#[test]
fn bad_range_response() {
    // -N with N > length as the only spec: 416 with Content-Range: bytes */len
    let e = Entity::new(b("/srv/hello.txt"), meta(3));
    let mut h = plain();
    h.range = Some(b("bytes=-5"));
    let d = e.result(&h);
    assert!(matches!(d, Decision::BadRange));
    let r = e.respond_with(&d, false, &b("AAAABBBBCCCC"));
    assert_eq!(r.status, 416);
    assert_eq!(header(&r, HeaderName::ContentRange), Some(b("bytes */3")));
    match &r.body[0] {
        Segment::Text(t) => assert_eq!(t, &b("Bad Range")),
        _ => panic!("expected text"),
    }
}

#[test]
fn conditional_get_not_modified() {
    // If-None-Match with the entity's own tag: 304, empty body
    let e = Entity::new(b("/srv/hello.txt"), meta(3));
    let tag = etag(&meta(3));
    let mut h = plain();
    h.if_none_match = Some(TagSet::Tags(vec![ClientTag { weak: false, opaque: tag }]));
    let d = e.result(&h);
    assert!(matches!(d, Decision::NotModified));
    let r = e.respond_with(&d, false, &b("AAAABBBBCCCC"));
    assert_eq!(r.status, 304);
    assert!(r.body.is_empty());
    assert_eq!(r.total, Some(0));
}

#[test]
fn if_none_match_weak_tag_hits() {
    let e = Entity::new(b("/srv/hello.txt"), meta(3));
    let tag = etag(&meta(3));
    let mut h = plain();
    h.if_none_match = Some(TagSet::Tags(vec![ClientTag { weak: true, opaque: tag }]));
    assert!(matches!(e.result(&h), Decision::NotModified));
}

#[test]
fn if_match_failure_is_412() {
    let e = Entity::new(b("/srv/hello.txt"), meta(3));
    let mut h = plain();
    h.if_match = Some(TagSet::Tags(vec![ClientTag { weak: false, opaque: b("\"nope\"") }]));
    let d = e.result(&h);
    assert!(matches!(d, Decision::PrecondFailed));
    let r = e.respond_with(&d, false, &b("AAAABBBBCCCC"));
    assert_eq!(r.status, 412);
    match &r.body[0] {
        Segment::Text(t) => assert_eq!(t, &b("Precondition failed")),
        _ => panic!("expected text"),
    }
    // If-Match: * always passes
    let mut h2 = plain();
    h2.if_match = Some(TagSet::Any);
    assert!(matches!(e.result(&h2), Decision::Full));
    // a weak tag never matches strongly
    let mut h3 = plain();
    h3.if_match = Some(TagSet::Tags(vec![ClientTag { weak: true, opaque: etag(&meta(3)) }]));
    assert!(matches!(e.result(&h3), Decision::PrecondFailed));
}

#[test]
fn if_modified_since_at_mtime_is_304() {
    // equal at second precision: 304
    let e = Entity::new(b("/srv/hello.txt"), meta(3));
    let mut h = plain();
    h.if_modified_since = Some(1000);
    assert!(matches!(e.result(&h), Decision::NotModified));
    // strictly older date: serve the file
    let mut h2 = plain();
    h2.if_modified_since = Some(999);
    assert!(matches!(e.result(&h2), Decision::Full));
}

#[test]
fn if_range_demotes_to_full() {
    let e = Entity::new(b("/srv/hello.txt"), meta(3));
    // a non-matching tag ignores the Range header
    let mut h = plain();
    h.range = Some(b("bytes=1-1"));
    h.if_range = Some(IfRangeCond::Tag(ClientTag { weak: false, opaque: b("\"old\"") }));
    assert!(matches!(e.result(&h), Decision::Full));
    // the matching strong tag keeps it
    let mut h2 = plain();
    h2.range = Some(b("bytes=1-1"));
    h2.if_range = Some(IfRangeCond::Tag(ClientTag { weak: false, opaque: etag(&meta(3)) }));
    assert!(matches!(e.result(&h2), Decision::Single(_)));
    // a date older than the mtime demotes
    let mut h3 = plain();
    h3.range = Some(b("bytes=1-1"));
    h3.if_range = Some(IfRangeCond::Date(999));
    assert!(matches!(e.result(&h3), Decision::Full));
    // a date at the mtime keeps the range
    let mut h4 = plain();
    h4.range = Some(b("bytes=1-1"));
    h4.if_range = Some(IfRangeCond::Date(1000));
    assert!(matches!(e.result(&h4), Decision::Single(_)));
}

#[test]
fn range_order_does_not_matter_for_single_survivor() {
    // lists that differ only in the order of the satisfied specs
    let e = Entity::new(b("/srv/hello.txt"), meta(3));
    let mut h1 = plain();
    h1.range = Some(b("bytes=1-1,-9,9-"));
    let mut h2 = plain();
    h2.range = Some(b("bytes=-9,9-,1-1"));
    let d1 = e.result(&h1);
    let d2 = e.result(&h2);
    match (&d1, &d2) {
        (Decision::Single(a), Decision::Single(b2)) => assert_eq!(a, b2),
        _ => panic!("expected single ranges"),
    }
    let r1 = e.respond_with(&d1, false, &b("AAAABBBBCCCC"));
    let r2 = e.respond_with(&d2, false, &b("AAAABBBBCCCC"));
    assert_eq!(r1.status, r2.status);
    assert_eq!(r1.body.len(), r2.body.len());
}

#[test]
fn tag_list_parsing() {
    match parse_tag_list(&b("*")) {
        TagSet::Any => (),
        _ => panic!("expected *"),
    }
    match parse_tag_list(&b("\"a\", W/\"b\", junk")) {
        TagSet::Tags(l) => {
            assert_eq!(l.len(), 2);
            assert!(!l[0].weak);
            assert_eq!(l[0].opaque, b("\"a\""));
            assert!(l[1].weak);
            assert_eq!(l[1].opaque, b("\"b\""));
        },
        _ => panic!("expected tags"),
    }
}

#[test]
fn error_responses() {
    let r = error_response(ErrKind::NotFound, &b("no such file"), false);
    assert_eq!(r.status, 404);
    match &r.body[0] {
        Segment::Text(t) => {
            let s = String::from_utf8(t.clone()).unwrap();
            assert_eq!(s, "<h1><strong>( ・_・)</strong></h1><h2>no such file</h2>");
        },
        _ => panic!("expected text"),
    }
    assert_eq!(error_response(ErrKind::PermissionDenied, &b("x"), false).status, 403);
    assert_eq!(error_response(ErrKind::Other, &b("x"), false).status, 500);
    assert!(error_response(ErrKind::NotFound, &b("x"), true).body.is_empty());
    // messages are escaped
    let page = err_html(&b("<script>"));
    let s = String::from_utf8(page).unwrap();
    assert!(s.contains("&lt;script&gt;"));
}

#[test]
fn method_handling() {
    assert!(method_allowed(&b("GET")));
    assert!(method_allowed(&b("HEAD")));
    assert!(!method_allowed(&b("POST")));
    assert!(!method_allowed(&b("get")));
    let r = method_not_allowed(false);
    assert_eq!(r.status, 405);
    assert_eq!(
        r.headers.iter().find(|h| h.0 == HeaderName::Allow).map(|h| h.1.clone()),
        Some(b("GET, HEAD"))
    );
}

#[test]
fn target_planning() {
    assert_eq!(plan_target(true, false, false), Target::ServeFile);
    assert_eq!(plan_target(true, true, true), Target::ServeIndex);
    assert_eq!(plan_target(true, true, false), Target::ListDir);
    assert_eq!(plan_target(false, true, true), Target::ListDir);
}

#[test]
fn limit_file_clips_chunks() {
    let mut lf = LimitFile::new(10);
    assert_eq!(lf.clip(4), 4);
    assert_eq!(lf.clip(4), 4);
    assert_eq!(lf.clip(4), 2);
    assert_eq!(lf.clip(4), 0);
}

#[test]
fn unknown_extension_is_octet_stream() {
    let e = Entity::new(b("/srv/blob.qqqzz"), meta(3));
    let d = e.result(&plain());
    let r = e.respond_with(&d, false, &b("AAAABBBBCCCC"));
    assert_eq!(header(&r, HeaderName::ContentType), Some(b("application/octet-stream")));
}
