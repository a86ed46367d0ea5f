use webdir::ascii::{html_escape, u64_to_bytes, u64_to_dec, bytes_eq};
use webdir::path::path_canonicalize;
use webdir::pct::{decode_path, encode_path};
use webdir::range::{process_range, HttpRange, RangeSpec};
use webdir::rangeparse::{parse_range_header, parse_token};

fn b(s: &str) -> Vec<u8> {
    s.as_bytes().to_vec()
}

#[test]
fn test_path_canonicalize() {
    let root = b("/home/");

    let (depth, p) = path_canonicalize(&root, &b("../../../aaa.txt"));
    assert_eq!((depth, p), (1, b("/home/aaa.txt")));

    let (depth, p) = path_canonicalize(&root, &b("/aa/../../../aaa.txt"));
    assert_eq!((depth, p), (1, b("/home/aaa.txt")));

    let (depth, p) = path_canonicalize(&root, &b("/aa/../../../"));
    assert_eq!((depth, p), (0, b("/home/")));

    let (depth, p) = path_canonicalize(&root, &b("aaa/bbb/ccc/../../ddd/"));
    assert_eq!((depth, p), (2, b("/home/aaa/ddd/".trim_end_matches('/'))));

    let (depth, p) = path_canonicalize(&root, &b("aaa/bbb/ccc/../../ddd/aaa.txt"));
    assert_eq!((depth, p), (3, b("/home/aaa/ddd/aaa.txt")));
}

#[test]
fn test_u64_to_bytes() {
    assert_eq!(u64_to_bytes(0), vec![0; 8]);
    assert_eq!(u64_to_bytes(u64::MAX), vec![255; 8]);
}

#[test]
fn test_encode_path() {
    assert_eq!(encode_path(&b("aaa")), b("./aaa"));
    assert_eq!(encode_path(&"中文".as_bytes().to_vec()), b("./%E4%B8%AD%E6%96%87"));
}

#[test]
fn test_decode_path() {
    assert_eq!(decode_path(&b("aaa")), b("aaa"));
    assert_eq!(decode_path(&b("%E4%B8%AD%E6%96%87")), "中文".as_bytes().to_vec());
}

#[test]
fn decode_leaves_bad_escapes_alone() {
    assert_eq!(decode_path(&b("%41")), b("A"));
    assert_eq!(decode_path(&b("%zz")), b("%zz"));
    assert_eq!(decode_path(&b("%4")), b("%4"));
    assert_eq!(decode_path(&b("a%2Fb")), b("a/b"));
}

#[test]
fn decode_handles_nul_and_invalid_utf8() {
    // a path with %00 or invalid UTF-8 resolves without panic
    let raw = decode_path(&b("%00%FF"));
    assert_eq!(raw, vec![0u8, 0xff]);
    let root = b("/srv");
    let (depth, p) = path_canonicalize(&root, &raw);
    assert_eq!(depth, 1);
    let mut want = b("/srv/");
    want.push(0);
    want.push(0xff);
    assert_eq!(p, want);
}

#[test]
fn traversal_stays_under_root() {
    // GET /%2E%2E/%2E%2E/etc/passwd resolves to <root>/etc/passwd
    let raw = decode_path(&b("/%2E%2E/%2E%2E/etc/passwd"));
    assert_eq!(raw, b("/../../etc/passwd"));
    let root = b("/srv");
    let (depth, p) = path_canonicalize(&root, &raw);
    assert_eq!(p, b("/srv/etc/passwd"));
    assert_eq!(depth, 2);
    assert!(p.starts_with(&root));
}

#[test]
fn canonicalize_keeps_root_prefix() {
    let root = b("/srv");
    for path in ["..", "../..", "a/../../b", "/..//../x", ".", "//", "a/b/c/../../../../.."] {
        let (_, p) = path_canonicalize(&root, &b(path));
        assert!(p.starts_with(&root));
    }
}

#[test]
fn parse_range_header_forms() {
    assert_eq!(
        parse_range_header(&b("bytes=0-0")),
        Some(vec![RangeSpec::FromTo(0, 0)])
    );
    assert_eq!(parse_range_header(&b("bytes=5-")), Some(vec![RangeSpec::AllFrom(5)]));
    assert_eq!(parse_range_header(&b("bytes=-3")), Some(vec![RangeSpec::Last(3)]));
    assert_eq!(
        parse_range_header(&b("bytes=0-9, 20-29,90-99")),
        Some(vec![
            RangeSpec::FromTo(0, 9),
            RangeSpec::FromTo(20, 29),
            RangeSpec::FromTo(90, 99),
        ])
    );
    // malformed tokens fall away; the rest stay
    assert_eq!(
        parse_range_header(&b("bytes=abc,2-4,5-2-1")),
        Some(vec![RangeSpec::FromTo(2, 4)])
    );
    // a huge number is malformed
    assert_eq!(parse_range_header(&b("bytes=99999999999999999999999-")), Some(vec![]));
    // other units are ignored entirely
    assert_eq!(parse_range_header(&b("lines=1-2")), None);
    assert_eq!(parse_range_header(&b("bytes")), None);
}

#[test]
fn parse_token_trims() {
    assert_eq!(parse_token(&b(" 1-2 ")), Some(RangeSpec::FromTo(1, 2)));
    assert_eq!(parse_token(&b("-")), None);
    assert_eq!(parse_token(&b("")), None);
    assert_eq!(parse_token(&b("18446744073709551615-")), Some(RangeSpec::AllFrom(u64::MAX)));
}

#[test]
fn process_range_clamps() {
    let len = 3u64;
    // x-y is clamped to the file end
    let rs = process_range(&vec![RangeSpec::FromTo(1, 100)], len);
    assert_eq!(rs, vec![HttpRange { start: 1, end: 3 }]);
    // bytes=0-0 on a 1-byte file is one byte
    let rs = process_range(&vec![RangeSpec::FromTo(0, 0)], 1);
    assert_eq!(rs, vec![HttpRange { start: 0, end: 1 }]);
    // -N with N > length is discarded
    let rs = process_range(&vec![RangeSpec::Last(5)], len);
    assert_eq!(rs, vec![]);
    // -N with 0 < N < length is the suffix
    let rs = process_range(&vec![RangeSpec::Last(2)], len);
    assert_eq!(rs, vec![HttpRange { start: 1, end: 3 }]);
    // x- past the end is discarded
    let rs = process_range(&vec![RangeSpec::AllFrom(3)], len);
    assert_eq!(rs, vec![]);
    // order is kept
    let rs = process_range(
        &vec![RangeSpec::FromTo(2, 2), RangeSpec::FromTo(0, 0), RangeSpec::Last(5)],
        len,
    );
    assert_eq!(
        rs,
        vec![HttpRange { start: 2, end: 3 }, HttpRange { start: 0, end: 1 }]
    );
}

#[test]
fn escape_and_decimal() {
    assert_eq!(html_escape(&b("a<b&c\"d>e")), b("a&lt;b&amp;c&quot;d&gt;e"));
    assert_eq!(u64_to_dec(0), b("0"));
    assert_eq!(u64_to_dec(1234567890), b("1234567890"));
    assert_eq!(u64_to_dec(u64::MAX), b("18446744073709551615"));
    assert!(bytes_eq(&b("xy"), &b("xy")));
    assert!(!bytes_eq(&b("xy"), &b("xz")));
}
