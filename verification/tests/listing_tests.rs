use webdir::listing::{
    listing_response, render_row, sort_entries, up, Entry, EntryType,
};
use webdir::respond::{HeaderName, Segment};

fn b(s: &str) -> Vec<u8> {
    s.as_bytes().to_vec()
}

fn dir(name: &str) -> Entry {
    Entry::new(b(name), EntryType::Dir, true, Some(0), 0)
}

fn file(name: &str, size: u64) -> Entry {
    Entry::new(b(name), EntryType::File, false, Some(0), size)
}

fn names(v: &Vec<Entry>) -> Vec<String> {
    v.iter().map(|e| String::from_utf8(e.name.clone()).unwrap()).collect()
}

#[test]
fn listing_order_is_humane_and_grouped() {
    // directories before files; humane numeric order within each group
    let entries = vec![
        file("test20", 1),
        dir("test10"),
        file("test1", 1),
        dir("test"),
        dir("test3"),
    ];
    let sorted = sort_entries(&entries);
    assert_eq!(names(&sorted), vec!["test", "test3", "test10", "test1", "test20"]);
}

#[test]
fn listing_order_groups_all_types() {
    let entries = vec![
        Entry::new(b("zz"), EntryType::Other, false, None, 0),
        file("a", 1),
        dir("b"),
        Entry::new(b("link"), EntryType::Symlink, false, None, 0),
    ];
    let sorted = sort_entries(&entries);
    assert_eq!(names(&sorted), vec!["link", "b", "a", "zz"]);
}

#[test]
fn humane_order_details() {
    let entries = vec![
        file("foo10", 1),
        file("foo2", 1),
        file("a02", 1),
        file("a1", 1),
        file("b", 1),
        file("10", 1),
    ];
    let sorted = sort_entries(&entries);
    assert_eq!(names(&sorted), vec!["10", "a1", "a02", "b", "foo2", "foo10"]);
}

#[test]
fn row_contents() {
    let row = render_row(&file("hello.txt", 1024));
    let s = String::from_utf8(row).unwrap();
    assert!(s.starts_with("<tr><td class=\"icon\">📄</td>"));
    assert!(s.contains("<a href=\"./hello%2Etxt\">hello.txt</a>"));
    assert!(s.contains("<small>1970-01-01 00:00:00 UTC</small>"));
    assert!(s.contains("<td class=\"size\">1.0 KiB</td>"));
    assert!(s.ends_with("</td></tr>"));
}

#[test]
fn row_escapes_and_links_directories() {
    let row = render_row(&dir("a<b&c"));
    let s = String::from_utf8(row).unwrap();
    // the link is percent-encoded with a trailing slash; the text is escaped
    assert!(s.contains("<a href=\"./a%3Cb%26c/\">a&lt;b&amp;c</a>"));
    // directories show no size
    assert!(s.contains("<td class=\"size\">-</td>"));
    assert!(s.contains("📁"));
}

#[test]
fn row_survives_invalid_utf8_names() {
    let e = Entry::new(vec![0xff, 0xfe], EntryType::File, false, None, 1);
    let row = render_row(&e);
    // the shown name holds replacement characters, not the raw bytes
    let s = String::from_utf8(row).expect("rows are valid UTF-8");
    assert!(s.contains('\u{FFFD}'));
}

#[test]
fn up_row_links_parent_except_at_top() {
    let top = String::from_utf8(up(true)).unwrap();
    assert!(!top.contains("href"));
    let inner = String::from_utf8(up(false)).unwrap();
    assert!(inner.contains("<a href=\"..\">..</a>"));
}

#[test]
fn listing_response_shape() {
    let entries = vec![file("a.txt", 1), dir("sub")];
    let sorted = sort_entries(&entries);
    let r = listing_response(&sorted, false, false);
    assert_eq!(r.status, 200);
    assert_eq!(
        r.headers.iter().find(|h| h.0 == HeaderName::ContentType).map(|h| h.1.clone()),
        Some(b("text/html; charset=utf-8"))
    );
    assert_eq!(r.total, None);
    // prologue, parent row, one row per entry, epilogue
    assert_eq!(r.body.len(), 2 + sorted.len() + 1);
    let mut all = Vec::new();
    for seg in &r.body {
        match seg {
            Segment::Text(t) => all.extend_from_slice(t),
            _ => panic!("a listing is all text"),
        }
    }
    let s = String::from_utf8(all).unwrap();
    assert!(s.starts_with("<html><head><style>"));
    assert!(s.ends_with("</tbody></table></body></html>"));
    // directories come first
    let sub = s.find("sub").unwrap();
    let atxt = s.find("a.txt").unwrap();
    assert!(sub < atxt);
    // HEAD keeps the headers and drops the body
    let rh = listing_response(&sorted, false, true);
    assert_eq!(rh.status, 200);
    assert!(rh.body.is_empty());
    assert_eq!(rh.total, Some(0));
}
