//! Directory listings: entry classification, the listing order (symlinks,
//! then directories, then files, then the rest; humane order within each
//! group), and the HTML rows.
use vstd::prelude::*;
use crate::humane::{hum_le, humane_le, lemma_hum_le_total, lemma_hum_le_trans};
use crate::path::clone_bytes;

verus! {

/// What a directory entry is, after resolving symlinks for its metadata:
/// the entry itself was a symlink, a directory, a regular file, or
/// something else.
#[derive(Clone, Copy, Debug, PartialEq, Eq, Structural)]
pub enum EntryType {
    Symlink,
    Dir,
    File,
    Other,
}

/// One directory entry, as plain values: its raw name, its classification,
/// whether its (resolved) metadata is a directory, its mtime in whole
/// seconds, and its size in bytes.
pub struct Entry {
    pub name: Vec<u8>,
    pub ty: EntryType,
    pub is_dir: bool,
    pub modified: Option<u64>,
    pub size: u64,
}

/// The spec-level form of an entry.
pub struct EntryModel {
    pub name: Seq<u8>,
    pub ty: EntryType,
    pub is_dir: bool,
    pub modified: Option<u64>,
    pub size: u64,
}

impl Entry {
    pub open spec fn model(&self) -> EntryModel {
        EntryModel {
            name: self.name@,
            ty: self.ty,
            is_dir: self.is_dir,
            modified: self.modified,
            size: self.size,
        }
    }

    /// Build an entry from one stat of one directory item.
    pub fn new(name: Vec<u8>, ty: EntryType, is_dir: bool, modified: Option<u64>, size: u64) -> (e:
        Entry)
        ensures
            e.model() == (EntryModel { name: name@, ty, is_dir, modified, size }),
    {
        Entry { name, ty, is_dir, modified, size }
    }
}

/// The models of an entry vector.
pub open spec fn entries_model(v: Seq<Entry>) -> Seq<EntryModel> {
    Seq::new(v.len(), |i: int| v[i].model())
}

/// The listing rank of an entry type: symlinks first, then directories,
/// then files, then everything else.
pub open spec fn ty_rank(t: EntryType) -> int {
    match t {
        EntryType::Symlink => 0,
        EntryType::Dir => 1,
        EntryType::File => 2,
        EntryType::Other => 3,
    }
}

/// `a` sorts at or before `b`: by type rank, then by humane order of the
/// names.
pub open spec fn entry_le(a: EntryModel, b: EntryModel) -> bool {
    ty_rank(a.ty) < ty_rank(b.ty) || (ty_rank(a.ty) == ty_rank(b.ty) && hum_le(a.name, b.name))
}

/// The listing order is total.
pub proof fn lemma_entry_le_total(a: EntryModel, b: EntryModel)
    ensures
        entry_le(a, b) || entry_le(b, a),
{
    lemma_hum_le_total(a.name, b.name);
}

/// The listing order is transitive.
pub proof fn lemma_entry_le_trans(a: EntryModel, b: EntryModel, c: EntryModel)
    requires
        entry_le(a, b),
        entry_le(b, c),
    ensures
        entry_le(a, c),
{
    if ty_rank(a.ty) == ty_rank(b.ty) && ty_rank(b.ty) == ty_rank(c.ty) {
        lemma_hum_le_trans(a.name, b.name, c.name);
    }
}

/// The exec rank of an entry type.
fn ty_rank_exec(t: &EntryType) -> (r: u8)
    ensures
        r as int == ty_rank(*t),
{
    match t {
        EntryType::Symlink => 0,
        EntryType::Dir => 1,
        EntryType::File => 2,
        EntryType::Other => 3,
    }
}

/// Compare two entries in listing order.
pub fn entry_le_exec(a: &Entry, b: &Entry) -> (r: bool)
    ensures
        r == entry_le(a.model(), b.model()),
{
    let ra = ty_rank_exec(&a.ty);
    let rb = ty_rank_exec(&b.ty);
    if ra < rb {
        true
    } else if ra > rb {
        false
    } else {
        humane_le(&a.name, &b.name)
    }
}

/// Copy one entry.
fn clone_entry(e: &Entry) -> (r: Entry)
    ensures
        r.model() == e.model(),
{
    Entry {
        name: clone_bytes(&e.name),
        ty: e.ty,
        is_dir: e.is_dir,
        modified: e.modified,
        size: e.size,
    }
}

/// Pairwise sorted in listing order.
pub open spec fn sorted_entries(s: Seq<EntryModel>) -> bool {
    forall|i: int, j: int| 0 <= i < j < s.len() ==> entry_le(s[i], s[j])
}

/// Sort entries for a listing: symlinks, directories, files, then others,
/// each group in humane order of the names. The result holds exactly the
/// given entries.
pub fn sort_entries(v: &Vec<Entry>) -> (r: Vec<Entry>)
    ensures
        sorted_entries(entries_model(r@)),
        entries_model(r@).to_multiset() == entries_model(v@).to_multiset(),
{
    broadcast use vstd::seq_lib::to_multiset_build, vstd::seq_lib::to_multiset_insert;

    let mut out: Vec<Entry> = Vec::new();
    let mut i: usize = 0;
    proof {
        assert(entries_model(out@) =~= Seq::<EntryModel>::empty());
        assert(entries_model(v@.take(0)) =~= Seq::<EntryModel>::empty());
        assert(entries_model(out@).to_multiset() =~= entries_model(v@.take(0)).to_multiset());
    }
    while i < v.len()
        invariant
            i <= v@.len(),
            sorted_entries(entries_model(out@)),
            entries_model(out@).to_multiset() == entries_model(v@.take(i as int)).to_multiset(),
        decreases v@.len() - i,
    {
        let e = clone_entry(&v[i]);
        let ghost em = e.model();
        let ghost outm = entries_model(out@);
        // find the insertion point from the right
        let mut p: usize = out.len();
        while p > 0 && !entry_le_exec(&out[p - 1], &e)
            invariant
                p <= out@.len(),
                outm == entries_model(out@),
                em == e.model(),
                forall|q: int| p <= q < outm.len() ==> entry_le(em, #[trigger] outm[q]),
            decreases p,
        {
            proof {
                lemma_entry_le_total(outm[p - 1], em);
                assert forall|q: int| p - 1 <= q < outm.len() implies entry_le(
                    em,
                    #[trigger] outm[q],
                ) by {
                    if q > p - 1 {
                        assert(entry_le(em, outm[q]));
                    }
                }
            }
            p -= 1;
        }
        let ghost pp = p as int;
        out.insert(p, e);
        proof {
            broadcast use vstd::seq_lib::to_multiset_build, vstd::seq_lib::to_multiset_insert;

            assert(entries_model(out@) =~= outm.insert(pp, em));
            // the prefix up to pp is at or below em
            assert forall|a: int, b: int|
                0 <= a < b < entries_model(out@).len() implies entry_le(
                #[trigger] entries_model(out@)[a],
                #[trigger] entries_model(out@)[b],
            ) by {
                let s = entries_model(out@);
                if b < pp {
                    assert(s[a] == outm[a] && s[b] == outm[b]);
                } else if b == pp {
                    assert(s[b] == em);
                    assert(s[a] == outm[a]);
                    assert(entry_le(outm[pp - 1], em));
                    if a < pp - 1 {
                        assert(entry_le(outm[a], outm[pp - 1]));
                        lemma_entry_le_trans(outm[a], outm[pp - 1], em);
                    }
                } else if a == pp {
                    assert(s[a] == em);
                    assert(s[b] == outm[b - 1]);
                    assert(entry_le(em, outm[b - 1]));
                } else if a < pp {
                    assert(s[a] == outm[a] && s[b] == outm[b - 1]);
                } else {
                    assert(s[a] == outm[a - 1] && s[b] == outm[b - 1]);
                }
            }
            assert(entries_model(v@.take(i as int + 1)) =~= entries_model(v@.take(i as int)).push(
                v@[i as int].model(),
            ));
            assert(outm.insert(pp, em).to_multiset() == outm.to_multiset().insert(em));
            assert(entries_model(v@.take(i as int)).push(v@[i as int].model()).to_multiset()
                == entries_model(v@.take(i as int)).to_multiset().insert(v@[i as int].model()));
            assert(em == v@[i as int].model());
            assert(entries_model(out@).to_multiset() == entries_model(
                v@.take(i as int + 1),
            ).to_multiset());
        }
        i += 1;
    }
    proof {
        assert(v@.take(v@.len() as int) =~= v@);
    }
    out
}


/// What the listing's time column shows for an mtime, in UTC:
/// year-month-day, hour:minute:second.
pub uninterp spec fn listing_time_of(secs: u64) -> Seq<u8>;

/// Relies on `time::OffsetDateTime::from_unix_timestamp` and its component
/// accessors: the UTC calendar fields of the timestamp, a function of the
/// seconds alone, rendered as `YYYY-MM-DD hh:mm:ss UTC`. The bound keeps
/// the timestamp inside the years the crate supports.
#[verifier::external_body]
fn fmt_listing_time(secs: u64) -> (r: Vec<u8>)
    requires
        secs < crate::respond::HTTP_DATE_MAX,
    ensures
        r@ == listing_time_of(secs),
{
    match time::OffsetDateTime::from_unix_timestamp(secs as i64) {
        Ok(t) => format!(
            "{:04}-{:02}-{:02} {:02}:{:02}:{:02} UTC",
            t.year(),
            u8::from(t.month()),
            t.day(),
            t.hour(),
            t.minute(),
            t.second(),
        ).into_bytes(),
        Err(_) => Vec::new(),
    }
}

/// What the listing's size column shows for a file size, in IEC binary
/// units.
pub uninterp spec fn size_text_of(size: u64) -> Seq<u8>;

/// Relies on `bytesize::ByteSize`'s IEC display: the size in binary units
/// (`KiB`, `MiB`, ...), a function of the byte count alone.
#[verifier::external_body]
fn fmt_size(size: u64) -> (r: Vec<u8>)
    ensures
        r@ == size_text_of(size),
{
    bytesize::ByteSize(size).display().iec().to_string().into_bytes()
}

/// What lossy UTF-8 decoding shows for a raw name: the name itself when it
/// is valid UTF-8, with replacement characters elsewhere.
pub uninterp spec fn lossy_of(b: Seq<u8>) -> Seq<u8>;

/// Relies on `String::from_utf8_lossy`: a pure function of the bytes;
/// ASCII bytes pass through unchanged.
#[verifier::external_body]
fn lossy(b: &Vec<u8>) -> (r: Vec<u8>)
    ensures
        r@ == lossy_of(b@),
        (forall|i: int| 0 <= i < b@.len() ==> b@[i] < 128) ==> r@ == b@,
{
    String::from_utf8_lossy(b.as_slice()).into_owned().into_bytes()
}

/// The icon shown for an entry type (the UTF-8 bytes of one emoji).
pub open spec fn icon_of(t: EntryType) -> Seq<u8> {
    match t {
        EntryType::Symlink => seq![0xf0u8, 0x9f, 0x94, 0x81],
        EntryType::Dir => seq![0xf0u8, 0x9f, 0x93, 0x81],
        EntryType::File => seq![0xf0u8, 0x9f, 0x93, 0x84],
        EntryType::Other => seq![0xe2u8, 0x9d, 0x93],
    }
}

fn icon_bytes(t: &EntryType) -> (r: Vec<u8>)
    ensures
        r@ == icon_of(*t),
{
    let mut v: Vec<u8> = Vec::new();
    match t {
        EntryType::Symlink => {
            v.push(0xf0);
            v.push(0x9f);
            v.push(0x94);
            v.push(0x81);
            assert(v@ =~= icon_of(*t));
        },
        EntryType::Dir => {
            v.push(0xf0);
            v.push(0x9f);
            v.push(0x93);
            v.push(0x81);
            assert(v@ =~= icon_of(*t));
        },
        EntryType::File => {
            v.push(0xf0);
            v.push(0x9f);
            v.push(0x93);
            v.push(0x84);
            assert(v@ =~= icon_of(*t));
        },
        EntryType::Other => {
            v.push(0xe2);
            v.push(0x9d);
            v.push(0x93);
            assert(v@ =~= icon_of(*t));
        },
    }
    v
}

/// The link target of an entry: `./`, the percent-encoded name, and a
/// trailing `/` for directories.
pub open spec fn href_of(e: EntryModel) -> Seq<u8> {
    seq![46u8, 47u8] + crate::pct::pct_encode_of(e.name) + (if e.is_dir {
        seq![47u8]
    } else {
        Seq::empty()
    })
}

/// The time column of an entry: the formatted mtime, or `-` when none is
/// available.
pub open spec fn time_text_of(modified: Option<u64>) -> Seq<u8> {
    match modified {
        Some(s) => if s < crate::respond::HTTP_DATE_MAX {
            listing_time_of(s)
        } else {
            crate::text::ascii_of("-")
        },
        None => crate::text::ascii_of("-"),
    }
}

/// The size column of an entry: the formatted size for files, `-` for
/// everything else.
pub open spec fn size_col_of(e: EntryModel) -> Seq<u8> {
    if e.ty is File {
        size_text_of(e.size)
    } else {
        crate::text::ascii_of("-")
    }
}

impl Entry {
    /// The link target of this entry.
    pub fn path(&self) -> (r: Vec<u8>)
        ensures
            r@ == href_of(self.model()),
    {
        let mut r = crate::pct::encode_path(&self.name);
        if self.is_dir {
            r.push(47);
        }
        assert(r@ =~= href_of(self.model()));
        r
    }

    /// The time column of this entry.
    pub fn time(&self) -> (r: Vec<u8>)
        ensures
            r@ == time_text_of(self.modified),
    {
        proof {
            reveal_strlit("-");
            assert(vstd::string::is_ascii("-"));
        }
        match self.modified {
            Some(s) => {
                if s < crate::respond::HTTP_DATE_MAX {
                    fmt_listing_time(s)
                } else {
                    crate::text::lit("-")
                }
            },
            None => crate::text::lit("-"),
        }
    }

    /// The size column of this entry.
    pub fn size(&self) -> (r: Vec<u8>)
        ensures
            r@ == size_col_of(self.model()),
    {
        proof {
            reveal_strlit("-");
            assert(vstd::string::is_ascii("-"));
        }
        match self.ty {
            EntryType::File => fmt_size(self.size),
            _ => crate::text::lit("-"),
        }
    }
}

/// One listing row: icon, link, time and size cells.
pub open spec fn row_of(e: EntryModel) -> Seq<u8> {
    crate::text::ascii_of("<tr><td class=\"icon\">") + icon_of(e.ty) + crate::text::ascii_of(
        "</td><td class=\"link\"><a href=\"",
    ) + href_of(e) + crate::text::ascii_of("\">") + crate::ascii::escape_of(lossy_of(e.name))
        + crate::text::ascii_of("</a></td><td class=\"time\"><small>") + time_text_of(e.modified)
        + crate::text::ascii_of("</small></td><td class=\"size\">") + size_col_of(e)
        + crate::text::ascii_of("</td></tr>")
}

/// Render one listing row.
pub fn render_row(e: &Entry) -> (r: Vec<u8>)
    ensures
        r@ == row_of(e.model()),
{
    proof {
        reveal_strlit("<tr><td class=\"icon\">");
        reveal_strlit("</td><td class=\"link\"><a href=\"");
        reveal_strlit("\">");
        reveal_strlit("</a></td><td class=\"time\"><small>");
        reveal_strlit("</small></td><td class=\"size\">");
        reveal_strlit("</td></tr>");
        assert(vstd::string::is_ascii("<tr><td class=\"icon\">"));
        assert(vstd::string::is_ascii("</td><td class=\"link\"><a href=\""));
        assert(vstd::string::is_ascii("\">"));
        assert(vstd::string::is_ascii("</a></td><td class=\"time\"><small>"));
        assert(vstd::string::is_ascii("</small></td><td class=\"size\">"));
        assert(vstd::string::is_ascii("</td></tr>"));
    }
    let mut r = crate::text::lit("<tr><td class=\"icon\">");
    let icon = icon_bytes(&e.ty);
    crate::ascii::append_bytes(&mut r, &icon);
    let part = crate::text::lit("</td><td class=\"link\"><a href=\"");
    crate::ascii::append_bytes(&mut r, &part);
    let href = e.path();
    crate::ascii::append_bytes(&mut r, &href);
    let part = crate::text::lit("\">");
    crate::ascii::append_bytes(&mut r, &part);
    let shown = lossy(&e.name);
    let shown = crate::ascii::html_escape(&shown);
    crate::ascii::append_bytes(&mut r, &shown);
    let part = crate::text::lit("</a></td><td class=\"time\"><small>");
    crate::ascii::append_bytes(&mut r, &part);
    let t = e.time();
    crate::ascii::append_bytes(&mut r, &t);
    let part = crate::text::lit("</small></td><td class=\"size\">");
    crate::ascii::append_bytes(&mut r, &part);
    let sz = e.size();
    crate::ascii::append_bytes(&mut r, &sz);
    let part = crate::text::lit("</td></tr>");
    crate::ascii::append_bytes(&mut r, &part);
    assert(r@ =~= row_of(e.model()));
    r
}

/// The parent row at the top of a listing: a link to `..`, absent when the
/// listing is the root itself.
pub open spec fn up_of(top: bool) -> Seq<u8> {
    crate::text::ascii_of("<tr><td class=\"icon\">") + seq![0xe2u8, 0xa4, 0xb4, 0xef, 0xb8, 0x8f]
        + crate::text::ascii_of("</td><td class=\"link\">") + (if top {
        Seq::<u8>::empty()
    } else {
        crate::text::ascii_of("<a href=\"..\">..</a>")
    }) + crate::text::ascii_of("</td></tr>")
}

/// Render the parent row.
pub fn up(top: bool) -> (r: Vec<u8>)
    ensures
        r@ == up_of(top),
{
    proof {
        reveal_strlit("<tr><td class=\"icon\">");
        reveal_strlit("</td><td class=\"link\">");
        reveal_strlit("<a href=\"..\">..</a>");
        reveal_strlit("</td></tr>");
        assert(vstd::string::is_ascii("<tr><td class=\"icon\">"));
        assert(vstd::string::is_ascii("</td><td class=\"link\">"));
        assert(vstd::string::is_ascii("<a href=\"..\">..</a>"));
        assert(vstd::string::is_ascii("</td></tr>"));
    }
    let mut r = crate::text::lit("<tr><td class=\"icon\">");
    r.push(0xe2);
    r.push(0xa4);
    r.push(0xb4);
    r.push(0xef);
    r.push(0xb8);
    r.push(0x8f);
    let part = crate::text::lit("</td><td class=\"link\">");
    crate::ascii::append_bytes(&mut r, &part);
    if !top {
        let link = crate::text::lit("<a href=\"..\">..</a>");
        crate::ascii::append_bytes(&mut r, &link);
    }
    let part = crate::text::lit("</td></tr>");
    crate::ascii::append_bytes(&mut r, &part);
    assert(r@ =~= up_of(top));
    r
}


/// The fixed prologue of a listing page.
pub open spec fn listing_header_of() -> Seq<u8> {
    crate::text::ascii_of(
        "<html><head><style>.time { padding-left: 12em; }.size {float: right;padding-left: 2em;}</style></head><body><table><tbody>",
    )
}

/// The fixed epilogue of a listing page.
pub open spec fn listing_footer_of() -> Seq<u8> {
    crate::text::ascii_of("</tbody></table></body></html>")
}

/// The rows of a listing, one text segment each, in the given order.
pub open spec fn rows_of(ms: Seq<EntryModel>) -> Seq<crate::respond::SegModel>
    decreases ms.len(),
{
    if ms.len() == 0 {
        Seq::empty()
    } else {
        rows_of(ms.drop_last()) + seq![crate::respond::SegModel::Text(row_of(ms.last()))]
    }
}

/// The whole body of a listing page: prologue, parent row, one row per
/// entry in the given order, epilogue.
pub open spec fn listing_body_of(ms: Seq<EntryModel>, top: bool) -> Seq<crate::respond::SegModel> {
    seq![
        crate::respond::SegModel::Text(listing_header_of()),
        crate::respond::SegModel::Text(up_of(top)),
    ] + rows_of(ms) + seq![crate::respond::SegModel::Text(listing_footer_of())]
}

/// The whole response of a listing: HTML, streamed without a declared
/// length; a HEAD request gets the same headers and an empty body.
pub open spec fn listing_of(ms: Seq<EntryModel>, top: bool, head: bool) -> crate::respond::RespModel {
    crate::respond::RespModel {
        status: 200,
        headers: seq![
            (crate::respond::HeaderName::ContentType, crate::respond::html_utf8_of()),
        ],
        body: if head {
            Seq::empty()
        } else {
            listing_body_of(ms, top)
        },
        total: if head {
            Some(0u64)
        } else {
            None
        },
    }
}

/// Build the listing response for the entries, in the order given (sort
/// them first with `sort_entries`).
pub fn listing_response(entries: &Vec<Entry>, top: bool, head: bool) -> (r:
    crate::respond::ResponseHead)
    ensures
        r.model() == listing_of(entries_model(entries@), top, head),
{
    proof {
        reveal_strlit(
            "<html><head><style>.time { padding-left: 12em; }.size {float: right;padding-left: 2em;}</style></head><body><table><tbody>",
        );
        assert(vstd::string::is_ascii(
            "<html><head><style>.time { padding-left: 12em; }.size {float: right;padding-left: 2em;}</style></head><body><table><tbody>",
        ));
        reveal_strlit("</tbody></table></body></html>");
        assert(vstd::string::is_ascii("</tbody></table></body></html>"));
    }
    let mut hs: Vec<(crate::respond::HeaderName, Vec<u8>)> = Vec::new();
    proof {
        assert(crate::respond::hdrs_model(hs@) =~= Seq::<(
            crate::respond::HeaderName,
            Seq<u8>,
        )>::empty());
    }
    crate::respond::push_header(
        &mut hs,
        crate::respond::HeaderName::ContentType,
        crate::respond::html_utf8(),
    );
    let mut body: Vec<crate::respond::Segment> = Vec::new();
    proof {
        assert(crate::respond::segs_model(body@) =~= Seq::<crate::respond::SegModel>::empty());
    }
    let total: Option<u64> = if head {
        Some(0)
    } else {
        crate::respond::push_segment(
            &mut body,
            crate::respond::Segment::Text(
                crate::text::lit(
                    "<html><head><style>.time { padding-left: 12em; }.size {float: right;padding-left: 2em;}</style></head><body><table><tbody>",
                ),
            ),
        );
        crate::respond::push_segment(&mut body, crate::respond::Segment::Text(up(top)));
        let mut i: usize = 0;
        proof {
            assert(entries_model(entries@).take(0) =~= Seq::<EntryModel>::empty());
            assert(crate::respond::segs_model(body@) =~= seq![
                crate::respond::SegModel::Text(listing_header_of()),
                crate::respond::SegModel::Text(up_of(top)),
            ] + rows_of(entries_model(entries@).take(0)));
        }
        while i < entries.len()
            invariant
                i <= entries@.len(),
                crate::respond::segs_model(body@) == seq![
                    crate::respond::SegModel::Text(listing_header_of()),
                    crate::respond::SegModel::Text(up_of(top)),
                ] + rows_of(entries_model(entries@).take(i as int)),
            decreases entries@.len() - i,
        {
            proof {
                assert(entries_model(entries@).take(i as int + 1).drop_last()
                    =~= entries_model(entries@).take(i as int));
                assert(entries_model(entries@).take(i as int + 1).last() == entries@[
                    i as int
                ].model());
            }
            let row = render_row(&entries[i]);
            crate::respond::push_segment(&mut body, crate::respond::Segment::Text(row));
            assert(crate::respond::segs_model(body@) =~= seq![
                crate::respond::SegModel::Text(listing_header_of()),
                crate::respond::SegModel::Text(up_of(top)),
            ] + rows_of(entries_model(entries@).take(i as int + 1)));
            i += 1;
        }
        proof {
            assert(entries_model(entries@).take(entries@.len() as int) =~= entries_model(
                entries@,
            ));
        }
        crate::respond::push_segment(
            &mut body,
            crate::respond::Segment::Text(crate::text::lit("</tbody></table></body></html>")),
        );
        None
    };
    let r = crate::respond::ResponseHead { status: 200, headers: hs, body, total };
    proof {
        assert(r.model().headers =~= listing_of(entries_model(entries@), top, head).headers);
        assert(r.model().body =~= listing_of(entries_model(entries@), top, head).body);
    }
    r
}

} // verus!
