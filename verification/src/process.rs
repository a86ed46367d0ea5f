//! Request processing around the entity: method filtering, the choice
//! between a file, an index page and a listing, error pages, and the byte
//! budget that clips file chunks to a range.
use vstd::prelude::*;
use crate::ascii::{escape_of, html_escape, append_bytes};
use crate::respond::{
    ResponseHead, RespModel, HeaderName, Segment, SegModel, hdrs_model, segs_model, html_utf8,
    html_utf8_of, push_header, push_segment,
};
use crate::text::{ascii_of, lit};

verus! {

/// The error kinds the processor maps to status codes: a missing file, a
/// denied stat or open, and everything else.
#[derive(Clone, Copy, Debug, PartialEq, Eq, Structural)]
pub enum ErrKind {
    NotFound,
    PermissionDenied,
    Other,
}

/// The status code of an error kind.
pub open spec fn err_status_of(k: ErrKind) -> u16 {
    match k {
        ErrKind::NotFound => 404,
        ErrKind::PermissionDenied => 403,
        ErrKind::Other => 500,
    }
}

/// The error page: a fixed face, then the message, HTML-escaped.
pub open spec fn err_html_of(msg: Seq<u8>) -> Seq<u8> {
    ascii_of("<h1><strong>( ") + seq![0xe3u8, 0x83, 0xbb] + ascii_of("_") + seq![
        0xe3u8,
        0x83,
        0xbb,
    ] + ascii_of(")</strong></h1><h2>") + escape_of(msg) + ascii_of("</h2>")
}

/// Render the error page for a message.
pub fn err_html(msg: &Vec<u8>) -> (r: Vec<u8>)
    ensures
        r@ == err_html_of(msg@),
{
    proof {
        reveal_strlit("<h1><strong>( ");
        reveal_strlit("_");
        reveal_strlit(")</strong></h1><h2>");
        reveal_strlit("</h2>");
        assert(vstd::string::is_ascii("<h1><strong>( "));
        assert(vstd::string::is_ascii("_"));
        assert(vstd::string::is_ascii(")</strong></h1><h2>"));
        assert(vstd::string::is_ascii("</h2>"));
    }
    let mut r = lit("<h1><strong>( ");
    r.push(0xe3);
    r.push(0x83);
    r.push(0xbb);
    let part = lit("_");
    append_bytes(&mut r, &part);
    r.push(0xe3);
    r.push(0x83);
    r.push(0xbb);
    let part = lit(")</strong></h1><h2>");
    append_bytes(&mut r, &part);
    let esc = html_escape(msg);
    append_bytes(&mut r, &esc);
    let part = lit("</h2>");
    append_bytes(&mut r, &part);
    assert(r@ =~= err_html_of(msg@));
    r
}

/// The whole response for a processing error: the mapped status, an HTML
/// error page, and an empty body on HEAD.
pub open spec fn error_response_of(k: ErrKind, msg: Seq<u8>, head: bool) -> RespModel {
    RespModel {
        status: err_status_of(k),
        headers: seq![(HeaderName::ContentType, html_utf8_of())],
        body: if head {
            Seq::empty()
        } else {
            seq![SegModel::Text(err_html_of(msg))]
        },
        total: if head {
            Some(0u64)
        } else {
            Some(err_html_of(msg).len() as u64)
        },
    }
}

/// Build the response for a processing error.
pub fn error_response(k: ErrKind, msg: &Vec<u8>, head: bool) -> (r: ResponseHead)
    ensures
        r.model() == error_response_of(k, msg@, head),
{
    let status: u16 = match k {
        ErrKind::NotFound => 404,
        ErrKind::PermissionDenied => 403,
        ErrKind::Other => 500,
    };
    let mut hs: Vec<(HeaderName, Vec<u8>)> = Vec::new();
    proof {
        assert(hdrs_model(hs@) =~= Seq::<(HeaderName, Seq<u8>)>::empty());
    }
    push_header(&mut hs, HeaderName::ContentType, html_utf8());
    let mut body: Vec<Segment> = Vec::new();
    proof {
        assert(segs_model(body@) =~= Seq::<SegModel>::empty());
    }
    let total: Option<u64> = if head {
        Some(0)
    } else {
        let page = err_html(msg);
        let n = page.len() as u64;
        push_segment(&mut body, Segment::Text(page));
        Some(n)
    };
    let r = ResponseHead { status, headers: hs, body, total };
    proof {
        assert(r.model().headers =~= error_response_of(k, msg@, head).headers);
        assert(r.model().body =~= error_response_of(k, msg@, head).body);
    }
    r
}

/// Only GET and HEAD are served.
pub open spec fn method_ok(m: Seq<u8>) -> bool {
    m == ascii_of("GET") || m == ascii_of("HEAD")
}

/// Is the request method GET or HEAD?
pub fn method_allowed(m: &Vec<u8>) -> (r: bool)
    ensures
        r == method_ok(m@),
{
    proof {
        reveal_strlit("GET");
        reveal_strlit("HEAD");
        assert(ascii_of("GET") =~= seq![71u8, 69, 84]);
        assert(ascii_of("HEAD") =~= seq![72u8, 69, 65, 68]);
    }
    if m.len() == 3 && m[0] == 71 && m[1] == 69 && m[2] == 84 {
        assert(m@ =~= ascii_of("GET"));
        true
    } else if m.len() == 4 && m[0] == 72 && m[1] == 69 && m[2] == 65 && m[3] == 68 {
        assert(m@ =~= ascii_of("HEAD"));
        true
    } else {
        assert(m@ != ascii_of("GET") && m@ != ascii_of("HEAD"));
        false
    }
}

/// The response to any other method: 405 with `Allow: GET, HEAD`.
pub open spec fn method_not_allowed_of(head: bool) -> RespModel {
    RespModel {
        status: 405,
        headers: seq![
            (HeaderName::Allow, ascii_of("GET, HEAD")),
            (HeaderName::ContentType, html_utf8_of()),
        ],
        body: if head {
            Seq::empty()
        } else {
            seq![SegModel::Text(err_html_of(ascii_of("Method Not Allowed")))]
        },
        total: if head {
            Some(0u64)
        } else {
            Some(err_html_of(ascii_of("Method Not Allowed")).len() as u64)
        },
    }
}

/// Build the 405 response.
pub fn method_not_allowed(head: bool) -> (r: ResponseHead)
    ensures
        r.model() == method_not_allowed_of(head),
{
    proof {
        reveal_strlit("GET, HEAD");
        reveal_strlit("Method Not Allowed");
        assert(vstd::string::is_ascii("GET, HEAD"));
        assert(vstd::string::is_ascii("Method Not Allowed"));
    }
    let mut hs: Vec<(HeaderName, Vec<u8>)> = Vec::new();
    proof {
        assert(hdrs_model(hs@) =~= Seq::<(HeaderName, Seq<u8>)>::empty());
    }
    push_header(&mut hs, HeaderName::Allow, lit("GET, HEAD"));
    push_header(&mut hs, HeaderName::ContentType, html_utf8());
    let mut body: Vec<Segment> = Vec::new();
    proof {
        assert(segs_model(body@) =~= Seq::<SegModel>::empty());
    }
    let total: Option<u64> = if head {
        Some(0)
    } else {
        let msg = lit("Method Not Allowed");
        let page = err_html(&msg);
        let n = page.len() as u64;
        push_segment(&mut body, Segment::Text(page));
        Some(n)
    };
    let r = ResponseHead { status: 405, headers: hs, body, total };
    proof {
        assert(r.model().headers =~= method_not_allowed_of(head).headers);
        assert(r.model().body =~= method_not_allowed_of(head).body);
    }
    r
}

/// What a resolved path is served as: the file itself, the directory's
/// `index.html`, or a rendered listing.
#[derive(Clone, Copy, Debug, PartialEq, Eq, Structural)]
pub enum Target {
    ServeFile,
    ServeIndex,
    ListDir,
}

/// The choice for a resolved path: a regular file is served as it is; a
/// directory serves its `index.html` when the option is on and that file
/// exists as a regular file, and a listing otherwise.
pub open spec fn target_of(index_enabled: bool, is_dir: bool, index_is_file: bool) -> Target {
    if !is_dir {
        Target::ServeFile
    } else if index_enabled && index_is_file {
        Target::ServeIndex
    } else {
        Target::ListDir
    }
}

/// Decide what to serve for a resolved path.
pub fn plan_target(index_enabled: bool, is_dir: bool, index_is_file: bool) -> (r: Target)
    ensures
        r == target_of(index_enabled, is_dir, index_is_file),
{
    if !is_dir {
        Target::ServeFile
    } else if index_enabled && index_is_file {
        Target::ServeIndex
    } else {
        Target::ListDir
    }
}

/// A byte budget over a chunked reader: it clips each chunk so that the
/// total handed out never passes the limit.
pub struct LimitFile {
    pub curr: u64,
    pub limit: u64,
}

impl LimitFile {
    /// The budget never runs past its limit.
    pub open spec fn wf(&self) -> bool {
        self.curr <= self.limit
    }

    /// A fresh budget of `limit` bytes.
    pub fn new(limit: u64) -> (r: LimitFile)
        ensures
            r.wf(),
            r.curr == 0,
            r.limit == limit,
    {
        LimitFile { curr: 0, limit }
    }

    /// How many bytes of a chunk of length `len` may pass: the whole chunk,
    /// or just enough to reach the limit.
    pub fn clip(&mut self, len: usize) -> (t: usize)
        requires
            old(self).wf(),
        ensures
            final(self).wf(),
            final(self).limit == old(self).limit,
            t == if len as int <= old(self).limit - old(self).curr {
                len as int
            } else {
                old(self).limit - old(self).curr
            },
            final(self).curr == old(self).curr + t,
    {
        let room = self.limit - self.curr;
        if (len as u64) <= room {
            self.curr = self.curr + (len as u64);
            len
        } else {
            self.curr = self.limit;
            room as usize
        }
    }
}

} // verus!
