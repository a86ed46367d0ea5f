//! A static file server's request-processing core: safe path resolution,
//! entity-tag derivation, conditional and ranged request evaluation,
//! response planning, and directory-listing rendering.
use vstd::prelude::*;

pub mod ascii;
pub mod cond;
pub mod entity;
pub mod etag;
pub mod humane;
pub mod listing;
pub mod path;
pub mod pct;
pub mod process;
pub mod range;
pub mod rangeparse;
pub mod respond;
pub mod text;

verus! {

/// Server configuration: the root directory (absolute path, as bytes) and
/// whether `index.html` is served for directory requests.
#[derive(Clone)]
pub struct WebDir {
    pub root: Vec<u8>,
    pub index: bool,
}

impl WebDir {
    pub fn new(root: Vec<u8>, index: bool) -> (r: WebDir)
        ensures
            r.root@ == root@,
            r.index == index,
    {
        WebDir { root, index }
    }
}

} // verus!
