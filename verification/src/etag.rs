//! Entity tags derived from filesystem metadata.
//!
//! The tag is a strong, quoted token: the base64url (no padding) encoding of
//! a 64-bit SipHash over the file's size, inode number and modification
//! time. Two stat snapshots with the same size, file id and mtime always
//! yield the same tag.
use vstd::prelude::*;
use std::hash::Hasher;
use crate::ascii::{le_bytes_of, u64_to_bytes, append_bytes};

verus! {

/// One stat snapshot of a file, reduced to plain values: size in bytes, the
/// OS file id, the modification time in whole seconds and its nanosecond
/// fraction, and the modification time as whole seconds since the epoch for
/// HTTP dates (`None` when the filesystem reports none).
#[derive(Clone, Copy)]
pub struct FileMeta {
    pub size: u64,
    pub ino: u64,
    pub mtime: i64,
    pub mtime_nsec: i64,
    pub modified: Option<u64>,
}

/// What SipHash-2-4 with zero keys returns for the four integers.
pub uninterp spec fn sip_of(a: u64, b: u64, c: u64, d: u64) -> u64;

/// Relies on `siphasher::sip::SipHasher` (SipHash-2-4, keys zero):
/// `write_u64` hashes the little-endian bytes of its argument, so the result
/// is a function of the four integers alone, the same on every machine.
#[verifier::external_body]
fn sip_hash4(a: u64, b: u64, c: u64, d: u64) -> (r: u64)
    ensures
        r == sip_of(a, b, c, d),
{
    let mut h = siphasher::sip::SipHasher::default();
    h.write_u64(a);
    h.write_u64(b);
    h.write_u64(c);
    h.write_u64(d);
    h.finish()
}

/// What base64url without padding encodes the bytes to.
pub uninterp spec fn b64url_of(b: Seq<u8>) -> Seq<u8>;

/// Relies on `data_encoding::BASE64URL_NOPAD.encode`: base64url without
/// padding, a function of the input bytes alone; the output holds
/// `ceil(4n/3)` ASCII bytes for `n` input bytes.
#[verifier::external_body]
fn b64url_nopad(b: &Vec<u8>) -> (r: Vec<u8>)
    ensures
        r@ == b64url_of(b@),
        r@.len() == (b@.len() * 4 + 2) / 3,
{
    data_encoding::BASE64URL_NOPAD.encode(b.as_slice()).into_bytes()
}

/// The hash input of a stat snapshot: size, file id, mtime seconds, mtime
/// nanoseconds.
pub open spec fn fs_hash_of(m: FileMeta) -> u64 {
    sip_of(m.size, m.ino, m.mtime as u64, m.mtime_nsec as u64)
}

/// Hash the identifying fields of one stat snapshot.
pub fn fs_hash(m: &FileMeta) -> (r: u64)
    ensures
        r == fs_hash_of(*m),
{
    sip_hash4(m.size, m.ino, m.mtime as u64, m.mtime_nsec as u64)
}

/// The entity tag of a stat snapshot: the base64url encoding of the hash,
/// in double quotes.
pub open spec fn etag_of(m: FileMeta) -> Seq<u8> {
    seq![34u8] + b64url_of(le_bytes_of(fs_hash_of(m))) + seq![34u8]
}

/// Compute the quoted entity tag for one stat snapshot.
pub fn etag(m: &FileMeta) -> (r: Vec<u8>)
    ensures
        r@ == etag_of(*m),
{
    let h = fs_hash(m);
    let bytes = u64_to_bytes(h);
    let enc = b64url_nopad(&bytes);
    let mut r: Vec<u8> = Vec::new();
    r.push(34);
    append_bytes(&mut r, &enc);
    r.push(34);
    assert(r@ =~= etag_of(*m));
    r
}

/// Two snapshots that agree on size, file id and modification time carry
/// the same entity tag.
pub proof fn lemma_etag_deterministic(m1: FileMeta, m2: FileMeta)
    requires
        m1.size == m2.size,
        m1.ino == m2.ino,
        m1.mtime == m2.mtime,
        m1.mtime_nsec == m2.mtime_nsec,
    ensures
        etag_of(m1) == etag_of(m2),
{
}

} // verus!
