//! Where the signature of an RPM file lies.
//!
//! The signature header starts at byte 96; an `RSAHEADER` (1000),
//! `PGPHEADER` (269) or legacy `PGP` (267) entry of binary or hex type
//! holds an OpenPGP signature over everything after the signature header.
use vstd::prelude::*;
use crate::package::rpm::{be32, be_i32, has_rpm_magic, read_be32, read_be_i32, rpm_magic_ok};

verus! {

/// The signature that index entry `o` of the signature header points to,
/// if it is one: `[start, end)` in the file.  An offset below zero points
/// nowhere.
pub open spec fn sig_entry(d: Seq<u8>, store_start: int, o: int) -> Option<(int, int)> {
    let tag = be_i32(d, o);
    let ty = be_i32(d, o + 4);
    let off = be_i32(d, o + 8);
    let count = be_i32(d, o + 12);
    if (tag == 1000 || tag == 269 || tag == 267) && count > 0 && (ty == 7 || ty == 6) && off >= 0
        && store_start + off + count <= d.len() {
        Some((store_start + off, store_start + off + count))
    } else {
        None
    }
}

/// The first signature among entries `i..entries` (as far as they fit).
pub open spec fn sig_search(d: Seq<u8>, store_start: int, i: int, entries: int) -> Option<(int, int)>
    decreases entries - i,
{
    if i >= entries || 112 + 16 * i + 16 > d.len() {
        None
    } else {
        match sig_entry(d, store_start, 112 + 16 * i) {
            Some(r) => Some(r),
            None => sig_search(d, store_start, i + 1, entries),
        }
    }
}

/// Where the signature and the signed data of an RPM file are: the
/// signature's `[start, end)` and the start of the signed data, which runs
/// to the end.  `None` when the file cannot carry a verifiable signature.
pub open spec fn rpm_signature_layout_spec(d: Seq<u8>) -> Option<(int, int, int)> {
    if d.len() < 112 || !has_rpm_magic(d) {
        None
    } else {
        let entries = be32(d, 104) as int;
        let store_start = 112 + entries * 16;
        let signed_start = store_start + be32(d, 108);
        if d.len() < signed_start {
            None
        } else {
            match sig_search(d, store_start, 0, entries) {
                None => None,
                Some((a, b)) => if signed_start >= d.len() {
                    None
                } else {
                    Some((a, b, signed_start))
                },
            }
        }
    }
}

/// The signature and signed data of an RPM file, as byte offsets.
pub fn rpm_signature_layout(d: &[u8]) -> (r: Option<(usize, usize, usize)>)
    ensures
        match rpm_signature_layout_spec(d@) {
            Some((a, b, s)) => r == Some((a as usize, b as usize, s as usize)),
            None => r is None,
        },
{
    if d.len() < 112 || !rpm_magic_ok(d) {
        return None;
    }
    let nu: usize = d.len();
    let n: u64 = nu as u64;
    let entries = read_be32(d, 104);
    let ss = read_be32(d, 108);
    let store_start: u64 = 112 + (entries as u64) * 16;
    let signed_start: u64 = store_start + ss as u64;
    if n < signed_start {
        return None;
    }
    let mut i: u32 = 0;
    let mut found: Option<(u64, u64)> = None;
    while i < entries
        invariant_except_break
            found is None,
        invariant
            n == d@.len(),
            nu == d@.len(),
            n >= 112,
            store_start == 112 + entries * 16,
            signed_start <= n,
            store_start <= signed_start,
            i <= entries,
            sig_search(d@, store_start as int, 0, entries as int) == sig_search(d@, store_start as int, i as int, entries as int),
        ensures
            found is None ==> sig_search(d@, store_start as int, 0, entries as int) is None,
            found matches Some((a, b)) ==> sig_search(d@, store_start as int, 0, entries as int) == Some((a as int, b as int)) && b <= n,
        decreases entries - i,
    {
        let o64: u64 = 112 + (i as u64) * 16;
        if o64 + 16 > n {
            break;
        }
        let o = o64 as usize;
        let tag = read_be_i32(d, o);
        let ty = read_be_i32(d, o + 4);
        let off = read_be_i32(d, o + 8);
        let count = read_be_i32(d, o + 12);
        if (tag == 1000 || tag == 269 || tag == 267) && count > 0 && (ty == 7 || ty == 6) && off >= 0 {
            let start = store_start + off as u64;
            let end = start + count as u64;
            if end <= n {
                found = Some((start, end));
                break;
            }
        }
        i += 1;
    }
    match found {
        None => None,
        Some((a, b)) => {
            if signed_start >= n {
                None
            } else {
                Some((a as usize, b as usize, signed_start as usize))
            }
        },
    }
}

} // verus!
