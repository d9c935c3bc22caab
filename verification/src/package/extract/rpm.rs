//! Unpacking `.rpm` archives: the payload after the two headers, its
//! decompression and its CPIO archive.
use vstd::prelude::*;
use crate::error::SpmError;
use crate::package::extract::codec::{gunzip, gzip_decode, unxz, unzstd, xz_decode, zstd_decode};
use crate::package::rpm::{
    be32, cpio_plan, cpio_plan_spec, gzip_magic, header_too_large, is_gzip, plan_is, read_be32, store_size,
    too_large_error, too_large_text, CpioPlan,
};
use crate::text::{push_str, starts_with};

verus! {

/// The index header at `offset` of a whole file: where its entries start
/// and the size of entries and store.
pub fn read_index_header(data: &[u8], offset: usize) -> (r: Result<(usize, usize), SpmError>)
    ensures
        offset + 16 > data@.len() ==> (r matches Err(SpmError::InvalidFormat(m)) && m@
            == "RPM data truncated at index header"@),
        offset + 16 <= data@.len() ==> match r {
            Ok((start, n)) => !header_too_large(be32(data@, offset + 8), be32(data@, offset + 12))
                && start == offset + 16 && n == store_size(be32(data@, offset + 8), be32(data@, offset + 12)),
            Err(e) => header_too_large(be32(data@, offset + 8), be32(data@, offset + 12))
                && (e matches SpmError::InvalidFormat(m) && m@ == too_large_text(
                be32(data@, offset + 8),
                be32(data@, offset + 12),
            )),
        },
{
    if data.len() < 16 || offset > data.len() - 16 {
        return Err(SpmError::InvalidFormat(crate::error::message("RPM data truncated at index header")));
    }
    let nindex = read_be32(data, offset + 8);
    let hsize = read_be32(data, offset + 12);
    if nindex > 65536 || hsize > 4 * 1024 * 1024 {
        return Err(too_large_error(nindex, hsize));
    }
    Ok((offset + 16, ((nindex as usize) * 16 + hsize as usize + 7) / 8 * 8))
}

// ---------------------------------------------------------------------------
// The whole file up to the payload
// ---------------------------------------------------------------------------

/// The error, if any, of the index header at `off`.
pub open spec fn index_error(d: Seq<u8>, off: int) -> Option<Seq<char>> {
    if off + 16 > d.len() {
        Some("RPM data truncated at index header"@)
    } else if header_too_large(be32(d, off + 8), be32(d, off + 12)) {
        Some(too_large_text(be32(d, off + 8), be32(d, off + 12)))
    } else {
        None
    }
}

/// Where the header that starts at `off` ends.
pub open spec fn header_end(d: Seq<u8>, off: int) -> int {
    off + 16 + store_size(be32(d, off + 8), be32(d, off + 12))
}

/// Where the payload starts: after the lead and both headers.
pub open spec fn payload_offset(d: Seq<u8>) -> Result<int, Seq<char>> {
    match index_error(d, 96) {
        Some(m) => Err(m),
        None => match index_error(d, header_end(d, 96)) {
            Some(m) => Err(m),
            None => Ok(header_end(d, header_end(d, 96))),
        },
    }
}

/// Whether the payload offset, when there is one, lies within the data.
pub open spec fn payload_in_bounds(d: Seq<u8>) -> bool {
    payload_offset(d) matches Ok(o) ==> o <= d.len()
}

pub fn payload_fits(data: &[u8]) -> (b: bool)
    ensures
        b == payload_in_bounds(data@),
{
    match read_index_header(data, 96) {
        Err(_) => true,
        Ok((start, n)) => match start.checked_add(n) {
            None => true,
            Some(o) => match read_index_header(data, o) {
                Err(_) => true,
                Ok((start2, n2)) => n2 <= data.len() && start2 <= data.len() - n2,
            },
        },
    }
}

/// The payload: what follows the signature header and the main header.
pub fn extract_payload(data: &[u8]) -> (r: Result<Vec<u8>, SpmError>)
    requires
        payload_in_bounds(data@),
    ensures
        match payload_offset(data@) {
            Ok(o) => r matches Ok(p) && p@ == data@.subrange(o, data@.len() as int),
            Err(m) => r matches Err(SpmError::InvalidFormat(x)) && x@ == m,
        },
{
    let (start, n) = read_index_header(data, 96)?;
    let o = match start.checked_add(n) {
        Some(o) => o,
        None => {
            return Err(SpmError::InvalidFormat(crate::error::message("RPM data truncated at index header")));
        },
    };
    let (start2, n2) = read_index_header(data, o)?;
    let p = vstd::slice::slice_to_vec(&data[start2 + n2..data.len()]);
    Ok(p)
}

// ---------------------------------------------------------------------------
// The payload's archive
// ---------------------------------------------------------------------------

/// Data that starts with the xz magic `fd 37 7a 58 5a` and is longer than
/// four bytes.
pub open spec fn is_xz(d: Seq<u8>) -> bool {
    d.len() > 4 && d[0] == 0xfd && d[1] == 0x37 && d[2] == 0x7a && d[3] == 0x58 && d[4] == 0x5a
}

/// The archive in a payload: gzip and xz are decoded (`None` when that
/// fails), other data of more than four bytes is decoded as zstd when it can
/// be and taken as it is otherwise.
pub open spec fn payload_archive(d: Seq<u8>) -> Option<Seq<u8>> {
    if is_gzip(d) {
        gzip_decode(d)
    } else if is_xz(d) {
        xz_decode(d)
    } else if d.len() > 4 {
        match zstd_decode(d) {
            Some(v) => Some(v),
            None => Some(d),
        }
    } else {
        Some(d)
    }
}

fn compression_error(prefix: &str, e: String) -> (r: SpmError)
    ensures
        r matches SpmError::Compression(m) && m@ == prefix@ + e@ && starts_with(m@, prefix@),
{
    let mut m = String::new();
    push_str(&mut m, prefix);
    push_str(&mut m, e.as_str());
    assert((prefix@ + e@).take(prefix@.len() as int) =~= prefix@);
    SpmError::Compression(m)
}

/// Decompresses a payload; a gzip or xz stream that does not decode is an
/// error that says which.
pub fn decompress_payload(data: &[u8]) -> (r: Result<Vec<u8>, SpmError>)
    ensures
        match payload_archive(data@) {
            Some(v) => r matches Ok(x) && x@ == v,
            None => r matches Err(SpmError::Compression(m)) && (if is_gzip(data@) {
                starts_with(m@, "gzip decompression failed: "@)
            } else {
                starts_with(m@, "xz decompression failed: "@)
            }),
        },
{
    if gzip_magic(data) {
        match gunzip(data) {
            Ok(v) => Ok(v),
            Err(e) => {
                Err(compression_error("gzip decompression failed: ", e))
            },
        }
    } else if data.len() > 4 && data[0] == 0xfd && data[1] == 0x37 && data[2] == 0x7a && data[3] == 0x58
        && data[4] == 0x5a {
        match unxz(data) {
            Ok(v) => Ok(v),
            Err(e) => {
                Err(compression_error("xz decompression failed: ", e))
            },
        }
    } else if data.len() > 4 {
        match unzstd(data) {
            Ok(v) => Ok(v),
            Err(_) => Ok(vstd::slice::slice_to_vec(data)),
        }
    } else {
        Ok(vstd::slice::slice_to_vec(data))
    }
}

/// Decompresses a payload and plans the extraction of its CPIO archive
/// into `target`.
pub fn decompress_cpio(data: &[u8], target: &str) -> (r: Result<CpioPlan, SpmError>)
    ensures
        match payload_archive(data@) {
            Some(v) => r matches Ok(p) && plan_is(p, cpio_plan_spec(v, target@)),
            None => r matches Err(SpmError::Compression(_)),
        },
{
    let archive = decompress_payload(data)?;
    Ok(cpio_plan(archive.as_slice(), target))
}

} // verus!
