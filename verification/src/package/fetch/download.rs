//! Resumable downloads: what each answer of the server leads to.
//!
//! A download makes at most three requests.  A request for a file part of
//! which is already on disk asks for the rest with a `Range` header.
use vstd::prelude::*;
use crate::error::SpmError;
use crate::text::{
    chars_of, decimal, ends_with, last_idx_of, parse_u64, parse_unsigned, push_decimal, push_str,
    rfind_char, starts_with, starts_with_str, strings_view, trim, trim_range,
};

verus! {

/// The number of requests a download may make.
pub const MAX_ATTEMPTS: u32 = 3;

/// The `Range` header that asks for a file from byte `offset` on; none for
/// a download from the start.
pub open spec fn range_text(offset: nat) -> Seq<char> {
    "bytes="@ + decimal(offset) + seq!['-']
}

pub fn range_header(offset: u64) -> (r: Option<String>)
    ensures
        offset == 0 ==> r is None,
        offset > 0 ==> (r matches Some(h) && h@ == range_text(offset as nat)),
{
    if offset == 0 {
        return None;
    }
    let mut h = String::new();
    push_str(&mut h, "bytes=");
    push_decimal(&mut h, offset);
    h.push('-');
    assert(h@ =~= range_text(offset as nat));
    Some(h)
}

/// The text after the last `/` (all of it when there is none).
pub open spec fn after_last_slash(s: Seq<char>) -> Seq<char> {
    match last_idx_of(s, '/') {
        Some(i) => s.skip(i + 1 as int),
        None => s,
    }
}

/// The size of the whole file as the answer gives it: from
/// `Content-Range` (`bytes a-b/total`) for a partial answer (206), from
/// `Content-Length` otherwise.
pub open spec fn total_of(status: u16, content_range: Option<Seq<char>>, content_length: Option<Seq<char>>) -> Option<nat> {
    if status == 206 {
        let cr = match content_range {
            Some(c) => c,
            None => Seq::empty(),
        };
        parse_unsigned(trim(after_last_slash(cr)), u64::MAX as nat)
    } else {
        match content_length {
            Some(l) => parse_unsigned(l, u64::MAX as nat),
            None => None,
        }
    }
}

pub fn expected_total(status: u16, content_range: &Option<String>, content_length: &Option<String>) -> (r: Option<u64>)
    ensures
        match total_of(
            status,
            crate::package::scripts::opt_text(*content_range),
            crate::package::scripts::opt_text(*content_length),
        ) {
            Some(n) => r == Some(n as u64),
            None => r is None,
        },
{
    if status == 206 {
        let v = match content_range {
            Some(c) => chars_of(c.as_str()),
            None => Vec::new(),
        };
        let ghost cr = v@;
        let start = match rfind_char(&v, 0, v.len(), '/') {
            Some(i) => i + 1,
            None => 0,
        };
        proof {
            assert(v@.subrange(0, v@.len() as int) =~= v@);
            assert(after_last_slash(cr) =~= v@.subrange(start as int, v@.len() as int));
        }
        let (a, b) = trim_range(&v, start, v.len());
        parse_u64(&v, a, b)
    } else {
        match content_length {
            Some(l) => {
                let v = chars_of(l.as_str());
                proof {
                    assert(v@.subrange(0, v@.len() as int) =~= l@);
                }
                parse_u64(&v, 0, v.len())
            },
            None => None,
        }
    }
}

/// What came of one request.
pub enum DownloadEvent {
    /// The server refused the range (416): what is on disk is stale.
    RangeRefused,
    /// The request failed before an answer; `error` says how.
    CallFailed { error: String },
    /// An answer came, but reading its body failed.
    ReadFailed { error: String },
    /// The answer with `status` came and `written` bytes of it were stored.
    Finished { status: u16, written: u64 },
}

/// What to do next.
pub enum DownloadNext {
    /// Make request number `attempt`, for the file from `offset` on (the
    /// file on disk is dropped first when `offset` went back to zero).
    Attempt { attempt: u32, offset: u64 },
    /// The file is complete and holds `size` bytes.
    Done { size: u64 },
    /// The download failed.
    Fail { error: SpmError },
}

pub open spec fn gave_up_text(name: Seq<char>, url: Seq<char>) -> Seq<char> {
    "Failed to download '"@ + name + "' after 3 attempts from "@ + url
}

pub open spec fn call_failed_text(name: Seq<char>, url: Seq<char>, e: Seq<char>) -> Seq<char> {
    gave_up_text(name, url) + ": "@ + e
}

pub open spec fn read_failed_text(name: Seq<char>, attempt: nat, e: Seq<char>) -> Seq<char> {
    "Read error for '"@ + name + "' after "@ + decimal(attempt) + " attempts: "@ + e
}

/// The next step after request number `attempt`, made for the file from
/// `offset` on, ended in `event`.
pub open spec fn next_step(attempt: nat, offset: nat, event: DownloadEvent, name: Seq<char>, url: Seq<char>) -> (
    nat,
    nat,
    Option<Seq<char>>,
    Option<nat>,
) {
    // (next attempt, next offset, error text, size): an error or a size
    // ends the download; else the next attempt is made when there is one.
    match event {
        DownloadEvent::RangeRefused => if attempt < 3 {
            (attempt + 1, 0, None, None)
        } else {
            (attempt, 0, Some(gave_up_text(name, url)), None)
        },
        DownloadEvent::CallFailed { error } => if attempt < 3 {
            (attempt + 1, offset, None, None)
        } else {
            (attempt, offset, Some(call_failed_text(name, url, error@)), None)
        },
        DownloadEvent::ReadFailed { error } => if attempt < 3 {
            (attempt + 1, offset, None, None)
        } else {
            (attempt, offset, Some(read_failed_text(name, attempt, error@)), None)
        },
        DownloadEvent::Finished { status, written } => (
            attempt,
            offset,
            None,
            Some(((if status == 206 { offset } else { 0 }) + written) as nat),
        ),
    }
}

/// Whether a stored answer is appended to the file on disk (a partial
/// answer to a request from a non-zero offset) or replaces it.
pub fn appends(status: u16, offset: u64) -> (r: bool)
    ensures
        r == (status == 206 && offset > 0),
{
    status == 206 && offset > 0
}

/// The step after request `attempt` (one of the three) for the file from
/// `offset` on ended in `event`.
pub fn download_step(attempt: u32, offset: u64, event: DownloadEvent, name: &str, url: &str) -> (r: DownloadNext)
    requires
        1 <= attempt <= MAX_ATTEMPTS,
        event matches DownloadEvent::Finished { status, written } ==> (if status == 206 { offset as int } else { 0 })
            + written <= u64::MAX,
    ensures
        ({
            let (a, o, err, size) = next_step(attempt as nat, offset as nat, event, name@, url@);
            match r {
                DownloadNext::Attempt { attempt: na, offset: no } => err is None && size is None && na == a
                    && no == o && na == attempt + 1,
                DownloadNext::Done { size: s } => size == Some(s as nat),
                DownloadNext::Fail { error } => (error matches SpmError::Network(m) && err == Some(m@)),
            }
        }),
{
    match event {
        DownloadEvent::RangeRefused => {
            if attempt < MAX_ATTEMPTS {
                DownloadNext::Attempt { attempt: attempt + 1, offset: 0 }
            } else {
                let mut m = String::new();
                push_str(&mut m, "Failed to download '");
                push_str(&mut m, name);
                push_str(&mut m, "' after 3 attempts from ");
                push_str(&mut m, url);
                assert(m@ =~= gave_up_text(name@, url@));
                DownloadNext::Fail { error: SpmError::Network(m) }
            }
        },
        DownloadEvent::CallFailed { error } => {
            if attempt < MAX_ATTEMPTS {
                DownloadNext::Attempt { attempt: attempt + 1, offset }
            } else {
                let mut m = String::new();
                push_str(&mut m, "Failed to download '");
                push_str(&mut m, name);
                push_str(&mut m, "' after 3 attempts from ");
                push_str(&mut m, url);
                push_str(&mut m, ": ");
                push_str(&mut m, error.as_str());
                assert(m@ =~= call_failed_text(name@, url@, error@));
                DownloadNext::Fail { error: SpmError::Network(m) }
            }
        },
        DownloadEvent::ReadFailed { error } => {
            if attempt < MAX_ATTEMPTS {
                DownloadNext::Attempt { attempt: attempt + 1, offset }
            } else {
                let mut m = String::new();
                push_str(&mut m, "Read error for '");
                push_str(&mut m, name);
                push_str(&mut m, "' after ");
                push_decimal(&mut m, attempt as u64);
                push_str(&mut m, " attempts: ");
                push_str(&mut m, error.as_str());
                assert(m@ =~= read_failed_text(name@, attempt as nat, error@));
                DownloadNext::Fail { error: SpmError::Network(m) }
            }
        },
        DownloadEvent::Finished { status, written } => {
            let base = if status == 206 {
                offset
            } else {
                0
            };
            DownloadNext::Done { size: base + written }
        },
    }
}

/// A download never makes a request past the third: from any request
/// (the first to the third) the next one, if any, is the one after it and
/// is at most the third.
pub proof fn law_download_attempts_bounded(attempt: nat, offset: nat, event: DownloadEvent, name: Seq<char>, url: Seq<char>)
    requires
        1 <= attempt <= 3,
    ensures
        ({
            let (a, o, err, size) = next_step(attempt, offset, event, name, url);
            (err is None && size is None) ==> (a == attempt + 1 && a <= 3)
        }),
{
}

/// A refused range starts over from the first byte; other failures keep
/// what is on disk.
pub proof fn law_refused_range_restarts(attempt: nat, offset: nat, event: DownloadEvent, name: Seq<char>, url: Seq<char>)
    requires
        1 <= attempt < 3,
    ensures
        ({
            let (a, o, err, size) = next_step(attempt, offset, event, name, url);
            &&& event is RangeRefused ==> o == 0
            &&& (event is CallFailed || event is ReadFailed) ==> o == offset
        }),
{
}

// ---------------------------------------------------------------------------
// Cached .deb files
// ---------------------------------------------------------------------------

/// A file of the download cache holds a `.deb` of package `name`:
/// `<name>_….deb`.
pub open spec fn is_cached_deb(file_name: Seq<char>, name: Seq<char>) -> bool {
    starts_with(file_name, name + seq!['_']) && ends_with(file_name, ".deb"@)
}

pub open spec fn not_in_cache_text(name: Seq<char>) -> Seq<char> {
    "Deb package for '"@ + name + "' not found in cache"@
}

/// The first of the cache's files (in the order listed) that is a `.deb`
/// of `name`.
pub fn find_cached_deb(file_names: &Vec<String>, name: &str) -> (r: Result<usize, SpmError>)
    ensures
        match r {
            Ok(i) => i < file_names@.len() && is_cached_deb(file_names@[i as int]@, name@) && forall|j: int|
                0 <= j < i ==> !is_cached_deb(#[trigger] file_names@[j]@, name@),
            Err(e) => (e matches SpmError::Other(m) && m@ == not_in_cache_text(name@)) && forall|j: int|
                0 <= j < file_names@.len() ==> !is_cached_deb(#[trigger] file_names@[j]@, name@),
        },
{
    let mut prefix = String::new();
    push_str(&mut prefix, name);
    prefix.push('_');
    assert(prefix@ =~= name@ + seq!['_']);
    let mut i: usize = 0;
    while i < file_names.len()
        invariant
            i <= file_names@.len(),
            prefix@ == name@ + seq!['_'],
            forall|j: int| 0 <= j < i ==> !is_cached_deb(#[trigger] file_names@[j]@, name@),
        decreases file_names.len() - i,
    {
        let v = chars_of(file_names[i].as_str());
        proof {
            assert(v@.subrange(0, v@.len() as int) =~= file_names@[i as int]@);
        }
        if starts_with_str(&v, 0, v.len(), prefix.as_str()) && crate::text::ends_with_str(&v, 0, v.len(), ".deb") {
            return Ok(i);
        }
        i += 1;
    }
    let mut m = String::new();
    push_str(&mut m, "Deb package for '");
    push_str(&mut m, name);
    push_str(&mut m, "' not found in cache");
    assert(m@ =~= not_in_cache_text(name@));
    Err(SpmError::Other(m))
}

} // verus!
