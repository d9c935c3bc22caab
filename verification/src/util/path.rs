//! Paths as text.
use vstd::prelude::*;
use crate::text::{chars_of, push_str, split};

verus! {

/// `PathBuf::join` for a path `b` that is relative: `a/b`, with no second
/// separator when `a` already ends with one; an absolute `b` replaces `a`.
pub open spec fn path_join(a: Seq<char>, b: Seq<char>) -> Seq<char> {
    if b.len() > 0 && b[0] == '/' {
        b
    } else if a.len() == 0 {
        b
    } else if a.last() == '/' {
        a + b
    } else {
        a + seq!['/'] + b
    }
}

/// `a` joined with `b`.
pub fn join(a: &str, b: &str) -> (r: String)
    ensures
        r@ == path_join(a@, b@),
{
    let va = chars_of(a);
    let vb = chars_of(b);
    let mut r = String::new();
    if vb.len() > 0 && vb[0] == '/' {
        push_str(&mut r, b);
    } else if va.len() == 0 {
        push_str(&mut r, b);
    } else if va[va.len() - 1] == '/' {
        push_str(&mut r, a);
        push_str(&mut r, b);
    } else {
        push_str(&mut r, a);
        r.push('/');
        push_str(&mut r, b);
    }
    assert(r@ =~= path_join(a@, b@));
    r
}

/// Whether a file exists at `p` (`Path::exists`).  It depends on the disk:
/// nothing is stated of the result.
#[verifier::external_body]
pub fn path_exists(p: &str) -> (r: bool) {
    std::path::Path::new(p).exists()
}

/// The pieces of `p` that name something: its `/`-separated pieces
/// without the empty ones (repeated and trailing separators) and without
/// `.` (which `Path::components` normalizes away).
pub open spec fn named_pieces(p: Seq<char>) -> Seq<Seq<char>> {
    split(p, '/').filter(|x: Seq<char>| x.len() > 0 && x != "."@)
}

/// `Path::file_name`: the final component when it is a name; `None` when
/// the path ends in `..` or has no named component (`""`, `/`, `.`).
pub open spec fn file_name_of(p: Seq<char>) -> Option<Seq<char>> {
    let ps = named_pieces(p);
    if ps.len() == 0 || ps.last() == ".."@ {
        None
    } else {
        Some(ps.last())
    }
}

/// `Path::file_name` of `p`, as its documentation describes it: the
/// final component of the path after `Path::components` drops repeated
/// and trailing separators and `.`, or `None` when that component is `..`
/// or there is none.
#[verifier::external_body]
pub fn file_name(p: &str) -> (r: Option<String>)
    ensures
        match file_name_of(p@) {
            Some(n) => r matches Some(s) && s@ == n,
            None => r is None,
        },
{
    std::path::Path::new(p).file_name().map(|n| n.to_string_lossy().to_string())
}

} // verus!
