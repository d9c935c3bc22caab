//! RPM-MD repository metadata: `repomd.xml` and `primary.xml`, read line by
//! line.
use vstd::prelude::*;
use crate::error::{message, SpmError};
use crate::text::{
    between, between_range, chars_of, find, find_char, find_str, idx_of, lines, next_line,
    push_range, starts_with, starts_with_str, str_eq, string_of, trim, trim_range, Step,
};

use crate::util::hash::{hex_text, sha256_digest, sha256_hex};
use crate::package::extract::codec::{decoded_text_ok, gz_to_text, gzip_decode, text_of};

verus! {

// ---------------------------------------------------------------------------
// Attributes
// ---------------------------------------------------------------------------

/// The value of attribute `attr` in a tag like `<foo bar="val">`: the text
/// between the first `attr="` and the next `"`, or empty.
pub open spec fn attr_value(tag: Seq<char>, attr: Seq<char>) -> Seq<char> {
    let pat = attr + seq!['=', '"'];
    match find(tag, pat) {
        Some(st) => {
            let rest = tag.skip(st + pat.len());
            let e = idx_of(rest, '"');
            if e < rest.len() {
                rest.take(e as int)
            } else {
                Seq::empty()
            }
        },
        None => Seq::empty(),
    }
}

/// The range of `attr_value(v[lo..hi], attr)`.
#[verifier::rlimit(40)]
fn attr_range(v: &Vec<char>, lo: usize, hi: usize, attr: &str) -> (r: (usize, usize))
    requires
        lo <= hi <= v.len(),
    ensures
        lo <= r.0 <= r.1 <= hi,
        v@.subrange(r.0 as int, r.1 as int) == attr_value(v@.subrange(lo as int, hi as int), attr@),
{
    let ghost s = v@.subrange(lo as int, hi as int);
    let mut pat = chars_of(attr);
    pat.push('=');
    pat.push('"');
    let ghost pv = attr@ + seq!['=', '"'];
    assert(pat@ =~= pv);
    match find_str(v, lo, hi, pat.as_slice()) {
        Some(st) => {
            let vs = st + pat.len();
            let e = find_char(v, vs, hi, '"');
            proof {
                assert(s.skip(st - lo + pv.len()) =~= v@.subrange(vs as int, hi as int));
            }
            if e < hi {
                proof {
                    assert(v@.subrange(vs as int, hi as int).take(e - vs) =~= v@.subrange(vs as int, e as int));
                }
                (vs, e)
            } else {
                assert(v@.subrange(lo as int, lo as int) =~= Seq::<char>::empty());
                (lo, lo)
            }
        },
        None => {
            assert(v@.subrange(lo as int, lo as int) =~= Seq::<char>::empty());
            (lo, lo)
        },
    }
}

/// The value of attribute `attr` of the XML tag `tag`.
pub fn extract_attr(tag: &str, attr: &str) -> (r: String)
    ensures
        r@ == attr_value(tag@, attr@),
{
    let v = chars_of(tag);
    proof {
        assert(v@.subrange(0, v@.len() as int) =~= tag@);
    }
    let (a, b) = attr_range(&v, 0, v.len(), attr);
    string_of(&v, a, b)
}

/// The text of a `<checksum ...>text</checksum>` line: between the first `>`
/// and the next `<`, when both are there.
pub open spec fn tag_text(t: Seq<char>) -> Option<Seq<char>> {
    let ts = idx_of(t, '>');
    if ts < t.len() {
        let after = t.skip((ts + 1) as int);
        let te = idx_of(after, '<');
        if te < after.len() {
            Some(after.take(te as int))
        } else {
            None
        }
    } else {
        None
    }
}

/// The text after the first `>` of `t`, if it has one.
pub open spec fn after_tag(t: Seq<char>) -> Option<Seq<char>> {
    let ts = idx_of(t, '>');
    if ts < t.len() {
        Some(t.skip((ts + 1) as int))
    } else {
        None
    }
}

// ---------------------------------------------------------------------------
// repomd.xml
// ---------------------------------------------------------------------------

/// What the repomd reader holds between lines.
pub struct RepomdScan {
    pub in_data: bool,
    pub kind: Seq<char>,
    pub location: Seq<char>,
    pub checksum: Seq<char>,
    pub checksum_type: Seq<char>,
    pub in_checksum: bool,
}

pub open spec fn repomd_start() -> RepomdScan {
    RepomdScan {
        in_data: false,
        kind: Seq::empty(),
        location: Seq::empty(),
        checksum: Seq::empty(),
        checksum_type: Seq::empty(),
        in_checksum: false,
    }
}

/// The checksum after a `<checksum ...>` line.
pub open spec fn checksum_line(cs: Seq<char>, t: Seq<char>) -> Seq<char> {
    match after_tag(t) {
        Some(after) => {
            let te = idx_of(after, '<');
            if te < after.len() {
                after.take(te as int)
            } else if after.len() > 0 {
                cs + after
            } else {
                cs
            }
        },
        None => cs,
    }
}

/// One trimmed line `t` of `repomd.xml`.
pub open spec fn repomd_step(st: RepomdScan, t: Seq<char>) -> Step<RepomdScan, (Seq<char>, Seq<char>, Seq<char>)> {
    if starts_with(t, "<data type="@) {
        Step::Go(RepomdScan { in_data: true, kind: attr_value(t, "type"@), ..st })
    } else if starts_with(t, "</data>"@) {
        if st.in_data && st.kind == "primary"@ {
            Step::Stop((st.location, st.checksum, st.checksum_type))
        } else {
            Step::Go(
                RepomdScan {
                    in_data: false,
                    kind: Seq::empty(),
                    location: Seq::empty(),
                    checksum: Seq::empty(),
                    checksum_type: Seq::empty(),
                    ..st
                },
            )
        }
    } else if !st.in_data {
        Step::Go(st)
    } else if starts_with(t, "<location"@) {
        Step::Go(RepomdScan { location: attr_value(t, "href"@), ..st })
    } else if starts_with(t, "<checksum"@) {
        Step::Go(
            RepomdScan {
                in_checksum: true,
                checksum_type: attr_value(t, "type"@),
                checksum: checksum_line(st.checksum, t),
                ..st
            },
        )
    } else if starts_with(t, "</checksum>"@) {
        Step::Go(RepomdScan { in_checksum: false, ..st })
    } else if st.in_checksum && !starts_with(t, seq!['<']) {
        Step::Go(RepomdScan { checksum: st.checksum + t, ..st })
    } else {
        Step::Go(st)
    }
}

/// The `(location, checksum, checksum type)` of the `primary` data entry
/// among the lines `ls`, reading from state `st`.
pub open spec fn repomd_search(st: RepomdScan, ls: Seq<Seq<char>>) -> Option<(Seq<char>, Seq<char>, Seq<char>)>
    decreases ls.len(),
{
    if ls.len() == 0 {
        None
    } else {
        match repomd_step(st, trim(ls[0])) {
            Step::Stop(r) => Some(r),
            Step::Go(s2) => repomd_search(s2, ls.drop_first()),
        }
    }
}

/// Appends the checksum text of the `<checksum ...>` line `v[a..b]`.
fn checksum_update(cs: &mut String, v: &Vec<char>, a: usize, b: usize, replace_only: bool)
    requires
        a <= b <= v.len(),
    ensures
        !replace_only ==> final(cs)@ == checksum_line(old(cs)@, v@.subrange(a as int, b as int)),
        replace_only ==> final(cs)@ == match tag_text(v@.subrange(a as int, b as int)) {
            Some(x) => x,
            None => old(cs)@,
        },
{
    let ghost t = v@.subrange(a as int, b as int);
    let ts = find_char(v, a, b, '>');
    if ts < b {
        let te = find_char(v, ts + 1, b, '<');
        proof {
            assert(t.skip(ts - a + 1) =~= v@.subrange(ts + 1, b as int));
        }
        if te < b {
            proof {
                assert(v@.subrange(ts + 1, b as int).take(te - ts - 1) =~= v@.subrange(ts + 1, te as int));
            }
            *cs = string_of(v, ts + 1, te);
        } else if !replace_only && ts + 1 < b {
            push_range(cs, v, ts + 1, b);
        }
    }
}

/// Whether the text `v[a..b]` starts with `<`.
fn starts_with_lt(v: &Vec<char>, a: usize, b: usize) -> (r: bool)
    requires
        a <= b <= v.len(),
    ensures
        r == starts_with(v@.subrange(a as int, b as int), seq!['<']),
{
    if a < b && v[a] == '<' {
        assert(v@.subrange(a as int, b as int).take(1) =~= seq!['<']);
        true
    } else {
        if a < b {
            assert(v@.subrange(a as int, b as int).take(1)[0] == v@[a as int]);
        }
        false
    }
}

/// The repomd reader's state.
struct RepomdState {
    in_data: bool,
    kind: String,
    location: String,
    checksum: String,
    checksum_type: String,
    in_checksum: bool,
}

impl View for RepomdState {
    type V = RepomdScan;

    closed spec fn view(&self) -> RepomdScan {
        RepomdScan {
            in_data: self.in_data,
            kind: self.kind@,
            location: self.location@,
            checksum: self.checksum@,
            checksum_type: self.checksum_type@,
            in_checksum: self.in_checksum,
        }
    }
}

/// Reads the trimmed line `v[a..b]`; `true` when the primary entry is
/// complete.
fn repomd_line(st: &mut RepomdState, v: &Vec<char>, a: usize, b: usize) -> (stop: bool)
    requires
        a <= b <= v.len(),
    ensures
        match repomd_step(old(st)@, v@.subrange(a as int, b as int)) {
            Step::Stop(r) => stop && final(st)@ == old(st)@ && r == (
                old(st)@.location,
                old(st)@.checksum,
                old(st)@.checksum_type,
            ),
            Step::Go(s2) => !stop && final(st)@ == s2,
        },
{
    if starts_with_str(v, a, b, "<data type=") {
        st.in_data = true;
        let (x, y) = attr_range(v, a, b, "type");
        st.kind = string_of(v, x, y);
        false
    } else if starts_with_str(v, a, b, "</data>") {
        if st.in_data && str_eq(st.kind.as_str(), "primary") {
            return true;
        }
        st.in_data = false;
        st.kind = String::new();
        st.location = String::new();
        st.checksum = String::new();
        st.checksum_type = String::new();
        false
    } else if !st.in_data {
        false
    } else if starts_with_str(v, a, b, "<location") {
        let (x, y) = attr_range(v, a, b, "href");
        st.location = string_of(v, x, y);
        false
    } else if starts_with_str(v, a, b, "<checksum") {
        st.in_checksum = true;
        let (x, y) = attr_range(v, a, b, "type");
        st.checksum_type = string_of(v, x, y);
        checksum_update(&mut st.checksum, v, a, b, false);
        false
    } else if starts_with_str(v, a, b, "</checksum>") {
        st.in_checksum = false;
        false
    } else if st.in_checksum && !starts_with_lt(v, a, b) {
        push_range(&mut st.checksum, v, a, b);
        false
    } else {
        false
    }
}

/// Finds the location and checksum of `primary.xml` in a `repomd.xml`.
pub fn parse_repomd(body: &str) -> (r: Result<(String, String, String), SpmError>)
    ensures
        match repomd_search(repomd_start(), lines(body@)) {
            Some((l, c, t)) => r matches Ok((l2, c2, t2)) && l2@ == l && c2@ == c && t2@ == t,
            None => r matches Err(SpmError::Other(_)),
        },
{
    let v = chars_of(body);
    let n = v.len();
    let mut st = RepomdState {
        in_data: false,
        kind: String::new(),
        location: String::new(),
        checksum: String::new(),
        checksum_type: String::new(),
        in_checksum: false,
    };
    let ghost goal = repomd_search(repomd_start(), lines(body@));
    let mut pos: usize = 0;
    proof {
        assert(v@.skip(0) =~= body@);
        assert(st@ == repomd_start());
    }
    while pos < n
        invariant
            pos <= n == v.len(),
            v@ == body@,
            goal == repomd_search(repomd_start(), lines(body@)),
            goal == repomd_search(st@, lines(v@.skip(pos as int))),
        decreases n - pos,
    {
        let ghost ls = lines(v@.skip(pos as int));
        let (e, nx) = next_line(&v, pos);
        let (a, b) = trim_range(&v, pos, e);
        proof {
            assert(ls[0] == v@.subrange(pos as int, e as int));
            assert(ls.drop_first() =~= lines(v@.skip(nx as int)));
        }
        if repomd_line(&mut st, &v, a, b) {
            return Ok((st.location, st.checksum, st.checksum_type));
        }
        pos = nx;
    }
    proof {
        assert(v@.skip(n as int) =~= Seq::<char>::empty());
        assert(lines(v@.skip(n as int)) =~= Seq::<Seq<char>>::empty());
    }
    Err(SpmError::Other(message("primary.xml.gz not found in repomd.xml")))
}

// ---------------------------------------------------------------------------
// primary.xml
// ---------------------------------------------------------------------------

/// Where a package is in an RPM-MD repository, from `primary.xml`.
#[derive(Debug, Clone)]
pub struct PrimaryInfo {
    pub location: String,
    pub checksum: String,
    pub checksum_type: String,
    pub version: String,
    pub arch: String,
}

/// What the primary reader holds between lines.
pub struct PrimaryScan {
    pub in_package: bool,
    pub matched: bool,
    pub location: Seq<char>,
    pub checksum: Seq<char>,
    pub checksum_type: Seq<char>,
    pub version: Seq<char>,
    pub arch: Seq<char>,
    pub in_checksum: bool,
}

pub open spec fn primary_start() -> PrimaryScan {
    PrimaryScan {
        in_package: false,
        matched: false,
        location: Seq::empty(),
        checksum: Seq::empty(),
        checksum_type: Seq::empty(),
        version: Seq::empty(),
        arch: Seq::empty(),
        in_checksum: false,
    }
}

/// The found entry: `(location, checksum, checksum type, version, arch)`.
pub type PrimaryFound = (Seq<char>, Seq<char>, Seq<char>, Seq<char>, Seq<char>);

/// One trimmed line `t` of `primary.xml`, looking for package `name`.
pub open spec fn primary_step(st: PrimaryScan, t: Seq<char>, name: Seq<char>) -> Step<PrimaryScan, PrimaryFound> {
    if !st.in_package && starts_with(t, "<package"@) {
        Step::Go(
            PrimaryScan {
                in_package: true,
                matched: false,
                location: Seq::empty(),
                checksum: Seq::empty(),
                checksum_type: Seq::empty(),
                version: Seq::empty(),
                arch: Seq::empty(),
                ..st
            },
        )
    } else if st.in_package && starts_with(t, "</package>"@) {
        if st.matched && st.location.len() > 0 {
            Step::Stop((st.location, st.checksum, st.checksum_type, st.version, st.arch))
        } else {
            Step::Go(PrimaryScan { in_package: false, ..st })
        }
    } else if !st.in_package {
        Step::Go(st)
    } else if starts_with(t, "<name>"@) {
        if between(t, "<name>"@, "</name>"@) == name {
            Step::Go(PrimaryScan { matched: true, ..st })
        } else {
            Step::Go(st)
        }
    } else if starts_with(t, "<location"@) {
        let href = attr_value(t, "href"@);
        if href.len() > 0 {
            Step::Go(PrimaryScan { location: href, ..st })
        } else {
            Step::Go(st)
        }
    } else if starts_with(t, "<version"@) {
        Step::Go(PrimaryScan { version: attr_value(t, "ver"@), ..st })
    } else if starts_with(t, "<arch>"@) {
        Step::Go(PrimaryScan { arch: between(t, "<arch>"@, "</arch>"@), ..st })
    } else if starts_with(t, "<checksum"@) {
        Step::Go(
            PrimaryScan {
                in_checksum: true,
                checksum_type: attr_value(t, "type"@),
                checksum: match tag_text(t) {
                    Some(x) => x,
                    None => st.checksum,
                },
                ..st
            },
        )
    } else if starts_with(t, "</checksum>"@) {
        Step::Go(PrimaryScan { in_checksum: false, ..st })
    } else if st.in_checksum && !starts_with(t, seq!['<']) {
        Step::Go(PrimaryScan { checksum: st.checksum + t, ..st })
    } else {
        Step::Go(st)
    }
}

/// The entry of package `name` among the lines `ls`, reading from `st`.
pub open spec fn primary_search(st: PrimaryScan, ls: Seq<Seq<char>>, name: Seq<char>) -> Option<PrimaryFound>
    decreases ls.len(),
{
    if ls.len() == 0 {
        None
    } else {
        match primary_step(st, trim(ls[0]), name) {
            Step::Stop(r) => Some(r),
            Step::Go(s2) => primary_search(s2, ls.drop_first(), name),
        }
    }
}

/// The primary reader's state.
struct PrimaryState {
    in_package: bool,
    matched: bool,
    location: String,
    checksum: String,
    checksum_type: String,
    version: String,
    arch: String,
    in_checksum: bool,
}

impl View for PrimaryState {
    type V = PrimaryScan;

    closed spec fn view(&self) -> PrimaryScan {
        PrimaryScan {
            in_package: self.in_package,
            matched: self.matched,
            location: self.location@,
            checksum: self.checksum@,
            checksum_type: self.checksum_type@,
            version: self.version@,
            arch: self.arch@,
            in_checksum: self.in_checksum,
        }
    }
}

/// Reads the trimmed line `v[a..b]`; `true` when the package is found.
fn primary_line(st: &mut PrimaryState, v: &Vec<char>, a: usize, b: usize, name: &str) -> (stop: bool)
    requires
        a <= b <= v.len(),
    ensures
        match primary_step(old(st)@, v@.subrange(a as int, b as int), name@) {
            Step::Stop(r) => stop && final(st)@ == old(st)@ && r == (
                old(st)@.location,
                old(st)@.checksum,
                old(st)@.checksum_type,
                old(st)@.version,
                old(st)@.arch,
            ),
            Step::Go(s2) => !stop && final(st)@ == s2,
        },
{
    if !st.in_package && starts_with_str(v, a, b, "<package") {
        st.in_package = true;
        st.matched = false;
        st.location = String::new();
        st.checksum = String::new();
        st.checksum_type = String::new();
        st.version = String::new();
        st.arch = String::new();
        false
    } else if st.in_package && starts_with_str(v, a, b, "</package>") {
        if st.matched && !st.location.as_str().is_empty() {
            return true;
        }
        st.in_package = false;
        false
    } else if !st.in_package {
        false
    } else if starts_with_str(v, a, b, "<name>") {
        let (x, y) = between_range(v, a, b, "<name>", "</name>");
        let w = chars_of(name);
        if crate::text::same(v, x, y, w.as_slice()) {
            st.matched = true;
        }
        false
    } else if starts_with_str(v, a, b, "<location") {
        let (x, y) = attr_range(v, a, b, "href");
        if x < y {
            st.location = string_of(v, x, y);
        }
        false
    } else if starts_with_str(v, a, b, "<version") {
        let (x, y) = attr_range(v, a, b, "ver");
        st.version = string_of(v, x, y);
        false
    } else if starts_with_str(v, a, b, "<arch>") {
        let (x, y) = between_range(v, a, b, "<arch>", "</arch>");
        st.arch = string_of(v, x, y);
        false
    } else if starts_with_str(v, a, b, "<checksum") {
        st.in_checksum = true;
        let (x, y) = attr_range(v, a, b, "type");
        st.checksum_type = string_of(v, x, y);
        checksum_update(&mut st.checksum, v, a, b, true);
        false
    } else if starts_with_str(v, a, b, "</checksum>") {
        st.in_checksum = false;
        false
    } else if st.in_checksum && !starts_with_lt(v, a, b) {
        push_range(&mut st.checksum, v, a, b);
        false
    } else {
        false
    }
}

/// Finds package `pkg_name` in the text of `primary.xml`.
pub fn parse_primary_for_package(body: &str, pkg_name: &str) -> (r: Result<PrimaryInfo, SpmError>)
    ensures
        match primary_search(primary_start(), lines(body@), pkg_name@) {
            Some((l, c, t, ver, ar)) => r matches Ok(info) && info.location@ == l && info.checksum@ == c
                && info.checksum_type@ == t && info.version@ == ver && info.arch@ == ar,
            None => r matches Err(SpmError::PackageNotFound(_)),
        },
{
    let v = chars_of(body);
    let n = v.len();
    let mut st = PrimaryState {
        in_package: false,
        matched: false,
        location: String::new(),
        checksum: String::new(),
        checksum_type: String::new(),
        version: String::new(),
        arch: String::new(),
        in_checksum: false,
    };
    let ghost goal = primary_search(primary_start(), lines(body@), pkg_name@);
    let mut pos: usize = 0;
    proof {
        assert(v@.skip(0) =~= body@);
        assert(st@ == primary_start());
    }
    while pos < n
        invariant
            pos <= n == v.len(),
            v@ == body@,
            goal == primary_search(primary_start(), lines(body@), pkg_name@),
            goal == primary_search(st@, lines(v@.skip(pos as int)), pkg_name@),
        decreases n - pos,
    {
        let ghost ls = lines(v@.skip(pos as int));
        let (e, nx) = next_line(&v, pos);
        let (a, b) = trim_range(&v, pos, e);
        proof {
            assert(ls[0] == v@.subrange(pos as int, e as int));
            assert(ls.drop_first() =~= lines(v@.skip(nx as int)));
        }
        if primary_line(&mut st, &v, a, b, pkg_name) {
            return Ok(
                PrimaryInfo {
                    location: st.location,
                    checksum: st.checksum,
                    checksum_type: st.checksum_type,
                    version: st.version,
                    arch: st.arch,
                },
            );
        }
        pos = nx;
    }
    proof {
        assert(v@.skip(n as int) =~= Seq::<char>::empty());
        assert(lines(v@.skip(n as int)) =~= Seq::<Seq<char>>::empty());
    }
    let mut msg = message("Package '");
    crate::text::push_str(&mut msg, pkg_name);
    crate::text::push_str(&mut msg, "' not found in RPM-MD repository metadata");
    Err(SpmError::PackageNotFound(msg))
}


pub open spec fn sha_mismatch_text(expected: Seq<char>, actual: Seq<char>) -> Seq<char> {
    "SHA256 mismatch: expected "@ + expected + ", got "@ + actual
}

/// Checks `data` against the hexadecimal SHA-256 checksum `expected`.
pub fn verify_sha256(data: &[u8], expected: &str) -> (r: Result<(), SpmError>)
    ensures
        r is Ok <==> hex_text(sha256_digest(data@)) == expected@,
        r is Err ==> (r matches Err(SpmError::Other(m)) && m@ == sha_mismatch_text(
            expected@,
            hex_text(sha256_digest(data@)),
        )),
{
    let actual = sha256_hex(data);
    if str_eq(actual.as_str(), expected) {
        return Ok(());
    }
    let mut m = message("SHA256 mismatch: expected ");
    crate::text::push_str(&mut m, expected);
    crate::text::push_str(&mut m, ", got ");
    crate::text::push_str(&mut m, actual.as_str());
    assert(m@ =~= sha_mismatch_text(expected@, actual@));
    Err(SpmError::Other(m))
}


/// The largest gzip body read from a repository: 64 MiB.
pub const MAX_GZ_BODY: usize = 67108864;

pub open spec fn too_large_response_text(url: Seq<char>) -> Seq<char> {
    "Response too large for "@ + url
}

/// The text of a gzip file downloaded from `url`: refused above 64 MiB,
/// else decompressed and read as UTF-8.
pub fn gz_text(body: &[u8], url: &str) -> (r: Result<String, SpmError>)
    ensures
        body@.len() > MAX_GZ_BODY ==> (r matches Err(SpmError::Network(m)) && m@ == too_large_response_text(url@)),
        body@.len() <= MAX_GZ_BODY ==> decoded_text_ok(gzip_decode(body@), "Failed to decompress "@ + url@ + ": "@, r),
{
    if body.len() > MAX_GZ_BODY {
        let mut m = message("Response too large for ");
        crate::text::push_str(&mut m, url);
        return Err(SpmError::Network(m));
    }
    let mut prefix = message("Failed to decompress ");
    crate::text::push_str(&mut prefix, url);
    crate::text::push_str(&mut prefix, ": ");
    gz_to_text(body, prefix.as_str())
}

/// The entry of `pkg_name` in a downloaded `primary.xml.gz`.
pub fn primary_package(primary_gz: &[u8], pkg_name: &str) -> (r: Result<PrimaryInfo, SpmError>)
    ensures
        match gzip_decode(primary_gz@) {
            None => r matches Err(SpmError::Compression(_)),
            Some(b) => match text_of(b) {
                None => r matches Err(SpmError::Compression(_)),
                Some(t) => match primary_search(primary_start(), lines(t), pkg_name@) {
                    Some((l, c, ty, ver, ar)) => r matches Ok(info) && info.location@ == l && info.checksum@ == c
                        && info.checksum_type@ == ty && info.version@ == ver && info.arch@ == ar,
                    None => r matches Err(SpmError::PackageNotFound(_)),
                },
            },
        },
        r matches Err(SpmError::Compression(m)) ==> starts_with(m@, "Failed to decompress primary.xml: "@),
{
    match gz_to_text(primary_gz, "Failed to decompress primary.xml: ") {
        Ok(text) => parse_primary_for_package(text.as_str(), pkg_name),
        Err(e) => {
            proof {
                if let SpmError::Compression(ref m) = e {
                    if m@.len() >= "Failed to decompress primary.xml: "@.len() {
                        assert(m@.take("Failed to decompress primary.xml: "@.len() as int) =~= "Failed to decompress primary.xml: "@);
                    }
                }
            }
            Err(e)
        },
    }
}

pub open spec fn wrong_version_text(name: Seq<char>, wanted: Seq<char>, found: Seq<char>) -> Seq<char> {
    "Package '"@ + name + "' version "@ + wanted + " not found in repo (found version "@ + found + seq![')']
}

/// Refuses the entry found for `name` when a version was asked for and
/// the entry has another.
pub fn check_primary_version(name: &str, version: Option<&str>, info: &PrimaryInfo) -> (r: Result<(), SpmError>)
    ensures
        match version {
            None => r is Ok,
            Some(v) => if info.version@ == v@ {
                r is Ok
            } else {
                r matches Err(SpmError::PackageNotFound(m)) && m@ == wrong_version_text(name@, v@, info.version@)
            },
        },
{
    match version {
        None => Ok(()),
        Some(v) => {
            if str_eq(info.version.as_str(), v) {
                Ok(())
            } else {
                let mut m = message("Package '");
                crate::text::push_str(&mut m, name);
                crate::text::push_str(&mut m, "' version ");
                crate::text::push_str(&mut m, v);
                crate::text::push_str(&mut m, " not found in repo (found version ");
                crate::text::push_str(&mut m, info.version.as_str());
                m.push(')');
                Err(SpmError::PackageNotFound(m))
            }
        },
    }
}

/// The URL of an RPM at `location` of a repository at `base`.
pub fn rpm_location_url(base: &str, location: &str) -> (r: String)
    ensures
        location@.len() > 0 && location@[0] == '/' ==> r@ == base@ + location@,
        !(location@.len() > 0 && location@[0] == '/') ==> r@ == base@ + seq!['/'] + location@,
{
    let v = chars_of(location);
    let mut r = String::new();
    crate::text::push_str(&mut r, base);
    if v.len() > 0 && v[0] == '/' {
        crate::text::push_str(&mut r, location);
    } else {
        r.push('/');
        crate::text::push_str(&mut r, location);
    }
    assert(!(location@.len() > 0 && location@[0] == '/') ==> r@ =~= base@ + seq!['/'] + location@);
    assert(location@.len() > 0 && location@[0] == '/' ==> r@ =~= base@ + location@);
    r
}

/// The URL of the `primary.xml` that `repomd.xml` lists at `path`, for a
/// repository at `base`: an absolute path follows `base` directly, a path
/// under `repodata/` follows it after a `/`, any other path lies under
/// `base/repodata/`.
pub open spec fn primary_url_text(base: Seq<char>, path: Seq<char>) -> Seq<char> {
    if starts_with(path, "/"@) {
        base + path
    } else if starts_with(path, "repodata/"@) {
        base + seq!['/'] + path
    } else {
        base + "/repodata/"@ + path
    }
}

pub fn primary_url(base: &str, path: &str) -> (r: String)
    ensures
        r@ == primary_url_text(base@, path@),
{
    let mut r = String::new();
    crate::text::push_str(&mut r, base);
    if crate::text::text_starts_with(path, "/") {
    } else if crate::text::text_starts_with(path, "repodata/") {
        r.push('/');
    } else {
        crate::text::push_str(&mut r, "/repodata/");
    }
    crate::text::push_str(&mut r, path);
    r
}

} // verus!
