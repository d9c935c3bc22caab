//! RPM files: the lead, the index headers, the tags of the main header and
//! the CPIO archive of the payload.
//!
//! An RPM file is a 96-byte lead, a signature header, the main header and
//! the compressed payload.  Each header starts with 16 bytes whose last
//! eight hold, big-endian, the number of index entries and the size of the
//! data store; the entries (16 bytes each) follow, then the store, padded
//! to a multiple of eight.
use vstd::prelude::*;
use vstd::string::StrSliceExecFns;
use crate::error::SpmError;
use crate::package::extract::codec::{gunzip, gzip_decode, unzstd, zstd_decode};
use crate::package::store::{has_parent_component, sanitize_relative, traversal_text};
use crate::util::path::{join, path_join};
use crate::text::{owned, chars_of, decimal, push_decimal, push_signed_decimal, push_str, signed_decimal, starts_with_str, str_eq, strings_view, utf8_lossy};
use crate::types::package::{deps_view, Dependency, DependencySource, DependencyView, Package, PackageFormat, PackageView};

verus! {

// ---------------------------------------------------------------------------
// Big-endian integers
// ---------------------------------------------------------------------------

/// The big-endian `u32` at `p`.
pub open spec fn be32(s: Seq<u8>, p: int) -> nat {
    (s[p] as nat) * 0x1000000 + (s[p + 1] as nat) * 0x10000 + (s[p + 2] as nat) * 0x100 + (s[p + 3] as nat)
}

/// The big-endian `i32` at `p` (two's complement).
pub open spec fn be_i32(s: Seq<u8>, p: int) -> int {
    if be32(s, p) >= 0x8000_0000 {
        be32(s, p) - 0x1_0000_0000
    } else {
        be32(s, p) as int
    }
}

/// `u32::from_be_bytes` of `s[p..p + 4]`.
pub fn read_be32(s: &[u8], p: usize) -> (r: u32)
    requires
        p + 4 <= s@.len(),
    ensures
        r == be32(s@, p as int),
{
    (s[p] as u32) * 0x1000000 + (s[p + 1] as u32) * 0x10000 + (s[p + 2] as u32) * 0x100 + (s[p + 3] as u32)
}

/// `i32::from_be_bytes` of `s[p..p + 4]`.
pub fn read_be_i32(s: &[u8], p: usize) -> (r: i32)
    requires
        p + 4 <= s@.len(),
    ensures
        r == be_i32(s@, p as int),
{
    let u = read_be32(s, p);
    if u >= 0x8000_0000 {
        ((u - 0x8000_0000) as i32) - 0x4000_0000 - 0x4000_0000
    } else {
        u as i32
    }
}

// ---------------------------------------------------------------------------
// Lead and index headers
// ---------------------------------------------------------------------------

/// The file starts with the RPM magic `ed ab ee db`.
pub open spec fn has_rpm_magic(d: Seq<u8>) -> bool {
    d.len() >= 4 && d[0] == 0xed && d[1] == 0xab && d[2] == 0xee && d[3] == 0xdb
}

pub fn rpm_magic_ok(d: &[u8]) -> (b: bool)
    ensures
        b == has_rpm_magic(d@),
{
    d.len() >= 4 && d[0] == 0xed && d[1] == 0xab && d[2] == 0xee && d[3] == 0xdb
}

/// Refuses data without the RPM magic.
pub fn check_rpm_magic(d: &[u8]) -> (r: Result<(), SpmError>)
    ensures
        r is Ok <==> has_rpm_magic(d@),
        r is Err ==> (r matches Err(SpmError::InvalidFormat(m)) && m@ == "Invalid .rpm file: bad magic"@),
{
    if rpm_magic_ok(d) {
        Ok(())
    } else {
        Err(SpmError::InvalidFormat(crate::error::message("Invalid .rpm file: bad magic")))
    }
}

/// A header with more than 65536 entries or a store of more than 4 MiB is
/// refused.
pub open spec fn header_too_large(nindex: nat, hsize: nat) -> bool {
    nindex > 65536 || hsize > 4 * 1024 * 1024
}

/// The bytes that follow the 16-byte header start: the entries and the
/// store, rounded up to a multiple of eight.
pub open spec fn store_size(nindex: nat, hsize: nat) -> nat {
    ((nindex * 16 + hsize + 7) / 8 * 8) as nat
}

pub open spec fn too_large_text(nindex: nat, hsize: nat) -> Seq<char> {
    "RPM header too large: "@ + decimal(nindex) + " entries, "@ + decimal(hsize) + " byte store"@
}

pub(crate) fn too_large_error(nindex: u32, hsize: u32) -> (e: SpmError)
    ensures
        e matches SpmError::InvalidFormat(m) && m@ == too_large_text(nindex as nat, hsize as nat),
{
    let mut m = String::new();
    push_str(&mut m, "RPM header too large: ");
    push_decimal(&mut m, nindex as u64);
    push_str(&mut m, " entries, ");
    push_decimal(&mut m, hsize as u64);
    push_str(&mut m, " byte store");
    SpmError::InvalidFormat(m)
}

/// The size of what follows a 16-byte index header start `h`, after the
/// size check.
pub fn index_store_size(h: &[u8]) -> (r: Result<usize, SpmError>)
    requires
        h@.len() >= 16,
    ensures
        match r {
            Ok(n) => !header_too_large(be32(h@, 8), be32(h@, 12)) && n == store_size(be32(h@, 8), be32(h@, 12)),
            Err(e) => header_too_large(be32(h@, 8), be32(h@, 12))
                && (e matches SpmError::InvalidFormat(m) && m@ == too_large_text(be32(h@, 8), be32(h@, 12))),
        },
{
    let nindex = read_be32(h, 8);
    let hsize = read_be32(h, 12);
    if nindex > 65536 || hsize > 4 * 1024 * 1024 {
        return Err(too_large_error(nindex, hsize));
    }
    Ok(((nindex as usize) * 16 + hsize as usize + 7) / 8 * 8)
}


// ---------------------------------------------------------------------------
// The main header's tags
// ---------------------------------------------------------------------------

/// The first zero byte at or after `p`, or the end.
pub open spec fn zero_end(h: Seq<u8>, p: int) -> int
    decreases h.len() - p,
{
    if p >= h.len() {
        h.len() as int
    } else if h[p] == 0 {
        p
    } else {
        zero_end(h, p + 1)
    }
}

proof fn lemma_zero_end(h: Seq<u8>, p: int)
    requires
        0 <= p <= h.len(),
    ensures
        p <= zero_end(h, p) <= h.len(),
        zero_end(h, p) < h.len() ==> h[zero_end(h, p)] == 0,
        forall|i: int| p <= i < zero_end(h, p) ==> h[i] != 0,
    decreases h.len() - p,
{
    if p < h.len() && h[p] != 0 {
        lemma_zero_end(h, p + 1);
    }
}

/// The zero-terminated text at `start` (empty when `start` is past the end).
pub open spec fn cstr_at(h: Seq<u8>, start: int) -> Seq<char> {
    if start >= h.len() {
        Seq::empty()
    } else {
        crate::text::lossy(h.subrange(start, zero_end(h, start)))
    }
}

fn find_zero(h: &[u8], p: usize) -> (e: usize)
    requires
        p <= h@.len(),
    ensures
        e == zero_end(h@, p as int),
{
    proof {
        lemma_zero_end(h@, p as int);
    }
    let mut i = p;
    while i < h.len() && h[i] != 0
        invariant
            p <= i <= h@.len(),
            zero_end(h@, i as int) == zero_end(h@, p as int),
        decreases h.len() - i,
    {
        i += 1;
    }
    i
}

/// Where the store of a header with `nindex` entries starts.
pub open spec fn store_start(h: Seq<u8>) -> int {
    (16 + be32(h, 8) * 16) as int
}

/// The text of a string tag whose value sits at `val` in the store; an
/// offset below zero names nothing.
pub open spec fn str_field(h: Seq<u8>, val: int) -> Seq<char> {
    if val < 0 {
        Seq::empty()
    } else {
        cstr_at(h, store_start(h) + val)
    }
}

/// Whether a required capability is kept as a dependency.
pub open spec fn keep_requirement(s: Seq<char>) -> bool {
    &&& s.len() > 0
    &&& s != "()"@
    &&& s != "(none)"@
    &&& !crate::text::starts_with(s, "rpmlib("@)
    &&& s != "python(abi)"@
}

/// The kept requirements among the `n` zero-terminated texts from `pos`.
pub open spec fn requirements(h: Seq<u8>, pos: int, n: int) -> Seq<Seq<char>>
    decreases n,
{
    if n <= 0 || pos < 0 || pos >= h.len() {
        Seq::empty()
    } else {
        let e = zero_end(h, pos);
        let s = crate::text::lossy(h.subrange(pos, e));
        let rest = requirements(h, e + 1, n - 1);
        if keep_requirement(s) {
            seq![s] + rest
        } else {
            rest
        }
    }
}

/// What the tags read so far give.
pub struct RpmTags {
    pub name: Seq<char>,
    pub version: Seq<char>,
    pub release: Seq<char>,
    pub epoch: Option<int>,
    pub description: Seq<char>,
    pub maintainer: Seq<char>,
    pub architecture: Seq<char>,
    pub install_size: u64,
    pub requires: Seq<Seq<char>>,
}

pub open spec fn no_tags() -> RpmTags {
    RpmTags {
        name: Seq::empty(),
        version: Seq::empty(),
        release: Seq::empty(),
        epoch: None,
        description: Seq::empty(),
        maintainer: Seq::empty(),
        architecture: Seq::empty(),
        install_size: 0,
        requires: Seq::empty(),
    }
}

/// The effect of one index entry `(tag, type, offset, count)`.
pub open spec fn apply_tag(h: Seq<u8>, t: RpmTags, tag: int, ty: int, val: int, count: int) -> RpmTags {
    let pos = store_start(h) + val;
    if tag == 1000 && ty == 6 {
        RpmTags { name: str_field(h, val), ..t }
    } else if tag == 1001 && ty == 6 {
        RpmTags { version: str_field(h, val), ..t }
    } else if tag == 1002 && ty == 6 {
        RpmTags { release: str_field(h, val), ..t }
    } else if tag == 1003 && ty == 2 && count >= 1 {
        if val >= 0 && pos + 4 <= h.len() {
            RpmTags { epoch: Some(be_i32(h, pos)), ..t }
        } else {
            t
        }
    } else if tag == 1004 && (ty == 6 || ty == 8 || ty == 9) {
        RpmTags { description: str_field(h, val), ..t }
    } else if tag == 1005 && (ty == 6 || ty == 8 || ty == 9) {
        if str_field(h, val).len() > 0 {
            RpmTags { description: str_field(h, val), ..t }
        } else {
            t
        }
    } else if tag == 1007 && ty == 6 {
        RpmTags { maintainer: str_field(h, val), ..t }
    } else if tag == 1022 && ty == 6 {
        RpmTags { architecture: str_field(h, val), ..t }
    } else if tag == 1009 && ty == 4 && count > 0 {
        if val >= 0 && pos + 4 <= h.len() {
            RpmTags { install_size: be32(h, pos) as u64, ..t }
        } else {
            t
        }
    } else if tag == 1049 && (ty == 8 || ty == 9) {
        if val >= 0 {
            RpmTags { requires: t.requires + requirements(h, pos, count), ..t }
        } else {
            t
        }
    } else {
        t
    }
}

/// How many index entries are read: all of them, as far as the data goes.
pub open spec fn entries_read(h: Seq<u8>) -> int {
    let fit = (h.len() - 16) / 16;
    if be32(h, 8) < fit {
        be32(h, 8) as int
    } else {
        fit
    }
}

/// The tags of the first `k` index entries.
pub open spec fn tags_upto(h: Seq<u8>, k: int) -> RpmTags
    decreases k,
{
    if k <= 0 {
        no_tags()
    } else {
        let o = 16 + (k - 1) * 16;
        apply_tag(
            h,
            tags_upto(h, k - 1),
            be_i32(h, o),
            be_i32(h, o + 4),
            be_i32(h, o + 8),
            be_i32(h, o + 12),
        )
    }
}

/// `[epoch:]version[-release]`.
pub open spec fn rpm_evr(t: RpmTags) -> Seq<char> {
    let vr = if t.release.len() > 0 {
        t.version + "-"@ + t.release
    } else {
        t.version
    };
    match t.epoch {
        Some(e) => signed_decimal(e) + ":"@ + vr,
        None => vr,
    }
}

/// A requirement of an RPM package, as a dependency.
pub open spec fn rpm_dependency(n: Seq<char>) -> DependencyView {
    DependencyView {
        name: n,
        version: Seq::empty(),
        source: DependencySource::Spm,
        format: Some(PackageFormat::Rpm),
    }
}

/// The package that the main header `h` of the file at `path` describes.
pub open spec fn rpm_package(h: Seq<u8>, path: Seq<char>) -> PackageView {
    let t = tags_upto(h, entries_read(h));
    PackageView {
        name: t.name,
        version: rpm_evr(t),
        architecture: t.architecture,
        maintainer: t.maintainer,
        description: t.description,
        dependencies: t.requires.map_values(|n: Seq<char>| rpm_dependency(n)),
        conflicts: Seq::empty(),
        provides: Seq::empty(),
        recommends: Seq::empty(),
        install_size: t.install_size,
        format: PackageFormat::Rpm,
        source_repo: Some(path),
    }
}

/// The tags read so far, as values.
struct TagState {
    name: String,
    version: String,
    release: String,
    epoch: Option<i32>,
    description: String,
    maintainer: String,
    architecture: String,
    install_size: u64,
    requires: Vec<String>,
}

impl TagState {
    spec fn tags(&self) -> RpmTags {
        RpmTags {
            name: self.name@,
            version: self.version@,
            release: self.release@,
            epoch: match self.epoch {
                Some(e) => Some(e as int),
                None => None,
            },
            description: self.description@,
            maintainer: self.maintainer@,
            architecture: self.architecture@,
            install_size: self.install_size,
            requires: strings_view(self.requires@),
        }
    }
}

/// The text of a string tag.
pub(crate) fn read_str_field(h: &[u8], val: i32) -> (r: String)
    requires
        h@.len() >= 16,
    ensures
        r@ == str_field(h@, val as int),
{
    if val < 0 {
        return String::new();
    }
    let so: u64 = 16 + (read_be32(h, 8) as u64) * 16;
    let start: u64 = so + val as u64;
    if start >= h.len() as u64 {
        return String::new();
    }
    let st = start as usize;
    let e = find_zero(h, st);
    proof {
        lemma_zero_end(h@, st as int);
    }
    utf8_lossy(&h[st..e])
}

fn read_u32_field(h: &[u8], val: i32) -> (r: Option<u32>)
    requires
        h@.len() >= 16,
    ensures
        (val >= 0 && store_start(h@) + val + 4 <= h@.len()) ==> r == Some(be32(h@, store_start(h@) + val) as u32),
        !(val >= 0 && store_start(h@) + val + 4 <= h@.len()) ==> r is None,
{
    if val < 0 {
        return None;
    }
    let so: u64 = 16 + (read_be32(h, 8) as u64) * 16;
    let pos: u64 = so + val as u64;
    if pos > h.len() as u64 || h.len() as u64 - pos < 4 {
        return None;
    }
    Some(read_be32(h, pos as usize))
}

/// Whether a required capability is kept.
fn keep_requirement_exec(s: &str) -> (b: bool)
    ensures
        b == keep_requirement(s@),
{
    let v = chars_of(s);
    proof {
        assert(v@.subrange(0, v@.len() as int) =~= s@);
    }
    v.len() > 0 && !str_eq(s, "()") && !str_eq(s, "(none)") && !starts_with_str(&v, 0, v.len(), "rpmlib(")
        && !str_eq(s, "python(abi)")
}

/// Appends the kept requirements among `count` texts from `pos`.
fn read_requirements(h: &[u8], pos: u64, count: i32, out: &mut Vec<String>)
    ensures
        strings_view(final(out)@) == strings_view(old(out)@) + requirements(h@, pos as int, count as int),
{
    let mut i: i32 = 0;
    let mut p: u64 = pos;
    let ghost start = strings_view(old(out)@);
    proof {
        assert(strings_view(out@) + requirements(h@, pos as int, count as int) =~= start + requirements(
            h@,
            pos as int,
            count as int,
        ));
    }
    while i < count
        invariant
            0 <= i,
            count >= 0 ==> i <= count,
            strings_view(out@) + requirements(h@, p as int, count - i) == start + requirements(
                h@,
                pos as int,
                count as int,
            ),
        ensures
            p >= h@.len() || count - i <= 0,
        decreases count - i,
    {
        if p >= h.len() as u64 {
            break;
        }
        let ps = p as usize;
        let e = find_zero(h, ps);
        proof {
            lemma_zero_end(h@, ps as int);
        }
        let s = utf8_lossy(&h[ps..e]);
        let ghost before = strings_view(out@);
        if keep_requirement_exec(s.as_str()) {
            out.push(s);
            proof {
                assert(strings_view(out@) =~= before.push(s@));
                assert(strings_view(out@) + requirements(h@, e + 1, count - i - 1) =~= before + requirements(
                    h@,
                    p as int,
                    count - i,
                ));
            }
        }
        if e >= h.len() {
            p = h.len() as u64;
            proof {
                assert(requirements(h@, e + 1, count - i - 1) =~= Seq::empty());
                assert(requirements(h@, p as int, count - i - 1) =~= Seq::empty());
            }
        } else {
            p = e as u64 + 1;
        }
        i += 1;
    }
    proof {
        assert(requirements(h@, p as int, count - i) =~= Seq::empty());
        assert(strings_view(out@) =~= strings_view(out@) + Seq::<Seq<char>>::empty());
    }
}

/// Applies one index entry.
fn apply_tag_exec(h: &[u8], st: &mut TagState, tag: i32, ty: i32, val: i32, count: i32)
    requires
        h@.len() >= 16,
    ensures
        final(st).tags() == apply_tag(h@, old(st).tags(), tag as int, ty as int, val as int, count as int),
{
    if tag == 1000 && ty == 6 {
        st.name = read_str_field(h, val);
    } else if tag == 1001 && ty == 6 {
        st.version = read_str_field(h, val);
    } else if tag == 1002 && ty == 6 {
        st.release = read_str_field(h, val);
    } else if tag == 1003 && ty == 2 && count >= 1 {
        if let Some(u) = read_u32_field(h, val) {
            let pos64: u64 = 16 + (read_be32(h, 8) as u64) * 16 + val as u64;
            assert(pos64 == store_start(h@) + val);
            let n = h.len();
            assert(pos64 + 4 <= n);
            let pos = pos64 as usize;
            st.epoch = Some(read_be_i32(h, pos));
            assert(st.tags().epoch == Some(be_i32(h@, store_start(h@) + val)));
        }
        assert(st.tags() == apply_tag(h@, old(st).tags(), tag as int, ty as int, val as int, count as int));
    } else if tag == 1004 && (ty == 6 || ty == 8 || ty == 9) {
        st.description = read_str_field(h, val);
    } else if tag == 1005 && (ty == 6 || ty == 8 || ty == 9) {
        let d = read_str_field(h, val);
        if d.as_str().unicode_len() > 0 {
            st.description = d;
        }
    } else if tag == 1007 && ty == 6 {
        st.maintainer = read_str_field(h, val);
    } else if tag == 1022 && ty == 6 {
        st.architecture = read_str_field(h, val);
    } else if tag == 1009 && ty == 4 && count > 0 {
        if let Some(u) = read_u32_field(h, val) {
            st.install_size = u as u64;
        }
    } else if tag == 1049 && (ty == 8 || ty == 9) {
        if val >= 0 {
            let pos: u64 = 16 + (read_be32(h, 8) as u64) * 16 + val as u64;
            read_requirements(h, pos, count, &mut st.requires);
        }
        assert(st.tags() == apply_tag(h@, old(st).tags(), tag as int, ty as int, val as int, count as int));
    }
}

/// The package that the main header `h` (its 16-byte start, then entries
/// and store) of the RPM file at `path` describes: name, `[epoch:]version
/// [-release]`, summary or description, packager, architecture, size and
/// the required capabilities (without `rpmlib(...)`, `python(abi)` and
/// empty ones), as far as the entries fit in `h`.
pub fn package_from_header(h: &[u8], path: &str) -> (p: Package)
    requires
        h@.len() >= 16,
    ensures
        p@ == rpm_package(h@, path@),
{
    let nindex = read_be32(h, 8);
    let mut st = TagState {
        name: String::new(),
        version: String::new(),
        release: String::new(),
        epoch: None,
        description: String::new(),
        maintainer: String::new(),
        architecture: String::new(),
        install_size: 0,
        requires: Vec::new(),
    };
    proof {
        assert(strings_view(st.requires@) =~= Seq::empty());
        assert(st.tags() == no_tags());
    }
    let mut k: u32 = 0;
    let mut off: usize = 16;
    while k < nindex && off <= h.len() - 16
        invariant
            h@.len() >= 16,
            nindex == be32(h@, 8),
            k <= nindex,
            off == 16 + 16 * k,
            off <= h@.len(),
            st.tags() == tags_upto(h@, k as int),
        decreases nindex - k,
    {
        let tag = read_be_i32(h, off);
        let ty = read_be_i32(h, off + 4);
        let val = read_be_i32(h, off + 8);
        let count = read_be_i32(h, off + 12);
        apply_tag_exec(h, &mut st, tag, ty, val, count);
        off += 16;
        k += 1;
    }
    assert(k as int == entries_read(h@));
    let mut version = st.version.clone();
    let mut vr = String::new();
    push_str(&mut vr, st.version.as_str());
    if st.release.as_str().unicode_len() > 0 {
        vr.push('-');
        push_str(&mut vr, st.release.as_str());
    }
    let mut evr = String::new();
    match st.epoch {
        Some(e) => {
            push_signed_decimal(&mut evr, e as i64);
            evr.push(':');
        },
        None => {},
    }
    push_str(&mut evr, vr.as_str());
    proof {
        reveal_strlit("-");
        reveal_strlit(":");
        assert(evr@ =~= rpm_evr(st.tags()));
    }
    let mut deps: Vec<Dependency> = Vec::new();
    let mut i: usize = 0;
    while i < st.requires.len()
        invariant
            i <= st.requires@.len(),
            deps_view(deps@) == strings_view(st.requires@).take(i as int).map_values(
                |n: Seq<char>| rpm_dependency(n),
            ),
        decreases st.requires.len() - i,
    {
        let d = Dependency {
            name: st.requires[i].clone(),
            version: String::new(),
            source: DependencySource::Spm,
            format: Some(PackageFormat::Rpm),
        };
        let ghost before = deps_view(deps@);
        deps.push(d);
        proof {
            assert(deps_view(deps@) =~= before.push(d@));
            assert(strings_view(st.requires@).take(i + 1) =~= strings_view(st.requires@).take(i as int).push(
                st.requires@[i as int]@,
            ));
        }
        i += 1;
    }
    proof {
        assert(strings_view(st.requires@).take(i as int) =~= strings_view(st.requires@));
    }
    let p = Package {
        name: st.name,
        version: evr,
        architecture: st.architecture,
        maintainer: st.maintainer,
        description: st.description,
        dependencies: deps,
        conflicts: Vec::new(),
        provides: Vec::new(),
        recommends: Vec::new(),
        install_size: st.install_size,
        format: PackageFormat::Rpm,
        source_repo: Some(owned(path)),
    };
    proof {
        assert(strings_view(p.conflicts@) =~= Seq::empty());
        assert(strings_view(p.provides@) =~= Seq::empty());
        assert(strings_view(p.recommends@) =~= Seq::empty());
    }
    p
}

// ---------------------------------------------------------------------------
// CPIO archives
// ---------------------------------------------------------------------------

/// One entry of a CPIO archive, as it is read: its name, mode, file size and
/// data.
pub struct CpioRecord {
    pub name: Seq<char>,
    pub mode: u32,
    pub file_size: nat,
    pub data: Seq<u8>,
}

/// The magic `070701` or `070702` at `off`.
pub open spec fn cpio_magic_at(d: Seq<u8>, off: int) -> bool {
    &&& d[off] == 0x30 && d[off + 1] == 0x37 && d[off + 2] == 0x30
    &&& d[off + 3] == 0x37 && d[off + 4] == 0x30
    &&& (d[off + 5] == 0x31 || d[off + 5] == 0x32)
}

/// Padding that brings `n` up to a multiple of four.
pub open spec fn pad4(n: int) -> int {
    (4 - n % 4) % 4
}

/// The entries of a CPIO archive from `off`: each header is 110 bytes, with
/// the mode at 14, the name size at 76 and the file size at 80 (read as
/// big-endian 32-bit numbers); the name follows (its last byte dropped),
/// padded to four, then the data, padded to four.  Reading stops at the end
/// of the data, at a bad magic, at a zero or overlong name size, at data
/// past the end, and after `TRAILER!!!`.
pub open spec fn cpio_records(d: Seq<u8>, off: int) -> Seq<CpioRecord>
    decreases d.len() - off,
{
    if off < 0 || off + 110 >= d.len() || !cpio_magic_at(d, off) {
        Seq::empty()
    } else {
        let ns = be32(d, off + 76) as int;
        let fs = be32(d, off + 80) as int;
        let data_off = off + 110 + ns + pad4(110 + ns);
        if ns == 0 || off + 110 + ns - 1 > d.len() || data_off + fs > d.len() {
            Seq::empty()
        } else {
            let rec = CpioRecord {
                name: crate::text::lossy(d.subrange(off + 110, off + 110 + ns - 1)),
                mode: be32(d, off + 14) as u32,
                file_size: fs as nat,
                data: d.subrange(data_off, data_off + fs),
            };
            let size = 110 + ns + pad4(110 + ns) + fs;
            let next = off + size + pad4(size);
            if rec.name == "TRAILER!!!"@ || next + 110 >= d.len() {
                seq![rec]
            } else {
                seq![rec] + cpio_records(d, next)
            }
        }
    }
}

/// What extracting an archive does, one step at a time.
#[derive(Debug, Clone)]
pub enum CpioAction {
    /// Create a directory and its parents.
    CreateDir(String),
    /// Create the parents of a file and write it.
    WriteFile(String, Vec<u8>),
}

pub enum CpioActionView {
    CreateDir(Seq<char>),
    WriteFile(Seq<char>, Seq<u8>),
}

impl View for CpioAction {
    type V = CpioActionView;

    open spec fn view(&self) -> CpioActionView {
        match self {
            CpioAction::CreateDir(p) => CpioActionView::CreateDir(p@),
            CpioAction::WriteFile(p, d) => CpioActionView::WriteFile(p@, d@),
        }
    }
}

pub open spec fn actions_view(v: Seq<CpioAction>) -> Seq<CpioActionView> {
    v.map_values(|a: CpioAction| a@)
}

/// The actions of an extraction, in order, and the error that stopped it,
/// if one did (the actions before it are carried out all the same).
pub struct CpioPlan {
    pub actions: Vec<CpioAction>,
    pub error: Option<SpmError>,
}

/// Names that are not extracted.
pub open spec fn skipped_name(n: Seq<char>) -> bool {
    n.len() == 0 || n == "."@ || n == "/"@ || n == "TRAILER!!!"@
}

/// The name without one leading `/`.
pub open spec fn clean_name(n: Seq<char>) -> Seq<char> {
    if n.len() > 0 && n[0] == '/' {
        n.drop_first()
    } else {
        n
    }
}

/// A directory entry has the `S_IFDIR` bit of its mode set.
pub open spec fn is_dir_mode(mode: u32) -> bool {
    mode & 0x4000 != 0
}

/// The actions for `recs` under `target`, and the message of the path
/// traversal that stops them, if any.
pub open spec fn cpio_actions(recs: Seq<CpioRecord>, target: Seq<char>) -> (Seq<CpioActionView>, Option<Seq<char>>)
    decreases recs.len(),
{
    if recs.len() == 0 {
        (Seq::empty(), None)
    } else {
        let r = recs[0];
        let rest = cpio_actions(recs.drop_first(), target);
        let p = path_join(target, clean_name(r.name));
        if skipped_name(r.name) {
            rest
        } else if has_parent_component(p) {
            (Seq::empty(), Some(traversal_text(p)))
        } else if is_dir_mode(r.mode) {
            (seq![CpioActionView::CreateDir(p)] + rest.0, rest.1)
        } else if r.file_size > 0 {
            (seq![CpioActionView::WriteFile(p, r.data)] + rest.0, rest.1)
        } else {
            rest
        }
    }
}

/// What extracting the decompressed archive `d` into `target` does.
pub open spec fn cpio_plan_spec(d: Seq<u8>, target: Seq<char>) -> (Seq<CpioActionView>, Option<Seq<char>>) {
    if d.len() < 6 {
        (Seq::empty(), None)
    } else {
        cpio_actions(cpio_records(d, 0), target)
    }
}

/// `p` carries out the actions `spec.0` and stops with the error `spec.1`.
pub open spec fn plan_is(p: CpioPlan, spec: (Seq<CpioActionView>, Option<Seq<char>>)) -> bool {
    &&& actions_view(p.actions@) == spec.0
    &&& match spec.1 {
        Some(m) => p.error matches Some(SpmError::Other(x)) && x@ == m,
        None => p.error is None,
    }
}

proof fn lemma_actions_cons(r: CpioRecord, tail: Seq<CpioRecord>, target: Seq<char>)
    ensures
        cpio_actions(seq![r] + tail, target) == ({
            let rest = cpio_actions(tail, target);
            let p = path_join(target, clean_name(r.name));
            if skipped_name(r.name) {
                rest
            } else if has_parent_component(p) {
                (Seq::empty(), Some(traversal_text(p)))
            } else if is_dir_mode(r.mode) {
                (seq![CpioActionView::CreateDir(p)] + rest.0, rest.1)
            } else if r.file_size > 0 {
                (seq![CpioActionView::WriteFile(p, r.data)] + rest.0, rest.1)
            } else {
                rest
            }
        }),
{
    let s = seq![r] + tail;
    assert(s[0] == r);
    assert(s.drop_first() =~= tail);
}

fn is_cpio_magic(d: &[u8], off: usize) -> (b: bool)
    requires
        off + 6 <= d@.len(),
    ensures
        b == cpio_magic_at(d@, off as int),
{
    d[off] == 0x30 && d[off + 1] == 0x37 && d[off + 2] == 0x30 && d[off + 3] == 0x37 && d[off + 4] == 0x30 && (
    d[off + 5] == 0x31 || d[off + 5] == 0x32)
}

fn strip_slash(n: &str) -> (r: String)
    ensures
        r@ == clean_name(n@),
{
    let v = chars_of(n);
    if v.len() > 0 && v[0] == '/' {
        let r = crate::text::string_of(&v, 1, v.len());
        assert(r@ =~= clean_name(n@));
        r
    } else {
        assert(v@.subrange(0, v@.len() as int) =~= n@);
        crate::text::string_of(&v, 0, v.len())
    }
}

/// The steps of extracting the decompressed CPIO archive `d` into
/// `target`: a directory for each directory entry, a file for each regular
/// entry with data, skipping `.`, `/`, empty names and the trailer, with
/// one leading `/` taken off each name.  A name that climbs out of
/// `target` stops the extraction with an error.
pub fn cpio_plan(d: &[u8], target: &str) -> (r: CpioPlan)
    ensures
        plan_is(r, cpio_plan_spec(d@, target@)),
{
    let mut acts: Vec<CpioAction> = Vec::new();
    if d.len() < 6 {
        proof {
            assert(actions_view(acts@) =~= Seq::empty());
        }
        return CpioPlan { actions: acts, error: None };
    }
    let ghost all = cpio_actions(cpio_records(d@, 0), target@);
    let n = d.len();
    let mut off: usize = 0;
    proof {
        assert(actions_view(acts@) + all.0 =~= all.0);
    }
    loop
        invariant
            n == d@.len(),
            n >= 6,
            all == cpio_actions(cpio_records(d@, 0), target@),
            off <= n,
            all.0 == actions_view(acts@) + cpio_actions(cpio_records(d@, off as int), target@).0,
            all.1 == cpio_actions(cpio_records(d@, off as int), target@).1,
        decreases n - off,
    {
        let ghost here = cpio_records(d@, off as int);
        if n - off <= 110 || !is_cpio_magic(d, off) {
            proof {
                assert(here =~= Seq::empty());
                assert(actions_view(acts@) + Seq::empty() =~= actions_view(acts@));
            }
            return CpioPlan { actions: acts, error: None };
        }
        let mode = read_be32(d, off + 14);
        let ns = read_be32(d, off + 76);
        let fs = read_be32(d, off + 80);
        let rem: usize = n - off - 110;
        if ns == 0 || (ns as usize) - 1 > rem {
            proof {
                assert(here =~= Seq::empty());
                assert(actions_view(acts@) + Seq::empty() =~= actions_view(acts@));
            }
            return CpioPlan { actions: acts, error: None };
        }
        let pad: u64 = (4 - (110 + ns as u64) % 4) % 4;
        if (ns as u64) + pad + (fs as u64) > rem as u64 {
            proof {
                assert(here =~= Seq::empty());
                assert(actions_view(acts@) + Seq::empty() =~= actions_view(acts@));
            }
            return CpioPlan { actions: acts, error: None };
        }
        let name_start = off + 110;
        let name_end = name_start + (ns as usize) - 1;
        let name = utf8_lossy(&d[name_start..name_end]);
        let data_off: usize = name_start + (ns as usize) + (pad as usize);
        let data_end: usize = data_off + (fs as usize);
        let size: u64 = 110 + ns as u64 + pad + fs as u64;
        let epad: u64 = (4 - size % 4) % 4;
        let ghost rec = CpioRecord {
            name: name@,
            mode: mode,
            file_size: fs as nat,
            data: d@.subrange(data_off as int, data_end as int),
        };
        let ghost next = off + size + epad;
        let ghost tail = if rec.name == "TRAILER!!!"@ || next + 110 >= n {
            Seq::<CpioRecord>::empty()
        } else {
            cpio_records(d@, next)
        };
        proof {
            assert(here == seq![rec] + tail) by {
                if rec.name == "TRAILER!!!"@ || next + 110 >= n {
                    assert(seq![rec] + tail =~= seq![rec]);
                }
            }
            lemma_actions_cons(rec, tail, target@);
        }
        let ghost before = actions_view(acts@);
        let ghost rest = cpio_actions(tail, target@);
        let skipped = name.as_str().unicode_len() == 0 || str_eq(name.as_str(), ".") || str_eq(name.as_str(), "/")
            || str_eq(name.as_str(), "TRAILER!!!");
        if !skipped {
            let clean = strip_slash(name.as_str());
            let p = join(target, clean.as_str());
            match sanitize_relative(p.as_str()) {
                Err(e) => {
                    return CpioPlan { actions: acts, error: Some(e) };
                },
                Ok(()) => {},
            }
            if mode & 0x4000 != 0 {
                acts.push(CpioAction::CreateDir(p));
                proof {
                    assert(actions_view(acts@) =~= before.push(CpioActionView::CreateDir(path_join(target@, clean_name(name@)))));
                    assert(before + (seq![CpioActionView::CreateDir(path_join(target@, clean_name(name@)))] + rest.0)
                        =~= actions_view(acts@) + rest.0);
                }
            } else if fs > 0 {
                let bytes = vstd::slice::slice_to_vec(&d[data_off..data_end]);
                acts.push(CpioAction::WriteFile(p, bytes));
                proof {
                    assert(actions_view(acts@) =~= before.push(CpioActionView::WriteFile(path_join(target@, clean_name(name@)), rec.data)));
                    assert(before + (seq![CpioActionView::WriteFile(path_join(target@, clean_name(name@)), rec.data)] + rest.0)
                        =~= actions_view(acts@) + rest.0);
                }
            }
        }
        if str_eq(name.as_str(), "TRAILER!!!") || epad as usize > n - data_end || n - (data_end + epad as usize) <= 110 {
            proof {
                assert(rest == cpio_actions(Seq::<CpioRecord>::empty(), target@));
                assert(actions_view(acts@) + Seq::empty() =~= actions_view(acts@));
            }
            return CpioPlan { actions: acts, error: None };
        }
        off = data_end + epad as usize;
    }
}

/// The path an extraction step writes.
pub open spec fn action_path(a: CpioActionView) -> Seq<char> {
    match a {
        CpioActionView::CreateDir(p) => p,
        CpioActionView::WriteFile(p, _) => p,
    }
}

proof fn lemma_actions_safe(recs: Seq<CpioRecord>, target: Seq<char>)
    ensures
        forall|i: int| 0 <= i < cpio_actions(recs, target).0.len()
            ==> !has_parent_component(action_path(#[trigger] cpio_actions(recs, target).0[i])),
    decreases recs.len(),
{
    if recs.len() > 0 {
        lemma_actions_safe(recs.drop_first(), target);
        let rest = cpio_actions(recs.drop_first(), target);
        let r = recs[0];
        let p = path_join(target, clean_name(r.name));
        let all = cpio_actions(recs, target).0;
        if !skipped_name(r.name) && !has_parent_component(p) && (is_dir_mode(r.mode) || r.file_size > 0) {
            assert forall|i: int| 0 <= i < all.len() implies !has_parent_component(action_path(#[trigger] all[i])) by {
                if i > 0 {
                    assert(all[i] == rest.0[i - 1]);
                }
            }
        }
    }
}

/// Extraction never writes a path with a `..` component: every directory
/// and file that an extraction plan creates passed the traversal check.
pub proof fn law_extraction_stays_put(d: Seq<u8>, target: Seq<char>)
    ensures
        forall|i: int| 0 <= i < cpio_plan_spec(d, target).0.len()
            ==> !has_parent_component(action_path(#[trigger] cpio_plan_spec(d, target).0[i])),
{
    if d.len() >= 6 {
        lemma_actions_safe(cpio_records(d, 0), target);
    }
}

/// Data that starts with the gzip magic `1f 8b`.
pub open spec fn is_gzip(d: Seq<u8>) -> bool {
    d.len() >= 2 && d[0] == 0x1f && d[1] == 0x8b
}

pub fn gzip_magic(d: &[u8]) -> (b: bool)
    ensures
        b == is_gzip(d@),
{
    d.len() >= 2 && d[0] == 0x1f && d[1] == 0x8b
}

/// The archive in an RPM payload: gzip is decoded (`None` when that
/// fails), other data of more than four bytes is decoded as zstd when it
/// can be and taken as it is otherwise.
pub open spec fn payload_archive(d: Seq<u8>) -> Option<Seq<u8>> {
    if is_gzip(d) {
        gzip_decode(d)
    } else if d.len() > 4 {
        match zstd_decode(d) {
            Some(v) => Some(v),
            None => Some(d),
        }
    } else {
        Some(d)
    }
}

/// Decompresses an RPM payload.
pub fn decompress_payload(data: &[u8]) -> (r: Result<Vec<u8>, SpmError>)
    ensures
        match payload_archive(data@) {
            Some(v) => r matches Ok(x) && x@ == v,
            None => r matches Err(SpmError::Io(_)),
        },
{
    if gzip_magic(data) {
        match gunzip(data) {
            Ok(v) => Ok(v),
            Err(e) => Err(SpmError::Io(e)),
        }
    } else if data.len() > 4 {
        match unzstd(data) {
            Ok(v) => Ok(v),
            Err(_) => Ok(vstd::slice::slice_to_vec(data)),
        }
    } else {
        Ok(vstd::slice::slice_to_vec(data))
    }
}

/// Decompresses an RPM payload and plans the extraction of its CPIO
/// archive into `target`.
pub fn decompress_cpio(data: &[u8], target: &str) -> (r: Result<CpioPlan, SpmError>)
    ensures
        match payload_archive(data@) {
            Some(v) => r matches Ok(p) && plan_is(p, cpio_plan_spec(v, target@)),
            None => r matches Err(SpmError::Io(_)),
        },
{
    let archive = decompress_payload(data)?;
    Ok(cpio_plan(archive.as_slice(), target))
}

} // verus!
