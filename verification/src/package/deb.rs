//! Debian control data: the deb822 paragraph of a `.deb` and its fields.
use vstd::prelude::*;
use crate::error::{message, SpmError};
use crate::package::extract::codec::{string_from_utf8, text_of, unzstd, zstd_decode};
use crate::text::{
    lossy, text_starts_with, starts_with, utf8_lossy,
    lines, next_line, push_range,
    chars_of, find_char, idx_of, next_piece, parse_u64, parse_unsigned, push_str, split,
    split_trimmed, str_eq, string_of, trim, trim_all, trim_range,
};
use crate::types::package::{
    deps_view, empty_package, Dependency, DependencySource, DependencyView, PackageFormat, Package, PackageView,
};

verus! {

// ---------------------------------------------------------------------------
// Dependency lists
// ---------------------------------------------------------------------------

pub open spec fn is_paren_or_space(c: char) -> bool {
    c == ')' || c == ' '
}

/// `s.trim_start_matches(|c| c == ')' || c == ' ')`.
pub open spec fn strip_ps_start(s: Seq<char>) -> Seq<char>
    decreases s.len(),
{
    if s.len() > 0 && is_paren_or_space(s[0]) {
        strip_ps_start(s.drop_first())
    } else {
        s
    }
}

/// `s.trim_end_matches(|c| c == ')' || c == ' ')`.
pub open spec fn strip_ps_end(s: Seq<char>) -> Seq<char>
    decreases s.len(),
{
    if s.len() > 0 && is_paren_or_space(s.last()) {
        strip_ps_end(s.drop_last())
    } else {
        s
    }
}

/// `s.trim_matches(|c| c == ')' || c == ' ')`.
pub open spec fn trim_paren(s: Seq<char>) -> Seq<char> {
    strip_ps_end(strip_ps_start(s))
}

/// The range of `v[lo..hi]` that `trim_paren` keeps.
fn trim_paren_range(v: &Vec<char>, lo: usize, hi: usize) -> (r: (usize, usize))
    requires
        lo <= hi <= v.len(),
    ensures
        lo <= r.0 <= r.1 <= hi,
        v@.subrange(r.0 as int, r.1 as int) == trim_paren(v@.subrange(lo as int, hi as int)),
{
    let mut a = lo;
    while a < hi && (v[a] == ')' || v[a] == ' ')
        invariant
            lo <= a <= hi <= v.len(),
            strip_ps_start(v@.subrange(lo as int, hi as int)) == strip_ps_start(
                v@.subrange(a as int, hi as int),
            ),
        decreases hi - a,
    {
        assert(v@.subrange(a as int, hi as int).drop_first() =~= v@.subrange(a + 1, hi as int));
        a += 1;
    }
    let mut b = hi;
    while b > a && (v[b - 1] == ')' || v[b - 1] == ' ')
        invariant
            lo <= a <= b <= hi <= v.len(),
            strip_ps_end(v@.subrange(a as int, hi as int)) == strip_ps_end(
                v@.subrange(a as int, b as int),
            ),
        decreases b - a,
    {
        assert(v@.subrange(a as int, b as int).drop_last() =~= v@.subrange(a as int, b - 1));
        b -= 1;
    }
    (a, b)
}

/// The first alternative of `a | b | c` that is not blank, trimmed.
pub open spec fn first_nonempty(ps: Seq<Seq<char>>) -> Seq<char>
    decreases ps.len(),
{
    if ps.len() == 0 {
        Seq::empty()
    } else if trim(ps[0]).len() > 0 {
        trim(ps[0])
    } else {
        first_nonempty(ps.drop_first())
    }
}

/// The dependency that one chosen alternative names: `name (version)` or a
/// bare `name`.
pub open spec fn dep_of(chosen: Seq<char>) -> DependencyView {
    let k = idx_of(chosen, '(');
    if k < chosen.len() {
        DependencyView {
            name: trim(chosen.take(k as int)),
            version: trim_paren(chosen.skip((k + 1) as int)),
            source: DependencySource::System,
            format: Some(PackageFormat::Deb),
        }
    } else {
        DependencyView {
            name: chosen,
            version: Seq::empty(),
            source: DependencySource::System,
            format: Some(PackageFormat::Deb),
        }
    }
}

/// The dependencies of the comma-separated parts `ps`; a part whose
/// alternatives are all blank gives none.
pub open spec fn deps_of_parts(ps: Seq<Seq<char>>) -> Seq<DependencyView>
    decreases ps.len(),
{
    if ps.len() == 0 {
        Seq::empty()
    } else {
        let c = first_nonempty(split(trim(ps[0]), '|'));
        (if c.len() == 0 {
            Seq::empty()
        } else {
            seq![dep_of(c)]
        }) + deps_of_parts(ps.drop_first())
    }
}

/// The dependencies of a `Depends:` value.
pub open spec fn depends_spec(value: Seq<char>) -> Seq<DependencyView> {
    deps_of_parts(split(value, ','))
}

/// The range of the first non-blank alternative of `v[lo..hi]`, trimmed.
fn first_alternative(v: &Vec<char>, lo: usize, hi: usize) -> (r: (usize, usize))
    requires
        lo <= hi <= v.len(),
    ensures
        lo <= r.0 <= r.1 <= hi,
        v@.subrange(r.0 as int, r.1 as int) == first_nonempty(
            split(v@.subrange(lo as int, hi as int), '|'),
        ),
{
    let ghost goal = first_nonempty(split(v@.subrange(lo as int, hi as int), '|'));
    let mut pos = lo;
    loop
        invariant
            lo <= pos <= hi <= v.len(),
            goal == first_nonempty(split(v@.subrange(lo as int, hi as int), '|')),
            goal == first_nonempty(split(v@.subrange(pos as int, hi as int), '|')),
        decreases hi - pos,
    {
        let ghost ps = split(v@.subrange(pos as int, hi as int), '|');
        let (e, more) = next_piece(v, pos, hi, '|');
        let (a, b) = trim_range(v, pos, e);
        assert(ps[0] == v@.subrange(pos as int, e as int));
        if a < b {
            return (a, b);
        }
        if !more {
            proof {
                assert(ps.drop_first().len() == 0);
                assert(trim(ps[0]).len() == 0);
                assert(first_nonempty(ps.drop_first()) == Seq::<char>::empty());
                assert(first_nonempty(ps) == Seq::<char>::empty());
                assert(v@.subrange(a as int, a as int) =~= Seq::<char>::empty());
            }
            return (a, a);
        }
        proof {
            assert(ps.drop_first() =~= split(v@.subrange(e + 1, hi as int), '|'));
        }
        pos = e + 1;
    }
}

/// Builds the dependency for the alternative `v[lo..hi]` (not blank).
fn dep_in(v: &Vec<char>, lo: usize, hi: usize) -> (d: Dependency)
    requires
        lo <= hi <= v.len(),
    ensures
        d@ == dep_of(v@.subrange(lo as int, hi as int)),
{
    let ghost c = v@.subrange(lo as int, hi as int);
    let k = find_char(v, lo, hi, '(');
    if k < hi {
        let (a, b) = trim_range(v, lo, k);
        let (x, y) = trim_paren_range(v, k + 1, hi);
        proof {
            assert(c.take(k - lo) =~= v@.subrange(lo as int, k as int));
            assert(c.skip(k - lo + 1) =~= v@.subrange(k + 1, hi as int));
        }
        Dependency {
            name: string_of(v, a, b),
            version: string_of(v, x, y),
            source: DependencySource::System,
            format: Some(PackageFormat::Deb),
        }
    } else {
        Dependency {
            name: string_of(v, lo, hi),
            version: String::new(),
            source: DependencySource::System,
            format: Some(PackageFormat::Deb),
        }
    }
}

/// Reads a `Depends:` value: comma-separated parts, of which each keeps its
/// first non-blank `|` alternative, as `name` or `name (version)`.
pub fn parse_depends(value: &str) -> (r: Vec<Dependency>)
    ensures
        deps_view(r@) == depends_spec(value@),
{
    let v = chars_of(value);
    let hi = v.len();
    let ghost total = depends_spec(value@);
    let mut r: Vec<Dependency> = Vec::new();
    let mut pos: usize = 0;
    proof {
        assert(v@.subrange(0, hi as int) =~= value@);
        assert(deps_view(r@) =~= Seq::<DependencyView>::empty());
        assert(total =~= deps_view(r@) + deps_of_parts(split(v@.subrange(pos as int, hi as int), ',')));
    }
    loop
        invariant
            pos <= hi == v.len(),
            v@ == value@,
            total == depends_spec(value@),
            total == deps_view(r@) + deps_of_parts(split(v@.subrange(pos as int, hi as int), ',')),
        decreases hi - pos,
    {
        let ghost ps = split(v@.subrange(pos as int, hi as int), ',');
        let ghost old_r = deps_view(r@);
        let (e, more) = next_piece(&v, pos, hi, ',');
        let (a, b) = trim_range(&v, pos, e);
        let (x, y) = first_alternative(&v, a, b);
        assert(ps[0] == v@.subrange(pos as int, e as int));
        if x < y {
            let d = dep_in(&v, x, y);
            r.push(d);
            proof {
                assert(deps_view(r@) =~= old_r.push(d@));
            }
        } else {
            assert(v@.subrange(x as int, y as int).len() == 0);
        }
        proof {
            assert(deps_of_parts(ps) =~= deps_view(r@).subrange(old_r.len() as int, deps_view(r@).len() as int)
                + deps_of_parts(ps.drop_first()));
        }
        if !more {
            proof {
                assert(ps.drop_first().len() == 0);
                assert(total =~= deps_view(r@));
            }
            return r;
        }
        proof {
            assert(ps.drop_first() =~= split(v@.subrange(e + 1, hi as int), ','));
            assert(total =~= deps_view(r@) + deps_of_parts(split(v@.subrange(e + 1, hi as int), ',')));
        }
        pos = e + 1;
    }
}

// ---------------------------------------------------------------------------
// Fields
// ---------------------------------------------------------------------------

/// `str::parse::<u64>().unwrap_or(0)`.
pub open spec fn u64_or_zero(s: Seq<char>) -> nat {
    match parse_unsigned(s, u64::MAX as nat) {
        Some(n) => n,
        None => 0,
    }
}

/// The `Installed-Size` field is in KiB; the size is kept in bytes, modulo
/// 2^64.
pub open spec fn installed_size_bytes(value: Seq<char>) -> u64 {
    ((u64_or_zero(value) * 1024) % 0x1_0000_0000_0000_0000) as u64
}

/// A package with one control field set; unknown fields change nothing.
pub open spec fn field_set(p: PackageView, key: Seq<char>, value: Seq<char>) -> PackageView {
    if key == "Package"@ {
        PackageView { name: value, ..p }
    } else if key == "Version"@ {
        PackageView { version: value, ..p }
    } else if key == "Architecture"@ {
        PackageView { architecture: value, ..p }
    } else if key == "Maintainer"@ {
        PackageView { maintainer: value, ..p }
    } else if key == "Description"@ {
        PackageView { description: value, ..p }
    } else if key == "Installed-Size"@ {
        PackageView { install_size: installed_size_bytes(value), ..p }
    } else if key == "Depends"@ {
        PackageView { dependencies: depends_spec(value), ..p }
    } else if key == "Conflicts"@ {
        PackageView { conflicts: trim_all(split(value, ',')), ..p }
    } else if key == "Provides"@ {
        PackageView { provides: trim_all(split(value, ',')), ..p }
    } else if key == "Recommends"@ {
        PackageView { recommends: trim_all(split(value, ',')), ..p }
    } else {
        p
    }
}

/// A copy of `s`.
fn copy_str(s: &str) -> (r: String)
    ensures
        r@ == s@,
{
    let mut r = String::new();
    push_str(&mut r, s);
    assert(r@ =~= s@);
    r
}

/// Sets the control field `key` of `pkg` to `value`.
pub fn set_field(pkg: &mut Package, key: &str, value: &str)
    ensures
        final(pkg)@ == field_set(old(pkg)@, key@, value@),
{
    if str_eq(key, "Package") {
        pkg.name = copy_str(value);
    } else if str_eq(key, "Version") {
        pkg.version = copy_str(value);
    } else if str_eq(key, "Architecture") {
        pkg.architecture = copy_str(value);
    } else if str_eq(key, "Maintainer") {
        pkg.maintainer = copy_str(value);
    } else if str_eq(key, "Description") {
        pkg.description = copy_str(value);
    } else if str_eq(key, "Installed-Size") {
        let v = chars_of(value);
        let n = match parse_u64(&v, 0, v.len()) {
            Some(n) => n,
            None => 0,
        };
        proof {
            assert(v@.subrange(0, v@.len() as int) =~= value@);
        }
        pkg.install_size = n.wrapping_mul(1024);
    } else if str_eq(key, "Depends") {
        pkg.dependencies = parse_depends(value);
    } else if str_eq(key, "Conflicts") {
        let v = chars_of(value);
        proof {
            assert(v@.subrange(0, v@.len() as int) =~= value@);
        }
        pkg.conflicts = split_trimmed(&v, 0, v.len(), ',');
    } else if str_eq(key, "Provides") {
        let v = chars_of(value);
        proof {
            assert(v@.subrange(0, v@.len() as int) =~= value@);
        }
        pkg.provides = split_trimmed(&v, 0, v.len(), ',');
    } else if str_eq(key, "Recommends") {
        let v = chars_of(value);
        proof {
            assert(v@.subrange(0, v@.len() as int) =~= value@);
        }
        pkg.recommends = split_trimmed(&v, 0, v.len(), ',');
    }
}

// ---------------------------------------------------------------------------
// The control paragraph
// ---------------------------------------------------------------------------

/// The state of the control parser: the package so far, the pending field's
/// name and its value.
pub type ControlState = (PackageView, Seq<char>, Seq<char>);

/// One line of control data.  A blank line drops the pending field; an
/// indented line continues its value; `Key: value` first stores the pending
/// field, then starts a new one; other lines are ignored.
pub open spec fn control_step(st: ControlState, line: Seq<char>) -> ControlState {
    let (p, k, v) = st;
    if line.len() == 0 {
        (p, Seq::empty(), Seq::empty())
    } else if line[0] == ' ' || line[0] == '\t' {
        (p, k, v + seq!['\n'] + trim(line))
    } else {
        let i = idx_of(line, ':');
        if i < line.len() {
            let p2 = if k.len() > 0 {
                field_set(p, k, v)
            } else {
                p
            };
            (p2, trim(line.take(i as int)), trim(line.skip((i + 1) as int)))
        } else {
            st
        }
    }
}

pub open spec fn control_run(st: ControlState, ls: Seq<Seq<char>>) -> ControlState
    decreases ls.len(),
{
    if ls.len() == 0 {
        st
    } else {
        control_run(control_step(st, ls[0]), ls.drop_first())
    }
}

/// The package that control data describes; `source` is kept as its origin.
pub open spec fn control_package(content: Seq<char>, source: Seq<char>) -> PackageView {
    let (p, k, v) = control_run(
        (empty_package(PackageFormat::Deb, Some(source)), Seq::empty(), Seq::empty()),
        lines(content),
    );
    if k.len() > 0 {
        field_set(p, k, v)
    } else {
        p
    }
}

/// Reads a deb822 control paragraph into a package; it never fails.
pub fn parse_deb822(content: &str, source: &str) -> (r: Result<Package, SpmError>)
    ensures
        r matches Ok(p) && p@ == control_package(content@, source@),
{
    let v = chars_of(content);
    let n = v.len();
    let mut pkg = Package::empty(PackageFormat::Deb, Some(copy_str(source)));
    let mut key = String::new();
    let mut value = String::new();
    let ghost init: ControlState = (empty_package(PackageFormat::Deb, Some(source@)), Seq::empty(), Seq::empty());
    let mut pos: usize = 0;
    proof {
        assert(v@.skip(0) =~= content@);
    }
    while pos < n
        invariant
            pos <= n == v.len(),
            v@ == content@,
            init == (empty_package(PackageFormat::Deb, Some(source@)), Seq::<char>::empty(), Seq::<char>::empty()),
            control_run(init, lines(content@)) == control_run((pkg@, key@, value@), lines(v@.skip(pos as int))),
        decreases n - pos,
    {
        let ghost st: ControlState = (pkg@, key@, value@);
        let (e, nx) = next_line(&v, pos);
        let ghost line = v@.subrange(pos as int, e as int);
        if e == pos {
            key = String::new();
            value = String::new();
        } else if v[pos] == ' ' || v[pos] == '\t' {
            value.push('\n');
            let (a, b) = trim_range(&v, pos, e);
            push_range(&mut value, &v, a, b);
        } else {
            let i = find_char(&v, pos, e, ':');
            if i < e {
                if !key.as_str().is_empty() {
                    set_field(&mut pkg, key.as_str(), value.as_str());
                }
                let (a, b) = trim_range(&v, pos, i);
                let (c, d) = trim_range(&v, i + 1, e);
                key = string_of(&v, a, b);
                value = string_of(&v, c, d);
                proof {
                    assert(line.take(i - pos) =~= v@.subrange(pos as int, i as int));
                    assert(line.skip(i - pos + 1) =~= v@.subrange(i + 1, e as int));
                }
            }
        }
        proof {
            assert(line.len() > 0 ==> line[0] == v@[pos as int]);
            assert((pkg@, key@, value@) == control_step(st, line));
            let ls = lines(v@.skip(pos as int));
            assert(ls[0] == line);
            assert(ls.drop_first() =~= lines(v@.skip(nx as int)));
        }
        pos = nx;
    }
    proof {
        assert(v@.skip(n as int) =~= Seq::<char>::empty());
        assert(lines(v@.skip(n as int)) =~= Seq::<Seq<char>>::empty());
    }
    if !key.as_str().is_empty() {
        set_field(&mut pkg, key.as_str(), value.as_str());
    }
    Ok(pkg)
}

/// The name of an ar member: up to the first `/`, trimmed.
pub open spec fn ar_name(name: Seq<char>) -> Seq<char> {
    let k = idx_of(name, '/');
    if k < name.len() {
        trim(name.take(k as int))
    } else {
        trim(name)
    }
}

/// The name of an ar member: GNU ar ends names with `/`.
pub fn normalize_ar_name(name: &str) -> (r: String)
    ensures
        r@ == ar_name(name@),
{
    let v = chars_of(name);
    let n = v.len();
    let k = find_char(&v, 0, n, '/');
    proof {
        assert(v@.subrange(0, n as int) =~= name@);
        assert(name@.take(k as int) =~= v@.subrange(0, k as int));
    }
    let (a, b) = trim_range(&v, 0, k);
    string_of(&v, a, b)
}

// ---------------------------------------------------------------------------
// Reading the control file out of a .deb
// ---------------------------------------------------------------------------

/// What the `tar` crate lists of an archive: each entry's path bytes and
/// data, in order, up to the first error, and that error's text if one
/// stopped the listing.
pub uninterp spec fn tar_listing(archive: Seq<u8>) -> (Seq<(Seq<u8>, Seq<u8>)>, Option<Seq<char>>);

pub open spec fn pairs_view(v: Seq<(Vec<u8>, Vec<u8>)>) -> Seq<(Seq<u8>, Seq<u8>)> {
    v.map_values(|p: (Vec<u8>, Vec<u8>)| (p.0@, p.1@))
}

/// `tar::Archive::new(archive).entries()`, each entry's `path_bytes` and
/// its data read to the end, until the iteration or a read fails.  The
/// result is named by `tar_listing`; how the crate parses headers is not
/// restated.
#[verifier::external_body]
fn tar_entries(archive: &[u8]) -> (r: (Vec<(Vec<u8>, Vec<u8>)>, Option<String>))
    ensures
        tar_listing(archive@) == (pairs_view(r.0@), match r.1 {
            Some(e) => Some(e@),
            None => None,
        }),
{
    let mut out = Vec::new();
    let mut ar = tar::Archive::new(archive);
    let entries = match ar.entries() {
        Ok(e) => e,
        Err(e) => return (out, Some(e.to_string())),
    };
    for entry in entries {
        let mut x = match entry { Ok(x) => x, Err(e) => return (out, Some(e.to_string())) };
        let mut data = Vec::new();
        if let Err(e) = std::io::Read::read_to_end(&mut x, &mut data) { return (out, Some(e.to_string())); }
        out.push((x.path_bytes().into_owned(), data));
    }
    (out, None)
}

/// The magic that starts an ar archive: `!<arch>\n`.
pub open spec fn ar_magic() -> Seq<u8> {
    seq![33u8, 60u8, 97u8, 114u8, 99u8, 104u8, 62u8, 10u8]
}

/// The name of the member a 60-byte ar header describes: its first 16
/// bytes read lossily as UTF-8, trimmed, then cut at `/`.
pub open spec fn member_name(h: Seq<u8>) -> Seq<char> {
    ar_name(trim(lossy(h.take(16))))
}

/// The size of the member a 60-byte ar header describes: bytes 48 to 58 read
/// as a decimal `usize`; anything unreadable counts as 0.
pub open spec fn member_size(h: Seq<u8>) -> nat {
    match text_of(h.subrange(48, 58)) {
        Some(t) => match parse_unsigned(trim(t), usize::MAX as nat) {
            Some(n) => n,
            None => 0,
        },
        None => 0,
    }
}

/// Whether a tar entry's path names the control file.
pub open spec fn is_control_path(p: Seq<char>) -> bool {
    p == "control"@ || p == "./control"@
}

/// `acc` followed by the text of each listed entry that is the control
/// file, in order; `None` when one of them is not UTF-8.
pub open spec fn control_texts(acc: Seq<char>, es: Seq<(Seq<u8>, Seq<u8>)>) -> Option<Seq<char>>
    decreases es.len(),
{
    if es.len() == 0 {
        Some(acc)
    } else if is_control_path(lossy(es[0].0)) {
        match text_of(es[0].1) {
            Some(t) => control_texts(acc + t, es.drop_first()),
            None => None,
        }
    } else {
        control_texts(acc, es.drop_first())
    }
}

/// Why reading the control file out of a `.deb` stopped.
pub enum ReadFault {
    /// A member's data runs past the end of the file.
    ArData,
    /// An odd-sized member's padding byte is missing.
    ArPadding,
    /// The control archive is not zstd data that decodes.
    Decode,
    /// The tar archive inside could not be read (with the error's text).
    Archive,
    /// A control file is not UTF-8.
    NotText,
}

/// One `control.tar*` member read into the control text `acc`: its data is
/// decoded as zstd (the decoder is made without looking at the data, so
/// other data fails here), and when anything comes out, the text of each
/// control file in the tar archive is appended.
pub open spec fn member_step(acc: Seq<char>, d: Seq<u8>) -> Result<Seq<char>, (ReadFault, Seq<char>)> {
    match zstd_decode(d) {
        None => Err((ReadFault::Decode, Seq::empty())),
        Some(x) => if x.len() == 0 {
            Ok(acc)
        } else {
            match control_texts(acc, tar_listing(x).0) {
                None => Err((ReadFault::NotText, Seq::empty())),
                Some(t) => match tar_listing(x).1 {
                    Some(e) => Err((ReadFault::Archive, e)),
                    None => Ok(t),
                },
            }
        },
    }
}

/// The ar members from offset `pos` on, read into the control text `acc`:
/// a header that does not fit ends the archive; each member's data is
/// followed by a padding byte when its size is odd.
pub open spec fn control_scan(deb: Seq<u8>, pos: int, acc: Seq<char>) -> Result<Seq<char>, (ReadFault, Seq<char>)>
    decreases deb.len() - pos,
{
    if pos < 0 || pos + 60 > deb.len() {
        Ok(acc)
    } else {
        let h = deb.subrange(pos, pos + 60);
        let size = member_size(h) as int;
        let start = pos + 60;
        if start + size > deb.len() {
            Err((ReadFault::ArData, Seq::empty()))
        } else if size % 2 == 1 && start + size + 1 > deb.len() {
            Err((ReadFault::ArPadding, Seq::empty()))
        } else {
            let next = start + size + size % 2;
            if starts_with(member_name(h), "control.tar"@) {
                match member_step(acc, deb.subrange(start, start + size)) {
                    Err(f) => Err(f),
                    Ok(a) => control_scan(deb, next, a),
                }
            } else {
                control_scan(deb, next, acc)
            }
        }
    }
}

/// The error a fault is reported as.
pub open spec fn fault_error(f: (ReadFault, Seq<char>), e: SpmError) -> bool {
    match f.0 {
        ReadFault::ArData => e matches SpmError::Other(m) && m@ == "Failed to read ar data: failed to fill whole buffer"@,
        ReadFault::ArPadding => e matches SpmError::Other(m) && m@ == "Failed to read ar padding: failed to fill whole buffer"@,
        ReadFault::Decode => e is Io,
        ReadFault::Archive => e matches SpmError::Io(m) && m@ == f.1,
        ReadFault::NotText => e matches SpmError::Io(m) && m@ == "stream did not contain valid UTF-8"@,
    }
}

/// What reading the package out of the bytes `deb` of a `.deb` file at
/// `path` gives.
pub open spec fn deb_control_result(deb: Seq<u8>, path: Seq<char>, r: Result<Package, SpmError>) -> bool {
    if deb.len() < 8 {
        r matches Err(SpmError::InvalidFormat(m)) && m@ == "Failed to read ar magic: failed to fill whole buffer"@
    } else if deb.take(8) != ar_magic() {
        r matches Err(SpmError::InvalidFormat(m)) && m@ == "Invalid .deb file: not an ar archive"@
    } else {
        match control_scan(deb, 8, Seq::empty()) {
            Err(f) => r matches Err(e) && fault_error(f, e),
            Ok(t) => if t.len() == 0 {
                r matches Err(SpmError::InvalidFormat(m)) && m@ == "No control file found in .deb"@
            } else {
                r matches Ok(p) && p@ == control_package(t, path)
            },
        }
    }
}

fn ar_magic_ok(deb: &[u8]) -> (b: bool)
    requires
        deb@.len() >= 8,
    ensures
        b == (deb@.take(8) == ar_magic()),
{
    let b = deb[0] == 33u8 && deb[1] == 60u8 && deb[2] == 97u8 && deb[3] == 114u8 && deb[4] == 99u8
        && deb[5] == 104u8 && deb[6] == 62u8 && deb[7] == 10u8;
    proof {
        let t = deb@.take(8);
        if b {
            assert(t =~= ar_magic());
        } else if t == ar_magic() {
            assert(t[0] == deb@[0] && t[1] == deb@[1] && t[2] == deb@[2] && t[3] == deb@[3]);
            assert(t[4] == deb@[4] && t[5] == deb@[5] && t[6] == deb@[6] && t[7] == deb@[7]);
        }
    }
    b
}

fn header_name(deb: &[u8], pos: usize) -> (r: String)
    requires
        pos + 60 <= deb@.len(),
    ensures
        r@ == member_name(deb@.subrange(pos as int, pos + 60)),
{
    let _n = deb.len();
    let raw = utf8_lossy(vstd::slice::slice_subrange(deb, pos, pos + 16));
    let v = chars_of(raw.as_str());
    let (a, z) = trim_range(&v, 0, v.len());
    let t = string_of(&v, a, z);
    proof {
        assert(deb@.subrange(pos as int, pos + 60).take(16) =~= deb@.subrange(pos as int, pos + 16));
        assert(v@.subrange(0, v@.len() as int) =~= v@);
    }
    normalize_ar_name(t.as_str())
}

fn header_size(deb: &[u8], pos: usize) -> (n: usize)
    requires
        pos + 60 <= deb@.len(),
    ensures
        n as nat == member_size(deb@.subrange(pos as int, pos + 60)),
{
    let _n = deb.len();
    let b = vstd::slice::slice_to_vec(vstd::slice::slice_subrange(deb, pos + 48, pos + 58));
    proof {
        assert(deb@.subrange(pos as int, pos + 60).subrange(48, 58) =~= b@);
    }
    match string_from_utf8(b) {
        Err(_) => 0,
        Ok(s) => {
            let v = chars_of(s.as_str());
            let (a, z) = trim_range(&v, 0, v.len());
            proof {
                assert(v@.subrange(0, v@.len() as int) =~= v@);
            }
            match parse_u64(&v, a, z) {
                Some(n) => if n <= usize::MAX as u64 {
                    n as usize
                } else {
                    0
                },
                None => 0,
            }
        },
    }
}

fn append_control_texts(acc: &mut String, es: &Vec<(Vec<u8>, Vec<u8>)>) -> (ok: bool)
    ensures
        match control_texts(old(acc)@, pairs_view(es@)) {
            Some(t) => ok && final(acc)@ == t,
            None => !ok,
        },
{
    let ghost pv = pairs_view(es@);
    let ghost a0 = acc@;
    let mut i: usize = 0;
    proof {
        assert(a0 == old(acc)@);
        assert(pv.skip(0) =~= pv);
    }
    while i < es.len()
        invariant
            i <= es@.len(),
            pv == pairs_view(es@),
            a0 == old(acc)@,
            control_texts(a0, pv) == control_texts(acc@, pv.skip(i as int)),
        decreases es.len() - i,
    {
        proof {
            assert(pv.skip(i as int)[0] == (es@[i as int].0@, es@[i as int].1@));
            assert(pv.skip(i as int).drop_first() =~= pv.skip(i + 1));
        }
        let name = utf8_lossy(es[i].0.as_slice());
        if str_eq(name.as_str(), "control") || str_eq(name.as_str(), "./control") {
            let data = vstd::slice::slice_to_vec(es[i].1.as_slice());
            match string_from_utf8(data) {
                Ok(t) => push_str(acc, t.as_str()),
                Err(_) => {
                    proof {
                        assert(is_control_path(lossy(pv.skip(i as int)[0].0)));
                        assert(text_of(pv.skip(i as int)[0].1) is None);
                        assert(pv.skip(i as int).len() > 0);
                        assert(control_texts(acc@, pv.skip(i as int)) is None);
                    }
                    return false;
                },
            }
        }
        i += 1;
    }
    proof {
        assert(pv.skip(i as int).len() == 0);
    }
    true
}

fn control_member(acc: &mut String, d: &[u8]) -> (r: Result<(), SpmError>)
    ensures
        match member_step(old(acc)@, d@) {
            Ok(t) => r is Ok && final(acc)@ == t,
            Err(f) => r matches Err(e) && fault_error(f, e),
        },
{
    match unzstd(d) {
        Err(e) => Err(SpmError::Io(e)),
        Ok(x) => {
            if x.len() == 0 {
                return Ok(());
            }
            let (es, fault) = tar_entries(x.as_slice());
            if !append_control_texts(acc, &es) {
                return Err(SpmError::Io(message("stream did not contain valid UTF-8")));
            }
            match fault {
                Some(e) => Err(SpmError::Io(e)),
                None => Ok(()),
            }
        },
    }
}

/// Reads the package out of the bytes of a `.deb` file without `dpkg-deb`:
/// the ar members are walked, each `control.tar*` member is unpacked and
/// its control file read, and the text is parsed as a control paragraph
/// with `path` as its origin.
pub fn deb_control_package(deb: &[u8], path: &str) -> (r: Result<Package, SpmError>)
    ensures
        deb_control_result(deb@, path@, r),
{
    if deb.len() < 8 {
        return Err(SpmError::InvalidFormat(message("Failed to read ar magic: failed to fill whole buffer")));
    }
    if !ar_magic_ok(deb) {
        return Err(SpmError::InvalidFormat(message("Invalid .deb file: not an ar archive")));
    }
    let mut content = String::new();
    let mut pos: usize = 8;
    while deb.len() - pos >= 60
        invariant
            8 <= pos <= deb@.len(),
            deb@.len() >= 8 && deb@.take(8) == ar_magic(),
            control_scan(deb@, 8, Seq::empty()) == control_scan(deb@, pos as int, content@),
        decreases deb.len() - pos,
    {
        let name = header_name(deb, pos);
        let size = header_size(deb, pos);
        let start = pos + 60;
        if deb.len() - start < size {
            return Err(SpmError::Other(message("Failed to read ar data: failed to fill whole buffer")));
        }
        let end = start + size;
        if size % 2 == 1 && deb.len() - end < 1 {
            return Err(SpmError::Other(message("Failed to read ar padding: failed to fill whole buffer")));
        }
        if text_starts_with(name.as_str(), "control.tar") {
            let r = control_member(&mut content, vstd::slice::slice_subrange(deb, start, end));
            if let Err(e) = r {
                return Err(e);
            }
        }
        pos = end + size % 2;
    }
    if content.as_str().is_empty() {
        return Err(SpmError::InvalidFormat(message("No control file found in .deb")));
    }
    parse_deb822(content.as_str(), path)
}

} // verus!
