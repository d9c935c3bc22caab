//! Fetching packages: the decisions made on repository metadata.
pub mod debian;
pub mod download;
pub mod gs;
pub mod scan;
pub mod verify;

use vstd::prelude::*;
use crate::error::SpmError;
use crate::package::fetch::debian::{store_pending, Deb822Entry};
use crate::text::{
    chars_of, contains_str, eq_ignore_ascii_case, eq_ignore_case, find_char, idx_of, lines,
    next_line, owned, push_range, push_str, starts_with, starts_with_str, str_eq, string_of, strings_view, trim, trim_range, words,
    words_of,
};
use crate::util::path::{file_name, file_name_of};
use vstd::string::StrSliceExecFns;
use crate::types::db::InstalledPackage;
use crate::types::package::{opt_view, Manifest, PackageSource};

verus! {

/// A file of a package that another package already owns.
pub struct PackageConflict {
    pub owner: String,
}

// ---------------------------------------------------------------------------
// One paragraph of a Packages file
// ---------------------------------------------------------------------------

/// Whether a paragraph is the one of package `name` (ASCII case ignored).
pub open spec fn names_package(m: Map<Seq<char>, Seq<char>>, name: Seq<char>) -> bool {
    m.contains_key("Package"@) && eq_ignore_case(m["Package"@], name)
}

/// The state of the search: the current paragraph and its pending field.
pub type EntryState = (Map<Seq<char>, Seq<char>>, Seq<char>, Seq<char>);

/// The paragraph of package `name` among the lines `ls`, reading from state
/// `st`.  A paragraph is looked at when a blank line ends it (its pending
/// field is stored only after the look) and at the end of the text.
pub open spec fn entry_search(st: EntryState, ls: Seq<Seq<char>>, name: Seq<char>) -> Option<
    Map<Seq<char>, Seq<char>>,
>
    decreases ls.len(),
{
    let (m, k, v) = st;
    if ls.len() == 0 {
        let m2 = store_pending(m, k, v);
        if names_package(m2, name) {
            Some(m2)
        } else {
            None
        }
    } else {
        let line = ls[0];
        if line.len() == 0 {
            if names_package(m, name) {
                Some(store_pending(m, k, v))
            } else {
                entry_search((Map::empty(), Seq::empty(), Seq::empty()), ls.drop_first(), name)
            }
        } else if line[0] == ' ' || line[0] == '\t' {
            entry_search((m, k, v + seq![' '] + trim(line)), ls.drop_first(), name)
        } else {
            let i = idx_of(line, ':');
            if i < line.len() {
                entry_search(
                    (store_pending(m, k, v), trim(line.take(i as int)), trim(line.skip((i + 1) as int))),
                    ls.drop_first(),
                    name,
                )
            } else {
                entry_search(st, ls.drop_first(), name)
            }
        }
    }
}

/// The paragraph of package `name` in a Packages file.
pub open spec fn package_entry(text: Seq<char>, name: Seq<char>) -> Option<Map<Seq<char>, Seq<char>>> {
    entry_search((Map::empty(), Seq::empty(), Seq::empty()), lines(text), name)
}

/// Stores the pending field `v[ka..kb]`, if there is one.
fn store_field(entry: &mut Deb822Entry, v: &Vec<char>, ka: usize, kb: usize, value: &String)
    requires
        ka <= kb <= v.len(),
    ensures
        final(entry)@ == store_pending(old(entry)@, v@.subrange(ka as int, kb as int), value@),
{
    if ka < kb {
        let w = chars_of(value.as_str());
        let (a, b) = trim_range(&w, 0, w.len());
        proof {
            assert(w@.subrange(0, w@.len() as int) =~= value@);
        }
        entry.insert(string_of(v, ka, kb), string_of(&w, a, b));
    }
}

/// Whether `entry` is the paragraph of package `name`.
fn is_package(entry: &Deb822Entry, name: &str) -> (r: bool)
    ensures
        r == names_package(entry@, name@),
{
    match entry.get("Package") {
        Some(p) => eq_ignore_ascii_case(p.as_str(), name),
        None => false,
    }
}

/// Finds the paragraph of package `name` in the text of a Packages file.
pub fn parse_deb822_entry(text: &str, name: &str) -> (r: Option<Deb822Entry>)
    ensures
        match package_entry(text@, name@) {
            Some(m) => r matches Some(e) && e@ == m,
            None => r is None,
        },
{
    let v = chars_of(text);
    let n = v.len();
    let mut entry = Deb822Entry::new();
    let mut ka: usize = 0;
    let mut kb: usize = 0;
    let mut value = String::new();
    let ghost goal = package_entry(text@, name@);
    let mut pos: usize = 0;
    proof {
        assert(v@.skip(0) =~= text@);
        assert(v@.subrange(0, 0) =~= Seq::<char>::empty());
    }
    while pos < n
        invariant
            pos <= n == v.len(),
            ka <= kb <= n,
            v@ == text@,
            goal == package_entry(text@, name@),
            goal == entry_search((entry@, v@.subrange(ka as int, kb as int), value@), lines(v@.skip(pos as int)), name@),
        decreases n - pos,
    {
        let ghost ls = lines(v@.skip(pos as int));
        let (e, nx) = next_line(&v, pos);
        let ghost line = v@.subrange(pos as int, e as int);
        proof {
            assert(ls[0] == line);
            assert(ls.drop_first() =~= lines(v@.skip(nx as int)));
            assert(line.len() > 0 ==> line[0] == v@[pos as int]);
            assert(v@.subrange(0, 0) =~= Seq::<char>::empty());
        }
        if e == pos {
            if is_package(&entry, name) {
                store_field(&mut entry, &v, ka, kb, &value);
                return Some(entry);
            }
            entry = Deb822Entry::new();
            ka = 0;
            kb = 0;
            value = String::new();
            proof {
                assert(goal == entry_search((entry@, v@.subrange(ka as int, kb as int), value@), ls.drop_first(), name@));
            }
        } else if v[pos] == ' ' || v[pos] == '\t' {
            let ghost old_value = value@;
            value.push(' ');
            let (a, b) = trim_range(&v, pos, e);
            push_range(&mut value, &v, a, b);
            proof {
                assert(value@ =~= old_value + seq![' '] + trim(line));
                assert(goal == entry_search((entry@, v@.subrange(ka as int, kb as int), value@), ls.drop_first(), name@));
            }
        } else {
            let i = find_char(&v, pos, e, ':');
            if i < e {
                store_field(&mut entry, &v, ka, kb, &value);
                let (a, b) = trim_range(&v, pos, i);
                let (c, d) = trim_range(&v, i + 1, e);
                ka = a;
                kb = b;
                value = string_of(&v, c, d);
                proof {
                    assert(line.take(i - pos) =~= v@.subrange(pos as int, i as int));
                    assert(line.skip(i - pos + 1) =~= v@.subrange(i + 1, e as int));
                }
            }
        }
        pos = nx;
    }
    proof {
        assert(v@.skip(n as int) =~= Seq::<char>::empty());
        assert(lines(v@.skip(n as int)) =~= Seq::<Seq<char>>::empty());
    }
    store_field(&mut entry, &v, ka, kb, &value);
    if is_package(&entry, name) {
        Some(entry)
    } else {
        None
    }
}

// ---------------------------------------------------------------------------
// Conflicts
// ---------------------------------------------------------------------------

/// The owners to remove, in order of first appearance and without repeats:
/// every owner other than `name`, and `name` itself unless `replace`.
pub open spec fn conflicting_run(owners: Seq<Seq<char>>, replace: bool, name: Seq<char>, acc: Seq<Seq<char>>) -> Seq<Seq<char>>
    decreases owners.len(),
{
    if owners.len() == 0 {
        acc
    } else {
        let o = owners[0];
        let keep = (o != name || !replace) && !acc.contains(o);
        conflicting_run(owners.drop_first(), replace, name, if keep { acc.push(o) } else { acc })
    }
}

pub open spec fn owners_of(conflicts: Seq<PackageConflict>) -> Seq<Seq<char>> {
    conflicts.map_values(|c: PackageConflict| c.owner@)
}

/// The packages whose files the new package `name` takes over.
pub fn collect_conflicting_packages(conflicts: &[PackageConflict], replace: bool, name: &str) -> (r: Vec<String>)
    ensures
        strings_view(r@) == conflicting_run(owners_of(conflicts@), replace, name@, Seq::empty()),
{
    let ghost all = owners_of(conflicts@);
    let mut packages: Vec<String> = Vec::new();
    let mut i: usize = 0;
    proof {
        assert(all.skip(0) =~= all);
        assert(strings_view(packages@) =~= Seq::<Seq<char>>::empty());
    }
    while i < conflicts.len()
        invariant
            i <= conflicts@.len(),
            all == owners_of(conflicts@),
            conflicting_run(all, replace, name@, Seq::empty()) == conflicting_run(
                all.skip(i as int),
                replace,
                name@,
                strings_view(packages@),
            ),
        decreases conflicts.len() - i,
    {
        let owner = &conflicts[i].owner;
        let ghost acc = strings_view(packages@);
        let is_self = crate::text::str_eq(owner.as_str(), name);
        let seen = contains_str(&packages, owner.as_str());
        if (!is_self || !replace) && !seen {
            packages.push(owner.clone());
            proof {
                assert(strings_view(packages@) =~= acc.push(owner@));
            }
        }
        proof {
            let rest = all.skip(i as int);
            assert(rest[0] == owner@);
            assert(rest.drop_first() =~= all.skip(i + 1));
        }
        i += 1;
    }
    proof {
        assert(all.skip(conflicts@.len() as int) =~= Seq::<Seq<char>>::empty());
    }
    packages
}

// ---------------------------------------------------------------------------
// Manifests
// ---------------------------------------------------------------------------

/// The manifest recorded for an installed package: its name and version,
/// the size of its files and its configuration files.
pub fn build_manifest(pkg: &InstalledPackage, total_size: u64, conffiles: Vec<String>) -> (r: Result<Manifest, SpmError>)
    ensures
        r matches Ok(m) && m.name@ == pkg.name@ && m.version@ == pkg.version@ && m.install_size
            == total_size && m.format_version == 1 && m.conffiles == conffiles
            && m.architecture@.len() == 0 && m.dependencies@.len() == 0 && m.source is None
            && m.signature is None && m.systemd_units@.len() == 0 && m.sysusers@.len() == 0
            && m.tmpfiles@.len() == 0 && m.triggers@.len() == 0 && m.obsoletes@.len() == 0,
{
    let mut m = Manifest::named(pkg.name.clone(), pkg.version.clone());
    m.install_size = total_size;
    m.format_version = 1;
    m.conffiles = conffiles;
    Ok(m)
}

/// Whether a manifest read from a `.sam` archive carries the SAM v2
/// fields: units, users, tmpfiles, triggers, obsoletes, configuration
/// files, a format version above 1 or a source.
pub open spec fn has_sam_fields(m: Manifest) -> bool {
    ||| m.systemd_units@.len() > 0
    ||| m.sysusers@.len() > 0
    ||| m.tmpfiles@.len() > 0
    ||| m.triggers@.len() > 0
    ||| m.obsoletes@.len() > 0
    ||| m.conffiles@.len() > 0
    ||| m.format_version > 1
    ||| m.source is Some
}

/// The manifest to record for a fetched package: the one built from its
/// files, with the SAM v2 fields of the archive's own manifest carried
/// over when it has any (the larger format version, and the archive's
/// source and signature where it has them).
pub fn merge_sam_fields(manifest: Manifest, original: Manifest) -> (r: Manifest)
    ensures
        !has_sam_fields(original) ==> r == manifest,
        has_sam_fields(original) ==> r == (Manifest {
            systemd_units: original.systemd_units,
            sysusers: original.sysusers,
            tmpfiles: original.tmpfiles,
            triggers: original.triggers,
            obsoletes: original.obsoletes,
            conffiles: original.conffiles,
            format_version: if original.format_version >= manifest.format_version {
                original.format_version
            } else {
                manifest.format_version
            },
            source: if original.source is Some {
                original.source
            } else {
                manifest.source
            },
            signature: if original.signature is Some {
                original.signature
            } else {
                manifest.signature
            },
            ..manifest
        }),
{
    if original.systemd_units.len() > 0 || original.sysusers.len() > 0 || original.tmpfiles.len() > 0
        || original.triggers.len() > 0 || original.obsoletes.len() > 0 || original.conffiles.len() > 0
        || original.format_version > 1 || original.source.is_some() {
        let mut m = manifest;
        m.systemd_units = original.systemd_units;
        m.sysusers = original.sysusers;
        m.tmpfiles = original.tmpfiles;
        m.triggers = original.triggers;
        m.obsoletes = original.obsoletes;
        m.conffiles = original.conffiles;
        if original.format_version >= m.format_version {
            m.format_version = original.format_version;
        }
        if original.source.is_some() {
            m.source = original.source;
        }
        if original.signature.is_some() {
            m.signature = original.signature;
        }
        m
    } else {
        manifest
    }
}

// ---------------------------------------------------------------------------
// apt over HTTP: the cached Packages files
// ---------------------------------------------------------------------------

/// The cached Packages file of a component: `Packages-<codename or
/// "unknown">-<component>-<arch>`.
pub open spec fn apt_cache_name_spec(codename: Option<Seq<char>>, component: Seq<char>, arch: Seq<char>) -> Seq<char> {
    "Packages-"@ + match codename {
        Some(c) => c,
        None => "unknown"@,
    } + "-"@ + component + "-"@ + arch
}

pub fn apt_cache_name(codename: Option<&str>, component: &str, arch: &str) -> (r: String)
    ensures
        r@ == apt_cache_name_spec(
            match codename {
                Some(c) => Some(c@),
                None => None,
            },
            component@,
            arch@,
        ),
{
    let mut r = String::new();
    push_str(&mut r, "Packages-");
    match codename {
        Some(c) => push_str(&mut r, c),
        None => push_str(&mut r, "unknown"),
    }
    push_str(&mut r, "-");
    push_str(&mut r, component);
    push_str(&mut r, "-");
    push_str(&mut r, arch);
    r
}

/// The checksum on the first line of a `SHA256` field (`<sum> <size>
/// <file>`) that names `filename`.
pub open spec fn sha_search(ls: Seq<Seq<char>>, filename: Seq<char>) -> Option<Seq<char>>
    decreases ls.len(),
{
    if ls.len() == 0 {
        None
    } else {
        let w = words(ls[0]);
        if w.len() >= 3 && w[2] == filename {
            Some(w[0])
        } else {
            sha_search(ls.drop_first(), filename)
        }
    }
}

/// What the search has found: version, file name and checksum.
pub type AptFound = (Seq<char>, Seq<char>, Option<Seq<char>>);

/// The effect of one component's paragraph on what was found.
pub open spec fn apt_found_step(st: AptFound, e: Map<Seq<char>, Seq<char>>) -> AptFound {
    let version = if e.contains_key("Version"@) {
        e["Version"@]
    } else {
        st.0
    };
    let filename = if e.contains_key("Filename"@) {
        e["Filename"@]
    } else {
        st.1
    };
    let sha = if e.contains_key("SHA256"@) {
        match sha_search(lines(e["SHA256"@]), filename) {
            Some(x) => Some(x),
            None => st.2,
        }
    } else {
        st.2
    };
    (version, filename, sha)
}

/// The search over the components' cached files (`None` for one that is
/// missing or unreadable): it stops at the first paragraph after which
/// both a version and a file name are known.
pub open spec fn apt_found_run(st: AptFound, texts: Seq<Option<Seq<char>>>, name: Seq<char>) -> AptFound
    decreases texts.len(),
{
    if texts.len() == 0 {
        st
    } else {
        let e = match texts[0] {
            Some(t) => package_entry(t, name),
            None => None,
        };
        match e {
            None => apt_found_run(st, texts.drop_first(), name),
            Some(m) => {
                let st2 = apt_found_step(st, m);
                if st2.0.len() > 0 && st2.1.len() > 0 {
                    st2
                } else {
                    apt_found_run(st2, texts.drop_first(), name)
                }
            },
        }
    }
}

pub open spec fn texts_view(v: Seq<Option<String>>) -> Seq<Option<Seq<char>>> {
    v.map_values(|o: Option<String>| match o {
        Some(t) => Some(t@),
        None => None,
    })
}

/// The checksum that a `SHA256` field gives `filename`.
pub(crate) fn sha_for(field: &str, filename: &str) -> (r: Option<String>)
    ensures
        match sha_search(lines(field@), filename@) {
            Some(x) => r matches Some(s) && s@ == x,
            None => r is None,
        },
{
    let v = chars_of(field);
    let n = v.len();
    let mut pos: usize = 0;
    proof {
        assert(v@.skip(0) =~= field@);
    }
    while pos < n
        invariant
            n == v@.len(),
            v@ == field@,
            pos <= n,
            sha_search(lines(field@), filename@) == sha_search(lines(v@.skip(pos as int)), filename@),
        decreases n - pos,
    {
        let (e, next) = next_line(&v, pos);
        let line = string_of(&v, pos, e);
        let w = words_of(line.as_str());
        proof {
            let ls = lines(v@.skip(pos as int));
            assert(ls[0] == line@);
            assert(ls.drop_first() =~= lines(v@.skip(next as int)));
        }
        if w.len() >= 3 && str_eq(w[2].as_str(), filename) {
            proof {
                assert(strings_view(w@)[2] == w@[2]@);
                assert(strings_view(w@)[0] == w@[0]@);
            }
            return Some(w[0].clone());
        }
        proof {
            if w@.len() >= 3 {
                assert(strings_view(w@)[2] == w@[2]@);
            }
        }
        pos = next;
    }
    proof {
        assert(v@.skip(n as int) =~= Seq::<char>::empty());
    }
    None
}

/// Searches the components' cached Packages files (in order; `None` for a
/// missing or unreadable one) for package `name`: its version, its file
/// name in the pool and the checksum listed for that file.
pub fn apt_lookup(texts: &Vec<Option<String>>, name: &str) -> (r: (String, String, Option<String>))
    ensures
        (r.0@, r.1@, opt_view(r.2)) == apt_found_run((Seq::empty(), Seq::empty(), None), texts_view(texts@), name@),
{
    let mut version = String::new();
    let mut filename = String::new();
    let mut sha: Option<String> = None;
    let ghost goal = apt_found_run((Seq::empty(), Seq::empty(), None), texts_view(texts@), name@);
    let mut i: usize = 0;
    proof {
        assert(texts_view(texts@).skip(0) =~= texts_view(texts@));
    }
    while i < texts.len()
        invariant
            i <= texts@.len(),
            goal == apt_found_run((Seq::empty(), Seq::empty(), None), texts_view(texts@), name@),
            goal == apt_found_run((version@, filename@, opt_view(sha)), texts_view(texts@).skip(i as int), name@),
        decreases texts.len() - i,
    {
        let ghost st = (version@, filename@, opt_view(sha));
        let ghost rest = texts_view(texts@).skip(i as int);
        proof {
            assert(rest[0] == texts_view(texts@)[i as int]);
            assert(texts_view(texts@)[i as int] == match texts@[i as int] {
                Some(t) => Some(t@),
                None => None,
            });
            assert(rest.drop_first() =~= texts_view(texts@).skip(i + 1));
        }
        let entry = match &texts[i] {
            Some(t) => parse_deb822_entry(t.as_str(), name),
            None => None,
        };
        match entry {
            None => {},
            Some(e) => {
                match e.get("Version") {
                    Some(v) => {
                        version = v.clone();
                    },
                    None => {},
                }
                match e.get("Filename") {
                    Some(f) => {
                        filename = f.clone();
                    },
                    None => {},
                }
                match e.get("SHA256") {
                    Some(field) => {
                        match sha_for(field.as_str(), filename.as_str()) {
                            Some(x) => {
                                sha = Some(x);
                            },
                            None => {},
                        }
                    },
                    None => {},
                }
                proof {
                    assert((version@, filename@, opt_view(sha)) == apt_found_step(st, e@));
                }
                if version.as_str().unicode_len() > 0 && filename.as_str().unicode_len() > 0 {
                    proof {
                        assert(apt_found_run(st, rest, name@) == apt_found_step(st, e@));
                    }
                    return (version, filename, sha);
                }
            },
        }
        i += 1;
    }
    proof {
        assert(texts_view(texts@).skip(i as int) =~= Seq::<Option<Seq<char>>>::empty());
    }
    (version, filename, sha)
}

/// `s` without its trailing `/`s (`trim_end_matches('/')`).
pub open spec fn trim_end_slashes(s: Seq<char>) -> Seq<char>
    decreases s.len(),
{
    if s.len() > 0 && s.last() == '/' {
        trim_end_slashes(s.drop_last())
    } else {
        s
    }
}

pub fn trim_end_slashes_exec(s: &str) -> (r: String)
    ensures
        r@ == trim_end_slashes(s@),
{
    let v = chars_of(s);
    let mut k = v.len();
    proof {
        assert(v@.subrange(0, k as int) =~= s@);
    }
    while k > 0 && v[k - 1] == '/'
        invariant
            k <= v@.len(),
            trim_end_slashes(s@) == trim_end_slashes(v@.subrange(0, k as int)),
        decreases k,
    {
        proof {
            assert(v@.subrange(0, k as int).drop_last() =~= v@.subrange(0, k - 1));
        }
        k -= 1;
    }
    string_of(&v, 0, k)
}

pub open spec fn apt_not_found_text(name: Seq<char>, repo: Seq<char>) -> Seq<char> {
    "Package '"@ + name + "' not found in cached apt repository '"@ + repo + "'. Try 'spm update' first."@
}

pub open spec fn no_mirrors_text(repo: Seq<char>) -> Seq<char> {
    "No mirrors configured for apt repo '"@ + repo + "'"@
}

/// The URL to download a package found in the cache from: the first
/// mirror, without trailing slashes, then `/` and the pool file name.  A
/// package without a version or a file name was not found; a repository
/// without mirrors cannot be downloaded from.
pub fn apt_download_url(name: &str, repo_name: &str, mirrors: &Option<Vec<String>>, version: &str, filename: &str)
    -> (r: Result<String, SpmError>)
    requires
        (version@.len() > 0 && filename@.len() > 0 && mirrors is Some) ==> mirrors->0@.len() > 0,
    ensures
        (version@.len() == 0 || filename@.len() == 0) ==> (r matches Err(SpmError::PackageNotFound(m)) && m@
            == apt_not_found_text(name@, repo_name@)),
        (version@.len() > 0 && filename@.len() > 0 && mirrors is None) ==> (r matches Err(SpmError::Config(m))
            && m@ == no_mirrors_text(repo_name@)),
        (version@.len() > 0 && filename@.len() > 0 && mirrors is Some) ==> (r matches Ok(u) && u@
            == trim_end_slashes(mirrors->0@[0]@) + "/"@ + filename@),
{
    if version.unicode_len() == 0 || filename.unicode_len() == 0 {
        let mut m = String::new();
        push_str(&mut m, "Package '");
        push_str(&mut m, name);
        push_str(&mut m, "' not found in cached apt repository '");
        push_str(&mut m, repo_name);
        push_str(&mut m, "'. Try 'spm update' first.");
        return Err(SpmError::PackageNotFound(m));
    }
    match mirrors {
        Some(ms) => {
            let mut u = trim_end_slashes_exec(ms[0].as_str());
            push_str(&mut u, "/");
            push_str(&mut u, filename);
            Ok(u)
        },
        None => {
            let mut m = String::new();
            push_str(&mut m, "No mirrors configured for apt repo '");
            push_str(&mut m, repo_name);
            push_str(&mut m, "'");
            Err(SpmError::Config(m))
        },
    }
}

pub open spec fn sha_mismatch_text(name: Seq<char>, expected: Seq<char>, actual: Seq<char>) -> Seq<char> {
    "SHA256 mismatch for '"@ + name + "': expected "@ + expected + ", got "@ + actual
}

/// Checks a download against the checksum listed for it, if one is.
pub fn check_sha256(name: &str, expected: &Option<String>, actual: &str) -> (r: Result<(), SpmError>)
    ensures
        match expected {
            Some(e) => if e@ == actual@ {
                r is Ok
            } else {
                r matches Err(SpmError::Other(m)) && m@ == sha_mismatch_text(name@, e@, actual@)
            },
            None => r is Ok,
        },
{
    match expected {
        Some(e) => {
            if str_eq(e.as_str(), actual) {
                Ok(())
            } else {
                let mut m = String::new();
                push_str(&mut m, "SHA256 mismatch for '");
                push_str(&mut m, name);
                push_str(&mut m, "': expected ");
                push_str(&mut m, e.as_str());
                push_str(&mut m, ", got ");
                push_str(&mut m, actual);
                Err(SpmError::Other(m))
            }
        },
        None => Ok(()),
    }
}

/// The name of the downloaded `.deb` in the archive cache: the last
/// component of the pool file name, or the package name when it has none.
pub fn deb_file_name(filename: &str, name: &str) -> (r: String)
    ensures
        match file_name_of(filename@) {
            Some(f) => r@ == f,
            None => r@ == name@,
        },
{
    match file_name(filename) {
        Some(f) => f,
        None => owned(name),
    }
}

// ---------------------------------------------------------------------------
// apt-get and dnf command output
// ---------------------------------------------------------------------------

/// The effect of one line of `apt-cache show` on the version: a line that
/// starts with `Version: ` sets it to the rest, trimmed.
pub open spec fn show_version_run(v: Seq<char>, ls: Seq<Seq<char>>) -> Seq<char>
    decreases ls.len(),
{
    if ls.len() == 0 {
        v
    } else {
        let l = ls[0];
        let v2 = if starts_with(l, "Version: "@) {
            trim(l.skip(9))
        } else {
            v
        };
        show_version_run(v2, ls.drop_first())
    }
}

/// The version that `apt-cache show` prints (the last one; empty when it
/// prints none).
pub fn apt_show_version(text: &str) -> (r: String)
    ensures
        r@ == show_version_run(Seq::empty(), lines(text@)),
{
    let v = chars_of(text);
    let n = v.len();
    let mut version = String::new();
    let mut pos: usize = 0;
    proof {
        assert(v@.skip(0) =~= text@);
        reveal_strlit("Version: ");
    }
    while pos < n
        invariant
            n == v@.len(),
            v@ == text@,
            pos <= n,
            show_version_run(Seq::empty(), lines(text@)) == show_version_run(version@, lines(v@.skip(pos as int))),
        decreases n - pos,
    {
        let (e, next) = next_line(&v, pos);
        let ghost l = v@.subrange(pos as int, e as int);
        proof {
            let ls = lines(v@.skip(pos as int));
            assert(ls[0] == l);
            assert(ls.drop_first() =~= lines(v@.skip(next as int)));
        }
        proof {
            reveal_strlit("Version: ");
        }
        if starts_with_str(&v, pos, e, "Version: ") {
            let (a, b) = trim_range(&v, pos + 9, e);
            proof {
                assert(l.skip(9) =~= v@.subrange(pos + 9, e as int));
            }
            version = string_of(&v, a, b);
        }
        pos = next;
    }
    proof {
        assert(v@.skip(n as int) =~= Seq::<char>::empty());
    }
    version
}

/// The effect of one line of `dnf repoquery --info`: `key : value` lines
/// set the version and the architecture.
pub open spec fn info_step(st: (Seq<char>, Seq<char>), l: Seq<char>) -> (Seq<char>, Seq<char>) {
    let i = idx_of(l, ':');
    if i < l.len() {
        let key = trim(l.take(i as int));
        let value = trim(l.skip((i + 1) as int));
        if key == "Version"@ {
            (value, st.1)
        } else if key == "Architecture"@ {
            (st.0, value)
        } else {
            st
        }
    } else {
        st
    }
}

pub open spec fn info_run(st: (Seq<char>, Seq<char>), ls: Seq<Seq<char>>) -> (Seq<char>, Seq<char>)
    decreases ls.len(),
{
    if ls.len() == 0 {
        st
    } else {
        info_run(info_step(st, ls[0]), ls.drop_first())
    }
}

/// The version and architecture that `dnf repoquery --info` prints (the
/// last of each; empty when missing).
pub fn parse_repoquery_info(text: &str) -> (r: (String, String))
    ensures
        (r.0@, r.1@) == info_run((Seq::empty(), Seq::empty()), lines(text@)),
{
    let v = chars_of(text);
    let n = v.len();
    let mut version = String::new();
    let mut arch = String::new();
    let mut pos: usize = 0;
    proof {
        assert(v@.skip(0) =~= text@);
    }
    while pos < n
        invariant
            n == v@.len(),
            v@ == text@,
            pos <= n,
            info_run((Seq::empty(), Seq::empty()), lines(text@)) == info_run(
                (version@, arch@),
                lines(v@.skip(pos as int)),
            ),
        decreases n - pos,
    {
        let (e, next) = next_line(&v, pos);
        let ghost l = v@.subrange(pos as int, e as int);
        proof {
            let ls = lines(v@.skip(pos as int));
            assert(ls[0] == l);
            assert(ls.drop_first() =~= lines(v@.skip(next as int)));
        }
        let c = find_char(&v, pos, e, ':');
        if c < e {
            let (ka, kb) = trim_range(&v, pos, c);
            let (va, vb) = trim_range(&v, c + 1, e);
            proof {
                assert(idx_of(l, ':') == c - pos);
                assert(l.take(c - pos) =~= v@.subrange(pos as int, c as int));
                assert(l.skip(c - pos + 1) =~= v@.subrange(c + 1, e as int));
            }
            if crate::text::same(&v, ka, kb, chars_of("Version").as_slice()) {
                version = string_of(&v, va, vb);
            } else if crate::text::same(&v, ka, kb, chars_of("Architecture").as_slice()) {
                arch = string_of(&v, va, vb);
            }
        } else {
            proof {
                assert(idx_of(l, ':') == l.len());
            }
        }
        pos = next;
    }
    proof {
        assert(v@.skip(n as int) =~= Seq::<char>::empty());
    }
    (version, arch)
}

/// `<name>-<version>.<arch>.rpm`.
pub fn rpm_file_name(name: &str, version: &str, arch: &str) -> (r: String)
    ensures
        r@ == name@ + "-"@ + version@ + "."@ + arch@ + ".rpm"@,
{
    let mut r = String::new();
    push_str(&mut r, name);
    push_str(&mut r, "-");
    push_str(&mut r, version);
    push_str(&mut r, ".");
    push_str(&mut r, arch);
    push_str(&mut r, ".rpm");
    r
}

/// `s` without leading and trailing `"` (`trim_matches('"')`).
pub open spec fn trim_quotes(s: Seq<char>) -> Seq<char>
    decreases s.len(),
{
    if s.len() > 0 && s[0] == '"' {
        trim_quotes(s.drop_first())
    } else if s.len() > 0 && s.last() == '"' {
        trim_quotes(s.drop_last())
    } else {
        s
    }
}

/// The URL of a `baseurl=` line, if the line is one and the URL is HTTP.
pub open spec fn baseurl_of(l: Seq<char>) -> Option<Seq<char>> {
    let t = trim(l);
    if starts_with(t, "baseurl="@) {
        let url = trim_quotes(trim(t.skip(8)));
        if starts_with(url, "http://"@) || starts_with(url, "https://"@) {
            Some(url)
        } else {
            None
        }
    } else {
        None
    }
}

pub open spec fn baseurl_search(ls: Seq<Seq<char>>) -> Option<Seq<char>>
    decreases ls.len(),
{
    if ls.len() == 0 {
        None
    } else {
        match baseurl_of(ls[0]) {
            Some(u) => Some(u),
            None => baseurl_search(ls.drop_first()),
        }
    }
}

fn trim_quotes_range(v: &Vec<char>, lo: usize, hi: usize) -> (r: (usize, usize))
    requires
        lo <= hi <= v@.len(),
    ensures
        lo <= r.0 <= r.1 <= hi,
        v@.subrange(r.0 as int, r.1 as int) == trim_quotes(v@.subrange(lo as int, hi as int)),
{
    let mut a = lo;
    let mut b = hi;
    while a < b && (v[a] == '"' || v[b - 1] == '"')
        invariant
            lo <= a <= b <= hi <= v@.len(),
            trim_quotes(v@.subrange(lo as int, hi as int)) == trim_quotes(v@.subrange(a as int, b as int)),
        decreases b - a,
    {
        proof {
            let t = v@.subrange(a as int, b as int);
            assert(t.drop_first() =~= v@.subrange(a + 1, b as int));
            assert(t.drop_last() =~= v@.subrange(a as int, b - 1));
        }
        if v[a] == '"' {
            a += 1;
        } else {
            b -= 1;
        }
    }
    (a, b)
}

/// The first HTTP `baseurl` of a dnf `.repo` file.
pub fn dnf_baseurl(content: &str) -> (r: Option<String>)
    ensures
        match baseurl_search(lines(content@)) {
            Some(u) => r matches Some(x) && x@ == u,
            None => r is None,
        },
{
    let v = chars_of(content);
    let n = v.len();
    let mut pos: usize = 0;
    proof {
        assert(v@.skip(0) =~= content@);
    }
    while pos < n
        invariant
            n == v@.len(),
            v@ == content@,
            pos <= n,
            baseurl_search(lines(content@)) == baseurl_search(lines(v@.skip(pos as int))),
        decreases n - pos,
    {
        let (e, next) = next_line(&v, pos);
        let ghost l = v@.subrange(pos as int, e as int);
        proof {
            let ls = lines(v@.skip(pos as int));
            assert(ls[0] == l);
            assert(ls.drop_first() =~= lines(v@.skip(next as int)));
        }
        let (ta, tb) = trim_range(&v, pos, e);
        proof {
            reveal_strlit("baseurl=");
        }
        if starts_with_str(&v, ta, tb, "baseurl=") {
            let (ua, ub) = trim_range(&v, ta + 8, tb);
            let (qa, qb) = trim_quotes_range(&v, ua, ub);
            proof {
                let t = v@.subrange(ta as int, tb as int);
                assert(t.skip(8) =~= v@.subrange(ta + 8, tb as int));
            }
            if starts_with_str(&v, qa, qb, "http://") || starts_with_str(&v, qa, qb, "https://") {
                return Some(string_of(&v, qa, qb));
            }
        }
        pos = next;
    }
    proof {
        assert(v@.skip(n as int) =~= Seq::<char>::empty());
    }
    None
}

// ---------------------------------------------------------------------------
// The cross-format fallback
// ---------------------------------------------------------------------------

/// The version of a package fetched in another format: the one its file
/// gives, or `unknown`.
pub fn fallback_version(parsed: Option<String>) -> (r: String)
    ensures
        r@ == match parsed {
            Some(v) => v@,
            None => "unknown"@,
        },
{
    match parsed {
        Some(v) => v,
        None => owned("unknown"),
    }
}

/// The manifest of a package fetched in another format: name, version,
/// format version 1 and its source (the original format and file, from the
/// fallback); everything else empty.
pub fn fallback_manifest(name: &str, version: &str, original_format: &str, original_package: &str) -> (m: Manifest)
    ensures
        m.name@ == name@,
        m.version@ == version@,
        m.format_version == 1,
        m.source matches Some(s) && s.original_format@ == original_format@ && s.original_package@
            == original_package@ && s.repo@ == "cross-format-fallback"@ && s.hash_original@.len() == 0,
        m.architecture@.len() == 0,
        m.dependencies@.len() == 0,
        m.install_size == 0,
        m.signature is None,
        m.systemd_units@.len() == 0,
        m.sysusers@.len() == 0,
        m.tmpfiles@.len() == 0,
        m.triggers@.len() == 0,
        m.obsoletes@.len() == 0,
        m.conffiles@.len() == 0,
{
    let mut m = Manifest::named(owned(name), owned(version));
    m.format_version = 1;
    m.source = Some(PackageSource {
        original_format: owned(original_format),
        original_package: owned(original_package),
        repo: owned("cross-format-fallback"),
        hash_original: String::new(),
    });
    m
}

} // verus!
