//! Bringing the packages that dpkg or rpm installed into spm's database:
//! reading the system's lists and deciding what to import and what to
//! drop.
use vstd::prelude::*;
use crate::error::SpmError;
use crate::text::{
    chars_of, contains_str, lines, next_line, owned, push_decimal, push_str, decimal, starts_with,
    starts_with_str, string_of, strings_view, trim, trim_range,
};
use crate::types::db::{FileAction, FileRecord, InstallOrigin, InstallType, InstalledPackage};
use crate::types::package::PackageFormat;

verus! {

// ---------------------------------------------------------------------------
// dpkg's status file
// ---------------------------------------------------------------------------

/// What is known while reading a status file: the package and version of
/// the paragraph being read, and the packages read so far.
pub struct StatusState {
    pub name: Option<Seq<char>>,
    pub version: Option<Seq<char>>,
    pub found: Seq<(Seq<char>, Seq<char>)>,
}

/// One line: a blank line ends a paragraph (which counts when it gave
/// both a package and a version); `Package: ` and `Version: ` lines set
/// them, blanks trimmed.
pub open spec fn status_step(st: StatusState, line: Seq<char>) -> StatusState {
    if trim(line).len() == 0 {
        StatusState {
            name: None,
            version: None,
            found: match (st.name, st.version) {
                (Some(n), Some(v)) => st.found.push((n, v)),
                _ => st.found,
            },
        }
    } else if starts_with(line, "Package: "@) {
        StatusState { name: Some(trim(line.skip(9))), ..st }
    } else if starts_with(line, "Version: "@) {
        StatusState { version: Some(trim(line.skip(9))), ..st }
    } else {
        st
    }
}

pub open spec fn status_fold(ls: Seq<Seq<char>>, st: StatusState) -> StatusState
    decreases ls.len(),
{
    if ls.len() == 0 {
        st
    } else {
        status_fold(ls.drop_first(), status_step(st, ls[0]))
    }
}

pub open spec fn status_end(st: StatusState) -> Seq<(Seq<char>, Seq<char>)> {
    match (st.name, st.version) {
        (Some(n), Some(v)) => st.found.push((n, v)),
        _ => st.found,
    }
}

/// The (package, version) pairs of a dpkg status file, in order.
pub open spec fn status_packages(content: Seq<char>) -> Seq<(Seq<char>, Seq<char>)> {
    status_end(status_fold(lines(content), StatusState { name: None, version: None, found: Seq::empty() }))
}

pub open spec fn pairs_view(v: Seq<(String, String)>) -> Seq<(Seq<char>, Seq<char>)> {
    v.map_values(|p: (String, String)| (p.0@, p.1@))
}

fn opt_owned(o: &Option<String>) -> (r: Option<String>)
    ensures
        crate::package::scripts::opt_text(r) == crate::package::scripts::opt_text(*o),
{
    match o {
        Some(s) => Some(owned(s.as_str())),
        None => None,
    }
}

/// The packages and versions that dpkg's status file `content` lists.
pub fn parse_deb822_status(content: &str) -> (r: Vec<(String, String)>)
    ensures
        pairs_view(r@) == status_packages(content@),
{
    let v = chars_of(content);
    let n = v.len();
    let ghost all = lines(content@);
    let ghost k: int = 0;
    let mut out: Vec<(String, String)> = Vec::new();
    let mut name: Option<String> = None;
    let mut version: Option<String> = None;
    let mut pos: usize = 0;
    proof {
        assert(v@.skip(0) =~= content@);
        assert(all.skip(0) =~= all);
        assert(pairs_view(out@) =~= Seq::<(Seq<char>, Seq<char>)>::empty());
    }
    while pos < n
        invariant
            n == v@.len(),
            v@ == content@,
            pos <= n,
            all == lines(content@),
            0 <= k <= all.len(),
            lines(v@.skip(pos as int)) == all.skip(k),
            status_packages(content@) == status_end(
                status_fold(
                    all.skip(k),
                    StatusState {
                        name: crate::package::scripts::opt_text(name),
                        version: crate::package::scripts::opt_text(version),
                        found: pairs_view(out@),
                    },
                ),
            ),
        decreases n - pos,
    {
        let (e, next) = next_line(&v, pos);
        let ghost l = v@.subrange(pos as int, e as int);
        let ghost st = StatusState {
            name: crate::package::scripts::opt_text(name),
            version: crate::package::scripts::opt_text(version),
            found: pairs_view(out@),
        };
        proof {
            let ls = lines(v@.skip(pos as int));
            assert(ls[0] == l);
            assert(ls.len() >= 1);
            assert(all.skip(k)[0] == all[k]);
            assert(ls.drop_first() =~= lines(v@.skip(next as int)));
            assert(all.skip(k + 1) =~= all.skip(k).drop_first());
            reveal_strlit("Package: ");
            reveal_strlit("Version: ");
        }
        let (a, b) = trim_range(&v, pos, e);
        if a == b {
            let ghost before = pairs_view(out@);
            match (&name, &version) {
                (Some(nm), Some(vr)) => {
                    out.push((owned(nm.as_str()), owned(vr.as_str())));
                    proof {
                        assert(pairs_view(out@) =~= before.push((nm@, vr@)));
                    }
                },
                _ => {},
            }
            name = None;
            version = None;
        } else if starts_with_str(&v, pos, e, "Package: ") {
            let (c, d) = trim_range(&v, pos + 9, e);
            proof {
                assert(l.skip(9) =~= v@.subrange(pos + 9, e as int));
            }
            name = Some(string_of(&v, c, d));
        } else if starts_with_str(&v, pos, e, "Version: ") {
            let (c, d) = trim_range(&v, pos + 9, e);
            proof {
                assert(l.skip(9) =~= v@.subrange(pos + 9, e as int));
            }
            version = Some(string_of(&v, c, d));
        }
        proof {
            assert(status_step(st, l) == StatusState {
                name: crate::package::scripts::opt_text(name),
                version: crate::package::scripts::opt_text(version),
                found: pairs_view(out@),
            });
            k = k + 1;
        }
        pos = next;
    }
    proof {
        assert(v@.skip(n as int) =~= Seq::<char>::empty());
        assert(all.skip(k).len() == 0);
    }
    match (&name, &version) {
        (Some(nm), Some(vr)) => {
            let ghost before = pairs_view(out@);
            out.push((owned(nm.as_str()), owned(vr.as_str())));
            proof {
                assert(pairs_view(out@) =~= before.push((nm@, vr@)));
            }
        },
        _ => {},
    }
    out
}

/// The files of a dpkg file list (`/var/lib/dpkg/info/<pkg>.list`): its
/// non-empty lines.
pub open spec fn list_files(ls: Seq<Seq<char>>) -> Seq<Seq<char>> {
    ls.filter(|l: Seq<char>| l.len() > 0)
}

pub fn dpkg_list_files(content: &str) -> (r: Vec<String>)
    ensures
        strings_view(r@) == list_files(lines(content@)),
{
    let v = chars_of(content);
    let n = v.len();
    let ghost all = lines(content@);
    let ghost k: int = 0;
    let mut out: Vec<String> = Vec::new();
    let mut pos: usize = 0;
    proof {
        assert(v@.skip(0) =~= content@);
        assert(all.take(0) =~= Seq::<Seq<char>>::empty());
        assert(all.take(0).filter(|l: Seq<char>| l.len() > 0) =~= Seq::<Seq<char>>::empty());
    }
    while pos < n
        invariant
            n == v@.len(),
            v@ == content@,
            pos <= n,
            all == lines(content@),
            0 <= k <= all.len(),
            lines(v@.skip(pos as int)) == all.skip(k),
            strings_view(out@) == list_files(all.take(k)),
        decreases n - pos,
    {
        let (e, next) = next_line(&v, pos);
        let ghost l = v@.subrange(pos as int, e as int);
        proof {
            let ls = lines(v@.skip(pos as int));
            assert(ls[0] == l);
            assert(ls.len() >= 1);
            assert(all.skip(k)[0] == all[k]);
            assert(ls.drop_first() =~= lines(v@.skip(next as int)));
            assert(all.skip(k + 1) =~= all.skip(k).drop_first());
            assert(all.take(k + 1) =~= all.take(k).push(l));
            reveal_with_fuel(Seq::filter, 2);
            Seq::filter_distributes_over_add(all.take(k), seq![l], |l: Seq<char>| l.len() > 0);
            assert(all.take(k) + seq![l] =~= all.take(k).push(l));
        }
        if e > pos {
            let ghost before = strings_view(out@);
            out.push(string_of(&v, pos, e));
            assert(strings_view(out@) =~= before.push(l));
        }
        proof {
            k = k + 1;
        }
        pos = next;
    }
    proof {
        assert(v@.skip(n as int) =~= Seq::<char>::empty());
        assert(all.skip(k).len() == 0);
        assert(all.take(k) =~= all);
    }
    out
}

// ---------------------------------------------------------------------------
// What a sync does
// ---------------------------------------------------------------------------

pub open spec fn no_manager_text() -> Seq<char> {
    "No supported system package manager found (dpkg/rpm). Nothing to sync."@
}

/// Which system list a sync reads: dpkg's when there is one, else rpm's;
/// an error when there is neither.
pub fn sync_source(has_dpkg: bool, has_rpm: bool) -> (r: Result<PackageFormat, SpmError>)
    ensures
        has_dpkg ==> r == Ok::<PackageFormat, SpmError>(PackageFormat::Deb),
        !has_dpkg && has_rpm ==> r == Ok::<PackageFormat, SpmError>(PackageFormat::Rpm),
        !has_dpkg && !has_rpm ==> (r matches Err(SpmError::Other(m)) && m@ == no_manager_text()),
{
    if has_dpkg {
        Ok(PackageFormat::Deb)
    } else if has_rpm {
        Ok(PackageFormat::Rpm)
    } else {
        Err(SpmError::Other(owned("No supported system package manager found (dpkg/rpm). Nothing to sync.")))
    }
}

/// The positions of the system's packages that spm does not know yet, in
/// order: those are imported.
pub open spec fn to_import(system: Seq<(Seq<char>, Seq<char>)>, known: Seq<Seq<char>>) -> Seq<int>
    decreases system.len(),
{
    if system.len() == 0 {
        Seq::empty()
    } else if known.contains(system.last().0) {
        to_import(system.drop_last(), known)
    } else {
        to_import(system.drop_last(), known).push(system.len() - 1)
    }
}

pub fn sync_imports(system: &Vec<(String, String)>, known: &Vec<String>) -> (r: Vec<usize>)
    ensures
        r@.map_values(|i: usize| i as int) == to_import(pairs_view(system@), strings_view(known@)),
{
    let ghost sv = pairs_view(system@);
    let mut out: Vec<usize> = Vec::new();
    let mut i: usize = 0;
    proof {
        assert(out@.map_values(|i: usize| i as int) =~= to_import(sv.take(0), strings_view(known@)));
    }
    while i < system.len()
        invariant
            i <= system@.len(),
            sv == pairs_view(system@),
            out@.map_values(|i: usize| i as int) == to_import(sv.take(i as int), strings_view(known@)),
        decreases system.len() - i,
    {
        proof {
            assert(sv.take(i + 1).drop_last() =~= sv.take(i as int));
            assert(sv.take(i + 1).last() == sv[i as int]);
        }
        if !contains_str(known, system[i].0.as_str()) {
            let ghost before = out@.map_values(|i: usize| i as int);
            out.push(i);
            assert(out@.map_values(|i: usize| i as int) =~= before.push(i as int));
        }
        i += 1;
    }
    proof {
        assert(sv.take(sv.len() as int) =~= sv);
    }
    out
}

/// The names spm knows that the system no longer lists, in the order
/// given: those entries that came from the system are dropped by a sync
/// that prunes.
pub open spec fn stale(known: Seq<Seq<char>>, system: Seq<(Seq<char>, Seq<char>)>) -> Seq<Seq<char>> {
    known.filter(|n: Seq<char>| !(exists|j: int| 0 <= j < system.len() && (#[trigger] system[j]).0 == n))
}

pub fn sync_stale(known: &Vec<String>, system: &Vec<(String, String)>) -> (r: Vec<String>)
    ensures
        strings_view(r@) == stale(strings_view(known@), pairs_view(system@)),
{
    let ghost kv = strings_view(known@);
    let ghost sv = pairs_view(system@);
    let ghost pred = |n: Seq<char>| !(exists|j: int| 0 <= j < sv.len() && (#[trigger] sv[j]).0 == n);
    let mut out: Vec<String> = Vec::new();
    let mut i: usize = 0;
    proof {
        assert(kv.take(0).filter(pred) =~= Seq::<Seq<char>>::empty());
    }
    while i < known.len()
        invariant
            i <= known@.len(),
            kv == strings_view(known@),
            sv == pairs_view(system@),
            pred == (|n: Seq<char>| !(exists|j: int| 0 <= j < sv.len() && (#[trigger] sv[j]).0 == n)),
            strings_view(out@) == kv.take(i as int).filter(pred),
        decreases known.len() - i,
    {
        let mut j: usize = 0;
        let mut present = false;
        while j < system.len()
            invariant
                j <= system@.len(),
                sv == pairs_view(system@),
                i < known@.len(),
                present == exists|x: int| 0 <= x < j && (#[trigger] sv[x]).0 == known@[i as int]@,
            decreases system.len() - j,
        {
            if crate::text::str_eq(system[j].0.as_str(), known[i].as_str()) {
                present = true;
            }
            proof {
                assert(sv[j as int].0 == system@[j as int].0@);
            }
            j += 1;
        }
        proof {
            let l = kv[i as int];
            assert(l == known@[i as int]@);
            assert(kv.take(i + 1) =~= kv.take(i as int).push(l));
            reveal_with_fuel(Seq::filter, 2);
            Seq::filter_distributes_over_add(kv.take(i as int), seq![l], pred);
            assert(kv.take(i as int) + seq![l] =~= kv.take(i as int).push(l));
        }
        if !present {
            let ghost before = strings_view(out@);
            out.push(owned(known[i].as_str()));
            assert(strings_view(out@) =~= before.push(kv[i as int]));
        }
        i += 1;
    }
    proof {
        assert(kv.take(kv.len() as int) =~= kv);
    }
    out
}

/// The database entry of a system package imported by a sync.
pub fn foreign_package(name: &str, version: &str, format: PackageFormat, date: String) -> (p: InstalledPackage)
    ensures
        p.name@ == name@,
        p.version@ == version@,
        p.format == format,
        p.install_type == InstallType::Native,
        p.manifest is None,
        p.install_date == date,
        p.source_repo matches Some(s) && s@ == "foreign:system"@,
        p.store_hash is None,
        p.origin == InstallOrigin::Foreign,
{
    InstalledPackage {
        name: owned(name),
        version: owned(version),
        format,
        install_type: InstallType::Native,
        manifest: None,
        install_date: date,
        source_repo: Some(owned("foreign:system")),
        store_hash: None,
        origin: InstallOrigin::Foreign,
    }
}

/// The record of a file of an imported system package.
pub fn foreign_file_record(name: &str, format: PackageFormat, path: String) -> (r: FileRecord)
    ensures
        r.id is None,
        r.transaction_id == 0,
        r.package@ == name@,
        r.format == format,
        r.filepath == path,
        r.hash@.len() == 0,
        r.action == FileAction::Created,
{
    FileRecord {
        id: None,
        transaction_id: 0,
        package: owned(name),
        format,
        filepath: path,
        hash: String::new(),
        action: FileAction::Created,
    }
}

pub open spec fn sync_summary(spm: nat, foreign: nat) -> Seq<char> {
    "Sync complete: "@ + decimal(spm) + " spm-managed + "@ + decimal(foreign) + " foreign = "@ + decimal(spm + foreign)
        + " total"@
}

/// The closing line of a sync.
pub fn sync_summary_text(spm: u64, foreign: u64) -> (r: String)
    requires
        spm + foreign <= u64::MAX,
    ensures
        r@ == sync_summary(spm as nat, foreign as nat),
{
    let mut r = String::new();
    push_str(&mut r, "Sync complete: ");
    push_decimal(&mut r, spm);
    push_str(&mut r, " spm-managed + ");
    push_decimal(&mut r, foreign);
    push_str(&mut r, " foreign = ");
    push_decimal(&mut r, spm + foreign);
    push_str(&mut r, " total");
    r
}

} // verus!
