//! Upgrade decisions.
use vstd::prelude::*;
use std::cmp::Ordering;
use crate::package::install::format_of_source;
use crate::text::{
    chars_of, eq_ignore_case, lines, next_line, owned, starts_with, starts_with_str, string_of, trim,
    trim_range, Step,
};
use crate::types::config::RepoSource;
use crate::package::solver::{lookup_index, providers_of, providers_view, ProviderView, SonameIndex};
use crate::types::package::PackageFormat;
use crate::types::version::{ordering_of, parse_version, version_order, Version};

verus! {

/// The repository kind that serves a package format.
pub open spec fn source_of_format(format: PackageFormat) -> RepoSource {
    match format {
        PackageFormat::Deb => RepoSource::Deb,
        PackageFormat::Rpm => RepoSource::Rpm,
        PackageFormat::Sam => RepoSource::Native,
    }
}

pub fn format_to_source(format: &PackageFormat) -> (s: RepoSource)
    ensures
        s == source_of_format(*format),
        format_of_source(s) == *format,
{
    match format {
        PackageFormat::Deb => RepoSource::Deb,
        PackageFormat::Rpm => RepoSource::Rpm,
        PackageFormat::Sam => RepoSource::Native,
    }
}

/// An upgrade is due when nothing is recorded as installed, or when the
/// available version is newer.
pub open spec fn upgrade_due(installed: Seq<char>, available: Seq<char>) -> bool {
    installed.len() == 0 || version_order(parse_version(available), parse_version(installed)) > 0
}

pub fn should_upgrade(installed_ver: &str, available_ver: &str) -> (r: bool)
    ensures
        r == upgrade_due(installed_ver@, available_ver@),
{
    if installed_ver.is_empty() {
        return true;
    }
    match Version::compare(available_ver, installed_ver) {
        Ordering::Greater => true,
        _ => false,
    }
}

/// What upgrading a package comes to.
#[derive(Debug, Clone)]
pub enum UpgradeResult {
    UpgradeTo(String),
    UpToDate,
    Obsoleted,
}

pub enum UpgradeView {
    UpgradeTo(Seq<char>),
    UpToDate,
    Obsoleted,
}

impl View for UpgradeResult {
    type V = UpgradeView;

    open spec fn view(&self) -> UpgradeView {
        match self {
            UpgradeResult::UpgradeTo(s) => UpgradeView::UpgradeTo(s@),
            UpgradeResult::UpToDate => UpgradeView::UpToDate,
            UpgradeResult::Obsoleted => UpgradeView::Obsoleted,
        }
    }
}

/// The first version found among the lookups, in order.
pub open spec fn first_found(found: Seq<Option<String>>) -> Option<Seq<char>>
    decreases found.len(),
{
    if found.len() == 0 {
        None
    } else if found[0] is Some {
        Some(found[0]->0@)
    } else {
        first_found(found.drop_first())
    }
}

/// The decision for an installed version, from the lookups in the
/// repositories of its kind: an empty installed version upgrades to
/// `latest`; the first version found decides; a package that no repository
/// knows is obsolete.
pub open spec fn upgrade_decision(installed: Seq<char>, found: Seq<Option<String>>) -> UpgradeView {
    if installed.len() == 0 {
        UpgradeView::UpgradeTo("latest"@)
    } else {
        match first_found(found) {
            Some(avail) => if upgrade_due(installed, avail) {
                UpgradeView::UpgradeTo(avail)
            } else {
                UpgradeView::UpToDate
            },
            None => if found.len() > 0 {
                UpgradeView::UpToDate
            } else {
                UpgradeView::Obsoleted
            },
        }
    }
}

/// Decides the upgrade of a package at `installed_ver`; `found` holds, in
/// repository order, what each repository of the package's kind that could
/// be read offers (`None` when it lists no version).
pub fn check_upgrade(installed_ver: &str, found: &[Option<String>]) -> (r: UpgradeResult)
    ensures
        r@ == upgrade_decision(installed_ver@, found@),
{
    if installed_ver.is_empty() {
        return UpgradeResult::UpgradeTo(owned("latest"));
    }
    let mut i: usize = 0;
    assert(found@.skip(0) =~= found@);
    while i < found.len()
        invariant
            i <= found@.len(),
            installed_ver@.len() != 0,
            first_found(found@) == first_found(found@.skip(i as int)),
        decreases found.len() - i,
    {
        proof {
            assert(found@.skip(i as int)[0] == found@[i as int]);
            assert(found@.skip(i as int).drop_first() =~= found@.skip(i + 1));
        }
        match &found[i] {
            Some(avail) => {
                proof {
                    assert(found@[i as int] is Some && found@[i as int]->0 == *avail);
                    assert(first_found(found@.skip(i as int)) == Some(avail@));
                }
                if should_upgrade(installed_ver, avail.as_str()) {
                    let r = UpgradeResult::UpgradeTo(owned(avail.as_str()));
                    assert(upgrade_due(installed_ver@, avail@));
                    assert(installed_ver@.len() != 0);
                    assert(first_found(found@) == Some(avail@));
                    assert(r@ == UpgradeView::UpgradeTo(avail@));
                    return r;
                }
                return UpgradeResult::UpToDate;
            },
            None => {},
        }
        i += 1;
    }
    assert(found@.skip(i as int).len() == 0);
    if found.len() > 0 {
        UpgradeResult::UpToDate
    } else {
        UpgradeResult::Obsoleted
    }
}

// ---------------------------------------------------------------------------
// Cached Packages files
// ---------------------------------------------------------------------------

/// One line of a Packages file, looking for the version of `name`: the state
/// is whether the current paragraph is `name`'s and the version seen last.
pub open spec fn apt_step(st: (bool, Option<Seq<char>>), line: Seq<char>, name: Seq<char>) -> Step<
    (bool, Option<Seq<char>>),
    Option<Seq<char>>,
> {
    let (in_pkg, version) = st;
    if line.len() == 0 {
        if in_pkg {
            Step::Stop(version)
        } else {
            Step::Go((false, version))
        }
    } else {
        let in2 = if starts_with(line, "Package: "@) {
            eq_ignore_case(trim(line.skip(9)), name)
        } else {
            in_pkg
        };
        let ver2 = if in2 && starts_with(line, "Version: "@) {
            Some(trim(line.skip(9)))
        } else {
            version
        };
        Step::Go((in2, ver2))
    }
}

pub open spec fn apt_run(st: (bool, Option<Seq<char>>), ls: Seq<Seq<char>>, name: Seq<char>) -> Option<Seq<char>>
    decreases ls.len(),
{
    if ls.len() == 0 {
        if st.0 {
            st.1
        } else {
            None
        }
    } else {
        match apt_step(st, ls[0], name) {
            Step::Stop(r) => r,
            Step::Go(s2) => apt_run(s2, ls.drop_first(), name),
        }
    }
}

/// The version a cached Packages file gives package `name` (its paragraph
/// is found by `Package:`, ASCII case ignored).
pub fn apt_package_version(text: &str, name: &str) -> (r: Option<String>)
    ensures
        match apt_run((false, None), lines(text@), name@) {
            Some(v) => r matches Some(s) && s@ == v,
            None => r is None,
        },
{
    let v = chars_of(text);
    let n = v.len();
    let mut in_pkg = false;
    let mut version: Option<String> = None;
    let mut pos: usize = 0;
    let ghost goal = apt_run((false, None), lines(text@), name@);
    proof {
        assert(v@.skip(0) =~= text@);
    }
    while pos < n
        invariant
            pos <= n == v.len(),
            v@ == text@,
            goal == apt_run((false, None), lines(text@), name@),
            goal == apt_run((in_pkg, match version { Some(s) => Some(s@), None => None }), lines(v@.skip(pos as int)), name@),
        decreases n - pos,
    {
        let ghost ls = lines(v@.skip(pos as int));
        let (e, nx) = next_line(&v, pos);
        let ghost line = v@.subrange(pos as int, e as int);
        proof {
            assert(ls[0] == line);
            assert(ls.drop_first() =~= lines(v@.skip(nx as int)));
        }
        if e == pos {
            if in_pkg {
                return version;
            }
            in_pkg = false;
        } else {
            if starts_with_str(&v, pos, e, "Package: ") {
                proof {
                    reveal_strlit("Package: ");
                }
                let (a, b) = trim_range(&v, pos + 9, e);
                let w = string_of(&v, a, b);
                in_pkg = crate::text::eq_ignore_ascii_case(w.as_str(), name);
                proof {
                    reveal_strlit("Package: ");
                    assert(line.skip(9) =~= v@.subrange(pos + 9, e as int));
                }
            }
            if in_pkg && starts_with_str(&v, pos, e, "Version: ") {
                proof {
                    reveal_strlit("Version: ");
                }
                let (a, b) = trim_range(&v, pos + 9, e);
                version = Some(string_of(&v, a, b));
                proof {
                    reveal_strlit("Version: ");
                    assert(line.skip(9) =~= v@.subrange(pos + 9, e as int));
                }
            }
        }
        pos = nx;
    }
    proof {
        assert(v@.skip(n as int) =~= Seq::<char>::empty());
        assert(lines(v@.skip(n as int)) =~= Seq::<Seq<char>>::empty());
    }
    if in_pkg {
        version
    } else {
        None
    }
}

/// The version of the first provider from an RPM repository, if any.
pub open spec fn first_rpm_version(ps: Seq<ProviderView>) -> Option<Seq<char>>
    decreases ps.len(),
{
    if ps.len() == 0 {
        None
    } else if ps[0].3 == RepoSource::Rpm {
        Some(ps[0].1)
    } else {
        first_rpm_version(ps.drop_first())
    }
}

/// The version an RPM repository offers for `name`, as the index lists it:
/// that of the first provider of `name` from an RPM repository.
pub fn rpm_provider_version(index: &SonameIndex, name: &str) -> (r: Option<String>)
    ensures
        match first_rpm_version(providers_of(*index, name@)) {
            Some(v) => r matches Some(s) && s@ == v,
            None => r is None,
        },
{
    match lookup_index(&index.providers, name) {
        None => None,
        Some(k) => {
            let ps = &index.providers[k].1;
            let ghost pv = providers_view(ps@);
            let mut i: usize = 0;
            proof {
                assert(pv.skip(0) =~= pv);
                assert(pv == providers_of(*index, name@));
            }
            while i < ps.len()
                invariant
                    i <= ps@.len(),
                    pv == providers_view(ps@),
                    pv == providers_of(*index, name@),
                    first_rpm_version(pv) == first_rpm_version(pv.skip(i as int)),
                decreases ps.len() - i,
            {
                proof {
                    assert(pv.skip(i as int)[0] == ps@[i as int]@);
                    assert(pv.skip(i as int).drop_first() =~= pv.skip(i + 1));
                }
                if ps[i].source == RepoSource::Rpm {
                    return Some(owned(ps[i].version.as_str()));
                }
                i += 1;
            }
            proof {
                assert(pv.skip(i as int).len() == 0);
            }
            None
        },
    }
}

} // verus!
