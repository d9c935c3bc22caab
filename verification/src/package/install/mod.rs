//! Installing, upgrading and removing packages: the decisions, apart from
//! the work on the system.
pub mod conflict;
pub mod remove;
pub mod sandbox;
pub mod upgrade;

use vstd::prelude::*;
use crate::types::config::RepoSource;
use crate::types::package::PackageFormat;
use crate::package::install::upgrade::{UpgradeResult, UpgradeView};
use crate::package::query::{lowercase, to_lowercase};
use crate::text::{chars_of, contains_str, str_eq, string_of, strings_view, trim, trim_range};
use vstd::string::StrSliceExecFns;

verus! {

/// The package format a repository kind serves.
pub open spec fn format_of_source(source: RepoSource) -> PackageFormat {
    match source {
        RepoSource::Deb => PackageFormat::Deb,
        RepoSource::Rpm => PackageFormat::Rpm,
        RepoSource::Native => PackageFormat::Sam,
    }
}

pub fn source_to_format(source: &RepoSource) -> (f: PackageFormat)
    ensures
        f == format_of_source(*source),
{
    match source {
        RepoSource::Deb => PackageFormat::Deb,
        RepoSource::Rpm => PackageFormat::Rpm,
        RepoSource::Native => PackageFormat::Sam,
    }
}

/// An installed package and the names of the packages its manifest says it
/// depends on (none when it has no readable manifest).
pub struct InstalledDeps {
    pub name: String,
    pub deps: Vec<String>,
}

/// Whether some installed package depends on `name`.
pub open spec fn depended_on(pkgs: Seq<InstalledDeps>, name: Seq<char>) -> bool {
    exists|q: int| 0 <= q < pkgs.len() && strings_view(pkgs[q].deps@).contains(name)
}

/// An orphan: no installed package depends on it, and it is not `spm`.
pub open spec fn is_orphan(pkgs: Seq<InstalledDeps>, p: InstalledDeps) -> bool {
    !depended_on(pkgs, p.name@) && p.name@ != "spm"@
}

/// The orphans among the installed packages, in order.
pub open spec fn orphans_upto(pkgs: Seq<InstalledDeps>, k: int) -> Seq<Seq<char>>
    decreases k,
{
    if k <= 0 {
        Seq::empty()
    } else if is_orphan(pkgs, pkgs[k - 1]) {
        orphans_upto(pkgs, k - 1).push(pkgs[k - 1].name@)
    } else {
        orphans_upto(pkgs, k - 1)
    }
}

fn is_depended_on(pkgs: &Vec<InstalledDeps>, name: &str) -> (r: bool)
    ensures
        r == depended_on(pkgs@, name@),
{
    let mut q: usize = 0;
    while q < pkgs.len()
        invariant
            q <= pkgs@.len(),
            forall|j: int| 0 <= j < q ==> !strings_view(#[trigger] pkgs@[j].deps@).contains(name@),
        decreases pkgs.len() - q,
    {
        if contains_str(&pkgs[q].deps, name) {
            return true;
        }
        q += 1;
    }
    false
}

/// The installed packages that nothing depends on (other than `spm`
/// itself), in order.
pub fn find_orphans(pkgs: &Vec<InstalledDeps>) -> (r: Vec<String>)
    ensures
        strings_view(r@) == orphans_upto(pkgs@, pkgs@.len() as int),
{
    let mut r: Vec<String> = Vec::new();
    let mut i: usize = 0;
    proof {
        assert(strings_view(r@) =~= Seq::<Seq<char>>::empty());
    }
    while i < pkgs.len()
        invariant
            i <= pkgs@.len(),
            strings_view(r@) == orphans_upto(pkgs@, i as int),
        decreases pkgs.len() - i,
    {
        let ghost before = strings_view(r@);
        if !is_depended_on(pkgs, pkgs[i].name.as_str()) && !str_eq(pkgs[i].name.as_str(), "spm") {
            r.push(pkgs[i].name.clone());
            proof {
                assert(strings_view(r@) =~= before.push(pkgs@[i as int].name@));
            }
        }
        i += 1;
    }
    r
}

/// What a distribution upgrade does: the packages to upgrade (by index,
/// with the version), the obsoleted ones to remove, and the orphans to
/// remove (those that are neither).
pub struct DistUpgradePlan {
    pub upgradable: Vec<(usize, String)>,
    pub obsoleted: Vec<String>,
    pub orphans: Vec<String>,
}

pub open spec fn upgrades_upto(pkgs: Seq<InstalledDeps>, results: Seq<UpgradeView>, k: int) -> Seq<(int, Seq<char>)>
    decreases k,
{
    if k <= 0 {
        Seq::empty()
    } else {
        let rest = upgrades_upto(pkgs, results, k - 1);
        match results[k - 1] {
            UpgradeView::UpgradeTo(v) => rest.push((k - 1, v)),
            _ => rest,
        }
    }
}

pub open spec fn obsoleted_upto(pkgs: Seq<InstalledDeps>, results: Seq<UpgradeView>, k: int) -> Seq<Seq<char>>
    decreases k,
{
    if k <= 0 {
        Seq::empty()
    } else {
        let rest = obsoleted_upto(pkgs, results, k - 1);
        match results[k - 1] {
            UpgradeView::Obsoleted => rest.push(pkgs[k - 1].name@),
            _ => rest,
        }
    }
}

/// The orphans that are not also being upgraded or removed as obsolete.
pub open spec fn plain_orphans(
    orphans: Seq<Seq<char>>,
    obsoleted: Seq<Seq<char>>,
    upgradable: Seq<Seq<char>>,
) -> Seq<Seq<char>> {
    orphans.filter(|n: Seq<char>| !obsoleted.contains(n) && !upgradable.contains(n))
}

pub open spec fn results_view(v: Seq<UpgradeResult>) -> Seq<UpgradeView> {
    v.map_values(|r: UpgradeResult| r@)
}

pub open spec fn upgrades_view(v: Seq<(usize, String)>) -> Seq<(int, Seq<char>)> {
    v.map_values(|e: (usize, String)| (e.0 as int, e.1@))
}

/// Plans a distribution upgrade from each installed package's upgrade check.
pub fn dist_upgrade_plan(pkgs: &Vec<InstalledDeps>, results: &Vec<UpgradeResult>) -> (r: DistUpgradePlan)
    requires
        pkgs@.len() == results@.len(),
    ensures
        upgrades_view(r.upgradable@) == upgrades_upto(pkgs@, results_view(results@), pkgs@.len() as int),
        strings_view(r.obsoleted@) == obsoleted_upto(pkgs@, results_view(results@), pkgs@.len() as int),
        strings_view(r.orphans@) == orphans_upto(pkgs@, pkgs@.len() as int).filter(
            |n: Seq<char>| !obsoleted_upto(pkgs@, results_view(results@), pkgs@.len() as int).contains(n) && !(
            exists|i: int|
                0 <= i < pkgs@.len() && #[trigger] results_view(results@)[i] is UpgradeTo && pkgs@[i].name@ == n)),
{
    let ghost rv = results_view(results@);
    let mut upgradable: Vec<(usize, String)> = Vec::new();
    let mut obsoleted: Vec<String> = Vec::new();
    let mut i: usize = 0;
    proof {
        assert(upgrades_view(upgradable@) =~= Seq::empty());
        assert(strings_view(obsoleted@) =~= Seq::<Seq<char>>::empty());
    }
    while i < pkgs.len()
        invariant
            i <= pkgs@.len(),
            pkgs@.len() == results@.len(),
            rv == results_view(results@),
            upgrades_view(upgradable@) == upgrades_upto(pkgs@, rv, i as int),
            strings_view(obsoleted@) == obsoleted_upto(pkgs@, rv, i as int),
        decreases pkgs.len() - i,
    {
        let ghost bu = upgrades_view(upgradable@);
        let ghost bo = strings_view(obsoleted@);
        assert(rv[i as int] == results@[i as int]@);
        match &results[i] {
            UpgradeResult::UpgradeTo(v) => {
                upgradable.push((i, v.clone()));
                proof {
                    assert(upgrades_view(upgradable@) =~= bu.push((i as int, v@)));
                }
            },
            UpgradeResult::UpToDate => {},
            UpgradeResult::Obsoleted => {
                obsoleted.push(pkgs[i].name.clone());
                proof {
                    assert(strings_view(obsoleted@) =~= bo.push(pkgs@[i as int].name@));
                }
            },
        }
        i += 1;
    }
    let all_orphans = find_orphans(pkgs);
    let mut orphans: Vec<String> = Vec::new();
    let ghost ao = strings_view(all_orphans@);
    let ghost keep = |n: Seq<char>| !obsoleted_upto(pkgs@, rv, pkgs@.len() as int).contains(n) && !(exists|i: int|
        0 <= i < pkgs@.len() && #[trigger] rv[i] is UpgradeTo && pkgs@[i].name@ == n);
    let mut k: usize = 0;
    proof {
        assert(ao.take(0).filter(keep) =~= Seq::<Seq<char>>::empty());
        assert(strings_view(orphans@) =~= Seq::<Seq<char>>::empty());
    }
    while k < all_orphans.len()
        invariant
            k <= all_orphans@.len(),
            pkgs@.len() == results@.len(),
            rv == results_view(results@),
            ao == strings_view(all_orphans@),
            strings_view(obsoleted@) == obsoleted_upto(pkgs@, rv, pkgs@.len() as int),
            upgrades_view(upgradable@) == upgrades_upto(pkgs@, rv, pkgs@.len() as int),
            keep == (|n: Seq<char>| !obsoleted_upto(pkgs@, rv, pkgs@.len() as int).contains(n) && !(exists|i: int|
                0 <= i < pkgs@.len() && #[trigger] rv[i] is UpgradeTo && pkgs@[i].name@ == n)),
            strings_view(orphans@) == ao.take(k as int).filter(keep),
        decreases all_orphans.len() - k,
    {
        let n = &all_orphans[k];
        let is_obs = contains_str(&obsoleted, n.as_str());
        let is_up = upgrading(pkgs, results, n.as_str());
        let ghost before = strings_view(orphans@);
        proof {
            assert(ao.take(k + 1) =~= ao.take(k as int) + seq![n@]);
            Seq::<Seq<char>>::filter_distributes_over_add(ao.take(k as int), seq![n@], keep);
            reveal_with_fuel(Seq::filter, 2);
        }
        if !is_obs && !is_up {
            orphans.push(n.clone());
            proof {
                assert(seq![n@].filter(keep) =~= seq![n@]);
                assert(strings_view(orphans@) =~= before.push(n@));
            }
        } else {
            proof {
                assert(seq![n@].filter(keep) =~= Seq::<Seq<char>>::empty());
            }
        }
        k += 1;
    }
    proof {
        assert(ao.take(k as int) =~= ao);
    }
    DistUpgradePlan { upgradable, obsoleted, orphans }
}

/// Whether the package named `n` is among those to upgrade.
fn upgrading(pkgs: &Vec<InstalledDeps>, results: &Vec<UpgradeResult>, n: &str) -> (r: bool)
    requires
        pkgs@.len() == results@.len(),
    ensures
        r == exists|i: int| 0 <= i < pkgs@.len() && #[trigger] results_view(results@)[i] is UpgradeTo && pkgs@[i].name@
            == n@,
{
    let mut i: usize = 0;
    while i < pkgs.len()
        invariant
            i <= pkgs@.len(),
            pkgs@.len() == results@.len(),
            forall|j: int| 0 <= j < i ==> !(#[trigger] results_view(results@)[j] is UpgradeTo && pkgs@[j].name@ == n@),
        decreases pkgs.len() - i,
    {
        assert(results_view(results@)[i as int] == results@[i as int]@);
        let up = match &results[i] {
            UpgradeResult::UpgradeTo(_) => true,
            _ => false,
        };
        if up && str_eq(pkgs[i].name.as_str(), n) {
            return true;
        }
        i += 1;
    }
    false
}

/// A yes/no prompt whose default is no: `y` or `yes`, in any case, with
/// blanks around.
pub fn confirmed(input: &str) -> (r: bool)
    ensures
        r == (lowercase(trim(input@)) == "y"@ || lowercase(trim(input@)) == "yes"@),
{
    let v = chars_of(input);
    let (a, b) = trim_range(&v, 0, v.len());
    proof {
        assert(v@.subrange(0, v@.len() as int) =~= input@);
    }
    let t = string_of(&v, a, b);
    let l = to_lowercase(t.as_str());
    str_eq(l.as_str(), "y") || str_eq(l.as_str(), "yes")
}

/// A yes/no prompt whose default is yes: empty, `y` or `yes`, in any case,
/// with blanks around.
pub fn approved(input: &str) -> (r: bool)
    ensures
        r == (lowercase(trim(input@)).len() == 0 || lowercase(trim(input@)) == "y"@ || lowercase(trim(input@))
            == "yes"@),
{
    let v = chars_of(input);
    let (a, b) = trim_range(&v, 0, v.len());
    proof {
        assert(v@.subrange(0, v@.len() as int) =~= input@);
    }
    let t = string_of(&v, a, b);
    let l = to_lowercase(t.as_str());
    l.as_str().unicode_len() == 0 || str_eq(l.as_str(), "y") || str_eq(l.as_str(), "yes")
}

} // verus!
