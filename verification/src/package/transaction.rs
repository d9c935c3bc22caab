//! The decisions of an install transaction: which repositories to try,
//! which packages to fetch, which installed packages the new ones push out,
//! and what the plan says to the user.
use vstd::prelude::*;
use crate::error::SpmError;
use crate::text::{contains_str, push_decimal, push_str, str_eq, strings_view};
use crate::types::config::RepoSource;
use crate::types::db::FileRecord;
use crate::package::store::SymlinkRecord;

verus! {

// ---------------------------------------------------------------------------
// Where to fetch from
// ---------------------------------------------------------------------------

/// The indices `i` below `hi` with `sources[i] == s`, in order.
pub open spec fn indices_of(sources: Seq<RepoSource>, s: RepoSource, hi: int) -> Seq<int>
    decreases hi,
{
    if hi <= 0 {
        Seq::empty()
    } else if sources[hi - 1] == s {
        indices_of(sources, s, hi - 1).push(hi - 1)
    } else {
        indices_of(sources, s, hi - 1)
    }
}

/// The repositories to try for a package of kind `matching`, by index: the
/// repositories of that kind in order, then (for a `.deb` or `.rpm`) the
/// native ones in order.
pub open spec fn fetch_order(sources: Seq<RepoSource>, matching: RepoSource) -> Seq<int> {
    if matching != RepoSource::Native {
        indices_of(sources, matching, sources.len() as int) + indices_of(
            sources,
            RepoSource::Native,
            sources.len() as int,
        )
    } else {
        indices_of(sources, matching, sources.len() as int)
    }
}

fn push_indices(sources: &[RepoSource], s: RepoSource, out: &mut Vec<usize>)
    ensures
        final(out)@.map_values(|i: usize| i as int) == old(out)@.map_values(|i: usize| i as int) + indices_of(
            sources@,
            s,
            sources@.len() as int,
        ),
{
    let ghost start = old(out)@.map_values(|i: usize| i as int);
    let mut i: usize = 0;
    proof {
        assert(start + indices_of(sources@, s, 0) =~= start);
    }
    while i < sources.len()
        invariant
            i <= sources@.len(),
            start == old(out)@.map_values(|i: usize| i as int),
            out@.map_values(|i: usize| i as int) == start + indices_of(sources@, s, i as int),
        decreases sources.len() - i,
    {
        let ghost before = out@.map_values(|i: usize| i as int);
        if sources[i] == s {
            out.push(i);
            proof {
                assert(out@.map_values(|i: usize| i as int) =~= before.push(i as int));
            }
        }
        i += 1;
    }
}

/// The order in which repositories are tried for a package of kind
/// `matching`.
pub fn repo_fetch_order(sources: &[RepoSource], matching: RepoSource) -> (r: Vec<usize>)
    ensures
        r@.map_values(|i: usize| i as int) == fetch_order(sources@, matching),
{
    let mut out: Vec<usize> = Vec::new();
    proof {
        assert(out@.map_values(|i: usize| i as int) =~= Seq::<int>::empty());
    }
    push_indices(sources, matching, &mut out);
    if matching != RepoSource::Native {
        push_indices(sources, RepoSource::Native, &mut out);
    }
    proof {
        if matching == RepoSource::Native {
            assert(Seq::<int>::empty() + indices_of(sources@, matching, sources@.len() as int) =~= indices_of(
                sources@,
                matching,
                sources@.len() as int,
            ));
        } else {
            assert(Seq::<int>::empty() + indices_of(sources@, matching, sources@.len() as int) =~= indices_of(
                sources@,
                matching,
                sources@.len() as int,
            ));
        }
    }
    out
}

/// `Debug` of a repository kind.
pub open spec fn source_debug(s: RepoSource) -> Seq<char> {
    match s {
        RepoSource::Deb => "Deb"@,
        RepoSource::Rpm => "Rpm"@,
        RepoSource::Native => "Native"@,
    }
}

pub open spec fn not_in_repos_text(name: Seq<char>, s: RepoSource) -> Seq<char> {
    "Package '"@ + name + "' ("@ + source_debug(s) + ") not found in any matching repository"@
}

/// The error when no repository gives the package.
pub fn not_in_repos(name: &str, s: RepoSource) -> (e: SpmError)
    ensures
        e matches SpmError::PackageNotFound(m) && m@ == not_in_repos_text(name@, s),
{
    let mut m = String::new();
    push_str(&mut m, "Package '");
    push_str(&mut m, name);
    push_str(&mut m, "' (");
    match s {
        RepoSource::Deb => push_str(&mut m, "Deb"),
        RepoSource::Rpm => push_str(&mut m, "Rpm"),
        RepoSource::Native => push_str(&mut m, "Native"),
    }
    push_str(&mut m, ") not found in any matching repository");
    SpmError::PackageNotFound(m)
}

// ---------------------------------------------------------------------------
// What to fetch and what to remove
// ---------------------------------------------------------------------------

/// A package of the plan is fetched unless it is an installed dependency.
pub fn should_fetch(name: &str, main: &str, installed: bool) -> (r: bool)
    ensures
        r == !(installed && name@ != main@),
{
    !(installed && !str_eq(name, main))
}

/// The entries of `v` equal to `name`.
pub open spec fn only_named(v: Seq<Seq<char>>, name: Seq<char>) -> Seq<Seq<char>>
    decreases v.len(),
{
    if v.len() == 0 {
        Seq::empty()
    } else if v.last() == name {
        only_named(v.drop_last(), name).push(v.last())
    } else {
        only_named(v.drop_last(), name)
    }
}

/// The installed packages that an install of `name` replaces: `name`
/// itself, once for each time it is listed.
pub fn plan_to_remove(name: &str, installed_names: &Vec<String>) -> (r: Vec<String>)
    ensures
        strings_view(r@) == only_named(strings_view(installed_names@), name@),
{
    let mut r: Vec<String> = Vec::new();
    let ghost all = strings_view(installed_names@);
    let mut i: usize = 0;
    proof {
        assert(all.take(0) =~= Seq::<Seq<char>>::empty());
        assert(strings_view(r@) =~= Seq::<Seq<char>>::empty());
    }
    while i < installed_names.len()
        invariant
            i <= installed_names@.len(),
            all == strings_view(installed_names@),
            strings_view(r@) == only_named(all.take(i as int), name@),
        decreases installed_names.len() - i,
    {
        let ghost before = strings_view(r@);
        proof {
            assert(all.take(i + 1).drop_last() =~= all.take(i as int));
            assert(all.take(i + 1).last() == all[i as int]);
        }
        if str_eq(installed_names[i].as_str(), name) {
            r.push(installed_names[i].clone());
            proof {
                assert(strings_view(r@) =~= before.push(all[i as int]));
            }
        }
        i += 1;
    }
    proof {
        assert(all.take(i as int) =~= all);
    }
    r
}

/// What the transaction has decided to remove so far, and the files over
/// which each package removed for a conflict was pushed out.
pub struct RemovalState {
    pub removed: Vec<String>,
    pub conflicts: Vec<(String, Vec<String>)>,
}

pub open spec fn conflict_names(c: Seq<(String, Vec<String>)>) -> Seq<Seq<char>> {
    c.map_values(|e: (String, Vec<String>)| e.0@)
}

/// The obsoleted packages that are installed join the removals (each once).
pub open spec fn obsolete_run(removed: Seq<Seq<char>>, obs: Seq<(Seq<char>, bool)>) -> Seq<Seq<char>>
    decreases obs.len(),
{
    if obs.len() == 0 {
        removed
    } else {
        let (o, installed) = obs[0];
        obsolete_run(if installed && !removed.contains(o) {
            removed.push(o)
        } else {
            removed
        }, obs.drop_first())
    }
}

pub open spec fn flagged(names: Seq<Seq<char>>, installed: Seq<bool>) -> Seq<(Seq<char>, bool)> {
    Seq::new(names.len(), |i: int| (names[i], installed[i]))
}

/// Adds the installed packages that a fetched package obsoletes.
pub fn note_obsoletes(removed: &mut Vec<String>, obsoletes: &Vec<String>, installed: &Vec<bool>)
    requires
        obsoletes@.len() == installed@.len(),
    ensures
        strings_view(final(removed)@) == obsolete_run(
            strings_view(old(removed)@),
            flagged(strings_view(obsoletes@), installed@),
        ),
{
    let ghost all = flagged(strings_view(obsoletes@), installed@);
    let ghost goal = obsolete_run(strings_view(old(removed)@), all);
    let mut i: usize = 0;
    proof {
        assert(all.skip(0) =~= all);
    }
    while i < obsoletes.len()
        invariant
            i <= obsoletes@.len(),
            obsoletes@.len() == installed@.len(),
            all == flagged(strings_view(obsoletes@), installed@),
            goal == obsolete_run(strings_view(removed@), all.skip(i as int)),
        decreases obsoletes.len() - i,
    {
        proof {
            assert(all.skip(i as int)[0] == (obsoletes@[i as int]@, installed@[i as int]));
            assert(all.skip(i as int).drop_first() =~= all.skip(i + 1));
        }
        let ghost before = strings_view(removed@);
        if installed[i] && !contains_str(removed, obsoletes[i].as_str()) {
            removed.push(obsoletes[i].clone());
            proof {
                assert(strings_view(removed@) =~= before.push(obsoletes@[i as int]@));
            }
        }
        i += 1;
    }
    proof {
        assert(all.skip(i as int) =~= Seq::<(Seq<char>, bool)>::empty());
    }
}

/// The effect of the file conflicts of one fetched package, with
/// `--replace`: each conflicting package not yet removed is removed, and
/// its overlapping files are recorded.
pub open spec fn absorb_run(
    st: (Seq<Seq<char>>, Seq<(Seq<char>, Seq<Seq<char>>)>),
    cs: Seq<(Seq<char>, Seq<Seq<char>>)>,
) -> (Seq<Seq<char>>, Seq<(Seq<char>, Seq<Seq<char>>)>)
    decreases cs.len(),
{
    if cs.len() == 0 {
        st
    } else {
        let (pkg, files) = cs[0];
        absorb_run(if !st.0.contains(pkg) {
            (st.0.push(pkg), st.1.push((pkg, files)))
        } else {
            st
        }, cs.drop_first())
    }
}

pub open spec fn conflicts_view(c: Seq<(String, Vec<String>)>) -> Seq<(Seq<char>, Seq<Seq<char>>)> {
    c.map_values(|e: (String, Vec<String>)| (e.0@, strings_view(e.1@)))
}

/// The names joined with `, `.
pub open spec fn join_names(v: Seq<Seq<char>>) -> Seq<char>
    decreases v.len(),
{
    if v.len() == 0 {
        Seq::empty()
    } else if v.len() == 1 {
        v[0]
    } else {
        join_names(v.drop_last()) + ", "@ + v.last()
    }
}

pub open spec fn conflicts_text(names: Seq<Seq<char>>) -> Seq<char> {
    "File conflicts detected with: "@ + join_names(names) + ". Use --replace to force install."@
}

fn copy_strings(v: &Vec<String>) -> (r: Vec<String>)
    ensures
        strings_view(r@) == strings_view(v@),
{
    let mut r: Vec<String> = Vec::new();
    let mut i: usize = 0;
    while i < v.len()
        invariant
            i <= v@.len(),
            strings_view(r@) == strings_view(v@).take(i as int),
        decreases v.len() - i,
    {
        let ghost before = strings_view(r@);
        r.push(v[i].clone());
        proof {
            assert(strings_view(r@) =~= before.push(v@[i as int]@));
            assert(strings_view(v@).take(i + 1) =~= strings_view(v@).take(i as int).push(v@[i as int]@));
        }
        i += 1;
    }
    assert(strings_view(v@).take(i as int) =~= strings_view(v@));
    r
}

/// Takes in the file conflicts of one fetched package (each package with
/// its overlapping files).  Without `--replace` any conflict stops the
/// transaction with an error that names the packages, before anything is
/// changed.
pub fn absorb_conflicts(st: &mut RemovalState, conflicts: &Vec<(String, Vec<String>)>, replace: bool) -> (r: Result<
    (),
    SpmError,
>)
    ensures
        conflicts@.len() == 0 ==> r is Ok && *final(st) == *old(st),
        conflicts@.len() > 0 && !replace ==> (r matches Err(SpmError::Other(m)) && m@ == conflicts_text(
            conflict_names(conflicts@),
        )) && *final(st) == *old(st),
        conflicts@.len() > 0 && replace ==> r is Ok && (strings_view(final(st).removed@), conflicts_view(
            final(st).conflicts@,
        )) == absorb_run(
            (strings_view(old(st).removed@), conflicts_view(old(st).conflicts@)),
            conflicts_view(conflicts@),
        ),
{
    if conflicts.len() == 0 {
        return Ok(());
    }
    if !replace {
        let mut m = String::new();
        push_str(&mut m, "File conflicts detected with: ");
        let mut i: usize = 0;
        let ghost start = m@;
        while i < conflicts.len()
            invariant
                i <= conflicts@.len(),
                m@ == start + join_names(conflict_names(conflicts@).take(i as int)),
            decreases conflicts.len() - i,
        {
            let ghost before = m@;
            if i > 0 {
                push_str(&mut m, ", ");
            }
            push_str(&mut m, conflicts[i].0.as_str());
            proof {
                let t = conflict_names(conflicts@).take(i + 1);
                assert(t.drop_last() =~= conflict_names(conflicts@).take(i as int));
                assert(t.last() == conflicts@[i as int].0@);
                if i == 0 {
                    assert(t =~= seq![conflicts@[0].0@]);
                }
                assert(m@ =~= start + join_names(t));
            }
            i += 1;
        }
        assert(conflict_names(conflicts@).take(i as int) =~= conflict_names(conflicts@));
        push_str(&mut m, ". Use --replace to force install.");
        return Err(SpmError::Other(m));
    }
    let ghost all = conflicts_view(conflicts@);
    let ghost goal = absorb_run((strings_view(old(st).removed@), conflicts_view(old(st).conflicts@)), all);
    let mut i: usize = 0;
    proof {
        assert(all.skip(0) =~= all);
    }
    while i < conflicts.len()
        invariant
            i <= conflicts@.len(),
            all == conflicts_view(conflicts@),
            goal == absorb_run((strings_view(st.removed@), conflicts_view(st.conflicts@)), all.skip(i as int)),
        decreases conflicts.len() - i,
    {
        let (pkg, files) = &conflicts[i];
        proof {
            assert(all.skip(i as int)[0] == (pkg@, strings_view(files@)));
            assert(all.skip(i as int).drop_first() =~= all.skip(i + 1));
        }
        if !contains_str(&st.removed, pkg.as_str()) {
            let ghost r0 = strings_view(st.removed@);
            let ghost c0 = conflicts_view(st.conflicts@);
            st.removed.push(pkg.clone());
            let fs = copy_strings(files);
            let e = (pkg.clone(), fs);
            st.conflicts.push(e);
            proof {
                assert(strings_view(st.removed@) =~= r0.push(pkg@));
                assert(conflicts_view(st.conflicts@) =~= c0.push((pkg@, strings_view(files@))));
            }
        }
        i += 1;
    }
    proof {
        assert(all.skip(i as int) =~= Seq::<(Seq<char>, Seq<Seq<char>>)>::empty());
    }
    Ok(())
}

// ---------------------------------------------------------------------------
// The plan as shown
// ---------------------------------------------------------------------------

/// The net change in installed packages: `+n`, or `-n` when more go than
/// come.
pub open spec fn net_change_text(installed: nat, removed: nat) -> Seq<char> {
    if installed >= removed {
        "+"@ + crate::text::decimal((installed - removed) as nat)
    } else {
        "-"@ + crate::text::decimal((removed - installed) as nat)
    }
}

pub fn net_change(installed: usize, removed: usize) -> (r: String)
    ensures
        r@ == net_change_text(installed as nat, removed as nat),
{
    let mut r = String::new();
    if installed >= removed {
        push_str(&mut r, "+");
        push_decimal(&mut r, (installed - removed) as u64);
    } else {
        push_str(&mut r, "-");
        push_decimal(&mut r, (removed - installed) as u64);
    }
    r
}

/// The files of a fetched package, filed under the batch transaction.
pub fn stamp_records(files: &Vec<FileRecord>, tx_id: i64) -> (r: Vec<FileRecord>)
    ensures
        r@.len() == files@.len(),
        forall|i: int| 0 <= i < files@.len() ==> #[trigger] r@[i] == (FileRecord { transaction_id: tx_id, ..files@[i] }),
{
    let mut r: Vec<FileRecord> = Vec::new();
    let mut i: usize = 0;
    while i < files.len()
        invariant
            i <= files@.len(),
            r@.len() == i,
            forall|j: int| 0 <= j < i ==> #[trigger] r@[j] == (FileRecord { transaction_id: tx_id, ..files@[j] }),
        decreases files.len() - i,
    {
        let f = &files[i];
        let g = FileRecord {
            id: f.id,
            transaction_id: tx_id,
            package: f.package.clone(),
            format: f.format,
            filepath: f.filepath.clone(),
            hash: f.hash.clone(),
            action: f.action,
        };
        r.push(g);
        i += 1;
    }
    r
}

// ---------------------------------------------------------------------------
// Rollback
// ---------------------------------------------------------------------------

/// What one package's deployment put in place, to be undone unless the
/// transaction commits: the links into the store and the store entry.
pub struct RollbackGuard {
    store_hash: Option<String>,
    store_origin: String,
    symlinks: Vec<SymlinkRecord>,
    armed: bool,
}

/// A guard as plain values: the store entry's hash and origin, the system
/// paths of the links, and whether it still undoes anything.
pub struct GuardView {
    pub store_hash: Option<Seq<char>>,
    pub store_origin: Seq<char>,
    pub links: Seq<Seq<char>>,
    pub armed: bool,
}

pub open spec fn link_paths(s: Seq<SymlinkRecord>) -> Seq<Seq<char>> {
    s.map_values(|l: SymlinkRecord| l.fhs_path@)
}

impl View for RollbackGuard {
    type V = GuardView;

    closed spec fn view(&self) -> GuardView {
        GuardView {
            store_hash: match self.store_hash {
                Some(h) => Some(h@),
                None => None,
            },
            store_origin: self.store_origin@,
            links: link_paths(self.symlinks@),
            armed: self.armed,
        }
    }
}

impl RollbackGuard {
    /// An armed guard with nothing to undo yet.
    pub fn new() -> (g: RollbackGuard)
        ensures
            g@.store_hash is None,
            g@.store_origin.len() == 0,
            g@.links.len() == 0,
            g@.armed,
    {
        let g = RollbackGuard { store_hash: None, store_origin: String::new(), symlinks: Vec::new(), armed: true };
        assert(g@.links =~= Seq::<Seq<char>>::empty());
        g
    }

    pub fn set_store_hash(&mut self, hash: String)
        ensures
            final(self)@.store_hash == Some(hash@),
            final(self)@.store_origin == old(self)@.store_origin,
            final(self)@.links == old(self)@.links,
            final(self)@.armed == old(self)@.armed,
    {
        self.store_hash = Some(hash);
    }

    pub fn set_store_origin(&mut self, origin: String)
        ensures
            final(self)@.store_hash == old(self)@.store_hash,
            final(self)@.store_origin == origin@,
            final(self)@.links == old(self)@.links,
            final(self)@.armed == old(self)@.armed,
    {
        self.store_origin = origin;
    }

    pub fn set_symlinks(&mut self, symlinks: Vec<SymlinkRecord>)
        ensures
            final(self)@.store_hash == old(self)@.store_hash,
            final(self)@.store_origin == old(self)@.store_origin,
            final(self)@.links == link_paths(symlinks@),
            final(self)@.armed == old(self)@.armed,
    {
        self.symlinks = symlinks;
    }

    /// The transaction committed: nothing is to be undone.
    pub fn disarm(&mut self)
        ensures
            final(self)@.store_hash == old(self)@.store_hash,
            final(self)@.store_origin == old(self)@.store_origin,
            final(self)@.links == old(self)@.links,
            !final(self)@.armed,
    {
        self.armed = false;
    }

    pub fn is_armed(&self) -> (b: bool)
        ensures
            b == self@.armed,
    {
        self.armed
    }

    /// The links to remove on rollback, in order: none once disarmed.
    pub fn links_to_undo(&self) -> (r: Vec<String>)
        ensures
            r@.len() == (if self@.armed { self@.links.len() } else { 0 }),
            forall|i: int| 0 <= i < r@.len() ==> (#[trigger] r@[i])@ == self@.links[i],
    {
        let mut r: Vec<String> = Vec::new();
        if !self.armed {
            return r;
        }
        let mut i: usize = 0;
        while i < self.symlinks.len()
            invariant
                self.armed,
                i <= self.symlinks@.len(),
                r@.len() == i,
                forall|k: int| 0 <= k < i ==> (#[trigger] r@[k])@ == self.symlinks@[k].fhs_path@,
            decreases self.symlinks.len() - i,
        {
            r.push(self.symlinks[i].fhs_path.clone());
            i += 1;
        }
        r
    }

    /// The store entry to remove on rollback, as its hash and origin (an
    /// empty origin is the store without an origin level): none once
    /// disarmed or when no entry was made.
    pub fn store_to_undo(&self) -> (r: Option<(String, String)>)
        ensures
            match r {
                Some(x) => self@.armed && self@.store_hash == Some(x.0@) && x.1@ == self@.store_origin,
                None => !self@.armed || self@.store_hash is None,
            },
    {
        if !self.armed {
            return None;
        }
        match &self.store_hash {
            Some(h) => Some((h.clone(), self.store_origin.clone())),
            None => None,
        }
    }
}

} // verus!
