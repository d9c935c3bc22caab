//! Dependency resolution after the solver: cycles, conflicts and caching.
pub mod cache;
pub mod graph;
pub mod scc;

use vstd::prelude::*;
use crate::error::SpmResult;
use crate::package::resolver::cache::{cache_key_text, lookup_result, DependencyCache};
use crate::package::resolver::graph::{ConflictType, MetadataConflict, ResolvedGraph};
use crate::package::resolver::scc::{comps_back, comps_rooted, flat, reaches, scc_indices};
use crate::package::solver::{extract_soname_name, lookup, soname_name, SonameIndex};
use crate::text::{str_eq, strings_view};
use crate::types::config::{RepoConfig, RepoSource};
use crate::types::package::{duplicate_ids, ids_view, PackageId};
use crate::types::version::VersionStrategy;

verus! {

// ---------------------------------------------------------------------------
// The dependency graph
// ---------------------------------------------------------------------------

/// Position of the last package named `name`.
pub open spec fn last_pos(ps: Seq<PackageId>, name: Seq<char>) -> Option<int>
    decreases ps.len(),
{
    if ps.len() == 0 {
        None
    } else if ps.last().name@ == name {
        Some(ps.len() - 1)
    } else {
        last_pos(ps.drop_last(), name)
    }
}

proof fn lemma_last_pos(ps: Seq<PackageId>, name: Seq<char>)
    ensures
        last_pos(ps, name) matches Some(j) ==> 0 <= j < ps.len() && ps[j].name@ == name,
    decreases ps.len(),
{
    if ps.len() > 0 && ps.last().name@ != name {
        lemma_last_pos(ps.drop_last(), name);
    }
}

/// The requirements the index lists for `name`.
pub open spec fn requires_of(index: SonameIndex, name: Seq<char>) -> Seq<Seq<char>> {
    match lookup(index.requires@, name) {
        Some(r) => strings_view(r@),
        None => Seq::empty(),
    }
}

/// The packages that the requirements `deps` point to: for each, the last
/// package named by it, if any.
pub open spec fn dep_targets(ps: Seq<PackageId>, deps: Seq<Seq<char>>) -> Seq<usize>
    decreases deps.len(),
{
    if deps.len() == 0 {
        Seq::empty()
    } else {
        dep_targets(ps, deps.drop_last()) + match last_pos(ps, soname_name(deps.last())) {
            Some(w) => seq![w as usize],
            None => Seq::empty(),
        }
    }
}

/// The edges of node `v`: the last package of each name carries the
/// requirements of that name; earlier ones with the same name have none.
pub open spec fn edges_of(ps: Seq<PackageId>, index: SonameIndex, v: int) -> Seq<usize> {
    if last_pos(ps, ps[v].name@) == Some(v) {
        dep_targets(ps, requires_of(index, ps[v].name@))
    } else {
        Seq::empty()
    }
}

proof fn lemma_last_pos_found(ps: Seq<PackageId>, name: Seq<char>, w: int)
    requires
        0 <= w < ps.len(),
        ps[w].name@ == name,
    ensures
        last_pos(ps, name) matches Some(j) && w <= j < ps.len() && ps[j].name@ == name,
    decreases ps.len(),
{
    if ps.last().name@ != name {
        assert(w < ps.len() - 1);
        assert(ps.drop_last()[w] == ps[w]);
        lemma_last_pos_found(ps.drop_last(), name, w);
    }
}

proof fn lemma_last_pos_is_last(ps: Seq<PackageId>, v: int)
    requires
        0 <= v < ps.len(),
        forall|u: int| v < u < ps.len() ==> ps[u].name@ != ps[v].name@,
    ensures
        last_pos(ps, ps[v].name@) == Some(v),
    decreases ps.len(),
{
    if v < ps.len() - 1 {
        assert(ps.last().name@ != ps[v].name@);
        assert forall|u: int| v < u < ps.drop_last().len() implies ps.drop_last()[u].name@ != ps.drop_last()[v].name@ by {
            assert(ps.drop_last()[u] == ps[u]);
        }
        lemma_last_pos_is_last(ps.drop_last(), v);
        assert(ps.drop_last()[v] == ps[v]);
    }
}

proof fn lemma_dep_targets_cover(ps: Seq<PackageId>, deps: Seq<Seq<char>>, j: int, w: int)
    requires
        ps.len() <= usize::MAX,
        0 <= j < deps.len(),
        0 <= w < ps.len(),
        ps[w].name@ == soname_name(deps[j]),
    ensures
        exists|k: int| 0 <= k < dep_targets(ps, deps).len() && dep_targets(ps, deps)[k] >= w && dep_targets(ps, deps)[k] < ps.len()
            && ps[dep_targets(ps, deps)[k] as int].name@ == soname_name(deps[j]),
    decreases deps.len(),
{
    let prev = dep_targets(ps, deps.drop_last());
    if j == deps.len() - 1 {
        lemma_last_pos_found(ps, soname_name(deps[j]), w);
        let t = last_pos(ps, soname_name(deps.last())).unwrap();
        assert(dep_targets(ps, deps)[prev.len() as int] == t as usize);
    } else {
        assert(deps.drop_last()[j] == deps[j]);
        lemma_dep_targets_cover(ps, deps.drop_last(), j, w);
        let k = choose|k: int| 0 <= k < prev.len() && prev[k] >= w && prev[k] < ps.len()
            && ps[prev[k] as int].name@ == soname_name(deps[j]);
        assert(dep_targets(ps, deps)[k] == prev[k]);
    }
}

proof fn lemma_dep_targets_sound(ps: Seq<PackageId>, deps: Seq<Seq<char>>, k: int)
    requires
        ps.len() <= usize::MAX,
        0 <= k < dep_targets(ps, deps).len(),
    ensures
        dep_targets(ps, deps)[k] < ps.len(),
        exists|j: int| 0 <= j < deps.len() && ps[dep_targets(ps, deps)[k] as int].name@ == soname_name(deps[j]),
    decreases deps.len(),
{
    let prev = dep_targets(ps, deps.drop_last());
    if k < prev.len() {
        assert(dep_targets(ps, deps)[k] == prev[k]);
        lemma_dep_targets_sound(ps, deps.drop_last(), k);
        let j = choose|j: int| 0 <= j < deps.drop_last().len() && ps[prev[k] as int].name@ == soname_name(deps.drop_last()[j]);
        assert(deps.drop_last()[j] == deps[j]);
    } else {
        lemma_last_pos(ps, soname_name(deps.last()));
        let t = last_pos(ps, soname_name(deps.last())).unwrap();
        assert(dep_targets(ps, deps)[k] == t as usize);
        assert(ps[dep_targets(ps, deps)[k] as int].name@ == soname_name(deps[deps.len() - 1]));
    }
}

/// Every requirement of a package that names one of the packages is an
/// edge of the dependency graph: for the last package `v` of its name, each
/// requirement `r` that the index lists for that name, and each package
/// `w` named `soname_name(r)`, the edges of `v` lead to a package of that
/// name (the last one, at or after `w`).  Conversely every edge of any
/// package leads to a package named by one of its requirements.
pub proof fn law_requirements_are_edges(ps: Seq<PackageId>, index: SonameIndex, v: int, j: int, w: int)
    requires
        ps.len() <= usize::MAX,
        0 <= v < ps.len(),
    ensures
        (forall|u: int| v < u < ps.len() ==> ps[u].name@ != ps[v].name@) && 0 <= j < requires_of(index, ps[v].name@).len()
            && 0 <= w < ps.len() && ps[w].name@ == soname_name(requires_of(index, ps[v].name@)[j]) ==> exists|k: int|
            0 <= k < edges_of(ps, index, v).len() && edges_of(ps, index, v)[k] >= w && edges_of(ps, index, v)[k] < ps.len()
                && ps[edges_of(ps, index, v)[k] as int].name@ == soname_name(requires_of(index, ps[v].name@)[j]),
        0 <= j < edges_of(ps, index, v).len() ==> edges_of(ps, index, v)[j] < ps.len() && exists|i: int|
            0 <= i < requires_of(index, ps[v].name@).len() && ps[edges_of(ps, index, v)[j] as int].name@ == soname_name(
                requires_of(index, ps[v].name@)[i],
            ),
{
    let deps = requires_of(index, ps[v].name@);
    if (forall|u: int| v < u < ps.len() ==> ps[u].name@ != ps[v].name@) && 0 <= j < deps.len() && 0 <= w < ps.len()
        && ps[w].name@ == soname_name(deps[j]) {
        lemma_last_pos_is_last(ps, v);
        lemma_dep_targets_cover(ps, deps, j, w);
    }
    if 0 <= j < edges_of(ps, index, v).len() {
        lemma_dep_targets_sound(ps, deps, j);
    }
}

/// Position of the last package named `name` in `ps`.
fn last_pos_exec(ps: &[PackageId], name: &str) -> (r: Option<usize>)
    ensures
        match last_pos(ps@, name@) {
            Some(j) => r == Some(j as usize),
            None => r is None,
        },
        r matches Some(j) ==> j < ps@.len(),
{
    let mut i = ps.len();
    assert(ps@.take(i as int) =~= ps@);
    while i > 0
        invariant
            i <= ps@.len(),
            last_pos(ps@, name@) == last_pos(ps@.take(i as int), name@),
        decreases i,
    {
        assert(ps@.take(i as int).drop_last() =~= ps@.take(i - 1));
        if str_eq(ps[i - 1].name.as_str(), name) {
            return Some(i - 1);
        }
        i -= 1;
    }
    None
}

/// The edges of every package.
pub fn dependency_edges(packages: &[PackageId], index: &SonameIndex) -> (r: Vec<Vec<usize>>)
    ensures
        r@.len() == packages@.len(),
        forall|v: int| 0 <= v < r@.len() ==> #[trigger] r@[v]@ == edges_of(packages@, *index, v),
        forall|v: int, j: int| 0 <= v < r@.len() && 0 <= j < r@[v]@.len() ==> #[trigger] r@[v]@[j] < packages@.len(),
{
    let n = packages.len();
    let mut r: Vec<Vec<usize>> = Vec::new();
    let mut v: usize = 0;
    while v < n
        invariant
            v <= n == packages@.len(),
            r@.len() == v,
            forall|x: int| 0 <= x < v ==> #[trigger] r@[x]@ == edges_of(packages@, *index, x),
            forall|x: int, j: int| 0 <= x < v && 0 <= j < r@[x]@.len() ==> #[trigger] r@[x]@[j] < n,
        decreases n - v,
    {
        let name = packages[v].name.as_str();
        let mut e: Vec<usize> = Vec::new();
        let is_last = match last_pos_exec(packages, name) {
            Some(j) => j == v,
            None => false,
        };
        proof {
            lemma_last_pos(packages@, name@);
        }
        assert(is_last == (last_pos(packages@, packages@[v as int].name@) == Some(v as int)));
        if is_last {
            let ghost reqs = requires_of(*index, name@);
            match crate::package::solver::lookup_index(&index.requires, name) {
                Some(k) => {
                    let deps = &index.requires[k].1;
                    let mut d: usize = 0;
                    assert(e@ =~= dep_targets(packages@, strings_view(deps@).take(0)));
                    while d < deps.len()
                        invariant
                            d <= deps@.len(),
                            n == packages@.len(),
                            e@ == dep_targets(packages@, strings_view(deps@).take(d as int)),
                            forall|j: int| 0 <= j < e@.len() ==> #[trigger] e@[j] < n,
                        decreases deps.len() - d,
                    {
                        let dn = extract_soname_name(deps[d].as_str());
                        let ghost before = e@;
                        proof {
                            assert(strings_view(deps@).take(d + 1).drop_last() =~= strings_view(deps@).take(d as int));
                            assert(strings_view(deps@).take(d + 1).last() == deps@[d as int]@);
                            lemma_last_pos(packages@, dn@);
                        }
                        match last_pos_exec(packages, dn.as_str()) {
                            Some(w) => {
                                e.push(w);
                                assert(e@ =~= before + seq![w]);
                            },
                            None => {
                                assert(e@ =~= before + Seq::<usize>::empty());
                            },
                        }
                        d += 1;
                    }
                    assert(strings_view(deps@).take(deps@.len() as int) =~= strings_view(deps@));
                    assert(e@ == edges_of(packages@, *index, v as int));
                },
                None => {
                    assert(e@ =~= dep_targets(packages@, Seq::<Seq<char>>::empty()));
                },
            }
        }
        assert(e@ == edges_of(packages@, *index, v as int));
        r.push(e);
        v += 1;
    }
    r
}

/// `r` holds, for components of node indices `idx`, the packages at those
/// indices.
pub open spec fn components_of(ps: Seq<PackageId>, idx: Seq<Vec<usize>>, r: Seq<Vec<PackageId>>) -> bool {
    &&& idx.len() == r.len()
    &&& forall|i: int| 0 <= i < r.len() ==> (#[trigger] r[i])@.len() == idx[i]@.len()
    &&& forall|i: int, j: int| 0 <= i < idx.len() && 0 <= j < idx[i]@.len() ==> #[trigger] idx[i]@[j] < ps.len()
    &&& forall|i: int, j: int| 0 <= i < r.len() && 0 <= j < r[i]@.len() ==> (#[trigger] r[i]@[j])@ == ps[idx[i]@[j] as int]@
}

/// `adj` is the dependency graph of `ps` over `index`: node `v` has the
/// edges `edges_of(ps, index, v)`.
pub open spec fn dep_graph(ps: Seq<PackageId>, index: SonameIndex, adj: Seq<Vec<usize>>) -> bool {
    &&& adj.len() == ps.len()
    &&& forall|v: int| 0 <= v < adj.len() ==> #[trigger] adj[v]@ == edges_of(ps, index, v)
}

/// `idx` lists the strongly connected components of more than one node of
/// the graph `adj`: each node is in at most one of them, the nodes of one
/// reach one another, and two distinct nodes that reach one another are in
/// one of them together.
pub open spec fn scc_result(adj: Seq<Vec<usize>>, idx: Seq<Vec<usize>>) -> bool {
    &&& flat(idx).no_duplicates()
    &&& forall|i: int| 0 <= i < idx.len() ==> #[trigger] idx[i]@.len() >= 2
    &&& comps_rooted(adj, idx)
    &&& comps_back(adj, idx)
    &&& forall|x: usize, y: usize|
        x < adj.len() && x != y && #[trigger] reaches(adj, x, y) && #[trigger] reaches(adj, y, x) ==> exists|i: int|
            0 <= i < idx.len() && (#[trigger] idx[i]@).contains(x) && idx[i]@.contains(y)
}

/// `r` lists, as packages of `ps`, the cycles of the dependency graph of
/// `ps` over `index`.
pub open spec fn cycles_of(ps: Seq<PackageId>, index: SonameIndex, r: Seq<Vec<PackageId>>) -> bool {
    exists|idx: Seq<Vec<usize>>, adj: Seq<Vec<usize>>|
        #[trigger] dep_graph(ps, index, adj) && components_of(ps, idx, r) && #[trigger] scc_result(adj, idx)
}

// ---------------------------------------------------------------------------
// Conflicts
// ---------------------------------------------------------------------------

/// A conflict as plain values.
pub type ConflictView = (Seq<char>, Seq<char>, ConflictType);

/// Two entries with the same name and different versions in one batch: each
/// entry whose name was seen before, with another version at its last
/// sighting, is a conflict of that name with itself.
pub open spec fn batch_conflicts(ps: Seq<PackageId>) -> Seq<ConflictView>
    decreases ps.len(),
{
    if ps.len() == 0 {
        Seq::empty()
    } else {
        let prev = ps.drop_last();
        let p = ps.last();
        batch_conflicts(prev) + match last_pos(prev, p.name@) {
            Some(j) => if prev[j].version@ != p.version@ {
                seq![(p.name@, p.name@, ConflictType::SameBatch)]
            } else {
                Seq::empty()
            },
            None => Seq::empty(),
        }
    }
}

pub open spec fn conflicts_view(v: Seq<MetadataConflict>) -> Seq<ConflictView> {
    v.map_values(|c: MetadataConflict| (c.package@, c.conflicts_with@, c.conflict_type))
}

/// The version conflicts within one install order.
pub fn detect_conflicts(order: &Vec<PackageId>) -> (r: Vec<MetadataConflict>)
    ensures
        conflicts_view(r@) == batch_conflicts(order@),
{
    let mut r: Vec<MetadataConflict> = Vec::new();
    let mut i: usize = 0;
    assert(conflicts_view(r@) =~= batch_conflicts(order@.take(0)));
    while i < order.len()
        invariant
            i <= order@.len(),
            conflicts_view(r@) == batch_conflicts(order@.take(i as int)),
        decreases order.len() - i,
    {
        let ghost before = conflicts_view(r@);
        let prev = order.as_slice().split_at(i).0;
        assert(prev@ =~= order@.take(i as int));
        proof {
            assert(order@.take(i + 1).drop_last() =~= order@.take(i as int));
            lemma_last_pos(order@.take(i as int), order@[i as int].name@);
        }
        match last_pos_exec(prev, order[i].name.as_str()) {
            Some(j) => {
                if order[j].version != order[i].version {
                    r.push(
                        MetadataConflict {
                            package: order[i].name.clone(),
                            conflicts_with: order[i].name.clone(),
                            conflict_type: ConflictType::SameBatch,
                        },
                    );
                    assert(conflicts_view(r@) =~= before + seq![(order@[i as int].name@, order@[i as int].name@, ConflictType::SameBatch)]);
                } else {
                    assert(conflicts_view(r@) =~= before + Seq::<ConflictView>::empty());
                }
            },
            None => {
                assert(conflicts_view(r@) =~= before + Seq::<ConflictView>::empty());
            },
        }
        i += 1;
    }
    assert(order@.take(order@.len() as int) =~= order@);
    r
}

// ---------------------------------------------------------------------------
// The resolver
// ---------------------------------------------------------------------------

/// How the resolver chooses and whether it caches.
#[derive(Debug, Clone)]
pub struct ResolverConfig {
    pub strategy: VersionStrategy,
    pub preferred_source: Option<RepoSource>,
    pub prefer_newest: bool,
    pub enable_cache: bool,
}

impl Default for ResolverConfig {
    fn default() -> (c: ResolverConfig)
        ensures
            c.strategy == VersionStrategy::PreferStable,
            c.preferred_source is None,
            !c.prefer_newest,
            c.enable_cache,
    {
        ResolverConfig {
            strategy: VersionStrategy::PreferStable,
            preferred_source: None,
            prefer_newest: false,
            enable_cache: true,
        }
    }
}

/// The number under which a strategy is cached.
pub open spec fn strategy_value(s: VersionStrategy) -> u8 {
    match s {
        VersionStrategy::PreferStable => 0,
        VersionStrategy::PreferNewest => 1,
    }
}

/// The resolver: the index it reads, the repositories, its cache and its
/// configuration.
pub struct Resolver {
    pub index: SonameIndex,
    pub repos: Vec<(String, RepoConfig)>,
    pub cache: DependencyCache,
    pub config: ResolverConfig,
}

impl Resolver {
    /// A resolver over a loaded index and repository list, with an empty
    /// cache.
    pub fn from_parts(index: SonameIndex, repos: Vec<(String, RepoConfig)>, config: ResolverConfig) -> (r: Resolver)
        ensures
            r.cache.wf(),
            r.cache@.entries.dom().len() == 0,
            r.index == index,
            r.repos == repos,
            r.config == config,
    {
        let cache = DependencyCache::new();
        Resolver { index, repos, cache, config }
    }

    fn strategy_val(&self) -> (v: u8)
        ensures
            v == strategy_value(self.config.strategy),
    {
        match self.config.strategy {
            VersionStrategy::PreferStable => 0u8,
            VersionStrategy::PreferNewest => 1u8,
        }
    }

    /// The cycles among `packages`: the strongly connected components of
    /// more than one package of their dependency graph, each package in at
    /// most one.
    pub fn tarjan_scc(&self, packages: &Vec<PackageId>) -> (r: Vec<Vec<PackageId>>)
        requires
            packages@.len() < i32::MAX,
        ensures
            cycles_of(packages@, self.index, r@),
    {
        let adj = dependency_edges(packages.as_slice(), &self.index);
        let comps = scc_indices(&adj);
        let mut r: Vec<Vec<PackageId>> = Vec::new();
        let mut i: usize = 0;
        while i < comps.len()
            invariant
                i <= comps@.len(),
                forall|k: int| 0 <= k < flat(comps@).len() ==> #[trigger] flat(comps@)[k] < packages@.len(),
                components_of(packages@, comps@.take(i as int), r@),
            decreases comps.len() - i,
        {
            let c = &comps[i];
            assert(c@ == comps@[i as int]@);
            let mut pc: Vec<PackageId> = Vec::new();
            let mut j: usize = 0;
            proof {
                crate::package::resolver::scc::lemma_flat_bound(comps@, i as int, packages@.len());
            }
            while j < c.len()
                invariant
                    j <= c@.len(),
                    pc@.len() == j,
                    forall|m: int| 0 <= m < c@.len() ==> #[trigger] c@[m] < packages@.len(),
                    forall|m: int| 0 <= m < j ==> (#[trigger] pc@[m])@ == packages@[c@[m] as int]@,
                decreases c.len() - j,
            {
                pc.push(packages[c[j]].duplicate());
                j += 1;
            }
            let ghost r0 = r@;
            let ghost pcv = pc@;
            r.push(pc);
            proof {
                let t = comps@.take(i + 1);
                assert(t =~= comps@.take(i as int).push(comps@[i as int]));
                assert(t.len() == r@.len());
                assert forall|a: int| 0 <= a < r@.len() implies (#[trigger] r@[a])@.len() == t[a]@.len() by {
                    if a < i {
                        assert(r@[a] == r0[a]);
                        assert(t[a] == comps@.take(i as int)[a]);
                    } else {
                        assert(r@[a]@ == pcv);
                        assert(t[a] == comps@[i as int]);
                    }
                }
                assert forall|a: int, b: int| 0 <= a < t.len() && 0 <= b < t[a]@.len() implies #[trigger] t[a]@[b] < packages@.len() by {
                    if a < i {
                        assert(t[a] == comps@.take(i as int)[a]);
                    } else {
                        assert(t[a] == comps@[i as int]);
                    }
                }
                assert forall|a: int, b: int| 0 <= a < r@.len() && 0 <= b < r@[a]@.len() implies (#[trigger] r@[a]@[b])@ == packages@[t[a]@[b] as int]@ by {
                    if a < i {
                        assert(r@[a] == r0[a]);
                        assert(t[a] == comps@.take(i as int)[a]);
                        assert(r0[a]@[b]@ == packages@[comps@.take(i as int)[a]@[b] as int]@);
                    } else {
                        assert(r@[a]@ == pcv);
                        assert(t[a] == comps@[i as int]);
                        assert(pcv[b]@ == packages@[c@[b] as int]@);
                    }
                }
                assert(components_of(packages@, t, r@)) by {
                    assert(t.len() == r@.len());
                }
                assert(t == comps@.take((i + 1) as int));
            }
            i += 1;
        }
        assert(comps@.take(comps@.len() as int) =~= comps@);
        assert(dep_graph(packages@, self.index, adj@));
        assert(scc_result(adj@, comps@));
        r
    }

    /// How old the cached entry for `root` is, asked of the clock; `(0, 0)`
    /// when caching is off or there is no entry.
    pub fn cache_age(&self, root: &PackageId) -> (r: (u64, u32))
        requires
            self.cache.wf(),
    {
        if self.config.enable_cache {
            let s = self.strategy_val();
            self.cache.entry_age(root, s)
        } else {
            (0, 0)
        }
    }

    /// The cached result for `root` when its entry is `age_secs` seconds and
    /// `age_nanos` nanoseconds old: the cached order, without cycles or
    /// conflicts, when caching is on and the entry is there and within the
    /// time to live.
    pub fn cached_at(&self, root: &PackageId, age_secs: u64, age_nanos: u32) -> (r: Option<ResolvedGraph>)
        requires
            self.cache.wf(),
        ensures
            match self.cached_spec(root@, age_secs, age_nanos) {
                Some(order) => r matches Some(g) && ids_view(g.topological_order@) == order && g.cycles@.len() == 0
                    && g.metadata_conflicts@.len() == 0,
                None => r is None,
            },
    {
        if self.config.enable_cache {
            let s = self.strategy_val();
            match self.cache.lookup(root, s, age_secs, age_nanos) {
                Some(cached) => Some(ResolvedGraph::new(cached)),
                None => None,
            }
        } else {
            None
        }
    }

    /// The cached result for `root`, when caching is on and a fresh entry is
    /// there (the clock gives the entry's age).
    pub fn cached(&self, root: &PackageId) -> (r: Option<ResolvedGraph>)
        requires
            self.cache.wf(),
        ensures
            exists|age_secs: u64, age_nanos: u32| match #[trigger] self.cached_spec(root@, age_secs, age_nanos) {
                Some(order) => r matches Some(g) && ids_view(g.topological_order@) == order && g.cycles@.len() == 0
                    && g.metadata_conflicts@.len() == 0,
                None => r is None,
            },
    {
        let (secs, nanos) = self.cache_age(root);
        self.cached_at(root, secs, nanos)
    }

    /// Completes resolution for `root` from the solver's install order
    /// `solved`, when the cached entry for `root` is `age_secs` seconds and
    /// `age_nanos` nanoseconds old: a fresh cached order is taken as it is;
    /// otherwise the cycles and the version conflicts of `solved` are found
    /// and the order is cached.
    pub fn resolve_aged(&mut self, root: &PackageId, solved: Vec<PackageId>, age_secs: u64, age_nanos: u32) -> (r: SpmResult<ResolvedGraph>)
        requires
            old(self).cache.wf(),
            solved@.len() < i32::MAX,
        ensures
            final(self).cache.wf(),
            final(self).index == old(self).index,
            final(self).config == old(self).config,
            resolution(*old(self), *final(self), root@, solved@, age_secs, age_nanos, r),
    {
        if let Some(g) = self.cached_at(root, age_secs, age_nanos) {
            return Ok(g);
        }
        let ghost sv = solved@;
        let cycles = self.tarjan_scc(&solved);
        let conflicts = detect_conflicts(&solved);
        if self.config.enable_cache {
            let s = self.strategy_val();
            let copy = duplicate_ids(&solved);
            self.cache.set(root, s, copy);
        }
        let g = ResolvedGraph::new(solved).with_cycles(cycles).with_metadata_conflicts(conflicts);
        proof {
            assert(g.topological_order@ == sv);
            assert(g.cycles == cycles);
            assert(completed(*old(self), *self, root@, sv, g));
        }
        Ok(g)
    }

    /// Completes resolution for `root` from the solver's install order
    /// `solved`, asking the clock how old the cached entry is; see
    /// `resolve_aged` for what each age gives.
    pub fn resolve(&mut self, root: &PackageId, solved: Vec<PackageId>) -> (r: SpmResult<ResolvedGraph>)
        requires
            old(self).cache.wf(),
            solved@.len() < i32::MAX,
        ensures
            final(self).cache.wf(),
            final(self).index == old(self).index,
            final(self).config == old(self).config,
            exists|age_secs: u64, age_nanos: u32| #[trigger] resolution(*old(self), *final(self), root@, solved@, age_secs, age_nanos, r),
    {
        let (secs, nanos) = self.cache_age(root);
        self.resolve_aged(root, solved, secs, nanos)
    }

    /// What `cached_at` finds for a root, as a spec.
    pub open spec fn cached_spec(&self, root: (Seq<char>, crate::types::package::PackageFormat, Seq<char>), age_secs: u64, age_nanos: u32) -> Option<Seq<(Seq<char>, crate::types::package::PackageFormat, Seq<char>)>> {
        if self.config.enable_cache {
            lookup_result(self.cache@, cache_key_text(root, strategy_value(self.config.strategy)), age_secs, age_nanos)
        } else {
            None
        }
    }
}

/// What resolving `root` from `solved` gives when the cached entry is
/// `age_secs` seconds and `age_nanos` nanoseconds old: the fresh cached
/// order (the cache unchanged), or else a resolution done afresh.
pub open spec fn resolution(
    before: Resolver,
    after: Resolver,
    root: (Seq<char>, crate::types::package::PackageFormat, Seq<char>),
    solved: Seq<PackageId>,
    age_secs: u64,
    age_nanos: u32,
    r: SpmResult<ResolvedGraph>,
) -> bool {
    r matches Ok(g) && match before.cached_spec(root, age_secs, age_nanos) {
        Some(order) => ids_view(g.topological_order@) == order && g.cycles@.len() == 0 && g.metadata_conflicts@.len() == 0
            && after.cache@ == before.cache@,
        None => completed(before, after, root, solved, g),
    }
}

/// A second resolution of the same root, while the entry the first one
/// cached is within the time to live, gives back the first one's order
/// without cycles or conflicts, and leaves the cache as it was.
pub proof fn lemma_second_resolution_cached(
    r0: Resolver,
    r1: Resolver,
    r2: Resolver,
    root: (Seq<char>, crate::types::package::PackageFormat, Seq<char>),
    solved1: Seq<PackageId>,
    g1: ResolvedGraph,
    solved2: Seq<PackageId>,
    res2: SpmResult<ResolvedGraph>,
    age_secs: u64,
    age_nanos: u32,
)
    requires
        r0.config.enable_cache,
        r1.config == r0.config,
        completed(r0, r1, root, solved1, g1),
        resolution(r1, r2, root, solved2, age_secs, age_nanos, res2),
        !crate::package::resolver::cache::expired(age_secs, age_nanos, r1.cache@.ttl_secs),
    ensures
        res2 matches Ok(g2) && ids_view(g2.topological_order@) == ids_view(g1.topological_order@) && g2.cycles@.len() == 0
            && g2.metadata_conflicts@.len() == 0 && r2.cache@ == r1.cache@,
{
    let key = cache_key_text(root, strategy_value(r0.config.strategy));
    assert(r1.cache@.entries.contains_key(key));
    assert(r1.cached_spec(root, age_secs, age_nanos) == Some(ids_view(solved1)));
}

/// A resolution done afresh: the order is the solver's, the cycles and the
/// conflicts are those of that order, and the order is cached when caching
/// is on.
pub open spec fn completed(before: Resolver, after: Resolver, root: (Seq<char>, crate::types::package::PackageFormat, Seq<char>), solved: Seq<PackageId>, g: ResolvedGraph) -> bool {
    &&& ids_view(g.topological_order@) == ids_view(solved)
    &&& conflicts_view(g.metadata_conflicts@) == batch_conflicts(solved)
    &&& cycles_of(solved, before.index, g.cycles@)
    &&& after.cache@.epoch == before.cache@.epoch
    &&& if before.config.enable_cache {
        after.cache@.entries == before.cache@.entries.insert(
            cache_key_text(root, strategy_value(before.config.strategy)),
            ids_view(solved),
        )
    } else {
        after.cache@ == before.cache@
    }
}

} // verus!
