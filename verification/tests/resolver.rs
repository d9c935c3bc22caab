use spm::package::resolver::scc::scc_indices;
use spm::package::resolver::cache::DependencyCache;
use spm::package::resolver::graph::{
    Alternative, ConflictSuggestion, ConflictSuggestionKind, ConflictType, MetadataConflict, ResolvedGraph,
    UnresolvedReason,
};
use spm::package::resolver::{detect_conflicts, Resolver, ResolverConfig};
use spm::package::solver::{SonameIndex, SonameProvider};
use spm::types::config::RepoSource;
use spm::types::package::{PackageFormat, PackageId};

#[test]
fn resolver_test_resolved_graph_default() {
    let g = ResolvedGraph::default();
    assert!(g.topological_order.is_empty());
    assert!(g.cycles.is_empty());
    assert!(g.unresolved.is_empty());
    assert!(g.metadata_conflicts.is_empty());
}

#[test]
fn resolver_test_metadata_conflict_types() {
    let mc1 = MetadataConflict {
        package: "nginx".into(),
        conflicts_with: "apache".into(),
        conflict_type: ConflictType::SystemInstalled,
    };
    let mc2 = MetadataConflict {
        package: "nginx".into(),
        conflicts_with: "lighttpd".into(),
        conflict_type: ConflictType::SameBatch,
    };
    assert_eq!(mc1.conflict_type, ConflictType::SystemInstalled);
    assert_eq!(mc2.conflict_type, ConflictType::SameBatch);
    assert_ne!(mc1.conflict_type, mc2.conflict_type);
}

#[test]
fn mod_test_resolved_graph_default() {
    let g = ResolvedGraph::default();
    assert!(g.topological_order.is_empty());
    assert!(g.cycles.is_empty());
    assert!(g.unresolved.is_empty());
    assert!(g.metadata_conflicts.is_empty());
    assert!(g.unresolved_deps.is_empty());
    assert!(g.alternatives.is_empty());
}

#[test]
fn mod_test_metadata_conflict_types() {
    let mc1 = MetadataConflict {
        package: "nginx".into(),
        conflicts_with: "apache".into(),
        conflict_type: ConflictType::SystemInstalled,
    };
    let mc2 = MetadataConflict {
        package: "nginx".into(),
        conflicts_with: "lighttpd".into(),
        conflict_type: ConflictType::SameBatch,
    };
    assert_eq!(mc1.conflict_type, ConflictType::SystemInstalled);
    assert_eq!(mc2.conflict_type, ConflictType::SameBatch);
    assert_ne!(mc1.conflict_type, mc2.conflict_type);
}

#[test]
fn test_unresolved_reason_display() {
    assert!(matches!(UnresolvedReason::NotInRepos, UnresolvedReason::NotInRepos));
    assert!(matches!(UnresolvedReason::VersionConflict, UnresolvedReason::VersionConflict));
    assert!(matches!(UnresolvedReason::CircularDependency, UnresolvedReason::CircularDependency));
    assert!(matches!(UnresolvedReason::MissingProvider, UnresolvedReason::MissingProvider));
}

#[test]
fn test_alternative_struct() {
    let alt = Alternative {
        name: "libssl".into(),
        format: PackageFormat::Deb,
        version: "1.1.1".into(),
        source: RepoSource::Deb,
        priority: 50,
    };
    assert_eq!(alt.name, "libssl");
    assert_eq!(alt.priority, 50);
}

#[test]
fn test_resolved_graph_builder() {
    let pkg = PackageId::new("test", PackageFormat::Deb);
    let graph = ResolvedGraph::new(vec![pkg.clone()])
        .with_cycles(vec![vec![pkg.clone()]])
        .with_unresolved(vec![])
        .with_metadata_conflicts(vec![])
        .with_alternatives(vec![]);
    assert_eq!(graph.topological_order.len(), 1);
    assert_eq!(graph.cycles.len(), 1);
}

#[test]
fn test_dependency_cache() {
    let mut cache = DependencyCache::new();
    let pkg = PackageId::new("test", PackageFormat::Deb);
    let deps = vec![PackageId::new("dep1", PackageFormat::Deb)];
    cache.set(&pkg, 0, deps.clone());
    let cached = cache.get(&pkg, 0);
    assert!(cached.is_some());
    assert_eq!(cached.unwrap().len(), 1);
    cache.invalidate_all();
    assert!(cache.get(&pkg, 0).is_none());
}

#[test]
fn test_all_package_names() {
    let pkg1 = PackageId::new("a", PackageFormat::Deb);
    let pkg2 = PackageId::new("b", PackageFormat::Deb);
    let graph = ResolvedGraph::new(vec![pkg1, pkg2]);
    let names = graph.all_package_names();
    assert_eq!(names, vec!["a", "b"]);
}

#[test]
fn test_conflict_suggestion() {
    let s = ConflictSuggestion {
        kind: ConflictSuggestionKind::Sandbox,
        description: "Install in sandbox".into(),
    };
    assert_eq!(s.kind, ConflictSuggestionKind::Sandbox);
}

#[test]
fn cache_key_and_replacement() {
    let pkg = PackageId::new_v("nginx", PackageFormat::Rpm, "1.2");
    assert_eq!(DependencyCache::cache_key(&pkg, 1), "nginx:rpm:1.2:e1");
    let mut cache = DependencyCache::with_ttl(60);
    cache.set(&pkg, 1, vec![]);
    cache.set(&pkg, 1, vec![PackageId::new("a", PackageFormat::Rpm)]);
    assert_eq!(cache.len(), 1);
    assert_eq!(cache.get(&pkg, 1).unwrap().len(), 1);
    assert!(cache.get(&pkg, 0).is_none());
    cache.bump_epoch();
    assert_eq!(cache.current_epoch(), 1);
    assert!(cache.is_empty());
}

fn index(requires: &[(&str, &[&str])]) -> SonameIndex {
    SonameIndex {
        providers: vec![],
        requires: requires
            .iter()
            .map(|(n, r)| (n.to_string(), r.iter().map(|s| s.to_string()).collect()))
            .collect(),
    }
}

#[test]
fn tarjan_finds_a_cycle() {
    let idx = index(&[("a", &["b (>= 1)"]), ("b", &["c"]), ("c", &["a"]), ("d", &["a"])]);
    let r = Resolver::from_parts(idx, vec![], ResolverConfig::default());
    let pkgs: Vec<PackageId> = ["a", "b", "c", "d"].iter().map(|n| PackageId::new(n, PackageFormat::Deb)).collect();
    let cycles = r.tarjan_scc(&pkgs);
    assert_eq!(cycles.len(), 1);
    let mut names: Vec<String> = cycles[0].iter().map(|p| p.name.clone()).collect();
    names.sort();
    assert_eq!(names, vec!["a", "b", "c"]);
}

#[test]
fn tarjan_no_cycle_in_a_chain() {
    let idx = index(&[("a", &["b"]), ("b", &["c"])]);
    let r = Resolver::from_parts(idx, vec![], ResolverConfig::default());
    let pkgs: Vec<PackageId> = ["a", "b", "c"].iter().map(|n| PackageId::new(n, PackageFormat::Deb)).collect();
    assert!(r.tarjan_scc(&pkgs).is_empty());
}

#[test]
fn batch_version_conflicts() {
    let order = vec![
        PackageId::new_v("a", PackageFormat::Deb, "1"),
        PackageId::new_v("b", PackageFormat::Deb, "1"),
        PackageId::new_v("a", PackageFormat::Deb, "2"),
        PackageId::new_v("a", PackageFormat::Deb, "2"),
    ];
    let c = detect_conflicts(&order);
    assert_eq!(c.len(), 1);
    assert_eq!(c[0].package, "a");
    assert_eq!(c[0].conflicts_with, "a");
    assert_eq!(c[0].conflict_type, ConflictType::SameBatch);
}

#[test]
fn resolve_uses_the_cache_the_second_time() {
    let idx = index(&[]);
    let mut r = Resolver::from_parts(idx, vec![], ResolverConfig::default());
    let root = PackageId::new("root", PackageFormat::Deb);
    let g = r.resolve(&root, vec![PackageId::new("root", PackageFormat::Deb)]).unwrap();
    assert_eq!(g.topological_order.len(), 1);
    assert!(r.cached(&root).is_some());
    let g2 = r.resolve(&root, vec![]).unwrap();
    assert_eq!(g2.topological_order.len(), 1);
    let _unused = SonameProvider { pkg: "x".into(), version: "1".into(), priority: 1, source: RepoSource::Deb };
}

#[test]
fn scc_indices_finds_every_cycle() {
    // 0 -> 1 -> 2 -> 0 is one component; 3 -> 4 -> 3 another; 5 only points at itself.
    let adj: Vec<Vec<usize>> = vec![vec![1], vec![2], vec![0, 3], vec![4], vec![3], vec![5]];
    let mut comps = scc_indices(&adj);
    for c in comps.iter_mut() {
        c.sort();
    }
    comps.sort();
    assert_eq!(comps, vec![vec![0, 1, 2], vec![3, 4]]);
}

#[test]
fn scc_indices_of_acyclic_graph_is_empty() {
    let adj: Vec<Vec<usize>> = vec![vec![1, 2], vec![2], vec![]];
    assert!(scc_indices(&adj).is_empty());
}

#[test]
fn resolve_aged_takes_a_fresh_entry_and_recomputes_an_old_one() {
    let idx = index(&[]);
    let mut r = Resolver::from_parts(idx, vec![], ResolverConfig::default());
    let root = PackageId::new("root", PackageFormat::Deb);
    r.resolve_aged(&root, vec![PackageId::new("root", PackageFormat::Deb)], 0, 0).unwrap();
    let fresh = r.resolve_aged(&root, vec![], 300, 0).unwrap();
    assert_eq!(fresh.topological_order.len(), 1);
    assert!(r.cached_at(&root, 300, 0).is_some());
    assert!(r.cached_at(&root, 300, 1).is_none());
    let old = r.resolve_aged(&root, vec![], 301, 0).unwrap();
    assert!(old.topological_order.is_empty());
}
