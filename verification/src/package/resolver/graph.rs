//! The result of dependency resolution.
use vstd::prelude::*;
use crate::types::config::RepoSource;
use crate::types::package::{PackageFormat, PackageId};

verus! {

/// Why two packages cannot be installed together.
#[derive(Debug, Clone, Copy, PartialEq, Eq, Structural)]
pub enum ConflictType {
    SystemInstalled,
    SameBatch,
}

/// A conflict found in package metadata.
#[derive(Debug, Clone)]
pub struct MetadataConflict {
    pub package: String,
    pub conflicts_with: String,
    pub conflict_type: ConflictType,
}

/// A way out of a conflict offered to the user.
#[derive(Debug, Clone)]
pub struct ConflictSuggestion {
    pub kind: ConflictSuggestionKind,
    pub description: String,
}

#[derive(Debug, Clone, Copy, PartialEq, Eq, Structural)]
pub enum ConflictSuggestionKind {
    Sandbox,
    ReplaceVersion,
    Skip,
}

/// Why a dependency stayed unresolved.
#[derive(Debug, Clone, Copy, PartialEq, Eq, Structural)]
pub enum UnresolvedReason {
    NotInRepos,
    VersionConflict,
    CircularDependency,
    MissingProvider,
}

#[derive(Debug, Clone)]
pub struct UnresolvedDep {
    pub package: PackageId,
    pub reason: UnresolvedReason,
    pub details: String,
}

/// Another source for a package.
#[derive(Debug, Clone)]
pub struct Alternative {
    pub name: String,
    pub format: PackageFormat,
    pub version: String,
    pub source: RepoSource,
    pub priority: u32,
}

/// Packages in install order, with what resolution found on the way.
#[derive(Debug)]
pub struct ResolvedGraph {
    pub topological_order: Vec<PackageId>,
    pub cycles: Vec<Vec<PackageId>>,
    pub unresolved: Vec<PackageId>,
    pub unresolved_deps: Vec<UnresolvedDep>,
    pub metadata_conflicts: Vec<MetadataConflict>,
    pub alternatives: Vec<Alternative>,
}

impl Default for ResolvedGraph {
    fn default() -> (g: ResolvedGraph)
        ensures
            g.topological_order@.len() == 0,
            g.cycles@.len() == 0,
            g.unresolved@.len() == 0,
            g.unresolved_deps@.len() == 0,
            g.metadata_conflicts@.len() == 0,
            g.alternatives@.len() == 0,
    {
        ResolvedGraph::new(Vec::new())
    }
}

impl ResolvedGraph {
    /// A graph with the given install order and nothing else.
    pub fn new(topological_order: Vec<PackageId>) -> (g: ResolvedGraph)
        ensures
            g.topological_order == topological_order,
            g.cycles@.len() == 0,
            g.unresolved@.len() == 0,
            g.unresolved_deps@.len() == 0,
            g.metadata_conflicts@.len() == 0,
            g.alternatives@.len() == 0,
    {
        ResolvedGraph {
            topological_order,
            cycles: Vec::new(),
            unresolved: Vec::new(),
            unresolved_deps: Vec::new(),
            metadata_conflicts: Vec::new(),
            alternatives: Vec::new(),
        }
    }

    pub fn with_cycles(self, cycles: Vec<Vec<PackageId>>) -> (g: ResolvedGraph)
        ensures
            g == (ResolvedGraph { cycles, ..self }),
    {
        let mut g = self;
        g.cycles = cycles;
        g
    }

    pub fn with_unresolved(self, unresolved: Vec<PackageId>) -> (g: ResolvedGraph)
        ensures
            g == (ResolvedGraph { unresolved, ..self }),
    {
        let mut g = self;
        g.unresolved = unresolved;
        g
    }

    pub fn with_metadata_conflicts(self, conflicts: Vec<MetadataConflict>) -> (g: ResolvedGraph)
        ensures
            g == (ResolvedGraph { metadata_conflicts: conflicts, ..self }),
    {
        let mut g = self;
        g.metadata_conflicts = conflicts;
        g
    }

    pub fn with_alternatives(self, alternatives: Vec<Alternative>) -> (g: ResolvedGraph)
        ensures
            g == (ResolvedGraph { alternatives, ..self }),
    {
        let mut g = self;
        g.alternatives = alternatives;
        g
    }

    /// The names of the packages, in install order.
    pub fn all_package_names(&self) -> (r: Vec<&str>)
        ensures
            r@.len() == self.topological_order@.len(),
            forall|i: int| 0 <= i < r@.len() ==> #[trigger] r@[i]@ == self.topological_order@[i].name@,
    {
        let mut r: Vec<&str> = Vec::new();
        let mut i: usize = 0;
        while i < self.topological_order.len()
            invariant
                i <= self.topological_order@.len(),
                r@.len() == i,
                forall|j: int| 0 <= j < i ==> #[trigger] r@[j]@ == self.topological_order@[j].name@,
            decreases self.topological_order.len() - i,
        {
            r.push(self.topological_order[i].name.as_str());
            i += 1;
        }
        r
    }
}

} // verus!
