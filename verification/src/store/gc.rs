//! Garbage collection of the shared library store.
use vstd::prelude::*;

verus! {

/// What a garbage collection sweep did.
#[derive(Debug, Clone, Copy)]
pub struct GcStats {
    pub scanned: usize,
    pub removed: usize,
    pub errors: usize,
}

impl Default for GcStats {
    fn default() -> (s: GcStats)
        ensures
            s.scanned == 0 && s.removed == 0 && s.errors == 0,
    {
        GcStats { scanned: 0, removed: 0, errors: 0 }
    }
}

} // verus!
