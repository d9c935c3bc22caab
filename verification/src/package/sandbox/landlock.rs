//! Landlock filesystem rules of strict sandboxes.
use vstd::prelude::*;
use crate::text::owned;

verus! {

pub const LANDLOCK_ACCESS_FS_EXECUTE: u64 = 1;
pub const LANDLOCK_ACCESS_FS_WRITE_FILE: u64 = 2;
pub const LANDLOCK_ACCESS_FS_READ_FILE: u64 = 4;
pub const LANDLOCK_ACCESS_FS_READ_DIR: u64 = 8;

/// A set of Landlock filesystem access rights, as the kernel's bit mask.
#[derive(Debug, Clone, Copy, PartialEq, Eq, Structural)]
pub struct AccessFs(pub u64);

impl AccessFs {
    /// Reading files and listing directories.
    pub fn read() -> (a: AccessFs)
        ensures
            a.0 == LANDLOCK_ACCESS_FS_READ_FILE + LANDLOCK_ACCESS_FS_READ_DIR,
    {
        AccessFs(LANDLOCK_ACCESS_FS_READ_FILE + LANDLOCK_ACCESS_FS_READ_DIR)
    }

    /// Writing files.
    pub fn write() -> (a: AccessFs)
        ensures
            a.0 == LANDLOCK_ACCESS_FS_WRITE_FILE,
    {
        AccessFs(LANDLOCK_ACCESS_FS_WRITE_FILE)
    }

    /// Executing files.
    pub fn execute() -> (a: AccessFs)
        ensures
            a.0 == LANDLOCK_ACCESS_FS_EXECUTE,
    {
        AccessFs(LANDLOCK_ACCESS_FS_EXECUTE)
    }
}

/// The rights the ruleset handles: every right a rule can grant.
pub open spec fn handled_access() -> u64 {
    (LANDLOCK_ACCESS_FS_EXECUTE + LANDLOCK_ACCESS_FS_WRITE_FILE + LANDLOCK_ACCESS_FS_READ_FILE
        + LANDLOCK_ACCESS_FS_READ_DIR) as u64
}

/// Access `access` below `path`.
#[derive(Debug, Clone)]
pub struct LandlockRule {
    pub path: String,
    pub access: AccessFs,
}

/// The rules of a sandbox, in the order they were added.  No rule at all
/// means no restriction.
#[derive(Debug, Clone)]
pub struct LandlockRules {
    pub rules: Vec<LandlockRule>,
}

pub open spec fn rules_view(v: Seq<LandlockRule>) -> Seq<(Seq<char>, u64)> {
    v.map_values(|r: LandlockRule| (r.path@, r.access.0))
}

impl LandlockRules {
    pub fn default() -> (r: LandlockRules)
        ensures
            r.rules@.len() == 0,
    {
        LandlockRules { rules: Vec::new() }
    }

    fn with_rule(self, path: &str, access: AccessFs) -> (r: LandlockRules)
        ensures
            rules_view(r.rules@) == rules_view(self.rules@).push((path@, access.0)),
    {
        let mut rules = self.rules;
        let ghost before = rules_view(rules@);
        rules.push(LandlockRule { path: owned(path), access });
        assert(rules_view(rules@) =~= before.push((path@, access.0)));
        LandlockRules { rules }
    }

    /// Also allows reading below `path`.
    pub fn allow_read(self, path: &str) -> (r: LandlockRules)
        ensures
            rules_view(r.rules@) == rules_view(self.rules@).push(
                (path@, (LANDLOCK_ACCESS_FS_READ_FILE + LANDLOCK_ACCESS_FS_READ_DIR) as u64),
            ),
    {
        self.with_rule(path, AccessFs::read())
    }

    /// Also allows writing below `path`.
    pub fn allow_write(self, path: &str) -> (r: LandlockRules)
        ensures
            rules_view(r.rules@) == rules_view(self.rules@).push((path@, LANDLOCK_ACCESS_FS_WRITE_FILE)),
    {
        self.with_rule(path, AccessFs::write())
    }

    /// Also allows executing below `path`.
    pub fn allow_exec(self, path: &str) -> (r: LandlockRules)
        ensures
            rules_view(r.rules@) == rules_view(self.rules@).push((path@, LANDLOCK_ACCESS_FS_EXECUTE)),
    {
        self.with_rule(path, AccessFs::execute())
    }

    /// The rights the ruleset handles, as applying it declares them.
    pub fn handled_access(&self) -> (a: u64)
        ensures
            a == handled_access(),
    {
        LANDLOCK_ACCESS_FS_EXECUTE + LANDLOCK_ACCESS_FS_WRITE_FILE + LANDLOCK_ACCESS_FS_READ_FILE
            + LANDLOCK_ACCESS_FS_READ_DIR
    }
}

} // verus!
