//! Sandboxes: how strictly a process is confined, and what that takes.
pub mod cgroups;
pub mod landlock;
pub mod seccomp;

use vstd::prelude::*;
use crate::text::{str_eq, strings_view};

verus! {

/// How strictly a sandboxed process is confined, from none to full.
#[derive(Debug, Clone, Copy, PartialEq, Eq, Structural)]
pub enum SandboxLevel {
    /// No confinement.
    Off,
    Standard,
    Strict,
    Full,
}

/// The rank of a level: `Off` < `Standard` < `Strict` < `Full`.
pub open spec fn level_rank(l: SandboxLevel) -> int {
    match l {
        SandboxLevel::Off => 0,
        SandboxLevel::Standard => 1,
        SandboxLevel::Strict => 2,
        SandboxLevel::Full => 3,
    }
}

fn rank(l: SandboxLevel) -> (r: u8)
    ensures
        r as int == level_rank(l),
{
    match l {
        SandboxLevel::Off => 0,
        SandboxLevel::Standard => 1,
        SandboxLevel::Strict => 2,
        SandboxLevel::Full => 3,
    }
}

/// A mount inside the sandbox.
#[derive(Debug, Clone)]
pub struct MountSpec {
    pub source: String,
    pub target: String,
    pub fstype: Option<String>,
    pub readonly: bool,
}

/// A sandbox being put together: its level, mounts and environment.
#[derive(Debug, Clone)]
pub struct SandboxBuilder {
    pub level: SandboxLevel,
    pub mounts: Vec<MountSpec>,
    pub env: Vec<(String, String)>,
}

/// The environment a list of settings leaves: later settings of a variable
/// replace earlier ones.
pub open spec fn env_map(s: Seq<(String, String)>) -> Map<Seq<char>, Seq<char>>
    decreases s.len(),
{
    if s.len() == 0 {
        Map::empty()
    } else {
        env_map(s.drop_last()).insert(s.last().0@, s.last().1@)
    }
}

pub open spec fn env_keys(s: Seq<(String, String)>) -> Seq<Seq<char>> {
    s.map_values(|e: (String, String)| e.0@)
}

proof fn lemma_env_update(s: Seq<(String, String)>, i: int, e: (String, String))
    requires
        0 <= i < s.len(),
        env_keys(s).no_duplicates(),
        e.0@ == s[i].0@,
    ensures
        env_map(s.update(i, e)) == env_map(s).insert(e.0@, e.1@),
    decreases s.len(),
{
    let t = s.update(i, e);
    if i == s.len() - 1 {
        assert(t.drop_last() =~= s.drop_last());
        assert(env_map(t) =~= env_map(s).insert(e.0@, e.1@));
    } else {
        assert(t.drop_last() =~= s.drop_last().update(i, e));
        assert(env_keys(s.drop_last()) =~= env_keys(s).drop_last());
        lemma_env_update(s.drop_last(), i, e);
        assert(env_keys(s)[i] != env_keys(s)[s.len() - 1]);
        assert(env_map(t) =~= env_map(s).insert(e.0@, e.1@));
    }
}

/// What a sandbox of some level sets up.
#[derive(Debug, Clone, Copy, PartialEq, Eq, Structural)]
pub struct SandboxPlan {
    pub new_mount_ns: bool,
    pub new_user_ns: bool,
    pub new_net_ns: bool,
    pub cgroup: bool,
    pub seccomp: bool,
    pub landlock: bool,
}

/// Mounts from `Standard` up; user and network namespaces, seccomp and
/// Landlock from `Strict` up; a cgroup at `Full` only.
pub open spec fn plan_for(level: SandboxLevel) -> SandboxPlan {
    SandboxPlan {
        new_mount_ns: level_rank(level) >= 1,
        new_user_ns: level_rank(level) >= 2,
        new_net_ns: level_rank(level) >= 2,
        cgroup: level == SandboxLevel::Full,
        seccomp: level_rank(level) >= 2,
        landlock: level_rank(level) >= 2,
    }
}

impl SandboxBuilder {
    pub open spec fn env_ok(&self) -> bool {
        env_keys(self.env@).no_duplicates()
    }

    pub fn new(level: SandboxLevel) -> (b: SandboxBuilder)
        ensures
            b.level == level,
            b.mounts@.len() == 0,
            b.env@.len() == 0,
            b.env_ok(),
    {
        let b = SandboxBuilder { level, mounts: Vec::new(), env: Vec::new() };
        assert(env_keys(b.env@).no_duplicates());
        b
    }

    /// Adds a mount after the others.
    pub fn add_mount(self, spec: MountSpec) -> (b: SandboxBuilder)
        ensures
            b.level == self.level,
            b.mounts@ == self.mounts@.push(spec),
            b.env == self.env,
    {
        let mut mounts = self.mounts;
        mounts.push(spec);
        SandboxBuilder { level: self.level, mounts, env: self.env }
    }

    /// Sets variable `key` of the environment to `value`.
    pub fn set_env(self, key: String, value: String) -> (b: SandboxBuilder)
        requires
            self.env_ok(),
        ensures
            b.env_ok(),
            b.level == self.level,
            b.mounts == self.mounts,
            env_map(b.env@) == env_map(self.env@).insert(key@, value@),
    {
        let mut env = self.env;
        let mut i: usize = 0;
        while i < env.len()
            invariant
                i <= env@.len(),
                env@ == self.env@,
                env_keys(self.env@).no_duplicates(),
                forall|j: int| 0 <= j < i ==> env@[j].0@ != key@,
            decreases env.len() - i,
        {
            if str_eq(env[i].0.as_str(), key.as_str()) {
                let ghost before = env@;
                let e = (key, value);
                proof {
                    lemma_env_update(before, i as int, e);
                    assert(env_keys(before.update(i as int, e)) =~= env_keys(before));
                }
                env.set(i, e);
                return SandboxBuilder { level: self.level, mounts: self.mounts, env };
            }
            i += 1;
        }
        let ghost before = env@;
        env.push((key, value));
        proof {
            assert(env@.drop_last() =~= before);
            assert(env_keys(env@) =~= env_keys(before).push(key@));
            assert forall|j: int| 0 <= j < env_keys(before).len() implies env_keys(before)[j] != key@ by {
                assert(before[j].0@ != key@);
            }
        }
        SandboxBuilder { level: self.level, mounts: self.mounts, env }
    }

    /// What spawning in this sandbox sets up.
    pub fn plan(&self) -> (p: SandboxPlan)
        ensures
            p == plan_for(self.level),
    {
        let r = rank(self.level);
        SandboxPlan {
            new_mount_ns: r >= 1,
            new_user_ns: r >= 2,
            new_net_ns: r >= 2,
            cgroup: self.level == SandboxLevel::Full,
            seccomp: r >= 2,
            landlock: r >= 2,
        }
    }
}

} // verus!
