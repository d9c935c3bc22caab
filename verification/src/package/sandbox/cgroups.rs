//! Resource limits of full sandboxes, through cgroup v2 files.
use vstd::prelude::*;
use crate::text::{decimal, push_decimal, push_str};

verus! {

/// The root of the cgroup v2 hierarchy.
pub const CGROUP_BASE: &'static str = "/sys/fs/cgroup";

/// The limits of a sandbox.
#[derive(Debug, Clone)]
pub struct CgroupLimits {
    pub memory_max: u64,
    pub cpu_quota: u32,
    pub cpu_period: u32,
    pub pids_max: u32,
}

impl Default for CgroupLimits {
    /// 512 MiB of memory, half a CPU, 64 processes.
    fn default() -> (c: CgroupLimits)
        ensures
            c.memory_max == 512 * 1024 * 1024,
            c.cpu_quota == 50000,
            c.cpu_period == 100000,
            c.pids_max == 64,
    {
        CgroupLimits { memory_max: 512 * 1024 * 1024, cpu_quota: 50000, cpu_period: 100000, pids_max: 64 }
    }
}

/// The cgroup directory of the process `own_pid`: `/sys/fs/cgroup/spm-<pid>`.
pub open spec fn cgroup_dir(own_pid: u32) -> Seq<char> {
    CGROUP_BASE@ + "/spm-"@ + decimal(own_pid as nat)
}

/// A file to write: its path and its contents.
#[derive(Debug, Clone)]
pub struct CgroupWrite {
    pub path: String,
    pub content: String,
}

fn file_in(own_pid: u32, name: &str) -> (r: String)
    ensures
        r@ == cgroup_dir(own_pid) + "/"@ + name@,
{
    let mut r = String::new();
    push_str(&mut r, CGROUP_BASE);
    push_str(&mut r, "/spm-");
    push_decimal(&mut r, own_pid as u64);
    push_str(&mut r, "/");
    push_str(&mut r, name);
    assert(r@ =~= cgroup_dir(own_pid) + "/"@ + name@);
    r
}

impl CgroupLimits {
    /// The cgroup of process `own_pid` with these limits: the directory to
    /// create, then `memory.max`, `cpu.max` (quota and period) and
    /// `pids.max` to write, in that order.
    pub fn create(&self, own_pid: u32) -> (r: (String, Vec<CgroupWrite>))
        ensures
            r.0@ == cgroup_dir(own_pid),
            r.1@.len() == 3,
            r.1@[0].path@ == cgroup_dir(own_pid) + "/"@ + "memory.max"@,
            r.1@[0].content@ == decimal(self.memory_max as nat) + "\n"@,
            r.1@[1].path@ == cgroup_dir(own_pid) + "/"@ + "cpu.max"@,
            r.1@[1].content@ == decimal(self.cpu_quota as nat) + " "@ + decimal(self.cpu_period as nat) + "\n"@,
            r.1@[2].path@ == cgroup_dir(own_pid) + "/"@ + "pids.max"@,
            r.1@[2].content@ == decimal(self.pids_max as nat) + "\n"@,
    {
        let mut dir = String::new();
        push_str(&mut dir, CGROUP_BASE);
        push_str(&mut dir, "/spm-");
        push_decimal(&mut dir, own_pid as u64);
        assert(dir@ =~= cgroup_dir(own_pid));
        let mut mem = String::new();
        push_decimal(&mut mem, self.memory_max);
        push_str(&mut mem, "\n");
        let mut cpu = String::new();
        push_decimal(&mut cpu, self.cpu_quota as u64);
        push_str(&mut cpu, " ");
        push_decimal(&mut cpu, self.cpu_period as u64);
        push_str(&mut cpu, "\n");
        let mut pids = String::new();
        push_decimal(&mut pids, self.pids_max as u64);
        push_str(&mut pids, "\n");
        proof {
            assert(mem@ =~= decimal(self.memory_max as nat) + "\n"@);
            assert(cpu@ =~= decimal(self.cpu_quota as nat) + " "@ + decimal(self.cpu_period as nat) + "\n"@);
            assert(pids@ =~= decimal(self.pids_max as nat) + "\n"@);
        }
        let mut w: Vec<CgroupWrite> = Vec::new();
        w.push(CgroupWrite { path: file_in(own_pid, "memory.max"), content: mem });
        w.push(CgroupWrite { path: file_in(own_pid, "cpu.max"), content: cpu });
        w.push(CgroupWrite { path: file_in(own_pid, "pids.max"), content: pids });
        (dir, w)
    }

    /// The write that puts process `pid` into the cgroup of `own_pid`.
    pub fn add_pid(&self, own_pid: u32, pid: u32) -> (r: CgroupWrite)
        ensures
            r.path@ == cgroup_dir(own_pid) + "/"@ + "cgroup.procs"@,
            r.content@ == decimal(pid as nat) + "\n"@,
    {
        let mut c = String::new();
        push_decimal(&mut c, pid as u64);
        push_str(&mut c, "\n");
        assert(c@ =~= decimal(pid as nat) + "\n"@);
        CgroupWrite { path: file_in(own_pid, "cgroup.procs"), content: c }
    }
}

} // verus!
