//! The seccomp filter of strict sandboxes: a classic BPF program that
//! allows a fixed set of system call numbers on the host architecture and
//! kills the process on anything else.
use vstd::prelude::*;

verus! {

pub const BPF_LD: u16 = 0x00;
pub const BPF_JMP: u16 = 0x05;
pub const BPF_RET: u16 = 0x06;
pub const BPF_W: u16 = 0x00;
pub const BPF_ABS: u16 = 0x20;
pub const BPF_JEQ: u16 = 0x10;
pub const BPF_JGE: u16 = 0x30;
pub const BPF_JGT: u16 = 0x20;
pub const BPF_K: u16 = 0x00;

pub const SECCOMP_RET_KILL_PROCESS: u32 = 0x80000000;
pub const SECCOMP_RET_ALLOW: u32 = 0x7fff0000;

/// Offsets in `struct seccomp_data`.
pub const DATA_NR: u32 = 0;
pub const DATA_ARCH: u32 = 4;

/// One BPF instruction (`struct sock_filter`).
#[derive(Debug, Clone, Copy, PartialEq, Eq, Structural)]
pub struct SockFilter {
    pub code: u16,
    pub jt: u8,
    pub jf: u8,
    pub k: u32,
}

/// The number of allowed ranges.
pub const N_RANGES: usize = 6;

/// The lower bound of allowed range `i`.
pub open spec fn range_lo(i: int) -> u32 {
    if i == 0 {
        0
    } else if i == 1 {
        22
    } else if i == 2 {
        35
    } else if i == 3 {
        47
    } else if i == 4 {
        56
    } else {
        72
    }
}

/// The upper bound (inclusive) of allowed range `i`.
pub open spec fn range_hi(i: int) -> u32 {
    if i == 0 {
        17
    } else if i == 1 {
        25
    } else if i == 2 {
        43
    } else if i == 3 {
        48
    } else if i == 4 {
        63
    } else {
        293
    }
}

/// The system call numbers the sandbox allows: 0–17, 22–25, 35–43, 47–48,
/// 56–63 and 72–293.
pub open spec fn syscall_allowed(nr: u32) -> bool {
    exists|i: int| 0 <= i < N_RANGES && #[trigger] range_lo(i) <= nr <= range_hi(i)
}

fn range_bounds(i: usize) -> (r: (u32, u32))
    requires
        i < N_RANGES,
    ensures
        r == (range_lo(i as int), range_hi(i as int)),
{
    if i == 0 {
        (0, 17)
    } else if i == 1 {
        (22, 25)
    } else if i == 2 {
        (35, 43)
    } else if i == 3 {
        (47, 48)
    } else if i == 4 {
        (56, 63)
    } else {
        (72, 293)
    }
}

pub open spec fn ins(code: u16, jt: u8, jf: u8, k: u32) -> SockFilter {
    SockFilter { code, jt, jf, k }
}

/// The three instructions of range `i`: below `lo` jump to the final kill,
/// above `hi` go on with the next range, else allow.
pub open spec fn range_code(i: int) -> Seq<SockFilter> {
    seq![
        ins(BPF_JMP | BPF_JGE | BPF_K, 0, (17 - 3 * i) as u8, range_lo(i)),
        ins(BPF_JMP | BPF_JGT | BPF_K, 1, 0, range_hi(i)),
        ins(BPF_RET | BPF_K, 0, 0, SECCOMP_RET_ALLOW),
    ]
}

pub open spec fn ranges_code(n: int) -> Seq<SockFilter>
    decreases n,
{
    if n <= 0 {
        Seq::empty()
    } else {
        ranges_code(n - 1) + range_code(n - 1)
    }
}

/// The program: check the architecture (kill on another one), load the
/// system call number, test the ranges in turn, kill.
pub open spec fn bpf_program(audit_arch: u32) -> Seq<SockFilter> {
    seq![
        ins(BPF_LD | BPF_W | BPF_ABS, 0, 0, DATA_ARCH),
        ins(BPF_JMP | BPF_JEQ | BPF_K, 1, 0, audit_arch),
        ins(BPF_RET | BPF_K, 0, 0, SECCOMP_RET_KILL_PROCESS),
        ins(BPF_LD | BPF_W | BPF_ABS, 0, 0, DATA_NR),
    ] + ranges_code(N_RANGES as int) + seq![ins(BPF_RET | BPF_K, 0, 0, SECCOMP_RET_KILL_PROCESS)]
}

/// Builds the filter for the architecture `audit_arch` (an `AUDIT_ARCH_*`
/// value).
pub fn build_bpf_program(audit_arch: u32) -> (prog: Vec<SockFilter>)
    ensures
        prog@ == bpf_program(audit_arch),
{
    let mut prog: Vec<SockFilter> = Vec::new();
    prog.push(SockFilter { code: BPF_LD | BPF_W | BPF_ABS, jt: 0, jf: 0, k: DATA_ARCH });
    prog.push(SockFilter { code: BPF_JMP | BPF_JEQ | BPF_K, jt: 1, jf: 0, k: audit_arch });
    prog.push(SockFilter { code: BPF_RET | BPF_K, jt: 0, jf: 0, k: SECCOMP_RET_KILL_PROCESS });
    prog.push(SockFilter { code: BPF_LD | BPF_W | BPF_ABS, jt: 0, jf: 0, k: DATA_NR });
    let ghost head = prog@;
    let kill_pc: usize = 4 + 3 * N_RANGES;
    let mut i: usize = 0;
    assert(ranges_code(0) =~= Seq::<SockFilter>::empty());
    while i < N_RANGES
        invariant
            i <= N_RANGES,
            kill_pc == 4 + 3 * N_RANGES,
            head.len() == 4,
            prog@ == head + ranges_code(i as int),
        decreases N_RANGES - i,
    {
        let (lo, hi) = range_bounds(i);
        let jge_pc: usize = 4 + 3 * i;
        let jf: u8 = (kill_pc - jge_pc - 1) as u8;
        prog.push(SockFilter { code: BPF_JMP | BPF_JGE | BPF_K, jt: 0, jf, k: lo });
        prog.push(SockFilter { code: BPF_JMP | BPF_JGT | BPF_K, jt: 1, jf: 0, k: hi });
        prog.push(SockFilter { code: BPF_RET | BPF_K, jt: 0, jf: 0, k: SECCOMP_RET_ALLOW });
        proof {
            assert(jf == (17 - 3 * i) as u8);
            assert(ranges_code(i + 1) == ranges_code(i as int) + range_code(i as int));
            assert(prog@ =~= head + ranges_code(i + 1));
        }
        i += 1;
    }
    prog.push(SockFilter { code: BPF_RET | BPF_K, jt: 0, jf: 0, k: SECCOMP_RET_KILL_PROCESS });
    proof {
        assert(prog@ =~= bpf_program(audit_arch));
    }
    prog
}

// ---------------------------------------------------------------------------
// What the kernel does with the program
// ---------------------------------------------------------------------------

/// Runs a classic BPF program from `pc` with accumulator `acc` on a system
/// call `nr` made on architecture `arch`: the value of the first `RET`
/// reached, or `None` when the program runs off its end or meets an
/// instruction it does not know.  Jumps only go forward.
pub open spec fn run_bpf(prog: Seq<SockFilter>, pc: int, acc: u32, nr: u32, arch: u32) -> Option<u32>
    decreases prog.len() - pc,
{
    if pc < 0 || pc >= prog.len() {
        None
    } else {
        let i = prog[pc];
        if i.code == BPF_LD | BPF_W | BPF_ABS {
            if i.k == DATA_NR {
                run_bpf(prog, pc + 1, nr, nr, arch)
            } else if i.k == DATA_ARCH {
                run_bpf(prog, pc + 1, arch, nr, arch)
            } else {
                None
            }
        } else if i.code == BPF_JMP | BPF_JEQ | BPF_K {
            let off: int = if acc == i.k {
                i.jt as int
            } else {
                i.jf as int
            };
            if pc + 1 + off <= prog.len() {
                run_bpf(prog, pc + 1 + off, acc, nr, arch)
            } else {
                None
            }
        } else if i.code == BPF_JMP | BPF_JGE | BPF_K {
            let off: int = if acc >= i.k {
                i.jt as int
            } else {
                i.jf as int
            };
            if pc + 1 + off <= prog.len() {
                run_bpf(prog, pc + 1 + off, acc, nr, arch)
            } else {
                None
            }
        } else if i.code == BPF_JMP | BPF_JGT | BPF_K {
            let off: int = if acc > i.k {
                i.jt as int
            } else {
                i.jf as int
            };
            if pc + 1 + off <= prog.len() {
                run_bpf(prog, pc + 1 + off, acc, nr, arch)
            } else {
                None
            }
        } else if i.code == BPF_RET | BPF_K {
            Some(i.k)
        } else {
            None
        }
    }
}

proof fn lemma_ranges_code(n: int, i: int)
    requires
        0 <= i < n <= N_RANGES,
    ensures
        ranges_code(n).len() == 3 * n,
        ranges_code(n)[3 * i] == range_code(i)[0],
        ranges_code(n)[3 * i + 1] == range_code(i)[1],
        ranges_code(n)[3 * i + 2] == range_code(i)[2],
    decreases n,
{
    if n - 1 > i {
        lemma_ranges_code(n - 1, i);
    } else {
        lemma_ranges_len(n - 1);
    }
}

proof fn lemma_ranges_len(n: int)
    requires
        0 <= n <= N_RANGES,
    ensures
        ranges_code(n).len() == 3 * n,
    decreases n,
{
    if n > 0 {
        lemma_ranges_len(n - 1);
    }
}

/// From the test of range `i` on, the program allows exactly the numbers of
/// the ranges `i..` (numbers below range `i` are not in any range of
/// `i..`).
proof fn lemma_range_tests(audit_arch: u32, nr: u32, arch: u32, i: int)
    requires
        0 <= i <= N_RANGES,
        i > 0 ==> nr > range_hi(i - 1),
    ensures
        run_bpf(bpf_program(audit_arch), 4 + 3 * i, nr, nr, arch) == Some(
            if exists|j: int| i <= j < N_RANGES && #[trigger] range_lo(j) <= nr <= range_hi(j) {
                SECCOMP_RET_ALLOW
            } else {
                SECCOMP_RET_KILL_PROCESS
            },
        ),
    decreases N_RANGES - i,
{
    let p = bpf_program(audit_arch);
    lemma_ranges_len(N_RANGES as int);
    assert(p.len() == 4 + 3 * N_RANGES + 1);
    assert((BPF_JMP | BPF_JGE | BPF_K) == 0x35u16) by (bit_vector);
    assert((BPF_JMP | BPF_JGT | BPF_K) == 0x25u16) by (bit_vector);
    assert((BPF_RET | BPF_K) == 0x06u16) by (bit_vector);
    assert((BPF_LD | BPF_W | BPF_ABS) == 0x20u16) by (bit_vector);
    assert((BPF_JMP | BPF_JEQ | BPF_K) == 0x15u16) by (bit_vector);
    if i == N_RANGES {
        assert(p[4 + 3 * N_RANGES] == ins(BPF_RET | BPF_K, 0, 0, SECCOMP_RET_KILL_PROCESS));
    } else {
        lemma_ranges_code(N_RANGES as int, i);
        assert(p[4 + 3 * i] == range_code(i)[0]);
        assert(p[4 + 3 * i + 1] == range_code(i)[1]);
        assert(p[4 + 3 * i + 2] == range_code(i)[2]);
        assert(p[4 + 3 * N_RANGES] == ins(BPF_RET | BPF_K, 0, 0, SECCOMP_RET_KILL_PROCESS));
        assert((BPF_JMP | BPF_JGE | BPF_K) == 0x35u16) by (bit_vector);
        assert((BPF_JMP | BPF_JGT | BPF_K) == 0x25u16) by (bit_vector);
        assert((BPF_RET | BPF_K) == 0x06u16) by (bit_vector);
        assert((BPF_LD | BPF_W | BPF_ABS) == 0x20u16) by (bit_vector);
        assert((BPF_JMP | BPF_JEQ | BPF_K) == 0x15u16) by (bit_vector);
        let kill = 4 + 3 * N_RANGES;
        assert(run_bpf(p, kill, nr, nr, arch) == Some(SECCOMP_RET_KILL_PROCESS));
        if nr < range_lo(i) {
            assert(4 + 3 * i + 1 + (17 - 3 * i) as u8 as int == kill);
            assert(run_bpf(p, 4 + 3 * i, nr, nr, arch) == run_bpf(p, kill, nr, nr, arch));
            assert forall|j: int| i <= j < N_RANGES implies !(#[trigger] range_lo(j) <= nr <= range_hi(j)) by {
                assert(range_lo(i) <= range_lo(j));
            }
        } else if nr <= range_hi(i) {
            assert(range_lo(i) <= nr <= range_hi(i));
            assert(run_bpf(p, 4 + 3 * i + 2, nr, nr, arch) == Some(SECCOMP_RET_ALLOW));
            assert(run_bpf(p, 4 + 3 * i + 1, nr, nr, arch) == run_bpf(p, 4 + 3 * i + 2, nr, nr, arch));
            assert(run_bpf(p, 4 + 3 * i, nr, nr, arch) == run_bpf(p, 4 + 3 * i + 1, nr, nr, arch));
        } else {
            lemma_range_tests(audit_arch, nr, arch, i + 1);
            assert(run_bpf(p, 4 + 3 * i + 1, nr, nr, arch) == run_bpf(p, 4 + 3 * (i + 1), nr, nr, arch));
            assert(run_bpf(p, 4 + 3 * i, nr, nr, arch) == run_bpf(p, 4 + 3 * i + 1, nr, nr, arch));
            assert forall|j: int| i <= j < N_RANGES && #[trigger] range_lo(j) <= nr <= range_hi(j) implies i + 1 <= j by {}
        }
    }
}

/// The filter allows a system call exactly when it comes from the host
/// architecture and its number is in one of the allowed ranges; every other
/// call kills the process.
pub proof fn lemma_filter_decides(audit_arch: u32, nr: u32, arch: u32)
    ensures
        run_bpf(bpf_program(audit_arch), 0, 0, nr, arch) == Some(
            if arch == audit_arch && syscall_allowed(nr) {
                SECCOMP_RET_ALLOW
            } else {
                SECCOMP_RET_KILL_PROCESS
            },
        ),
{
    let p = bpf_program(audit_arch);
    lemma_ranges_len(N_RANGES as int);
    assert((BPF_LD | BPF_W | BPF_ABS) == 0x20u16) by (bit_vector);
    assert((BPF_JMP | BPF_JEQ | BPF_K) == 0x15u16) by (bit_vector);
    assert((BPF_RET | BPF_K) == 0x06u16) by (bit_vector);
    assert((BPF_JMP | BPF_JGE | BPF_K) == 0x35u16) by (bit_vector);
    assert((BPF_JMP | BPF_JGT | BPF_K) == 0x25u16) by (bit_vector);
    assert(p[0] == ins(BPF_LD | BPF_W | BPF_ABS, 0, 0, DATA_ARCH));
    assert(p[1] == ins(BPF_JMP | BPF_JEQ | BPF_K, 1, 0, audit_arch));
    assert(p[2] == ins(BPF_RET | BPF_K, 0, 0, SECCOMP_RET_KILL_PROCESS));
    assert(p[3] == ins(BPF_LD | BPF_W | BPF_ABS, 0, 0, DATA_NR));
    assert(run_bpf(p, 2, arch, nr, arch) == Some(SECCOMP_RET_KILL_PROCESS));
    if arch == audit_arch {
        lemma_range_tests(audit_arch, nr, arch, 0);
        assert(run_bpf(p, 3, arch, nr, arch) == run_bpf(p, 4, nr, nr, arch));
        assert(run_bpf(p, 1, arch, nr, arch) == run_bpf(p, 3, arch, nr, arch));
    } else {
        assert(run_bpf(p, 1, arch, nr, arch) == run_bpf(p, 2, arch, nr, arch));
    }
    assert(run_bpf(p, 0, 0, nr, arch) == run_bpf(p, 1, arch, nr, arch));
}

/// A seccomp profile: the filter program to load.
#[derive(Debug, Clone)]
pub struct SeccompProfile {
    pub filter: Vec<SockFilter>,
}

impl SeccompProfile {
    /// The profile of strict sandboxes on the architecture `audit_arch`.
    pub fn default_allowlist(audit_arch: u32) -> (p: SeccompProfile)
        ensures
            p.filter@ == bpf_program(audit_arch),
    {
        SeccompProfile { filter: build_bpf_program(audit_arch) }
    }
}

} // verus!
