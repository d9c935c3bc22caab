//! Conflicts with foreign package managers: the resolutions a user can
//! choose.
use vstd::prelude::*;
use crate::package::query::{lowercase, to_lowercase};
use crate::text::{
    chars_of, contains, contains_str_in, eq_ignore_ascii_case, eq_ignore_case, lines, next_line, owned, parse_u64,
    parse_unsigned, starts_with, starts_with_str, str_eq, string_of, trim, trim_range,
};

verus! {

/// How a conflict with a foreign package manager is resolved.
#[derive(Debug, Clone, PartialEq, Eq)]
pub enum Resolution {
    /// Go on with the install as planned.
    Proceed,
    /// Install into a sandbox instead.
    SandboxInstall,
    /// Remove the foreign-owned packages first, then install.
    ForceReplace {
        /// Names of the foreign-owned packages to remove.
        packages_to_remove: Vec<String>,
    },
    /// The user declined; the operation is cancelled.
    Cancelled,
}

/// Detects which package manager owns a file or package.
#[derive(Debug, Clone, Copy)]
pub struct PackageManagerDetector;

/// Stops and resumes processes that interfere with spm.
#[derive(Debug, Clone, Copy)]
pub struct ProcessFreezer;

/// A handle on the content store.
#[derive(Debug, Clone, Copy)]
pub struct StoreManager;

impl StoreManager {
    /// The root directory of the content store under the database
    /// directory `base`.
    pub fn root_dir(base: &str) -> (r: String)
        ensures
            r@ == crate::package::store::store_dir_text(base@),
    {
        crate::package::store::store_dir(base)
    }
}

/// Mediates between spm and foreign package managers.
#[derive(Debug, Clone, Copy)]
pub struct ConflictMediator {
    pub detector: PackageManagerDetector,
    pub freezer: ProcessFreezer,
    pub store: StoreManager,
}

impl Default for ConflictMediator {
    fn default() -> (m: ConflictMediator) {
        ConflictMediator::new()
    }
}

impl ConflictMediator {
    pub fn new() -> (m: ConflictMediator)
        ensures
            m == (ConflictMediator { detector: PackageManagerDetector, freezer: ProcessFreezer, store: StoreManager }),
    {
        ConflictMediator { detector: PackageManagerDetector, freezer: ProcessFreezer, store: StoreManager }
    }

    /// The resolution for the option chosen (by position) when a package is
    /// already owned by a foreign manager: proceed, sandbox, replace the
    /// package, or (any other choice) cancel.
    pub fn foreign_owned_index_to_resolution(&self, idx: usize, pkg_name: &str) -> (r: Resolution)
        ensures
            idx == 0 ==> r == Resolution::Proceed,
            idx == 1 ==> r == Resolution::SandboxInstall,
            idx == 2 ==> (r matches Resolution::ForceReplace { packages_to_remove } && packages_to_remove@.len() == 1
                && packages_to_remove@[0]@ == pkg_name@),
            idx > 2 ==> r == Resolution::Cancelled,
    {
        match idx {
            0 => Resolution::Proceed,
            1 => Resolution::SandboxInstall,
            2 => {
                let mut v: Vec<String> = Vec::new();
                v.push(owned(pkg_name));
                Resolution::ForceReplace { packages_to_remove: v }
            },
            _ => Resolution::Cancelled,
        }
    }
}

/// A foreign package manager.
#[derive(Debug, Clone, Copy, PartialEq, Eq, Structural)]
pub enum PackageManager {
    Apt,
    Dnf,
    Zypper,
    Pacman,
}

/// The name a package manager goes by (its processes carry it).
pub open spec fn manager_name(m: PackageManager) -> Seq<char> {
    match m {
        PackageManager::Apt => "apt"@,
        PackageManager::Dnf => "dnf"@,
        PackageManager::Zypper => "zypper"@,
        PackageManager::Pacman => "pacman"@,
    }
}

impl PackageManager {
    pub fn name(&self) -> (s: String)
        ensures
            s@ == manager_name(*self),
    {
        match self {
            PackageManager::Apt => owned("apt"),
            PackageManager::Dnf => owned("dnf"),
            PackageManager::Zypper => owned("zypper"),
            PackageManager::Pacman => owned("pacman"),
        }
    }
}

/// How risky an option is.
#[derive(Debug, Clone, Copy, PartialEq, Eq, Structural)]
pub enum RiskLevel {
    Negligible,
    Low,
    Medium,
    High,
}

/// One choice offered to the user.
#[derive(Debug, Clone)]
pub struct ResolutionOption {
    pub description: String,
    pub command: String,
    pub risk: RiskLevel,
}

/// Whether a process named `comm` belongs to the package manager `name`
/// (dpkg counts as apt, rpm as dnf).
pub open spec fn comm_belongs(comm: Seq<char>, name: Seq<char>) -> bool {
    contains(comm, name) || (name == "apt"@ && contains(comm, "dpkg"@)) || (name == "dnf"@ && contains(comm, "rpm"@))
}

pub fn comm_matches(comm: &str, name: &str) -> (r: bool)
    ensures
        r == comm_belongs(comm@, name@),
{
    contains_str_in(comm, name) || (str_eq(name, "apt") && contains_str_in(comm, "dpkg")) || (str_eq(name, "dnf")
        && contains_str_in(comm, "rpm"))
}

/// A line `Package: <name>` of the dpkg status file, the name compared
/// without regard to ASCII case.
pub open spec fn dpkg_lists(ls: Seq<Seq<char>>, name: Seq<char>) -> bool {
    exists|i: int|
        0 <= i < ls.len() && starts_with(#[trigger] ls[i], "Package: "@) && eq_ignore_case(trim(ls[i].skip(9)), name)
}

/// Whether the dpkg status file knows package `name`.
pub fn dpkg_status_has(content: &str, name: &str) -> (r: bool)
    ensures
        r == dpkg_lists(lines(content@), name@),
{
    proof {
        reveal_strlit("Package: ");
    }
    prefixed_line_names(content, name, "Package: ")
}

/// A line `%NAME%<name>` of a pacman `desc` file.
pub open spec fn pacman_lists(ls: Seq<Seq<char>>, name: Seq<char>) -> bool {
    exists|i: int|
        0 <= i < ls.len() && starts_with(#[trigger] ls[i], "%NAME%"@) && eq_ignore_case(trim(ls[i].skip(6)), name)
}

/// Whether a pacman `desc` file names package `name` on its `%NAME%` line.
pub fn pacman_desc_names(content: &str, name: &str) -> (r: bool)
    ensures
        r == pacman_lists(lines(content@), name@),
{
    proof {
        reveal_strlit("%NAME%");
    }
    prefixed_line_names(content, name, "%NAME%")
}

/// Whether some line starts with `prefix` and, after it and trimmed,
/// equals `name` without regard to ASCII case.
fn prefixed_line_names(content: &str, name: &str, prefix: &str) -> (r: bool)
    ensures
        r == exists|i: int|
            0 <= i < lines(content@).len() && starts_with(#[trigger] lines(content@)[i], prefix@) && eq_ignore_case(
                trim(lines(content@)[i].skip(prefix@.len() as int)),
                name@,
            ),
{
    let v = chars_of(content);
    let n = v.len();
    let plen = chars_of(prefix).len();
    let ghost all = lines(content@);
    let ghost k: int = 0;
    let mut pos: usize = 0;
    proof {
        assert(v@.skip(0) =~= content@);
    }
    while pos < n
        invariant
            n == v@.len(),
            v@ == content@,
            plen == prefix@.len(),
            pos <= n,
            all == lines(content@),
            0 <= k <= all.len(),
            lines(v@.skip(pos as int)) == all.skip(k),
            forall|i: int| 0 <= i < k ==> !(starts_with(#[trigger] all[i], prefix@) && eq_ignore_case(
                trim(all[i].skip(prefix@.len() as int)),
                name@,
            )),
        decreases n - pos,
    {
        let (e, next) = next_line(&v, pos);
        let ghost l = v@.subrange(pos as int, e as int);
        proof {
            let ls = lines(v@.skip(pos as int));
            assert(ls[0] == l);
            assert(ls.len() >= 1);
            assert(all.skip(k)[0] == all[k]);
            assert(ls.drop_first() =~= lines(v@.skip(next as int)));
            assert(all.skip(k + 1) =~= all.skip(k).drop_first());
        }
        if starts_with_str(&v, pos, e, prefix) {
            let (a, b) = trim_range(&v, pos + plen, e);
            proof {
                assert(l.skip(plen as int) =~= v@.subrange(pos + plen, e as int));
            }
            let t = string_of(&v, a, b);
            if eq_ignore_ascii_case(t.as_str(), name) {
                assert(starts_with(all[k], prefix@));
                return true;
            }
        }
        proof {
            k = k + 1;
        }
        pos = next;
    }
    proof {
        assert(v@.skip(n as int) =~= Seq::<char>::empty());
        assert(all.skip(k).len() == 0);
    }
    false
}

/// The state of a scan of a pacman `desc` file for a file path: inside
/// the `%FILES%` section or not.
pub open spec fn desc_files_run(in_files: bool, ls: Seq<Seq<char>>, path: Seq<char>) -> bool
    decreases ls.len(),
{
    if ls.len() == 0 {
        false
    } else {
        let l = ls[0];
        if l == "%FILES%"@ {
            desc_files_run(true, ls.drop_first(), path)
        } else if in_files && l.len() > 0 && l[0] == '%' {
            false
        } else if in_files && trim(l) == path {
            true
        } else {
            desc_files_run(in_files, ls.drop_first(), path)
        }
    }
}

/// Whether the `%FILES%` section of a pacman `desc` file lists `path`.
pub fn desc_lists_file(content: &str, path: &str) -> (r: bool)
    ensures
        r == desc_files_run(false, lines(content@), path@),
{
    let v = chars_of(content);
    let n = v.len();
    let p = chars_of(path);
    let files_tag = chars_of("%FILES%");
    let mut in_files = false;
    let mut pos: usize = 0;
    proof {
        assert(v@.skip(0) =~= content@);
    }
    while pos < n
        invariant
            n == v@.len(),
            v@ == content@,
            p@ == path@,
            files_tag@ == "%FILES%"@,
            pos <= n,
            desc_files_run(false, lines(content@), path@) == desc_files_run(in_files, lines(v@.skip(pos as int)), path@),
        decreases n - pos,
    {
        let (e, next) = next_line(&v, pos);
        let ghost l = v@.subrange(pos as int, e as int);
        proof {
            let ls = lines(v@.skip(pos as int));
            assert(ls[0] == l);
            assert(ls.drop_first() =~= lines(v@.skip(next as int)));
        }
        if crate::text::same(&v, pos, e, files_tag.as_slice()) {
            in_files = true;
        } else if in_files && e > pos && v[pos] == '%' {
            return false;
        } else if in_files {
            let (a, b) = trim_range(&v, pos, e);
            if crate::text::same(&v, a, b, p.as_slice()) {
                return true;
            }
        }
        pos = next;
    }
    false
}

/// The four options offered when a package is already owned by a foreign
/// manager: proceed (medium risk), sandbox (low), force replacement
/// (high), cancel.
pub fn build_foreign_owned_options() -> (r: Vec<ResolutionOption>)
    ensures
        r@.len() == 4,
        r@[0].description@ == "Proceed with install (SPM takes over)"@ && r@[0].command@ == "spm install --replace"@
            && r@[0].risk == RiskLevel::Medium,
        r@[1].description@ == "Install in sandbox instead (recommended)"@ && r@[1].command@
            == "spm install --sandbox=standard"@ && r@[1].risk == RiskLevel::Low,
        r@[2].description@ == "Force SPM replacement (remove foreign package)"@ && r@[2].command@
            == "spm install --replace --force"@ && r@[2].risk == RiskLevel::High,
        r@[3].description@ == "Cancel installation"@ && r@[3].command@.len() == 0 && r@[3].risk == RiskLevel::Negligible,
{
    let mut r: Vec<ResolutionOption> = Vec::new();
    r.push(ResolutionOption {
        description: owned("Proceed with install (SPM takes over)"),
        command: owned("spm install --replace"),
        risk: RiskLevel::Medium,
    });
    r.push(ResolutionOption {
        description: owned("Install in sandbox instead (recommended)"),
        command: owned("spm install --sandbox=standard"),
        risk: RiskLevel::Low,
    });
    r.push(ResolutionOption {
        description: owned("Force SPM replacement (remove foreign package)"),
        command: owned("spm install --replace --force"),
        risk: RiskLevel::High,
    });
    r.push(ResolutionOption { description: owned("Cancel installation"), command: String::new(), risk: RiskLevel::Negligible });
    r
}

/// The text answer to the foreign-ownership prompt: an option number
/// (1 to `n_options`), or a word (`y`/`yes`/`proceed`, `s`/`sandbox`,
/// `f`/`force`/`replace`, `c`/`cancel`/`n`/`no`, any case); anything else
/// cancels.
pub open spec fn foreign_owned_answer(input: Seq<char>, n_options: nat, pkg_name: Seq<char>) -> ResolutionChoice {
    let t = trim(input);
    let w = lowercase(t);
    match parse_unsigned(t, usize::MAX as nat) {
        Some(k) if 1 <= k <= n_options => index_choice((k - 1) as nat),
        _ => if w == "y"@ || w == "yes"@ || w == "proceed"@ {
            ResolutionChoice::Proceed
        } else if w == "s"@ || w == "sandbox"@ {
            ResolutionChoice::SandboxInstall
        } else if w == "f"@ || w == "force"@ || w == "replace"@ {
            ResolutionChoice::ForceReplace
        } else {
            ResolutionChoice::Cancelled
        },
    }
}

/// Which resolution, without its data.
pub enum ResolutionChoice {
    Proceed,
    SandboxInstall,
    ForceReplace,
    Cancelled,
}

pub open spec fn index_choice(idx: nat) -> ResolutionChoice {
    if idx == 0 {
        ResolutionChoice::Proceed
    } else if idx == 1 {
        ResolutionChoice::SandboxInstall
    } else if idx == 2 {
        ResolutionChoice::ForceReplace
    } else {
        ResolutionChoice::Cancelled
    }
}

/// `r` is the resolution `c`, replacing `pkg_name` when it replaces.
pub open spec fn resolution_is(r: Resolution, c: ResolutionChoice, pkg_name: Seq<char>) -> bool {
    match c {
        ResolutionChoice::Proceed => r == Resolution::Proceed,
        ResolutionChoice::SandboxInstall => r == Resolution::SandboxInstall,
        ResolutionChoice::ForceReplace => r matches Resolution::ForceReplace { packages_to_remove }
            && packages_to_remove@.len() == 1 && packages_to_remove@[0]@ == pkg_name,
        ResolutionChoice::Cancelled => r == Resolution::Cancelled,
    }
}

fn replace_resolution(pkg_name: &str) -> (r: Resolution)
    ensures
        resolution_is(r, ResolutionChoice::ForceReplace, pkg_name@),
{
    let mut v: Vec<String> = Vec::new();
    v.push(owned(pkg_name));
    Resolution::ForceReplace { packages_to_remove: v }
}

/// What a typed answer to the foreign-ownership prompt resolves to.
pub fn foreign_owned_fallback_answer(input: &str, n_options: usize, pkg_name: &str) -> (r: Resolution)
    ensures
        resolution_is(r, foreign_owned_answer(input@, n_options as nat, pkg_name@), pkg_name@),
{
    let v = chars_of(input);
    let (a, b) = trim_range(&v, 0, v.len());
    proof {
        assert(v@.subrange(0, v@.len() as int) =~= input@);
    }
    let t = string_of(&v, a, b);
    let tv = chars_of(t.as_str());
    proof {
        assert(tv@.subrange(0, tv@.len() as int) =~= t@);
    }
    let parsed: Option<usize> = match parse_u64(&tv, 0, tv.len()) {
        Some(x) => if x <= usize::MAX as u64 {
            Some(x as usize)
        } else {
            None
        },
        None => None,
    };
    if let Some(k) = parsed {
        if 1 <= k && k <= n_options {
            let i = k - 1;
            return if i == 0 {
                Resolution::Proceed
            } else if i == 1 {
                Resolution::SandboxInstall
            } else if i == 2 {
                replace_resolution(pkg_name)
            } else {
                Resolution::Cancelled
            };
        }
    }
    let w = to_lowercase(t.as_str());
    let ws = w.as_str();
    if str_eq(ws, "y") || str_eq(ws, "yes") || str_eq(ws, "proceed") {
        Resolution::Proceed
    } else if str_eq(ws, "s") || str_eq(ws, "sandbox") {
        Resolution::SandboxInstall
    } else if str_eq(ws, "f") || str_eq(ws, "force") || str_eq(ws, "replace") {
        replace_resolution(pkg_name)
    } else {
        Resolution::Cancelled
    }
}

/// What a typed answer to the foreign-touch prompt resolves to: `1`
/// allows, `3` installs in a sandbox, anything else (`2` kills the
/// process) cancels.
pub fn foreign_touch_answer(input: &str) -> (r: Resolution)
    ensures
        trim(input@) == "1"@ ==> r == Resolution::Proceed,
        trim(input@) == "3"@ ==> r == Resolution::SandboxInstall,
        trim(input@) != "1"@ && trim(input@) != "3"@ ==> r == Resolution::Cancelled,
{
    let v = chars_of(input);
    let (a, b) = trim_range(&v, 0, v.len());
    proof {
        assert(v@.subrange(0, v@.len() as int) =~= input@);
    }
    let t = string_of(&v, a, b);
    proof {
        reveal_strlit("1");
        reveal_strlit("3");
        assert("1"@ != "3"@) by {
            assert("1"@[0] != "3"@[0]);
        }
    }
    if str_eq(t.as_str(), "1") {
        Resolution::Proceed
    } else if str_eq(t.as_str(), "3") {
        Resolution::SandboxInstall
    } else {
        Resolution::Cancelled
    }
}

} // verus!
