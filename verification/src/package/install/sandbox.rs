//! Installing a package into a sandbox: which packages go in, what the
//! sandbox level asks for, and what is recorded.
use vstd::prelude::*;
use crate::error::SpmError;
use crate::package::install::remove::join_lines;
use crate::text::{
    chars_of, contains, contains_str_in, lines, next_line, owned, push_str, str_eq, string_of, strings_view, words, words_of,
};
use crate::types::db::{FileAction, FileRecord, InstallOrigin, InstallType, InstalledPackage, Transaction, TransactionAction, TransactionStatus};
use crate::types::package::PackageFormat;

verus! {

/// What setting up a sandbox does besides extracting its packages.
pub struct SandboxSteps {
    /// Refuse the sandbox when a program in it misses a library (`strict`).
    pub check_libraries: bool,
    /// Link the system's shared libraries into it (`full`).
    pub link_system_libraries: bool,
    /// Run the packages' maintainer scripts in it (all but `strict`).
    pub run_scripts: bool,
}

pub fn sandbox_steps(level: &str) -> (s: SandboxSteps)
    ensures
        s.check_libraries == (level@ == "strict"@),
        s.link_system_libraries == (level@ == "full"@),
        s.run_scripts == (level@ != "strict"@),
{
    let strict = str_eq(level, "strict");
    let full = str_eq(level, "full");
    SandboxSteps { check_libraries: strict, link_system_libraries: full, run_scripts: !strict }
}

/// The packages of `order` (name, whether installed on the system) that go
/// into the sandbox of `target`: the target itself, and every package the
/// system does not have.
pub open spec fn goes_in(name: Seq<char>, installed: bool, target: Seq<char>) -> bool {
    name == target || !installed
}

pub open spec fn order_view(v: Seq<(String, bool)>) -> Seq<(Seq<char>, bool)> {
    v.map_values(|e: (String, bool)| (e.0@, e.1))
}

pub open spec fn targets_of(order: Seq<(Seq<char>, bool)>, target: Seq<char>) -> Seq<Seq<char>>
    decreases order.len(),
{
    if order.len() == 0 {
        Seq::empty()
    } else if goes_in(order.last().0, order.last().1, target) {
        targets_of(order.drop_last(), target).push(order.last().0)
    } else {
        targets_of(order.drop_last(), target)
    }
}

/// The names of the packages, in install order, that go into the sandbox.
pub fn sandbox_install_targets(order: &Vec<(String, bool)>, target: &str) -> (r: Vec<String>)
    ensures
        strings_view(r@) == targets_of(order_view(order@), target@),
{
    let ghost ov = order_view(order@);
    let mut out: Vec<String> = Vec::new();
    let mut i: usize = 0;
    proof {
        assert(ov.take(0) =~= Seq::<(Seq<char>, bool)>::empty());
    }
    while i < order.len()
        invariant
            i <= order@.len(),
            ov == order_view(order@),
            strings_view(out@) == targets_of(ov.take(i as int), target@),
        decreases order.len() - i,
    {
        proof {
            assert(ov.take(i + 1).drop_last() =~= ov.take(i as int));
            assert(ov.take(i + 1).last() == ov[i as int]);
        }
        if str_eq(order[i].0.as_str(), target) || !order[i].1 {
            let ghost before = strings_view(out@);
            out.push(owned(order[i].0.as_str()));
            assert(strings_view(out@) =~= before.push(order@[i as int].0@));
        }
        i += 1;
    }
    proof {
        assert(ov.take(ov.len() as int) =~= ov);
    }
    out
}

// ---------------------------------------------------------------------------
// Libraries
// ---------------------------------------------------------------------------

/// The library an `ldd` line names: its first word.
pub open spec fn lib_of(line: Seq<char>) -> Seq<char> {
    if words(line).len() > 0 {
        words(line)[0]
    } else {
        line
    }
}

pub open spec fn missing_line(relative: Seq<char>, line: Seq<char>) -> Seq<char> {
    "  "@ + relative + " requires "@ + lib_of(line) + " (not found)"@
}

/// The report lines for one program's `ldd` output: one per line that says
/// `not found`; none for a program that is not dynamically linked.
pub open spec fn missing_of(ls: Seq<Seq<char>>, relative: Seq<char>) -> Seq<Seq<char>>
    decreases ls.len(),
{
    if ls.len() == 0 {
        Seq::empty()
    } else if contains(ls.last(), "not found"@) {
        missing_of(ls.drop_last(), relative).push(missing_line(relative, ls.last()))
    } else {
        missing_of(ls.drop_last(), relative)
    }
}

pub open spec fn ldd_missing_spec(relative: Seq<char>, stdout: Seq<char>, stderr: Seq<char>) -> Seq<Seq<char>> {
    if contains(stderr, "not a dynamic executable"@) {
        Seq::empty()
    } else {
        missing_of(lines(stdout), relative)
    }
}

/// What `ldd` reports missing for the program at `relative` (its path in
/// the sandbox).
pub fn ldd_missing(relative: &str, stdout: &str, stderr: &str) -> (r: Vec<String>)
    ensures
        strings_view(r@) == ldd_missing_spec(relative@, stdout@, stderr@),
{
    let mut out: Vec<String> = Vec::new();
    if contains_str_in(stderr, "not a dynamic executable") {
        assert(strings_view(out@) =~= Seq::<Seq<char>>::empty());
        return out;
    }
    let v = chars_of(stdout);
    let n = v.len();
    let ghost all = lines(stdout@);
    let ghost k: int = 0;
    let mut pos: usize = 0;
    proof {
        assert(v@.skip(0) =~= stdout@);
        assert(all.take(0) =~= Seq::<Seq<char>>::empty());
    }
    while pos < n
        invariant
            n == v@.len(),
            v@ == stdout@,
            pos <= n,
            all == lines(stdout@),
            0 <= k <= all.len(),
            lines(v@.skip(pos as int)) == all.skip(k),
            strings_view(out@) == missing_of(all.take(k), relative@),
        decreases n - pos,
    {
        let (e, next) = next_line(&v, pos);
        let ghost l = v@.subrange(pos as int, e as int);
        proof {
            let ls = lines(v@.skip(pos as int));
            assert(ls[0] == l);
            assert(ls.len() >= 1);
            assert(all.skip(k)[0] == all[k]);
            assert(ls.drop_first() =~= lines(v@.skip(next as int)));
            assert(all.skip(k + 1) =~= all.skip(k).drop_first());
            assert(all.take(k + 1).drop_last() =~= all.take(k));
            assert(all.take(k + 1).last() == l);
        }
        let line = string_of(&v, pos, e);
        if contains_str_in(line.as_str(), "not found") {
            let ws = words_of(line.as_str());
            let mut m = String::new();
            push_str(&mut m, "  ");
            push_str(&mut m, relative);
            push_str(&mut m, " requires ");
            if ws.len() > 0 {
                push_str(&mut m, ws[0].as_str());
                assert(strings_view(ws@)[0] == ws@[0]@);
            } else {
                push_str(&mut m, line.as_str());
            }
            push_str(&mut m, " (not found)");
            let ghost before = strings_view(out@);
            out.push(m);
            proof {
                assert(m@ =~= missing_line(relative@, l));
                assert(strings_view(out@) =~= before.push(m@));
            }
        }
        proof {
            k = k + 1;
        }
        pos = next;
    }
    proof {
        assert(v@.skip(n as int) =~= Seq::<char>::empty());
        assert(all.skip(k).len() == 0);
        assert(all.take(k) =~= all);
    }
    out
}

pub open spec fn strict_missing_text(missing: Seq<Seq<char>>) -> Seq<char> {
    "Strict sandbox: missing shared libraries:\n"@ + join_lines(missing)
        + "\nUse --sandbox=full to allow system library symlinks."@
}

/// The outcome of the library check of a strict sandbox: an error listing
/// every missing library, if there is any.
pub fn strict_library_check(missing: &Vec<String>) -> (r: Result<(), SpmError>)
    ensures
        missing@.len() == 0 ==> r is Ok,
        missing@.len() > 0 ==> (r matches Err(SpmError::Sandbox(m)) && m@ == strict_missing_text(strings_view(missing@))),
{
    if missing.len() == 0 {
        return Ok(());
    }
    let mut m = String::new();
    push_str(&mut m, "Strict sandbox: missing shared libraries:\n");
    let ghost head = m@;
    let mut i: usize = 0;
    while i < missing.len()
        invariant
            i <= missing@.len(),
            m@ == head + join_lines(strings_view(missing@.take(i as int))),
        decreases missing.len() - i,
    {
        let ghost before = strings_view(missing@.take(i as int));
        if i > 0 {
            m.push('\n');
        }
        push_str(&mut m, missing[i].as_str());
        proof {
            let now = strings_view(missing@.take(i + 1));
            assert(now.drop_last() =~= before);
            assert(now.last() == missing@[i as int]@);
            if i == 0 {
                assert(now =~= seq![missing@[0]@]);
            }
        }
        i += 1;
    }
    proof {
        assert(missing@.take(missing@.len() as int) =~= missing@);
    }
    push_str(&mut m, "\nUse --sandbox=full to allow system library symlinks.");
    assert(m@ =~= strict_missing_text(strings_view(missing@)));
    Err(SpmError::Sandbox(m))
}

/// A file of the system's library directories that a `full` sandbox links
/// to: a shared object, by its name holding `.so`.
pub fn links_into_sandbox(file_name: &str) -> (r: bool)
    ensures
        r == contains(file_name@, ".so"@),
{
    contains_str_in(file_name, ".so")
}

// ---------------------------------------------------------------------------
// Records
// ---------------------------------------------------------------------------

/// The record of a file found in a sandbox after its install.
pub fn sandbox_file_record(path: String, hash: String, transaction_id: i64) -> (r: FileRecord)
    ensures
        r.id is None,
        r.transaction_id == transaction_id,
        r.package@ == Seq::<char>::empty(),
        r.format == PackageFormat::Sam,
        r.filepath == path,
        r.hash == hash,
        r.action == FileAction::Created,
{
    FileRecord {
        id: None,
        transaction_id,
        package: String::new(),
        format: PackageFormat::Sam,
        filepath: path,
        hash,
        action: FileAction::Created,
    }
}

/// The transaction that records the install of sandbox `name`.
pub fn sandbox_transaction(name: &str, timestamp: String, user: String) -> (t: Transaction)
    ensures
        t.id is None,
        t.action == TransactionAction::Install,
        t.status == TransactionStatus::Completed,
        t.snapshot_id is None,
        t.timestamp == timestamp,
        t.user == user,
        strings_view(t.packages@) == seq![name@],
{
    let mut packages: Vec<String> = Vec::new();
    packages.push(owned(name));
    assert(strings_view(packages@) =~= seq![name@]);
    Transaction {
        id: None,
        action: TransactionAction::Install,
        timestamp,
        user,
        status: TransactionStatus::Completed,
        packages,
        snapshot_id: None,
    }
}

/// The database entry of sandbox `name`, installed at `date`, whose files
/// hash to `store_hash` when that could be computed.
pub fn sandbox_package(name: &str, date: String, store_hash: Option<String>) -> (p: InstalledPackage)
    ensures
        p.name@ == name@,
        p.version@ == Seq::<char>::empty(),
        p.format == PackageFormat::Sam,
        p.install_type == InstallType::Sandbox,
        p.manifest is None,
        p.install_date == date,
        p.source_repo is None,
        p.store_hash == store_hash,
        p.origin == InstallOrigin::Spm,
{
    InstalledPackage {
        name: owned(name),
        version: String::new(),
        format: PackageFormat::Sam,
        install_type: InstallType::Sandbox,
        manifest: None,
        install_date: date,
        source_repo: None,
        store_hash,
        origin: InstallOrigin::Spm,
    }
}

} // verus!
