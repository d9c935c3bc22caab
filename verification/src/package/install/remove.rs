//! Removal decisions: what is configuration, what to clean up, how a failed
//! removal is reported.
use vstd::prelude::*;
use crate::error::{message, SpmError};
use crate::text::{contains_str, push_str, starts_with, starts_with_str, strings_view, chars_of, owned};
use crate::types::db::{FileRecord, Transaction, TransactionAction, TransactionStatus};
use crate::types::package::{package_key_text, PackageId};

verus! {

/// The transaction that records the removal of `pid`, at `timestamp`, by
/// `user`.
pub fn create_remove_transaction(pid: &PackageId, timestamp: String, user: String) -> (t: Transaction)
    ensures
        t.id is None,
        t.action == TransactionAction::Remove,
        t.status == TransactionStatus::Completed,
        t.snapshot_id is None,
        t.timestamp == timestamp,
        t.user == user,
        strings_view(t.packages@) == seq![package_key_text(pid@)],
{
    let mut packages: Vec<String> = Vec::new();
    packages.push(pid.package_key());
    proof {
        assert(strings_view(packages@) =~= seq![package_key_text(pid@)]);
    }
    Transaction {
        id: None,
        action: TransactionAction::Remove,
        timestamp,
        user,
        status: TransactionStatus::Completed,
        packages,
        snapshot_id: None,
    }
}

/// The lines joined with `\n` (`[String]::join("\n")`).
pub open spec fn join_lines(v: Seq<Seq<char>>) -> Seq<char>
    decreases v.len(),
{
    if v.len() == 0 {
        Seq::empty()
    } else if v.len() == 1 {
        v[0]
    } else {
        join_lines(v.drop_last()) + seq!['\n'] + v.last()
    }
}

/// The message of a removal that left files behind.
pub open spec fn remove_failed_text(name: Seq<char>, action: Seq<char>, errors: Seq<Seq<char>>) -> Seq<char> {
    "Failed to "@ + action + " some files for '"@ + name + "'. DB was NOT modified:\n"@ + join_lines(errors)
}

/// The error for a removal (`action` is `remove` or `purge`) that could not
/// delete everything; the database is left as it was.
pub fn format_remove_failed_msg(name: &str, action: &str, errors: &[String]) -> (e: SpmError)
    ensures
        e matches SpmError::Other(m) && m@ == remove_failed_text(name@, action@, strings_view(errors@)),
{
    let mut m = message("Failed to ");
    push_str(&mut m, action);
    push_str(&mut m, " some files for '");
    push_str(&mut m, name);
    push_str(&mut m, "'. DB was NOT modified:\n");
    let ghost head = m@;
    let mut i: usize = 0;
    while i < errors.len()
        invariant
            i <= errors@.len(),
            m@ == head + join_lines(strings_view(errors@.take(i as int))),
        decreases errors.len() - i,
    {
        let ghost before = strings_view(errors@.take(i as int));
        if i > 0 {
            m.push('\n');
        }
        push_str(&mut m, errors[i].as_str());
        proof {
            let now = strings_view(errors@.take(i + 1));
            assert(now.drop_last() =~= before);
            assert(now.last() == errors@[i as int]@);
            if i == 0 {
                assert(now =~= seq![errors@[0]@]);
            }
        }
        i += 1;
    }
    proof {
        assert(errors@.take(errors@.len() as int) =~= errors@);
    }
    SpmError::Other(m)
}

/// A file is configuration when the package lists it as such, or when it
/// lies under `/etc/`.
pub open spec fn conffile(path: Seq<char>, conffiles: Seq<Seq<char>>) -> bool {
    conffiles.contains(path) || starts_with(path, "/etc/"@)
}

pub fn is_conffile(path: &str, conffiles: &Vec<String>) -> (r: bool)
    ensures
        r == conffile(path@, strings_view(conffiles@)),
{
    if contains_str(conffiles, path) {
        return true;
    }
    let v = chars_of(path);
    proof {
        assert(v@.subrange(0, v@.len() as int) =~= path@);
    }
    starts_with_str(&v, 0, v.len(), "/etc/")
}

/// The package's own directories, `/etc/<name>` and `/var/lib/<name>`, that
/// some of its files are under (by text prefix), in that order.
pub open spec fn cleanup_dirs(name: Seq<char>, paths: Seq<Seq<char>>) -> Seq<Seq<char>> {
    let etc = "/etc/"@ + name;
    let var = "/var/lib/"@ + name;
    (if exists|i: int| 0 <= i < paths.len() && starts_with(#[trigger] paths[i], etc) {
        seq![etc]
    } else {
        Seq::empty()
    }) + (if exists|i: int| 0 <= i < paths.len() && starts_with(#[trigger] paths[i], var) {
        seq![var]
    } else {
        Seq::empty()
    })
}

pub open spec fn record_paths(records: Seq<FileRecord>) -> Seq<Seq<char>> {
    records.map_values(|r: FileRecord| r.filepath@)
}

/// Whether some record's path starts with `dir`.
fn any_under(records: &[FileRecord], dir: &String) -> (r: bool)
    ensures
        r == exists|i: int| 0 <= i < records@.len() && starts_with(#[trigger] record_paths(records@)[i], dir@),
{
    let d = chars_of(dir.as_str());
    let mut i: usize = 0;
    while i < records.len()
        invariant
            i <= records@.len(),
            d@ == dir@,
            forall|j: int| 0 <= j < i ==> !starts_with(#[trigger] record_paths(records@)[j], dir@),
        decreases records.len() - i,
    {
        let p = chars_of(records[i].filepath.as_str());
        let hit = crate::text::matches_at(&p, 0, p.len(), d.as_slice());
        proof {
            assert(p@.subrange(0, p@.len() as int) =~= records@[i as int].filepath@);
            assert(record_paths(records@)[i as int] == records@[i as int].filepath@);
        }
        if hit {
            return true;
        }
        i += 1;
    }
    false
}

/// The directories of package `name` to remove after its files.
pub fn dirs_to_cleanup(name: &str, file_records: &[FileRecord]) -> (r: Vec<String>)
    ensures
        strings_view(r@) == cleanup_dirs(name@, record_paths(file_records@)),
{
    let mut etc = message("/etc/");
    push_str(&mut etc, name);
    let mut var = message("/var/lib/");
    push_str(&mut var, name);
    let mut dirs: Vec<String> = Vec::new();
    let has_etc = any_under(file_records, &etc);
    let has_var = any_under(file_records, &var);
    if has_etc {
        dirs.push(etc);
    }
    if has_var {
        dirs.push(var);
    }
    proof {
        assert(strings_view(dirs@) =~= cleanup_dirs(name@, record_paths(file_records@)));
    }
    dirs
}

} // verus!
