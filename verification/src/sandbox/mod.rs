//! Running a program inside an installed sandbox, and listing sandboxes.
pub mod desktop;

use vstd::prelude::*;
use crate::error::{message, SpmError};
use crate::text::{decimal, owned, push_decimal, push_str, strings_view};
use crate::util::path::{join, path_join};

verus! {

/// The entries joined with `:`.
pub open spec fn colon_join(v: Seq<Seq<char>>) -> Seq<char>
    decreases v.len(),
{
    if v.len() == 0 {
        Seq::empty()
    } else if v.len() == 1 {
        v[0]
    } else {
        colon_join(v.drop_last()) + seq![':'] + v.last()
    }
}

/// `PATH` inside a sandbox whose `usr` directory is `usr`: its `bin` and
/// `games` where they exist, then the system's directories.
pub open spec fn sandbox_path_entries(usr: Seq<char>, has_bin: bool, has_games: bool) -> Seq<Seq<char>> {
    (if has_bin { seq![path_join(usr, "bin"@)] } else { Seq::empty() })
        + (if has_games { seq![path_join(usr, "games"@)] } else { Seq::empty() })
        + seq!["/usr/local/bin"@, "/usr/bin"@, "/bin"@]
}

/// `LD_LIBRARY_PATH` inside a sandbox: its `lib` and `lib64` where they
/// exist, none when neither does.
pub open spec fn sandbox_lib_entries(usr: Seq<char>, has_lib: bool, has_lib64: bool) -> Seq<Seq<char>> {
    (if has_lib { seq![path_join(usr, "lib"@)] } else { Seq::empty() })
        + (if has_lib64 { seq![path_join(usr, "lib64"@)] } else { Seq::empty() })
}

/// Which of a sandbox's `usr` directories exist.
pub struct SandboxDirs {
    pub has_bin: bool,
    pub has_games: bool,
    pub has_lib: bool,
    pub has_lib64: bool,
}

/// What to run in a sandbox and with which search paths.
pub struct SandboxRun {
    pub program: String,
    pub args: Vec<String>,
    pub path: String,
    pub ld_library_path: Option<String>,
}

/// The sandbox's `usr` directory.
pub open spec fn usr_of(sandbox_dir: Seq<char>) -> Seq<char> {
    path_join(sandbox_dir, "usr"@)
}

fn colon_joined(v: &Vec<String>) -> (r: String)
    ensures
        r@ == colon_join(strings_view(v@)),
{
    let mut r = String::new();
    let mut i: usize = 0;
    while i < v.len()
        invariant
            i <= v@.len(),
            r@ == colon_join(strings_view(v@.take(i as int))),
        decreases v.len() - i,
    {
        let ghost before = strings_view(v@.take(i as int));
        if i > 0 {
            r.push(':');
        }
        push_str(&mut r, v[i].as_str());
        proof {
            let now = strings_view(v@.take(i + 1));
            assert(now.drop_last() =~= before);
            assert(now.last() == v@[i as int]@);
            if i == 0 {
                assert(now =~= seq![v@[0]@]);
            }
        }
        i += 1;
    }
    proof {
        assert(v@.take(v@.len() as int) =~= v@);
    }
    r
}

/// The program, arguments and search paths for running `command` in the
/// sandbox at `sandbox_dir`: an empty command runs `/bin/sh`.
pub fn sandbox_run(sandbox_dir: &str, dirs: &SandboxDirs, command: &Vec<String>) -> (r: SandboxRun)
    ensures
        command@.len() == 0 ==> r.program@ == "/bin/sh"@ && r.args@.len() == 0,
        command@.len() > 0 ==> r.program@ == command@[0]@ && strings_view(r.args@) == strings_view(command@).skip(1),
        r.path@ == colon_join(sandbox_path_entries(usr_of(sandbox_dir@), dirs.has_bin, dirs.has_games)),
        match r.ld_library_path {
            Some(l) => {
                let e = sandbox_lib_entries(usr_of(sandbox_dir@), dirs.has_lib, dirs.has_lib64);
                e.len() > 0 && l@ == colon_join(e)
            },
            None => !dirs.has_lib && !dirs.has_lib64,
        },
{
    let usr = join(sandbox_dir, "usr");
    let mut path_entries: Vec<String> = Vec::new();
    if dirs.has_bin {
        path_entries.push(join(usr.as_str(), "bin"));
    }
    if dirs.has_games {
        path_entries.push(join(usr.as_str(), "games"));
    }
    path_entries.push(owned("/usr/local/bin"));
    path_entries.push(owned("/usr/bin"));
    path_entries.push(owned("/bin"));
    assert(strings_view(path_entries@) =~= sandbox_path_entries(usr@, dirs.has_bin, dirs.has_games));
    let path = colon_joined(&path_entries);
    let mut ld_entries: Vec<String> = Vec::new();
    if dirs.has_lib {
        ld_entries.push(join(usr.as_str(), "lib"));
    }
    if dirs.has_lib64 {
        ld_entries.push(join(usr.as_str(), "lib64"));
    }
    assert(strings_view(ld_entries@) =~= sandbox_lib_entries(usr@, dirs.has_lib, dirs.has_lib64));
    let ld_library_path = if ld_entries.len() == 0 {
        None
    } else {
        Some(colon_joined(&ld_entries))
    };
    if command.len() == 0 {
        SandboxRun { program: owned("/bin/sh"), args: Vec::new(), path, ld_library_path }
    } else {
        let mut args: Vec<String> = Vec::new();
        let mut i: usize = 1;
        while i < command.len()
            invariant
                1 <= i <= command@.len(),
                strings_view(args@) == strings_view(command@).subrange(1, i as int),
            decreases command.len() - i,
        {
            let ghost before = strings_view(args@);
            args.push(owned(command[i].as_str()));
            proof {
                assert(strings_view(args@) =~= before.push(command@[i as int]@));
                assert(strings_view(command@).subrange(1, i + 1) =~= strings_view(command@).subrange(1, i as int).push(command@[i as int]@));
            }
            i += 1;
        }
        assert(strings_view(command@).subrange(1, command@.len() as int) =~= strings_view(command@).skip(1));
        SandboxRun { program: owned(command[0].as_str()), args, path, ld_library_path }
    }
}

pub open spec fn not_found_text(package: Seq<char>) -> Seq<char> {
    "Sandbox for '"@ + package + "' not found. Install with --sandbox first."@
}

/// The error for running a package whose sandbox does not exist.
pub fn sandbox_not_found(package: &str) -> (e: SpmError)
    ensures
        e matches SpmError::Sandbox(m) && m@ == not_found_text(package@),
{
    let mut m = message("Sandbox for '");
    push_str(&mut m, package);
    push_str(&mut m, "' not found. Install with --sandbox first.");
    SpmError::Sandbox(m)
}

/// A sandbox directory as listed: its name and whether it holds a
/// manifest (a `symlink` sandbox) or not (`basic`).
pub open spec fn listing_line(name: Seq<char>, has_manifest: bool) -> Seq<char> {
    "  "@ + name + " ("@ + (if has_manifest { "symlink"@ } else { "basic"@ }) + ")"@
}

pub open spec fn listing_lines(entries: Seq<(Seq<char>, bool)>) -> Seq<Seq<char>> {
    if entries.len() == 0 {
        seq!["No sandboxes found"@]
    } else {
        entries.map_values(|e: (Seq<char>, bool)| listing_line(e.0, e.1)).push(
            "\nTotal: "@ + decimal(entries.len()) + " sandbox(es)"@,
        )
    }
}

pub open spec fn entries_view(v: Seq<(String, bool)>) -> Seq<(Seq<char>, bool)> {
    v.map_values(|e: (String, bool)| (e.0@, e.1))
}

/// The lines that list the sandboxes `entries` (directory name, whether a
/// manifest is there).
pub fn sandbox_listing(entries: &Vec<(String, bool)>) -> (r: Vec<String>)
    ensures
        strings_view(r@) == listing_lines(entries_view(entries@)),
{
    let mut out: Vec<String> = Vec::new();
    if entries.len() == 0 {
        out.push(owned("No sandboxes found"));
        assert(strings_view(out@) =~= listing_lines(entries_view(entries@)));
        return out;
    }
    let ghost ev = entries_view(entries@);
    let mut i: usize = 0;
    while i < entries.len()
        invariant
            i <= entries@.len(),
            ev == entries_view(entries@),
            strings_view(out@) == ev.take(i as int).map_values(|e: (Seq<char>, bool)| listing_line(e.0, e.1)),
        decreases entries.len() - i,
    {
        let mut l = String::new();
        push_str(&mut l, "  ");
        push_str(&mut l, entries[i].0.as_str());
        push_str(&mut l, " (");
        if entries[i].1 {
            push_str(&mut l, "symlink");
        } else {
            push_str(&mut l, "basic");
        }
        push_str(&mut l, ")");
        let ghost before = strings_view(out@);
        out.push(l);
        proof {
            assert(l@ =~= listing_line(ev[i as int].0, ev[i as int].1));
            assert(strings_view(out@) =~= before.push(l@));
            assert(ev.take(i + 1) =~= ev.take(i as int).push(ev[i as int]));
            assert(ev.take(i + 1).map_values(|e: (Seq<char>, bool)| listing_line(e.0, e.1)) =~= ev.take(
                i as int,
            ).map_values(|e: (Seq<char>, bool)| listing_line(e.0, e.1)).push(l@));
        }
        i += 1;
    }
    let mut t = String::new();
    push_str(&mut t, "\nTotal: ");
    push_decimal(&mut t, entries.len() as u64);
    push_str(&mut t, " sandbox(es)");
    let ghost before = strings_view(out@);
    out.push(t);
    proof {
        assert(ev.take(ev.len() as int) =~= ev);
        assert(strings_view(out@) =~= before.push(t@));
    }
    out
}

} // verus!
