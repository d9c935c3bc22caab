//! System integration after installs and removals: which hooks the
//! installed files call for, and the `sysusers.d` and `tmpfiles.d` files
//! that packages declare.  The caller runs the commands and writes the
//! files.
use vstd::prelude::*;
use crate::text::{chars_of, contains, contains_str_in, ends_with, owned, push_str};
use crate::types::package::{Manifest, SysuserEntry, SysuserType, TmpfileEntry};

verus! {

// ---------------------------------------------------------------------------
// Hooks after an install
// ---------------------------------------------------------------------------

/// The system hooks an install calls for.
#[derive(Debug, Clone, Copy, PartialEq, Eq, Structural)]
pub struct InstallHooks {
    /// `ldconfig -X`: a shared library was installed.
    pub ldconfig: bool,
    /// `systemctl daemon-reload`: a systemd unit was installed.
    pub daemon_reload: bool,
    /// `update-desktop-database -q`: an application entry was installed.
    pub desktop_database: bool,
    /// `mandb -q`: a manual page was installed.
    pub mandb: bool,
}

pub open spec fn is_library_path(f: Seq<char>) -> bool {
    ends_with(f, ".so"@) || contains(f, "/lib/"@) || contains(f, "/lib64/"@)
}

pub open spec fn is_unit_path(f: Seq<char>) -> bool {
    contains(f, "/usr/lib/systemd/system/"@) || contains(f, "/etc/systemd/system/"@)
}

pub open spec fn is_desktop_path(f: Seq<char>) -> bool {
    ends_with(f, ".desktop"@) && contains(f, "/usr/share/applications/"@)
}

pub open spec fn is_man_path(f: Seq<char>) -> bool {
    contains(f, "/usr/share/man/"@)
}

/// The hooks for a list of installed files: each one when some file is of
/// its kind.
pub open spec fn hooks_for(files: Seq<String>) -> InstallHooks {
    InstallHooks {
        ldconfig: exists|i: int| 0 <= i < files.len() && is_library_path(#[trigger] files[i]@),
        daemon_reload: exists|i: int| 0 <= i < files.len() && is_unit_path(#[trigger] files[i]@),
        desktop_database: exists|i: int| 0 <= i < files.len() && is_desktop_path(#[trigger] files[i]@),
        mandb: exists|i: int| 0 <= i < files.len() && is_man_path(#[trigger] files[i]@),
    }
}

fn ends_with_text(s: &str, suffix: &str) -> (r: bool)
    ensures
        r == ends_with(s@, suffix@),
{
    let v = chars_of(s);
    proof {
        assert(v@.subrange(0, v@.len() as int) =~= s@);
    }
    crate::text::ends_with_str(&v, 0, v.len(), suffix)
}

/// Decides which system hooks the installed files call for; the caller runs
/// them.
pub fn run_install_hooks(installed_files: &[String]) -> (h: InstallHooks)
    ensures
        h == hooks_for(installed_files@),
{
    let mut h = InstallHooks { ldconfig: false, daemon_reload: false, desktop_database: false, mandb: false };
    let mut i: usize = 0;
    while i < installed_files.len()
        invariant
            i <= installed_files@.len(),
            h.ldconfig == exists|j: int| 0 <= j < i && is_library_path(#[trigger] installed_files@[j]@),
            h.daemon_reload == exists|j: int| 0 <= j < i && is_unit_path(#[trigger] installed_files@[j]@),
            h.desktop_database == exists|j: int| 0 <= j < i && is_desktop_path(#[trigger] installed_files@[j]@),
            h.mandb == exists|j: int| 0 <= j < i && is_man_path(#[trigger] installed_files@[j]@),
        decreases installed_files.len() - i,
    {
        let f = installed_files[i].as_str();
        if ends_with_text(f, ".so") || contains_str_in(f, "/lib/") || contains_str_in(f, "/lib64/") {
            h.ldconfig = true;
        }
        if contains_str_in(f, "/usr/lib/systemd/system/") || contains_str_in(f, "/etc/systemd/system/") {
            h.daemon_reload = true;
        }
        if ends_with_text(f, ".desktop") && contains_str_in(f, "/usr/share/applications/") {
            h.desktop_database = true;
        }
        if contains_str_in(f, "/usr/share/man/") {
            h.mandb = true;
        }
        i += 1;
    }
    h
}

// ---------------------------------------------------------------------------
// SAM v2 declarations
// ---------------------------------------------------------------------------

/// The value of an optional field, or `dflt`.
pub open spec fn or_default(o: Option<String>, dflt: Seq<char>) -> Seq<char> {
    match o {
        Some(s) => s@,
        None => dflt,
    }
}

/// The `sysusers.d` letter of an entry type.
pub open spec fn sysuser_letter(t: SysuserType) -> Seq<char> {
    match t {
        SysuserType::User => "u"@,
        SysuserType::Group => "g"@,
        SysuserType::Uuid => "m"@,
    }
}

/// One `sysusers.d` line: `type name id description home:shell`.
pub open spec fn sysuser_line(e: SysuserEntry) -> Seq<char> {
    sysuser_letter(e.entry_type) + " "@ + e.name@ + " "@ + or_default(e.id, "-"@) + " "@
        + or_default(e.description, Seq::empty()) + " "@ + or_default(e.home, "-"@) + ":"@
        + or_default(e.shell, "-"@) + "\n"@
}

pub open spec fn sysusers_text(es: Seq<SysuserEntry>) -> Seq<char>
    decreases es.len(),
{
    if es.len() == 0 {
        Seq::empty()
    } else {
        sysusers_text(es.drop_last()) + sysuser_line(es.last())
    }
}

/// One `tmpfiles.d` line: `path mode uid gid age argument ` (the last field
/// is empty).
pub open spec fn tmpfile_line(e: TmpfileEntry) -> Seq<char> {
    e.path@ + " "@ + e.mode@ + " "@ + e.uid@ + " "@ + e.gid@ + " "@ + or_default(e.age, "-"@) + " "@
        + or_default(e.argument, "-"@) + " "@ + "\n"@
}

pub open spec fn tmpfiles_text(es: Seq<TmpfileEntry>) -> Seq<char>
    decreases es.len(),
{
    if es.len() == 0 {
        Seq::empty()
    } else {
        tmpfiles_text(es.drop_last()) + tmpfile_line(es.last())
    }
}

fn push_or(s: &mut String, o: &Option<String>, dflt: &str)
    ensures
        final(s)@ == old(s)@ + or_default(*o, dflt@),
{
    match o {
        Some(x) => push_str(s, x.as_str()),
        None => push_str(s, dflt),
    }
}

/// One `sysusers.d` line.
fn sysuser_line_exec(e: &SysuserEntry) -> (r: String)
    ensures
        r@ == sysuser_line(*e),
{
    let mut r = String::new();
    let t = match e.entry_type {
        SysuserType::User => "u",
        SysuserType::Group => "g",
        SysuserType::Uuid => "m",
    };
    push_str(&mut r, t);
    push_str(&mut r, " ");
    push_str(&mut r, e.name.as_str());
    push_str(&mut r, " ");
    push_or(&mut r, &e.id, "-");
    push_str(&mut r, " ");
    push_or(&mut r, &e.description, "");
    push_str(&mut r, " ");
    push_or(&mut r, &e.home, "-");
    push_str(&mut r, ":");
    push_or(&mut r, &e.shell, "-");
    push_str(&mut r, "\n");
    proof {
        reveal_strlit("");
        assert(""@ =~= Seq::<char>::empty());
        assert(r@ =~= sysuser_line(*e));
    }
    r
}

/// The `sysusers.d` file of a manifest's users and groups.
pub fn sysusers_conf(entries: &Vec<SysuserEntry>) -> (r: String)
    ensures
        r@ == sysusers_text(entries@),
{
    let mut r = String::new();
    let mut i: usize = 0;
    while i < entries.len()
        invariant
            i <= entries@.len(),
            r@ == sysusers_text(entries@.take(i as int)),
        decreases entries.len() - i,
    {
        let line = sysuser_line_exec(&entries[i]);
        push_str(&mut r, line.as_str());
        proof {
            assert(entries@.take(i + 1).drop_last() =~= entries@.take(i as int));
        }
        i += 1;
    }
    assert(entries@.take(entries@.len() as int) =~= entries@);
    r
}

/// One `tmpfiles.d` line.
fn tmpfile_line_exec(e: &TmpfileEntry) -> (r: String)
    ensures
        r@ == tmpfile_line(*e),
{
    let mut r = String::new();
    push_str(&mut r, e.path.as_str());
    push_str(&mut r, " ");
    push_str(&mut r, e.mode.as_str());
    push_str(&mut r, " ");
    push_str(&mut r, e.uid.as_str());
    push_str(&mut r, " ");
    push_str(&mut r, e.gid.as_str());
    push_str(&mut r, " ");
    push_or(&mut r, &e.age, "-");
    push_str(&mut r, " ");
    push_or(&mut r, &e.argument, "-");
    push_str(&mut r, " ");
    push_str(&mut r, "\n");
    proof {
        reveal_strlit("");
        assert(""@ =~= Seq::<char>::empty());
        assert(r@ =~= tmpfile_line(*e));
    }
    r
}

/// The `tmpfiles.d` file of a manifest's entries.
pub fn tmpfiles_conf(entries: &Vec<TmpfileEntry>) -> (r: String)
    ensures
        r@ == tmpfiles_text(entries@),
{
    let mut r = String::new();
    let mut i: usize = 0;
    while i < entries.len()
        invariant
            i <= entries@.len(),
            r@ == tmpfiles_text(entries@.take(i as int)),
        decreases entries.len() - i,
    {
        let line = tmpfile_line_exec(&entries[i]);
        push_str(&mut r, line.as_str());
        proof {
            assert(entries@.take(i + 1).drop_last() =~= entries@.take(i as int));
        }
        i += 1;
    }
    assert(entries@.take(entries@.len() as int) =~= entries@);
    r
}

/// `/etc/sysusers.d/50-<name>.conf`.
pub open spec fn sysusers_path(name: Seq<char>) -> Seq<char> {
    "/etc/sysusers.d/50-"@ + name + ".conf"@
}

/// `/etc/tmpfiles.d/<name>.conf`.
pub open spec fn tmpfiles_path(name: Seq<char>) -> Seq<char> {
    "/etc/tmpfiles.d/"@ + name + ".conf"@
}

/// A configuration file to write: its path and its text.
#[derive(Debug, Clone)]
pub struct ConfFile {
    pub path: String,
    pub content: String,
}

/// What installing SAM v2 packages sets up: the systemd units to enable and
/// start (each only if its unit file is on disk), and the configuration
/// files to write; `systemd-sysusers` and `systemd-tmpfiles --create` run
/// afterwards.
#[derive(Debug, Clone)]
pub struct SamHooks {
    pub units: Vec<String>,
    pub conf_files: Vec<ConfFile>,
}

/// The units of all manifests, in order.
pub open spec fn all_units(ms: Seq<&Manifest>) -> Seq<Seq<char>>
    decreases ms.len(),
{
    if ms.len() == 0 {
        Seq::empty()
    } else {
        all_units(ms.drop_last()) + crate::text::strings_view(ms.last().systemd_units@)
    }
}

/// The configuration files one manifest asks for: a `sysusers.d` file when
/// it declares users or groups, then a `tmpfiles.d` file when it declares
/// entries.
pub open spec fn manifest_confs(m: &Manifest) -> Seq<(Seq<char>, Seq<char>)> {
    (if m.sysusers@.len() > 0 {
        seq![(sysusers_path(m.name@), sysusers_text(m.sysusers@))]
    } else {
        Seq::empty()
    }) + (if m.tmpfiles@.len() > 0 {
        seq![(tmpfiles_path(m.name@), tmpfiles_text(m.tmpfiles@))]
    } else {
        Seq::empty()
    })
}

pub open spec fn all_confs(ms: Seq<&Manifest>) -> Seq<(Seq<char>, Seq<char>)>
    decreases ms.len(),
{
    if ms.len() == 0 {
        Seq::empty()
    } else {
        all_confs(ms.drop_last()) + manifest_confs(ms.last())
    }
}

pub open spec fn confs_view(v: Seq<ConfFile>) -> Seq<(Seq<char>, Seq<char>)> {
    v.map_values(|c: ConfFile| (c.path@, c.content@))
}

fn conf_path(dir_prefix: &str, name: &str) -> (r: String)
    ensures
        r@ == dir_prefix@ + name@ + ".conf"@,
{
    let mut r = owned(dir_prefix);
    push_str(&mut r, name);
    push_str(&mut r, ".conf");
    r
}

/// Plans the setup of freshly installed SAM v2 packages.
pub fn run_sam_v2_hooks(manifests: &[&Manifest]) -> (h: SamHooks)
    ensures
        crate::text::strings_view(h.units@) == all_units(manifests@),
        confs_view(h.conf_files@) == all_confs(manifests@),
{
    let mut units: Vec<String> = Vec::new();
    let mut confs: Vec<ConfFile> = Vec::new();
    let mut i: usize = 0;
    while i < manifests.len()
        invariant
            i <= manifests@.len(),
            crate::text::strings_view(units@) == all_units(manifests@.take(i as int)),
            confs_view(confs@) == all_confs(manifests@.take(i as int)),
        decreases manifests.len() - i,
    {
        let m = manifests[i];
        let ghost u0 = crate::text::strings_view(units@);
        let ghost c0 = confs_view(confs@);
        let mut k: usize = 0;
        while k < m.systemd_units.len()
            invariant
                k <= m.systemd_units@.len(),
                crate::text::strings_view(units@) == u0 + crate::text::strings_view(m.systemd_units@.take(k as int)),
            decreases m.systemd_units.len() - k,
        {
            let ghost before = crate::text::strings_view(units@);
            units.push(m.systemd_units[k].clone());
            proof {
                assert(crate::text::strings_view(units@) =~= before.push(m.systemd_units@[k as int]@));
                assert(crate::text::strings_view(m.systemd_units@.take(k + 1)) =~= crate::text::strings_view(
                    m.systemd_units@.take(k as int),
                ).push(m.systemd_units@[k as int]@));
                assert(crate::text::strings_view(units@) =~= u0 + crate::text::strings_view(m.systemd_units@.take(k + 1)));
            }
            k += 1;
        }
        proof {
            assert(m.systemd_units@.take(m.systemd_units@.len() as int) =~= m.systemd_units@);
        }
        if m.sysusers.len() > 0 {
            confs.push(ConfFile { path: conf_path("/etc/sysusers.d/50-", m.name.as_str()), content: sysusers_conf(&m.sysusers) });
        }
        let ghost c1 = confs_view(confs@);
        if m.tmpfiles.len() > 0 {
            confs.push(ConfFile { path: conf_path("/etc/tmpfiles.d/", m.name.as_str()), content: tmpfiles_conf(&m.tmpfiles) });
        }
        proof {
            let t = manifests@.take(i + 1);
            assert(t.drop_last() =~= manifests@.take(i as int));
            assert(t.last() == m);
            assert(confs_view(confs@) =~= c0 + manifest_confs(m));
        }
        i += 1;
    }
    assert(manifests@.take(manifests@.len() as int) =~= manifests@);
    SamHooks { units, conf_files: confs }
}

/// What removing a SAM v2 package undoes: the units to stop and disable,
/// and the configuration files to delete.
#[derive(Debug, Clone)]
pub struct SamRemoval {
    pub units: Vec<String>,
    pub sysusers_conf: Option<String>,
    pub tmpfiles_conf: Option<String>,
}

/// Plans undoing what a SAM v2 package set up.
pub fn remove_sam_v2_hooks(manifest: &Manifest) -> (h: SamRemoval)
    ensures
        crate::text::strings_view(h.units@) == crate::text::strings_view(manifest.systemd_units@),
        h.sysusers_conf is Some <==> manifest.sysusers@.len() > 0,
        h.sysusers_conf matches Some(p) ==> p@ == sysusers_path(manifest.name@),
        h.tmpfiles_conf is Some <==> manifest.tmpfiles@.len() > 0,
        h.tmpfiles_conf matches Some(p) ==> p@ == tmpfiles_path(manifest.name@),
{
    let mut units: Vec<String> = Vec::new();
    let mut k: usize = 0;
    while k < manifest.systemd_units.len()
        invariant
            k <= manifest.systemd_units@.len(),
            crate::text::strings_view(units@) == crate::text::strings_view(manifest.systemd_units@.take(k as int)),
        decreases manifest.systemd_units.len() - k,
    {
        let ghost before = crate::text::strings_view(units@);
        units.push(manifest.systemd_units[k].clone());
        proof {
            assert(crate::text::strings_view(units@) =~= before.push(manifest.systemd_units@[k as int]@));
            assert(crate::text::strings_view(units@) =~= crate::text::strings_view(manifest.systemd_units@.take(k + 1)));
        }
        k += 1;
    }
    assert(manifest.systemd_units@.take(manifest.systemd_units@.len() as int) =~= manifest.systemd_units@);
    let sysusers_conf = if manifest.sysusers.len() > 0 {
        Some(conf_path("/etc/sysusers.d/50-", manifest.name.as_str()))
    } else {
        None
    };
    let tmpfiles_conf = if manifest.tmpfiles.len() > 0 {
        Some(conf_path("/etc/tmpfiles.d/", manifest.name.as_str()))
    } else {
        None
    };
    SamRemoval { units, sysusers_conf, tmpfiles_conf }
}

} // verus!
