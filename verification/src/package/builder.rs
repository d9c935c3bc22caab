//! Building `.sam` packages from a `spm-build.toml` project: the package
//! name of the output, where each listed file goes in the archive, and the
//! manifest made from the configuration.
use vstd::prelude::*;
use crate::text::{chars_of, find_char, idx_of, push_str, string_of, strings_view};
use crate::types::package::{
    deps_view, Dependency, DependencySource, DependencyView, Manifest, PackageFormat, SysuserEntry, TmpfileEntry,
    Trigger,
};
use crate::util::path::{join, path_join};

verus! {

/// The `[package]` table of `spm-build.toml`, with its defaults filled in.
#[derive(Debug, Clone)]
pub struct PackageConfig {
    pub name: String,
    pub version: String,
    pub description: String,
    pub architecture: String,
    pub maintainer: String,
    pub dependencies: Vec<String>,
    pub conflicts: Vec<String>,
    pub provides: Vec<String>,
    pub systemd_units: Vec<String>,
    pub sysusers: Vec<SysuserEntry>,
    pub tmpfiles: Vec<TmpfileEntry>,
    pub triggers: Vec<Trigger>,
    pub obsoletes: Vec<String>,
    pub conffiles: Vec<String>,
}

/// A dependency listed in a build configuration: a system dependency on a
/// `.sam` package, any version.
pub open spec fn sam_dependency(name: Seq<char>) -> DependencyView {
    DependencyView {
        name,
        version: Seq::empty(),
        source: DependencySource::System,
        format: Some(PackageFormat::Sam),
    }
}

/// The dependencies of a manifest, from the names the configuration lists.
pub fn convert_deps(raw: &[String]) -> (r: Vec<Dependency>)
    ensures
        deps_view(r@) == strings_view(raw@).map_values(|n: Seq<char>| sam_dependency(n)),
{
    let mut r: Vec<Dependency> = Vec::new();
    let mut i: usize = 0;
    while i < raw.len()
        invariant
            i <= raw@.len(),
            deps_view(r@) == strings_view(raw@).take(i as int).map_values(|n: Seq<char>| sam_dependency(n)),
        decreases raw.len() - i,
    {
        let mut name = String::new();
        push_str(&mut name, raw[i].as_str());
        let d = Dependency {
            name,
            version: String::new(),
            source: DependencySource::System,
            format: Some(PackageFormat::Sam),
        };
        let ghost before = deps_view(r@);
        r.push(d);
        proof {
            assert(deps_view(r@) =~= before.push(d@));
            assert(strings_view(raw@).take(i + 1) =~= strings_view(raw@).take(i as int).push(raw@[i as int]@));
        }
        i += 1;
    }
    proof {
        assert(strings_view(raw@).take(i as int) =~= strings_view(raw@));
    }
    r
}

/// An `install.files` entry is `src:dst`, or a path that is both.
pub open spec fn file_mapping_spec(entry: Seq<char>) -> (Seq<char>, Seq<char>) {
    let k = idx_of(entry, ':');
    if k < entry.len() {
        (entry.take(k as int), entry.skip((k + 1) as int))
    } else {
        (entry, entry)
    }
}

/// Where an `install.files` entry comes from in the project and where it
/// goes in the archive (`split_once(':')`).
pub fn file_mapping(entry: &str) -> (r: (String, String))
    ensures
        (r.0@, r.1@) == file_mapping_spec(entry@),
{
    let v = chars_of(entry);
    let k = find_char(&v, 0, v.len(), ':');
    proof {
        assert(v@.subrange(0, v@.len() as int) =~= entry@);
    }
    if k < v.len() {
        let a = string_of(&v, 0, k);
        let b = string_of(&v, k + 1, v.len());
        assert(a@ =~= entry@.take(k as int));
        assert(b@ =~= entry@.skip((k + 1) as int));
        (a, b)
    } else {
        let a = string_of(&v, 0, v.len());
        let b = string_of(&v, 0, v.len());
        (a, b)
    }
}

/// `<name>-<version>.sam`, or `<name>-<version>.signed.sam` when the
/// package is to be signed.
pub open spec fn package_file_name_spec(name: Seq<char>, version: Seq<char>, signed: bool) -> Seq<char> {
    name + "-"@ + version + if signed {
        ".signed.sam"@
    } else {
        ".sam"@
    }
}

pub fn package_file_name(name: &str, version: &str, signed: bool) -> (r: String)
    ensures
        r@ == package_file_name_spec(name@, version@, signed),
{
    let mut r = String::new();
    push_str(&mut r, name);
    push_str(&mut r, "-");
    push_str(&mut r, version);
    if signed {
        push_str(&mut r, ".signed.sam");
    } else {
        push_str(&mut r, ".sam");
    }
    r
}

/// The file the package is written to: in the output directory when one
/// is given, else in the project directory.
pub fn package_output_path(root: &str, output: Option<&str>, name: &str, version: &str, signed: bool) -> (r:
    String)
    ensures
        r@ == path_join(
            match output {
                Some(o) => o@,
                None => root@,
            },
            package_file_name_spec(name@, version@, signed),
        ),
{
    let file = package_file_name(name, version, signed);
    match output {
        Some(o) => join(o, file.as_str()),
        None => join(root, file.as_str()),
    }
}

/// The manifest of a package built from `cfg`, whose files take
/// `install_size` bytes: the configuration's fields, its dependencies as
/// system dependencies on `.sam` packages, format version 1, and no
/// recommendations, source, conversion data or signature.
pub fn build_manifest(cfg: PackageConfig, install_size: u64) -> (m: Manifest)
    ensures
        m.name == cfg.name,
        m.version == cfg.version,
        m.architecture == cfg.architecture,
        m.maintainer == cfg.maintainer,
        m.description == cfg.description,
        deps_view(m.dependencies@) == strings_view(cfg.dependencies@).map_values(
            |n: Seq<char>| sam_dependency(n),
        ),
        m.conflicts == cfg.conflicts,
        m.provides == cfg.provides,
        m.recommends@.len() == 0,
        m.install_size == install_size,
        m.format_version == 1,
        m.source is None,
        m.ai_metadata is None,
        m.signature is None,
        m.systemd_units == cfg.systemd_units,
        m.sysusers == cfg.sysusers,
        m.tmpfiles == cfg.tmpfiles,
        m.triggers == cfg.triggers,
        m.obsoletes == cfg.obsoletes,
        m.conffiles == cfg.conffiles,
{
    let dependencies = convert_deps(cfg.dependencies.as_slice());
    Manifest {
        name: cfg.name,
        version: cfg.version,
        architecture: cfg.architecture,
        maintainer: cfg.maintainer,
        description: cfg.description,
        dependencies,
        conflicts: cfg.conflicts,
        provides: cfg.provides,
        recommends: Vec::new(),
        install_size,
        format_version: 1,
        source: None,
        ai_metadata: None,
        signature: None,
        systemd_units: cfg.systemd_units,
        sysusers: cfg.sysusers,
        tmpfiles: cfg.tmpfiles,
        triggers: cfg.triggers,
        obsoletes: cfg.obsoletes,
        conffiles: cfg.conffiles,
    }
}

} // verus!
