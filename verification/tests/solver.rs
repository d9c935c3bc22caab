use spm::package::solver::{
    dep_string_to_range, extract_soname_name, split_op_ver, SonameIndex, SonameProvider, SpmDepProvider,
    VersionConstraint,
};
use spm::types::config::RepoSource;
use spm::types::package::PackageFormat;
use spm::types::version::{Version, VersionStrategy};

#[test]
fn soname_names() {
    assert_eq!(extract_soname_name("libssl.so.3()(64bit)"), "libssl.so.3");
    assert_eq!(extract_soname_name("libc6 (>= 2.31)"), "libc6");
    assert_eq!(extract_soname_name("libc6 >= 2.31"), "libc6");
}

#[test]
fn dependency_strings() {
    let (n, c) = dep_string_to_range("libc6 (>= 2.31)");
    assert_eq!(n, "libc6");
    assert!(matches!(c, VersionConstraint::AtLeast(ref v) if v.version == "2.31"));
    let (n, c) = dep_string_to_range("foo < 2");
    assert_eq!(n, "foo");
    assert!(matches!(c, VersionConstraint::Below(_)));
    let (n, c) = dep_string_to_range("  bar  ");
    assert_eq!(n, "bar");
    assert!(matches!(c, VersionConstraint::Any));
    let (n, c) = dep_string_to_range("baz (= 1.0))");
    assert_eq!(n, "baz");
    assert!(c.allows(&Version::parse("1.0")));
    assert!(!c.allows(&Version::parse("1.1")));
    assert_eq!(split_op_ver(" >= 1.2 "), (">=".to_string(), "1.2".to_string()));
    assert_eq!(split_op_ver("1.2"), ("".to_string(), "1.2".to_string()));
}

fn provider(v: &str, prio: u32, src: RepoSource) -> SonameProvider {
    SonameProvider { pkg: "p".into(), version: v.into(), priority: prio, source: src }
}

#[test]
fn best_version_strategies() {
    let idx = SonameIndex {
        providers: vec![(
            "p".into(),
            vec![provider("1.0", 10, RepoSource::Deb), provider("2.0", 50, RepoSource::Rpm), provider("1.5", 5, RepoSource::Deb)],
        )],
        requires: vec![("p".into(), vec!["q (>= 1)".into(), "(x)".into()])],
    };
    let stable = SpmDepProvider::new(idx.clone(), VersionStrategy::PreferStable);
    assert_eq!(stable.best_version("p").unwrap().version, "1.5");
    let newest = SpmDepProvider::new(idx.clone(), VersionStrategy::PreferNewest);
    assert_eq!(newest.best_version("p").unwrap().version, "2.0");
    let pref = SpmDepProvider::new(idx.clone(), VersionStrategy::PreferStable).with_preferred_source(RepoSource::Rpm);
    assert_eq!(pref.best_version("p").unwrap().version, "2.0");
    assert!(stable.best_version("missing").is_none());
    assert_eq!(stable.prioritize("p", &VersionConstraint::Any), 1);
    assert_eq!(stable.prioritize("p", &VersionConstraint::Above(Version::parse("9"))), usize::MAX);
    assert!(stable.choose_version("p", &VersionConstraint::AtMost(Version::parse("1.5"))).is_some());
    let deps = stable.get_dependencies("p");
    assert_eq!(deps.len(), 1);
    assert_eq!(deps[0].0, "q");
}

#[test]
fn dnf_repoquery_output() {
    let out = "bash\nglibc\n  ncurses-libs \nglibc\n\nfilesystem\n";
    let ids = spm::package::solver::parse_dnf_repoquery(out, "bash");
    let names: Vec<&str> = ids.iter().map(|p| p.name.as_str()).collect();
    assert_eq!(names, vec!["bash", "glibc", "ncurses-libs", "filesystem"]);
    assert!(ids.iter().all(|p| p.format == PackageFormat::Rpm));
}

#[test]
fn apt_simulate_lists() {
    let out = "Reading package lists...\nThe following additional packages will be installed:\n  libfoo\nThe following NEW packages will be installed:\n  figlet libc6, [x] (y)\n  libstdc++6 figlet\nThe following packages will be upgraded:\n  zlib1g\nNeed to get 100 kB of archives.\n1 upgraded, 3 newly installed, 0 to remove\nInst figlet (1 Debian)\n";
    let ids = spm::package::solver::parse_apt_simulate(out, "figlet").unwrap();
    let names: Vec<&str> = ids.iter().map(|p| p.name.as_str()).collect();
    assert_eq!(names, vec!["figlet", "libc6", "libstdc++6", "zlib1g"]);
    assert!(ids.iter().all(|p| p.format == PackageFormat::Deb));
}

#[test]
fn apt_simulate_inst_lines() {
    let out = "Inst libc6 (2.36 Debian)\nInst figlet (2.2.5 Debian)\nConf figlet\nInst libc6 [old]\n";
    let ids = spm::package::solver::parse_apt_simulate(out, "figlet").unwrap();
    let names: Vec<&str> = ids.iter().map(|p| p.name.as_str()).collect();
    assert_eq!(names, vec!["libc6", "figlet"]);
}

#[test]
fn apt_simulate_nothing() {
    match spm::package::solver::parse_apt_simulate("E: Unable to locate package zz\n", "zz") {
        Err(spm::error::SpmError::ResolutionFailed(m)) => {
            assert_eq!(m, "apt-get --simulate returned no packages for 'zz':\nE: Unable to locate package zz\n")
        },
        other => panic!("unexpected {:?}", other),
    }
}
