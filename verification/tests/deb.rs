use spm::package::deb::{normalize_ar_name, parse_deb822, parse_depends, set_field};
use spm::types::package::Package;

#[test]
fn test_parse_deb822_basic() {
    let control = "Package: nginx\nVersion: 1.27.0\nArchitecture: amd64\nMaintainer: Test\nDescription: A test\n";
    let pkg = parse_deb822(control, "test.deb").unwrap();
    assert_eq!(pkg.name, "nginx");
    assert_eq!(pkg.version, "1.27.0");
    assert_eq!(pkg.architecture, "amd64");
    assert_eq!(pkg.maintainer, "Test");
    assert_eq!(pkg.description, "A test");
}

#[test]
fn test_parse_deb822_with_fields() {
    let control = "Package: libssl3\nVersion: 3.0.15\nDepends: libc6 (>= 2.31), zlib1g\nConflicts: libssl1.1\nProvides: libssl\nRecommends: ca-certificates\nInstalled-Size: 5120\n";
    let pkg = parse_deb822(control, "test.deb").unwrap();
    assert_eq!(pkg.name, "libssl3");
    assert_eq!(pkg.dependencies.len(), 2);
    assert_eq!(pkg.dependencies[0].name, "libc6");
    assert_eq!(pkg.dependencies[0].version, ">= 2.31");
    assert_eq!(pkg.dependencies[1].name, "zlib1g");
    assert_eq!(pkg.conflicts, vec!["libssl1.1"]);
    assert_eq!(pkg.provides, vec!["libssl"]);
    assert_eq!(pkg.recommends, vec!["ca-certificates"]);
    assert_eq!(pkg.install_size, 5120 * 1024);
}

#[test]
fn test_parse_deb822_multiline() {
    let control = "Package: nginx\nDescription: A web server\n It is very fast\n And reliable\n";
    let pkg = parse_deb822(control, "test.deb").unwrap();
    assert!(pkg.description.contains("web server"));
    assert!(pkg.description.contains("very fast"));
}

#[test]
fn test_parse_depends_simple() {
    let deps = parse_depends("libc6, zlib1g");
    assert_eq!(deps.len(), 2);
    assert_eq!(deps[0].name, "libc6");
    assert_eq!(deps[1].name, "zlib1g");
}

#[test]
fn test_parse_depends_with_versions() {
    let deps = parse_depends("libc6 (>= 2.31), libssl3 (>= 3.0.0)");
    assert_eq!(deps.len(), 2);
    assert_eq!(deps[0].name, "libc6");
    assert_eq!(deps[0].version, ">= 2.31");
    assert_eq!(deps[1].name, "libssl3");
    assert_eq!(deps[1].version, ">= 3.0.0");
}

#[test]
fn test_parse_depends_empty() {
    let deps = parse_depends("");
    assert!(deps.is_empty());
}

#[test]
fn test_parse_depends_or_alternatives() {
    let deps = parse_depends("foo | bar");
    assert_eq!(deps.len(), 1);
    assert_eq!(deps[0].name, "foo");
}

#[test]
fn test_parse_depends_mixed_and_or() {
    let deps = parse_depends("libc6 (>= 2.31), foo | bar, baz");
    assert_eq!(deps.len(), 3);
    assert_eq!(deps[0].name, "libc6");
    assert_eq!(deps[0].version, ">= 2.31");
    assert_eq!(deps[1].name, "foo");
    assert_eq!(deps[2].name, "baz");
}

#[test]
fn test_set_field_valid() {
    let mut pkg = Package::default();
    set_field(&mut pkg, "Package", "mypkg");
    assert_eq!(pkg.name, "mypkg");
    set_field(&mut pkg, "Version", "2.0");
    assert_eq!(pkg.version, "2.0");
}

#[test]
fn test_set_field_unknown() {
    let mut pkg = Package::default();
    set_field(&mut pkg, "Unknown-Field", "value");
    assert_eq!(pkg.name, "");
}

#[test]
fn test_normalize_ar_name() {
    assert_eq!(normalize_ar_name("debian-binary/"), "debian-binary");
    assert_eq!(normalize_ar_name("control.tar.gz"), "control.tar.gz");
    assert_eq!(normalize_ar_name("data.tar.xz/   "), "data.tar.xz");
}

#[test]
fn deb822_blank_line_drops_pending_field() {
    let pkg = parse_deb822("Package: a\n\nVersion: 1\n", "x").unwrap();
    assert_eq!(pkg.name, "");
    assert_eq!(pkg.version, "1");
    assert_eq!(pkg.source_repo.as_deref(), Some("x"));
}

#[test]
fn deb822_installed_size_not_a_number_is_zero() {
    let pkg = parse_deb822("Installed-Size: lots\n", "x").unwrap();
    assert_eq!(pkg.install_size, 0);
    let pkg = parse_deb822("Installed-Size: +2\r\n", "x").unwrap();
    assert_eq!(pkg.install_size, 2048);
}

#[test]
fn depends_blank_alternatives_are_skipped() {
    let deps = parse_depends(" | , a (1.0)) ,,b");
    assert_eq!(deps.len(), 2);
    assert_eq!(deps[0].name, "a");
    assert_eq!(deps[0].version, "1.0");
    assert_eq!(deps[1].name, "b");
    assert_eq!(deps[1].version, "");
}
