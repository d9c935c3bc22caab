use spm::package::builder::{build_manifest, convert_deps, file_mapping, package_file_name, package_output_path, PackageConfig};
use spm::types::package::{DependencySource, PackageFormat};

#[test]
fn test_convert_deps_empty() {
    let result = convert_deps(&[]);
    assert!(result.is_empty());
}

#[test]
fn test_convert_deps_single() {
    let result = convert_deps(&["libfoo".to_string()]);
    assert_eq!(result.len(), 1);
    assert_eq!(result[0].name, "libfoo");
    assert_eq!(result[0].format, Some(PackageFormat::Sam));
}

#[test]
fn test_convert_deps_multiple() {
    let result = convert_deps(&["a".to_string(), "b".to_string(), "c".to_string()]);
    assert_eq!(result.len(), 3);
    assert_eq!(result[0].name, "a");
    assert_eq!(result[1].name, "b");
    assert_eq!(result[2].name, "c");
}

#[test]
fn converted_deps_are_any_version_system_deps() {
    let result = convert_deps(&["x".to_string()]);
    assert_eq!(result[0].version, "");
    assert_eq!(result[0].source, DependencySource::System);
}

#[test]
fn file_mappings() {
    assert_eq!(file_mapping("bin/app:usr/bin/app"), ("bin/app".to_string(), "usr/bin/app".to_string()));
    assert_eq!(file_mapping("README"), ("README".to_string(), "README".to_string()));
    assert_eq!(file_mapping("a:b:c"), ("a".to_string(), "b:c".to_string()));
}

#[test]
fn package_file_names() {
    assert_eq!(package_file_name("hello", "1.0", false), "hello-1.0.sam");
    assert_eq!(package_file_name("hello", "1.0", true), "hello-1.0.signed.sam");
    assert_eq!(package_output_path("/proj", None, "hello", "1.0", false), "/proj/hello-1.0.sam");
    assert_eq!(package_output_path("/proj", Some("/out/"), "hello", "1.0", true), "/out/hello-1.0.signed.sam");
}

#[test]
fn manifest_from_config() {
    let cfg = PackageConfig {
        name: "hello".into(),
        version: "1.0".into(),
        description: "d".into(),
        architecture: "x86_64".into(),
        maintainer: "me@host".into(),
        dependencies: vec!["libc".into()],
        conflicts: vec!["other".into()],
        provides: vec![],
        systemd_units: vec!["hello.service".into()],
        sysusers: vec![],
        tmpfiles: vec![],
        triggers: vec![],
        obsoletes: vec![],
        conffiles: vec!["/etc/hello.conf".into()],
    };
    let m = build_manifest(cfg, 4096);
    assert_eq!(m.name, "hello");
    assert_eq!(m.install_size, 4096);
    assert_eq!(m.format_version, 1);
    assert_eq!(m.dependencies.len(), 1);
    assert_eq!(m.dependencies[0].format, Some(PackageFormat::Sam));
    assert_eq!(m.conflicts, vec!["other".to_string()]);
    assert_eq!(m.systemd_units, vec!["hello.service".to_string()]);
    assert!(m.recommends.is_empty());
    assert!(m.signature.is_none());
}
