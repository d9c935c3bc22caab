use spm::error::SpmError;
use spm::package::install::sandbox::{
    ldd_missing, links_into_sandbox, sandbox_file_record, sandbox_install_targets, sandbox_package, sandbox_steps,
    sandbox_transaction, strict_library_check,
};
use spm::types::db::{FileAction, InstallType, TransactionAction};
use spm::types::package::PackageFormat;

#[test]
fn sandbox_levels() {
    let s = sandbox_steps("strict");
    assert!(s.check_libraries && !s.link_system_libraries && !s.run_scripts);
    let f = sandbox_steps("full");
    assert!(!f.check_libraries && f.link_system_libraries && f.run_scripts);
    let b = sandbox_steps("basic");
    assert!(!b.check_libraries && !b.link_system_libraries && b.run_scripts);
}

#[test]
fn sandbox_takes_target_and_missing_packages() {
    let order = vec![
        ("libc".to_string(), true),
        ("libfoo".to_string(), false),
        ("app".to_string(), true),
    ];
    assert_eq!(sandbox_install_targets(&order, "app"), vec!["libfoo".to_string(), "app".to_string()]);
}

#[test]
fn ldd_lines_that_miss_a_library() {
    let out = "\tlinux-vdso.so.1 (0x00007ffd)\n\tlibfoo.so.2 => not found\n\tlibc.so.6 => /lib/libc.so.6\n";
    assert_eq!(ldd_missing("usr/bin/app", out, ""), vec!["  usr/bin/app requires libfoo.so.2 (not found)".to_string()]);
    assert!(ldd_missing("usr/bin/app", out, "\tnot a dynamic executable").is_empty());
}

#[test]
fn strict_check_lists_missing_libraries() {
    assert!(strict_library_check(&Vec::new()).is_ok());
    let missing = vec!["  a requires x (not found)".to_string(), "  b requires y (not found)".to_string()];
    match strict_library_check(&missing) {
        Err(SpmError::Sandbox(m)) => assert_eq!(
            m,
            "Strict sandbox: missing shared libraries:\n  a requires x (not found)\n  b requires y (not found)\nUse --sandbox=full to allow system library symlinks."
        ),
        _ => panic!("expected a sandbox error"),
    }
}

#[test]
fn shared_objects_are_linked() {
    assert!(links_into_sandbox("libc.so.6"));
    assert!(!links_into_sandbox("ld.conf"));
}

#[test]
fn sandbox_records() {
    let r = sandbox_file_record("/sb/usr/bin/x".into(), "abc".into(), 42);
    assert_eq!(r.transaction_id, 42);
    assert_eq!(r.package, "");
    assert_eq!(r.format, PackageFormat::Sam);
    assert_eq!(r.action, FileAction::Created);
    let t = sandbox_transaction("steam", "2024-01-01T00:00:00Z".into(), "root".into());
    assert_eq!(t.action, TransactionAction::Install);
    assert_eq!(t.packages, vec!["steam".to_string()]);
    let p = sandbox_package("steam", "d".into(), Some("h".into()));
    assert_eq!(p.install_type, InstallType::Sandbox);
    assert_eq!(p.store_hash.as_deref(), Some("h"));
    assert_eq!(p.version, "");
}
