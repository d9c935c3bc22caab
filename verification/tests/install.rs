use spm::package::install::{approved, confirmed};
use spm::package::install::conflict::{ConflictMediator, Resolution, StoreManager, ProcessFreezer};
use spm::package::install::remove::{
    create_remove_transaction, dirs_to_cleanup, format_remove_failed_msg, is_conffile,
};
use spm::package::install::source_to_format;
use spm::package::install::upgrade::{apt_package_version, check_upgrade, format_to_source, should_upgrade, UpgradeResult};
use spm::types::config::RepoSource;
use spm::types::db::{FileAction, FileRecord, TransactionAction, TransactionStatus};
use spm::types::package::{PackageFormat, PackageId};

#[test]
fn test_source_to_format() {
    assert_eq!(source_to_format(&RepoSource::Deb), PackageFormat::Deb);
    assert_eq!(source_to_format(&RepoSource::Rpm), PackageFormat::Rpm);
    assert_eq!(source_to_format(&RepoSource::Native), PackageFormat::Sam);
}

#[test]
fn test_format_to_source_deb() {
    assert_eq!(format_to_source(&PackageFormat::Deb), RepoSource::Deb);
}

#[test]
fn test_format_to_source_rpm() {
    assert_eq!(format_to_source(&PackageFormat::Rpm), RepoSource::Rpm);
}

#[test]
fn test_format_to_source_sam() {
    assert_eq!(format_to_source(&PackageFormat::Sam), RepoSource::Native);
}

#[test]
fn test_should_upgrade_empty_installed() {
    assert!(should_upgrade("", "2.0"));
}

#[test]
fn test_should_upgrade_newer_available() {
    assert!(should_upgrade("1.0", "2.0"));
}

#[test]
fn test_should_upgrade_same_version() {
    assert!(!should_upgrade("1.0", "1.0"));
}

#[test]
fn test_should_upgrade_older_available() {
    assert!(!should_upgrade("2.0", "1.0"));
}

#[test]
fn test_should_upgrade_with_epoch() {
    assert!(should_upgrade("1:1.0", "2:1.0"));
}

#[test]
fn test_should_upgrade_empty_both() {
    assert!(should_upgrade("", ""));
}

#[test]
fn upgrade_decisions() {
    assert!(matches!(check_upgrade("", &[]), UpgradeResult::UpgradeTo(ref s) if s == "latest"));
    assert!(matches!(check_upgrade("1.0", &[]), UpgradeResult::Obsoleted));
    assert!(matches!(check_upgrade("1.0", &[None]), UpgradeResult::UpToDate));
    assert!(matches!(check_upgrade("1.0", &[None, Some("1.1".into()), Some("9".into())]), UpgradeResult::UpgradeTo(ref s) if s == "1.1"));
    assert!(matches!(check_upgrade("1.0", &[Some("0.9".into())]), UpgradeResult::UpToDate));
}

#[test]
fn packages_file_version_lookup() {
    let text = "Package: a\nVersion: 1\n\nPackage: Nginx\nVersion: 1.27\n\nPackage: z\n";
    assert_eq!(apt_package_version(text, "nginx").as_deref(), Some("1.27"));
    assert_eq!(apt_package_version(text, "zz"), None);
    assert_eq!(apt_package_version("Package: q\nVersion: 3", "q").as_deref(), Some("3"));
}

#[test]
fn remove_transaction_fields() {
    let pid = PackageId::new("myapp", PackageFormat::Sam);
    let tx = create_remove_transaction(&pid, "2026-01-01T00:00:00Z".into(), "root".into());
    assert!(matches!(tx.action, TransactionAction::Remove));
    assert!(matches!(tx.status, TransactionStatus::Completed));
    assert_eq!(tx.packages, vec!["myapp:sam"]);
    assert!(tx.snapshot_id.is_none());
}

#[test]
fn test_format_remove_failed_msg_empty_errors() {
    let err = format_remove_failed_msg("pkg", "remove", &[]);
    let msg = err.text();
    assert!(msg.contains("Failed to remove some files for 'pkg'"));
    assert!(msg.contains("DB was NOT modified"));
}

#[test]
fn test_format_remove_failed_msg_with_errors() {
    let err = format_remove_failed_msg("pkg", "purge", &[
        "  /usr/bin/foo: Permission denied".into(),
        "  /etc/pkg/conf: Read-only".into(),
    ]);
    let msg = err.text();
    assert!(msg.contains("Failed to purge some files for 'pkg'"));
    assert!(msg.contains("Permission denied"));
    assert!(msg.contains("Read-only"));
    assert!(msg.ends_with("Permission denied\n  /etc/pkg/conf: Read-only"));
}

fn rec(pkg: &str, path: &str) -> FileRecord {
    FileRecord { id: None, transaction_id: 0, package: pkg.into(), format: PackageFormat::Deb, filepath: path.into(), hash: "abc".into(), action: FileAction::Created }
}

#[test]
fn test_dirs_to_cleanup_matching() {
    let records = vec![rec("myapp", "/etc/myapp/conf"), rec("myapp", "/var/lib/myapp/data"), rec("myapp", "/usr/bin/myapp")];
    let dirs = dirs_to_cleanup("myapp", &records);
    assert!(dirs.contains(&"/etc/myapp".to_string()));
    assert!(dirs.contains(&"/var/lib/myapp".to_string()));
}

#[test]
fn test_dirs_to_cleanup_no_match() {
    let records = vec![rec("app", "/usr/bin/app")];
    let dirs = dirs_to_cleanup("app", &records);
    assert!(dirs.is_empty());
}

#[test]
fn test_dirs_to_cleanup_partial_match() {
    let records = vec![rec("myapp", "/etc/myapp/conf")];
    let dirs = dirs_to_cleanup("myapp", &records);
    assert_eq!(dirs.len(), 1);
    assert!(dirs.contains(&"/etc/myapp".to_string()));
}

#[test]
fn test_is_conffile_explicit_list() {
    let conffiles = vec!["/etc/myapp/custom.conf".to_string()];
    assert!(is_conffile("/etc/myapp/custom.conf", &conffiles));
}

#[test]
fn test_is_conffile_etc_prefix() {
    let conffiles: Vec<String> = vec![];
    assert!(is_conffile("/etc/myapp/nginx.conf", &conffiles));
}

#[test]
fn test_is_conffile_not_under_etc() {
    let conffiles: Vec<String> = vec![];
    assert!(!is_conffile("/usr/bin/myapp", &conffiles));
}

#[test]
fn test_is_conffile_explicit_overrides_empty_list() {
    let conffiles = vec!["/opt/myapp/config.yml".to_string()];
    assert!(is_conffile("/opt/myapp/config.yml", &conffiles));
    assert!(!is_conffile("/opt/myapp/other.yml", &conffiles));
}

#[test]
fn test_is_conffile_slash_etc_only() {
    let conffiles: Vec<String> = vec![];
    assert!(!is_conffile("/etcetc/test", &conffiles));
    assert!(!is_conffile("/usr/etc/test", &conffiles));
}

#[test]
fn test_resolution_equality() {
    assert_eq!(Resolution::Proceed, Resolution::Proceed);
    assert_eq!(Resolution::SandboxInstall, Resolution::SandboxInstall);
    assert_eq!(
        Resolution::ForceReplace { packages_to_remove: vec!["foo".into()] },
        Resolution::ForceReplace { packages_to_remove: vec!["foo".into()] },
    );
    assert_eq!(Resolution::Cancelled, Resolution::Cancelled);
    assert_ne!(Resolution::Proceed, Resolution::Cancelled);
}

#[test]
fn test_foreign_owned_index_to_resolution() {
    let m = ConflictMediator::new();
    assert_eq!(m.foreign_owned_index_to_resolution(0, "pkg"), Resolution::Proceed);
    assert_eq!(m.foreign_owned_index_to_resolution(1, "pkg"), Resolution::SandboxInstall);
    assert_eq!(
        m.foreign_owned_index_to_resolution(2, "pkg"),
        Resolution::ForceReplace { packages_to_remove: vec!["pkg".into()] },
    );
    assert_eq!(m.foreign_owned_index_to_resolution(3, "pkg"), Resolution::Cancelled);
    assert_eq!(m.foreign_owned_index_to_resolution(99, "pkg"), Resolution::Cancelled);
}

#[test]
fn test_resolution_debug() {
    let r = Resolution::ForceReplace { packages_to_remove: vec!["a".into(), "b".into()] };
    let debug = format!("{r:?}");
    assert!(debug.contains("ForceReplace"));
    assert!(debug.contains("a"));
}

#[test]
fn test_store_manager_root_dir() {
    let root = StoreManager::root_dir("/var/lib/spm");
    assert!(root.contains("store"));
}

#[test]
fn test_process_freezer_sendable() {
    fn assert_send<T: Send>(_: &T) {}
    let f = ProcessFreezer;
    assert_send(&f);
}

#[test]
fn test_create_remove_transaction_fields() {
    let pid = PackageId::new("test-pkg", PackageFormat::Deb);
    let tx = create_remove_transaction(&pid, "2026-01-01T00:00:00Z".to_string(), "root".to_string());

    assert!(matches!(tx.action, TransactionAction::Remove));
    assert!(tx.packages.contains(&"test-pkg:deb".to_string()));
    assert!(matches!(tx.status, TransactionStatus::Completed));
    assert!(tx.snapshot_id.is_none());
}

#[test]
fn test_create_remove_transaction_sam_package() {
    let pid = PackageId::new("myapp", PackageFormat::Sam);
    let tx = create_remove_transaction(&pid, "2026-01-01T00:00:00Z".to_string(), "root".to_string());

    assert_eq!(tx.packages, vec!["myapp:sam"]);
}

fn deps(name: &str, d: &[&str]) -> spm::package::install::InstalledDeps {
    spm::package::install::InstalledDeps { name: name.into(), deps: d.iter().map(|s| s.to_string()).collect() }
}

#[test]
fn orphans_are_the_packages_nothing_needs() {
    let pkgs = vec![deps("app", &["libfoo"]), deps("libfoo", &[]), deps("spm", &[]), deps("tool", &["ghost"])];
    assert_eq!(spm::package::install::find_orphans(&pkgs), vec!["app".to_string(), "tool".to_string()]);
}

#[test]
fn dist_upgrade_plan_sorts_packages() {
    let pkgs = vec![deps("app", &["libfoo"]), deps("libfoo", &[]), deps("old", &[]), deps("lone", &[])];
    let results = vec![
        UpgradeResult::UpgradeTo("2.0".into()),
        UpgradeResult::UpToDate,
        UpgradeResult::Obsoleted,
        UpgradeResult::UpToDate,
    ];
    let plan = spm::package::install::dist_upgrade_plan(&pkgs, &results);
    assert_eq!(plan.upgradable, vec![(0, "2.0".to_string())]);
    assert_eq!(plan.obsoleted, vec!["old".to_string()]);
    assert_eq!(plan.orphans, vec!["lone".to_string()]);
}

#[test]
fn prompts() {
    assert!(confirmed(" Y \n"));
    assert!(confirmed("yes"));
    assert!(!confirmed(""));
    assert!(!confirmed("no"));
    assert!(approved("\n"));
    assert!(approved("YES"));
    assert!(!approved("n"));
}
