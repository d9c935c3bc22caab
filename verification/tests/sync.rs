use spm::error::SpmError;
use spm::sync::{
    dpkg_list_files, foreign_file_record, foreign_package, parse_deb822_status, sync_imports, sync_source, sync_stale,
    sync_summary_text,
};
use spm::types::db::{InstallOrigin, InstallType};
use spm::types::package::PackageFormat;

#[test]
fn status_file_paragraphs() {
    let status = "Package: bash\nStatus: install ok installed\nVersion: 5.2-1 \n\nPackage: vim\n\nPackage: zlib1g\nVersion: 1:1.3\n";
    assert_eq!(
        parse_deb822_status(status),
        vec![("bash".to_string(), "5.2-1".to_string()), ("zlib1g".to_string(), "1:1.3".to_string())]
    );
    assert!(parse_deb822_status("").is_empty());
}

#[test]
fn dpkg_list_skips_empty_lines() {
    assert_eq!(dpkg_list_files("/.\n\n/usr/bin/x\n"), vec!["/.".to_string(), "/usr/bin/x".to_string()]);
}

#[test]
fn sync_needs_a_package_manager() {
    assert_eq!(sync_source(true, true).unwrap(), PackageFormat::Deb);
    assert_eq!(sync_source(false, true).unwrap(), PackageFormat::Rpm);
    match sync_source(false, false) {
        Err(SpmError::Other(m)) => assert_eq!(m, "No supported system package manager found (dpkg/rpm). Nothing to sync."),
        _ => panic!("expected an error"),
    }
}

#[test]
fn sync_imports_unknown_and_finds_stale() {
    let system = vec![("a".to_string(), "1".to_string()), ("b".to_string(), "2".to_string())];
    let known = vec!["b".to_string(), "gone".to_string()];
    assert_eq!(sync_imports(&system, &known), vec![0]);
    assert_eq!(sync_stale(&known, &system), vec!["gone".to_string()]);
}

#[test]
fn sync_records() {
    let p = foreign_package("a", "1", PackageFormat::Deb, "now".into());
    assert_eq!(p.origin, InstallOrigin::Foreign);
    assert_eq!(p.install_type, InstallType::Native);
    assert_eq!(p.source_repo.as_deref(), Some("foreign:system"));
    let r = foreign_file_record("a", PackageFormat::Deb, "/usr/bin/a".into());
    assert_eq!(r.transaction_id, 0);
    assert_eq!(r.package, "a");
    assert_eq!(sync_summary_text(3, 4), "Sync complete: 3 spm-managed + 4 foreign = 7 total");
}
