use spm::error::SpmError;
use spm::package::transaction::{
    absorb_conflicts, net_change, not_in_repos, note_obsoletes, plan_to_remove, repo_fetch_order, should_fetch,
    stamp_records, RemovalState,
};
use spm::types::config::RepoSource;
use spm::types::db::{FileAction, FileRecord};
use spm::types::package::PackageFormat;

#[test]
fn fetch_order_matching_then_native() {
    let sources = [RepoSource::Native, RepoSource::Deb, RepoSource::Rpm, RepoSource::Deb];
    assert_eq!(repo_fetch_order(&sources, RepoSource::Deb), vec![1, 3, 0]);
    assert_eq!(repo_fetch_order(&sources, RepoSource::Native), vec![0]);
    assert_eq!(repo_fetch_order(&[], RepoSource::Rpm), Vec::<usize>::new());
}

#[test]
fn not_found_message() {
    match not_in_repos("curl", RepoSource::Rpm) {
        SpmError::PackageNotFound(m) => assert_eq!(m, "Package 'curl' (Rpm) not found in any matching repository"),
        other => panic!("unexpected {:?}", other),
    }
}

#[test]
fn installed_dependencies_are_skipped() {
    assert!(should_fetch("app", "app", true));
    assert!(!should_fetch("lib", "app", true));
    assert!(should_fetch("lib", "app", false));
}

#[test]
fn removals_for_reinstall() {
    let installed = vec!["a".to_string(), "app".to_string(), "b".to_string()];
    assert_eq!(plan_to_remove("app", &installed), vec!["app".to_string()]);
    assert!(plan_to_remove("zz", &installed).is_empty());
}

#[test]
fn obsoletes_join_removals() {
    let mut removed = vec!["x".to_string()];
    note_obsoletes(&mut removed, &vec!["old".into(), "x".into(), "gone".into()], &vec![true, true, false]);
    assert_eq!(removed, vec!["x".to_string(), "old".to_string()]);
}

#[test]
fn conflicts_with_and_without_replace() {
    let conflicts = vec![
        ("bash".to_string(), vec!["/bin/sh".to_string()]),
        ("dash".to_string(), vec!["/bin/sh".to_string(), "/bin/dash".to_string()]),
    ];
    let mut st = RemovalState { removed: vec!["dash".into()], conflicts: vec![] };
    match absorb_conflicts(&mut st, &conflicts, false) {
        Err(SpmError::Other(m)) => {
            assert_eq!(m, "File conflicts detected with: bash, dash. Use --replace to force install.")
        },
        other => panic!("unexpected {:?}", other),
    }
    assert_eq!(st.removed, vec!["dash".to_string()]);
    assert!(absorb_conflicts(&mut st, &conflicts, true).is_ok());
    assert_eq!(st.removed, vec!["dash".to_string(), "bash".to_string()]);
    assert_eq!(st.conflicts, vec![("bash".to_string(), vec!["/bin/sh".to_string()])]);
    assert!(absorb_conflicts(&mut st, &vec![], false).is_ok());
}

#[test]
fn net_changes() {
    assert_eq!(net_change(3, 1), "+2");
    assert_eq!(net_change(1, 1), "+0");
    assert_eq!(net_change(1, 4), "-3");
}

#[test]
fn records_are_stamped() {
    let f = FileRecord {
        id: None,
        transaction_id: 0,
        package: "p".into(),
        format: PackageFormat::Sam,
        filepath: "/usr/bin/p".into(),
        hash: "h".into(),
        action: FileAction::Created,
    };
    let r = stamp_records(&vec![f], 42);
    assert_eq!(r[0].transaction_id, 42);
    assert_eq!(r[0].filepath, "/usr/bin/p");
}
