use spm::package::fetch::scan::{lookup_owner, scan_records, OwnerMap, ScannedFile};
use spm::types::db::FileAction;
use spm::types::package::{PackageFormat, PackageId};

#[test]
fn test_lookup_owner_found() {
    let mut map = OwnerMap::new();
    let pid = PackageId::new("nginx", PackageFormat::Deb);
    map.insert("/usr/bin/nginx".to_string(), pid.clone());
    let result = lookup_owner("/usr/bin/nginx", &map);
    assert_eq!(result, Ok(pid));
}

#[test]
fn test_lookup_owner_not_found() {
    let map = OwnerMap::new();
    let result = lookup_owner("/usr/bin/nginx", &map);
    assert_eq!(result, Err(()));
}

#[test]
fn owner_map_insert_replaces() {
    let mut map = OwnerMap::new();
    map.insert("/a".into(), PackageId::new("x", PackageFormat::Deb));
    map.insert("/a".into(), PackageId::new("y", PackageFormat::Rpm));
    assert_eq!(lookup_owner("/a", &map), Ok(PackageId::new("y", PackageFormat::Rpm)));
}

fn file(target: &str, hash: &str, existing: Option<&str>) -> ScannedFile {
    ScannedFile { target: target.into(), hash: hash.into(), existing_hash: existing.map(|s| s.to_string()) }
}

#[test]
fn scan_finds_conflicts_with_other_owners() {
    let mut owners = OwnerMap::new();
    owners.insert("/usr/bin/a".into(), PackageId::new("other", PackageFormat::Rpm));
    owners.insert("/usr/bin/b".into(), PackageId::new("me", PackageFormat::Deb));
    owners.insert("/usr/bin/c".into(), PackageId::new("other", PackageFormat::Rpm));
    let files = vec![
        file("/usr/bin/a", "h1", Some("h0")),
        file("/usr/bin/b", "h2", Some("h9")),
        file("/usr/bin/c", "h3", Some("h3")),
        file("/usr/bin/d", "h4", None),
    ];
    let (records, conflicts) = scan_records("me", PackageFormat::Deb, &files, &owners);
    assert_eq!(records.len(), 4);
    assert_eq!(records[3].filepath, "/usr/bin/d");
    assert_eq!(records[3].package, "me");
    assert_eq!(records[3].action, FileAction::Created);
    let owners: Vec<String> = conflicts.into_iter().map(|c| c.owner).collect();
    assert_eq!(owners, vec!["other:rpm".to_string()]);
}
