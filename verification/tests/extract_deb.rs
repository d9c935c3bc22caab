use spm::error::SpmError;
use spm::package::extract::deb::{deb_plan, DebDest, TarKind};

fn build_test_ar(files: &[(&str, &[u8])]) -> Vec<u8> {
    let mut archive = Vec::new();
    archive.extend_from_slice(b"!<arch>\n");
    for (name, data) in files {
        let header = format!("{:<16}{:<12}{:<6}{:<6}{:<8}{:<10}`\n", name, "0", "0", "0", "100644", data.len());
        assert_eq!(header.as_bytes().len(), 60, "AR header must be exactly 60 bytes");
        archive.extend_from_slice(header.as_bytes());
        archive.extend_from_slice(data);
        if data.len() % 2 == 1 {
            archive.push(b'\n');
        }
    }
    archive
}

#[test]
fn test_extract_deb_invalid_magic() {
    let result = deb_plan(b"invalid");
    assert!(result.is_err());
    match result {
        Err(SpmError::InvalidFormat(m)) => assert!(m.contains("bad ar magic")),
        other => panic!("unexpected {:?}", other),
    }
}

#[test]
fn test_extract_deb_empty_archive() {
    let ar = build_test_ar(&[]);
    let result = deb_plan(&ar);
    assert!(result.is_ok());
    let plan = result.unwrap();
    assert!(plan.steps.is_empty());
    assert!(plan.error.is_none());
}

#[test]
fn deb_members_go_where_their_names_say() {
    let ar = build_test_ar(&[
        ("debian-binary", b"2.0\n"),
        ("control.tar.xz", b"CTL"),
        ("data.tar.zst/", b"DATA"),
        ("other", b"x"),
        ("data.tar", b"T"),
    ]);
    let plan = deb_plan(&ar).unwrap();
    assert!(plan.error.is_none());
    let got: Vec<(DebDest, TarKind, Vec<u8>)> = plan.steps.into_iter().map(|s| (s.dest, s.kind, s.data)).collect();
    assert_eq!(
        got,
        vec![
            (DebDest::Control, TarKind::Xz, b"CTL".to_vec()),
            (DebDest::Data, TarKind::Zstd, b"DATA".to_vec()),
            (DebDest::Data, TarKind::Any, b"T".to_vec()),
        ]
    );
}

#[test]
fn deb_truncated_member_is_an_error_after_the_earlier_ones() {
    let mut ar = build_test_ar(&[("control.tar.gz", b"CC")]);
    let header = format!("{:<16}{:<12}{:<6}{:<6}{:<8}{:<10}`\n", "data.tar.gz", "0", "0", "0", "100644", 99);
    ar.extend_from_slice(header.as_bytes());
    ar.extend_from_slice(b"short");
    let plan = deb_plan(&ar).unwrap();
    assert_eq!(plan.steps.len(), 1);
    assert_eq!(plan.steps[0].dest, DebDest::Control);
    match plan.error {
        Some(SpmError::Other(m)) => assert_eq!(m, "Failed to read ar data: failed to fill whole buffer"),
        other => panic!("unexpected {:?}", other),
    }
}

#[test]
fn deb_short_trailing_header_ends_the_archive() {
    let mut ar = build_test_ar(&[("data.tar.xz", b"XYZ")]);
    ar.extend_from_slice(b"garbage");
    let plan = deb_plan(&ar).unwrap();
    assert_eq!(plan.steps.len(), 1);
    assert_eq!(plan.steps[0].data, b"XYZ".to_vec());
    assert!(plan.error.is_none());
}
