use spm::error::SpmError;
use spm::package::extract::codec::unzstd;
use spm::package::sam::{
    check_sam_hash, converted_path, create_sam_bytes, manifest_for_conversion, sam_download_url, sam_manifest,
    sonames_of_files,
};
use spm::types::package::{Package, PackageFormat};
use spm::util::hash::hash_bytes;

fn invalid_text(r: Result<(usize, usize), SpmError>) -> String {
    match r {
        Err(SpmError::InvalidFormat(m)) => m,
        _ => panic!("expected an invalid-format error"),
    }
}

#[test]
fn sam_file_round_trip_of_framing() {
    let json = br#"{"name":"test-pkg"}"#;
    let f = create_sam_bytes(json, b"data archive", None).unwrap();
    assert_eq!(&f[0..4], b"SAM1");
    let (start, len) = sam_manifest(&f).unwrap();
    assert_eq!((start, len), (8, json.len()));
    assert_eq!(&f[start..start + len], json);
    assert_eq!(unzstd(&f[start + len..]).unwrap(), b"data archive".to_vec());
}

#[test]
fn sam_file_with_metadata_appends_a_second_frame() {
    let f = create_sam_bytes(b"{}", b"data", Some(b"meta")).unwrap();
    let (start, len) = sam_manifest(&f).unwrap();
    assert_eq!(unzstd(&f[start + len..]).unwrap(), b"datameta".to_vec());
}

#[test]
fn sam_framing_errors() {
    assert_eq!(invalid_text(sam_manifest(b"")), "Failed to read magic: failed to fill whole buffer");
    assert_eq!(invalid_text(sam_manifest(b"NOTSAM1")), "Invalid .sam file: bad magic");
    assert_eq!(invalid_text(sam_manifest(b"SAM1\x01")), "Failed to read manifest length: failed to fill whole buffer");
    assert_eq!(invalid_text(sam_manifest(b"SAM1\x05\x00\x00\x00abc")), "Failed to read manifest: failed to fill whole buffer");
}

#[test]
fn conversion_manifest_and_path() {
    let pkg = Package {
        name: "hello".into(),
        version: "1.0".into(),
        architecture: "amd64".into(),
        maintainer: "m".into(),
        description: "d".into(),
        dependencies: Vec::new(),
        conflicts: vec!["old".into()],
        provides: Vec::new(),
        recommends: Vec::new(),
        install_size: 12,
        format: PackageFormat::Deb,
        source_repo: None,
    };
    let m = manifest_for_conversion(&pkg, "hello_1.0_amd64.deb", "abc".into());
    assert_eq!(m.format_version, 1);
    assert_eq!(m.conflicts, vec!["old".to_string()]);
    let s = m.source.unwrap();
    assert_eq!(s.original_format, "deb");
    assert_eq!(s.original_package, "hello_1.0_amd64.deb");
    assert_eq!(s.repo, "");
    assert_eq!(converted_path("/tmp/hello.deb"), "/tmp/hello.deb.sam");
}

#[test]
fn downloaded_sam_is_checked_by_hash() {
    assert_eq!(sam_download_url("https://r.example/sam//", "a.sam"), "https://r.example/sam/a.sam");
    let body = b"package bytes";
    assert!(check_sam_hash("a", &hash_bytes(body), body).is_ok());
    match check_sam_hash("a", "00", body) {
        Err(SpmError::InvalidFormat(m)) => {
            assert_eq!(m, format!("Hash mismatch for 'a': expected 00, got {}", hash_bytes(body)))
        }
        _ => panic!("expected a mismatch"),
    }
}

#[test]
fn sonames_of_non_elf_files_are_none() {
    let files = vec![b"not an elf".to_vec(), Vec::new()];
    assert!(sonames_of_files(&files).is_empty());
}
