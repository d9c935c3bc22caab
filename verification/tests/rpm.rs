use spm::error::SpmError;
use spm::package::fetch::verify::rpm_signature_layout;
use spm::package::extract::rpm::{decompress_cpio, extract_payload, read_index_header};
use spm::package::rpm::{
    check_rpm_magic, cpio_plan, decompress_cpio as rpm_decompress_cpio, index_store_size, package_from_header,
    read_be32, read_be_i32, CpioAction, CpioPlan,
};
use spm::types::package::{DependencySource, PackageFormat};
use spm::package::scripts::{
    deb_script_member, rpm_scripts_from_header, sam_script_member, script_failed, script_is_blank, ScriptKind, Scripts,
};

fn build_cpio_entry(magic: &[u8; 6], name: &str, data: &[u8], mode: u32) -> Vec<u8> {
    let namesize = name.len() + 1;
    let filesize = data.len();
    let pad_name = (4 - (110 + namesize) % 4) % 4;
    let pad_data = (4 - filesize % 4) % 4;
    let entry_size = 110 + namesize + pad_name + filesize + pad_data;

    let mut entry = vec![0u8; entry_size];
    entry[0..6].copy_from_slice(magic);
    entry[14..18].copy_from_slice(&mode.to_be_bytes());
    entry[30..34].copy_from_slice(&1u32.to_be_bytes());
    entry[76..80].copy_from_slice(&(namesize as u32).to_be_bytes());
    entry[80..84].copy_from_slice(&(filesize as u32).to_be_bytes());
    entry[110..110 + namesize - 1].copy_from_slice(name.as_bytes());
    entry[110 + namesize - 1] = 0;

    let data_start = 110 + namesize + pad_name;
    entry[data_start..data_start + filesize].copy_from_slice(data);

    entry
}

fn build_cpio_trailer() -> Vec<u8> {
    let magic: &[u8; 6] = b"070701";
    build_cpio_entry(magic, "TRAILER!!!", b"", 0)
}

fn build_cpio_archive(files: &[(&str, &[u8], u32)]) -> Vec<u8> {
    let mut archive = Vec::new();
    let magic: &[u8; 6] = b"070701";
    for (name, data, mode) in files {
        archive.extend(build_cpio_entry(magic, name, data, *mode));
    }
    archive.extend(build_cpio_trailer());
    archive
}

fn writes(plan: &CpioPlan) -> Vec<(String, Vec<u8>)> {
    plan.actions
        .iter()
        .filter_map(|a| match a {
            CpioAction::WriteFile(p, d) => Some((p.clone(), d.clone())),
            _ => None,
        })
        .collect()
}

fn dirs(plan: &CpioPlan) -> Vec<String> {
    plan.actions
        .iter()
        .filter_map(|a| match a {
            CpioAction::CreateDir(p) => Some(p.clone()),
            _ => None,
        })
        .collect()
}

// --- extract/rpm.rs ---

#[test]
fn test_decompress_cpio_empty() {
    let result = decompress_cpio(b"", "/tmp");
    assert!(result.is_ok());
    assert!(result.unwrap().actions.is_empty());
}

#[test]
fn test_decompress_cpio_short() {
    let result = decompress_cpio(b"short", "/tmp");
    assert!(result.is_ok());
    assert!(result.unwrap().actions.is_empty());
}

#[test]
fn test_decompress_cpio_invalid_magic() {
    let mut data = b"XXXXXX".to_vec();
    data.extend(std::iter::repeat_n(0u8, 110));
    let result = decompress_cpio(&data, "/tmp");
    assert!(result.is_ok());
    assert!(result.unwrap().actions.is_empty());
}

#[test]
fn test_decompress_cpio_file() {
    let archive = build_cpio_archive(&[("file.txt", b"hello world", 0o_100_644)]);
    let plan = decompress_cpio(&archive, "/x").unwrap();
    assert!(plan.error.is_none());
    assert_eq!(writes(&plan), vec![("/x/file.txt".to_string(), b"hello world".to_vec())]);
}

#[test]
fn test_decompress_cpio_directory() {
    let archive = build_cpio_archive(&[("subdir", b"", 0o_040_755)]);
    let plan = decompress_cpio(&archive, "/x").unwrap();
    assert_eq!(dirs(&plan), vec!["/x/subdir".to_string()]);
    assert!(writes(&plan).is_empty());
}

#[test]
fn test_decompress_cpio_nested() {
    let archive = build_cpio_archive(&[
        ("usr", b"", 0o_040_755),
        ("usr/bin", b"", 0o_040_755),
        ("usr/bin/hello", b"#!/bin/sh\necho hello", 0o_100_755),
    ]);
    let plan = decompress_cpio(&archive, "/x").unwrap();
    assert_eq!(dirs(&plan), vec!["/x/usr".to_string(), "/x/usr/bin".to_string()]);
    assert_eq!(writes(&plan), vec![("/x/usr/bin/hello".to_string(), b"#!/bin/sh\necho hello".to_vec())]);
}

#[test]
fn test_decompress_cpio_strips_leading_slash() {
    let archive = build_cpio_archive(&[("/etc/nginx.conf", b"server { }", 0o_100_644)]);
    let plan = decompress_cpio(&archive, "/x").unwrap();
    assert_eq!(writes(&plan)[0].0, "/x/etc/nginx.conf");
}

#[test]
fn test_decompress_cpio_070702_magic() {
    let magic: &[u8; 6] = b"070702";
    let entry = build_cpio_entry(magic, "test.bin", b"\x00\x01\x02\x03", 0o_100_644);
    let mut archive = entry;
    archive.extend(build_cpio_trailer());
    let plan = decompress_cpio(&archive, "/x").unwrap();
    assert_eq!(writes(&plan), vec![("/x/test.bin".to_string(), b"\x00\x01\x02\x03".to_vec())]);
}

#[test]
fn test_extract_payload_invalid() {
    let result = extract_payload(b"short");
    assert!(result.is_err());
}

// --- rpm.rs ---

#[test]
fn rpm_test_decompress_cpio_empty() {
    let result = rpm_decompress_cpio(b"", "/tmp");
    assert!(result.is_ok());
}

#[test]
fn test_decompress_cpio_too_short() {
    let result = rpm_decompress_cpio(b"short", "/tmp");
    assert!(result.is_ok());
    assert!(result.unwrap().actions.is_empty());
}

#[test]
fn rpm_test_decompress_cpio_invalid_magic() {
    let mut data = b"XXXXXX".to_vec();
    data.extend(std::iter::repeat_n(0u8, 110));
    let result = rpm_decompress_cpio(&data, "/tmp");
    assert!(result.is_ok());
    assert!(result.unwrap().actions.is_empty());
}

#[test]
fn test_decompress_cpio_file_extraction() {
    let archive = build_cpio_archive(&[("file.txt", b"hello world", 0o100644)]);
    let plan = rpm_decompress_cpio(&archive, "/tmp/spm-rpm-test-extract").unwrap();
    assert_eq!(
        writes(&plan),
        vec![("/tmp/spm-rpm-test-extract/file.txt".to_string(), b"hello world".to_vec())]
    );
}

#[test]
fn rpm_test_decompress_cpio_directory() {
    let archive = build_cpio_archive(&[("mydir", b"", 0o040755)]);
    let plan = rpm_decompress_cpio(&archive, "/tmp/spm-test-cpio-dir").unwrap();
    assert_eq!(dirs(&plan), vec!["/tmp/spm-test-cpio-dir/mydir".to_string()]);
}

#[test]
fn test_decompress_cpio_nested_file() {
    let archive = build_cpio_archive(&[
        ("usr", b"", 0o040755),
        ("usr/bin", b"", 0o040755),
        ("usr/bin/hello", b"#!/bin/sh\necho hello", 0o100755),
    ]);
    let plan = rpm_decompress_cpio(&archive, "/tmp/spm-rpm-test-nested").unwrap();
    let made = dirs(&plan);
    assert!(made.contains(&"/tmp/spm-rpm-test-nested/usr".to_string()));
    assert!(made.contains(&"/tmp/spm-rpm-test-nested/usr/bin".to_string()));
    assert_eq!(
        writes(&plan),
        vec![("/tmp/spm-rpm-test-nested/usr/bin/hello".to_string(), b"#!/bin/sh\necho hello".to_vec())]
    );
}

#[test]
fn rpm_test_decompress_cpio_strips_leading_slash() {
    let archive = build_cpio_archive(&[("/etc/config.conf", b"key=value", 0o100644)]);
    let plan = rpm_decompress_cpio(&archive, "/tmp/spm-test-cpio-slash").unwrap();
    assert_eq!(
        writes(&plan),
        vec![("/tmp/spm-test-cpio-slash/etc/config.conf".to_string(), b"key=value".to_vec())]
    );
}

#[test]
fn rpm_test_decompress_cpio_070702_magic() {
    let data = b"\x00\x01\x02\x03";
    let mut archive = build_cpio_entry(b"070702", "test.bin", data, 0o100644);
    archive.extend(build_cpio_trailer());
    let plan = rpm_decompress_cpio(&archive, "/tmp/spm-test-cpio-702").unwrap();
    assert_eq!(writes(&plan), vec![("/tmp/spm-test-cpio-702/test.bin".to_string(), data.to_vec())]);
}

// --- further cases ---

#[test]
fn cpio_plan_refuses_parent_components() {
    let archive = build_cpio_archive(&[
        ("ok.txt", b"a", 0o100644),
        ("../evil", b"b", 0o100644),
        ("after.txt", b"c", 0o100644),
    ]);
    let plan = cpio_plan(&archive, "/x");
    assert_eq!(writes(&plan), vec![("/x/ok.txt".to_string(), b"a".to_vec())]);
    match plan.error {
        Some(SpmError::Other(m)) => assert_eq!(m, "Path traversal detected in package file: '/x/../evil'"),
        other => panic!("unexpected {:?}", other),
    }
}

#[test]
fn cpio_plan_skips_dot_and_empty_files() {
    let archive = build_cpio_archive(&[(".", b"", 0o040755), ("empty", b"", 0o100644), ("f", b"z", 0o100644)]);
    let plan = cpio_plan(&archive, "t");
    assert_eq!(plan.actions.len(), 1);
    assert_eq!(writes(&plan), vec![("t/f".to_string(), b"z".to_vec())]);
}

#[test]
fn cpio_plan_stops_at_trailer() {
    let mut archive = build_cpio_archive(&[("a", b"1", 0o100644)]);
    archive.extend(build_cpio_entry(b"070701", "b", b"2", 0o100644));
    let plan = cpio_plan(&archive, "/r");
    assert_eq!(writes(&plan), vec![("/r/a".to_string(), b"1".to_vec())]);
}

#[test]
fn rpm_magic_is_checked() {
    assert!(check_rpm_magic(&[0xed, 0xab, 0xee, 0xdb, 0]).is_ok());
    match check_rpm_magic(b"invalid") {
        Err(SpmError::InvalidFormat(m)) => assert_eq!(m, "Invalid .rpm file: bad magic"),
        other => panic!("unexpected {:?}", other),
    }
}

#[test]
fn big_endian_reads() {
    let d = [0x12, 0x34, 0x56, 0x78, 0xff, 0xff, 0xff, 0xfe];
    assert_eq!(read_be32(&d, 0), 0x12345678);
    assert_eq!(read_be_i32(&d, 4), -2);
}

fn index_start(nindex: u32, hsize: u32) -> Vec<u8> {
    let mut h = vec![0x8e, 0xad, 0xe8, 0x01, 0, 0, 0, 0];
    h.extend_from_slice(&nindex.to_be_bytes());
    h.extend_from_slice(&hsize.to_be_bytes());
    h
}

#[test]
fn index_sizes_round_up_to_eight() {
    assert_eq!(index_store_size(&index_start(2, 5)).unwrap(), 40);
    assert_eq!(index_store_size(&index_start(0, 8)).unwrap(), 8);
    match index_store_size(&index_start(70000, 1)) {
        Err(SpmError::InvalidFormat(m)) => assert_eq!(m, "RPM header too large: 70000 entries, 1 byte store"),
        other => panic!("unexpected {:?}", other),
    }
}

#[test]
fn index_header_offsets() {
    let mut d = vec![0u8; 4];
    d.extend(index_start(1, 3));
    assert_eq!(read_index_header(&d, 4).unwrap(), (20, 24));
    match read_index_header(&d, 5) {
        Err(SpmError::InvalidFormat(m)) => assert_eq!(m, "RPM data truncated at index header"),
        other => panic!("unexpected {:?}", other),
    }
}

#[test]
fn payload_follows_both_headers() {
    let mut d = vec![0u8; 96];
    d.extend(index_start(0, 3));
    d.extend([0u8; 8]);
    d.extend(index_start(0, 0));
    d.extend(b"PAYLOAD");
    assert_eq!(extract_payload(&d).unwrap(), b"PAYLOAD".to_vec());
}

fn header_with(entries: &[(i32, i32, i32, i32)], store: &[u8]) -> Vec<u8> {
    let mut h = index_start(entries.len() as u32, store.len() as u32);
    for (t, ty, off, count) in entries {
        h.extend_from_slice(&t.to_be_bytes());
        h.extend_from_slice(&ty.to_be_bytes());
        h.extend_from_slice(&off.to_be_bytes());
        h.extend_from_slice(&count.to_be_bytes());
    }
    h.extend_from_slice(store);
    h
}

#[test]
fn header_tags_give_the_package() {
    let mut store = Vec::new();
    store.extend(b"hello\0"); // 0: name
    store.extend(b"1.2\0"); // 6: version
    store.extend(b"3\0"); // 10: release
    store.extend(b"x86_64\0"); // 12: arch
    store.extend(b"rpmlib(Foo)\0libc.so.6\0()\0bash\0"); // 19: requires
    store.extend([0, 0, 0, 2]); // 49: epoch
    store.extend([0, 0, 4, 0]); // 53: size
    let h = header_with(
        &[
            (1000, 6, 0, 1),
            (1001, 6, 6, 1),
            (1002, 6, 10, 1),
            (1022, 6, 12, 1),
            (1049, 8, 19, 4),
            (1003, 2, 49, 1),
            (1009, 4, 53, 1),
        ],
        &store,
    );
    let p = package_from_header(&h, "/tmp/hello.rpm");
    assert_eq!(p.name, "hello");
    assert_eq!(p.version, "2:1.2-3");
    assert_eq!(p.architecture, "x86_64");
    assert_eq!(p.install_size, 1024);
    assert_eq!(p.format, PackageFormat::Rpm);
    assert_eq!(p.source_repo.as_deref(), Some("/tmp/hello.rpm"));
    let names: Vec<&str> = p.dependencies.iter().map(|d| d.name.as_str()).collect();
    assert_eq!(names, vec!["libc.so.6", "bash"]);
    assert_eq!(p.dependencies[0].source, DependencySource::Spm);
    assert_eq!(p.dependencies[0].format, Some(PackageFormat::Rpm));
}

#[test]
fn header_without_epoch_or_release() {
    let h = header_with(&[(1000, 6, 0, 1), (1001, 6, 2, 1), (1004, 6, 4, 1), (1005, 6, 7, 1)], b"n\0v\0ab\0\0");
    let p = package_from_header(&h, "f.rpm");
    assert_eq!(p.version, "v");
    assert_eq!(p.description, "ab");
}

#[test]
fn header_negative_epoch() {
    let h = header_with(&[(1001, 6, 0, 1), (1003, 2, 4, 1)], &[b'1', 0, 0, 0, 0xff, 0xff, 0xff, 0xff]);
    let p = package_from_header(&h, "f.rpm");
    assert_eq!(p.version, "-1:1");
}

#[test]
fn rpm_signature_is_located() {
    let mut d = vec![0xed, 0xab, 0xee, 0xdb];
    d.extend(vec![0u8; 92]);
    d.extend(index_start(1, 8));
    for x in [269i32, 7, 0, 4] {
        d.extend_from_slice(&x.to_be_bytes());
    }
    d.extend(b"SIGN....");
    d.extend(b"BODY");
    assert_eq!(rpm_signature_layout(&d), Some((128, 132, 136)));
    let mut no_body = d.clone();
    no_body.truncate(136);
    assert_eq!(rpm_signature_layout(&no_body), None);
    let mut bad = d.clone();
    bad[0] = 0;
    assert_eq!(rpm_signature_layout(&bad), None);
}

#[test]
fn rpm_header_scripts_by_tag() {
    let h = header_with(
        &[(1023, 8, 0, 1), (1024, 9, 5, 1), (1025, 6, 0, 1), (1026, 8, 10, 1)],
        b"echo\0post\0rm\0\0",
    );
    let s = rpm_scripts_from_header(&h);
    assert_eq!(s.preinst.as_deref(), Some("echo"));
    assert_eq!(s.postinst.as_deref(), Some("post"));
    assert_eq!(s.prerm, None);
    assert_eq!(s.postrm.as_deref(), Some("rm"));
}

#[test]
fn rpm_header_without_scripts() {
    let h = header_with(&[(1000, 6, 0, 1)], b"n\0\0\0\0\0\0");
    assert!(rpm_scripts_from_header(&h).is_empty());
}

#[test]
fn control_members_name_scripts() {
    assert_eq!(deb_script_member("./postinst"), Some(ScriptKind::PostInst));
    assert_eq!(deb_script_member("prerm"), Some(ScriptKind::PreRm));
    assert_eq!(deb_script_member("./control"), None);
    assert_eq!(deb_script_member("postinst.sh"), None);
    assert_eq!(sam_script_member("./preinst.sh"), Some(ScriptKind::PreInst));
    assert_eq!(sam_script_member("postrm"), Some(ScriptKind::PostRm));
    assert_eq!(sam_script_member("files.json"), None);
}

#[test]
fn setting_a_script_by_kind() {
    let mut s = Scripts::default();
    s.set(ScriptKind::PostRm, Some("x".to_string()));
    assert_eq!(s.postrm.as_deref(), Some("x"));
    assert!(s.preinst.is_none());
}

#[test]
fn script_failure_messages() {
    assert!(script_is_blank("  \n\t"));
    assert!(!script_is_blank(" a "));
    match script_failed("postinst", false, Some(3), "  boom \n") {
        SpmError::Other(m) => assert_eq!(m, "postinst script failed (exit code: 3): boom"),
        _ => panic!("wrong kind"),
    }
    match script_failed("prerm", true, None, "x") {
        SpmError::Other(m) => assert_eq!(m, "prerm script failed in sandbox (exit code: -1): x"),
        _ => panic!("wrong kind"),
    }
}
