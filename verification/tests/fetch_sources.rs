use spm::error::SpmError;
use spm::package::fetch::{
    apt_cache_name, apt_download_url, apt_lookup, apt_show_version, check_sha256, deb_file_name, dnf_baseurl,
    fallback_manifest, fallback_version, merge_sam_fields, parse_repoquery_info, rpm_file_name,
};
use spm::types::package::Manifest;

#[test]
fn apt_cache_names() {
    assert_eq!(apt_cache_name(Some("bookworm"), "main", "amd64"), "Packages-bookworm-main-amd64");
    assert_eq!(apt_cache_name(None, "contrib", "arm64"), "Packages-unknown-contrib-arm64");
}

#[test]
fn apt_lookup_finds_version_file_and_checksum() {
    let main = "Package: curl\nVersion: 8.5\nFilename: pool/main/c/curl_8.5_amd64.deb\nSHA256:\n aaa 10 pool/other.deb\n bbb 20 pool/main/c/curl_8.5_amd64.deb\n\n";
    let texts = vec![None, Some(main.to_string())];
    let (v, f, sha) = apt_lookup(&texts, "curl");
    assert_eq!(v, "8.5");
    assert_eq!(f, "pool/main/c/curl_8.5_amd64.deb");
    assert_eq!(sha, None);
}

#[test]
fn apt_lookup_sha256_on_one_line() {
    let main = "Package: curl\nVersion: 8.5\nFilename: pool/c.deb\nSHA256: abc123 42 pool/c.deb\n";
    let (v, f, sha) = apt_lookup(&vec![Some(main.to_string())], "curl");
    assert_eq!((v.as_str(), f.as_str()), ("8.5", "pool/c.deb"));
    assert_eq!(sha.as_deref(), Some("abc123"));
}

#[test]
fn apt_lookup_stops_at_first_complete_component() {
    let a = "Package: curl\nVersion: 1\nFilename: pool/a.deb\n";
    let b = "Package: curl\nVersion: 2\nFilename: pool/b.deb\n";
    let (v, f, _) = apt_lookup(&vec![Some(a.to_string()), Some(b.to_string())], "curl");
    assert_eq!((v.as_str(), f.as_str()), ("1", "pool/a.deb"));
}

#[test]
fn apt_lookup_missing() {
    let (v, f, sha) = apt_lookup(&vec![Some("Package: other\nVersion: 1\n".to_string())], "curl");
    assert!(v.is_empty() && f.is_empty() && sha.is_none());
}

#[test]
fn apt_download_urls() {
    let mirrors = Some(vec!["http://deb.example.org/debian//".to_string()]);
    assert_eq!(
        apt_download_url("curl", "deb", &mirrors, "8.5", "pool/c.deb").unwrap(),
        "http://deb.example.org/debian/pool/c.deb"
    );
    match apt_download_url("curl", "deb", &mirrors, "", "pool/c.deb") {
        Err(SpmError::PackageNotFound(m)) => {
            assert_eq!(m, "Package 'curl' not found in cached apt repository 'deb'. Try 'spm update' first.")
        },
        other => panic!("unexpected {:?}", other),
    }
    match apt_download_url("curl", "deb", &None, "8.5", "pool/c.deb") {
        Err(SpmError::Config(m)) => assert_eq!(m, "No mirrors configured for apt repo 'deb'"),
        other => panic!("unexpected {:?}", other),
    }
}

#[test]
fn sha256_checks() {
    assert!(check_sha256("curl", &None, "x").is_ok());
    assert!(check_sha256("curl", &Some("ab".into()), "ab").is_ok());
    match check_sha256("curl", &Some("ab".into()), "cd") {
        Err(SpmError::Other(m)) => assert_eq!(m, "SHA256 mismatch for 'curl': expected ab, got cd"),
        other => panic!("unexpected {:?}", other),
    }
}

#[test]
fn deb_file_names() {
    assert_eq!(deb_file_name("pool/main/c/curl_8.5_amd64.deb", "curl"), "curl_8.5_amd64.deb");
    assert_eq!(deb_file_name("pool/..", "curl"), "curl");
}

#[test]
fn apt_show_versions() {
    let text = "Package: curl\nVersion: 8.5 \nArchitecture: amd64\n\nPackage: curl\nVersion: 8.6\n";
    assert_eq!(apt_show_version(text), "8.6");
    assert_eq!(apt_show_version("Package: x\n"), "");
}

#[test]
fn repoquery_info() {
    let text = "Name         : bash\nVersion      : 5.2.26\nRelease      : 3.fc40\nArchitecture : x86_64\n";
    let (v, a) = parse_repoquery_info(text);
    assert_eq!(v, "5.2.26");
    assert_eq!(a, "x86_64");
    assert_eq!(rpm_file_name("bash", &v, &a), "bash-5.2.26.x86_64.rpm");
}

#[test]
fn dnf_baseurls() {
    let repo = "[fedora]\nname=Fedora\n  baseurl = x\nbaseurl=ftp://nope\n baseurl= \"https://dl.example.org/f40/\" \n";
    assert_eq!(dnf_baseurl(repo).as_deref(), Some("https://dl.example.org/f40/"));
    assert_eq!(dnf_baseurl("[x]\nmetalink=http://m\n"), None);
}

#[test]
fn fallback_manifests() {
    assert_eq!(fallback_version(None), "unknown");
    assert_eq!(fallback_version(Some("1.0".into())), "1.0");
    let m = fallback_manifest("curl", "8.5", "deb", "curl_8.5_amd64.deb");
    assert_eq!(m.name, "curl");
    assert_eq!(m.format_version, 1);
    let s = m.source.unwrap();
    assert_eq!(s.original_format, "deb");
    assert_eq!(s.original_package, "curl_8.5_amd64.deb");
    assert_eq!(s.repo, "cross-format-fallback");
}

#[test]
fn sam_fields_carry_over() {
    let mut built = Manifest::named("p".into(), "1".into());
    built.format_version = 1;
    built.install_size = 99;
    let plain = Manifest::named("p".into(), "0".into());
    let m = merge_sam_fields(built.clone(), plain);
    assert_eq!(m.install_size, 99);
    assert_eq!(m.format_version, 1);

    let mut sam = Manifest::named("p".into(), "0".into());
    sam.systemd_units = vec!["p.service".into()];
    sam.format_version = 2;
    let m = merge_sam_fields(built, sam);
    assert_eq!(m.systemd_units, vec!["p.service".to_string()]);
    assert_eq!(m.format_version, 2);
    assert_eq!(m.version, "1");
    assert_eq!(m.install_size, 99);
}
