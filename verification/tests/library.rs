use std::io::Write;

use spm::error::SpmError;
use spm::package::deb::deb_control_package;
use spm::package::fetch::debian::{decompress_packages, packages_url, select_debian_package};
use spm::package::fetch::gs::{check_primary_version, gz_text, primary_package, primary_url, rpm_location_url, PrimaryInfo};
use spm::package::resolver::cache::{is_expired, DependencyCache};
use spm::util::path::file_name;
use spm::package::solver::{solution_to_packages, SonameIndex, SonameProvider};
use spm::package::install::upgrade::rpm_provider_version;
use spm::package::store::SymlinkRecord;
use spm::package::transaction::RollbackGuard;
use spm::sandbox::desktop::first_existing;
use spm::store::deduplication::{Provider, SharedLibEntry, SharedLibStore};
use spm::types::config::RepoSource;
use spm::types::package::{PackageFormat, PackageId};
use spm::types::version::Version;
use spm::util::backend::{pick_backend, MISSING_BACKEND};

fn gz(data: &[u8]) -> Vec<u8> {
    let mut e = flate2::write::GzEncoder::new(Vec::new(), flate2::Compression::default());
    e.write_all(data).unwrap();
    e.finish().unwrap()
}

fn xz(data: &[u8]) -> Vec<u8> {
    let mut e = xz2::write::XzEncoder::new(Vec::new(), 6);
    e.write_all(data).unwrap();
    e.finish().unwrap()
}

fn tar_of(files: &[(&str, &[u8])]) -> Vec<u8> {
    let mut b = tar::Builder::new(Vec::new());
    for (name, data) in files {
        let mut h = tar::Header::new_gnu();
        h.set_size(data.len() as u64);
        h.set_mode(0o644);
        h.set_cksum();
        b.append_data(&mut h, name, *data).unwrap();
    }
    b.into_inner().unwrap()
}

fn ar_of(members: &[(&str, &[u8])]) -> Vec<u8> {
    let mut out = b"!<arch>\n".to_vec();
    for (name, data) in members {
        let header = format!("{:<16}{:<12}{:<6}{:<6}{:<8}{:<10}`\n", name, 0, 0, 0, 100644, data.len());
        out.extend_from_slice(header.as_bytes());
        out.extend_from_slice(data);
        if data.len() % 2 == 1 {
            out.push(b'\n');
        }
    }
    out
}

const CONTROL: &str = "Package: hello\nVersion: 2.10-3\nArchitecture: amd64\nDescription: greeting\n";

#[test]
fn pick_backend_prefers_store_then_bundled() {
    assert_eq!(pick_backend("/s/b", true, "/u/b", true), "/s/b");
    assert_eq!(pick_backend("/s/b", false, "/u/b", true), "/u/b");
    assert_eq!(pick_backend("/s/b", false, "/u/b", false), MISSING_BACKEND);
}

#[test]
fn first_existing_takes_first_flagged() {
    let cands = vec!["a".to_string(), "b".to_string(), "c".to_string()];
    assert_eq!(first_existing(&cands, &vec![false, true, true]), Some("b".to_string()));
    assert_eq!(first_existing(&cands, &vec![false, false, false]), None);
}

#[test]
fn decompress_packages_reads_gz_xz_and_plain() {
    let text = "Package: hello\nVersion: 1.0\n";
    assert_eq!(decompress_packages(&gz(text.as_bytes())).unwrap(), text);
    assert_eq!(decompress_packages(&xz(text.as_bytes())).unwrap(), text);
    assert_eq!(decompress_packages(text.as_bytes()).unwrap(), text);
}

#[test]
fn decompress_packages_errors() {
    match decompress_packages(&[0x1f, 0x8b, 0, 0]) {
        Err(SpmError::Compression(m)) => assert!(m.starts_with("Failed to decompress gz: ")),
        other => panic!("unexpected {:?}", other),
    }
    match decompress_packages(&[0xff, 0xfe, 0x00]) {
        Err(SpmError::InvalidFormat(m)) => assert!(m.starts_with("Invalid UTF-8 in Packages file: ")),
        other => panic!("unexpected {:?}", other),
    }
}

#[test]
fn select_debian_package_finds_file_and_checksum() {
    let text = "Package: other\nVersion: 1\nFilename: pool/o/other.deb\n\n\
Package: Hello\nVersion: 2.10-3\nFilename: pool/h/hello_2.10-3_amd64.deb\nSHA256: abcdef 1234 pool/h/hello_2.10-3_amd64.deb\n";
    let (file, sha) = select_debian_package(text, "hello", None, "http://deb", "bookworm", "main").unwrap();
    assert_eq!(file, "pool/h/hello_2.10-3_amd64.deb");
    assert_eq!(sha, Some("abcdef".to_string()));
    let (file2, sha2) = select_debian_package(text, "hello", Some("2.10-3"), "http://deb", "bookworm", "main").unwrap();
    assert_eq!(file2, "pool/h/hello_2.10-3_amd64.deb");
    assert_eq!(sha2, Some("abcdef".to_string()));
    let bare = "Package: hello\nFilename: pool/h/hello.deb\nSHA256: abcdef\n";
    let (file3, sha3) = select_debian_package(bare, "hello", None, "http://deb", "bookworm", "main").unwrap();
    assert_eq!(file3, "pool/h/hello.deb");
    assert_eq!(sha3, None);
}

#[test]
fn select_debian_package_errors() {
    let text = "Package: hello\nVersion: 2.10-3\n";
    match select_debian_package(text, "hello", Some("9"), "http://deb", "bookworm", "main") {
        Err(SpmError::PackageNotFound(m)) => {
            assert_eq!(m, "Package 'hello' not found in http://deb/dists/bookworm main")
        },
        other => panic!("unexpected {:?}", other),
    }
    match select_debian_package(text, "hello", None, "http://deb", "bookworm", "main") {
        Err(SpmError::InvalidFormat(m)) => assert_eq!(m, "Package entry for 'hello' has no Filename field"),
        other => panic!("unexpected {:?}", other),
    }
}

#[test]
fn gz_text_decodes_and_limits() {
    assert_eq!(gz_text(&gz(b"hello"), "http://x/a.gz").unwrap(), "hello");
    match gz_text(b"not gzip", "http://x/a.gz") {
        Err(SpmError::Compression(m)) => assert!(m.starts_with("Failed to decompress http://x/a.gz: ")),
        other => panic!("unexpected {:?}", other),
    }
}

#[test]
fn primary_package_reads_gzipped_primary() {
    let xml = r#"<metadata>
  <package type="rpm">
    <name>figlet</name>
    <version epoch="0" ver="2.2.5" rel="1.fc40"/>
    <arch>x86_64</arch>
    <location href="Packages/f/figlet-2.2.5-1.fc40.x86_64.rpm"/>
    <checksum type="sha256">abc123</checksum>
  </package>
</metadata>"#;
    let info = primary_package(&gz(xml.as_bytes()), "figlet").unwrap();
    assert_eq!(info.location, "Packages/f/figlet-2.2.5-1.fc40.x86_64.rpm");
    assert_eq!(info.checksum, "abc123");
    assert_eq!(info.version, "2.2.5");
    assert!(matches!(primary_package(&gz(xml.as_bytes()), "nope"), Err(SpmError::PackageNotFound(_))));
    match primary_package(b"junk", "figlet") {
        Err(SpmError::Compression(m)) => assert!(m.starts_with("Failed to decompress primary.xml: ")),
        other => panic!("unexpected {:?}", other),
    }
}

#[test]
fn check_primary_version_and_location() {
    let info = PrimaryInfo {
        location: "Packages/f/figlet.rpm".to_string(),
        checksum: "abc".to_string(),
        checksum_type: "sha256".to_string(),
        version: "2.2.5".to_string(),
        arch: "x86_64".to_string(),
    };
    assert!(check_primary_version("figlet", None, &info).is_ok());
    assert!(check_primary_version("figlet", Some("2.2.5"), &info).is_ok());
    match check_primary_version("figlet", Some("3.0"), &info) {
        Err(SpmError::PackageNotFound(m)) => {
            assert_eq!(m, "Package 'figlet' version 3.0 not found in repo (found version 2.2.5)")
        },
        other => panic!("unexpected {:?}", other),
    }
    assert_eq!(rpm_location_url("http://r", "Packages/a.rpm"), "http://r/Packages/a.rpm");
    assert_eq!(rpm_location_url("http://r", "/Packages/a.rpm"), "http://r/Packages/a.rpm");
}

fn provider(pkg: &str, version: &str, priority: u32) -> SonameProvider {
    SonameProvider { pkg: pkg.to_string(), version: version.to_string(), priority, source: RepoSource::Deb }
}

fn ver(v: &str, r: &str) -> Version {
    Version { epoch: 0, version: v.to_string(), release: r.to_string() }
}

#[test]
fn solution_to_packages_maps_capabilities_and_dedups() {
    let index = SonameIndex {
        providers: vec![(
            "libssl.so.3".to_string(),
            vec![provider("libssl-b", "3.1", 20), provider("libssl3", "3.0.2", 10), provider("libssl-c", "3.2", 10)],
        )],
        requires: vec![],
    };
    let solution = vec![
        ("__or_0".to_string(), ver("1", "")),
        ("curl".to_string(), ver("8.5.0", "1")),
        ("libssl.so.3".to_string(), ver("0", "")),
        ("rpmlib(PayloadIsZstd)".to_string(), ver("1", "")),
        ("libssl3".to_string(), ver("9", "")),
        ("curl".to_string(), ver("9", "")),
        ("/usr/bin/sh".to_string(), ver("1", "")),
    ];
    let r = solution_to_packages(&solution, &index, PackageFormat::Deb);
    assert_eq!(
        r,
        vec![
            PackageId { name: "curl".to_string(), format: PackageFormat::Deb, version: "8.5.0-1".to_string() },
            PackageId { name: "libssl3".to_string(), format: PackageFormat::Deb, version: "3.0.2".to_string() },
        ]
    );
}

#[test]
fn deb_control_package_reads_zstd_control() {
    let control_tar = tar_of(&[("./md5sums", b"x"), ("./control", CONTROL.as_bytes())]);
    let control_zst = zstd::encode_all(&control_tar[..], 3).unwrap();
    let deb = ar_of(&[("debian-binary", b"2.0\n"), ("control.tar.zst", &control_zst), ("data.tar.zst", b"")]);
    let pkg = deb_control_package(&deb, "/tmp/hello.deb").unwrap();
    assert_eq!(pkg.name, "hello");
    assert_eq!(pkg.version, "2.10-3");
    assert_eq!(pkg.architecture, "amd64");
    assert_eq!(pkg.source_repo, Some("/tmp/hello.deb".to_string()));
}

#[test]
fn deb_control_package_errors() {
    match deb_control_package(b"!<ar", "x.deb") {
        Err(SpmError::InvalidFormat(m)) => assert_eq!(m, "Failed to read ar magic: failed to fill whole buffer"),
        other => panic!("unexpected {:?}", other),
    }
    match deb_control_package(b"not an ar archive", "x.deb") {
        Err(SpmError::InvalidFormat(m)) => assert_eq!(m, "Invalid .deb file: not an ar archive"),
        other => panic!("unexpected {:?}", other),
    }
    let no_control = ar_of(&[("debian-binary", b"2.0\n")]);
    match deb_control_package(&no_control, "x.deb") {
        Err(SpmError::InvalidFormat(m)) => assert_eq!(m, "No control file found in .deb"),
        other => panic!("unexpected {:?}", other),
    }
    let mut short = ar_of(&[("debian-binary", b"2.0\n")]);
    short.truncate(short.len() - 2);
    match deb_control_package(&short, "x.deb") {
        Err(SpmError::Other(m)) => assert_eq!(m, "Failed to read ar data: failed to fill whole buffer"),
        other => panic!("unexpected {:?}", other),
    }
    let gz_control = ar_of(&[("control.tar.gz", &gz(&tar_of(&[("./control", CONTROL.as_bytes())])))]);
    assert!(matches!(deb_control_package(&gz_control, "x.deb"), Err(SpmError::Io(_))));
}

fn lib(soname: &str, hash: &str) -> SharedLibEntry {
    SharedLibEntry::new(soname.to_string(), hash.to_string())
}

#[test]
fn add_provider_counts_a_reference() {
    let mut e = lib("libz.so.1", "h1");
    e.add_provider(Provider {
        origin: PackageFormat::Deb,
        package_name: "zlib1g".to_string(),
        package_hash: "p".to_string(),
        priority: 1,
    });
    assert_eq!(e.providers.len(), 1);
    assert_eq!(e.ref_count(), 1);
}

#[test]
fn shared_lib_store_insert_get_remove() {
    let mut s = SharedLibStore::new("/store/lib".to_string());
    s.insert(lib("libz.so.1", "h1"));
    s.insert(lib("liba.so.2", "h2"));
    assert_eq!(s.get("libz.so.1").unwrap().hash, "h1");
    assert_eq!(s.get_by_hash("h2").unwrap().soname, "liba.so.2");
    let names: Vec<String> = s.iter().iter().map(|e| e.soname.clone()).collect();
    assert_eq!(names, vec!["liba.so.2".to_string(), "libz.so.1".to_string()]);
    s.insert(lib("libz.so.1", "h3"));
    assert!(s.get_by_hash("h1").is_none());
    assert_eq!(s.get_by_hash("h3").unwrap().soname, "libz.so.1");
    assert_eq!(s.iter().len(), 2);
    let removed = s.remove("libz.so.1").unwrap();
    assert_eq!(removed.hash, "h3");
    assert!(s.get("libz.so.1").is_none());
    assert!(s.get_by_hash("h3").is_none());
    assert!(s.remove("libz.so.1").is_none());
    assert_eq!(s.path_for("libz.so.1", "h1"), "/store/lib/libz.so.1/h1");
}

#[test]
fn dependency_cache_len_and_epoch() {
    let mut c = DependencyCache::new();
    let root = PackageId::new("curl", PackageFormat::Deb);
    c.set(&root, 0, vec![PackageId::new("libc6", PackageFormat::Deb)]);
    assert_eq!(c.len(), 1);
    c.set(&root, 0, vec![]);
    assert_eq!(c.len(), 1);
    c.set(&root, 1, vec![]);
    assert_eq!(c.len(), 2);
    assert_eq!(c.current_epoch(), 0);
    c.invalidate_all();
    c.bump_epoch();
    assert_eq!(c.current_epoch(), 2);
    assert!(c.is_empty());
}

#[test]
fn repository_urls() {
    assert_eq!(
        packages_url("http://deb.debian.org/debian", "bookworm", "main", "amd64"),
        "http://deb.debian.org/debian/dists/bookworm/main/binary-amd64/Packages.gz"
    );
    assert_eq!(primary_url("http://r", "/repodata/p.xml.gz"), "http://r/repodata/p.xml.gz");
    assert_eq!(primary_url("http://r", "repodata/p.xml.gz"), "http://r/repodata/p.xml.gz");
    assert_eq!(primary_url("http://r", "p.xml.gz"), "http://r/repodata/p.xml.gz");
}

#[test]
fn test_rollback_guard_disarm() {
    let mut guard = RollbackGuard::new();
    guard.disarm();
    assert!(!guard.is_armed());
    assert!(guard.links_to_undo().is_empty());
    assert!(guard.store_to_undo().is_none());
}

#[test]
fn rollback_guard_lists_what_to_undo() {
    let mut guard = RollbackGuard::new();
    guard.set_store_hash("abcdef".to_string());
    guard.set_store_origin("deb".to_string());
    guard.set_symlinks(vec![SymlinkRecord { fhs_path: "/usr/bin/hello".to_string(), store_path: "/s/h".to_string() }]);
    assert_eq!(guard.links_to_undo(), vec!["/usr/bin/hello".to_string()]);
    assert_eq!(guard.store_to_undo(), Some(("abcdef".to_string(), "deb".to_string())));
}

#[test]
fn cache_expiry_follows_the_time_to_live() {
    assert!(!is_expired(300, 0, 300));
    assert!(is_expired(300, 1, 300));
    assert!(is_expired(301, 0, 300));
    assert!(!is_expired(0, 999_999_999, 1));
    let mut c = DependencyCache::with_ttl(10);
    let root = PackageId::new("curl", PackageFormat::Deb);
    assert!(c.lookup(&root, 0, 0, 0).is_none());
    c.set(&root, 0, vec![PackageId::new("libc6", PackageFormat::Deb)]);
    assert_eq!(c.lookup(&root, 0, 10, 0).unwrap().len(), 1);
    assert!(c.lookup(&root, 0, 10, 5).is_none());
    assert!(c.lookup(&root, 1, 0, 0).is_none());
    assert_eq!(c.get(&root, 0).unwrap().len(), 1);
}

#[test]
fn path_file_name_cases() {
    assert_eq!(file_name("/usr/lib/libz.so.1"), Some("libz.so.1".to_string()));
    assert_eq!(file_name("foo.txt/."), Some("foo.txt".to_string()));
    assert_eq!(file_name("a//b/"), Some("b".to_string()));
    assert_eq!(file_name("/"), None);
    assert_eq!(file_name("."), None);
    assert_eq!(file_name("a/.."), None);
    assert_eq!(file_name(""), None);
}

#[test]
fn rpm_provider_version_takes_first_rpm_provider() {
    let mut deb = provider("zlib1g", "1:1.2.13", 1);
    deb.source = RepoSource::Deb;
    let mut rpm_a = provider("zlib", "1.2.13-5", 2);
    rpm_a.source = RepoSource::Rpm;
    let mut rpm_b = provider("zlib", "1.3", 1);
    rpm_b.source = RepoSource::Rpm;
    let index = SonameIndex { providers: vec![("zlib".to_string(), vec![deb, rpm_a, rpm_b])], requires: vec![] };
    assert_eq!(rpm_provider_version(&index, "zlib"), Some("1.2.13-5".to_string()));
    assert_eq!(rpm_provider_version(&index, "bash"), None);
}
