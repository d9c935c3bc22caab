use spm::package::fetch::debian::{debian_arch, parse_deb822};
use spm::package::fetch::gs::{extract_attr, parse_primary_for_package, parse_repomd};
use spm::package::fetch::{collect_conflicting_packages, parse_deb822_entry, PackageConflict};

#[test]
fn test_parse_deb822_entry_simple() {
    let text = "Package: nginx\nVersion: 1.27.0\nArchitecture: amd64\n\n";
    let result = parse_deb822_entry(text, "nginx");
    assert!(result.is_some());
    let map = result.unwrap();
    assert_eq!(map.get("Package").unwrap(), "nginx");
    assert_eq!(map.get("Version").unwrap(), "1.27.0");
    assert_eq!(map.get("Architecture").unwrap(), "amd64");
}

#[test]
fn test_parse_deb822_entry_not_found() {
    let text = "Package: nginx\nVersion: 1.27.0\n\n";
    let result = parse_deb822_entry(text, "apache");
    assert!(result.is_none());
}

#[test]
fn test_parse_deb822_entry_multi_entry() {
    let text = "Package: apache\nVersion: 2.0\n\nPackage: nginx\nVersion: 1.27.0\nArchitecture: amd64\n\n";
    let result = parse_deb822_entry(text, "nginx");
    assert!(result.is_some());
    let map = result.unwrap();
    assert_eq!(map.get("Version").unwrap(), "1.27.0");
}

#[test]
fn test_parse_deb822_entry_multiline_value() {
    let text = "Package: nginx\nDescription: A high-performance web\n server and reverse proxy\n\n";
    let result = parse_deb822_entry(text, "nginx");
    assert!(result.is_some());
    let map = result.unwrap();
    let desc = map.get("Description").unwrap();
    assert!(desc.contains("web server"));
}

#[test]
fn test_parse_deb822_entry_case_insensitive() {
    let text = "Package: Nginx\nVersion: 1.0\n\n";
    let result = parse_deb822_entry(text, "nginx");
    assert!(result.is_some());
}

#[test]
fn test_parse_deb822_entry_empty() {
    let result = parse_deb822_entry("", "pkg");
    assert!(result.is_none());
}

#[test]
fn test_parse_deb822_entry_no_trailing_newline() {
    let text = "Package: nginx\nVersion: 1.0";
    let result = parse_deb822_entry(text, "nginx");
    assert!(result.is_some());
    assert_eq!(result.unwrap().get("Version").unwrap(), "1.0");
}

#[test]
fn test_collect_conflicting_packages_no_replace() {
    let conflicts = [
        PackageConflict { owner: "old-pkg".into() },
        PackageConflict { owner: "other-pkg".into() },
    ];
    let result = collect_conflicting_packages(&conflicts, false, "new-pkg");
    assert_eq!(result.len(), 2);
    assert!(result.contains(&"old-pkg".to_string()));
    assert!(result.contains(&"other-pkg".to_string()));
}

#[test]
fn test_collect_conflicting_packages_with_replace_skips_self() {
    let conflicts = [PackageConflict { owner: "self-pkg".into() }];
    let result = collect_conflicting_packages(&conflicts, true, "self-pkg");
    assert!(result.is_empty(), "replace=true should skip self-conflict");
}

#[test]
fn test_collect_conflicting_packages_with_replace_includes_others() {
    let conflicts = [PackageConflict { owner: "other-pkg".into() }];
    let result = collect_conflicting_packages(&conflicts, true, "new-pkg");
    assert_eq!(result.len(), 1, "replace=true should still include other packages");
    assert!(result.contains(&"other-pkg".to_string()));
}

#[test]
fn test_collect_conflicting_packages_self_conflict_without_replace() {
    let conflicts = [PackageConflict { owner: "self-pkg".into() }];
    let result = collect_conflicting_packages(&conflicts, false, "self-pkg");
    assert_eq!(result.len(), 1, "should include self when replace=false");
}

#[test]
fn test_collect_conflicting_packages_dedup() {
    let conflicts = [
        PackageConflict { owner: "pkg-a".into() },
        PackageConflict { owner: "pkg-a".into() },
    ];
    let result = collect_conflicting_packages(&conflicts, true, "new-pkg");
    assert_eq!(result.len(), 1, "should deduplicate");
}

#[test]
fn test_parse_repomd_basic() {
    let xml = r#"<?xml version="1.0" encoding="UTF-8"?>
<repomd>
  <data type="primary">
    <location href="repodata/abc-primary.xml.gz"/>
    <checksum type="sha256">deadbeef</checksum>
  </data>
</repomd>"#;
    let (loc, cs, cs_type) = parse_repomd(xml).unwrap();
    assert_eq!(loc, "repodata/abc-primary.xml.gz");
    assert_eq!(cs, "deadbeef");
    assert_eq!(cs_type, "sha256");
}

#[test]
fn test_parse_repomd_no_primary() {
    let xml = r#"<repomd>
  <data type="other">
    <location href="repodata/other.xml.gz"/>
  </data>
</repomd>"#;
    assert!(parse_repomd(xml).is_err());
}

#[test]
fn test_parse_primary_find_package() {
    let xml = r#"<metadata>
  <package type="rpm">
    <name>figlet</name>
    <version epoch="0" ver="2.2.5" rel="1.fc40"/>
    <arch>x86_64</arch>
    <location href="Packages/f/figlet-2.2.5-1.fc40.x86_64.rpm"/>
    <checksum type="sha256">abc123</checksum>
  </package>
  <package type="rpm">
    <name>hello</name>
    <version epoch="0" ver="2.12.1" rel="1.fc40"/>
    <arch>x86_64</arch>
    <location href="Packages/h/hello-2.12.1-1.fc40.x86_64.rpm"/>
    <checksum type="sha256">def456</checksum>
  </package>
</metadata>"#;
    let result = parse_primary_for_package(xml, "figlet");
    assert!(result.is_ok());
    let info = result.unwrap();
    assert_eq!(info.location, "Packages/f/figlet-2.2.5-1.fc40.x86_64.rpm");
    assert_eq!(info.checksum, "abc123");
    assert_eq!(info.version, "2.2.5");

    let not_found = parse_primary_for_package(xml, "nonexistent");
    assert!(not_found.is_err());
}

#[test]
fn test_extract_attr() {
    assert_eq!(extract_attr(r#"<data type="primary">"#, "type"), "primary");
    assert_eq!(extract_attr(r#"<location href="foo/bar.xml"/>"#, "href"), "foo/bar.xml");
    assert_eq!(extract_attr(r#"<checksum type="sha256">"#, "type"), "sha256");
}

#[test]
fn extract_attr_missing_or_unterminated_is_empty() {
    assert_eq!(extract_attr("<a b=\"x\">", "c"), "");
    assert_eq!(extract_attr("<a b=\"x", "b"), "");
}

#[test]
fn repomd_checksum_split_over_lines() {
    let xml = "<data type=\"primary\">\n<checksum type=\"sha1\">\nab\ncd\n</checksum>\n<location href=\"p.xml\"/>\n</data>\n";
    let (loc, cs, t) = parse_repomd(xml).unwrap();
    assert_eq!(loc, "p.xml");
    assert_eq!(cs, "abcd");
    assert_eq!(t, "sha1");
}

#[test]
fn packages_file_paragraphs() {
    let text = "Package: a\nVersion: 1\n\n\nPackage: b\nDescription: x\n y\n";
    let entries = parse_deb822(text);
    assert_eq!(entries.len(), 2);
    assert_eq!(entries[0].get("Package").unwrap(), "a");
    assert_eq!(entries[1].get("Description").unwrap(), "x\ny");
    assert!(entries[1].get("Version").is_none());
}

#[test]
fn debian_arch_names() {
    assert_eq!(debian_arch("x86_64"), "amd64");
    assert_eq!(debian_arch("aarch64"), "arm64");
    assert_eq!(debian_arch("arm"), "armhf");
    assert_eq!(debian_arch("riscv64"), "riscv64");
}
