use spm::package::install::InstalledDeps;
use spm::package::query::{deb_info_entry, installed_info_text, reverse_dependents, search_deb_text, sort_unique_by_name};
use spm::types::db::{InstallOrigin, InstallType, InstalledPackage};
use spm::types::package::{Package, PackageFormat};

#[test]
fn deb_cache_search() {
    let text = "Package: nginx\nVersion: 1\nDescription: web server\n\nPackage: Nginx-Extras\n\nPackage: curl\n\nPackage: libnginx-mod\n";
    let found = search_deb_text(text, "NGINX");
    let names: Vec<&str> = found.iter().map(|p| p.name.as_str()).collect();
    assert_eq!(names, vec!["nginx", "Nginx-Extras", "libnginx-mod"]);
    assert!(found.iter().all(|p| p.format == PackageFormat::Deb && p.source_repo.as_deref() == Some("apt")));
    assert!(found.iter().all(|p| p.version.is_empty()));
}

fn named(n: &str, v: &str) -> Package {
    let mut p = Package::empty(PackageFormat::Sam, None);
    p.name = n.into();
    p.version = v.into();
    p
}

#[test]
fn search_results_sorted_and_unique() {
    let pkgs = vec![named("zsh", "1"), named("bash", "1"), named("zsh", "2"), named("Bash", "3"), named("bash", "4")];
    let r = sort_unique_by_name(&pkgs);
    let got: Vec<(&str, &str)> = r.iter().map(|p| (p.name.as_str(), p.version.as_str())).collect();
    assert_eq!(got, vec![("Bash", "3"), ("bash", "1"), ("zsh", "1")]);
}

#[test]
fn installed_info() {
    let p = InstalledPackage {
        name: "nginx".into(),
        version: "1.2".into(),
        format: PackageFormat::Deb,
        install_type: InstallType::Native,
        manifest: None,
        install_date: "2026-01-01".into(),
        source_repo: None,
        store_hash: None,
        origin: InstallOrigin::Spm,
    };
    assert_eq!(installed_info_text(&p), "Package: nginx\nVersion: 1.2\nFormat: Deb\nType: Native\nInstalled: 2026-01-01");
}

#[test]
fn deb_info_paragraph() {
    let text = "Package: curl\nVersion: 8\n\nPackage: NGINX\nVersion: 1.2\nDepends: libc6\n\nPackage: zz\n";
    assert_eq!(deb_info_entry(text, "nginx").as_deref(), Some("Package: NGINX\nVersion: 1.2\nDepends: libc6\n"));
    assert_eq!(deb_info_entry(text, "zz").as_deref(), Some("Package: zz\n"));
    assert_eq!(deb_info_entry(text, "none"), None);
}

#[test]
fn reverse_deps_sorted() {
    let pkgs = vec![
        InstalledDeps { name: "web".into(), deps: vec!["libssl".into()] },
        InstalledDeps { name: "app".into(), deps: vec!["libssl".into(), "libc".into()] },
        InstalledDeps { name: "tool".into(), deps: vec!["libc".into()] },
    ];
    assert_eq!(reverse_dependents(&pkgs, "libssl"), vec!["app".to_string(), "web".to_string()]);
    assert!(reverse_dependents(&pkgs, "none").is_empty());
}
