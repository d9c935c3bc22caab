use spm::util::process::{deleted_mappings, file_list_has};
use spm::package::hooks::{remove_sam_v2_hooks, run_install_hooks, run_sam_v2_hooks};
use spm::package::query::match_native_packages;
use spm::package::scripts::Scripts;
use spm::package::store::{sanitize_relative, store_package_dir, store_package_dir_for_origin, is_library_file, origin_from_format};
use spm::sandbox::desktop::{strip_exec_path, wrapper_name};
use spm::types::config::{RepoIndex, RepoIndexRecord};
use spm::types::package::{Manifest, PackageFormat, SysuserEntry, SysuserType, TmpfileEntry};
use spm::util::backend::resolve;
use spm::util::process::truncate;

fn empty() -> Vec<String> {
    Vec::new()
}

#[test]
fn test_run_install_hooks_empty() {
    run_install_hooks(&empty());
}

#[test]
fn test_run_install_hooks_with_so() {
    let files = vec!["/usr/lib/libfoo.so".into()];
    run_install_hooks(&files);
}

#[test]
fn test_run_install_hooks_with_systemd() {
    let files = vec!["/usr/lib/systemd/system/foo.service".into()];
    run_install_hooks(&files);
}

#[test]
fn test_run_install_hooks_with_desktop() {
    let files = vec!["/usr/share/applications/foo.desktop".into()];
    run_install_hooks(&files);
}

#[test]
fn test_run_install_hooks_with_man() {
    let files = vec!["/usr/share/man/man1/foo.1".into()];
    run_install_hooks(&files);
}

#[test]
fn test_run_install_hooks_all_triggers() {
    let files = vec![
        "/usr/lib/libfoo.so".into(),
        "/usr/lib/systemd/system/foo.service".into(),
        "/usr/share/applications/foo.desktop".into(),
        "/usr/share/man/man1/foo.1".into(),
    ];
    run_install_hooks(&files);
}

#[test]
fn install_hooks_chosen() {
    let h = run_install_hooks(&empty());
    assert!(!h.ldconfig && !h.daemon_reload && !h.desktop_database && !h.mandb);
    let h = run_install_hooks(&vec!["/opt/x/libfoo.so".to_string(), "/usr/share/man/man1/foo.1".to_string()]);
    assert!(h.ldconfig && !h.daemon_reload && !h.desktop_database && h.mandb);
    let h = run_install_hooks(&vec!["/home/foo.desktop".to_string(), "/etc/systemd/system/a.service".to_string()]);
    assert!(!h.ldconfig && h.daemon_reload && !h.desktop_database && !h.mandb);
}

#[test]
fn test_remove_sam_v2_hooks_noops_on_empty_manifest() {
    let m = Manifest { name: "noop-pkg".into(), ..Manifest::default() };
    let plan = remove_sam_v2_hooks(&m);
    assert!(plan.units.is_empty());
    assert!(plan.sysusers_conf.is_none());
    assert!(plan.tmpfiles_conf.is_none());
}

#[test]
fn sam_v2_configuration_files() {
    let m = Manifest {
        name: "svc".into(),
        systemd_units: vec!["svc.service".into()],
        sysusers: vec![SysuserEntry { name: "svc".into(), entry_type: SysuserType::User, id: None, description: Some("Service".into()), home: None, shell: Some("/bin/false".into()) }],
        tmpfiles: vec![TmpfileEntry { path: "/run/svc".into(), mode: "0755".into(), uid: "svc".into(), gid: "svc".into(), age: None, argument: None }],
        ..Manifest::default()
    };
    let plan = run_sam_v2_hooks(&[&m]);
    assert_eq!(plan.units, vec!["svc.service"]);
    assert_eq!(plan.conf_files.len(), 2);
    assert_eq!(plan.conf_files[0].path, "/etc/sysusers.d/50-svc.conf");
    assert_eq!(plan.conf_files[0].content, "u svc - Service -:/bin/false\n");
    assert_eq!(plan.conf_files[1].path, "/etc/tmpfiles.d/svc.conf");
    assert_eq!(plan.conf_files[1].content, "/run/svc 0755 svc svc - - \n");
    let undo = remove_sam_v2_hooks(&m);
    assert_eq!(undo.sysusers_conf.as_deref(), Some("/etc/sysusers.d/50-svc.conf"));
    assert_eq!(undo.tmpfiles_conf.as_deref(), Some("/etc/tmpfiles.d/svc.conf"));
}

fn sample_index(pkgs: &[(&str, &str)]) -> RepoIndex {
    RepoIndex {
        repo_name: "test".into(),
        format_version: 1,
        packages: pkgs
            .iter()
            .map(|(n, d)| RepoIndexRecord {
                name: n.to_string(),
                version: "1.0".into(),
                architecture: "amd64".into(),
                description: d.to_string(),
                dependencies: vec![],
                provides_soname: vec![],
                conflicts: vec![],
                filename: format!("{}.sam", n),
                hash: "abc".into(),
                size: 1024,
            })
            .collect(),
    }
}

#[test]
fn test_match_native_packages_name_match() {
    let index = sample_index(&[("nginx", "web server"), ("curl", "http client")]);
    let results = match_native_packages("nginx", &index);
    assert_eq!(results.len(), 1);
    assert_eq!(results[0].name, "nginx");
}

#[test]
fn test_match_native_packages_description_match() {
    let index = sample_index(&[("nginx", "web server"), ("curl", "http client")]);
    let results = match_native_packages("web", &index);
    assert_eq!(results.len(), 1);
    assert_eq!(results[0].name, "nginx");
}

#[test]
fn test_match_native_packages_case_insensitive() {
    let index = sample_index(&[("NGINX", "Web Server")]);
    let results = match_native_packages("nginx", &index);
    assert_eq!(results.len(), 1);
}

#[test]
fn test_match_native_packages_no_match() {
    let index = sample_index(&[("nginx", "web server")]);
    let results = match_native_packages("mysql", &index);
    assert!(results.is_empty());
}

#[test]
fn test_match_native_packages_multiple_matches() {
    let index = sample_index(&[("nginx", "web server"), ("nginx-light", "web server light")]);
    let results = match_native_packages("nginx", &index);
    assert_eq!(results.len(), 2);
}

#[test]
fn test_match_native_packages_empty_index() {
    let index = sample_index(&[]);
    let results = match_native_packages("nginx", &index);
    assert!(results.is_empty());
}

#[test]
fn test_match_native_packages_format_and_repo() {
    let index = sample_index(&[("nginx", "web")]);
    let results = match_native_packages("nginx", &index);
    assert_eq!(results[0].format, PackageFormat::Sam);
    assert_eq!(results[0].source_repo.as_deref(), Some("native"));
}

#[test]
fn test_scripts_is_empty_all_none() {
    let s = Scripts::default();
    assert!(s.is_empty());
}

#[test]
fn test_scripts_is_empty_with_preinst() {
    let s = Scripts { preinst: Some("echo hello".into()), ..Scripts::default() };
    assert!(!s.is_empty());
}

#[test]
fn test_scripts_is_empty_with_postinst() {
    let s = Scripts { postinst: Some("echo done".into()), ..Scripts::default() };
    assert!(!s.is_empty());
}

#[test]
fn test_scripts_is_empty_with_prerm() {
    let s = Scripts { prerm: Some("echo remove".into()), ..Scripts::default() };
    assert!(!s.is_empty());
}

#[test]
fn test_scripts_is_empty_with_postrm() {
    let s = Scripts { postrm: Some("echo purge".into()), ..Scripts::default() };
    assert!(!s.is_empty());
}

#[test]
fn test_sanitize_relative_ok() {
    assert!(sanitize_relative("usr/bin/figlet").is_ok());
    assert!(sanitize_relative("a/b/c/d").is_ok());
}

#[test]
fn test_sanitize_relative_rejects_parent_dir() {
    assert!(sanitize_relative("usr/../etc").is_err());
    assert!(sanitize_relative("..").is_err());
    assert!(sanitize_relative("a/../../b").is_err());
}

#[test]
fn sanitize_relative_dots_inside_names_are_fine() {
    assert!(sanitize_relative("a/..b/c..").is_ok());
    assert!(sanitize_relative("/abs/./x").is_ok());
}

#[test]
fn test_store_package_dir_sharding() {
    let hash = "abcdef1234567890abcdef1234567890abcdef12";
    let dir = store_package_dir("/var/lib/spm", hash);
    assert!(dir.contains("ab/abcdef1234567890abcdef1234567890abcdef12"));
}

#[test]
fn test_store_package_dir_short_hash() {
    let dir = store_package_dir("/var/lib/spm", "a");
    assert!(dir.ends_with("/store/a"));
}

#[test]
fn store_paths_with_origin() {
    assert_eq!(store_package_dir_for_origin("/var/lib/spm/", "deb", "abc"), "/var/lib/spm/store/deb/ab/abc");
    assert_eq!(origin_from_format(&PackageFormat::Rpm), "rpm");
    assert!(is_library_file("/usr/lib/libz.so.1"));
    assert!(!is_library_file("/usr/bin/libz.so.1"));
    assert!(!is_library_file("/usr/lib/readme"));
}

#[test]
fn test_strip_exec_path_relative() {
    assert_eq!(strip_exec_path("steam %u"), "steam %u");
}

#[test]
fn test_strip_exec_path_absolute() {
    assert_eq!(strip_exec_path("/usr/bin/steam %u"), "steam %u");
}

#[test]
fn test_strip_exec_path_no_args() {
    assert_eq!(strip_exec_path("/opt/steam/steam.sh"), "steam.sh");
}

#[test]
fn test_strip_exec_path_with_flags() {
    assert_eq!(strip_exec_path("/usr/bin/firefox --new-window %u"), "firefox --new-window %u");
}

#[test]
fn test_strip_exec_path_bare() {
    assert_eq!(strip_exec_path("steam"), "steam");
}

#[test]
fn test_wrapper_name() {
    assert_eq!(wrapper_name("steam", "steam.desktop"), "spm-sandbox-steam-steam.desktop");
}

const STORE_BACKENDS: &str = "/var/lib/spm/store/backends";

#[test]
fn test_resolve_returns_safe_path_for_missing() {
    let p = resolve("nonexistent-backend", STORE_BACKENDS);
    assert_eq!(p, "/dev/null/spm-backend-missing");
}

#[test]
fn test_resolve_rejects_slash() {
    let p = resolve("foo/bar", STORE_BACKENDS);
    assert_eq!(p, "/dev/null/spm-backend-invalid");
}

#[test]
fn test_resolve_rejects_dotdot() {
    let p = resolve("..", STORE_BACKENDS);
    assert_eq!(p, "/dev/null/spm-backend-invalid");
}

#[test]
fn test_resolve_rejects_null() {
    let p = resolve("bad\0name", STORE_BACKENDS);
    assert_eq!(p, "/dev/null/spm-backend-invalid");
}

#[test]
fn test_resolve_empty() {
    let p = resolve("", STORE_BACKENDS);
    assert_eq!(p, "/dev/null/spm-backend-invalid");
}

#[test]
fn test_resolve_missing_backend() {
    let p = resolve("nonexistent-backend", STORE_BACKENDS);
    assert_eq!(p, "/dev/null/spm-backend-missing");
}

#[test]
fn test_truncate_short_string() {
    assert_eq!(truncate("hello", 10), "hello");
}

#[test]
fn test_truncate_exact() {
    assert_eq!(truncate("hello", 5), "hello");
}

#[test]
fn test_truncate_long_string() {
    let result = truncate("hello world this is a long string", 20);
    assert_eq!(result.len(), 20);
    assert!(result.ends_with("..."));
}

#[test]
fn test_truncate_max_zero() {
    assert_eq!(truncate("hello", 0), "...");
}

#[test]
fn test_truncate_max_one() {
    let result = truncate("hello", 1);
    assert_eq!(result.len(), 3);
    assert_eq!(result, "...");
}

#[test]
fn deleted_mappings_from_maps() {
    let maps = "7f00-7f01 r-xp 00000000 08:01 1234 /usr/lib/libssl.so.3 (deleted)\n7f01-7f02 r--p 00000000 08:01 0 /old (deleted)\n7f02-7f03 r-xp 00000000 08:01 99 /usr/lib/libc.so.6\nshort (deleted)\n";
    let got = deleted_mappings(maps);
    assert_eq!(got, vec![("(deleted)".to_string(), 1234)]);
}

#[test]
fn dpkg_list_lookup() {
    let list = "/.\n/usr\n/usr/lib/libssl.so.3  \n";
    assert!(file_list_has(list, "/usr/lib/libssl.so.3"));
    assert!(!file_list_has(list, "/usr/lib/libcrypto.so.3"));
}
