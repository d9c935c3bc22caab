use spm::package::install::conflict::{
    build_foreign_owned_options, comm_matches, desc_lists_file, dpkg_status_has, foreign_owned_fallback_answer,
    foreign_touch_answer, pacman_desc_names, PackageManager, Resolution, RiskLevel,
};

#[test]
fn foreign_owned_options() {
    let o = build_foreign_owned_options();
    assert_eq!(o.len(), 4);
    assert_eq!(o[0].command, "spm install --replace");
    assert_eq!(o[1].risk, RiskLevel::Low);
    assert_eq!(o[2].risk, RiskLevel::High);
    assert!(o[3].command.is_empty());
}

#[test]
fn fallback_answers() {
    assert_eq!(foreign_owned_fallback_answer(" 1\n", 4, "vim"), Resolution::Proceed);
    assert_eq!(foreign_owned_fallback_answer("2", 4, "vim"), Resolution::SandboxInstall);
    assert_eq!(
        foreign_owned_fallback_answer("3", 4, "vim"),
        Resolution::ForceReplace { packages_to_remove: vec!["vim".into()] }
    );
    assert_eq!(foreign_owned_fallback_answer("4", 4, "vim"), Resolution::Cancelled);
    assert_eq!(foreign_owned_fallback_answer("5", 4, "vim"), Resolution::Cancelled);
    assert_eq!(foreign_owned_fallback_answer("Sandbox", 4, "vim"), Resolution::SandboxInstall);
    assert_eq!(
        foreign_owned_fallback_answer("REPLACE", 4, "vim"),
        Resolution::ForceReplace { packages_to_remove: vec!["vim".into()] }
    );
    assert_eq!(foreign_owned_fallback_answer("yes", 4, "vim"), Resolution::Proceed);
    assert_eq!(foreign_owned_fallback_answer("what", 4, "vim"), Resolution::Cancelled);
}

#[test]
fn touch_answers() {
    assert_eq!(foreign_touch_answer("1\n"), Resolution::Proceed);
    assert_eq!(foreign_touch_answer("2"), Resolution::Cancelled);
    assert_eq!(foreign_touch_answer(" 3 "), Resolution::SandboxInstall);
    assert_eq!(foreign_touch_answer(""), Resolution::Cancelled);
}

#[test]
fn foreign_databases() {
    assert!(dpkg_status_has("Package: Vim\nStatus: install ok\n", "vim"));
    assert!(!dpkg_status_has("Package: vim-tiny\n", "vim"));
    assert!(pacman_desc_names("%NAME%vim\n", "VIM"));
    assert!(!pacman_desc_names("%NAME%\nvim\n", "vim"));
    let desc = "%NAME%\nvim\n%FILES%\nusr/bin/vim\n/usr/bin/vim \n%BACKUP%\n/usr/bin/other\n";
    assert!(desc_lists_file(desc, "/usr/bin/vim"));
    assert!(!desc_lists_file(desc, "/usr/bin/other"));
    assert!(!desc_lists_file("/usr/bin/vim\n", "/usr/bin/vim"));
}

#[test]
fn manager_processes() {
    assert_eq!(PackageManager::Apt.name(), "apt");
    assert!(comm_matches("dpkg", "apt"));
    assert!(comm_matches("apt-get", "apt"));
    assert!(comm_matches("rpm", "dnf"));
    assert!(!comm_matches("rpm", "apt"));
    assert!(comm_matches("pacman", "pacman"));
}
