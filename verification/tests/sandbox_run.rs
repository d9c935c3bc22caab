use spm::error::SpmError;
use spm::sandbox::desktop::{
    desktop_icon_names, find_icon_path, icon_candidates, is_wrapper_entry, rewrite_desktop_entry,
};
use spm::sandbox::{sandbox_listing, sandbox_not_found, sandbox_run, SandboxDirs};

const ENTRY: &str = "[Desktop Entry]\nName=Steam\nExec=/usr/bin/steam %U\nIcon=steam\nTryExec=/usr/bin/steam\n\n[Desktop Action Big]\nExec=/usr/bin/steam -bigpicture\nIcon=/opt/x.png";

#[test]
fn test_desktop_icon_names_in_order() {
    assert_eq!(desktop_icon_names(ENTRY), vec!["steam".to_string(), "/opt/x.png".to_string()]);
}

#[test]
fn test_rewrite_desktop_entry_all_keys() {
    let icons = vec![Some("/s/usr/share/pixmaps/steam.png".to_string()), None];
    let out = rewrite_desktop_entry(ENTRY, "steam", "/usr/bin/spm", &icons).unwrap();
    let want = "[Desktop Entry]\nName=Steam\nExec=/usr/bin/spm sandbox run steam steam %U\nIcon=/s/usr/share/pixmaps/steam.png\nTryExec=/usr/bin/spm\n\n[Desktop Action Big]\nExec=/usr/bin/spm sandbox run steam steam -bigpicture\nIcon=/opt/x.png";
    assert_eq!(out, want);
}

#[test]
fn test_rewrite_desktop_entry_quotes_paths_with_spaces() {
    let icons = vec![Some("/my icons/a.png".to_string())];
    let out = rewrite_desktop_entry("Exec=app\nIcon=a", "box", "/opt/my spm/spm", &icons).unwrap();
    assert_eq!(out, "Exec=\"/opt/my spm/spm\" sandbox run box app\nIcon=\"/my icons/a.png\"");
}

#[test]
fn test_rewrite_desktop_entry_without_exec() {
    assert!(rewrite_desktop_entry("[Desktop Entry]\nName=X\nIcon=x", "s", "/spm", &Vec::new()).is_none());
}

#[test]
fn test_icon_candidates_order() {
    let c = icon_candidates("/sb", "app");
    assert_eq!(c.len(), 45);
    assert_eq!(c[0], "/sb/usr/share/icons/hicolor/256x256/apps/app.png");
    assert_eq!(c[1], "/sb/usr/share/icons/hicolor/256x256/apps/app.svg");
    assert_eq!(c[4], "/sb/usr/share/icons/hicolor/256x256/apps/app");
    assert_eq!(c[44], "/sb/usr/share/pixmaps/app");
    assert_eq!(icon_candidates("/sb", "/abs/icon.png"), vec!["/abs/icon.png".to_string()]);
}

#[test]
fn test_find_icon_path_nonexistent() {
    let dir = tempfile::tempdir().unwrap();
    let result = find_icon_path(dir.path().to_str().unwrap(), "nonexistent");
    assert!(result.is_none());
}

#[test]
fn test_is_wrapper_entry() {
    assert!(is_wrapper_entry("spm-sandbox-steam-steam.desktop", "steam"));
    assert!(!is_wrapper_entry("spm-sandbox-steamy-steam.desktop", "steam"));
    assert!(!is_wrapper_entry("spm-sandbox-steam-steam.txt", "steam"));
}

#[test]
fn test_sandbox_run_default_shell() {
    let dirs = SandboxDirs { has_bin: true, has_games: false, has_lib: false, has_lib64: false };
    let r = sandbox_run("/var/lib/spm/sandboxes/foo", &dirs, &Vec::new());
    assert_eq!(r.program, "/bin/sh");
    assert!(r.args.is_empty());
    assert_eq!(r.path, "/var/lib/spm/sandboxes/foo/usr/bin:/usr/local/bin:/usr/bin:/bin");
    assert!(r.ld_library_path.is_none());
}

#[test]
fn test_sandbox_run_command_and_libs() {
    let dirs = SandboxDirs { has_bin: true, has_games: true, has_lib: true, has_lib64: true };
    let cmd = vec!["steam".to_string(), "-silent".to_string(), "x".to_string()];
    let r = sandbox_run("/sb", &dirs, &cmd);
    assert_eq!(r.program, "steam");
    assert_eq!(r.args, vec!["-silent".to_string(), "x".to_string()]);
    assert_eq!(r.path, "/sb/usr/bin:/sb/usr/games:/usr/local/bin:/usr/bin:/bin");
    assert_eq!(r.ld_library_path, Some("/sb/usr/lib:/sb/usr/lib64".to_string()));
}

#[test]
fn test_sandbox_not_found_message() {
    match sandbox_not_found("nonexistent-sandbox") {
        SpmError::Sandbox(m) => {
            assert!(m.contains("not found"));
            assert_eq!(m, "Sandbox for 'nonexistent-sandbox' not found. Install with --sandbox first.");
        }
        _ => panic!("wrong error kind"),
    }
}

#[test]
fn test_sandbox_listing_lines() {
    assert_eq!(sandbox_listing(&Vec::new()), vec!["No sandboxes found".to_string()]);
    let l = sandbox_listing(&vec![("steam".to_string(), true), ("gimp".to_string(), false)]);
    assert_eq!(
        l,
        vec![
            "  steam (symlink)".to_string(),
            "  gimp (basic)".to_string(),
            "\nTotal: 2 sandbox(es)".to_string()
        ]
    );
}
