use spm::package::triggers::{glob_match, trigger_for};

#[test]
fn globs() {
    assert!(glob_match("*", "anything"));
    assert!(glob_match("lib*", "libssl3"));
    assert!(glob_match("lib?sl*", "libssl3"));
    assert!(!glob_match("lib?", "lib"));
    assert!(glob_match("*-dev", "libc6-dev"));
    assert!(!glob_match("*-dev", "libc6-dbg"));
    assert!(glob_match("nginx", "nginx"));
    assert!(!glob_match("nginx", "nginx-full"));
    assert!(glob_match("a**", "a"));
    assert!(glob_match("", ""));
    assert!(!glob_match("", "x"));
}

#[test]
fn triggers_pick_the_first_match() {
    let names = vec!["bash".to_string(), "python3-foo".to_string(), "python3-bar".to_string()];
    assert_eq!(trigger_for("install", "python3-*", "install", &names), Some(1));
    assert_eq!(trigger_for("remove", "python3-*", "install", &names), None);
    assert_eq!(trigger_for("install", "perl*", "install", &names), None);
}
