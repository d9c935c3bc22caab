use spm::error::SpmError;
use spm::package::fetch::download::{
    appends, download_step, expected_total, find_cached_deb, range_header, DownloadEvent, DownloadNext,
};

fn fail_text(n: DownloadNext) -> String {
    match n {
        DownloadNext::Fail { error: SpmError::Network(m) } => m,
        _ => panic!("expected a network failure"),
    }
}

#[test]
fn range_header_only_when_resuming() {
    assert_eq!(range_header(0), None);
    assert_eq!(range_header(1234), Some("bytes=1234-".to_string()));
}

#[test]
fn total_from_content_range_or_length() {
    assert_eq!(expected_total(206, &Some("bytes 100-199/ 5000".to_string()), &None), Some(5000));
    assert_eq!(expected_total(206, &None, &Some("10".to_string())), None);
    assert_eq!(expected_total(200, &None, &Some("42".to_string())), Some(42));
    assert_eq!(expected_total(200, &None, &Some(" 42".to_string())), None);
    assert_eq!(expected_total(200, &None, &None), None);
}

#[test]
fn stored_answer_appends_only_for_partial_resume() {
    assert!(appends(206, 10));
    assert!(!appends(206, 0));
    assert!(!appends(200, 10));
}

#[test]
fn retries_then_gives_up() {
    match download_step(1, 50, DownloadEvent::CallFailed { error: "timeout".into() }, "pkg", "http://x/p") {
        DownloadNext::Attempt { attempt, offset } => {
            assert_eq!(attempt, 2);
            assert_eq!(offset, 50);
        }
        _ => panic!("expected a retry"),
    }
    let last = download_step(3, 50, DownloadEvent::CallFailed { error: "timeout".into() }, "pkg", "http://x/p");
    assert_eq!(fail_text(last), "Failed to download 'pkg' after 3 attempts from http://x/p: timeout");
    let read = download_step(3, 0, DownloadEvent::ReadFailed { error: "reset".into() }, "pkg", "u");
    assert_eq!(fail_text(read), "Read error for 'pkg' after 3 attempts: reset");
    let refused = download_step(3, 9, DownloadEvent::RangeRefused, "pkg", "u");
    assert_eq!(fail_text(refused), "Failed to download 'pkg' after 3 attempts from u");
}

#[test]
fn refused_range_restarts_from_zero() {
    match download_step(2, 700, DownloadEvent::RangeRefused, "pkg", "u") {
        DownloadNext::Attempt { attempt, offset } => {
            assert_eq!(attempt, 3);
            assert_eq!(offset, 0);
        }
        _ => panic!("expected a restart"),
    }
}

#[test]
fn finished_size_counts_resumed_bytes() {
    match download_step(1, 100, DownloadEvent::Finished { status: 206, written: 50 }, "p", "u") {
        DownloadNext::Done { size } => assert_eq!(size, 150),
        _ => panic!("expected done"),
    }
    match download_step(2, 100, DownloadEvent::Finished { status: 200, written: 50 }, "p", "u") {
        DownloadNext::Done { size } => assert_eq!(size, 50),
        _ => panic!("expected done"),
    }
}

#[test]
fn test_find_deb_in_cache_empty_dir() {
    assert!(find_cached_deb(&Vec::new(), "nginx").is_err());
}

#[test]
fn cached_deb_needs_name_underscore_prefix() {
    let names = vec!["other.deb".to_string(), "nginx.deb".to_string(), "nginx_1.24.0_amd64.deb".to_string()];
    assert_eq!(find_cached_deb(&names, "nginx").unwrap(), 2);
    match find_cached_deb(&vec!["nginx.deb".to_string()], "nginx") {
        Err(SpmError::Other(m)) => assert_eq!(m, "Deb package for 'nginx' not found in cache"),
        _ => panic!("expected not found"),
    }
}
