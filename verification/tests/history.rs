use spm::package::query::{format_history_table, history_dates_cuttable};
use spm::types::db::{Transaction, TransactionAction, TransactionStatus};

fn sample_tx(id: i64, action: TransactionAction, ts: &str, status: TransactionStatus, pkgs: &[&str]) -> Transaction {
    Transaction {
        id: Some(id),
        action,
        timestamp: ts.to_string(),
        user: "root".to_string(),
        status,
        packages: pkgs.iter().map(|s| s.to_string()).collect(),
        snapshot_id: None,
    }
}

#[test]
fn test_format_history_empty() {
    assert_eq!(format_history_table(&[]), "No transactions found");
}

#[test]
fn test_format_history_single() {
    let txs = vec![sample_tx(1, TransactionAction::Install, "2026-01-15T10:30:00Z", TransactionStatus::Completed, &["nginx"])];
    let output = format_history_table(&txs);
    assert!(output.contains("1"));
    assert!(output.contains("Install"));
    assert!(output.contains("nginx"));
    assert!(output.contains("ID"));
}

#[test]
fn test_format_history_multiple() {
    let txs = vec![
        sample_tx(1, TransactionAction::Install, "2026-01-15T10:30:00Z", TransactionStatus::Completed, &["nginx"]),
        sample_tx(2, TransactionAction::Remove, "2026-01-16T12:00:00Z", TransactionStatus::Completed, &["curl"]),
    ];
    let output = format_history_table(&txs);
    assert!(output.contains("1"));
    assert!(output.contains("2"));
    assert!(output.contains("Install"));
    assert!(output.contains("Remove"));
}

#[test]
fn test_format_history_without_id() {
    let mut tx = sample_tx(0, TransactionAction::Install, "2026-01-15T10:30:00Z", TransactionStatus::Completed, &["pkg"]);
    tx.id = None;
    let output = format_history_table(&[tx]);
    assert!(output.contains("0"));
}

#[test]
fn test_format_history_truncates_timestamp() {
    let tx = sample_tx(1, TransactionAction::Install, "2026-01-15T10:30:00.123456Z", TransactionStatus::Completed, &["pkg"]);
    let output = format_history_table(&[tx]);
    assert!(output.contains("2026-01-15T10:30:00"));
    assert!(!output.contains("123456"));
}

#[test]
fn test_format_history_short_timestamp() {
    let tx = sample_tx(1, TransactionAction::Install, "short", TransactionStatus::Completed, &["pkg"]);
    let output = format_history_table(&[tx]);
    assert!(output.contains("short"));
}

#[test]
fn history_table_exact_layout() {
    let tx = sample_tx(7, TransactionAction::Upgrade, "2026-01-15T10:30:00Z", TransactionStatus::Failed, &["a", "b"]);
    let output = format_history_table(&[tx]);
    let expected = format!(
        "{:<5} {:<12} {:<20} {:<10} {}\n{}\n{:<5} {:<12} {:<20} {:<10} {}\n",
        "ID", "Action", "Date", "Status", "Packages", "-".repeat(80), 7, "Upgrade", "2026-01-15T10:30:00", "Failed", "a, b"
    );
    assert_eq!(output, expected);
}

#[test]
fn history_dates_must_cut_on_a_character() {
    let ok = sample_tx(1, TransactionAction::Install, "2026-01-15T10:30:00Z", TransactionStatus::Completed, &[]);
    let bad = sample_tx(1, TransactionAction::Install, "2026-01-15T10:30:0\u{e9}", TransactionStatus::Completed, &[]);
    assert!(history_dates_cuttable(&[ok]));
    assert!(!history_dates_cuttable(&[bad]));
}
