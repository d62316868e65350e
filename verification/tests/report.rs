use seekr::db::CollapsedRecord;
use seekr::report::{EMPTY_CONTEXT_MESSAGE, EMPTY_FAILED_MESSAGE};
use seekr::stats::{render_stats, StatsInput, StoreState, StoreStats};
use seekr::{format_relative_timestamp_at, import_summary, render_collapsed_records, search_empty_message};

fn collapsed(command_text: &str, cwd: &str, count: usize, exit: i64, same: bool) -> CollapsedRecord {
    CollapsedRecord {
        command_text: command_text.to_string(),
        normalized_text: command_text.to_string(),
        repeat_count: count,
        most_recent_executed_at: 1_000,
        most_recent_cwd: cwd.to_string(),
        most_recent_exit_code: exit,
        all_same_exit: same,
        repo: None,
        branch: None,
    }
}

#[test]
fn formats_command_timestamps_for_people() {
    assert_eq!(format_relative_timestamp_at(1_000, 1_000), "just now");
    assert_eq!(format_relative_timestamp_at(940, 1_000), "1m ago");
    assert_eq!(format_relative_timestamp_at(1_000 - 3 * 60 * 60, 1_000), "3h ago");
    assert_eq!(
        format_relative_timestamp_at(1_000 - 2 * 24 * 60 * 60, 1_000),
        "2d ago"
    );
    assert_eq!(format_relative_timestamp_at(1_000 + 5 * 60, 1_000), "in 5m");
}

#[test]
fn timestamps_in_weeks_and_at_the_extremes() {
    assert_eq!(format_relative_timestamp_at(0, 14 * 24 * 60 * 60), "2w ago");
    assert_eq!(format_relative_timestamp_at(59, 0), "just now");
    assert_eq!(format_relative_timestamp_at(60, 0), "in 1m");
    assert_eq!(
        format_relative_timestamp_at(i64::MIN, i64::MAX),
        "30500568904943w ago"
    );
}

#[test]
fn empty_search_reports_local_only_message() {
    assert_eq!(
        search_empty_message("docker"),
        "No local commands found for \"docker\"."
    );
    assert_eq!(
        render_collapsed_records(&Vec::new(), search_empty_message("docker"), 0),
        "No local commands found for \"docker\"."
    );
}

#[test]
fn empty_message_escapes_the_query() {
    assert_eq!(
        search_empty_message("say \"hi\"\n"),
        "No local commands found for \"say \\\"hi\\\"\\n\"."
    );
}

#[test]
fn collapsed_search_shows_repeat_count_and_exit_summary() {
    let output = render_collapsed_records(
        &vec![collapsed("cargo build", "/tmp/project", 3, 1, false)],
        String::new(),
        1_000,
    );
    assert!(output.contains("cargo build"));
    assert!(output.contains("repeats: 3"));
    assert!(output.contains("exit: mixed (most recent: 1)"));
    assert!(output.contains("cwd: /tmp/project"));
    assert!(output.contains("last used:"));
    assert!(!output.contains("timestamp:"));
}

#[test]
fn collapsed_search_same_exit_codes_show_single_value() {
    let output = render_collapsed_records(
        &vec![collapsed("git push", "/tmp/project", 2, 0, true)],
        String::new(),
        1_000,
    );
    assert!(output.contains("git push"));
    assert!(output.contains("repeats: 2"));
    assert!(output.contains("exit: 0"));
    assert!(!output.contains("mixed"));
}

#[test]
fn search_results_render_exactly() {
    let mut second = collapsed("ls", "/home", 1, 0, true);
    second.repo = Some("seekr".to_string());
    second.branch = Some("main".to_string());
    second.most_recent_executed_at = 1_000 - 120;
    let output = render_collapsed_records(
        &vec![collapsed("git push", "/tmp/project", 2, 0, true), second],
        String::new(),
        1_000,
    );
    assert_eq!(
        output,
        "git push\n  cwd: /tmp/project | last used: just now | exit: 0 | repeats: 2\n\n\
ls\n  cwd: /home | last used: 2m ago | exit: 0 | repo: seekr | branch: main"
    );
}

#[test]
fn context_messages() {
    assert_eq!(
        EMPTY_CONTEXT_MESSAGE,
        "No local commands found for the current context."
    );
    assert_eq!(EMPTY_FAILED_MESSAGE, "No local failed commands found.");
}

#[test]
fn import_summary_reports_each_count() {
    assert_eq!(
        import_summary(9, 1, 1),
        "Import complete: inserted: 9, skipped: 1, failed: 1."
    );
}

fn open_stats() -> StoreStats {
    StoreStats {
        total: 3,
        indexed: 3,
        failed: 1,
        earliest: Some(1_720_000_000),
        latest: Some(1_720_000_002),
        unique_groups: 2,
        fts_exists: true,
        schema_version: 1,
    }
}

#[test]
fn stats_with_known_data_reports_counts_and_time_range() {
    let output = render_stats(&StatsInput {
        database_path: "/data/seekr.db".to_string(),
        size_text: Some("12.0 KB".to_string()),
        store: StoreState::Open(open_stats()),
        redaction_enabled: false,
        ignore_rules: 4,
    });
    for expected in [
        "Seekr Stats",
        "Database:",
        "Path: /data/seekr.db",
        "Size: 12.0 KB",
        "Commands:",
        "Total stored: 3",
        "Indexed (FTS): 3",
        "Failed commands: 1",
        "Time range: 1720000000 to 1720000002",
        "Collapse:",
        "Unique groups: 2",
        "Privacy:",
        "Redaction: disabled",
        "Ignore rules: 4",
        "Health:",
        "Database: ok",
        "FTS index: ok",
        "Migrations: up to date",
    ] {
        assert!(output.contains(expected), "missing {expected}");
    }
}

#[test]
fn stats_handles_empty_database_gracefully() {
    let output = render_stats(&StatsInput {
        database_path: "/data/seekr.db".to_string(),
        size_text: None,
        store: StoreState::Open(StoreStats {
            total: 0,
            indexed: 0,
            failed: 0,
            earliest: None,
            latest: None,
            unique_groups: 0,
            fts_exists: true,
            schema_version: 1,
        }),
        redaction_enabled: false,
        ignore_rules: 4,
    });
    for expected in [
        "Total stored: 0",
        "Indexed (FTS): 0",
        "Failed commands: 0",
        "Time range: n/a",
        "Unique groups: 0",
        "Database: ok",
        "FTS index: ok",
    ] {
        assert!(output.contains(expected), "missing {expected}");
    }
}

#[test]
fn stats_reports_local_paths_and_defaults() {
    let output = render_stats(&StatsInput {
        database_path: "/data/seekr/seekr.db".to_string(),
        size_text: Some("1 B".to_string()),
        store: StoreState::Missing,
        redaction_enabled: false,
        ignore_rules: 4,
    });
    assert!(output.contains("Seekr Stats"));
    assert!(output.contains("Database:"));
    assert!(output.contains("Path: /data/seekr/seekr.db"));
    assert!(output.contains("Redaction: disabled"));
    assert!(output.contains("Ignore rules: 4"));
    assert!(output.contains("Database: missing"));
    assert!(!output.contains("Size:"));
}

#[test]
fn stats_redaction_reports_enabled_disabled_only() {
    for (enabled, expected) in [(true, "enabled"), (false, "disabled")] {
        let output = render_stats(&StatsInput {
            database_path: "/data/seekr.db".to_string(),
            size_text: None,
            store: StoreState::Unavailable,
            redaction_enabled: enabled,
            ignore_rules: 2,
        });
        assert!(output.contains(&format!("Redaction: {expected}")));
        assert!(!output.contains("<REDACTED>"));
        assert!(output.contains("Ignore rules: 2"));
        assert!(output.contains("Database: unavailable"));
        assert!(output.contains("Total stored: 0 (database unavailable)"));
    }
}

#[test]
fn stats_flags_outdated_schema() {
    let mut stats = open_stats();
    stats.schema_version = 0;
    stats.fts_exists = false;
    let output = render_stats(&StatsInput {
        database_path: "db".to_string(),
        size_text: None,
        store: StoreState::Open(stats),
        redaction_enabled: true,
        ignore_rules: 0,
    });
    assert!(output.contains("FTS index: missing"));
    assert!(output.contains("Migrations: version 0 (expected 1)"));
}
