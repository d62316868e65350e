use seekr::{parse_zsh_history, plan_import, HistoryEntry, ParsedHistoryEntry};
use seekr::config::PrivacyConfig;

const ZSH_HISTORY_SAMPLE: &[u8] = b": 1700000000:0;git status
: 1700000001:2;cargo test
plain history command

: abc:0;broken metadata
: 1700000002:1;printf 'first \\
second'
: 1700000005:0;printf 'metadata-looking \\
: continuation'
: 1700000006:0;echo \\
: 1700000007:0;git log
: plain colon command
: 1700000004:0;
";

#[test]
fn parses_zsh_history_fixture_formats() {
    let entries = parse_zsh_history(ZSH_HISTORY_SAMPLE, 1_700_000_003);

    assert_eq!(
        entries,
        vec![
            ParsedHistoryEntry::Entry(HistoryEntry {
                command_text: "git status".to_string(),
                executed_at: 1_700_000_000,
                duration_ms: Some(0),
            }),
            ParsedHistoryEntry::Entry(HistoryEntry {
                command_text: "cargo test".to_string(),
                executed_at: 1_700_000_001,
                duration_ms: Some(2_000),
            }),
            ParsedHistoryEntry::Entry(HistoryEntry {
                command_text: "plain history command".to_string(),
                executed_at: 1_700_000_003,
                duration_ms: None,
            }),
            ParsedHistoryEntry::Skipped,
            ParsedHistoryEntry::Failed,
            ParsedHistoryEntry::Entry(HistoryEntry {
                command_text: "printf 'first \\\nsecond'".to_string(),
                executed_at: 1_700_000_002,
                duration_ms: Some(1_000),
            }),
            ParsedHistoryEntry::Entry(HistoryEntry {
                command_text: "printf 'metadata-looking \\\n: continuation'".to_string(),
                executed_at: 1_700_000_005,
                duration_ms: Some(0),
            }),
            ParsedHistoryEntry::Entry(HistoryEntry {
                command_text: "echo \\".to_string(),
                executed_at: 1_700_000_006,
                duration_ms: Some(0),
            }),
            ParsedHistoryEntry::Entry(HistoryEntry {
                command_text: "git log".to_string(),
                executed_at: 1_700_000_007,
                duration_ms: Some(0),
            }),
            ParsedHistoryEntry::Entry(HistoryEntry {
                command_text: ": plain colon command".to_string(),
                executed_at: 1_700_000_003,
                duration_ms: None,
            }),
            ParsedHistoryEntry::Entry(HistoryEntry {
                command_text: String::new(),
                executed_at: 1_700_000_004,
                duration_ms: Some(0),
            }),
        ]
    );
}

#[test]
fn invalid_utf8_line_fails_without_stopping_the_parse() {
    let entries = parse_zsh_history(b"ls\n\xff\xfe\ngit status\n", 7);
    assert_eq!(
        entries,
        vec![
            ParsedHistoryEntry::Entry(HistoryEntry {
                command_text: "ls".to_string(),
                executed_at: 7,
                duration_ms: None,
            }),
            ParsedHistoryEntry::Failed,
            ParsedHistoryEntry::Entry(HistoryEntry {
                command_text: "git status".to_string(),
                executed_at: 7,
                duration_ms: None,
            }),
        ]
    );
}

#[test]
fn carriage_returns_and_missing_final_newline_are_handled() {
    let entries = parse_zsh_history(b": 5:3;make\r\nlast", 9);
    assert_eq!(
        entries,
        vec![
            ParsedHistoryEntry::Entry(HistoryEntry {
                command_text: "make".to_string(),
                executed_at: 5,
                duration_ms: Some(3_000),
            }),
            ParsedHistoryEntry::Entry(HistoryEntry {
                command_text: "last".to_string(),
                executed_at: 9,
                duration_ms: None,
            }),
        ]
    );
    assert!(parse_zsh_history(b"", 1).is_empty());
}

#[test]
fn negative_or_oversized_metadata_fails() {
    let entries = parse_zsh_history(
        b": -1:0;neg\n: 1:-2;neg duration\n: 1:9223372036854775807;huge\n: +4:+1;signed\n",
        0,
    );
    assert_eq!(
        entries,
        vec![
            ParsedHistoryEntry::Failed,
            ParsedHistoryEntry::Failed,
            ParsedHistoryEntry::Failed,
            ParsedHistoryEntry::Entry(HistoryEntry {
                command_text: "signed".to_string(),
                executed_at: 4,
                duration_ms: Some(1_000),
            }),
        ]
    );
}

#[test]
fn import_plan_counts_every_entry_once() {
    let entries = parse_zsh_history(ZSH_HISTORY_SAMPLE, 1_700_000_003);
    let plan = plan_import(&entries, &PrivacyConfig::default(), &"/tmp/project".to_string());
    // 11 entries: 8 commands become records; the blank line and the empty
    // command are skipped; the malformed line fails.
    assert_eq!(plan.records.len() + plan.skipped + plan.failed, entries.len());
    assert_eq!(plan.records.len(), 8);
    assert_eq!(plan.skipped, 2);
    assert_eq!(plan.failed, 1);
    assert!(plan.records.iter().all(|r| r.cwd == "/tmp/project"));
    assert!(plan.records.iter().all(|r| r.exit_code == 0));
    assert!(plan.records.iter().all(|r| r.shell.as_deref() == Some("zsh")));
    assert_eq!(plan.records[0].command_text, "git status");
    assert_eq!(plan.records[0].duration_ms, Some(0));
}

#[test]
fn import_plan_skips_ignored_and_redacts_when_enabled() {
    let entries = parse_zsh_history(b"ls -la\nexport PASSWORD=mysecret123\ncargo test\n", 3);
    let privacy = PrivacyConfig {
        redaction_enabled: true,
        ..PrivacyConfig::default()
    };
    let plan = plan_import(&entries, &privacy, &"/tmp".to_string());
    assert_eq!(plan.skipped, 1);
    assert_eq!(plan.failed, 0);
    assert_eq!(plan.records.len(), 2);
    assert_eq!(plan.records[0].command_text, "export PASSWORD=<REDACTED>");
    assert_eq!(plan.records[1].command_text, "cargo test");
}

#[test]
fn import_summary_reports_counts() {
    assert_eq!(
        seekr::import_summary(9, 2, 0),
        "Import complete: inserted: 9, skipped: 2, failed: 0."
    );
}
