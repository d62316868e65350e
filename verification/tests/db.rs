use seekr::db::{
    build_fts_query, collapse_records, normalize_one, fuzzy_rank, fuzzy_rank_checked, normalize_command_text,
    plan_filtered_search, plan_fuzzy_search, CollapsedRecord, CommandRecord, RecordError,
    SearchError, SearchFilters, SearchPlan, SqlValue,
};
use seekr::ErrorKind;

fn plain(command_text: &str, cwd: &str, executed_at: i64, exit_code: i64) -> CommandRecord {
    CommandRecord::new(
        command_text.to_string(),
        cwd.to_string(),
        executed_at,
        exit_code,
        None,
        None,
        None,
        None,
        None,
    )
    .expect("record should validate")
}

fn texts(records: &[CollapsedRecord]) -> Vec<&str> {
    records.iter().map(|r| r.command_text.as_str()).collect()
}

#[test]
fn command_record_rejects_invalid_input() {
    let empty = CommandRecord::new(
        "   ".to_string(),
        "/tmp/project".to_string(),
        1_720_000_001,
        0,
        None,
        None,
        None,
        None,
        None,
    )
    .expect_err("blank command should fail");
    assert_eq!(empty.kind(), ErrorKind::InvalidInput);

    let negative_duration = CommandRecord::new(
        "cargo test".to_string(),
        "/tmp/project".to_string(),
        1_720_000_001,
        0,
        None,
        Some(-1),
        None,
        None,
        None,
    )
    .expect_err("negative duration should fail");
    assert_eq!(negative_duration.kind(), ErrorKind::InvalidInput);
}

#[test]
fn punctuation_only_commands_are_still_valid_raw_commands() {
    let record = CommandRecord::new(
        ":".to_string(),
        "/tmp/project".to_string(),
        1_720_000_001,
        0,
        None,
        None,
        None,
        None,
        None,
    )
    .expect("shell builtins should still persist");

    assert_eq!(record.command_text, ":");
    assert!(record.normalized_text.is_empty());
}

#[test]
fn record_errors_name_the_first_problem() {
    let r = CommandRecord::new(
        "ls".to_string(),
        "/".to_string(),
        -1,
        -1,
        None,
        Some(-1),
        None,
        None,
        None,
    );
    assert_eq!(r, Err(RecordError::NegativeExecutedAt));
    let r = CommandRecord::new(
        "ls".to_string(),
        "/".to_string(),
        0,
        -1,
        None,
        None,
        None,
        None,
        None,
    );
    assert_eq!(r, Err(RecordError::NegativeExitCode));
    assert_eq!(RecordError::NegativeExitCode.kind(), ErrorKind::InvalidInput);
}

#[test]
fn record_keeps_raw_text_and_derives_search_form() {
    let record = CommandRecord::new(
        "gh pr checkout 123 && cargo   test".to_string(),
        "/tmp/project".to_string(),
        1_720_000_001,
        0,
        Some("zsh".to_string()),
        Some(250),
        Some("seekr-host".to_string()),
        Some("seekr".to_string()),
        Some("feat/task-04".to_string()),
    )
    .expect("record should validate");
    assert_eq!(record.command_text, "gh pr checkout 123 && cargo   test");
    assert_eq!(record.normalized_text, "gh pr checkout 123 cargo test");
    assert_eq!(record.git_branch.as_deref(), Some("feat/task-04"));
}

#[test]
fn normalization_lowercases_and_blanks_shell_punctuation() {
    assert_eq!(normalize_command_text("Git-Status  --Short"), "git-status --short");
    assert_eq!(normalize_command_text("foo/bar.baz && echo $HOME"), "foo/bar.baz echo home");
    assert_eq!(normalize_command_text("  ::  "), "");
    assert_eq!(normalize_command_text("Ünïcode Straße"), "ünïcode straße");
}

#[test]
fn collapse_merges_duplicate_commands_into_single_result() {
    let records = vec![
        plain("cargo test", "/tmp/project", 1_720_000_002, 0),
        plain("cargo test", "/tmp/project", 1_720_000_001, 0),
        plain("cargo test", "/tmp/project", 1_720_000_000, 0),
    ];
    let collapsed = collapse_records(records);

    assert_eq!(collapsed.len(), 1);
    assert_eq!(collapsed[0].command_text, "cargo test");
    assert_eq!(collapsed[0].repeat_count, 3);
    assert_eq!(collapsed[0].most_recent_executed_at, 1_720_000_002);
    assert!(collapsed[0].all_same_exit);
}

#[test]
fn collapse_preserves_most_recent_raw_command_text() {
    let records = vec![
        plain("cargo test --release", "/tmp/project", 1_720_000_001, 0),
        plain("cargo   test  --release", "/tmp/project", 1_720_000_000, 0),
    ];
    let collapsed = collapse_records(records);

    assert_eq!(collapsed.len(), 1);
    assert_eq!(collapsed[0].command_text, "cargo test --release");
    assert_eq!(collapsed[0].repeat_count, 2);
}

#[test]
fn collapse_detects_mixed_exit_codes() {
    let records = vec![
        plain("git push", "/tmp/project", 1_720_000_001, 1),
        plain("git push", "/tmp/project", 1_720_000_000, 0),
    ];
    let collapsed = collapse_records(records);

    assert_eq!(collapsed.len(), 1);
    assert_eq!(collapsed[0].repeat_count, 2);
    assert!(!collapsed[0].all_same_exit);
    assert_eq!(collapsed[0].most_recent_exit_code, 1);
}

#[test]
fn collapse_separates_by_cwd() {
    let records = vec![
        plain("cargo test", "/tmp/project-b", 1_720_000_001, 0),
        plain("cargo test", "/tmp/project-a", 1_720_000_000, 0),
    ];
    let collapsed = collapse_records(records);

    assert_eq!(collapsed.len(), 2);
    for c in &collapsed {
        assert_eq!(c.command_text, "cargo test");
        assert_eq!(c.repeat_count, 1);
    }
}

#[test]
fn collapse_separates_by_repo_and_branch() {
    let mut records = Vec::new();
    for (branch, executed_at) in [("feat/other", 1_720_000_001), ("main", 1_720_000_000)] {
        records.push(
            CommandRecord::new(
                "cargo build".to_string(),
                "/tmp/project".to_string(),
                executed_at,
                0,
                None,
                None,
                None,
                Some("seekr".to_string()),
                Some(branch.to_string()),
            )
            .expect("record should validate"),
        );
    }
    let collapsed = collapse_records(records);

    assert_eq!(collapsed.len(), 2);
}

#[test]
fn collapse_applies_contextual_filters_before_collapsing() {
    // Only the failed run passes the `failed` filter of the search statement;
    // collapsing sees what the statement returned.
    let plan = plan_filtered_search(
        Some("docker"),
        &SearchFilters {
            failed: Some(true),
            ..SearchFilters::default()
        },
        Some(5),
    )
    .expect("plan should build");
    match plan {
        SearchPlan::Run(query) => assert!(query.sql.contains("exit_code != 0")),
        SearchPlan::NoMatch => panic!("docker is searchable"),
    }
    let records = vec![plain("docker compose up", "/tmp/app", 1_720_000_001, 1)];
    let collapsed = collapse_records(records);

    assert_eq!(collapsed.len(), 1);
    assert_eq!(collapsed[0].command_text, "docker compose up");
    assert_eq!(collapsed[0].repeat_count, 1);
    assert_eq!(collapsed[0].most_recent_exit_code, 1);
    assert!(collapsed[0].all_same_exit);
}

#[test]
fn collapse_preserves_fts_order_without_count_weighting() {
    // Records arrive in ranked order: equal relevance, newest first.
    let records = vec![
        plain("cargo build", "/tmp/project", 1_720_000_002, 0),
        plain("cargo test", "/tmp/project", 1_720_000_001, 0),
        plain("cargo test", "/tmp/project", 1_720_000_000, 0),
    ];
    let collapsed = collapse_records(records);

    assert_eq!(collapsed.len(), 2);
    assert_eq!(collapsed[0].command_text, "cargo build");
    assert_eq!(collapsed[0].repeat_count, 1);
    assert_eq!(collapsed[1].command_text, "cargo test");
    assert_eq!(collapsed[1].repeat_count, 2);
}

#[test]
fn collapse_ranks_by_fts_relevance_first() {
    let records = vec![
        plain("docker compose up", "/tmp/project", 1_720_000_001, 0),
        plain("docker compose logs", "/tmp/project", 1_720_000_000, 0),
    ];
    let collapsed = collapse_records(records);

    assert_eq!(collapsed.len(), 2);
    assert_eq!(collapsed[0].command_text, "docker compose up");
}

#[test]
fn collapse_counts_every_record() {
    let records = vec![
        plain("a", "/x", 5, 0),
        plain("b", "/x", 4, 0),
        plain("a", "/x", 3, 2),
        plain("a", "/y", 2, 0),
        plain("b", "/x", 1, 0),
    ];
    let collapsed = collapse_records(records);
    let total: usize = collapsed.iter().map(|c| c.repeat_count).sum();
    assert_eq!(total, 5);
    assert_eq!(texts(&collapsed), vec!["a", "b", "a"]);
    assert_eq!(collapsed[0].most_recent_exit_code, 0);
    assert!(!collapsed[0].all_same_exit);
    assert_eq!(collapsed[2].most_recent_cwd, "/y");
}

#[test]
fn fuzzy_tui_search_matches_partial_and_transposed_queries() {
    // Every record the filters admit, most recent first.
    let history = || {
        vec![
            plain("cargo docker", "/tmp/project", 4, 0),
            plain("cargo test", "/tmp/project", 3, 0),
            plain("docker compose up", "/tmp/project", 2, 0),
            plain("docker ps", "/tmp/project", 1, 0),
        ]
    };

    let first_character = fuzzy_rank("d", history(), 10);
    assert_eq!(
        texts(&first_character),
        vec!["docker compose up", "docker ps", "cargo docker"]
    );

    let typo = fuzzy_rank("dokcer", history(), 10);
    assert_eq!(
        typo.first().map(|record| record.command_text.as_str()),
        Some("docker compose up")
    );

    let abbreviation = fuzzy_rank("dk", history(), 10);
    assert_eq!(
        abbreviation.first().map(|record| record.command_text.as_str()),
        Some("docker compose up")
    );

    assert!(
        fuzzy_rank("x", history(), 10).is_empty(),
        "one-character non-substring queries should not create noisy matches"
    );

    // The command-line search stays exact: the misspelt term goes to the
    // full-text index as it is.
    assert_eq!(build_fts_query("dokcer"), Some("\"dokcer\"".to_string()));
}

#[test]
fn fuzzy_tui_search_scans_beyond_recent_duplicate_history() {
    let mut records = Vec::new();
    for executed_at in (2..=102).rev() {
        records.push(plain("cargo test", "/tmp/project", executed_at, 0));
    }
    records.push(plain("docker compose up", "/tmp/project", 1, 0));

    let results = fuzzy_rank_checked("docker", records, 10).expect("records fit");

    assert_eq!(
        results.first().map(|record| record.command_text.as_str()),
        Some("docker compose up")
    );
}

#[test]
fn fuzzy_rank_keeps_at_most_limit() {
    let records = vec![
        plain("git status", "/", 3, 0),
        plain("git log", "/", 2, 0),
        plain("git diff", "/", 1, 0),
    ];
    let results = fuzzy_rank("git", records, 2);
    assert_eq!(texts(&results), vec!["git status", "git log"]);
}

#[test]
fn fts_search_handles_command_punctuation() {
    assert_eq!(build_fts_query("git-status"), Some("\"git-status\"".to_string()));
    assert_eq!(build_fts_query("foo/bar"), Some("\"foo/bar\"".to_string()));
    assert_eq!(build_fts_query("foo.bar"), Some("\"foo.bar\"".to_string()));
    assert_eq!(
        build_fts_query("git status --short"),
        Some("\"git\" \"status\" \"--short\"".to_string())
    );
    assert_eq!(build_fts_query("&& ||"), None);
}

#[test]
fn fts_search_rejects_invalid_limits() {
    for limit in [0, usize::MAX] {
        let error = plan_filtered_search(Some("docker"), &SearchFilters::default(), Some(limit))
            .expect_err("invalid limit should fail");
        assert_eq!(error.kind(), ErrorKind::InvalidInput);
        assert_eq!(error, SearchError::InvalidLimit);
    }
    assert_eq!(
        plan_fuzzy_search("docker", &SearchFilters::default(), 0),
        Err(SearchError::InvalidLimit)
    );
}

#[test]
fn filters_search_results_by_metadata_and_time_window() {
    let plan = plan_filtered_search(
        Some("docker"),
        &SearchFilters {
            cwd: Some("/tmp/app".to_string()),
            repo: Some("app".to_string()),
            branch: Some("fix".to_string()),
            failed: Some(true),
            since: Some(150),
            before: Some(250),
        },
        Some(10),
    )
    .expect("filters should plan");
    let query = match plan {
        SearchPlan::Run(query) => query,
        SearchPlan::NoMatch => panic!("docker is searchable"),
    };
    assert!(query.sql.contains("commands_fts MATCH ?"));
    assert!(query.sql.contains("commands.cwd = ?"));
    assert!(query.sql.contains("commands.git_repo = ?"));
    assert!(query.sql.contains("commands.git_branch = ?"));
    assert!(query.sql.contains("commands.exit_code != 0"));
    assert!(query.sql.contains("commands.executed_at >= ?"));
    assert!(query.sql.contains("commands.executed_at <= ?"));
    assert!(query.sql.ends_with(" LIMIT ?"));
    assert_eq!(
        query.values,
        vec![
            SqlValue::Text("\"docker\"".to_string()),
            SqlValue::Text("/tmp/app".to_string()),
            SqlValue::Text("app".to_string()),
            SqlValue::Text("fix".to_string()),
            SqlValue::Integer(150),
            SqlValue::Integer(250),
            SqlValue::Integer(10),
        ]
    );

    let successful = plan_filtered_search(
        Some("docker"),
        &SearchFilters {
            failed: Some(false),
            ..SearchFilters::default()
        },
        Some(10),
    )
    .expect("successful filter should plan");
    match successful {
        SearchPlan::Run(query) => assert!(query.sql.contains("commands.exit_code = 0")),
        SearchPlan::NoMatch => panic!("docker is searchable"),
    }
}

#[test]
fn reversed_or_negative_time_windows_are_refused() {
    let reversed = SearchFilters {
        since: Some(300),
        before: Some(200),
        ..SearchFilters::default()
    };
    assert_eq!(
        plan_filtered_search(None, &reversed, Some(10)),
        Err(SearchError::InvalidTimeWindow)
    );
    let negative = SearchFilters {
        since: Some(-1),
        ..SearchFilters::default()
    };
    assert_eq!(
        plan_filtered_search(None, &negative, None),
        Err(SearchError::InvalidTimeWindow)
    );
    assert_eq!(
        plan_filtered_search(Some(":::"), &SearchFilters::default(), Some(10)),
        Ok(SearchPlan::NoMatch)
    );
    assert_eq!(
        plan_fuzzy_search(" :: ", &SearchFilters::default(), 10),
        Ok(None)
    );
}

#[test]
fn error_messages_describe_the_problem() {
    assert_eq!(RecordError::EmptyCommandText.message(), "command text cannot be empty");
    assert_eq!(RecordError::NegativeDuration.message(), "duration_ms cannot be negative");
    assert_eq!(SearchError::InvalidLimit.message(), "limit must be between 1 and 100");
    assert_eq!(SearchError::InvalidTimeWindow.message(), "invalid time window");
}

#[test]
fn normalizing_twice_changes_nothing() {
    for command in [
        "gh pr checkout 123 && cargo   test",
        ":",
        "  Git-Status  --Short ",
        "Ünïcode Straße && KELVIN",
        "",
    ] {
        let once = normalize_command_text(command);
        assert_eq!(normalize_command_text(&once), once);
        assert!(!once.starts_with(' ') && !once.ends_with(' ') && !once.contains("  "));
        assert!(!once.chars().any(|c| c.is_ascii_uppercase()));
    }
    assert_eq!(
        normalize_command_text("gh pr checkout 123 && cargo   test"),
        "gh pr checkout 123 cargo test"
    );
    assert_eq!(normalize_command_text(":"), "");
}

#[test]
fn every_character_folds_stably() {
    // The condition of the normalization law, checked for every character.
    let mut checked = 0u32;
    for code in 0..=0x10FFFFu32 {
        if let Some(c) = char::from_u32(code) {
            let once = normalize_one(c);
            assert_eq!(normalize_one(once), once, "character U+{code:04X}");
            checked += 1;
        }
    }
    assert_eq!(checked, 0x110000 - 0x800);
}
