use seekr::config::PrivacyConfig;
use seekr::db::RecordError;
use seekr::{parse_zsh_history, plan_capture, plan_import, CaptureArgs, ErrorKind};

fn capture(command_text: &str) -> CaptureArgs {
    CaptureArgs {
        command_text: command_text.to_string(),
        cwd: "/tmp/project".to_string(),
        executed_at: 1_720_000_000,
        exit_code: 0,
        shell: None,
        duration_ms: None,
        hostname: None,
        git_repo: None,
        git_branch: None,
    }
}

fn redacting() -> PrivacyConfig {
    PrivacyConfig {
        redaction_enabled: true,
        ..PrivacyConfig::default()
    }
}

#[test]
fn empty_capture_command_is_rejected_without_persisting() {
    let error = plan_capture(capture("   "), &PrivacyConfig::default())
        .expect_err("blank capture should fail");
    assert_eq!(error, RecordError::EmptyCommandText);
    assert_eq!(error.kind(), ErrorKind::InvalidInput);
}

#[test]
fn default_capture_preserves_raw_commands() {
    let record = plan_capture(
        capture("export PASSWORD=mysecret123 && deploy"),
        &PrivacyConfig::default(),
    )
    .expect("capture should succeed")
    .expect("command is not ignored");
    assert_eq!(record.command_text, "export PASSWORD=mysecret123 && deploy");
    assert_eq!(record.cwd, "/tmp/project");
    assert_eq!(record.executed_at, 1_720_000_000);
}

#[test]
fn enabled_redaction_masks_secrets_in_capture() {
    let record = plan_capture(capture("export PASSWORD=mysecret123 && deploy"), &redacting())
        .expect("capture should succeed")
        .expect("command is not ignored");
    assert_eq!(record.command_text, "export PASSWORD=<REDACTED> && deploy");
    assert_eq!(record.normalized_text, "export password redacted deploy");
}

#[test]
fn noisy_commands_are_suppressed_in_capture() {
    for noisy in ["ls -la", "cd /tmp", "pwd", "clear"] {
        assert_eq!(
            plan_capture(capture(noisy), &PrivacyConfig::default()),
            Ok(None)
        );
    }
}

#[test]
fn custom_ignore_pattern_suppresses_capture() {
    let privacy = PrivacyConfig {
        redaction_enabled: false,
        ignore_commands: vec!["docker".to_string(), "kubectl".to_string()],
    };
    assert_eq!(plan_capture(capture("docker compose up"), &privacy), Ok(None));
    let kept = plan_capture(capture("cargo test"), &privacy)
        .expect("capture should succeed")
        .expect("cargo is not ignored");
    assert_eq!(kept.command_text, "cargo test");
    // The ignore rules replace the defaults.
    assert!(plan_capture(capture("ls -la"), &privacy).expect("valid").is_some());
}

#[test]
fn capture_keeps_its_metadata() {
    let mut args = capture("make build");
    args.exit_code = 2;
    args.shell = Some("bash".to_string());
    args.duration_ms = Some(1_500);
    args.hostname = Some("box".to_string());
    args.git_repo = Some("/src/seekr".to_string());
    args.git_branch = Some("main".to_string());
    let record = plan_capture(args, &PrivacyConfig::default())
        .expect("valid")
        .expect("kept");
    assert_eq!(record.exit_code, 2);
    assert_eq!(record.shell.as_deref(), Some("bash"));
    assert_eq!(record.duration_ms, Some(1_500));
    assert_eq!(record.hostname.as_deref(), Some("box"));
    assert_eq!(record.git_repo.as_deref(), Some("/src/seekr"));
    assert_eq!(record.git_branch.as_deref(), Some("main"));
}

#[test]
fn capture_rejects_negative_numbers() {
    let mut args = capture("make");
    args.duration_ms = Some(-5);
    assert_eq!(
        plan_capture(args, &PrivacyConfig::default()),
        Err(RecordError::NegativeDuration)
    );
}

#[test]
fn import_counts_invalid_utf8_line_as_failed() {
    let entries = parse_zsh_history(b"git status\ninvalid \xff line\ncargo test\n", 5);
    let plan = plan_import(&entries, &PrivacyConfig::default(), &"/tmp".to_string());
    assert_eq!(plan.records.len(), 2);
    assert_eq!(plan.skipped, 0);
    assert_eq!(plan.failed, 1);
    assert_eq!(
        seekr::import_summary(plan.records.len(), plan.skipped, plan.failed),
        "Import complete: inserted: 2, skipped: 0, failed: 1."
    );
}
