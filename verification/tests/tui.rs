use seekr::db::CollapsedRecord;
use seekr::tui::{
    shell_output, visible_result_start, Action, App, KeyCode, KeyEvent, KeyModifiers, LoopStep,
    RefreshRequest, RECENT_LIMIT, RESULT_LIMIT,
};

fn key(code: KeyCode) -> KeyEvent {
    KeyEvent::new(code, KeyModifiers::none())
}

fn record(command_text: &str) -> CollapsedRecord {
    CollapsedRecord {
        command_text: command_text.into(),
        normalized_text: command_text.into(),
        repeat_count: 1,
        most_recent_executed_at: 1,
        most_recent_cwd: "/tmp".into(),
        most_recent_exit_code: 0,
        all_same_exit: true,
        repo: None,
        branch: None,
    }
}

fn record_at(command_text: &str, executed_at: i64) -> CollapsedRecord {
    CollapsedRecord {
        most_recent_executed_at: executed_at,
        ..record(command_text)
    }
}

#[test]
fn typing_adds_characters() {
    let mut app = App::default();
    app.handle_key(key(KeyCode::Char('d')));
    app.handle_key(key(KeyCode::Char('o')));
    app.handle_key(key(KeyCode::Char('c')));
    assert_eq!(app.input, "doc");
}

#[test]
fn backspace_removes_last_character() {
    let mut app = App::default();
    app.handle_key(key(KeyCode::Char('a')));
    app.handle_key(key(KeyCode::Char('b')));
    app.handle_key(key(KeyCode::Backspace));
    assert_eq!(app.input, "a");
}

#[test]
fn backspace_on_empty_input_does_nothing() {
    let mut app = App::default();
    app.handle_key(key(KeyCode::Backspace));
    assert_eq!(app.input, "");
}

#[test]
fn clearing_input_keeps_results_until_the_next_refresh() {
    let mut app = App {
        input: "a".into(),
        results: vec![record("cargo test")],
        ..App::default()
    };

    app.handle_key(key(KeyCode::Backspace));

    assert_eq!(app.results.len(), 1);
}

#[test]
fn result_window_keeps_selection_visible() {
    assert_eq!(visible_result_start(2, 5), 0);
    assert_eq!(visible_result_start(7, 5), 3);
}

#[test]
fn up_and_down_navigate_results() {
    let mut app = App::default();
    app.set_results(vec![record_at("cargo test", 1), record_at("cargo build", 2)]);

    assert_eq!(app.selected, 0);
    app.handle_key(key(KeyCode::Down));
    assert_eq!(app.selected, 1);
    app.handle_key(key(KeyCode::Down));
    assert_eq!(app.selected, 1);
    app.handle_key(key(KeyCode::Up));
    assert_eq!(app.selected, 0);
    app.handle_key(key(KeyCode::Up));
    assert_eq!(app.selected, 0);
}

#[test]
fn enter_selects_current_result() {
    let mut app = App::default();
    app.set_results(vec![record("cargo test")]);

    match app.handle_key(key(KeyCode::Enter)) {
        Action::Insert(text) => assert_eq!(text, "cargo test"),
        _ => panic!("expected Insert"),
    }
}

#[test]
fn enter_on_empty_results_does_nothing() {
    let mut app = App::default();
    match app.handle_key(key(KeyCode::Enter)) {
        Action::Continue => {}
        _ => panic!("expected Continue on empty results"),
    }
}

#[test]
fn esc_quits() {
    let mut app = App::default();
    match app.handle_key(key(KeyCode::Esc)) {
        Action::Quit => {}
        _ => panic!("expected Quit"),
    }
}

#[test]
fn q_is_typed() {
    let mut app = App::default();
    assert!(matches!(
        app.handle_key(key(KeyCode::Char('q'))),
        Action::Continue
    ));
    assert_eq!(app.input, "q");
}

#[test]
fn selected_resets_when_results_shrink() {
    let mut app = App::default();
    app.set_results(vec![record_at("a", 1), record_at("b", 2)]);
    app.handle_key(key(KeyCode::Down));
    assert_eq!(app.selected, 1);
    app.set_results(vec![record_at("a", 1)]);
    assert_eq!(app.selected, 0);
}

#[test]
fn copy_and_rerun_are_explicit_actions_on_raw_text() {
    let mut app = App::default();
    app.set_results(vec![record("cargo   test -- --exact")]);

    assert_eq!(
        app.handle_key(KeyEvent::new(KeyCode::Char('y'), KeyModifiers::control_only())),
        Action::Copy("cargo   test -- --exact".into())
    );
    assert_eq!(
        app.handle_key(KeyEvent::new(KeyCode::F(5), KeyModifiers::none())),
        Action::Rerun("cargo   test -- --exact".into())
    );
}

#[test]
fn terminal_portable_shortcuts_avoid_line_editing_collisions() {
    let mut app = App::default();
    app.set_results(vec![record("cargo test")]);

    assert_eq!(
        app.handle_key(KeyEvent::new(KeyCode::Char('y'), KeyModifiers::control_only())),
        Action::Copy("cargo test".into())
    );
    assert_eq!(
        app.handle_key(KeyEvent::new(KeyCode::F(5), KeyModifiers::none())),
        Action::Rerun("cargo test".into())
    );
    assert_eq!(
        app.handle_key(KeyEvent::new(KeyCode::Char('e'), KeyModifiers::control_only())),
        Action::Continue
    );
}

#[test]
fn empty_search_shows_recent_commands_and_hint() {
    let app = App {
        results: vec![record("docker compose up")],
        ..App::default()
    };

    let title = app.results_title();
    assert!(title.contains("Recent commands"));
    assert!(title.contains("type to search"));
    let (command, repeat) = app.result_row(0);
    assert!(command.contains("docker compose up"));
    assert_eq!(repeat, "");
}

#[test]
fn shell_output_preserves_raw_multiline_command() {
    assert_eq!(
        shell_output("insert", "printf 'one  two'\nprintf three"),
        "insert\nprintf 'one  two'\nprintf three"
    );
    assert_eq!(shell_output("rerun", "cargo test"), "rerun\ncargo test");
}

#[test]
fn shifted_characters_are_typed_but_alt_characters_are_not() {
    let mut app = App::default();
    app.handle_key(KeyEvent::new(KeyCode::Char('A'), KeyModifiers::shift_only()));
    let alt = KeyModifiers {
        alt: true,
        ..KeyModifiers::none()
    };
    app.handle_key(KeyEvent::new(KeyCode::Char('b'), alt));
    assert_eq!(app.input, "A");
}

#[test]
fn copy_with_no_results_does_nothing() {
    let mut app = App::default();
    assert_eq!(
        app.handle_key(KeyEvent::new(KeyCode::Char('y'), KeyModifiers::control_only())),
        Action::Continue
    );
    assert_eq!(
        app.handle_key(KeyEvent::new(KeyCode::F(5), KeyModifiers::none())),
        Action::Continue
    );
    assert_eq!(app.input, "");
}

#[test]
fn results_grown_keep_selection() {
    let mut app = App::default();
    app.set_results(vec![record("a"), record("b"), record("c")]);
    app.handle_key(key(KeyCode::Down));
    app.handle_key(key(KeyCode::Down));
    assert_eq!(app.selected, 2);
    app.set_results(vec![]);
    assert_eq!(app.selected, 0);
}

#[test]
fn visible_window_edges() {
    assert_eq!(visible_result_start(0, 0), 0);
    assert_eq!(visible_result_start(4, 5), 0);
    assert_eq!(visible_result_start(5, 5), 1);
    assert_eq!(visible_result_start(9, 1), 9);
}

#[test]
fn loop_steps_follow_the_key() {
    let mut app = App::default();
    app.set_results(vec![record("ls -la")]);
    assert_eq!(app.process_key(key(KeyCode::Char('l'))), LoopStep::Refresh);
    assert_eq!(app.process_key(key(KeyCode::Down)), LoopStep::Stay);
    assert_eq!(
        app.process_key(key(KeyCode::Enter)),
        LoopStep::Exit("insert\nls -la".to_string())
    );
    assert_eq!(
        app.process_key(KeyEvent::new(KeyCode::F(5), KeyModifiers::none())),
        LoopStep::Exit("rerun\nls -la".to_string())
    );
    assert_eq!(
        app.process_key(KeyEvent::new(KeyCode::Char('y'), KeyModifiers::control_only())),
        LoopStep::Copy("ls -la".to_string())
    );
    assert_eq!(
        app.process_key(KeyEvent::new(KeyCode::Char('c'), KeyModifiers::control_only())),
        LoopStep::Exit(String::new())
    );
    assert_eq!(app.process_key(key(KeyCode::Esc)), LoopStep::Exit(String::new()));
}

#[test]
fn refresh_request_depends_on_the_query() {
    let mut app = App::default();
    assert_eq!(app.refresh_request(), RefreshRequest::Recent(RECENT_LIMIT));
    app.handle_key(key(KeyCode::Char('g')));
    assert_eq!(
        app.refresh_request(),
        RefreshRequest::Fuzzy("g".to_string(), RESULT_LIMIT)
    );
}

#[test]
fn failed_refresh_reports_error_and_success_clears_it() {
    let mut app = App::default();
    app.apply_refresh(Err("disk".to_string()));
    assert_eq!(app.error, Some("Search error: disk".to_string()));
    app.apply_refresh(Ok(vec![record("pwd")]));
    assert_eq!(app.results.len(), 1);
}

#[test]
fn copy_outcome_sets_status() {
    let mut app = App::default();
    app.record_copy(None);
    assert_eq!(app.status, Some("Copied raw command to clipboard.".to_string()));
    app.record_copy(Some("no provider".to_string()));
    assert_eq!(app.status, Some("Copy unavailable: no provider".to_string()));
}

#[test]
fn titles_and_placeholders() {
    let mut app = App::default();
    assert_eq!(
        app.placeholder(),
        "No command history yet — type to search after running commands."
    );
    app.handle_key(key(KeyCode::Char('x')));
    assert_eq!(app.placeholder(), "No matching commands.");
    app.set_results(vec![record("a"), record("b")]);
    assert_eq!(app.results_title(), "Results (2)");
}

#[test]
fn selected_row_is_marked_and_repeats_shown() {
    let mut app = App::default();
    let mut repeated = record("make");
    repeated.repeat_count = 3;
    app.set_results(vec![repeated, record("ls")]);
    assert_eq!(app.result_row(0), ("> make".to_string(), "  (x3)".to_string()));
    assert_eq!(app.result_row(1), ("  ls".to_string(), String::new()));
}

#[test]
fn hook_splits_output_at_the_first_newline() {
    let out = shell_output("rerun", "printf 'a'\n  printf 'b'\n");
    let (action, text) = out.split_once('\n').expect("protocol has a newline");
    assert_eq!(action, "rerun");
    assert_eq!(text, "printf 'a'\n  printf 'b'\n");
}

#[test]
fn successful_refresh_keeps_status_and_error_and_clamps_selection() {
    let mut app = App::default();
    app.set_results(vec![record("a"), record("b"), record("c")]);
    app.handle_key(key(KeyCode::Down));
    app.handle_key(key(KeyCode::Down));
    app.record_copy(None);
    app.apply_refresh(Err("busy".to_string()));
    app.apply_refresh(Ok(vec![record("x"), record("y")]));
    assert_eq!(app.selected, 1);
    assert_eq!(app.error, Some("Search error: busy".to_string()));
    assert_eq!(app.status, Some("Copied raw command to clipboard.".to_string()));
}

#[test]
fn loop_moves_selection_and_acts_on_the_moved_row() {
    let mut app = App::default();
    app.set_results(vec![record("first"), record("second"), record("third")]);
    assert_eq!(app.process_key(key(KeyCode::Down)), LoopStep::Stay);
    assert_eq!(app.process_key(key(KeyCode::Down)), LoopStep::Stay);
    assert_eq!(app.process_key(key(KeyCode::Down)), LoopStep::Stay);
    assert_eq!(app.selected, 2);
    assert_eq!(app.process_key(key(KeyCode::Up)), LoopStep::Stay);
    assert_eq!(app.selected, 1);
    assert_eq!(
        app.process_key(key(KeyCode::Enter)),
        LoopStep::Exit("insert\nsecond".to_string())
    );
    assert_eq!(app.selected, 1);
    assert_eq!(app.input, "");
}
