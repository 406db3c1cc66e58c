use terminal_window_manager::diagnostics::{
    append_output_chunk, classify_posix_shell, create_app_log_path, create_crash_snapshot_path,
    create_panic_dialog_detail, create_power_shell_bootstrap_script, create_recent_output_excerpt,
    escape_power_shell_literal, session_diagnostics_directory, session_diagnostics_paths,
    strip_ansi, MAX_OUTPUT_LINES,
};
use terminal_window_manager::models::{
    is_builtin_shell, normalize_custom_shells, AppDefaults,
    AppState, TerminalActivity, TerminalProgressInfo, TerminalProgressState, TerminalStatus,
};
use terminal_window_manager::osc_progress::OscProgressParser;

#[test]
fn ansi_sequences_are_stripped() {
    assert_eq!(strip_ansi("\u{1b}[31mred\u{1b}[0m plain"), "red plain");
    assert_eq!(strip_ansi("no escapes"), "no escapes");
}

#[test]
fn output_lines_are_buffered_and_bounded() {
    let mut lines = Vec::new();
    let mut pending = String::new();
    append_output_chunk(&mut lines, &mut pending, "one\r\ntwo\rthr");
    assert_eq!(lines, vec!["one".to_string(), "two".to_string()]);
    assert_eq!(pending, "thr");
    append_output_chunk(&mut lines, &mut pending, "ee\n");
    assert_eq!(lines.last().unwrap(), "three");
    assert_eq!(pending, "");
    let many: String = (0..150).map(|i| format!("l{i}\n")).collect();
    append_output_chunk(&mut lines, &mut pending, &many);
    assert_eq!(lines.len(), MAX_OUTPUT_LINES);
    assert_eq!(lines[0], "l50");
}

#[test]
fn recent_output_excerpt_keeps_last_twenty_lines() {
    let lines: Vec<String> = (0..30).map(|i| format!("line{i}")).collect();
    let excerpt = create_recent_output_excerpt(&lines, "  tail  ");
    let parts: Vec<&str> = excerpt.split('\n').collect();
    assert_eq!(parts.len(), 20);
    assert_eq!(parts[0], "line11");
    assert_eq!(parts[19], "tail");
    assert_eq!(create_recent_output_excerpt(&[], "   "), "");
}

#[test]
fn paths_join_under_the_app_data_directory() {
    let log = create_app_log_path("/data");
    assert_eq!(log, "/data/app.log");
    assert_eq!(create_app_log_path("/data/"), "/data/app.log");
    assert_eq!(create_app_log_path(""), "app.log");
    let dir = session_diagnostics_directory("/data", "term-1", "sess-1");
    assert_eq!(dir, "/data/terminal-diagnostics/term-1/sess-1");
    let paths = session_diagnostics_paths(&dir);
    assert!(paths.events_path.ends_with("/events.jsonl"));
    assert!(paths.power_shell_bootstrap_path.ends_with("/powershell-bootstrap.ps1"));
    assert!(paths.posix_shell_hook_path.ends_with("/posix-shell-hook.sh"));
    assert!(paths.posix_zsh_dotdir_path.ends_with("/zsh-dotdir"));
    let snapshot = create_crash_snapshot_path("/data", "20240131T235959Z");
    assert_eq!(snapshot, "/data/app-crash-20240131T235959Z.log");
}

#[test]
fn panic_detail_and_power_shell_quoting() {
    assert_eq!(create_panic_dialog_detail("main", Some("a.rs:1:2")), "Thread: main\nLocation: a.rs:1:2");
    assert_eq!(create_panic_dialog_detail("main", None), "Thread: main");
    assert_eq!(escape_power_shell_literal("it's"), "it''s");
    let script = create_power_shell_bootstrap_script("t'1", "s", "C:\\e.jsonl");
    assert!(script.starts_with("$script:__twmTerminalId = 't''1'\n$script:__twmSessionId = 's'"));
    assert!(script.contains("function global:prompt"));
}

#[test]
fn identifiers_and_timestamps() {
    let mut manager = terminal_window_manager::session::SessionManager::new(AppState::create_initial(
        AppDefaults { default_cwd: "/".to_string(), default_shell: "sh".to_string(), custom_shells: vec![] },
    ));
    let now = chrono::Utc::now().to_rfc3339();
    let first = manager
        .create_project("a".to_string(), uuid::Uuid::new_v4().to_string(), &now)
        .unwrap()
        .projects[0]
        .clone();
    let second = manager
        .create_project("b".to_string(), uuid::Uuid::new_v4().to_string(), &now)
        .unwrap()
        .projects[1]
        .clone();
    assert_eq!(first.id.len(), 36);
    assert!(first.id.chars().all(|c| c == '-' || c.is_ascii_hexdigit() && !c.is_ascii_uppercase()));
    assert_ne!(first.id, second.id);
    assert_eq!(first.created_at, now);
    assert_eq!(TerminalActivity::for_status(TerminalStatus::Running, &now).updated_at, now);
}

#[test]
fn activity_follows_status() {
    let starting = TerminalActivity::for_status(TerminalStatus::Starting, "t");
    assert_eq!(starting.summary, "Starting session");
    assert_eq!(starting.progress, 12);
    assert!(starting.is_indeterminate);
    let stopped = TerminalActivity::for_status(TerminalStatus::Stopped, "t");
    assert_eq!(stopped.summary, "Not started");
    assert_eq!(stopped.progress, 0);
    let none = TerminalProgressInfo::none("t");
    assert_eq!(none.state, TerminalProgressState::NoProgress);
    assert_eq!(none.value, 0);
    assert_eq!(none.updated_at, "t");
}

#[test]
fn custom_shells_are_cleaned() {
    assert!(is_builtin_shell(" PWSH.exe "));
    assert!(!is_builtin_shell("bash"));
    let cleaned = normalize_custom_shells(
        vec![" bash ".to_string(), "BASH".to_string(), "cmd".to_string(), " ".to_string(), "zsh".to_string()],
        Some("fish"),
    );
    assert_eq!(cleaned, vec!["fish".to_string(), "bash".to_string(), "zsh".to_string()]);
    let again = normalize_custom_shells(cleaned.clone(), None);
    assert_eq!(again, cleaned);
}

#[test]
fn loaded_state_settles_running_terminals() {
    let mut state = AppState::create_initial(AppDefaults {
        default_cwd: "/".to_string(),
        default_shell: "sh".to_string(),
        custom_shells: vec![],
    });
    let snapshot = state.persistent_snapshot("t");
    assert_eq!(snapshot.projects.len(), 0);
    state.normalize_loaded_state("/fallback", "zsh", "t", &vec![]);
    assert_eq!(state.defaults.default_cwd, "/");
    assert_eq!(state.defaults.custom_shells, vec!["sh".to_string()]);
}

#[test]
fn osc_parser_conserves_plain_bytes() {
    let mut parser = OscProgressParser::new();
    let input = b"abc\x1b]9;4;1;10\x07def\x1b[1m".to_vec();
    let parsed = parser.parse_chunk(&input);
    assert_eq!(parsed.visible, b"abcdef\x1b[1m".to_vec());
    assert_eq!(parsed.progress_events, vec![(1, 10)]);
    assert_eq!(parser.pending_len(), 0);
}

#[test]
fn classification_ignores_letter_case() {
    for shell in ["ZSH", "/BIN/Bash -l", "'Sh'", "\"/usr/local/bin/ZSH\"", "PWSH.EXE", "Fish", "BASH.EXE"] {
        assert_eq!(
            classify_posix_shell(shell),
            classify_posix_shell(&shell.to_ascii_lowercase()),
            "input {shell:?}"
        );
    }
}

#[test]
fn repairing_twice_changes_nothing_more() {
    let mut state = AppState::create_initial(AppDefaults {
        default_cwd: " ".to_string(),
        default_shell: "bash".to_string(),
        custom_shells: vec![" fish ".to_string(), "BASH".to_string()],
    });
    state.normalize_loaded_state("/fallback", "zsh", "first", &vec![]);
    let once = state.clone();
    state.normalize_loaded_state("/other", "sh", "second", &vec![]);
    assert_eq!(state, once);
    assert_eq!(state.defaults.custom_shells, vec!["bash".to_string(), "fish".to_string()]);
}
