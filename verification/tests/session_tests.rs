use terminal_window_manager::models::{
    AppDefaults, AppState, TerminalActivityPhase, TerminalStatus,
};
use terminal_window_manager::pty_host::{host_argument, parse_host_arguments};
use terminal_window_manager::session::{
    capture_shell_output, clamp_terminal_size, decode_output_chunk, describe_input_activity,
    describe_session_error, helper_arguments, i32_text, is_power_shell_shell,
    session_not_running_message, text_of_decoded_chunk, u32_text, AppStateStore,
    HelperErrorEvent, HelperExitEvent, HelperOutputEvent, HelperStartedEvent, LiveSession,
    SessionManager, helper_not_found_message, SessionStep,
};

const NOW: &str = "2024-05-01T12:00:00+00:00";

fn fresh_id() -> String {
    uuid::Uuid::new_v4().to_string()
}

fn defaults() -> AppDefaults {
    AppDefaults {
        default_cwd: "/home/user".to_string(),
        default_shell: "/bin/zsh".to_string(),
        custom_shells: vec![],
    }
}

fn manager() -> SessionManager {
    SessionManager::new(AppState::create_initial(defaults()))
}

fn manager_with_terminal() -> (SessionManager, String, String) {
    let mut m = manager();
    let state = m.create_project("  Work  ".to_string(), fresh_id(), NOW).expect("project");
    let project_id = state.projects[0].id.clone();
    let state = m
        .create_terminal(project_id.clone(), " Shell ".to_string(), " /tmp ".to_string(), None, fresh_id(), NOW)
        .expect("terminal");
    let terminal_id = state.terminals[0].id.clone();
    (m, project_id, terminal_id)
}

fn links_hold(state: &AppState) -> bool {
    state
        .terminals
        .iter()
        .all(|t| state.projects.iter().any(|p| p.id == t.project_id))
        && state
            .active_terminal_id
            .as_ref()
            .map_or(true, |a| state.terminals.iter().any(|t| &t.id == a))
}

#[test]
fn project_names_are_trimmed_and_required() {
    let mut m = manager();
    assert_eq!(
        m.create_project("   ".to_string(), fresh_id(), NOW).unwrap_err(),
        "Project name cannot be empty."
    );
    let state = m.create_project("  Work  ".to_string(), fresh_id(), NOW).unwrap();
    assert_eq!(state.projects.len(), 1);
    assert_eq!(state.projects[0].name, "Work");
    assert_eq!(state.projects[0].id.len(), 36);
    let id = state.projects[0].id.clone();
    let state = m.rename_project(id.clone(), " Play ".to_string()).unwrap();
    assert_eq!(state.projects[0].name, "Play");
    assert_eq!(
        m.rename_project("missing".to_string(), "x".to_string()).unwrap_err(),
        "Project 'missing' was not found."
    );
}

#[test]
fn terminals_take_trimmed_fields_and_default_shell() {
    let (m, project_id, _) = manager_with_terminal();
    let state = m.snapshot_state();
    let t = &state.terminals[0];
    assert_eq!(t.project_id, project_id);
    assert_eq!(t.name, "Shell");
    assert_eq!(t.cwd, "/tmp");
    assert_eq!(t.shell, "/bin/zsh");
    assert_eq!(t.status, TerminalStatus::Stopped);
    assert_eq!(t.activity.summary, "Not started");

    let mut m = m;
    let state = m
        .create_terminal(project_id.clone(), "b".to_string(), "/".to_string(), Some(" bash ".to_string()), fresh_id(), NOW)
        .unwrap();
    assert_eq!(state.terminals[1].shell, "bash");
    assert_eq!(
        m.create_terminal(project_id.clone(), " ".to_string(), "/".to_string(), None, fresh_id(), NOW)
            .unwrap_err(),
        "Terminal name cannot be empty."
    );
    assert_eq!(
        m.create_terminal(project_id, "n".to_string(), " ".to_string(), None, fresh_id(), NOW)
            .unwrap_err(),
        "Terminal working directory cannot be empty."
    );
    assert_eq!(
        m.create_terminal("nope".to_string(), "n".to_string(), "/".to_string(), None, fresh_id(), NOW)
            .unwrap_err(),
        "Project 'nope' was not found."
    );
}

#[test]
fn deleting_a_project_removes_its_terminals_and_keeps_links() {
    let (mut m, project_id, terminal_id) = manager_with_terminal();
    let other = m.create_project("Other".to_string(), fresh_id(), NOW).unwrap().projects[1].id.clone();
    let state = m
        .create_terminal(other.clone(), "o".to_string(), "/".to_string(), None, fresh_id(), NOW)
        .unwrap();
    let other_terminal = state.terminals[1].id.clone();
    m.activate_terminal(terminal_id.clone());
    assert!(links_hold(&m.snapshot_state()));
    assert_eq!(m.project_terminal_ids(&project_id).unwrap(), vec![terminal_id.clone()]);
    let state = m.delete_project(project_id.clone()).unwrap();
    assert_eq!(state.projects.len(), 1);
    assert_eq!(state.terminals.len(), 1);
    assert_eq!(state.terminals[0].id, other_terminal);
    assert_eq!(state.active_terminal_id, None);
    assert!(links_hold(&state));
    assert_eq!(
        m.delete_project(project_id.clone()).unwrap_err(),
        format!("Project '{}' was not found.", project_id)
    );
}

#[test]
fn deleting_the_active_terminal_clears_it() {
    let (mut m, _, terminal_id) = manager_with_terminal();
    m.activate_terminal(terminal_id.clone());
    assert_eq!(m.snapshot_state().active_terminal_id, Some(terminal_id.clone()));
    let state = m.delete_terminal(terminal_id);
    assert!(state.terminals.is_empty());
    assert_eq!(state.active_terminal_id, None);
    assert!(links_hold(&state));
}

#[test]
fn renaming_and_restarting_a_terminal() {
    let (mut m, _, terminal_id) = manager_with_terminal();
    let state = m.rename_terminal(terminal_id.clone(), "  Build ".to_string()).unwrap();
    assert_eq!(state.terminals[0].name, "Build");
    assert_eq!(
        m.rename_terminal(terminal_id.clone(), " ".to_string()).unwrap_err(),
        "Terminal name cannot be empty."
    );
    assert_eq!(
        m.restart_terminal(&"x".to_string(), NOW).unwrap_err(),
        "Terminal 'x' was not found."
    );
    m.restart_terminal(&terminal_id, NOW).unwrap();
    assert_eq!(m.snapshot_state().terminals[0].status, TerminalStatus::Stopped);
}

#[test]
fn a_session_starts_runs_and_exits() {
    let (mut m, _, terminal_id) = manager_with_terminal();
    let launched = m
        .start_session(&terminal_id, "/tmp/events.jsonl".to_string(), NOW)
        .unwrap();
    assert_eq!(launched.status, TerminalStatus::Starting);
    assert_eq!(launched.diagnostic_log_path, Some("/tmp/events.jsonl".to_string()));
    assert!(m.should_resize_existing_session(&terminal_id));

    let mut session = LiveSession::new("sess-1".to_string());
    m.handle_helper_started(
        &terminal_id,
        &mut session,
        &HelperStartedEvent {
            session_id: "sess-1".to_string(),
            shell_pid: 42,
            shell_path: "/bin/zsh".to_string(),
            diagnostic_log_path: "/tmp/log".to_string(),
            started_at: "now".to_string(),
        },
        NOW,
    );
    assert!(session.received_started_event);
    assert_eq!(m.snapshot_state().terminals[0].status, TerminalStatus::Running);

    let (changed, update) = m
        .handle_helper_output(
            &terminal_id,
            &mut session,
            &HelperOutputEvent { data_base64: "aGVsbG8Kd29y".to_string() },
            NOW,
        )
        .unwrap();
    assert!(changed);
    assert_eq!(session.recent_output_lines, vec!["hello".to_string()]);
    assert_eq!(session.pending_output_line, "wor");
    assert_eq!(update.summary, "Ready");
    assert_eq!(update.delay_ms, 1600);
    assert_eq!(
        m.snapshot_state().terminals[0].activity.phase,
        TerminalActivityPhase::Streaming
    );

    let terminal = m.snapshot_state().terminals[0].clone();
    let result = m.handle_helper_exit(
        &terminal,
        &mut session,
        &HelperExitEvent {
            session_id: "sess-1".to_string(),
            exit_code: Some(3),
            exited_at: "later".to_string(),
            shell_pid: Some(42),
            shell_path: "/bin/zsh".to_string(),
            diagnostic_log_path: "/tmp/log".to_string(),
            stderr_excerpt: None,
        },
        NOW,
    );
    let (stderr, recent) = result.expect("the first exit counts");
    assert_eq!(stderr, None);
    assert_eq!(recent, "hello\nwor");
    assert!(session.closed);
    let state = m.snapshot_state();
    assert_eq!(state.terminals[0].status, TerminalStatus::Exited);
    assert_eq!(state.terminals[0].last_exit_code, Some(3));
    let failure = state.terminals[0].last_session_failure.clone().unwrap();
    assert_eq!(failure.message, "The shell exited with code 3.");
    assert!(!m.should_resize_existing_session(&terminal_id));
    // A second exit of the same session changes nothing.
    assert!(m
        .handle_helper_exit(
            &terminal,
            &mut session,
            &HelperExitEvent {
                session_id: "sess-1".to_string(),
                exit_code: Some(9),
                exited_at: "later".to_string(),
                shell_pid: None,
                shell_path: "/bin/zsh".to_string(),
                diagnostic_log_path: "/tmp/log".to_string(),
                stderr_excerpt: None,
            },
            NOW,
        )
        .is_none());
    assert_eq!(m.snapshot_state().terminals[0].last_exit_code, Some(3));
}

#[test]
fn a_helper_error_asks_for_attention() {
    let (mut m, _, terminal_id) = manager_with_terminal();
    let terminal = m.snapshot_state().terminals[0].clone();
    let mut session = LiveSession::new("sess-2".to_string());
    terminal_window_manager::session::append_helper_stderr_line(&mut session, "bad thing");
    let (stderr, _) = m
        .handle_helper_error(
            &terminal,
            &mut session,
            &HelperErrorEvent {
                session_id: None,
                message: "It failed.".to_string(),
                diagnostic_log_path: None,
                exception_type: Some("X".to_string()),
                hresult: Some(-1),
                win32_error_code: None,
                occurred_at: "now".to_string(),
                shell_path: None,
                shell_pid: Some(7),
            },
            NOW,
            &fresh_id(),
        )
        .unwrap();
    assert_eq!(stderr, Some("bad thing".to_string()));
    let t = &m.snapshot_state().terminals[0];
    assert_eq!(t.status, TerminalStatus::Error);
    assert_eq!(t.activity.phase, TerminalActivityPhase::Attention);
    assert_eq!(t.activity.detail, "It failed. PID 7 Helper stderr: bad thing");
    let failure = t.last_session_failure.clone().unwrap();
    assert_eq!(failure.shell_path, terminal.shell);
    assert_eq!(failure.session_id.len(), 36);
    assert_eq!(t.activity.updated_at, NOW);
    let _ = terminal_id;
}

#[test]
fn a_helper_that_ends_before_starting_is_an_error() {
    let (mut m, _, _) = manager_with_terminal();
    let terminal = m.snapshot_state().terminals[0].clone();
    let mut session = LiveSession::new("sess-3".to_string());
    m.handle_child_exit(&terminal, &mut session, Some(1), NOW).unwrap();
    let failure = m.snapshot_state().terminals[0].last_session_failure.clone().unwrap();
    assert_eq!(failure.exception_type, Some("HelperStartupExit".to_string()));
    assert_eq!(failure.session_id, "sess-3");
    assert!(session.is_finished());

    let (mut m, _, _) = manager_with_terminal();
    let terminal = m.snapshot_state().terminals[0].clone();
    let mut session = LiveSession::new("sess-4".to_string());
    session.received_started_event = true;
    m.handle_child_exit(&terminal, &mut session, None, NOW).unwrap();
    let state = m.snapshot_state();
    assert_eq!(state.terminals[0].status, TerminalStatus::Exited);
    assert_eq!(
        state.terminals[0].last_session_failure.clone().unwrap().message,
        "The shell exited with code unknown."
    );

    let (mut m, _, _) = manager_with_terminal();
    let terminal = m.snapshot_state().terminals[0].clone();
    let mut session = LiveSession::new("sess-5".to_string());
    m.handle_child_process_error(&terminal, &mut session, "pipe broke".to_string(), NOW, "sess-6");
    let failure = m.snapshot_state().terminals[0].last_session_failure.clone().unwrap();
    assert_eq!(failure.exception_type, Some("ChildProcessError".to_string()));
    assert_eq!(failure.message, "pipe broke");
    assert_eq!(failure.session_id, "sess-6");
    assert_eq!(failure.timestamp, NOW);
}

#[test]
fn new_records_take_the_given_id_and_time() {
    let mut m = manager();
    let state = m.create_project("p".to_string(), "project-7".to_string(), "t1").unwrap();
    assert_eq!(state.projects[0].id, "project-7");
    assert_eq!(state.projects[0].created_at, "t1");
    let state = m
        .create_terminal("project-7".to_string(), "t".to_string(), "/".to_string(), None, "term-9".to_string(), "t2")
        .unwrap();
    let t = &state.terminals[0];
    assert_eq!(t.id, "term-9");
    assert_eq!(t.created_at, "t2");
    assert_eq!(t.activity.updated_at, "t2");
    assert_eq!(t.progress_info.updated_at, "t2");
    let launched = m.start_session(&"term-9".to_string(), "/e".to_string(), "t3").unwrap();
    assert_eq!(launched.last_started_at, Some("t3".to_string()));
    assert_eq!(launched.activity.updated_at, "t3");
    let (changed, _) = m.record_input(&"term-9".to_string(), "x", "t4").unwrap();
    assert!(changed);
    assert_eq!(m.snapshot_state().terminals[0].activity.updated_at, "t4");
}

#[test]
fn blank_stored_ids_take_the_fresh_ones() {
    let mut stored = AppState::create_initial(defaults());
    let mut m = SessionManager::new(AppState::create_initial(defaults()));
    let state = m.create_project("p".to_string(), "pid".to_string(), NOW).unwrap();
    let state_with_terminal = m
        .create_terminal("pid".to_string(), "t".to_string(), "/".to_string(), None, "tid".to_string(), NOW)
        .unwrap();
    stored.projects = state.projects.clone();
    stored.projects[0].id = " ".to_string();
    stored.projects[0].created_at = String::new();
    stored.terminals = state_with_terminal.terminals.clone();
    stored.terminals[0].id = String::new();
    let store = AppStateStore::new("/tmp/meta.json".to_string());
    let loaded = store.loaded_state(
        Some(stored),
        defaults(),
        "/x",
        "sh",
        "loaded-at",
        &vec!["fresh-p".to_string(), "fresh-t".to_string()],
    );
    assert_eq!(loaded.projects[0].id, "fresh-p");
    assert_eq!(loaded.projects[0].created_at, "loaded-at");
    assert_eq!(loaded.terminals[0].id, "fresh-t");
    assert_eq!(loaded.terminals[0].activity.updated_at, "loaded-at");
}

#[test]
fn only_the_latest_scheduled_activity_applies() {
    let (mut m, _, terminal_id) = manager_with_terminal();
    let (_, first) = m.record_input(&terminal_id, "ls", NOW).unwrap();
    assert_eq!(first.summary, "Waiting for output");
    assert_eq!(m.snapshot_state().terminals[0].activity.summary, "Sending input");
    let (_, second) = m.record_input(&terminal_id, "ls\r", NOW).unwrap();
    assert_eq!(m.snapshot_state().terminals[0].activity.summary, "Running command");
    assert_ne!(first.token, second.token);
    assert_eq!(m.apply_scheduled_activity(first, NOW), Ok(false));
    assert_eq!(m.snapshot_state().terminals[0].activity.summary, "Running command");
    assert_eq!(m.apply_scheduled_activity(second, NOW), Ok(true));
    assert_eq!(
        m.snapshot_state().terminals[0].activity.summary,
        "Waiting for output"
    );
    assert!(m.record_input(&"nope".to_string(), "x", NOW).is_err());
}

#[test]
fn activity_tokens_count_per_terminal() {
    let mut m = manager();
    let a = "a".to_string();
    let b = "b".to_string();
    assert_eq!(m.next_activity_token(&a), 1);
    assert_eq!(m.next_activity_token(&a), 2);
    assert_eq!(m.next_activity_token(&b), 1);
    assert!(m.is_current_activity_token(&a, 2));
    assert!(!m.is_current_activity_token(&a, 1));
    assert!(m.is_current_activity_token(&"c".to_string(), 0));
}

#[test]
fn output_chunks_are_decoded_from_base64() {
    assert_eq!(decode_output_chunk("aGk="), "hi");
    assert_eq!(decode_output_chunk("not base64!"), "");
    assert_eq!(decode_output_chunk("/w=="), "");
    assert_eq!(text_of_decoded_chunk(Some(vec![0x68, 0x69])), "hi");
    assert_eq!(text_of_decoded_chunk(Some(vec![0xff])), "");
    assert_eq!(text_of_decoded_chunk(None), "");
    let mut session = LiveSession::new("s".to_string());
    capture_shell_output(&mut session, "G1szMW1yZWQbWzBtCg==");
    assert_eq!(session.recent_output_lines, vec!["red".to_string()]);
}

#[test]
fn helper_stderr_keeps_the_newest_lines() {
    let mut session = LiveSession::new("s".to_string());
    for i in 0..45 {
        terminal_window_manager::session::append_helper_stderr_line(&mut session, &format!("line {i}"));
    }
    assert_eq!(session.helper_stderr_lines.len(), 40);
    assert_eq!(session.helper_stderr_lines[0], "line 5");
    assert_eq!(session.pending_helper_stderr_line, "");
}

#[test]
fn helper_arguments_read_back_on_the_host() {
    let args = helper_arguments("/tmp/my dir", "/bin/zsh", 10, 3, "sess", "--weird value", Some("/b.ps1"));
    assert_eq!(
        args,
        vec![
            "--cwd", "/tmp/my dir", "--shell", "/bin/zsh", "--cols", "20", "--rows", "5",
            "--session-id", "sess", "--events-path", "--weird value", "--powershell-bootstrap",
            "/b.ps1",
        ]
    );
    let values = parse_host_arguments(&args).unwrap();
    assert_eq!(host_argument(&values, "cwd"), Some("/tmp/my dir".to_string()));
    assert_eq!(host_argument(&values, "events-path"), Some("--weird value".to_string()));
    assert_eq!(host_argument(&values, "powershell-bootstrap"), Some("/b.ps1".to_string()));
    let plain = helper_arguments("/", "sh", 80, 24, "s", "/e", None);
    assert_eq!(plain.len(), 12);
    assert_eq!(plain[5], "80");
}

#[test]
fn small_texts() {
    assert_eq!(
        describe_input_activity("ls\n"),
        (
            "Running command".to_string(),
            "Submitted input to the shell and waiting for output.".to_string(),
            44
        )
    );
    assert_eq!(
        describe_input_activity("l"),
        (
            "Sending input".to_string(),
            "Forwarding interactive input to the shell.".to_string(),
            28
        )
    );
    assert!(is_power_shell_shell("  PWSH.EXE "));
    assert!(is_power_shell_shell("C:\\Tools\\powershell"));
    assert!(!is_power_shell_shell("bash"));
    assert!(terminal_window_manager::session::is_power_shell_name("c:\\tools\\powershell.exe"));
    assert!(!terminal_window_manager::session::is_power_shell_name("PWSH"));
    assert_eq!(clamp_terminal_size(3, 300), (20, 300));
    assert_eq!(i32_text(-120), "-120");
    assert_eq!(i32_text(0), "0");
    assert_eq!(u32_text(4294967295), "4294967295");
    assert_eq!(
        session_not_running_message("t1"),
        "Terminal session 't1' is not running yet. Activate the session before sending input."
    );
    let event = HelperErrorEvent {
        session_id: None,
        message: "Oops.".to_string(),
        diagnostic_log_path: None,
        exception_type: None,
        hresult: None,
        win32_error_code: None,
        occurred_at: "t".to_string(),
        shell_path: None,
        shell_pid: None,
    };
    assert_eq!(
        describe_session_error(&event, &Some("  ".to_string()), &"out".to_string()),
        "Oops. Recent output: out"
    );
}

#[test]
fn stored_state_is_repaired_on_load() {
    let store = AppStateStore::new("/tmp/meta.json".to_string());
    assert_eq!(store.metadata_path, "/tmp/meta.json");
    let empty = store.loaded_state(None, defaults(), "/fallback", "sh", NOW, &vec![]);
    assert!(empty.projects.is_empty());
    assert_eq!(empty.defaults.default_cwd, "/home/user");
    let mut stored = AppState::create_initial(AppDefaults {
        default_cwd: " ".to_string(),
        default_shell: "".to_string(),
        custom_shells: vec!["fish".to_string(), "FISH".to_string(), "cmd".to_string()],
    });
    stored.active_terminal_id = Some("gone".to_string());
    let loaded = store.loaded_state(Some(stored), defaults(), "/fallback", "sh", NOW, &vec![]);
    assert_eq!(loaded.defaults.default_cwd, "/fallback");
    assert_eq!(loaded.defaults.default_shell, "sh");
    assert_eq!(loaded.defaults.custom_shells, vec!["sh".to_string(), "fish".to_string()]);
    assert_eq!(loaded.active_terminal_id, None);
}

#[test]
fn a_saved_state_loads_back() {
    let (mut m, project_id, terminal_id) = manager_with_terminal();
    m.start_session(&terminal_id, "/tmp/e.jsonl".to_string(), NOW).unwrap();
    m.activate_terminal(terminal_id.clone());
    let state = m.snapshot_state();
    let store = AppStateStore::new("/tmp/meta.json".to_string());
    let loaded = store.loaded_state(Some(state.persistent_snapshot(NOW)), defaults(), "/x", "sh", NOW, &vec![fresh_id(), fresh_id()]);
    assert_eq!(loaded.projects, state.projects);
    assert_eq!(loaded.projects[0].id, project_id);
    assert_eq!(loaded.terminals.len(), 1);
    let (t, o) = (&loaded.terminals[0], &state.terminals[0]);
    assert_eq!(t.id, o.id);
    assert_eq!(t.name, o.name);
    assert_eq!(t.cwd, o.cwd);
    assert_eq!(t.shell, o.shell);
    assert_eq!(t.diagnostic_log_path, o.diagnostic_log_path);
    assert_eq!(o.status, TerminalStatus::Starting);
    assert_eq!(t.status, TerminalStatus::Stopped);
    assert_eq!(loaded.active_terminal_id, None);
}

#[test]
fn a_missing_helper_names_every_place_checked() {
    assert_eq!(
        helper_not_found_message(&vec!["/a/host".to_string(), "/b/host".to_string()]),
        "ConPTY host executable was not found. Checked: /a/host, /b/host"
    );
    assert_eq!(helper_not_found_message(&vec![]), "ConPTY host executable was not found. Checked: ");
}

#[test]
fn opening_a_terminal_resizes_only_a_healthy_live_session() {
    let (mut m, _, terminal_id) = manager_with_terminal();
    assert_eq!(m.session_step(&terminal_id, false), SessionStep::Start);
    assert_eq!(m.session_step(&terminal_id, true), SessionStep::Resize);
    assert_eq!(m.session_step(&"other".to_string(), true), SessionStep::Start);
    let terminal = m.snapshot_state().terminals[0].clone();
    let mut session = LiveSession::new("s".to_string());
    m.handle_child_exit(&terminal, &mut session, Some(1), NOW);
    assert_eq!(m.session_step(&terminal_id, true), SessionStep::Start);
}
