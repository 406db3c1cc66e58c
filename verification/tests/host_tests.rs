use terminal_window_manager::pty_host::{
    child_exit_code, control_action, fallback_shell_candidates, host_argument, host_dimensions,
    host_events_path, host_session_id, missing_bootstrap_message,
    missing_working_directory_message, non_blank_host_argument, parse_dimension,
    parse_host_arguments, parse_u16, shell_candidate_name, shell_not_found_message, ControlAction,
};

fn args(values: &[&str]) -> Vec<String> {
    values.iter().map(|v| v.to_string()).collect()
}

#[test]
fn arguments_are_read_as_key_value_pairs() {
    let values = parse_host_arguments(&args(&["--cwd", "/tmp", "----shell", "zsh", "--cwd", "/var"])).unwrap();
    assert_eq!(host_argument(&values, "cwd"), Some("/var".to_string()));
    assert_eq!(host_argument(&values, "shell"), Some("zsh".to_string()));
    assert_eq!(host_argument(&values, "rows"), None);
    assert_eq!(
        parse_host_arguments(&args(&["cwd", "/tmp"])).unwrap_err(),
        "Unexpected argument 'cwd'."
    );
    assert_eq!(
        parse_host_arguments(&args(&["--cwd"])).unwrap_err(),
        "Missing value for argument '--cwd'."
    );
    assert!(parse_host_arguments(&args(&[])).unwrap().is_empty());
}

#[test]
fn blank_arguments_count_as_missing() {
    let values = parse_host_arguments(&args(&["--session-id", "  ", "--events-path", "/e.jsonl"])).unwrap();
    assert_eq!(non_blank_host_argument(&values, "session-id"), None);
    assert_eq!(host_session_id(&values, "fresh".to_string()), "fresh");
    assert_eq!(host_events_path(&values, "/wd"), "/e.jsonl");
    let none = parse_host_arguments(&args(&[])).unwrap();
    let default_path = host_events_path(&none, "/wd");
    assert_eq!(default_path, "/wd/.twm-diagnostics/events.jsonl");
    let given = parse_host_arguments(&args(&["--session-id", "abc"])).unwrap();
    assert_eq!(host_session_id(&given, "fresh".to_string()), "abc");
}

#[test]
fn dimensions_are_parsed_and_clamped() {
    assert_eq!(parse_dimension(None, 120, 20, 500), Ok(120));
    assert_eq!(parse_dimension(Some(&" ".to_string()), 120, 20, 500), Ok(120));
    assert_eq!(parse_dimension(Some(&"80".to_string()), 120, 20, 500), Ok(80));
    assert_eq!(parse_dimension(Some(&"+7".to_string()), 120, 20, 500), Ok(20));
    assert_eq!(parse_dimension(Some(&"9000".to_string()), 120, 20, 500), Ok(500));
    assert_eq!(
        parse_dimension(Some(&"-1".to_string()), 120, 20, 500),
        Err("Argument value '-1' must be a valid integer.".to_string())
    );
    assert_eq!(
        parse_dimension(Some(&" 80".to_string()), 120, 20, 500),
        Err("Argument value ' 80' must be a valid integer.".to_string())
    );
    assert_eq!(
        parse_dimension(Some(&"70000".to_string()), 120, 20, 500),
        Err("Argument value '70000' must be a valid integer.".to_string())
    );
    let values = parse_host_arguments(&args(&["--cols", "100", "--rows", "1"])).unwrap();
    assert_eq!(host_dimensions(&values), Ok((100, 5)));
    let none = parse_host_arguments(&args(&[])).unwrap();
    assert_eq!(host_dimensions(&none), Ok((120, 30)));
}

#[test]
fn u16_parsing_matches_std() {
    for text in ["0", "65535", "65536", "+1", "+", "", "-0", "1a", "007", " 1", "٣"] {
        assert_eq!(parse_u16(text), text.parse::<u16>().ok(), "input {text:?}");
    }
}

#[test]
fn shell_candidates_and_messages() {
    assert_eq!(shell_candidate_name("  \"/bin/zsh\" "), Some("/bin/zsh".to_string()));
    assert_eq!(shell_candidate_name(" \"\" "), None);
    assert_eq!(shell_candidate_name("'sh'"), Some("'sh'".to_string()));
    assert_eq!(
        fallback_shell_candidates(Some("/usr/bin/fish".to_string())),
        vec!["/usr/bin/fish", "/bin/zsh", "/bin/bash", "/bin/sh"]
    );
    assert_eq!(fallback_shell_candidates(None), vec!["/bin/zsh", "/bin/bash", "/bin/sh"]);
    assert_eq!(
        missing_working_directory_message("/nope"),
        "Working directory '/nope' does not exist."
    );
    assert_eq!(
        missing_bootstrap_message("/b.ps1"),
        "PowerShell bootstrap script '/b.ps1' could not be located."
    );
    assert_eq!(
        shell_not_found_message(" zsh "),
        "Shell executable 'zsh' could not be located."
    );
}

#[test]
fn control_messages_become_actions() {
    assert_eq!(
        control_action("input", Some("ls\n".to_string()), None, None),
        ControlAction::Input("ls\n".to_string())
    );
    assert_eq!(control_action("input", None, None, None), ControlAction::Ignore);
    assert_eq!(
        control_action("resize", None, Some(10), Some(40)),
        ControlAction::Resize(20, 40)
    );
    assert_eq!(control_action("resize", None, Some(10), None), ControlAction::Ignore);
    assert_eq!(control_action("shutdown", None, None, None), ControlAction::Shutdown);
    assert_eq!(control_action("Shutdown", None, None, None), ControlAction::Ignore);
}

#[test]
fn wait_status_becomes_exit_code() {
    assert_eq!(child_exit_code(true, 3, false, 0), Some(3));
    assert_eq!(child_exit_code(false, 0, true, 9), Some(137));
    assert_eq!(child_exit_code(false, 0, false, 0), None);
}
