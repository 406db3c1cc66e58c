use terminal_window_manager::diagnostics::{
    classify_posix_shell, create_posix_bash_sh_hook_script, create_posix_zsh_hook_script,
    create_zshenv_shim, create_zshrc_shim, escape_posix_single_quote, PosixShellKind,
    POSIX_SHELL_HOOK_MAX_BYTES,
};

fn sample_events_path() -> String {
    "/tmp/twm-events/events.jsonl".to_string()
}

#[test]
fn classify_accepts_zsh_bash_sh_variants() {
    assert_eq!(classify_posix_shell("zsh"), Some(PosixShellKind::Zsh));
    assert_eq!(classify_posix_shell("/bin/zsh"), Some(PosixShellKind::Zsh));
    assert_eq!(
        classify_posix_shell("/usr/local/bin/zsh"),
        Some(PosixShellKind::Zsh)
    );
    assert_eq!(classify_posix_shell("ZSH"), Some(PosixShellKind::Zsh));
    assert_eq!(
        classify_posix_shell("\"/bin/zsh\""),
        Some(PosixShellKind::Zsh)
    );
    assert_eq!(classify_posix_shell("'zsh'"), Some(PosixShellKind::Zsh));
    assert_eq!(
        classify_posix_shell("/bin/zsh -i"),
        Some(PosixShellKind::Zsh)
    );

    assert_eq!(classify_posix_shell("bash"), Some(PosixShellKind::Bash));
    assert_eq!(classify_posix_shell("/bin/bash"), Some(PosixShellKind::Bash));
    assert_eq!(
        classify_posix_shell("/usr/local/bin/bash"),
        Some(PosixShellKind::Bash)
    );
    assert_eq!(classify_posix_shell("BASH"), Some(PosixShellKind::Bash));
    assert_eq!(
        classify_posix_shell("'/bin/bash'"),
        Some(PosixShellKind::Bash)
    );
    assert_eq!(
        classify_posix_shell("/bin/bash -l"),
        Some(PosixShellKind::Bash)
    );

    assert_eq!(classify_posix_shell("sh"), Some(PosixShellKind::Sh));
    assert_eq!(classify_posix_shell("/bin/sh"), Some(PosixShellKind::Sh));
    assert_eq!(classify_posix_shell("SH"), Some(PosixShellKind::Sh));
    assert_eq!(classify_posix_shell("\"sh\""), Some(PosixShellKind::Sh));
}

#[test]
fn classify_rejects_non_posix_shells() {
    assert_eq!(classify_posix_shell(""), None);
    assert_eq!(classify_posix_shell("   "), None);
    assert_eq!(classify_posix_shell("pwsh"), None);
    assert_eq!(classify_posix_shell("pwsh.exe"), None);
    assert_eq!(classify_posix_shell("powershell"), None);
    assert_eq!(classify_posix_shell("powershell.exe"), None);
    assert_eq!(classify_posix_shell("/usr/local/bin/pwsh"), None);
    assert_eq!(classify_posix_shell("cmd"), None);
    assert_eq!(classify_posix_shell("cmd.exe"), None);
    assert_eq!(classify_posix_shell("fish"), None);
    assert_eq!(classify_posix_shell("/usr/bin/fish"), None);
    assert_eq!(classify_posix_shell("FISH"), None);
    assert_eq!(classify_posix_shell("python3"), None);
    assert_eq!(classify_posix_shell("nu"), None);
}

#[test]
fn bash_hook_contains_markers_and_guards() {
    let hook = create_posix_bash_sh_hook_script("term-1", "sess-1", &sample_events_path());
    assert!(hook.contains("PROMPT_COMMAND"), "missing PROMPT_COMMAND marker");
    assert!(hook.contains("ENV"), "missing ENV marker");
    assert!(hook.contains("precmd"), "missing precmd cross-ref marker");
    assert!(hook.contains("case $-"), "missing non-interactive guard");
    assert!(hook.contains("__twm_sourced"), "missing double-source guard");
    assert!(hook.contains("__twm_last_cwd"), "missing cwd dedup var");
    assert!(hook.contains(">>"), "missing JSONL append");
    assert!(hook.contains("__TWM_ORIG_ENV"), "missing ORIG_ENV preservation");
    assert!(hook.contains("__TWM_EVENTS_PATH"), "missing events env var");
    assert!(hook.contains("|| true"), "missing best-effort guards");
}

#[test]
fn zsh_hook_contains_precmd_and_guards() {
    let hook = create_posix_zsh_hook_script("term-1", "sess-1", &sample_events_path());
    assert!(hook.contains("precmd_functions"), "missing precmd_functions");
    assert!(hook.contains("precmd"), "missing precmd marker");
    assert!(hook.contains("PROMPT_COMMAND"), "missing PROMPT_COMMAND cross-ref");
    assert!(hook.contains("ENV"), "missing ENV cross-ref");
    assert!(hook.contains("case $-"), "missing non-interactive guard");
    assert!(hook.contains("__twm_sourced"), "missing double-source guard");
    assert!(hook.contains("__twm_last_cwd"), "missing cwd dedup var");
    assert!(hook.contains(">>"), "missing JSONL append");
    assert!(hook.contains("|| true"), "missing best-effort guards");
    assert!(
        hook.contains("precmd_functions+=(__twm_precmd)"),
        "must append to precmd_functions without overwriting"
    );
    assert!(
        !hook.contains("precmd_functions=(__twm_precmd)"),
        "must never overwrite precmd_functions"
    );
    assert!(hook.contains("fc -ln -1"), "zsh command text must use fc -ln -1");
}

#[test]
fn hooks_emit_expected_json_field_names() {
    let bash = create_posix_bash_sh_hook_script("t", "s", &sample_events_path());
    let zsh = create_posix_zsh_hook_script("t", "s", &sample_events_path());
    for hook in [&bash, &zsh] {
        for field in [
            "\"eventId\":null",
            "\"type\":\"cwdChanged\"",
            "\"type\":\"commandFailed\"",
            "\"terminalId\"",
            "\"sessionId\"",
            "\"timestamp\"",
            "\"cwd\"",
            "\"commandText\"",
            "\"exitCode\"",
            "\"errorMessage\":null",
        ] {
            assert!(hook.contains(field), "missing JSON field {field}");
        }
    }
}

#[test]
fn quoting_handles_spaces_and_quotes() {
    assert_eq!(escape_posix_single_quote("a'b"), "a'\\''b");
    assert_eq!(escape_posix_single_quote("plain"), "plain");
    assert_eq!(escape_posix_single_quote("/tmp/my dir/x"), "/tmp/my dir/x");

    let events = "/tmp/my dir with spaces/events.jsonl".to_string();
    let hook = create_posix_bash_sh_hook_script(
        "term id'with\"quotes",
        "sess id'with\"quotes",
        &events,
    );
    assert!(hook.contains("__twm_terminal_id='term id'\\''with\"quotes'"));
    assert!(hook.contains("__twm_session_id='sess id'\\''with\"quotes'"));
    assert!(hook.contains("__twm_events_default='/tmp/my dir with spaces/events.jsonl'"));

    let zsh = create_posix_zsh_hook_script("a'b", "c'd", &events);
    assert!(zsh.contains("__twm_terminal_id='a'\\''b'"));
}

#[test]
fn hooks_stay_small_and_avoid_heavy_tools() {
    let bash = create_posix_bash_sh_hook_script("t", "s", &sample_events_path());
    let zsh = create_posix_zsh_hook_script("t", "s", &sample_events_path());
    let zshrc = create_zshrc_shim();
    let zshenv = create_zshenv_shim();
    for script in [&bash, &zsh, &zshrc, &zshenv] {
        assert!(
            script.len() <= POSIX_SHELL_HOOK_MAX_BYTES,
            "script exceeds cap: {} bytes",
            script.len()
        );
        assert_eq!(POSIX_SHELL_HOOK_MAX_BYTES, 16 * 1024);
        let lower = script.to_lowercase();
        assert!(!lower.contains("python"), "must not use python");
        assert!(!script.contains("jq"), "must not use jq");
    }
}

#[test]
fn zsh_shims_preserve_order_and_guard_recursion() {
    let zshrc = create_zshrc_shim();
    assert!(zshrc.contains("__TWM_ORIG_ZDOTDIR"), "missing orig zdotdir");
    assert!(zshrc.contains("$HOME"), "missing HOME fallback");
    assert!(zshrc.contains(".zshrc"), "missing user rc");
    assert!(zshrc.contains("__TWM_POSIX_HOOK"), "missing hook sourcing");
    assert!(
        zshrc.contains("__twm_zdotdir_shimmed"),
        "missing anti-recursion guard"
    );
    let rc_pos = zshrc.find(".zshrc").expect("zshrc must mention .zshrc");
    let hook_pos = zshrc.find("__TWM_POSIX_HOOK").expect("zshrc must mention hook");
    assert!(rc_pos < hook_pos, "shim must source user rc before the hook");

    let zshenv = create_zshenv_shim();
    assert!(zshenv.contains(".zshenv"), "missing user zshenv");
    assert!(
        zshenv.contains("__twm_zshenv_shimmed"),
        "missing anti-recursion guard"
    );
    assert!(zshenv.contains("__TWM_ORIG_ZDOTDIR"), "missing orig zdotdir");
}

#[test]
fn bash_hook_uses_history_not_fc_primary() {
    let hook = create_posix_bash_sh_hook_script("term-1", "sess-1", &sample_events_path());
    assert!(
        hook.contains("history 1"),
        "bash hook must use `history 1` (fc lags one command on macOS bash 3.2)"
    );
    assert!(
        hook.contains("s/^[[:space:]]*[0-9][0-9]*[[:space:]]*//"),
        "missing history-number stripping sed pattern"
    );
    assert!(hook.contains("fc -ln -1"), "missing fc fallback");
    let history_pos = hook.find("history 1").expect("history 1 present");
    let fc_pos = hook.find("fc -ln -1").expect("fc present");
    assert!(
        history_pos < fc_pos,
        "`history 1` must be primary, `fc -ln -1` only fallback"
    );
    assert!(
        hook.contains("macOS bash 3.2"),
        "missing comment explaining the fc-lag fix"
    );
    assert!(
        hook.contains("return \"$__twm_ec\""),
        "prompt handler must preserve $? via return"
    );
}
