use terminal_window_manager::crash_dialog::{
    build_expanded_information, crash_location_argument, create_dialog_content,
    create_message_box_content, message_box_choice, show_once, task_dialog_choice,
    truncate_for_dialog, CrashDialogChoice, CrashDialogContext, BUTTON_OPEN_LOCATION,
    BUTTON_RESTART, MAIN_INSTRUCTION, MAX_EXPANDED_INFORMATION_CHARS, MESSAGE_BOX_NO,
    MESSAGE_BOX_YES, WINDOW_TITLE, task_dialog_outcome, TaskDialogOutcome,
};
use terminal_window_manager::crash_reporting::{
    configured_dsn, configured_value, is_crash_reporting_disabled, map_report_level, non_empty,
    normalize_config_value, ReportLevel,
};

#[test]
fn builds_expanded_information_with_snapshot_path() {
    let context = CrashDialogContext {
        message: "called Option::unwrap() on a None value",
        detail: Some("Thread: main\nLocation: keyboard.rs:165:49"),
        app_data_dir: r"C:\Users\david\AppData\Roaming\dev.projectwm.twm-tauri",
        crash_snapshot_path: Some(
            r"C:\Users\david\AppData\Roaming\dev.projectwm.twm-tauri\app-crash-20260519T141707Z.log",
        ),
    };
    let expanded_information = build_expanded_information(&context);

    assert!(expanded_information.contains("Reason: called Option::unwrap() on a None value"));
    assert!(expanded_information.contains("Crash snapshot:"));
    assert!(expanded_information.contains("Diagnostics folder:"));
}

#[test]
fn truncates_expanded_information_to_dialog_limit() {
    let message = "x".repeat(MAX_EXPANDED_INFORMATION_CHARS + 128);
    let context = CrashDialogContext {
        message: &message,
        detail: None,
        app_data_dir: r"C:\diagnostics",
        crash_snapshot_path: None,
    };
    let expanded_information = build_expanded_information(&context);

    assert!(expanded_information.chars().count() <= MAX_EXPANDED_INFORMATION_CHARS);
    assert!(expanded_information.ends_with('…'));
}

#[test]
fn expanded_information_lists_sections_in_order() {
    let context = CrashDialogContext {
        message: "boom",
        detail: Some("  spaced detail  "),
        app_data_dir: "/data",
        crash_snapshot_path: Some("/data/app-crash-1.log"),
    };
    assert_eq!(
        build_expanded_information(&context),
        "Reason: boom\n\nDetails: spaced detail\n\nCrash snapshot: /data/app-crash-1.log\n\nDiagnostics folder: /data"
    );
    let blank_detail = CrashDialogContext {
        message: "boom",
        detail: Some("   "),
        app_data_dir: "/data",
        crash_snapshot_path: None,
    };
    assert_eq!(
        build_expanded_information(&blank_detail),
        "Reason: boom\n\nDiagnostics folder: /data"
    );
}

#[test]
fn truncation_trims_before_the_ellipsis() {
    assert_eq!(truncate_for_dialog("short", 10), "short");
    assert_eq!(truncate_for_dialog("abcdef", 6), "abcdef");
    assert_eq!(truncate_for_dialog("abc   defgh", 6), "abc…");
    assert_eq!(truncate_for_dialog("abcdefgh", 1), "…");
    assert_eq!(truncate_for_dialog("abcdefgh", 0), "…");
}

#[test]
fn dialog_content_depends_on_snapshot() {
    let with_snapshot = CrashDialogContext {
        message: "boom",
        detail: None,
        app_data_dir: "/data",
        crash_snapshot_path: Some("/data/s.log"),
    };
    let without_snapshot = CrashDialogContext {
        message: "boom",
        detail: None,
        app_data_dir: "/data",
        crash_snapshot_path: None,
    };
    assert_eq!(
        create_dialog_content(&with_snapshot),
        "boom\n\nA crash snapshot was saved before the app exited. You can restart now or open the saved crash location."
    );
    assert_eq!(
        create_dialog_content(&without_snapshot),
        "boom\n\nThe app saved what diagnostics it could before exiting. You can restart now or open the diagnostics folder."
    );
    assert!(create_message_box_content(&without_snapshot)
        .ends_with("\n\nYes = Restart\nNo = Open crash location\nCancel = Close"));
    assert_eq!(crash_location_argument(&with_snapshot), "/select,/data/s.log");
    assert_eq!(crash_location_argument(&without_snapshot), "/data");
}

#[test]
fn dialog_buttons_map_to_choices() {
    assert_eq!(task_dialog_choice(BUTTON_RESTART), CrashDialogChoice::Restart);
    assert_eq!(
        task_dialog_choice(BUTTON_OPEN_LOCATION),
        CrashDialogChoice::OpenCrashLocation
    );
    assert_eq!(task_dialog_choice(2), CrashDialogChoice::Close);
    assert_eq!(message_box_choice(MESSAGE_BOX_YES), CrashDialogChoice::Restart);
    assert_eq!(message_box_choice(MESSAGE_BOX_NO), CrashDialogChoice::OpenCrashLocation);
    assert_eq!(message_box_choice(2), CrashDialogChoice::Close);
}

#[test]
fn crash_dialog_is_shown_only_once() {
    let context = CrashDialogContext {
        message: "boom",
        detail: None,
        app_data_dir: "/data",
        crash_snapshot_path: None,
    };
    let mut shown = false;
    let first = show_once(&mut shown, &context).expect("first call shows the dialog");
    assert_eq!(first.window_title, WINDOW_TITLE);
    assert_eq!(first.main_instruction, MAIN_INSTRUCTION);
    assert_eq!(first.content, create_dialog_content(&context));
    assert!(shown);
    assert!(show_once(&mut shown, &context).is_none());
}

#[test]
fn normalizes_empty_configuration_values() {
    assert_eq!(
        normalize_config_value(" https://example.com/1 "),
        Some("https://example.com/1".to_string())
    );
    assert_eq!(normalize_config_value("   "), None);
}

#[test]
fn maps_only_error_and_fatal_levels_to_sentry() {
    assert_eq!(map_report_level("fatal"), Some(ReportLevel::Fatal));
    assert_eq!(map_report_level("error"), Some(ReportLevel::Error));
    assert_eq!(map_report_level("warn"), None);
    assert_eq!(map_report_level("info"), None);
}

#[test]
fn report_levels_ignore_case() {
    assert_eq!(map_report_level("FATAL"), Some(ReportLevel::Fatal));
    assert_eq!(map_report_level("Error"), Some(ReportLevel::Error));
    assert_eq!(map_report_level(" error"), None);
}

#[test]
fn configured_value_prefers_first_set_variable() {
    let values = vec![None, Some("  second  ".to_string()), Some("third".to_string())];
    assert_eq!(configured_value(&values, Some("compiled")), Some("second".to_string()));
    let blank_first = vec![Some("   ".to_string()), Some("third".to_string())];
    assert_eq!(
        configured_value(&blank_first, Some(" compiled ")),
        Some("compiled".to_string())
    );
    assert_eq!(configured_value(&vec![None, None], None), None);
    assert_eq!(configured_value(&vec![], Some("   ")), None);
    assert_eq!(non_empty(Some("  x ")), Some("x".to_string()));
    assert_eq!(non_empty(Some("  ")), None);
    assert_eq!(non_empty(None), None);
}

#[test]
fn crash_reporting_disabled_values() {
    assert!(is_crash_reporting_disabled(Some("1")));
    assert!(is_crash_reporting_disabled(Some(" TRUE ")));
    assert!(is_crash_reporting_disabled(Some("yes")));
    assert!(!is_crash_reporting_disabled(Some("no")));
    assert!(!is_crash_reporting_disabled(Some("   ")));
    assert!(!is_crash_reporting_disabled(None));
}

#[test]
fn configured_dsn_parses_or_reports() {
    let none: Vec<Option<String>> = vec![None];
    assert!(matches!(configured_dsn(&none, None), Ok(None)));
    let valid = vec![Some("https://public@example.com/42".to_string())];
    assert!(matches!(configured_dsn(&valid, None), Ok(Some(_))));
    let invalid = vec![Some("not a dsn".to_string())];
    match configured_dsn(&invalid, None) {
        Err(message) => assert!(message.starts_with("Invalid Sentry DSN: ")),
        Ok(_) => panic!("an invalid DSN must be refused"),
    }
}

#[test]
fn a_failed_task_dialog_falls_back_to_the_message_box() {
    assert_eq!(task_dialog_outcome(-1, 1001), TaskDialogOutcome::ShowMessageBox);
    assert_eq!(
        task_dialog_outcome(0, 1001),
        TaskDialogOutcome::Chosen(CrashDialogChoice::Restart)
    );
    assert_eq!(
        task_dialog_outcome(0, 1002),
        TaskDialogOutcome::Chosen(CrashDialogChoice::OpenCrashLocation)
    );
    assert_eq!(task_dialog_outcome(0, 2), TaskDialogOutcome::Chosen(CrashDialogChoice::Close));
}
