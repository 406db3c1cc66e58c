//! The crash dialog shown once after a fatal error: its text, the expanded
//! details (bounded to what the dialog can hold), the fallback message box,
//! and what each button asks for.
use vstd::prelude::*;

use crate::text::{
    chars_of, is_blank, join2, push_char, str_is_blank, string_from_range, trim, trim_end_class,
    trim_end_len, trim_str, CharClass,
};

verus! {

pub const WINDOW_TITLE: &'static str = "Terminal Window Manager Crash Reporter";

pub const MAIN_INSTRUCTION: &'static str = "Terminal Window Manager closed unexpectedly.";

pub const MAX_EXPANDED_INFORMATION_CHARS: usize = 4096;

/// The id of the command link that restarts the application.
pub const BUTTON_RESTART: i32 = 1001;

/// The id of the command link that opens the crash location.
pub const BUTTON_OPEN_LOCATION: i32 = 1002;

/// The answer `IDYES` of a Win32 message box.
pub const MESSAGE_BOX_YES: i32 = 6;

/// The answer `IDNO` of a Win32 message box.
pub const MESSAGE_BOX_NO: i32 = 7;

/// The character that marks text cut short.
pub const ELLIPSIS: char = '\u{2026}';

/// What the crash dialog reports.
pub struct CrashDialogContext<'a> {
    pub message: &'a str,
    pub detail: Option<&'a str>,
    pub app_data_dir: &'a str,
    pub crash_snapshot_path: Option<&'a str>,
}

pub open spec fn opt_str_view(o: Option<&str>) -> Option<Seq<char>> {
    match o {
        Some(s) => Some(s@),
        None => None,
    }
}

/// The dialog's main text: the message, then what the user can do.
pub open spec fn dialog_content(message: Seq<char>, has_snapshot: bool) -> Seq<char> {
    message + if has_snapshot {
        "\n\nA crash snapshot was saved before the app exited. You can restart now or open the saved crash location."@
    } else {
        "\n\nThe app saved what diagnostics it could before exiting. You can restart now or open the diagnostics folder."@
    }
}

/// `text` cut to at most `max_chars` characters: a longer text keeps its
/// first `max_chars - 1` characters, without trailing whitespace, followed
/// by an ellipsis.
pub open spec fn truncated_for_dialog(text: Seq<char>, max_chars: nat) -> Seq<char> {
    if text.len() <= max_chars {
        text
    } else {
        let keep: int = if max_chars == 0 {
            0
        } else {
            max_chars - 1
        };
        trim_end_class(text.take(keep), CharClass::Whitespace).push(ELLIPSIS)
    }
}

/// The expanded details, before they are cut to the dialog's limit: the
/// reason, the details when there are any, the crash snapshot when there is
/// one and the diagnostics folder, separated by blank lines.
pub open spec fn expanded_information_text(
    message: Seq<char>,
    detail: Option<Seq<char>>,
    crash_snapshot_path: Option<Seq<char>>,
    app_data_dir: Seq<char>,
) -> Seq<char> {
    let details = match detail {
        Some(d) => if is_blank(d) {
            Seq::<char>::empty()
        } else {
            "\n\nDetails: "@ + trim(d)
        },
        None => Seq::<char>::empty(),
    };
    let snapshot = match crash_snapshot_path {
        Some(p) => "\n\nCrash snapshot: "@ + p,
        None => Seq::<char>::empty(),
    };
    "Reason: "@ + message + details + snapshot + "\n\nDiagnostics folder: "@ + app_data_dir
}

/// The dialog's main text.
pub fn create_dialog_content(context: &CrashDialogContext) -> (res: String)
    ensures
        res@ == dialog_content(context.message@, context.crash_snapshot_path is Some),
{
    if context.crash_snapshot_path.is_some() {
        join2(
            context.message,
            "\n\nA crash snapshot was saved before the app exited. You can restart now or open the saved crash location.",
        )
    } else {
        join2(
            context.message,
            "\n\nThe app saved what diagnostics it could before exiting. You can restart now or open the diagnostics folder.",
        )
    }
}

/// The expanded details of the dialog, cut to `MAX_EXPANDED_INFORMATION_CHARS`.
pub fn build_expanded_information(context: &CrashDialogContext) -> (res: String)
    ensures
        res@ == truncated_for_dialog(
            expanded_information_text(
                context.message@,
                opt_str_view(context.detail),
                opt_str_view(context.crash_snapshot_path),
                context.app_data_dir@,
            ),
            MAX_EXPANDED_INFORMATION_CHARS as nat,
        ),
{
    let mut text = join2("Reason: ", context.message);
    let ghost details: Seq<char> = match context.detail {
        Some(d) => if is_blank(d@) {
            Seq::<char>::empty()
        } else {
            "\n\nDetails: "@ + trim(d@)
        },
        None => Seq::<char>::empty(),
    };
    let ghost snapshot: Seq<char> = match context.crash_snapshot_path {
        Some(p) => "\n\nCrash snapshot: "@ + p@,
        None => Seq::<char>::empty(),
    };
    match context.detail {
        Some(detail) => {
            if !str_is_blank(detail) {
                text.append("\n\nDetails: ");
                let trimmed = trim_str(detail);
                text.append(trimmed.as_str());
            }
        },
        None => {},
    }
    assert(text@ =~= "Reason: "@ + context.message@ + details);
    match context.crash_snapshot_path {
        Some(path) => {
            text.append("\n\nCrash snapshot: ");
            text.append(path);
        },
        None => {},
    }
    assert(text@ =~= "Reason: "@ + context.message@ + details + snapshot);
    text.append("\n\nDiagnostics folder: ");
    text.append(context.app_data_dir);
    assert(text@ =~= expanded_information_text(
        context.message@,
        opt_str_view(context.detail),
        opt_str_view(context.crash_snapshot_path),
        context.app_data_dir@,
    ));
    truncate_for_dialog(text.as_str(), MAX_EXPANDED_INFORMATION_CHARS)
}

/// `text` cut to at most `max_chars` characters (see `truncated_for_dialog`).
pub fn truncate_for_dialog(text: &str, max_chars: usize) -> (res: String)
    ensures
        res@ == truncated_for_dialog(text@, max_chars as nat),
{
    let chars = chars_of(text);
    if chars.len() <= max_chars {
        return text.to_owned();
    }
    let keep: usize = if max_chars == 0 {
        0
    } else {
        max_chars - 1
    };
    let kept = string_from_range(&chars, 0, keep);
    let kept_chars = chars_of(kept.as_str());
    let end = trim_end_len(&kept_chars);
    let mut res = string_from_range(&kept_chars, 0, end);
    push_char(&mut res, ELLIPSIS);
    proof {
        assert(chars@.subrange(0, keep as int) =~= text@.take(keep as int));
        assert(kept_chars@.subrange(0, end as int) =~= kept_chars@.take(end as int));
    }
    res
}

/// The text of the message box shown when the dialog cannot be.
pub fn create_message_box_content(context: &CrashDialogContext) -> (res: String)
    ensures
        res@ == dialog_content(context.message@, context.crash_snapshot_path is Some)
            + "\n\nYes = Restart\nNo = Open crash location\nCancel = Close"@,
{
    let content = create_dialog_content(context);
    join2(content.as_str(), "\n\nYes = Restart\nNo = Open crash location\nCancel = Close")
}

/// What the file explorer is asked to open: the crash snapshot, selected,
/// when there is one, else the diagnostics folder.
pub fn crash_location_argument(context: &CrashDialogContext) -> (res: String)
    ensures
        res@ == match context.crash_snapshot_path {
            Some(p) => "/select,"@ + p@,
            None => context.app_data_dir@,
        },
{
    match context.crash_snapshot_path {
        Some(path) => join2("/select,", path),
        None => context.app_data_dir.to_owned(),
    }
}

/// What the user asked for in the crash dialog.
#[derive(Debug, Clone, Copy, PartialEq, Eq, Structural)]
pub enum CrashDialogChoice {
    Restart,
    OpenCrashLocation,
    Close,
}

/// The choice made with a button of the task dialog.
pub fn task_dialog_choice(selected_button: i32) -> (res: CrashDialogChoice)
    ensures
        res == (if selected_button == BUTTON_RESTART {
            CrashDialogChoice::Restart
        } else if selected_button == BUTTON_OPEN_LOCATION {
            CrashDialogChoice::OpenCrashLocation
        } else {
            CrashDialogChoice::Close
        }),
{
    if selected_button == BUTTON_RESTART {
        CrashDialogChoice::Restart
    } else if selected_button == BUTTON_OPEN_LOCATION {
        CrashDialogChoice::OpenCrashLocation
    } else {
        CrashDialogChoice::Close
    }
}

/// The choice made with an answer of the fallback message box.
pub fn message_box_choice(selected_button: i32) -> (res: CrashDialogChoice)
    ensures
        res == (if selected_button == MESSAGE_BOX_YES {
            CrashDialogChoice::Restart
        } else if selected_button == MESSAGE_BOX_NO {
            CrashDialogChoice::OpenCrashLocation
        } else {
            CrashDialogChoice::Close
        }),
{
    if selected_button == MESSAGE_BOX_YES {
        CrashDialogChoice::Restart
    } else if selected_button == MESSAGE_BOX_NO {
        CrashDialogChoice::OpenCrashLocation
    } else {
        CrashDialogChoice::Close
    }
}

/// What follows the task dialog.
#[derive(Debug, Clone, Copy, PartialEq, Eq, Structural)]
pub enum TaskDialogOutcome {
    /// The task dialog could not be shown; the message box is shown instead.
    ShowMessageBox,
    /// The user chose with a button of the task dialog.
    Chosen(CrashDialogChoice),
}

/// The step after the task dialog returned `result` (negative when it
/// failed) with `selected_button`: a failed task dialog falls back to the
/// message box, else the button decides.
pub fn task_dialog_outcome(result: i32, selected_button: i32) -> (res: TaskDialogOutcome)
    ensures
        result < 0 ==> res == TaskDialogOutcome::ShowMessageBox,
        result >= 0 ==> res == TaskDialogOutcome::Chosen(
            if selected_button == BUTTON_RESTART {
                CrashDialogChoice::Restart
            } else if selected_button == BUTTON_OPEN_LOCATION {
                CrashDialogChoice::OpenCrashLocation
            } else {
                CrashDialogChoice::Close
            },
        ),
{
    if result < 0 {
        TaskDialogOutcome::ShowMessageBox
    } else {
        TaskDialogOutcome::Chosen(task_dialog_choice(selected_button))
    }
}

/// Everything the crash dialog shows.
pub struct CrashDialogTexts {
    pub window_title: String,
    pub main_instruction: String,
    pub content: String,
    pub expanded_information: String,
    pub message_box_content: String,
}

/// The crash dialog is shown at most once per process: the first call
/// hands back the texts to show and marks the dialog as shown, every later
/// call hands back nothing.
pub fn show_once(shown: &mut bool, context: &CrashDialogContext) -> (res: Option<CrashDialogTexts>)
    ensures
        *final(shown),
        *old(shown) ==> res is None,
        !*old(shown) ==> (res matches Some(texts) && {
            &&& texts.window_title@ == WINDOW_TITLE@
            &&& texts.main_instruction@ == MAIN_INSTRUCTION@
            &&& texts.content@ == dialog_content(
                context.message@,
                context.crash_snapshot_path is Some,
            )
            &&& texts.expanded_information@ == truncated_for_dialog(
                expanded_information_text(
                    context.message@,
                    opt_str_view(context.detail),
                    opt_str_view(context.crash_snapshot_path),
                    context.app_data_dir@,
                ),
                MAX_EXPANDED_INFORMATION_CHARS as nat,
            )
            &&& texts.message_box_content@ == dialog_content(
                context.message@,
                context.crash_snapshot_path is Some,
            ) + "\n\nYes = Restart\nNo = Open crash location\nCancel = Close"@
        }),
{
    if *shown {
        return None;
    }
    *shown = true;
    Some(
        CrashDialogTexts {
            window_title: WINDOW_TITLE.to_owned(),
            main_instruction: MAIN_INSTRUCTION.to_owned(),
            content: create_dialog_content(context),
            expanded_information: build_expanded_information(context),
            message_box_content: create_message_box_content(context),
        },
    )
}

/// Over any run of calls of `show_once` on one flag, at most one hands
/// back texts to show: `shown[k]` is the flag before call `k` (and
/// `shown[k + 1]` after it), `showed[k]` whether call `k` handed back texts,
/// each call related as `show_once` states.
pub proof fn lemma_crash_dialog_shown_at_most_once(shown: Seq<bool>, showed: Seq<bool>)
    requires
        shown.len() == showed.len() + 1,
        forall|k: int| 1 <= k <= showed.len() ==> #[trigger] shown[k],
        forall|k: int| 0 <= k < showed.len() ==> #[trigger] showed[k] ==> !shown[k],
    ensures
        forall|j: int, k: int| 0 <= j < k < showed.len() ==> !(#[trigger] showed[j] && #[trigger] showed[k]),
{
    assert forall|j: int, k: int| 0 <= j < k < showed.len() implies !(#[trigger] showed[j]
        && #[trigger] showed[k]) by {
        assert(shown[k]);
    }
}

/// A text cut for the dialog never exceeds the limit, for any limit of at
/// least one character, and a text that had to be cut ends in an ellipsis.
pub proof fn lemma_truncated_fits(text: Seq<char>, max_chars: nat)
    requires
        max_chars >= 1,
    ensures
        truncated_for_dialog(text, max_chars).len() <= max_chars,
        text.len() > max_chars ==> truncated_for_dialog(text, max_chars).last() == ELLIPSIS,
        text.len() <= max_chars ==> truncated_for_dialog(text, max_chars) == text,
{
    if text.len() > max_chars {
        let kept = text.take(max_chars - 1);
        crate::text::lemma_trim_end_prefix(kept, CharClass::Whitespace);
    }
}

} // verus!
