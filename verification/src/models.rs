//! The persisted application state: projects, terminals and their status,
//! activity and failure records, and the rules that normalise state loaded
//! from disk.
use vstd::prelude::*;

use crate::text::{
    ascii_lower, chars_equal, chars_of, is_blank, owned, str_is_blank, to_ascii_lower_chars,
    trim, trim_chars, trim_str, CharClass,
};

verus! {

#[derive(Debug, Clone, Copy, PartialEq, Eq, Structural)]
pub enum TerminalStatus {
    Stopped,
    Starting,
    Running,
    Exited,
    Error,
}

#[derive(Debug, Clone, Copy, PartialEq, Eq, Structural)]
pub enum TerminalActivityPhase {
    Idle,
    Working,
    Streaming,
    Waiting,
    Attention,
}

#[derive(Debug, Clone, Copy, PartialEq, Eq, Structural)]
pub enum TerminalProgressState {
    /// No progress is being reported (`none` in the persisted form).
    NoProgress,
    Normal,
    Error,
    Indeterminate,
    Warning,
}

#[derive(Debug, Clone, PartialEq)]
pub struct TerminalActivity {
    pub phase: TerminalActivityPhase,
    pub summary: String,
    pub detail: String,
    pub progress: u32,
    pub is_indeterminate: bool,
    pub updated_at: String,
}

#[derive(Debug, Clone, PartialEq)]
pub struct TerminalProgressInfo {
    pub state: TerminalProgressState,
    pub value: u32,
    pub updated_at: String,
}

#[derive(Debug, Clone, PartialEq)]
pub struct AppDefaults {
    pub default_cwd: String,
    pub default_shell: String,
    pub custom_shells: Vec<String>,
}

#[derive(Debug, Clone, PartialEq)]
pub struct ProjectRecord {
    pub id: String,
    pub name: String,
    pub created_at: String,
    pub default_cwd: Option<String>,
}

#[derive(Debug, Clone, PartialEq)]
pub struct TerminalCommandFailure {
    pub session_id: String,
    pub timestamp: String,
    pub command_text: String,
    pub exit_code: Option<i32>,
    pub error_message: Option<String>,
    pub cwd: String,
    pub recent_output_excerpt: String,
}

#[derive(Debug, Clone, PartialEq)]
pub struct TerminalSessionFailure {
    pub session_id: String,
    pub timestamp: String,
    pub exit_code: Option<i32>,
    pub message: String,
    pub shell_path: String,
    pub shell_pid: Option<u32>,
    pub stderr_excerpt: Option<String>,
    pub recent_output_excerpt: String,
    pub exception_type: Option<String>,
    pub hresult: Option<i32>,
    pub win32_error_code: Option<i32>,
}

#[derive(Debug, Clone, PartialEq)]
pub struct TerminalRecord {
    pub id: String,
    pub project_id: String,
    pub name: String,
    pub cwd: String,
    pub shell: String,
    pub status: TerminalStatus,
    pub activity: TerminalActivity,
    pub progress_info: TerminalProgressInfo,
    pub last_exit_code: Option<i32>,
    pub created_at: String,
    pub last_started_at: Option<String>,
    pub diagnostic_log_path: Option<String>,
    pub last_command_failure: Option<TerminalCommandFailure>,
    pub last_session_failure: Option<TerminalSessionFailure>,
}

#[derive(Debug, Clone, PartialEq)]
pub struct AppState {
    pub defaults: AppDefaults,
    pub projects: Vec<ProjectRecord>,
    pub terminals: Vec<TerminalRecord>,
    pub active_terminal_id: Option<String>,
}

// ---------------------------------------------------------------------------
// Activity and progress
// ---------------------------------------------------------------------------
pub open spec fn status_phase(status: TerminalStatus) -> TerminalActivityPhase {
    match status {
        TerminalStatus::Starting => TerminalActivityPhase::Working,
        TerminalStatus::Running => TerminalActivityPhase::Waiting,
        TerminalStatus::Error => TerminalActivityPhase::Attention,
        TerminalStatus::Exited => TerminalActivityPhase::Idle,
        TerminalStatus::Stopped => TerminalActivityPhase::Idle,
    }
}

pub open spec fn status_summary(status: TerminalStatus) -> Seq<char> {
    match status {
        TerminalStatus::Starting => "Starting session"@,
        TerminalStatus::Running => "Ready"@,
        TerminalStatus::Error => "Error"@,
        TerminalStatus::Exited => "Exited"@,
        TerminalStatus::Stopped => "Not started"@,
    }
}

pub open spec fn status_detail(status: TerminalStatus) -> Seq<char> {
    match status {
        TerminalStatus::Starting => "Launching terminal helper process."@,
        TerminalStatus::Running => "Shell is running and waiting for input."@,
        TerminalStatus::Error => "The session reported an error."@,
        TerminalStatus::Exited => "The session is no longer running."@,
        TerminalStatus::Stopped => "Activate this terminal to start a live session."@,
    }
}

pub open spec fn status_progress(status: TerminalStatus) -> u32 {
    match status {
        TerminalStatus::Starting => 12,
        TerminalStatus::Stopped => 0,
        _ => 100,
    }
}

/// `a` is the activity that goes with `status` (at whatever time it was made).
pub open spec fn is_activity_for_status(a: TerminalActivity, status: TerminalStatus) -> bool {
    &&& a.phase == status_phase(status)
    &&& a.summary@ == status_summary(status)
    &&& a.detail@ == status_detail(status)
    &&& a.progress == status_progress(status)
    &&& a.is_indeterminate == (status == TerminalStatus::Starting)
}

/// `p` reports no progress.
pub open spec fn is_no_progress(p: TerminalProgressInfo) -> bool {
    p.state == TerminalProgressState::NoProgress && p.value == 0
}

impl TerminalActivity {
    /// The activity shown for a terminal in `status`, stamped with the time `now`.
    pub fn for_status(status: TerminalStatus, now: &str) -> (res: Self)
        ensures
            is_activity_for_status(res, status),
            res.updated_at@ == now@,
    {
        let now = owned(now);
        match status {
            TerminalStatus::Starting => TerminalActivity {
                phase: TerminalActivityPhase::Working,
                summary: owned("Starting session"),
                detail: owned("Launching terminal helper process."),
                progress: 12,
                is_indeterminate: true,
                updated_at: now,
            },
            TerminalStatus::Running => TerminalActivity {
                phase: TerminalActivityPhase::Waiting,
                summary: owned("Ready"),
                detail: owned("Shell is running and waiting for input."),
                progress: 100,
                is_indeterminate: false,
                updated_at: now,
            },
            TerminalStatus::Error => TerminalActivity {
                phase: TerminalActivityPhase::Attention,
                summary: owned("Error"),
                detail: owned("The session reported an error."),
                progress: 100,
                is_indeterminate: false,
                updated_at: now,
            },
            TerminalStatus::Exited => TerminalActivity {
                phase: TerminalActivityPhase::Idle,
                summary: owned("Exited"),
                detail: owned("The session is no longer running."),
                progress: 100,
                is_indeterminate: false,
                updated_at: now,
            },
            TerminalStatus::Stopped => TerminalActivity {
                phase: TerminalActivityPhase::Idle,
                summary: owned("Not started"),
                detail: owned("Activate this terminal to start a live session."),
                progress: 0,
                is_indeterminate: false,
                updated_at: now,
            },
        }
    }
}

impl TerminalProgressInfo {
    /// No progress, stamped with the time `now`.
    pub fn none(now: &str) -> (res: Self)
        ensures
            is_no_progress(res),
            res.updated_at@ == now@,
    {
        TerminalProgressInfo { state: TerminalProgressState::NoProgress, value: 0, updated_at: owned(now) }
    }
}

/// The status of a terminal read without one.
pub fn default_terminal_status() -> (res: TerminalStatus)
    ensures
        res == TerminalStatus::Stopped,
{
    TerminalStatus::Stopped
}

/// The activity of a terminal read without one, stamped with the time `now`.
pub fn default_idle_activity(now: &str) -> (res: TerminalActivity)
    ensures
        is_activity_for_status(res, TerminalStatus::Stopped),
        res.updated_at@ == now@,
{
    TerminalActivity::for_status(TerminalStatus::Stopped, now)
}

/// The progress of a terminal read without one, stamped with the time `now`.
pub fn default_progress_info(now: &str) -> (res: TerminalProgressInfo)
    ensures
        is_no_progress(res),
        res.updated_at@ == now@,
{
    TerminalProgressInfo::none(now)
}

pub const DEFAULT_PROJECT_NAME: &'static str = "Untitled Project";

pub const DEFAULT_TERMINAL_NAME: &'static str = "Terminal";

/// The name of a project read without one.
pub fn default_project_name() -> (res: String)
    ensures
        res@ == DEFAULT_PROJECT_NAME@,
{
    owned(DEFAULT_PROJECT_NAME)
}

/// The name of a terminal read without one.
pub fn default_terminal_name() -> (res: String)
    ensures
        res@ == DEFAULT_TERMINAL_NAME@,
{
    owned(DEFAULT_TERMINAL_NAME)
}

// ---------------------------------------------------------------------------
// Custom shells
// ---------------------------------------------------------------------------
/// The shells the application offers itself, which never appear among the custom ones.
pub open spec fn is_builtin_shell_name(shell: Seq<char>) -> bool {
    let key = ascii_lower(trim(shell));
    key == "pwsh"@ || key == "pwsh.exe"@ || key == "cmd"@ || key == "cmd.exe"@
}

/// Whether `shell` is one the application offers itself (`pwsh`, `cmd`).
pub fn is_builtin_shell(shell: &str) -> (res: bool)
    ensures
        res == is_builtin_shell_name(shell@),
        res <==> (ascii_lower(trim(shell@)) == "pwsh"@ || ascii_lower(trim(shell@)) == "pwsh.exe"@
            || ascii_lower(trim(shell@)) == "cmd"@ || ascii_lower(trim(shell@)) == "cmd.exe"@),
{
    let key = to_ascii_lower_chars(&trim_chars(&chars_of(shell), CharClass::Whitespace));
    chars_equal(&key, &chars_of("pwsh")) || chars_equal(&key, &chars_of("pwsh.exe"))
        || chars_equal(&key, &chars_of("cmd")) || chars_equal(&key, &chars_of("cmd.exe"))
}

/// Some entry of `list` matches `shell` ignoring ASCII case.
pub open spec fn has_shell_key(list: Seq<Seq<char>>, key: Seq<char>) -> bool {
    exists|j: int| 0 <= j < list.len() && ascii_lower(#[trigger] list[j]) == key
}

/// `list` after offering it `shell`: kept trimmed, unless blank, built in,
/// or already present ignoring ASCII case.
pub open spec fn with_custom_shell(list: Seq<Seq<char>>, shell: Seq<char>) -> Seq<Seq<char>> {
    let trimmed = trim(shell);
    if trimmed.len() == 0 || is_builtin_shell_name(trimmed) || has_shell_key(
        list,
        ascii_lower(trimmed),
    ) {
        list
    } else {
        list.push(trimmed)
    }
}

/// The custom shell list built from `shells`, in order.
pub open spec fn custom_shell_list(shells: Seq<Seq<char>>) -> Seq<Seq<char>>
    decreases shells.len(),
{
    if shells.len() == 0 {
        seq![]
    } else {
        with_custom_shell(custom_shell_list(shells.drop_last()), shells.last())
    }
}

/// A well-kept custom shell list: trimmed, not blank, not built in, and no
/// two entries that differ only in ASCII case.
pub open spec fn is_clean_shell_list(list: Seq<Seq<char>>) -> bool {
    &&& forall|i: int|
        0 <= i < list.len() ==> {
            &&& trim(#[trigger] list[i]) == list[i]
            &&& list[i].len() > 0
            &&& !is_builtin_shell_name(list[i])
        }
    &&& forall|i: int, j: int|
        0 <= i < j < list.len() ==> ascii_lower(#[trigger] list[i]) != ascii_lower(
            #[trigger] list[j],
        )
}

pub open spec fn string_seq_views(v: Seq<String>) -> Seq<Seq<char>> {
    v.map_values(|s: String| s@)
}

fn push_custom_shell(normalized: &mut Vec<String>, seen: &mut Vec<Vec<char>>, shell: &str)
    requires
        old(seen)@.len() == old(normalized)@.len(),
        forall|j: int|
            0 <= j < old(seen)@.len() ==> (#[trigger] old(seen)@[j])@ == ascii_lower(
                old(normalized)@[j]@,
            ),
    ensures
        string_seq_views(final(normalized)@) == with_custom_shell(
            string_seq_views(old(normalized)@),
            shell@,
        ),
        final(seen)@.len() == final(normalized)@.len(),
        forall|j: int|
            0 <= j < final(seen)@.len() ==> (#[trigger] final(seen)@[j])@ == ascii_lower(
                final(normalized)@[j]@,
            ),
{
    let ghost list = string_seq_views(normalized@);
    let trimmed = trim_str(shell);
    if trimmed.as_str().is_empty() || is_builtin_shell(trimmed.as_str()) {
        proof {
            if trimmed@.len() != 0 {
                assert(trim(trimmed@) == trimmed@) by {
                    crate::text::lemma_trim_idempotent(shell@);
                }
            }
        }
        return ;
    }
    let key = to_ascii_lower_chars(&chars_of(trimmed.as_str()));
    let mut j: usize = 0;
    while j < seen.len()
        invariant
            j <= seen@.len() == normalized@.len(),
            list == string_seq_views(normalized@),
            key@ == ascii_lower(trim(shell@)),
            trimmed@ == trim(shell@),
            forall|k: int| 0 <= k < seen@.len() ==> (#[trigger] seen@[k])@ == ascii_lower(
                normalized@[k]@,
            ),
            forall|k: int| 0 <= k < j ==> ascii_lower(#[trigger] list[k]) != key@,
        decreases seen@.len() - j,
    {
        if chars_equal(&seen[j], &key) {
            proof {
                assert(list.len() == normalized@.len());
                assert(list[j as int] == normalized@[j as int]@);
                assert(key@ == ascii_lower(trim(shell@)));
                assert(ascii_lower(list[j as int]) == key@);
                assert(has_shell_key(list, ascii_lower(trim(shell@))));
                crate::text::lemma_trim_idempotent(shell@);
            }
            return ;
        }
        j = j + 1;
    }
    proof {
        crate::text::lemma_trim_idempotent(shell@);
        assert(!has_shell_key(list, key@));
    }
    seen.push(key);
    normalized.push(trimmed);
    proof {
        assert(string_seq_views(normalized@) =~= list.push(trim(shell@)));
    }
}

/// The custom shells, cleaned: the current default shell first (when given),
/// then `shells`, each trimmed, without blank or built-in entries and
/// without repeats that differ only in ASCII case.
pub fn normalize_custom_shells(shells: Vec<String>, current_default_shell: Option<&str>) -> (res:
    Vec<String>)
    ensures
        string_seq_views(res@) == custom_shell_list(
            match current_default_shell {
                Some(d) => seq![d@] + string_seq_views(shells@),
                None => string_seq_views(shells@),
            },
        ),
        forall|i: int|
            0 <= i < res@.len() ==> {
                let key = ascii_lower((#[trigger] res@[i])@);
                &&& key != "pwsh"@
                &&& key != "pwsh.exe"@
                &&& key != "cmd"@
                &&& key != "cmd.exe"@
            },
{
    let ghost inputs = match current_default_shell {
        Some(d) => seq![d@] + string_seq_views(shells@),
        None => string_seq_views(shells@),
    };
    let mut normalized: Vec<String> = Vec::new();
    let mut seen: Vec<Vec<char>> = Vec::new();
    let mut offset: usize = 0;
    match current_default_shell {
        Some(default_shell) => {
            push_custom_shell(&mut normalized, &mut seen, default_shell);
            offset = 1;
            proof {
                assert(inputs.take(1) =~= seq![default_shell@]);
                assert(seq![default_shell@].drop_last() =~= Seq::<Seq<char>>::empty());
                assert(string_seq_views(Seq::<String>::empty()) =~= Seq::<Seq<char>>::empty());
                assert(custom_shell_list(Seq::<Seq<char>>::empty()) == Seq::<Seq<char>>::empty());
                assert(seq![default_shell@].last() == default_shell@);
                assert(custom_shell_list(inputs.take(1)) == with_custom_shell(
                    Seq::<Seq<char>>::empty(),
                    default_shell@,
                ));
            }
        },
        None => {
            proof {
                assert(inputs.take(0) =~= Seq::<Seq<char>>::empty());
                assert(string_seq_views(normalized@) =~= Seq::<Seq<char>>::empty());
            }
        },
    }
    proof {
        assert(string_seq_views(normalized@) == custom_shell_list(inputs.take(offset as int)));
    }
    let mut i: usize = 0;
    while i < shells.len()
        invariant
            i <= shells@.len(),
            offset <= 1,
            inputs.len() == shells@.len() + offset,
            forall|k: int| 0 <= k < shells@.len() ==> inputs[k + offset] == (#[trigger] shells@[k])@,
            seen@.len() == normalized@.len(),
            forall|j: int|
                0 <= j < seen@.len() ==> (#[trigger] seen@[j])@ == ascii_lower(normalized@[j]@),
            string_seq_views(normalized@) == custom_shell_list(inputs.take(i + offset)),
        decreases shells@.len() - i,
    {
        push_custom_shell(&mut normalized, &mut seen, shells[i].as_str());
        proof {
            assert(inputs.take(i + 1 + offset).drop_last() =~= inputs.take(i + offset));
            assert(inputs.take(i + 1 + offset).last() == shells@[i as int]@);
        }
        i = i + 1;
    }
    proof {
        assert(inputs.take(shells@.len() + offset) =~= inputs);
        lemma_builtin_shells_never_listed(inputs);
        assert forall|i: int| 0 <= i < normalized@.len() implies {
            let key = ascii_lower((#[trigger] normalized@[i])@);
            &&& key != "pwsh"@
            &&& key != "pwsh.exe"@
            &&& key != "cmd"@
            &&& key != "cmd.exe"@
        } by {
            assert(string_seq_views(normalized@)[i] == normalized@[i]@);
        }
    }
    normalized
}


/// Whatever shells are offered, the custom shell list comes out clean:
/// trimmed, never blank, never a built-in shell, and free of entries that
/// differ only in ASCII case.
pub proof fn lemma_custom_shell_list_is_clean(shells: Seq<Seq<char>>)
    ensures
        is_clean_shell_list(custom_shell_list(shells)),
    decreases shells.len(),
{
    if shells.len() > 0 {
        let prev = custom_shell_list(shells.drop_last());
        lemma_custom_shell_list_is_clean(shells.drop_last());
        let t = trim(shells.last());
        crate::text::lemma_trim_idempotent(shells.last());
        let res = with_custom_shell(prev, shells.last());
        if res != prev {
            assert(res == prev.push(t));
            assert forall|i: int| 0 <= i < res.len() implies {
                &&& trim(#[trigger] res[i]) == res[i]
                &&& res[i].len() > 0
                &&& !is_builtin_shell_name(res[i])
            } by {
                if i < prev.len() {
                    assert(res[i] == prev[i]);
                }
            }
            assert forall|i: int, j: int| 0 <= i < j < res.len() implies ascii_lower(
                #[trigger] res[i],
            ) != ascii_lower(#[trigger] res[j]) by {
                assert(res[i] == prev[i]);
                if j < prev.len() {
                    assert(res[j] == prev[j]);
                } else {
                    assert(res[j] == t);
                    assert(!has_shell_key(prev, ascii_lower(t)));
                }
            }
        }
    }
}

/// Cleaning a list that is already clean leaves it as it is.
pub proof fn lemma_custom_shell_list_keeps_clean_list(shells: Seq<Seq<char>>)
    requires
        is_clean_shell_list(shells),
    ensures
        custom_shell_list(shells) == shells,
    decreases shells.len(),
{
    if shells.len() > 0 {
        let init = shells.drop_last();
        assert(is_clean_shell_list(init)) by {
            assert forall|i: int| 0 <= i < init.len() implies {
                &&& trim(#[trigger] init[i]) == init[i]
                &&& init[i].len() > 0
                &&& !is_builtin_shell_name(init[i])
            } by {
                assert(init[i] == shells[i]);
            }
            assert forall|i: int, j: int| 0 <= i < j < init.len() implies ascii_lower(
                #[trigger] init[i],
            ) != ascii_lower(#[trigger] init[j]) by {
                assert(init[i] == shells[i]);
                assert(init[j] == shells[j]);
            }
        }
        lemma_custom_shell_list_keeps_clean_list(init);
        let last = shells.last();
        assert(trim(last) == last);
        assert(!has_shell_key(init, ascii_lower(last))) by {
            if has_shell_key(init, ascii_lower(last)) {
                let j = choose|j: int| 0 <= j < init.len() && ascii_lower(#[trigger] init[j])
                    == ascii_lower(last);
                assert(init[j] == shells[j]);
                assert(ascii_lower(shells[j]) != ascii_lower(shells[shells.len() - 1]));
            }
        }
        assert(init.push(last) =~= shells);
    }
}


/// No custom shell list ever holds one of the built-in shells `pwsh`,
/// `pwsh.exe`, `cmd` or `cmd.exe`, in any ASCII case: whatever shells are
/// offered, those are left out.
pub proof fn lemma_builtin_shells_never_listed(shells: Seq<Seq<char>>)
    ensures
        forall|i: int|
            0 <= i < custom_shell_list(shells).len() ==> {
                let key = ascii_lower(#[trigger] custom_shell_list(shells)[i]);
                &&& key != "pwsh"@
                &&& key != "pwsh.exe"@
                &&& key != "cmd"@
                &&& key != "cmd.exe"@
            },
{
    lemma_custom_shell_list_is_clean(shells);
    let list = custom_shell_list(shells);
    assert forall|i: int| 0 <= i < list.len() implies {
        let key = ascii_lower(#[trigger] list[i]);
        &&& key != "pwsh"@
        &&& key != "pwsh.exe"@
        &&& key != "cmd"@
        &&& key != "cmd.exe"@
    } by {
        assert(trim(list[i]) == list[i]);
        assert(!is_builtin_shell_name(list[i]));
    }
}

/// `shell` is one that the custom shell list keeps: not blank and not built in.
pub open spec fn is_kept_shell(shell: Seq<char>) -> bool {
    trim(shell).len() > 0 && !is_builtin_shell_name(trim(shell))
}

/// Offering `shell` first: a kept shell heads the list, trimmed; any other
/// leaves the list as the remaining shells make it.
proof fn lemma_custom_shell_list_first(shell: Seq<char>, shells: Seq<Seq<char>>)
    ensures
        is_kept_shell(shell) ==> custom_shell_list(seq![shell] + shells).len() >= 1
            && custom_shell_list(seq![shell] + shells)[0] == trim(shell),
        !is_kept_shell(shell) ==> custom_shell_list(seq![shell] + shells) == custom_shell_list(
            shells,
        ),
    decreases shells.len(),
{
    let all = seq![shell] + shells;
    if shells.len() == 0 {
        assert(all =~= seq![shell]);
        assert(all.drop_last() =~= Seq::<Seq<char>>::empty());
        assert(all.last() == shell);
        assert(custom_shell_list(Seq::<Seq<char>>::empty()) == Seq::<Seq<char>>::empty());
        assert(!has_shell_key(Seq::<Seq<char>>::empty(), ascii_lower(trim(shell))));
        assert(custom_shell_list(all) == with_custom_shell(Seq::<Seq<char>>::empty(), shell));
        assert(shells =~= Seq::<Seq<char>>::empty());
    } else {
        lemma_custom_shell_list_first(shell, shells.drop_last());
        assert(all.drop_last() =~= seq![shell] + shells.drop_last());
        assert(all.last() == shells.last());
        let prev = custom_shell_list(seq![shell] + shells.drop_last());
        assert(custom_shell_list(all) == with_custom_shell(prev, shells.last()));
        assert(custom_shell_list(shells) == with_custom_shell(
            custom_shell_list(shells.drop_last()),
            shells.last(),
        ));
        if is_kept_shell(shell) {
            let t = trim(shells.last());
            if !(t.len() == 0 || is_builtin_shell_name(t) || has_shell_key(prev, ascii_lower(t))) {
                assert(prev.push(t)[0] == prev[0]);
            }
        }
    }
}

/// Offering its own first shell again in front of a clean list that starts
/// with it changes nothing.
proof fn lemma_custom_shell_list_absorbs_head(shell: Seq<char>, list: Seq<Seq<char>>)
    requires
        is_clean_shell_list(list),
        list.len() >= 1,
        list[0] == trim(shell),
    ensures
        custom_shell_list(seq![shell] + list) == list,
    decreases list.len(),
{
    let all = seq![shell] + list;
    if list.len() == 1 {
        assert(trim(list[0]) == list[0]);
        assert(list[0].len() > 0);
        assert(!is_builtin_shell_name(list[0]));
        assert(all.drop_last() =~= seq![shell]);
        assert(seq![shell].drop_last() =~= Seq::<Seq<char>>::empty());
        assert(seq![shell].last() == shell);
        assert(custom_shell_list(Seq::<Seq<char>>::empty()) == Seq::<Seq<char>>::empty());
        assert(!has_shell_key(Seq::<Seq<char>>::empty(), ascii_lower(trim(shell))));
        assert(custom_shell_list(seq![shell]) == with_custom_shell(Seq::<Seq<char>>::empty(), shell));
        assert(custom_shell_list(seq![shell]) =~= seq![trim(shell)]);
        assert(all.last() == list[0]);
        let one = seq![trim(shell)];
        assert(ascii_lower(one[0]) == ascii_lower(trim(list[0])));
        assert(has_shell_key(one, ascii_lower(trim(list[0]))));
        assert(custom_shell_list(all) == with_custom_shell(one, list[0]));
        assert(list =~= one);
    } else {
        let init = list.drop_last();
        assert(is_clean_shell_list(init)) by {
            assert forall|i: int| 0 <= i < init.len() implies {
                &&& trim(#[trigger] init[i]) == init[i]
                &&& init[i].len() > 0
                &&& !is_builtin_shell_name(init[i])
            } by {
                assert(init[i] == list[i]);
            }
            assert forall|i: int, j: int| 0 <= i < j < init.len() implies ascii_lower(
                #[trigger] init[i],
            ) != ascii_lower(#[trigger] init[j]) by {
                assert(init[i] == list[i]);
                assert(init[j] == list[j]);
            }
        }
        lemma_custom_shell_list_absorbs_head(shell, init);
        assert(all.drop_last() =~= seq![shell] + init);
        let last = list.last();
        assert(all.last() == last);
        assert(trim(last) == last);
        assert(!has_shell_key(init, ascii_lower(last))) by {
            if has_shell_key(init, ascii_lower(last)) {
                let j = choose|j: int| 0 <= j < init.len() && ascii_lower(#[trigger] init[j])
                    == ascii_lower(last);
                assert(init[j] == list[j]);
                assert(ascii_lower(list[j]) != ascii_lower(list[list.len() - 1]));
            }
        }
        assert(init.push(last) =~= list);
    }
}

/// Cleaning the custom shells a second time, with the same default shell
/// in front, gives the same list.
pub proof fn lemma_custom_shell_list_twice(default_shell: Seq<char>, shells: Seq<Seq<char>>)
    ensures
        custom_shell_list(seq![default_shell] + custom_shell_list(seq![default_shell] + shells))
            == custom_shell_list(seq![default_shell] + shells),
{
    let once = custom_shell_list(seq![default_shell] + shells);
    lemma_custom_shell_list_is_clean(seq![default_shell] + shells);
    lemma_custom_shell_list_first(default_shell, shells);
    lemma_custom_shell_list_first(default_shell, once);
    lemma_custom_shell_list_keeps_clean_list(once);
    if is_kept_shell(default_shell) {
        lemma_custom_shell_list_absorbs_head(default_shell, once);
    }
}

// ---------------------------------------------------------------------------
// Copies
// ---------------------------------------------------------------------------
/// A copy of an optional `String`.
pub fn copy_opt_string(s: &Option<String>) -> (res: Option<String>)
    ensures
        res == *s,
{
    match s {
        Some(x) => Some(x.clone()),
        None => None,
    }
}

/// A copy of a list of `String`s.
pub fn copy_strings(v: &Vec<String>) -> (res: Vec<String>)
    ensures
        res@ == v@,
{
    let mut res: Vec<String> = Vec::new();
    let mut i: usize = 0;
    while i < v.len()
        invariant
            i <= v@.len(),
            res@ == v@.take(i as int),
        decreases v@.len() - i,
    {
        res.push(v[i].clone());
        proof {
            assert(v@.take(i + 1) =~= v@.take(i as int).push(v@[i as int]));
        }
        i = i + 1;
    }
    proof {
        assert(v@.take(v@.len() as int) =~= v@);
    }
    res
}

impl TerminalActivity {
    /// A field-by-field copy.
    pub fn duplicate(&self) -> (res: Self)
        ensures
            res == *self,
    {
        TerminalActivity {
            phase: self.phase,
            summary: self.summary.clone(),
            detail: self.detail.clone(),
            progress: self.progress,
            is_indeterminate: self.is_indeterminate,
            updated_at: self.updated_at.clone(),
        }
    }
}

impl TerminalProgressInfo {
    /// A field-by-field copy.
    pub fn duplicate(&self) -> (res: Self)
        ensures
            res == *self,
    {
        TerminalProgressInfo { state: self.state, value: self.value, updated_at: self.updated_at.clone() }
    }
}

impl TerminalCommandFailure {
    /// A field-by-field copy.
    pub fn duplicate(&self) -> (res: Self)
        ensures
            res == *self,
    {
        TerminalCommandFailure {
            session_id: self.session_id.clone(),
            timestamp: self.timestamp.clone(),
            command_text: self.command_text.clone(),
            exit_code: self.exit_code,
            error_message: copy_opt_string(&self.error_message),
            cwd: self.cwd.clone(),
            recent_output_excerpt: self.recent_output_excerpt.clone(),
        }
    }
}

impl TerminalSessionFailure {
    /// A field-by-field copy.
    pub fn duplicate(&self) -> (res: Self)
        ensures
            res == *self,
    {
        TerminalSessionFailure {
            session_id: self.session_id.clone(),
            timestamp: self.timestamp.clone(),
            exit_code: self.exit_code,
            message: self.message.clone(),
            shell_path: self.shell_path.clone(),
            shell_pid: self.shell_pid,
            stderr_excerpt: copy_opt_string(&self.stderr_excerpt),
            recent_output_excerpt: self.recent_output_excerpt.clone(),
            exception_type: copy_opt_string(&self.exception_type),
            hresult: self.hresult,
            win32_error_code: self.win32_error_code,
        }
    }
}

/// A copy of an optional command failure.
pub fn copy_command_failure(f: &Option<TerminalCommandFailure>) -> (res: Option<TerminalCommandFailure>)
    ensures
        res == *f,
{
    match f {
        Some(x) => Some(x.duplicate()),
        None => None,
    }
}

/// A copy of an optional session failure.
pub fn copy_session_failure(f: &Option<TerminalSessionFailure>) -> (res: Option<TerminalSessionFailure>)
    ensures
        res == *f,
{
    match f {
        Some(x) => Some(x.duplicate()),
        None => None,
    }
}

impl ProjectRecord {
    /// A field-by-field copy.
    pub fn duplicate(&self) -> (res: Self)
        ensures
            res == *self,
    {
        ProjectRecord {
            id: self.id.clone(),
            name: self.name.clone(),
            created_at: self.created_at.clone(),
            default_cwd: copy_opt_string(&self.default_cwd),
        }
    }
}

impl TerminalRecord {
    /// A field-by-field copy.
    pub fn duplicate(&self) -> (res: Self)
        ensures
            res == *self,
    {
        TerminalRecord {
            id: self.id.clone(),
            project_id: self.project_id.clone(),
            name: self.name.clone(),
            cwd: self.cwd.clone(),
            shell: self.shell.clone(),
            status: self.status,
            activity: self.activity.duplicate(),
            progress_info: self.progress_info.duplicate(),
            last_exit_code: self.last_exit_code,
            created_at: self.created_at.clone(),
            last_started_at: copy_opt_string(&self.last_started_at),
            diagnostic_log_path: copy_opt_string(&self.diagnostic_log_path),
            last_command_failure: copy_command_failure(&self.last_command_failure),
            last_session_failure: copy_session_failure(&self.last_session_failure),
        }
    }
}

/// A copy of a list of projects.
pub fn copy_projects(v: &Vec<ProjectRecord>) -> (res: Vec<ProjectRecord>)
    ensures
        res@ == v@,
{
    let mut res: Vec<ProjectRecord> = Vec::new();
    let mut i: usize = 0;
    while i < v.len()
        invariant
            i <= v@.len(),
            res@ == v@.take(i as int),
        decreases v@.len() - i,
    {
        res.push(v[i].duplicate());
        proof {
            assert(v@.take(i + 1) =~= v@.take(i as int).push(v@[i as int]));
        }
        i = i + 1;
    }
    proof {
        assert(v@.take(v@.len() as int) =~= v@);
    }
    res
}

/// A copy of a list of terminals.
pub fn copy_terminals(v: &Vec<TerminalRecord>) -> (res: Vec<TerminalRecord>)
    ensures
        res@ == v@,
{
    let mut res: Vec<TerminalRecord> = Vec::new();
    let mut i: usize = 0;
    while i < v.len()
        invariant
            i <= v@.len(),
            res@ == v@.take(i as int),
        decreases v@.len() - i,
    {
        res.push(v[i].duplicate());
        proof {
            assert(v@.take(i + 1) =~= v@.take(i as int).push(v@[i as int]));
        }
        i = i + 1;
    }
    proof {
        assert(v@.take(v@.len() as int) =~= v@);
    }
    res
}

impl AppDefaults {
    /// A field-by-field copy.
    pub fn duplicate(&self) -> (res: Self)
        ensures
            res.default_cwd == self.default_cwd,
            res.default_shell == self.default_shell,
            res.custom_shells@ == self.custom_shells@,
    {
        AppDefaults {
            default_cwd: self.default_cwd.clone(),
            default_shell: self.default_shell.clone(),
            custom_shells: copy_strings(&self.custom_shells),
        }
    }
}

// ---------------------------------------------------------------------------
// Whole-state operations
// ---------------------------------------------------------------------------
/// `r` is what `t` becomes in the persisted snapshot: the same record with
/// its live activity reset to the one for its status and no progress.
pub open spec fn is_snapshot_of_terminal(r: TerminalRecord, t: TerminalRecord, now: Seq<char>) -> bool {
    &&& r.id == t.id
    &&& r.project_id == t.project_id
    &&& r.name == t.name
    &&& r.cwd == t.cwd
    &&& r.shell == t.shell
    &&& r.status == t.status
    &&& r.last_exit_code == t.last_exit_code
    &&& r.created_at == t.created_at
    &&& r.last_started_at == t.last_started_at
    &&& r.diagnostic_log_path == t.diagnostic_log_path
    &&& r.last_command_failure == t.last_command_failure
    &&& r.last_session_failure == t.last_session_failure
    &&& is_activity_for_status(r.activity, t.status)
    &&& r.activity.updated_at@ == now
    &&& is_no_progress(r.progress_info)
    &&& r.progress_info.updated_at@ == now
}

/// `p` is `o` after loading at the time `now`: a blank id replaced by
/// `fresh_id`, a blank name by the default name, a blank creation time by
/// `now` and a blank default directory dropped.
pub open spec fn is_normalized_project(
    p: ProjectRecord,
    o: ProjectRecord,
    fresh_id: Seq<char>,
    now: Seq<char>,
) -> bool {
    &&& if is_blank(o.id@) {
        p.id@ == fresh_id
    } else {
        p.id == o.id
    }
    &&& if is_blank(o.name@) {
        p.name@ == DEFAULT_PROJECT_NAME@
    } else {
        p.name == o.name
    }
    &&& if is_blank(o.created_at@) {
        p.created_at@ == now
    } else {
        p.created_at == o.created_at
    }
    &&& p.default_cwd == match o.default_cwd {
        Some(c) => if is_blank(c@) {
            None
        } else {
            Some(c)
        },
        None => None,
    }
}

/// The status a terminal has after loading: no session survives a restart.
pub open spec fn loaded_status(status: TerminalStatus) -> TerminalStatus {
    if status == TerminalStatus::Running || status == TerminalStatus::Starting {
        TerminalStatus::Stopped
    } else {
        status
    }
}

/// `t` is `o` after loading at the time `now`, with `cwd`, `shell` and
/// `fresh_id` standing in for a blank directory, shell and id.
pub open spec fn is_normalized_terminal(
    t: TerminalRecord,
    o: TerminalRecord,
    cwd: Seq<char>,
    shell: Seq<char>,
    fresh_id: Seq<char>,
    now: Seq<char>,
) -> bool {
    &&& if is_blank(o.id@) {
        t.id@ == fresh_id
    } else {
        t.id == o.id
    }
    &&& if is_blank(o.name@) {
        t.name@ == DEFAULT_TERMINAL_NAME@
    } else {
        t.name == o.name
    }
    &&& if is_blank(o.cwd@) {
        t.cwd@ == cwd
    } else {
        t.cwd == o.cwd
    }
    &&& if is_blank(o.shell@) {
        t.shell@ == shell
    } else {
        t.shell == o.shell
    }
    &&& if is_blank(o.created_at@) {
        t.created_at@ == now
    } else {
        t.created_at == o.created_at
    }
    &&& t.status == loaded_status(o.status)
    &&& is_activity_for_status(t.activity, t.status)
    &&& t.activity.updated_at@ == now
    &&& is_no_progress(t.progress_info)
    &&& t.progress_info.updated_at@ == now
    &&& t.project_id == o.project_id
    &&& t.last_exit_code == o.last_exit_code
    &&& t.last_started_at == o.last_started_at
    &&& t.diagnostic_log_path == o.diagnostic_log_path
    &&& t.last_command_failure == o.last_command_failure
    &&& t.last_session_failure == o.last_session_failure
}

/// `fallback` when `value` is blank, else `value` itself.
fn value_or(value: &String, fallback: &str) -> (res: String)
    ensures
        if is_blank(value@) {
            res@ == fallback@
        } else {
            res == *value
        },
{
    if str_is_blank(value.as_str()) {
        owned(fallback)
    } else {
        value.clone()
    }
}

fn normalize_project(p: &ProjectRecord, fresh_id: &str, now: &str) -> (res: ProjectRecord)
    ensures
        is_normalized_project(res, *p, fresh_id@, now@),
{
    ProjectRecord {
        id: value_or(&p.id, fresh_id),
        name: value_or(&p.name, DEFAULT_PROJECT_NAME),
        created_at: value_or(&p.created_at, now),
        default_cwd: match &p.default_cwd {
            Some(c) => if str_is_blank(c.as_str()) {
                None
            } else {
                Some(c.clone())
            },
            None => None,
        },
    }
}

fn normalize_terminal(
    t: &TerminalRecord,
    cwd: &str,
    shell: &str,
    fresh_id: &str,
    now: &str,
) -> (res: TerminalRecord)
    ensures
        is_normalized_terminal(res, *t, cwd@, shell@, fresh_id@, now@),
{
    let status = match t.status {
        TerminalStatus::Running | TerminalStatus::Starting => TerminalStatus::Stopped,
        other => other,
    };
    TerminalRecord {
        id: value_or(&t.id, fresh_id),
        project_id: t.project_id.clone(),
        name: value_or(&t.name, DEFAULT_TERMINAL_NAME),
        cwd: value_or(&t.cwd, cwd),
        shell: value_or(&t.shell, shell),
        status,
        activity: TerminalActivity::for_status(status, now),
        progress_info: TerminalProgressInfo::none(now),
        last_exit_code: t.last_exit_code,
        created_at: value_or(&t.created_at, now),
        last_started_at: copy_opt_string(&t.last_started_at),
        diagnostic_log_path: copy_opt_string(&t.diagnostic_log_path),
        last_command_failure: copy_command_failure(&t.last_command_failure),
        last_session_failure: copy_session_failure(&t.last_session_failure),
    }
}

/// `new` is the state `old` read from disk once repaired at the time `now`
/// (see `AppState::normalize_loaded_state`): a blank project id `i` becomes
/// `fresh_ids[i]`, a blank terminal id `j` becomes `fresh_ids[n + j]`, where
/// `n` is the number of projects.
pub open spec fn is_repaired_state(
    new: AppState,
    old: AppState,
    fallback_cwd: Seq<char>,
    fallback_shell: Seq<char>,
    fresh_ids: Seq<String>,
    now: Seq<char>,
) -> bool {
    &&& if is_blank(old.defaults.default_cwd@) {
        new.defaults.default_cwd@ == fallback_cwd
    } else {
        new.defaults.default_cwd == old.defaults.default_cwd
    }
    &&& if is_blank(old.defaults.default_shell@) {
        new.defaults.default_shell@ == fallback_shell
    } else {
        new.defaults.default_shell == old.defaults.default_shell
    }
    &&& string_seq_views(new.defaults.custom_shells@) == custom_shell_list(
        seq![new.defaults.default_shell@] + string_seq_views(old.defaults.custom_shells@),
    )
    &&& new.projects@.len() == old.projects@.len()
    &&& forall|i: int|
        0 <= i < old.projects@.len() ==> is_normalized_project(
            #[trigger] new.projects@[i],
            old.projects@[i],
            fresh_ids[i]@,
            now,
        )
    &&& new.terminals@.len() == old.terminals@.len()
    &&& forall|i: int|
        0 <= i < old.terminals@.len() ==> is_normalized_terminal(
            #[trigger] new.terminals@[i],
            old.terminals@[i],
            fallback_cwd,
            fallback_shell,
            fresh_ids[old.projects@.len() + i]@,
            now,
        )
    &&& new.active_terminal_id is None
}

/// `r` is the state `s` as it is written to disk at the time `now` (see
/// `AppState::persistent_snapshot`).
pub open spec fn is_persistent_snapshot(r: AppState, s: AppState, now: Seq<char>) -> bool {
    &&& r.defaults.default_cwd == s.defaults.default_cwd
    &&& r.defaults.default_shell == s.defaults.default_shell
    &&& r.defaults.custom_shells@ == s.defaults.custom_shells@
    &&& r.projects@ == s.projects@
    &&& r.active_terminal_id == s.active_terminal_id
    &&& r.terminals@.len() == s.terminals@.len()
    &&& forall|i: int|
        0 <= i < s.terminals@.len() ==> is_snapshot_of_terminal(
            #[trigger] r.terminals@[i],
            s.terminals@[i],
            now,
        )
}

/// Nothing in the state is blank that loading would replace: the default
/// directory and shell, and the ids, names, times, directories and shells
/// of the projects and terminals (as the manager keeps them).
pub open spec fn has_no_blank_fields(s: AppState) -> bool {
    &&& !is_blank(s.defaults.default_cwd@)
    &&& !is_blank(s.defaults.default_shell@)
    &&& forall|i: int|
        0 <= i < s.projects@.len() ==> {
            let p = #[trigger] s.projects@[i];
            &&& !is_blank(p.id@)
            &&& !is_blank(p.name@)
            &&& !is_blank(p.created_at@)
            &&& p.default_cwd matches Some(c) ==> !is_blank(c@)
        }
    &&& forall|i: int|
        0 <= i < s.terminals@.len() ==> {
            let t = #[trigger] s.terminals@[i];
            &&& !is_blank(t.id@)
            &&& !is_blank(t.name@)
            &&& !is_blank(t.cwd@)
            &&& !is_blank(t.shell@)
            &&& !is_blank(t.created_at@)
        }
}

/// A state written to disk and read back keeps what was stored: its default
/// directory and shell, its projects, and every terminal's record; only a
/// session that was running or starting is stopped, the live activity and
/// progress are reset and no terminal is active. (Blank fields would be
/// replaced on loading, so none may be blank.)
pub proof fn lemma_saved_state_loads_back(
    s: AppState,
    snapshot: AppState,
    loaded: AppState,
    saved_at: Seq<char>,
    fallback_cwd: Seq<char>,
    fallback_shell: Seq<char>,
    fresh_ids: Seq<String>,
    loaded_at: Seq<char>,
)
    requires
        has_no_blank_fields(s),
        is_persistent_snapshot(snapshot, s, saved_at),
        is_repaired_state(loaded, snapshot, fallback_cwd, fallback_shell, fresh_ids, loaded_at),
    ensures
        loaded.defaults.default_cwd == s.defaults.default_cwd,
        loaded.defaults.default_shell == s.defaults.default_shell,
        loaded.projects@ == s.projects@,
        loaded.terminals@.len() == s.terminals@.len(),
        forall|i: int|
            0 <= i < s.terminals@.len() ==> {
                let t = #[trigger] loaded.terminals@[i];
                let o = s.terminals@[i];
                &&& t == (TerminalRecord {
                    status: loaded_status(o.status),
                    activity: t.activity,
                    progress_info: t.progress_info,
                    ..o
                })
                &&& is_activity_for_status(t.activity, t.status)
                &&& is_no_progress(t.progress_info)
            },
        loaded.active_terminal_id is None,
{
    assert forall|i: int| 0 <= i < s.projects@.len() implies loaded.projects@[i] == s.projects@[i] by {
        assert(snapshot.projects@[i] == s.projects@[i]);
        assert(is_normalized_project(
            loaded.projects@[i],
            snapshot.projects@[i],
            fresh_ids[i]@,
            loaded_at,
        ));
        let p = s.projects@[i];
        assert(!is_blank(p.id@));
    }
    assert(loaded.projects@ =~= s.projects@);
    assert forall|i: int| 0 <= i < s.terminals@.len() implies ({
        let t = #[trigger] loaded.terminals@[i];
        let o = s.terminals@[i];
        &&& t == (TerminalRecord {
            status: loaded_status(o.status),
            activity: t.activity,
            progress_info: t.progress_info,
            ..o
        })
        &&& is_activity_for_status(t.activity, t.status)
        &&& is_no_progress(t.progress_info)
    }) by {
        assert(is_snapshot_of_terminal(snapshot.terminals@[i], s.terminals@[i], saved_at));
        assert(is_normalized_terminal(
            loaded.terminals@[i],
            snapshot.terminals@[i],
            fallback_cwd,
            fallback_shell,
            fresh_ids[snapshot.projects@.len() + i]@,
            loaded_at,
        ));
        let o = s.terminals@[i];
        assert(!is_blank(o.id@));
    }
}

/// Repairing a loaded state a second time changes nothing that the first
/// repair settled: the default directory, shell and custom shells, every
/// project, and every terminal's ids, names, directories, shells, status,
/// times and failures stay; only the time stamped on the live activity and
/// progress is new. (Where the first repair took a blank fresh id or time,
/// the second would replace it, so those are not blank.)
pub proof fn lemma_repair_twice_changes_nothing(
    stored: AppState,
    once: AppState,
    twice: AppState,
    fallback_cwd: Seq<char>,
    fallback_shell: Seq<char>,
    first_ids: Seq<String>,
    first_at: Seq<char>,
    second_ids: Seq<String>,
    second_at: Seq<char>,
)
    requires
        is_repaired_state(once, stored, fallback_cwd, fallback_shell, first_ids, first_at),
        is_repaired_state(twice, once, fallback_cwd, fallback_shell, second_ids, second_at),
        forall|i: int|
            0 <= i < stored.projects@.len() + stored.terminals@.len() ==> !is_blank(
                #[trigger] first_ids[i]@,
            ),
        !is_blank(first_at),
    ensures
        twice.defaults.default_cwd@ == once.defaults.default_cwd@,
        twice.defaults.default_shell@ == once.defaults.default_shell@,
        string_seq_views(twice.defaults.custom_shells@) == string_seq_views(
            once.defaults.custom_shells@,
        ),
        twice.projects@.len() == once.projects@.len(),
        forall|i: int|
            0 <= i < once.projects@.len() ==> {
                let p = #[trigger] twice.projects@[i];
                let o = once.projects@[i];
                &&& p.id == o.id
                &&& p.name@ == o.name@
                &&& p.created_at == o.created_at
                &&& p.default_cwd == o.default_cwd
            },
        twice.terminals@.len() == once.terminals@.len(),
        forall|i: int|
            0 <= i < once.terminals@.len() ==> {
                let t = #[trigger] twice.terminals@[i];
                let o = once.terminals@[i];
                &&& t.id == o.id
                &&& t.project_id == o.project_id
                &&& t.name@ == o.name@
                &&& t.cwd@ == o.cwd@
                &&& t.shell@ == o.shell@
                &&& t.status == o.status
                &&& t.created_at == o.created_at
                &&& t.last_exit_code == o.last_exit_code
                &&& t.last_started_at == o.last_started_at
                &&& t.diagnostic_log_path == o.diagnostic_log_path
                &&& t.last_command_failure == o.last_command_failure
                &&& t.last_session_failure == o.last_session_failure
                &&& is_activity_for_status(t.activity, o.status)
                &&& is_no_progress(t.progress_info)
            },
        twice.active_terminal_id is None,
{
    lemma_custom_shell_list_twice(
        once.defaults.default_shell@,
        string_seq_views(stored.defaults.custom_shells@),
    );
    assert forall|i: int| 0 <= i < once.projects@.len() implies {
        let p = #[trigger] twice.projects@[i];
        let o = once.projects@[i];
        &&& p.id == o.id
        &&& p.name@ == o.name@
        &&& p.created_at == o.created_at
        &&& p.default_cwd == o.default_cwd
    } by {
        assert(is_normalized_project(once.projects@[i], stored.projects@[i], first_ids[i]@, first_at));
        assert(is_normalized_project(twice.projects@[i], once.projects@[i], second_ids[i]@, second_at));
        assert(!is_blank(first_ids[i]@));
    }
    assert forall|i: int| 0 <= i < once.terminals@.len() implies {
        let t = #[trigger] twice.terminals@[i];
        let o = once.terminals@[i];
        &&& t.id == o.id
        &&& t.project_id == o.project_id
        &&& t.name@ == o.name@
        &&& t.cwd@ == o.cwd@
        &&& t.shell@ == o.shell@
        &&& t.status == o.status
        &&& t.created_at == o.created_at
        &&& t.last_exit_code == o.last_exit_code
        &&& t.last_started_at == o.last_started_at
        &&& t.diagnostic_log_path == o.diagnostic_log_path
        &&& t.last_command_failure == o.last_command_failure
        &&& t.last_session_failure == o.last_session_failure
        &&& is_activity_for_status(t.activity, o.status)
        &&& is_no_progress(t.progress_info)
    } by {
        let k = stored.projects@.len() + i;
        assert(is_normalized_terminal(
            once.terminals@[i],
            stored.terminals@[i],
            fallback_cwd,
            fallback_shell,
            first_ids[k]@,
            first_at,
        ));
        assert(is_normalized_terminal(
            twice.terminals@[i],
            once.terminals@[i],
            fallback_cwd,
            fallback_shell,
            second_ids[once.projects@.len() + i]@,
            second_at,
        ));
        assert(!is_blank(first_ids[k]@));
    }
}

/// Loading stops only the sessions that were running or starting: such a
/// terminal comes back stopped, and a terminal that was stopped, had exited
/// or had failed keeps its status (and the activity that goes with it).
pub proof fn lemma_loading_keeps_settled_status(
    new: AppState,
    old: AppState,
    fallback_cwd: Seq<char>,
    fallback_shell: Seq<char>,
    fresh_ids: Seq<String>,
    now: Seq<char>,
)
    requires
        is_repaired_state(new, old, fallback_cwd, fallback_shell, fresh_ids, now),
    ensures
        forall|i: int|
            0 <= i < old.terminals@.len() ==> {
                let before = old.terminals@[i].status;
                let after = (#[trigger] new.terminals@[i]).status;
                &&& (before == TerminalStatus::Running || before == TerminalStatus::Starting)
                    ==> after == TerminalStatus::Stopped
                &&& (before == TerminalStatus::Stopped || before == TerminalStatus::Exited
                    || before == TerminalStatus::Error) ==> after == before
                &&& is_activity_for_status(new.terminals@[i].activity, after)
            },
{
    assert forall|i: int| 0 <= i < old.terminals@.len() implies {
        let before = old.terminals@[i].status;
        let after = (#[trigger] new.terminals@[i]).status;
        &&& (before == TerminalStatus::Running || before == TerminalStatus::Starting)
            ==> after == TerminalStatus::Stopped
        &&& (before == TerminalStatus::Stopped || before == TerminalStatus::Exited || before
            == TerminalStatus::Error) ==> after == before
        &&& is_activity_for_status(new.terminals@[i].activity, after)
    } by {
        assert(is_normalized_terminal(
            new.terminals@[i],
            old.terminals@[i],
            fallback_cwd,
            fallback_shell,
            fresh_ids[old.projects@.len() + i]@,
            now,
        ));
    }
}

impl AppState {
    /// An empty state with the given defaults.
    pub fn create_initial(defaults: AppDefaults) -> (res: Self)
        ensures
            res.defaults == defaults,
            res.projects@.len() == 0,
            res.terminals@.len() == 0,
            res.active_terminal_id is None,
    {
        AppState { defaults, projects: Vec::new(), terminals: Vec::new(), active_terminal_id: None }
    }

    /// The state as it is written to disk at the time `now`: everything
    /// kept, but each terminal's live activity reset to the one for its
    /// status and its progress cleared.
    pub fn persistent_snapshot(&self, now: &str) -> (res: Self)
        ensures
            is_persistent_snapshot(res, *self, now@),
    {
        let mut terminals: Vec<TerminalRecord> = Vec::new();
        let mut i: usize = 0;
        while i < self.terminals.len()
            invariant
                i <= self.terminals@.len(),
                terminals@.len() == i,
                forall|j: int|
                    0 <= j < i ==> is_snapshot_of_terminal(
                        #[trigger] terminals@[j],
                        self.terminals@[j],
                        now@,
                    ),
            decreases self.terminals@.len() - i,
        {
            let mut t = self.terminals[i].duplicate();
            t.activity = TerminalActivity::for_status(t.status, now);
            t.progress_info = TerminalProgressInfo::none(now);
            terminals.push(t);
            i = i + 1;
        }
        AppState {
            defaults: self.defaults.duplicate(),
            projects: copy_projects(&self.projects),
            terminals,
            active_terminal_id: copy_opt_string(&self.active_terminal_id),
        }
    }

    /// Repairs a state read from disk. Blank defaults take `fallback_cwd` and
    /// `fallback_shell`, the custom shells are cleaned (with the default shell
    /// first), blank project and terminal fields get defaults or fresh
    /// values, no terminal is left running or starting, live activity and
    /// progress are reset, and no terminal is active. `now` is the time of
    /// loading; `fresh_ids` holds an unused id for each project and then one
    /// for each terminal, taken where the stored id is blank.
    pub fn normalize_loaded_state(
        &mut self,
        fallback_cwd: &str,
        fallback_shell: &str,
        now: &str,
        fresh_ids: &Vec<String>,
    )
        requires
            fresh_ids@.len() >= old(self).projects@.len() + old(self).terminals@.len(),
        ensures
            is_repaired_state(
                *final(self),
                *old(self),
                fallback_cwd@,
                fallback_shell@,
                fresh_ids@,
                now@,
            ),
            final(self).terminals@.len() == old(self).terminals@.len(),
            forall|i: int|
                0 <= i < old(self).terminals@.len() ==> {
                    let before = old(self).terminals@[i].status;
                    let after = (#[trigger] final(self).terminals@[i]).status;
                    &&& (before == TerminalStatus::Running || before == TerminalStatus::Starting)
                        ==> after == TerminalStatus::Stopped
                    &&& (before == TerminalStatus::Stopped || before == TerminalStatus::Exited
                        || before == TerminalStatus::Error) ==> after == before
                },
    {
        let default_cwd = value_or(&self.defaults.default_cwd, fallback_cwd);
        let default_shell = value_or(&self.defaults.default_shell, fallback_shell);
        let custom_shells = normalize_custom_shells(
            copy_strings(&self.defaults.custom_shells),
            Some(default_shell.as_str()),
        );
        let mut projects: Vec<ProjectRecord> = Vec::new();
        let mut i: usize = 0;
        while i < self.projects.len()
            invariant
                i <= self.projects@.len(),
                fresh_ids@.len() >= self.projects@.len() + self.terminals@.len(),
                projects@.len() == i,
                forall|j: int|
                    0 <= j < i ==> is_normalized_project(
                        #[trigger] projects@[j],
                        self.projects@[j],
                        fresh_ids@[j]@,
                        now@,
                    ),
            decreases self.projects@.len() - i,
        {
            projects.push(normalize_project(&self.projects[i], fresh_ids[i].as_str(), now));
            i = i + 1;
        }
        let mut terminals: Vec<TerminalRecord> = Vec::new();
        let mut i: usize = 0;
        assert(fresh_ids@.len() == fresh_ids.len());
        while i < self.terminals.len()
            invariant
                i <= self.terminals@.len(),
                fresh_ids@.len() >= self.projects@.len() + self.terminals@.len(),
                fresh_ids@.len() <= usize::MAX,
                terminals@.len() == i,
                forall|j: int|
                    0 <= j < i ==> is_normalized_terminal(
                        #[trigger] terminals@[j],
                        self.terminals@[j],
                        fallback_cwd@,
                        fallback_shell@,
                        fresh_ids@[self.projects@.len() + j]@,
                        now@,
                    ),
            decreases self.terminals@.len() - i,
        {
            let k: usize = self.projects.len() + i;
            terminals.push(
                normalize_terminal(
                    &self.terminals[i],
                    fallback_cwd,
                    fallback_shell,
                    fresh_ids[k].as_str(),
                    now,
                ),
            );
            i = i + 1;
        }
        self.defaults = AppDefaults { default_cwd, default_shell, custom_shells };
        self.projects = projects;
        self.terminals = terminals;
        self.active_terminal_id = None;
        proof {
            lemma_loading_keeps_settled_status(
                *self,
                *old(self),
                fallback_cwd@,
                fallback_shell@,
                fresh_ids@,
                now@,
            );
        }
    }
}

} // verus!
