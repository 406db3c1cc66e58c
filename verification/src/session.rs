//! The decisions of the terminal session manager: project and terminal
//! bookkeeping on the application state, what each event of the helper
//! process does to a terminal, and the activity shown while a session runs.
//! Spawning helpers, writing to them and persisting the state happen around
//! these functions, in the application shell.
use vstd::prelude::*;

use crate::diagnostics::{
    append_output_chunk, appended_output, create_recent_output_excerpt, keep_last,
    normalize_newlines, recent_output_excerpt, ansi_stripped, string_views,
};
use base64::Engine;
use crate::models::{
    is_repaired_state, AppDefaults, copy_opt_string, copy_projects, copy_terminals, is_activity_for_status, is_no_progress,
    AppState, ProjectRecord, TerminalActivity,
    TerminalActivityPhase, TerminalProgressInfo, TerminalRecord, TerminalSessionFailure,
    TerminalStatus,
};
use crate::text::{
    opt_view, ascii_lower, chars_end_with, chars_of, ends_with, is_blank, join2, join3, owned, str_is_blank,
    trim, trim_str,
};

verus! {

pub const INPUT_SETTLE_MS: u64 = 1100;

pub const OUTPUT_SETTLE_MS: u64 = 1600;

pub const MAX_HELPER_STDERR_LINES: usize = 40;

pub const MIN_TERMINAL_COLS: u32 = 20;

pub const MIN_TERMINAL_ROWS: u32 = 5;

// ---------------------------------------------------------------------------
// Helper process events
// ---------------------------------------------------------------------------
/// The helper reports that the shell started.
#[derive(Debug, Clone)]
pub struct HelperStartedEvent {
    pub session_id: String,
    pub shell_pid: u32,
    pub shell_path: String,
    pub diagnostic_log_path: String,
    pub started_at: String,
}

/// The helper forwards shell output (base64 encoded).
#[derive(Debug, Clone)]
pub struct HelperOutputEvent {
    pub data_base64: String,
}

/// The helper reports that the shell exited.
#[derive(Debug, Clone)]
pub struct HelperExitEvent {
    pub session_id: String,
    pub exit_code: Option<i32>,
    pub exited_at: String,
    pub shell_pid: Option<u32>,
    pub shell_path: String,
    pub diagnostic_log_path: String,
    pub stderr_excerpt: Option<String>,
}

/// The helper reports a failure.
#[derive(Debug, Clone)]
pub struct HelperErrorEvent {
    pub session_id: Option<String>,
    pub message: String,
    pub diagnostic_log_path: Option<String>,
    pub exception_type: Option<String>,
    pub hresult: Option<i32>,
    pub win32_error_code: Option<i32>,
    pub occurred_at: String,
    pub shell_path: Option<String>,
    pub shell_pid: Option<u32>,
}

/// What the manager remembers of one running helper session.
#[derive(Debug)]
pub struct LiveSession {
    pub session_id: String,
    pub recent_output_lines: Vec<String>,
    pub pending_output_line: String,
    pub helper_stderr_lines: Vec<String>,
    pub pending_helper_stderr_line: String,
    pub is_stopping: bool,
    pub closed: bool,
    pub received_started_event: bool,
    pub received_exit_event: bool,
    pub received_error_event: bool,
}

impl LiveSession {
    /// A session that has just been spawned.
    pub fn new(session_id: String) -> (res: Self)
        ensures
            res.session_id == session_id,
            res.recent_output_lines@.len() == 0,
            res.pending_output_line@.len() == 0,
            res.helper_stderr_lines@.len() == 0,
            res.pending_helper_stderr_line@.len() == 0,
            !res.is_stopping,
            !res.closed,
            !res.received_started_event,
            !res.received_exit_event,
            !res.received_error_event,
    {
        LiveSession {
            session_id,
            recent_output_lines: Vec::new(),
            pending_output_line: String::new(),
            helper_stderr_lines: Vec::new(),
            pending_helper_stderr_line: String::new(),
            is_stopping: false,
            closed: false,
            received_started_event: false,
            received_exit_event: false,
            received_error_event: false,
        }
    }
}

// ---------------------------------------------------------------------------
// Small decisions
// ---------------------------------------------------------------------------
/// The activity summary, detail and progress shown while input is sent:
/// a line break means a command was submitted.
pub open spec fn input_activity(data: Seq<char>) -> (Seq<char>, Seq<char>, u32) {
    if data.contains('\r') || data.contains('\n') {
        ("Running command"@, "Submitted input to the shell and waiting for output."@, 44)
    } else {
        ("Sending input"@, "Forwarding interactive input to the shell."@, 28)
    }
}

/// The summary, detail and progress shown while `data` is sent to the shell.
pub fn describe_input_activity(data: &str) -> (res: (String, String, u32))
    ensures
        (res.0@, res.1@, res.2) == input_activity(data@),
{
    let chars = chars_of(data);
    let mut has_break = false;
    let mut i: usize = 0;
    while i < chars.len()
        invariant
            i <= chars@.len(),
            chars@ == data@,
            has_break == exists|j: int| 0 <= j < i && (chars@[j] == '\r' || chars@[j] == '\n'),
        decreases chars@.len() - i,
    {
        if chars[i] == '\r' || chars[i] == '\n' {
            has_break = true;
        }
        i = i + 1;
    }
    proof {
        if has_break {
            let j = choose|j: int| 0 <= j < chars@.len() && (chars@[j] == '\r' || chars@[j] == '\n');
            if chars@[j] == '\r' {
                assert(data@.contains('\r'));
            } else {
                assert(data@.contains('\n'));
            }
        } else {
            if data@.contains('\r') {
                let j = choose|j: int| 0 <= j < data@.len() && data@[j] == '\r';
                assert(chars@[j] == '\r');
            }
            if data@.contains('\n') {
                let j = choose|j: int| 0 <= j < data@.len() && data@[j] == '\n';
                assert(chars@[j] == '\n');
            }
        }
    }
    if has_break {
        (
            owned("Running command"),
            owned("Submitted input to the shell and waiting for output."),
            44,
        )
    } else {
        (owned("Sending input"), owned("Forwarding interactive input to the shell."), 28)
    }
}

/// `str::to_lowercase`, the full Unicode lower-case mapping.
pub uninterp spec fn unicode_lowercase(s: Seq<char>) -> Seq<char>;

/// `str::to_lowercase`. Trusted: the result is the Unicode lower-case form of `s`.
#[verifier::external_body]
fn to_lowercase(s: &str) -> (res: String)
    ensures
        res@ == unicode_lowercase(s@),
{
    s.to_lowercase()
}

/// A lower-cased shell command that names PowerShell.
pub open spec fn names_power_shell(lowered: Seq<char>) -> bool {
    ends_with(lowered, "pwsh"@) || ends_with(lowered, "pwsh.exe"@) || ends_with(lowered, "powershell"@)
        || ends_with(lowered, "powershell.exe"@)
}

/// A shell command that runs PowerShell (and so gets the bootstrap script).
pub open spec fn is_power_shell_command(shell: Seq<char>) -> bool {
    names_power_shell(unicode_lowercase(trim(shell)))
}

/// Whether a lower-cased shell command ends in the name of PowerShell.
pub fn is_power_shell_name(lowered: &str) -> (res: bool)
    ensures
        res == names_power_shell(lowered@),
{
    let chars = chars_of(lowered);
    chars_end_with(&chars, &chars_of("pwsh")) || chars_end_with(&chars, &chars_of("pwsh.exe"))
        || chars_end_with(&chars, &chars_of("powershell")) || chars_end_with(
        &chars,
        &chars_of("powershell.exe"),
    )
}

/// Whether the shell command runs PowerShell.
pub fn is_power_shell_shell(shell: &str) -> (res: bool)
    ensures
        res == is_power_shell_command(shell@),
{
    let trimmed = trim_str(shell);
    let lowered = to_lowercase(trimmed.as_str());
    is_power_shell_name(lowered.as_str())
}

/// The terminal size passed to the helper: at least 20 columns and 5 rows.
pub fn clamp_terminal_size(cols: u32, rows: u32) -> (res: (u32, u32))
    ensures
        res.0 == if cols < MIN_TERMINAL_COLS {
            MIN_TERMINAL_COLS
        } else {
            cols
        },
        res.1 == if rows < MIN_TERMINAL_ROWS {
            MIN_TERMINAL_ROWS
        } else {
            rows
        },
{
    (
        if cols < MIN_TERMINAL_COLS {
            MIN_TERMINAL_COLS
        } else {
            cols
        },
        if rows < MIN_TERMINAL_ROWS {
            MIN_TERMINAL_ROWS
        } else {
            rows
        },
    )
}

/// The decimal digits of `n`.
pub open spec fn decimal_digits(n: nat) -> Seq<char>
    decreases n,
{
    if n < 10 {
        seq![(n + 48) as char]
    } else {
        decimal_digits(n / 10).push(((n % 10) + 48) as char)
    }
}

/// `n` written in decimal, with a leading `-` when negative (as `to_string` writes it).
pub open spec fn decimal_text(n: int) -> Seq<char> {
    if n < 0 {
        seq!['-'] + decimal_digits((-n) as nat)
    } else {
        decimal_digits(n as nat)
    }
}

fn digit_char(d: u32) -> (res: char)
    requires
        d < 10,
    ensures
        res == (d + 48) as char,
{
    let b: u8 = (d as u8) + 48;
    b as char
}

fn decimal_of_u32(n: u32) -> (res: Vec<char>)
    ensures
        res@ == decimal_digits(n as nat),
    decreases n,
{
    if n < 10 {
        let mut v: Vec<char> = Vec::new();
        v.push(digit_char(n));
        v
    } else {
        let mut v = decimal_of_u32(n / 10);
        v.push(digit_char(n % 10));
        v
    }
}

/// `n.to_string()` for an `i32`.
pub fn i32_text(n: i32) -> (res: String)
    ensures
        res@ == decimal_text(n as int),
{
    if n < 0 {
        let magnitude: u32 = if n == i32::MIN {
            2147483648u32
        } else {
            (-n) as u32
        };
        let mut res = owned("-");
        proof {
            reveal_strlit("-");
        }
        let digits = crate::text::string_from_chars(&decimal_of_u32(magnitude));
        res.append(digits.as_str());
        proof {
            assert(res@ =~= seq!['-'] + decimal_digits((-(n as int)) as nat));
        }
        res
    } else {
        crate::text::string_from_chars(&decimal_of_u32(n as u32))
    }
}

/// `n.to_string()` for a `u32`.
pub fn u32_text(n: u32) -> (res: String)
    ensures
        res@ == decimal_digits(n as nat),
{
    crate::text::string_from_chars(&decimal_of_u32(n))
}


// ---------------------------------------------------------------------------
// Looking records up
// ---------------------------------------------------------------------------
/// The position of the first `x` in `s`.
pub open spec fn position_of<T>(s: Seq<T>, x: T) -> Option<int>
    decreases s.len(),
{
    if s.len() == 0 {
        None
    } else if s[0] == x {
        Some(0)
    } else {
        match position_of(s.drop_first(), x) {
            Some(i) => Some(i + 1),
            None => None,
        }
    }
}

/// `i` is the first position of `x` when nothing before it is `x`.
pub proof fn lemma_position_of<T>(s: Seq<T>, x: T, i: int)
    requires
        0 <= i <= s.len(),
        forall|j: int| 0 <= j < i ==> s[j] != x,
    ensures
        i < s.len() && s[i] == x ==> position_of(s, x) == Some(i),
        i == s.len() ==> position_of(s, x) is None,
    decreases i,
{
    if i > 0 {
        lemma_position_of(s.drop_first(), x, i - 1);
    }
}

/// What `position_of` finds is `x`, and nothing before it is.
pub proof fn lemma_position_of_found<T>(s: Seq<T>, x: T)
    ensures
        position_of(s, x) matches Some(i) ==> 0 <= i < s.len() && s[i] == x && forall|j: int|
            0 <= j < i ==> s[j] != x,
        position_of(s, x) is None ==> forall|j: int| 0 <= j < s.len() ==> s[j] != x,
    decreases s.len(),
{
    if s.len() > 0 {
        lemma_position_of_found(s.drop_first(), x);
        if s[0] != x {
            assert forall|j: int| 1 <= j < s.len() implies s[j] == s.drop_first()[j - 1] by {}
        }
    }
}

pub open spec fn project_ids(ps: Seq<ProjectRecord>) -> Seq<Seq<char>> {
    ps.map_values(|p: ProjectRecord| p.id@)
}

pub open spec fn terminal_ids(ts: Seq<TerminalRecord>) -> Seq<Seq<char>> {
    ts.map_values(|t: TerminalRecord| t.id@)
}

/// The first project with id `id`.
pub open spec fn project_index(s: AppState, id: Seq<char>) -> Option<int> {
    position_of(project_ids(s.projects@), id)
}

/// The first terminal with id `id`.
pub open spec fn terminal_index(s: AppState, id: Seq<char>) -> Option<int> {
    position_of(terminal_ids(s.terminals@), id)
}

pub open spec fn has_project(s: AppState, id: Seq<char>) -> bool {
    exists|i: int| 0 <= i < s.projects@.len() && (#[trigger] s.projects@[i]).id@ == id
}

pub open spec fn has_terminal(s: AppState, id: Seq<char>) -> bool {
    exists|i: int| 0 <= i < s.terminals@.len() && (#[trigger] s.terminals@[i]).id@ == id
}

/// Every terminal belongs to a project that exists, and the active
/// terminal, if any, exists.
pub open spec fn is_well_linked(s: AppState) -> bool {
    &&& forall|i: int|
        0 <= i < s.terminals@.len() ==> has_project(s, (#[trigger] s.terminals@[i]).project_id@)
    &&& s.active_terminal_id matches Some(a) ==> has_terminal(s, a@)
}

fn find_project_index(ps: &Vec<ProjectRecord>, id: &String) -> (res: Option<usize>)
    ensures
        res matches Some(i) ==> position_of(project_ids(ps@), id@) == Some(i as int) && i
            < ps@.len() && ps@[i as int].id@ == id@,
        res is None ==> position_of(project_ids(ps@), id@) is None,
{
    let ghost ids = project_ids(ps@);
    let mut i: usize = 0;
    while i < ps.len()
        invariant
            i <= ps@.len(),
            ids == project_ids(ps@),
            forall|j: int| 0 <= j < i ==> ids[j] != id@,
        decreases ps@.len() - i,
    {
        if ps[i].id == *id {
            proof {
                lemma_position_of(ids, id@, i as int);
            }
            return Some(i);
        }
        i = i + 1;
    }
    proof {
        lemma_position_of(ids, id@, i as int);
    }
    None
}

fn find_terminal_index(ts: &Vec<TerminalRecord>, id: &String) -> (res: Option<usize>)
    ensures
        res matches Some(i) ==> position_of(terminal_ids(ts@), id@) == Some(i as int) && i
            < ts@.len() && ts@[i as int].id@ == id@,
        res is None ==> position_of(terminal_ids(ts@), id@) is None,
{
    let ghost ids = terminal_ids(ts@);
    let mut i: usize = 0;
    while i < ts.len()
        invariant
            i <= ts@.len(),
            ids == terminal_ids(ts@),
            forall|j: int| 0 <= j < i ==> ids[j] != id@,
        decreases ts@.len() - i,
    {
        if ts[i].id == *id {
            proof {
                lemma_position_of(ids, id@, i as int);
            }
            return Some(i);
        }
        i = i + 1;
    }
    proof {
        lemma_position_of(ids, id@, i as int);
    }
    None
}

/// "Project '<id>' was not found."
pub open spec fn project_not_found(id: Seq<char>) -> Seq<char> {
    "Project '"@ + id + "' was not found."@
}

/// "Terminal '<id>' was not found."
pub open spec fn terminal_not_found(id: Seq<char>) -> Seq<char> {
    "Terminal '"@ + id + "' was not found."@
}

/// "Terminal session '<id>' is not running yet. ..."
pub open spec fn session_not_running(id: Seq<char>) -> Seq<char> {
    "Terminal session '"@ + id
        + "' is not running yet. Activate the session before sending input."@
}

/// The error for input sent to a terminal without a live session.
pub fn session_not_running_message(terminal_id: &str) -> (res: String)
    ensures
        res@ == session_not_running(terminal_id@),
{
    join3(
        "Terminal session '",
        terminal_id,
        "' is not running yet. Activate the session before sending input.",
    )
}

// ---------------------------------------------------------------------------
// Filters
// ---------------------------------------------------------------------------
pub open spec fn projects_without(ps: Seq<ProjectRecord>, id: Seq<char>) -> Seq<ProjectRecord>
    decreases ps.len(),
{
    if ps.len() == 0 {
        seq![]
    } else if ps.last().id@ == id {
        projects_without(ps.drop_last(), id)
    } else {
        projects_without(ps.drop_last(), id).push(ps.last())
    }
}

pub open spec fn terminals_without_project(ts: Seq<TerminalRecord>, project_id: Seq<char>) -> Seq<
    TerminalRecord,
>
    decreases ts.len(),
{
    if ts.len() == 0 {
        seq![]
    } else if ts.last().project_id@ == project_id {
        terminals_without_project(ts.drop_last(), project_id)
    } else {
        terminals_without_project(ts.drop_last(), project_id).push(ts.last())
    }
}

pub open spec fn terminals_without(ts: Seq<TerminalRecord>, id: Seq<char>) -> Seq<TerminalRecord>
    decreases ts.len(),
{
    if ts.len() == 0 {
        seq![]
    } else if ts.last().id@ == id {
        terminals_without(ts.drop_last(), id)
    } else {
        terminals_without(ts.drop_last(), id).push(ts.last())
    }
}

/// A project whose id is not `id`.
pub open spec fn has_other_id(id: Seq<char>) -> spec_fn(ProjectRecord) -> bool {
    |p: ProjectRecord| p.id@ != id
}

/// A terminal of project `project_id`.
pub open spec fn belongs_to(project_id: Seq<char>) -> spec_fn(TerminalRecord) -> bool {
    |t: TerminalRecord| t.project_id@ == project_id
}

/// A terminal of another project than `project_id`.
pub open spec fn belongs_elsewhere(project_id: Seq<char>) -> spec_fn(TerminalRecord) -> bool {
    |t: TerminalRecord| t.project_id@ != project_id
}

/// A terminal whose id is not `id`.
pub open spec fn is_other_terminal(id: Seq<char>) -> spec_fn(TerminalRecord) -> bool {
    |t: TerminalRecord| t.id@ != id
}

/// Removing the projects with id `id` keeps every other project, in its
/// order: the result is the sequence filtered by "another id".
pub proof fn lemma_projects_without_keeps_order(ps: Seq<ProjectRecord>, id: Seq<char>)
    ensures
        projects_without(ps, id) == ps.filter(has_other_id(id)),
    decreases ps.len(),
{
    reveal(Seq::filter);
    if ps.len() > 0 {
        lemma_projects_without_keeps_order(ps.drop_last(), id);
    }
}

/// Removing the terminals of project `project_id` keeps every terminal of
/// the other projects, in its order.
pub proof fn lemma_terminals_without_project_keeps_order(ts: Seq<TerminalRecord>, project_id: Seq<char>)
    ensures
        terminals_without_project(ts, project_id) == ts.filter(belongs_elsewhere(project_id)),
    decreases ts.len(),
{
    reveal(Seq::filter);
    if ts.len() > 0 {
        lemma_terminals_without_project_keeps_order(ts.drop_last(), project_id);
    }
}

/// Removing the terminal `id` keeps every other terminal, in its order.
pub proof fn lemma_terminals_without_keeps_order(ts: Seq<TerminalRecord>, id: Seq<char>)
    ensures
        terminals_without(ts, id) == ts.filter(is_other_terminal(id)),
    decreases ts.len(),
{
    reveal(Seq::filter);
    if ts.len() > 0 {
        lemma_terminals_without_keeps_order(ts.drop_last(), id);
    }
}

/// The ids collected for project `project_id` are the ids of all of its
/// terminals, in order: every terminal of the project is named, and no other.
pub proof fn lemma_terminal_ids_of_project_are_all(ts: Seq<TerminalRecord>, project_id: Seq<char>)
    ensures
        terminal_ids_of_project(ts, project_id) == ts.filter(belongs_to(project_id)).map_values(
            |t: TerminalRecord| t.id@,
        ),
        forall|i: int|
            0 <= i < ts.len() && (#[trigger] ts[i]).project_id@ == project_id
                ==> terminal_ids_of_project(ts, project_id).contains(ts[i].id@),
        terminal_ids_of_project(ts, project_id).len() == ts.filter(belongs_to(project_id)).len(),
    decreases ts.len(),
{
    reveal(Seq::filter);
    if ts.len() > 0 {
        let init = ts.drop_last();
        lemma_terminal_ids_of_project_are_all(init, project_id);
        let f = ts.filter(belongs_to(project_id));
        let fi = init.filter(belongs_to(project_id));
        if ts.last().project_id@ == project_id {
            assert(f == fi.push(ts.last()));
            assert(f.map_values(|t: TerminalRecord| t.id@) =~= fi.map_values(
                |t: TerminalRecord| t.id@,
            ).push(ts.last().id@));
        } else {
            assert(f == fi);
        }
        let r = terminal_ids_of_project(ts, project_id);
        let ri = terminal_ids_of_project(init, project_id);
        assert forall|i: int|
            0 <= i < ts.len() && (#[trigger] ts[i]).project_id@ == project_id implies r.contains(
            ts[i].id@,
        ) by {
            if i < ts.len() - 1 {
                assert(init[i] == ts[i]);
                assert(ri.contains(ts[i].id@));
                let k = choose|k: int| 0 <= k < ri.len() && ri[k] == ts[i].id@;
                if ts.last().project_id@ == project_id {
                    assert(r[k] == ri[k]);
                }
            } else {
                assert(ts[i] == ts.last());
                assert(r[r.len() - 1] == ts[i].id@);
            }
        }
    }
}

/// What `projects_without` keeps: exactly the projects with another id.
pub proof fn lemma_projects_without(ps: Seq<ProjectRecord>, id: Seq<char>)
    ensures
        forall|p: ProjectRecord|
            #[trigger] projects_without(ps, id).contains(p) <==> ps.contains(p) && p.id@ != id,
    decreases ps.len(),
{
    if ps.len() > 0 {
        let init = ps.drop_last();
        let l = ps.last();
        lemma_projects_without(init, id);
        assert(ps =~= init.push(l));
        assert forall|x: ProjectRecord| #[trigger] projects_without(ps, id).contains(x) <==> ps.contains(x)
            && x.id@ != id by {
            vstd::seq_lib::lemma_seq_contains_after_push(init, l, x);
            vstd::seq_lib::lemma_seq_contains_after_push(projects_without(init, id), l, x);
        }
    } else {
        assert forall|x: ProjectRecord| #[trigger] projects_without(ps, id).contains(x) <==> ps.contains(x)
            && x.id@ != id by {
            assert(projects_without(ps, id) =~= Seq::<ProjectRecord>::empty());
        }
    }
}

/// What `terminals_without_project` keeps: exactly the terminals of other projects.
pub proof fn lemma_terminals_without_project(ts: Seq<TerminalRecord>, project_id: Seq<char>)
    ensures
        forall|t: TerminalRecord|
            #[trigger] terminals_without_project(ts, project_id).contains(t) <==> ts.contains(t)
                && t.project_id@ != project_id,
    decreases ts.len(),
{
    if ts.len() > 0 {
        let init = ts.drop_last();
        let l = ts.last();
        lemma_terminals_without_project(init, project_id);
        assert(ts =~= init.push(l));
        assert forall|x: TerminalRecord| #[trigger] terminals_without_project(ts, project_id).contains(x) <==> ts.contains(x)
            && x.project_id@ != project_id by {
            vstd::seq_lib::lemma_seq_contains_after_push(init, l, x);
            vstd::seq_lib::lemma_seq_contains_after_push(terminals_without_project(init, project_id), l, x);
        }
    } else {
        assert forall|x: TerminalRecord| #[trigger] terminals_without_project(ts, project_id).contains(x) <==> ts.contains(x)
            && x.project_id@ != project_id by {
            assert(terminals_without_project(ts, project_id) =~= Seq::<TerminalRecord>::empty());
        }
    }
}

/// What `terminals_without` keeps: exactly the terminals with another id.
pub proof fn lemma_terminals_without(ts: Seq<TerminalRecord>, id: Seq<char>)
    ensures
        forall|t: TerminalRecord|
            #[trigger] terminals_without(ts, id).contains(t) <==> ts.contains(t) && t.id@ != id,
    decreases ts.len(),
{
    if ts.len() > 0 {
        let init = ts.drop_last();
        let l = ts.last();
        lemma_terminals_without(init, id);
        assert(ts =~= init.push(l));
        assert forall|x: TerminalRecord| #[trigger] terminals_without(ts, id).contains(x) <==> ts.contains(x)
            && x.id@ != id by {
            vstd::seq_lib::lemma_seq_contains_after_push(init, l, x);
            vstd::seq_lib::lemma_seq_contains_after_push(terminals_without(init, id), l, x);
        }
    } else {
        assert forall|x: TerminalRecord| #[trigger] terminals_without(ts, id).contains(x) <==> ts.contains(x)
            && x.id@ != id by {
            assert(terminals_without(ts, id) =~= Seq::<TerminalRecord>::empty());
        }
    }
}

/// Replacing terminal `i` by one with the same id and project keeps the
/// links of the state.
pub proof fn lemma_well_linked_terminal_update(old_s: AppState, new_s: AppState, i: int)
    requires
        0 <= i < old_s.terminals@.len(),
        new_s.terminals@ == old_s.terminals@.update(i, new_s.terminals@[i]),
        new_s.terminals@[i].id == old_s.terminals@[i].id,
        new_s.terminals@[i].project_id == old_s.terminals@[i].project_id,
        new_s.projects == old_s.projects,
        new_s.active_terminal_id == old_s.active_terminal_id,
    ensures
        is_well_linked(old_s) ==> is_well_linked(new_s),
{
    if !is_well_linked(old_s) {
        return;
    }
    assert forall|j: int| 0 <= j < new_s.terminals@.len() implies has_project(
        new_s,
        (#[trigger] new_s.terminals@[j]).project_id@,
    ) by {
        assert(has_project(old_s, old_s.terminals@[j].project_id@));
    }
    if let Some(a) = new_s.active_terminal_id {
        assert(has_terminal(old_s, a@));
        let k = choose|k: int| 0 <= k < old_s.terminals@.len() && (#[trigger] old_s.terminals@[k]).id@ == a@;
        assert(new_s.terminals@[k].id@ == a@);
    }
}

/// The ids of the terminals of project `project_id`, in order.
pub open spec fn terminal_ids_of_project(ts: Seq<TerminalRecord>, project_id: Seq<char>) -> Seq<
    Seq<char>,
>
    decreases ts.len(),
{
    if ts.len() == 0 {
        seq![]
    } else if ts.last().project_id@ == project_id {
        terminal_ids_of_project(ts.drop_last(), project_id).push(ts.last().id@)
    } else {
        terminal_ids_of_project(ts.drop_last(), project_id)
    }
}


// ---------------------------------------------------------------------------
// The manager
// ---------------------------------------------------------------------------
/// The application state together with the activity tokens that decide
/// which delayed activity update still applies.
#[derive(Debug)]
pub struct SessionManager {
    pub state: AppState,
    pub activity_tokens: Vec<(String, u64)>,
}

/// `r` holds the same state as `s` (the copy handed to the front end).
pub open spec fn is_copy_of_state(r: AppState, s: AppState) -> bool {
    &&& r.defaults.default_cwd == s.defaults.default_cwd
    &&& r.defaults.default_shell == s.defaults.default_shell
    &&& r.defaults.custom_shells@ == s.defaults.custom_shells@
    &&& r.projects@ == s.projects@
    &&& r.terminals@ == s.terminals@
    &&& r.active_terminal_id == s.active_terminal_id
}

/// A newly created project named after `name`.
pub open spec fn is_new_project(p: ProjectRecord, name: Seq<char>, id: Seq<char>, now: Seq<char>) -> bool {
    &&& p.name@ == trim(name)
    &&& p.id@ == id
    &&& p.created_at@ == now
    &&& p.default_cwd is None
}

/// The shell a new terminal gets: the requested one, trimmed, unless it is
/// missing or blank, then the default shell.
pub open spec fn chosen_shell(requested: Option<Seq<char>>, default_shell: Seq<char>) -> Seq<char> {
    match requested {
        Some(s) => if is_blank(s) {
            default_shell
        } else {
            trim(s)
        },
        None => default_shell,
    }
}

/// A newly created, stopped terminal.
pub open spec fn is_new_terminal(
    t: TerminalRecord,
    project_id: Seq<char>,
    name: Seq<char>,
    cwd: Seq<char>,
    shell: Seq<char>,
    id: Seq<char>,
    now: Seq<char>,
) -> bool {
    &&& t.id@ == id
    &&& t.project_id@ == project_id
    &&& t.name@ == trim(name)
    &&& t.cwd@ == trim(cwd)
    &&& t.shell@ == shell
    &&& t.status == TerminalStatus::Stopped
    &&& is_activity_for_status(t.activity, TerminalStatus::Stopped)
    &&& t.activity.updated_at@ == now
    &&& is_no_progress(t.progress_info)
    &&& t.progress_info.updated_at@ == now
    &&& t.last_exit_code is None
    &&& t.created_at@ == now
    &&& t.last_started_at is None
    &&& t.diagnostic_log_path is None
    &&& t.last_command_failure is None
    &&& t.last_session_failure is None
}

/// A copy of the application state.
pub fn copy_state(s: &AppState) -> (res: AppState)
    ensures
        is_copy_of_state(res, *s),
{
    AppState {
        defaults: s.defaults.duplicate(),
        projects: copy_projects(&s.projects),
        terminals: copy_terminals(&s.terminals),
        active_terminal_id: copy_opt_string(&s.active_terminal_id),
    }
}

impl SessionManager {
    /// A manager over a state that has been loaded and normalised.
    pub fn new(state: AppState) -> (res: Self)
        ensures
            res.state == state,
            res.activity_tokens@.len() == 0,
    {
        SessionManager { state, activity_tokens: Vec::new() }
    }

    /// A copy of the current state.
    pub fn snapshot_state(&self) -> (res: AppState)
        ensures
            is_copy_of_state(res, self.state),
    {
        copy_state(&self.state)
    }

    /// The state the front end starts from.
    pub fn get_initial_state(&self) -> (res: AppState)
        ensures
            is_copy_of_state(res, self.state),
    {
        self.snapshot_state()
    }

    /// Adds a project named `name` (trimmed) with the id `id`, created at the
    /// time `now`; a blank name is refused.
    pub fn create_project(&mut self, name: String, id: String, now: &str) -> (res: Result<AppState, String>)
        ensures
            is_well_linked(old(self).state) ==> is_well_linked(final(self).state),
            res is Err <==> is_blank(name@),
            res matches Err(e) ==> e@ == "Project name cannot be empty."@ && *final(self) == *old(
                self,
            ),
            res matches Ok(snapshot) ==> {
                let n = old(self).state.projects@.len();
                &&& final(self).state.projects@.len() == n + 1
                &&& final(self).state.projects@.take(n as int) == old(self).state.projects@
                &&& is_new_project(final(self).state.projects@[n as int], name@, id@, now@)
                &&& final(self).state.terminals == old(self).state.terminals
                &&& final(self).state.defaults == old(self).state.defaults
                &&& final(self).state.active_terminal_id == old(self).state.active_terminal_id
                &&& final(self).activity_tokens == old(self).activity_tokens
                &&& is_copy_of_state(snapshot, final(self).state)
            },
    {
        let trimmed_name = trim_str(name.as_str());
        if trimmed_name.as_str().is_empty() {
            return Err(owned("Project name cannot be empty."));
        }
        let project = ProjectRecord {
            id,
            name: trimmed_name,
            created_at: owned(now),
            default_cwd: None,
        };
        let ghost before = self.state.projects@;
        self.state.projects.push(project);
        proof {
            assert(self.state.projects@.take(before.len() as int) =~= before);
        }
        Ok(self.snapshot_state())
    }

    /// Renames project `project_id` to `name` (trimmed).
    pub fn rename_project(&mut self, project_id: String, name: String) -> (res: Result<AppState, String>)
        ensures
            is_well_linked(old(self).state) ==> is_well_linked(final(self).state),
            res is Ok <==> (!is_blank(name@) && project_index(old(self).state, project_id@) is Some),
            is_blank(name@) ==> (res matches Err(e) && e@ == "Project name cannot be empty."@),
            !is_blank(name@) && project_index(old(self).state, project_id@) is None ==> (res matches Err(
                e,
            ) && e@ == project_not_found(project_id@)),
            res is Err ==> *final(self) == *old(self),
            res matches Ok(snapshot) ==> {
                let i = project_index(old(self).state, project_id@)->0;
                let old_p = old(self).state.projects@[i];
                &&& !is_blank(name@)
                &&& project_index(old(self).state, project_id@) is Some
                &&& final(self).state.projects@ == old(self).state.projects@.update(
                    i,
                    ProjectRecord {
                        id: old_p.id,
                        name: final(self).state.projects@[i].name,
                        created_at: old_p.created_at,
                        default_cwd: old_p.default_cwd,
                    },
                )
                &&& final(self).state.projects@[i].name@ == trim(name@)
                &&& final(self).state.terminals == old(self).state.terminals
                &&& final(self).state.defaults == old(self).state.defaults
                &&& final(self).state.active_terminal_id == old(self).state.active_terminal_id
                &&& final(self).activity_tokens == old(self).activity_tokens
                &&& is_copy_of_state(snapshot, final(self).state)
            },
    {
        let trimmed_name = trim_str(name.as_str());
        if trimmed_name.as_str().is_empty() {
            return Err(owned("Project name cannot be empty."));
        }
        match find_project_index(&self.state.projects, &project_id) {
            None => Err(join3("Project '", project_id.as_str(), "' was not found.")),
            Some(i) => {
                let old_p = self.state.projects[i].duplicate();
                let updated = ProjectRecord {
                    id: old_p.id,
                    name: trimmed_name,
                    created_at: old_p.created_at,
                    default_cwd: old_p.default_cwd,
                };
                self.state.projects.set(i, updated);
                proof {
                    if is_well_linked(old(self).state) {
                        assert forall|j: int| 0 <= j < self.state.terminals@.len() implies has_project(
                            self.state,
                            (#[trigger] self.state.terminals@[j]).project_id@,
                        ) by {
                            let pid = self.state.terminals@[j].project_id@;
                            assert(has_project(old(self).state, pid));
                            let k = choose|k: int|
                                0 <= k < old(self).state.projects@.len()
                                    && (#[trigger] old(self).state.projects@[k]).id@ == pid;
                            assert(self.state.projects@[k].id@ == pid);
                        }
                    }
                }
                Ok(self.snapshot_state())
            },
        }
    }

    /// The ids of the terminals of project `project_id`, which are stopped
    /// before the project is deleted.
    pub fn project_terminal_ids(&self, project_id: &String) -> (res: Result<Vec<String>, String>)
        ensures
            res is Err <==> project_index(self.state, project_id@) is None,
            res matches Err(e) ==> e@ == project_not_found(project_id@),
            res matches Ok(ids) ==> string_views(ids@) == terminal_ids_of_project(
                self.state.terminals@,
                project_id@,
            ),
            res matches Ok(ids) ==> string_views(ids@) == self.state.terminals@.filter(
                belongs_to(project_id@),
            ).map_values(|t: TerminalRecord| t.id@),
            res matches Ok(ids) ==> ids@.len() == self.state.terminals@.filter(
                belongs_to(project_id@),
            ).len(),
            res matches Ok(ids) ==> forall|i: int|
                0 <= i < self.state.terminals@.len() && (#[trigger] self.state.terminals@[i]).project_id@
                    == project_id@ ==> string_views(ids@).contains(self.state.terminals@[i].id@),
    {
        if find_project_index(&self.state.projects, project_id).is_none() {
            return Err(join3("Project '", project_id.as_str(), "' was not found."));
        }
        let mut ids: Vec<String> = Vec::new();
        let mut i: usize = 0;
        while i < self.state.terminals.len()
            invariant
                i <= self.state.terminals@.len(),
                string_views(ids@) == terminal_ids_of_project(
                    self.state.terminals@.take(i as int),
                    project_id@,
                ),
            decreases self.state.terminals@.len() - i,
        {
            proof {
                assert(self.state.terminals@.take(i + 1).drop_last() =~= self.state.terminals@.take(
                    i as int,
                ));
            }
            if self.state.terminals[i].project_id == *project_id {
                let ghost before = ids@;
                ids.push(self.state.terminals[i].id.clone());
                proof {
                    assert(string_views(ids@) =~= string_views(before).push(
                        self.state.terminals@[i as int].id@,
                    ));
                }
            }
            i = i + 1;
        }
        proof {
            assert(self.state.terminals@.take(self.state.terminals@.len() as int)
                =~= self.state.terminals@);
            lemma_terminal_ids_of_project_are_all(self.state.terminals@, project_id@);
        }
        Ok(ids)
    }

    /// Removes project `project_id` and its terminals (their sessions have
    /// been stopped), and clears the active terminal if it went with them.
    pub fn delete_project(&mut self, project_id: String) -> (res: Result<AppState, String>)
        ensures
            is_well_linked(old(self).state) ==> is_well_linked(final(self).state),
            res is Err <==> project_index(old(self).state, project_id@) is None,
            res matches Err(e) ==> e@ == project_not_found(project_id@) && *final(self) == *old(
                self,
            ),
            res matches Ok(snapshot) ==> {
                &&& final(self).state.projects@ == projects_without(
                    old(self).state.projects@,
                    project_id@,
                )
                &&& final(self).state.projects@ == old(self).state.projects@.filter(
                    has_other_id(project_id@),
                )
                &&& final(self).state.terminals@ == terminals_without_project(
                    old(self).state.terminals@,
                    project_id@,
                )
                &&& final(self).state.terminals@ == old(self).state.terminals@.filter(
                    belongs_elsewhere(project_id@),
                )
                &&& final(self).state.active_terminal_id == match old(
                    self,
                ).state.active_terminal_id {
                    Some(a) => if has_terminal(final(self).state, a@) {
                        Some(a)
                    } else {
                        None
                    },
                    None => None,
                }
                &&& final(self).state.defaults == old(self).state.defaults
                &&& final(self).activity_tokens == old(self).activity_tokens
                &&& is_copy_of_state(snapshot, final(self).state)
            },
    {
        if find_project_index(&self.state.projects, &project_id).is_none() {
            return Err(join3("Project '", project_id.as_str(), "' was not found."));
        }
        let mut projects: Vec<ProjectRecord> = Vec::new();
        let mut i: usize = 0;
        while i < self.state.projects.len()
            invariant
                i <= self.state.projects@.len(),
                projects@ == projects_without(self.state.projects@.take(i as int), project_id@),
            decreases self.state.projects@.len() - i,
        {
            proof {
                assert(self.state.projects@.take(i + 1).drop_last() =~= self.state.projects@.take(
                    i as int,
                ));
            }
            if self.state.projects[i].id != project_id {
                projects.push(self.state.projects[i].duplicate());
            }
            i = i + 1;
        }
        proof {
            assert(self.state.projects@.take(self.state.projects@.len() as int)
                =~= self.state.projects@);
        }
        let mut terminals: Vec<TerminalRecord> = Vec::new();
        let mut i: usize = 0;
        while i < self.state.terminals.len()
            invariant
                i <= self.state.terminals@.len(),
                terminals@ == terminals_without_project(
                    self.state.terminals@.take(i as int),
                    project_id@,
                ),
            decreases self.state.terminals@.len() - i,
        {
            proof {
                assert(self.state.terminals@.take(i + 1).drop_last() =~= self.state.terminals@.take(
                    i as int,
                ));
            }
            if self.state.terminals[i].project_id != project_id {
                terminals.push(self.state.terminals[i].duplicate());
            }
            i = i + 1;
        }
        proof {
            assert(self.state.terminals@.take(self.state.terminals@.len() as int)
                =~= self.state.terminals@);
            lemma_projects_without_keeps_order(self.state.projects@, project_id@);
            lemma_terminals_without_project_keeps_order(self.state.terminals@, project_id@);
        }
        self.state.projects = projects;
        self.state.terminals = terminals;
        let clear_active = match &self.state.active_terminal_id {
            Some(active) => find_terminal_index(&self.state.terminals, active).is_none(),
            None => false,
        };
        proof {
            if let Some(a) = &self.state.active_terminal_id {
                lemma_position_of_found(terminal_ids(self.state.terminals@), a@);
                if has_terminal(self.state, a@) {
                    let k = choose|k: int|
                        0 <= k < self.state.terminals@.len()
                            && (#[trigger] self.state.terminals@[k]).id@ == a@;
                    assert(terminal_ids(self.state.terminals@)[k] == a@);
                }
            }
        }
        if clear_active {
            self.state.active_terminal_id = None;
        }
        proof {
            if is_well_linked(old(self).state) {
                lemma_projects_without(old(self).state.projects@, project_id@);
                lemma_terminals_without_project(old(self).state.terminals@, project_id@);
                assert forall|j: int| 0 <= j < self.state.terminals@.len() implies has_project(
                    self.state,
                    (#[trigger] self.state.terminals@[j]).project_id@,
                ) by {
                    let t = self.state.terminals@[j];
                    assert(self.state.terminals@.contains(t));
                    let k = choose|k: int|
                        0 <= k < old(self).state.terminals@.len() && old(self).state.terminals@[k]
                            == t;
                    assert(has_project(old(self).state, old(self).state.terminals@[k].project_id@));
                    let m = choose|m: int|
                        0 <= m < old(self).state.projects@.len()
                            && (#[trigger] old(self).state.projects@[m]).id@ == t.project_id@;
                    let owner = old(self).state.projects@[m];
                    assert(old(self).state.projects@.contains(owner));
                    assert(self.state.projects@.contains(owner));
                    let q = choose|q: int|
                        0 <= q < self.state.projects@.len() && self.state.projects@[q] == owner;
                    assert(self.state.projects@[q].id@ == t.project_id@);
                }
            }
        }
        Ok(self.snapshot_state())
    }

    /// Adds a stopped terminal with the id `id`, created at the time `now`,
    /// to project `project_id`; a blank name or directory is refused, and so
    /// is an unknown project.
    pub fn create_terminal(
        &mut self,
        project_id: String,
        name: String,
        cwd: String,
        shell: Option<String>,
        id: String,
        now: &str,
    ) -> (res: Result<AppState, String>)
        ensures
            is_well_linked(old(self).state) ==> is_well_linked(final(self).state),
            res is Ok <==> (!is_blank(name@) && !is_blank(cwd@) && project_index(
                old(self).state,
                project_id@,
            ) is Some),
            is_blank(name@) ==> (res matches Err(e) && e@ == "Terminal name cannot be empty."@),
            !is_blank(name@) && is_blank(cwd@) ==> (res matches Err(e) && e@
                == "Terminal working directory cannot be empty."@),
            !is_blank(name@) && !is_blank(cwd@) && project_index(old(self).state, project_id@)
                is None ==> (res matches Err(e) && e@ == project_not_found(project_id@)),
            res is Err ==> *final(self) == *old(self),
            res matches Ok(snapshot) ==> {
                let n = old(self).state.terminals@.len();
                &&& !is_blank(name@) && !is_blank(cwd@)
                &&& project_index(old(self).state, project_id@) is Some
                &&& final(self).state.terminals@.len() == n + 1
                &&& final(self).state.terminals@.take(n as int) == old(self).state.terminals@
                &&& is_new_terminal(
                    final(self).state.terminals@[n as int],
                    project_id@,
                    name@,
                    cwd@,
                    chosen_shell(
                        match shell {
                            Some(s) => Some(s@),
                            None => None,
                        },
                        old(self).state.defaults.default_shell@,
                    ),
                    id@,
                    now@,
                )
                &&& final(self).state.projects == old(self).state.projects
                &&& final(self).state.defaults == old(self).state.defaults
                &&& final(self).state.active_terminal_id == old(self).state.active_terminal_id
                &&& final(self).activity_tokens == old(self).activity_tokens
                &&& is_copy_of_state(snapshot, final(self).state)
            },
    {
        let trimmed_name = trim_str(name.as_str());
        let trimmed_cwd = trim_str(cwd.as_str());
        if trimmed_name.as_str().is_empty() {
            return Err(owned("Terminal name cannot be empty."));
        }
        if trimmed_cwd.as_str().is_empty() {
            return Err(owned("Terminal working directory cannot be empty."));
        }
        let project_index = match find_project_index(&self.state.projects, &project_id) {
            Some(i) => i,
            None => {
                return Err(join3("Project '", project_id.as_str(), "' was not found."));
            },
        };
        let owner_id = self.state.projects[project_index].id.clone();
        let chosen = match &shell {
            Some(requested) => {
                if str_is_blank(requested.as_str()) {
                    self.state.defaults.default_shell.clone()
                } else {
                    trim_str(requested.as_str())
                }
            },
            None => self.state.defaults.default_shell.clone(),
        };
        let terminal = TerminalRecord {
            id,
            project_id: owner_id,
            name: trimmed_name,
            cwd: trimmed_cwd,
            shell: chosen,
            status: TerminalStatus::Stopped,
            activity: TerminalActivity::for_status(TerminalStatus::Stopped, now),
            progress_info: TerminalProgressInfo::none(now),
            last_exit_code: None,
            created_at: owned(now),
            last_started_at: None,
            diagnostic_log_path: None,
            last_command_failure: None,
            last_session_failure: None,
        };
        let ghost before = self.state.terminals@;
        self.state.terminals.push(terminal);
        proof {
            assert(self.state.terminals@.take(before.len() as int) =~= before);
        }
        Ok(self.snapshot_state())
    }

    /// Renames terminal `terminal_id` to `name` (trimmed).
    pub fn rename_terminal(&mut self, terminal_id: String, name: String) -> (res: Result<AppState, String>)
        ensures
            is_well_linked(old(self).state) ==> is_well_linked(final(self).state),
            res is Ok <==> (!is_blank(name@) && terminal_index(old(self).state, terminal_id@) is Some),
            is_blank(name@) ==> (res matches Err(e) && e@ == "Terminal name cannot be empty."@),
            !is_blank(name@) && terminal_index(old(self).state, terminal_id@) is None ==> (res matches Err(
                e,
            ) && e@ == terminal_not_found(terminal_id@)),
            res is Err ==> *final(self) == *old(self),
            res matches Ok(snapshot) ==> {
                let i = terminal_index(old(self).state, terminal_id@)->0;
                let old_t = old(self).state.terminals@[i];
                let new_t = final(self).state.terminals@[i];
                &&& !is_blank(name@)
                &&& terminal_index(old(self).state, terminal_id@) is Some
                &&& final(self).state.terminals@ == old(self).state.terminals@.update(i, new_t)
                &&& new_t.name@ == trim(name@)
                &&& new_t == (TerminalRecord { name: new_t.name, ..old_t })
                &&& final(self).state.projects == old(self).state.projects
                &&& final(self).state.defaults == old(self).state.defaults
                &&& final(self).state.active_terminal_id == old(self).state.active_terminal_id
                &&& final(self).activity_tokens == old(self).activity_tokens
                &&& is_copy_of_state(snapshot, final(self).state)
            },
    {
        let trimmed_name = trim_str(name.as_str());
        if trimmed_name.as_str().is_empty() {
            return Err(owned("Terminal name cannot be empty."));
        }
        match find_terminal_index(&self.state.terminals, &terminal_id) {
            None => Err(join3("Terminal '", terminal_id.as_str(), "' was not found.")),
            Some(i) => {
                let mut updated = self.state.terminals[i].duplicate();
                updated.name = trimmed_name;
                self.state.terminals.set(i, updated);
                proof {
                    lemma_well_linked_terminal_update(old(self).state, self.state, i as int);
                }
                Ok(self.snapshot_state())
            },
        }
    }

    /// Removes terminal `terminal_id` (its session has been stopped) and
    /// clears the active terminal if it was this one.
    pub fn delete_terminal(&mut self, terminal_id: String) -> (res: AppState)
        ensures
            is_well_linked(old(self).state) ==> is_well_linked(final(self).state),
            final(self).state.terminals@ == terminals_without(
                old(self).state.terminals@,
                terminal_id@,
            ),
            final(self).state.terminals@ == old(self).state.terminals@.filter(
                is_other_terminal(terminal_id@),
            ),
            final(self).state.active_terminal_id == match old(self).state.active_terminal_id {
                Some(a) => if a@ == terminal_id@ {
                    None
                } else {
                    Some(a)
                },
                None => None,
            },
            final(self).state.projects == old(self).state.projects,
            final(self).state.defaults == old(self).state.defaults,
            final(self).activity_tokens == old(self).activity_tokens,
            is_copy_of_state(res, final(self).state),
    {
        let mut terminals: Vec<TerminalRecord> = Vec::new();
        let mut i: usize = 0;
        while i < self.state.terminals.len()
            invariant
                i <= self.state.terminals@.len(),
                terminals@ == terminals_without(self.state.terminals@.take(i as int), terminal_id@),
            decreases self.state.terminals@.len() - i,
        {
            proof {
                assert(self.state.terminals@.take(i + 1).drop_last() =~= self.state.terminals@.take(
                    i as int,
                ));
            }
            if self.state.terminals[i].id != terminal_id {
                terminals.push(self.state.terminals[i].duplicate());
            }
            i = i + 1;
        }
        proof {
            assert(self.state.terminals@.take(self.state.terminals@.len() as int)
                =~= self.state.terminals@);
        }
        proof {
            lemma_terminals_without_keeps_order(self.state.terminals@, terminal_id@);
        }
        self.state.terminals = terminals;
        let clear_active = match &self.state.active_terminal_id {
            Some(active) => *active == terminal_id,
            None => false,
        };
        if clear_active {
            self.state.active_terminal_id = None;
        }
        proof {
            if is_well_linked(old(self).state) {
                lemma_terminals_without(old(self).state.terminals@, terminal_id@);
                assert forall|j: int| 0 <= j < self.state.terminals@.len() implies has_project(
                    self.state,
                    (#[trigger] self.state.terminals@[j]).project_id@,
                ) by {
                    let t = self.state.terminals@[j];
                    assert(self.state.terminals@.contains(t));
                    let k = choose|k: int|
                        0 <= k < old(self).state.terminals@.len() && old(self).state.terminals@[k]
                            == t;
                    assert(has_project(old(self).state, old(self).state.terminals@[k].project_id@));
                }
                if let Some(a) = &self.state.active_terminal_id {
                    assert(has_terminal(old(self).state, a@));
                    let k = choose|k: int|
                        0 <= k < old(self).state.terminals@.len()
                            && (#[trigger] old(self).state.terminals@[k]).id@ == a@;
                    let t = old(self).state.terminals@[k];
                    assert(old(self).state.terminals@.contains(t));
                    assert(self.state.terminals@.contains(t));
                    let q = choose|q: int|
                        0 <= q < self.state.terminals@.len() && self.state.terminals@[q] == t;
                    assert(self.state.terminals@[q].id@ == a@);
                }
            }
        }
        self.snapshot_state()
    }

    /// Makes `terminal_id` the active terminal (its session is then ensured).
    pub fn activate_terminal(&mut self, terminal_id: String)
        ensures
            is_well_linked(old(self).state) && has_terminal(old(self).state, terminal_id@)
                ==> is_well_linked(final(self).state),
            final(self).state.active_terminal_id == Some(terminal_id),
            final(self).state.projects == old(self).state.projects,
            final(self).state.terminals == old(self).state.terminals,
            final(self).state.defaults == old(self).state.defaults,
            final(self).activity_tokens == old(self).activity_tokens,
    {
        self.state.active_terminal_id = Some(terminal_id);
    }

    /// Resets terminal `terminal_id` to stopped, at the time `now`, before it
    /// is started again.
    pub fn restart_terminal(&mut self, terminal_id: &String, now: &str) -> (res: Result<(), String>)
        ensures
            is_well_linked(old(self).state) ==> is_well_linked(final(self).state),
            res is Err <==> terminal_index(old(self).state, terminal_id@) is None,
            res matches Err(e) ==> e@ == terminal_not_found(terminal_id@) && *final(self) == *old(
                self,
            ),
            res is Ok ==> {
                let i = terminal_index(old(self).state, terminal_id@)->0;
                let old_t = old(self).state.terminals@[i];
                let new_t = final(self).state.terminals@[i];
                &&& final(self).state.terminals@ == old(self).state.terminals@.update(i, new_t)
                &&& new_t.status == TerminalStatus::Stopped
                &&& is_activity_for_status(new_t.activity, TerminalStatus::Stopped)
                &&& new_t.activity.updated_at@ == now@
                &&& new_t.last_exit_code is None
                &&& new_t == (TerminalRecord {
                    status: new_t.status,
                    activity: new_t.activity,
                    last_exit_code: new_t.last_exit_code,
                    ..old_t
                })
                &&& final(self).state.projects == old(self).state.projects
                &&& final(self).state.defaults == old(self).state.defaults
                &&& final(self).state.active_terminal_id == old(self).state.active_terminal_id
                &&& final(self).activity_tokens == old(self).activity_tokens
            },
    {
        match find_terminal_index(&self.state.terminals, terminal_id) {
            None => Err(join3("Terminal '", terminal_id.as_str(), "' was not found.")),
            Some(i) => {
                let mut updated = self.state.terminals[i].duplicate();
                updated.status = TerminalStatus::Stopped;
                updated.activity = TerminalActivity::for_status(TerminalStatus::Stopped, now);
                updated.last_exit_code = None;
                self.state.terminals.set(i, updated);
                proof {
                    lemma_well_linked_terminal_update(old(self).state, self.state, i as int);
                }
                Ok(())
            },
        }
    }

    /// Whether an existing session only needs a resize: the terminal is
    /// known and its session has not exited or failed.
    pub fn should_resize_existing_session(&self, terminal_id: &String) -> (res: bool)
        ensures
            res == (match terminal_index(self.state, terminal_id@) {
                Some(i) => {
                    let status = self.state.terminals@[i].status;
                    status != TerminalStatus::Exited && status != TerminalStatus::Error
                },
                None => false,
            }),
    {
        match find_terminal_index(&self.state.terminals, terminal_id) {
            Some(i) => {
                let status = self.state.terminals[i].status;
                status != TerminalStatus::Exited && status != TerminalStatus::Error
            },
            None => false,
        }
    }

    /// Marks terminal `terminal_id` as starting, at the time `now`, a new
    /// session whose events go to `events_path`, and hands back the terminal
    /// as launched.
    pub fn start_session(&mut self, terminal_id: &String, events_path: String, now: &str) -> (res: Result<
        TerminalRecord,
        String,
    >)
        ensures
            is_well_linked(old(self).state) ==> is_well_linked(final(self).state),
            res is Err <==> terminal_index(old(self).state, terminal_id@) is None,
            res matches Err(e) ==> e@ == terminal_not_found(terminal_id@) && *final(self) == *old(
                self,
            ),
            res matches Ok(launched) ==> {
                let i = terminal_index(old(self).state, terminal_id@)->0;
                let old_t = old(self).state.terminals@[i];
                let new_t = final(self).state.terminals@[i];
                &&& final(self).state.terminals@ == old(self).state.terminals@.update(i, new_t)
                &&& launched == new_t
                &&& new_t.status == TerminalStatus::Starting
                &&& is_activity_for_status(new_t.activity, TerminalStatus::Starting)
                &&& new_t.activity.updated_at@ == now@
                &&& new_t.last_started_at matches Some(t) && t@ == now@
                &&& new_t.last_exit_code is None
                &&& new_t.diagnostic_log_path == Some(events_path)
                &&& new_t.last_command_failure is None
                &&& new_t.last_session_failure is None
                &&& new_t == (TerminalRecord {
                    status: new_t.status,
                    activity: new_t.activity,
                    last_started_at: new_t.last_started_at,
                    last_exit_code: new_t.last_exit_code,
                    diagnostic_log_path: new_t.diagnostic_log_path,
                    last_command_failure: new_t.last_command_failure,
                    last_session_failure: new_t.last_session_failure,
                    ..old_t
                })
                &&& final(self).state.projects == old(self).state.projects
                &&& final(self).state.defaults == old(self).state.defaults
                &&& final(self).state.active_terminal_id == old(self).state.active_terminal_id
                &&& final(self).activity_tokens == old(self).activity_tokens
            },
    {
        match find_terminal_index(&self.state.terminals, terminal_id) {
            None => Err(join3("Terminal '", terminal_id.as_str(), "' was not found.")),
            Some(i) => {
                let mut updated = self.state.terminals[i].duplicate();
                updated.status = TerminalStatus::Starting;
                updated.activity = TerminalActivity::for_status(TerminalStatus::Starting, now);
                updated.last_started_at = Some(owned(now));
                updated.last_exit_code = None;
                updated.diagnostic_log_path = Some(events_path);
                updated.last_command_failure = None;
                updated.last_session_failure = None;
                let launched = updated.duplicate();
                self.state.terminals.set(i, updated);
                proof {
                    lemma_well_linked_terminal_update(old(self).state, self.state, i as int);
                }
                Ok(launched)
            },
        }
    }

    /// Sets the activity of terminal `terminal_id`, stamped with the time
    /// `now`; reports whether anything changed (the state is then persisted).
    pub fn update_terminal_activity(
        &mut self,
        terminal_id: &String,
        phase: TerminalActivityPhase,
        summary: String,
        detail: String,
        progress: u32,
        is_indeterminate: bool,
        now: &str,
    ) -> (res: Result<bool, String>)
        ensures
            is_well_linked(old(self).state) ==> is_well_linked(final(self).state),
            res is Err <==> terminal_index(old(self).state, terminal_id@) is None,
            res matches Err(e) ==> e@ == terminal_not_found(terminal_id@),
            res is Err ==> *final(self) == *old(self),
            res matches Ok(changed) ==> activity_set(
                old(self).state,
                final(self).state,
                terminal_id@,
                phase,
                summary@,
                detail@,
                progress,
                is_indeterminate,
                now@,
                changed,
            ),
            final(self).activity_tokens == old(self).activity_tokens,
    {
        match find_terminal_index(&self.state.terminals, terminal_id) {
            None => Err(join3("Terminal '", terminal_id.as_str(), "' was not found.")),
            Some(i) => {
                let next = TerminalActivity {
                    phase,
                    summary,
                    detail,
                    progress,
                    is_indeterminate,
                    updated_at: owned(now),
                };
                let current = &self.state.terminals[i].activity;
                let same = current.phase == next.phase && current.summary == next.summary
                    && current.detail == next.detail && current.progress == next.progress
                    && current.is_indeterminate == next.is_indeterminate && current.updated_at
                    == next.updated_at;
                if same {
                    proof {
                        assert(self.state.terminals@.update(i as int, self.state.terminals@[i as int])
                            =~= self.state.terminals@);
                    }
                    Ok(false)
                } else {
                    let mut updated = self.state.terminals[i].duplicate();
                    updated.activity = next;
                    self.state.terminals.set(i, updated);
                    proof {
                        lemma_well_linked_terminal_update(old(self).state, self.state, i as int);
                    }
                    Ok(true)
                }
            },
        }
    }

    /// Takes a new activity token for `terminal_id`; a delayed activity
    /// update applies only while its token is still the latest one.
    pub fn next_activity_token(&mut self, terminal_id: &String) -> (res: u64)
        ensures
            tokens_advanced(old(self).activity_tokens@, final(self).activity_tokens@, terminal_id@, res),
            final(self).state == old(self).state,
    {
        let ghost keys = token_keys(self.activity_tokens@);
        let mut i: usize = 0;
        while i < self.activity_tokens.len()
            invariant
                i <= self.activity_tokens@.len(),
                keys == token_keys(self.activity_tokens@),
                forall|j: int| 0 <= j < i ==> keys[j] != terminal_id@,
                self.state == old(self).state,
                self.activity_tokens@ == old(self).activity_tokens@,
            decreases self.activity_tokens@.len() - i,
        {
            if self.activity_tokens[i].0 == *terminal_id {
                proof {
                    lemma_position_of(keys, terminal_id@, i as int);
                }
                let current = self.activity_tokens[i].1;
                let next = if current == u64::MAX {
                    0
                } else {
                    current + 1
                };
                let ghost before = self.activity_tokens@;
                self.activity_tokens.set(i, (terminal_id.clone(), next));
                proof {
                    assert(token_keys(self.activity_tokens@) =~= keys);
                    assert forall|other: Seq<char>| other != terminal_id@ implies #[trigger] token_value(
                        self.activity_tokens@,
                        other,
                    ) == token_value(before, other) by {
                        lemma_position_of_found(keys, other);
                    }
                }
                return next;
            }
            i = i + 1;
        }
        proof {
            lemma_position_of(keys, terminal_id@, i as int);
        }
        let ghost before = self.activity_tokens@;
        self.activity_tokens.push((terminal_id.clone(), 1));
        proof {
            assert(token_keys(self.activity_tokens@) =~= keys.push(terminal_id@));
            lemma_position_of_push(keys, terminal_id@, terminal_id@);
            assert forall|other: Seq<char>| other != terminal_id@ implies #[trigger] token_value(
                self.activity_tokens@,
                other,
            ) == token_value(before, other) by {
                lemma_position_of_push(keys, terminal_id@, other);
                lemma_position_of_found(keys, other);
            }
        }
        1
    }

    /// Whether `token` is still the latest activity token of `terminal_id`.
    pub fn is_current_activity_token(&self, terminal_id: &String, token: u64) -> (res: bool)
        ensures
            res == (token_value(self.activity_tokens@, terminal_id@) == token),
    {
        let ghost keys = token_keys(self.activity_tokens@);
        let mut i: usize = 0;
        while i < self.activity_tokens.len()
            invariant
                i <= self.activity_tokens@.len(),
                keys == token_keys(self.activity_tokens@),
                forall|j: int| 0 <= j < i ==> keys[j] != terminal_id@,
            decreases self.activity_tokens@.len() - i,
        {
            if self.activity_tokens[i].0 == *terminal_id {
                proof {
                    lemma_position_of(keys, terminal_id@, i as int);
                }
                return self.activity_tokens[i].1 == token;
            }
            i = i + 1;
        }
        proof {
            lemma_position_of(keys, terminal_id@, i as int);
        }
        token == 0
    }
}


/// Terminal `id` got the given activity, stamped with a time; `changed`
/// tells whether the terminal differs from before, and nothing else of the
/// state changed.
pub open spec fn activity_set(
    old_s: AppState,
    new_s: AppState,
    id: Seq<char>,
    phase: TerminalActivityPhase,
    summary: Seq<char>,
    detail: Seq<char>,
    progress: u32,
    is_indeterminate: bool,
    now: Seq<char>,
    changed: bool,
) -> bool {
    &&& terminal_index(old_s, id) matches Some(i) && {
        let old_t = old_s.terminals@[i];
        let new_t = new_s.terminals@[i];
        &&& new_s.terminals@ == old_s.terminals@.update(i, new_t)
        &&& new_t == (TerminalRecord { activity: new_t.activity, ..old_t })
        &&& new_t.activity.phase == phase
        &&& new_t.activity.summary@ == summary
        &&& new_t.activity.detail@ == detail
        &&& new_t.activity.progress == progress
        &&& new_t.activity.is_indeterminate == is_indeterminate
        &&& new_t.activity.updated_at@ == now
    }
    &&& !changed ==> new_s == old_s
    &&& new_s.projects == old_s.projects
    &&& new_s.defaults == old_s.defaults
    &&& new_s.active_terminal_id == old_s.active_terminal_id
}

/// The token that follows `current` (wrapping to 0 after the largest).
pub open spec fn successor_token(current: u64) -> u64 {
    if current == u64::MAX {
        0
    } else {
        (current + 1) as u64
    }
}

/// A new token `token` was taken for `id`: it follows the previous one and
/// the tokens of every other terminal stayed.
pub open spec fn tokens_advanced(
    old_tokens: Seq<(String, u64)>,
    new_tokens: Seq<(String, u64)>,
    id: Seq<char>,
    token: u64,
) -> bool {
    &&& token == successor_token(token_value(old_tokens, id))
    &&& token_value(new_tokens, id) == token
    &&& forall|other: Seq<char>|
        other != id ==> #[trigger] token_value(new_tokens, other) == token_value(old_tokens, other)
}

pub open spec fn token_keys(tokens: Seq<(String, u64)>) -> Seq<Seq<char>> {
    tokens.map_values(|t: (String, u64)| t.0@)
}

/// The latest activity token of `id` (0 before the first one).
pub open spec fn token_value(tokens: Seq<(String, u64)>, id: Seq<char>) -> u64 {
    match position_of(token_keys(tokens), id) {
        Some(i) => tokens[i].1,
        None => 0,
    }
}

/// How `position_of` changes when an element is appended.
pub proof fn lemma_position_of_push<T>(s: Seq<T>, x: T, k: T)
    ensures
        position_of(s, k) is Some ==> position_of(s.push(x), k) == position_of(s, k),
        position_of(s, k) is None && k == x ==> position_of(s.push(x), k) == Some(s.len() as int),
        position_of(s, k) is None && k != x ==> position_of(s.push(x), k) is None,
    decreases s.len(),
{
    if s.len() > 0 {
        assert(s.push(x).drop_first() =~= s.drop_first().push(x));
        assert(s.push(x)[0] == s[0]);
        lemma_position_of_push(s.drop_first(), x, k);
    } else {
        assert(s.push(x) =~= seq![x]);
        assert(seq![x].drop_first() =~= Seq::<T>::empty());
        assert(position_of(Seq::<T>::empty(), k) is None);
        assert(s.push(x)[0] == x);
    }
}

impl SessionManager {
    /// The helper reported, at the time `now`, that the shell started: the
    /// terminal is running.
    pub fn handle_helper_started(
        &mut self,
        terminal_id: &String,
        session: &mut LiveSession,
        event: &HelperStartedEvent,
        now: &str,
    )
        ensures
            is_well_linked(old(self).state) ==> is_well_linked(final(self).state),
            final(session).received_started_event,
            *final(session) == (LiveSession { received_started_event: true, ..*old(session) }),
            match terminal_index(old(self).state, terminal_id@) {
                None => final(self).state == old(self).state,
                Some(i) => {
                    let old_t = old(self).state.terminals@[i];
                    let new_t = final(self).state.terminals@[i];
                    &&& final(self).state.terminals@ == old(self).state.terminals@.update(i, new_t)
                    &&& new_t.status == TerminalStatus::Running
                    &&& new_t.diagnostic_log_path == Some(event.diagnostic_log_path)
                    &&& is_activity_for_status(new_t.activity, TerminalStatus::Running)
                    &&& new_t.activity.updated_at@ == now@
                    &&& new_t == (TerminalRecord {
                        status: new_t.status,
                        diagnostic_log_path: new_t.diagnostic_log_path,
                        activity: new_t.activity,
                        ..old_t
                    })
                    &&& final(self).state.projects == old(self).state.projects
                    &&& final(self).state.defaults == old(self).state.defaults
                    &&& final(self).state.active_terminal_id == old(self).state.active_terminal_id
                },
            },
            final(self).activity_tokens == old(self).activity_tokens,
    {
        session.received_started_event = true;
        match find_terminal_index(&self.state.terminals, terminal_id) {
            None => {},
            Some(i) => {
                let mut updated = self.state.terminals[i].duplicate();
                updated.status = TerminalStatus::Running;
                updated.diagnostic_log_path = Some(event.diagnostic_log_path.clone());
                updated.activity = TerminalActivity::for_status(TerminalStatus::Running, now);
                self.state.terminals.set(i, updated);
                proof {
                    lemma_well_linked_terminal_update(old(self).state, self.state, i as int);
                }
            },
        }
    }

    /// The shell exited: the terminal records the exit, at the time `now`,
    /// and the session is closed. Only the first exit of a session counts; it
    /// returns the stderr excerpt and the recent output excerpt that go with
    /// it.
    pub fn handle_helper_exit(
        &mut self,
        terminal: &TerminalRecord,
        session: &mut LiveSession,
        event: &HelperExitEvent,
        now: &str,
    ) -> (res: Option<(Option<String>, String)>)
        ensures
            is_well_linked(old(self).state) ==> is_well_linked(final(self).state),
            exit_handled(
                *old(self),
                *final(self),
                *old(session),
                *final(session),
                terminal.id@,
                *event,
                now@,
                res,
            ),
    {
        if session.received_exit_event {
            return None;
        }
        session.received_exit_event = true;
        let recent = create_recent_output_excerpt(
            session.recent_output_lines.as_slice(),
            session.pending_output_line.as_str(),
        );
        let stderr = match &event.stderr_excerpt {
            Some(e) => Some(e.clone()),
            None => get_helper_stderr_excerpt(session),
        };
        match find_terminal_index(&self.state.terminals, &terminal.id) {
            None => {},
            Some(i) => {
                let code_text = match event.exit_code {
                    Some(code) => i32_text(code),
                    None => owned("unknown"),
                };
                let message = join3("The shell exited with code ", code_text.as_str(), ".");
                let failure = TerminalSessionFailure {
                    session_id: event.session_id.clone(),
                    timestamp: event.exited_at.clone(),
                    exit_code: event.exit_code,
                    message,
                    shell_path: event.shell_path.clone(),
                    shell_pid: event.shell_pid,
                    stderr_excerpt: copy_opt_string(&stderr),
                    recent_output_excerpt: recent.clone(),
                    exception_type: None,
                    hresult: None,
                    win32_error_code: None,
                };
                let mut updated = self.state.terminals[i].duplicate();
                updated.status = TerminalStatus::Exited;
                updated.activity = TerminalActivity::for_status(TerminalStatus::Exited, now);
                updated.last_exit_code = event.exit_code;
                updated.last_session_failure = Some(failure);
                self.state.terminals.set(i, updated);
                proof {
                    lemma_well_linked_terminal_update(old(self).state, self.state, i as int);
                }
            },
        }
        session.closed = true;
        Some((stderr, recent))
    }

    /// The helper failed: the terminal records the error, at the time `now`,
    /// and the session is closed; an error that names no session is recorded
    /// under `fresh_session_id`. Only the first error of a session counts; it
    /// returns the helper's stderr excerpt and the recent output excerpt.
    pub fn handle_helper_error(
        &mut self,
        terminal: &TerminalRecord,
        session: &mut LiveSession,
        event: &HelperErrorEvent,
        now: &str,
        fresh_session_id: &str,
    ) -> (res: Option<(Option<String>, String)>)
        ensures
            is_well_linked(old(self).state) ==> is_well_linked(final(self).state),
            error_handled(
                *old(self),
                *final(self),
                *old(session),
                *final(session),
                terminal.id@,
                terminal.shell,
                *event,
                now@,
                fresh_session_id@,
                res,
            ),
    {
        if session.received_error_event {
            return None;
        }
        session.received_error_event = true;
        let recent = create_recent_output_excerpt(
            session.recent_output_lines.as_slice(),
            session.pending_output_line.as_str(),
        );
        let stderr = get_helper_stderr_excerpt(session);
        match find_terminal_index(&self.state.terminals, &terminal.id) {
            None => {},
            Some(i) => {
                let session_id = match &event.session_id {
                    Some(id) => id.clone(),
                    None => owned(fresh_session_id),
                };
                let failure = TerminalSessionFailure {
                    session_id,
                    timestamp: event.occurred_at.clone(),
                    exit_code: None,
                    message: event.message.clone(),
                    shell_path: match &event.shell_path {
                        Some(p) => p.clone(),
                        None => terminal.shell.clone(),
                    },
                    shell_pid: event.shell_pid,
                    stderr_excerpt: copy_opt_string(&stderr),
                    recent_output_excerpt: recent.clone(),
                    exception_type: copy_opt_string(&event.exception_type),
                    hresult: event.hresult,
                    win32_error_code: event.win32_error_code,
                };
                let detail = describe_session_error(event, &stderr, &recent);
                let mut updated = self.state.terminals[i].duplicate();
                updated.status = TerminalStatus::Error;
                updated.last_session_failure = Some(failure);
                updated.activity = TerminalActivity {
                    phase: TerminalActivityPhase::Attention,
                    summary: owned("Session error"),
                    detail,
                    progress: 100,
                    is_indeterminate: false,
                    updated_at: owned(now),
                };
                self.state.terminals.set(i, updated);
                proof {
                    lemma_well_linked_terminal_update(old(self).state, self.state, i as int);
                }
            },
        }
        session.closed = true;
        Some((stderr, recent))
    }
}


/// Only `terminals[i]` of the state changed, and the other fields of the
/// manager stayed.
pub open spec fn only_terminal_changed(old_m: SessionManager, new_m: SessionManager, i: int) -> bool {
    &&& 0 <= i < old_m.state.terminals@.len()
    &&& new_m.state.terminals@ == old_m.state.terminals@.update(i, new_m.state.terminals@[i])
    &&& new_m.state.projects == old_m.state.projects
    &&& new_m.state.defaults == old_m.state.defaults
    &&& new_m.state.active_terminal_id == old_m.state.active_terminal_id
    &&& new_m.activity_tokens == old_m.activity_tokens
}

/// What the exit of the shell does: the first exit of a session records the
/// exit on the terminal (where it still exists) and closes the session; a
/// repeated exit changes nothing. The result carries the stderr excerpt and
/// the recent output excerpt of the first exit.
pub open spec fn exit_handled(
    old_m: SessionManager,
    new_m: SessionManager,
    old_s: LiveSession,
    new_s: LiveSession,
    terminal_id: Seq<char>,
    event: HelperExitEvent,
    now: Seq<char>,
    res: Option<(Option<String>, String)>,
) -> bool {
    if old_s.received_exit_event {
        res is None && new_m == old_m && new_s == old_s
    } else {
        &&& res matches Some((stderr, recent)) && {
            &&& recent@ == session_output_excerpt(old_s)
            &&& opt_view(stderr) == match event.stderr_excerpt {
                Some(e) => Some(e@),
                None => helper_stderr_excerpt(old_s),
            }
            &&& new_s == (LiveSession { received_exit_event: true, closed: true, ..old_s })
            &&& match terminal_index(old_m.state, terminal_id) {
                None => new_m == old_m,
                Some(i) => {
                    let old_t = old_m.state.terminals@[i];
                    let new_t = new_m.state.terminals@[i];
                    &&& only_terminal_changed(old_m, new_m, i)
                    &&& new_t.status == TerminalStatus::Exited
                    &&& is_activity_for_status(new_t.activity, TerminalStatus::Exited)
                    &&& new_t.activity.updated_at@ == now
                    &&& new_t.last_exit_code == event.exit_code
                    &&& new_t.last_session_failure matches Some(f) && is_exit_failure(
                        f,
                        event,
                        stderr,
                        recent,
                    )
                    &&& new_t == (TerminalRecord {
                        status: new_t.status,
                        activity: new_t.activity,
                        last_exit_code: new_t.last_exit_code,
                        last_session_failure: new_t.last_session_failure,
                        ..old_t
                    })
                },
            }
        }
    }
}

/// What a helper error does: the first error of a session records the
/// failure on the terminal (where it still exists), asks for attention and
/// closes the session; a repeated error changes nothing. The result carries
/// the stderr excerpt and the recent output excerpt of the first error.
pub open spec fn error_handled(
    old_m: SessionManager,
    new_m: SessionManager,
    old_s: LiveSession,
    new_s: LiveSession,
    terminal_id: Seq<char>,
    terminal_shell: String,
    event: HelperErrorEvent,
    now: Seq<char>,
    fresh_session_id: Seq<char>,
    res: Option<(Option<String>, String)>,
) -> bool {
    if old_s.received_error_event {
        res is None && new_m == old_m && new_s == old_s
    } else {
        &&& res matches Some((stderr, recent)) && {
            &&& recent@ == session_output_excerpt(old_s)
            &&& opt_view(stderr) == helper_stderr_excerpt(old_s)
            &&& new_s == (LiveSession { received_error_event: true, closed: true, ..old_s })
            &&& match terminal_index(old_m.state, terminal_id) {
                None => new_m == old_m,
                Some(i) => {
                    let old_t = old_m.state.terminals@[i];
                    let new_t = new_m.state.terminals@[i];
                    &&& only_terminal_changed(old_m, new_m, i)
                    &&& new_t.status == TerminalStatus::Error
                    &&& new_t.last_session_failure matches Some(f) && is_error_failure(
                        f,
                        event,
                        terminal_shell,
                        fresh_session_id,
                        stderr,
                        recent,
                    )
                    &&& new_t.activity.phase == TerminalActivityPhase::Attention
                    &&& new_t.activity.summary@ == "Session error"@
                    &&& new_t.activity.detail@ == session_error_text(
                        event,
                        opt_view(stderr),
                        recent@,
                    )
                    &&& new_t.activity.progress == 100
                    &&& !new_t.activity.is_indeterminate
                    &&& new_t.activity.updated_at@ == now
                    &&& new_t == (TerminalRecord {
                        status: new_t.status,
                        activity: new_t.activity,
                        last_session_failure: new_t.last_session_failure,
                        ..old_t
                    })
                },
            }
        }
    }
}

/// Only the first exit of a session counts: once one has been handled,
/// handling any exit again for that session changes nothing and returns
/// nothing.
pub proof fn lemma_exit_handled_once(
    m0: SessionManager,
    m1: SessionManager,
    m2: SessionManager,
    s0: LiveSession,
    s1: LiveSession,
    s2: LiveSession,
    terminal_id: Seq<char>,
    first: HelperExitEvent,
    second: HelperExitEvent,
    first_at: Seq<char>,
    second_at: Seq<char>,
    res1: Option<(Option<String>, String)>,
    res2: Option<(Option<String>, String)>,
)
    requires
        exit_handled(m0, m1, s0, s1, terminal_id, first, first_at, res1),
        exit_handled(m1, m2, s1, s2, terminal_id, second, second_at, res2),
    ensures
        res2 is None,
        m2 == m1,
        s2 == s1,
{
}

/// Only the first error of a session counts: once one has been handled,
/// handling any error again for that session changes nothing and returns
/// nothing.
pub proof fn lemma_error_handled_once(
    m0: SessionManager,
    m1: SessionManager,
    m2: SessionManager,
    s0: LiveSession,
    s1: LiveSession,
    s2: LiveSession,
    terminal_id: Seq<char>,
    terminal_shell: String,
    first: HelperErrorEvent,
    second: HelperErrorEvent,
    first_at: Seq<char>,
    second_at: Seq<char>,
    first_id: Seq<char>,
    second_id: Seq<char>,
    res1: Option<(Option<String>, String)>,
    res2: Option<(Option<String>, String)>,
)
    requires
        error_handled(m0, m1, s0, s1, terminal_id, terminal_shell, first, first_at, first_id, res1),
        error_handled(m1, m2, s1, s2, terminal_id, terminal_shell, second, second_at, second_id, res2),
    ensures
        res2 is None,
        m2 == m1,
        s2 == s1,
{
}

/// The recent output of a session, as an excerpt.
pub open spec fn session_output_excerpt(session: LiveSession) -> Seq<char> {
    recent_output_excerpt(string_views(session.recent_output_lines@), session.pending_output_line@)
}

/// The helper's recent stderr, as an excerpt, when there is any.
pub open spec fn helper_stderr_excerpt(session: LiveSession) -> Option<Seq<char>> {
    let e = recent_output_excerpt(
        string_views(session.helper_stderr_lines@),
        session.pending_helper_stderr_line@,
    );
    if is_blank(e) {
        None
    } else {
        Some(e)
    }
}

/// The helper's recent stderr as an excerpt, when it holds anything.
pub fn get_helper_stderr_excerpt(session: &LiveSession) -> (res: Option<String>)
    ensures
        opt_view(res) == helper_stderr_excerpt(*session),
{
    let excerpt = create_recent_output_excerpt(
        session.helper_stderr_lines.as_slice(),
        session.pending_helper_stderr_line.as_str(),
    );
    if str_is_blank(excerpt.as_str()) {
        None
    } else {
        Some(excerpt)
    }
}

/// "The shell exited with code <code>." (or "unknown").
pub open spec fn exit_message(code: Option<i32>) -> Seq<char> {
    "The shell exited with code "@ + match code {
        Some(c) => decimal_text(c as int),
        None => "unknown"@,
    } + "."@
}

/// The failure recorded when the shell exits.
pub open spec fn is_exit_failure(
    f: TerminalSessionFailure,
    event: HelperExitEvent,
    stderr: Option<String>,
    recent: String,
) -> bool {
    &&& f.session_id == event.session_id
    &&& f.timestamp == event.exited_at
    &&& f.exit_code == event.exit_code
    &&& f.message@ == exit_message(event.exit_code)
    &&& f.shell_path == event.shell_path
    &&& f.shell_pid == event.shell_pid
    &&& f.stderr_excerpt == stderr
    &&& f.recent_output_excerpt == recent
    &&& f.exception_type is None
    &&& f.hresult is None
    &&& f.win32_error_code is None
}

/// The failure recorded when the helper reports an error.
pub open spec fn is_error_failure(
    f: TerminalSessionFailure,
    event: HelperErrorEvent,
    terminal_shell: String,
    fresh_session_id: Seq<char>,
    stderr: Option<String>,
    recent: String,
) -> bool {
    &&& match event.session_id {
        Some(id) => f.session_id == id,
        None => f.session_id@ == fresh_session_id,
    }
    &&& f.timestamp == event.occurred_at
    &&& f.exit_code is None
    &&& f.message == event.message
    &&& f.shell_path == match event.shell_path {
        Some(p) => p,
        None => terminal_shell,
    }
    &&& f.shell_pid == event.shell_pid
    &&& f.stderr_excerpt == stderr
    &&& f.recent_output_excerpt == recent
    &&& f.exception_type == event.exception_type
    &&& f.hresult == event.hresult
    &&& f.win32_error_code == event.win32_error_code
}

/// The detail shown for a session error: the message, then the process id,
/// the helper's stderr and the recent output where there are any, separated
/// by spaces.
pub open spec fn session_error_text(
    event: HelperErrorEvent,
    stderr: Option<Seq<char>>,
    recent: Seq<char>,
) -> Seq<char> {
    let with_pid = match event.shell_pid {
        Some(pid) => event.message@ + " PID "@ + decimal_digits(pid as nat),
        None => event.message@,
    };
    let with_stderr = match stderr {
        Some(e) => if is_blank(e) {
            with_pid
        } else {
            with_pid + " Helper stderr: "@ + e
        },
        None => with_pid,
    };
    if is_blank(recent) {
        with_stderr
    } else {
        with_stderr + " Recent output: "@ + recent
    }
}

/// The detail shown for a session error (see `session_error_text`).
pub fn describe_session_error(
    event: &HelperErrorEvent,
    stderr_excerpt: &Option<String>,
    recent_output_excerpt: &String,
) -> (res: String)
    ensures
        res@ == session_error_text(*event, opt_view(*stderr_excerpt), recent_output_excerpt@),
{
    let mut details = event.message.clone();
    match event.shell_pid {
        Some(pid) => {
            details.append(" PID ");
            let digits = u32_text(pid);
            details.append(digits.as_str());
        },
        None => {},
    }
    match stderr_excerpt {
        Some(e) => {
            if !str_is_blank(e.as_str()) {
                details.append(" Helper stderr: ");
                details.append(e.as_str());
            }
        },
        None => {},
    }
    if !str_is_blank(recent_output_excerpt.as_str()) {
        details.append(" Recent output: ");
        details.append(recent_output_excerpt.as_str());
    }
    details
}

// ---------------------------------------------------------------------------
// Output of the shell and of the helper
// ---------------------------------------------------------------------------
/// The bytes that the base64 crate's standard engine (`general_purpose::STANDARD`)
/// decodes from `text`, or `None` where it reports an error.
pub uninterp spec fn base64_standard_decoded(text: Seq<char>) -> Option<Seq<u8>>;

pub open spec fn opt_bytes(o: Option<Vec<u8>>) -> Option<Seq<u8>> {
    match o {
        Some(v) => Some(v@),
        None => None,
    }
}

/// `base64::engine::general_purpose::STANDARD.decode`. Trusted: the result
/// is the named decoding of `text`; what that decoding is, is the crate's.
#[verifier::external_body]
fn decode_base64_standard(text: &str) -> (res: Option<Vec<u8>>)
    ensures
        opt_bytes(res) == base64_standard_decoded(text@),
{
    base64::engine::general_purpose::STANDARD.decode(text).ok()
}

/// `String::from_utf8`. Trusted: the text that the bytes encode, exactly
/// when they are valid UTF-8.
#[verifier::external_body]
fn string_from_utf8(bytes: Vec<u8>) -> (res: Option<String>)
    ensures
        res is Some <==> vstd::utf8::valid_utf8(bytes@),
        res matches Some(t) ==> t@ == vstd::utf8::decode_utf8(bytes@),
{
    String::from_utf8(bytes).ok()
}

/// The text of a decoded chunk of output: empty where decoding failed or
/// the bytes are not UTF-8.
pub open spec fn chunk_text_of(decoded: Option<Seq<u8>>) -> Seq<char> {
    match decoded {
        Some(bytes) => if vstd::utf8::valid_utf8(bytes) {
            vstd::utf8::decode_utf8(bytes)
        } else {
            seq![]
        },
        None => seq![],
    }
}

/// The text of the bytes decoded from a chunk of output.
pub fn text_of_decoded_chunk(decoded: Option<Vec<u8>>) -> (res: String)
    ensures
        res@ == chunk_text_of(opt_bytes(decoded)),
{
    match decoded {
        Some(bytes) => match string_from_utf8(bytes) {
            Some(text) => text,
            None => String::new(),
        },
        None => String::new(),
    }
}

/// The text of a base64 encoded chunk of output.
pub fn decode_output_chunk(data_base64: &str) -> (res: String)
    ensures
        res@ == chunk_text_of(base64_standard_decoded(data_base64@)),
{
    text_of_decoded_chunk(decode_base64_standard(data_base64))
}

/// The buffer of recent output after the chunk `data_base64`.
pub open spec fn output_captured(old_s: LiveSession, new_s: LiveSession, data_base64: Seq<char>) -> bool {
    &&& (
    string_views(new_s.recent_output_lines@),
    new_s.pending_output_line@,
    ) == appended_output(
        string_views(old_s.recent_output_lines@),
        old_s.pending_output_line@,
        normalize_newlines(
            ansi_stripped(chunk_text_of(base64_standard_decoded(data_base64))),
        ),
    )
    &&& new_s == (LiveSession {
        recent_output_lines: new_s.recent_output_lines,
        pending_output_line: new_s.pending_output_line,
        ..old_s
    })
}

/// A base64 encoded chunk of shell output joins the session's recent output.
pub fn capture_shell_output(session: &mut LiveSession, data_base64: &str)
    ensures
        output_captured(*old(session), *final(session), data_base64@),
{
    let chunk_text = decode_output_chunk(data_base64);
    append_output_chunk(
        &mut session.recent_output_lines,
        &mut session.pending_output_line,
        chunk_text.as_str(),
    );
}

/// A line that the helper wrote to stderr joins the session's stderr
/// buffer, of which only the newest `MAX_HELPER_STDERR_LINES` lines stay.
pub fn append_helper_stderr_line(session: &mut LiveSession, line: &str)
    ensures
        string_views(final(session).helper_stderr_lines@)
            == keep_last(
            appended_output(
                string_views(old(session).helper_stderr_lines@),
                old(session).pending_helper_stderr_line@,
                normalize_newlines(ansi_stripped(line@.push('\n'))),
            ).0,
            MAX_HELPER_STDERR_LINES as nat,
        ),
        final(session).pending_helper_stderr_line@
            == appended_output(
            string_views(old(session).helper_stderr_lines@),
            old(session).pending_helper_stderr_line@,
            normalize_newlines(ansi_stripped(line@.push('\n'))),
        ).1,
        final(session).helper_stderr_lines@.len() <= MAX_HELPER_STDERR_LINES,
        *final(session) == (LiveSession {
            helper_stderr_lines: final(session).helper_stderr_lines,
            pending_helper_stderr_line: final(session).pending_helper_stderr_line,
            ..*old(session)
        }),
{
    let text = join2(line, "\n");
    proof {
        reveal_strlit("\n");
        assert(text@ =~= line@.push('\n'));
    }
    append_output_chunk(
        &mut session.helper_stderr_lines,
        &mut session.pending_helper_stderr_line,
        text.as_str(),
    );
    if session.helper_stderr_lines.len() > MAX_HELPER_STDERR_LINES {
        let excess = session.helper_stderr_lines.len() - MAX_HELPER_STDERR_LINES;
        let ghost before = session.helper_stderr_lines@;
        let kept = session.helper_stderr_lines.split_off(excess);
        session.helper_stderr_lines = kept;
        proof {
            assert(string_views(session.helper_stderr_lines@) =~= string_views(before).skip(
                excess as int,
            ));
        }
    }
}

// ---------------------------------------------------------------------------
// Delayed activity updates
// ---------------------------------------------------------------------------
/// An activity update that applies after a delay, unless a newer one was
/// scheduled for the same terminal in the meantime.
#[derive(Debug)]
pub struct ScheduledActivity {
    pub terminal_id: String,
    pub token: u64,
    pub delay_ms: u64,
    pub phase: TerminalActivityPhase,
    pub summary: String,
    pub detail: String,
    pub progress: u32,
    pub is_indeterminate: bool,
}

/// The update shown once input has been accepted.
pub open spec fn is_input_settle_update(u: ScheduledActivity) -> bool {
    &&& u.delay_ms == INPUT_SETTLE_MS
    &&& u.phase == TerminalActivityPhase::Waiting
    &&& u.summary@ == "Waiting for output"@
    &&& u.detail@ == "The shell accepted input and is waiting to respond."@
    &&& u.progress == 52
    &&& u.is_indeterminate
}

/// The update shown once output has settled.
pub open spec fn is_output_settle_update(u: ScheduledActivity) -> bool {
    &&& u.delay_ms == OUTPUT_SETTLE_MS
    &&& u.phase == TerminalActivityPhase::Waiting
    &&& u.summary@ == "Ready"@
    &&& u.detail@ == "Output has settled. The shell is waiting for the next command."@
    &&& u.progress == 100
    &&& !u.is_indeterminate
}

impl SessionManager {
    /// Input is about to be sent, at the time `now`, to the shell of
    /// `terminal_id`: the terminal shows that it is working, and an update to
    /// "Waiting for output" is scheduled. Returns whether the activity
    /// changed, and that update.
    pub fn record_input(&mut self, terminal_id: &String, data: &str, now: &str) -> (res: Result<
        (bool, ScheduledActivity),
        String,
    >)
        ensures
            is_well_linked(old(self).state) ==> is_well_linked(final(self).state),
            res is Err <==> terminal_index(old(self).state, terminal_id@) is None,
            res matches Err(e) ==> e@ == terminal_not_found(terminal_id@) && *final(self) == *old(
                self,
            ),
            res matches Ok((changed, update)) ==> {
                &&& activity_set(
                    old(self).state,
                    final(self).state,
                    terminal_id@,
                    TerminalActivityPhase::Working,
                    input_activity(data@).0,
                    input_activity(data@).1,
                    input_activity(data@).2,
                    true,
                    now@,
                    changed,
                )
                &&& update.terminal_id@ == terminal_id@
                &&& is_input_settle_update(update)
                &&& tokens_advanced(
                    old(self).activity_tokens@,
                    final(self).activity_tokens@,
                    terminal_id@,
                    update.token,
                )
            },
    {
        let (summary, detail, progress) = describe_input_activity(data);
        match self.update_terminal_activity(
            terminal_id,
            TerminalActivityPhase::Working,
            summary,
            detail,
            progress,
            true,
            now,
        ) {
            Err(e) => Err(e),
            Ok(changed) => {
                let token = self.next_activity_token(terminal_id);
                let update = ScheduledActivity {
                    terminal_id: terminal_id.clone(),
                    token,
                    delay_ms: INPUT_SETTLE_MS,
                    phase: TerminalActivityPhase::Waiting,
                    summary: owned("Waiting for output"),
                    detail: owned("The shell accepted input and is waiting to respond."),
                    progress: 52,
                    is_indeterminate: true,
                };
                Ok((changed, update))
            },
        }
    }

    /// Output arrived from the shell at the time `now`: it joins the
    /// session's recent output, the terminal shows that output is streaming,
    /// and an update to "Ready" is scheduled. Returns whether the activity
    /// changed, and that update.
    pub fn handle_helper_output(
        &mut self,
        terminal_id: &String,
        session: &mut LiveSession,
        event: &HelperOutputEvent,
        now: &str,
    ) -> (res: Result<(bool, ScheduledActivity), String>)
        ensures
            is_well_linked(old(self).state) ==> is_well_linked(final(self).state),
            output_captured(*old(session), *final(session), event.data_base64@),
            res is Err <==> terminal_index(old(self).state, terminal_id@) is None,
            res matches Err(e) ==> e@ == terminal_not_found(terminal_id@) && *final(self) == *old(
                self,
            ),
            res matches Ok((changed, update)) ==> {
                &&& activity_set(
                    old(self).state,
                    final(self).state,
                    terminal_id@,
                    TerminalActivityPhase::Streaming,
                    "Streaming output"@,
                    "Receiving live terminal output from the shell."@,
                    74,
                    true,
                    now@,
                    changed,
                )
                &&& update.terminal_id@ == terminal_id@
                &&& is_output_settle_update(update)
                &&& tokens_advanced(
                    old(self).activity_tokens@,
                    final(self).activity_tokens@,
                    terminal_id@,
                    update.token,
                )
            },
    {
        capture_shell_output(session, event.data_base64.as_str());
        match self.update_terminal_activity(
            terminal_id,
            TerminalActivityPhase::Streaming,
            owned("Streaming output"),
            owned("Receiving live terminal output from the shell."),
            74,
            true,
            now,
        ) {
            Err(e) => Err(e),
            Ok(changed) => {
                let token = self.next_activity_token(terminal_id);
                let update = ScheduledActivity {
                    terminal_id: terminal_id.clone(),
                    token,
                    delay_ms: OUTPUT_SETTLE_MS,
                    phase: TerminalActivityPhase::Waiting,
                    summary: owned("Ready"),
                    detail: owned("Output has settled. The shell is waiting for the next command."),
                    progress: 100,
                    is_indeterminate: false,
                };
                Ok((changed, update))
            },
        }
    }

    /// A scheduled update comes due at the time `now`: it applies while its
    /// token is still the latest of its terminal, and is dropped otherwise.
    /// Returns whether the activity changed.
    pub fn apply_scheduled_activity(&mut self, update: ScheduledActivity, now: &str) -> (res: Result<
        bool,
        String,
    >)
        ensures
            is_well_linked(old(self).state) ==> is_well_linked(final(self).state),
            token_value(old(self).activity_tokens@, update.terminal_id@) != update.token ==> res
                == Ok::<bool, String>(false) && *final(self) == *old(self),
            token_value(old(self).activity_tokens@, update.terminal_id@) == update.token ==> {
                &&& res is Err <==> terminal_index(old(self).state, update.terminal_id@) is None
                &&& res matches Err(e) ==> e@ == terminal_not_found(update.terminal_id@)
                    && *final(self) == *old(self)
                &&& res matches Ok(changed) ==> activity_set(
                    old(self).state,
                    final(self).state,
                    update.terminal_id@,
                    update.phase,
                    update.summary@,
                    update.detail@,
                    update.progress,
                    update.is_indeterminate,
                    now@,
                    changed,
                )
                &&& final(self).activity_tokens == old(self).activity_tokens
            },
    {
        if !self.is_current_activity_token(&update.terminal_id, update.token) {
            return Ok(false);
        }
        self.update_terminal_activity(
            &update.terminal_id,
            update.phase,
            update.summary,
            update.detail,
            update.progress,
            update.is_indeterminate,
            now,
        )
    }
}

/// Once a newer activity token has been taken for a terminal, the token
/// before it is no longer current, so its delayed update is dropped.
pub proof fn lemma_newer_token_supersedes(tokens: Seq<(String, u64)>, newer: Seq<(String, u64)>, id: Seq<char>, token: u64)
    requires
        tokens_advanced(tokens, newer, id, token),
    ensures
        token_value(newer, id) != token_value(tokens, id),
{
}

// ---------------------------------------------------------------------------
// The helper process ended
// ---------------------------------------------------------------------------
/// The exit reported for a helper that ended after the shell had started.
pub open spec fn is_child_exit_event(
    ev: HelperExitEvent,
    terminal: TerminalRecord,
    session: LiveSession,
    code: Option<i32>,
    now: Seq<char>,
) -> bool {
    &&& ev.session_id == session.session_id
    &&& ev.exit_code == code
    &&& ev.exited_at@ == now
    &&& ev.shell_pid is None
    &&& ev.shell_path == terminal.shell
    &&& ev.diagnostic_log_path@ == match terminal.diagnostic_log_path {
        Some(p) => p@,
        None => Seq::<char>::empty(),
    }
    &&& opt_view(ev.stderr_excerpt) == helper_stderr_excerpt(session)
}

/// The error reported for a helper that ended before the shell started.
pub open spec fn is_startup_exit_error(
    ev: HelperErrorEvent,
    terminal: TerminalRecord,
    session: LiveSession,
    now: Seq<char>,
) -> bool {
    &&& ev.session_id == Some(session.session_id)
    &&& ev.message@ == "The ConPTY helper exited before the shell reported a successful startup."@
    &&& ev.diagnostic_log_path == terminal.diagnostic_log_path
    &&& ev.exception_type matches Some(t) && t@ == "HelperStartupExit"@
    &&& ev.hresult is None
    &&& ev.win32_error_code is None
    &&& ev.occurred_at@ == now
    &&& ev.shell_path == Some(terminal.shell)
    &&& ev.shell_pid is None
}

/// The error reported when the helper process itself failed.
pub open spec fn is_child_process_error(
    ev: HelperErrorEvent,
    terminal: TerminalRecord,
    message: String,
    now: Seq<char>,
) -> bool {
    &&& ev.session_id is None
    &&& ev.message == message
    &&& ev.diagnostic_log_path == terminal.diagnostic_log_path
    &&& ev.exception_type matches Some(t) && t@ == "ChildProcessError"@
    &&& ev.hresult is None
    &&& ev.win32_error_code is None
    &&& ev.occurred_at@ == now
    &&& ev.shell_path == Some(terminal.shell)
    &&& ev.shell_pid is None
}

impl SessionManager {
    /// The helper process ended with `code` at the time `now`: after a
    /// started shell this is the shell's exit, before it a startup failure.
    pub fn handle_child_exit(
        &mut self,
        terminal: &TerminalRecord,
        session: &mut LiveSession,
        code: Option<i32>,
        now: &str,
    ) -> (res: Option<(Option<String>, String)>)
        ensures
            is_well_linked(old(self).state) ==> is_well_linked(final(self).state),
            old(session).received_started_event ==> exists|ev: HelperExitEvent|
                #[trigger] is_child_exit_event(ev, *terminal, *old(session), code, now@)
                    && exit_handled(
                    *old(self),
                    *final(self),
                    *old(session),
                    *final(session),
                    terminal.id@,
                    ev,
                    now@,
                    res,
                ),
            !old(session).received_started_event ==> exists|ev: HelperErrorEvent|
                #[trigger] is_startup_exit_error(ev, *terminal, *old(session), now@)
                    && error_handled(
                    *old(self),
                    *final(self),
                    *old(session),
                    *final(session),
                    terminal.id@,
                    terminal.shell,
                    ev,
                    now@,
                    old(session).session_id@,
                    res,
                ),
    {
        if session.received_started_event {
            let event = HelperExitEvent {
                session_id: session.session_id.clone(),
                exit_code: code,
                exited_at: owned(now),
                shell_pid: None,
                shell_path: terminal.shell.clone(),
                diagnostic_log_path: match &terminal.diagnostic_log_path {
                    Some(p) => p.clone(),
                    None => String::new(),
                },
                stderr_excerpt: get_helper_stderr_excerpt(session),
            };
            assert(is_child_exit_event(event, *terminal, *session, code, now@));
            self.handle_helper_exit(terminal, session, &event, now)
        } else {
            let event = HelperErrorEvent {
                session_id: Some(session.session_id.clone()),
                message: owned(
                    "The ConPTY helper exited before the shell reported a successful startup.",
                ),
                diagnostic_log_path: copy_opt_string(&terminal.diagnostic_log_path),
                exception_type: Some(owned("HelperStartupExit")),
                hresult: None,
                win32_error_code: None,
                occurred_at: owned(now),
                shell_path: Some(terminal.shell.clone()),
                shell_pid: None,
            };
            assert(is_startup_exit_error(event, *terminal, *session, now@));
            let session_id = session.session_id.clone();
            self.handle_helper_error(terminal, session, &event, now, session_id.as_str())
        }
    }

    /// The helper process failed at the time `now` (it could not be waited
    /// on, or its output could not be read): the session ends in an error
    /// with `message`, recorded under the session id `fresh_session_id`.
    pub fn handle_child_process_error(
        &mut self,
        terminal: &TerminalRecord,
        session: &mut LiveSession,
        message: String,
        now: &str,
        fresh_session_id: &str,
    ) -> (res: Option<(Option<String>, String)>)
        ensures
            is_well_linked(old(self).state) ==> is_well_linked(final(self).state),
            exists|ev: HelperErrorEvent|
                #[trigger] is_child_process_error(ev, *terminal, message, now@) && error_handled(
                    *old(self),
                    *final(self),
                    *old(session),
                    *final(session),
                    terminal.id@,
                    terminal.shell,
                    ev,
                    now@,
                    fresh_session_id@,
                    res,
                ),
    {
        let event = HelperErrorEvent {
            session_id: None,
            message,
            diagnostic_log_path: copy_opt_string(&terminal.diagnostic_log_path),
            exception_type: Some(owned("ChildProcessError")),
            hresult: None,
            win32_error_code: None,
            occurred_at: owned(now),
            shell_path: Some(terminal.shell.clone()),
            shell_pid: None,
        };
        assert(is_child_process_error(event, *terminal, message, now@));
        self.handle_helper_error(terminal, session, &event, now, fresh_session_id)
    }
}

// ---------------------------------------------------------------------------
// The stored state
// ---------------------------------------------------------------------------
/// Where the application state is kept between runs.
#[derive(Debug, Clone)]
pub struct AppStateStore {
    pub metadata_path: String,
}

impl AppStateStore {
    /// A store for the metadata file at `metadata_path`.
    pub fn new(metadata_path: String) -> (res: Self)
        ensures
            res.metadata_path == metadata_path,
    {
        AppStateStore { metadata_path }
    }

    /// The state to start from once the stored metadata has been read at
    /// the time `now`: what was stored when it could be parsed, else an empty
    /// state with `defaults`, repaired either way (`fresh_ids` holds an
    /// unused id for each stored project and then for each stored terminal).
    pub fn loaded_state(
        &self,
        parsed: Option<AppState>,
        defaults: AppDefaults,
        fallback_cwd: &str,
        fallback_shell: &str,
        now: &str,
        fresh_ids: &Vec<String>,
    ) -> (res: AppState)
        requires
            parsed matches Some(stored) ==> fresh_ids@.len() >= stored.projects@.len()
                + stored.terminals@.len(),
        ensures
            match parsed {
                Some(stored) => is_repaired_state(
                    res,
                    stored,
                    fallback_cwd@,
                    fallback_shell@,
                    fresh_ids@,
                    now@,
                ),
                None => exists|initial: AppState|
                    initial.defaults == defaults && initial.projects@.len() == 0
                        && initial.terminals@.len() == 0 && initial.active_terminal_id is None
                        && #[trigger] is_repaired_state(
                        res,
                        initial,
                        fallback_cwd@,
                        fallback_shell@,
                        fresh_ids@,
                        now@,
                    ),
            },
    {
        let mut state = match parsed {
            Some(stored) => stored,
            None => AppState::create_initial(defaults),
        };
        let ghost before = state;
        state.normalize_loaded_state(fallback_cwd, fallback_shell, now, fresh_ids);
        assert(is_repaired_state(state, before, fallback_cwd@, fallback_shell@, fresh_ids@, now@));
        state
    }
}

// ---------------------------------------------------------------------------
// Starting the helper
// ---------------------------------------------------------------------------
/// The parts joined with `, `.
pub open spec fn join_with_commas(parts: Seq<Seq<char>>) -> Seq<char>
    decreases parts.len(),
{
    if parts.len() == 0 {
        seq![]
    } else if parts.len() == 1 {
        parts[0]
    } else {
        join_with_commas(parts.drop_last()) + ", "@ + parts.last()
    }
}

/// The error when the helper executable is missing, naming every place
/// that was checked, joined with `, `.
pub fn helper_not_found_message(candidates: &Vec<String>) -> (res: String)
    ensures
        res@ == "ConPTY host executable was not found. Checked: "@ + join_with_commas(
            crate::diagnostics::string_views(candidates@),
        ),
{
    let mut joined = String::new();
    let mut i: usize = 0;
    while i < candidates.len()
        invariant
            i <= candidates@.len(),
            joined@ == join_with_commas(crate::diagnostics::string_views(candidates@.take(i as int))),
        decreases candidates@.len() - i,
    {
        let ghost before = joined@;
        if i > 0 {
            joined.append(", ");
        }
        joined.append(candidates[i].as_str());
        proof {
            reveal_strlit(", ");
            let parts = crate::diagnostics::string_views(candidates@.take(i + 1));
            assert(parts.drop_last() =~= crate::diagnostics::string_views(candidates@.take(i as int)));
            assert(parts.last() == candidates@[i as int]@);
            if i == 0 {
                assert(before.len() == 0);
                assert(joined@ =~= parts[0]);
            } else {
                assert(joined@ =~= before + ", "@ + parts.last());
            }
        }
        i = i + 1;
    }
    proof {
        assert(candidates@.take(candidates@.len() as int) =~= candidates@);
    }
    join2("ConPTY host executable was not found. Checked: ", joined.as_str())
}

/// What opening a terminal does about its session.
#[derive(Debug, Clone, Copy, PartialEq, Eq, Structural)]
pub enum SessionStep {
    /// The live session goes on; it only takes the new size.
    Resize,
    /// A new session is started.
    Start,
}

impl SessionManager {
    /// Whether opening terminal `terminal_id` resizes its live session (one
    /// exists, `has_live_session`, and has neither exited nor failed) or
    /// starts a new one.
    pub fn session_step(&self, terminal_id: &String, has_live_session: bool) -> (res: SessionStep)
        ensures
            res == (if has_live_session && match terminal_index(self.state, terminal_id@) {
                Some(i) => {
                    let status = self.state.terminals@[i].status;
                    status != TerminalStatus::Exited && status != TerminalStatus::Error
                },
                None => false,
            } {
                SessionStep::Resize
            } else {
                SessionStep::Start
            }),
    {
        if has_live_session && self.should_resize_existing_session(terminal_id) {
            SessionStep::Resize
        } else {
            SessionStep::Start
        }
    }
}

/// The arguments that start the helper for a terminal.
pub open spec fn helper_argument_list(
    cwd: Seq<char>,
    shell: Seq<char>,
    cols: u32,
    rows: u32,
    session_id: Seq<char>,
    events_path: Seq<char>,
    power_shell_bootstrap_path: Option<Seq<char>>,
) -> Seq<Seq<char>> {
    let base = seq![
        "--cwd"@,
        cwd,
        "--shell"@,
        shell,
        "--cols"@,
        decimal_digits(
            (if cols < MIN_TERMINAL_COLS {
                MIN_TERMINAL_COLS
            } else {
                cols
            }) as nat,
        ),
        "--rows"@,
        decimal_digits(
            (if rows < MIN_TERMINAL_ROWS {
                MIN_TERMINAL_ROWS
            } else {
                rows
            }) as nat,
        ),
        "--session-id"@,
        session_id,
        "--events-path"@,
        events_path,
    ];
    match power_shell_bootstrap_path {
        Some(p) => base + seq!["--powershell-bootstrap"@, p],
        None => base,
    }
}

/// The arguments that start the helper for a terminal: its directory and
/// shell, the size (at least 20 columns and 5 rows), the session, where its
/// events go and, for PowerShell, the bootstrap script.
pub fn helper_arguments(
    cwd: &str,
    shell: &str,
    cols: u32,
    rows: u32,
    session_id: &str,
    events_path: &str,
    power_shell_bootstrap_path: Option<&str>,
) -> (res: Vec<String>)
    ensures
        string_views(res@) == helper_argument_list(
            cwd@,
            shell@,
            cols,
            rows,
            session_id@,
            events_path@,
            match power_shell_bootstrap_path {
                Some(p) => Some(p@),
                None => None,
            },
        ),
{
    let (cols, rows) = clamp_terminal_size(cols, rows);
    let mut args: Vec<String> = Vec::new();
    args.push(owned("--cwd"));
    args.push(owned(cwd));
    args.push(owned("--shell"));
    args.push(owned(shell));
    args.push(owned("--cols"));
    args.push(u32_text(cols));
    args.push(owned("--rows"));
    args.push(u32_text(rows));
    args.push(owned("--session-id"));
    args.push(owned(session_id));
    args.push(owned("--events-path"));
    args.push(owned(events_path));
    match power_shell_bootstrap_path {
        Some(p) => {
            args.push(owned("--powershell-bootstrap"));
            args.push(owned(p));
        },
        None => {},
    }
    proof {
        assert(string_views(args@) =~= helper_argument_list(
            cwd@,
            shell@,
            cols,
            rows,
            session_id@,
            events_path@,
            match power_shell_bootstrap_path {
                Some(p) => Some(p@),
                None => None,
            },
        ));
    }
    args
}

impl LiveSession {
    /// Whether the session needs no more watching: it was closed or is
    /// being stopped, or its helper already reported an exit or an error.
    pub fn is_finished(&self) -> (res: bool)
        ensures
            res == (self.closed || self.is_stopping || self.received_exit_event
                || self.received_error_event),
    {
        self.closed || self.is_stopping || self.received_exit_event || self.received_error_event
    }
}

proof fn lemma_parse_leading_pair(key: Seq<char>, value: Seq<char>, rest: Seq<Seq<char>>)
    requires
        crate::pty_host::starts_with_dashes(key),
    ensures
        crate::pty_host::parsed_arguments(seq![key, value] + rest) == match crate::pty_host::parsed_arguments(rest) {
            Ok(r) => Ok(seq![(crate::pty_host::without_leading_dashes(key), value)] + r),
            Err(e) => Err::<Seq<(Seq<char>, Seq<char>)>, Seq<char>>(e),
        },
{
    let all = seq![key, value] + rest;
    assert(all[0] == key);
    assert(all.skip(2) =~= rest);
}

proof fn lemma_option_key(dashed: Seq<char>, key: Seq<char>)
    requires
        dashed.len() == key.len() + 2,
        dashed[0] == '-',
        dashed[1] == '-',
        key.len() > 0,
        key[0] != '-',
        dashed.skip(2) =~= key,
    ensures
        crate::pty_host::starts_with_dashes(dashed),
        crate::pty_host::without_leading_dashes(dashed) == key,
{
    assert(!crate::pty_host::starts_with_dashes(key));
    assert(crate::pty_host::without_leading_dashes(key) == key);
    assert(dashed.skip(2) == key);
    assert(crate::pty_host::without_leading_dashes(dashed) == crate::pty_host::without_leading_dashes(
        dashed.skip(2),
    ));
}

proof fn lemma_last_value(pairs: Seq<(Seq<char>, Seq<char>)>, i: int, key: Seq<char>)
    requires
        0 <= i < pairs.len(),
        pairs[i].0 == key,
        forall|j: int| i < j < pairs.len() ==> (#[trigger] pairs[j]).0 != key,
    ensures
        crate::pty_host::argument_value(pairs, key) == Some(pairs[i].1),
    decreases pairs.len(),
{
    if i < pairs.len() - 1 {
        lemma_last_value(pairs.drop_last(), i, key);
    }
}

proof fn lemma_no_value(pairs: Seq<(Seq<char>, Seq<char>)>, key: Seq<char>)
    requires
        forall|j: int| 0 <= j < pairs.len() ==> (#[trigger] pairs[j]).0 != key,
    ensures
        crate::pty_host::argument_value(pairs, key) is None,
    decreases pairs.len(),
{
    if pairs.len() > 0 {
        lemma_no_value(pairs.drop_last(), key);
    }
}

/// What the manager hands to the helper is what the helper reads back:
/// the arguments always parse, and each option reads back as the value
/// that was passed, whatever that value holds (the size as written in
/// decimal, at least 20 columns and 5 rows).
pub proof fn lemma_helper_arguments_read_back(
    cwd: Seq<char>,
    shell: Seq<char>,
    cols: u32,
    rows: u32,
    session_id: Seq<char>,
    events_path: Seq<char>,
    power_shell_bootstrap_path: Option<Seq<char>>,
)
    ensures
        crate::pty_host::parsed_arguments(
            helper_argument_list(cwd, shell, cols, rows, session_id, events_path, power_shell_bootstrap_path),
        ) matches Ok(pairs) && {
            &&& crate::pty_host::argument_value(pairs, "cwd"@) == Some(cwd)
            &&& crate::pty_host::argument_value(pairs, "shell"@) == Some(shell)
            &&& crate::pty_host::argument_value(pairs, "cols"@) == Some(
                decimal_digits(
                    (if cols < MIN_TERMINAL_COLS {
                        MIN_TERMINAL_COLS
                    } else {
                        cols
                    }) as nat,
                ),
            )
            &&& crate::pty_host::argument_value(pairs, "rows"@) == Some(
                decimal_digits(
                    (if rows < MIN_TERMINAL_ROWS {
                        MIN_TERMINAL_ROWS
                    } else {
                        rows
                    }) as nat,
                ),
            )
            &&& crate::pty_host::argument_value(pairs, "session-id"@) == Some(session_id)
            &&& crate::pty_host::argument_value(pairs, "events-path"@) == Some(events_path)
            &&& crate::pty_host::argument_value(pairs, "powershell-bootstrap"@) == power_shell_bootstrap_path
        },
{
    reveal_strlit("--cwd");
    reveal_strlit("--shell");
    reveal_strlit("--cols");
    reveal_strlit("--rows");
    reveal_strlit("--session-id");
    reveal_strlit("--events-path");
    reveal_strlit("--powershell-bootstrap");
    reveal_strlit("cwd");
    reveal_strlit("shell");
    reveal_strlit("cols");
    reveal_strlit("rows");
    reveal_strlit("session-id");
    reveal_strlit("events-path");
    reveal_strlit("powershell-bootstrap");
    lemma_option_key("--cwd"@, "cwd"@);
    lemma_option_key("--shell"@, "shell"@);
    lemma_option_key("--cols"@, "cols"@);
    lemma_option_key("--rows"@, "rows"@);
    lemma_option_key("--session-id"@, "session-id"@);
    lemma_option_key("--events-path"@, "events-path"@);
    lemma_option_key("--powershell-bootstrap"@, "powershell-bootstrap"@);
    let c = decimal_digits(
        (if cols < MIN_TERMINAL_COLS {
            MIN_TERMINAL_COLS
        } else {
            cols
        }) as nat,
    );
    let r = decimal_digits(
        (if rows < MIN_TERMINAL_ROWS {
            MIN_TERMINAL_ROWS
        } else {
            rows
        }) as nat,
    );
    let tail: Seq<Seq<char>> = match power_shell_bootstrap_path {
        Some(p) => seq!["--powershell-bootstrap"@, p],
        None => seq![],
    };
    let tail_pairs: Seq<(Seq<char>, Seq<char>)> = match power_shell_bootstrap_path {
        Some(p) => seq![("powershell-bootstrap"@, p)],
        None => seq![],
    };
    match power_shell_bootstrap_path {
        Some(p) => {
            lemma_parse_leading_pair("--powershell-bootstrap"@, p, seq![]);
            assert(seq!["--powershell-bootstrap"@, p] + Seq::<Seq<char>>::empty() =~= tail);
            assert(seq![("powershell-bootstrap"@, p)] + Seq::<(Seq<char>, Seq<char>)>::empty()
                =~= tail_pairs);
        },
        None => {},
    }
    let a6 = seq!["--events-path"@, events_path] + tail;
    lemma_parse_leading_pair("--events-path"@, events_path, tail);
    let a5 = seq!["--session-id"@, session_id] + a6;
    lemma_parse_leading_pair("--session-id"@, session_id, a6);
    let a4 = seq!["--rows"@, r] + a5;
    lemma_parse_leading_pair("--rows"@, r, a5);
    let a3 = seq!["--cols"@, c] + a4;
    lemma_parse_leading_pair("--cols"@, c, a4);
    let a2 = seq!["--shell"@, shell] + a3;
    lemma_parse_leading_pair("--shell"@, shell, a3);
    let a1 = seq!["--cwd"@, cwd] + a2;
    lemma_parse_leading_pair("--cwd"@, cwd, a2);
    assert(a1 =~= helper_argument_list(
        cwd,
        shell,
        cols,
        rows,
        session_id,
        events_path,
        power_shell_bootstrap_path,
    ));
    let pairs = seq![
        ("cwd"@, cwd),
        ("shell"@, shell),
        ("cols"@, c),
        ("rows"@, r),
        ("session-id"@, session_id),
        ("events-path"@, events_path),
    ] + tail_pairs;
    assert(crate::pty_host::parsed_arguments(a1) == Ok::<Seq<(Seq<char>, Seq<char>)>, Seq<char>>(
        pairs,
    )) by {
        assert(crate::pty_host::parsed_arguments(tail) == Ok::<
            Seq<(Seq<char>, Seq<char>)>,
            Seq<char>,
        >(tail_pairs));
        assert(pairs =~= seq![("cwd"@, cwd)] + (seq![("shell"@, shell)] + (seq![("cols"@, c)] + (
        seq![("rows"@, r)] + (seq![("session-id"@, session_id)] + (seq![
            ("events-path"@, events_path),
        ] + tail_pairs))))));
    }
    assert(pairs[0].0 == "cwd"@ && pairs[0].1 == cwd);
    assert(pairs[1].0 == "shell"@ && pairs[1].1 == shell);
    assert(pairs[2].0 == "cols"@ && pairs[2].1 == c);
    assert(pairs[3].0 == "rows"@ && pairs[3].1 == r);
    assert(pairs[4].0 == "session-id"@ && pairs[4].1 == session_id);
    assert(pairs[5].0 == "events-path"@ && pairs[5].1 == events_path);
    match power_shell_bootstrap_path {
        Some(p) => {
            assert(pairs.len() == 7);
            assert(pairs[6].0 == "powershell-bootstrap"@ && pairs[6].1 == p);
            lemma_last_value(pairs, 6, "powershell-bootstrap"@);
        },
        None => {
            assert(pairs.len() == 6);
            lemma_no_value(pairs, "powershell-bootstrap"@);
        },
    }
    lemma_last_value(pairs, 0, "cwd"@);
    lemma_last_value(pairs, 1, "shell"@);
    assert("rows"@[0] != "cols"@[0]);
    lemma_last_value(pairs, 2, "cols"@);
    lemma_last_value(pairs, 3, "rows"@);
    lemma_last_value(pairs, 4, "session-id"@);
    lemma_last_value(pairs, 5, "events-path"@);
    assert(crate::pty_host::parsed_arguments(
        helper_argument_list(cwd, shell, cols, rows, session_id, events_path, power_shell_bootstrap_path),
    ) == Ok::<Seq<(Seq<char>, Seq<char>)>, Seq<char>>(pairs));
}

proof fn lemma_decimal_digits_value(n: nat)
    ensures
        decimal_digits(n).len() > 0,
        crate::pty_host::all_decimal_digits(decimal_digits(n)),
        crate::pty_host::digits_value(decimal_digits(n)) == n,
    decreases n,
{
    if n >= 10 {
        lemma_decimal_digits_value(n / 10);
        let d = decimal_digits(n / 10);
        let c = ((n % 10) + 48) as char;
        assert(c as nat == (n % 10) + 48);
        assert(decimal_digits(n) == d.push(c));
        assert(d.push(c).drop_last() =~= d);
        assert(crate::pty_host::digits_value(d.push(c)) == crate::pty_host::digits_value(d) * 10
            + (c as nat - '0' as nat) as nat);
        assert((n / 10) * 10 + n % 10 == n) by (nonlinear_arith);
        assert forall|i: int| 0 <= i < d.push(c).len() implies crate::pty_host::is_decimal_digit(
            #[trigger] d.push(c)[i],
        ) by {
            if i < d.len() {
                assert(d.push(c)[i] == d[i]);
            }
        }
    } else {
        let c = (n + 48) as char;
        assert(c as nat == n + 48);
        assert(decimal_digits(n) == seq![c]);
        assert(seq![c].drop_last() =~= Seq::<char>::empty());
        assert(seq![c].last() == c);
        assert(crate::pty_host::digits_value(seq![c]) == crate::pty_host::digits_value(
            Seq::<char>::empty(),
        ) * 10 + (c as nat - '0' as nat) as nat);
        assert(seq![c].drop_last() =~= Seq::<char>::empty());
    }
}

/// A size written in decimal reads back as the same number, where it fits
/// in 16 bits, and is refused where it does not.
pub proof fn lemma_decimal_size_reads_back(n: nat)
    ensures
        n <= u16::MAX ==> crate::pty_host::parsed_u16(decimal_digits(n)) == Some(n as u16),
        n > u16::MAX ==> crate::pty_host::parsed_u16(decimal_digits(n)) is None,
        !is_blank(decimal_digits(n)),
{
    lemma_decimal_digits_value(n);
    let d = decimal_digits(n);
    assert(crate::pty_host::is_decimal_digit(d[0]));
    assert(crate::pty_host::unsigned_digits(d) == d);
    assert(!crate::text::is_whitespace_char(d[0]));
    assert(crate::text::trim_start_class(d, crate::text::CharClass::Whitespace) == d);
    let last = d.last();
    assert(crate::pty_host::is_decimal_digit(d[d.len() - 1]));
    assert(!crate::text::is_whitespace_char(last));
    assert(crate::text::trim_end_class(d, crate::text::CharClass::Whitespace) == d);
}

/// The host reads the terminal size that the manager passes: the size the
/// manager writes (at least 20 columns and 5 rows) comes back from the
/// parsed arguments, kept within the host's bounds, wherever it fits in
/// 16 bits.
pub proof fn lemma_helper_size_reads_back(
    cwd: Seq<char>,
    shell: Seq<char>,
    cols: u32,
    rows: u32,
    session_id: Seq<char>,
    events_path: Seq<char>,
    power_shell_bootstrap_path: Option<Seq<char>>,
)
    ensures
        crate::pty_host::parsed_arguments(
            helper_argument_list(cwd, shell, cols, rows, session_id, events_path, power_shell_bootstrap_path),
        ) matches Ok(pairs) && {
            let c: u32 = if cols < MIN_TERMINAL_COLS {
                MIN_TERMINAL_COLS
            } else {
                cols
            };
            let r: u32 = if rows < MIN_TERMINAL_ROWS {
                MIN_TERMINAL_ROWS
            } else {
                rows
            };
            &&& c <= u16::MAX ==> crate::pty_host::dimension_of(
                crate::pty_host::argument_value(pairs, "cols"@),
                crate::pty_host::DEFAULT_COLS,
                crate::pty_host::MIN_COLS,
                crate::pty_host::MAX_COLS,
            ) == Ok::<u16, Seq<char>>(
                crate::pty_host::clamped(
                    c as u16,
                    crate::pty_host::MIN_COLS,
                    crate::pty_host::MAX_COLS,
                ),
            )
            &&& r <= u16::MAX ==> crate::pty_host::dimension_of(
                crate::pty_host::argument_value(pairs, "rows"@),
                crate::pty_host::DEFAULT_ROWS,
                crate::pty_host::MIN_ROWS,
                crate::pty_host::MAX_ROWS,
            ) == Ok::<u16, Seq<char>>(
                crate::pty_host::clamped(
                    r as u16,
                    crate::pty_host::MIN_ROWS,
                    crate::pty_host::MAX_ROWS,
                ),
            )
        },
{
    lemma_helper_arguments_read_back(
        cwd,
        shell,
        cols,
        rows,
        session_id,
        events_path,
        power_shell_bootstrap_path,
    );
    let c: u32 = if cols < MIN_TERMINAL_COLS {
        MIN_TERMINAL_COLS
    } else {
        cols
    };
    let r: u32 = if rows < MIN_TERMINAL_ROWS {
        MIN_TERMINAL_ROWS
    } else {
        rows
    };
    lemma_decimal_size_reads_back(c as nat);
    lemma_decimal_size_reads_back(r as nat);
}

} // verus!
