//! The decisions of the Unix pseudo-terminal host: reading its command-line
//! arguments, choosing its defaults, answering control messages and turning
//! a finished child's wait status into an exit code. Spawning the shell and
//! moving bytes between it and the manager happen in the application shell.
use vstd::prelude::*;

use crate::diagnostics::{
    is_joined_path, is_plain_file_name, join_path, lemma_join_keeps_non_verbatim, looks_verbatim,
    string_views,
};
use crate::text::{
    opt_view, chars_of, is_blank, join2, join3, owned, str_equal, str_is_blank, string_from_range, trim,
    trim_chars, trim_class, CharClass,
};

verus! {

pub const MISSING_WORKING_DIRECTORY_PREFIX: &'static str = "Working directory '";

pub const MISSING_WORKING_DIRECTORY_SUFFIX: &'static str = "' does not exist.";

pub const DEFAULT_COLS: u16 = 120;

pub const MIN_COLS: u16 = 20;

pub const MAX_COLS: u16 = 500;

pub const DEFAULT_ROWS: u16 = 30;

pub const MIN_ROWS: u16 = 5;

pub const MAX_ROWS: u16 = 200;

pub const NO_SHELL_FOUND_MESSAGE: &'static str =
    "No supported shell executable was found. Tried SHELL, /bin/zsh, /bin/bash, and /bin/sh.";

// ---------------------------------------------------------------------------
// Arguments
// ---------------------------------------------------------------------------
pub open spec fn starts_with_dashes(s: Seq<char>) -> bool {
    s.len() >= 2 && s[0] == '-' && s[1] == '-'
}

/// `s` without every leading `--` (`trim_start_matches("--")`).
pub open spec fn without_leading_dashes(s: Seq<char>) -> Seq<char>
    decreases s.len(),
{
    if starts_with_dashes(s) {
        without_leading_dashes(s.skip(2))
    } else {
        s
    }
}

/// The arguments read as `--key value` pairs, in order, or the message of
/// the first argument that is not a key or has no value.
pub open spec fn parsed_arguments(args: Seq<Seq<char>>) -> Result<Seq<(Seq<char>, Seq<char>)>, Seq<char>>
    decreases args.len(),
{
    if args.len() == 0 {
        Ok(seq![])
    } else if !starts_with_dashes(args[0]) {
        Err("Unexpected argument '"@ + args[0] + "'."@)
    } else if args.len() < 2 {
        Err("Missing value for argument '"@ + args[0] + "'."@)
    } else {
        match parsed_arguments(args.skip(2)) {
            Ok(rest) => Ok(seq![(without_leading_dashes(args[0]), args[1])] + rest),
            Err(e) => Err(e),
        }
    }
}

pub open spec fn pair_views(v: Seq<(String, String)>) -> Seq<(Seq<char>, Seq<char>)> {
    v.map_values(|p: (String, String)| (p.0@, p.1@))
}

fn strip_leading_dashes(key: &str) -> (res: String)
    ensures
        res@ == without_leading_dashes(key@),
{
    let chars = chars_of(key);
    let mut start: usize = 0;
    proof {
        assert(chars@.skip(0) =~= chars@);
    }
    while chars.len() - start >= 2 && chars[start] == '-' && chars[start + 1] == '-'
        invariant
            start <= chars@.len(),
            without_leading_dashes(key@) == without_leading_dashes(chars@.skip(start as int)),
            chars@ == key@,
        decreases chars@.len() - start,
    {
        proof {
            let rest = chars@.skip(start as int);
            assert(rest[0] == chars@[start as int]);
            assert(rest[1] == chars@[start + 1]);
            assert(rest.skip(2) =~= chars@.skip(start + 2));
        }
        start = start + 2;
    }
    proof {
        let rest = chars@.skip(start as int);
        if rest.len() >= 2 {
            assert(rest[0] == chars@[start as int]);
            assert(rest[1] == chars@[start + 1]);
        }
        assert(chars@.subrange(start as int, chars@.len() as int) =~= rest);
    }
    string_from_range(&chars, start, chars.len())
}

fn starts_with_two_dashes(s: &str) -> (res: bool)
    ensures
        res == starts_with_dashes(s@),
{
    let chars = chars_of(s);
    chars.len() >= 2 && chars[0] == '-' && chars[1] == '-'
}

/// Reads the host's arguments as `--key value` pairs.
pub fn parse_host_arguments(args: &Vec<String>) -> (res: Result<Vec<(String, String)>, String>)
    ensures
        match parsed_arguments(string_views(args@)) {
            Ok(pairs) => res matches Ok(v) && pair_views(v@) == pairs,
            Err(e) => res matches Err(m) && m@ == e,
        },
{
    let ghost all = string_views(args@);
    let mut pairs: Vec<(String, String)> = Vec::new();
    let mut index: usize = 0;
    proof {
        assert(all.skip(0) =~= all);
        assert(pair_views(pairs@) + Seq::<(Seq<char>, Seq<char>)>::empty() =~= pair_views(pairs@));
    }
    while index < args.len()
        invariant
            index <= args@.len(),
            all == string_views(args@),
            match parsed_arguments(all) {
                Ok(ps) => parsed_arguments(all.skip(index as int)) matches Ok(rest) && ps
                    == pair_views(pairs@) + rest,
                Err(e) => parsed_arguments(all.skip(index as int)) == Err::<
                    Seq<(Seq<char>, Seq<char>)>,
                    Seq<char>,
                >(e),
            },
        decreases args@.len() - index,
    {
        let ghost rest = all.skip(index as int);
        proof {
            assert(rest[0] == args@[index as int]@);
        }
        let key = &args[index];
        if !starts_with_two_dashes(key.as_str()) {
            return Err(join3("Unexpected argument '", key.as_str(), "'."));
        }
        if index + 1 >= args.len() {
            return Err(join3("Missing value for argument '", key.as_str(), "'."));
        }
        let value = args[index + 1].clone();
        let stripped = strip_leading_dashes(key.as_str());
        let ghost before = pair_views(pairs@);
        pairs.push((stripped, value));
        proof {
            assert(rest[1] == args@[index + 1]@);
            assert(rest.skip(2) =~= all.skip(index + 2));
            assert(pair_views(pairs@) =~= before.push((without_leading_dashes(rest[0]), rest[1])));
            match parsed_arguments(rest.skip(2)) {
                Ok(tail) => {
                    assert(seq![(without_leading_dashes(rest[0]), rest[1])] + tail =~= seq![
                        (without_leading_dashes(rest[0]), rest[1]),
                    ].add(tail));
                    assert(before + (seq![(without_leading_dashes(rest[0]), rest[1])] + tail)
                        =~= pair_views(pairs@) + tail);
                },
                Err(_) => {},
            }
        }
        index = index + 2;
    }
    proof {
        assert(all.skip(index as int) =~= Seq::<Seq<char>>::empty());
        assert(pair_views(pairs@) + Seq::<(Seq<char>, Seq<char>)>::empty() =~= pair_views(pairs@));
    }
    Ok(pairs)
}

/// The value given for `key`; where it was given twice, the later one.
pub open spec fn argument_value(pairs: Seq<(Seq<char>, Seq<char>)>, key: Seq<char>) -> Option<Seq<char>>
    decreases pairs.len(),
{
    if pairs.len() == 0 {
        None
    } else if pairs.last().0 == key {
        Some(pairs.last().1)
    } else {
        argument_value(pairs.drop_last(), key)
    }
}

/// The value given for `key`, if any.
pub fn host_argument(values: &Vec<(String, String)>, key: &str) -> (res: Option<String>)
    ensures
        match argument_value(pair_views(values@), key@) {
            Some(v) => res matches Some(r) && r@ == v,
            None => res is None,
        },
{
    let ghost all = pair_views(values@);
    let mut i: usize = values.len();
    proof {
        assert(all.take(i as int) =~= all);
    }
    while i > 0
        invariant
            i <= values@.len(),
            all == pair_views(values@),
            argument_value(all, key@) == argument_value(all.take(i as int), key@),
        decreases i,
    {
        proof {
            let t = all.take(i as int);
            assert(t.drop_last() =~= all.take(i - 1));
            assert(t.last() == (values@[i - 1].0@, values@[i - 1].1@));
        }
        if str_equal(values[i - 1].0.as_str(), key) {
            return Some(values[i - 1].1.clone());
        }
        i = i - 1;
    }
    None
}

/// The value given for `key`, unless it is missing or blank.
pub open spec fn non_blank_argument(pairs: Seq<(Seq<char>, Seq<char>)>, key: Seq<char>) -> Option<Seq<char>> {
    match argument_value(pairs, key) {
        Some(v) => if is_blank(v) {
            None
        } else {
            Some(v)
        },
        None => None,
    }
}

/// The value given for `key`, unless it is missing or blank.
pub fn non_blank_host_argument(values: &Vec<(String, String)>, key: &str) -> (res: Option<String>)
    ensures
        opt_view(res) == non_blank_argument(pair_views(values@), key@),
{
    match host_argument(values, key) {
        Some(v) => if str_is_blank(v.as_str()) {
            None
        } else {
            Some(v)
        },
        None => None,
    }
}

// ---------------------------------------------------------------------------
// Dimensions
// ---------------------------------------------------------------------------
pub open spec fn is_decimal_digit(c: char) -> bool {
    '0' <= c && c <= '9'
}

pub open spec fn digits_value(s: Seq<char>) -> nat
    decreases s.len(),
{
    if s.len() == 0 {
        0
    } else {
        digits_value(s.drop_last()) * 10 + (s.last() as nat - '0' as nat) as nat
    }
}

/// The digits of an unsigned number: `s` without one leading `+`.
pub open spec fn unsigned_digits(s: Seq<char>) -> Seq<char> {
    if s.len() > 0 && s[0] == '+' {
        s.drop_first()
    } else {
        s
    }
}

pub open spec fn all_decimal_digits(s: Seq<char>) -> bool {
    forall|i: int| 0 <= i < s.len() ==> is_decimal_digit(#[trigger] s[i])
}

/// What `str::parse::<u16>` gives: an optional `+`, then at least one
/// decimal digit and nothing else, for a value that fits.
pub open spec fn parsed_u16(s: Seq<char>) -> Option<u16> {
    let digits = unsigned_digits(s);
    if digits.len() > 0 && all_decimal_digits(digits) && digits_value(digits) <= u16::MAX {
        Some(digits_value(digits) as u16)
    } else {
        None
    }
}

proof fn lemma_digits_value_grows(s: Seq<char>, i: int)
    requires
        0 <= i <= s.len(),
        forall|j: int| 0 <= j < s.len() ==> is_decimal_digit(#[trigger] s[j]),
    ensures
        digits_value(s.take(i)) <= digits_value(s),
    decreases s.len() - i,
{
    if i < s.len() {
        assert(s.drop_last().take(i) =~= s.take(i));
        lemma_digits_value_grows(s.drop_last(), i);
    } else {
        assert(s.take(i) =~= s);
    }
}

/// `s` read as a `u16`, as `str::parse::<u16>` reads it.
pub fn parse_u16(s: &str) -> (res: Option<u16>)
    ensures
        res == parsed_u16(s@),
{
    let chars = chars_of(s);
    let start: usize = if chars.len() > 0 && chars[0] == '+' {
        1
    } else {
        0
    };
    let ghost digits = unsigned_digits(s@);
    proof {
        assert(digits =~= chars@.skip(start as int));
    }
    if start == chars.len() {
        return None;
    }
    let mut value: u32 = 0;
    let mut i: usize = start;
    while i < chars.len()
        invariant
            start <= i <= chars@.len(),
            start < chars@.len(),
            digits =~= chars@.skip(start as int),
            digits == unsigned_digits(s@),
            chars@ == s@,
            forall|j: int| start <= j < i ==> is_decimal_digit(#[trigger] chars@[j]),
            value == digits_value(chars@.subrange(start as int, i as int)),
            value <= u16::MAX,
        decreases chars@.len() - i,
    {
        let c = chars[i];
        let ghost k: int = i - start;
        proof {
            assert(chars@.subrange(start as int, i + 1).drop_last() =~= chars@.subrange(
                start as int,
                i as int,
            ));
            assert(digits[k] == c);
        }
        if !('0' <= c && c <= '9') {
            proof {
                assert(!is_decimal_digit(digits[k]));
                assert(!all_decimal_digits(digits));
                assert(parsed_u16(s@) is None);
            }
            return None;
        }
        let digit = (c as u32) - ('0' as u32);
        let next = value * 10 + digit;
        proof {
            assert(chars@.subrange(start as int, i + 1).last() == c);
            assert(next == digits_value(chars@.subrange(start as int, i + 1)));
            assert(digits.take(k + 1) =~= chars@.subrange(start as int, i + 1));
        }
        if next > 65535 {
            proof {
                if all_decimal_digits(digits) {
                    lemma_digits_value_grows(digits, k + 1);
                    assert(digits_value(digits) > u16::MAX);
                }
                assert(parsed_u16(s@) is None);
            }
            return None;
        }
        value = next;
        i = i + 1;
    }
    proof {
        assert(chars@.subrange(start as int, chars@.len() as int) =~= digits);
        assert(all_decimal_digits(digits)) by {
            assert forall|j: int| 0 <= j < digits.len() implies is_decimal_digit(
                #[trigger] digits[j],
            ) by {
                assert(digits[j] == chars@[j + start]);
            }
        }
    }
    Some(value as u16)
}

/// `value` kept within `minimum ..= maximum` (`Ord::clamp`).
pub open spec fn clamped(value: u16, minimum: u16, maximum: u16) -> u16 {
    if value < minimum {
        minimum
    } else if value > maximum {
        maximum
    } else {
        value
    }
}

/// A terminal dimension from its argument: the default where it is missing
/// or blank, the parsed value kept within bounds, and an error where it is
/// not a number.
pub fn parse_dimension(raw_value: Option<&String>, default_value: u16, minimum: u16, maximum: u16) -> (res:
    Result<u16, String>)
    requires
        minimum <= maximum,
    ensures
        match raw_value {
            Some(raw) => if is_blank(raw@) {
                res == Ok::<u16, String>(default_value)
            } else {
                match parsed_u16(raw@) {
                    Some(v) => res == Ok::<u16, String>(clamped(v, minimum, maximum)),
                    None => res matches Err(e) && e@ == "Argument value '"@ + raw@
                        + "' must be a valid integer."@,
                }
            },
            None => res == Ok::<u16, String>(default_value),
        },
{
    match raw_value {
        Some(raw) => {
            if str_is_blank(raw.as_str()) {
                return Ok(default_value);
            }
            match parse_u16(raw.as_str()) {
                Some(v) => {
                    if v < minimum {
                        Ok(minimum)
                    } else if v > maximum {
                        Ok(maximum)
                    } else {
                        Ok(v)
                    }
                },
                None => Err(
                    join3("Argument value '", raw.as_str(), "' must be a valid integer."),
                ),
            }
        },
        None => Ok(default_value),
    }
}

/// The terminal's columns and rows from the arguments `cols` and `rows`.
pub fn host_dimensions(values: &Vec<(String, String)>) -> (res: Result<(u16, u16), String>)
    ensures
        ({
            let cols = dimension_of(argument_value(pair_views(values@), "cols"@), DEFAULT_COLS, MIN_COLS, MAX_COLS);
            let rows = dimension_of(argument_value(pair_views(values@), "rows"@), DEFAULT_ROWS, MIN_ROWS, MAX_ROWS);
            match (cols, rows) {
                (Ok(c), Ok(r)) => res == Ok::<(u16, u16), String>((c, r)),
                (Err(e), _) => res matches Err(m) && m@ == e,
                (Ok(_), Err(e)) => res matches Err(m) && m@ == e,
            }
        }),
{
    let cols_value = host_argument(values, "cols");
    let cols = match parse_dimension(cols_value.as_ref(), DEFAULT_COLS, MIN_COLS, MAX_COLS) {
        Ok(c) => c,
        Err(e) => {
            return Err(e);
        },
    };
    let rows_value = host_argument(values, "rows");
    let rows = match parse_dimension(rows_value.as_ref(), DEFAULT_ROWS, MIN_ROWS, MAX_ROWS) {
        Ok(r) => r,
        Err(e) => {
            return Err(e);
        },
    };
    Ok((cols, rows))
}

/// A dimension read from its argument, as `parse_dimension` reads it.
pub open spec fn dimension_of(raw: Option<Seq<char>>, default_value: u16, minimum: u16, maximum: u16) -> Result<u16, Seq<char>> {
    match raw {
        Some(r) => if is_blank(r) {
            Ok(default_value)
        } else {
            match parsed_u16(r) {
                Some(v) => Ok(clamped(v, minimum, maximum)),
                None => Err("Argument value '"@ + r + "' must be a valid integer."@),
            }
        },
        None => Ok(default_value),
    }
}

// ---------------------------------------------------------------------------
// Defaults and messages
// ---------------------------------------------------------------------------
/// The session id: the one given, unless missing or blank, else the new
/// id `fresh_id`.
pub fn host_session_id(values: &Vec<(String, String)>, fresh_id: String) -> (res: String)
    ensures
        match non_blank_argument(pair_views(values@), "session-id"@) {
            Some(v) => res@ == v,
            None => res == fresh_id,
        },
{
    match non_blank_host_argument(values, "session-id") {
        Some(v) => v,
        None => fresh_id,
    }
}

/// Where the diagnostics events go: the path given, unless missing or
/// blank, else `.twm-diagnostics/events.jsonl` inside the working directory
/// (its shape stated where the directory has no verbatim prefix).
pub fn host_events_path(values: &Vec<(String, String)>, working_directory: &str) -> (res: String)
    ensures
        match non_blank_argument(pair_views(values@), "events-path"@) {
            Some(v) => res@ == v,
            None => !looks_verbatim(working_directory@) ==> exists|dir: Seq<char>|
                is_joined_path(dir, working_directory@, ".twm-diagnostics"@) && is_joined_path(
                    res@,
                    dir,
                    "events.jsonl"@,
                ),
        },
{
    match non_blank_host_argument(values, "events-path") {
        Some(v) => v,
        None => {
            proof {
                reveal_strlit(".twm-diagnostics");
                reveal_strlit("events.jsonl");
                assert(is_plain_file_name(".twm-diagnostics"@));
                assert(is_plain_file_name("events.jsonl"@));
            }
            let dir = join_path(working_directory, ".twm-diagnostics");
            let path = join_path(dir.as_str(), "events.jsonl");
            proof {
                if !looks_verbatim(working_directory@) {
                    assert(".twm-diagnostics"@[0] == '.');
                    lemma_join_keeps_non_verbatim(dir@, working_directory@, ".twm-diagnostics"@);
                    assert(is_joined_path(dir@, working_directory@, ".twm-diagnostics"@));
                    assert(is_joined_path(path@, dir@, "events.jsonl"@));
                }
            }
            path
        },
    }
}

/// The error for a working directory that does not exist.
pub fn missing_working_directory_message(path: &str) -> (res: String)
    ensures
        res@ == MISSING_WORKING_DIRECTORY_PREFIX@ + path@ + MISSING_WORKING_DIRECTORY_SUFFIX@,
{
    join3(MISSING_WORKING_DIRECTORY_PREFIX, path, MISSING_WORKING_DIRECTORY_SUFFIX)
}

/// The error for a PowerShell bootstrap script that does not exist.
pub fn missing_bootstrap_message(path: &str) -> (res: String)
    ensures
        res@ == "PowerShell bootstrap script '"@ + path@ + "' could not be located."@,
{
    join3("PowerShell bootstrap script '", path, "' could not be located.")
}

/// The error for a requested shell that could not be found.
pub fn shell_not_found_message(shell: &str) -> (res: String)
    ensures
        res@ == "Shell executable '"@ + trim(shell@) + "' could not be located."@,
{
    let trimmed = crate::text::trim_str(shell);
    join3("Shell executable '", trimmed.as_str(), "' could not be located.")
}

/// The name to look a shell up by: trimmed, without surrounding double
/// quotes; none where nothing is left.
pub open spec fn shell_candidate_of(candidate: Seq<char>) -> Option<Seq<char>> {
    let name = trim_class(trim(candidate), CharClass::DoubleQuote);
    if name.len() == 0 {
        None
    } else {
        Some(name)
    }
}

/// The name to look a requested shell up by (see `shell_candidate_of`).
pub fn shell_candidate_name(candidate: &str) -> (res: Option<String>)
    ensures
        opt_view(res) == shell_candidate_of(candidate@),
{
    let chars = chars_of(candidate);
    let trimmed = trim_chars(&chars, CharClass::Whitespace);
    let name = trim_chars(&trimmed, CharClass::DoubleQuote);
    if name.len() == 0 {
        None
    } else {
        Some(crate::text::string_from_chars(&name))
    }
}

/// The shells tried when none was requested: `$SHELL` where it is set, then
/// zsh, bash and sh.
pub fn fallback_shell_candidates(shell_variable: Option<String>) -> (res: Vec<String>)
    ensures
        string_views(res@) == match shell_variable {
            Some(s) => seq![s@, "/bin/zsh"@, "/bin/bash"@, "/bin/sh"@],
            None => seq!["/bin/zsh"@, "/bin/bash"@, "/bin/sh"@],
        },
{
    let mut res: Vec<String> = Vec::new();
    match shell_variable {
        Some(s) => res.push(s),
        None => {},
    }
    res.push(owned("/bin/zsh"));
    res.push(owned("/bin/bash"));
    res.push(owned("/bin/sh"));
    proof {
        assert(string_views(res@) =~= match shell_variable {
            Some(s) => seq![s@, "/bin/zsh"@, "/bin/bash"@, "/bin/sh"@],
            None => seq!["/bin/zsh"@, "/bin/bash"@, "/bin/sh"@],
        });
    }
    res
}

// ---------------------------------------------------------------------------
// Control messages and the child's end
// ---------------------------------------------------------------------------
/// What a control message from the manager asks the host to do.
#[derive(Debug, PartialEq, Eq)]
pub enum ControlAction {
    /// Write these characters to the shell.
    Input(String),
    /// Resize the terminal to these columns and rows.
    Resize(u16, u16),
    /// End the shell and stop reading messages.
    Shutdown,
    /// Nothing to do.
    Ignore,
}

/// The action of a control message: input needs data, a resize needs both
/// dimensions (at least 20 columns and 5 rows), and unknown types are
/// ignored.
pub fn control_action(message_type: &str, data: Option<String>, cols: Option<u16>, rows: Option<u16>) -> (res:
    ControlAction)
    ensures
        message_type@ == "input"@ ==> match data {
            Some(d) => res matches ControlAction::Input(t) && t == d,
            None => res is Ignore,
        },
        message_type@ == "resize"@ ==> match (cols, rows) {
            (Some(c), Some(r)) => res == ControlAction::Resize(
                if c < MIN_COLS {
                    MIN_COLS
                } else {
                    c
                },
                if r < MIN_ROWS {
                    MIN_ROWS
                } else {
                    r
                },
            ),
            _ => res is Ignore,
        },
        message_type@ == "shutdown"@ ==> res is Shutdown,
        message_type@ != "input"@ && message_type@ != "resize"@ && message_type@ != "shutdown"@
            ==> res is Ignore,
{
    proof {
        reveal_strlit("input");
        reveal_strlit("resize");
        reveal_strlit("shutdown");
        assert("input"@.len() == 5);
        assert("resize"@.len() == 6);
        assert("shutdown"@.len() == 8);
    }
    if str_equal(message_type, "input") {
        match data {
            Some(d) => ControlAction::Input(d),
            None => ControlAction::Ignore,
        }
    } else if str_equal(message_type, "resize") {
        match (cols, rows) {
            (Some(c), Some(r)) => ControlAction::Resize(
                if c < MIN_COLS {
                    MIN_COLS
                } else {
                    c
                },
                if r < MIN_ROWS {
                    MIN_ROWS
                } else {
                    r
                },
            ),
            _ => ControlAction::Ignore,
        }
    } else if str_equal(message_type, "shutdown") {
        ControlAction::Shutdown
    } else {
        ControlAction::Ignore
    }
}

/// The exit code of a child from its wait status: its own code when it
/// exited, 128 plus the signal when a signal ended it, and none while it
/// has done neither.
pub fn child_exit_code(exited: bool, exit_status: i32, signaled: bool, signal: i32) -> (res: Option<
    i32,
>)
    requires
        signaled && !exited ==> signal <= i32::MAX - 128,
    ensures
        res == (if exited {
            Some(exit_status)
        } else if signaled {
            Some((128 + signal) as i32)
        } else {
            None
        }),
{
    if exited {
        Some(exit_status)
    } else if signaled {
        Some(128 + signal)
    } else {
        None
    }
}

} // verus!
