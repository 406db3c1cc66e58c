//! Session diagnostics: shell classification, the generated shell hooks that
//! report working-directory changes and failed commands, and the bounded
//! buffer of recent terminal output.
use vstd::prelude::*;

use crate::text::{
    ascii_lower, is_blank, join2, push_char, str_is_blank, string_from_chars, trim_str, chars_end_with, chars_equal, chars_of, copy_range, ends_with, find_char, first_index_of,
    is_in_class, is_quote_char, is_whitespace, is_whitespace_char, replace_char, replace_char_in,
    to_ascii_lower_chars, trim, trim_chars, trim_class, CharClass, ascii_lower_char, in_class,
    trim_start_class, trim_end_class,
};

verus! {

pub const MAX_OUTPUT_LINES: usize = 100;

pub const RECENT_OUTPUT_EXCERPT_LINES: usize = 20;

pub const POSIX_SHELL_HOOK_MAX_BYTES: usize = 16 * 1024;

pub const APP_LOG_FILE_NAME: &'static str = "app.log";

// ---------------------------------------------------------------------------
// Quoting
// ---------------------------------------------------------------------------
/// `value` made safe inside a POSIX single-quoted string: each `'` becomes `'\''`.
pub open spec fn posix_single_quote_escaped(value: Seq<char>) -> Seq<char> {
    replace_char(value, '\'', seq!['\'', '\\', '\'', '\''])
}

/// `value` made safe inside a PowerShell single-quoted literal: each `'` becomes `''`.
pub open spec fn power_shell_literal_escaped(value: Seq<char>) -> Seq<char> {
    replace_char(value, '\'', seq!['\'', '\''])
}

/// `value` made safe inside a POSIX single-quoted string.
pub fn escape_posix_single_quote(value: &str) -> (res: String)
    ensures
        res@ == posix_single_quote_escaped(value@),
{
    let replacement = "'\\''";
    proof {
        reveal_strlit("'\\''");
        assert(replacement@ =~= seq!['\'', '\\', '\'', '\'']);
    }
    replace_char_in(value, '\'', replacement)
}

/// The text a POSIX shell makes of a word written with single quotes and
/// backslashes (`in_quotes` when it starts inside a quoted part): inside
/// single quotes every character stands for itself up to the closing quote;
/// outside them a single quote opens a quoted part, a backslash stands for
/// the character after it, and any other character for itself.
pub open spec fn posix_unquote(word: Seq<char>, in_quotes: bool) -> Seq<char>
    decreases word.len(),
{
    if word.len() == 0 {
        seq![]
    } else if in_quotes {
        if word[0] == '\'' {
            posix_unquote(word.drop_first(), false)
        } else {
            seq![word[0]] + posix_unquote(word.drop_first(), true)
        }
    } else if word[0] == '\'' {
        posix_unquote(word.drop_first(), true)
    } else if word[0] == '\\' && word.len() >= 2 {
        seq![word[1]] + posix_unquote(word.skip(2), false)
    } else {
        seq![word[0]] + posix_unquote(word.drop_first(), false)
    }
}

proof fn lemma_replace_char_append(a: Seq<char>, b: Seq<char>, c: char, r: Seq<char>)
    ensures
        replace_char(a + b, c, r) == replace_char(a, c, r) + replace_char(b, c, r),
    decreases b.len(),
{
    if b.len() == 0 {
        assert(a + b =~= a);
        assert(replace_char(a, c, r) + seq![] =~= replace_char(a, c, r));
    } else {
        lemma_replace_char_append(a, b.drop_last(), c, r);
        assert((a + b).drop_last() =~= a + b.drop_last());
        assert((a + b).last() == b.last());
        let tail = if b.last() == c {
            r
        } else {
            seq![b.last()]
        };
        assert(replace_char(a, c, r) + replace_char(b.drop_last(), c, r) + tail =~= replace_char(
            a,
            c,
            r,
        ) + (replace_char(b.drop_last(), c, r) + tail));
    }
}

proof fn lemma_escaped_unquotes_inside(value: Seq<char>)
    ensures
        posix_unquote(posix_single_quote_escaped(value) + seq!['\''], true) == value,
    decreases value.len(),
{
    let q = seq!['\'', '\\', '\'', '\''];
    if value.len() == 0 {
        assert(posix_single_quote_escaped(value) =~= Seq::<char>::empty());
        let w = posix_single_quote_escaped(value) + seq!['\''];
        assert(w =~= seq!['\'']);
        assert(w.drop_first() =~= Seq::<char>::empty());
        assert(posix_unquote(w, true) == posix_unquote(w.drop_first(), false));
        assert(value =~= Seq::<char>::empty());
    } else {
        let x = value[0];
        let rest = value.drop_first();
        assert(value =~= seq![x] + rest);
        lemma_replace_char_append(seq![x], rest, '\'', q);
        assert(seq![x].drop_last() =~= Seq::<char>::empty());
        assert(seq![x].last() == x);
        assert(replace_char(Seq::<char>::empty(), '\'', q) =~= Seq::<char>::empty());
        assert(replace_char(seq![x], '\'', q) == replace_char(Seq::<char>::empty(), '\'', q) + if x
            == '\'' {
            q
        } else {
            seq![x]
        });
        let head = if x == '\'' {
            q
        } else {
            seq![x]
        };
        assert(replace_char(seq![x], '\'', q) =~= head);
        lemma_escaped_unquotes_inside(rest);
        let inner = posix_single_quote_escaped(rest) + seq!['\''];
        let w = posix_single_quote_escaped(value) + seq!['\''];
        assert(w =~= head + inner);
        if x == '\'' {
            assert(w.drop_first() =~= seq!['\\', '\'', '\''] + inner);
            let w1 = w.drop_first();
            assert(w1.skip(2) =~= seq!['\''] + inner);
            assert((seq!['\''] + inner).drop_first() =~= inner);
            assert(posix_unquote(w1, false) == seq!['\''] + posix_unquote(w1.skip(2), false));
            assert(posix_unquote(w1.skip(2), false) == posix_unquote(inner, true));
            assert(w[0] == '\'');
            assert(posix_unquote(w, true) == posix_unquote(w1, false));
            assert(seq!['\''] + rest =~= value);
        } else {
            assert(w.drop_first() =~= inner);
            assert(w[0] == x);
            assert(posix_unquote(w, true) == seq![x] + posix_unquote(inner, true));
            assert(seq![x] + rest =~= value);
        }
    }
}

/// A value escaped with `escape_posix_single_quote` and put between single
/// quotes is read back by the shell as exactly the value: no quote can end
/// the word early.
pub proof fn lemma_posix_single_quote_round_trip(value: Seq<char>)
    ensures
        posix_unquote(seq!['\''] + posix_single_quote_escaped(value) + seq!['\''], false) == value,
{
    lemma_escaped_unquotes_inside(value);
    let w = seq!['\''] + posix_single_quote_escaped(value) + seq!['\''];
    assert(w.drop_first() =~= posix_single_quote_escaped(value) + seq!['\'']);
}

/// `value` made safe inside a PowerShell single-quoted literal.
pub fn escape_power_shell_literal(value: &str) -> (res: String)
    ensures
        res@ == power_shell_literal_escaped(value@),
{
    let replacement = "''";
    proof {
        reveal_strlit("''");
        assert(replacement@ =~= seq!['\'', '\'']);
    }
    replace_char_in(value, '\'', replacement)
}

// ---------------------------------------------------------------------------
// Shell classification
// ---------------------------------------------------------------------------
/// The POSIX shells that get a prompt hook.
#[derive(Debug, Clone, Copy, PartialEq, Eq, Structural)]
pub enum PosixShellKind {
    Zsh,
    Bash,
    Sh,
}

pub open spec fn is_path_separator(c: char) -> bool {
    c == '/' || c == '\\'
}

/// What follows the last `/` or `\` of `s` (all of `s` when there is none).
pub open spec fn after_last_separator(s: Seq<char>) -> Seq<char>
    decreases s.len(),
{
    if s.len() == 0 {
        s
    } else if is_path_separator(s.last()) {
        seq![]
    } else {
        after_last_separator(s.drop_last()).push(s.last())
    }
}

/// The characters of `s` up to its first whitespace.
pub open spec fn first_token(s: Seq<char>) -> Seq<char>
    decreases s.len(),
{
    if s.len() == 0 || is_whitespace_char(s.first()) {
        seq![]
    } else {
        seq![s.first()] + first_token(s.drop_first())
    }
}

/// The program part of a trimmed shell command line: the text inside a
/// leading quote pair, or else the first whitespace-separated word, with
/// stray quotes and whitespace removed.
pub open spec fn shell_program(trimmed: Seq<char>) -> Seq<char> {
    let raw = if trimmed.len() > 0 && is_quote_char(trimmed.first()) {
        let rest = trimmed.drop_first();
        match first_index_of(rest, trimmed.first()) {
            Some(end) => trim(rest.take(end)),
            None => trim(trim_class(trimmed, CharClass::Quote)),
        }
    } else {
        trim(trim_class(first_token(trimmed), CharClass::Quote))
    };
    trim(trim_class(trim(raw), CharClass::Quote))
}

/// The lower-cased file name of the program, without a trailing `.exe`.
pub open spec fn shell_stem(program: Seq<char>) -> Seq<char> {
    let lower = ascii_lower(trim(after_last_separator(program)));
    if ends_with(lower, ".exe"@) {
        lower.take(lower.len() - 4)
    } else {
        lower
    }
}

/// Which POSIX shell a configured shell command line starts, if any.
pub open spec fn posix_shell_of(shell: Seq<char>) -> Option<PosixShellKind> {
    let trimmed = trim(shell);
    let program = shell_program(trimmed);
    let base = trim(after_last_separator(program));
    if trimmed.len() == 0 || program.len() == 0 || base.len() == 0 {
        None
    } else {
        let stem = shell_stem(program);
        if stem == "zsh"@ {
            Some(PosixShellKind::Zsh)
        } else if stem == "bash"@ {
            Some(PosixShellKind::Bash)
        } else if stem == "sh"@ {
            Some(PosixShellKind::Sh)
        } else {
            None
        }
    }
}

fn after_last_separator_chars(v: &Vec<char>) -> (res: Vec<char>)
    ensures
        res@ == after_last_separator(v@),
{
    let mut start: usize = 0;
    let mut i: usize = 0;
    while i < v.len()
        invariant
            start <= i <= v@.len(),
            after_last_separator(v@.take(i as int)) == v@.subrange(start as int, i as int),
        decreases v@.len() - i,
    {
        proof {
            assert(v@.take(i + 1).drop_last() =~= v@.take(i as int));
        }
        if v[i] == '/' || v[i] == '\\' {
            start = i + 1;
            proof {
                assert(v@.subrange(start as int, i + 1) =~= Seq::<char>::empty());
            }
        } else {
            proof {
                assert(v@.subrange(start as int, i + 1) =~= v@.subrange(start as int, i as int).push(
                    v@[i as int],
                ));
            }
        }
        i = i + 1;
    }
    proof {
        assert(v@.take(v@.len() as int) =~= v@);
    }
    copy_range(v, start, v.len())
}

proof fn lemma_first_token_take(s: Seq<char>, i: int)
    requires
        0 <= i <= s.len(),
        forall|j: int| 0 <= j < i ==> !is_whitespace_char(#[trigger] s[j]),
        i == s.len() || is_whitespace_char(s[i]),
    ensures
        first_token(s) == s.take(i),
    decreases i,
{
    if i == 0 {
        assert(s.take(0) =~= Seq::<char>::empty());
    } else {
        lemma_first_token_take(s.drop_first(), i - 1);
        assert(seq![s.first()] + s.drop_first().take(i - 1) =~= s.take(i));
    }
}

fn first_token_chars(v: &Vec<char>) -> (res: Vec<char>)
    ensures
        res@ == first_token(v@),
{
    let mut i: usize = 0;
    while i < v.len() && !is_whitespace(v[i])
        invariant
            i <= v@.len(),
            forall|j: int| 0 <= j < i ==> !is_whitespace_char(#[trigger] v@[j]),
        decreases v@.len() - i,
    {
        i = i + 1;
    }
    proof {
        lemma_first_token_take(v@, i as int);
    }
    copy_range(v, 0, i)
}

fn shell_program_chars(trimmed: &Vec<char>) -> (res: Vec<char>)
    ensures
        res@ == shell_program(trimmed@),
{
    let ghost t = trimmed@;
    let raw = if trimmed.len() > 0 && is_in_class(trimmed[0], CharClass::Quote) {
        let quote = trimmed[0];
        proof {
            assert(t.skip(1) =~= t.drop_first());
        }
        match find_char(trimmed, 1, quote) {
            Some(end) => {
                let inner = copy_range(trimmed, 1, end);
                let r = trim_chars(&inner, CharClass::Whitespace);
                proof {
                    assert(inner@ =~= t.drop_first().take(end - 1));
                    assert(first_index_of(t.drop_first(), t.first()) == Some((end - 1) as int));
                }
                r
            },
            None => trim_chars(&trim_chars(trimmed, CharClass::Quote), CharClass::Whitespace),
        }
    } else {
        let token = first_token_chars(trimmed);
        trim_chars(&trim_chars(&token, CharClass::Quote), CharClass::Whitespace)
    };
    proof {
        let expected = if t.len() > 0 && is_quote_char(t.first()) {
            let rest = t.drop_first();
            match first_index_of(rest, t.first()) {
                Some(end) => trim(rest.take(end)),
                None => trim(trim_class(t, CharClass::Quote)),
            }
        } else {
            trim(trim_class(first_token(t), CharClass::Quote))
        };
        assert(raw@ == expected);
    }
    trim_chars(&trim_chars(&trim_chars(&raw, CharClass::Whitespace), CharClass::Quote), CharClass::Whitespace)
}

/// Which POSIX shell (zsh, bash or sh) a configured shell command line
/// starts, judged by the program's file name; `None` for anything else.
pub fn classify_posix_shell(shell: &str) -> (res: Option<PosixShellKind>)
    ensures
        res == posix_shell_of(shell@),
{
    let trimmed = trim_chars(&chars_of(shell), CharClass::Whitespace);
    if trimmed.len() == 0 {
        return None;
    }
    let program = shell_program_chars(&trimmed);
    if program.len() == 0 {
        return None;
    }
    let base = trim_chars(&after_last_separator_chars(&program), CharClass::Whitespace);
    if base.len() == 0 {
        return None;
    }
    let lower = to_ascii_lower_chars(&base);
    proof {
        reveal_strlit(".exe");
    }
    let stem = if chars_end_with(&lower, &chars_of(".exe")) {
        copy_range(&lower, 0, lower.len() - 4)
    } else {
        lower
    };
    proof {
        reveal_strlit(".exe");
        assert(stem@ == shell_stem(program@));
    }
    if chars_equal(&stem, &chars_of("zsh")) {
        Some(PosixShellKind::Zsh)
    } else if chars_equal(&stem, &chars_of("bash")) {
        Some(PosixShellKind::Bash)
    } else if chars_equal(&stem, &chars_of("sh")) {
        Some(PosixShellKind::Sh)
    } else {
        None
    }
}

// ---------------------------------------------------------------------------
// Classification ignores letter case
// ---------------------------------------------------------------------------
proof fn lemma_lower_keeps_class(c: char, k: CharClass)
    ensures
        in_class(ascii_lower_char(c), k) == in_class(c, k),
        is_path_separator(ascii_lower_char(c)) == is_path_separator(c),
        is_quote_char(ascii_lower_char(c)) == is_quote_char(c),
        ascii_lower_char(ascii_lower_char(c)) == ascii_lower_char(c),
{
    if 'A' <= c && c <= 'Z' {
        let l = ascii_lower_char(c);
        assert(l as u32 == c as u32 + 32);
        assert('a' <= l && l <= 'z');
    }
}

proof fn lemma_lower_ends(s: Seq<char>)
    ensures
        ascii_lower(s).len() == s.len(),
        s.len() > 0 ==> ascii_lower(s).first() == ascii_lower_char(s.first()),
        s.len() > 0 ==> ascii_lower(s).last() == ascii_lower_char(s.last()),
        s.len() > 0 ==> ascii_lower(s).drop_first() == ascii_lower(s.drop_first()),
        s.len() > 0 ==> ascii_lower(s).drop_last() == ascii_lower(s.drop_last()),
{
    if s.len() > 0 {
        assert(ascii_lower(s).drop_first() =~= ascii_lower(s.drop_first()));
        assert(ascii_lower(s).drop_last() =~= ascii_lower(s.drop_last()));
    }
}

proof fn lemma_lower_trim_start(s: Seq<char>, k: CharClass)
    ensures
        trim_start_class(ascii_lower(s), k) == ascii_lower(trim_start_class(s, k)),
    decreases s.len(),
{
    lemma_lower_ends(s);
    if s.len() > 0 {
        lemma_lower_keeps_class(s.first(), k);
        lemma_lower_trim_start(s.drop_first(), k);
    }
}

proof fn lemma_lower_trim_end(s: Seq<char>, k: CharClass)
    ensures
        trim_end_class(ascii_lower(s), k) == ascii_lower(trim_end_class(s, k)),
    decreases s.len(),
{
    lemma_lower_ends(s);
    if s.len() > 0 {
        lemma_lower_keeps_class(s.last(), k);
        lemma_lower_trim_end(s.drop_last(), k);
    }
}

proof fn lemma_lower_trim_class(s: Seq<char>, k: CharClass)
    ensures
        trim_class(ascii_lower(s), k) == ascii_lower(trim_class(s, k)),
{
    lemma_lower_trim_start(s, k);
    lemma_lower_trim_end(trim_start_class(s, k), k);
}

proof fn lemma_lower_first_token(s: Seq<char>)
    ensures
        first_token(ascii_lower(s)) == ascii_lower(first_token(s)),
    decreases s.len(),
{
    lemma_lower_ends(s);
    if s.len() == 0 {
        assert(ascii_lower(first_token(s)) =~= Seq::<char>::empty());
    } else {
        lemma_lower_keeps_class(s.first(), CharClass::Whitespace);
        if is_whitespace_char(s.first()) {
            assert(ascii_lower(first_token(s)) =~= Seq::<char>::empty());
        } else {
            lemma_lower_first_token(s.drop_first());
            assert(ascii_lower(seq![s.first()] + first_token(s.drop_first())) =~= seq![
                ascii_lower_char(s.first()),
            ] + ascii_lower(first_token(s.drop_first())));
        }
    }
}

proof fn lemma_lower_after_last_separator(s: Seq<char>)
    ensures
        after_last_separator(ascii_lower(s)) == ascii_lower(after_last_separator(s)),
    decreases s.len(),
{
    lemma_lower_ends(s);
    if s.len() > 0 {
        lemma_lower_keeps_class(s.last(), CharClass::Whitespace);
        lemma_lower_after_last_separator(s.drop_last());
        if is_path_separator(s.last()) {
            assert(ascii_lower(Seq::<char>::empty()) =~= Seq::<char>::empty());
        } else {
            assert(ascii_lower(after_last_separator(s.drop_last()).push(s.last())) =~= ascii_lower(
                after_last_separator(s.drop_last()),
            ).push(ascii_lower_char(s.last())));
        }
    } else {
        assert(ascii_lower(s) =~= s);
    }
}

proof fn lemma_lower_first_index_of(s: Seq<char>, q: char)
    requires
        is_quote_char(q),
    ensures
        first_index_of(ascii_lower(s), q) == first_index_of(s, q),
    decreases s.len(),
{
    lemma_lower_ends(s);
    if s.len() > 0 {
        lemma_lower_keeps_class(s.first(), CharClass::Quote);
        lemma_lower_first_index_of(s.drop_first(), q);
        if 'A' <= s.first() && s.first() <= 'Z' {
            assert(ascii_lower_char(s.first()) as u32 == s.first() as u32 + 32);
        }
    }
}

proof fn lemma_lower_trim(s: Seq<char>)
    ensures
        trim(ascii_lower(s)) == ascii_lower(trim(s)),
{
    lemma_lower_trim_class(s, CharClass::Whitespace);
}

proof fn lemma_lower_shell_program(t: Seq<char>)
    ensures
        shell_program(ascii_lower(t)) == ascii_lower(shell_program(t)),
{
    let lt = ascii_lower(t);
    lemma_lower_ends(t);
    let raw = if t.len() > 0 && is_quote_char(t.first()) {
        let rest = t.drop_first();
        match first_index_of(rest, t.first()) {
            Some(end) => trim(rest.take(end)),
            None => trim(trim_class(t, CharClass::Quote)),
        }
    } else {
        trim(trim_class(first_token(t), CharClass::Quote))
    };
    let lraw = if lt.len() > 0 && is_quote_char(lt.first()) {
        let rest = lt.drop_first();
        match first_index_of(rest, lt.first()) {
            Some(end) => trim(rest.take(end)),
            None => trim(trim_class(lt, CharClass::Quote)),
        }
    } else {
        trim(trim_class(first_token(lt), CharClass::Quote))
    };
    if t.len() > 0 {
        lemma_lower_keeps_class(t.first(), CharClass::Quote);
    }
    if t.len() > 0 && is_quote_char(t.first()) {
        let rest = t.drop_first();
        let q = t.first();
        assert(ascii_lower_char(q) == q);
        lemma_lower_first_index_of(rest, q);
        match first_index_of(rest, q) {
            Some(end) => {
                crate::text::lemma_first_index_of_bounds(rest, q);
                assert(ascii_lower(rest).take(end) =~= ascii_lower(rest.take(end)));
                lemma_lower_trim(rest.take(end));
            },
            None => {
                lemma_lower_trim_class(t, CharClass::Quote);
                lemma_lower_trim(trim_class(t, CharClass::Quote));
            },
        }
    } else {
        lemma_lower_first_token(t);
        lemma_lower_trim_class(first_token(t), CharClass::Quote);
        lemma_lower_trim(trim_class(first_token(t), CharClass::Quote));
    }
    assert(lraw == ascii_lower(raw));
    lemma_lower_trim(raw);
    lemma_lower_trim_class(trim(raw), CharClass::Quote);
    lemma_lower_trim(trim_class(trim(raw), CharClass::Quote));
}

/// Which POSIX shell a command line starts does not depend on letter case:
/// `ZSH`, `/bin/Bash` and `'SH'` are classified as `zsh`, `/bin/bash` and
/// `'sh'` are.
pub proof fn lemma_classification_ignores_case(shell: Seq<char>)
    ensures
        posix_shell_of(ascii_lower(shell)) == posix_shell_of(shell),
{
    lemma_lower_trim(shell);
    let trimmed = trim(shell);
    lemma_lower_shell_program(trimmed);
    let program = shell_program(trimmed);
    lemma_lower_after_last_separator(program);
    lemma_lower_trim(after_last_separator(program));
    let base = trim(after_last_separator(program));
    lemma_lower_ends(trimmed);
    lemma_lower_ends(program);
    lemma_lower_ends(base);
    assert(ascii_lower(ascii_lower(base)) =~= ascii_lower(base)) by {
        assert forall|i: int| 0 <= i < base.len() implies ascii_lower(ascii_lower(base))[i]
            == ascii_lower(base)[i] by {
            lemma_lower_keeps_class(base[i], CharClass::Whitespace);
        }
    }
    assert(shell_stem(ascii_lower(program)) == shell_stem(program));
}

// ---------------------------------------------------------------------------
// Generated scripts
// ---------------------------------------------------------------------------
pub const BASH_HOOK_HEAD: &'static str = "# __TWM POSIX shell hook (bash/sh) - generated, do not edit.\n# Emits cwdChanged/commandFailed JSONL for session diagnostics (best-effort).\n# Wiring: sourced via PROMPT_COMMAND chaining snippet and ENV (see pty_host).\n# (zsh uses precmd_functions via ZDOTDIR shim instead of PROMPT_COMMAND).\n# NOTE: command text uses `history 1` (not `fc -ln -1`) as the primary source\n# because on macOS bash 3.2 `fc` evaluated inside PROMPT_COMMAND returns the\n# PREVIOUS command (proven: failures misattributed one command late), while\n# `history 1` returns the current one (proven correct incl. exit codes).\n# `fc -ln -1` is kept only as a fallback when `history 1` yields empty\n# (shells without the history builtin).\ncase $- in\n*i*) ;;\n*) return 0 2>/dev/null || exit 0 ;;\nesac\nif [ \"${__twm_sourced:-0}\" = \"1\" ]; then\n    return 0 2>/dev/null || exit 0\nfi || true\n__twm_sourced=1 || true\n__twm_terminal_id='";

pub const BASH_HOOK_TAIL: &'static str = "'\nif [ -n \"${__TWM_EVENTS_PATH:-}\" ]; then\n    __twm_events=\"$__TWM_EVENTS_PATH\" || true\nelse\n    __twm_events=\"$__twm_events_default\" || true\nfi || true\n__twm_last_cwd=\"\" || true\nif [ -z \"${__twm_env_sourced:-}\" ]; then\n    __twm_env_sourced=1 || true\n    if [ -n \"${__TWM_ORIG_ENV:-}\" ] && [ -f \"$__TWM_ORIG_ENV\" ]; then\n        . \"$__TWM_ORIG_ENV\" >/dev/null 2>&1 || true\n    fi || true\nfi || true\n__twm_json_escape() {\n    printf '%s' \"$1\" 2>/dev/null | sed -e 's/\\\\/\\\\\\\\/g' -e 's/\"/\\\\\"/g' 2>/dev/null | tr '\\n' ' ' 2>/dev/null | tr '\\t' ' ' 2>/dev/null || true\n}\n__twm_on_prompt() {\n    __twm_ec=\"$1\" || true\n    __twm_cwd=\"$(pwd 2>/dev/null || printf '%s' \"$PWD\" 2>/dev/null || true)\" || true\n    if [ \"$__twm_cwd\" != \"$__twm_last_cwd\" ]; then\n        __twm_ts=\"$(date -u +%Y-%m-%dT%H:%M:%SZ 2>/dev/null || true)\" || true\n        __twm_cwd_esc=\"$(__twm_json_escape \"$__twm_cwd\" 2>/dev/null || true)\" || true\n        __twm_tid_esc=\"$(__twm_json_escape \"$__twm_terminal_id\" 2>/dev/null || true)\" || true\n        __twm_sid_esc=\"$(__twm_json_escape \"$__twm_session_id\" 2>/dev/null || true)\" || true\n        printf '{\"eventId\":null,\"type\":\"cwdChanged\",\"terminalId\":\"%s\",\"sessionId\":\"%s\",\"timestamp\":\"%s\",\"cwd\":\"%s\"}\\n' \"$__twm_tid_esc\" \"$__twm_sid_esc\" \"$__twm_ts\" \"$__twm_cwd_esc\" >> \"$__twm_events\" 2>/dev/null || true\n        __twm_last_cwd=\"$__twm_cwd\" || true\n    fi || true\n    if [ \"$__twm_ec\" -ne 0 ] 2>/dev/null; then\n        __twm_cmd=\"$(history 1 2>/dev/null | sed 's/^[[:space:]]*[0-9][0-9]*[[:space:]]*//' 2>/dev/null || true)\" || true\n        if [ -z \"$__twm_cmd\" ]; then\n            __twm_cmd=\"$(fc -ln -1 2>/dev/null | sed 's/^[[:space:]]*//' 2>/dev/null || true)\" || true\n        fi || true\n        __twm_cmd_esc=\"$(__twm_json_escape \"$__twm_cmd\" 2>/dev/null || true)\" || true\n        __twm_ts=\"$(date -u +%Y-%m-%dT%H:%M:%SZ 2>/dev/null || true)\" || true\n        __twm_cwd_esc=\"$(__twm_json_escape \"$__twm_cwd\" 2>/dev/null || true)\" || true\n        __twm_tid_esc=\"$(__twm_json_escape \"$__twm_terminal_id\" 2>/dev/null || true)\" || true\n        __twm_sid_esc=\"$(__twm_json_escape \"$__twm_session_id\" 2>/dev/null || true)\" || true\n        printf '{\"eventId\":null,\"type\":\"commandFailed\",\"terminalId\":\"%s\",\"sessionId\":\"%s\",\"timestamp\":\"%s\",\"commandText\":\"%s\",\"exitCode\":%s,\"errorMessage\":null,\"cwd\":\"%s\"}\\n' \"$__twm_tid_esc\" \"$__twm_sid_esc\" \"$__twm_ts\" \"$__twm_cmd_esc\" \"$__twm_ec\" \"$__twm_cwd_esc\" >> \"$__twm_events\" 2>/dev/null || true\n    fi || true\n    return \"$__twm_ec\"\n}";

pub const ZSH_HOOK_HEAD: &'static str = "# __TWM POSIX zsh hook - generated, do not edit.\n# Emits cwdChanged/commandFailed JSONL via precmd (best-effort).\n# (bash/sh use PROMPT_COMMAND chaining + ENV instead).\n# Command text via `fc -ln -1` (VERIFIED correct in zsh precmd via live pty test).\ncase $- in\n*i*) ;;\n*) return 0 2>/dev/null || exit 0 ;;\nesac\nif [ \"${__twm_sourced:-0}\" = \"1\" ]; then\n    return 0 2>/dev/null || exit 0\nfi || true\n__twm_sourced=1 || true\n__twm_terminal_id='";

pub const ZSH_HOOK_TAIL: &'static str = "'\nif [ -n \"${__TWM_EVENTS_PATH:-}\" ]; then\n    __twm_events=\"$__TWM_EVENTS_PATH\" || true\nelse\n    __twm_events=\"$__twm_events_default\" || true\nfi || true\n__twm_last_cwd=\"\" || true\n__twm_json_escape() {\n    printf '%s' \"$1\" 2>/dev/null | sed -e 's/\\\\/\\\\\\\\/g' -e 's/\"/\\\\\"/g' 2>/dev/null | tr '\\n' ' ' 2>/dev/null | tr '\\t' ' ' 2>/dev/null || true\n}\n__twm_precmd() {\n    __twm_ec=$? || true\n    __twm_cwd=\"$(pwd 2>/dev/null || printf '%s' \"$PWD\" 2>/dev/null || true)\" || true\n    if [ \"$__twm_cwd\" != \"$__twm_last_cwd\" ]; then\n        __twm_ts=\"$(date -u +%Y-%m-%dT%H:%M:%SZ 2>/dev/null || true)\" || true\n        __twm_cwd_esc=\"$(__twm_json_escape \"$__twm_cwd\" 2>/dev/null || true)\" || true\n        __twm_tid_esc=\"$(__twm_json_escape \"$__twm_terminal_id\" 2>/dev/null || true)\" || true\n        __twm_sid_esc=\"$(__twm_json_escape \"$__twm_session_id\" 2>/dev/null || true)\" || true\n        printf '{\"eventId\":null,\"type\":\"cwdChanged\",\"terminalId\":\"%s\",\"sessionId\":\"%s\",\"timestamp\":\"%s\",\"cwd\":\"%s\"}\\n' \"$__twm_tid_esc\" \"$__twm_sid_esc\" \"$__twm_ts\" \"$__twm_cwd_esc\" >> \"$__twm_events\" 2>/dev/null || true\n        __twm_last_cwd=\"$__twm_cwd\" || true\n    fi || true\n    if [ \"$__twm_ec\" -ne 0 ] 2>/dev/null; then\n        __twm_cmd=\"$(fc -ln -1 2>/dev/null | sed 's/^[[:space:]]*//' 2>/dev/null || true)\" || true\n        __twm_cmd_esc=\"$(__twm_json_escape \"$__twm_cmd\" 2>/dev/null || true)\" || true\n        __twm_ts=\"$(date -u +%Y-%m-%dT%H:%M:%SZ 2>/dev/null || true)\" || true\n        __twm_cwd_esc=\"$(__twm_json_escape \"$__twm_cwd\" 2>/dev/null || true)\" || true\n        __twm_tid_esc=\"$(__twm_json_escape \"$__twm_terminal_id\" 2>/dev/null || true)\" || true\n        __twm_sid_esc=\"$(__twm_json_escape \"$__twm_session_id\" 2>/dev/null || true)\" || true\n        printf '{\"eventId\":null,\"type\":\"commandFailed\",\"terminalId\":\"%s\",\"sessionId\":\"%s\",\"timestamp\":\"%s\",\"commandText\":\"%s\",\"exitCode\":%s,\"errorMessage\":null,\"cwd\":\"%s\"}\\n' \"$__twm_tid_esc\" \"$__twm_sid_esc\" \"$__twm_ts\" \"$__twm_cmd_esc\" \"$__twm_ec\" \"$__twm_cwd_esc\" >> \"$__twm_events\" 2>/dev/null || true\n    fi || true\n    return \"$__twm_ec\" 2>/dev/null || true\n}\n# Append to precmd_functions without overwriting existing hooks.\nif [ -z \"${precmd_functions[(r)__twm_precmd]:-}\" ]; then\n    precmd_functions+=(__twm_precmd) || true\nfi || true";

pub const POSIX_HOOK_AFTER_TERMINAL_ID: &'static str = "'\n__twm_session_id='";

pub const POSIX_HOOK_AFTER_SESSION_ID: &'static str = "'\n__twm_events_default='";

pub const POWER_SHELL_BOOTSTRAP_HEAD: &'static str = "$script:__twmTerminalId = '";

pub const POWER_SHELL_BOOTSTRAP_AFTER_TERMINAL_ID: &'static str = "'\n$script:__twmSessionId = '";

pub const POWER_SHELL_BOOTSTRAP_AFTER_SESSION_ID: &'static str = "'\n$script:__twmEventsPath = '";

pub const POWER_SHELL_BOOTSTRAP_TAIL: &'static str = "'\n$script:__twmLastHistoryId = $null\n$script:__twmLastReportedCwd = $null\n\ntry {\n\t$history = Get-History -Count 1 -ErrorAction Stop\n\tif ($history) {\n\t\t$script:__twmLastHistoryId = $history.Id\n\t}\n} catch {\n\t$script:__twmLastHistoryId = $null\n}\n\nfunction global:prompt {\n\t$lastSuccess = $?\n\t$nativeExitCode = if ($null -ne $global:LASTEXITCODE) { [int]$global:LASTEXITCODE } else { $null }\n\t$topError = if ($error.Count -gt 0 -and $null -ne $error[0]) { ($error[0] | Out-String).Trim() } else { $null }\n\t$latestHistory = $null\n\n\ttry {\n\t\t$latestHistory = Get-History -Count 1 -ErrorAction Stop\n\t} catch {\n\t\t$latestHistory = $null\n\t}\n\n\t$currentCwd = (Get-Location).Path\n\tif ($currentCwd -ne $script:__twmLastReportedCwd) {\n\t\t$script:__twmLastReportedCwd = $currentCwd\n\t\t$cwdEvent = @{\n\t\t\teventId = [guid]::NewGuid().ToString()\n\t\t\ttype = 'cwdChanged'\n\t\t\tterminalId = $script:__twmTerminalId\n\t\t\tsessionId = $script:__twmSessionId\n\t\t\ttimestamp = [DateTimeOffset]::UtcNow.ToString('o')\n\t\t\tcwd = $currentCwd\n\t\t}\n\n\t\t$cwdJson = $cwdEvent | ConvertTo-Json -Compress -Depth 5\n\t\t$encoding = [System.Text.UTF8Encoding]::new($false)\n\t\t[System.IO.File]::AppendAllText($script:__twmEventsPath, $cwdJson + [Environment]::NewLine, $encoding)\n\t}\n\n\tif ($latestHistory -and $latestHistory.Id -ne $script:__twmLastHistoryId) {\n\t\t$script:__twmLastHistoryId = $latestHistory.Id\n\t\tif ((-not $lastSuccess) -or ($null -ne $nativeExitCode -and $nativeExitCode -ne 0)) {\n\t\t\t$event = @{\n\t\t\t\teventId = [guid]::NewGuid().ToString()\n\t\t\t\ttype = 'commandFailed'\n\t\t\t\tterminalId = $script:__twmTerminalId\n\t\t\t\tsessionId = $script:__twmSessionId\n\t\t\t\ttimestamp = [DateTimeOffset]::UtcNow.ToString('o')\n\t\t\t\tcommandText = $latestHistory.CommandLine\n\t\t\t\texitCode = if ($null -ne $nativeExitCode) { $nativeExitCode } else { $null }\n\t\t\t\terrorMessage = $topError\n\t\t\t\tcwd = (Get-Location).Path\n\t\t\t}\n\n\t\t\t$json = $event | ConvertTo-Json -Compress -Depth 5\n\t\t\t$encoding = [System.Text.UTF8Encoding]::new($false)\n\t\t\t[System.IO.File]::AppendAllText($script:__twmEventsPath, $json + [Environment]::NewLine, $encoding)\n\t\t}\n\t}\n\n\t'PS ' + (Get-Location) + '> '\n}\n\nSet-Location -LiteralPath (Get-Location).Path";

pub const ZSHRC_SHIM: &'static str = "# __TWM zshrc shim - generated, do not edit.\n# Sources the user's original .zshrc first, then the hook.\nif [ -n \"${__twm_zdotdir_shimmed:-}\" ]; then\n    return 0 2>/dev/null || exit 0\nfi || true\n__twm_zdotdir_shimmed=1 || true\nif [ -n \"${__TWM_ORIG_ZDOTDIR:-}\" ] && [ \"${__TWM_ORIG_ZDOTDIR:-}\" != \"$ZDOTDIR\" ]; then\n    if [ -f \"$__TWM_ORIG_ZDOTDIR/.zshrc\" ]; then\n        . \"$__TWM_ORIG_ZDOTDIR/.zshrc\" >/dev/null 2>&1 || true\n    fi || true\nelif [ -n \"${HOME:-}\" ] && [ -f \"$HOME/.zshrc\" ]; then\n    . \"$HOME/.zshrc\" >/dev/null 2>&1 || true\nfi || true\nif [ -n \"${__TWM_POSIX_HOOK:-}\" ] && [ -f \"$__TWM_POSIX_HOOK\" ]; then\n    . \"$__TWM_POSIX_HOOK\" >/dev/null 2>&1 || true\nfi || true";

pub const ZSHENV_SHIM: &'static str = "# __TWM zshenv shim - generated, do not edit.\n# Preserves the user's original .zshenv.\nif [ -n \"${__twm_zshenv_shimmed:-}\" ]; then\n    return 0 2>/dev/null || exit 0\nfi || true\n__twm_zshenv_shimmed=1 || true\nif [ -n \"${__TWM_ORIG_ZDOTDIR:-}\" ] && [ \"${__TWM_ORIG_ZDOTDIR:-}\" != \"$ZDOTDIR\" ]; then\n    if [ -f \"$__TWM_ORIG_ZDOTDIR/.zshenv\" ]; then\n        . \"$__TWM_ORIG_ZDOTDIR/.zshenv\" >/dev/null 2>&1 || true\n    fi || true\nelif [ -n \"${HOME:-}\" ] && [ -f \"$HOME/.zshenv\" ]; then\n    . \"$HOME/.zshenv\" >/dev/null 2>&1 || true\nfi || true";

/// `a`, `x`, `b`, `y`, `c`, `z`, `d` one after the other.
fn fill_template(a: &str, x: &str, b: &str, y: &str, c: &str, z: &str, d: &str) -> (res: String)
    ensures
        res@ == a@ + x@ + b@ + y@ + c@ + z@ + d@,
{
    let mut res = a.to_owned();
    res.append(x);
    res.append(b);
    res.append(y);
    res.append(c);
    res.append(z);
    res.append(d);
    res
}

/// The text of the bash/sh prompt hook for one session.
pub open spec fn bash_hook_text(terminal_id: Seq<char>, session_id: Seq<char>, events_path: Seq<
    char,
>) -> Seq<char> {
    BASH_HOOK_HEAD@ + posix_single_quote_escaped(terminal_id) + POSIX_HOOK_AFTER_TERMINAL_ID@
        + posix_single_quote_escaped(session_id) + POSIX_HOOK_AFTER_SESSION_ID@
        + posix_single_quote_escaped(events_path) + BASH_HOOK_TAIL@
}

/// The text of the zsh `precmd` hook for one session.
pub open spec fn zsh_hook_text(terminal_id: Seq<char>, session_id: Seq<char>, events_path: Seq<
    char,
>) -> Seq<char> {
    ZSH_HOOK_HEAD@ + posix_single_quote_escaped(terminal_id) + POSIX_HOOK_AFTER_TERMINAL_ID@
        + posix_single_quote_escaped(session_id) + POSIX_HOOK_AFTER_SESSION_ID@
        + posix_single_quote_escaped(events_path) + ZSH_HOOK_TAIL@
}

/// The text of the PowerShell bootstrap script for one session.
pub open spec fn power_shell_bootstrap_text(
    terminal_id: Seq<char>,
    session_id: Seq<char>,
    events_path: Seq<char>,
) -> Seq<char> {
    POWER_SHELL_BOOTSTRAP_HEAD@ + power_shell_literal_escaped(terminal_id)
        + POWER_SHELL_BOOTSTRAP_AFTER_TERMINAL_ID@ + power_shell_literal_escaped(session_id)
        + POWER_SHELL_BOOTSTRAP_AFTER_SESSION_ID@ + power_shell_literal_escaped(events_path)
        + POWER_SHELL_BOOTSTRAP_TAIL@
}

/// The PowerShell prompt override that appends `cwdChanged` and
/// `commandFailed` JSON events to `events_path`.
pub fn create_power_shell_bootstrap_script(terminal_id: &str, session_id: &str, events_path: &str) -> (res: String)
    ensures
        res@ == power_shell_bootstrap_text(terminal_id@, session_id@, events_path@),
{
    let terminal_id = escape_power_shell_literal(terminal_id);
    let session_id = escape_power_shell_literal(session_id);
    let events_path = escape_power_shell_literal(events_path);
    fill_template(
        POWER_SHELL_BOOTSTRAP_HEAD,
        terminal_id.as_str(),
        POWER_SHELL_BOOTSTRAP_AFTER_TERMINAL_ID,
        session_id.as_str(),
        POWER_SHELL_BOOTSTRAP_AFTER_SESSION_ID,
        events_path.as_str(),
        POWER_SHELL_BOOTSTRAP_TAIL,
    )
}

/// The bash/sh hook, chained through `PROMPT_COMMAND` and `ENV`.
pub fn create_posix_bash_sh_hook_script(terminal_id: &str, session_id: &str, events_path: &str) -> (res: String)
    ensures
        res@ == bash_hook_text(terminal_id@, session_id@, events_path@),
{
    let terminal_id_escaped = escape_posix_single_quote(terminal_id);
    let session_id_escaped = escape_posix_single_quote(session_id);
    let events_path_escaped = escape_posix_single_quote(events_path);
    fill_template(
        BASH_HOOK_HEAD,
        terminal_id_escaped.as_str(),
        POSIX_HOOK_AFTER_TERMINAL_ID,
        session_id_escaped.as_str(),
        POSIX_HOOK_AFTER_SESSION_ID,
        events_path_escaped.as_str(),
        BASH_HOOK_TAIL,
    )
}

/// The zsh hook, appended to `precmd_functions`.
pub fn create_posix_zsh_hook_script(terminal_id: &str, session_id: &str, events_path: &str) -> (res: String)
    ensures
        res@ == zsh_hook_text(terminal_id@, session_id@, events_path@),
{
    let terminal_id_escaped = escape_posix_single_quote(terminal_id);
    let session_id_escaped = escape_posix_single_quote(session_id);
    let events_path_escaped = escape_posix_single_quote(events_path);
    fill_template(
        ZSH_HOOK_HEAD,
        terminal_id_escaped.as_str(),
        POSIX_HOOK_AFTER_TERMINAL_ID,
        session_id_escaped.as_str(),
        POSIX_HOOK_AFTER_SESSION_ID,
        events_path_escaped.as_str(),
        ZSH_HOOK_TAIL,
    )
}

/// The `.zshrc` placed in the shim `ZDOTDIR`: the user's own `.zshrc` first, then the hook.
pub fn create_zshrc_shim() -> (res: String)
    ensures
        res@ == ZSHRC_SHIM@,
{
    ZSHRC_SHIM.to_owned()
}

/// The `.zshenv` placed in the shim `ZDOTDIR`: the user's own `.zshenv`.
pub fn create_zshenv_shim() -> (res: String)
    ensures
        res@ == ZSHENV_SHIM@,
{
    ZSHENV_SHIM.to_owned()
}


// ---------------------------------------------------------------------------
// Application paths and panic details
// ---------------------------------------------------------------------------
/// A single relative path component: not empty, not `.` or `..`, no
/// separator and no drive colon.
pub open spec fn is_plain_file_name(name: Seq<char>) -> bool {
    &&& name.len() > 0
    &&& !(name.len() == 1 && name[0] == '.')
    &&& !(name.len() == 2 && name[0] == '.' && name[1] == '.')
    &&& forall|i: int| 0 <= i < name.len() ==> !is_path_separator(#[trigger] name[i]) && name[i] != ':'
}

/// A path that may start with a Windows verbatim prefix (`\\?\`).
pub open spec fn looks_verbatim(path: Seq<char>) -> bool {
    path.len() >= 3 && is_path_separator(path[0]) && is_path_separator(path[1]) && path[2] == '?'
}

/// A bare drive such as `C:`, to which Windows joins a name without a separator.
pub open spec fn is_bare_drive(path: Seq<char>) -> bool {
    &&& path.len() == 2
    &&& ('a' <= path[0] <= 'z' || 'A' <= path[0] <= 'Z')
    &&& path[1] == ':'
}

/// `joined` is `base` with the plain name `name` appended as a path
/// component (see `join_path`): the name alone onto an empty base, straight
/// after a trailing `/`, after one separator where the base ends in
/// anything else. After a trailing `\` or onto a bare drive, whether a
/// separator comes between depends on the platform.
pub open spec fn is_joined_path(joined: Seq<char>, base: Seq<char>, name: Seq<char>) -> bool {
    if base.len() == 0 {
        joined == name
    } else if base.last() == '/' {
        joined == base + name
    } else if base.last() == '\\' || is_bare_drive(base) {
        joined == base + name || exists|sep: char|
            is_path_separator(sep) && joined == base + seq![sep] + name
    } else {
        exists|sep: char| is_path_separator(sep) && joined == base + seq![sep] + name
    }
}

/// `std::path::Path::join` of a file name onto a directory, rendered with
/// `display()`. Trusted: for a plain relative file name and a base without
/// a verbatim prefix, `PathBuf::push` appends the name, with the platform
/// separator before it exactly when the base is not empty and does not end
/// in a separator (on Windows, `\` also counts as one, and a bare drive
/// takes none). Which separator the platform writes is left open; for a
/// verbatim base nothing is said, since `push` rebuilds it from its
/// components.
#[verifier::external_body]
pub(crate) fn join_path(base: &str, name: &str) -> (res: String)
    ensures
        is_plain_file_name(name@) && !looks_verbatim(base@) ==> is_joined_path(res@, base@, name@),
{
    std::path::Path::new(base).join(name).display().to_string()
}

/// Joining a plain name onto a base that does not look verbatim gives a
/// path that does not either, when the name does not start with `?` or the
/// base keeps the first three characters.
pub proof fn lemma_join_keeps_non_verbatim(joined: Seq<char>, base: Seq<char>, name: Seq<char>)
    requires
        is_joined_path(joined, base, name),
        is_plain_file_name(name),
        !looks_verbatim(base),
        base.len() >= 3 || name[0] != '?',
    ensures
        !looks_verbatim(joined),
        joined.len() >= base.len() + name.len(),
{
    assert(!is_path_separator(name[0]));
    if base.len() == 0 {
        assert(joined == name);
    } else if joined == base + name {
        assert(joined[base.len() as int] == name[0]);
        if base.len() >= 3 {
            assert(joined[0] == base[0] && joined[1] == base[1] && joined[2] == base[2]);
        }
    } else {
        let sep = choose|sep: char| is_path_separator(sep) && joined == base + seq![sep] + name;
        assert(joined[base.len() as int + 1] == name[0]);
        assert(joined[base.len() as int] == sep);
        if base.len() >= 3 {
            assert(joined[0] == base[0] && joined[1] == base[1] && joined[2] == base[2]);
        }
    }
}

/// The files of one session's diagnostics.
#[derive(Debug, Clone)]
pub struct SessionDiagnosticsPaths {
    pub events_path: String,
    pub power_shell_bootstrap_path: String,
    pub posix_shell_hook_path: String,
    pub posix_zsh_dotdir_path: String,
}

/// The directory of one session's diagnostics:
/// `terminal-diagnostics/<terminal id>/<session id>` inside the app-data
/// directory. Its shape is stated where the ids are single path components
/// and the app-data directory has no verbatim prefix.
pub fn session_diagnostics_directory(app_data_dir: &str, terminal_id: &str, session_id: &str) -> (res:
    String)
    ensures
        is_plain_file_name(terminal_id@) && is_plain_file_name(session_id@) && !looks_verbatim(
            app_data_dir@,
        ) ==> exists|root: Seq<char>, per_terminal: Seq<char>|
            #[trigger] is_joined_path(root, app_data_dir@, "terminal-diagnostics"@)
                && #[trigger] is_joined_path(per_terminal, root, terminal_id@) && is_joined_path(
                res@,
                per_terminal,
                session_id@,
            ),
{
    proof {
        reveal_strlit("terminal-diagnostics");
        assert(is_plain_file_name("terminal-diagnostics"@));
    }
    let root = join_path(app_data_dir, "terminal-diagnostics");
    let per_terminal = join_path(root.as_str(), terminal_id);
    let directory = join_path(per_terminal.as_str(), session_id);
    proof {
        if is_plain_file_name(terminal_id@) && is_plain_file_name(session_id@) && !looks_verbatim(
            app_data_dir@,
        ) {
            assert("terminal-diagnostics"@[0] == 't');
            lemma_join_keeps_non_verbatim(root@, app_data_dir@, "terminal-diagnostics"@);
            lemma_join_keeps_non_verbatim(per_terminal@, root@, terminal_id@);
            assert(is_joined_path(root@, app_data_dir@, "terminal-diagnostics"@));
            assert(is_joined_path(per_terminal@, root@, terminal_id@));
            assert(is_joined_path(directory@, per_terminal@, session_id@));
        }
    }
    directory
}

/// The diagnostics files of a session inside its directory (where the
/// directory has no verbatim prefix).
pub fn session_diagnostics_paths(directory: &str) -> (res: SessionDiagnosticsPaths)
    ensures
        !looks_verbatim(directory@) ==> {
            &&& is_joined_path(res.events_path@, directory@, "events.jsonl"@)
            &&& is_joined_path(res.power_shell_bootstrap_path@, directory@, "powershell-bootstrap.ps1"@)
            &&& is_joined_path(res.posix_shell_hook_path@, directory@, "posix-shell-hook.sh"@)
            &&& is_joined_path(res.posix_zsh_dotdir_path@, directory@, "zsh-dotdir"@)
        },
{
    proof {
        reveal_strlit("events.jsonl");
        reveal_strlit("powershell-bootstrap.ps1");
        reveal_strlit("posix-shell-hook.sh");
        reveal_strlit("zsh-dotdir");
        assert(is_plain_file_name("events.jsonl"@));
        assert(is_plain_file_name("powershell-bootstrap.ps1"@));
        assert(is_plain_file_name("posix-shell-hook.sh"@));
        assert(is_plain_file_name("zsh-dotdir"@));
    }
    SessionDiagnosticsPaths {
        events_path: join_path(directory, "events.jsonl"),
        power_shell_bootstrap_path: join_path(directory, "powershell-bootstrap.ps1"),
        posix_shell_hook_path: join_path(directory, "posix-shell-hook.sh"),
        posix_zsh_dotdir_path: join_path(directory, "zsh-dotdir"),
    }
}

/// Where a crash snapshot taken at `timestamp` (written compactly, such as
/// `20240131T235959Z`) is written: `app-crash-<timestamp>.log` inside the
/// app-data directory. Its shape is stated where that file name is a single
/// path component and the directory has no verbatim prefix.
pub fn create_crash_snapshot_path(app_data_dir: &str, timestamp: &str) -> (res: String)
    ensures
        is_plain_file_name("app-crash-"@ + timestamp@ + ".log"@) && !looks_verbatim(app_data_dir@)
            ==> is_joined_path(res@, app_data_dir@, "app-crash-"@ + timestamp@ + ".log"@),
{
    let name = crate::text::join3("app-crash-", timestamp, ".log");
    join_path(app_data_dir, name.as_str())
}

/// Where the application log lives inside the app-data directory (stated
/// where the directory has no verbatim prefix).
pub fn create_app_log_path(app_data_dir: &str) -> (res: String)
    ensures
        !looks_verbatim(app_data_dir@) ==> is_joined_path(res@, app_data_dir@, APP_LOG_FILE_NAME@),
{
    proof {
        reveal_strlit("app.log");
        assert(is_plain_file_name(APP_LOG_FILE_NAME@));
    }
    join_path(app_data_dir, APP_LOG_FILE_NAME)
}

/// The detail line of the crash dialog shown after a panic.
pub fn create_panic_dialog_detail(thread_name: &str, location: Option<&str>) -> (res: String)
    ensures
        res@ == (match location {
            Some(l) => "Thread: "@ + thread_name@ + "\nLocation: "@ + l@,
            None => "Thread: "@ + thread_name@,
        }),
{
    let mut res = join2("Thread: ", thread_name);
    match location {
        Some(location) => {
            res.append("\nLocation: ");
            res.append(location);
        },
        None => {},
    }
    res
}

// ---------------------------------------------------------------------------
// Recent output
// ---------------------------------------------------------------------------
/// The regular expression for the ANSI escape sequences removed from output.
pub const ANSI_ESCAPE_PATTERN: &'static str = "\\x1B(?:[@-Z\\\\-_]|\\[[0-?]*[ -/]*[@-~])";

/// Whether the `regex` crate compiles `pattern`.
pub uninterp spec fn regex_accepts(pattern: Seq<char>) -> bool;

/// `text` with every match of `pattern` removed, leftmost first and without
/// overlap, as `Regex::replace_all` finds them.
pub uninterp spec fn regex_erased(pattern: Seq<char>, text: Seq<char>) -> Seq<char>;

/// `regex::Regex::new` followed by `Regex::replace_all` with an empty
/// replacement. Trusted: `Some` exactly when the pattern compiles, and then
/// the text with every match removed.
#[verifier::external_body]
fn erase_regex_matches(pattern: &str, text: &str) -> (res: Option<String>)
    ensures
        res is Some <==> regex_accepts(pattern@),
        res matches Some(s) ==> s@ == regex_erased(pattern@, text@),
{
    match regex::Regex::new(pattern) {
        Ok(re) => Some(re.replace_all(text, "").into_owned()),
        Err(_) => None,
    }
}

/// `text` without ANSI escape sequences: every match of
/// `ANSI_ESCAPE_PATTERN` removed (and `text` unchanged should the pattern
/// ever fail to compile).
pub open spec fn ansi_stripped(text: Seq<char>) -> Seq<char> {
    if regex_accepts(ANSI_ESCAPE_PATTERN@) {
        regex_erased(ANSI_ESCAPE_PATTERN@, text)
    } else {
        text
    }
}

/// `text` without ANSI escape sequences (see `ansi_stripped`).
pub fn strip_ansi(text: &str) -> (res: String)
    ensures
        res@ == ansi_stripped(text@),
{
    match erase_regex_matches(ANSI_ESCAPE_PATTERN, text) {
        Some(stripped) => stripped,
        None => text.to_owned(),
    }
}

/// `\r\n` and lone `\r` both turned into `\n`.
pub open spec fn normalize_newlines(s: Seq<char>) -> Seq<char>
    decreases s.len(),
{
    if s.len() == 0 {
        seq![]
    } else if s[0] == '\r' && s.len() > 1 && s[1] == '\n' {
        normalize_newlines(s.drop_first())
    } else if s[0] == '\r' {
        seq!['\n'] + normalize_newlines(s.drop_first())
    } else {
        seq![s[0]] + normalize_newlines(s.drop_first())
    }
}

/// The complete lines of `s` (each without its `\n`) and the unfinished rest.
pub open spec fn split_lines(s: Seq<char>) -> (Seq<Seq<char>>, Seq<char>)
    decreases s.len(),
{
    if s.len() == 0 {
        (seq![], seq![])
    } else {
        let (lines, rest) = split_lines(s.drop_last());
        if s.last() == '\n' {
            (lines.push(rest), seq![])
        } else {
            (lines, rest.push(s.last()))
        }
    }
}

/// The characters of each string.
pub open spec fn string_views(v: Seq<String>) -> Seq<Seq<char>> {
    v.map_values(|s: String| s@)
}

/// The newest `n` entries of `v`.
pub open spec fn keep_last<T>(v: Seq<T>, n: nat) -> Seq<T> {
    if v.len() > n {
        v.skip(v.len() - n)
    } else {
        v
    }
}

/// The buffer after a chunk of output: the finished lines appended and only
/// the newest `MAX_OUTPUT_LINES` kept, and the unfinished line held back.
pub open spec fn appended_output(
    lines: Seq<Seq<char>>,
    pending_line: Seq<char>,
    normalized_chunk: Seq<char>,
) -> (Seq<Seq<char>>, Seq<char>) {
    let (done, rest) = split_lines(pending_line + normalized_chunk);
    (keep_last(lines + done, MAX_OUTPUT_LINES as nat), rest)
}

fn normalize_newline_chars(v: &Vec<char>) -> (res: Vec<char>)
    ensures
        res@ == normalize_newlines(v@),
{
    let mut res: Vec<char> = Vec::new();
    let mut i: usize = 0;
    proof {
        assert(v@.skip(0) =~= v@);
        assert(res@ + normalize_newlines(v@.skip(0)) =~= normalize_newlines(v@));
    }
    while i < v.len()
        invariant
            i <= v@.len(),
            normalize_newlines(v@) == res@ + normalize_newlines(v@.skip(i as int)),
        decreases v@.len() - i,
    {
        let ghost rest = v@.skip(i as int);
        proof {
            assert(rest.drop_first() =~= v@.skip(i + 1));
            assert(rest[0] == v@[i as int]);
            if i + 1 < v@.len() {
                assert(rest[1] == v@[i + 1]);
            }
        }
        if v[i] == '\r' && i + 1 < v.len() && v[i + 1] == '\n' {
        } else if v[i] == '\r' {
            res.push('\n');
            proof {
                assert(res@ + normalize_newlines(v@.skip(i + 1)) =~= res@.drop_last() + (seq!['\n']
                    + normalize_newlines(rest.drop_first())));
            }
        } else {
            res.push(v[i]);
            proof {
                assert(res@ + normalize_newlines(v@.skip(i + 1)) =~= res@.drop_last() + (seq![
                    v@[i as int],
                ] + normalize_newlines(rest.drop_first())));
            }
        }
        i = i + 1;
    }
    proof {
        assert(v@.skip(v@.len() as int) =~= Seq::<char>::empty());
        assert(res@ + Seq::<char>::empty() =~= res@);
    }
    res
}

/// Folds a chunk of already ANSI-free output into the line buffer.
#[verifier::spinoff_prover]
pub fn append_normalized_chunk(lines: &mut Vec<String>, pending_line: &mut String, chunk_text: &str)
    ensures
        string_views(final(lines)@) == appended_output(
            string_views(old(lines)@),
            old(pending_line)@,
            normalize_newlines(chunk_text@),
        ).0,
        final(pending_line)@ == appended_output(
            string_views(old(lines)@),
            old(pending_line)@,
            normalize_newlines(chunk_text@),
        ).1,
        final(lines)@.len() <= MAX_OUTPUT_LINES,
{
    let normalized = normalize_newline_chars(&chars_of(chunk_text));
    let mut combined = chars_of(pending_line.as_str());
    let mut normalized_mut = normalized;
    combined.append(&mut normalized_mut);
    let ghost old_lines = string_views(lines@);
    let mut current: Vec<char> = Vec::new();
    let mut i: usize = 0;
    while i < combined.len()
        invariant
            i <= combined@.len(),
            string_views(lines@) == old_lines + split_lines(combined@.take(i as int)).0,
            current@ == split_lines(combined@.take(i as int)).1,
        decreases combined@.len() - i,
    {
        proof {
            assert(combined@.take(i + 1).drop_last() =~= combined@.take(i as int));
            assert(combined@.take(i + 1).last() == combined@[i as int]);
        }
        if combined[i] == '\n' {
            let line = string_from_chars(&current);
            let ghost before = lines@;
            lines.push(line);
            current = Vec::new();
            proof {
                assert(string_views(lines@) =~= string_views(before).push(line@));
            }
        } else {
            current.push(combined[i]);
        }
        i = i + 1;
    }
    proof {
        assert(combined@.take(combined@.len() as int) =~= combined@);
    }
    *pending_line = string_from_chars(&current);
    if lines.len() > MAX_OUTPUT_LINES {
        let excess = lines.len() - MAX_OUTPUT_LINES;
        let ghost before = lines@;
        let kept = lines.split_off(excess);
        *lines = kept;
        proof {
            assert(string_views(lines@) =~= string_views(before).skip(excess as int));
        }
    }
}

/// Folds a chunk of terminal output into the bounded buffer of recent lines:
/// ANSI sequences are removed, `\r\n` and `\r` become line breaks, finished
/// lines join `lines` (only the newest `MAX_OUTPUT_LINES` are kept) and the
/// unfinished rest stays in `pending_line`.
pub fn append_output_chunk(lines: &mut Vec<String>, pending_line: &mut String, chunk_text: &str)
    ensures
        string_views(final(lines)@) == appended_output(
            string_views(old(lines)@),
            old(pending_line)@,
            normalize_newlines(ansi_stripped(chunk_text@)),
        ).0,
        final(pending_line)@ == appended_output(
            string_views(old(lines)@),
            old(pending_line)@,
            normalize_newlines(ansi_stripped(chunk_text@)),
        ).1,
        final(lines)@.len() <= MAX_OUTPUT_LINES,
{
    let stripped = strip_ansi(chunk_text);
    append_normalized_chunk(lines, pending_line, stripped.as_str());
}

/// The lines joined with `\n`.
pub open spec fn join_lines(parts: Seq<Seq<char>>) -> Seq<char>
    decreases parts.len(),
{
    if parts.len() == 0 {
        seq![]
    } else if parts.len() == 1 {
        parts[0]
    } else {
        join_lines(parts.drop_last()) + seq!['\n'] + parts.last()
    }
}

/// The excerpt shown with a failure: the buffered lines and the trimmed
/// unfinished line (when it is not blank), the newest
/// `RECENT_OUTPUT_EXCERPT_LINES` of them joined with `\n`, trimmed.
pub open spec fn recent_output_excerpt(lines: Seq<Seq<char>>, pending_line: Seq<char>) -> Seq<char> {
    let all = if is_blank(pending_line) {
        lines
    } else {
        lines.push(trim(pending_line))
    };
    trim(join_lines(keep_last(all, RECENT_OUTPUT_EXCERPT_LINES as nat)))
}

/// The newest `RECENT_OUTPUT_EXCERPT_LINES` lines of output (the unfinished
/// line included, trimmed), joined with `\n` and trimmed.
pub fn create_recent_output_excerpt(lines: &[String], pending_line: &str) -> (res: String)
    ensures
        res@ == recent_output_excerpt(string_views(lines@), pending_line@),
{
    let has_pending = !str_is_blank(pending_line);
    let ghost all = if is_blank(pending_line@) {
        string_views(lines@)
    } else {
        string_views(lines@).push(trim(pending_line@))
    };
    let trimmed_pending = trim_str(pending_line);
    let n = lines.len();
    let first: usize = if has_pending {
        if n >= RECENT_OUTPUT_EXCERPT_LINES {
            n - (RECENT_OUTPUT_EXCERPT_LINES - 1)
        } else {
            0
        }
    } else {
        if n > RECENT_OUTPUT_EXCERPT_LINES {
            n - RECENT_OUTPUT_EXCERPT_LINES
        } else {
            0
        }
    };
    let ghost kept = keep_last(all, RECENT_OUTPUT_EXCERPT_LINES as nat);
    proof {
        assert(kept =~= all.skip(first as int));
    }
    let mut joined = String::new();
    let mut i: usize = first;
    while i < n
        invariant
            first <= i <= n == lines@.len(),
            all.len() == n + if has_pending {
                1int
            } else {
                0int
            },
            forall|j: int| 0 <= j < n ==> all[j] == (#[trigger] lines@[j])@,
            joined@ == join_lines(all.subrange(first as int, i as int)),
        decreases n - i,
    {
        if i > first {
            push_char(&mut joined, '\n');
        }
        let ghost before = joined@;
        joined.append(lines[i].as_str());
        proof {
            let part = all.subrange(first as int, i + 1);
            assert(part.drop_last() =~= all.subrange(first as int, i as int));
            assert(all[i as int] == lines@[i as int]@);
            if i == first {
                assert(joined@ =~= all[i as int]);
            } else {
                assert(joined@ =~= before + all[i as int]);
            }
        }
        i = i + 1;
    }
    if has_pending {
        if n > first {
            push_char(&mut joined, '\n');
        }
        let ghost before = joined@;
        joined.append(trimmed_pending.as_str());
        proof {
            let part = all.subrange(first as int, n + 1);
            assert(part.drop_last() =~= all.subrange(first as int, n as int));
            assert(all[n as int] == trim(pending_line@));
            if n == first {
                assert(joined@ =~= all[n as int]);
            } else {
                assert(joined@ =~= before + all[n as int]);
            }
            assert(joined@ == join_lines(part));
            assert(part =~= kept);
        }
    } else {
        proof {
            assert(all.subrange(first as int, n as int) =~= kept);
        }
    }
    proof {
        assert(joined@ == join_lines(kept));
    }
    trim_str(joined.as_str())
}

} // verus!
