//! Crash-reporting configuration: which configured values count, which
//! report levels are sent, and the DSN that reports go to.
use vstd::prelude::*;

use crate::text::{
    opt_view, ascii_lower, chars_of, is_blank, str_equal, str_is_blank, string_from_chars,
    to_ascii_lower_chars, trim, trim_str,
};

verus! {

/// The severities that are reported.
#[derive(Debug, Clone, Copy, PartialEq, Eq, Structural)]
pub enum ReportLevel {
    Fatal,
    Error,
}

/// The level that `level` names, case aside: only fatal errors and errors
/// are reported.
pub open spec fn report_level_of(level: Seq<char>) -> Option<ReportLevel> {
    if ascii_lower(level) == "fatal"@ {
        Some(ReportLevel::Fatal)
    } else if ascii_lower(level) == "error"@ {
        Some(ReportLevel::Error)
    } else {
        None
    }
}

/// The reported level that `level` names, if it is reported at all.
pub fn map_report_level(level: &str) -> (res: Option<ReportLevel>)
    ensures
        res == report_level_of(level@),
{
    let lowered = string_from_chars(&to_ascii_lower_chars(&chars_of(level)));
    if str_equal(lowered.as_str(), "fatal") {
        Some(ReportLevel::Fatal)
    } else if str_equal(lowered.as_str(), "error") {
        Some(ReportLevel::Error)
    } else {
        None
    }
}

/// A configured value counts once trimmed, and not when blank.
pub open spec fn normalized_config_value(value: Seq<char>) -> Option<Seq<char>> {
    if is_blank(value) {
        None
    } else {
        Some(trim(value))
    }
}

/// A configured value, trimmed; `None` when blank.
pub fn normalize_config_value(value: &str) -> (res: Option<String>)
    ensures
        opt_view(res) == normalized_config_value(value@),
{
    if str_is_blank(value) {
        None
    } else {
        Some(trim_str(value))
    }
}

/// An optional text that counts only when it is not blank, trimmed.
pub fn non_empty(value: Option<&str>) -> (res: Option<String>)
    ensures
        opt_view(res) == match value {
            Some(v) => normalized_config_value(v@),
            None => None,
        },
{
    match value {
        Some(v) => normalize_config_value(v),
        None => None,
    }
}

/// The first value that is set.
pub open spec fn first_set(values: Seq<Option<Seq<char>>>) -> Option<Seq<char>>
    decreases values.len(),
{
    if values.len() == 0 {
        None
    } else {
        match values[0] {
            Some(v) => Some(v),
            None => first_set(values.drop_first()),
        }
    }
}

pub open spec fn opt_string_views(values: Seq<Option<String>>) -> Seq<Option<Seq<char>>> {
    values.map_values(|o: Option<String>| opt_view(o))
}

/// The configured value: the first environment variable that is set,
/// normalized; where that is blank or none is set, the value compiled in,
/// normalized.
pub open spec fn configured_value_of(
    environment_values: Seq<Option<Seq<char>>>,
    compiled_value: Option<Seq<char>>,
) -> Option<Seq<char>> {
    let from_environment = match first_set(environment_values) {
        Some(v) => normalized_config_value(v),
        None => None,
    };
    match from_environment {
        Some(v) => Some(v),
        None => match compiled_value {
            Some(c) => normalized_config_value(c),
            None => None,
        },
    }
}

/// The configured value, from the values of the environment variables
/// that configure it (in order of preference) and the compiled-in value.
pub fn configured_value(environment_values: &Vec<Option<String>>, compiled_value: Option<&str>) -> (res:
    Option<String>)
    ensures
        opt_view(res) == configured_value_of(
            opt_string_views(environment_values@),
            match compiled_value {
                Some(c) => Some(c@),
                None => None,
            },
        ),
{
    let ghost views = opt_string_views(environment_values@);
    let mut i: usize = 0;
    let mut found: Option<String> = None;
    proof {
        assert(views.skip(0) =~= views);
    }
    while i < environment_values.len() && found.is_none()
        invariant
            i <= environment_values@.len(),
            views == opt_string_views(environment_values@),
            found is None ==> first_set(views) == first_set(views.skip(i as int)),
            found is Some ==> opt_view(found) == first_set(views),
        decreases environment_values@.len() - i + (if found is None {
            1int
        } else {
            0int
        }),
    {
        proof {
            assert(views.skip(i as int).drop_first() =~= views.skip(i + 1));
            assert(views.skip(i as int)[0] == views[i as int]);
            assert(views[i as int] == opt_view(environment_values@[i as int]));
        }
        match &environment_values[i] {
            Some(v) => {
                found = Some(v.clone());
            },
            None => {
                i = i + 1;
            },
        }
    }
    proof {
        if found is None {
            assert(views.skip(i as int) =~= Seq::<Option<Seq<char>>>::empty());
        }
    }
    let from_environment = match &found {
        Some(v) => normalize_config_value(v.as_str()),
        None => None,
    };
    match from_environment {
        Some(v) => Some(v),
        None => match compiled_value {
            Some(c) => normalize_config_value(c),
            None => None,
        },
    }
}

/// A value that turns crash reporting off: "1", "true" or "yes", case and
/// surrounding whitespace aside.
pub open spec fn is_disabling_value(value: Option<Seq<char>>) -> bool {
    match value {
        Some(v) => match normalized_config_value(v) {
            Some(n) => ascii_lower(n) == "1"@ || ascii_lower(n) == "true"@ || ascii_lower(n)
                == "yes"@,
            None => false,
        },
        None => false,
    }
}

/// Whether crash reporting is turned off, from the value of the variable
/// that turns it off.
pub fn is_crash_reporting_disabled(setting: Option<&str>) -> (res: bool)
    ensures
        res == is_disabling_value(
            match setting {
                Some(s) => Some(s@),
                None => None,
            },
        ),
{
    match setting {
        Some(s) => match normalize_config_value(s) {
            Some(n) => {
                let lowered = string_from_chars(&to_ascii_lower_chars(&chars_of(n.as_str())));
                str_equal(lowered.as_str(), "1") || str_equal(lowered.as_str(), "true")
                    || str_equal(lowered.as_str(), "yes")
            },
            None => false,
        },
        None => false,
    }
}

#[verifier::external_type_specification]
#[verifier::external_body]
pub struct ExDsn(sentry::types::Dsn);

/// Whether the sentry crate parses `value` as a DSN.
pub uninterp spec fn sentry_dsn_parses(value: Seq<char>) -> bool;

/// `str::parse::<sentry::types::Dsn>`. Trusted: it succeeds exactly when
/// the crate accepts `value` as a DSN; the error is the crate's message,
/// whose text is left open.
#[verifier::external_body]
fn parse_dsn(value: &str) -> (res: Result<sentry::types::Dsn, String>)
    ensures
        res is Ok <==> sentry_dsn_parses(value@),
{
    match value.parse::<sentry::types::Dsn>() {
        Ok(dsn) => Ok(dsn),
        Err(error) => Err(error.to_string()),
    }
}

/// The DSN that reports go to: none where none is configured, and an error
/// where the configured one does not parse.
pub fn configured_dsn(environment_values: &Vec<Option<String>>, compiled_value: Option<&str>) -> (res:
    Result<Option<sentry::types::Dsn>, String>)
    ensures
        ({
            let configured = configured_value_of(
                opt_string_views(environment_values@),
                match compiled_value {
                    Some(c) => Some(c@),
                    None => None,
                },
            );
            &&& configured is None ==> (res matches Ok(d) && d is None)
            &&& configured matches Some(v) ==> (res is Ok <==> sentry_dsn_parses(v))
            &&& configured is Some ==> (res matches Ok(d) ==> d is Some)
            &&& res matches Err(e) ==> e@.len() >= 20 && e@.take(20) == "Invalid Sentry DSN: "@
        }),
{
    match configured_value(environment_values, compiled_value) {
        None => Ok(None),
        Some(value) => match parse_dsn(value.as_str()) {
            Ok(dsn) => Ok(Some(dsn)),
            Err(error) => {
                let message = crate::text::join2("Invalid Sentry DSN: ", error.as_str());
                proof {
                    reveal_strlit("Invalid Sentry DSN: ");
                    assert(message@.take(20) =~= "Invalid Sentry DSN: "@);
                }
                Err(message)
            },
        },
    }
}

} // verus!
