//! Scalar matching: evaluating one matching rule between an expected and an
//! actual string value, testing status codes against status classes, and
//! combining the rules selected for a path under `AND`/`OR` logic.

use vstd::prelude::*;

use crate::numbers::dec_digits;
use crate::numbers::is_f64_literal;
use crate::numbers::spec_parse_u16;
use crate::numbers::spec_parse_u64;
use crate::rules::best_of;
use crate::rules::HttpStatus;
use crate::rules::MatcherEntry;
use crate::rules::MatchingContext;
use crate::rules::MatchingRule;
use crate::rules::RuleLogic;
use crate::strings::cat3;
use crate::strings::cat4;
use crate::strings::cat5;
use crate::strings::cat6;
use crate::strings::contains_seq;
use crate::strings::join_with;
use crate::strings::str_eq;
use crate::strings::str_to_chars;
use crate::trusted::datetime_check;
use crate::trusted::regex_compile_error;
use crate::trusted::regex_eval;
use crate::trusted::regex_outcome;
use crate::trusted::RegexOutcome;
use crate::trusted::validate_datetime_str;

verus! {

/// A year-field letter of a date-time format pattern.
pub open spec fn is_year_letter(c: char) -> bool {
    c == 'y' || c == 'Y' || c == 'u'
}

/// Whether the format holds a run of five or more equal year letters.
pub open spec fn long_year_run(s: Seq<char>) -> bool {
    exists|i: int|
        0 <= i && i + 5 <= s.len() && is_year_letter(#[trigger] s[i]) && s[i + 1] == s[i] && s[i
            + 2] == s[i] && s[i + 3] == s[i] && s[i + 4] == s[i]
}

/// Whether the format holds a day-of-month letter.
pub open spec fn has_day_letter(s: Seq<char>) -> bool {
    exists|i: int| 0 <= i < s.len() && s[i] == 'd'
}

/// Whether twenty consecutive fraction-of-second letters start at `i`.
pub open spec fn all_s_at(s: Seq<char>, i: int) -> bool {
    forall|k: int| i <= k < i + 20 ==> s[k] == 'S'
}

/// Whether the format holds a run of twenty or more fraction-of-second
/// letters.
pub open spec fn long_fraction_run(s: Seq<char>) -> bool {
    exists|i: int| 0 <= i && i + 20 <= s.len() && #[trigger] all_s_at(s, i)
}

/// A date-time format the validator is known to handle for every value: it
/// does not pair a year field of five or more letters with a day field
/// (such a pair aborts the outside validator when a five-digit year meets
/// its day-of-month check), and it holds no fraction-of-second field of
/// twenty or more letters (whose upper bound overflows the validator's
/// power of ten).
pub open spec fn safe_datetime_format(s: Seq<char>) -> bool {
    !(long_year_run(s) && has_day_letter(s)) && !long_fraction_run(s)
}

fn all_s_window(v: &Vec<char>, i: usize) -> (r: bool)
    requires
        i + 20 <= v@.len(),
    ensures
        r == all_s_at(v@, i as int),
{
    let n = v.len();
    let mut k: usize = 0;
    while k < 20
        invariant
            i + 20 <= v@.len(),
            n == v@.len(),
            k <= 20,
            forall|x: int| i <= x < i + k ==> v@[x] == 'S',
        decreases 20 - k,
    {
        proof {
            assert(i + k < n);
        }
        if v[i + k] != 'S' {
            proof {
                assert(!all_s_at(v@, i as int));
            }
            return false;
        }
        k += 1;
    }
    true
}

/// Decides [`safe_datetime_format`].
pub fn is_safe_datetime_format(format: &str) -> (r: bool)
    ensures
        r == safe_datetime_format(format@),
{
    let v = str_to_chars(format);
    let mut long_run = false;
    let mut day = false;
    let mut fraction = false;
    let mut i: usize = 0;
    while i < v.len()
        invariant
            v@ == format@,
            i <= v@.len(),
            day == exists|j: int| 0 <= j < i && v@[j] == 'd',
            long_run == exists|j: int|
                0 <= j < i && j + 5 <= v@.len() && is_year_letter(#[trigger] v@[j]) && v@[j + 1]
                    == v@[j] && v@[j + 2] == v@[j] && v@[j + 3] == v@[j] && v@[j + 4] == v@[j],
            fraction == exists|j: int| 0 <= j < i && j + 20 <= v@.len() && #[trigger] all_s_at(
                v@,
                j,
            ),
        decreases v@.len() - i,
    {
        if v[i] == 'd' {
            day = true;
        }
        if v.len() - i >= 5 {
            let c = v[i];
            if (c == 'y' || c == 'Y' || c == 'u') && v[i + 1] == c && v[i + 2] == c && v[i + 3]
                == c && v[i + 4] == c {
                long_run = true;
            }
        }
        if v.len() - i >= 20 {
            if all_s_window(&v, i) {
                fraction = true;
            }
        }
        i += 1;
    }
    proof {
        assert(day == has_day_letter(v@));
        assert(long_run == long_year_run(v@)) by {
            if long_year_run(v@) {
                let j = choose|j: int|
                    0 <= j && j + 5 <= v@.len() && is_year_letter(#[trigger] v@[j]) && v@[j + 1]
                        == v@[j] && v@[j + 2] == v@[j] && v@[j + 3] == v@[j] && v@[j + 4] == v@[j];
                assert(j < i);
            }
        }
        assert(fraction == long_fraction_run(v@)) by {
            if long_fraction_run(v@) {
                let j = choose|j: int| 0 <= j && j + 20 <= v@.len() && #[trigger] all_s_at(v@, j);
                assert(j < i);
            }
        }
    }
    !(long_run && day) && !fraction
}

/// The error reported for a format the validator cannot handle.
pub open spec fn bad_format_msg(f: Seq<char>) -> Seq<char> {
    "'"@ + f + "' is not a supported date-time format - a year field of five or more letters beside a day field, or a fraction-of-second field of twenty or more letters, cannot be checked"@
}

pub fn bad_format_msg_exec(f: &str) -> (r: String)
    ensures
        r@ == bad_format_msg(f@),
{
    cat3(
        "'",
        f,
        "' is not a supported date-time format - a year field of five or more letters beside a day field, or a fraction-of-second field of twenty or more letters, cannot be checked",
    )
}

/// The text naming a status class, as diagnostics render it.
pub open spec fn status_desc(s: HttpStatus) -> Seq<char> {
    match s {
        HttpStatus::Information => "Informational response (100-199)"@,
        HttpStatus::Success => "Successful response (200-299)"@,
        HttpStatus::Redirect => "Redirect (300-399)"@,
        HttpStatus::ClientError => "Client error (400-499)"@,
        HttpStatus::ServerError => "Server error (500-599)"@,
        HttpStatus::StatusCodes(codes) => codes_txt(codes@, 0),
        HttpStatus::NonError => "Non-error response (< 400)"@,
        HttpStatus::Error => "Error response (>= 400)"@,
    }
}

/// The comma-separated decimal codes from index `i` on.
pub open spec fn codes_txt(codes: Seq<u16>, i: int) -> Seq<char>
    decreases codes.len() - i,
{
    if i < 0 || i >= codes.len() {
        Seq::empty()
    } else if i == codes.len() - 1 {
        dec_digits(codes[i] as nat)
    } else {
        dec_digits(codes[i] as nat) + ", "@ + codes_txt(codes, i + 1)
    }
}

fn codes_txt_exec(codes: &Vec<u16>, i: usize) -> (r: String)
    requires
        i <= codes@.len(),
    ensures
        r@ == codes_txt(codes@, i as int),
    decreases codes@.len() - i,
{
    if i >= codes.len() {
        String::new()
    } else if i == codes.len() - 1 {
        crate::numbers::u16_to_string(codes[i])
    } else {
        let head = crate::numbers::u16_to_string(codes[i]);
        let rest = codes_txt_exec(codes, i + 1);
        cat3(head.as_str(), ", ", rest.as_str())
    }
}

/// The status-class description, as diagnostics render it.
pub fn status_desc_exec(s: &HttpStatus) -> (r: String)
    ensures
        r@ == status_desc(*s),
{
    match s {
        HttpStatus::Information => String::from_str("Informational response (100-199)"),
        HttpStatus::Success => String::from_str("Successful response (200-299)"),
        HttpStatus::Redirect => String::from_str("Redirect (300-399)"),
        HttpStatus::ClientError => String::from_str("Client error (400-499)"),
        HttpStatus::ServerError => String::from_str("Server error (500-599)"),
        HttpStatus::StatusCodes(codes) => codes_txt_exec(codes, 0),
        HttpStatus::NonError => String::from_str("Non-error response (< 400)"),
        HttpStatus::Error => String::from_str("Error response (>= 400)"),
    }
}

/// Whether a status code lies in a status class.
pub open spec fn status_in_class(code: u16, s: HttpStatus) -> bool {
    match s {
        HttpStatus::Information => 100 <= code && code <= 199,
        HttpStatus::Success => 200 <= code && code <= 299,
        HttpStatus::Redirect => 300 <= code && code <= 399,
        HttpStatus::ClientError => 400 <= code && code <= 499,
        HttpStatus::ServerError => 500 <= code && code <= 599,
        HttpStatus::StatusCodes(codes) => exists|i: int| 0 <= i < codes@.len() && codes@[i] == code,
        HttpStatus::NonError => code < 400,
        HttpStatus::Error => code >= 400,
    }
}

/// The error when a status code falls outside the class.
pub open spec fn status_err(code: u16, s: HttpStatus) -> Seq<char> {
    "Expected status code "@ + dec_digits(code as nat) + " to be a "@ + status_desc(s)
}

/// Tests a status code against a status class; the error names the code and
/// the class. Returns `Ok` exactly when the code lies in the class.
pub fn match_status_code(status_code: u16, status: &HttpStatus) -> (r: Result<(), String>)
    ensures
        r is Ok <==> status_in_class(status_code, *status),
        r matches Err(e) ==> e@ == status_err(status_code, *status),
{
    let matched = match status {
        HttpStatus::Information => 100 <= status_code && status_code <= 199,
        HttpStatus::Success => 200 <= status_code && status_code <= 299,
        HttpStatus::Redirect => 300 <= status_code && status_code <= 399,
        HttpStatus::ClientError => 400 <= status_code && status_code <= 499,
        HttpStatus::ServerError => 500 <= status_code && status_code <= 599,
        HttpStatus::StatusCodes(codes) => {
            let mut found = false;
            let mut i: usize = 0;
            while i < codes.len()
                invariant
                    i <= codes@.len(),
                    found == exists|j: int| 0 <= j < i && codes@[j] == status_code,
                decreases codes@.len() - i,
            {
                if codes[i] == status_code {
                    found = true;
                }
                i += 1;
            }
            found
        },
        HttpStatus::NonError => status_code < 400,
        HttpStatus::Error => status_code >= 400,
    };
    if matched {
        Ok(())
    } else {
        let code_txt = crate::numbers::u16_to_string(status_code);
        let desc = status_desc_exec(status);
        Err(cat4("Expected status code ", code_txt.as_str(), " to be a ", desc.as_str()))
    }
}

/// The text naming a rule, as diagnostics render it.
pub open spec fn rule_desc(m: MatchingRule) -> Seq<char> {
    match m {
        MatchingRule::Equality => "Equality"@,
        MatchingRule::Regex(p) => "Regex(\""@ + p@ + "\")"@,
        MatchingRule::Type => "Type"@,
        MatchingRule::MinType(n) => "MinType("@ + dec_digits(n as nat) + ")"@,
        MatchingRule::MaxType(n) => "MaxType("@ + dec_digits(n as nat) + ")"@,
        MatchingRule::MinMaxType(a, b) => "MinMaxType("@ + dec_digits(a as nat) + ", "@
            + dec_digits(b as nat) + ")"@,
        MatchingRule::Timestamp(f) => "Timestamp(\""@ + f@ + "\")"@,
        MatchingRule::Time(f) => "Time(\""@ + f@ + "\")"@,
        MatchingRule::Date(f) => "Date(\""@ + f@ + "\")"@,
        MatchingRule::Include(s) => "Include(\""@ + s@ + "\")"@,
        MatchingRule::Number => "Number"@,
        MatchingRule::Integer => "Integer"@,
        MatchingRule::Decimal => "Decimal"@,
        MatchingRule::Null => "Null"@,
        MatchingRule::ContentType(c) => "ContentType(\""@ + c@ + "\")"@,
        MatchingRule::ArrayContains(_) => "ArrayContains"@,
        MatchingRule::Values => "Values"@,
        MatchingRule::Boolean => "Boolean"@,
        MatchingRule::StatusCode(s) => "StatusCode("@ + status_desc(s) + ")"@,
    }
}

/// The rule's name for diagnostics (see [`rule_desc`]).
pub fn rule_desc_exec(m: &MatchingRule) -> (r: String)
    ensures
        r@ == rule_desc(*m),
{
    match m {
        MatchingRule::Equality => String::from_str("Equality"),
        MatchingRule::Regex(p) => cat3("Regex(\"", p.as_str(), "\")"),
        MatchingRule::Type => String::from_str("Type"),
        MatchingRule::MinType(n) => {
            let t = crate::numbers::usize_to_string(*n);
            cat3("MinType(", t.as_str(), ")")
        },
        MatchingRule::MaxType(n) => {
            let t = crate::numbers::usize_to_string(*n);
            cat3("MaxType(", t.as_str(), ")")
        },
        MatchingRule::MinMaxType(a, b) => {
            let ta = crate::numbers::usize_to_string(*a);
            let tb = crate::numbers::usize_to_string(*b);
            cat5("MinMaxType(", ta.as_str(), ", ", tb.as_str(), ")")
        },
        MatchingRule::Timestamp(f) => cat3("Timestamp(\"", f.as_str(), "\")"),
        MatchingRule::Time(f) => cat3("Time(\"", f.as_str(), "\")"),
        MatchingRule::Date(f) => cat3("Date(\"", f.as_str(), "\")"),
        MatchingRule::Include(s) => cat3("Include(\"", s.as_str(), "\")"),
        MatchingRule::Number => String::from_str("Number"),
        MatchingRule::Integer => String::from_str("Integer"),
        MatchingRule::Decimal => String::from_str("Decimal"),
        MatchingRule::Null => String::from_str("Null"),
        MatchingRule::ContentType(c) => cat3("ContentType(\"", c.as_str(), "\")"),
        MatchingRule::ArrayContains(_) => String::from_str("ArrayContains"),
        MatchingRule::Values => String::from_str("Values"),
        MatchingRule::Boolean => String::from_str("Boolean"),
        MatchingRule::StatusCode(s) => {
            let d = status_desc_exec(s);
            cat3("StatusCode(", d.as_str(), ")")
        },
    }
}

/// The outcome of applying one rule to an expected and an actual string:
/// `Ok`, or the exact diagnostic text. Regular expressions and date-time
/// formats go through the named results of the outside calls; numeric rules
/// go by the literal grammars of the standard parsers.
pub open spec fn spec_string_match(
    expected: Seq<char>,
    actual: Seq<char>,
    matcher: MatchingRule,
    cascaded: bool,
) -> Result<(), Seq<char>> {
    match matcher {
        MatchingRule::Regex(p) => match regex_compile_error(p@) {
            Some(err) => Err("'"@ + p@ + "' is not a valid regular expression - "@ + err),
            None => match regex_outcome(p@, actual) {
                Ok(true) => Ok(()),
                Ok(false) => Err("Expected '"@ + actual + "' to match '"@ + p@ + "'"@),
                Err(err) => Err("Could not match '"@ + actual + "' against '"@ + p@ + "' - "@
                    + err),
            },
        },
        MatchingRule::Equality => if expected == actual {
            Ok(())
        } else {
            Err("Expected '"@ + expected + "' to be equal to '"@ + actual + "'"@)
        },
        MatchingRule::Type => Ok(()),
        MatchingRule::MinType(_) => Ok(()),
        MatchingRule::MaxType(_) => Ok(()),
        MatchingRule::MinMaxType(_, _) => Ok(()),
        MatchingRule::Include(sub) => if contains_seq(actual, sub@) {
            Ok(())
        } else {
            Err("Expected '"@ + actual + "' to include '"@ + sub@ + "'"@)
        },
        MatchingRule::Number => if is_f64_literal(actual) {
            Ok(())
        } else {
            Err("Expected '"@ + actual + "' to match a number"@)
        },
        MatchingRule::Decimal => if is_f64_literal(actual) {
            Ok(())
        } else {
            Err("Expected '"@ + actual + "' to match a number"@)
        },
        MatchingRule::Integer => if spec_parse_u64(actual) is Some {
            Ok(())
        } else {
            Err("Expected '"@ + actual + "' to match an integer number"@)
        },
        MatchingRule::Date(f) => if !safe_datetime_format(f@) {
            Err(bad_format_msg(f@))
        } else if datetime_check(actual, f@) is None {
            Ok(())
        } else {
            Err("Expected '"@ + actual + "' to match a date format of '"@ + f@ + "'"@)
        },
        MatchingRule::Time(f) => if !safe_datetime_format(f@) {
            Err(bad_format_msg(f@))
        } else if datetime_check(actual, f@) is None {
            Ok(())
        } else {
            Err("Expected '"@ + actual + "' to match a time format of '"@ + f@ + "'"@)
        },
        MatchingRule::Timestamp(f) => if !safe_datetime_format(f@) {
            Err(bad_format_msg(f@))
        } else if datetime_check(actual, f@) is None {
            Ok(())
        } else {
            Err("Expected '"@ + actual + "' to match a timestamp format of '"@ + f@ + "'"@)
        },
        MatchingRule::Boolean => if actual == "true"@ || actual == "false"@ {
            Ok(())
        } else {
            Err("Expected '"@ + actual + "' to match a boolean"@)
        },
        MatchingRule::StatusCode(status) => match spec_parse_u16(actual) {
            Some(code) => if status_in_class(code, status) {
                Ok(())
            } else {
                Err(status_err(code, status))
            },
            None => Err("Unable to match '"@ + expected + "' using "@ + rule_desc(matcher)
                + " - the actual value does not parse as a status code"@),
        },
        _ => Err("Unable to match '"@ + expected + "' using "@ + rule_desc(matcher)),
    }
}

/// Applies one rule to an expected and an actual string (see
/// [`spec_string_match`]). The cascade flag plays no part for string values.
pub fn string_matches_with(
    expected: &str,
    actual: &str,
    matcher: &MatchingRule,
    cascaded: bool,
) -> (r: Result<(), String>)
    ensures
        r is Ok <==> spec_string_match(expected@, actual@, *matcher, cascaded) is Ok,
        r matches Err(e) ==> spec_string_match(expected@, actual@, *matcher, cascaded) matches Err(
            m,
        ) && e@ == m,
{
    match matcher {
        MatchingRule::Regex(p) => match regex_eval(p.as_str(), actual) {
            RegexOutcome::BadPattern(err) => Err(
                cat4("'", p.as_str(), "' is not a valid regular expression - ", err.as_str()),
            ),
            RegexOutcome::Matched(true) => Ok(()),
            RegexOutcome::Matched(false) => Err(
                cat5("Expected '", actual, "' to match '", p.as_str(), "'"),
            ),
            RegexOutcome::MatchAborted(err) => Err(
                cat6("Could not match '", actual, "' against '", p.as_str(), "' - ", err.as_str()),
            ),
        },
        MatchingRule::Equality => if str_eq(expected, actual) {
            Ok(())
        } else {
            Err(cat5("Expected '", expected, "' to be equal to '", actual, "'"))
        },
        MatchingRule::Type => Ok(()),
        MatchingRule::MinType(_) => Ok(()),
        MatchingRule::MaxType(_) => Ok(()),
        MatchingRule::MinMaxType(_, _) => Ok(()),
        MatchingRule::Include(sub) => {
            let av = str_to_chars(actual);
            let sv = str_to_chars(sub.as_str());
            if crate::strings::contains_chars(&av, &sv) {
                Ok(())
            } else {
                Err(cat5("Expected '", actual, "' to include '", sub.as_str(), "'"))
            }
        },
        MatchingRule::Number => {
            let av = str_to_chars(actual);
            if crate::numbers::is_f64_literal_chars(&av) {
                Ok(())
            } else {
                Err(cat3("Expected '", actual, "' to match a number"))
            }
        },
        MatchingRule::Decimal => {
            let av = str_to_chars(actual);
            if crate::numbers::is_f64_literal_chars(&av) {
                Ok(())
            } else {
                Err(cat3("Expected '", actual, "' to match a number"))
            }
        },
        MatchingRule::Integer => {
            let av = str_to_chars(actual);
            if crate::numbers::parse_u64_chars(&av).is_some() {
                Ok(())
            } else {
                Err(cat3("Expected '", actual, "' to match an integer number"))
            }
        },
        MatchingRule::Date(f) => if !is_safe_datetime_format(f.as_str()) {
            Err(bad_format_msg_exec(f.as_str()))
        } else {
            match validate_datetime_str(actual, f.as_str()) {
                Ok(_) => Ok(()),
                Err(_) => Err(
                    cat5("Expected '", actual, "' to match a date format of '", f.as_str(), "'"),
                ),
            }
        },
        MatchingRule::Time(f) => if !is_safe_datetime_format(f.as_str()) {
            Err(bad_format_msg_exec(f.as_str()))
        } else {
            match validate_datetime_str(actual, f.as_str()) {
                Ok(_) => Ok(()),
                Err(_) => Err(
                    cat5("Expected '", actual, "' to match a time format of '", f.as_str(), "'"),
                ),
            }
        },
        MatchingRule::Timestamp(f) => if !is_safe_datetime_format(f.as_str()) {
            Err(bad_format_msg_exec(f.as_str()))
        } else {
            match validate_datetime_str(actual, f.as_str()) {
                Ok(_) => Ok(()),
                Err(_) => Err(
                    cat5("Expected '", actual, "' to match a timestamp format of '", f.as_str(), "'"),
                ),
            }
        },
        MatchingRule::Boolean => if str_eq(actual, "true") || str_eq(actual, "false") {
            Ok(())
        } else {
            Err(cat3("Expected '", actual, "' to match a boolean"))
        },
        MatchingRule::StatusCode(status) => {
            let av = str_to_chars(actual);
            match crate::numbers::parse_u16_chars(&av) {
                Some(code) => match match_status_code(code, status) {
                    Ok(_) => Ok(()),
                    Err(e) => Err(e),
                },
                None => {
                    let d = rule_desc_exec(matcher);
                    Err(cat5(
                        "Unable to match '",
                        expected,
                        "' using ",
                        d.as_str(),
                        " - the actual value does not parse as a status code",
                    ))
                },
            }
        },
        _ => {
            let d = rule_desc_exec(matcher);
            Err(cat4("Unable to match '", expected, "' using ", d.as_str()))
        },
    }
}

/// Whether every rule from index `i` on passes on the two strings.
pub open spec fn spec_all_ok(
    rules: Seq<MatchingRule>,
    i: int,
    e: Seq<char>,
    a: Seq<char>,
    c: bool,
) -> bool
    decreases rules.len() - i,
{
    if i < 0 || i >= rules.len() {
        true
    } else {
        spec_string_match(e, a, rules[i], c) is Ok && spec_all_ok(rules, i + 1, e, a, c)
    }
}

/// Whether some rule from index `i` on passes on the two strings.
pub open spec fn spec_any_ok(
    rules: Seq<MatchingRule>,
    i: int,
    e: Seq<char>,
    a: Seq<char>,
    c: bool,
) -> bool
    decreases rules.len() - i,
{
    if i < 0 || i >= rules.len() {
        false
    } else {
        spec_string_match(e, a, rules[i], c) is Ok || spec_any_ok(rules, i + 1, e, a, c)
    }
}

/// The error texts of the failing rules from index `i` on, in rule order.
pub open spec fn spec_errs(
    rules: Seq<MatchingRule>,
    i: int,
    e: Seq<char>,
    a: Seq<char>,
    c: bool,
) -> Seq<Seq<char>>
    decreases rules.len() - i,
{
    if i < 0 || i >= rules.len() {
        Seq::empty()
    } else {
        match spec_string_match(e, a, rules[i], c) {
            Ok(_) => spec_errs(rules, i + 1, e, a, c),
            Err(m) => seq![m] + spec_errs(rules, i + 1, e, a, c),
        }
    }
}

fn cons_string(s: String, rest: Vec<String>) -> (r: Vec<String>)
    ensures
        r.deep_view() == seq![s@] + rest.deep_view(),
{
    let ghost sv = s@;
    let ghost rest0 = rest;
    let mut r: Vec<String> = Vec::new();
    r.push(s);
    let mut tail = rest;
    r.append(&mut tail);
    proof {
        assert forall|k: int| 0 <= k < r@.len() implies r.deep_view()[k] == (seq![sv]
            + rest0.deep_view())[k] by {
            if k == 0 {
                assert(r@[0]@ == sv);
            } else {
                assert(r@[k] == rest0@[k - 1]);
            }
        }
        assert(r.deep_view() =~= seq![sv] + rest0.deep_view());
    }
    r
}

fn eval_rules(rules: &Vec<MatchingRule>, i: usize, e: &str, a: &str, c: bool) -> (r: (
    bool,
    bool,
    Vec<String>,
))
    requires
        i <= rules@.len(),
    ensures
        r.0 == spec_all_ok(rules@, i as int, e@, a@, c),
        r.1 == spec_any_ok(rules@, i as int, e@, a@, c),
        r.2.deep_view() == spec_errs(rules@, i as int, e@, a@, c),
    decreases rules@.len() - i,
{
    if i >= rules.len() {
        let empty: Vec<String> = Vec::new();
        proof {
            assert(empty.deep_view() =~= Seq::<Seq<char>>::empty());
        }
        (true, false, empty)
    } else {
        let head = string_matches_with(e, a, &rules[i], c);
        let (rest_all, rest_any, rest_errs) = eval_rules(rules, i + 1, e, a, c);
        match head {
            Ok(_) => (rest_all, true || rest_any, rest_errs),
            Err(m) => (false, rest_any, cons_string(m, rest_errs)),
        }
    }
}

/// The message reported when no rules stand at a path that claims a matcher.
pub open spec fn no_matcher_msg(path: Seq<Seq<char>>) -> Seq<char> {
    "No matcher found for path '"@ + join_with(path, "."@) + "'"@
}

/// The combined outcome of the rules selected for a path: the selected rule
/// list applied to the two values, under its `AND`/`OR` logic; an error set
/// holding the failing rules' messages in rule order. A path with no
/// selected or only empty rules yields the no-matcher error.
pub open spec fn spec_match_values(
    entries: Seq<MatcherEntry>,
    path: Seq<Seq<char>>,
    e: Seq<char>,
    a: Seq<char>,
) -> Result<(), Seq<Seq<char>>> {
    match best_of(entries, path) {
        None => Err(seq![no_matcher_msg(path)]),
        Some(p) => {
            let rl = entries[p].rules;
            let casc = entries[p].tokens.deep_view().len() != path.len();
            if rl.rules@.len() == 0 {
                Err(seq![no_matcher_msg(path)])
            } else {
                match rl.rule_logic {
                    RuleLogic::And => if spec_all_ok(rl.rules@, 0, e, a, casc) {
                        Ok(())
                    } else {
                        Err(spec_errs(rl.rules@, 0, e, a, casc))
                    },
                    RuleLogic::Or => if spec_any_ok(rl.rules@, 0, e, a, casc) {
                        Ok(())
                    } else {
                        Err(spec_errs(rl.rules@, 0, e, a, casc))
                    },
                }
            }
        },
    }
}

/// Evaluates every rule selected for the path on the expected and actual
/// values and combines the outcomes with the list's logic: `AND` passes when
/// all rules pass, `OR` when any does. On failure the error set is the
/// failing rules' messages (see [`spec_match_values`]).
pub fn match_values(
    path: &Vec<String>,
    context: &MatchingContext,
    expected: &str,
    actual: &str,
) -> (r: Result<(), Vec<String>>)
    ensures
        r is Ok <==> spec_match_values(
            context.matchers.entries@,
            path.deep_view(),
            expected@,
            actual@,
        ) is Ok,
        r matches Err(v) ==> spec_match_values(
            context.matchers.entries@,
            path.deep_view(),
            expected@,
            actual@,
        ) matches Err(m) && v.deep_view() == m,
{
    match_values_with(path, &context.matchers, expected, actual)
}

/// As [`match_values`], over a bare rule category.
pub fn match_values_with(
    path: &Vec<String>,
    matchers: &crate::rules::Matchers,
    expected: &str,
    actual: &str,
) -> (r: Result<(), Vec<String>>)
    ensures
        r is Ok <==> spec_match_values(
            matchers.entries@,
            path.deep_view(),
            expected@,
            actual@,
        ) is Ok,
        r matches Err(v) ==> spec_match_values(
            matchers.entries@,
            path.deep_view(),
            expected@,
            actual@,
        ) matches Err(m) && v.deep_view() == m,
{
    let no_match = |path: &Vec<String>| -> (m: String)
        ensures
            m@ == no_matcher_msg(path.deep_view()),
        {
            let joined = crate::strings::join_strings(path, ".");
            cat3("No matcher found for path '", joined.as_str(), "'")
        };
    match matchers.select_best_matcher(path) {
        None => {
            let msg = no_match(path);
            let mut v: Vec<String> = Vec::new();
            let ghost mv = msg@;
            v.push(msg);
            proof {
                assert(v.deep_view() =~= seq![mv]);
            }
            Err(v)
        },
        Some((rl, cascaded)) => {
            if rl.rules.len() == 0 {
                let msg = no_match(path);
                let mut v: Vec<String> = Vec::new();
                let ghost mv = msg@;
                v.push(msg);
                proof {
                    assert(v.deep_view() =~= seq![mv]);
                }
                Err(v)
            } else {
                let (all_ok, any_ok, errs) = eval_rules(&rl.rules, 0, expected, actual, cascaded);
                let passed = match rl.rule_logic {
                    RuleLogic::And => all_ok,
                    RuleLogic::Or => any_ok,
                };
                if passed {
                    Ok(())
                } else {
                    Err(errs)
                }
            }
        },
    }
}

} // verus!
