//! The structural matcher: walks an expected and an actual value in
//! parallel, applying the rules selected for each path, and produces the
//! flat list of mismatches. Also the document-level semantics of each rule
//! on a single value pair.

use vstd::prelude::*;
use vstd::string::StrSliceExecFns;

use crate::matchers::bad_format_msg;
use crate::matchers::is_safe_datetime_format;
use crate::matchers::no_matcher_msg;
use crate::matchers::safe_datetime_format;
use crate::numbers::dec_digits;
use crate::rules::best_of;
use crate::rules::MatcherEntry;
use crate::rules::Matchers;
use crate::rules::MatchingContext;
use crate::rules::MatchingRule;
use crate::rules::RuleLogic;
use crate::strings::cat2;
use crate::strings::cat3;
use crate::strings::cat4;
use crate::strings::cat5;
use crate::strings::cat6;
use crate::strings::contains_seq;
use crate::strings::join_with;
use crate::strings::lex_le;
use crate::strings::str_eq;
use crate::strings::str_to_chars;
use crate::trusted::datetime_check;
use crate::trusted::detect_content_type;
use crate::trusted::detected_media;
use crate::trusted::regex_compile_error;
use crate::trusted::regex_eval;
use crate::trusted::regex_outcome;
use crate::trusted::RegexOutcome;
use crate::trusted::validate_datetime_str;
use crate::value::display_txt;
use crate::value::escaped;
use crate::value::json_txt;
use crate::value::spec_type_of;
use crate::value::obj_value_eq;
use crate::value::seq_value_eq;
use crate::value::value_eq;
use crate::value::Value;
use crate::DiffConfig;
use crate::Mismatch;
use crate::MismatchV;

verus! {

/// Whether two values have the same kind for type matching: lists with
/// lists, maps with maps, strings with strings, booleans with booleans,
/// nulls with nulls, byte data with byte data; integers and decimals are
/// distinct numeric classes.
pub open spec fn same_kind(e: Value, a: Value) -> bool {
    match (e, a) {
        (Value::Null, Value::Null) => true,
        (Value::Bool(_), Value::Bool(_)) => true,
        (Value::Integer(_), Value::Integer(_)) => true,
        (Value::Decimal(_), Value::Decimal(_)) => true,
        (Value::Str(_), Value::Str(_)) => true,
        (Value::Bytes(_), Value::Bytes(_)) => true,
        (Value::Array(_), Value::Array(_)) => true,
        (Value::Object(_), Value::Object(_)) => true,
        _ => false,
    }
}

fn kinds_match(e: &Value, a: &Value) -> (r: bool)
    ensures
        r == same_kind(*e, *a),
{
    match (e, a) {
        (Value::Null, Value::Null) => true,
        (Value::Bool(_), Value::Bool(_)) => true,
        (Value::Integer(_), Value::Integer(_)) => true,
        (Value::Decimal(_), Value::Decimal(_)) => true,
        (Value::Str(_), Value::Str(_)) => true,
        (Value::Bytes(_), Value::Bytes(_)) => true,
        (Value::Array(_), Value::Array(_)) => true,
        (Value::Object(_), Value::Object(_)) => true,
        _ => false,
    }
}

/// The error text when two values differ in kind under type matching.
pub open spec fn type_err(e: Value, a: Value) -> Seq<char> {
    "Expected '"@ + display_txt(e) + "' to be the same type as '"@ + display_txt(a) + "'"@
}

/// The bytes a value stands for when its content type is sniffed: byte data
/// gives its bytes, a string its UTF-8 bytes, anything else the UTF-8 bytes
/// of its JSON text.
pub open spec fn data_of(v: Value) -> Seq<u8> {
    match v {
        Value::Bytes(b) => b@,
        Value::Str(s) => vstd::utf8::encode_utf8(s@),
        _ => vstd::utf8::encode_utf8(json_txt(v)),
    }
}

/// The base media type: everything before the first `;`, trimmed and ASCII
/// lower-cased.
pub open spec fn media_base(s: Seq<char>) -> Seq<char> {
    crate::strings::lower_seq(crate::strings::trimmed(crate::strings::split_on(s, ';')[0]))
}

fn media_base_exec(s: &str) -> (r: Vec<char>)
    ensures
        r@ == media_base(s@),
{
    let v = str_to_chars(s);
    let pieces = crate::strings::split_chars(&v, ';');
    proof {
        assert(crate::strings::split_on(s@, ';').len() > 0);
        assert(pieces@.len() > 0);
        assert(pieces@[0]@ == pieces.deep_view()[0]);
    }
    let t = crate::strings::trim_chars(&pieces[0]);
    crate::strings::lower_chars(&t)
}

/// The outcome of applying one rule to an expected and an actual document
/// value: `Ok`, or the exact diagnostic text. Type-family rules check kinds
/// and, on lists, lengths (suppressed when the rule cascaded from an
/// ancestor); numeric rules check the actual value's numeric class; regular
/// expressions and substring checks decode byte data as UTF-8 first; rules
/// that do not bear on a single document value pass.
pub open spec fn spec_value_match(
    e: Value,
    a: Value,
    matcher: MatchingRule,
    cascaded: bool,
) -> Result<(), Seq<char>> {
    match matcher {
        MatchingRule::Regex(p) => match regex_compile_error(p@) {
            Some(err) => Err("'"@ + p@ + "' is not a valid regular expression - "@ + err),
            None => match a {
                Value::Bytes(b) => if !vstd::utf8::valid_utf8(b@) {
                    Err("Could not convert the actual bytes into a UTF-8 string"@)
                } else {
                    match regex_outcome(p@, vstd::utf8::decode_utf8(b@)) {
                        Ok(true) => Ok(()),
                        Ok(false) => Err("Expected '"@ + vstd::utf8::decode_utf8(b@)
                            + "' to match '"@ + p@ + "'"@),
                        Err(err) => Err("Could not match '"@ + vstd::utf8::decode_utf8(b@)
                            + "' against '"@ + p@ + "' - "@ + err),
                    }
                },
                _ => match regex_outcome(p@, display_txt(a)) {
                    Ok(true) => Ok(()),
                    Ok(false) => Err("Expected '"@ + display_txt(a) + "' to match '"@ + p@
                        + "'"@),
                    Err(err) => Err("Could not match '"@ + display_txt(a) + "' against '"@ + p@
                        + "' - "@ + err),
                },
            },
        },
        MatchingRule::Include(sub) => match a {
            Value::Bytes(b) => if !vstd::utf8::valid_utf8(b@) {
                Err("Could not convert the actual bytes into a UTF-8 string"@)
            } else if contains_seq(vstd::utf8::decode_utf8(b@), sub@) {
                Ok(())
            } else {
                Err("Expected '"@ + vstd::utf8::decode_utf8(b@) + "' to include '"@ + sub@
                    + "'"@)
            },
            _ => if contains_seq(display_txt(a), sub@) {
                Ok(())
            } else {
                Err("Expected '"@ + display_txt(a) + "' to include '"@ + sub@ + "'"@)
            },
        },
        MatchingRule::Type => if same_kind(e, a) {
            Ok(())
        } else {
            Err(type_err(e, a))
        },
        MatchingRule::MinType(min) => if !same_kind(e, a) {
            Err(type_err(e, a))
        } else {
            match (e, a) {
                (Value::Array(_), Value::Array(items)) => if !cascaded && items@.len() < min {
                    Err("Expected '"@ + display_txt(a) + "' to have at least "@ + dec_digits(
                        min as nat,
                    ) + " item(s)"@)
                } else {
                    Ok(())
                },
                _ => Ok(()),
            }
        },
        MatchingRule::MaxType(max) => if !same_kind(e, a) {
            Err(type_err(e, a))
        } else {
            match (e, a) {
                (Value::Array(_), Value::Array(items)) => if !cascaded && items@.len() > max {
                    Err("Expected '"@ + display_txt(a) + "' to have at most "@ + dec_digits(
                        max as nat,
                    ) + " item(s)"@)
                } else {
                    Ok(())
                },
                _ => Ok(()),
            }
        },
        MatchingRule::MinMaxType(min, max) => if !same_kind(e, a) {
            Err(type_err(e, a))
        } else {
            match (e, a) {
                (Value::Array(_), Value::Array(items)) => if !cascaded && items@.len() < min {
                    Err("Expected '"@ + display_txt(a) + "' to have at least "@ + dec_digits(
                        min as nat,
                    ) + " item(s)"@)
                } else if !cascaded && items@.len() > max {
                    Err("Expected '"@ + display_txt(a) + "' to have at most "@ + dec_digits(
                        max as nat,
                    ) + " item(s)"@)
                } else {
                    Ok(())
                },
                _ => Ok(()),
            }
        },
        MatchingRule::Equality => if value_eq(e, a) {
            Ok(())
        } else {
            Err("Expected '"@ + display_txt(e) + "' to be equal to '"@ + display_txt(a) + "'"@)
        },
        MatchingRule::Values => if value_eq(e, a) {
            Ok(())
        } else {
            Err("Expected '"@ + display_txt(e) + "' to be equal to '"@ + display_txt(a) + "'"@)
        },
        MatchingRule::Null => match a {
            Value::Null => Ok(()),
            _ => Err("Expected '"@ + display_txt(a) + "' to be a null value"@),
        },
        MatchingRule::Integer => match a {
            Value::Integer(_) => Ok(()),
            _ => Err("Expected '"@ + display_txt(a) + "' to be an integer value"@),
        },
        MatchingRule::Decimal => match a {
            Value::Decimal(_) => Ok(()),
            _ => Err("Expected '"@ + display_txt(a) + "' to be a decimal value"@),
        },
        MatchingRule::Number => match a {
            Value::Integer(_) => Ok(()),
            Value::Decimal(_) => Ok(()),
            _ => Err("Expected '"@ + display_txt(a) + "' to be a number"@),
        },
        MatchingRule::Date(f) => if !safe_datetime_format(f@) {
            Err(bad_format_msg(f@))
        } else {
            match datetime_check(display_txt(a), f@) {
                None => Ok(()),
                Some(err) => Err("Expected '"@ + json_txt(a) + "' to match a date format of '"@
                    + f@ + "': "@ + err),
            }
        },
        MatchingRule::Time(f) => if !safe_datetime_format(f@) {
            Err(bad_format_msg(f@))
        } else {
            match datetime_check(display_txt(a), f@) {
                None => Ok(()),
                Some(err) => Err("Expected '"@ + json_txt(a) + "' to match a time format of '"@
                    + f@ + "': "@ + err),
            }
        },
        MatchingRule::Timestamp(f) => if !safe_datetime_format(f@) {
            Err(bad_format_msg(f@))
        } else {
            match datetime_check(display_txt(a), f@) {
                None => Ok(()),
                Some(err) => Err("Expected '"@ + json_txt(a) + "' to match a timestamp format of '"@
                    + f@ + "': "@ + err),
            }
        },
        MatchingRule::ContentType(ct) => match detected_media(data_of(a)) {
            Some(det) => if media_base(det) == media_base(ct@) {
                Ok(())
            } else {
                Err("Expected data to have a content type of '"@ + ct@ + "' but was '"@ + det
                    + "'"@)
            },
            None => Err("Expected data to have a content type of '"@ + ct@
                + "' but the data is not recognisable"@),
        },
        MatchingRule::Boolean => match a {
            Value::Bool(_) => Ok(()),
            Value::Str(s) => if s@ == "true"@ || s@ == "false"@ {
                Ok(())
            } else {
                Err("Expected '"@ + display_txt(a) + "' to match a boolean"@)
            },
            _ => Err("Expected '"@ + display_txt(a) + "' to match a boolean"@),
        },
        _ => Ok(()),
    }
}

/// Applies one rule to an expected and an actual document value (see
/// [`spec_value_match`]).
pub fn value_matches_with(e: &Value, a: &Value, matcher: &MatchingRule, cascaded: bool) -> (r:
    Result<(), String>)
    ensures
        r is Ok <==> spec_value_match(*e, *a, *matcher, cascaded) is Ok,
        r matches Err(t) ==> spec_value_match(*e, *a, *matcher, cascaded) matches Err(m) && t@
            == m,
{
    match matcher {
        MatchingRule::Regex(p) => {
            let target = match a {
                Value::Bytes(b) => match crate::trusted::bytes_to_utf8(b) {
                    Some(s) => s,
                    None => {
                        // The pattern is still compiled first: a bad pattern
                        // outranks undecodable data, as the contract says.
                        return match regex_eval(p.as_str(), "") {
                            RegexOutcome::BadPattern(err) => Err(
                                cat4(
                                    "'",
                                    p.as_str(),
                                    "' is not a valid regular expression - ",
                                    err.as_str(),
                                ),
                            ),
                            _ => Err(
                                String::from_str(
                                    "Could not convert the actual bytes into a UTF-8 string",
                                ),
                            ),
                        };
                    },
                },
                _ => a.display(),
            };
            match regex_eval(p.as_str(), target.as_str()) {
                RegexOutcome::BadPattern(err) => Err(
                    cat4("'", p.as_str(), "' is not a valid regular expression - ", err.as_str()),
                ),
                RegexOutcome::Matched(true) => Ok(()),
                RegexOutcome::Matched(false) => Err(
                    cat5("Expected '", target.as_str(), "' to match '", p.as_str(), "'"),
                ),
                RegexOutcome::MatchAborted(err) => Err(
                    cat6(
                        "Could not match '",
                        target.as_str(),
                        "' against '",
                        p.as_str(),
                        "' - ",
                        err.as_str(),
                    ),
                ),
            }
        },
        MatchingRule::Include(sub) => {
            let target = match a {
                Value::Bytes(b) => match crate::trusted::bytes_to_utf8(b) {
                    Some(s) => s,
                    None => {
                        return Err(
                            String::from_str("Could not convert the actual bytes into a UTF-8 string"),
                        );
                    },
                },
                _ => a.display(),
            };
            let tv = str_to_chars(target.as_str());
            let sv = str_to_chars(sub.as_str());
            if crate::strings::contains_chars(&tv, &sv) {
                Ok(())
            } else {
                Err(cat5("Expected '", target.as_str(), "' to include '", sub.as_str(), "'"))
            }
        },
        MatchingRule::Type => if kinds_match(e, a) {
            Ok(())
        } else {
            Err(type_err_exec(e, a))
        },
        MatchingRule::MinType(min) => if !kinds_match(e, a) {
            Err(type_err_exec(e, a))
        } else {
            match (e, a) {
                (Value::Array(_), Value::Array(items)) => if !cascaded && items.len() < *min {
                    let d = a.display();
                    let n = crate::numbers::usize_to_string(*min);
                    Err(cat5("Expected '", d.as_str(), "' to have at least ", n.as_str(),
                        " item(s)"))
                } else {
                    Ok(())
                },
                _ => Ok(()),
            }
        },
        MatchingRule::MaxType(max) => if !kinds_match(e, a) {
            Err(type_err_exec(e, a))
        } else {
            match (e, a) {
                (Value::Array(_), Value::Array(items)) => if !cascaded && items.len() > *max {
                    let d = a.display();
                    let n = crate::numbers::usize_to_string(*max);
                    Err(cat5("Expected '", d.as_str(), "' to have at most ", n.as_str(),
                        " item(s)"))
                } else {
                    Ok(())
                },
                _ => Ok(()),
            }
        },
        MatchingRule::MinMaxType(min, max) => if !kinds_match(e, a) {
            Err(type_err_exec(e, a))
        } else {
            match (e, a) {
                (Value::Array(_), Value::Array(items)) => if !cascaded && items.len() < *min {
                    let d = a.display();
                    let n = crate::numbers::usize_to_string(*min);
                    Err(cat5("Expected '", d.as_str(), "' to have at least ", n.as_str(),
                        " item(s)"))
                } else if !cascaded && items.len() > *max {
                    let d = a.display();
                    let n = crate::numbers::usize_to_string(*max);
                    Err(cat5("Expected '", d.as_str(), "' to have at most ", n.as_str(),
                        " item(s)"))
                } else {
                    Ok(())
                },
                _ => Ok(()),
            }
        },
        MatchingRule::Equality => if e.equals(a) {
            Ok(())
        } else {
            let de = e.display();
            let da = a.display();
            Err(cat5("Expected '", de.as_str(), "' to be equal to '", da.as_str(), "'"))
        },
        MatchingRule::Values => if e.equals(a) {
            Ok(())
        } else {
            let de = e.display();
            let da = a.display();
            Err(cat5("Expected '", de.as_str(), "' to be equal to '", da.as_str(), "'"))
        },
        MatchingRule::Null => match a {
            Value::Null => Ok(()),
            _ => {
                let da = a.display();
                Err(cat3("Expected '", da.as_str(), "' to be a null value"))
            },
        },
        MatchingRule::Integer => match a {
            Value::Integer(_) => Ok(()),
            _ => {
                let da = a.display();
                Err(cat3("Expected '", da.as_str(), "' to be an integer value"))
            },
        },
        MatchingRule::Decimal => match a {
            Value::Decimal(_) => Ok(()),
            _ => {
                let da = a.display();
                Err(cat3("Expected '", da.as_str(), "' to be a decimal value"))
            },
        },
        MatchingRule::Number => match a {
            Value::Integer(_) => Ok(()),
            Value::Decimal(_) => Ok(()),
            _ => {
                let da = a.display();
                Err(cat3("Expected '", da.as_str(), "' to be a number"))
            },
        },
        MatchingRule::Date(f) => if !is_safe_datetime_format(f.as_str()) {
            Err(crate::matchers::bad_format_msg_exec(f.as_str()))
        } else {
            let da = a.display();
            match validate_datetime_str(da.as_str(), f.as_str()) {
                Ok(_) => Ok(()),
                Err(err) => {
                    let ja = a.to_json_str();
                    Err(cat6("Expected '", ja.as_str(), "' to match a date format of '",
                        f.as_str(), "': ", err.as_str()))
                },
            }
        },
        MatchingRule::Time(f) => if !is_safe_datetime_format(f.as_str()) {
            Err(crate::matchers::bad_format_msg_exec(f.as_str()))
        } else {
            let da = a.display();
            match validate_datetime_str(da.as_str(), f.as_str()) {
                Ok(_) => Ok(()),
                Err(err) => {
                    let ja = a.to_json_str();
                    Err(cat6("Expected '", ja.as_str(), "' to match a time format of '",
                        f.as_str(), "': ", err.as_str()))
                },
            }
        },
        MatchingRule::Timestamp(f) => if !is_safe_datetime_format(f.as_str()) {
            Err(crate::matchers::bad_format_msg_exec(f.as_str()))
        } else {
            let da = a.display();
            match validate_datetime_str(da.as_str(), f.as_str()) {
                Ok(_) => Ok(()),
                Err(err) => {
                    let ja = a.to_json_str();
                    Err(cat6("Expected '", ja.as_str(), "' to match a timestamp format of '",
                        f.as_str(), "': ", err.as_str()))
                },
            }
        },
        MatchingRule::ContentType(ct) => {
            let data = value_data(a);
            match detect_content_type(&data) {
                Some(det) => {
                    let db = media_base_exec(det.as_str());
                    let cb = media_base_exec(ct.as_str());
                    if crate::strings::eq_chars(&db, &cb) {
                        Ok(())
                    } else {
                        Err(cat5("Expected data to have a content type of '", ct.as_str(),
                            "' but was '", det.as_str(), "'"))
                    }
                },
                None => Err(cat3("Expected data to have a content type of '", ct.as_str(),
                    "' but the data is not recognisable")),
            }
        },
        MatchingRule::Boolean => match a {
            Value::Bool(_) => Ok(()),
            Value::Str(s) => if str_eq(s.as_str(), "true") || str_eq(s.as_str(), "false") {
                Ok(())
            } else {
                let da = a.display();
                Err(cat3("Expected '", da.as_str(), "' to match a boolean"))
            },
            _ => {
                let da = a.display();
                Err(cat3("Expected '", da.as_str(), "' to match a boolean"))
            },
        },
        _ => Ok(()),
    }
}

fn type_err_exec(e: &Value, a: &Value) -> (r: String)
    ensures
        r@ == type_err(*e, *a),
{
    let de = e.display();
    let da = a.display();
    cat5("Expected '", de.as_str(), "' to be the same type as '", da.as_str(), "'")
}

fn value_data(a: &Value) -> (r: Vec<u8>)
    ensures
        r@ == data_of(*a),
{
    match a {
        Value::Bytes(b) => {
            let mut out: Vec<u8> = Vec::new();
            let mut i: usize = 0;
            while i < b.len()
                invariant
                    i <= b@.len(),
                    out@ == b@.subrange(0, i as int),
                decreases b@.len() - i,
            {
                out.push(b[i]);
                i += 1;
                proof {
                    assert(out@ =~= b@.subrange(0, i as int));
                }
            }
            proof {
                assert(b@.subrange(0, b@.len() as int) =~= b@);
            }
            out
        },
        Value::Str(s) => s.as_str().as_bytes_vec(),
        _ => {
            let t = a.to_json_str();
            t.as_str().as_bytes_vec()
        },
    }
}


/// The keys of a map's entries, in entry order.
pub open spec fn obj_keys(em: Seq<(String, Value)>) -> Seq<Seq<char>> {
    Seq::new(em.len(), |i: int| em[i].0@)
}

/// The value at the first entry whose key reads `k`, if any.
pub open spec fn obj_lookup(em: Seq<(String, Value)>, k: Seq<char>) -> Option<Value>
    decreases em.len(),
{
    if em.len() == 0 {
        None
    } else if em[0].0@ == k {
        Some(em[0].1)
    } else {
        obj_lookup(em.subrange(1, em.len() as int), k)
    }
}

proof fn lemma_obj_lookup_first(em: Seq<(String, Value)>, k: Seq<char>, idx: int)
    requires
        0 <= idx < em.len(),
        em[idx].0@ == k,
        forall|j: int| 0 <= j < idx ==> em[j].0@ != k,
    ensures
        obj_lookup(em, k) == Some(em[idx].1),
    decreases em.len(),
{
    if idx > 0 {
        let t = em.subrange(1, em.len() as int);
        assert(forall|j: int| 0 <= j < idx - 1 ==> t[j] == em[j + 1]);
        lemma_obj_lookup_first(t, k, idx - 1);
    }
}

proof fn lemma_obj_lookup_none(em: Seq<(String, Value)>, k: Seq<char>)
    requires
        forall|j: int| 0 <= j < em.len() ==> em[j].0@ != k,
    ensures
        obj_lookup(em, k) is None,
    decreases em.len(),
{
    if em.len() > 0 {
        let t = em.subrange(1, em.len() as int);
        assert(forall|j: int| 0 <= j < t.len() ==> t[j] == em[j + 1]);
        lemma_obj_lookup_none(t, k);
    }
}

/// The index of the first entry whose key reads `k`.
fn obj_index(em: &Vec<(String, Value)>, k: &str) -> (r: Option<usize>)
    ensures
        match r {
            Some(i) => {
                &&& i < em@.len()
                &&& em@[i as int].0@ == k@
                &&& obj_lookup(em@, k@) == Some(em@[i as int].1)
            },
            None => obj_lookup(em@, k@) is None,
        },
{
    let mut i: usize = 0;
    while i < em.len()
        invariant
            i <= em@.len(),
            forall|j: int| 0 <= j < i ==> em@[j].0@ != k@,
        decreases em@.len() - i,
    {
        if str_eq(em[i].0.as_str(), k) {
            proof {
                lemma_obj_lookup_first(em@, k@, i as int);
            }
            return Some(i);
        }
        i += 1;
    }
    proof {
        lemma_obj_lookup_none(em@, k@);
    }
    None
}

/// Insertion of a key into a sorted key list, keeping the order.
pub open spec fn insert_sorted(x: Seq<char>, s: Seq<Seq<char>>) -> Seq<Seq<char>>
    decreases s.len(),
{
    if s.len() == 0 {
        seq![x]
    } else if lex_le(x, s[0]) {
        seq![x] + s
    } else {
        seq![s[0]] + insert_sorted(x, s.subrange(1, s.len() as int))
    }
}

/// The keys sorted lexicographically by Unicode scalar value (insertion
/// sort, stable).
pub open spec fn sort_keys(s: Seq<Seq<char>>) -> Seq<Seq<char>>
    decreases s.len(),
{
    if s.len() == 0 {
        Seq::empty()
    } else {
        insert_sorted(s[0], sort_keys(s.subrange(1, s.len() as int)))
    }
}

fn cons_key(s: String, rest: Vec<String>) -> (r: Vec<String>)
    ensures
        r.deep_view() == seq![s@] + rest.deep_view(),
{
    let ghost sv = s@;
    let ghost rest0 = rest;
    let mut r: Vec<String> = Vec::new();
    r.push(s);
    let mut tail = rest;
    r.append(&mut tail);
    proof {
        assert forall|k: int| 0 <= k < r@.len() implies r.deep_view()[k] == (seq![sv]
            + rest0.deep_view())[k] by {
            if k == 0 {
                assert(r@[0]@ == sv);
            } else {
                assert(r@[k] == rest0@[k - 1]);
            }
        }
        assert(r.deep_view() =~= seq![sv] + rest0.deep_view());
    }
    r
}

fn insert_sorted_exec(x: String, s: Vec<String>) -> (r: Vec<String>)
    ensures
        r.deep_view() == insert_sorted(x@, s.deep_view()),
    decreases s@.len(),
{
    if s.len() == 0 {
        let ghost xv = x@;
        let mut r: Vec<String> = Vec::new();
        r.push(x);
        proof {
            assert(r.deep_view() =~= seq![xv]);
        }
        r
    } else {
        let xs = crate::strings::str_to_chars(x.as_str());
        let hs = crate::strings::str_to_chars(s[0].as_str());
        proof {
            assert(s.deep_view()[0] == s@[0]@);
        }
        if crate::strings::chars_le(&xs, &hs) {
            cons_key(x, s)
        } else {
            let ghost s0 = s;
            let mut s2 = s;
            let head = s2.remove(0);
            let ghost hv = head@;
            proof {
                assert forall|k: int| 0 <= k < s2@.len() implies s2.deep_view()[k]
                    == s0.deep_view().subrange(1, s0@.len() as int)[k] by {
                    assert(s2@[k] == s0@[k + 1]);
                }
                assert(s2.deep_view() =~= s0.deep_view().subrange(1, s0@.len() as int));
            }
            let rest = insert_sorted_exec(x, s2);
            let r = cons_key(head, rest);
            proof {
                assert(r.deep_view() =~= insert_sorted(x@, s0.deep_view()));
            }
            r
        }
    }
}

fn sort_keys_exec(s: Vec<String>) -> (r: Vec<String>)
    ensures
        r.deep_view() == sort_keys(s.deep_view()),
    decreases s@.len(),
{
    if s.len() == 0 {
        let r: Vec<String> = Vec::new();
        proof {
            assert(r.deep_view() =~= Seq::<Seq<char>>::empty());
        }
        r
    } else {
        let ghost s0 = s;
        let mut s2 = s;
        let head = s2.remove(0);
        proof {
            assert forall|k: int| 0 <= k < s2@.len() implies s2.deep_view()[k]
                == s0.deep_view().subrange(1, s0@.len() as int)[k] by {
                assert(s2@[k] == s0@[k + 1]);
            }
            assert(s2.deep_view() =~= s0.deep_view().subrange(1, s0@.len() as int));
            assert(head@ == s0.deep_view()[0]);
        }
        let sorted_rest = sort_keys_exec(s2);
        insert_sorted_exec(head, sorted_rest)
    }
}

/// The keys of the entries, in entry order.
fn obj_keys_exec(em: &Vec<(String, Value)>) -> (r: Vec<String>)
    ensures
        r.deep_view() == obj_keys(em@),
{
    let mut r: Vec<String> = Vec::new();
    let mut i: usize = 0;
    while i < em.len()
        invariant
            i <= em@.len(),
            r@.len() == i,
            forall|j: int| 0 <= j < i ==> r.deep_view()[j] == em@[j].0@,
        decreases em@.len() - i,
    {
        let ghost r0 = r;
        let k = em[i].0.clone();
        proof {
            assert(k@ == em@[i as int].0@);
        }
        r.push(k);
        i += 1;
        proof {
            assert forall|j: int| 0 <= j < i implies r.deep_view()[j] == em@[j].0@ by {
                if j < i - 1 {
                    assert(r@[j] == r0@[j]);
                    assert(r0.deep_view()[j] == r0@[j]@);
                }
            }
        }
    }
    proof {
        assert(r.deep_view() =~= obj_keys(em@));
    }
    r
}

/// The sorted expected keys that the actual map is missing, in sorted order.
pub open spec fn missing_from(
    keys: Seq<Seq<char>>,
    i: int,
    am: Seq<(String, Value)>,
) -> Seq<Seq<char>>
    decreases keys.len() - i,
{
    if i < 0 || i >= keys.len() {
        Seq::empty()
    } else if obj_lookup(am, keys[i]) is Some {
        missing_from(keys, i + 1, am)
    } else {
        seq![keys[i]] + missing_from(keys, i + 1, am)
    }
}

fn missing_from_exec(keys: &Vec<String>, i: usize, am: &Vec<(String, Value)>) -> (r: Vec<String>)
    requires
        i <= keys@.len(),
    ensures
        r.deep_view() == missing_from(keys.deep_view(), i as int, am@),
    decreases keys@.len() - i,
{
    if i >= keys.len() {
        let r: Vec<String> = Vec::new();
        proof {
            assert(r.deep_view() =~= Seq::<Seq<char>>::empty());
        }
        r
    } else {
        proof {
            assert(keys.deep_view()[i as int] == keys@[i as int]@);
        }
        match obj_index(am, keys[i].as_str()) {
            Some(_) => missing_from_exec(keys, i + 1, am),
            None => {
                let k = keys[i].clone();
                let rest = missing_from_exec(keys, i + 1, am);
                cons_key(k, rest)
            },
        }
    }
}

/// The `{"key":"value"}` rendering diagnostics use for a map when its keys
/// are reported: each value appears as its plain display, quoted.
pub open spec fn keymap_txt(em: Seq<(String, Value)>) -> Seq<char> {
    seq!['{'] + keymap_entries(em, 0) + seq!['}']
}

pub open spec fn keymap_entries(em: Seq<(String, Value)>, i: int) -> Seq<char>
    decreases em.len() - i,
{
    if i < 0 || i >= em.len() {
        Seq::empty()
    } else {
        let one = seq!['"'] + escaped(em[i].0@) + seq!['"', ':', '"'] + escaped(
            display_txt(em[i].1),
        ) + seq!['"'];
        if i == em.len() - 1 {
            one
        } else {
            one + seq![','] + keymap_entries(em, i + 1)
        }
    }
}

fn keymap_txt_exec(em: &Vec<(String, Value)>) -> (r: String)
    ensures
        r@ == keymap_txt(em@),
{
    let body = keymap_entries_exec(em, 0);
    let r = cat3("{", body.as_str(), "}");
    proof {
        reveal_strlit("{");
        reveal_strlit("}");
        assert(r@ =~= keymap_txt(em@));
    }
    r
}

fn keymap_entries_exec(em: &Vec<(String, Value)>, i: usize) -> (r: String)
    requires
        i <= em@.len(),
    ensures
        r@ == keymap_entries(em@, i as int),
    decreases em@.len() - i,
{
    if i >= em.len() {
        String::new()
    } else {
        let ke = crate::value::escape_chars(em[i].0.as_str());
        let key = crate::strings::chars_to_string(&ke);
        let d = em[i].1.display();
        let de = crate::value::escape_chars(d.as_str());
        let dv = crate::strings::chars_to_string(&de);
        let one = cat6("\"", key.as_str(), "\"", ":", "\"", dv.as_str());
        let one = cat2(one.as_str(), "\"");
        proof {
            reveal_strlit("\"");
            reveal_strlit(":");
            assert(one@ =~= seq!['"'] + escaped(em@[i as int].0@) + seq!['"', ':', '"'] + escaped(
                display_txt(em@[i as int].1),
            ) + seq!['"']);
        }
        if i == em.len() - 1 {
            one
        } else {
            let rest = keymap_entries_exec(em, i + 1);
            let r = cat3(one.as_str(), ",", rest.as_str());
            proof {
                reveal_strlit(",");
                assert(r@ =~= keymap_entries(em@, i as int));
            }
            r
        }
    }
}

/// The `["item","item"]` rendering diagnostics use for a list when a
/// variant is not found: each element as its plain display, quoted.
pub open spec fn strlist_txt(al: Seq<Value>) -> Seq<char> {
    seq!['['] + strlist_items(al, 0) + seq![']']
}

pub open spec fn strlist_items(al: Seq<Value>, i: int) -> Seq<char>
    decreases al.len() - i,
{
    if i < 0 || i >= al.len() {
        Seq::empty()
    } else {
        let one = seq!['"'] + escaped(display_txt(al[i])) + seq!['"'];
        if i == al.len() - 1 {
            one
        } else {
            one + seq![','] + strlist_items(al, i + 1)
        }
    }
}

fn strlist_txt_exec(al: &Vec<Value>) -> (r: String)
    ensures
        r@ == strlist_txt(al@),
{
    let body = strlist_items_exec(al, 0);
    let r = cat3("[", body.as_str(), "]");
    proof {
        reveal_strlit("[");
        reveal_strlit("]");
        assert(r@ =~= strlist_txt(al@));
    }
    r
}

fn strlist_items_exec(al: &Vec<Value>, i: usize) -> (r: String)
    requires
        i <= al@.len(),
    ensures
        r@ == strlist_items(al@, i as int),
    decreases al@.len() - i,
{
    if i >= al.len() {
        String::new()
    } else {
        let d = al[i].display();
        let de = crate::value::escape_chars(d.as_str());
        let dv = crate::strings::chars_to_string(&de);
        let one = cat3("\"", dv.as_str(), "\"");
        proof {
            reveal_strlit("\"");
            assert(one@ =~= seq!['"'] + escaped(display_txt(al@[i as int])) + seq!['"']);
        }
        if i == al.len() - 1 {
            one
        } else {
            let rest = strlist_items_exec(al, i + 1);
            let r = cat3(one.as_str(), ",", rest.as_str());
            proof {
                reveal_strlit(",");
                assert(r@ =~= strlist_items(al@, i as int));
            }
            r
        }
    }
}

/// The key-set report for two maps: under `AllowUnexpectedKeys` a single
/// mismatch when the actual map is missing expected keys; under
/// `NoUnexpectedKeys` a single mismatch when the sorted key lists differ.
pub open spec fn spec_match_keys(
    path: Seq<Seq<char>>,
    em: Seq<(String, Value)>,
    am: Seq<(String, Value)>,
    config: DiffConfig,
) -> Seq<MismatchV> {
    let eks = sort_keys(obj_keys(em));
    let aks = sort_keys(obj_keys(am));
    let missing = missing_from(eks, 0, am);
    if config == DiffConfig::AllowUnexpectedKeys && missing.len() > 0 {
        seq![
            MismatchV::BodyMismatch {
                path: join_with(path, "."@),
                expected: Some(keymap_txt(em)),
                actual: Some(keymap_txt(am)),
                mismatch: "Actual map is missing the following keys: "@ + join_with(
                    missing,
                    ", "@,
                ),
            },
        ]
    } else if config == DiffConfig::NoUnexpectedKeys && eks != aks {
        seq![
            MismatchV::BodyMismatch {
                path: join_with(path, "."@),
                expected: Some(keymap_txt(em)),
                actual: Some(keymap_txt(am)),
                mismatch: "Expected a Map with keys "@ + join_with(eks, ", "@)
                    + " but received one with keys "@ + join_with(aks, ", "@),
            },
        ]
    } else {
        Seq::empty()
    }
}

/// Compares the key sets of two maps under the configuration (see
/// [`spec_match_keys`]).
pub fn match_keys(
    path: &Vec<String>,
    em: &Vec<(String, Value)>,
    am: &Vec<(String, Value)>,
    config: DiffConfig,
) -> (r: Vec<Mismatch>)
    ensures
        r.deep_view() == spec_match_keys(path.deep_view(), em@, am@, config),
{
    let eks = sort_keys_exec(obj_keys_exec(em));
    let aks = sort_keys_exec(obj_keys_exec(am));
    let missing = missing_from_exec(&eks, 0, am);
    let mut r: Vec<Mismatch> = Vec::new();
    if matches!(config, DiffConfig::AllowUnexpectedKeys) && missing.len() > 0 {
        let joined = crate::strings::join_strings(path, ".");
        let miss_txt = crate::strings::join_strings(&missing, ", ");
        let m = Mismatch::BodyMismatch {
            path: joined,
            expected: Some(keymap_txt_exec(em)),
            actual: Some(keymap_txt_exec(am)),
            mismatch: cat2(
                "Actual map is missing the following keys: ",
                miss_txt.as_str(),
            ),
        };
        let ghost mv = m@;
        r.push(m);
        proof {
            assert(missing.deep_view().len() > 0);
            assert(r.deep_view() =~= spec_match_keys(path.deep_view(), em@, am@, config));
        }
    } else if matches!(config, DiffConfig::NoUnexpectedKeys) && !key_lists_equal(&eks, &aks) {
        let joined = crate::strings::join_strings(path, ".");
        let eks_txt = crate::strings::join_strings(&eks, ", ");
        let aks_txt = crate::strings::join_strings(&aks, ", ");
        let m = Mismatch::BodyMismatch {
            path: joined,
            expected: Some(keymap_txt_exec(em)),
            actual: Some(keymap_txt_exec(am)),
            mismatch: cat4(
                "Expected a Map with keys ",
                eks_txt.as_str(),
                " but received one with keys ",
                aks_txt.as_str(),
            ),
        };
        let ghost mv = m@;
        r.push(m);
        proof {
            assert(r.deep_view() =~= spec_match_keys(path.deep_view(), em@, am@, config));
        }
    } else {
        proof {
            if matches!(config, DiffConfig::AllowUnexpectedKeys) {
                assert(missing.deep_view().len() == 0);
            }
            assert(r.deep_view() =~= spec_match_keys(path.deep_view(), em@, am@, config));
        }
    }
    r
}

fn key_lists_equal(a: &Vec<String>, b: &Vec<String>) -> (r: bool)
    ensures
        r == (a.deep_view() == b.deep_view()),
{
    if a.len() != b.len() {
        proof {
            assert(a.deep_view().len() != b.deep_view().len());
        }
        return false;
    }
    let mut i: usize = 0;
    while i < a.len()
        invariant
            a@.len() == b@.len(),
            i <= a@.len(),
            forall|j: int| 0 <= j < i ==> a.deep_view()[j] == b.deep_view()[j],
        decreases a@.len() - i,
    {
        if !str_eq(a[i].as_str(), b[i].as_str()) {
            proof {
                assert(a.deep_view()[i as int] != b.deep_view()[i as int]);
            }
            return false;
        }
        i += 1;
    }
    proof {
        assert(a.deep_view() =~= b.deep_view());
    }
    true
}


/// The looked-up path joined with dots, as mismatch records carry it.
pub open spec fn joined(path: Seq<Seq<char>>) -> Seq<char> {
    join_with(path, "."@)
}

/// The index of the first entry whose key reads `k`, or -1.
pub open spec fn obj_find(em: Seq<(String, Value)>, k: Seq<char>) -> int
    decreases em.len(),
{
    if em.len() == 0 {
        -1
    } else if em[0].0@ == k {
        0
    } else {
        let r = obj_find(em.subrange(1, em.len() as int), k);
        if r < 0 {
            -1
        } else {
            r + 1
        }
    }
}

/// One body mismatch for each error message, at the same path, quoting the
/// two values' JSON texts.
pub open spec fn errs_to_mm(path: Seq<Seq<char>>, e: Value, a: Value, errs: Seq<Seq<char>>) -> Seq<
    MismatchV,
> {
    Seq::new(
        errs.len(),
        |i: int|
            MismatchV::BodyMismatch {
                path: joined(path),
                expected: Some(json_txt(e)),
                actual: Some(json_txt(a)),
                mismatch: errs[i],
            },
    )
}

/// Whether every rule from index `i` on passes on the two values.
pub open spec fn v_all_ok(rules: Seq<MatchingRule>, i: int, e: Value, a: Value, c: bool) -> bool
    decreases rules.len() - i,
{
    if i < 0 || i >= rules.len() {
        true
    } else {
        spec_value_match(e, a, rules[i], c) is Ok && v_all_ok(rules, i + 1, e, a, c)
    }
}

/// Whether some rule from index `i` on passes on the two values.
pub open spec fn v_any_ok(rules: Seq<MatchingRule>, i: int, e: Value, a: Value, c: bool) -> bool
    decreases rules.len() - i,
{
    if i < 0 || i >= rules.len() {
        false
    } else {
        spec_value_match(e, a, rules[i], c) is Ok || v_any_ok(rules, i + 1, e, a, c)
    }
}

/// The error texts of the failing rules from index `i` on, in rule order.
pub open spec fn v_errs(rules: Seq<MatchingRule>, i: int, e: Value, a: Value, c: bool) -> Seq<
    Seq<char>,
>
    decreases rules.len() - i,
{
    if i < 0 || i >= rules.len() {
        Seq::empty()
    } else {
        match spec_value_match(e, a, rules[i], c) {
            Ok(_) => v_errs(rules, i + 1, e, a, c),
            Err(m) => seq![m] + v_errs(rules, i + 1, e, a, c),
        }
    }
}

/// A scalar leaf: the selected rules combined under their logic, or plain
/// equality when no matcher stands at the path; each failing message becomes
/// one body mismatch. A selected but empty rule list is an error at the call
/// site and yields the no-matcher mismatch.
pub open spec fn spec_compare_values(
    path: Seq<Seq<char>>,
    e: Value,
    a: Value,
    entries: Seq<MatcherEntry>,
    config: DiffConfig,
) -> Seq<MismatchV> {
    match best_of(entries, path) {
        Some(p) => {
            let rl = entries[p].rules;
            let casc = entries[p].tokens.deep_view().len() != path.len();
            if rl.rules@.len() == 0 {
                errs_to_mm(path, e, a, seq![no_matcher_msg(path)])
            } else {
                let passed = match rl.rule_logic {
                    RuleLogic::And => v_all_ok(rl.rules@, 0, e, a, casc),
                    RuleLogic::Or => v_any_ok(rl.rules@, 0, e, a, casc),
                };
                if passed {
                    Seq::empty()
                } else {
                    errs_to_mm(path, e, a, v_errs(rl.rules@, 0, e, a, casc))
                }
            }
        },
        None => match spec_value_match(e, a, MatchingRule::Equality, false) {
            Ok(_) => Seq::empty(),
            Err(m) => errs_to_mm(path, e, a, seq![m]),
        },
    }
}

/// The mismatch for two nodes of different kinds.
pub open spec fn kind_mm(path: Seq<Seq<char>>, e: Value, a: Value) -> MismatchV {
    MismatchV::BodyMismatch {
        path: joined(path),
        expected: Some(display_txt(e)),
        actual: Some(display_txt(a)),
        mismatch: "Type mismatch: Expected "@ + spec_type_of(e) + " "@ + display_txt(e)
            + " but received "@ + spec_type_of(a) + " "@ + display_txt(a),
    }
}

/// The full structural walk: compares the expected and actual values at a
/// path and yields every mismatch, in walk order. Maps and lists under a
/// selected matcher follow the rule (type-family rules recurse with their
/// counting constraints at this node only; `Values` matches actual entries
/// against expected entries regardless of keys; array-contains looks for
/// each variant somewhere in the actual list); without a matcher, maps
/// compare key sets under the configuration and recurse on shared keys,
/// lists compare element-wise and report a length difference, and leaves
/// fall to the selected scalar rules or equality.
pub open spec fn spec_compare(
    path: Seq<Seq<char>>,
    e: Value,
    a: Value,
    entries: Seq<MatcherEntry>,
    config: DiffConfig,
) -> Seq<MismatchV>
    decreases e, 9int, 0int,
{
    match (e, a) {
        (Value::Object(em), Value::Object(am)) => {
            if em@.len() == 0 && config == DiffConfig::NoUnexpectedKeys && am@.len() > 0 {
                seq![
                    MismatchV::BodyMismatch {
                        path: joined(path),
                        expected: Some(json_txt(e)),
                        actual: Some(json_txt(a)),
                        mismatch: "Expected an empty Map but received "@ + display_txt(a),
                    },
                ]
            } else {
                match best_of(entries, path) {
                    Some(p) => spec_map_rules(
                        path,
                        e,
                        a,
                        entries[p].rules.rules@,
                        0,
                        entries[p].tokens.deep_view().len() != path.len(),
                        entries,
                        config,
                    ),
                    None => spec_match_keys(path, em@, am@, config) + spec_map_walk(
                        path,
                        e,
                        a,
                        0,
                        false,
                        entries,
                        config,
                    ),
                }
            }
        },
        (Value::Object(_), _) => seq![kind_mm(path, e, a)],
        (Value::Array(el), Value::Array(al)) => {
            match best_of(entries, path) {
                Some(p) => spec_list_rules(
                    path,
                    e,
                    a,
                    entries[p].rules.rules@,
                    0,
                    entries[p].tokens.deep_view().len() != path.len(),
                    entries,
                    config,
                ),
                None => {
                    if el@.len() == 0 && al@.len() > 0 {
                        seq![
                            MismatchV::BodyMismatch {
                                path: joined(path),
                                expected: Some(json_txt(e)),
                                actual: Some(json_txt(a)),
                                mismatch: "Expected an empty List but received "@ + display_txt(a),
                            },
                        ]
                    } else {
                        let content = spec_list_content(path, e, a, 0, entries, config);
                        if el@.len() != al@.len() {
                            content + seq![
                                MismatchV::BodyMismatch {
                                    path: joined(path),
                                    expected: Some(json_txt(e)),
                                    actual: Some(json_txt(a)),
                                    mismatch: "Expected a List with "@ + dec_digits(
                                        el@.len() as nat,
                                    ) + " elements but received "@ + dec_digits(al@.len() as nat)
                                        + " elements"@,
                                },
                            ]
                        } else {
                            content
                        }
                    }
                },
            }
        },
        (Value::Array(_), _) => seq![kind_mm(path, e, a)],
        (_, _) => spec_compare_values(path, e, a, entries, config),
    }
}

/// The rules selected at a map node, applied in order.
pub open spec fn spec_map_rules(
    path: Seq<Seq<char>>,
    e: Value,
    a: Value,
    rules: Seq<MatchingRule>,
    i: int,
    casc: bool,
    entries: Seq<MatcherEntry>,
    config: DiffConfig,
) -> Seq<MismatchV>
    decreases e, 8int, rules.len() - i,
{
    if i < 0 || i >= rules.len() {
        Seq::empty()
    } else {
        spec_map_rule(path, e, a, rules[i], casc, entries, config) + spec_map_rules(
            path,
            e,
            a,
            rules,
            i + 1,
            casc,
            entries,
            config,
        )
    }
}

/// One rule applied at a map node: `Values` walks the actual entries;
/// type-family rules check this node and walk the expected entries,
/// reporting missing ones; other rules check this node alone.
pub open spec fn spec_map_rule(
    path: Seq<Seq<char>>,
    e: Value,
    a: Value,
    rule: MatchingRule,
    casc: bool,
    entries: Seq<MatcherEntry>,
    config: DiffConfig,
) -> Seq<MismatchV>
    decreases e, 7int, 0int,
{
    match rule {
        MatchingRule::Values => spec_values_walk(path, e, a, 0, entries, config),
        MatchingRule::ArrayContains(_) => Seq::empty(),
        MatchingRule::Type => spec_node_mm(path, e, a, rule, casc) + spec_map_walk(
            path,
            e,
            a,
            0,
            true,
            entries,
            config,
        ),
        MatchingRule::MinType(_) => spec_node_mm(path, e, a, rule, casc) + spec_map_walk(
            path,
            e,
            a,
            0,
            true,
            entries,
            config,
        ),
        MatchingRule::MaxType(_) => spec_node_mm(path, e, a, rule, casc) + spec_map_walk(
            path,
            e,
            a,
            0,
            true,
            entries,
            config,
        ),
        MatchingRule::MinMaxType(_, _) => spec_node_mm(path, e, a, rule, casc) + spec_map_walk(
            path,
            e,
            a,
            0,
            true,
            entries,
            config,
        ),
        _ => spec_node_mm(path, e, a, rule, casc),
    }
}

/// The node-level outcome of one rule, as at most one body mismatch.
pub open spec fn spec_node_mm(
    path: Seq<Seq<char>>,
    e: Value,
    a: Value,
    rule: MatchingRule,
    casc: bool,
) -> Seq<MismatchV> {
    match spec_value_match(e, a, rule, casc) {
        Ok(_) => Seq::empty(),
        Err(m) => seq![
            MismatchV::BodyMismatch {
                path: joined(path),
                expected: Some(json_txt(e)),
                actual: Some(json_txt(a)),
                mismatch: m,
            },
        ],
    }
}

/// The walk over the expected entries of a map: shared keys recurse, and a
/// key missing from the actual map is reported when asked for.
pub open spec fn spec_map_walk(
    path: Seq<Seq<char>>,
    e: Value,
    a: Value,
    i: int,
    report_missing: bool,
    entries: Seq<MatcherEntry>,
    config: DiffConfig,
) -> Seq<MismatchV>
    decreases e, 6int, (if e is Object { e->Object_0@.len() } else { 0 }) - i,
{
    if !(e is Object) || !(a is Object) {
        Seq::empty()
    } else {
        let em = e->Object_0@;
        let am = a->Object_0@;
        if i < 0 || i >= em.len() {
            Seq::empty()
        } else {
            let k = em[i].0@;
            let idx = obj_find(am, k);
            let this = if 0 <= idx < am.len() {
                spec_compare(path.push(k), em[i].1, am[idx].1, entries, config)
            } else if report_missing {
                seq![
                    MismatchV::BodyMismatch {
                        path: joined(path.push(k)),
                        expected: Some(json_txt(em[i].1)),
                        actual: None,
                        mismatch: "Expected entry '"@ + k + "' but was missing"@,
                    },
                ]
            } else {
                Seq::empty()
            };
            this + spec_map_walk(path, e, a, i + 1, report_missing, entries, config)
        }
    }
}

/// The `Values` walk over the actual entries of a map: an entry whose key
/// the expected map shares recurses against that value; any other entry must
/// match some expected value outright.
pub open spec fn spec_values_walk(
    path: Seq<Seq<char>>,
    e: Value,
    a: Value,
    j: int,
    entries: Seq<MatcherEntry>,
    config: DiffConfig,
) -> Seq<MismatchV>
    decreases e, 6int, (if a is Object { a->Object_0@.len() } else { 0 }) - j,
{
    if !(e is Object) || !(a is Object) {
        Seq::empty()
    } else {
        let em = e->Object_0@;
        let am = a->Object_0@;
        if j < 0 || j >= am.len() {
            Seq::empty()
        } else {
            let k = am[j].0@;
            let idx = obj_find(em, k);
            let this = if 0 <= idx < em.len() {
                spec_compare(path.push(k), em[idx].1, am[j].1, entries, config)
            } else if exists|x: int|
                0 <= x < em.len() && spec_compare(
                    path.push(k),
                    em[x].1,
                    am[j].1,
                    entries,
                    config,
                ).len() == 0 {
                Seq::empty()
            } else {
                seq![
                    MismatchV::BodyMismatch {
                        path: joined(path.push(k)),
                        expected: Some(json_txt(e)),
                        actual: Some(json_txt(am[j].1)),
                        mismatch: "The value at key '"@ + k
                            + "' does not match any expected value"@,
                    },
                ]
            };
            this + spec_values_walk(path, e, a, j + 1, entries, config)
        }
    }
}

/// The rules selected at a list node, applied in order.
pub open spec fn spec_list_rules(
    path: Seq<Seq<char>>,
    e: Value,
    a: Value,
    rules: Seq<MatchingRule>,
    i: int,
    casc: bool,
    entries: Seq<MatcherEntry>,
    config: DiffConfig,
) -> Seq<MismatchV>
    decreases e, 8int, rules.len() - i,
{
    if i < 0 || i >= rules.len() {
        Seq::empty()
    } else {
        spec_list_rule(path, e, a, rules[i], casc, entries, config) + spec_list_rules(
            path,
            e,
            a,
            rules,
            i + 1,
            casc,
            entries,
            config,
        )
    }
}

/// One rule applied at a list node: array-contains looks for each variant in
/// the actual list; type-family rules check this node (list lengths under
/// the rule's bounds) and recurse over the actual elements, the expected
/// elements serving as templates (the first one beyond the expected length);
/// other rules check this node alone.
pub open spec fn spec_list_rule(
    path: Seq<Seq<char>>,
    e: Value,
    a: Value,
    rule: MatchingRule,
    casc: bool,
    entries: Seq<MatcherEntry>,
    config: DiffConfig,
) -> Seq<MismatchV>
    decreases e, 7int, 0int,
{
    match rule {
        MatchingRule::ArrayContains(variants) => if variants@.len() == 0 {
            spec_derived_contains(path, e, a, 0, config)
        } else {
            spec_array_contains(path, e, a, variants@, 0, config)
        },
        MatchingRule::Type => spec_node_mm(path, e, a, rule, casc) + spec_list_walk(
            path,
            e,
            a,
            0,
            entries,
            config,
        ),
        MatchingRule::MinType(_) => spec_node_mm(path, e, a, rule, casc) + spec_list_walk(
            path,
            e,
            a,
            0,
            entries,
            config,
        ),
        MatchingRule::MaxType(_) => spec_node_mm(path, e, a, rule, casc) + spec_list_walk(
            path,
            e,
            a,
            0,
            entries,
            config,
        ),
        MatchingRule::MinMaxType(_, _) => spec_node_mm(path, e, a, rule, casc) + spec_list_walk(
            path,
            e,
            a,
            0,
            entries,
            config,
        ),
        _ => spec_node_mm(path, e, a, rule, casc),
    }
}

/// The mismatch reported when an array-contains variant is found nowhere in
/// the actual list.
pub open spec fn variant_mm(path: Seq<Seq<char>>, ev: Value, al: Seq<Value>, k: int) -> MismatchV {
    MismatchV::BodyMismatch {
        path: joined(path),
        expected: Some(display_txt(ev)),
        actual: Some(strlist_txt(al)),
        mismatch: "Variant at index "@ + dec_digits(k as nat) + " ("@ + display_txt(ev)
            + ") was not found in the actual list"@,
    }
}

/// The explicit array-contains walk: each variant names an expected element
/// and its own rules, and some actual element must match it outright under
/// those rules.
pub open spec fn spec_array_contains(
    path: Seq<Seq<char>>,
    e: Value,
    a: Value,
    variants: Seq<(usize, Matchers)>,
    i: int,
    config: DiffConfig,
) -> Seq<MismatchV>
    decreases e, 6int, variants.len() - i,
{
    if !(e is Array) || !(a is Array) || i < 0 || i >= variants.len() {
        Seq::empty()
    } else {
        let el = e->Array_0@;
        let al = a->Array_0@;
        let k = variants[i].0;
        let this = if k < el.len() {
            if exists|j: int|
                0 <= j < al.len() && spec_compare(
                    seq!["$"@],
                    el[k as int],
                    al[j],
                    variants[i].1.entries@,
                    DiffConfig::AllowUnexpectedKeys,
                ).len() == 0 {
                Seq::empty()
            } else {
                seq![variant_mm(path, el[k as int], al, k as int)]
            }
        } else {
            Seq::empty()
        };
        this + spec_array_contains(path, e, a, variants, i + 1, config)
    }
}

/// The array-contains walk with no variants given: each expected element is
/// its own variant, with no extra rules.
pub open spec fn spec_derived_contains(
    path: Seq<Seq<char>>,
    e: Value,
    a: Value,
    k: int,
    config: DiffConfig,
) -> Seq<MismatchV>
    decreases e, 6int, (if e is Array { e->Array_0@.len() } else { 0 }) - k,
{
    if !(e is Array) || !(a is Array) {
        Seq::empty()
    } else {
        let el = e->Array_0@;
        let al = a->Array_0@;
        if k < 0 || k >= el.len() {
            Seq::empty()
        } else {
            let this = if exists|j: int|
                0 <= j < al.len() && spec_compare(
                    seq!["$"@],
                    el[k],
                    al[j],
                    Seq::<MatcherEntry>::empty(),
                    DiffConfig::AllowUnexpectedKeys,
                ).len() == 0 {
                Seq::empty()
            } else {
                seq![variant_mm(path, el[k], al, k)]
            };
            this + spec_derived_contains(path, e, a, k + 1, config)
        }
    }
}

/// The type-matching walk over a list: every actual element recurses against
/// its expected template (nothing recurses when the expected list is empty).
pub open spec fn spec_list_walk(
    path: Seq<Seq<char>>,
    e: Value,
    a: Value,
    i: int,
    entries: Seq<MatcherEntry>,
    config: DiffConfig,
) -> Seq<MismatchV>
    decreases e, 6int, (if a is Array { a->Array_0@.len() } else { 0 }) - i,
{
    if !(e is Array) || !(a is Array) || e->Array_0@.len() == 0 {
        Seq::empty()
    } else {
        let el = e->Array_0@;
        let al = a->Array_0@;
        if i < 0 || i >= al.len() {
            Seq::empty()
        } else {
            let t = if i < el.len() {
                el[i]
            } else {
                el[0]
            };
            spec_compare(path.push(dec_digits(i as nat)), t, al[i], entries, config)
                + spec_list_walk(path, e, a, i + 1, entries, config)
        }
    }
}

/// The default element-wise walk over a list: paired elements recurse, and
/// an expected element beyond the actual length is reported missing unless a
/// matcher stands at its path.
pub open spec fn spec_list_content(
    path: Seq<Seq<char>>,
    e: Value,
    a: Value,
    i: int,
    entries: Seq<MatcherEntry>,
    config: DiffConfig,
) -> Seq<MismatchV>
    decreases e, 6int, (if e is Array { e->Array_0@.len() } else { 0 }) - i,
{
    if !(e is Array) || !(a is Array) {
        Seq::empty()
    } else {
        let el = e->Array_0@;
        let al = a->Array_0@;
        if i < 0 || i >= el.len() {
            Seq::empty()
        } else {
            let this = if i < al.len() {
                spec_compare(path.push(dec_digits(i as nat)), el[i], al[i], entries, config)
            } else if best_of(entries, path.push(dec_digits(i as nat))) is Some {
                Seq::empty()
            } else {
                seq![
                    MismatchV::BodyMismatch {
                        path: joined(path),
                        expected: Some(display_txt(e)),
                        actual: Some(display_txt(a)),
                        mismatch: "Expected "@ + display_txt(el[i]) + " but was missing"@,
                    },
                ]
            };
            this + spec_list_content(path, e, a, i + 1, entries, config)
        }
    }
}


proof fn lemma_obj_find_first(em: Seq<(String, Value)>, k: Seq<char>, idx: int)
    requires
        0 <= idx < em.len(),
        em[idx].0@ == k,
        forall|j: int| 0 <= j < idx ==> em[j].0@ != k,
    ensures
        obj_find(em, k) == idx,
    decreases em.len(),
{
    if idx > 0 {
        let t = em.subrange(1, em.len() as int);
        assert(forall|j: int| 0 <= j < idx - 1 ==> t[j] == em[j + 1]);
        lemma_obj_find_first(t, k, idx - 1);
    }
}

proof fn lemma_obj_find_none(em: Seq<(String, Value)>, k: Seq<char>)
    requires
        forall|j: int| 0 <= j < em.len() ==> em[j].0@ != k,
    ensures
        obj_find(em, k) == -1,
    decreases em.len(),
{
    if em.len() > 0 {
        let t = em.subrange(1, em.len() as int);
        assert(forall|j: int| 0 <= j < t.len() ==> t[j] == em[j + 1]);
        lemma_obj_find_none(t, k);
    }
}

/// The index of the first entry whose key reads `k`.
fn obj_find_exec(em: &Vec<(String, Value)>, k: &str) -> (r: Option<usize>)
    ensures
        match r {
            Some(i) => i < em@.len() && obj_find(em@, k@) == i as int,
            None => obj_find(em@, k@) == -1,
        },
{
    let mut i: usize = 0;
    while i < em.len()
        invariant
            i <= em@.len(),
            forall|j: int| 0 <= j < i ==> em@[j].0@ != k@,
        decreases em@.len() - i,
    {
        if str_eq(em[i].0.as_str(), k) {
            proof {
                lemma_obj_find_first(em@, k@, i as int);
            }
            return Some(i);
        }
        i += 1;
    }
    proof {
        lemma_obj_find_none(em@, k@);
    }
    None
}

/// The path extended with one more segment.
fn child_path(path: &Vec<String>, seg: String) -> (r: Vec<String>)
    ensures
        r.deep_view() == path.deep_view().push(seg@),
{
    let mut r = path.clone();
    proof {
        assert(r@ =~= path@);
    }
    let ghost r0 = r;
    let ghost sv = seg@;
    r.push(seg);
    proof {
        assert forall|j: int| 0 <= j < r@.len() implies r.deep_view()[j] == path.deep_view().push(
            sv,
        )[j] by {
            if j < r@.len() - 1 {
                assert(r@[j] == r0@[j]);
                assert(path.deep_view()[j] == path@[j]@);
            } else {
                assert(r@[j]@ == sv);
            }
        }
        assert(r.deep_view() =~= path.deep_view().push(sv));
    }
    r
}

/// The lookup path at the root of a document.
pub fn root_path() -> (r: Vec<String>)
    ensures
        r.deep_view() == seq!["$"@],
{
    let mut r: Vec<String> = Vec::new();
    r.push(String::from_str("$"));
    proof {
        assert(r.deep_view() =~= seq!["$"@]);
    }
    r
}

fn one_mm(m: Mismatch) -> (r: Vec<Mismatch>)
    ensures
        r.deep_view() == seq![m@],
{
    let ghost mv = m@;
    let mut r: Vec<Mismatch> = Vec::new();
    r.push(m);
    proof {
        assert(r.deep_view() =~= seq![mv]);
    }
    r
}

fn no_mm() -> (r: Vec<Mismatch>)
    ensures
        r.deep_view() == Seq::<MismatchV>::empty(),
{
    let r: Vec<Mismatch> = Vec::new();
    proof {
        assert(r.deep_view() =~= Seq::<MismatchV>::empty());
    }
    r
}

/// Appends the second list of mismatches to the first.
pub fn append_mm(dst: &mut Vec<Mismatch>, src: Vec<Mismatch>)
    ensures
        final(dst).deep_view() == old(dst).deep_view() + src.deep_view(),
{
    let ghost d0 = *dst;
    let ghost s0 = src;
    let mut tail = src;
    dst.append(&mut tail);
    proof {
        assert forall|j: int| 0 <= j < dst@.len() implies dst.deep_view()[j] == (d0.deep_view()
            + s0.deep_view())[j] by {
            if j < d0@.len() {
                assert(dst@[j] == d0@[j]);
            } else {
                assert(dst@[j] == s0@[j - d0@.len()]);
            }
        }
        assert(dst.deep_view() =~= d0.deep_view() + s0.deep_view());
    }
}

fn errs_to_mm_exec(path: &Vec<String>, e: &Value, a: &Value, errs: &Vec<String>) -> (r: Vec<
    Mismatch,
>)
    ensures
        r.deep_view() == errs_to_mm(path.deep_view(), *e, *a, errs.deep_view()),
{
    let joined_path = crate::strings::join_strings(path, ".");
    let ej = e.to_json_str();
    let aj = a.to_json_str();
    let mut r: Vec<Mismatch> = Vec::new();
    let mut i: usize = 0;
    while i < errs.len()
        invariant
            i <= errs@.len(),
            joined_path@ == joined(path.deep_view()),
            ej@ == json_txt(*e),
            aj@ == json_txt(*a),
            r@.len() == i,
            forall|j: int|
                0 <= j < i ==> r.deep_view()[j] == errs_to_mm(
                    path.deep_view(),
                    *e,
                    *a,
                    errs.deep_view(),
                )[j],
        decreases errs@.len() - i,
    {
        let ghost r0 = r;
        let m = Mismatch::BodyMismatch {
            path: joined_path.clone(),
            expected: Some(ej.clone()),
            actual: Some(aj.clone()),
            mismatch: errs[i].clone(),
        };
        proof {
            assert(errs@[i as int]@ == errs.deep_view()[i as int]);
        }
        r.push(m);
        i += 1;
        proof {
            assert forall|j: int|
                0 <= j < i implies r.deep_view()[j] == errs_to_mm(
                path.deep_view(),
                *e,
                *a,
                errs.deep_view(),
            )[j] by {
                if j < i - 1 {
                    assert(r@[j] == r0@[j]);
                    assert(r0.deep_view()[j] == r0@[j]@);
                }
            }
        }
    }
    proof {
        assert(r.deep_view() =~= errs_to_mm(path.deep_view(), *e, *a, errs.deep_view()));
    }
    r
}

fn v_eval(rules: &Vec<MatchingRule>, i: usize, e: &Value, a: &Value, c: bool) -> (r: (
    bool,
    bool,
    Vec<String>,
))
    requires
        i <= rules@.len(),
    ensures
        r.0 == v_all_ok(rules@, i as int, *e, *a, c),
        r.1 == v_any_ok(rules@, i as int, *e, *a, c),
        r.2.deep_view() == v_errs(rules@, i as int, *e, *a, c),
    decreases rules@.len() - i,
{
    if i >= rules.len() {
        let empty: Vec<String> = Vec::new();
        proof {
            assert(empty.deep_view() =~= Seq::<Seq<char>>::empty());
        }
        (true, false, empty)
    } else {
        let head = value_matches_with(e, a, &rules[i], c);
        let (rest_all, rest_any, rest_errs) = v_eval(rules, i + 1, e, a, c);
        match head {
            Ok(_) => (rest_all, true || rest_any, rest_errs),
            Err(m) => (false, rest_any, cons_key(m, rest_errs)),
        }
    }
}

/// A scalar leaf under the context (see [`spec_compare_values`]).
fn compare_values_exec(
    path: &Vec<String>,
    e: &Value,
    a: &Value,
    matchers: &Matchers,
    config: DiffConfig,
) -> (r: Vec<Mismatch>)
    ensures
        r.deep_view() == spec_compare_values(path.deep_view(), *e, *a, matchers.entries@, config),
{
    match matchers.select_best_matcher(path) {
        Some((rl, casc)) => {
            if rl.rules.len() == 0 {
                let joined_txt = crate::strings::join_strings(path, ".");
                let msg = cat3("No matcher found for path '", joined_txt.as_str(), "'");
                let mut errs: Vec<String> = Vec::new();
                let ghost mv = msg@;
                errs.push(msg);
                proof {
                    assert(errs.deep_view() =~= seq![mv]);
                }
                errs_to_mm_exec(path, e, a, &errs)
            } else {
                let (all_ok, any_ok, errs) = v_eval(&rl.rules, 0, e, a, casc);
                let passed = match rl.rule_logic {
                    RuleLogic::And => all_ok,
                    RuleLogic::Or => any_ok,
                };
                if passed {
                    no_mm()
                } else {
                    errs_to_mm_exec(path, e, a, &errs)
                }
            }
        },
        None => {
            match value_matches_with(e, a, &MatchingRule::Equality, false) {
                Ok(_) => no_mm(),
                Err(m) => {
                    let mut errs: Vec<String> = Vec::new();
                    let ghost mv = m@;
                    errs.push(m);
                    proof {
                        assert(errs.deep_view() =~= seq![mv]);
                    }
                    errs_to_mm_exec(path, e, a, &errs)
                },
            }
        },
    }
}

fn kind_mm_exec(path: &Vec<String>, e: &Value, a: &Value) -> (r: Mismatch)
    ensures
        r@ == kind_mm(path.deep_view(), *e, *a),
{
    let joined_path = crate::strings::join_strings(path, ".");
    let te = e.type_of();
    let ta = a.type_of();
    let de = e.display();
    let da = a.display();
    let msg = cat6(
        "Type mismatch: Expected ",
        te.as_str(),
        " ",
        de.as_str(),
        " but received ",
        ta.as_str(),
    );
    let msg = cat3(msg.as_str(), " ", da.as_str());
    Mismatch::BodyMismatch {
        path: joined_path,
        expected: Some(de),
        actual: Some(da),
        mismatch: msg,
    }
}

fn node_mm_exec(path: &Vec<String>, e: &Value, a: &Value, rule: &MatchingRule, casc: bool) -> (r:
    Vec<Mismatch>)
    ensures
        r.deep_view() == spec_node_mm(path.deep_view(), *e, *a, *rule, casc),
{
    match value_matches_with(e, a, rule, casc) {
        Ok(_) => no_mm(),
        Err(m) => {
            let joined_path = crate::strings::join_strings(path, ".");
            one_mm(
                Mismatch::BodyMismatch {
                    path: joined_path,
                    expected: Some(e.to_json_str()),
                    actual: Some(a.to_json_str()),
                    mismatch: m,
                },
            )
        },
    }
}

/// Compares the expected and actual values at a path under the rules and the
/// configuration, and yields every mismatch, in walk order (see
/// [`spec_compare`]).
pub fn compare(
    path: &Vec<String>,
    e: &Value,
    a: &Value,
    matchers: &Matchers,
    config: DiffConfig,
) -> (r: Vec<Mismatch>)
    ensures
        r.deep_view() == spec_compare(path.deep_view(), *e, *a, matchers.entries@, config),
    decreases e, 9int, 0int,
{
    match (e, a) {
        (Value::Object(em), Value::Object(am)) => {
            if em.len() == 0 && matches!(config, DiffConfig::NoUnexpectedKeys) && am.len() > 0 {
                let joined_path = crate::strings::join_strings(path, ".");
                let da = a.display();
                one_mm(
                    Mismatch::BodyMismatch {
                        path: joined_path,
                        expected: Some(e.to_json_str()),
                        actual: Some(a.to_json_str()),
                        mismatch: cat2("Expected an empty Map but received ", da.as_str()),
                    },
                )
            } else {
                match matchers.select_best_matcher(path) {
                    Some((rl, casc)) => map_rules_exec(
                        path,
                        e,
                        a,
                        &rl.rules,
                        0,
                        casc,
                        matchers,
                        config,
                    ),
                    None => {
                        let mut r = match_keys(path, em, am, config);
                        let rest = map_walk_exec(path, e, a, 0, false, matchers, config);
                        append_mm(&mut r, rest);
                        r
                    },
                }
            }
        },
        (Value::Object(_), _) => one_mm(kind_mm_exec(path, e, a)),
        (Value::Array(el), Value::Array(al)) => {
            match matchers.select_best_matcher(path) {
                Some((rl, casc)) => list_rules_exec(path, e, a, &rl.rules, 0, casc, matchers,
                    config),
                None => {
                    if el.len() == 0 && al.len() > 0 {
                        let joined_path = crate::strings::join_strings(path, ".");
                        let da = a.display();
                        one_mm(
                            Mismatch::BodyMismatch {
                                path: joined_path,
                                expected: Some(e.to_json_str()),
                                actual: Some(a.to_json_str()),
                                mismatch: cat2("Expected an empty List but received ", da.as_str()),
                            },
                        )
                    } else {
                        let mut r = list_content_exec(path, e, a, 0, matchers, config);
                        if el.len() != al.len() {
                            let joined_path = crate::strings::join_strings(path, ".");
                            let en = crate::numbers::usize_to_string(el.len());
                            let an = crate::numbers::usize_to_string(al.len());
                            let msg = cat5(
                                "Expected a List with ",
                                en.as_str(),
                                " elements but received ",
                                an.as_str(),
                                " elements",
                            );
                            let m = Mismatch::BodyMismatch {
                                path: joined_path,
                                expected: Some(e.to_json_str()),
                                actual: Some(a.to_json_str()),
                                mismatch: msg,
                            };
                            let one = one_mm(m);
                            append_mm(&mut r, one);
                        }
                        r
                    }
                },
            }
        },
        (Value::Array(_), _) => one_mm(kind_mm_exec(path, e, a)),
        (_, _) => compare_values_exec(path, e, a, matchers, config),
    }
}

fn map_rules_exec(
    path: &Vec<String>,
    e: &Value,
    a: &Value,
    rules: &Vec<MatchingRule>,
    i: usize,
    casc: bool,
    matchers: &Matchers,
    config: DiffConfig,
) -> (r: Vec<Mismatch>)
    requires
        i <= rules@.len(),
    ensures
        r.deep_view() == spec_map_rules(
            path.deep_view(),
            *e,
            *a,
            rules@,
            i as int,
            casc,
            matchers.entries@,
            config,
        ),
    decreases e, 8int, rules@.len() - i,
{
    if i >= rules.len() {
        no_mm()
    } else {
        let mut r = map_rule_exec(path, e, a, &rules[i], casc, matchers, config);
        let rest = map_rules_exec(path, e, a, rules, i + 1, casc, matchers, config);
        append_mm(&mut r, rest);
        r
    }
}

fn map_rule_exec(
    path: &Vec<String>,
    e: &Value,
    a: &Value,
    rule: &MatchingRule,
    casc: bool,
    matchers: &Matchers,
    config: DiffConfig,
) -> (r: Vec<Mismatch>)
    ensures
        r.deep_view() == spec_map_rule(
            path.deep_view(),
            *e,
            *a,
            *rule,
            casc,
            matchers.entries@,
            config,
        ),
    decreases e, 7int, 0int,
{
    match rule {
        MatchingRule::Values => values_walk_exec(path, e, a, 0, matchers, config),
        MatchingRule::ArrayContains(_) => no_mm(),
        MatchingRule::Type => {
            let mut r = node_mm_exec(path, e, a, rule, casc);
            let rest = map_walk_exec(path, e, a, 0, true, matchers, config);
            append_mm(&mut r, rest);
            r
        },
        MatchingRule::MinType(_) => {
            let mut r = node_mm_exec(path, e, a, rule, casc);
            let rest = map_walk_exec(path, e, a, 0, true, matchers, config);
            append_mm(&mut r, rest);
            r
        },
        MatchingRule::MaxType(_) => {
            let mut r = node_mm_exec(path, e, a, rule, casc);
            let rest = map_walk_exec(path, e, a, 0, true, matchers, config);
            append_mm(&mut r, rest);
            r
        },
        MatchingRule::MinMaxType(_, _) => {
            let mut r = node_mm_exec(path, e, a, rule, casc);
            let rest = map_walk_exec(path, e, a, 0, true, matchers, config);
            append_mm(&mut r, rest);
            r
        },
        _ => node_mm_exec(path, e, a, rule, casc),
    }
}

fn map_walk_exec(
    path: &Vec<String>,
    e: &Value,
    a: &Value,
    i: usize,
    report_missing: bool,
    matchers: &Matchers,
    config: DiffConfig,
) -> (r: Vec<Mismatch>)
    ensures
        r.deep_view() == spec_map_walk(
            path.deep_view(),
            *e,
            *a,
            i as int,
            report_missing,
            matchers.entries@,
            config,
        ),
    decreases e, 6int, (if e is Object {
        e->Object_0@.len()
    } else {
        0
    }) - i,
{
    match (e, a) {
        (Value::Object(em), Value::Object(am)) => {
            if i >= em.len() {
                no_mm()
            } else {
                proof {
                    assert(decreases_to!(e => em@[i as int].1)) by {
                        assert(decreases_to!(*e => em@));
                        assert(decreases_to!(em@ => em@[i as int]));
                    }
                }
                let k = &em[i].0;
                let mut r = match obj_find_exec(am, k.as_str()) {
                    Some(idx) => {
                        let cp = child_path(path, k.clone());
                        compare(&cp, &em[i].1, &am[idx].1, matchers, config)
                    },
                    None => {
                        if report_missing {
                            let cp = child_path(path, k.clone());
                            let joined_path = crate::strings::join_strings(&cp, ".");
                            let msg = cat3("Expected entry '", k.as_str(), "' but was missing");
                            one_mm(
                                Mismatch::BodyMismatch {
                                    path: joined_path,
                                    expected: Some(em[i].1.to_json_str()),
                                    actual: None,
                                    mismatch: msg,
                                },
                            )
                        } else {
                            no_mm()
                        }
                    },
                };
                let rest = map_walk_exec(path, e, a, i + 1, report_missing, matchers, config);
                append_mm(&mut r, rest);
                r
            }
        },
        _ => no_mm(),
    }
}

fn values_walk_exec(
    path: &Vec<String>,
    e: &Value,
    a: &Value,
    j: usize,
    matchers: &Matchers,
    config: DiffConfig,
) -> (r: Vec<Mismatch>)
    ensures
        r.deep_view() == spec_values_walk(
            path.deep_view(),
            *e,
            *a,
            j as int,
            matchers.entries@,
            config,
        ),
    decreases e, 6int, (if a is Object {
        a->Object_0@.len()
    } else {
        0
    }) - j,
{
    match (e, a) {
        (Value::Object(em), Value::Object(am)) => {
            if j >= am.len() {
                no_mm()
            } else {
                let k = &am[j].0;
                let cp = child_path(path, k.clone());
                let mut r = match obj_find_exec(em, k.as_str()) {
                    Some(idx) => {
                        proof {
                            assert(decreases_to!(e => em@[idx as int].1)) by {
                                assert(decreases_to!(*e => em@));
                                assert(decreases_to!(em@ => em@[idx as int]));
                            }
                        }
                        compare(&cp, &em[idx].1, &am[j].1, matchers, config)
                    },
                    None => {
                        let ghost cpv = cp.deep_view();
                        let mut found = false;
                        let mut x: usize = 0;
                        while x < em.len()
                            invariant
                                x <= em@.len(),
                                cpv == cp.deep_view(),
                                cpv == path.deep_view().push(am@[j as int].0@),
                                j < am@.len(),
                                *e matches Value::Object(eme) && eme@ == em@,
                                *a matches Value::Object(ame) && ame@ == am@,
                                found == exists|y: int|
                                    0 <= y < x && spec_compare(
                                        cpv,
                                        em@[y].1,
                                        am@[j as int].1,
                                        matchers.entries@,
                                        config,
                                    ).len() == 0,
                            decreases em@.len() - x,
                        {
                            proof {
                                assert(decreases_to!(e => em@[x as int].1)) by {
                                    assert(decreases_to!(*e => em@));
                                    assert(decreases_to!(em@ => em@[x as int]));
                                }
                            }
                            let mm = compare(&cp, &em[x].1, &am[j].1, matchers, config);
                            if mm.len() == 0 {
                                proof {
                                    assert(mm.deep_view().len() == 0);
                                }
                                found = true;
                            }
                            x += 1;
                        }
                        if found {
                            no_mm()
                        } else {
                            let joined_path = crate::strings::join_strings(&cp, ".");
                            let msg = cat3(
                                "The value at key '",
                                k.as_str(),
                                "' does not match any expected value",
                            );
                            one_mm(
                                Mismatch::BodyMismatch {
                                    path: joined_path,
                                    expected: Some(e.to_json_str()),
                                    actual: Some(am[j].1.to_json_str()),
                                    mismatch: msg,
                                },
                            )
                        }
                    },
                };
                let rest = values_walk_exec(path, e, a, j + 1, matchers, config);
                append_mm(&mut r, rest);
                r
            }
        },
        _ => no_mm(),
    }
}

fn list_rules_exec(
    path: &Vec<String>,
    e: &Value,
    a: &Value,
    rules: &Vec<MatchingRule>,
    i: usize,
    casc: bool,
    matchers: &Matchers,
    config: DiffConfig,
) -> (r: Vec<Mismatch>)
    requires
        i <= rules@.len(),
    ensures
        r.deep_view() == spec_list_rules(
            path.deep_view(),
            *e,
            *a,
            rules@,
            i as int,
            casc,
            matchers.entries@,
            config,
        ),
    decreases e, 8int, rules@.len() - i,
{
    if i >= rules.len() {
        no_mm()
    } else {
        let mut r = list_rule_exec(path, e, a, &rules[i], casc, matchers, config);
        let rest = list_rules_exec(path, e, a, rules, i + 1, casc, matchers, config);
        append_mm(&mut r, rest);
        r
    }
}

fn list_rule_exec(
    path: &Vec<String>,
    e: &Value,
    a: &Value,
    rule: &MatchingRule,
    casc: bool,
    matchers: &Matchers,
    config: DiffConfig,
) -> (r: Vec<Mismatch>)
    ensures
        r.deep_view() == spec_list_rule(
            path.deep_view(),
            *e,
            *a,
            *rule,
            casc,
            matchers.entries@,
            config,
        ),
    decreases e, 7int, 0int,
{
    match rule {
        MatchingRule::ArrayContains(variants) => if variants.len() == 0 {
            derived_contains_exec(path, e, a, 0, config)
        } else {
            array_contains_exec(path, e, a, variants, 0, config)
        },
        MatchingRule::Type => {
            let mut r = node_mm_exec(path, e, a, rule, casc);
            let rest = list_walk_exec(path, e, a, 0, matchers, config);
            append_mm(&mut r, rest);
            r
        },
        MatchingRule::MinType(_) => {
            let mut r = node_mm_exec(path, e, a, rule, casc);
            let rest = list_walk_exec(path, e, a, 0, matchers, config);
            append_mm(&mut r, rest);
            r
        },
        MatchingRule::MaxType(_) => {
            let mut r = node_mm_exec(path, e, a, rule, casc);
            let rest = list_walk_exec(path, e, a, 0, matchers, config);
            append_mm(&mut r, rest);
            r
        },
        MatchingRule::MinMaxType(_, _) => {
            let mut r = node_mm_exec(path, e, a, rule, casc);
            let rest = list_walk_exec(path, e, a, 0, matchers, config);
            append_mm(&mut r, rest);
            r
        },
        _ => node_mm_exec(path, e, a, rule, casc),
    }
}

fn variant_mm_exec(path: &Vec<String>, ev: &Value, al: &Vec<Value>, k: usize) -> (r: Mismatch)
    ensures
        r@ == variant_mm(path.deep_view(), *ev, al@, k as int),
{
    let joined_path = crate::strings::join_strings(path, ".");
    let d = ev.display();
    let kn = crate::numbers::usize_to_string(k);
    let msg = cat5(
        "Variant at index ",
        kn.as_str(),
        " (",
        d.as_str(),
        ") was not found in the actual list",
    );
    Mismatch::BodyMismatch {
        path: joined_path,
        expected: Some(d),
        actual: Some(strlist_txt_exec(al)),
        mismatch: msg,
    }
}

fn array_contains_exec(
    path: &Vec<String>,
    e: &Value,
    a: &Value,
    variants: &Vec<(usize, Matchers)>,
    i: usize,
    config: DiffConfig,
) -> (r: Vec<Mismatch>)
    ensures
        r.deep_view() == spec_array_contains(
            path.deep_view(),
            *e,
            *a,
            variants@,
            i as int,
            config,
        ),
    decreases e, 6int, variants@.len() - i,
{
    match (e, a) {
        (Value::Array(el), Value::Array(al)) => {
            if i >= variants.len() {
                no_mm()
            } else {
                let k = variants[i].0;
                let mut r = if k < el.len() {
                    proof {
                        assert(decreases_to!(e => el@[k as int])) by {
                            assert(decreases_to!(*e => el@));
                            assert(decreases_to!(el@ => el@[k as int]));
                        }
                    }
                    let rp = root_path();
                    let ghost rpv = rp.deep_view();
                    let mut found = false;
                    let mut x: usize = 0;
                    while x < al.len()
                        invariant
                            x <= al@.len(),
                            rpv == rp.deep_view(),
                            rpv == seq!["$"@],
                            i < variants@.len(),
                            k == variants@[i as int].0,
                            k < el@.len(),
                            *e matches Value::Array(ele) && ele@ == el@,
                            *a matches Value::Array(ala) && ala@ == al@,
                            found == exists|y: int|
                                0 <= y < x && spec_compare(
                                    rpv,
                                    el@[k as int],
                                    al@[y],
                                    variants@[i as int].1.entries@,
                                    DiffConfig::AllowUnexpectedKeys,
                                ).len() == 0,
                        decreases al@.len() - x,
                    {
                        proof {
                            assert(decreases_to!(e => el@[k as int])) by {
                                assert(decreases_to!(*e => el@));
                                assert(decreases_to!(el@ => el@[k as int]));
                            }
                        }
                        let mm = compare(
                            &rp,
                            &el[k],
                            &al[x],
                            &variants[i].1,
                            DiffConfig::AllowUnexpectedKeys,
                        );
                        if mm.len() == 0 {
                            proof {
                                assert(mm.deep_view().len() == 0);
                            }
                            found = true;
                        }
                        x += 1;
                    }
                    if found {
                        no_mm()
                    } else {
                        one_mm(variant_mm_exec(path, &el[k], al, k))
                    }
                } else {
                    no_mm()
                };
                let rest = array_contains_exec(path, e, a, variants, i + 1, config);
                append_mm(&mut r, rest);
                r
            }
        },
        _ => no_mm(),
    }
}

fn derived_contains_exec(
    path: &Vec<String>,
    e: &Value,
    a: &Value,
    k: usize,
    config: DiffConfig,
) -> (r: Vec<Mismatch>)
    ensures
        r.deep_view() == spec_derived_contains(path.deep_view(), *e, *a, k as int, config),
    decreases e, 6int, (if e is Array {
        e->Array_0@.len()
    } else {
        0
    }) - k,
{
    match (e, a) {
        (Value::Array(el), Value::Array(al)) => {
            if k >= el.len() {
                no_mm()
            } else {
                proof {
                    assert(decreases_to!(e => el@[k as int])) by {
                        assert(decreases_to!(*e => el@));
                        assert(decreases_to!(el@ => el@[k as int]));
                    }
                }
                let empty_m = Matchers::new();
                proof {
                    assert(empty_m.entries@ =~= Seq::<MatcherEntry>::empty());
                }
                let rp = root_path();
                let ghost rpv = rp.deep_view();
                let mut found = false;
                let mut x: usize = 0;
                while x < al.len()
                    invariant
                        x <= al@.len(),
                        rpv == rp.deep_view(),
                        rpv == seq!["$"@],
                        k < el@.len(),
                        empty_m.entries@ == Seq::<MatcherEntry>::empty(),
                        *e matches Value::Array(ele) && ele@ == el@,
                        *a matches Value::Array(ala) && ala@ == al@,
                        found == exists|y: int|
                            0 <= y < x && spec_compare(
                                rpv,
                                el@[k as int],
                                al@[y],
                                Seq::<MatcherEntry>::empty(),
                                DiffConfig::AllowUnexpectedKeys,
                            ).len() == 0,
                    decreases al@.len() - x,
                {
                    proof {
                        assert(decreases_to!(e => el@[k as int])) by {
                            assert(decreases_to!(*e => el@));
                            assert(decreases_to!(el@ => el@[k as int]));
                        }
                    }
                    let mm = compare(&rp, &el[k], &al[x], &empty_m, DiffConfig::AllowUnexpectedKeys);
                    if mm.len() == 0 {
                        proof {
                            assert(mm.deep_view().len() == 0);
                        }
                        found = true;
                    }
                    x += 1;
                }
                let mut r = if found {
                    no_mm()
                } else {
                    one_mm(variant_mm_exec(path, &el[k], al, k))
                };
                let rest = derived_contains_exec(path, e, a, k + 1, config);
                append_mm(&mut r, rest);
                r
            }
        },
        _ => no_mm(),
    }
}

fn list_walk_exec(
    path: &Vec<String>,
    e: &Value,
    a: &Value,
    i: usize,
    matchers: &Matchers,
    config: DiffConfig,
) -> (r: Vec<Mismatch>)
    ensures
        r.deep_view() == spec_list_walk(
            path.deep_view(),
            *e,
            *a,
            i as int,
            matchers.entries@,
            config,
        ),
    decreases e, 6int, (if a is Array {
        a->Array_0@.len()
    } else {
        0
    }) - i,
{
    match (e, a) {
        (Value::Array(el), Value::Array(al)) => {
            if el.len() == 0 || i >= al.len() {
                no_mm()
            } else {
                let ti: usize = if i < el.len() {
                    i
                } else {
                    0
                };
                proof {
                    assert(decreases_to!(e => el@[ti as int])) by {
                        assert(decreases_to!(*e => el@));
                        assert(decreases_to!(el@ => el@[ti as int]));
                    }
                }
                let seg = crate::numbers::usize_to_string(i);
                let cp = child_path(path, seg);
                let mut r = compare(&cp, &el[ti], &al[i], matchers, config);
                let rest = list_walk_exec(path, e, a, i + 1, matchers, config);
                append_mm(&mut r, rest);
                r
            }
        },
        _ => no_mm(),
    }
}

fn list_content_exec(
    path: &Vec<String>,
    e: &Value,
    a: &Value,
    i: usize,
    matchers: &Matchers,
    config: DiffConfig,
) -> (r: Vec<Mismatch>)
    ensures
        r.deep_view() == spec_list_content(
            path.deep_view(),
            *e,
            *a,
            i as int,
            matchers.entries@,
            config,
        ),
    decreases e, 6int, (if e is Array {
        e->Array_0@.len()
    } else {
        0
    }) - i,
{
    match (e, a) {
        (Value::Array(el), Value::Array(al)) => {
            if i >= el.len() {
                no_mm()
            } else {
                proof {
                    assert(decreases_to!(e => el@[i as int])) by {
                        assert(decreases_to!(*e => el@));
                        assert(decreases_to!(el@ => el@[i as int]));
                    }
                }
                let seg = crate::numbers::usize_to_string(i);
                let cp = child_path(path, seg);
                let mut r = if i < al.len() {
                    compare(&cp, &el[i], &al[i], matchers, config)
                } else if matchers.select_best_matcher(&cp).is_some() {
                    no_mm()
                } else {
                    let joined_path = crate::strings::join_strings(path, ".");
                    let dv = el[i].display();
                    let msg = cat3("Expected ", dv.as_str(), " but was missing");
                    one_mm(
                        Mismatch::BodyMismatch {
                            path: joined_path,
                            expected: Some(e.display()),
                            actual: Some(a.display()),
                            mismatch: msg,
                        },
                    )
                };
                let rest = list_content_exec(path, e, a, i + 1, matchers, config);
                append_mm(&mut r, rest);
                r
            }
        },
        _ => no_mm(),
    }
}

/// Compares two maps at a path, as [`compare`] does for map nodes; `Ok`
/// stands for the empty mismatch list.
pub fn compare_maps(
    path: &Vec<String>,
    em: Vec<(String, Value)>,
    am: Vec<(String, Value)>,
    context: &MatchingContext,
) -> (r: Result<(), Vec<Mismatch>>)
    ensures
        ({
            let s = spec_compare(
                path.deep_view(),
                Value::Object(em),
                Value::Object(am),
                context.matchers.entries@,
                context.config,
            );
            match r {
                Ok(_) => s.len() == 0,
                Err(v) => v.deep_view() == s && s.len() > 0,
            }
        }),
{
    let e = Value::Object(em);
    let a = Value::Object(am);
    let mm = compare(path, &e, &a, &context.matchers, context.config);
    if mm.len() == 0 {
        proof {
            assert(mm.deep_view().len() == 0);
        }
        Ok(())
    } else {
        proof {
            assert(mm.deep_view().len() > 0);
        }
        Err(mm)
    }
}

/// Compares two lists at a path, as [`compare`] does for list nodes; `Ok`
/// stands for the empty mismatch list.
pub fn compare_lists(
    path: &Vec<String>,
    el: Vec<Value>,
    al: Vec<Value>,
    context: &MatchingContext,
) -> (r: Result<(), Vec<Mismatch>>)
    ensures
        ({
            let s = spec_compare(
                path.deep_view(),
                Value::Array(el),
                Value::Array(al),
                context.matchers.entries@,
                context.config,
            );
            match r {
                Ok(_) => s.len() == 0,
                Err(v) => v.deep_view() == s && s.len() > 0,
            }
        }),
{
    let e = Value::Array(el);
    let a = Value::Array(al);
    let mm = compare(path, &e, &a, &context.matchers, context.config);
    if mm.len() == 0 {
        proof {
            assert(mm.deep_view().len() == 0);
        }
        Ok(())
    } else {
        proof {
            assert(mm.deep_view().len() > 0);
        }
        Err(mm)
    }
}


/// Deep well-formedness for reflexivity: every map in the document has
/// pairwise-distinct keys.
pub open spec fn wf_unique_keys(v: Value) -> bool
    decreases v,
{
    match v {
        Value::Object(em) => (forall|i: int, j: int|
            0 <= i < j < em@.len() ==> em@[i].0@ != em@[j].0@) && (forall|i: int|
            0 <= i < em@.len() ==> wf_unique_keys(#[trigger] em@[i].1)),
        Value::Array(el) => forall|i: int| 0 <= i < el@.len() ==> wf_unique_keys(#[trigger] el@[i]),
        _ => true,
    }
}

/// Structural equality is reflexive.
pub proof fn lemma_value_eq_refl(v: Value)
    ensures
        value_eq(v, v),
    decreases v, 1int, 0int,
{
    match v {
        Value::Array(x) => {
            lemma_seq_value_eq_refl(x@, 0);
        },
        Value::Object(x) => {
            lemma_obj_value_eq_refl(x@, 0);
        },
        _ => {},
    }
}

proof fn lemma_seq_value_eq_refl(x: Seq<Value>, i: int)
    ensures
        seq_value_eq(x, x, i),
    decreases x, 0int, x.len() - i,
{
    if 0 <= i < x.len() {
        lemma_value_eq_refl(x[i]);
        lemma_seq_value_eq_refl(x, i + 1);
    }
}

proof fn lemma_obj_value_eq_refl(x: Seq<(String, Value)>, i: int)
    ensures
        obj_value_eq(x, x, i),
    decreases x, 0int, x.len() - i,
{
    if 0 <= i < x.len() {
        lemma_value_eq_refl(x[i].1);
        lemma_obj_value_eq_refl(x, i + 1);
    }
}

proof fn lemma_obj_lookup_some(em: Seq<(String, Value)>, k: Seq<char>, j: int)
    requires
        0 <= j < em.len(),
        em[j].0@ == k,
    ensures
        obj_lookup(em, k) is Some,
    decreases em.len(),
{
    if em.len() > 0 && em[0].0@ != k {
        let t = em.subrange(1, em.len() as int);
        assert(t[j - 1] == em[j]);
        lemma_obj_lookup_some(t, k, j - 1);
    }
}

proof fn lemma_insert_sorted_member(x: Seq<char>, s: Seq<Seq<char>>, y: Seq<char>)
    requires
        insert_sorted(x, s).contains(y),
    ensures
        y == x || s.contains(y),
    decreases s.len(),
{
    if s.len() == 0 {
        assert(insert_sorted(x, s) == seq![x]);
        assert(y == insert_sorted(x, s)[choose|i: int|
            0 <= i < insert_sorted(x, s).len() && insert_sorted(x, s)[i] == y]);
    } else if crate::strings::lex_le(x, s[0]) {
        let r = seq![x] + s;
        let i = choose|i: int| 0 <= i < r.len() && r[i] == y;
        if i > 0 {
            assert(s[i - 1] == y);
        }
    } else {
        let t = s.subrange(1, s.len() as int);
        let r = seq![s[0]] + insert_sorted(x, t);
        let i = choose|i: int| 0 <= i < r.len() && r[i] == y;
        if i == 0 {
            assert(s[0] == y);
        } else {
            assert(insert_sorted(x, t).contains(y)) by {
                assert(insert_sorted(x, t)[i - 1] == y);
            }
            lemma_insert_sorted_member(x, t, y);
            if t.contains(y) {
                let j = choose|j: int| 0 <= j < t.len() && t[j] == y;
                assert(s[j + 1] == y);
            }
        }
    }
}

proof fn lemma_sort_keys_member(s: Seq<Seq<char>>, y: Seq<char>)
    requires
        sort_keys(s).contains(y),
    ensures
        s.contains(y),
    decreases s.len(),
{
    if s.len() > 0 {
        let t = s.subrange(1, s.len() as int);
        lemma_insert_sorted_member(s[0], sort_keys(t), y);
        if y == s[0] {
            assert(s[0] == y);
        } else {
            lemma_sort_keys_member(t, y);
            let j = choose|j: int| 0 <= j < t.len() && t[j] == y;
            assert(s[j + 1] == y);
        }
    }
}

proof fn lemma_missing_refl(keys: Seq<Seq<char>>, i: int, em: Seq<(String, Value)>)
    requires
        forall|y: Seq<char>| keys.contains(y) ==> exists|j: int|
            0 <= j < em.len() && em[j].0@ == y,
    ensures
        missing_from(keys, i, em) == Seq::<Seq<char>>::empty(),
    decreases keys.len() - i,
{
    if 0 <= i < keys.len() {
        assert(keys.contains(keys[i]));
        let j = choose|j: int| 0 <= j < em.len() && em[j].0@ == keys[i];
        lemma_obj_lookup_some(em, keys[i], j);
        lemma_missing_refl(keys, i + 1, em);
    }
}

/// The key-set report of a map against itself is empty.
proof fn lemma_match_keys_refl(
    path: Seq<Seq<char>>,
    em: Seq<(String, Value)>,
    config: DiffConfig,
)
    ensures
        spec_match_keys(path, em, em, config) == Seq::<MismatchV>::empty(),
{
    let eks = sort_keys(obj_keys(em));
    assert forall|y: Seq<char>| eks.contains(y) implies exists|j: int|
        0 <= j < em.len() && em[j].0@ == y by {
        lemma_sort_keys_member(obj_keys(em), y);
        let i = choose|i: int| 0 <= i < obj_keys(em).len() && obj_keys(em)[i] == y;
        assert(em[i].0@ == y);
    }
    lemma_missing_refl(eks, 0, em);
}

/// Comparing a well-formed value to itself under no rules yields no
/// mismatches: the reflexivity of the structural walk.
pub proof fn lemma_compare_refl(
    path: Seq<Seq<char>>,
    v: Value,
    entries: Seq<MatcherEntry>,
    config: DiffConfig,
)
    requires
        wf_unique_keys(v),
        entries.len() == 0,
    ensures
        spec_compare(path, v, v, entries, config) == Seq::<MismatchV>::empty(),
    decreases v, 9int, 0int,
{
    assert(best_of(entries, path) is None);
    match v {
        Value::Object(em) => {
            lemma_match_keys_refl(path, em@, config);
            lemma_map_walk_refl(path, v, 0, false, entries, config);
            assert(spec_match_keys(path, em@, em@, config) + spec_map_walk(
                path,
                v,
                v,
                0,
                false,
                entries,
                config,
            ) =~= Seq::<MismatchV>::empty());
        },
        Value::Array(el) => {
            lemma_list_content_refl(path, v, 0, entries, config);
        },
        _ => {
            lemma_value_eq_refl(v);
            assert(spec_value_match(v, v, MatchingRule::Equality, false) is Ok);
        },
    }
}

proof fn lemma_map_walk_refl(
    path: Seq<Seq<char>>,
    v: Value,
    i: int,
    report_missing: bool,
    entries: Seq<MatcherEntry>,
    config: DiffConfig,
)
    requires
        v is Object,
        wf_unique_keys(v),
        entries.len() == 0,
        i >= 0,
    ensures
        spec_map_walk(path, v, v, i, report_missing, entries, config) == Seq::<
            MismatchV,
        >::empty(),
    decreases v, 6int, (v->Object_0@.len()) - i,
{
    let em = v->Object_0@;
    if i < em.len() {
        let k = em[i].0@;
        assert(forall|j: int| 0 <= j < i ==> em[j].0@ != k);
        lemma_obj_find_first(em, k, i);
        assert(wf_unique_keys(em[i].1));
        lemma_compare_refl(path.push(k), em[i].1, entries, config);
        lemma_map_walk_refl(path, v, i + 1, report_missing, entries, config);
        assert(Seq::<MismatchV>::empty() + Seq::<MismatchV>::empty() =~= Seq::<
            MismatchV,
        >::empty());
    }
}

proof fn lemma_list_content_refl(
    path: Seq<Seq<char>>,
    v: Value,
    i: int,
    entries: Seq<MatcherEntry>,
    config: DiffConfig,
)
    requires
        v is Array,
        wf_unique_keys(v),
        entries.len() == 0,
        i >= 0,
    ensures
        spec_list_content(path, v, v, i, entries, config) == Seq::<MismatchV>::empty(),
    decreases v, 6int, (v->Array_0@.len()) - i,
{
    let el = v->Array_0@;
    if i < el.len() {
        assert(wf_unique_keys(el[i]));
        lemma_compare_refl(path.push(crate::numbers::dec_digits(i as nat)), el[i], entries, config);
        lemma_list_content_refl(path, v, i + 1, entries, config);
        assert(Seq::<MismatchV>::empty() + Seq::<MismatchV>::empty() =~= Seq::<
            MismatchV,
        >::empty());
    }
}


/// The structural identity of a mismatch: the record with its description
/// blanked, which is what mismatch equality compares.
pub open spec fn mm_key(m: MismatchV) -> MismatchV {
    match m {
        MismatchV::PathMismatch { expected, actual, .. } => MismatchV::PathMismatch {
            expected,
            actual,
            mismatch: Seq::empty(),
        },
        MismatchV::QueryMismatch { parameter, expected, actual, .. } => MismatchV::QueryMismatch {
            parameter,
            expected,
            actual,
            mismatch: Seq::empty(),
        },
        MismatchV::HeaderMismatch { key, expected, actual, .. } => MismatchV::HeaderMismatch {
            key,
            expected,
            actual,
            mismatch: Seq::empty(),
        },
        MismatchV::BodyMismatch { path, expected, actual, .. } => MismatchV::BodyMismatch {
            path,
            expected,
            actual,
            mismatch: Seq::empty(),
        },
        MismatchV::MetadataMismatch { key, expected, actual, .. } => MismatchV::MetadataMismatch {
            key,
            expected,
            actual,
            mismatch: Seq::empty(),
        },
        _ => m,
    }
}

/// The multiset of structural identities in a mismatch list.
pub open spec fn mm_keys(s: Seq<MismatchV>) -> vstd::multiset::Multiset<MismatchV> {
    s.map_values(|m: MismatchV| mm_key(m)).to_multiset()
}

/// Containment of mismatch lists up to order and description: every
/// structural identity occurs at least as often in the second list.
pub open spec fn mm_subset(s1: Seq<MismatchV>, s2: Seq<MismatchV>) -> bool {
    forall|x: MismatchV| #[trigger] mm_keys(s1).count(x) <= mm_keys(s2).count(x)
}

proof fn lemma_mm_keys_concat(a: Seq<MismatchV>, b: Seq<MismatchV>)
    ensures
        mm_keys(a + b) == mm_keys(a).add(mm_keys(b)),
{
    assert((a + b).map_values(|m: MismatchV| mm_key(m)) =~= a.map_values(
        |m: MismatchV| mm_key(m),
    ) + b.map_values(|m: MismatchV| mm_key(m)));
    vstd::seq_lib::lemma_multiset_commutative(
        a.map_values(|m: MismatchV| mm_key(m)),
        b.map_values(|m: MismatchV| mm_key(m)),
    );
    assert(mm_keys(a + b) =~= mm_keys(a).add(mm_keys(b)));
}

proof fn lemma_mm_subset_concat(
    a1: Seq<MismatchV>,
    a2: Seq<MismatchV>,
    b1: Seq<MismatchV>,
    b2: Seq<MismatchV>,
)
    requires
        mm_subset(a1, b1),
        mm_subset(a2, b2),
    ensures
        mm_subset(a1 + a2, b1 + b2),
{
    broadcast use vstd::multiset::group_multiset_axioms;

    lemma_mm_keys_concat(a1, a2);
    lemma_mm_keys_concat(b1, b2);
    assert forall|x: MismatchV| #[trigger] mm_keys(a1 + a2).count(x) <= mm_keys(
        b1 + b2,
    ).count(x) by {
        assert(mm_keys(a1).count(x) <= mm_keys(b1).count(x));
        assert(mm_keys(a2).count(x) <= mm_keys(b2).count(x));
    }
}

/// Containment up to order and description is reflexive.
pub proof fn lemma_mm_subset_refl(s: Seq<MismatchV>)
    ensures
        mm_subset(s, s),
{
}

proof fn lemma_mm_subset_empty(s: Seq<MismatchV>)
    ensures
        mm_subset(Seq::<MismatchV>::empty(), s),
{
    broadcast use vstd::multiset::group_multiset_axioms;
    broadcast use vstd::seq_lib::group_to_multiset_ensures;

    assert(Seq::<MismatchV>::empty().map_values(|m: MismatchV| mm_key(m)) =~= Seq::<
        MismatchV,
    >::empty());
    assert forall|x: MismatchV| #[trigger] mm_keys(Seq::<MismatchV>::empty()).count(x) <= mm_keys(
        s,
    ).count(x) by {
        assert(!Seq::<MismatchV>::empty().contains(x));
        assert(mm_keys(Seq::<MismatchV>::empty()).count(x) == 0);
    }
}

proof fn lemma_missing_member(keys: Seq<Seq<char>>, i: int, am: Seq<(String, Value)>)
    requires
        0 <= i,
        missing_from(keys, i, am).len() > 0,
    ensures
        exists|x: int| i <= x < keys.len() && obj_lookup(am, #[trigger] keys[x]) is None,
    decreases keys.len() - i,
{
    if i < keys.len() {
        if obj_lookup(am, keys[i]) is Some {
            lemma_missing_member(keys, i + 1, am);
        }
    }
}

/// The key-set report under `AllowUnexpectedKeys` never says more than the
/// one under `NoUnexpectedKeys`: when the lenient report fires, the strict
/// report fires too, at the same path with the same quoted maps.
proof fn lemma_match_keys_config(
    path: Seq<Seq<char>>,
    em: Seq<(String, Value)>,
    am: Seq<(String, Value)>,
)
    ensures
        mm_subset(
            spec_match_keys(path, em, am, DiffConfig::AllowUnexpectedKeys),
            spec_match_keys(path, em, am, DiffConfig::NoUnexpectedKeys),
        ),
{
    let eks = sort_keys(obj_keys(em));
    let aks = sort_keys(obj_keys(am));
    let missing = missing_from(eks, 0, am);
    if missing.len() > 0 {
        lemma_missing_member(eks, 0, am);
        let x = choose|x: int| 0 <= x < eks.len() && obj_lookup(am, #[trigger] eks[x]) is None;
        assert(eks != aks) by {
            if eks == aks {
                assert(aks.contains(eks[x]));
                lemma_sort_keys_member(obj_keys(am), eks[x]);
                let j = choose|j: int|
                    0 <= j < obj_keys(am).len() && obj_keys(am)[j] == eks[x];
                assert(am[j].0@ == eks[x]);
                lemma_obj_lookup_some(am, eks[x], j);
            }
        }
        let s1 = spec_match_keys(path, em, am, DiffConfig::AllowUnexpectedKeys);
        let s2 = spec_match_keys(path, em, am, DiffConfig::NoUnexpectedKeys);
        assert(s1.len() == 1 && s2.len() == 1);
        assert(mm_key(s1[0]) == mm_key(s2[0]));
        assert(s1.map_values(|m: MismatchV| mm_key(m)) =~= s2.map_values(
            |m: MismatchV| mm_key(m),
        ));
    } else {
        lemma_mm_subset_empty(spec_match_keys(path, em, am, DiffConfig::NoUnexpectedKeys));
        assert(spec_match_keys(path, em, am, DiffConfig::AllowUnexpectedKeys) == Seq::<
            MismatchV,
        >::empty());
    }
}

/// Tightening the configuration from `AllowUnexpectedKeys` to
/// `NoUnexpectedKeys` may add mismatches but never removes any, up to order
/// and description, provided no matching rules stand over the walk.
pub proof fn lemma_compare_config_monotone(
    path: Seq<Seq<char>>,
    e: Value,
    a: Value,
    entries: Seq<MatcherEntry>,
)
    requires
        entries.len() == 0,
    ensures
        mm_subset(
            spec_compare(path, e, a, entries, DiffConfig::AllowUnexpectedKeys),
            spec_compare(path, e, a, entries, DiffConfig::NoUnexpectedKeys),
        ),
    decreases e, 9int, 0int,
{
    assert(best_of(entries, path) is None);
    match (e, a) {
        (Value::Object(em), Value::Object(am)) => {
            let allow = spec_compare(path, e, a, entries, DiffConfig::AllowUnexpectedKeys);
            let no = spec_compare(path, e, a, entries, DiffConfig::NoUnexpectedKeys);
            if em@.len() == 0 && am@.len() > 0 {
                assert(allow == spec_match_keys(
                    path,
                    em@,
                    am@,
                    DiffConfig::AllowUnexpectedKeys,
                ) + spec_map_walk(
                    path,
                    e,
                    a,
                    0,
                    false,
                    entries,
                    DiffConfig::AllowUnexpectedKeys,
                ));
                assert(spec_map_walk(path, e, a, 0, false, entries,
                    DiffConfig::AllowUnexpectedKeys) == Seq::<MismatchV>::empty());
                assert(missing_from(sort_keys(obj_keys(em@)), 0, am@) == Seq::<
                    Seq<char>,
                >::empty());
                assert(spec_match_keys(path, em@, am@, DiffConfig::AllowUnexpectedKeys) == Seq::<
                    MismatchV,
                >::empty());
                assert(allow =~= Seq::<MismatchV>::empty());
                lemma_mm_subset_empty(no);
            } else {
                lemma_match_keys_config(path, em@, am@);
                lemma_map_walk_config(path, e, a, 0, entries);
                lemma_mm_subset_concat(
                    spec_match_keys(path, em@, am@, DiffConfig::AllowUnexpectedKeys),
                    spec_map_walk(path, e, a, 0, false, entries, DiffConfig::AllowUnexpectedKeys),
                    spec_match_keys(path, em@, am@, DiffConfig::NoUnexpectedKeys),
                    spec_map_walk(path, e, a, 0, false, entries, DiffConfig::NoUnexpectedKeys),
                );
            }
        },
        (Value::Object(_), _) => {
            lemma_mm_subset_refl(spec_compare(path, e, a, entries, DiffConfig::NoUnexpectedKeys));
        },
        (Value::Array(el), Value::Array(al)) => {
            if el@.len() == 0 && al@.len() > 0 {
                lemma_mm_subset_refl(
                    spec_compare(path, e, a, entries, DiffConfig::NoUnexpectedKeys),
                );
            } else {
                lemma_list_content_config(path, e, a, 0, entries);
                if el@.len() != al@.len() {
                    let extra = spec_compare(path, e, a, entries,
                        DiffConfig::NoUnexpectedKeys).subrange(
                        spec_list_content(path, e, a, 0, entries,
                            DiffConfig::NoUnexpectedKeys).len() as int,
                        spec_compare(path, e, a, entries, DiffConfig::NoUnexpectedKeys).len() as int,
                    );
                    let tail1 = spec_compare(path, e, a, entries,
                        DiffConfig::AllowUnexpectedKeys).subrange(
                        spec_list_content(path, e, a, 0, entries,
                            DiffConfig::AllowUnexpectedKeys).len() as int,
                        spec_compare(path, e, a, entries,
                            DiffConfig::AllowUnexpectedKeys).len() as int,
                    );
                    assert(tail1 =~= extra);
                    lemma_mm_subset_refl(extra);
                    lemma_mm_subset_concat(
                        spec_list_content(path, e, a, 0, entries,
                            DiffConfig::AllowUnexpectedKeys),
                        tail1,
                        spec_list_content(path, e, a, 0, entries, DiffConfig::NoUnexpectedKeys),
                        extra,
                    );
                    assert(spec_compare(path, e, a, entries, DiffConfig::AllowUnexpectedKeys)
                        =~= spec_list_content(path, e, a, 0, entries,
                        DiffConfig::AllowUnexpectedKeys) + tail1);
                    assert(spec_compare(path, e, a, entries, DiffConfig::NoUnexpectedKeys)
                        =~= spec_list_content(path, e, a, 0, entries,
                        DiffConfig::NoUnexpectedKeys) + extra);
                }
            }
        },
        (Value::Array(_), _) => {
            lemma_mm_subset_refl(spec_compare(path, e, a, entries, DiffConfig::NoUnexpectedKeys));
        },
        (_, _) => {
            assert(spec_compare(path, e, a, entries, DiffConfig::AllowUnexpectedKeys)
                == spec_compare(path, e, a, entries, DiffConfig::NoUnexpectedKeys));
            lemma_mm_subset_refl(spec_compare(path, e, a, entries, DiffConfig::NoUnexpectedKeys));
        },
    }
}

proof fn lemma_map_walk_config(
    path: Seq<Seq<char>>,
    e: Value,
    a: Value,
    i: int,
    entries: Seq<MatcherEntry>,
)
    requires
        entries.len() == 0,
        i >= 0,
    ensures
        mm_subset(
            spec_map_walk(path, e, a, i, false, entries, DiffConfig::AllowUnexpectedKeys),
            spec_map_walk(path, e, a, i, false, entries, DiffConfig::NoUnexpectedKeys),
        ),
    decreases e, 6int, (if e is Object {
        e->Object_0@.len()
    } else {
        0
    }) - i,
{
    if !(e is Object) || !(a is Object) || i >= e->Object_0@.len() {
        lemma_mm_subset_empty(Seq::<MismatchV>::empty());
    } else {
        let em = e->Object_0@;
        let am = a->Object_0@;
        let k = em[i].0@;
        let idx = obj_find(am, k);
        lemma_map_walk_config(path, e, a, i + 1, entries);
        if 0 <= idx < am.len() {
            lemma_compare_config_monotone(path.push(k), em[i].1, am[idx].1, entries);
            lemma_mm_subset_concat(
                spec_compare(path.push(k), em[i].1, am[idx].1, entries,
                    DiffConfig::AllowUnexpectedKeys),
                spec_map_walk(path, e, a, i + 1, false, entries,
                    DiffConfig::AllowUnexpectedKeys),
                spec_compare(path.push(k), em[i].1, am[idx].1, entries,
                    DiffConfig::NoUnexpectedKeys),
                spec_map_walk(path, e, a, i + 1, false, entries, DiffConfig::NoUnexpectedKeys),
            );
        } else {
            lemma_mm_subset_empty(Seq::<MismatchV>::empty());
            lemma_mm_subset_concat(
                Seq::<MismatchV>::empty(),
                spec_map_walk(path, e, a, i + 1, false, entries,
                    DiffConfig::AllowUnexpectedKeys),
                Seq::<MismatchV>::empty(),
                spec_map_walk(path, e, a, i + 1, false, entries, DiffConfig::NoUnexpectedKeys),
            );
        }
    }
}

proof fn lemma_list_content_config(
    path: Seq<Seq<char>>,
    e: Value,
    a: Value,
    i: int,
    entries: Seq<MatcherEntry>,
)
    requires
        entries.len() == 0,
        i >= 0,
    ensures
        mm_subset(
            spec_list_content(path, e, a, i, entries, DiffConfig::AllowUnexpectedKeys),
            spec_list_content(path, e, a, i, entries, DiffConfig::NoUnexpectedKeys),
        ),
    decreases e, 6int, (if e is Array {
        e->Array_0@.len()
    } else {
        0
    }) - i,
{
    if !(e is Array) || !(a is Array) || i >= e->Array_0@.len() {
        lemma_mm_subset_empty(Seq::<MismatchV>::empty());
    } else {
        let el = e->Array_0@;
        let al = a->Array_0@;
        lemma_list_content_config(path, e, a, i + 1, entries);
        if i < al.len() {
            lemma_compare_config_monotone(
                path.push(dec_digits(i as nat)),
                el[i],
                al[i],
                entries,
            );
            lemma_mm_subset_concat(
                spec_compare(path.push(dec_digits(i as nat)), el[i], al[i], entries,
                    DiffConfig::AllowUnexpectedKeys),
                spec_list_content(path, e, a, i + 1, entries,
                    DiffConfig::AllowUnexpectedKeys),
                spec_compare(path.push(dec_digits(i as nat)), el[i], al[i], entries,
                    DiffConfig::NoUnexpectedKeys),
                spec_list_content(path, e, a, i + 1, entries, DiffConfig::NoUnexpectedKeys),
            );
        } else {
            let this = spec_list_content(path, e, a, i, entries,
                DiffConfig::AllowUnexpectedKeys).subrange(
                0,
                spec_list_content(path, e, a, i, entries,
                    DiffConfig::AllowUnexpectedKeys).len() - spec_list_content(
                    path,
                    e,
                    a,
                    i + 1,
                    entries,
                    DiffConfig::AllowUnexpectedKeys,
                ).len(),
            );
            let this2 = spec_list_content(path, e, a, i, entries,
                DiffConfig::NoUnexpectedKeys).subrange(
                0,
                spec_list_content(path, e, a, i, entries,
                    DiffConfig::NoUnexpectedKeys).len() - spec_list_content(
                    path,
                    e,
                    a,
                    i + 1,
                    entries,
                    DiffConfig::NoUnexpectedKeys,
                ).len(),
            );
            assert(this =~= this2);
            lemma_mm_subset_refl(this2);
            lemma_mm_subset_concat(
                this,
                spec_list_content(path, e, a, i + 1, entries,
                    DiffConfig::AllowUnexpectedKeys),
                this2,
                spec_list_content(path, e, a, i + 1, entries, DiffConfig::NoUnexpectedKeys),
            );
            assert(spec_list_content(path, e, a, i, entries, DiffConfig::AllowUnexpectedKeys)
                =~= this + spec_list_content(path, e, a, i + 1, entries,
                DiffConfig::AllowUnexpectedKeys));
            assert(spec_list_content(path, e, a, i, entries, DiffConfig::NoUnexpectedKeys)
                =~= this2 + spec_list_content(path, e, a, i + 1, entries,
                DiffConfig::NoUnexpectedKeys));
        }
    }
}


/// The value a dot-path reaches from `v`, descending from fragment `i` on:
/// maps step by key, lists by decimal index, anything else ends the walk.
pub open spec fn spec_walk(v: Value, frags: Seq<Seq<char>>, i: int) -> Option<Value>
    decreases frags.len() - i,
{
    if i < 0 || i >= frags.len() {
        Some(v)
    } else {
        match v {
            Value::Object(em) => {
                let idx = obj_find(em@, frags[i]);
                if 0 <= idx < em@.len() {
                    spec_walk(em@[idx].1, frags, i + 1)
                } else {
                    None
                }
            },
            Value::Array(el) => {
                match crate::numbers::spec_parse_u64(frags[i]) {
                    Some(n) => if n < el@.len() {
                        spec_walk(el@[n as int], frags, i + 1)
                    } else {
                        None
                    },
                    None => None,
                }
            },
            _ => None,
        }
    }
}

/// Walks a parsed document along dot-separated path fragments (see
/// [`spec_walk`]).
pub fn walk_value<'a>(v: &'a Value, frags: &Vec<String>, i: usize) -> (r: Option<&'a Value>)
    ensures
        match r {
            Some(x) => spec_walk(*v, frags.deep_view(), i as int) == Some(*x),
            None => spec_walk(*v, frags.deep_view(), i as int) is None,
        },
    decreases frags@.len() - i,
{
    if i >= frags.len() {
        Some(v)
    } else {
        proof {
            assert(frags.deep_view()[i as int] == frags@[i as int]@);
        }
        match v {
            Value::Object(em) => {
                match obj_find_exec(em, frags[i].as_str()) {
                    Some(idx) => walk_value(&em[idx].1, frags, i + 1),
                    None => None,
                }
            },
            Value::Array(el) => {
                let fv = str_to_chars(frags[i].as_str());
                match crate::numbers::parse_u64_chars(&fv) {
                    Some(n) => if n < el.len() as u64 {
                        walk_value(&el[n as usize], frags, i + 1)
                    } else {
                        None
                    },
                    None => None,
                }
            },
            _ => None,
        }
    }
}

/// The text a body's focused fragment renders as for the diff: the whole
/// document when no fragments are given (the empty body standing for the
/// empty string, an unparseable one for null), the walked fragment's JSON
/// text when the walk succeeds, and nothing when it fails.
pub open spec fn frag_txt(text: Seq<char>, frags: Seq<Seq<char>>) -> Seq<char> {
    if frags.len() == 0 {
        if text.len() == 0 {
            seq!['"', '"']
        } else {
            match crate::trusted::json_parse_result(text) {
                Ok(v) => json_txt(v),
                Err(_) => "null"@,
            }
        }
    } else {
        if text.len() == 0 {
            Seq::empty()
        } else {
            let parsed = match crate::trusted::json_parse_result(text) {
                Ok(v) => spec_walk(v, frags, 0),
                Err(_) => spec_walk(Value::Null, frags, 0),
            };
            match parsed {
                Some(v) => json_txt(v),
                None => Seq::empty(),
            }
        }
    }
}

fn frag_txt_exec(text: &str, frags: &Vec<String>) -> (r: String)
    ensures
        r@ == frag_txt(text@, frags.deep_view()),
{
    let tv = str_to_chars(text);
    if frags.len() == 0 {
        if tv.len() == 0 {
            let r = String::from_str("\"\"");
            proof {
                reveal_strlit("\"\"");
                assert(r@ =~= seq!['"', '"']);
            }
            r
        } else {
            match crate::trusted::parse_json(text) {
                Ok(v) => v.to_json_str(),
                Err(_) => String::from_str("null"),
            }
        }
    } else {
        if tv.len() == 0 {
            String::new()
        } else {
            let parsed = crate::trusted::parse_json(text);
            let base = match &parsed {
                Ok(v) => v,
                Err(_) => &Value::Null,
            };
            match walk_value(base, frags, 0) {
                Some(v) => v.to_json_str(),
                None => String::new(),
            }
        }
    }
}

/// The escape that starts green terminal output.
pub open spec fn green_on() -> Seq<char> {
    seq!['\u{1b}', '[', '3', '2', 'm']
}

/// The escape that starts red terminal output.
pub open spec fn red_on() -> Seq<char> {
    seq!['\u{1b}', '[', '3', '1', 'm']
}

/// The escape that ends coloured terminal output.
pub open spec fn colour_off() -> Seq<char> {
    seq!['\u{1b}', '[', '0', 'm']
}

/// The rendering of the diff chunks from index `i` on: a shared chunk is
/// indented, an added chunk is green with a `+`, a removed one red with a
/// `-`; any other tag renders as nothing.
pub open spec fn render_chunks(
    chunks: Seq<(u8, Seq<char>)>,
    i: int,
    indent: Seq<char>,
) -> Seq<char>
    decreases chunks.len() - i,
{
    if i < 0 || i >= chunks.len() {
        Seq::empty()
    } else {
        let (tag, x) = chunks[i];
        let this = if tag == 0 {
            indent + x + seq!['\n']
        } else if tag == 1 {
            green_on() + indent + seq!['+'] + x + seq!['\n'] + colour_off()
        } else if tag == 2 {
            red_on() + indent + seq!['-'] + x + seq!['\n'] + colour_off()
        } else {
            Seq::empty()
        };
        this + render_chunks(chunks, i + 1, indent)
    }
}

fn render_chunks_exec(chunks: &Vec<(u8, String)>, i: usize, indent: &str) -> (r: String)
    ensures
        r@ == render_chunks(chunks.deep_view(), i as int, indent@),
    decreases chunks@.len() - i,
{
    if i >= chunks.len() {
        String::new()
    } else {
        proof {
            assert(chunks.deep_view()[i as int].0 == chunks@[i as int].0);
            assert(chunks.deep_view()[i as int].1 == chunks@[i as int].1@);
        }
        let tag = chunks[i].0;
        let this = if tag == 0 {
            crate::strings::cat3(indent, chunks[i].1.as_str(), "\n")
        } else if tag == 1 {
            let r = crate::strings::cat6(
                "\u{1b}[32m",
                indent,
                "+",
                chunks[i].1.as_str(),
                "\n",
                "\u{1b}[0m",
            );
            proof {
                reveal_strlit("\u{1b}[32m");
                reveal_strlit("\u{1b}[0m");
                reveal_strlit("+");
                reveal_strlit("\n");
                assert(r@ =~= green_on() + indent@ + seq!['+'] + chunks.deep_view()[i as int].1
                    + seq!['\n'] + colour_off());
            }
            r
        } else if tag == 2 {
            let r = crate::strings::cat6(
                "\u{1b}[31m",
                indent,
                "-",
                chunks[i].1.as_str(),
                "\n",
                "\u{1b}[0m",
            );
            proof {
                reveal_strlit("\u{1b}[31m");
                reveal_strlit("\u{1b}[0m");
                reveal_strlit("-");
                reveal_strlit("\n");
                assert(r@ =~= red_on() + indent@ + seq!['-'] + chunks.deep_view()[i as int].1
                    + seq!['\n'] + colour_off());
            }
            r
        } else {
            String::new()
        };
        proof {
            reveal_strlit("\n");
        }
        let rest = render_chunks_exec(chunks, i + 1, indent);
        crate::strings::cat2(this.as_str(), rest.as_str())
    }
}

/// The coloured, line-by-line diff of the two bodies, focused on the
/// fragment the dot-path names (its leading fragment is dropped, as the
/// root marker).
pub open spec fn spec_display_diff(
    e: Seq<char>,
    a: Seq<char>,
    path: Seq<char>,
    indent: Seq<char>,
) -> Seq<char> {
    let pieces = crate::strings::split_on(path, '.');
    let frags = pieces.subrange(1, pieces.len() as int);
    render_chunks(
        crate::trusted::diff_chunks(frag_txt(e, frags), frag_txt(a, frags)),
        0,
        indent,
    )
}

/// Returns a coloured diff of the expected versus the actual JSON bodies,
/// focusing on a particular dot-path (see [`spec_display_diff`]).
pub fn display_diff(expected: &str, actual: &str, path: &str, indent: &str) -> (r: String)
    ensures
        r@ == spec_display_diff(expected@, actual@, path@, indent@),
{
    let pv = str_to_chars(path);
    let pieces = crate::strings::split_chars(&pv, '.');
    proof {
        assert(crate::strings::split_on(path@, '.').len() > 0);
        assert(pieces@.len() > 0);
    }
    let frag_pieces = pieces_tail_strings(&pieces);
    let ef = frag_txt_exec(expected, &frag_pieces);
    let af = frag_txt_exec(actual, &frag_pieces);
    let chunks = crate::trusted::line_diff(ef.as_str(), af.as_str());
    render_chunks_exec(&chunks, 0, indent)
}

fn pieces_tail_strings(pieces: &Vec<Vec<char>>) -> (r: Vec<String>)
    requires
        pieces@.len() > 0,
    ensures
        r.deep_view() == pieces.deep_view().subrange(1, pieces.deep_view().len() as int),
{
    let mut r: Vec<String> = Vec::new();
    let mut i: usize = 1;
    while i < pieces.len()
        invariant
            1 <= i <= pieces@.len(),
            r@.len() == i - 1,
            forall|j: int| 0 <= j < i - 1 ==> r.deep_view()[j] == pieces.deep_view()[j + 1],
        decreases pieces@.len() - i,
    {
        let ghost r0 = r;
        proof {
            crate::strings::lemma_chars_deep_view(pieces@[i as int]);
        }
        let x = crate::strings::chars_to_string(&pieces[i]);
        proof {
            assert(x@ == pieces.deep_view()[i as int]);
        }
        r.push(x);
        i += 1;
        proof {
            assert forall|j: int| 0 <= j < i - 1 implies r.deep_view()[j] == pieces.deep_view()[j
                + 1] by {
                if j < i - 2 {
                    assert(r@[j] == r0@[j]);
                    assert(r0.deep_view()[j] == r0@[j]@);
                }
            }
        }
    }
    proof {
        assert(r.deep_view() =~= pieces.deep_view().subrange(1, pieces.deep_view().len() as int));
    }
    r
}

} // verus!
