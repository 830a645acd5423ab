//! The calls into outside crates that the engine relies on: regular
//! expression matching, date-time format validation, JSON parsing and
//! content-type detection. Each outside call stands behind a small wrapper
//! whose contract names what the call returns; everything around them is
//! verified.

use vstd::prelude::*;

use serde_json::Value as SerdeValue;

use crate::value::Value;

verus! {

/// What compiling the pattern returns: `None` when the pattern compiles,
/// otherwise the compile error text. Stands for `onig::Regex::new`, which
/// depends on the pattern alone.
pub uninterp spec fn regex_compile_error(pattern: Seq<char>) -> Option<Seq<char>>;

/// What matching the compiled pattern against the whole text returns:
/// whether it matched, or the match-time error text (the engine gives up on
/// some pattern-text pairs, for example when its retry limit is exceeded).
/// Stands for `onig::Regex::match_with_param` with the default parameters
/// and the whole-string option, which depends on the pattern and the text
/// alone.
pub uninterp spec fn regex_outcome(pattern: Seq<char>, text: Seq<char>) -> Result<bool, Seq<char>>;

/// How one attempt to match a pattern against a text ended.
pub enum RegexOutcome {
    /// The pattern compiled; whether it matched the whole text.
    Matched(bool),
    /// The pattern does not compile; the compile error text.
    BadPattern(String),
    /// The pattern compiled but the match could not be carried out; the
    /// match-time error text.
    MatchAborted(String),
}

/// Relies on `onig::Regex::new` and `onig::Regex::match_with_param`:
/// compiles the pattern and tests whether it matches the whole text, with
/// the default match parameters; both depend on their string arguments
/// alone. A match-time failure (such as the retry limit) is handed back as
/// its own outcome rather than aborting.
#[verifier::external_body]
pub fn regex_eval(pattern: &str, text: &str) -> (r: RegexOutcome)
    ensures
        match r {
            RegexOutcome::Matched(b) => regex_compile_error(pattern@) is None && regex_outcome(
                pattern@,
                text@,
            ) == Ok::<bool, Seq<char>>(b),
            RegexOutcome::BadPattern(e) => regex_compile_error(pattern@) == Some(e@),
            RegexOutcome::MatchAborted(e) => regex_compile_error(pattern@) is None
                && regex_outcome(pattern@, text@) == Err::<bool, Seq<char>>(e@),
        },
{
    match onig::Regex::new(pattern) {
        Err(err) => RegexOutcome::BadPattern(format!("{}", err)),
        Ok(re) => {
            let options = onig::SearchOptions::SEARCH_OPTION_WHOLE_STRING;
            match re.match_with_param(text, 0, options, None, onig::MatchParam::default()) {
                Ok(Some(n)) => RegexOutcome::Matched(n == text.len()),
                Ok(None) => RegexOutcome::Matched(false),
                Err(e) => RegexOutcome::MatchAborted(format!("{}", e)),
            }
        },
    }
}

/// What validating a value against a date-time format pattern returns:
/// `None` when the value matches the format, otherwise the error text.
/// Stands for `pact_models::time_utils::validate_datetime`, which depends on
/// the two strings alone.
pub uninterp spec fn datetime_check(value: Seq<char>, format: Seq<char>) -> Option<Seq<char>>;

/// Relies on `pact_models::time_utils::validate_datetime`: validates a value
/// against a date-time format pattern in the Java simple-date-format style;
/// the outcome depends on the two strings alone. The call aborts when a
/// matched year of five or more digits meets its day-of-month check, and
/// when a fraction-of-second field of twenty or more letters has its upper
/// bound computed (a power of ten past the machine word), so both shapes of
/// format are left out (see [`crate::matchers::safe_datetime_format`]).
#[verifier::external_body]
pub fn validate_datetime_str(value: &str, format: &str) -> (r: Result<(), String>)
    requires
        crate::matchers::safe_datetime_format(format@),
    ensures
        match r {
            Ok(_) => datetime_check(value@, format@) is None,
            Err(e) => datetime_check(value@, format@) == Some(e@),
        },
{
    pact_models::time_utils::validate_datetime(value, format)
}

/// What parsing a JSON document returns, over the library's value model:
/// the parsed value, or the parse error text. Stands for
/// `serde_json::from_str`, which depends on the text alone.
pub uninterp spec fn json_parse_result(text: Seq<char>) -> Result<Value, Seq<char>>;

#[verifier::external_type_specification]
#[verifier::external_body]
pub struct ExSerdeValue(SerdeValue);

/// Relies on `serde_json::Value`'s accessors: carries a parsed document into
/// the library's value model, one variant at a time. Objects keep
/// serde_json's key order (sorted, with duplicates collapsed); non-integer
/// numbers keep their shortest decimal rendering.
#[verifier::external_body]
fn convert_json(v: serde_json::Value) -> Value {
    match v {
        serde_json::Value::Null => Value::Null,
        serde_json::Value::Bool(b) => Value::Bool(b),
        serde_json::Value::Number(n) => match (n.as_i64(), n.as_u64()) {
            (Some(i), _) => Value::Integer(i as i128),
            (None, Some(u)) => Value::Integer(u as i128),
            (None, None) => Value::Decimal(n.to_string()),
        },
        serde_json::Value::String(s) => Value::Str(s),
        serde_json::Value::Array(a) => Value::Array(a.into_iter().map(convert_json).collect()),
        serde_json::Value::Object(o) => Value::Object(
            o.into_iter().map(|(k, x)| (k, convert_json(x))).collect(),
        ),
    }
}

/// Relies on `serde_json::from_str`: parses a JSON document, which depends
/// on the text alone, and hands it over in the library's value model.
#[verifier::external_body]
pub fn parse_json(text: &str) -> (r: Result<Value, String>)
    ensures
        match r {
            Ok(v) => json_parse_result(text@) == Ok::<Value, Seq<char>>(v),
            Err(e) => json_parse_result(text@) matches Err(m) && m == e@,
        },
{
    match serde_json::from_str::<serde_json::Value>(text) {
        Ok(v) => Ok(convert_json(v)),
        Err(e) => Err(format!("{}", e)),
    }
}

/// The content type detected from the first bytes of a payload, or `None`
/// when they are not valid UTF-8. Stands for
/// `pact_models::content_types::detect_content_type_from_bytes`, which
/// depends on the bytes alone.
pub uninterp spec fn detected_media(data: Seq<u8>) -> Option<Seq<char>>;

/// Relies on `pact_models::content_types::detect_content_type_from_bytes`:
/// sniffs the payload's content type from its first bytes.
#[verifier::external_body]
pub fn detect_content_type(data: &Vec<u8>) -> (r: Option<String>)
    ensures
        match r {
            Some(ct) => detected_media(data@) == Some(ct@),
            None => detected_media(data@) is None,
        },
{
    pact_models::content_types::detect_content_type_from_bytes(data.as_slice()).map(
        |ct| ct.to_string(),
    )
}

/// Relies on std `str::from_utf8`: succeeds exactly on valid UTF-8 and
/// yields the decoded characters, as vstd's UTF-8 model states them.
#[verifier::external_body]
pub fn bytes_to_utf8(data: &Vec<u8>) -> (r: Option<String>)
    ensures
        match r {
            Some(s) => vstd::utf8::valid_utf8(data@) && s@ == vstd::utf8::decode_utf8(data@),
            None => !vstd::utf8::valid_utf8(data@),
        },
{
    core::str::from_utf8(data.as_slice()).ok().map(|s| s.to_string())
}


/// What parsing an XML document returns, over the library's value model:
/// the converted root element, or the parse error text. Stands for
/// `sxd_document::parser::parse`, which depends on the text alone.
pub uninterp spec fn xml_parse_result(text: Seq<char>) -> Result<Value, Seq<char>>;

#[verifier::external_type_specification]
#[verifier::external_body]
pub struct ExXmlElement<'d>(sxd_document::dom::Element<'d>);

/// Relies on `sxd_document::dom`'s accessors: carries an element into the
/// library's value model, one node at a time. An element becomes a map with
/// its local name under `#name`, each attribute under `@` and its local
/// name, the concatenated character data under `#text`, and its child
/// elements, in document order, as a list under `#children`. This shape is
/// what the walk compares and what its paths name (see
/// [`crate::spec_match_xml_str`]).
#[verifier::external_body]
fn convert_xml(el: sxd_document::dom::Element) -> Value {
    let mut es = vec![("#name".to_string(), Value::Str(el.name().local_part().to_string()))];
    for a in el.attributes() {
        es.push((format!("@{}", a.name().local_part()), Value::Str(a.value().to_string())));
    }
    es.push(("#text".to_string(), Value::Str(xml_text(el))));
    es.push(("#children".to_string(), Value::Array(xml_children(el))));
    Value::Object(es)
}

/// Relies on `sxd_document::dom::ChildOfElement::text`: the element's
/// concatenated character data, in document order.
#[verifier::external_body]
fn xml_text(el: sxd_document::dom::Element) -> String {
    el.children().iter().filter_map(|c| c.text().map(|t| t.text())).collect()
}

/// Relies on `sxd_document::dom::ChildOfElement::element`: the element's
/// child elements, in document order, each converted.
#[verifier::external_body]
fn xml_children(el: sxd_document::dom::Element) -> Vec<Value> {
    el.children().iter().filter_map(|c| c.element()).map(convert_xml).collect()
}

/// Relies on `sxd_document::parser::parse`: parses an XML document, which
/// depends on the text alone, and hands its root element over in the
/// library's value model (see `convert_xml` above for the shape).
#[verifier::external_body]
pub fn parse_xml(text: &str) -> (r: Result<Value, String>)
    ensures
        match r {
            Ok(v) => xml_parse_result(text@) == Ok::<Value, Seq<char>>(v),
            Err(e) => xml_parse_result(text@) matches Err(m) && m == e@,
        },
{
    match sxd_document::parser::parse(text) {
        Err(e) => Err(format!("{}", e)),
        Ok(package) => {
            let doc = package.as_document();
            match doc.root().children().iter().find_map(|c| c.element()) {
                Some(root) => Ok(convert_xml(root)),
                None => Err("the document has no root element".to_string()),
            }
        },
    }
}


/// The line diff of two texts: one tagged chunk per run of lines, tag 0 for
/// lines both texts share, 1 for lines only the second has, 2 for lines only
/// the first has. Stands for `difference::Changeset::new` with the newline
/// separator, which depends on the two texts alone.
pub uninterp spec fn diff_chunks(e: Seq<char>, a: Seq<char>) -> Seq<(u8, Seq<char>)>;

/// Relies on `difference::Changeset::new`: the line-by-line difference of
/// two texts, each chunk tagged 0 (same), 1 (added) or 2 (removed).
#[verifier::external_body]
pub fn line_diff(e: &str, a: &str) -> (r: Vec<(u8, String)>)
    ensures
        r.deep_view() == diff_chunks(e@, a@),
{
    let cs = difference::Changeset::new(e, a, "\n");
    cs.diffs.into_iter().map(|d| match d {
        difference::Difference::Same(x) => (0u8, x),
        difference::Difference::Add(x) => (1u8, x),
        difference::Difference::Rem(x) => (2u8, x),
    }).collect()
}

} // verus!
