use pact_matching::match_body;
use pact_matching::match_headers;
use pact_matching::match_json;
use pact_matching::match_method;
use pact_matching::match_query;
use pact_matching::match_request;
use pact_matching::match_response;
use pact_matching::match_status;
use pact_matching::match_text;
use pact_matching::matchers::match_values_with;
use pact_matching::json::value_matches_with;
use pact_matching::path::parse_path_exp;
use pact_matching::rules::Matchers;
use pact_matching::rules::MatchingContext;
use pact_matching::rules::MatchingRule;
use pact_matching::rules::RuleLogic;
use pact_matching::strip_whitespace;
use pact_matching::value::Value;
use pact_matching::DiffConfig;
use pact_matching::HttpPart;
use pact_matching::Mismatch;
use pact_matching::MockServerMetrics;
use pact_matching::MockServerScheme;
use pact_matching::OptionalBody;

fn json_request(body: &str) -> HttpPart {
    HttpPart {
        headers: Some(vec![(
            "Content-Type".to_string(),
            "application/json".to_string(),
        )]),
        body: OptionalBody::Present(body.to_string()),
        ..HttpPart::default()
    }
}

fn rules_at(path: &str, rule: MatchingRule) -> Matchers {
    let mut m = Matchers::new();
    m.add_rule(path, rule, RuleLogic::And).unwrap();
    m
}

#[test]
fn simple_map_matches_itself() {
    let expected = json_request(r#"{"a":1}"#);
    let actual = json_request(r#"{"a":1}"#);
    let ctx = MatchingContext::with_config(DiffConfig::AllowUnexpectedKeys);
    assert!(match_json(&expected, &actual, &ctx).is_ok());
}

#[test]
fn value_mismatch_is_reported_at_its_path() {
    let expected = json_request(r#"{"a":1,"b":2}"#);
    let actual = json_request(r#"{"a":1,"b":3}"#);
    let ctx = MatchingContext::with_config(DiffConfig::AllowUnexpectedKeys);
    let mismatches = match_json(&expected, &actual, &ctx).unwrap_err();
    assert_eq!(mismatches.len(), 1);
    match &mismatches[0] {
        Mismatch::BodyMismatch { path, mismatch, .. } => {
            assert_eq!(path, "$.b");
            assert!(mismatch.contains("Expected '2' to be equal to '3'"));
        },
        _ => panic!("expected a body mismatch"),
    }
}

#[test]
fn extra_key_is_rejected_under_strict_keys() {
    let expected = json_request(r#"{"a":1}"#);
    let actual = json_request(r#"{"a":1,"c":2}"#);
    let ctx = MatchingContext::with_config(DiffConfig::NoUnexpectedKeys);
    let mismatches = match_json(&expected, &actual, &ctx).unwrap_err();
    assert_eq!(mismatches.len(), 1);
    match &mismatches[0] {
        Mismatch::BodyMismatch { path, mismatch, .. } => {
            assert_eq!(path, "$");
            assert_eq!(mismatch, "Expected a Map with keys a but received one with keys a, c");
        },
        _ => panic!("expected a body mismatch"),
    }
}

#[test]
fn min_type_rule_accepts_longer_list() {
    let expected = json_request(r#"[{}]"#);
    let actual = json_request(r#"[{},{},{}]"#);
    let ctx = MatchingContext::new(
        DiffConfig::AllowUnexpectedKeys,
        rules_at("$", MatchingRule::MinType(2)),
    );
    assert!(match_json(&expected, &actual, &ctx).is_ok());
}

#[test]
fn content_type_header_parameters_must_agree() {
    let expected = Some(vec![(
        "Content-Type".to_string(),
        "application/json; charset=utf-8".to_string(),
    )]);
    let actual = Some(vec![(
        "Content-Type".to_string(),
        "application/json; charset=ASCII".to_string(),
    )]);
    let mut mismatches: Vec<Mismatch> = Vec::new();
    match_headers(expected, actual, &mut mismatches, &None);
    assert_eq!(mismatches.len(), 1);
    match &mismatches[0] {
        Mismatch::HeaderMismatch { key, .. } => assert_eq!(key, "Content-Type"),
        _ => panic!("expected a header mismatch"),
    }
}

#[test]
fn array_contains_matches_object_by_its_rules() {
    let expected = json_request(r#"[{"id":"x"}]"#);
    let actual = json_request(r#"[{"id":"y"},{"id":"z"}]"#);
    let variant = rules_at("$.id", MatchingRule::Type);
    let ctx = MatchingContext::new(
        DiffConfig::AllowUnexpectedKeys,
        rules_at("$", MatchingRule::ArrayContains(vec![(0, variant)])),
    );
    assert!(match_json(&expected, &actual, &ctx).is_ok());
}

#[test]
fn method_comparison_ignores_case() {
    let mut mismatches: Vec<Mismatch> = Vec::new();
    match_method("GET".to_string(), "get".to_string(), &mut mismatches);
    assert!(mismatches.is_empty());
}

#[test]
fn method_mismatch_is_reported() {
    let mut mismatches: Vec<Mismatch> = Vec::new();
    match_method("GET".to_string(), "POST".to_string(), &mut mismatches);
    assert_eq!(mismatches.len(), 1);
    assert_eq!(mismatches[0].mismatch_type(), "MethodMismatch");
}

#[test]
fn status_comparison_is_plain_equality() {
    let mut mismatches: Vec<Mismatch> = Vec::new();
    match_status(200, 200, &mut mismatches);
    assert!(mismatches.is_empty());
    match_status(200, 404, &mut mismatches);
    assert_eq!(mismatches.len(), 1);
    assert_eq!(mismatches[0].mismatch_type(), "StatusMismatch");
}

#[test]
fn text_bodies_compare_by_equality() {
    let mut mismatches: Vec<Mismatch> = Vec::new();
    match_text(&"hello".to_string(), &"hello".to_string(), &mut mismatches);
    assert!(mismatches.is_empty());
    match_text(&"hello".to_string(), &"world".to_string(), &mut mismatches);
    assert_eq!(mismatches.len(), 1);
    match &mismatches[0] {
        Mismatch::BodyMismatch { path, mismatch, .. } => {
            assert_eq!(path, "/");
            assert_eq!(mismatch, "Expected text 'hello' but received 'world'");
        },
        _ => panic!("expected a body mismatch"),
    }
}

#[test]
fn missing_and_unexpected_query_parameters_are_reported() {
    let expected = Some(vec![("a".to_string(), vec!["1".to_string()])]);
    let actual = Some(vec![("b".to_string(), vec!["2".to_string()])]);
    let mut mismatches: Vec<Mismatch> = Vec::new();
    match_query(expected, actual, &mut mismatches, &None);
    assert_eq!(mismatches.len(), 2);
    match &mismatches[0] {
        Mismatch::QueryMismatch { parameter, mismatch, .. } => {
            assert_eq!(parameter, "a");
            assert_eq!(mismatch, "Expected query parameter 'a' but was missing");
        },
        _ => panic!("expected a query mismatch"),
    }
    match &mismatches[1] {
        Mismatch::QueryMismatch { parameter, mismatch, .. } => {
            assert_eq!(parameter, "b");
            assert_eq!(mismatch, "Unexpected query parameter 'b' received");
        },
        _ => panic!("expected a query mismatch"),
    }
}

#[test]
fn query_value_counts_and_values_are_checked() {
    let expected = Some(vec![("a".to_string(), vec!["1".to_string(), "2".to_string()])]);
    let actual = Some(vec![("a".to_string(), vec!["1".to_string()])]);
    let mut mismatches: Vec<Mismatch> = Vec::new();
    match_query(expected, actual, &mut mismatches, &None);
    assert_eq!(mismatches.len(), 2);
    match &mismatches[0] {
        Mismatch::QueryMismatch { mismatch, .. } => {
            assert_eq!(
                mismatch,
                "Expected query parameter 'a' with 2 value(s) but received 1 value(s)"
            );
        },
        _ => panic!("expected a query mismatch"),
    }
    match &mismatches[1] {
        Mismatch::QueryMismatch { mismatch, .. } => {
            assert_eq!(mismatch, "Expected query parameter 'a' value '2' but was missing");
        },
        _ => panic!("expected a query mismatch"),
    }
}

#[test]
fn header_names_compare_case_insensitively() {
    let expected = Some(vec![("Content-Type".to_string(), "text/html".to_string())]);
    let actual = Some(vec![("content-type".to_string(), "text/html".to_string())]);
    let mut mismatches: Vec<Mismatch> = Vec::new();
    match_headers(expected, actual, &mut mismatches, &None);
    assert!(mismatches.is_empty());
}

#[test]
fn missing_expected_header_is_reported() {
    let expected = Some(vec![("X-Token".to_string(), "abc".to_string())]);
    let actual = Some(Vec::new());
    let mut mismatches: Vec<Mismatch> = Vec::new();
    match_headers(expected, actual, &mut mismatches, &None);
    assert_eq!(mismatches.len(), 1);
    match &mismatches[0] {
        Mismatch::HeaderMismatch { key, mismatch, .. } => {
            assert_eq!(key, "X-Token");
            assert_eq!(mismatch, "Expected header 'X-Token' but was missing");
        },
        _ => panic!("expected a header mismatch"),
    }
}

#[test]
fn body_presence_table_is_honoured() {
    let mut mismatches: Vec<Mismatch> = Vec::new();
    let missing = HttpPart::default();
    let null = HttpPart { body: OptionalBody::Null, ..HttpPart::default() };
    let present = HttpPart {
        body: OptionalBody::Present("data".to_string()),
        ..HttpPart::default()
    };

    match_body(&missing, &present, DiffConfig::AllowUnexpectedKeys, &mut mismatches, &None);
    assert!(mismatches.is_empty());

    match_body(&null, &null, DiffConfig::AllowUnexpectedKeys, &mut mismatches, &None);
    assert!(mismatches.is_empty());

    match_body(&null, &present, DiffConfig::AllowUnexpectedKeys, &mut mismatches, &None);
    assert_eq!(mismatches.len(), 1);
    match &mismatches[0] {
        Mismatch::BodyMismatch { mismatch, .. } => {
            assert_eq!(mismatch, "Expected empty body but received 'data'");
        },
        _ => panic!("expected a body mismatch"),
    }

    let mut mismatches: Vec<Mismatch> = Vec::new();
    match_body(&present, &missing, DiffConfig::AllowUnexpectedKeys, &mut mismatches, &None);
    assert_eq!(mismatches.len(), 1);
    match &mismatches[0] {
        Mismatch::BodyMismatch { mismatch, .. } => {
            assert_eq!(mismatch, "Expected body 'data' but was missing");
        },
        _ => panic!("expected a body mismatch"),
    }

    let mut mismatches: Vec<Mismatch> = Vec::new();
    match_body(&present, &null, DiffConfig::AllowUnexpectedKeys, &mut mismatches, &None);
    assert!(mismatches.is_empty());
}

#[test]
fn different_content_types_give_a_body_type_mismatch() {
    let expected = HttpPart {
        headers: Some(vec![("Content-Type".to_string(), "application/json".to_string())]),
        body: OptionalBody::Present("{}".to_string()),
        ..HttpPart::default()
    };
    let actual = HttpPart {
        headers: Some(vec![("Content-Type".to_string(), "text/html".to_string())]),
        body: OptionalBody::Present("<html/>".to_string()),
        ..HttpPart::default()
    };
    let mut mismatches: Vec<Mismatch> = Vec::new();
    match_body(&expected, &actual, DiffConfig::AllowUnexpectedKeys, &mut mismatches, &None);
    assert_eq!(mismatches.len(), 1);
    match &mismatches[0] {
        Mismatch::BodyTypeMismatch { expected, actual } => {
            assert_eq!(expected, "application/json");
            assert_eq!(actual, "text/html");
        },
        _ => panic!("expected a body type mismatch"),
    }
}

#[test]
fn request_matches_itself() {
    let part = || HttpPart {
        method: "POST".to_string(),
        path: "/orders/1".to_string(),
        status: 201,
        query: Some(vec![("page".to_string(), vec!["1".to_string(), "2".to_string()])]),
        headers: Some(vec![
            ("Content-Type".to_string(), "application/json; charset=utf-8".to_string()),
            ("X-Token".to_string(), "abc, def".to_string()),
        ]),
        body: OptionalBody::Present(r#"{"a":[1,2.5,"x"],"b":{"c":null,"d":true}}"#.to_string()),
        matching_rules: None,
    };
    assert!(match_request(part(), part()).is_empty());
    assert!(match_response(part(), part()).is_empty());
}

#[test]
fn matching_is_deterministic() {
    let part = || HttpPart {
        method: "GET".to_string(),
        path: "/a".to_string(),
        headers: Some(vec![("Content-Type".to_string(), "application/json".to_string())]),
        body: OptionalBody::Present(r#"{"a":1,"b":[2,3]}"#.to_string()),
        ..HttpPart::default()
    };
    let other = || HttpPart {
        method: "GET".to_string(),
        path: "/b".to_string(),
        headers: Some(vec![("Content-Type".to_string(), "application/json".to_string())]),
        body: OptionalBody::Present(r#"{"a":2,"b":[2]}"#.to_string()),
        ..HttpPart::default()
    };
    let first = match_request(part(), other());
    let second = match_request(part(), other());
    assert_eq!(first.len(), second.len());
    let mut i = 0;
    while i < first.len() {
        assert_eq!(first[i], second[i]);
        assert_eq!(first[i].description(), second[i].description());
        i += 1;
    }
}

#[test]
fn adding_rules_under_or_keeps_a_pass() {
    let mut passing = Matchers::new();
    passing.add_rule("$.x", MatchingRule::Integer, RuleLogic::Or).unwrap();
    let path = vec!["$".to_string(), "x".to_string()];
    assert!(match_values_with(&path, &passing, "100", "100").is_ok());

    passing.add_rule("$.x", MatchingRule::Regex("^zzz$".to_string()), RuleLogic::Or).unwrap();
    assert!(match_values_with(&path, &passing, "100", "100").is_ok());
}

#[test]
fn adding_rules_under_and_keeps_a_failure() {
    let mut failing = Matchers::new();
    failing.add_rule("$.x", MatchingRule::Regex("^zzz$".to_string()), RuleLogic::And).unwrap();
    let path = vec!["$".to_string(), "x".to_string()];
    assert!(match_values_with(&path, &failing, "100", "100").is_err());

    failing.add_rule("$.x", MatchingRule::Integer, RuleLogic::And).unwrap();
    assert!(match_values_with(&path, &failing, "100", "100").is_err());
}

#[test]
fn array_contains_ignores_actual_order() {
    let expected = json_request(r#"[1, 2, 3]"#);
    let forwards = json_request(r#"[1, 2, 3, 4]"#);
    let backwards = json_request(r#"[4, 3, 2, 1]"#);
    let ctx = MatchingContext::new(
        DiffConfig::AllowUnexpectedKeys,
        rules_at("$", MatchingRule::ArrayContains(Vec::new())),
    );
    assert!(match_json(&expected, &forwards, &ctx).is_ok());
    assert!(match_json(&expected, &backwards, &ctx).is_ok());

    let missing_two = json_request(r#"[3, 1]"#);
    let missing_two_flipped = json_request(r#"[1, 3]"#);
    let first = match_json(&expected, &missing_two, &ctx).unwrap_err();
    let second = match_json(&expected, &missing_two_flipped, &ctx).unwrap_err();
    assert_eq!(first.len(), second.len());
}

#[test]
fn strict_keys_only_add_mismatches() {
    let expected = json_request(r#"{"a":1}"#);
    let actual = json_request(r#"{"a":1,"c":2}"#);
    let allow = MatchingContext::with_config(DiffConfig::AllowUnexpectedKeys);
    let strict = MatchingContext::with_config(DiffConfig::NoUnexpectedKeys);
    let relaxed = match_json(&expected, &actual, &allow);
    let stricter = match_json(&expected, &actual, &strict);
    assert!(relaxed.is_ok());
    assert_eq!(stricter.unwrap_err().len(), 1);
}

#[test]
fn no_matcher_error_when_nothing_applies_to_the_path() {
    let mut m = Matchers::new();
    m.add_rule("$.x", MatchingRule::Integer, RuleLogic::And).unwrap();
    let path = vec!["$".to_string(), "y".to_string()];
    let errs = match_values_with(&path, &m, "1", "1").unwrap_err();
    assert_eq!(errs, vec!["No matcher found for path '$.y'".to_string()]);
}

#[test]
fn malformed_path_expressions_are_rejected() {
    assert!(parse_path_exp("$.a.b[1]['x']").is_ok());
    assert!(parse_path_exp("$.").is_err());
    assert!(parse_path_exp("$[")
        .is_err());
    assert!(parse_path_exp("$['']").is_err());
    assert!(parse_path_exp("$[x]").is_err());
    assert!(parse_path_exp("!bad").is_err());
}

#[test]
fn number_rule_follows_the_float_grammar() {
    let rule = || MatchingRule::Number;
    assert!(match_values_str("1e3", rule()).is_ok());
    assert!(match_values_str("-2.5", rule()).is_ok());
    assert!(match_values_str("inf", rule()).is_ok());
    assert!(match_values_str("NaN", rule()).is_ok());
    assert!(match_values_str(".5", rule()).is_ok());
    assert!(match_values_str("", rule()).is_err());
    assert!(match_values_str("1e", rule()).is_err());
    assert!(match_values_str("--1", rule()).is_err());
}

fn match_values_str(actual: &str, rule: MatchingRule) -> Result<(), Vec<String>> {
    let mut m = Matchers::new();
    m.add_rule("$.n", rule, RuleLogic::And).unwrap();
    let path = vec!["$".to_string(), "n".to_string()];
    match_values_with(&path, &m, "0", actual)
}

#[test]
fn integer_rule_follows_the_unsigned_grammar() {
    let rule = || MatchingRule::Integer;
    assert!(match_values_str("123", rule()).is_ok());
    assert!(match_values_str("+123", rule()).is_ok());
    assert!(match_values_str("-1", rule()).is_err());
    assert!(match_values_str("18446744073709551615", rule()).is_ok());
    assert!(match_values_str("18446744073709551616", rule()).is_err());
}

#[test]
fn content_type_rule_sniffs_the_data() {
    let rule = MatchingRule::ContentType("application/json".to_string());
    let json_text = Value::Str(r#"{"a": 1}"#.to_string());
    assert!(value_matches_with(&json_text, &json_text, &rule, false).is_ok());
    let plain = Value::Str("just some words".to_string());
    assert!(value_matches_with(&plain, &plain, &rule, false).is_err());
}

#[test]
fn values_are_rendered_compactly() {
    let v = Value::Object(vec![
        ("a".to_string(), Value::Integer(1)),
        ("b".to_string(), Value::Array(vec![Value::Str("x\"y".to_string()), Value::Null])),
    ]);
    assert_eq!(v.to_json_str(), "{\"a\":1,\"b\":[\"x\\\"y\",null]}");
}

#[test]
fn header_values_are_split_and_trimmed() {
    let pieces = strip_whitespace("a, b ,c", ',');
    assert_eq!(pieces, vec!["a".to_string(), "b".to_string(), "c".to_string()]);

    let expected = Some(vec![("Allowed".to_string(), "GET,  POST".to_string())]);
    let actual = Some(vec![("allowed".to_string(), "GET , POST".to_string())]);
    let mut mismatches: Vec<Mismatch> = Vec::new();
    match_headers(expected, actual, &mut mismatches, &None);
    assert!(mismatches.is_empty());
}

#[test]
fn mock_server_types_have_plain_defaults() {
    assert_eq!(MockServerScheme::default(), MockServerScheme::HTTP);
    assert_eq!(MockServerScheme::HTTPS.to_string(), "https");
    assert_eq!(MockServerScheme::HTTP.to_string(), "http");
    assert_eq!(MockServerMetrics::default(), MockServerMetrics { requests: 0 });
    assert_eq!(MockServerMetrics::default().requests, 0);
}

#[test]
fn mimetype_comes_from_the_content_type_header() {
    let part = json_request("{}");
    assert_eq!(part.mimetype(), "application/json");
    let plain = HttpPart::default();
    assert_eq!(plain.mimetype(), "text/plain");
    let with_params = HttpPart {
        headers: Some(vec![(
            "content-type".to_string(),
            " application/hal+json ; charset=utf-8".to_string(),
        )]),
        ..HttpPart::default()
    };
    assert_eq!(with_params.mimetype(), "application/hal+json");
}

#[test]
fn regex_compile_failure_is_reported_in_the_message() {
    let rule = MatchingRule::Regex("[unclosed".to_string());
    let errs = match_values_str("anything", rule).unwrap_err();
    assert_eq!(errs.len(), 1);
    assert!(errs[0].contains("is not a valid regular expression"));
}

#[test]
fn rule_errors_carry_every_failing_message_under_and() {
    let mut m = Matchers::new();
    m.add_rule("$.x", MatchingRule::Integer, RuleLogic::And).unwrap();
    m.add_rule("$.x", MatchingRule::Include("zz".to_string()), RuleLogic::And).unwrap();
    let path = vec!["$".to_string(), "x".to_string()];
    let errs = match_values_with(&path, &m, "0", "abc").unwrap_err();
    assert_eq!(errs.len(), 2);
    assert_eq!(errs[0], "Expected 'abc' to match an integer number");
    assert_eq!(errs[1], "Expected 'abc' to include 'zz'");
}

#[test]
fn byte_data_rules_decode_utf8_first() {
    let data = Value::Bytes(vec![104, 101, 108, 108, 111]);
    assert!(value_matches_with(&data, &data, &MatchingRule::Regex("hel.*".to_string()), false)
        .is_ok());
    assert!(value_matches_with(&data, &data, &MatchingRule::Regex("xyz".to_string()), false)
        .is_err());
    assert!(value_matches_with(&data, &data, &MatchingRule::Include("ell".to_string()), false)
        .is_ok());
    assert!(value_matches_with(&data, &data, &MatchingRule::Equality, false).is_ok());
    let junk = Value::Bytes(vec![0xff, 0xfe]);
    let err = value_matches_with(&junk, &junk, &MatchingRule::Include("x".to_string()), false)
        .unwrap_err();
    assert!(err.contains("Could not convert the actual bytes"));
}

#[test]
fn mismatches_serialise_with_sorted_keys() {
    let m = Mismatch::MethodMismatch { expected: "GET".to_string(), actual: "POST".to_string() };
    assert_eq!(
        m.to_json().to_json_str(),
        "{\"actual\":\"POST\",\"expected\":\"GET\",\"type\":\"MethodMismatch\"}"
    );
    let m = Mismatch::StatusMismatch { expected: 200, actual: 404 };
    assert_eq!(
        m.to_json().to_json_str(),
        "{\"actual\":404,\"expected\":200,\"type\":\"StatusMismatch\"}"
    );
    let m = Mismatch::BodyMismatch {
        path: "$".to_string(),
        expected: None,
        actual: Some("x".to_string()),
        mismatch: "m".to_string(),
    };
    assert_eq!(
        m.to_json().to_json_str(),
        "{\"actual\":\"x\",\"expected\":null,\"mismatch\":\"m\",\"path\":\"$\",\"type\":\"BodyMismatch\"}"
    );
}

#[test]
fn regex_engine_giving_up_is_a_mismatch_not_an_abort() {
    let rule = MatchingRule::Regex("(a|b|ab)*bc".to_string());
    let hard = "ababababababababababababababababababababababababababababacbc";
    let result = pact_matching::matchers::string_matches_with("x", hard, &rule, false);
    let err = result.unwrap_err();
    assert!(err.contains("Could not match"));

    let value = Value::Str(hard.to_string());
    let result = value_matches_with(&value, &value, &rule, false);
    assert!(result.unwrap_err().contains("Could not match"));
}

#[test]
fn overlong_year_with_day_field_is_rejected_not_aborted() {
    let rule = MatchingRule::Timestamp("yyyyy dd".to_string());
    let result = pact_matching::matchers::string_matches_with("x", "99999 31", &rule, false);
    let err = result.unwrap_err();
    assert!(err.contains("is not a supported date-time format"));

    let value = Value::Str("99999 31".to_string());
    let result = value_matches_with(&value, &value, &MatchingRule::Date("yyyyy dd".to_string()), false);
    assert!(result.unwrap_err().contains("is not a supported date-time format"));

    let long_year_alone = MatchingRule::Date("yyyyy".to_string());
    assert!(pact_matching::matchers::string_matches_with("x", "99999", &long_year_alone, false)
        .is_ok());
}

#[test]
fn repeated_content_type_parameters_collapse_to_the_last() {
    let same = Some(vec![("Content-Type".to_string(), "text/plain; a=1; a=2".to_string())]);
    let same2 = Some(vec![("Content-Type".to_string(), "text/plain; a=1; a=2".to_string())]);
    let mut mismatches: Vec<Mismatch> = Vec::new();
    match_headers(same, same2, &mut mismatches, &None);
    assert!(mismatches.is_empty());

    let expected = Some(vec![("Content-Type".to_string(), "text/plain; a=1; a=2".to_string())]);
    let actual = Some(vec![("Content-Type".to_string(), "text/plain; a=2".to_string())]);
    match_headers(expected, actual, &mut mismatches, &None);
    assert!(mismatches.is_empty());

    let expected = Some(vec![("Content-Type".to_string(), "text/plain; a=1; a=2".to_string())]);
    let actual = Some(vec![("Content-Type".to_string(), "text/plain; a=1".to_string())]);
    match_headers(expected, actual, &mut mismatches, &None);
    assert_eq!(mismatches.len(), 1);
}

#[test]
fn content_type_parameters_compare_on_shared_names_only() {
    let expected = Some(vec![(
        "Content-Type".to_string(),
        "application/json; charset=utf-8".to_string(),
    )]);
    let actual = Some(vec![("Content-Type".to_string(), "application/json".to_string())]);
    let mut mismatches: Vec<Mismatch> = Vec::new();
    match_headers(expected, actual, &mut mismatches, &None);
    assert!(mismatches.is_empty());

    let expected = Some(vec![("Content-Type".to_string(), "application/json".to_string())]);
    let actual = Some(vec![(
        "Content-Type".to_string(),
        "application/json; charset=utf-8".to_string(),
    )]);
    match_headers(expected, actual, &mut mismatches, &None);
    assert!(mismatches.is_empty());
}

fn xml_request(body: &str) -> HttpPart {
    HttpPart {
        headers: Some(vec![("Content-Type".to_string(), "application/xml".to_string())]),
        body: OptionalBody::Present(body.to_string()),
        ..HttpPart::default()
    }
}

#[test]
fn xml_bodies_match_themselves() {
    let part = xml_request(r#"<order id="1"><item>a</item><item>b</item></order>"#);
    let other = xml_request(r#"<order id="1"><item>a</item><item>b</item></order>"#);
    let mut mismatches: Vec<Mismatch> = Vec::new();
    match_body(&part, &other, DiffConfig::AllowUnexpectedKeys, &mut mismatches, &None);
    assert!(mismatches.is_empty());
}

#[test]
fn xml_attribute_differences_are_reported() {
    let expected = xml_request(r#"<order id="1"/>"#);
    let actual = xml_request(r#"<order id="2"/>"#);
    let mut mismatches: Vec<Mismatch> = Vec::new();
    match_body(&expected, &actual, DiffConfig::AllowUnexpectedKeys, &mut mismatches, &None);
    assert_eq!(mismatches.len(), 1);
    match &mismatches[0] {
        Mismatch::BodyMismatch { path, mismatch, .. } => {
            assert_eq!(path, "$.@id");
            assert_eq!(mismatch, "Expected '1' to be equal to '2'");
        },
        _ => panic!("expected a body mismatch"),
    }
}

#[test]
fn xml_repeated_children_follow_list_semantics() {
    let expected = xml_request(r#"<order><item>a</item><item>b</item></order>"#);
    let actual = xml_request(r#"<order><item>a</item></order>"#);
    let mut mismatches: Vec<Mismatch> = Vec::new();
    match_body(&expected, &actual, DiffConfig::AllowUnexpectedKeys, &mut mismatches, &None);
    assert!(!mismatches.is_empty());
    let texts: Vec<String> = mismatches.iter().map(|m| m.description()).collect();
    assert!(texts.iter().any(|t| t.contains("Expected a List with 2 elements but received 1 elements")));
}

#[test]
fn xml_text_content_is_compared() {
    let expected = xml_request(r#"<note>hello</note>"#);
    let same = xml_request(r#"<note>hello</note>"#);
    let different = xml_request(r#"<note>world</note>"#);
    let mut mismatches: Vec<Mismatch> = Vec::new();
    match_body(&expected, &same, DiffConfig::AllowUnexpectedKeys, &mut mismatches, &None);
    assert!(mismatches.is_empty());
    match_body(&expected, &different, DiffConfig::AllowUnexpectedKeys, &mut mismatches, &None);
    assert_eq!(mismatches.len(), 1);
    match &mismatches[0] {
        Mismatch::BodyMismatch { path, mismatch, .. } => {
            assert_eq!(path, "$.#text");
            assert_eq!(mismatch, "Expected 'hello' to be equal to 'world'");
        },
        _ => panic!("expected a body mismatch"),
    }
}

#[test]
fn unparseable_xml_is_reported_at_the_root() {
    let expected = xml_request(r#"<order>"#);
    let actual = xml_request(r#"<order/>"#);
    let mut mismatches: Vec<Mismatch> = Vec::new();
    match_body(&expected, &actual, DiffConfig::AllowUnexpectedKeys, &mut mismatches, &None);
    assert_eq!(mismatches.len(), 1);
    match &mismatches[0] {
        Mismatch::BodyMismatch { path, mismatch, .. } => {
            assert_eq!(path, "$");
            assert!(mismatch.contains("Failed to parse the expected body"));
        },
        _ => panic!("expected a body mismatch"),
    }
}

#[test]
fn body_diffs_are_rendered_line_by_line_with_colours() {
    let diff = pact_matching::json::display_diff(
        "{\"a\": 1}",
        "{\"a\": 2}",
        "$",
        "  ",
    );
    assert!(diff.contains("\u{1b}[31m"));
    assert!(diff.contains("\u{1b}[32m"));
    assert!(diff.contains("-{\"a\":1}"));
    assert!(diff.contains("+{\"a\":2}"));

    let focused = pact_matching::json::display_diff(
        "{\"a\": 1}",
        "{\"a\": 2}",
        "$.a",
        "",
    );
    assert!(focused.contains("-1"));
    assert!(focused.contains("+2"));

    let same = pact_matching::json::display_diff("[1]", "[1]", "$", "  ");
    assert_eq!(same, "  [1]\n");
}

#[test]
fn overlong_fraction_of_second_field_is_rejected_not_aborted() {
    let rule = MatchingRule::Timestamp("SSSSSSSSSSSSSSSSSSSS".to_string());
    let result = pact_matching::matchers::string_matches_with("x", "5", &rule, false);
    assert!(result.unwrap_err().contains("is not a supported date-time format"));

    let value = Value::Str("5".to_string());
    let result =
        value_matches_with(&value, &value, &MatchingRule::Time("SSSSSSSSSSSSSSSSSSSS".to_string()), false);
    assert!(result.unwrap_err().contains("is not a supported date-time format"));

    let nineteen = MatchingRule::Timestamp("SSSSSSSSSSSSSSSSSSS".to_string());
    assert!(pact_matching::matchers::string_matches_with("x", "5", &nineteen, false).is_ok());
}

#[test]
fn rules_select_on_xml_bodies_through_the_converted_paths() {
    let expected = xml_request(r#"<note author="ann">one</note>"#);
    let actual = xml_request(r#"<note author="ben">two</note>"#);
    let mut m = Matchers::new();
    m.add_rule("$['#text']", MatchingRule::Type, RuleLogic::And).unwrap();
    m.add_rule("$['@author']", MatchingRule::Regex("[a-z]+".to_string()), RuleLogic::And).unwrap();
    let mut mismatches: Vec<Mismatch> = Vec::new();
    match_body(&expected, &actual, DiffConfig::AllowUnexpectedKeys, &mut mismatches, &Some(m));
    assert!(mismatches.is_empty());

    let expected = xml_request(r#"<order><item>a</item><item>b</item></order>"#);
    let actual = xml_request(r#"<order><item>a</item><item>c</item></order>"#);
    let mut m = Matchers::new();
    m.add_rule("$['#children'][*]", MatchingRule::Type, RuleLogic::And).unwrap();
    let mut mismatches: Vec<Mismatch> = Vec::new();
    match_body(&expected, &actual, DiffConfig::AllowUnexpectedKeys, &mut mismatches, &Some(m));
    assert!(mismatches.is_empty());
}
