use pact_matching::json::compare_maps;
use pact_matching::json::value_matches_with;
use pact_matching::match_json;
use pact_matching::rules::Matchers;
use pact_matching::rules::MatchingContext;
use pact_matching::rules::MatchingRule;
use pact_matching::rules::RuleLogic;
use pact_matching::value::Value;
use pact_matching::DiffConfig;
use pact_matching::HttpPart;
use pact_matching::Mismatch;
use pact_matching::OptionalBody;

fn request(body: &str) -> HttpPart {
    HttpPart { body: OptionalBody::Present(body.to_string()), ..HttpPart::default() }
}

fn allow_ctx() -> MatchingContext {
    MatchingContext::with_config(DiffConfig::AllowUnexpectedKeys)
}

fn ctx_with(config: DiffConfig, rules: &[(&str, MatchingRule)]) -> MatchingContext {
    let mut m = Matchers::new();
    for (path, rule) in rules {
        m.add_rule(path, clone_rule(rule), RuleLogic::And).unwrap();
    }
    MatchingContext::new(config, m)
}

fn clone_rule(rule: &MatchingRule) -> MatchingRule {
    match rule {
        MatchingRule::Type => MatchingRule::Type,
        MatchingRule::Integer => MatchingRule::Integer,
        MatchingRule::Regex(p) => MatchingRule::Regex(p.clone()),
        MatchingRule::ArrayContains(_) => MatchingRule::ArrayContains(Vec::new()),
        _ => panic!("rule not used in these tests"),
    }
}

fn mismatch_message(result: &Result<(), Vec<Mismatch>>) -> String {
    match result {
        Err(mismatches) => match mismatches.first() {
            Some(Mismatch::BodyMismatch { mismatch, .. }) => mismatch.clone(),
            _ => "".to_string(),
        },
        _ => "".to_string(),
    }
}

fn body_mm(path: &str, expected: Option<&str>, actual: Option<&str>) -> Mismatch {
    Mismatch::BodyMismatch {
        path: path.to_string(),
        expected: expected.map(|s| s.to_string()),
        actual: actual.map(|s| s.to_string()),
        mismatch: "".to_string(),
    }
}

#[test]
fn match_json_handles_invalid_expected_json() {
    let expected = request(r#"{"json": "is bad"#);
    let actual = request("{}");
    let result = match_json(&expected, &actual, &allow_ctx());
    assert_eq!(
        result.unwrap_err(),
        vec![body_mm("$", Some(r#"{"json": "is bad"#), Some("{}"))]
    );
}

#[test]
fn match_json_handles_invalid_actual_json() {
    let expected = request("{}");
    let actual = request(r#"{json: "is bad"}"#);
    let result = match_json(&expected, &actual, &allow_ctx());
    assert_eq!(
        result.unwrap_err(),
        vec![body_mm("$", Some("{}"), Some(r#"{json: "is bad"}"#))]
    );
}

#[test]
fn match_json_handles_expecting_a_map_but_getting_a_list() {
    let expected = request(r#"{}"#);
    let actual = request(r#"[]"#);
    let result = match_json(&expected, &actual, &allow_ctx());
    assert_eq!(
        mismatch_message(&result),
        "Type mismatch: Expected Map {} but received List []".to_string()
    );
    assert_eq!(result.unwrap_err(), vec![body_mm("$", Some("{}"), Some("[]"))]);
}

#[test]
fn match_json_handles_expecting_a_list_but_getting_a_map() {
    let expected = request(r#"[{}]"#);
    let actual = request(r#"{}"#);
    let result = match_json(&expected, &actual, &allow_ctx());
    assert_eq!(
        mismatch_message(&result),
        "Type mismatch: Expected List [{}] but received Map {}".to_string()
    );
    assert_eq!(result.unwrap_err(), vec![body_mm("$", Some("[{}]"), Some("{}"))]);
}

#[test]
fn match_json_handles_comparing_strings() {
    let val1 = request(r#""string value""#);
    let val2 = request(r#""other value""#);
    let result = match_json(&val1, &val1, &allow_ctx());
    assert!(result.is_ok());

    let result = match_json(&val1, &val2, &allow_ctx());
    assert_eq!(
        mismatch_message(&result),
        "Expected 'string value' to be equal to 'other value'".to_string()
    );
    assert_eq!(
        result.unwrap_err(),
        vec![body_mm("$", Some(r#""string value""#), Some(r#""other value""#))]
    );
}

#[test]
fn match_json_handles_comparing_integers() {
    let val1 = request(r#"100"#);
    let val2 = request(r#"200"#);
    let result = match_json(&val1, &val1, &allow_ctx());
    assert!(result.is_ok());

    let result = match_json(&val1, &val2, &allow_ctx());
    assert_eq!(mismatch_message(&result), "Expected '100' to be equal to '200'".to_string());
    assert_eq!(result.unwrap_err(), vec![body_mm("$", Some("100"), Some("200"))]);
}

#[test]
fn match_json_handles_comparing_floats() {
    let val1 = request(r#"100.01"#);
    let val2 = request(r#"100.02"#);
    let result = match_json(&val1, &val1, &allow_ctx());
    assert!(result.is_ok());

    let result = match_json(&val1, &val2, &allow_ctx());
    assert_eq!(
        mismatch_message(&result),
        "Expected '100.01' to be equal to '100.02'".to_string()
    );
    assert_eq!(result.unwrap_err(), vec![body_mm("$", Some("100.01"), Some("100.02"))]);
}

#[test]
fn match_json_handles_comparing_booleans() {
    let val1 = request(r#"true"#);
    let val2 = request(r#"false"#);
    let result = match_json(&val1, &val1, &allow_ctx());
    assert!(result.is_ok());

    let result = match_json(&val1, &val2, &allow_ctx());
    assert_eq!(mismatch_message(&result), "Expected 'true' to be equal to 'false'".to_string());
    assert_eq!(result.unwrap_err(), vec![body_mm("$", Some("true"), Some("false"))]);
}

#[test]
fn match_json_handles_comparing_nulls() {
    let val1 = request(r#"null"#);
    let val2 = request(r#"33"#);
    let result = match_json(&val1, &val1, &allow_ctx());
    assert!(result.is_ok());

    let result = match_json(&val1, &val2, &allow_ctx());
    assert_eq!(mismatch_message(&result), "Expected 'null' to be equal to '33'".to_string());
    assert_eq!(result.unwrap_err(), vec![body_mm("$", Some("null"), Some("33"))]);
}

#[test]
fn match_json_handles_comparing_lists() {
    let val1 = request(r#"[]"#);
    let val2 = request(r#"[11,22,33]"#);
    let val3 = request(r#"[11,44,33]"#);
    let val4 = request(r#"[11,44,33, 66]"#);

    assert!(match_json(&val1, &val1, &allow_ctx()).is_ok());
    assert!(match_json(&val2, &val2, &allow_ctx()).is_ok());
    assert!(match_json(&val3, &val3, &allow_ctx()).is_ok());

    let result = match_json(&val1, &val2, &allow_ctx());
    assert_eq!(
        mismatch_message(&result),
        "Expected an empty List but received [11,22,33]".to_string()
    );
    assert!(result.is_err());

    let result = match_json(&val2, &val3, &allow_ctx());
    assert_eq!(mismatch_message(&result), "Expected '22' to be equal to '44'".to_string());
    assert_eq!(result.unwrap_err(), vec![body_mm("$.1", Some("22"), Some("44"))]);

    let result = match_json(&val3, &val4, &allow_ctx());
    assert_eq!(
        mismatch_message(&result),
        "Expected a List with 3 elements but received 4 elements".to_string()
    );
    assert_eq!(
        result.unwrap_err(),
        vec![body_mm("$", Some("[11,44,33]"), Some("[11,44,33,66]"))]
    );

    let result = match_json(&val2, &val4, &allow_ctx());
    let mismatches = result.unwrap_err();
    assert_eq!(mismatches.len(), 2);
    let mismatch = mismatches[0].clone();
    assert_eq!(&mismatch, &body_mm("$.1", Some("22"), Some("44")));
    assert_eq!(mismatch.description(), "$.1 -> Expected '22' to be equal to '44'".to_string());
    let mismatch = mismatches[1].clone();
    assert_eq!(&mismatch, &body_mm("$", Some("[11,22,33]"), Some("[11,44,33,66]")));
    assert_eq!(
        mismatch.description(),
        "$ -> Expected a List with 3 elements but received 4 elements".to_string()
    );

    let type_ctx = ctx_with(DiffConfig::AllowUnexpectedKeys, &[("$", MatchingRule::Type)]);
    assert!(match_json(&val2, &val4, &type_ctx).is_ok());
    assert!(match_json(&val4, &val2, &type_ctx).is_ok());
}

#[test]
fn match_json_handles_comparing_maps() {
    let val1 = request(r#"{}"#);
    let val2 = request(r#"{"a": 1, "b": 2}"#);
    let val3 = request(r#"{"a": 1, "b": 3}"#);
    let val4 = request(r#"{"a": 1, "b": 2, "c": 3}"#);

    assert!(match_json(&val1, &val1, &allow_ctx()).is_ok());
    assert!(match_json(&val2, &val2, &allow_ctx()).is_ok());
    assert!(match_json(&val4, &val4, &allow_ctx()).is_ok());

    let no_ctx = MatchingContext::with_config(DiffConfig::NoUnexpectedKeys);
    let result = match_json(&val1, &val2, &no_ctx);
    assert_eq!(
        mismatch_message(&result),
        "Expected an empty Map but received {\"a\":1,\"b\":2}".to_string()
    );

    let result = match_json(&val2, &val3, &allow_ctx());
    assert_eq!(mismatch_message(&result), "Expected '2' to be equal to '3'".to_string());
    assert_eq!(result.unwrap_err(), vec![body_mm("$.b", Some("2"), Some("3"))]);

    let result = match_json(&val2, &val4, &allow_ctx());
    assert!(result.is_ok());

    let result = match_json(&val2, &val4, &no_ctx);
    assert_eq!(
        mismatch_message(&result),
        "Expected a Map with keys a, b but received one with keys a, b, c".to_string()
    );
    assert_eq!(
        result.unwrap_err(),
        vec![body_mm(
            "$",
            Some("{\"a\":\"1\",\"b\":\"2\"}"),
            Some("{\"a\":\"1\",\"b\":\"2\",\"c\":\"3\"}")
        )]
    );

    let result = match_json(&val3, &val4, &allow_ctx());
    assert_eq!(mismatch_message(&result), "Expected '3' to be equal to '2'".to_string());
    assert_eq!(result.unwrap_err(), vec![body_mm("$.b", Some("3"), Some("2"))]);

    let result = match_json(&val3, &val4, &no_ctx);
    let mismatches = result.unwrap_err();
    assert_eq!(mismatches.len(), 2);
    let mismatch = mismatches[0].clone();
    assert_eq!(
        &mismatch,
        &body_mm(
            "$",
            Some("{\"a\":\"1\",\"b\":\"3\"}"),
            Some("{\"a\":\"1\",\"b\":\"2\",\"c\":\"3\"}")
        )
    );
    assert_eq!(
        mismatch.description(),
        "$ -> Expected a Map with keys a, b but received one with keys a, b, c".to_string()
    );
    let mismatch = mismatches[1].clone();
    assert_eq!(&mismatch, &body_mm("$.b", Some("3"), Some("2")));
    assert_eq!(mismatch.description(), "$.b -> Expected '3' to be equal to '2'".to_string());

    let result = match_json(&val4, &val2, &allow_ctx());
    let mismatches = result.unwrap_err();
    assert_eq!(mismatches.len(), 1);
    let mismatch = mismatches[0].clone();
    assert_eq!(
        &mismatch,
        &body_mm(
            "$",
            Some("{\"a\":\"1\",\"b\":\"2\",\"c\":\"3\"}"),
            Some("{\"a\":\"1\",\"b\":\"2\"}")
        )
    );
    assert_eq!(
        mismatch.description(),
        "$ -> Actual map is missing the following keys: c".to_string()
    );

    let star_ctx = ctx_with(DiffConfig::AllowUnexpectedKeys, &[("$.*", MatchingRule::Type)]);
    assert!(match_json(&val3, &val2, &star_ctx).is_ok());
}

#[test]
fn json_equality_matcher_test() {
    let matcher = MatchingRule::Equality;
    let s100 = Value::Str("100".to_string());
    let s101 = Value::Str("101".to_string());
    assert!(value_matches_with(&s100, &Value::Str("100".to_string()), &matcher, false).is_ok());
    assert!(value_matches_with(&s100, &s101, &matcher, false).is_err());
    assert!(value_matches_with(&s100, &Value::Integer(100), &matcher, false).is_err());
}

#[test]
fn json_regex_matcher_test() {
    let matcher = MatchingRule::Regex("^\\d+$".to_string());
    let s100 = Value::Str("100".to_string());
    assert!(value_matches_with(&s100, &Value::Str("100".to_string()), &matcher, false).is_ok());
    assert!(value_matches_with(&s100, &Value::Str("101".to_string()), &matcher, false).is_ok());
    assert!(value_matches_with(&s100, &Value::Str("10a".to_string()), &matcher, false).is_err());
    assert!(value_matches_with(&s100, &Value::Integer(100), &matcher, false).is_ok());
}

#[test]
fn includes_matcher_test() {
    let matcher = MatchingRule::Include("10".to_string());
    let s100 = Value::Str("100".to_string());
    assert!(value_matches_with(&s100, &Value::Str("100".to_string()), &matcher, false).is_ok());
    assert!(value_matches_with(&s100, &Value::Str("101".to_string()), &matcher, false).is_ok());
    assert!(value_matches_with(&s100, &Value::Str("1a0".to_string()), &matcher, false).is_err());
    assert!(value_matches_with(&s100, &Value::Integer(100), &matcher, false).is_ok());
}

#[test]
fn json_type_matcher_test() {
    let matcher = MatchingRule::Type;
    let s100 = Value::Str("100".to_string());
    assert!(value_matches_with(&s100, &Value::Str("100".to_string()), &matcher, false).is_ok());
    assert!(value_matches_with(&s100, &Value::Str("101".to_string()), &matcher, false).is_ok());
    assert!(value_matches_with(&s100, &Value::Str("10a".to_string()), &matcher, false).is_ok());
    assert!(value_matches_with(&s100, &Value::Integer(100), &matcher, false).is_err());
}

#[test]
fn json_min_type_matcher_test() {
    let matcher = MatchingRule::MinType(2);
    let empty = Value::Array(Vec::new());
    let two = Value::Array(vec![Value::Integer(100), Value::Integer(100)]);
    let one = Value::Array(vec![Value::Integer(100)]);
    assert!(value_matches_with(&empty, &two, &matcher, false).is_ok());
    assert!(value_matches_with(&empty, &one, &matcher, false).is_err());
    assert!(value_matches_with(&empty, &one, &matcher, true).is_ok());
    let s100 = Value::Str("100".to_string());
    assert!(value_matches_with(&s100, &Value::Str("101".to_string()), &matcher, false).is_ok());
}

#[test]
fn json_max_type_matcher_test() {
    let matcher = MatchingRule::MaxType(1);
    let empty = Value::Array(Vec::new());
    let two = Value::Array(vec![Value::Integer(100), Value::Integer(100)]);
    let one = Value::Array(vec![Value::Integer(100)]);
    assert!(value_matches_with(&empty, &two, &matcher, false).is_err());
    assert!(value_matches_with(&empty, &two, &matcher, true).is_ok());
    assert!(value_matches_with(&empty, &one, &matcher, false).is_ok());
    let s100 = Value::Str("100".to_string());
    assert!(value_matches_with(&s100, &Value::Str("101".to_string()), &matcher, false).is_ok());
}

#[test]
fn min_max_type_matcher_test() {
    let matcher = MatchingRule::MinMaxType(2, 3);
    let empty = Value::Array(Vec::new());
    let two = Value::Array(vec![Value::Integer(100), Value::Integer(100)]);
    let three = Value::Array(vec![Value::Integer(100), Value::Integer(100), Value::Integer(100)]);
    let four = Value::Array(vec![
        Value::Integer(100),
        Value::Integer(100),
        Value::Integer(100),
        Value::Integer(100),
    ]);
    let one = Value::Array(vec![Value::Integer(100)]);
    assert!(value_matches_with(&empty, &two, &matcher, false).is_ok());
    assert!(value_matches_with(&empty, &three, &matcher, false).is_ok());
    assert!(value_matches_with(&empty, &four, &matcher, false).is_err());
    assert!(value_matches_with(&empty, &four, &matcher, true).is_ok());
    assert!(value_matches_with(&empty, &one, &matcher, false).is_err());
    let s100 = Value::Str("100".to_string());
    assert!(value_matches_with(&s100, &Value::Str("101".to_string()), &matcher, false).is_ok());
}

#[test]
fn json_integer_matcher_test() {
    let matcher = MatchingRule::Integer;
    let s100 = Value::Str("100".to_string());
    assert!(value_matches_with(&s100, &Value::Str("100".to_string()), &matcher, false).is_err());
    assert!(value_matches_with(&s100, &Value::Integer(100), &matcher, false).is_ok());
    assert!(value_matches_with(&s100, &Value::Decimal("100.02".to_string()), &matcher, false)
        .is_err());
}

#[test]
fn json_decimal_matcher_test() {
    let matcher = MatchingRule::Decimal;
    let s100 = Value::Str("100".to_string());
    assert!(value_matches_with(&s100, &Value::Str("100".to_string()), &matcher, false).is_err());
    assert!(value_matches_with(&s100, &Value::Integer(100), &matcher, false).is_err());
    assert!(value_matches_with(&s100, &Value::Decimal("100.01".to_string()), &matcher, false)
        .is_ok());
}

#[test]
fn json_number_matcher_test() {
    let matcher = MatchingRule::Number;
    let s100 = Value::Str("100".to_string());
    assert!(value_matches_with(&s100, &Value::Str("100".to_string()), &matcher, false).is_err());
    assert!(value_matches_with(&s100, &Value::Integer(100), &matcher, false).is_ok());
    assert!(value_matches_with(&s100, &Value::Decimal("100.01".to_string()), &matcher, false)
        .is_ok());
}

#[test]
fn json_boolean_matcher_test() {
    let matcher = MatchingRule::Boolean;
    let vtrue = Value::Bool(true);
    assert!(value_matches_with(&vtrue, &Value::Str("100".to_string()), &matcher, false).is_err());
    assert!(value_matches_with(&vtrue, &Value::Bool(false), &matcher, false).is_ok());
    assert!(value_matches_with(&vtrue, &Value::Integer(100), &matcher, false).is_err());
    assert!(value_matches_with(&vtrue, &Value::Str("true".to_string()), &matcher, false).is_ok());
    assert!(value_matches_with(&vtrue, &Value::Str("false".to_string()), &matcher, false).is_ok());
}

#[test]
fn json_null_matcher_test() {
    let matcher = MatchingRule::Null;
    let s100 = Value::Str("100".to_string());
    assert!(value_matches_with(&s100, &Value::Str("100".to_string()), &matcher, false).is_err());
    assert!(value_matches_with(&s100, &Value::Str("101".to_string()), &matcher, false).is_err());
    assert!(value_matches_with(&s100, &Value::Str("10a".to_string()), &matcher, false).is_err());
    assert!(value_matches_with(&s100, &Value::Integer(100), &matcher, false).is_err());
    assert!(value_matches_with(&s100, &Value::Decimal("100.2".to_string()), &matcher, false)
        .is_err());
    assert!(value_matches_with(&s100, &Value::Str("null".to_string()), &matcher, false).is_err());
    assert!(value_matches_with(&s100, &Value::Null, &matcher, false).is_ok());
}

#[test]
fn compare_lists_with_array_contains_matcher() {
    let val1 = request("[1, 2, 3]");
    let val2 = request("[10, 22, 6, 1, 5, 3, 2]");
    let ctx = ctx_with(
        DiffConfig::AllowUnexpectedKeys,
        &[("$", MatchingRule::ArrayContains(Vec::new()))],
    );
    assert!(match_json(&val1, &val2, &ctx).is_ok());
}

#[test]
fn compare_lists_without_array_contains_matcher_fails() {
    let val1 = request("[1, 2, 3]");
    let val2 = request("[10, 22, 6, 1, 5, 3, 2]");
    assert!(match_json(&val1, &val2, &allow_ctx()).is_err());
}

#[test]
fn compare_lists_with_array_contains_matcher_fails() {
    let val1 = request("[1, 2, 3]");
    let val2 = request("[10, 22, 6, 1, 5, 2]");
    let ctx = ctx_with(
        DiffConfig::AllowUnexpectedKeys,
        &[("$", MatchingRule::ArrayContains(Vec::new()))],
    );
    let result = match_json(&val1, &val2, &ctx);
    assert_eq!(
        result.unwrap_err(),
        vec![body_mm("$", Some("3"), Some("[\"10\",\"22\",\"6\",\"1\",\"5\",\"2\"]"))]
    );
}

#[test]
fn compare_lists_with_array_contains_matcher_with_more_complex_object() {
    let expected = request(
        r#"
    {
      "class": [ "order" ],
      "properties": {
          "orderNumber": 42,
          "itemCount": 3,
          "status": "pending"
      },
      "entities": [
        {
          "class": [ "info", "customer" ],
          "properties": {
            "customerId": "pj123",
            "name": "Peter Joseph"
          }
        }
      ],
      "actions": [
        {
          "name": "add-item",
          "title": "Add Item",
          "method": "POST",
          "href": "http://api.x.io/orders/42/items"
        }
      ],
      "links": [
        { "rel": [ "next" ], "href": "http://api.x.io/orders/43" }
      ]
    }
    "#,
    );
    let actual = request(
        r#"
    {
      "class": [ "order" ],
      "properties": {
          "orderNumber": 12,
          "itemCount": 6,
          "status": "pending"
      },
      "entities": [
        {
          "class": [ "items", "collection" ],
          "rel": [ "http://x.io/rels/order-items" ],
          "href": "http://api.x.io/orders/12/items"
        },
        {
          "class": [ "info", "customer" ],
          "rel": [ "http://x.io/rels/customer" ],
          "properties": {
            "customerId": "rh565421",
            "name": "Ron Haich"
          },
          "links": [
            { "rel": [ "self" ], "href": "http://api.x.io/customers/rh565421" }
          ]
        }
      ],
      "actions": [
        {
          "name": "add-item",
          "title": "Add Item",
          "method": "POST",
          "href": "http://api.x.io/orders/12/items",
          "type": "application/x-www-form-urlencoded",
          "fields": [
            { "name": "orderNumber", "type": "hidden", "value": "12" },
            { "name": "productCode", "type": "text" },
            { "name": "quantity", "type": "number" }
          ]
        },
        {
          "name": "delete-order",
          "title": "Delete Order",
          "method": "DELETE",
          "href": "http://api.x.io/orders/12"
        },
        {
          "name": "update-order",
          "title": "Update Order",
          "method": "POST",
          "href": "http://api.x.io/orders/12"
        }
      ],
      "links": [
        { "rel": [ "self" ], "href": "http://api.x.io/orders/12" },
        { "rel": [ "previous" ], "href": "http://api.x.io/orders/11" },
        { "rel": [ "next" ], "href": "http://api.x.io/orders/13" }
      ]
    }
    "#,
    );

    let mut entities_rules = Matchers::new();
    entities_rules
        .add_rule("$.properties.customerId", MatchingRule::Type, RuleLogic::And)
        .unwrap();
    entities_rules.add_rule("$.properties.name", MatchingRule::Type, RuleLogic::And).unwrap();
    let mut actions_rules = Matchers::new();
    actions_rules
        .add_rule(
            "$.href",
            MatchingRule::Regex(".*/orders/\\d+/items".to_string()),
            RuleLogic::And,
        )
        .unwrap();
    let mut links_rules = Matchers::new();
    links_rules
        .add_rule("$.href", MatchingRule::Regex(".*/orders/\\d+".to_string()), RuleLogic::And)
        .unwrap();

    let mut m = Matchers::new();
    m.add_rule(
        "$.entities",
        MatchingRule::ArrayContains(vec![(0, entities_rules)]),
        RuleLogic::And,
    )
    .unwrap();
    m.add_rule("$.properties.orderNumber", MatchingRule::Integer, RuleLogic::And).unwrap();
    m.add_rule("$.properties.itemCount", MatchingRule::Integer, RuleLogic::And).unwrap();
    m.add_rule("$.actions", MatchingRule::ArrayContains(vec![(0, actions_rules)]), RuleLogic::And)
        .unwrap();
    m.add_rule("$.links", MatchingRule::ArrayContains(vec![(0, links_rules)]), RuleLogic::And)
        .unwrap();
    let ctx = MatchingContext::new(DiffConfig::AllowUnexpectedKeys, m);

    let result = match_json(&expected, &actual, &ctx);
    assert!(result.is_ok());
}

#[test]
fn compare_lists_element_wise() {
    let path = vec!["$".to_string()];
    let ctx = MatchingContext::with_config(DiffConfig::AllowUnexpectedKeys);
    let expected = vec![Value::Integer(1), Value::Integer(2)];
    let actual = vec![Value::Integer(1), Value::Integer(2)];
    assert!(pact_matching::json::compare_lists(&path, expected, actual, &ctx).is_ok());

    let expected = vec![Value::Integer(1)];
    let actual = vec![Value::Integer(2)];
    assert!(pact_matching::json::compare_lists(&path, expected, actual, &ctx).is_err());
}

#[test]
fn compare_maps_handles_empty_expected_maps() {
    let expected: Vec<(String, Value)> = Vec::new();
    let actual = vec![("foo".to_string(), Value::Str("bar".to_string()))];
    let path = vec!["$".to_string()];

    let ctx = MatchingContext::with_config(DiffConfig::AllowUnexpectedKeys);
    let expected2: Vec<(String, Value)> = Vec::new();
    let actual2 = vec![("foo".to_string(), Value::Str("bar".to_string()))];
    assert!(compare_maps(&path, expected, actual, &ctx).is_ok());

    let ctx = MatchingContext::with_config(DiffConfig::NoUnexpectedKeys);
    assert!(compare_maps(&path, expected2, actual2, &ctx).is_err());
}

#[test]
fn compare_maps_handles_wildcard_matchers() {
    let val1 = request(
        r#"
    {
      "articles": [
        {
          "variants": {
            "001": {
              "bundles": {
                "001-A": {
                  "description": "someDescription",
                  "referencedArticles": [
                    {
                        "bundleId": "someId"
                    }
                  ]
                }
              }
            }
          }
        }
      ]
    }"#,
    );
    let val2 = request(
        r#"{
      "articles": [
        {
          "variants": {
            "002": {
              "bundles": {
                "002-A": {
                  "description": "someDescription",
                  "referencedArticles": [
                    {
                        "bundleId": "someId"
                    }
                  ]
                }
              }
            }
          }
        }
      ]
    }"#,
    );

    let mut m = Matchers::new();
    m.add_rule("$.articles[*].variants", MatchingRule::Values, RuleLogic::And).unwrap();
    m.add_rule("$.articles[*].variants.*.bundles", MatchingRule::Values, RuleLogic::And).unwrap();
    m.add_rule(
        "$.articles[*].variants.*.bundles.*.referencedArticles[*]",
        MatchingRule::Type,
        RuleLogic::And,
    )
    .unwrap();
    let context = MatchingContext::new(DiffConfig::AllowUnexpectedKeys, m);
    let result = match_json(&val1, &val2, &context);
    assert!(result.is_ok());
}
