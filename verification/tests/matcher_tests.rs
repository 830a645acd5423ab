use pact_matching::matchers::match_status_code;
use pact_matching::matchers::string_matches_with;
use pact_matching::json::value_matches_with;
use pact_matching::rules::HttpStatus;
use pact_matching::rules::Matchers;
use pact_matching::rules::MatchingRule;
use pact_matching::rules::RuleLogic;
use pact_matching::value::Value;

fn integer_of(i: i128) -> Value {
    Value::Integer(i)
}

fn dec(s: &str) -> Value {
    Value::Decimal(s.to_string())
}

fn txt(s: &str) -> Value {
    Value::Str(s.to_string())
}

fn regex_rules(entries: &[(&str, &str)]) -> Matchers {
    let mut m = Matchers::new();
    for (path, pattern) in entries {
        m.add_rule(path, MatchingRule::Regex(pattern.to_string()), RuleLogic::And).unwrap();
    }
    m
}

fn selected_regex(m: &Matchers, path: &[&str]) -> String {
    let lookup: Vec<String> = path.iter().map(|s| s.to_string()).collect();
    match m.select_best_matcher(&lookup) {
        Some((rl, _)) => match &rl.rules[0] {
            MatchingRule::Regex(p) => p.clone(),
            _ => panic!("expected a regex rule"),
        },
        None => panic!("no rule selected"),
    }
}

#[test]
fn select_best_matcher_selects_most_appropriate_by_weight() {
    let body = regex_rules(&[
        ("$", "1"),
        ("$.item1", "3"),
        ("$.item2", "4"),
        ("$.item1.level", "6"),
        ("$.item1.level[1]", "7"),
        ("$.item1.level[1].id", "8"),
        ("$.item1.level[1].name", "9"),
        ("$.item1.level[2]", "10"),
        ("$.item1.level[2].id", "11"),
        ("$.item1.level[*].id", "12"),
        ("$.*.level[*].id", "13"),
    ]);
    let header = regex_rules(&[("item1", "5")]);

    assert_eq!(selected_regex(&body, &["$"]), "1");
    assert_eq!(selected_regex(&body, &["$", "a"]), "1");

    assert_eq!(selected_regex(&body, &["$", "item1"]), "3");
    assert_eq!(selected_regex(&body, &["$", "item2"]), "4");
    assert_eq!(selected_regex(&body, &["$", "item3"]), "1");

    assert_eq!(selected_regex(&header, &["$", "item1"]), "5");

    assert_eq!(selected_regex(&body, &["$", "item1", "level"]), "6");
    assert_eq!(selected_regex(&body, &["$", "item1", "level", "1"]), "7");
    assert_eq!(selected_regex(&body, &["$", "item1", "level", "2"]), "10");
    assert_eq!(selected_regex(&body, &["$", "item1", "level", "1", "id"]), "8");
    assert_eq!(selected_regex(&body, &["$", "item1", "level", "1", "name"]), "9");
    assert_eq!(selected_regex(&body, &["$", "item1", "level", "1", "other"]), "7");
    assert_eq!(selected_regex(&body, &["$", "item1", "level", "2", "id"]), "11");
    assert_eq!(selected_regex(&body, &["$", "item1", "level", "3", "id"]), "12");
    assert_eq!(selected_regex(&body, &["$", "item2", "level", "1", "id"]), "13");
    assert_eq!(selected_regex(&body, &["$", "item2", "level", "3", "id"]), "13");
}

#[test]
fn select_best_matcher_selects_most_appropriate_when_weight_is_equal() {
    let body = regex_rules(&[
        ("$.animals", "1"),
        ("$.animals.*", "2"),
        ("$.animals.*.alligator['@phoneNumber']", "3"),
    ]);

    assert_eq!(selected_regex(&body, &["$", "animals", "0"]), "2");
}

#[test]
fn select_best_matcher_selects_handles_missing_type_attribute() {
    let mut m = Matchers::new();
    m.add_rule("$.item1", MatchingRule::Regex("3".to_string()), RuleLogic::And).unwrap();
    m.add_rule("$.item2", MatchingRule::MinType(4), RuleLogic::And).unwrap();
    m.add_rule("$.item3", MatchingRule::MaxType(4), RuleLogic::And).unwrap();

    assert_eq!(selected_regex(&m, &["$", "item1"]), "3");
    let lookup2: Vec<String> = vec!["$".to_string(), "item2".to_string()];
    match m.select_best_matcher(&lookup2) {
        Some((rl, _)) => assert!(matches!(rl.rules[0], MatchingRule::MinType(4))),
        None => panic!("no rule selected"),
    }
    let lookup3: Vec<String> = vec!["$".to_string(), "item3".to_string()];
    match m.select_best_matcher(&lookup3) {
        Some((rl, _)) => assert!(matches!(rl.rules[0], MatchingRule::MaxType(4))),
        None => panic!("no rule selected"),
    }
    let lookup4: Vec<String> = vec!["$".to_string(), "item4".to_string()];
    let empty = match m.select_best_matcher(&lookup4) {
        Some((rl, _)) => rl.rules.is_empty(),
        None => true,
    };
    assert!(empty);
}

#[test]
fn equality_matcher_test() {
    let matcher = MatchingRule::Equality;
    assert!(string_matches_with("100", "100", &matcher, false).is_ok());
    assert!(string_matches_with("100", "101", &matcher, false).is_err());
    assert!(value_matches_with(&txt("100"), &integer_of(100), &matcher, false).is_err());
    assert!(value_matches_with(&integer_of(100), &integer_of(100), &matcher, false).is_ok());
    assert!(value_matches_with(&integer_of(100), &dec("100.0"), &matcher, false).is_err());
    assert!(value_matches_with(&dec("100.1"), &dec("100.0"), &matcher, false).is_err());
}

#[test]
fn regex_matcher_test() {
    let matcher = MatchingRule::Regex("^\\d+$".to_string());
    assert!(string_matches_with("100", "100", &matcher, false).is_ok());
    assert!(string_matches_with("100", "10a", &matcher, false).is_err());
    assert!(value_matches_with(&txt("100"), &integer_of(100), &matcher, false).is_ok());
    assert!(value_matches_with(&integer_of(100), &integer_of(100), &matcher, false).is_ok());
    assert!(value_matches_with(&integer_of(100), &dec("100.01"), &matcher, false).is_err());
    assert!(value_matches_with(&dec("100.1"), &dec("100.02"), &matcher, false).is_err());
}

#[test]
fn type_matcher_test() {
    let matcher = MatchingRule::Type;
    assert!(string_matches_with("100", "100", &matcher, false).is_ok());
    assert!(string_matches_with("100", "10a", &matcher, false).is_ok());
    assert!(value_matches_with(&txt("100"), &integer_of(100), &matcher, false).is_err());
    assert!(value_matches_with(&integer_of(100), &integer_of(200), &matcher, false).is_ok());
    assert!(value_matches_with(&integer_of(100), &dec("100.1"), &matcher, false).is_err());
    assert!(value_matches_with(&dec("100.1"), &dec("100.2"), &matcher, false).is_ok());
}

#[test]
fn min_type_matcher_test() {
    let matcher = MatchingRule::MinType(3);
    assert!(string_matches_with("100", "100", &matcher, false).is_ok());
    assert!(string_matches_with("100", "10a", &matcher, false).is_ok());
    assert!(string_matches_with("100", "10", &matcher, false).is_ok());
    assert!(value_matches_with(&txt("100"), &integer_of(100), &matcher, false).is_err());
    assert!(value_matches_with(&integer_of(100), &integer_of(200), &matcher, false).is_ok());
    assert!(value_matches_with(&integer_of(100), &dec("100.1"), &matcher, false).is_err());
    assert!(value_matches_with(&dec("100.1"), &dec("100.2"), &matcher, false).is_ok());
}

#[test]
fn max_type_matcher_test() {
    let matcher = MatchingRule::MaxType(3);
    assert!(string_matches_with("100", "100", &matcher, false).is_ok());
    assert!(string_matches_with("100", "10a", &matcher, false).is_ok());
    assert!(string_matches_with("100", "1000", &matcher, false).is_ok());
    assert!(value_matches_with(&txt("100"), &integer_of(100), &matcher, false).is_err());
    assert!(value_matches_with(&integer_of(100), &integer_of(200), &matcher, false).is_ok());
    assert!(value_matches_with(&integer_of(100), &dec("100.1"), &matcher, false).is_err());
    assert!(value_matches_with(&dec("100.1"), &dec("100.2"), &matcher, false).is_ok());
}

#[test]
fn minmax_type_matcher_test() {
    let matcher = MatchingRule::MinMaxType(3, 6);
    assert!(string_matches_with("100", "100", &matcher, false).is_ok());
    assert!(string_matches_with("100", "10a", &matcher, false).is_ok());
    assert!(string_matches_with("100", "1000", &matcher, false).is_ok());
    assert!(value_matches_with(&txt("100"), &integer_of(100), &matcher, false).is_err());
    assert!(value_matches_with(&integer_of(100), &integer_of(200), &matcher, false).is_ok());
    assert!(value_matches_with(&integer_of(100), &dec("100.1"), &matcher, false).is_err());
    assert!(value_matches_with(&dec("100.1"), &dec("100.2"), &matcher, false).is_ok());
}

#[test]
fn timestamp_matcher_test() {
    let matcher = MatchingRule::Timestamp("yyyy-MM-dd HH:mm:ssZZZ".to_string());

    assert!(string_matches_with("100", "2013-12-01 14:00:00+10:00", &matcher, false).is_err());
    assert!(string_matches_with("100", "2013-12-01 14:00:00+1000", &matcher, false).is_ok());
    assert!(string_matches_with("100", "13-12-01 14:00:00+10:00", &matcher, false).is_err());
    assert!(string_matches_with("100", "I'm a timestamp!", &matcher, false).is_err());
    assert!(string_matches_with("100", "100", &matcher, false).is_err());
    assert!(string_matches_with("100", "10a", &matcher, false).is_err());
    assert!(string_matches_with("100", "1000", &matcher, false).is_err());
    assert!(value_matches_with(&txt("100"), &integer_of(100), &matcher, false).is_err());
    assert!(value_matches_with(&integer_of(100), &integer_of(200), &matcher, false).is_err());
    assert!(value_matches_with(&integer_of(100), &dec("100.1"), &matcher, false).is_err());
    assert!(value_matches_with(&dec("100.1"), &dec("100.2"), &matcher, false).is_err());

    let matcher = MatchingRule::Timestamp("yyyy-MM-dd HH:mm:ssXXX".to_string());
    assert!(string_matches_with(
        "2014-01-01 14:00:00+10:00",
        "2013-12-01 14:00:00+10:00",
        &matcher,
        false
    )
    .is_ok());

    let matcher = MatchingRule::Timestamp("yyyy#MM#dd#HH#mm#ss".to_string());
    assert!(string_matches_with("2014-01-01 14:00:00+10:00", "2013#12#01#14#00#00", &matcher, false)
        .is_ok());
}

#[test]
fn time_matcher_test() {
    let matcher = MatchingRule::Time("HH:mm:ss".to_string());

    assert!(string_matches_with("00:00:00", "14:00:00", &matcher, false).is_ok());
    assert!(string_matches_with("00:00:00", "33:00:00", &matcher, false).is_err());
    assert!(string_matches_with("00:00:00", "100", &matcher, false).is_err());
    assert!(string_matches_with("00:00:00", "10a", &matcher, false).is_err());
    assert!(string_matches_with("00:00:00", "1000", &matcher, false).is_err());
    assert!(value_matches_with(&txt("00:00:00"), &integer_of(100), &matcher, false).is_err());
    assert!(value_matches_with(&integer_of(100), &integer_of(200), &matcher, false).is_err());
    assert!(value_matches_with(&integer_of(100), &dec("100.1"), &matcher, false).is_err());
    assert!(value_matches_with(&dec("100.1"), &dec("100.2"), &matcher, false).is_err());

    let matcher = MatchingRule::Time("mm:ss".to_string());
    assert!(string_matches_with("100", "14:01:01", &matcher, false).is_err());
    assert!(string_matches_with("100", "61:01", &matcher, false).is_err());

    let matcher = MatchingRule::Time("ss:mm:HH".to_string());
    assert!(string_matches_with("100", "05:10:14", &matcher, false).is_ok());

    let matcher = MatchingRule::Time("".to_string());
    assert!(string_matches_with("100", "14:00:00+10:00", &matcher, false).is_err());
}

#[test]
fn date_matcher_test() {
    let matcher = MatchingRule::Date("yyyy-MM-dd".to_string());
    let matcher2 = MatchingRule::Date("MM/dd/yyyy".to_string());

    assert!(string_matches_with("100", "2001-10-01", &matcher, false).is_ok());
    assert!(string_matches_with("100", "01/14/2001", &matcher2, false).is_ok());
    assert!(string_matches_with("100", "01-13-01", &matcher, false).is_err());
    assert!(string_matches_with("100", "100", &matcher, false).is_err());
    assert!(string_matches_with("100", "10a", &matcher, false).is_err());
    assert!(string_matches_with("100", "1000", &matcher, false).is_err());
    assert!(value_matches_with(&txt("100"), &integer_of(100), &matcher, false).is_err());
    assert!(value_matches_with(&integer_of(100), &integer_of(200), &matcher, false).is_err());
    assert!(value_matches_with(&integer_of(100), &dec("100.1"), &matcher, false).is_err());
    assert!(value_matches_with(&dec("100.1"), &dec("100.2"), &matcher, false).is_err());
}

#[test]
fn include_matcher_test() {
    let matcher = MatchingRule::Include("10".to_string());
    assert!(string_matches_with("100", "100", &matcher, false).is_ok());
    assert!(string_matches_with("100", "10a", &matcher, false).is_ok());
    assert!(string_matches_with("100", "1000", &matcher, false).is_ok());
    assert!(string_matches_with("100", "200", &matcher, false).is_err());
    assert!(value_matches_with(&txt("100"), &integer_of(100), &matcher, false).is_ok());
    assert!(value_matches_with(&integer_of(100), &integer_of(100), &matcher, false).is_ok());
    assert!(value_matches_with(&integer_of(100), &dec("100.1"), &matcher, false).is_ok());
    assert!(value_matches_with(&dec("100.1"), &dec("100.2"), &matcher, false).is_ok());
}

#[test]
fn number_matcher_test() {
    let matcher = MatchingRule::Number;
    assert!(string_matches_with("100", "100", &matcher, false).is_ok());
    assert!(string_matches_with("100", "10a", &matcher, false).is_err());
    assert!(string_matches_with("100", "1000", &matcher, false).is_ok());
    assert!(value_matches_with(&txt("100"), &integer_of(100), &matcher, false).is_ok());
    assert!(value_matches_with(&integer_of(100), &integer_of(200), &matcher, false).is_ok());
    assert!(value_matches_with(&integer_of(100), &dec("100.1"), &matcher, false).is_ok());
    assert!(value_matches_with(&dec("100.1"), &dec("100.2"), &matcher, false).is_ok());
}

#[test]
fn integer_matcher_test() {
    let matcher = MatchingRule::Integer;
    assert!(string_matches_with("100", "100", &matcher, false).is_ok());
    assert!(string_matches_with("100", "10a", &matcher, false).is_err());
    assert!(string_matches_with("100", "1000", &matcher, false).is_ok());
    assert!(value_matches_with(&txt("100"), &integer_of(100), &matcher, false).is_ok());
    assert!(value_matches_with(&integer_of(100), &integer_of(200), &matcher, false).is_ok());
    assert!(value_matches_with(&integer_of(100), &dec("100.1"), &matcher, false).is_err());
    assert!(value_matches_with(&dec("100.1"), &dec("100.2"), &matcher, false).is_err());
}

#[test]
fn decimal_matcher_test() {
    let matcher = MatchingRule::Decimal;
    assert!(string_matches_with("100", "100", &matcher, false).is_ok());
    assert!(string_matches_with("100", "10a", &matcher, false).is_err());
    assert!(string_matches_with("100", "1000", &matcher, false).is_ok());
    assert!(value_matches_with(&txt("100"), &integer_of(100), &matcher, false).is_err());
    assert!(value_matches_with(&integer_of(100), &integer_of(200), &matcher, false).is_err());
    assert!(value_matches_with(&integer_of(100), &dec("100.1"), &matcher, false).is_ok());
    assert!(value_matches_with(&dec("100.1"), &dec("100.2"), &matcher, false).is_ok());
}

#[test]
fn null_matcher_test() {
    let matcher = MatchingRule::Null;
    assert!(string_matches_with("100", "100", &matcher, false).is_err());
    assert!(string_matches_with("100", "10a", &matcher, false).is_err());
    assert!(string_matches_with("100", "1000", &matcher, false).is_err());
    assert!(value_matches_with(&txt("100"), &integer_of(100), &matcher, false).is_err());
    assert!(value_matches_with(&integer_of(100), &integer_of(200), &matcher, false).is_err());
    assert!(value_matches_with(&integer_of(100), &dec("100.1"), &matcher, false).is_err());
    assert!(value_matches_with(&dec("100.1"), &dec("100.2"), &matcher, false).is_err());
}

#[test]
fn regex_matcher_supports_crazy_regexes() {
    let matcher = MatchingRule::Regex(
        r"^([\+-]?\d{4}(?!\d{2}\b))((-?)((0[1-9]|1[0-2])(\3([12]\d|0[1-9]|3[01]))?|W([0-4]\d|5[0-2])(-?[1-7])?|(00[1-9]|0[1-9]\d|[12]\d{2}|3([0-5]\d|6[1-6])))?)$"
            .to_string(),
    );
    assert!(string_matches_with("100", "2019-09-27", &matcher, false).is_ok());
}

#[test]
fn boolean_matcher_test() {
    let matcher = MatchingRule::Boolean;
    assert!(string_matches_with("100", "100", &matcher, false).is_err());
    assert!(string_matches_with("100", "10a", &matcher, false).is_err());
    assert!(value_matches_with(&txt("100"), &integer_of(100), &matcher, false).is_err());
    assert!(value_matches_with(&integer_of(100), &dec("100.1"), &matcher, false).is_err());
    assert!(string_matches_with("100", "true", &matcher, false).is_ok());
    assert!(string_matches_with("100", "false", &matcher, false).is_ok());
    assert!(value_matches_with(&Value::Bool(false), &Value::Bool(true), &matcher, false).is_ok());
}

#[test]
fn match_status_code_test() {
    assert!(match_status_code(100, &HttpStatus::Information).is_ok());
    assert!(match_status_code(199, &HttpStatus::Information).is_ok());
    assert!(match_status_code(500, &HttpStatus::Information).is_err());
    assert!(match_status_code(200, &HttpStatus::Success).is_ok());
    assert!(match_status_code(400, &HttpStatus::Success).is_err());
    assert!(match_status_code(301, &HttpStatus::Redirect).is_ok());
    assert!(match_status_code(500, &HttpStatus::Redirect).is_err());
    assert!(match_status_code(404, &HttpStatus::ClientError).is_ok());
    assert!(match_status_code(500, &HttpStatus::ClientError).is_err());
    assert!(match_status_code(503, &HttpStatus::ServerError).is_ok());
    assert!(match_status_code(499, &HttpStatus::ServerError).is_err());
    assert!(match_status_code(200, &HttpStatus::StatusCodes(vec![200, 201, 204])).is_ok());
    assert!(match_status_code(202, &HttpStatus::StatusCodes(vec![200, 201, 204])).is_err());
    assert!(match_status_code(333, &HttpStatus::NonError).is_ok());
    assert!(match_status_code(599, &HttpStatus::NonError).is_err());
    assert!(match_status_code(555, &HttpStatus::Error).is_ok());
    assert!(match_status_code(99, &HttpStatus::Error).is_err());
}
