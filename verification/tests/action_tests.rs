use degreepath::action::{Action, Command, Decimal, Operator, ParseError, Value};

#[test]
fn split_action_str_test() {
    let split = |s: &str| -> Vec<String> { degreepath::action::split_action_str(s) };
    assert_eq!(split("count > 6"), vec!["count", ">", "6"]);
    assert_eq!(split(r#""a" > 6"#), vec!["a", ">", "6"]);
    assert_eq!(split(r#""a space" > 6"#), vec!["a space", ">", "6"]);
    assert_eq!(split(r#""a space"     >  6"#), vec!["a space", ">", "6"]);
    assert_eq!(split(r#""a space"     >  "b space""#), vec!["a space", ">", "b space"]);
    assert_eq!(split(r#""a space"     >  "b  space""#), vec!["a space", ">", "b  space"]);
    assert_eq!(split(r#"   "a space"     >  "b  space" "#), vec!["a space", ">", "b  space"]);
}

#[test]
fn count_gte_6() {
    let actual: Action = "count >= 6".parse().unwrap();
    let expected_struct = Action {
        lhs: Value::Command(Command::Count),
        op: Some(Operator::GreaterThanEqualTo),
        rhs: Some(Value::Integer(6)),
    };
    assert_eq!(actual, expected_struct);
}

#[test]
fn count_eq_1() {
    let actual: Action = "count = 1".parse().unwrap();
    let expected_struct = Action {
        lhs: Value::Command(Command::Count),
        op: Some(Operator::EqualTo),
        rhs: Some(Value::Integer(1)),
    };
    assert_eq!(actual, expected_struct);
}

#[test]
fn average_gte_2_0() {
    let actual: Action = "average >= 2.0".parse().unwrap();
    let expected_struct = Action {
        lhs: Value::Command(Command::Average),
        op: Some(Operator::GreaterThanEqualTo),
        rhs: Some(Value::Decimal(Decimal { hundredths: 200 })),
    };
    assert_eq!(actual, expected_struct);
}

#[test]
fn average_gte_2() {
    let actual: Action = "average >= 2".parse().unwrap();
    let expected_struct = Action {
        lhs: Value::Command(Command::Average),
        op: Some(Operator::GreaterThanEqualTo),
        rhs: Some(Value::Integer(2)),
    };
    assert_eq!(actual, expected_struct);
}

#[test]
fn sum_eq_6() {
    let actual: Action = "sum = 6".parse().unwrap();
    let expected_struct = Action {
        lhs: Value::Command(Command::Sum),
        op: Some(Operator::EqualTo),
        rhs: Some(Value::Integer(6)),
    };
    assert_eq!(actual, expected_struct);
}

#[test]
fn sum_gte_1_5() {
    let actual: Action = "sum >= 1.5".parse().unwrap();
    let expected_struct = Action {
        lhs: Value::Command(Command::Sum),
        op: Some(Operator::GreaterThanEqualTo),
        rhs: Some(Value::Decimal(Decimal { hundredths: 150 })),
    };
    assert_eq!(actual, expected_struct);
}

#[test]
fn maximum() {
    let actual: Action = "maximum".parse().unwrap();
    let expected_struct = Action {
        lhs: Value::Command(Command::Maximum),
        op: None,
        rhs: None,
    };
    assert_eq!(actual, expected_struct);
}

#[test]
fn minimum() {
    let actual: Action = "minimum".parse().unwrap();
    let expected_struct = Action {
        lhs: Value::Command(Command::Minimum),
        op: None,
        rhs: None,
    };
    assert_eq!(actual, expected_struct);
}

#[test]
fn var_lt_var() {
    let actual: Action = r#""first BTS-T course" < "last EIN course""#.parse().unwrap();
    let expected_struct = Action {
        lhs: Value::String(String::from("first BTS-T course")),
        op: Some(Operator::LessThan),
        rhs: Some(Value::String(String::from("last EIN course"))),
    };
    assert_eq!(actual, expected_struct);
}

#[test]
#[should_panic]
fn invalid_flipped_operator() {
    "a => b".parse::<Action>().unwrap();
}

#[test]
fn flipped_operator_is_unknown() {
    assert_eq!(Action::parse("a => b"), Err(ParseError::UnknownOperator));
}

#[test]
fn two_tokens_are_invalid() {
    assert_eq!(Action::parse("count >="), Err(ParseError::InvalidAction));
    assert_eq!(Action::parse("a b c d"), Err(ParseError::InvalidAction));
    assert_eq!(Action::parse(""), Err(ParseError::InvalidAction));
}

#[test]
fn count_gte_6_evaluates() {
    // "count >= 6" against an observed count of 6 passes, against 5 fails
    let a: Action = "count >= 6".parse().unwrap();
    assert_eq!(a.evaluate(&Value::Integer(6)), Some(true));
    assert_eq!(a.evaluate(&Value::Integer(5)), Some(false));
}

#[test]
fn cross_type_promotion() {
    let a: Action = "average >= 2.0".parse().unwrap();
    assert_eq!(a.evaluate(&Value::Integer(2)), Some(true));
    assert_eq!(a.evaluate(&Value::Decimal(Decimal { hundredths: 199 })), Some(false));
    let b: Action = "sum = 6".parse().unwrap();
    assert_eq!(b.evaluate(&Value::Decimal(Decimal { hundredths: 600 })), Some(true));
}

#[test]
fn bare_assertion_has_no_verdict() {
    let a: Action = "maximum".parse().unwrap();
    assert_eq!(a.evaluate(&Value::Integer(1)), None);
}

#[test]
fn canonical_round_trip() {
    for text in ["count >= 6", "sum >= 1.50", "average > 2.00", "maximum", "minimum = 3"] {
        let a: Action = text.parse().unwrap();
        let printed = a.canonical_string().unwrap();
        assert_eq!(printed, text);
        let again: Action = printed.parse().unwrap();
        assert_eq!(again, a);
    }
}

#[test]
fn quoted_string_round_trip() {
    let a: Action = r#""first BTS-T course" < "last EIN course""#.parse().unwrap();
    let printed = a.canonical_string().unwrap();
    assert_eq!(printed, r#""first BTS-T course" < "last EIN course""#);
    let again: Action = printed.parse().unwrap();
    assert_eq!(again, a);
}

#[test]
fn prose_printing() {
    let a: Action = "count >= 6".parse().unwrap();
    assert_eq!(a.print().unwrap(), "at least six");
    let b: Action = "sum > 10".parse().unwrap();
    assert_eq!(b.print().unwrap(), "more than ten");
    let c: Action = "average >= 2.0".parse().unwrap();
    assert_eq!(c.print().unwrap(), "at or above 2.00");
    let d: Action = "count = 12".parse().unwrap();
    assert_eq!(d.print().unwrap(), "exactly 12");
}

#[test]
fn should_pluralize() {
    let one: Action = "count = 1".parse().unwrap();
    assert!(!one.should_pluralize());
    let six: Action = "count >= 6".parse().unwrap();
    assert!(six.should_pluralize());
    let one_decimal: Action = "sum >= 1.0".parse().unwrap();
    assert!(!one_decimal.should_pluralize());
    let frac: Action = "sum >= 1.5".parse().unwrap();
    assert!(frac.should_pluralize());
}

#[test]
fn operator_prose() {
    assert_eq!(Operator::LessThan.print(), "fewer than");
    assert_eq!(Operator::GreaterThanEqualTo.print(), "at least");
    assert_eq!(Operator::NotEqualTo.print(), "not");
}
