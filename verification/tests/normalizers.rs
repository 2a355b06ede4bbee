use porkbun::json::Value;
use porkbun::parse::{money, opt_strnum, strnum, yn, ParseError};

fn string(s: &str) -> Value {
    Value::String(s.to_string())
}

#[test]
fn yes_and_no_are_read() {
    assert_eq!(yn(&string("yes")).unwrap(), true);
    assert_eq!(yn(&string("no")).unwrap(), false);
}

#[test]
fn other_tokens_are_refused() {
    for token in ["Yes", "y", "", "NO", "yes ", "true"] {
        match yn(&string(token)) {
            Err(ParseError::InvalidValue(s)) => assert_eq!(s, token),
            other => panic!("{:?}", other),
        }
    }
    assert!(matches!(yn(&Value::Bool(true)), Err(ParseError::InvalidType)));
}

#[test]
fn strnum_reads_digits() {
    assert_eq!(strnum(&string("12345")).unwrap(), 12345);
    assert_eq!(strnum(&string("0")).unwrap(), 0);
    assert_eq!(strnum(&string("+7")).unwrap(), 7);
    assert_eq!(strnum(&string("007")).unwrap(), 7);
    assert_eq!(strnum(&string("18446744073709551615")).unwrap(), u64::MAX);
}

#[test]
fn strnum_names_the_offending_string() {
    for bad in ["", "+", "-1", "12a", " 1", "1 ", "18446744073709551616", "1.0", "١٢"] {
        match strnum(&string(bad)) {
            Err(ParseError::InvalidInteger(s)) => assert_eq!(s, bad),
            other => panic!("{:?}", other),
        }
    }
    let e = strnum(&string("12a")).unwrap_err();
    assert_eq!(e.message(), "Parse Error: 12a");
}

#[test]
fn opt_strnum_takes_null_for_none() {
    assert_eq!(opt_strnum(&Value::Null).unwrap(), None);
    assert_eq!(opt_strnum(&string("10")).unwrap(), Some(10));
    assert!(matches!(opt_strnum(&string("")), Err(ParseError::InvalidInteger(_))));
    assert!(matches!(opt_strnum(&Value::Bool(false)), Err(ParseError::InvalidType)));
}

#[test]
fn money_strips_commas() {
    let text = money(&string("1,234.56")).unwrap();
    assert_eq!(text, "1234.56");
    assert_eq!(text.parse::<f64>().unwrap(), 1234.56);
    assert_eq!(money(&string("10,99")).unwrap(), "1099");
    assert_eq!(money(&string("1,,0")).unwrap(), "10");
    assert_eq!(money(&string(",1,")).unwrap(), "1");
}

#[test]
fn money_refuses_what_is_no_number() {
    for bad in ["", ",", "abc", "1,2x", "1.2.3", "--1", "1e", " 1"] {
        match money(&string(bad)) {
            Err(ParseError::InvalidAmount(s)) => assert_eq!(s, bad),
            other => panic!("{:?}", other),
        }
    }
    let e = money(&string("1,2x")).unwrap_err();
    assert_eq!(e.message(), "Can not parse a number from 1,2x");
}
