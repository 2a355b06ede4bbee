use porkbun::amount::is_decimal;
use porkbun::json::{Number, Value};
use porkbun::parse::{coupon, coupon_entry, ParseError};
use porkbun::reply::{price_table, prices};
use porkbun::{pricing, Error, Price};

fn convert(v: serde_json::Value) -> Value {
    match v {
        serde_json::Value::Null => Value::Null,
        serde_json::Value::Bool(b) => Value::Bool(b),
        serde_json::Value::Number(n) => Value::Number(if let Some(u) = n.as_u64() {
            Number::Unsigned(u)
        } else if let Some(i) = n.as_i64() {
            Number::Negative(i)
        } else {
            Number::Fractional(n.as_f64().unwrap().to_bits())
        }),
        serde_json::Value::String(s) => Value::String(s),
        serde_json::Value::Array(a) => Value::Array(a.into_iter().map(convert).collect()),
        serde_json::Value::Object(o) => {
            Value::Object(o.into_iter().map(|(k, v)| (k, convert(v))).collect())
        }
    }
}

fn wire(text: &str) -> Value {
    convert(serde_json::from_str(text).unwrap())
}

const COUPON: &str = r#"{"code": "AWESOMENESS", "max_per_user": 1, "first_year_only": "yes",
                        "type": "amount", "amount": 100}"#;

#[test]
fn pricing_payload_end_to_end() {
    let payload = wire(
        r#"{"com": {"registration": "10,99", "renewal": "14,99", "transfer": "10,99",
                    "coupons": []}}"#,
    );
    let members = match &payload {
        Value::Object(members) => members,
        other => panic!("{:?}", other),
    };
    let table = price_table(members).unwrap();
    assert_eq!(table.len(), 1);
    let com = table.get("com").unwrap();
    assert_eq!(com.registration, "1099");
    assert_eq!(com.registration.parse::<f64>().unwrap(), 1099.0);
    assert_eq!(com.renewal, "1499");
    assert_eq!(com.transfer, "1099");
    assert!(com.coupons.is_empty());
    assert_eq!(com.coupons.len(), 0);
}

#[test]
fn load_prices() {
    let request = pricing();
    assert_eq!(request.url, "https://porkbun.com/api/json/v3/pricing/get");
    assert!(matches!(request.body, Value::Null));
    let body = wire(&format!(
        r#"{{"status": "SUCCESS",
             "com": {{"registration": "9.68", "renewal": "9.68", "transfer": "9.68",
                      "coupons": {{"registration": {}}}}},
             "design": {{"registration": "1,035.50", "renewal": "35.5", "transfer": "35.5",
                         "coupons": []}}}}"#,
        COUPON
    ));
    let table = prices(&body).unwrap();
    assert_eq!(table.len(), 2);
    assert!(table.get("status").is_none());
    let com = table.get("com").unwrap();
    assert_eq!(com.registration.parse::<f64>().unwrap(), 9.68);
    let kept = com.coupons.get("registration").unwrap();
    assert_eq!(kept.code, "AWESOMENESS");
    assert_eq!(kept.max_per_user, 1);
    assert_eq!(kept.first_year_only, true);
    assert_eq!(kept.typ, "amount");
    assert_eq!(kept.amount, 100);
    let design = table.get("design").unwrap();
    assert_eq!(design.registration, "1035.50");
    assert_eq!(design.registration.parse::<f64>().unwrap(), 1035.5);
    assert!(design.coupons.is_empty());
}

#[test]
fn prices_without_members_are_an_empty_table() {
    let table = prices(&wire(r#"{"status": "SUCCESS"}"#)).unwrap();
    assert!(table.is_empty());
}

#[test]
fn a_broken_price_is_unexpected() {
    let body = wire(r#"{"status": "SUCCESS", "com": {"registration": "x"}}"#);
    assert!(matches!(prices(&body), Err(Error::UnexpectedError)));
    let body = wire(
        r#"{"status": "SUCCESS", "com": {"registration": "1", "renewal": "1", "transfer": "1",
                                          "coupons": [1]}}"#,
    );
    assert!(matches!(prices(&body), Err(Error::UnexpectedError)));
    let body = wire(r#"{"status": "ERROR", "message": "down"}"#);
    assert!(matches!(prices(&body), Err(Error::ApiError(m)) if m == "down"));
}

#[test]
fn price_faults() {
    assert!(matches!(Price::decode(&wire("1")), Err(ParseError::InvalidType)));
    match Price::decode(&wire(r#"{"registration": "1"}"#)) {
        Err(ParseError::MissingField(f)) => assert_eq!(f, "renewal"),
        other => panic!("{:?}", other),
    }
    match Price::decode(&wire(r#"{"registration": "1", "renewal": "1", "transfer": "1"}"#)) {
        Err(ParseError::MissingField(f)) => assert_eq!(f, "coupons"),
        other => panic!("{:?}", other),
    }
    match Price::decode(&wire(r#"{"registration": "1", "renewal": "1,x", "transfer": "1"}"#)) {
        Err(ParseError::InvalidAmount(s)) => assert_eq!(s, "1,x"),
        other => panic!("{:?}", other),
    }
    assert!(matches!(
        Price::decode(&wire(
            r#"{"registration": "1", "renewal": "1", "transfer": "1", "coupons": ["a"]}"#
        )),
        Err(ParseError::NonEmptyList)
    ));
}

#[test]
fn empty_coupon_list_is_an_empty_mapping() {
    let table = coupon(&wire("[]")).unwrap();
    assert!(table.is_empty());
    assert_eq!(table.len(), 0);
}

#[test]
fn non_empty_coupon_list_is_refused() {
    for list in ["[1]", "[0, 1, 2]", r#"["a"]"#, "[{}]", "[[]]", "[null]"] {
        let e = coupon(&wire(list)).unwrap_err();
        assert!(matches!(e, ParseError::NonEmptyList));
        assert_eq!(e.message(), "Could not parse coupons field, found non-empty list");
    }
}

#[test]
fn coupon_mapping_is_kept() {
    let empty = coupon(&wire("{}")).unwrap();
    assert!(empty.is_empty());
    let other = r#"{"code": "B", "max_per_user": 2, "first_year_only": "no",
                    "type": "percent", "amount": 5}"#;
    let table =
        coupon(&wire(&format!(r#"{{"registration": {}, "renewal": {}}}"#, COUPON, other)))
            .unwrap();
    assert_eq!(table.len(), 2);
    let first = table.get("registration").unwrap();
    assert_eq!(first.code, "AWESOMENESS");
    assert_eq!(first.first_year_only, true);
    let second = table.get("renewal").unwrap();
    assert_eq!(second.code, "B");
    assert_eq!(second.max_per_user, 2);
    assert_eq!(second.first_year_only, false);
    assert_eq!(second.typ, "percent");
    assert_eq!(second.amount, 5);
    assert!(table.get("transfer").is_none());
}

#[test]
fn coupon_field_of_another_kind_is_refused() {
    for other in ["null", "1", r#""x""#, "true"] {
        assert!(matches!(coupon(&wire(other)), Err(ParseError::InvalidType)));
    }
    assert!(matches!(coupon(&wire(r#"{"a": 1}"#)), Err(ParseError::InvalidType)));
}

#[test]
fn coupon_faults() {
    match coupon_entry(&wire(r#"{"code": "A"}"#)) {
        Err(ParseError::MissingField(f)) => assert_eq!(f, "max_per_user"),
        other => panic!("{:?}", other),
    }
    match coupon_entry(&wire(r#"{"code": "A", "max_per_user": 1, "first_year_only": "Yes"}"#)) {
        Err(ParseError::InvalidValue(s)) => assert_eq!(s, "Yes"),
        other => panic!("{:?}", other),
    }
    assert!(matches!(
        coupon_entry(&wire(r#"{"code": "A", "max_per_user": "1"}"#)),
        Err(ParseError::InvalidType)
    ));
    let e = coupon_entry(&wire(r#"{"code": "A", "max_per_user": 1, "first_year_only": "y"}"#))
        .unwrap_err();
    assert_eq!(e.message(), "Invalid value: y");
    let e = coupon_entry(&wire(r#"{}"#)).unwrap_err();
    assert_eq!(e.message(), "Missing field: code");
    assert_eq!(ParseError::InvalidType.message(), "Invalid type");
}

#[test]
fn decimal_texts_are_those_that_parse_as_a_number() {
    let texts = [
        "0", "1099", "10.99", "1234.56", ".5", "5.", "+1", "-1", "-.5", "+5.", "1e5", "1E5",
        "1e+5", "1e-5", "1.5e10", ".5e1", "5.e1", "inf", "-inf", "+inf", "INF", "Inf", "infinity",
        "INFINITY", "-Infinity", "nan", "NaN", "-nan", "+NAN", "007", "0.000", "1e0005",
        "123456789012345678901234567890", "", "+", "-", ".", "+.", "e", "e5", ".e5", "1e", "1e+",
        "1e-", "1e+-5", "1.2.3", "1..2", "--1", "++1", "+-1", "1-", "1+", " 1", "1 ", "1 2",
        "1_000", "0x10", "1f", "1.0f", "in", "infi", "infinit", "infinityy", "na", "nann",
        "inf1", "1inf", "i", "n", "١٢", "1,5", "１", "1e١", "−1", "1\n", "\t1", "1e5e5", "1.e",
        "1.e+", "..", "5..", "Ｉnf", "ınf", "ĩnf",
    ];
    for text in texts {
        assert_eq!(is_decimal(text), text.parse::<f64>().is_ok(), "{:?}", text);
    }
}
