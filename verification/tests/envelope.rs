use porkbun::api::{envelope, Response, Status};
use porkbun::ipv4::Ipv4;
use porkbun::json::{Number, Value};
use porkbun::parse::ParseError;
use porkbun::reply::{done, record_id, records, ssl, your_ip};
use porkbun::Error;

fn convert(v: serde_json::Value) -> Value {
    match v {
        serde_json::Value::Null => Value::Null,
        serde_json::Value::Bool(b) => Value::Bool(b),
        serde_json::Value::Number(n) => Value::Number(if let Some(u) = n.as_u64() {
            Number::Unsigned(u)
        } else if let Some(i) = n.as_i64() {
            Number::Negative(i)
        } else {
            Number::Fractional(n.as_f64().unwrap().to_bits())
        }),
        serde_json::Value::String(s) => Value::String(s),
        serde_json::Value::Array(a) => Value::Array(a.into_iter().map(convert).collect()),
        serde_json::Value::Object(o) => {
            Value::Object(o.into_iter().map(|(k, v)| (k, convert(v))).collect())
        }
    }
}

fn wire(text: &str) -> Value {
    convert(serde_json::from_str(text).unwrap())
}

#[test]
fn success_without_payload_is_unexpected() {
    let body = wire(r#"{"status": "SUCCESS"}"#);
    assert!(matches!(records(&body), Err(Error::UnexpectedError)));
    assert!(matches!(record_id(&body), Err(Error::UnexpectedError)));
    assert!(matches!(ssl(&body), Err(Error::UnexpectedError)));
    assert!(matches!(your_ip(&body), Err(Error::UnexpectedError)));
}

#[test]
fn success_with_a_broken_payload_is_unexpected() {
    let body = wire(r#"{"status": "SUCCESS", "id": "12"}"#);
    assert!(matches!(record_id(&body), Err(Error::UnexpectedError)));
    let body = wire(r#"{"status": "SUCCESS", "id": -3}"#);
    assert!(matches!(record_id(&body), Err(Error::UnexpectedError)));
    let body = wire(r#"{"status": "SUCCESS", "id": 1.5}"#);
    assert!(matches!(record_id(&body), Err(Error::UnexpectedError)));
    let body = wire(r#"{"status": "SUCCESS", "records": {}}"#);
    assert!(matches!(records(&body), Err(Error::UnexpectedError)));
    let body = wire(r#"{"status": "SUCCESS", "records": [{"id": "x"}]}"#);
    assert!(matches!(records(&body), Err(Error::UnexpectedError)));
    let body = wire(r#"{"status": "SUCCESS", "yourIp": "256.0.0.1"}"#);
    assert!(matches!(your_ip(&body), Err(Error::UnexpectedError)));
}

#[test]
fn error_status_carries_the_message() {
    let body = wire(r#"{"status": "ERROR", "message": "Invalid API key"}"#);
    match records(&body) {
        Err(Error::ApiError(m)) => assert_eq!(m, "Invalid API key"),
        other => panic!("{:?}", other),
    }
    match done(&body) {
        Err(Error::ApiError(m)) => assert_eq!(m, "Invalid API key"),
        other => panic!("{:?}", other),
    }
    match record_id(&body) {
        Err(Error::ApiError(m)) => assert_eq!(m, "Invalid API key"),
        other => panic!("{:?}", other),
    }
}

#[test]
fn error_status_wins_over_a_payload() {
    let body = wire(r#"{"status": "ERROR", "message": "no", "id": 5}"#);
    match record_id(&body) {
        Err(Error::ApiError(m)) => assert_eq!(m, "no"),
        other => panic!("{:?}", other),
    }
}

#[test]
fn error_without_message_is_unexpected() {
    let body = wire(r#"{"status": "ERROR"}"#);
    assert!(matches!(done(&body), Err(Error::UnexpectedError)));
    let body = wire(r#"{"status": "ERROR", "message": null}"#);
    assert!(matches!(done(&body), Err(Error::UnexpectedError)));
}

#[test]
fn what_is_no_envelope_is_a_parse_error() {
    assert!(matches!(done(&wire("[]")), Err(Error::ParseError(ParseError::InvalidType))));
    assert!(matches!(done(&wire("null")), Err(Error::ParseError(ParseError::InvalidType))));
    match done(&wire(r#"{"message": "x"}"#)) {
        Err(Error::ParseError(ParseError::MissingField(name))) => assert_eq!(name, "status"),
        other => panic!("{:?}", other),
    }
    match done(&wire(r#"{"status": "success"}"#)) {
        Err(Error::ParseError(ParseError::InvalidValue(s))) => assert_eq!(s, "success"),
        other => panic!("{:?}", other),
    }
    assert!(matches!(
        done(&wire(r#"{"status": 1}"#)),
        Err(Error::ParseError(ParseError::InvalidType))
    ));
    assert!(matches!(
        done(&wire(r#"{"status": "SUCCESS", "message": 7}"#)),
        Err(Error::ParseError(ParseError::InvalidType))
    ));
}

#[test]
fn envelope_reads_status_and_message() {
    let (status, message) = envelope(&wire(r#"{"status": "SUCCESS"}"#)).unwrap();
    assert_eq!(status, Status::Success);
    assert_eq!(message, None);
    let (status, message) = envelope(&wire(r#"{"status": "ERROR", "message": "m"}"#)).unwrap();
    assert_eq!(status, Status::Error);
    assert_eq!(message, Some("m".to_string()));
}

#[test]
fn response_into_result() {
    let r: Response<u64> = Response { status: Status::Success, message: None, payload: Some(4) };
    assert_eq!(r.into().unwrap(), 4);
    let r: Response<u64> = Response {
        status: Status::Success,
        message: Some("ignored".to_string()),
        payload: None,
    };
    assert!(matches!(r.into(), Err(Error::UnexpectedError)));
    let r: Response<u64> = Response {
        status: Status::Error,
        message: Some("why".to_string()),
        payload: Some(4),
    };
    match r.into() {
        Err(Error::ApiError(m)) => assert_eq!(m, "why"),
        other => panic!("{:?}", other),
    }
    let r: Response<u64> = Response { status: Status::Error, message: None, payload: Some(4) };
    assert!(matches!(r.into(), Err(Error::UnexpectedError)));
}

#[test]
fn done_on_success() {
    assert!(done(&wire(r#"{"status": "SUCCESS"}"#)).is_ok());
    assert!(done(&wire(r#"{"status": "SUCCESS", "message": null, "more": 1}"#)).is_ok());
}

#[test]
fn record_id_is_read() {
    let body = wire(r#"{"status": "SUCCESS", "id": 106926659}"#);
    assert_eq!(record_id(&body).unwrap(), 106926659);
}

#[test]
fn your_ip_is_read() {
    let body = wire(r#"{"status": "SUCCESS", "yourIp": "198.51.100.7"}"#);
    assert_eq!(your_ip(&body).unwrap(), Ipv4 { a: 198, b: 51, c: 100, d: 7 });
}

#[test]
fn ssl_bundle_is_read() {
    let body = wire(
        r#"{"status": "SUCCESS", "intermediatecertificate": "I", "certificatechain": "C",
            "publickey": "P", "privatekey": "K"}"#,
    );
    let bundle = ssl(&body).unwrap();
    assert_eq!(bundle.intermediate_cert, "I");
    assert_eq!(bundle.certificate_chain, "C");
    assert_eq!(bundle.public_key, "P");
    assert_eq!(bundle.private_key, "K");
    let body = wire(r#"{"status": "SUCCESS", "intermediatecertificate": "I"}"#);
    assert!(matches!(ssl(&body), Err(Error::UnexpectedError)));
}

#[test]
fn a_later_member_takes_the_place_of_an_earlier_one() {
    let body = Value::Object(vec![
        ("status".to_string(), Value::String("ERROR".to_string())),
        ("status".to_string(), Value::String("SUCCESS".to_string())),
        ("id".to_string(), Value::Number(Number::Unsigned(1))),
        ("id".to_string(), Value::Number(Number::Unsigned(2))),
    ]);
    assert_eq!(record_id(&body).unwrap(), 2);
}
