use porkbun::dns::{fmt_dst, Record, RecordType, Req};
use porkbun::ipv4::{parse_ipv4, AddrParseError, Ipv4};
use porkbun::json::{Number, Value};
use porkbun::parse::ParseError;
use porkbun::reply::records;
use porkbun::Client;

fn convert(v: serde_json::Value) -> Value {
    match v {
        serde_json::Value::Null => Value::Null,
        serde_json::Value::Bool(b) => Value::Bool(b),
        serde_json::Value::Number(n) => Value::Number(if let Some(u) = n.as_u64() {
            Number::Unsigned(u)
        } else if let Some(i) = n.as_i64() {
            Number::Negative(i)
        } else {
            Number::Fractional(n.as_f64().unwrap().to_bits())
        }),
        serde_json::Value::String(s) => Value::String(s),
        serde_json::Value::Array(a) => Value::Array(a.into_iter().map(convert).collect()),
        serde_json::Value::Object(o) => {
            Value::Object(o.into_iter().map(|(k, v)| (k, convert(v))).collect())
        }
    }
}

fn wire(text: &str) -> Value {
    convert(serde_json::from_str(text).unwrap())
}

fn client() -> Client {
    Client::new("pk1_key".to_string(), "sk1_key".to_string())
}

#[test]
fn retrieve_by_name_type_end_to_end() {
    let request = client().retrieve_dns_dst("example.com", RecordType::A, None);
    assert_eq!(
        request.url,
        "https://porkbun.com/api/json/v3/dns/retrieveByNameType/example.com/A"
    );
    let body = wire(
        r#"{"status": "SUCCESS", "records": [
            {"id": "12345", "name": "example.com", "type": "A",
             "content": "203.0.113.5", "ttl": "600", "prio": null, "notes": null}]}"#,
    );
    let list = records(&body).unwrap();
    assert_eq!(list.len(), 1);
    let record = &list[0];
    assert_eq!(record.id, 12345);
    assert_eq!(record.ttl, 600);
    assert_eq!(record.typ, RecordType::A);
    assert_eq!(record.name, "example.com");
    assert_eq!(record.content, "203.0.113.5");
    assert_eq!(record.prio, None);
    assert_eq!(record.notes, None);
    assert_eq!(record.ip(), Ok(Ipv4 { a: 203, b: 0, c: 113, d: 5 }));
}

#[test]
fn enumerate_dns() {
    let domain = "amyis.gay";
    let client = client();
    let listing = client.list_dns(domain);
    assert_eq!(listing.url, "https://porkbun.com/api/json/v3/dns/retrieve/amyis.gay");
    let one = r#"{"id": "41", "name": "amyis.gay", "type": "A", "content": "192.0.2.1",
                  "ttl": "600", "prio": "0", "notes": ""}"#;
    let two = r#"{"id": "42", "name": "www.amyis.gay", "type": "CNAME", "content": "amyis.gay",
                  "ttl": "300", "prio": null, "notes": null}"#;
    let all = wire(&format!(r#"{{"status": "SUCCESS", "records": [{}, {}]}}"#, one, two));
    let records_listed = records(&all).unwrap();
    assert_eq!(records_listed.len(), 2);
    for rec in records_listed {
        let single = client.retrieve_dns(domain, rec.id);
        assert_eq!(
            single.url,
            format!("https://porkbun.com/api/json/v3/dns/retrieve/amyis.gay/{}", rec.id)
        );
        let text = if rec.id == 41 { one } else { two };
        let answer = wire(&format!(r#"{{"status": "SUCCESS", "records": [{}]}}"#, text));
        assert_eq!(rec, *records(&answer).unwrap().first().unwrap())
    }
}

#[test]
fn record_priority_absent_null_or_numeric() {
    let base = r#""id": "1", "name": "n", "type": "MX", "content": "mail", "ttl": "60""#;
    let absent = Record::decode(&wire(&format!("{{{}}}", base))).unwrap();
    assert_eq!(absent.prio, None);
    assert_eq!(absent.notes, None);
    let null = Record::decode(&wire(&format!(r#"{{{}, "prio": null}}"#, base))).unwrap();
    assert_eq!(null.prio, None);
    let ten = Record::decode(&wire(&format!(r#"{{{}, "prio": "10"}}"#, base))).unwrap();
    assert_eq!(ten.prio, Some(10));
    match Record::decode(&wire(&format!(r#"{{{}, "prio": ""}}"#, base))) {
        Err(ParseError::InvalidInteger(s)) => assert_eq!(s, ""),
        other => panic!("{:?}", other),
    }
    let noted = Record::decode(&wire(&format!(r#"{{{}, "notes": "hi"}}"#, base))).unwrap();
    assert_eq!(noted.notes, Some("hi".to_string()));
}

#[test]
fn record_faults() {
    assert!(matches!(Record::decode(&wire("[]")), Err(ParseError::InvalidType)));
    match Record::decode(&wire(r#"{"name": "n"}"#)) {
        Err(ParseError::MissingField(f)) => assert_eq!(f, "id"),
        other => panic!("{:?}", other),
    }
    match Record::decode(&wire(r#"{"id": "1", "name": "n", "ttl": "60"}"#)) {
        Err(ParseError::MissingField(f)) => assert_eq!(f, "type"),
        other => panic!("{:?}", other),
    }
    assert!(matches!(
        Record::decode(&wire(r#"{"id": 1, "name": "n"}"#)),
        Err(ParseError::InvalidType)
    ));
    match Record::decode(&wire(r#"{"id": "1", "name": "n", "ttl": "1h"}"#)) {
        Err(ParseError::InvalidInteger(s)) => assert_eq!(s, "1h"),
        other => panic!("{:?}", other),
    }
    match Record::decode(&wire(
        r#"{"id": "1", "name": "n", "ttl": "1", "type": "a", "content": "c"}"#,
    )) {
        Err(ParseError::InvalidValue(s)) => assert_eq!(s, "a"),
        other => panic!("{:?}", other),
    }
    assert!(matches!(
        Record::decode(&wire(
            r#"{"id": "1", "name": "n", "ttl": "1", "type": "A", "content": "c", "notes": 3}"#
        )),
        Err(ParseError::InvalidType)
    ));
}

#[test]
fn request_round_trip_keeps_kind_content_and_ttl() {
    let req = Req {
        name: Some("www"),
        typ: RecordType::TXT,
        content: "v=spf1 -all",
        ttl: Some(3600),
        prio: None,
    };
    let sent = req.fields();
    let find = |name: &str| sent.iter().find(|m| m.0 == name).map(|m| &m.1).unwrap();
    let kind = match find("type") {
        Value::String(s) => s.clone(),
        other => panic!("{:?}", other),
    };
    let content = match find("content") {
        Value::String(s) => s.clone(),
        other => panic!("{:?}", other),
    };
    let ttl = match find("ttl") {
        Value::Number(Number::Unsigned(n)) => *n,
        other => panic!("{:?}", other),
    };
    assert!(matches!(find("prio"), Value::Null));
    assert!(matches!(find("name"), Value::String(s) if s == "www"));
    let kept = Value::Object(vec![
        ("id".to_string(), Value::String("9".to_string())),
        ("name".to_string(), Value::String("www.example.com".to_string())),
        ("type".to_string(), Value::String(kind)),
        ("content".to_string(), Value::String(content)),
        ("ttl".to_string(), Value::String(porkbun::text::u64_text(ttl))),
        ("prio".to_string(), Value::Null),
        ("notes".to_string(), Value::Null),
    ]);
    let back = Record::decode(&kept).unwrap();
    assert_eq!(back.typ, RecordType::TXT);
    assert_eq!(back.content, "v=spf1 -all");
    assert_eq!(back.ttl, 3600);
}

#[test]
fn record_type_names() {
    let all = [
        (RecordType::A, "A"),
        (RecordType::MX, "MX"),
        (RecordType::CNAME, "CNAME"),
        (RecordType::ALIAS, "ALIAS"),
        (RecordType::TXT, "TXT"),
        (RecordType::NS, "NS"),
        (RecordType::AAAA, "AAAA"),
        (RecordType::SRV, "SRV"),
        (RecordType::TLSA, "TLSA"),
        (RecordType::CAA, "CAA"),
    ];
    for (kind, name) in all {
        assert_eq!(kind.to_string(), name);
        assert_eq!(kind.as_str(), name);
        assert_eq!(RecordType::from_name(name), Some(kind));
    }
    assert_eq!(RecordType::from_name("a"), None);
    assert_eq!(RecordType::from_name(""), None);
    assert_eq!(RecordType::from_name("PTR"), None);
}

#[test]
fn path_by_name_and_kind() {
    assert_eq!(
        fmt_dst("/dns/retrieveByNameType", "example.com", RecordType::A, None),
        "/dns/retrieveByNameType/example.com/A"
    );
    assert_eq!(
        fmt_dst("/dns/editByNameType", "example.com", RecordType::CNAME, Some("www")),
        "/dns/editByNameType/example.com/CNAME/www"
    );
    assert_eq!(
        fmt_dst("/dns/deleteByNameType", "example.com", RecordType::TXT, Some("")),
        "/dns/deleteByNameType/example.com/TXT/"
    );
}

#[test]
fn ipv4_addresses_are_read() {
    assert_eq!(parse_ipv4("203.0.113.5"), Ok(Ipv4 { a: 203, b: 0, c: 113, d: 5 }));
    assert_eq!(parse_ipv4("0.0.0.0"), Ok(Ipv4 { a: 0, b: 0, c: 0, d: 0 }));
    assert_eq!(parse_ipv4("255.255.255.255"), Ok(Ipv4 { a: 255, b: 255, c: 255, d: 255 }));
    assert_eq!(parse_ipv4("1.20.3.40"), Ok(Ipv4 { a: 1, b: 20, c: 3, d: 40 }));
}

#[test]
fn what_is_no_ipv4_address_is_refused() {
    for bad in [
        "", "1", "1.2.3", "1.2.3.4.5", "1.2.3.", ".1.2.3", "1..2.3", "256.1.1.1", "1.1.1.256",
        "01.2.3.4", "1.2.3.04", "00.0.0.0", "1.2.3.4 ", " 1.2.3.4", "a.b.c.d", "1.2.3.-4",
        "1.2.3.+4", "1000.1.1.1", "0001.1.1.1", "1,2,3,4", "::1", "1.2.3.4/8", "١.٢.٣.٤",
    ] {
        assert_eq!(parse_ipv4(bad), Err(AddrParseError), "{:?}", bad);
    }
}

#[test]
fn record_content_that_is_no_address() {
    let record = Record {
        id: 1,
        name: "n".to_string(),
        ttl: 1,
        typ: RecordType::CNAME,
        content: "example.com".to_string(),
        prio: None,
        notes: None,
    };
    assert_eq!(record.ip(), Err(AddrParseError));
}

#[test]
fn records_are_compared_by_their_fields() {
    let make = |id: u64, notes: Option<&str>| Record {
        id,
        name: "n".to_string(),
        ttl: 1,
        typ: RecordType::A,
        content: "c".to_string(),
        prio: Some(1),
        notes: notes.map(|s| s.to_string()),
    };
    assert!(make(1, None) == make(1, None));
    assert!(make(1, Some("x")) == make(1, Some("x")));
    assert!(make(1, None) != make(2, None));
    assert!(make(1, None) != make(1, Some("")));
    assert!(make(1, Some("x")) != make(1, Some("y")));
}

#[test]
fn ipv4_is_written_in_dotted_decimal() {
    assert_eq!(Ipv4 { a: 203, b: 0, c: 113, d: 5 }.to_string(), "203.0.113.5");
    assert_eq!(Ipv4 { a: 0, b: 0, c: 0, d: 0 }.to_string(), "0.0.0.0");
    assert_eq!(Ipv4 { a: 255, b: 10, c: 9, d: 100 }.to_string(), "255.10.9.100");
    for ip in [Ipv4 { a: 1, b: 2, c: 3, d: 4 }, Ipv4 { a: 192, b: 168, c: 0, d: 254 }] {
        assert_eq!(parse_ipv4(&ip.to_string()), Ok(ip));
    }
}
