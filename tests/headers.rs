use mdbook_linkcheck::header::{header_records, parse_headers};
use mdbook_linkcheck::{Environment, HttpHeader, InterpolationError, ParseError};

fn token_env() -> Environment {
    let mut env = Environment::new();
    env.set(String::from("TOKEN"), String::from("QWxhZGRpbjpPcGVuU2VzYW1l"));
    env
}

#[test]
fn header_resolves_token() {
    let env = token_env();
    let h = HttpHeader::parse("Authorization: Basic $TOKEN", &env).unwrap();
    assert_eq!(h.name, "Authorization");
    assert_eq!(h.value, "Basic $TOKEN");
    assert_eq!(h.interpolated_value(), "Basic QWxhZGRpbjpPcGVuU2VzYW1l");
}

#[test]
fn serialized_header_hides_secret() {
    let env = token_env();
    let h = HttpHeader::parse("Authorization: Basic $TOKEN", &env).unwrap();
    let record = h.to_record();
    assert_eq!(record, "Authorization: Basic $TOKEN");
    assert!(!record.contains("QWxhZGRpbjpPcGVuU2VzYW1l"));
    assert!(!format!("{:?}", ParseError::MissingSeparator).contains("QWxh"));
}

#[test]
fn header_without_separator_is_rejected() {
    let env = Environment::new();
    assert_eq!(HttpHeader::parse("BadHeader", &env), Err(ParseError::MissingSeparator));
    assert_eq!(HttpHeader::parse("Name:value", &env), Err(ParseError::MissingSeparator));
    assert_eq!(HttpHeader::parse("", &env), Err(ParseError::MissingSeparator));
}

#[test]
fn header_with_missing_variable_is_rejected() {
    let env = Environment::new();
    assert_eq!(
        HttpHeader::parse("Authorization: Basic $TOKEN", &env),
        Err(ParseError::Interpolation(InterpolationError::MissingVariable(String::from(
            "TOKEN"
        ))))
    );
}

#[test]
fn header_splits_at_first_separator() {
    let env = Environment::new();
    let h = HttpHeader::parse("X-Note: a: b", &env).unwrap();
    assert_eq!(h.name, "X-Note");
    assert_eq!(h.value, "a: b");
    assert_eq!(h.interpolated_value(), "a: b");
    let h = HttpHeader::parse(" padded :  value ", &env).unwrap();
    assert_eq!(h.name, " padded ");
    assert_eq!(h.value, " value ");
    let h = HttpHeader::parse("Empty: ", &env).unwrap();
    assert_eq!(h.value, "");
}

#[test]
fn header_record_round_trip() {
    let env = token_env();
    for record in ["Accept: html/text", "Authorization: Basic $TOKEN", "a:: b", "K: \\$x\\"] {
        let h = HttpHeader::parse(record, &env).unwrap();
        assert_eq!(h.to_record(), record);
        let again = HttpHeader::parse(&h.to_record(), &env).unwrap();
        assert_eq!(again, h);
        assert_eq!(again.interpolated_value(), h.interpolated_value());
    }
}

#[test]
fn header_equality_ignores_resolved_value() {
    let mut one = Environment::new();
    one.set(String::from("TOKEN"), String::from("first"));
    let mut two = Environment::new();
    two.set(String::from("TOKEN"), String::from("second"));
    let a = HttpHeader::parse("Authorization: $TOKEN", &one).unwrap();
    let b = HttpHeader::parse("Authorization: $TOKEN", &two).unwrap();
    assert_ne!(a.interpolated_value(), b.interpolated_value());
    assert_eq!(a, b);
    let c = HttpHeader::parse("Authorization: second", &two).unwrap();
    assert_ne!(b, c);
}

#[test]
fn header_list_parses_in_order() {
    let env = token_env();
    let records = vec![String::from("A: 1"), String::from("B: $TOKEN")];
    let hs = parse_headers(&records, &env).unwrap();
    assert_eq!(hs.len(), 2);
    assert_eq!(hs[0].name, "A");
    assert_eq!(hs[1].interpolated_value(), "QWxhZGRpbjpPcGVuU2VzYW1l");
    assert_eq!(header_records(&hs), records);
}

#[test]
fn header_list_fails_on_first_bad_record() {
    let env = Environment::new();
    let records = vec![
        String::from("A: 1"),
        String::from("Bad"),
        String::from("C: $NOPE"),
    ];
    assert_eq!(parse_headers(&records, &env), Err(ParseError::MissingSeparator));
    let records = vec![String::from("C: $NOPE"), String::from("Bad")];
    assert_eq!(
        parse_headers(&records, &env),
        Err(ParseError::Interpolation(InterpolationError::MissingVariable(String::from("NOPE"))))
    );
    assert_eq!(parse_headers(&Vec::new(), &env), Ok(Vec::new()));
}
