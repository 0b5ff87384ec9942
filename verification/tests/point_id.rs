use ragloom::sink::PointId;
use ragloom::RagloomErrorKind;

#[test]
fn parse_rejects_empty() {
    let err = PointId::parse("   ").expect_err("should reject empty id");
    assert_eq!(err.kind, RagloomErrorKind::InvalidInput);
}

#[test]
fn parse_trims_whitespace() {
    let id = PointId::parse("  abc  ").expect("ok");
    assert_eq!(id.as_str(), "abc");
}

#[test]
fn parse_accepts_uuid_string() {
    let id = PointId::parse("550e8400-e29b-41d4-a716-446655440000").expect("uuid ok");
    assert_eq!(id.as_str(), "550e8400-e29b-41d4-a716-446655440000");
}

#[test]
fn parse_rejects_non_uuid_non_integer() {
    let id = PointId::parse("D:/x/a.txt:0").expect("parse accepts non-empty");
    assert_eq!(id.as_str(), "D:/x/a.txt:0");
}

#[test]
fn empty_id_error_message() {
    let err = PointId::parse("").expect_err("empty");
    assert_eq!(err.message(), "invalid_input: point id is empty");
}

#[test]
fn into_string_returns_trimmed_id() {
    let id = PointId::parse("\tid-1\n").expect("ok");
    assert_eq!(id.clone().into_string(), "id-1".to_string());
}
