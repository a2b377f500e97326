use blues::uuid::{parse_uuids, ParseUuidError, Uuid, UuidErrorKind};

#[test]
fn test_roundtrip() {
    assert_eq!(
        Uuid::from_static("00000000-0000-1000-8000-00805f9b34fb").to_string(),
        "00000000-0000-1000-8000-00805f9b34fb"
    );
}

#[test]
fn sixteen_bit_alias() {
    let uuid = Uuid::from_u16(0x180d);
    assert_eq!(uuid.to_string(), "0000180d-0000-1000-8000-00805f9b34fb");
    assert_eq!(uuid, Uuid::from_static("0000180d-0000-1000-8000-00805f9b34fb"));
}

#[test]
fn parse_mixed_case() {
    let uuid = Uuid::from_str("7C9AC820-0886-4E50-BCCA-588B883F8649").unwrap();
    assert_eq!(uuid.to_string(), "7c9ac820-0886-4e50-bcca-588b883f8649");
}

#[test]
fn parse_errors() {
    let kind = |s: &str| Uuid::from_str(s).unwrap_err();
    assert_eq!(kind(""), ParseUuidError(UuidErrorKind::Eof));
    assert_eq!(kind("7c9ac820-0886"), ParseUuidError(UuidErrorKind::Eof));
    assert_eq!(
        kind("7g9ac820-0886-4e50-bcca-588b883f8649"),
        ParseUuidError(UuidErrorKind::InvalidDigit)
    );
    assert_eq!(
        kind("7c9ac820x0886-4e50-bcca-588b883f8649"),
        ParseUuidError(UuidErrorKind::InvalidDash)
    );
    assert_eq!(
        kind("7c9ac820-0886-4e50-bcca-588b883f8649f"),
        ParseUuidError(UuidErrorKind::TrailingData)
    );
}

#[test]
fn error_messages() {
    assert_eq!(
        ParseUuidError(UuidErrorKind::Eof).message(),
        "unexpected end of input"
    );
    assert_eq!(
        ParseUuidError(UuidErrorKind::InvalidDigit).message(),
        "invalid hex digit"
    );
    assert_eq!(
        ParseUuidError(UuidErrorKind::InvalidDash).message(),
        "invalid character (`-` expected)"
    );
    assert_eq!(
        ParseUuidError(UuidErrorKind::TrailingData).message(),
        "invalid trailing data"
    );
}

#[test]
fn parse_service_list() {
    let strings = vec![
        "0000180d-0000-1000-8000-00805f9b34fb".to_string(),
        "0000180f-0000-1000-8000-00805f9b34fb".to_string(),
    ];
    let uuids = parse_uuids(&strings).unwrap();
    assert_eq!(uuids.len(), 2);
    assert_eq!(uuids[0], Uuid::from_u16(0x180d));
    assert_eq!(uuids[1], Uuid::from_u16(0x180f));
}

#[test]
fn parse_service_list_first_failure() {
    let strings = vec![
        "0000180d-0000-1000-8000-00805f9b34fb".to_string(),
        "not a uuid".to_string(),
    ];
    let e = parse_uuids(&strings).unwrap_err();
    assert_eq!(e, ParseUuidError(UuidErrorKind::InvalidDigit));
}
