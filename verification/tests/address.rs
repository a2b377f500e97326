use blues::address::{Address, AddressType};

#[test]
fn parse() {
    let s = "AA:BB:CC:11:22:33";
    let addr = Address::from_str(s).unwrap();
    assert_eq!(addr.to_string(), s);
}

#[test]
fn invalid() {
    Address::from_str("").unwrap_err();
    Address::from_str("aa:bb:cc:11:22:3").unwrap_err();
    Address::from_str("aa:bb:cc:11:22:333").unwrap_err();
    Address::from_str("aa:bb:cc:11:22:33:").unwrap_err();
    Address::from_str("aa:bb:cc:11:22:33:44").unwrap_err();
    Address::from_str("aa:bb:cc:11:22:33 ").unwrap_err();
    Address::from_str("za:bb:cc:11:22:33").unwrap_err();
}

#[test]
fn parse_lower_case_bytes() {
    let addr = Address::from_str("aa:ff:00:33:22:11").unwrap();
    assert_eq!(addr.as_bytes(), &[0xaa, 0xff, 0x00, 0x33, 0x22, 0x11]);
    assert_eq!(addr.to_string(), "AA:FF:00:33:22:11");
}

#[test]
fn bytes_roundtrip() {
    let bytes = [1u8, 2, 3, 0xfd, 0xfe, 0xff];
    let addr = Address::from_bytes(bytes);
    assert_eq!(*addr.as_bytes(), bytes);
    assert_eq!(addr, Address::from_bytes(bytes));
    assert_eq!(addr.to_string(), "01:02:03:FD:FE:FF");
}

#[test]
fn error_kinds() {
    // A malformed shape blames the overall structure ...
    let e = Address::from_str("aabbcc112233").unwrap_err();
    assert_eq!(e.message(), "invalid device address");
    // ... while a bad digit in an otherwise well-shaped input blames the digit.
    let e = Address::from_str("zz:bb:cc:11:22:33").unwrap_err();
    assert_eq!(e.message(), "invalid digit found in string");
}

#[test]
fn address_type_names() {
    assert_eq!(AddressType::from_str("public").unwrap(), AddressType::Public);
    assert_eq!(AddressType::from_str("random").unwrap(), AddressType::Random);
    let e = AddressType::from_str("fancy").unwrap_err();
    assert_eq!(e.message(), "invalid address type");
}
