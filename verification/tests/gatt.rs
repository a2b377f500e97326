use blues::gatt::{find_characteristic, CharacteristicFlags, CharacteristicRecord};
use blues::uuid::Uuid;

fn flags_of(names: &[&str]) -> CharacteristicFlags {
    CharacteristicFlags::from_flags(names.iter().map(|s| s.to_string()).collect())
}

#[test]
fn characteristic_flags() {
    let flags = flags_of(&["read", "notify"]);
    assert!(flags.can_read());
    assert!(flags.can_notify());
    assert!(!flags.can_write());
    assert!(!flags.can_indicate());

    let flags = flags_of(&["write", "indicate"]);
    assert!(!flags.can_read());
    assert!(!flags.can_notify());
    assert!(flags.can_write());
    assert!(flags.can_indicate());

    let flags = flags_of(&[]);
    assert!(!flags.can_read());
}

fn record(path: &str, uuid: Option<&str>) -> CharacteristicRecord {
    CharacteristicRecord {
        path: path.to_string(),
        uuid: uuid.map(|s| s.to_string()),
    }
}

#[test]
fn characteristic_lookup() {
    let service = "/org/bluez/hci0/dev_A/service000a";
    let target = Uuid::from_u16(0x2a37);
    let records = vec![
        // Right UUID, but under another service: skipped.
        record(
            "/org/bluez/hci0/dev_A/service000b/char0001",
            Some("00002a37-0000-1000-8000-00805f9b34fb"),
        ),
        // Under the service, but no characteristic interface: skipped.
        record("/org/bluez/hci0/dev_A/service000a/char0001", None),
        // Under the service, wrong UUID: skipped.
        record(
            "/org/bluez/hci0/dev_A/service000a/char0002",
            Some("00002a38-0000-1000-8000-00805f9b34fb"),
        ),
        // The match.
        record(
            "/org/bluez/hci0/dev_A/service000a/char0003",
            Some("00002a37-0000-1000-8000-00805f9b34fb"),
        ),
    ];
    assert_eq!(find_characteristic(&records, service, &target), Some(3));
    assert_eq!(
        find_characteristic(&records, service, &Uuid::from_u16(0x2a39)),
        None
    );
}
