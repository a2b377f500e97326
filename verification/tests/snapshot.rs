use blues::adapter::{adapter_names, first_adapter_name, matching_paths, ObjectRecord};

fn object(path: &str, interfaces: &[&str]) -> ObjectRecord {
    ObjectRecord {
        path: path.to_string(),
        interfaces: interfaces.iter().map(|s| s.to_string()).collect(),
    }
}

fn snapshot() -> Vec<ObjectRecord> {
    vec![
        object("/org/bluez/hci0", &["org.bluez.Adapter1"]),
        object("/org/bluez/hci0/dev_A", &["org.bluez.Device1"]),
        object(
            "/org/bluez/hci0/dev_A/service000a",
            &["org.bluez.GattService1"],
        ),
        object("/org/bluez/hci1", &["org.bluez.Adapter1"]),
        object("/org/bluez/hci1/dev_B", &["org.bluez.Device1"]),
        object("/other/path", &["org.bluez.Adapter1"]),
        object("/org/bluez/hci2", &["org.freedesktop.DBus.Properties"]),
    ]
}

#[test]
fn devices_under_adapter() {
    let paths = matching_paths(&snapshot(), "/org/bluez/hci0", "org.bluez.Device1");
    assert_eq!(paths, vec!["/org/bluez/hci0/dev_A".to_string()]);
}

#[test]
fn services_under_device() {
    let paths = matching_paths(
        &snapshot(),
        "/org/bluez/hci0/dev_A",
        "org.bluez.GattService1",
    );
    assert_eq!(paths, vec!["/org/bluez/hci0/dev_A/service000a".to_string()]);
}

#[test]
fn adapters_in_snapshot() {
    // The object at an unexpected path is skipped; the one without the
    // adapter interface is not an adapter.
    let names = adapter_names(&snapshot());
    assert_eq!(names, vec!["hci0".to_string(), "hci1".to_string()]);
}

#[test]
fn default_adapter_is_first_by_name() {
    let names = vec!["hci1".to_string(), "hci0".to_string(), "hci10".to_string()];
    assert_eq!(first_adapter_name(&names), Some("hci0".to_string()));
    assert_eq!(first_adapter_name(&Vec::new()), None);
}
