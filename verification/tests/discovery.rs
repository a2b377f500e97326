use blues::adapter::{DeviceSet, DeviceSetChange, Event};
use blues::device::{Changes, PropertyName};
use blues::error::ErrorKind;

const ADAPTER: &str = "/org/bluez/hci0";
const DEV_A: &str = "/org/bluez/hci0/dev_A";
const DEV_B: &str = "/org/bluez/hci0/dev_B";

fn device_interfaces() -> Vec<String> {
    vec!["org.bluez.Device1".to_string()]
}

fn added(path: &str) -> Event {
    Event::Added {
        path: path.to_string(),
        interfaces: device_interfaces(),
        opened: true,
    }
}

fn removed(path: &str) -> Event {
    Event::Removed {
        path: path.to_string(),
        interfaces: device_interfaces(),
    }
}

fn batch(index: usize, changed: &[&str]) -> Event {
    Event::Properties {
        index,
        changed: changed.iter().map(|s| s.to_string()).collect(),
        invalidated: Vec::new(),
    }
}

fn fresh_set_with(paths: &[&str]) -> DeviceSet {
    let mut set = DeviceSet::new(ADAPTER.to_string());
    for p in paths {
        assert!(set.insert_device(p.to_string(), true));
    }
    set
}

#[test]
fn added_device_is_reported() {
    let mut set = DeviceSet::new(ADAPTER.to_string());
    match set.change(added(DEV_A)).unwrap() {
        Some(DeviceSetChange::Added(p)) => assert_eq!(p, DEV_A),
        other => panic!("expected an addition, got {:?}", other.is_some()),
    }
    assert_eq!(set.device_count(), 1);
}

#[test]
fn add_outside_adapter_is_ignored() {
    let mut set = DeviceSet::new(ADAPTER.to_string());
    let r = set.change(added("/org/bluez/hci1/dev_X")).unwrap();
    assert!(r.is_none());
    assert_eq!(set.device_count(), 0);
}

#[test]
fn add_without_device_interface_is_ignored() {
    let mut set = DeviceSet::new(ADAPTER.to_string());
    let event = Event::Added {
        path: DEV_A.to_string(),
        interfaces: vec!["org.bluez.GattService1".to_string()],
        opened: true,
    };
    assert!(set.change(event).unwrap().is_none());
    assert_eq!(set.device_count(), 0);
}

#[test]
fn duplicate_add_is_ignored() {
    let mut set = fresh_set_with(&[DEV_A]);
    assert!(set.change(added(DEV_A)).unwrap().is_none());
    assert_eq!(set.device_count(), 1);
}

// An add event whose device handle could not be opened is silently skipped:
// no error surfaces and the set keeps working.
#[test]
fn failed_open_is_skipped() {
    let mut set = DeviceSet::new(ADAPTER.to_string());
    let event = Event::Added {
        path: DEV_A.to_string(),
        interfaces: device_interfaces(),
        opened: false,
    };
    assert!(set.change(event).unwrap().is_none());
    assert_eq!(set.device_count(), 0);
    // The set is still live: a later successful add is reported.
    assert!(set.change(added(DEV_A)).unwrap().is_some());
    assert_eq!(set.device_count(), 1);
}

#[test]
fn removed_device_is_reported() {
    let mut set = fresh_set_with(&[DEV_A, DEV_B]);
    match set.change(removed(DEV_A)).unwrap() {
        Some(DeviceSetChange::Removed(p)) => assert_eq!(p, DEV_A),
        _ => panic!("expected a removal"),
    }
    assert_eq!(set.device_count(), 1);
}

// Removing a path the set does not track is a no-op: no event, no panic,
// no resize of the collection.
#[test]
fn remove_absent_is_noop() {
    let mut set = fresh_set_with(&[DEV_A]);
    assert!(set.change(removed(DEV_B)).unwrap().is_none());
    assert_eq!(set.device_count(), 1);
}

// One notification batch reporting three interesting property changes
// satisfies exactly three waits; the fourth finds the buffer dry.
#[test]
fn multiplexer_drains() {
    let mut mux = Changes::new(vec![PropertyName::Alias, PropertyName::ServiceUuids]);
    assert!(mux.wait().is_none());
    mux.absorb(
        &vec![
            "Alias".to_string(),
            "RSSI".to_string(),
            "UUIDs".to_string(),
            "Alias".to_string(),
            "Paired".to_string(),
        ],
        &Vec::new(),
    );
    assert!(mux.wait().is_some());
    assert!(mux.wait().is_some());
    assert!(mux.wait().is_some());
    assert!(mux.wait().is_none());
}

#[test]
fn multiplexer_filters_interest() {
    let mut mux = Changes::new(vec![PropertyName::Alias]);
    mux.absorb(
        &vec!["RSSI".to_string(), "Connected".to_string()],
        &vec!["UUIDs".to_string()],
    );
    assert!(mux.wait().is_none());
    mux.absorb(&Vec::new(), &vec!["Alias".to_string()]);
    assert_eq!(mux.wait(), Some(PropertyName::Alias));
    assert!(mux.wait().is_none());
}

#[test]
fn property_batch_yields_one_change_per_call() {
    let mut set = fresh_set_with(&[DEV_A]);
    match set.change(batch(0, &["Alias", "UUIDs"])).unwrap() {
        Some(DeviceSetChange::Changed(p, _)) => assert_eq!(p, DEV_A),
        _ => panic!("expected a property change"),
    }
    // The second interesting change of the batch is already buffered.
    let (p, _) = set.poll_buffered().unwrap();
    assert_eq!(p, DEV_A);
    assert!(set.poll_buffered().is_none());
    assert_eq!(set.device_count(), 1);
}

#[test]
fn uninteresting_batch_is_skipped() {
    let mut set = fresh_set_with(&[DEV_A]);
    assert!(set.change(batch(0, &["RSSI", "Paired"])).unwrap().is_none());
    assert!(set.poll_buffered().is_none());
}

// Once the add/remove subscription ends, every subsequent call fails with
// the same terminal condition: the set never silently resumes.
#[test]
fn terminal_propagation() {
    let mut set = fresh_set_with(&[DEV_A]);
    let e1 = set.change(Event::Ended).unwrap_err();
    assert_eq!(e1.kind, ErrorKind::StreamEnded);
    let e2 = set.change(added(DEV_B)).unwrap_err();
    assert_eq!(e1, e2);
    assert_eq!(e2.message(), "event stream ended (adapter disconnected?)");
    let e3 = set.change(batch(0, &["Alias"])).unwrap_err();
    assert_eq!(e1, e3);
}

// Immediately after construction, the stream yields every device present
// at construction exactly once before anything else.
#[test]
fn replay_completeness() {
    let set = fresh_set_with(&[DEV_A, DEV_B]);
    let mut stream = set.into_device_stream();
    let first = stream.next_ready().unwrap();
    let second = stream.next_ready().unwrap();
    assert_ne!(first, second);
    assert!(first == DEV_A || first == DEV_B);
    assert!(second == DEV_A || second == DEV_B);
    assert!(stream.next_ready().is_none());
}

// The spec scenario: two devices in the snapshot; the stream replays both
// in some order; after a remove event for A, no further yield concerns A,
// while B remains yieldable on a later alias change.
#[test]
fn snapshot_then_remove_scenario() {
    let set = fresh_set_with(&[DEV_A, DEV_B]);
    let mut stream = set.into_device_stream();
    let mut replayed = vec![stream.next_ready().unwrap(), stream.next_ready().unwrap()];
    replayed.sort();
    assert_eq!(replayed, vec![DEV_A.to_string(), DEV_B.to_string()]);
    assert!(stream.next_ready().is_none());

    // A disappears: the stream consumes the removal silently.
    assert!(stream.next(removed(DEV_A)).unwrap().is_none());

    // B was tracked at position 1; after the swap-removal of A it sits at
    // position 0. An alias change for it still surfaces.
    let yielded = stream.next(batch(0, &["Alias"])).unwrap().unwrap();
    assert_eq!(yielded, DEV_B);
}

// A terminal error passes through the stream unchanged.
#[test]
fn stream_terminal_propagation() {
    let set = fresh_set_with(&[DEV_A]);
    let mut stream = set.into_device_stream();
    assert_eq!(stream.next_ready().unwrap(), DEV_A);
    assert!(stream.next_ready().is_none());
    let e1 = stream.next(Event::Ended).unwrap_err();
    assert_eq!(e1.kind, ErrorKind::StreamEnded);
    let e2 = stream.next(added(DEV_B)).unwrap_err();
    assert_eq!(e1, e2);
}

// The stream never yields a removed path again unless it is re-added; a
// re-add does surface it.
#[test]
fn removed_path_not_yielded_until_readded() {
    let set = fresh_set_with(&[DEV_A]);
    let mut stream = set.into_device_stream();
    assert_eq!(stream.next_ready().unwrap(), DEV_A);
    assert!(stream.next_ready().is_none());
    assert!(stream.next(removed(DEV_A)).unwrap().is_none());
    // Events that do not concern A yield nothing for A.
    assert!(stream.next(removed(DEV_A)).unwrap().is_none());
    // Re-adding A surfaces it again.
    assert_eq!(stream.next(added(DEV_A)).unwrap().unwrap(), DEV_A);
}

#[test]
fn empty_set_has_empty_replay() {
    let set = DeviceSet::new(ADAPTER.to_string());
    let mut stream = set.into_device_stream();
    assert!(stream.next_ready().is_none());
    // A live addition still surfaces afterwards.
    assert_eq!(stream.next(added(DEV_A)).unwrap().unwrap(), DEV_A);
}

#[test]
fn property_names_from_bus() {
    assert_eq!(PropertyName::from_str("Alias"), Some(PropertyName::Alias));
    assert_eq!(PropertyName::from_str("RSSI"), Some(PropertyName::Rssi));
    assert_eq!(
        PropertyName::from_str("UUIDs"),
        Some(PropertyName::ServiceUuids)
    );
    assert_eq!(
        PropertyName::from_str("Connected"),
        Some(PropertyName::IsConnected)
    );
    assert_eq!(PropertyName::from_str("Paired"), None);
    assert_eq!(PropertyName::from_str("alias"), None);
}
