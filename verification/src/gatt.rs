//! GATT services and characteristics exported by BLE devices.
//!
//! The bus calls that read services and characteristics stay outside this
//! crate; what stands here is the logic applied to their plain results:
//! flag interpretation and the selection of a characteristic from a bus
//! snapshot.

use vstd::prelude::*;

use crate::text::{contains_str, has_prefix, str_eq, str_starts_with};
use crate::uuid::{uuid_chars, Uuid};

verus! {

/// A set of flags detailing the supported operations on a characteristic,
/// as the raw flag strings reported by the bus.
#[derive(Debug)]
pub struct CharacteristicFlags {
    flags: Vec<String>,
}

impl View for CharacteristicFlags {
    type V = Seq<Seq<char>>;

    closed spec fn view(&self) -> Seq<Seq<char>> {
        self.flags.deep_view()
    }
}

impl CharacteristicFlags {
    /// Wraps the raw flag strings reported by the bus.
    pub fn from_flags(flags: Vec<String>) -> (r: CharacteristicFlags)
        ensures
            r@ == flags.deep_view(),
    {
        CharacteristicFlags { flags }
    }

    /// Whether the device can notify the host of changes made to the
    /// characteristic's value.
    pub fn can_notify(&self) -> (r: bool)
        ensures
            r == self@.contains("notify"@),
    {
        contains_str(&self.flags, "notify")
    }

    /// Whether the device supports sending *indications* of changes made
    /// to the characteristic's value: notifications with an
    /// acknowledgement by the host.
    pub fn can_indicate(&self) -> (r: bool)
        ensures
            r == self@.contains("indicate"@),
    {
        contains_str(&self.flags, "indicate")
    }

    /// Whether the device allows host-initiated reads of the
    /// characteristic's value.
    pub fn can_read(&self) -> (r: bool)
        ensures
            r == self@.contains("read"@),
    {
        contains_str(&self.flags, "read")
    }

    /// Whether the device allows the host to set the characteristic's
    /// value.
    pub fn can_write(&self) -> (r: bool)
        ensures
            r == self@.contains("write"@),
    {
        contains_str(&self.flags, "write")
    }
}

/// One object of the bus snapshot that may be a GATT characteristic: its
/// path and, where the object exposes the characteristic interface, the
/// value of that interface's `UUID` property.
pub struct CharacteristicRecord {
    /// The object's hierarchical path.
    pub path: String,
    /// The `UUID` property of the characteristic interface, absent when
    /// the object does not expose one.
    pub uuid: Option<String>,
}

/// The mathematical content of a [`CharacteristicRecord`].
pub struct CharacteristicRecordModel {
    /// The object's hierarchical path.
    pub path: Seq<char>,
    /// The `UUID` property, if any.
    pub uuid: Option<Seq<char>>,
}

impl View for CharacteristicRecord {
    type V = CharacteristicRecordModel;

    open spec fn view(&self) -> CharacteristicRecordModel {
        CharacteristicRecordModel {
            path: self.path@,
            uuid: match self.uuid {
                Some(u) => Some(u@),
                None => None,
            },
        }
    }
}

impl DeepView for CharacteristicRecord {
    type V = CharacteristicRecordModel;

    open spec fn deep_view(&self) -> CharacteristicRecordModel {
        self.view()
    }
}

/// Whether the record lies under `service_path` and names `uuid_text` as
/// its UUID.
pub open spec fn characteristic_matches(
    rec: CharacteristicRecordModel,
    service_path: Seq<char>,
    uuid_text: Seq<char>,
) -> bool {
    has_prefix(rec.path, service_path) && (rec.uuid matches Some(u) && u == uuid_text)
}

/// Finds the characteristic identified by `uuid` among the objects of a
/// service: the first record under `service_path` whose `UUID` property
/// equals the textual form of `uuid`, in the order the records were handed
/// in.
pub fn find_characteristic(
    records: &Vec<CharacteristicRecord>,
    service_path: &str,
    uuid: &Uuid,
) -> (r: Option<usize>)
    ensures
        r matches Some(i) ==> 0 <= i < records@.len() && characteristic_matches(
            records.deep_view()[i as int],
            service_path@,
            uuid_chars(uuid@),
        ) && (forall|j: int|
            0 <= j < i ==> !characteristic_matches(
                #[trigger] records.deep_view()[j],
                service_path@,
                uuid_chars(uuid@),
            )),
        r is None ==> forall|j: int|
            0 <= j < records@.len() ==> !characteristic_matches(
                #[trigger] records.deep_view()[j],
                service_path@,
                uuid_chars(uuid@),
            ),
{
    let text = uuid.to_string();
    let mut i: usize = 0;
    while i < records.len()
        invariant
            i <= records.len(),
            text@ == uuid_chars(uuid@),
            forall|j: int|
                0 <= j < i ==> !characteristic_matches(
                    #[trigger] records.deep_view()[j],
                    service_path@,
                    uuid_chars(uuid@),
                ),
        decreases records.len() - i,
    {
        proof {
            assert(records.deep_view()[i as int] == records[i as int]@);
        }
        if str_starts_with(records[i].path.as_str(), service_path) {
            if let Some(u) = &records[i].uuid {
                if str_eq(u.as_str(), text.as_str()) {
                    return Some(i);
                }
            }
        }
        i += 1;
    }
    None
}

} // verus!
