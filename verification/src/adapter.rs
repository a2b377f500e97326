//! Device discovery and liveness tracking for one adapter.
//!
//! The [`DeviceSet`] maintains the authoritative membership list of the
//! devices visible to one adapter. The raw bus work — the add/remove signal
//! subscription, the per-device notification channels, the construction of
//! device handles — lives outside this crate; whoever drives the bus polls
//! those sources, wraps the first one that becomes ready as an [`Event`],
//! and hands it to [`DeviceSet::change`], which decides what the event means
//! and applies it. A [`DeviceStream`] is a drain-then-follow cursor over a
//! [`DeviceSet`]: it first replays every device known at construction time,
//! then forwards only additions and property changes, never removals.

use vstd::prelude::*;

use crate::device::{absorb_step, wait_step, Changes, ChangesModel, PropertyName};
use crate::error::{Error, ErrorKind};
use crate::text::{contains_str, has_prefix, str_starts_with};

verus! {

/// The bus name of the device interface; objects exposing it are devices.
pub open spec fn device_interface() -> Seq<char> {
    "org.bluez.Device1"@
}

/// The interest set every tracked device's multiplexer watches: the
/// display alias and the advertised service list.
pub open spec fn tracked_interest() -> Seq<PropertyName> {
    seq![PropertyName::Alias, PropertyName::ServiceUuids]
}

/// One object of the bus snapshot, reduced to what membership filtering
/// reads: its path and the names of the interfaces it exposes.
pub struct ObjectRecord {
    /// The object's hierarchical path.
    pub path: String,
    /// The names of the interfaces the object exposes.
    pub interfaces: Vec<String>,
}

/// The mathematical content of an [`ObjectRecord`].
pub struct ObjectModel {
    /// The object's hierarchical path.
    pub path: Seq<char>,
    /// The names of the interfaces the object exposes.
    pub interfaces: Seq<Seq<char>>,
}

impl View for ObjectRecord {
    type V = ObjectModel;

    open spec fn view(&self) -> ObjectModel {
        ObjectModel { path: self.path@, interfaces: self.interfaces.deep_view() }
    }
}

impl DeepView for ObjectRecord {
    type V = ObjectModel;

    open spec fn deep_view(&self) -> ObjectModel {
        self.view()
    }
}

/// Whether the object lies under `prefix` and exposes `interface`.
pub open spec fn object_matches(o: ObjectModel, prefix: Seq<char>, interface: Seq<char>) -> bool {
    has_prefix(o.path, prefix) && o.interfaces.contains(interface)
}

/// The paths of the objects under `prefix` exposing `interface`, in
/// snapshot order.
pub open spec fn matching_paths_spec(
    objs: Seq<ObjectModel>,
    prefix: Seq<char>,
    interface: Seq<char>,
) -> Seq<Seq<char>>
    decreases objs.len(),
{
    if objs.len() == 0 {
        Seq::empty()
    } else {
        matching_paths_spec(objs.drop_last(), prefix, interface) + if object_matches(
            objs.last(),
            prefix,
            interface,
        ) {
            seq![objs.last().path]
        } else {
            Seq::empty()
        }
    }
}

/// Selects from a bus snapshot the paths of the objects under `prefix`
/// that expose `interface`, in snapshot order.
pub fn matching_paths(objects: &Vec<ObjectRecord>, prefix: &str, interface: &str) -> (r: Vec<
    String,
>)
    ensures
        r.deep_view() == matching_paths_spec(objects.deep_view(), prefix@, interface@),
{
    let ghost all = objects.deep_view();
    let mut r: Vec<String> = Vec::new();
    let mut i: usize = 0;
    while i < objects.len()
        invariant
            i <= objects.len(),
            all == objects.deep_view(),
            all.len() == objects.len(),
            r.deep_view() == matching_paths_spec(all.take(i as int), prefix@, interface@),
        decreases objects.len() - i,
    {
        proof {
            assert(all.take(i + 1).drop_last() =~= all.take(i as int));
            assert(all.take(i + 1).last() == all[i as int]);
            assert(all[i as int] == objects[i as int]@);
        }
        if str_starts_with(objects[i].path.as_str(), prefix) && contains_str(
            &objects[i].interfaces,
            interface,
        ) {
            r.push(objects[i].path.clone());
        }
        proof {
            assert(r.deep_view() =~= matching_paths_spec(all.take(i + 1), prefix@, interface@));
        }
        i += 1;
    }
    proof {
        assert(all.take(objects@.len() as int) =~= all);
    }
    r
}

/// The path prefix under which the Bluetooth service exposes its adapters.
pub open spec fn bluez_path_prefix() -> Seq<char> {
    "/org/bluez/"@
}

/// The bus name of the adapter interface.
pub open spec fn adapter_interface() -> Seq<char> {
    "org.bluez.Adapter1"@
}

/// The device names (`hci0`, ...) of the adapters in a bus snapshot: for
/// each object exposing the adapter interface under the BlueZ path prefix,
/// its path with the prefix removed, in snapshot order.
pub open spec fn adapter_names_spec(objs: Seq<ObjectModel>) -> Seq<Seq<char>>
    decreases objs.len(),
{
    if objs.len() == 0 {
        Seq::empty()
    } else {
        adapter_names_spec(objs.drop_last()) + if object_matches(
            objs.last(),
            bluez_path_prefix(),
            adapter_interface(),
        ) {
            seq![
                objs.last().path.subrange(
                    bluez_path_prefix().len() as int,
                    objs.last().path.len() as int,
                ),
            ]
        } else {
            Seq::empty()
        }
    }
}

/// Selects from a bus snapshot the device names of all adapters: objects
/// exposing the adapter interface whose path lies under the BlueZ prefix.
/// Objects with an unexpected path are skipped.
pub fn adapter_names(objects: &Vec<ObjectRecord>) -> (r: Vec<String>)
    ensures
        r.deep_view() == adapter_names_spec(objects.deep_view()),
{
    let ghost all = objects.deep_view();
    let mut r: Vec<String> = Vec::new();
    let mut i: usize = 0;
    while i < objects.len()
        invariant
            i <= objects.len(),
            all == objects.deep_view(),
            all.len() == objects.len(),
            r.deep_view() == adapter_names_spec(all.take(i as int)),
        decreases objects.len() - i,
    {
        proof {
            assert(all.take(i as int + 1).drop_last() =~= all.take(i as int));
            assert(all.take(i as int + 1).last() == all[i as int]);
            assert(all[i as int] == objects[i as int]@);
        }
        if contains_str(&objects[i].interfaces, "org.bluez.Adapter1") {
            if let Some(name) = crate::text::strip_prefix(objects[i].path.as_str(), "/org/bluez/")
                {
                r.push(name);
            }
        }
        proof {
            assert(r.deep_view() =~= adapter_names_spec(all.take(i as int + 1)));
        }
        i += 1;
    }
    proof {
        assert(all.take(objects@.len() as int) =~= all);
    }
    r
}

/// The lexicographically first of `names`: among the adapters of a system,
/// the one a host opens by default.
pub fn first_adapter_name(names: &Vec<String>) -> (r: Option<String>)
    ensures
        r is Some <==> names@.len() > 0,
        r matches Some(m) ==> names.deep_view().contains(m@) && (forall|k: int|
            0 <= k < names@.len() ==> crate::text::lex_le(m@, #[trigger] names.deep_view()[k])),
{
    if names.len() == 0 {
        return None;
    }
    let mut best: String = names[0].clone();
    proof {
        assert(names.deep_view()[0] == best@);
        crate::text::lemma_lex_le_refl(best@);
    }
    let mut i: usize = 1;
    while i < names.len()
        invariant
            1 <= i <= names@.len(),
            names@.len() == names.len(),
            names.deep_view().contains(best@),
            forall|k: int|
                0 <= k < i ==> crate::text::lex_le(best@, #[trigger] names.deep_view()[k]),
        decreases names.len() - i,
    {
        proof {
            assert(names.deep_view()[i as int] == names[i as int]@);
        }
        if !crate::text::str_le(best.as_str(), names[i].as_str()) {
            proof {
                crate::text::lemma_lex_le_total(best@, names.deep_view()[i as int]);
            }
            let ghost old_best = best@;
            best = names[i].clone();
            proof {
                crate::text::lemma_lex_le_refl(best@);
                assert forall|k: int| 0 <= k < i + 1 implies crate::text::lex_le(
                    best@,
                    #[trigger] names.deep_view()[k],
                ) by {
                    if k < i {
                        crate::text::lemma_lex_le_trans(best@, old_best, names.deep_view()[k]);
                    }
                }
            }
        }
        i += 1;
    }
    Some(best)
}

/// One ready occurrence handed to [`DeviceSet::change`] by the loop that
/// drives the bus: exactly one source became ready, and this is what it
/// reported.
pub enum Event {
    /// The add/remove subscription reported interfaces added at `path`.
    /// `opened` tells whether building the device handle and opening its
    /// change subscription succeeded; the set ignores the event otherwise.
    Added {
        /// The path the interfaces appeared at.
        path: String,
        /// The names of the interfaces that appeared.
        interfaces: Vec<String>,
        /// Whether the device handle and its change subscription could be
        /// opened.
        opened: bool,
    },
    /// The add/remove subscription reported interfaces removed at `path`.
    Removed {
        /// The path the interfaces disappeared from.
        path: String,
        /// The names of the interfaces that disappeared.
        interfaces: Vec<String>,
    },
    /// The notification channel of the device at `index` delivered a batch
    /// of changed and invalidated property names.
    Properties {
        /// The position of the device in the set's collection.
        index: usize,
        /// The names of the properties whose values changed.
        changed: Vec<String>,
        /// The names of the properties whose values were invalidated.
        invalidated: Vec<String>,
    },
    /// The add/remove subscription ended.
    Ended,
}

/// The mathematical content of an [`Event`].
pub enum EventModel {
    /// Interfaces appeared at a path.
    Added { path: Seq<char>, interfaces: Seq<Seq<char>>, opened: bool },
    /// Interfaces disappeared from a path.
    Removed { path: Seq<char>, interfaces: Seq<Seq<char>> },
    /// A device's notification channel delivered a batch.
    Properties { index: int, changed: Seq<Seq<char>>, invalidated: Seq<Seq<char>> },
    /// The add/remove subscription ended.
    Ended,
}

impl View for Event {
    type V = EventModel;

    open spec fn view(&self) -> EventModel {
        match self {
            Event::Added { path, interfaces, opened } => EventModel::Added {
                path: path@,
                interfaces: interfaces.deep_view(),
                opened: *opened,
            },
            Event::Removed { path, interfaces } => EventModel::Removed {
                path: path@,
                interfaces: interfaces.deep_view(),
            },
            Event::Properties { index, changed, invalidated } => EventModel::Properties {
                index: *index as int,
                changed: changed.deep_view(),
                invalidated: invalidated.deep_view(),
            },
            Event::Ended => EventModel::Ended,
        }
    }
}

/// Describes a change to a [`DeviceSet`], returned by [`DeviceSet::change`].
#[derive(Debug)]
pub enum DeviceSetChange {
    /// The device at the given path was just added (discovered).
    Added(String),
    /// The device at the given path was removed.
    Removed(String),
    /// A tracked property of the device at the given path changed.
    Changed(String, PropertyName),
}

/// The mathematical content of a [`DeviceSetChange`].
pub enum ChangeModel {
    /// A device was added.
    Added(Seq<char>),
    /// A device was removed.
    Removed(Seq<char>),
    /// A tracked property of a device changed.
    Changed(Seq<char>, PropertyName),
}

impl View for DeviceSetChange {
    type V = ChangeModel;

    open spec fn view(&self) -> ChangeModel {
        match self {
            DeviceSetChange::Added(p) => ChangeModel::Added(p@),
            DeviceSetChange::Removed(p) => ChangeModel::Removed(p@),
            DeviceSetChange::Changed(p, n) => ChangeModel::Changed(p@, *n),
        }
    }
}

/// What one [`DeviceSet::change`] call amounted to.
pub enum StepOutcome {
    /// The event produced a reportable change.
    Yielded(ChangeModel),
    /// The event was irrelevant or unusable and was silently ignored.
    Skipped,
    /// The event stream is over; this and every later call fails.
    Ended,
}

/// One tracked device of the model: its path and the state of its
/// property-change multiplexer.
pub struct EntryModel {
    /// The device's hierarchical path.
    pub path: Seq<char>,
    /// The state of the device's property-change multiplexer.
    pub mux: ChangesModel,
}

/// The mathematical state of a [`DeviceSet`].
pub struct SetModel {
    /// The path of the adapter whose devices are tracked.
    pub adapter_path: Seq<char>,
    /// The tracked devices, in collection order.
    pub entries: Seq<EntryModel>,
    /// Whether the add/remove subscription has ended.
    pub ended: bool,
}

impl SetModel {
    /// The paths of the tracked devices, in collection order.
    pub open spec fn paths(self) -> Seq<Seq<char>> {
        self.entries.map_values(|e: EntryModel| e.path)
    }

    /// Well-formedness: no two tracked devices share a path.
    pub open spec fn wf(self) -> bool {
        forall|i: int, j: int|
            0 <= i < j < self.entries.len() ==> #[trigger] self.entries[i].path
                != #[trigger] self.entries[j].path
    }
}

/// The position of the first entry whose path is `p`, or `-1`.
pub open spec fn first_index_of(paths: Seq<Seq<char>>, p: Seq<char>) -> int
    decreases paths.len(),
{
    if paths.len() == 0 {
        -1
    } else if paths[0] == p {
        0
    } else {
        let r = first_index_of(paths.drop_first(), p);
        if r < 0 {
            -1
        } else {
            r + 1
        }
    }
}

/// What [`first_index_of`] finds: `-1` exactly when `p` is absent, and
/// otherwise the position of the first occurrence of `p`.
pub proof fn lemma_first_index_of_properties(paths: Seq<Seq<char>>, p: Seq<char>)
    ensures
        first_index_of(paths, p) == -1 <==> !paths.contains(p),
        first_index_of(paths, p) >= 0 ==> 0 <= first_index_of(paths, p) < paths.len()
            && paths[first_index_of(paths, p)] == p,
        first_index_of(paths, p) >= 0 ==> forall|j: int|
            0 <= j < first_index_of(paths, p) ==> paths[j] != p,
    decreases paths.len(),
{
    if paths.len() > 0 && paths[0] != p {
        let rest = paths.drop_first();
        lemma_first_index_of_properties(rest, p);
        assert(rest.contains(p) <==> paths.contains(p)) by {
            if paths.contains(p) {
                let i = choose|i: int| 0 <= i < paths.len() && paths[i] == p;
                assert(rest[i - 1] == p);
            }
            if rest.contains(p) {
                let i = choose|i: int| 0 <= i < rest.len() && rest[i] == p;
                assert(paths[i + 1] == p);
            }
        }
        let r = first_index_of(rest, p);
        if r >= 0 {
            assert forall|j: int| 0 <= j < r + 1 implies paths[j] != p by {
                if j > 0 {
                    assert(rest[j - 1] != p);
                }
            }
        }
    }
}

/// The position of the first entry with a non-empty buffer, or `-1`.
pub open spec fn first_buffered(entries: Seq<EntryModel>) -> int
    decreases entries.len(),
{
    if entries.len() == 0 {
        -1
    } else if entries[0].mux.buffer.len() > 0 {
        0
    } else {
        let r = first_buffered(entries.drop_first());
        if r < 0 {
            -1
        } else {
            r + 1
        }
    }
}

/// What [`first_buffered`] finds: `-1` exactly when every buffer is empty,
/// and otherwise the position of the first non-empty one.
pub proof fn lemma_first_buffered_properties(entries: Seq<EntryModel>)
    ensures
        first_buffered(entries) == -1 <==> (forall|j: int|
            0 <= j < entries.len() ==> #[trigger] entries[j].mux.buffer.len() == 0),
        first_buffered(entries) >= 0 ==> 0 <= first_buffered(entries) < entries.len()
            && entries[first_buffered(entries)].mux.buffer.len() > 0,
        first_buffered(entries) >= 0 ==> forall|j: int|
            0 <= j < first_buffered(entries) ==> #[trigger] entries[j].mux.buffer.len() == 0,
    decreases entries.len(),
{
    if entries.len() > 0 && entries[0].mux.buffer.len() == 0 {
        lemma_first_buffered_properties(entries.drop_first());
        assert(forall|j: int|
            1 <= j < entries.len() ==> entries.drop_first()[j - 1] == #[trigger] entries[j]);
    }
}

/// `s` with the entry at `i` removed; the last entry takes its place.
pub open spec fn swap_remove_seq<T>(s: Seq<T>, i: int) -> Seq<T>
    recommends
        0 <= i < s.len(),
{
    s.update(i, s.last()).drop_last()
}

/// One [`DeviceSet::change`] call on the model. The set consumes exactly
/// one ready event and decides what it means:
///
/// - once the event stream has ended, every call fails terminally;
/// - an add under the adapter's path for the device interface, whose handle
///   and subscription could be opened, joins the set (unless its path is
///   already tracked) and is reported;
/// - a remove under the adapter's path for the device interface evicts the
///   first entry with that path, if any, and is reported; removing an
///   untracked path is a silent no-op;
/// - a notification batch is absorbed by the multiplexer of the device it
///   belongs to, and one buffered change, if any, is reported;
/// - everything else is silently ignored.
pub open spec fn change_step(s: SetModel, e: EventModel) -> (SetModel, StepOutcome) {
    if s.ended {
        (s, StepOutcome::Ended)
    } else {
        match e {
            EventModel::Ended => (
                SetModel { ended: true, ..s },
                StepOutcome::Ended,
            ),
            EventModel::Added { path, interfaces, opened } => {
                if has_prefix(path, s.adapter_path) && interfaces.contains(device_interface())
                    && opened && !s.paths().contains(path) {
                    (
                        SetModel {
                            entries: s.entries.push(
                                EntryModel {
                                    path,
                                    mux: ChangesModel {
                                        interest: tracked_interest(),
                                        buffer: Seq::empty(),
                                    },
                                },
                            ),
                            ..s
                        },
                        StepOutcome::Yielded(ChangeModel::Added(path)),
                    )
                } else {
                    (s, StepOutcome::Skipped)
                }
            },
            EventModel::Removed { path, interfaces } => {
                if has_prefix(path, s.adapter_path) && interfaces.contains(device_interface())
                    && first_index_of(s.paths(), path) >= 0 {
                    (
                        SetModel {
                            entries: swap_remove_seq(s.entries, first_index_of(s.paths(), path)),
                            ..s
                        },
                        StepOutcome::Yielded(ChangeModel::Removed(path)),
                    )
                } else {
                    (s, StepOutcome::Skipped)
                }
            },
            EventModel::Properties { index, changed, invalidated } => {
                if 0 <= index < s.entries.len() {
                    let absorbed = absorb_step(s.entries[index].mux, changed, invalidated);
                    let (after, popped) = wait_step(absorbed);
                    let s1 = SetModel {
                        entries: s.entries.update(
                            index,
                            EntryModel { path: s.entries[index].path, mux: after },
                        ),
                        ..s
                    };
                    match popped {
                        Some(prop) => (
                            s1,
                            StepOutcome::Yielded(
                                ChangeModel::Changed(s.entries[index].path, prop),
                            ),
                        ),
                        None => (s1, StepOutcome::Skipped),
                    }
                } else {
                    (s, StepOutcome::Skipped)
                }
            },
        }
    }
}

/// One [`DeviceSet::poll_buffered`] call on the model: the first entry
/// holding a buffered change hands one out.
pub open spec fn poll_step(s: SetModel) -> (SetModel, Option<(Seq<char>, PropertyName)>) {
    let i = first_buffered(s.entries);
    if i < 0 {
        (s, None)
    } else {
        let (after, popped) = wait_step(s.entries[i].mux);
        (
            SetModel {
                entries: s.entries.update(i, EntryModel { path: s.entries[i].path, mux: after }),
                ..s
            },
            Some((s.entries[i].path, popped->0)),
        )
    }
}

/// Joining the set at construction time, on the model: a device found in
/// the snapshot joins unless its handle or subscription could not be opened
/// or its path is already tracked.
pub open spec fn insert_step(s: SetModel, path: Seq<char>, opened: bool) -> SetModel {
    if opened && !s.paths().contains(path) {
        SetModel {
            entries: s.entries.push(
                EntryModel {
                    path,
                    mux: ChangesModel { interest: tracked_interest(), buffer: Seq::empty() },
                },
            ),
            ..s
        }
    } else {
        s
    }
}

struct DeviceEntry {
    path: String,
    changes: Changes,
}

/// A set of devices currently visible to an adapter, together with one
/// property-change multiplexer per device.
///
/// The set assumes a single logical reader driving a sequential poll loop:
/// the reader polls the pending bus sources, and per cycle hands the set
/// either one ready event ([`DeviceSet::change`]) or nothing, first
/// draining changes that are already buffered
/// ([`DeviceSet::poll_buffered`]).
pub struct DeviceSet {
    adapter_path: String,
    entries: Vec<DeviceEntry>,
    ended: bool,
}

impl View for DeviceSet {
    type V = SetModel;

    closed spec fn view(&self) -> SetModel {
        SetModel {
            adapter_path: self.adapter_path@,
            entries: self.entries@.map_values(
                |e: DeviceEntry| EntryModel { path: e.path@, mux: e.changes@ },
            ),
            ended: self.ended,
        }
    }
}

/// The interest set every tracked device's multiplexer watches, as a value.
fn tracked_interest_vec() -> (r: Vec<PropertyName>)
    ensures
        r@ == tracked_interest(),
{
    let mut r: Vec<PropertyName> = Vec::new();
    r.push(PropertyName::Alias);
    r.push(PropertyName::ServiceUuids);
    proof {
        assert(r@ =~= tracked_interest());
    }
    r
}

impl DeviceSet {
    /// An empty set tracking devices under `adapter_path`.
    pub fn new(adapter_path: String) -> (r: DeviceSet)
        ensures
            r@.adapter_path == adapter_path@,
            r@.entries == Seq::<EntryModel>::empty(),
            !r@.ended,
            r@.wf(),
    {
        let r = DeviceSet { adapter_path, entries: Vec::new(), ended: false };
        proof {
            assert(r@.entries =~= Seq::<EntryModel>::empty());
        }
        r
    }

    /// How many devices the set currently tracks.
    pub fn device_count(&self) -> (r: usize)
        ensures
            r == self@.entries.len(),
    {
        self.entries.len()
    }

    /// Whether an object at `path` exposing `interfaces` is a device of
    /// this adapter, so that opening a handle for it is worth attempting.
    pub fn is_candidate(&self, path: &str, interfaces: &Vec<String>) -> (r: bool)
        ensures
            r == (has_prefix(path@, self@.adapter_path) && interfaces.deep_view().contains(
                device_interface(),
            )),
    {
        str_starts_with(path, self.adapter_path.as_str()) && contains_str(
            interfaces,
            "org.bluez.Device1",
        )
    }

    /// Admits one device found in the bus snapshot at construction time.
    /// `opened` tells whether its handle and change subscription could be
    /// opened; a device that could not be opened is skipped, as is a path
    /// already tracked. Reports whether the device joined.
    pub fn insert_device(&mut self, path: String, opened: bool) -> (r: bool)
        ensures
            final(self)@ == insert_step(old(self)@, path@, opened),
            r == (opened && !old(self)@.paths().contains(path@)),
            old(self)@.wf() ==> final(self)@.wf(),
    {
        proof {
            lemma_first_index_of_properties(self@.paths(), path@);
            if self@.wf() {
                lemma_insert_step_preserves_wf(self@, path@, opened);
            }
        }
        if opened && self.find_path_index(path.as_str()).is_none() {
            let changes = Changes::new(tracked_interest_vec());
            self.entries.push(DeviceEntry { path, changes });
            proof {
                assert(self@.entries =~= insert_step(old(self)@, path@, opened).entries);
            }
            true
        } else {
            false
        }
    }

    /// The position of the first entry whose path is `p`.
    fn find_path_index(&self, p: &str) -> (r: Option<usize>)
        ensures
            r matches Some(i) ==> 0 <= i < self@.entries.len() && first_index_of(
                self@.paths(),
                p@,
            ) == i,
            r is None ==> first_index_of(self@.paths(), p@) == -1,
    {
        proof {
            lemma_first_index_of_properties(self@.paths(), p@);
        }
        let mut i: usize = 0;
        while i < self.entries.len()
            invariant
                i <= self.entries.len(),
                forall|j: int| 0 <= j < i ==> self@.paths()[j] != p@,
            decreases self.entries.len() - i,
        {
            if crate::text::str_eq(self.entries[i].path.as_str(), p) {
                proof {
                    assert(self@.paths()[i as int] == p@);
                    lemma_first_index_of_properties(self@.paths(), p@);
                }
                return Some(i);
            }
            i += 1;
        }
        proof {
            assert(!self@.paths().contains(p@));
        }
        None
    }

    /// Applies one ready event to the set.
    ///
    /// Exactly one ready source is consumed per call; what happened is
    /// [`change_step`] of the event. A reportable change comes back as
    /// `Ok(Some(..))`; an irrelevant or unusable event — an add outside the
    /// adapter, an add whose handle could not be opened, a remove of an
    /// untracked path, a batch with nothing interesting — is swallowed as
    /// `Ok(None)`. Once the event stream has ended, this and every later
    /// call fails with the terminal error.
    pub fn change(&mut self, event: Event) -> (r: Result<Option<DeviceSetChange>, Error>)
        ensures
            final(self)@ == change_step(old(self)@, event@).0,
            change_step(old(self)@, event@).1 matches StepOutcome::Yielded(c) ==> (r matches Ok(
                Some(x),
            ) && x@ == c),
            change_step(old(self)@, event@).1 is Skipped ==> r == Ok::<
                Option<DeviceSetChange>,
                Error,
            >(None),
            change_step(old(self)@, event@).1 is Ended ==> r == Err::<
                Option<DeviceSetChange>,
                Error,
            >((Error { kind: ErrorKind::StreamEnded })),
            old(self)@.wf() ==> final(self)@.wf(),
    {
        proof {
            if self@.wf() {
                lemma_change_step_preserves_wf(self@, event@);
            }
        }
        if self.ended {
            return Err(Error::stream_ended());
        }
        match event {
            Event::Ended => {
                self.ended = true;
                Err(Error::stream_ended())
            },
            Event::Added { path, interfaces, opened } => {
                proof {
                    lemma_first_index_of_properties(self@.paths(), path@);
                }
                if str_starts_with(path.as_str(), self.adapter_path.as_str()) && contains_str(
                    &interfaces,
                    "org.bluez.Device1",
                ) && opened && self.find_path_index(path.as_str()).is_none() {
                    let changes = Changes::new(tracked_interest_vec());
                    self.entries.push(DeviceEntry { path: path.clone(), changes });
                    proof {
                        assert(self@.entries =~= change_step(old(self)@, event@).0.entries);
                    }
                    Ok(Some(DeviceSetChange::Added(path)))
                } else {
                    Ok(None)
                }
            },
            Event::Removed { path, interfaces } => {
                if str_starts_with(path.as_str(), self.adapter_path.as_str()) && contains_str(
                    &interfaces,
                    "org.bluez.Device1",
                ) {
                    match self.find_path_index(path.as_str()) {
                        Some(i) => {
                            let _removed = self.entries.swap_remove(i);
                            proof {
                                assert(self@.entries =~= change_step(
                                    old(self)@,
                                    event@,
                                ).0.entries);
                            }
                            Ok(Some(DeviceSetChange::Removed(path)))
                        },
                        None => Ok(None),
                    }
                } else {
                    Ok(None)
                }
            },
            Event::Properties { index, changed, invalidated } => {
                if index < self.entries.len() {
                    self.entries[index].changes.absorb(&changed, &invalidated);
                    let popped = self.entries[index].changes.wait();
                    proof {
                        assert(self@.entries =~= change_step(old(self)@, event@).0.entries);
                    }
                    match popped {
                        Some(prop) => Ok(
                            Some(
                                DeviceSetChange::Changed(self.entries[index].path.clone(), prop),
                            ),
                        ),
                        None => Ok(None),
                    }
                } else {
                    Ok(None)
                }
            },
        }
    }

    /// Hands out one change that is already buffered in some device's
    /// multiplexer, if any, without consuming any event: these are the
    /// sources that are ready immediately.
    pub fn poll_buffered(&mut self) -> (r: Option<(String, PropertyName)>)
        ensures
            final(self)@ == poll_step(old(self)@).0,
            r matches Some(pair) ==> (poll_step(old(self)@).1 matches Some(m) && m.0 == pair.0@
                && m.1 == pair.1),
            r is None ==> poll_step(old(self)@).1 is None,
            old(self)@.wf() ==> final(self)@.wf(),
    {
        proof {
            lemma_first_buffered_properties(self@.entries);
            if self@.wf() {
                lemma_poll_step_preserves_wf(self@);
            }
        }
        let mut i: usize = 0;
        while i < self.entries.len()
            invariant
                i <= self.entries.len(),
                *self == *old(self),
                forall|j: int| 0 <= j < i ==> #[trigger] self@.entries[j].mux.buffer.len() == 0,
            decreases self.entries.len() - i,
        {
            if self.entries[i].changes.has_buffered() {
                proof {
                    assert(self@.entries[i as int].mux == self.entries@[i as int].changes@);
                    assert(self@.entries[i as int].mux.buffer.len() > 0);
                    lemma_first_buffered_properties(self@.entries);
                    assert(first_buffered(self@.entries) == i);
                }
                let popped = self.entries[i].changes.wait();
                let prop = match popped {
                    Some(prop) => prop,
                    None => vstd::pervasive::unreached(),
                };
                let path = self.entries[i].path.clone();
                proof {
                    assert(self@.entries =~= poll_step(old(self)@).0.entries);
                }
                return Some((path, prop));
            }
            i += 1;
        }
        None
    }

    /// Turns the set into a [`DeviceStream`] that first replays every
    /// device currently tracked and then follows live changes.
    pub fn into_device_stream(self) -> (r: DeviceStream)
        ensures
            r@ == stream_of(self@),
    {
        let mut to_yield: Vec<String> = Vec::new();
        let mut i: usize = 0;
        while i < self.entries.len()
            invariant
                i <= self.entries.len(),
                to_yield.deep_view() == self@.paths().take(i as int),
            decreases self.entries.len() - i,
        {
            let ghost before = to_yield.deep_view();
            to_yield.push(self.entries[i].path.clone());
            proof {
                assert(self@.paths().len() == self.entries@.len());
                assert(before.len() == i as int);
                assert(to_yield@.len() == i as int + 1);
                assert(to_yield.deep_view().len() == i as int + 1);
                assert(to_yield.deep_view()[i as int] == self@.paths()[i as int]);
                assert(to_yield.deep_view() =~= self@.paths().take(i as int + 1));
            }
            i += 1;
        }
        proof {
            assert(self@.paths().take(self@.entries.len() as int) =~= self@.paths());
        }
        DeviceStream { to_yield, set: self }
    }
}

/// [`change_step`] preserves well-formedness: no event can make two tracked
/// devices share a path.
pub proof fn lemma_change_step_preserves_wf(s: SetModel, e: EventModel)
    requires
        s.wf(),
    ensures
        change_step(s, e).0.wf(),
{
    let s1 = change_step(s, e).0;
    match e {
        EventModel::Added { path, interfaces, opened } => {
            if has_prefix(path, s.adapter_path) && interfaces.contains(device_interface())
                && opened && !s.paths().contains(path) {
                assert forall|i: int, j: int| 0 <= i < j < s1.entries.len() implies #[trigger] s1
                    .entries[i].path != #[trigger] s1.entries[j].path by {
                    if j == s.entries.len() {
                        assert(s.paths()[i] == s.entries[i].path);
                    }
                }
            }
        },
        EventModel::Removed { path, interfaces } => {
            if !s.ended && has_prefix(path, s.adapter_path) && interfaces.contains(
                device_interface(),
            ) && first_index_of(s.paths(), path) >= 0 {
                lemma_first_index_of_properties(s.paths(), path);
                let k = first_index_of(s.paths(), path);
                assert forall|i: int, j: int| 0 <= i < j < s1.entries.len() implies #[trigger] s1
                    .entries[i].path != #[trigger] s1.entries[j].path by {
                    let oi: int = if i == k { s.entries.len() - 1 } else { i };
                    let oj: int = if j == k { s.entries.len() - 1 } else { j };
                    assert(s1.entries[i] == s.entries[oi]);
                    assert(s1.entries[j] == s.entries[oj]);
                    assert(oi != oj);
                }
            }
        },
        EventModel::Properties { index, changed, invalidated } => {
            if !s.ended && 0 <= index < s.entries.len() {
                assert forall|i: int, j: int| 0 <= i < j < s1.entries.len() implies #[trigger] s1
                    .entries[i].path != #[trigger] s1.entries[j].path by {
                    assert(s1.entries[i].path == s.entries[i].path);
                    assert(s1.entries[j].path == s.entries[j].path);
                }
            }
        },
        EventModel::Ended => {},
    }
}

/// [`poll_step`] preserves well-formedness.
pub proof fn lemma_poll_step_preserves_wf(s: SetModel)
    requires
        s.wf(),
    ensures
        poll_step(s).0.wf(),
{
    let s1 = poll_step(s).0;
    if first_buffered(s.entries) >= 0 {
        lemma_first_buffered_properties(s.entries);
        assert forall|i: int, j: int| 0 <= i < j < s1.entries.len() implies #[trigger] s1.entries[i].path
            != #[trigger] s1.entries[j].path by {
            assert(s1.entries[i].path == s.entries[i].path);
            assert(s1.entries[j].path == s.entries[j].path);
        }
    }
}

/// [`insert_step`] preserves well-formedness.
pub proof fn lemma_insert_step_preserves_wf(s: SetModel, path: Seq<char>, opened: bool)
    requires
        s.wf(),
    ensures
        insert_step(s, path, opened).wf(),
{
    let s1 = insert_step(s, path, opened);
    if opened && !s.paths().contains(path) {
        assert forall|i: int, j: int| 0 <= i < j < s1.entries.len() implies #[trigger] s1.entries[i].path
            != #[trigger] s1.entries[j].path by {
            if j == s.entries.len() {
                assert(s.paths()[i] == s.entries[i].path);
            }
        }
    }
}

/// The mathematical state of a [`DeviceStream`].
pub struct StreamModel {
    /// The devices still to be replayed, popped from the back.
    pub to_yield: Seq<Seq<char>>,
    /// The underlying device set.
    pub set: SetModel,
}

/// The stream a fresh [`DeviceSet`] turns into: its replay buffer lists
/// every tracked device, in collection order.
pub open spec fn stream_of(s: SetModel) -> StreamModel {
    StreamModel { to_yield: s.paths(), set: s }
}

/// A stream that yields newly discovered or changed devices by path.
///
/// A drain-then-follow cursor over a [`DeviceSet`]: it first replays every
/// device known at construction time, then forwards additions and property
/// changes from the live set. Removals are never surfaced — a discovery
/// stream reports devices that exist or changed, not disappearances. The
/// same path may be yielded many times: once at replay, and once per
/// relevant change after that.
pub struct DeviceStream {
    to_yield: Vec<String>,
    set: DeviceSet,
}

impl View for DeviceStream {
    type V = StreamModel;

    closed spec fn view(&self) -> StreamModel {
        StreamModel { to_yield: self.to_yield.deep_view(), set: self.set@ }
    }
}

/// One [`DeviceStream::next_ready`] call on the model: one replay entry is
/// popped, or failing that, one already-buffered change is drained.
pub open spec fn next_ready_step(st: StreamModel) -> (StreamModel, Option<Seq<char>>) {
    if st.to_yield.len() > 0 {
        (
            StreamModel { to_yield: st.to_yield.drop_last(), set: st.set },
            Some(st.to_yield.last()),
        )
    } else {
        let (s1, popped) = poll_step(st.set);
        match popped {
            Some(pair) => (StreamModel { to_yield: st.to_yield, set: s1 }, Some(pair.0)),
            None => (StreamModel { to_yield: st.to_yield, set: s1 }, None),
        }
    }
}

/// One [`DeviceStream::next`] call on the model: the event goes to the
/// underlying set, additions and changes surface, removals and skipped
/// events do not, and the terminal condition passes through.
pub open spec fn next_step(st: StreamModel, e: EventModel) -> (
    StreamModel,
    Result<Option<Seq<char>>, ()>,
) {
    let (s1, out) = change_step(st.set, e);
    let st1 = StreamModel { to_yield: st.to_yield, set: s1 };
    match out {
        StepOutcome::Ended => (st1, Err(())),
        StepOutcome::Skipped => (st1, Ok(None)),
        StepOutcome::Yielded(c) => match c {
            ChangeModel::Added(p) => (st1, Ok(Some(p))),
            ChangeModel::Changed(p, _) => (st1, Ok(Some(p))),
            ChangeModel::Removed(_) => (st1, Ok(None)),
        },
    }
}

impl DeviceStream {
    /// Hands out the next device that is ready without consuming any event:
    /// first the replay buffer, one device per call, then changes already
    /// buffered in the live set. `None` means the caller must wait for a
    /// bus event and hand it to [`DeviceStream::next`]; the replay buffer
    /// is empty from then on.
    pub fn next_ready(&mut self) -> (r: Option<String>)
        ensures
            final(self)@ == next_ready_step(old(self)@).0,
            r matches Some(p) ==> next_ready_step(old(self)@).1 == Some(p@),
            r is None ==> next_ready_step(old(self)@).1 is None,
            r is None ==> final(self)@.to_yield.len() == 0,
    {
        if let Some(path) = self.to_yield.pop() {
            proof {
                assert(self@.to_yield =~= old(self)@.to_yield.drop_last());
                assert(old(self)@.to_yield.last() == path@);
            }
            return Some(path);
        }
        match self.set.poll_buffered() {
            Some(pair) => Some(pair.0),
            None => None,
        }
    }

    /// Applies one ready event to the underlying set and yields the path of
    /// the device it added or changed, if any.
    ///
    /// Removals are consumed silently: a removed device is simply never
    /// yielded again (unless it is re-added). A terminal error from the set
    /// passes through unchanged; the stream is then over for good. The
    /// replay buffer must be drained first — call
    /// [`DeviceStream::next_ready`] until it returns `None`.
    pub fn next(&mut self, event: Event) -> (r: Result<Option<String>, Error>)
        requires
            old(self)@.to_yield.len() == 0,
        ensures
            final(self)@ == next_step(old(self)@, event@).0,
            r is Ok <==> next_step(old(self)@, event@).1 is Ok,
            r matches Ok(ro) ==> ((ro matches Some(p) && next_step(old(self)@, event@).1 == Ok::<
                Option<Seq<char>>,
                (),
            >(Some(p@))) || (ro is None && next_step(old(self)@, event@).1 == Ok::<
                Option<Seq<char>>,
                (),
            >(None))),
            r matches Err(e) ==> e == (Error { kind: ErrorKind::StreamEnded }),
    {
        match self.set.change(event) {
            Err(e) => Err(e),
            Ok(None) => Ok(None),
            Ok(Some(DeviceSetChange::Added(p))) => Ok(Some(p)),
            Ok(Some(DeviceSetChange::Changed(p, _))) => Ok(Some(p)),
            Ok(Some(DeviceSetChange::Removed(_))) => Ok(None),
        }
    }
}

/// Running a whole sequence of events through [`change_step`], collecting
/// what every step amounted to.
pub open spec fn run_steps(s: SetModel, es: Seq<EventModel>) -> (SetModel, Seq<StepOutcome>)
    decreases es.len(),
{
    if es.len() == 0 {
        (s, Seq::empty())
    } else {
        let (s1, o) = change_step(s, es[0]);
        let (s2, os) = run_steps(s1, es.drop_first());
        (s2, seq![o] + os)
    }
}

/// Whether `e` could re-admit the path `p`: an add event for `p` whose
/// device handle could be opened. An add whose handle could not be opened
/// never admits anything.
pub open spec fn adds_path(e: EventModel, p: Seq<char>) -> bool {
    e matches EventModel::Added { path, opened, .. } && path == p && opened
}

/// Whether the outcome surfaces the path `p` through a discovery stream:
/// an addition or a property change of `p`. Removals never surface.
pub open spec fn yields_path(o: StepOutcome, p: Seq<char>) -> bool {
    match o {
        StepOutcome::Yielded(c) => match c {
            ChangeModel::Added(q) => q == p,
            ChangeModel::Changed(q, _) => q == p,
            ChangeModel::Removed(_) => false,
        },
        _ => false,
    }
}

/// One step of the never-yielded law: a path the set does not track stays
/// untracked and is not surfaced, as long as the event is not an add for
/// that very path.
pub proof fn lemma_absent_path_stays_out(s: SetModel, e: EventModel, p: Seq<char>)
    requires
        !s.paths().contains(p),
        !adds_path(e, p),
    ensures
        !change_step(s, e).0.paths().contains(p),
        !yields_path(change_step(s, e).1, p),
{
    let s1 = change_step(s, e).0;
    if !s.ended {
        match e {
            EventModel::Added { path, interfaces, opened } => {
                if has_prefix(path, s.adapter_path) && interfaces.contains(device_interface())
                    && opened && !s.paths().contains(path) {
                    assert forall|k: int| 0 <= k < s1.paths().len() implies #[trigger] s1.paths()[k]
                        != p by {
                        if k < s.entries.len() {
                            assert(s1.paths()[k] == s.paths()[k]);
                        } else {
                            assert(s1.paths()[k] == path);
                        }
                    }
                }
            },
            EventModel::Removed { path, interfaces } => {
                if has_prefix(path, s.adapter_path) && interfaces.contains(device_interface())
                    && first_index_of(s.paths(), path) >= 0 {
                    lemma_first_index_of_properties(s.paths(), path);
                    let f = first_index_of(s.paths(), path);
                    assert forall|k: int| 0 <= k < s1.paths().len() implies #[trigger] s1.paths()[k]
                        != p by {
                        let ok: int = if k == f {
                            s.entries.len() - 1
                        } else {
                            k
                        };
                        assert(s1.entries[k] == s.entries[ok]);
                        assert(s.paths()[ok] == s.entries[ok].path);
                    }
                }
            },
            EventModel::Properties { index, changed, invalidated } => {
                if 0 <= index < s.entries.len() {
                    assert forall|k: int| 0 <= k < s1.paths().len() implies #[trigger] s1.paths()[k]
                        != p by {
                        assert(s1.entries[k].path == s.entries[k].path);
                        assert(s.paths()[k] == s.entries[k].path);
                    }
                    assert(s.paths()[index] == s.entries[index].path);
                }
            },
            EventModel::Ended => {},
        }
    }
}

/// Never-yielded law: a path the set does not track — in particular one
/// whose device was just removed — never rejoins the set and is never
/// surfaced by any later event, unless an add event arrives for that very
/// path again.
pub proof fn lemma_removed_never_yielded(s: SetModel, es: Seq<EventModel>, p: Seq<char>)
    requires
        !s.paths().contains(p),
        forall|i: int| 0 <= i < es.len() ==> !adds_path(#[trigger] es[i], p),
    ensures
        !run_steps(s, es).0.paths().contains(p),
        forall|i: int|
            0 <= i < run_steps(s, es).1.len() ==> !yields_path(#[trigger] run_steps(s, es).1[i], p),
    decreases es.len(),
{
    if es.len() > 0 {
        let (s1, o) = change_step(s, es[0]);
        lemma_absent_path_stays_out(s, es[0], p);
        let rest = es.drop_first();
        assert forall|i: int| 0 <= i < rest.len() implies !adds_path(#[trigger] rest[i], p) by {
            assert(rest[i] == es[i + 1]);
        }
        lemma_removed_never_yielded(s1, rest, p);
        let (s2, os1) = run_steps(s1, rest);
        assert(run_steps(s, es).1 =~= seq![o] + os1);
        assert forall|i: int| 0 <= i < run_steps(s, es).1.len() implies !yields_path(
            #[trigger] run_steps(s, es).1[i],
            p,
        ) by {
            if i > 0 {
                assert(run_steps(s, es).1[i] == os1[i - 1]);
            }
        }
    }
}

/// Idempotence of removal: removing a path the set does not track is a
/// no-op — no change is reported, and the collection is left exactly as it
/// was.
pub proof fn lemma_remove_absent_is_noop(s: SetModel, path: Seq<char>, interfaces: Seq<Seq<char>>)
    requires
        !s.ended,
        !s.paths().contains(path),
    ensures
        change_step(s, EventModel::Removed { path, interfaces }) == (s, StepOutcome::Skipped),
{
    lemma_first_index_of_properties(s.paths(), path);
}

/// Terminal propagation: once the event stream has ended, every subsequent
/// call fails with the same terminal condition, whatever arrives — the set
/// never silently resumes.
pub proof fn lemma_terminal_is_permanent(s: SetModel, es: Seq<EventModel>)
    requires
        s.ended,
    ensures
        run_steps(s, es).0.ended,
        forall|i: int|
            0 <= i < run_steps(s, es).1.len() ==> #[trigger] run_steps(s, es).1[i]
                == StepOutcome::Ended,
    decreases es.len(),
{
    if es.len() > 0 {
        let (s1, o) = change_step(s, es[0]);
        lemma_terminal_is_permanent(s1, es.drop_first());
        let (s2, os1) = run_steps(s1, es.drop_first());
        assert(run_steps(s, es).1 =~= seq![o] + os1);
        assert forall|i: int|
            0 <= i < run_steps(s, es).1.len() implies #[trigger] run_steps(s, es).1[i]
            == StepOutcome::Ended by {
            if i > 0 {
                assert(run_steps(s, es).1[i] == os1[i - 1]);
            }
        }
    }
}

/// What a discovery stream can surface: every path a [`DeviceStream::next`]
/// call yields is one the underlying set just added or changed —
/// [`yields_path`] holds of the step — so the never-yielded law carries
/// over to the stream unchanged.
pub proof fn lemma_stream_yields_only_surfaced(st: StreamModel, e: EventModel, p: Seq<char>)
    requires
        next_step(st, e).1 == Ok::<Option<Seq<char>>, ()>(Some(p)),
    ensures
        yields_path(change_step(st.set, e).1, p),
{
}

/// Well-formedness is an invariant of whole runs: no sequence of events can
/// make two tracked devices share a path.
pub proof fn lemma_run_preserves_wf(s: SetModel, es: Seq<EventModel>)
    requires
        s.wf(),
    ensures
        run_steps(s, es).0.wf(),
    decreases es.len(),
{
    if es.len() > 0 {
        lemma_change_step_preserves_wf(s, es[0]);
        lemma_run_preserves_wf(change_step(s, es[0]).0, es.drop_first());
    }
}

/// Replay completeness: the stream a well-formed set turns into lists
/// every tracked device in its replay buffer exactly once — the buffer has
/// no duplicates and holds precisely the tracked paths. One replay entry is
/// popped per [`DeviceStream::next_ready`] call, and [`DeviceStream::next`]
/// demands the buffer be drained first, so every device present at
/// construction is yielded exactly once before any live event.
pub proof fn lemma_replay_complete(s: SetModel)
    requires
        s.wf(),
    ensures
        stream_of(s).to_yield == s.paths(),
        stream_of(s).to_yield.no_duplicates(),
        forall|p: Seq<char>|
            #[trigger] stream_of(s).to_yield.contains(p) <==> s.paths().contains(p),
{
    assert forall|i: int, j: int|
        (0 <= i < s.paths().len() && 0 <= j < s.paths().len() && i != j) implies #[trigger] s.paths()[i]
        != #[trigger] s.paths()[j] by {
        assert(s.paths()[i] == s.entries[i].path);
        assert(s.paths()[j] == s.entries[j].path);
    }
}

} // verus!
