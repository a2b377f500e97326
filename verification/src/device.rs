//! Device properties and the per-device property-change multiplexer.
//!
//! A remote device reports raw property-change notifications in batches: one
//! notification can name several changed and several invalidated properties
//! at once. The [`Changes`] multiplexer filters each batch against an
//! interest set, queues what survives, and hands out exactly one change per
//! [`Changes::wait`] call. The bus I/O around this crate owns the raw
//! notification channel; it feeds each arriving batch to
//! [`Changes::absorb`] and calls [`Changes::wait`] to drain.

use vstd::prelude::*;

use crate::text::str_eq;

verus! {

/// Identifies a device property by name.
///
/// Only these four properties are tracked; all other remote property changes
/// are ignored.
#[derive(Debug, Clone, Copy, PartialEq, Eq, Structural)]
#[non_exhaustive]
pub enum PropertyName {
    /// The user-friendly name assigned to the device.
    Alias,
    /// The received signal strength indicator of the remote device.
    Rssi,
    /// The list of service UUIDs the device is advertising.
    ServiceUuids,
    /// Whether the adapter is currently connected to the device.
    IsConnected,
}

impl PropertyName {
    /// Which bus property names are tracked, and as what.
    pub open spec fn parse_spec(s: Seq<char>) -> Option<PropertyName> {
        if s == "Alias"@ {
            Some(PropertyName::Alias)
        } else if s == "RSSI"@ {
            Some(PropertyName::Rssi)
        } else if s == "UUIDs"@ {
            Some(PropertyName::ServiceUuids)
        } else if s == "Connected"@ {
            Some(PropertyName::IsConnected)
        } else {
            None
        }
    }

    /// Reads a tracked property from its name on the bus.
    pub fn from_str(s: &str) -> (r: Option<PropertyName>)
        ensures
            r == Self::parse_spec(s@),
    {
        if str_eq(s, "Alias") {
            Some(PropertyName::Alias)
        } else if str_eq(s, "RSSI") {
            Some(PropertyName::Rssi)
        } else if str_eq(s, "UUIDs") {
            Some(PropertyName::ServiceUuids)
        } else if str_eq(s, "Connected") {
            Some(PropertyName::IsConnected)
        } else {
            None
        }
    }
}

/// The mathematical state of a [`Changes`] multiplexer: its interest set and
/// the changes it has buffered but not yet handed out.
pub struct ChangesModel {
    /// The properties the multiplexer was asked to watch.
    pub interest: Seq<PropertyName>,
    /// Interesting changes already reported by the bus, still to be yielded.
    pub buffer: Seq<PropertyName>,
}

/// The interesting properties named in one batch of raw property names, in
/// arrival order: each name that parses to a tracked property contained in
/// `interest` survives the filter.
pub open spec fn filtered_props(interest: Seq<PropertyName>, names: Seq<Seq<char>>) -> Seq<
    PropertyName,
>
    decreases names.len(),
{
    if names.len() == 0 {
        Seq::empty()
    } else {
        filtered_props(interest, names.drop_last()) + match PropertyName::parse_spec(
            names.last(),
        ) {
            Some(p) => if interest.contains(p) {
                seq![p]
            } else {
                Seq::empty()
            },
            None => Seq::empty(),
        }
    }
}

/// One [`Changes::wait`] call on the model: the most recently buffered
/// change is handed out, or nothing if the buffer is dry.
pub open spec fn wait_step(m: ChangesModel) -> (ChangesModel, Option<PropertyName>) {
    if m.buffer.len() == 0 {
        (m, None)
    } else {
        (ChangesModel { interest: m.interest, buffer: m.buffer.drop_last() }, Some(m.buffer.last()))
    }
}

/// One [`Changes::absorb`] call on the model: the interesting changed and
/// invalidated names of a batch are queued behind what is already buffered.
pub open spec fn absorb_step(
    m: ChangesModel,
    changed: Seq<Seq<char>>,
    invalidated: Seq<Seq<char>>,
) -> ChangesModel {
    ChangesModel {
        interest: m.interest,
        buffer: m.buffer + filtered_props(m.interest, changed) + filtered_props(
            m.interest,
            invalidated,
        ),
    }
}

/// `n` successive [`wait_step`]s on the model, with everything they yield.
pub open spec fn wait_steps(m: ChangesModel, n: nat) -> (ChangesModel, Seq<Option<PropertyName>>)
    decreases n,
{
    if n == 0 {
        (m, Seq::empty())
    } else {
        let (m1, o) = wait_step(m);
        let (m2, os) = wait_steps(m1, (n - 1) as nat);
        (m2, seq![o] + os)
    }
}

/// A stream of device property changes, filtered to an interest set.
///
/// The bus half of a subscription stays outside this crate: whoever drives
/// the bus feeds every arriving notification batch to [`Changes::absorb`]
/// and drains one change at a time with [`Changes::wait`]. A `wait` that
/// returns `None` means the buffer is dry and a new batch must be awaited;
/// if the underlying channel has ended instead, the subscription is over
/// for good and the multiplexer should be discarded.
pub struct Changes {
    interest: Vec<PropertyName>,
    change_buffer: Vec<PropertyName>,
}

impl View for Changes {
    type V = ChangesModel;

    closed spec fn view(&self) -> ChangesModel {
        ChangesModel { interest: self.interest@, buffer: self.change_buffer@ }
    }
}

impl Changes {
    /// A multiplexer watching `interest`, with nothing buffered yet.
    pub fn new(interest: Vec<PropertyName>) -> (r: Changes)
        ensures
            r@.interest == interest@,
            r@.buffer == Seq::<PropertyName>::empty(),
    {
        Changes { interest, change_buffer: Vec::new() }
    }

    /// Whether a buffered change is ready, so that a [`Changes::wait`]
    /// would succeed without a new notification.
    pub fn has_buffered(&self) -> (r: bool)
        ensures
            r == (self@.buffer.len() > 0),
    {
        self.change_buffer.len() > 0
    }

    /// Hands out one buffered property change, most recent batch entry
    /// first, or reports that a new notification must be awaited.
    ///
    /// The relative order of properties from a single batch is unspecified;
    /// changes from different batches come out in batch arrival order.
    pub fn wait(&mut self) -> (r: Option<PropertyName>)
        ensures
            (final(self)@, r) == wait_step(old(self)@),
    {
        self.change_buffer.pop()
    }

    /// Filters one raw notification batch against the interest set and
    /// queues the interesting changes: first the changed property names,
    /// then the invalidated ones, each in the order given.
    pub fn absorb(&mut self, changed: &Vec<String>, invalidated: &Vec<String>)
        ensures
            final(self)@ == absorb_step(old(self)@, changed.deep_view(), invalidated.deep_view()),
    {
        self.absorb_names(changed);
        self.absorb_names(invalidated);
        proof {
            assert(self@.buffer =~= old(self)@.buffer + filtered_props(
                old(self)@.interest,
                changed.deep_view(),
            ) + filtered_props(old(self)@.interest, invalidated.deep_view()));
        }
    }

    /// Queues the interesting properties among `names`.
    fn absorb_names(&mut self, names: &Vec<String>)
        ensures
            final(self)@.interest == old(self)@.interest,
            final(self)@.buffer == old(self)@.buffer + filtered_props(
                old(self)@.interest,
                names.deep_view(),
            ),
    {
        let ghost all = names.deep_view();
        let mut i: usize = 0;
        while i < names.len()
            invariant
                i <= names.len(),
                all == names.deep_view(),
                all.len() == names.len(),
                self@.interest == old(self)@.interest,
                self@.buffer == old(self)@.buffer + filtered_props(old(self)@.interest, all.take(
                    i as int,
                )),
            decreases names.len() - i,
        {
            proof {
                assert(all.take(i + 1).drop_last() =~= all.take(i as int));
                assert(all.take(i + 1).last() == all[i as int]);
                assert(all[i as int] == names[i as int]@);
            }
            if let Some(name) = PropertyName::from_str(names[i].as_str()) {
                if contains_prop(&self.interest, name) {
                    self.change_buffer.push(name);
                }
            }
            i += 1;
        }
        proof {
            assert(all.take(names@.len() as int) =~= all);
        }
    }
}

/// Whether `v` holds `p`.
fn contains_prop(v: &Vec<PropertyName>, p: PropertyName) -> (r: bool)
    ensures
        r == v@.contains(p),
{
    let mut i: usize = 0;
    while i < v.len()
        invariant
            i <= v.len(),
            forall|j: int| 0 <= j < i ==> v@[j] != p,
        decreases v.len() - i,
    {
        if v[i] == p {
            return true;
        }
        i += 1;
    }
    false
}

/// Draining law: a multiplexer holding `n` buffered changes answers exactly
/// `n` [`Changes::wait`] calls, handing out the buffered changes latest
/// first, and the call after that finds the buffer dry and reports that a
/// new notification must be awaited.
pub proof fn lemma_multiplexer_drains(m: ChangesModel)
    ensures
        ({
            let (drained, outs) = wait_steps(m, m.buffer.len());
            &&& outs.len() == m.buffer.len()
            &&& forall|i: int|
                0 <= i < outs.len() ==> outs[i] == Some(m.buffer[m.buffer.len() - 1 - i])
            &&& drained.buffer.len() == 0
            &&& drained.interest == m.interest
            &&& wait_step(drained).1 is None
        }),
    decreases m.buffer.len(),
{
    if m.buffer.len() > 0 {
        let (m1, o) = wait_step(m);
        lemma_multiplexer_drains(m1);
        let (drained, outs1) = wait_steps(m1, m1.buffer.len());
        let (_, outs) = wait_steps(m, m.buffer.len());
        assert(outs =~= seq![o] + outs1);
        assert forall|i: int| 0 <= i < outs.len() implies outs[i] == Some(
            m.buffer[m.buffer.len() - 1 - i],
        ) by {
            if i > 0 {
                assert(outs[i] == outs1[i - 1]);
                assert(m1.buffer[m1.buffer.len() - 1 - (i - 1)] == m.buffer[m.buffer.len() - 1
                    - i]);
            }
        }
    }
}

} // verus!
