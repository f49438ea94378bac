//! The last status changes of a service.

use crate::models::{StateHistoryEntry, StateHistoryEntryView};
use ringbuf::HeapRb;
use ringbuf::Rb;
use vstd::prelude::*;

verus! {

/// How many status changes of a service are kept.
pub const HISTORY_CAPACITY: usize = 100;

/// A ring buffer of the ringbuf crate, `ringbuf::HeapRb`. Verus sees nothing of it but
/// what `ring_entries` and `ring_capacity` name.
#[verifier::external_body]
pub struct Ring {
    buffer: HeapRb<StateHistoryEntry>,
}

/// The entries that a ring holds, the oldest first.
pub uninterp spec fn ring_entries(ring: Ring) -> Seq<StateHistoryEntry>;

/// How many entries a ring has room for.
pub uninterp spec fn ring_capacity(ring: Ring) -> nat;

/// An empty ring, from `ringbuf::HeapRb::new`. That function panics where the capacity is
/// zero, and where there is no memory for it.
#[verifier::external_body]
fn new_ring(capacity: usize) -> (ring: Ring)
    requires
        0 < capacity <= HISTORY_CAPACITY,
    ensures
        ring_entries(ring) == Seq::<StateHistoryEntry>::empty(),
        ring_capacity(ring) == capacity,
{
    Ring { buffer: HeapRb::new(capacity) }
}

/// Appends an entry to a ring, with `ringbuf::Rb::push_overwrite`. Where the ring is full,
/// the oldest entry leaves it and is handed back. The room in the ring stays as it was, and
/// the call does not panic.
#[verifier::external_body]
fn push_overwrite(ring: &mut Ring, entry: StateHistoryEntry) -> (pushed_out: Option<
    StateHistoryEntry,
>)
    requires
        0 < ring_capacity(*old(ring)),
        ring_entries(*old(ring)).len() <= ring_capacity(*old(ring)),
    ensures
        ring_capacity(*final(ring)) == ring_capacity(*old(ring)),
        if ring_entries(*old(ring)).len() < ring_capacity(*old(ring)) {
            &&& ring_entries(*final(ring)) == ring_entries(*old(ring)).push(entry)
            &&& pushed_out is None
        } else {
            &&& ring_entries(*final(ring)) == ring_entries(*old(ring)).drop_first().push(entry)
            &&& pushed_out == Some(ring_entries(*old(ring)).first())
        },
    no_unwind
{
    ring.buffer.push_overwrite(entry)
}

/// The entries of a ring from the oldest to the newest, as `ringbuf::Rb::iter` walks them.
#[verifier::external_body]
fn ring_items(ring: &Ring) -> (items: Vec<&StateHistoryEntry>)
    ensures
        items@.len() == ring_entries(*ring).len(),
        forall|i: int| 0 <= i < items@.len() ==> *(#[trigger] items@[i]) == ring_entries(*ring)[i],
{
    ring.buffer.iter().collect()
}

/// A status change that comes after others: the oldest of them is forgotten where as many
/// as are kept are there already.
pub open spec fn remember(
    changes: Seq<StateHistoryEntryView>,
    change: StateHistoryEntryView,
) -> Seq<StateHistoryEntryView> {
    if changes.len() < HISTORY_CAPACITY {
        changes.push(change)
    } else {
        changes.drop_first().push(change)
    }
}

/// The last status changes of a service.
pub struct History {
    ring: Ring,
}

impl View for History {
    type V = Seq<StateHistoryEntryView>;

    /// The status changes that are kept, the oldest first.
    closed spec fn view(&self) -> Seq<StateHistoryEntryView> {
        ring_entries(self.ring).map_values(|entry: StateHistoryEntry| entry@)
    }
}

impl History {
    #[verifier::type_invariant]
    closed spec fn bounded(self) -> bool {
        &&& ring_capacity(self.ring) == HISTORY_CAPACITY
        &&& ring_entries(self.ring).len() <= HISTORY_CAPACITY
    }

    /// A history without changes.
    pub fn new() -> (history: Self)
        ensures
            history@ == Seq::<StateHistoryEntryView>::empty(),
    {
        let history = History { ring: new_ring(HISTORY_CAPACITY) };
        assert(history@ =~= Seq::<StateHistoryEntryView>::empty());
        history
    }

    /// Notes a change.
    pub fn record(&mut self, entry: StateHistoryEntry)
        ensures
            final(self)@ == remember(old(self)@, entry@),
    {
        proof {
            use_type_invariant(&*self);
        }
        push_overwrite(&mut self.ring, entry);
        assert(self@ =~= remember(old(self)@, entry@));
    }

    /// The changes that are kept, the newest first.
    pub fn newest_first(&self) -> (entries: Vec<StateHistoryEntry>)
        ensures
            entries@.map_values(|entry: StateHistoryEntry| entry@) == self@.reverse(),
            entries@.len() <= HISTORY_CAPACITY,
    {
        proof {
            use_type_invariant(self);
        }
        let items = ring_items(&self.ring);
        let mut entries: Vec<StateHistoryEntry> = Vec::new();
        for i in 0..items.len()
            invariant
                items@.len() == self@.len(),
                forall|k: int| 0 <= k < items@.len() ==> (#[trigger] items@[k])@ == self@[k],
                entries@.len() == i,
                forall|k: int|
                    0 <= k < i ==> (#[trigger] entries@[k])@ == self@[self@.len() - 1 - k],
        {
            entries.push(items[items.len() - 1 - i].clone());
        }
        assert(entries@.map_values(|entry: StateHistoryEntry| entry@) =~= self@.reverse());
        entries
    }
}

} // verus!
