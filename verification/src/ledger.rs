//! The ledger of live event identifiers and the counter that allocates them.

use std::collections::HashSet;
use vstd::prelude::*;
use vstd::std_specs::iter::IteratorSpec;

verus! {

broadcast use vstd::std_specs::hash::group_hash_axioms;

/// What a ledger holds, as mathematics: the identifiers that are live and the
/// identifier that the next allocation hands out.
pub struct LedgerState {
    pub events: Set<nat>,
    pub highest: nat,
}

impl LedgerState {
    /// The ledger before anything was allocated.
    pub open spec fn empty() -> LedgerState {
        LedgerState { events: Set::empty(), highest: 0 }
    }

    /// Every live identifier was handed out by the counter at some point, so it
    /// lies below the counter.
    pub open spec fn wf(self) -> bool {
        forall|id: nat| self.events.contains(id) ==> id < self.highest
    }

    /// The identifier that the next allocation returns.
    pub open spec fn next_id(self) -> nat {
        self.highest
    }

    /// The ledger after one allocation: the counter's value becomes live and
    /// the counter moves on by one.
    pub open spec fn allocate(self) -> LedgerState {
        LedgerState { events: self.events.insert(self.highest), highest: self.highest + 1 }
    }

    /// The ledger after `id` was released: it is no longer live, and the
    /// counter stays where it was.
    pub open spec fn release(self, id: nat) -> LedgerState {
        LedgerState { events: self.events.remove(id), highest: self.highest }
    }
}

/// One step in the life of a ledger.
pub enum LedgerOp {
    /// An identifier is allocated.
    Allocate,
    /// The identifier is released.
    Release(nat),
}

/// The ledger after the steps `ops`, taken in order from `start`.
pub open spec fn run(start: LedgerState, ops: Seq<LedgerOp>) -> LedgerState
    decreases ops.len(),
{
    if ops.len() == 0 {
        start
    } else {
        let before = run(start, ops.drop_last());
        match ops.last() {
            LedgerOp::Allocate => before.allocate(),
            LedgerOp::Release(id) => before.release(id),
        }
    }
}

/// The identifiers that the allocations among `ops` return, in order.
pub open spec fn allocated(start: LedgerState, ops: Seq<LedgerOp>) -> Seq<nat>
    decreases ops.len(),
{
    if ops.len() == 0 {
        Seq::empty()
    } else {
        let earlier = allocated(start, ops.drop_last());
        match ops.last() {
            LedgerOp::Allocate => earlier.push(run(start, ops.drop_last()).next_id()),
            LedgerOp::Release(_) => earlier,
        }
    }
}

/// Whatever is allocated and released, and in whatever order: the identifiers
/// that come out count up from the counter's first value, so each is larger
/// than all before it and none comes twice. A ledger that was well formed
/// stays so.
pub proof fn lemma_allocated_ids_increase(start: LedgerState, ops: Seq<LedgerOp>)
    ensures
        run(start, ops).highest == start.highest + allocated(start, ops).len(),
        forall|i: int|
            0 <= i < allocated(start, ops).len() ==> #[trigger] allocated(start, ops)[i]
                == start.highest + i,
        forall|i: int, j: int|
            0 <= i < j < allocated(start, ops).len() ==> allocated(start, ops)[i] < allocated(
                start,
                ops,
            )[j],
        start.wf() ==> run(start, ops).wf(),
    decreases ops.len(),
{
    if ops.len() > 0 {
        lemma_allocated_ids_increase(start, ops.drop_last());
    }
}

/// The set of live identifiers as natural numbers.
pub open spec fn ids_of(set: Set<usize>) -> Set<nat> {
    Set::new(|id: nat| id <= usize::MAX && set.contains(id as usize))
}

/// The index of live events, persisted between invocations as one snapshot.
pub struct EventLog {
    events: HashSet<usize>,
    highest: usize,
}

impl View for EventLog {
    type V = LedgerState;

    closed spec fn view(&self) -> LedgerState {
        LedgerState { events: ids_of(self.events@), highest: self.highest as nat }
    }
}

impl EventLog {
    /// A ledger with no live events whose first identifier is 0.
    pub fn new() -> (log: EventLog)
        ensures
            log@ == LedgerState::empty(),
            log@.wf(),
    {
        let log = EventLog { events: HashSet::new(), highest: 0 };
        assert(log@.events =~= Set::<nat>::empty());
        log
    }

    /// The ledger that holds the given live identifiers and counter, as a
    /// snapshot read back from storage gives them. It is well formed if the
    /// snapshot was.
    pub fn restore(events: HashSet<usize>, highest: usize) -> (log: EventLog)
        ensures
            log@ == (LedgerState { events: ids_of(events@), highest: highest as nat }),
    {
        EventLog { events, highest }
    }

    /// The live identifiers.
    pub fn get_events(&self) -> (events: &HashSet<usize>)
        ensures
            ids_of(events@) == self@.events,
    {
        &self.events
    }

    /// The identifier that the next allocation returns.
    pub fn highest(&self) -> (highest: usize)
        ensures
            highest == self@.highest,
    {
        self.highest
    }

    /// The live identifiers, each once, in no particular order.
    pub fn live_ids(&self) -> (ids: Vec<usize>)
        ensures
            ids@.no_duplicates(),
            forall|id: usize| ids@.contains(id) <==> self@.events.contains(id as nat),
    {
        let mut ids: Vec<usize> = Vec::new();
        let ghost all = self.events.iter().remaining().unref();
        for id in it: self.events.iter()
            invariant
                it.seq().unref() == all,
                all.no_duplicates(),
                all.to_set() == self.events@,
                ids@ == all.take(it.index()),
        {
            ids.push(*id);
            assert(ids@ =~= all.take(it.index() + 1));
        }
        proof {
            assert(ids@ =~= all);
            assert forall|id: usize| ids@.contains(id) <==> self@.events.contains(id as nat) by {
                assert(all.to_set().contains(id) <==> all.contains(id));
            }
        }
        ids
    }

    /// Allocates the next identifier and marks it live.
    pub fn add_event(&mut self) -> (id: usize)
        requires
            old(self)@.highest < usize::MAX,
        ensures
            id == old(self)@.next_id(),
            final(self)@ == old(self)@.allocate(),
            old(self)@.wf() ==> final(self)@.wf() && !old(self)@.events.contains(id as nat),
    {
        self.events.insert(self.highest);
        let res = self.highest;
        self.highest += 1;
        assert(self@.events =~= old(self)@.events.insert(res as nat));
        res
    }

    /// Removes `event` from the live identifiers and tells whether it was live.
    /// The counter is left alone, so a released identifier is never handed out
    /// again.
    pub fn remove_event(&mut self, event: usize) -> (was_live: bool)
        ensures
            was_live == old(self)@.events.contains(event as nat),
            final(self)@ == old(self)@.release(event as nat),
            old(self)@.wf() ==> final(self)@.wf(),
    {
        let was_live = self.events.remove(&event);
        assert(self@.events =~= old(self)@.events.remove(event as nat));
        was_live
    }
}

} // verus!
