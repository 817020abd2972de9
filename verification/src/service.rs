//! Adding, deleting and listing events. Each operation works on the ledger in
//! memory and on what was read from the store, and says which writes have to
//! follow, in which order.

use crate::event::{event_tag, moment_of, Event, EventView};
use crate::ledger::{EventLog, LedgerState};
use crate::order::{is_listing, sort_events, views};
use crate::parse::{date_of, parse_date, ParseError};
use crate::timestamp::{Moment, Timestamp};
use vstd::prelude::*;

verus! {

broadcast use vstd::seq_lib::group_to_multiset_ensures;

/// The key under which the ledger is stored.
pub const LEDGER_TAG: &'static str = "log";

/// No event is stored under the key of the ledger.
pub proof fn lemma_ledger_tag_is_no_event_tag(index: nat)
    ensures
        event_tag(index) != LEDGER_TAG@,
{
    reveal_strlit("log");
    reveal_strlit("event_");
    assert(event_tag(index).len() >= 6);
}

/// One write to the store.
#[derive(Debug, PartialEq, Eq)]
pub enum StoreOp {
    /// Store the event under its key, in place of what was there.
    PutRecord(Event),
    /// Store the ledger, as it is in memory, under `LEDGER_TAG`.
    PutLedger,
    /// Remove the key of the event with this identifier.
    DeleteRecord(usize),
    /// Make everything written so far durable.
    Commit,
}

/// One write to the store, as mathematics.
pub enum Write {
    PutRecord(EventView),
    PutLedger,
    DeleteRecord(nat),
    Commit,
}

impl View for StoreOp {
    type V = Write;

    open spec fn view(&self) -> Write {
        match self {
            StoreOp::PutRecord(event) => Write::PutRecord(event@),
            StoreOp::PutLedger => Write::PutLedger,
            StoreOp::DeleteRecord(id) => Write::DeleteRecord(*id as nat),
            StoreOp::Commit => Write::Commit,
        }
    }
}

/// A sequence of writes, as mathematics.
pub open spec fn writes_of(ops: Seq<StoreOp>) -> Seq<Write> {
    Seq::new(ops.len(), |k: int| ops[k]@)
}

/// What follows an addition: first the record, then the ledger, then the
/// commit. A ledger that is found in the store therefore never names an
/// event whose record is not there yet.
pub open spec fn add_writes(event: EventView) -> Seq<Write> {
    seq![Write::PutRecord(event), Write::PutLedger, Write::Commit]
}

/// What follows a deletion: the record goes, then the ledger is stored, then
/// the commit.
pub open spec fn delete_writes(id: nat) -> Seq<Write> {
    seq![Write::DeleteRecord(id), Write::PutLedger, Write::Commit]
}

/// The event that an operation made or removed, and the writes that have to
/// follow, in order.
#[derive(Debug, PartialEq, Eq)]
pub struct Change {
    pub event: Event,
    pub writes: Vec<StoreOp>,
}

/// The store holds no record of the event.
#[derive(Clone, Copy, Debug, PartialEq, Eq, Structural)]
pub struct NotFound;

/// An optional text as its characters.
pub open spec fn text_of(text: Option<&str>) -> Option<Seq<char>> {
    match text {
        Some(text) => Some(text@),
        None => None,
    }
}

/// The deadline that was asked for: none where no text was given, else what
/// the text names.
pub open spec fn wanted_deadline(text: Option<Seq<char>>) -> Result<Option<Moment>, ParseError> {
    match text {
        None => Ok(None),
        Some(text) => match date_of(text) {
            Ok(moment) => Ok(Some(moment)),
            Err(e) => Err(e),
        },
    }
}

/// The records that were found, in the order in which they were looked up.
pub open spec fn found_events(fetched: Seq<Option<EventView>>) -> Seq<EventView>
    decreases fetched.len(),
{
    if fetched.len() == 0 {
        Seq::empty()
    } else {
        match fetched.last() {
            Some(event) => found_events(fetched.drop_last()).push(event),
            None => found_events(fetched.drop_last()),
        }
    }
}

/// What was fetched, as mathematics.
pub open spec fn fetched_views(fetched: Seq<Option<Event>>) -> Seq<Option<EventView>> {
    Seq::new(
        fetched.len(),
        |k: int|
            match fetched[k] {
                Some(event) => Some(event@),
                None => None,
            },
    )
}

/// Adds an event. A deadline that cannot be read fails the addition before
/// the ledger is touched. Otherwise the event gets the next identifier, and
/// its record, the ledger and the commit have to be written, in that order.
/// The counter must have room for one more identifier then.
pub fn add(ledger: &mut EventLog, description: String, deadline: Option<&str>, now: Timestamp) -> (r:
    Result<Change, ParseError>)
    requires
        wanted_deadline(text_of(deadline)) is Ok ==> old(ledger)@.highest < usize::MAX,
    ensures
        match wanted_deadline(text_of(deadline)) {
            Err(e) => r matches Err(error) && error == e && final(ledger)@ == old(ledger)@,
            Ok(moment) => {
                &&& r matches Ok(change)
                &&& change.event@ == (EventView {
                    index: old(ledger)@.next_id(),
                    created: now@,
                    description: description@,
                    deadline: moment,
                })
                &&& writes_of(change.writes@) == add_writes(change.event@)
                &&& final(ledger)@ == old(ledger)@.allocate()
            },
        },
        old(ledger)@.wf() ==> final(ledger)@.wf(),
{
    let deadline = match deadline {
        None => None,
        Some(text) => match parse_date(text) {
            Ok(t) => Some(t),
            Err(e) => {
                return Err(e);
            },
        },
    };
    let id = ledger.add_event();
    let event = Event::new(id, description, now, deadline);
    let mut writes: Vec<StoreOp> = Vec::new();
    writes.push(StoreOp::PutRecord(event.duplicate()));
    writes.push(StoreOp::PutLedger);
    writes.push(StoreOp::Commit);
    assert(writes_of(writes@) =~= add_writes(event@));
    Ok(Change { event, writes })
}

/// Deletes the event `id`. The identifier leaves the ledger in memory
/// whether or not a record was found. Where none was, the deletion fails and
/// nothing is to be written; where one was, its key has to be removed, then
/// the ledger stored, then the commit made.
pub fn delete(ledger: &mut EventLog, id: usize, found: Option<Event>) -> (r: Result<
    Change,
    NotFound,
>)
    ensures
        final(ledger)@ == old(ledger)@.release(id as nat),
        old(ledger)@.wf() ==> final(ledger)@.wf(),
        match found {
            None => r is Err,
            Some(record) => {
                &&& r matches Ok(change)
                &&& change.event@ == record@
                &&& writes_of(change.writes@) == delete_writes(id as nat)
            },
        },
{
    ledger.remove_event(id);
    match found {
        None => Err(NotFound),
        Some(event) => {
            let mut writes: Vec<StoreOp> = Vec::new();
            writes.push(StoreOp::DeleteRecord(id));
            writes.push(StoreOp::PutLedger);
            writes.push(StoreOp::Commit);
            assert(writes_of(writes@) =~= delete_writes(id as nat));
            Ok(Change { event, writes })
        },
    }
}

/// Lists what was fetched for the live identifiers: the records that were
/// found, by identifier or by deadline. An identifier without a record is
/// passed over.
pub fn list(fetched: Vec<Option<Event>>, by_deadline: bool) -> (listing: Vec<Event>)
    ensures
        is_listing(found_events(fetched_views(fetched@)), views(listing@), by_deadline),
{
    let ghost all = fetched_views(fetched@);
    let mut found: Vec<Event> = Vec::new();
    assert(all.take(0) =~= Seq::<Option<EventView>>::empty());
    assert(views(found@) =~= Seq::<EventView>::empty());
    for entry in it: fetched
        invariant
            it.seq() == fetched@,
            all == fetched_views(fetched@),
            views(found@) == found_events(all.take(it.index())),
    {
        let ghost done = it.index();
        let ghost before = views(found@);
        assert(all.take(done + 1).drop_last() =~= all.take(done));
        assert(all.take(done + 1).last() == all[done]);
        match entry {
            Some(event) => {
                found.push(event);
                assert(views(found@) =~= before.push(event@));
            },
            None => {},
        }
    }
    assert(all.take(all.len() as int) =~= all);
    sort_events(found, by_deadline)
}

/// The store as the operations see it: the ledger that a load gives, and the
/// records by identifier.
pub struct Store {
    pub ledger: LedgerState,
    pub records: Map<nat, EventView>,
}

impl Store {
    /// Every record is stored under its own identifier.
    pub open spec fn wf(self) -> bool {
        forall|id: nat| self.records.contains_key(id) ==> (#[trigger] self.records[id]).index == id
    }

    /// Every record belongs to an identifier that was allocated.
    pub open spec fn is_tracked(self) -> bool {
        forall|id: nat| #[trigger] self.records.contains_key(id) ==> id < self.ledger.highest
    }

    /// The store after one write, made while the ledger in memory is
    /// `ledger`.
    pub open spec fn write(self, op: Write, ledger: LedgerState) -> Store {
        match op {
            Write::PutRecord(event) => Store {
                records: self.records.insert(event.index, event),
                ..self
            },
            Write::PutLedger => Store { ledger: ledger, ..self },
            Write::DeleteRecord(id) => Store { records: self.records.remove(id), ..self },
            Write::Commit => self,
        }
    }

    /// The store after the writes `ops`, made in order.
    pub open spec fn write_all(self, ops: Seq<Write>, ledger: LedgerState) -> Store
        decreases ops.len(),
    {
        if ops.len() == 0 {
            self
        } else {
            self.write_all(ops.drop_last(), ledger).write(ops.last(), ledger)
        }
    }

    /// The store after `event` was added and its writes were made.
    pub open spec fn after_add(self, event: EventView) -> Store {
        self.write_all(add_writes(event), self.ledger.allocate())
    }

    /// The store after the deletion of `id`: where its record is found, the
    /// writes of the deletion are made; where not, there are none.
    pub open spec fn after_delete(self, id: nat) -> Store {
        if self.records.contains_key(id) {
            self.write_all(delete_writes(id), self.ledger.release(id))
        } else {
            self
        }
    }

    /// What looking up `ids` gives, one by one.
    pub open spec fn fetch(self, ids: Seq<nat>) -> Seq<Option<EventView>> {
        Seq::new(
            ids.len(),
            |k: int|
                if self.records.contains_key(ids[k]) {
                    Some(self.records[ids[k]])
                } else {
                    None
                },
        )
    }

    /// `ids` names the live identifiers, each once.
    pub open spec fn looks_up(self, ids: Seq<nat>) -> bool {
        &&& ids.no_duplicates()
        &&& forall|id: nat| ids.contains(id) <==> self.ledger.events.contains(id)
    }

    /// `listing` is what a listing of this store can show: the records found
    /// for the live identifiers, looked up in some order and then sorted.
    pub open spec fn shows(self, listing: Seq<EventView>, by_deadline: bool) -> bool {
        exists|ids: Seq<nat>|
            self.looks_up(ids) && #[trigger] is_listing(
                found_events(self.fetch(ids)),
                listing,
                by_deadline,
            )
    }
}

/// Three writes in a row.
pub proof fn lemma_three_writes(store: Store, a: Write, b: Write, c: Write, ledger: LedgerState)
    ensures
        store.write_all(seq![a, b, c], ledger) == store.write(a, ledger).write(b, ledger).write(
            c,
            ledger,
        ),
{
    let all = seq![a, b, c];
    let two = seq![a, b];
    let one = seq![a];
    assert(all.drop_last() =~= two);
    assert(two.drop_last() =~= one);
    assert(one.drop_last() =~= Seq::<Write>::empty());
    assert(store.write_all(Seq::<Write>::empty(), ledger) == store);
    assert(store.write_all(one, ledger) == store.write(a, ledger));
    assert(store.write_all(two, ledger) == store.write(a, ledger).write(b, ledger));
}

/// The events that were found are the ones that stand in what was fetched.
pub proof fn lemma_found_events(fetched: Seq<Option<EventView>>)
    ensures
        forall|event: EventView|
            found_events(fetched).contains(event) <==> fetched.contains(Some(event)),
    decreases fetched.len(),
{
    if fetched.len() > 0 {
        let rest = fetched.drop_last();
        lemma_found_events(rest);
        assert forall|event: EventView| found_events(fetched).contains(event) implies fetched.contains(
            Some(event),
        ) by {
            let k = choose|k: int|
                0 <= k < found_events(fetched).len() && found_events(fetched)[k] == event;
            if fetched.last() == Some(event) {
                assert(fetched[fetched.len() - 1] == Some(event));
            } else {
                assert(found_events(rest).contains(event)) by {
                    if fetched.last() is Some {
                        assert(k < found_events(rest).len());
                        assert(found_events(rest)[k] == event);
                    }
                }
                let j = choose|j: int| 0 <= j < rest.len() && rest[j] == Some(event);
                assert(fetched[j] == Some(event));
            }
        }
        assert forall|event: EventView| fetched.contains(Some(event)) implies found_events(
            fetched,
        ).contains(event) by {
            let j = choose|j: int| 0 <= j < fetched.len() && fetched[j] == Some(event);
            if j == fetched.len() - 1 {
                let all = found_events(fetched);
                assert(all[all.len() - 1] == event);
            } else {
                assert(rest[j] == Some(event));
                assert(found_events(rest).contains(event));
                let k = choose|k: int|
                    0 <= k < found_events(rest).len() && found_events(rest)[k] == event;
                assert(found_events(fetched)[k] == event);
            }
        }
    }
}

/// Every event that a listing shows is the record of a live identifier, and
/// the record of every live identifier is shown.
pub proof fn lemma_shown(store: Store, listing: Seq<EventView>, by_deadline: bool)
    requires
        store.shows(listing, by_deadline),
    ensures
        forall|event: EventView|
            listing.contains(event) <==> exists|id: nat|
                store.ledger.events.contains(id) && store.records.contains_key(id)
                    && #[trigger] store.records[id] == event,
{
    let ids = choose|ids: Seq<nat>|
        store.looks_up(ids) && #[trigger] is_listing(
            found_events(store.fetch(ids)),
            listing,
            by_deadline,
        );
    let fetched = store.fetch(ids);
    let given = found_events(fetched);
    lemma_found_events(fetched);
    assert forall|event: EventView| listing.contains(event) implies exists|id: nat|
        store.ledger.events.contains(id) && store.records.contains_key(id)
            && #[trigger] store.records[id] == event by {
        assert(listing.to_multiset().count(event) > 0);
        assert(given.contains(event));
        let k = choose|k: int| 0 <= k < fetched.len() && fetched[k] == Some(event);
        assert(ids.contains(ids[k]));
        assert(store.records[ids[k]] == event);
    }
    assert forall|event: EventView|
        (exists|id: nat|
            store.ledger.events.contains(id) && store.records.contains_key(id)
                && #[trigger] store.records[id] == event) implies listing.contains(event) by {
        let id = choose|id: nat|
            store.ledger.events.contains(id) && store.records.contains_key(id)
                && #[trigger] store.records[id] == event;
        assert(ids.contains(id));
        let k = choose|k: int| 0 <= k < ids.len() && ids[k] == id;
        assert(fetched[k] == Some(event));
        assert(given.contains(event));
        assert(given.to_multiset().count(event) > 0);
    }
}

/// Once an event was deleted, no listing shows it: whether its record was
/// found or not, the store holds none afterwards.
pub proof fn lemma_deleted_is_not_listed(
    store: Store,
    id: nat,
    listing: Seq<EventView>,
    by_deadline: bool,
)
    requires
        store.wf(),
        store.after_delete(id).shows(listing, by_deadline),
    ensures
        forall|k: int| 0 <= k < listing.len() ==> (#[trigger] listing[k]).index != id,
{
    let after = store.after_delete(id);
    lemma_three_writes(
        store,
        Write::DeleteRecord(id),
        Write::PutLedger,
        Write::Commit,
        store.ledger.release(id),
    );
    assert(!after.records.contains_key(id));
    assert(after.wf());
    lemma_shown(after, listing, by_deadline);
    assert forall|k: int| 0 <= k < listing.len() implies (#[trigger] listing[k]).index != id by {
        assert(listing.contains(listing[k]));
    }
}

/// An event that was just added stands last in the listing by identifier.
pub proof fn lemma_added_is_listed_last(store: Store, event: EventView, listing: Seq<EventView>)
    requires
        store.wf(),
        store.ledger.wf(),
        event.index == store.ledger.next_id(),
        store.after_add(event).shows(listing, false),
    ensures
        listing.len() > 0,
        listing.last() == event,
{
    let after = store.after_add(event);
    lemma_three_writes(
        store,
        Write::PutRecord(event),
        Write::PutLedger,
        Write::Commit,
        store.ledger.allocate(),
    );
    assert(after.records[event.index] == event);
    assert(after.ledger.events.contains(event.index));
    assert(after.wf());
    lemma_shown(after, listing, false);
    assert(listing.contains(event));
    let at = choose|at: int| 0 <= at < listing.len() && listing[at] == event;
    let last = listing.last();
    assert(listing.contains(last));
    let id = choose|id: nat|
        after.ledger.events.contains(id) && after.records.contains_key(id)
            && #[trigger] after.records[id] == last;
    if at < listing.len() - 1 {
        assert(!crate::order::comes_before(listing[listing.len() - 1], listing[at], false));
    }
}

/// Deleting an identifier that was never allocated finds no record and
/// changes nothing: not the counter, not the live identifiers, no record.
pub proof fn lemma_unknown_id_changes_nothing(store: Store, id: nat)
    requires
        store.is_tracked(),
        id >= store.ledger.highest,
    ensures
        !store.records.contains_key(id),
        store.after_delete(id) == store,
{
}

} // verus!
