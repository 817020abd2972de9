//! The two orders in which events are listed, and the sort that puts them
//! into either.

use crate::event::{Event, EventView};
use vstd::prelude::*;

verus! {

broadcast use vstd::seq_lib::group_to_multiset_ensures;

/// Whether `a` has to stand before `b` in a listing.
///
/// By identifier, the smaller identifier comes first. By deadline, an event
/// with a deadline comes before every event without one; two deadlines are
/// in chronological order; two events without a deadline are ordered by
/// identifier.
pub open spec fn comes_before(a: EventView, b: EventView, by_deadline: bool) -> bool {
    if by_deadline {
        match (a.deadline, b.deadline) {
            (Some(x), Some(y)) => x.precedes(y),
            (Some(_), None) => true,
            (None, Some(_)) => false,
            (None, None) => a.index < b.index,
        }
    } else {
        a.index < b.index
    }
}

/// No event of the listing stands behind one that it has to stand before.
pub open spec fn is_ordered(listing: Seq<EventView>, by_deadline: bool) -> bool {
    forall|i: int, j: int|
        0 <= i < j < listing.len() ==> !comes_before(#[trigger] listing[j], #[trigger] listing[i], by_deadline)
}

/// `source` says for each place of `listing` which entry of `given` stands
/// there: every entry of `given` stands at one place, the listing is ordered,
/// and entries that the order does not tell apart keep the order in which
/// they were given.
pub open spec fn arranges(
    source: Seq<int>,
    given: Seq<EventView>,
    listing: Seq<EventView>,
    by_deadline: bool,
) -> bool {
    &&& source.len() == given.len()
    &&& listing.len() == given.len()
    &&& forall|k: int|
        0 <= k < source.len() ==> 0 <= #[trigger] source[k] < given.len() && listing[k]
            == given[source[k]]
    &&& forall|i: int, j: int|
        0 <= i < j < source.len() ==> #[trigger] source[i] != #[trigger] source[j]
    &&& forall|i: int, j: int|
        #![trigger listing[i], listing[j]]
        0 <= i < j < source.len() ==> !comes_before(listing[j], listing[i], by_deadline) && (
        comes_before(listing[i], listing[j], by_deadline) || source[i] < source[j])
}

/// The listing is the stable sort of what was given.
pub open spec fn is_stable_sort(
    given: Seq<EventView>,
    listing: Seq<EventView>,
    by_deadline: bool,
) -> bool {
    exists|source: Seq<int>| arranges(source, given, listing, by_deadline)
}

/// `listing` lists what was `given`: it holds the same events as often, it is
/// ordered, and it is the stable sort of what was given.
pub open spec fn is_listing(
    given: Seq<EventView>,
    listing: Seq<EventView>,
    by_deadline: bool,
) -> bool {
    &&& listing.to_multiset() == given.to_multiset()
    &&& is_ordered(listing, by_deadline)
    &&& is_stable_sort(given, listing, by_deadline)
}

/// The events of a sequence as what they hold.
pub open spec fn views(events: Seq<Event>) -> Seq<EventView> {
    Seq::new(events.len(), |k: int| events[k]@)
}

/// Either order is asymmetric, and what is not before an event and not
/// behind it shares its place with it: if `a` comes before `b`, then every
/// `c` comes behind `a` or before `b`.
pub proof fn lemma_order(a: EventView, b: EventView, c: EventView, by_deadline: bool)
    ensures
        !comes_before(a, a, by_deadline),
        comes_before(a, b, by_deadline) ==> !comes_before(b, a, by_deadline),
        comes_before(a, b, by_deadline) ==> comes_before(a, c, by_deadline) || comes_before(
            c,
            b,
            by_deadline,
        ),
{
}

/// In a listing by deadline every event with a deadline stands before every
/// event without one, and the events without a deadline stand in the order of
/// their identifiers.
pub proof fn lemma_deadlines_first(listing: Seq<EventView>)
    requires
        is_ordered(listing, true),
    ensures
        forall|i: int, j: int|
            0 <= i < listing.len() && 0 <= j < listing.len() && (#[trigger] listing[i]).deadline
                is Some && (#[trigger] listing[j]).deadline is None ==> i < j,
        forall|i: int, j: int|
            0 <= i < j < listing.len() && (#[trigger] listing[i]).deadline is None && (
            #[trigger] listing[j]).deadline is None ==> listing[i].index <= listing[j].index,
{
}

/// In a listing by identifier the identifiers never fall.
pub proof fn lemma_identifiers_rise(listing: Seq<EventView>)
    requires
        is_ordered(listing, false),
    ensures
        forall|i: int, j: int|
            0 <= i < j < listing.len() ==> (#[trigger] listing[i]).index <= (
            #[trigger] listing[j]).index,
{
}

/// Whether `a` has to stand before `b`.
pub fn goes_before(a: &Event, b: &Event, by_deadline: bool) -> (before: bool)
    ensures
        before == comes_before(a@, b@, by_deadline),
{
    if by_deadline {
        match (a.deadline(), b.deadline()) {
            (Some(x), Some(y)) => x.is_before(&y),
            (Some(_), None) => true,
            (None, Some(_)) => false,
            (None, None) => a.index() < b.index(),
        }
    } else {
        a.index() < b.index()
    }
}

/// Sorts events by identifier or by deadline. Events that the order does not
/// tell apart stay in the order in which they were given.
pub fn sort_events(events: Vec<Event>, by_deadline: bool) -> (sorted: Vec<Event>)
    ensures
        is_listing(views(events@), views(sorted@), by_deadline),
{
    let ghost given = views(events@);
    let mut sorted: Vec<Event> = Vec::new();
    let ghost mut source: Seq<int> = Seq::empty();
    assert(given.take(0) =~= Seq::<EventView>::empty());
    assert(views(sorted@) =~= Seq::<EventView>::empty());
    for event in it: events
        invariant
            it.seq() == events@,
            given == views(events@),
            arranges(source, given.take(it.index()), views(sorted@), by_deadline),
            views(sorted@).to_multiset() == given.take(it.index()).to_multiset(),
    {
        let ghost done = it.index();
        let ghost before = views(sorted@);
        let ghost old_source = source;
        assert(event@ == given[done]);
        let mut at: usize = sorted.len();
        while at > 0 && goes_before(&event, &sorted[at - 1], by_deadline)
            invariant
                at <= sorted.len(),
                before == views(sorted@),
                forall|k: int|
                    at <= k < before.len() ==> comes_before(event@, #[trigger] before[k], by_deadline),
            decreases at,
        {
            at -= 1;
        }
        proof {
            assert forall|k: int| 0 <= k < at implies !comes_before(
                event@,
                #[trigger] before[k],
                by_deadline,
            ) by {
                let last = at - 1;
                assert(!comes_before(event@, before[last], by_deadline));
                if k < last {
                    assert(before[k] == given.take(done)[old_source[k]]);
                    assert(before[last] == given.take(done)[old_source[last]]);
                    assert(!comes_before(before[last], before[k], by_deadline));
                    lemma_order(event@, before[k], before[last], by_deadline);
                }
            }
        }
        sorted.insert(at, event);
        proof {
            source = old_source.insert(at as int, done);
            let after = views(sorted@);
            let more = given.take(done + 1);
            assert(after =~= before.insert(at as int, given[done]));
            assert(more =~= given.take(done).push(given[done]));
            assert forall|k: int| 0 <= k < source.len() implies 0 <= #[trigger] source[k]
                < more.len() && after[k] == more[source[k]] by {
                if k < at {
                    assert(source[k] == old_source[k]);
                } else if k > at {
                    assert(source[k] == old_source[k - 1]);
                }
            }
            assert forall|i: int, j: int| 0 <= i < j < source.len() implies #[trigger] source[i]
                != #[trigger] source[j] by {
                let oi = if i < at { i } else { i - 1 };
                let oj = if j < at { j } else { j - 1 };
                if i != at && j != at {
                    assert(source[i] == old_source[oi]);
                    assert(source[j] == old_source[oj]);
                } else if i == at {
                    assert(source[j] == old_source[oj]);
                } else {
                    assert(source[i] == old_source[oi]);
                }
            }
            assert forall|i: int, j: int|
                #![trigger after[i], after[j]]
                0 <= i < j < source.len() implies !comes_before(after[j], after[i], by_deadline)
                && (comes_before(after[i], after[j], by_deadline) || source[i] < source[j]) by {
                let oi = if i < at { i } else { i - 1 };
                let oj = if j < at { j } else { j - 1 };
                if i != at && j != at {
                    assert(source[i] == old_source[oi]);
                    assert(source[j] == old_source[oj]);
                    assert(after[i] == before[oi]);
                    assert(after[j] == before[oj]);
                } else if i == at {
                    assert(after[j] == before[oj]);
                    assert(comes_before(event@, before[oj], by_deadline));
                    lemma_order(event@, before[oj], event@, by_deadline);
                } else {
                    assert(source[i] == old_source[oi]);
                    assert(after[i] == before[oi]);
                    assert(!comes_before(event@, before[oi], by_deadline));
                }
            }
            assert(arranges(source, more, after, by_deadline));
        }
    }
    proof {
        assert(given.take(given.len() as int) =~= given);
        let listing = views(sorted@);
        assert forall|i: int, j: int| 0 <= i < j < listing.len() implies !comes_before(
            #[trigger] listing[j],
            #[trigger] listing[i],
            by_deadline,
        ) by {
        }
    }
    sorted
}

} // verus!
