use agenda::event::Event;
use agenda::ledger::EventLog;
use agenda::parse::ParseError;
use agenda::service::{add, delete, list, Change, NotFound, StoreOp, LEDGER_TAG};
use agenda::timestamp::Timestamp;
use std::collections::HashMap;
use std::collections::HashSet;

struct Store {
    records: HashMap<String, Event>,
    ledger: Option<(HashSet<usize>, usize)>,
    commits: usize,
}

impl Store {
    fn new() -> Store {
        Store { records: HashMap::new(), ledger: None, commits: 0 }
    }

    fn load(&self) -> EventLog {
        match &self.ledger {
            Some((events, highest)) => EventLog::restore(events.clone(), *highest),
            None => EventLog::new(),
        }
    }

    fn retrieve(&self, id: usize) -> Option<Event> {
        self.records.get(&Event::get_event_tag(id)).map(|e| e.duplicate())
    }

    fn perform(&mut self, writes: Vec<StoreOp>, ledger: &EventLog) {
        for op in writes {
            match op {
                StoreOp::PutRecord(event) => {
                    self.records.insert(event.get_tag(), event);
                }
                StoreOp::PutLedger => {
                    self.ledger = Some((ledger.get_events().clone(), ledger.highest()));
                }
                StoreOp::DeleteRecord(id) => {
                    self.records.remove(&Event::get_event_tag(id));
                }
                StoreOp::Commit => {
                    self.commits += 1;
                }
            }
        }
    }

    fn add(&mut self, description: &str, deadline: Option<&str>) -> Result<Event, ParseError> {
        let mut ledger = self.load();
        let change = add(&mut ledger, String::from(description), deadline, now())?;
        self.perform(change.writes, &ledger);
        Ok(change.event)
    }

    fn delete(&mut self, id: usize) -> Result<Event, NotFound> {
        let mut ledger = self.load();
        let found = self.retrieve(id);
        let change = delete(&mut ledger, id, found)?;
        self.perform(change.writes, &ledger);
        Ok(change.event)
    }

    fn list(&self, by_deadline: bool) -> Vec<Event> {
        let ledger = self.load();
        let fetched = ledger.live_ids().into_iter().map(|id| self.retrieve(id)).collect();
        list(fetched, by_deadline)
    }

    fn highest(&self) -> usize {
        self.load().highest()
    }
}

fn now() -> Timestamp {
    Timestamp::new(2024, 5, 1, 12, 0, 0, 500).unwrap()
}

fn ids(events: &Vec<Event>) -> Vec<usize> {
    events.iter().map(|e| e.index()).collect()
}

#[test]
fn the_ledger_is_stored_under_log() {
    assert_eq!(LEDGER_TAG, "log");
}

#[test]
fn add_makes_the_event_and_names_the_writes_in_order() {
    let mut ledger = EventLog::new();
    let change = add(&mut ledger, String::from("Buy milk"), Some("5 6 2024"), now()).unwrap();
    let deadline = Timestamp::new(2024, 6, 5, 23, 59, 59, 0).unwrap();
    let expected = Event::new(0, String::from("Buy milk"), now(), Some(deadline));
    assert_eq!(change.event, expected);
    assert_eq!(
        change.writes,
        vec![StoreOp::PutRecord(expected.duplicate()), StoreOp::PutLedger, StoreOp::Commit]
    );
    assert_eq!(ledger.highest(), 1);
    assert!(ledger.get_events().contains(&0));
}

#[test]
fn add_without_deadline_has_none() {
    let mut ledger = EventLog::new();
    let change = add(&mut ledger, String::new(), None, now()).unwrap();
    assert_eq!(change.event, Event::new(0, String::new(), now(), None));
}

#[test]
fn add_takes_the_next_identifier() {
    let events: HashSet<usize> = vec![1, 4].into_iter().collect();
    let mut ledger = EventLog::restore(events, 7);
    let change = add(&mut ledger, String::from("x"), None, now()).unwrap();
    assert_eq!(change.event.index(), 7);
    assert_eq!(ledger.highest(), 8);
    let mut live = ledger.live_ids();
    live.sort();
    assert_eq!(live, vec![1, 4, 7]);
}

#[test]
fn a_bad_deadline_fails_the_addition_and_leaves_the_ledger() {
    let cases = [
        ("5 x 2024", ParseError::InvalidNumber),
        ("5 6", ParseError::MissingDateComponents),
        ("31 2 2024", ParseError::InvalidDate),
        ("5 6 2024 25", ParseError::InvalidTime),
    ];
    for (text, error) in cases {
        let mut ledger = EventLog::new();
        ledger.add_event();
        let result = add(&mut ledger, String::from("x"), Some(text), now());
        assert_eq!(result, Err(error));
        assert_eq!(ledger.highest(), 1);
        assert_eq!(ledger.live_ids(), vec![0]);
    }
}

#[test]
fn delete_gives_the_record_and_names_the_writes_in_order() {
    let mut ledger = EventLog::new();
    let id = ledger.add_event();
    let record = Event::new(id, String::from("x"), now(), None);
    let change = delete(&mut ledger, id, Some(record.duplicate())).unwrap();
    assert_eq!(change, Change {
        event: record,
        writes: vec![StoreOp::DeleteRecord(id), StoreOp::PutLedger, StoreOp::Commit],
    });
    assert!(ledger.get_events().is_empty());
    assert_eq!(ledger.highest(), 1);
}

#[test]
fn delete_without_record_is_not_found_and_still_releases_the_id() {
    let mut ledger = EventLog::new();
    let id = ledger.add_event();
    ledger.add_event();
    assert_eq!(delete(&mut ledger, id, None), Err(NotFound));
    assert_eq!(ledger.live_ids(), vec![1]);
    assert_eq!(ledger.highest(), 2);
}

#[test]
fn delete_of_an_id_that_was_never_made_changes_nothing() {
    let mut store = Store::new();
    store.add("a", None).unwrap();
    store.add("b", Some("1 1 2030")).unwrap();
    let before = store.list(false);
    let commits = store.commits;
    assert_eq!(store.delete(17), Err(NotFound));
    assert_eq!(store.highest(), 2);
    assert_eq!(store.list(false), before);
    assert_eq!(store.records.len(), 2);
    assert_eq!(store.commits, commits);
}

#[test]
fn deleting_twice_is_not_found_the_second_time() {
    let mut store = Store::new();
    store.add("a", None).unwrap();
    assert_eq!(store.delete(0).map(|e| e.index()), Ok(0));
    assert_eq!(store.delete(0), Err(NotFound));
    assert_eq!(store.highest(), 1);
}

#[test]
fn a_deleted_event_is_not_listed() {
    let mut store = Store::new();
    for name in ["a", "b", "c", "d"] {
        store.add(name, None).unwrap();
    }
    store.delete(2).unwrap();
    assert_eq!(ids(&store.list(false)), vec![0, 1, 3]);
    assert_eq!(ids(&store.list(true)), vec![0, 1, 3]);
}

#[test]
fn an_event_whose_record_is_gone_is_not_listed() {
    let mut store = Store::new();
    for name in ["a", "b", "c"] {
        store.add(name, None).unwrap();
    }
    store.records.remove("event_1");
    assert_eq!(ids(&store.list(false)), vec![0, 2]);
    assert_eq!(store.delete(1), Err(NotFound));
    assert_eq!(ids(&store.list(false)), vec![0, 2]);
}

#[test]
fn a_record_that_the_ledger_does_not_name_is_not_listed() {
    let mut store = Store::new();
    store.add("a", None).unwrap();
    store.records.insert(String::from("event_9"), Event::new(9, String::from("stray"), now(), None));
    assert_eq!(ids(&store.list(false)), vec![0]);
}

#[test]
fn an_added_event_is_listed_last() {
    let mut store = Store::new();
    for round in 0..6usize {
        let added = store.add("x", None).unwrap();
        let listing = store.list(false);
        assert_eq!(listing.last(), Some(&added));
        assert_eq!(added.index(), round);
        if round % 2 == 1 {
            store.delete(round - 1).unwrap();
        }
    }
}

#[test]
fn identifiers_rise_across_additions_and_deletions() {
    let mut store = Store::new();
    let mut last: Option<usize> = None;
    for round in 0..12usize {
        let id = store.add("x", None).unwrap().index();
        if let Some(earlier) = last {
            assert!(earlier < id);
        }
        last = Some(id);
        if round % 3 == 0 {
            store.delete(id).unwrap();
        }
        let _ = store.delete(round + 100);
    }
    assert_eq!(last, Some(11));
}

#[test]
fn listing_by_deadline_puts_deadlines_first() {
    let mut store = Store::new();
    store.add("plain one", None).unwrap();
    store.add("dated", Some("1 1 2024")).unwrap();
    store.add("plain two", None).unwrap();
    store.add("sooner", Some("31 12 2023 8")).unwrap();
    assert_eq!(ids(&store.list(true)), vec![3, 1, 0, 2]);
    assert_eq!(ids(&store.list(false)), vec![0, 1, 2, 3]);
}

#[test]
fn list_passes_over_what_was_not_found() {
    let a = Event::new(4, String::from("a"), now(), None);
    let b = Event::new(1, String::from("b"), now(), None);
    let fetched = vec![None, Some(a.duplicate()), None, None, Some(b.duplicate()), None];
    assert_eq!(list(fetched, false), vec![b, a]);
    assert!(list(vec![None, None], true).is_empty());
    assert!(list(Vec::new(), false).is_empty());
}

#[test]
fn list_keeps_the_order_of_lookup_among_equal_deadlines() {
    let same = Timestamp::new(2024, 1, 1, 0, 0, 0, 0);
    let a = Event::new(4, String::from("a"), now(), same);
    let b = Event::new(1, String::from("b"), now(), same);
    assert_eq!(list(vec![Some(a.duplicate()), None, Some(b.duplicate())], true), vec![a, b]);
}
