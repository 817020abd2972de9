//! One agenda entry, the key it is stored under and the texts that show it.

use crate::text::{decimal, decimal_text, lemma_decimal_differs};
use crate::timestamp::{rfc2822, rfc2822_text, utc_display, utc_text, Moment, Timestamp};
use vstd::prelude::*;

verus! {

/// What an event holds, as mathematics.
pub struct EventView {
    pub index: nat,
    pub created: Moment,
    pub description: Seq<char>,
    pub deadline: Option<Moment>,
}

/// An optional timestamp as the moment it stands for.
pub open spec fn moment_of(t: Option<Timestamp>) -> Option<Moment> {
    match t {
        Some(t) => Some(t@),
        None => None,
    }
}

/// The key under which the event with identifier `index` is stored: `event_`
/// and the identifier in decimal.
pub open spec fn event_tag(index: nat) -> Seq<char> {
    "event_"@ + decimal_text(index)
}

/// Different events are stored under different keys.
pub proof fn lemma_tags_differ(a: nat, b: nat)
    requires
        a != b,
    ensures
        event_tag(a) != event_tag(b),
{
    lemma_decimal_differs(a, b);
    let prefix = "event_"@;
    assert(event_tag(a).skip(prefix.len() as int) =~= decimal_text(a));
    assert(event_tag(b).skip(prefix.len() as int) =~= decimal_text(b));
}

/// How a deadline is shown: in the form of RFC 2822, or as `Unspecified` where
/// there is none.
pub open spec fn deadline_text(deadline: Option<Moment>) -> Seq<char> {
    match deadline {
        Some(moment) => rfc2822_text(moment),
        None => "Unspecified"@,
    }
}

/// Whether a deadline can be shown: RFC 2822 has four digits for the year.
pub open spec fn is_showable(deadline: Option<Moment>) -> bool {
    deadline matches Some(moment) ==> 0 <= moment.year <= 9999
}

/// The one-line form of an event.
pub open spec fn short_text(index: nat, description: Seq<char>, deadline: Seq<char>) -> Seq<char> {
    "Event "@ + decimal_text(index) + ": "@ + description + " (by "@ + deadline + ")"@
}

/// The full form of an event, on three lines.
pub open spec fn full_text(
    index: nat,
    created: Seq<char>,
    description: Seq<char>,
    deadline: Seq<char>,
) -> Seq<char> {
    "Event "@ + decimal_text(index) + " (from "@ + created + "):\n\t"@ + description
        + "\n\tDeadline: "@ + deadline
}

/// An agenda entry. Nothing of it changes once it is made.
#[derive(Clone, Debug, PartialEq, Eq)]
pub struct Event {
    index: usize,
    created: Timestamp,
    description: String,
    deadline: Option<Timestamp>,
}

impl View for Event {
    type V = EventView;

    closed spec fn view(&self) -> EventView {
        EventView {
            index: self.index as nat,
            created: self.created@,
            description: self.description@,
            deadline: moment_of(self.deadline),
        }
    }
}

/// Shows a deadline, or says that there is none.
pub fn write_datetime(datetime: Option<Timestamp>) -> (text: String)
    requires
        is_showable(moment_of(datetime)),
    ensures
        text@ == deadline_text(moment_of(datetime)),
{
    match datetime {
        Some(t) => {
            proof {
                use_type_invariant(&t);
            }
            rfc2822(&t)
        },
        None => String::from_str("Unspecified"),
    }
}

/// Puts the one-line form of an event together from its parts.
pub fn compose_short(index: usize, description: &str, deadline: &str) -> (text: String)
    ensures
        text@ == short_text(index as nat, description@, deadline@),
{
    let mut text = String::from_str("Event ");
    let number = decimal(index);
    text.append(number.as_str());
    text.append(": ");
    text.append(description);
    text.append(" (by ");
    text.append(deadline);
    text.append(")");
    text
}

/// Puts the full form of an event together from its parts.
pub fn compose_full(index: usize, created: &str, description: &str, deadline: &str) -> (text:
    String)
    ensures
        text@ == full_text(index as nat, created@, description@, deadline@),
{
    let mut text = String::from_str("Event ");
    let number = decimal(index);
    text.append(number.as_str());
    text.append(" (from ");
    text.append(created);
    text.append("):\n\t");
    text.append(description);
    text.append("\n\tDeadline: ");
    text.append(deadline);
    text
}

impl Event {
    /// The event with the given fields.
    pub fn new(
        index: usize,
        description: String,
        created: Timestamp,
        deadline: Option<Timestamp>,
    ) -> (event: Event)
        ensures
            event@ == (EventView {
                index: index as nat,
                created: created@,
                description: description@,
                deadline: moment_of(deadline),
            }),
    {
        Event { index: index, description: description, created: created, deadline: deadline }
    }

    /// The identifier.
    pub fn index(&self) -> (index: usize)
        ensures
            index == self@.index,
    {
        self.index
    }

    /// When the event was made.
    pub fn created(&self) -> (created: Timestamp)
        ensures
            created@ == self@.created,
    {
        self.created
    }

    /// What the event is about.
    pub fn description(&self) -> (description: &str)
        ensures
            description@ == self@.description,
    {
        self.description.as_str()
    }

    /// When the event is due, if a deadline was set.
    pub fn deadline(&self) -> (deadline: Option<Timestamp>)
        ensures
            moment_of(deadline) == self@.deadline,
    {
        self.deadline
    }

    /// A second event with the same fields.
    pub fn duplicate(&self) -> (copy: Event)
        ensures
            copy@ == self@,
    {
        Event {
            index: self.index,
            created: self.created,
            description: self.description.clone(),
            deadline: self.deadline,
        }
    }

    /// The one-line form: identifier, description and deadline.
    pub fn write_short(&self) -> (text: String)
        requires
            is_showable(self@.deadline),
        ensures
            text@ == short_text(self@.index, self@.description, deadline_text(self@.deadline)),
    {
        let deadline = write_datetime(self.deadline);
        compose_short(self.index, self.description.as_str(), deadline.as_str())
    }

    /// The full form: identifier and time of creation, then the description,
    /// then the deadline.
    pub fn write(&self) -> (text: String)
        requires
            is_showable(self@.deadline),
        ensures
            text@ == full_text(
                self@.index,
                utc_text(self@.created),
                self@.description,
                deadline_text(self@.deadline),
            ),
    {
        proof {
            use_type_invariant(&self.created);
        }
        let created = utc_display(&self.created);
        let deadline = write_datetime(self.deadline);
        compose_full(self.index, created.as_str(), self.description.as_str(), deadline.as_str())
    }

    /// The key under which the event with identifier `index` is stored.
    pub fn get_event_tag(index: usize) -> (tag: String)
        ensures
            tag@ == event_tag(index as nat),
    {
        let mut tag = String::from_str("event_");
        let number = decimal(index);
        tag.append(number.as_str());
        tag
    }

    /// The key under which this event is stored.
    pub fn get_tag(&self) -> (tag: String)
        ensures
            tag@ == event_tag(self@.index),
    {
        Event::get_event_tag(self.index)
    }
}

} // verus!
