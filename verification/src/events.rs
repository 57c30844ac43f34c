//! Raw event occurrences as read from the shared event-group files. An entry
//! is never mutated; the pipeline turns it into a fresh working event at the
//! start of every run.

use vstd::prelude::*;

use crate::generate_ics::{EventStatus, SoonToBeIcsEvent};
use crate::time::DateTime;

verus! {

#[derive(Clone, PartialEq, Eq, Debug)]
pub struct EventEntry {
    pub name: String,
    pub location: String,
    pub description: String,
    pub start_time: DateTime,
    pub end_time: DateTime,
}

impl EventEntry {
    pub open spec fn wf(self) -> bool {
        self@.wf()
    }

    /// An equal copy.
    pub fn duplicate(&self) -> (r: EventEntry)
        ensures
            r == *self,
    {
        EventEntry {
            name: self.name.clone(),
            location: self.location.clone(),
            description: self.description.clone(),
            start_time: self.start_time,
            end_time: self.end_time,
        }
    }
}

#[verifier::ext_equal]
pub ghost struct EventEntryView {
    pub name: Seq<char>,
    pub location: Seq<char>,
    pub description: Seq<char>,
    pub start_time: DateTime,
    pub end_time: DateTime,
}

impl View for EventEntry {
    type V = EventEntryView;

    open spec fn view(&self) -> EventEntryView {
        EventEntryView {
            name: self.name@,
            location: self.location@,
            description: self.description@,
            start_time: self.start_time,
            end_time: self.end_time,
        }
    }
}

impl EventEntryView {
    /// Both timestamps are well-formed civil date-times.
    pub open spec fn wf(self) -> bool {
        self.start_time.wf() && self.end_time.wf()
    }
}

pub open spec fn entry_views(s: Seq<EventEntry>) -> Seq<EventEntryView> {
    s.map_values(|e: EventEntry| e@)
}

impl vstd::std_specs::convert::FromSpecImpl<EventEntry> for SoonToBeIcsEvent {
    open spec fn obeys_from_spec() -> bool {
        true
    }

    open spec fn from_spec(event: EventEntry) -> Self {
        SoonToBeIcsEvent {
            start_time: event.start_time,
            end_time: event.end_time,
            name: event.name,
            pretty_name: event.name,
            status: EventStatus::Confirmed,
            alert_minutes_before: None,
            description: event.description,
            location: event.location,
        }
    }
}

impl From<EventEntry> for SoonToBeIcsEvent {
    fn from(event: EventEntry) -> (r: Self) {
        let pretty_name = event.name.clone();
        SoonToBeIcsEvent {
            start_time: event.start_time,
            end_time: event.end_time,
            name: event.name,
            pretty_name,
            status: EventStatus::Confirmed,
            alert_minutes_before: None,
            description: event.description,
            location: event.location,
        }
    }
}

} // verus!
