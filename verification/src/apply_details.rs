//! Merges per-subscriber annotations into one working event: the reminder
//! lead time is a full overwrite, free-text notes are appended to the
//! description after a blank-line separator.

use vstd::prelude::*;
use vstd::string::StrSliceExecFns;
use vstd::string::StringExecFns;

use crate::generate_ics::{EventStatus, EventView, SoonToBeIcsEvent};
use crate::time::{Date, DateTime, TimeOfDay};
use crate::userconfig::{EventDetails, EventDetailsView};

verus! {

/// The description after merging notes: non-empty notes become the
/// description when it was empty, and are appended after a blank line
/// otherwise; absent or empty notes leave the description alone.
pub open spec fn spec_merged_description(desc: Seq<char>, notes: Option<Seq<char>>) -> Seq<char> {
    if notes is Some && notes->0.len() > 0 {
        if desc.len() == 0 {
            notes->0
        } else {
            desc + seq!['\n', '\n'] + notes->0
        }
    } else {
        desc
    }
}

/// The event after the subscription's details are merged in.
pub open spec fn spec_apply_details(e: EventView, d: EventDetailsView) -> EventView {
    EventView {
        alert_minutes_before: d.alert_minutes_before,
        description: spec_merged_description(e.description, d.notes),
        ..e
    }
}

pub fn apply_details(event: &mut SoonToBeIcsEvent, details: &EventDetails)
    ensures
        final(event)@ == spec_apply_details(old(event)@, details@),
        // The reminder lead time is overwritten unconditionally, clearing
        // included.
        final(event)@.alert_minutes_before == details@.alert_minutes_before,
        // Notes become the description when it was empty, and are appended
        // after a blank-line separator otherwise.
        details@.notes is Some && details@.notes->0.len() > 0 && old(event)@.description.len() == 0
            ==> final(event)@.description == details@.notes->0,
        details@.notes is Some && details@.notes->0.len() > 0 && old(event)@.description.len() > 0
            ==> final(event)@.description == old(event)@.description + seq!['\n', '\n']
            + details@.notes->0,
{
    event.alert_minutes_before = details.alert_minutes_before;
    if let Some(notes) = &details.notes {
        if !notes.as_str().is_empty() {
            if event.description.as_str().is_empty() {
                event.description = notes.clone();
            } else {
                event.description.append("\n\n");
                event.description.append(notes.as_str());
                proof {
                    reveal_strlit("\n\n");
                    assert(event@.description =~= old(event)@.description + seq!['\n', '\n']
                        + details@.notes->0);
                }
            }
        }
    }
    proof {
        assert(event@ =~= spec_apply_details(old(event)@, details@));
    }
}

/// A fixed sample working event, used by the example checks below.
fn sample_event(description: String) -> (r: SoonToBeIcsEvent)
    ensures
        r@.description == description@,
        r@.alert_minutes_before is None,
{
    SoonToBeIcsEvent {
        name: "BTI5-VSP/01".to_owned(),
        pretty_name: "BTI5-VSP/01".to_owned(),
        status: EventStatus::Confirmed,
        start_time: DateTime {
            date: Date { year: 2020, month: 4, day: 2 },
            time: TimeOfDay { hour: 8, minute: 15, second: 0 },
        },
        end_time: DateTime {
            date: Date { year: 2020, month: 4, day: 2 },
            time: TimeOfDay { hour: 11, minute: 15, second: 0 },
        },
        alert_minutes_before: None,
        description,
        location: String::new(),
    }
}

/// Merging details into a fresh event always hands the reminder lead time
/// through unchanged; the claim is checked statically.
pub fn check_alert(alert_minutes_before: Option<u16>) {
    let details = EventDetails { alert_minutes_before, changes: Vec::new(), notes: None };
    let mut event = sample_event(String::new());
    apply_details(&mut event, &details);
    assert(event@.alert_minutes_before == alert_minutes_before);
}

/// Merges `notes` into an event whose description is `event_description` and
/// reports whether the merged description equals `expected`.
pub fn check_description(notes: Option<&str>, event_description: &str, expected: &str) -> (r: bool)
    ensures
        r == (spec_merged_description(
            event_description@,
            match notes {
                Some(n) => Some(n@),
                None => None,
            },
        ) == expected@),
{
    let owned_notes: Option<String> = match notes {
        Some(n) => Some(n.to_owned()),
        None => None,
    };
    let details = EventDetails {
        alert_minutes_before: None,
        changes: Vec::new(),
        notes: owned_notes,
    };
    let mut event = sample_event(event_description.to_owned());
    apply_details(&mut event, &details);
    crate::strutil::str_eq(event.description.as_str(), expected)
}

} // verus!
