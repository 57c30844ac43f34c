//! The pipeline-local working event: one mutable value per occurrence, built
//! afresh every run, rendered into the calendar artifact at the end.

use vstd::prelude::*;
use vstd::string::StringExecFns;

use crate::time::DateTime;

verus! {

#[derive(Clone, Copy, PartialEq, Eq, Structural, Debug)]
pub enum EventStatus {
    Confirmed,
    Cancelled,
}

#[derive(Clone, PartialEq, Eq, Debug)]
pub struct SoonToBeIcsEvent {
    pub name: String,
    pub pretty_name: String,
    pub status: EventStatus,
    pub start_time: DateTime,
    pub end_time: DateTime,
    pub alert_minutes_before: Option<u16>,
    pub description: String,
    pub location: String,
}

/// The mathematical content of a working event: every string as its
/// character sequence.
#[verifier::ext_equal]
pub ghost struct EventView {
    pub name: Seq<char>,
    pub pretty_name: Seq<char>,
    pub status: EventStatus,
    pub start_time: DateTime,
    pub end_time: DateTime,
    pub alert_minutes_before: Option<u16>,
    pub description: Seq<char>,
    pub location: Seq<char>,
}

impl View for SoonToBeIcsEvent {
    type V = EventView;

    open spec fn view(&self) -> EventView {
        EventView {
            name: self.name@,
            pretty_name: self.pretty_name@,
            status: self.status,
            start_time: self.start_time,
            end_time: self.end_time,
            alert_minutes_before: self.alert_minutes_before,
            description: self.description@,
            location: self.location@,
        }
    }
}

/// The views of a sequence of working events.
pub open spec fn event_views(s: Seq<SoonToBeIcsEvent>) -> Seq<EventView> {
    s.map_values(|e: SoonToBeIcsEvent| e@)
}

impl EventView {
    /// Both timestamps are well-formed civil date-times.
    pub open spec fn wf(self) -> bool {
        self.start_time.wf() && self.end_time.wf()
    }
}

pub open spec fn spec_status_label(status: EventStatus) -> Seq<char> {
    match status {
        EventStatus::Confirmed => "CONFIRMED"@,
        EventStatus::Cancelled => "CANCELLED"@,
    }
}

/// The text of one rendered event: a fixed block of lines, each a field of
/// the event.
pub open spec fn spec_event_block(e: EventView) -> Seq<char> {
    "BEGIN:VEVENT\n"@ + "SUMMARY:"@ + e.pretty_name + "\n"@ + "STATUS:"@ + spec_status_label(
        e.status,
    ) + "\n"@ + "DTSTART:"@ + crate::time::spec_datetime_compact(e.start_time) + "\n"@ + "DTEND:"@
        + crate::time::spec_datetime_compact(e.end_time) + "\n"@ + "LOCATION:"@ + e.location
        + "\n"@ + "DESCRIPTION:"@ + e.description + "\n"@ + (if e.alert_minutes_before is Some {
        "TRIGGER:-PT"@ + crate::strutil::spec_nat_digits(e.alert_minutes_before->0 as nat) + "M\n"@
    } else {
        Seq::empty()
    }) + "END:VEVENT\n"@
}

pub open spec fn spec_event_blocks(events: Seq<EventView>) -> Seq<char>
    decreases events.len(),
{
    if events.len() == 0 {
        Seq::empty()
    } else {
        spec_event_blocks(events.drop_last()) + spec_event_block(events.last())
    }
}

/// The full calendar artifact text: a deterministic function of the display
/// name and the (already sorted) working set, so identical inputs reproduce
/// identical output byte for byte.
pub open spec fn spec_generate_ics(name: Seq<char>, events: Seq<EventView>) -> Seq<char> {
    "BEGIN:VCALENDAR\n"@ + "NAME:"@ + name + "\n"@ + spec_event_blocks(events)
        + "END:VCALENDAR\n"@
}

fn status_label(status: EventStatus) -> (r: &'static str)
    ensures
        r@ == spec_status_label(status),
{
    match status {
        EventStatus::Confirmed => "CONFIRMED",
        EventStatus::Cancelled => "CANCELLED",
    }
}

#[verifier::rlimit(100)]
#[verifier::spinoff_prover]
fn push_event_block(out: &mut String, e: &SoonToBeIcsEvent)
    ensures
        final(out)@ == old(out)@ + spec_event_block(e@),
{
    out.append("BEGIN:VEVENT\n");
    out.append("SUMMARY:");
    out.append(e.pretty_name.as_str());
    out.append("\n");
    out.append("STATUS:");
    out.append(status_label(e.status));
    out.append("\n");
    out.append("DTSTART:");
    crate::time::push_datetime_compact(out, &e.start_time);
    out.append("\n");
    out.append("DTEND:");
    crate::time::push_datetime_compact(out, &e.end_time);
    out.append("\n");
    out.append("LOCATION:");
    out.append(e.location.as_str());
    out.append("\n");
    out.append("DESCRIPTION:");
    out.append(e.description.as_str());
    out.append("\n");
    if let Some(minutes) = e.alert_minutes_before {
        out.append("TRIGGER:-PT");
        let digits = crate::strutil::u64_to_string(minutes as u64);
        out.append(digits.as_str());
        out.append("M\n");
    }
    out.append("END:VEVENT\n");
    proof {
        assert(out@ =~= old(out)@ + spec_event_block(e@));
    }
}

/// Renders the sorted working set under the subscriber's display name. The
/// result is a pure function of its arguments: rendering the same events
/// under the same name reproduces the same text.
pub fn generate_ics(first_name: &str, events: &Vec<SoonToBeIcsEvent>) -> (r: String)
    ensures
        r@ == spec_generate_ics(first_name@, event_views(events@)),
{
    let ghost views = event_views(events@);
    let mut out = String::new();
    out.append("BEGIN:VCALENDAR\n");
    out.append("NAME:");
    out.append(first_name);
    out.append("\n");
    let ghost header = out@;
    let mut i: usize = 0;
    while i < events.len()
        invariant
            0 <= i <= events@.len(),
            views == event_views(events@),
            out@ == header + spec_event_blocks(views.take(i as int)),
        decreases events@.len() - i,
    {
        proof {
            assert(views[i as int] == events@[i as int]@);
            assert(views.take(i + 1).drop_last() =~= views.take(i as int));
            assert(views.take(i + 1).last() == views[i as int]);
        }
        push_event_block(&mut out, &events[i]);
        proof {
            assert(out@ =~= header + spec_event_blocks(views.take(i + 1)));
        }
        i += 1;
    }
    out.append("END:VCALENDAR\n");
    proof {
        assert(views.take(events@.len() as int) =~= views);
        assert(out@ =~= spec_generate_ics(first_name@, views));
    }
    out
}

} // verus!
