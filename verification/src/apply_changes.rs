//! Applies a single timed override to one occurrence in a working set: the
//! first event whose start time equals the override's timestamp is cancelled,
//! removed, renamed, relocated or retimed; a non-matching timestamp is a
//! silent no-op.

use vstd::prelude::*;
use vstd::string::StringExecFns;

use crate::generate_ics::{event_views, EventStatus, EventView, SoonToBeIcsEvent};
use crate::time::DateTime;
use crate::userconfig::{Change, ChangeView, RemovedEvents};

verus! {

/// The index of the first event whose start time equals `date`, or `-1`.
pub open spec fn spec_match_index(events: Seq<EventView>, date: DateTime) -> int
    decreases events.len(),
{
    if events.len() == 0 {
        -1
    } else if events[0].start_time == date {
        0
    } else {
        let rest = spec_match_index(events.drop_first(), date);
        if rest < 0 {
            -1
        } else {
            rest + 1
        }
    }
}

pub proof fn lemma_match_index(events: Seq<EventView>, date: DateTime)
    ensures
        spec_match_index(events, date) < 0 <==> (forall|j: int|
            0 <= j < events.len() ==> (#[trigger] events[j]).start_time != date),
        spec_match_index(events, date) >= 0 ==> {
            let i = spec_match_index(events, date);
            &&& 0 <= i < events.len()
            &&& events[i].start_time == date
            &&& forall|j: int| 0 <= j < i ==> (#[trigger] events[j]).start_time != date
        },
    decreases events.len(),
{
    if events.len() == 0 {
    } else if events[0].start_time == date {
    } else {
        let rest = events.drop_first();
        lemma_match_index(rest, date);
        assert(forall|j: int| 0 <= j < rest.len() ==> rest[j] == events[j + 1]);
        if spec_match_index(rest, date) < 0 {
            assert forall|j: int| 0 <= j < events.len() implies (#[trigger] events[j]).start_time
                != date by {
                if j > 0 {
                    assert(rest[j - 1] == events[j]);
                }
            }
        } else {
            let i = spec_match_index(rest, date);
            assert(events[i + 1] == rest[i]);
            assert forall|j: int| 0 <= j < i + 1 implies (#[trigger] events[j]).start_time
                != date by {
                if j > 0 {
                    assert(rest[j - 1] == events[j]);
                }
            }
        }
    }
}

/// The matched event after the override's fields are applied, in fixed order:
/// removal presentation, name suffix, room, start time of day, end time of
/// day. The two time replacements keep the respective calendar dates.
pub open spec fn spec_changed_event(
    e: EventView,
    change: ChangeView,
    removed_events: RemovedEvents,
) -> EventView {
    let e1 = if change.remove {
        if removed_events == RemovedEvents::Cancelled {
            EventView { status: EventStatus::Cancelled, ..e }
        } else {
            EventView { pretty_name: seq!['\u{1F6AB}', ' '] + e.pretty_name, ..e }
        }
    } else {
        e
    };
    let e2 = if change.namesuffix is Some {
        EventView { pretty_name: e1.pretty_name + seq![' '] + change.namesuffix->0, ..e1 }
    } else {
        e1
    };
    let e3 = if change.room is Some {
        EventView { location: change.room->0, ..e2 }
    } else {
        e2
    };
    let e4 = if change.starttime is Some {
        EventView {
            start_time: DateTime { date: e3.start_time.date, time: change.starttime->0 },
            ..e3
        }
    } else {
        e3
    };
    if change.endtime is Some {
        EventView { end_time: DateTime { date: e4.end_time.date, time: change.endtime->0 }, ..e4 }
    } else {
        e4
    }
}

/// What one override does to a working set: nothing without a matching start
/// time; under policy `Removed` with `remove` set, the matched event leaves
/// the set; otherwise the matched event is rewritten in place.
pub open spec fn spec_apply_change(
    events: Seq<EventView>,
    date: DateTime,
    change: ChangeView,
    removed_events: RemovedEvents,
) -> Seq<EventView> {
    let i = spec_match_index(events, date);
    if i < 0 {
        events
    } else if change.remove && removed_events == RemovedEvents::Removed {
        events.remove(i)
    } else {
        events.update(i, spec_changed_event(events[i], change, removed_events))
    }
}

/// Applying a well-formed override keeps every timestamp in the working set
/// a valid civil date-time: dates are never changed, and any replacement time
/// of day is valid by the override's own well-formedness.
pub proof fn lemma_apply_change_wf(
    events: Seq<EventView>,
    date: DateTime,
    change: ChangeView,
    removed_events: RemovedEvents,
)
    requires
        forall|k: int| 0 <= k < events.len() ==> (#[trigger] events[k]).wf(),
        change.wf(),
    ensures
        forall|k: int|
            0 <= k < spec_apply_change(events, date, change, removed_events).len() ==> (
            #[trigger] spec_apply_change(events, date, change, removed_events)[k]).wf(),
{
    let r = spec_apply_change(events, date, change, removed_events);
    let i = spec_match_index(events, date);
    lemma_match_index(events, date);
    if i < 0 {
    } else if change.remove && removed_events == RemovedEvents::Removed {
        events.remove_ensures(i);
        assert forall|k: int| 0 <= k < r.len() implies (#[trigger] r[k]).wf() by {
            if k < i {
                assert(r[k] == events[k]);
            } else {
                assert(r[k] == events[k + 1]);
            }
        }
    } else {
        assert(spec_changed_event(events[i], change, removed_events).wf());
        assert forall|k: int| 0 <= k < r.len() implies (#[trigger] r[k]).wf() by {
            if k != i {
                assert(r[k] == events[k]);
            }
        }
    }
}

/// The index of the first working event whose start time equals `date`.
fn position_of_start(events: &Vec<SoonToBeIcsEvent>, date: &DateTime) -> (r: Option<usize>)
    ensures
        r is Some ==> r->0 < events@.len() && spec_match_index(event_views(events@), *date)
            == r->0 as int,
        r is None ==> spec_match_index(event_views(events@), *date) < 0,
{
    proof {
        lemma_match_index(event_views(events@), *date);
    }
    let mut i: usize = 0;
    while i < events.len()
        invariant
            0 <= i <= events@.len(),
            forall|j: int| 0 <= j < i ==> (#[trigger] events@[j]).start_time != *date,
        decreases events@.len() - i,
    {
        if events[i].start_time == *date {
            proof {
                let evs = event_views(events@);
                lemma_match_index(evs, *date);
                assert(evs[i as int] == events@[i as int]@);
                let k = spec_match_index(evs, *date);
                if k < 0 {
                    assert(evs[i as int].start_time != *date);
                } else if k < i as int {
                    assert(evs[k] == events@[k]@);
                    assert(events@[k].start_time != *date);
                } else if k > i as int {
                    assert(evs[i as int].start_time != *date);
                }
            }
            return Some(i);
        }
        i += 1;
    }
    proof {
        let evs = event_views(events@);
        lemma_match_index(evs, *date);
        let k = spec_match_index(evs, *date);
        if k >= 0 {
            assert(evs[k] == events@[k]@);
            assert(events@[k].start_time != *date);
        }
    }
    None
}

pub fn apply_change(
    events: &mut Vec<SoonToBeIcsEvent>,
    date: DateTime,
    change: Change,
    removed_events: RemovedEvents,
)
    ensures
        event_views(final(events)@) == spec_apply_change(
            event_views(old(events)@),
            date,
            change@,
            removed_events,
        ),
        // An override whose timestamp matches no event is a silent no-op.
        (forall|j: int|
            0 <= j < old(events)@.len() ==> (#[trigger] old(events)@[j]).start_time != date)
            ==> final(events)@ == old(events)@,
        // Policy `Removed` with `remove` set deletes exactly the matched event;
        // every other combination keeps the working set's length.
        (exists|j: int|
            0 <= j < old(events)@.len() && (#[trigger] old(events)@[j]).start_time == date)
            && change.remove && removed_events == RemovedEvents::Removed ==> final(events)@.len()
            == old(events)@.len() - 1,
        !((exists|j: int|
            0 <= j < old(events)@.len() && (#[trigger] old(events)@[j]).start_time == date)
            && change.remove && removed_events == RemovedEvents::Removed) ==> final(events)@.len()
            == old(events)@.len(),
{
    let ghost orig = events@;
    let found = position_of_start(events, &date);
    let pos = match found {
        Some(pos) => pos,
        None => {
            proof {
                lemma_match_index(event_views(events@), date);
                assert forall|j: int|
                    0 <= j < events@.len() implies (#[trigger] events@[j]).start_time != date by {
                    assert(event_views(events@)[j] == events@[j]@);
                }
                assert(event_views(events@) =~= spec_apply_change(
                    event_views(events@),
                    date,
                    change@,
                    removed_events,
                ));
            }
            return ;
        },
    };
    proof {
        lemma_match_index(event_views(events@), date);
        assert(event_views(events@)[pos as int] == events@[pos as int]@);
        assert(events@[pos as int].start_time == date);
    }
    if change.remove && matches!(removed_events, RemovedEvents::Removed) {
        events.remove(pos);
        proof {
            assert(event_views(events@) =~= spec_apply_change(
                event_views(orig),
                date,
                change@,
                removed_events,
            ));
        }
        return;
    }
    let mut event = events.remove(pos);
    let ghost e0 = event@;
    if change.remove {
        match removed_events {
            RemovedEvents::Cancelled => {
                event.status = EventStatus::Cancelled;
            },
            RemovedEvents::Emoji => {
                let mut prefixed = "\u{1F6AB} ".to_owned();
                prefixed.append(event.pretty_name.as_str());
                event.pretty_name = prefixed;
                proof {
                    reveal_strlit("\u{1F6AB} ");
                    assert(event@.pretty_name =~= seq!['\u{1F6AB}', ' '] + e0.pretty_name);
                }
            },
            RemovedEvents::Removed => {
                proof {
                    assert(false);
                }
            },
        }
    }
    let ghost e1 = event@;
    if let Some(namesuffix) = &change.namesuffix {
        event.pretty_name.append(" ");
        event.pretty_name.append(namesuffix.as_str());
        proof {
            reveal_strlit(" ");
            assert(event@.pretty_name =~= e1.pretty_name + seq![' '] + change@.namesuffix->0);
        }
    }
    if let Some(room) = change.room {
        event.location = room;
    }
    if let Some(time) = change.starttime {
        event.start_time = event.start_time.with_time(time);
    }
    if let Some(time) = change.endtime {
        event.end_time = event.end_time.with_time(time);
    }
    proof {
        assert(event@ =~= spec_changed_event(e0, change@, removed_events));
    }
    events.insert(pos, event);
    proof {
        assert(event_views(events@) =~= spec_apply_change(
            event_views(orig),
            date,
            change@,
            removed_events,
        ));
    }
}

} // verus!
