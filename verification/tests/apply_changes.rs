use calendarbot::apply_changes::apply_change;
use calendarbot::generate_ics::{EventStatus, SoonToBeIcsEvent};
use calendarbot::time::{Date, DateTime, TimeOfDay};
use calendarbot::userconfig::{Change, RemovedEvents};

fn dt(year: u16, month: u8, day: u8, hour: u8, minute: u8, second: u8) -> DateTime {
    DateTime { date: Date { year, month, day }, time: TimeOfDay { hour, minute, second } }
}

fn generate_events() -> Vec<SoonToBeIcsEvent> {
    vec![
        SoonToBeIcsEvent {
            name: "BTI5-VSP/01".to_owned(),
            pretty_name: "BTI5-VSP/01".to_owned(),
            status: EventStatus::Confirmed,
            start_time: dt(2020, 4, 2, 8, 15, 0),
            end_time: dt(2020, 4, 2, 11, 15, 0),
            alert_minutes_before: None,
            description: String::new(),
            location: String::new(),
        },
        SoonToBeIcsEvent {
            name: "BTI5-VSP/01".to_owned(),
            pretty_name: "BTI5-VSP/01".to_owned(),
            status: EventStatus::Confirmed,
            start_time: dt(2020, 5, 14, 8, 15, 0),
            end_time: dt(2020, 5, 14, 11, 15, 0),
            alert_minutes_before: None,
            description: String::new(),
            location: String::new(),
        },
    ]
}

#[test]
fn non_existing_event_of_change_is_skipped() {
    let mut events = generate_events();
    let date = dt(2020, 5, 15, 13, 37, 0);
    let change = Change {
        remove: true,
        starttime: None,
        endtime: None,
        namesuffix: None,
        room: None,
    };
    apply_change(&mut events, date, change, RemovedEvents::Cancelled);
    assert_eq!(events.len(), 2);

    let expected = generate_events();
    assert_eq!(events[0], expected[0]);
    assert_eq!(events[1], expected[1]);
}

#[test]
fn remove_event_is_removed_completly() {
    let mut events = generate_events();
    let date = dt(2020, 5, 14, 8, 15, 0);
    let change = Change {
        remove: true,
        starttime: None,
        endtime: None,
        namesuffix: None,
        room: None,
    };
    apply_change(&mut events, date, change, RemovedEvents::Removed);
    assert_eq!(events.len(), 1);
}

#[test]
fn remove_event_gets_marked_as_cancelled() {
    let mut events = generate_events();
    let date = dt(2020, 5, 14, 8, 15, 0);
    let change = Change {
        remove: true,
        starttime: None,
        endtime: None,
        namesuffix: None,
        room: None,
    };
    apply_change(&mut events, date, change, RemovedEvents::Cancelled);
    assert_eq!(events.len(), 2);
    assert_eq!(events[1].status, EventStatus::Cancelled);
}

#[test]
fn remove_event_gets_emoji_prefix() {
    let mut events = generate_events();
    let date = dt(2020, 5, 14, 8, 15, 0);
    let change = Change {
        remove: true,
        starttime: None,
        endtime: None,
        namesuffix: None,
        room: None,
    };
    apply_change(&mut events, date, change, RemovedEvents::Emoji);
    assert_eq!(events.len(), 2);
    assert_eq!(events[1].pretty_name, "🚫 BTI5-VSP/01");
}

#[test]
fn namesuffix_is_added() {
    let mut events = generate_events();
    let date = dt(2020, 5, 14, 8, 15, 0);
    let change = Change {
        remove: false,
        starttime: None,
        endtime: None,
        namesuffix: Some("whatever".to_owned()),
        room: None,
    };
    apply_change(&mut events, date, change, RemovedEvents::Cancelled);
    assert_eq!(events[1].pretty_name, "BTI5-VSP/01 whatever");
}

#[test]
fn room_is_overwritten() {
    let mut events = generate_events();
    let date = dt(2020, 5, 14, 8, 15, 0);
    let change = Change {
        remove: false,
        starttime: None,
        endtime: None,
        namesuffix: None,
        room: Some("whereever".to_owned()),
    };
    apply_change(&mut events, date, change, RemovedEvents::Cancelled);
    assert_eq!(events[1].location, "whereever");
}

#[test]
fn starttime_changed() {
    let mut events = generate_events();
    let date = dt(2020, 5, 14, 8, 15, 0);
    let change = Change {
        remove: false,
        starttime: Some(TimeOfDay { hour: 8, minute: 30, second: 0 }),
        endtime: None,
        namesuffix: None,
        room: None,
    };
    apply_change(&mut events, date, change, RemovedEvents::Cancelled);
    assert_eq!(events[1].start_time, dt(2020, 5, 14, 8, 30, 0));
}

#[test]
fn endtime_changed() {
    let mut events = generate_events();
    let date = dt(2020, 5, 14, 8, 15, 0);
    let change = Change {
        remove: false,
        starttime: None,
        endtime: Some(TimeOfDay { hour: 8, minute: 30, second: 0 }),
        namesuffix: None,
        room: None,
    };
    apply_change(&mut events, date, change, RemovedEvents::Cancelled);
    assert_eq!(events[1].end_time, dt(2020, 5, 14, 8, 30, 0));
}
