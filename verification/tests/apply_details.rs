use calendarbot::apply_details::{apply_details, check_alert, check_description};
use calendarbot::generate_ics::{EventStatus, SoonToBeIcsEvent};
use calendarbot::time::{Date, DateTime, TimeOfDay};
use calendarbot::userconfig::EventDetails;

#[test]
fn alert_examples() {
    check_alert(None);
    check_alert(Some(10));
    check_alert(Some(30));
    check_alert(Some(60));
}

#[test]
fn no_note_no_description() {
    assert!(check_description(None, "", ""));
}

#[test]
fn no_note_some_description() {
    assert!(check_description(None, "bla", "bla"));
}

#[test]
fn some_note_no_description() {
    assert!(check_description(Some("bla"), "", "bla"));
}

#[test]
fn some_note_some_description() {
    assert!(check_description(Some("foo"), "bar", "bar\n\nfoo"));
}

#[test]
fn wrong_merged_description_is_detected() {
    assert!(!check_description(Some("foo"), "bar", "barfoo"));
    assert!(!check_description(Some("foo"), "bar", "bar\nfoo"));
}

#[test]
fn alert_is_cleared_when_subscription_has_none() {
    let mut event = SoonToBeIcsEvent {
        name: "BTI5-VSP/01".to_owned(),
        pretty_name: "BTI5-VSP/01".to_owned(),
        status: EventStatus::Confirmed,
        start_time: DateTime {
            date: Date { year: 2020, month: 4, day: 2 },
            time: TimeOfDay { hour: 8, minute: 15, second: 0 },
        },
        end_time: DateTime {
            date: Date { year: 2020, month: 4, day: 2 },
            time: TimeOfDay { hour: 11, minute: 15, second: 0 },
        },
        alert_minutes_before: Some(15),
        description: String::new(),
        location: String::new(),
    };
    let details = EventDetails { alert_minutes_before: None, changes: Vec::new(), notes: None };
    apply_details(&mut event, &details);
    assert_eq!(event.alert_minutes_before, None);
}

#[test]
fn empty_note_leaves_description_alone() {
    let mut event = SoonToBeIcsEvent {
        name: "BTI5-VSP/01".to_owned(),
        pretty_name: "BTI5-VSP/01".to_owned(),
        status: EventStatus::Confirmed,
        start_time: DateTime {
            date: Date { year: 2020, month: 4, day: 2 },
            time: TimeOfDay { hour: 8, minute: 15, second: 0 },
        },
        end_time: DateTime {
            date: Date { year: 2020, month: 4, day: 2 },
            time: TimeOfDay { hour: 11, minute: 15, second: 0 },
        },
        alert_minutes_before: None,
        description: "bla".to_owned(),
        location: String::new(),
    };
    let details = EventDetails {
        alert_minutes_before: None,
        changes: Vec::new(),
        notes: Some(String::new()),
    };
    apply_details(&mut event, &details);
    assert_eq!(event.description, "bla");
}
