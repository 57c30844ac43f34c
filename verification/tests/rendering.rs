use calendarbot::changestatus::{write_change_summary, Changestatus, Changetype};
use calendarbot::generate_ics::{generate_ics, EventStatus, SoonToBeIcsEvent};
use calendarbot::sorting::sort_by_start_time;
use calendarbot::strutil::i64_to_string;
use calendarbot::time::{Date, DateTime, TimeOfDay};
use calendarbot::watchcat::{get_changed_filenames, FileEvent, FileEventKind};

fn dt(year: u16, month: u8, day: u8, hour: u8, minute: u8, second: u8) -> DateTime {
    DateTime { date: Date { year, month, day }, time: TimeOfDay { hour, minute, second } }
}

fn event(pretty_name: &str, start: DateTime) -> SoonToBeIcsEvent {
    SoonToBeIcsEvent {
        name: "BTI5-VSP/01".to_owned(),
        pretty_name: pretty_name.to_owned(),
        status: EventStatus::Confirmed,
        start_time: start,
        end_time: dt(2020, 4, 2, 11, 15, 0),
        alert_minutes_before: None,
        description: String::new(),
        location: "1060".to_owned(),
    }
}

#[test]
fn renders_one_event_exactly() {
    let mut e = event("BTI5-VSP/01", dt(2020, 4, 2, 8, 15, 0));
    e.description = "Dozent: HTM".to_owned();
    e.alert_minutes_before = Some(10);
    let text = generate_ics("Peter", &vec![e]);
    assert_eq!(
        text,
        "BEGIN:VCALENDAR\nNAME:Peter\n\
         BEGIN:VEVENT\nSUMMARY:BTI5-VSP/01\nSTATUS:CONFIRMED\n\
         DTSTART:20200402T081500\nDTEND:20200402T111500\n\
         LOCATION:1060\nDESCRIPTION:Dozent: HTM\nTRIGGER:-PT10M\nEND:VEVENT\n\
         END:VCALENDAR\n"
    );
}

#[test]
fn rendering_is_deterministic() {
    let events = vec![event("a", dt(2020, 4, 2, 8, 15, 0)), event("b", dt(2020, 5, 14, 8, 15, 0))];
    assert_eq!(generate_ics("Peter", &events), generate_ics("Peter", &events));
}

#[test]
fn sorts_by_start_time_and_keeps_ties_stable() {
    let mut events = vec![
        event("third", dt(2021, 1, 1, 10, 0, 0)),
        event("first", dt(2020, 4, 2, 8, 15, 0)),
        event("second", dt(2020, 4, 2, 8, 15, 0)),
    ];
    sort_by_start_time(&mut events);
    let names: Vec<&str> = events.iter().map(|e| e.pretty_name.as_str()).collect();
    assert_eq!(names, ["first", "second", "third"]);
}

#[test]
fn formats_subscriber_ids() {
    assert_eq!(i64_to_string(0), "0");
    assert_eq!(i64_to_string(42), "42");
    assert_eq!(i64_to_string(1_337_666), "1337666");
    assert_eq!(i64_to_string(-42), "-42");
    assert_eq!(i64_to_string(i64::MIN), "-9223372036854775808");
    assert_eq!(i64_to_string(i64::MAX), "9223372036854775807");
}

#[test]
fn summary_filters_uninteresting_outcomes() {
    let changes = vec![
        Changestatus { name: "Peter".to_owned(), changetype: Changetype::Added },
        Changestatus { name: "Paul".to_owned(), changetype: Changetype::Same },
        Changestatus { name: "Mary".to_owned(), changetype: Changetype::Skipped },
        Changestatus { name: "42-x.ics".to_owned(), changetype: Changetype::Removed },
    ];
    assert_eq!(
        write_change_summary(&changes, true),
        "Added Peter\nSame Paul\nSkipped Mary\nRemoved 42-x.ics\n"
    );
    assert_eq!(write_change_summary(&changes, false), "Added Peter\nRemoved 42-x.ics\n");
}

#[test]
fn changed_filenames_are_deduplicated() {
    let events = vec![
        FileEvent {
            kind: FileEventKind::Create,
            filenames: vec!["a.json".to_owned(), "b.json".to_owned()],
        },
        FileEvent { kind: FileEventKind::Other, filenames: vec!["ignored.json".to_owned()] },
        FileEvent {
            kind: FileEventKind::Modify,
            filenames: vec!["b.json".to_owned(), "c.json".to_owned()],
        },
    ];
    let names = get_changed_filenames(&events);
    assert_eq!(names, ["a.json", "b.json", "c.json"]);
}
