use calendarbot::changestatus::Changetype;
use calendarbot::events::EventEntry;
use calendarbot::output_dir::OutputDir;
use calendarbot::output_files::{all_remove_rest, one, one_internal, EventSource};
use calendarbot::time::{Date, DateTime, TimeOfDay};
use calendarbot::userconfig::{Change, Chat, EventDetails, RemovedEvents, Userconfig, UserconfigFile};

fn dt(year: u16, month: u8, day: u8, hour: u8, minute: u8, second: u8) -> DateTime {
    DateTime { date: Date { year, month, day }, time: TimeOfDay { hour, minute, second } }
}

fn entry(name: &str, start: DateTime, end: DateTime) -> EventEntry {
    EventEntry {
        name: name.to_owned(),
        location: String::new(),
        description: String::new(),
        start_time: start,
        end_time: end,
    }
}

/// Two occurrences of the group the scenarios below subscribe to.
fn vsp_sources() -> Vec<EventSource> {
    vec![EventSource {
        name: "bti5-vsp01".to_owned(),
        entries: vec![
            entry("BTI5-VSP/01", dt(2020, 4, 2, 8, 15, 0), dt(2020, 4, 2, 11, 15, 0)),
            entry("BTI5-VSP/01", dt(2020, 5, 14, 8, 15, 0), dt(2020, 5, 14, 11, 15, 0)),
        ],
    }]
}

fn subscriber(suffix: &str, removed_events: RemovedEvents, change: Option<Change>) -> UserconfigFile {
    let changes = match change {
        Some(c) => vec![(dt(2020, 5, 14, 8, 15, 0), c)],
        None => Vec::new(),
    };
    UserconfigFile {
        chat: Chat { id: 42, first_name: "Peter".to_owned() },
        config: Userconfig {
            calendarfile_suffix: suffix.to_owned(),
            events: vec![(
                "bti5-vsp01".to_owned(),
                EventDetails { alert_minutes_before: None, changes, notes: None },
            )],
            removed_events,
        },
    }
}

#[test]
fn removed_occurrence_keeps_emoji_prefix_and_times() {
    let config = subscriber(
        "main",
        RemovedEvents::Emoji,
        Some(Change {
            remove: true,
            starttime: None,
            endtime: None,
            namesuffix: None,
            room: None,
        }),
    );
    let sources = vsp_sources();
    let mut dir = OutputDir::new();

    let (result, _actions) = one_internal(&config, &sources, &mut dir);
    assert_eq!(result.changestatus.changetype, Changetype::Added);
    assert_eq!(result.filename, "42-main.ics");

    let content = dir.read_file("42-main.ics").expect("artifact should exist");
    assert_eq!(content.matches("BEGIN:VEVENT").count(), 2);
    assert!(content.contains("SUMMARY:🚫 BTI5-VSP/01\n"));
    assert!(content.contains("DTSTART:20200514T081500\n"));
    assert!(content.contains("DTEND:20200514T111500\n"));

    // An immediate rerun with unchanged inputs writes nothing.
    let (rerun, actions) = one_internal(&config, &sources, &mut dir);
    assert_eq!(rerun.changestatus.changetype, Changetype::Same);
    assert!(actions.is_empty());
}

#[test]
fn namesuffix_without_remove_keeps_event_confirmed() {
    let config = subscriber(
        "main",
        RemovedEvents::Emoji,
        Some(Change {
            remove: false,
            starttime: None,
            endtime: None,
            namesuffix: Some("whatever".to_owned()),
            room: None,
        }),
    );
    let sources = vsp_sources();
    let mut dir = OutputDir::new();

    let (result, _actions) = one_internal(&config, &sources, &mut dir);
    assert_eq!(result.changestatus.changetype, Changetype::Added);

    let content = dir.read_file("42-main.ics").expect("artifact should exist");
    assert!(content.contains("SUMMARY:BTI5-VSP/01 whatever\n"));
    assert!(!content.contains("🚫"));
    assert!(content.contains("STATUS:CONFIRMED"));
    assert!(!content.contains("STATUS:CANCELLED"));
}

#[test]
fn changed_suffix_renames_the_artifact() {
    let sources = vsp_sources();
    let mut dir = OutputDir::new();

    // An earlier pass left the artifact under the old suffix.
    let old_config = subscriber("old", RemovedEvents::Cancelled, None);
    let (first, _) = one_internal(&old_config, &sources, &mut dir);
    assert_eq!(first.changestatus.changetype, Changetype::Added);
    assert!(dir.contains_file("42-old.ics"));

    // The suffix changed to "main": the file moves, content is kept.
    let config = subscriber("main", RemovedEvents::Cancelled, None);
    let (result, _) = one_internal(&config, &sources, &mut dir);
    assert_eq!(result.changestatus.changetype, Changetype::Moved);
    assert!(!dir.contains_file("42-old.ics"));
    assert!(dir.contains_file("42-main.ics"));
}

#[test]
fn stale_duplicates_are_all_removed() {
    let mut dir = OutputDir::new();
    dir.write_file("42-a.ics", "a".to_owned());
    dir.write_file("42-b.ics", "b".to_owned());
    let config = subscriber("main", RemovedEvents::Cancelled, None);
    let sources = vsp_sources();

    let (result, _) = one_internal(&config, &sources, &mut dir);
    // both stale files are gone; the target was written afresh
    assert_eq!(result.changestatus.changetype, Changetype::Added);
    assert!(!dir.contains_file("42-a.ics"));
    assert!(!dir.contains_file("42-b.ics"));
    assert!(dir.contains_file("42-main.ics"));
}

#[test]
fn empty_working_set_removes_the_artifact() {
    let mut dir = OutputDir::new();
    let config = subscriber("main", RemovedEvents::Cancelled, None);
    let no_sources: Vec<EventSource> = Vec::new();

    // Nothing to render and no artifact: the run is skipped.
    let (skipped, actions) = one(&config, &no_sources, &mut dir);
    assert_eq!(skipped.changetype, Changetype::Skipped);
    assert!(actions.is_empty());

    // An artifact left over from better days is deleted.
    let sources = vsp_sources();
    one(&config, &sources, &mut dir);
    assert!(dir.contains_file("42-main.ics"));
    let (removed, _) = one(&config, &no_sources, &mut dir);
    assert_eq!(removed.changetype, Changetype::Removed);
    assert!(!dir.contains_file("42-main.ics"));
}

#[test]
fn orphaned_artifacts_are_deleted_after_a_batch() {
    let mut dir = OutputDir::new();
    dir.write_file("99-gone.ics", "left over".to_owned());

    let list = vec![(subscriber("main", RemovedEvents::Cancelled, None), vsp_sources())];
    let (changes, _actions) = all_remove_rest(&list, &mut dir);

    assert!(dir.contains_file("42-main.ics"));
    assert!(!dir.contains_file("99-gone.ics"));
    assert_eq!(dir.files.len(), 1);
    assert_eq!(changes.len(), 2);
    assert_eq!(changes[0].changetype, Changetype::Added);
    assert_eq!(changes[0].name, "Peter");
    assert_eq!(changes[1].changetype, Changetype::Removed);
    assert_eq!(changes[1].name, "99-gone.ics");
}

#[test]
fn batch_rerun_reports_no_interesting_change() {
    let mut dir = OutputDir::new();
    let list = vec![(subscriber("main", RemovedEvents::Cancelled, None), vsp_sources())];

    all_remove_rest(&list, &mut dir);
    let (changes, actions) = all_remove_rest(&list, &mut dir);
    assert_eq!(changes.len(), 1);
    assert_eq!(changes[0].changetype, Changetype::Same);
    assert!(actions.is_empty());
}

#[test]
fn uppercase_group_names_are_skipped_as_legacy() {
    let mut config = subscriber("main", RemovedEvents::Cancelled, None);
    config.config.events[0].0 = "BTI5-VSP".to_owned();
    let mut sources = vsp_sources();
    sources[0].name = "BTI5-VSP".to_owned();
    let mut dir = OutputDir::new();

    let (result, _) = one(&config, &sources, &mut dir);
    assert_eq!(result.changetype, Changetype::Skipped);
    assert!(!dir.contains_file("42-main.ics"));
}

#[test]
fn notes_and_alert_reach_the_rendered_artifact() {
    let mut config = subscriber("main", RemovedEvents::Cancelled, None);
    config.config.events[0].1.alert_minutes_before = Some(30);
    config.config.events[0].1.notes = Some("bring snacks".to_owned());
    let sources = vsp_sources();
    let mut dir = OutputDir::new();

    one(&config, &sources, &mut dir);
    let content = dir.read_file("42-main.ics").expect("artifact should exist");
    assert!(content.contains("DESCRIPTION:bring snacks\n"));
    assert!(content.contains("TRIGGER:-PT30M\n"));
}

#[test]
fn differing_content_is_overwritten() {
    let mut dir = OutputDir::new();
    dir.write_file("42-main.ics", "stale text".to_owned());
    let config = subscriber("main", RemovedEvents::Cancelled, None);
    let sources = vsp_sources();

    let (result, _) = one(&config, &sources, &mut dir);
    assert_eq!(result.changetype, Changetype::Changed);
    let content = dir.read_file("42-main.ics").expect("artifact should exist");
    assert!(content.contains("BEGIN:VCALENDAR"));
}

#[test]
fn rename_is_superseded_when_the_content_also_changes() {
    let mut dir = OutputDir::new();
    dir.write_file("42-old.ics", "stale text".to_owned());
    let config = subscriber("main", RemovedEvents::Cancelled, None);
    let sources = vsp_sources();

    let (result, _) = one(&config, &sources, &mut dir);
    assert_eq!(result.changetype, Changetype::Changed);
    assert!(!dir.contains_file("42-old.ics"));
    assert!(dir.contains_file("42-main.ics"));
}

#[test]
fn duplicate_removal_is_not_superseded_by_a_skip() {
    let mut dir = OutputDir::new();
    dir.write_file("42-a.ics", "a".to_owned());
    dir.write_file("42-b.ics", "b".to_owned());
    let config = subscriber("main", RemovedEvents::Cancelled, None);
    let no_sources: Vec<EventSource> = Vec::new();

    // The stale duplicates were deleted; that classification stands, since
    // skipping the empty working set changed no further state.
    let (result, _) = one(&config, &no_sources, &mut dir);
    assert_eq!(result.changetype, Changetype::Removed);
    assert_eq!(dir.files.len(), 0);
}
