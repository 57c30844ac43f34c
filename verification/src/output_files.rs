//! The reconciliation engine: per subscriber, builds the merged working set
//! from the subscribed event groups, renders it, and rewrites the output
//! directory model — renaming drifted artifacts, writing only on change,
//! deleting empty or orphaned ones — while classifying what happened. The
//! filesystem actions that realize the model changes are reported to the
//! caller.

use vstd::prelude::*;

use crate::apply_changes::{apply_change, spec_apply_change};
use crate::apply_details::{apply_details, spec_apply_details};
use crate::changestatus::{Changestatus, Changetype};
use crate::events::{entry_views, EventEntry, EventEntryView};
use crate::generate_ics::{
    event_views, generate_ics, spec_generate_ics, EventStatus, EventView, SoonToBeIcsEvent,
};
use crate::output_dir::{
    dir_contains, dir_content, lemma_filter_elements, spec_existing, spec_remove,
    spec_remove_prefixed, spec_rename, spec_write, OutputDir,
};
use crate::sorting::{sort_by_start_time, spec_sort_events};
use crate::strutil::{spec_int_str, spec_starts_with, str_eq, views_of};
use crate::time::DateTime;
use crate::userconfig::{
    EventDetails, EventDetailsView, RemovedEvents, Userconfig, UserconfigFile, UserconfigFileView,
    UserconfigView,
};

verus! {

/// The occurrences read for one event group, handed to the engine by the
/// caller that did the reading.
pub struct EventSource {
    pub name: String,
    pub entries: Vec<EventEntry>,
}

#[verifier::ext_equal]
pub ghost struct EventSourceView {
    pub name: Seq<char>,
    pub entries: Seq<EventEntryView>,
}

impl View for EventSource {
    type V = EventSourceView;

    open spec fn view(&self) -> EventSourceView {
        EventSourceView { name: self.name@, entries: entry_views(self.entries@) }
    }
}

pub open spec fn source_views(s: Seq<EventSource>) -> Seq<EventSourceView> {
    s.map_values(|e: EventSource| e@)
}

impl EventSourceView {
    /// Every occurrence read for the group carries valid timestamps.
    pub open spec fn wf(self) -> bool {
        forall|i: int| 0 <= i < self.entries.len() ==> (#[trigger] self.entries[i]).wf()
    }
}

impl EventSource {
    pub open spec fn wf(self) -> bool {
        self@.wf()
    }
}

/// The fresh working event derived from one occurrence at the start of a run.
pub open spec fn spec_entry_event(en: EventEntryView) -> EventView {
    EventView {
        name: en.name,
        pretty_name: en.name,
        status: EventStatus::Confirmed,
        start_time: en.start_time,
        end_time: en.end_time,
        alert_minutes_before: None,
        description: en.description,
        location: en.location,
    }
}

pub open spec fn spec_initial_events(entries: Seq<EventEntryView>) -> Seq<EventView> {
    entries.map_values(|en: EventEntryView| spec_entry_event(en))
}

/// All of a subscription's overrides applied to the working set, in order.
pub open spec fn spec_fold_changes(
    events: Seq<EventView>,
    changes: Seq<(DateTime, crate::userconfig::ChangeView)>,
    removed_events: RemovedEvents,
) -> Seq<EventView>
    decreases changes.len(),
{
    if changes.len() == 0 {
        events
    } else {
        spec_apply_change(
            spec_fold_changes(events, changes.drop_last(), removed_events),
            changes.last().0,
            changes.last().1,
            removed_events,
        )
    }
}

pub open spec fn spec_apply_details_all(
    events: Seq<EventView>,
    d: EventDetailsView,
) -> Seq<EventView> {
    events.map_values(|e: EventView| spec_apply_details(e, d))
}

/// The working set one event group contributes: a fresh working event per
/// occurrence, the subscription's overrides applied in order, then the
/// details merged exactly once into each remaining event.
pub open spec fn spec_group_events(
    entries: Seq<EventEntryView>,
    d: EventDetailsView,
    removed_events: RemovedEvents,
) -> Seq<EventView> {
    spec_apply_details_all(
        spec_fold_changes(spec_initial_events(entries), d.changes, removed_events),
        d,
    )
}

/// Builds the working set of one event group from its occurrences and the
/// subscriber's subscription to it.
pub fn load_and_parse_events(
    entries: Vec<EventEntry>,
    details: &EventDetails,
    removed_events: RemovedEvents,
) -> (r: Vec<SoonToBeIcsEvent>)
    ensures
        event_views(r@) == spec_group_events(entry_views(entries@), details@, removed_events),
{
    let ghost entriesv = entry_views(entries@);
    let ghost detailsv = details@;

    let mut result: Vec<SoonToBeIcsEvent> = Vec::new();
    let mut rest = entries;
    let ghost mut consumed: int = 0;
    proof {
        assert(event_views(result@) =~= spec_initial_events(entriesv.take(0)));
    }
    while rest.len() > 0
        invariant
            0 <= consumed <= entriesv.len(),
            consumed + rest@.len() == entriesv.len(),
            entry_views(rest@) =~= entriesv.skip(consumed),
            event_views(result@) == spec_initial_events(entriesv.take(consumed)),
        decreases rest@.len(),
    {
        let ghost before = entry_views(rest@);
        let en = rest.remove(0);
        proof {
            assert(before[0] == en@);
            assert(entriesv.skip(consumed)[0] == entriesv[consumed]);
            assert(entry_views(rest@) =~= before.drop_first());
            assert(entry_views(rest@) =~= entriesv.skip(consumed + 1));
        }
        let event = SoonToBeIcsEvent::from(en);
        proof {
            assert(event@ =~= spec_entry_event(entriesv[consumed]));
        }
        let ghost prev = result@;
        result.push(event);
        proof {
            let lhs = event_views(result@);
            let rhs = spec_initial_events(entriesv.take(consumed + 1));
            assert(event_views(prev).len() == prev.len());
            assert(prev.len() == consumed);
            assert(result@ == prev.push(event));
            assert(lhs.len() == consumed + 1);
            assert(rhs.len() == consumed + 1);
            assert forall|k: int| 0 <= k < lhs.len() implies lhs[k] == rhs[k] by {
                assert(entriesv.take(consumed + 1)[k] == entriesv[k]);
                assert(rhs[k] == spec_entry_event(entriesv[k]));
                if k < consumed {
                    assert(result@[k] == prev[k]);
                    assert(lhs[k] == event_views(prev)[k]);
                    assert(event_views(prev)[k] == spec_initial_events(entriesv.take(consumed))[k]);
                    assert(spec_initial_events(entriesv.take(consumed))[k] == spec_entry_event(
                        entriesv.take(consumed)[k],
                    ));
                    assert(entriesv.take(consumed)[k] == entriesv[k]);
                } else {
                    assert(result@[k] == event);
                    assert(lhs[k] == event@);
                }
            }
            assert(lhs =~= rhs);
            consumed = consumed + 1;
        }
    }
    proof {
        assert(entriesv.take(consumed) =~= entriesv);
    }
    let ghost initial = event_views(result@);

    let mut ci: usize = 0;
    while ci < details.changes.len()
        invariant
            0 <= ci <= details.changes@.len(),
            detailsv == details@,
            initial == spec_initial_events(entriesv),
            event_views(result@) == spec_fold_changes(
                initial,
                detailsv.changes.take(ci as int),
                removed_events,
            ),
        decreases details.changes@.len() - ci,
    {
        let date = details.changes[ci].0;
        let change = details.changes[ci].1.duplicate();
        proof {
            assert(detailsv.changes[ci as int] == (
                details.changes@[ci as int].0,
                details.changes@[ci as int].1@,
            ));
        }
        apply_change(&mut result, date, change, removed_events);
        proof {
            assert(detailsv.changes.take(ci + 1).drop_last() =~= detailsv.changes.take(ci as int));
            assert(detailsv.changes.take(ci + 1).last() == detailsv.changes[ci as int]);
        }
        ci += 1;
    }
    proof {
        assert(detailsv.changes.take(details.changes@.len() as int) =~= detailsv.changes);
    }
    let ghost changed = event_views(result@);

    let mut merged: Vec<SoonToBeIcsEvent> = Vec::new();
    let ghost mut done: int = 0;
    proof {
        assert(event_views(merged@) =~= spec_apply_details_all(changed.take(0), detailsv));
    }
    while result.len() > 0
        invariant
            0 <= done <= changed.len(),
            done + result@.len() == changed.len(),
            detailsv == details@,
            event_views(result@) =~= changed.skip(done),
            event_views(merged@) == spec_apply_details_all(changed.take(done), detailsv),
        decreases result@.len(),
    {
        let ghost before = event_views(result@);
        let mut e = result.remove(0);
        proof {
            assert(before[0] == e@);
            assert(changed.skip(done)[0] == changed[done]);
            assert(event_views(result@) =~= before.drop_first());
            assert(event_views(result@) =~= changed.skip(done + 1));
        }
        apply_details(&mut e, details);
        let ghost prev = merged@;
        merged.push(e);
        proof {
            let lhs = event_views(merged@);
            let rhs = spec_apply_details_all(changed.take(done + 1), detailsv);
            assert(event_views(prev).len() == prev.len());
            assert(prev.len() == done);
            assert(merged@ == prev.push(e));
            assert(lhs.len() == done + 1);
            assert(rhs.len() == done + 1);
            assert forall|k: int| 0 <= k < lhs.len() implies lhs[k] == rhs[k] by {
                assert(changed.take(done + 1)[k] == changed[k]);
                assert(rhs[k] == spec_apply_details(changed[k], detailsv));
                if k < done {
                    assert(merged@[k] == prev[k]);
                    assert(lhs[k] == event_views(prev)[k]);
                    assert(event_views(prev)[k] == spec_apply_details_all(changed.take(done), detailsv)[k]);
                    assert(changed.take(done)[k] == changed[k]);
                } else {
                    assert(merged@[k] == e);
                    assert(lhs[k] == e@);
                }
            }
            assert(lhs =~= rhs);
            done = done + 1;
        }
    }
    proof {
        assert(changed.take(done) =~= changed);
    }
    merged
}

/// The entries of the first source of that name.
pub open spec fn spec_lookup_source(
    sources: Seq<EventSourceView>,
    name: Seq<char>,
) -> Option<Seq<EventEntryView>>
    decreases sources.len(),
{
    if sources.len() == 0 {
        None
    } else if sources[0].name == name {
        Some(sources[0].entries)
    } else {
        spec_lookup_source(sources.drop_first(), name)
    }
}

proof fn lemma_lookup_source(sources: Seq<EventSourceView>, name: Seq<char>)
    ensures
        (forall|j: int| 0 <= j < sources.len() ==> (#[trigger] sources[j]).name != name)
            ==> spec_lookup_source(sources, name) is None,
        forall|i: int|
            0 <= i < sources.len() && (#[trigger] sources[i]).name == name && (forall|j: int|
                0 <= j < i ==> (#[trigger] sources[j]).name != name) ==> spec_lookup_source(
                sources,
                name,
            ) == Some(sources[i].entries),
    decreases sources.len(),
{
    if sources.len() > 0 && sources[0].name != name {
        let rest = sources.drop_first();
        lemma_lookup_source(rest, name);
        assert(forall|j: int| 0 <= j < rest.len() ==> rest[j] == sources[j + 1]);
        assert forall|i: int|
            0 <= i < sources.len() && (#[trigger] sources[i]).name == name && (forall|j: int|
                0 <= j < i ==> (#[trigger] sources[j]).name != name) implies spec_lookup_source(
            sources,
            name,
        ) == Some(sources[i].entries) by {
            assert(rest[i - 1].name == name);
            assert(forall|j: int| 0 <= j < i - 1 ==> (#[trigger] rest[j]).name != name);
        }
    }
}

fn duplicate_entries(v: &Vec<EventEntry>) -> (r: Vec<EventEntry>)
    ensures
        r@ =~= v@,
{
    let mut r: Vec<EventEntry> = Vec::new();
    let mut i: usize = 0;
    while i < v.len()
        invariant
            0 <= i <= v@.len(),
            r@ =~= v@.take(i as int),
        decreases v@.len() - i,
    {
        r.push(v[i].duplicate());
        proof {
            assert(r@ =~= v@.take(i + 1));
        }
        i += 1;
    }
    r
}

/// A copy of the entries of the first source of that name, if any.
fn lookup_source(sources: &Vec<EventSource>, name: &str) -> (r: Option<Vec<EventEntry>>)
    ensures
        r is Some <==> spec_lookup_source(source_views(sources@), name@) is Some,
        r is Some ==> Some(entry_views(r->0@)) == spec_lookup_source(
            source_views(sources@),
            name@,
        ),
{
    proof {
        lemma_lookup_source(source_views(sources@), name@);
    }
    let ghost views = source_views(sources@);
    let mut i: usize = 0;
    while i < sources.len()
        invariant
            0 <= i <= sources@.len(),
            views == source_views(sources@),
            forall|j: int| 0 <= j < i ==> (#[trigger] views[j]).name != name@,
        decreases sources@.len() - i,
    {
        if crate::strutil::str_eq(sources[i].name.as_str(), name) {
            proof {
                lemma_lookup_source(views, name@);
                assert(views[i as int] == sources@[i as int]@);
                assert(views[i as int].name == name@);
            }
            let entries = duplicate_entries(&sources[i].entries);
            proof {
                assert(entry_views(entries@) =~= views[i as int].entries);
            }
            return Some(entries);
        }
        proof {
            assert(views[i as int] == sources@[i as int]@);
        }
        i += 1;
    }
    proof {
        lemma_lookup_source(views, name@);
    }
    None
}

/// What one subscription contributes to the merged working set: nothing for a
/// legacy (uppercase) group name or a group whose occurrences are not
/// available, the group's working set otherwise.
pub open spec fn spec_group_contribution(
    name: Seq<char>,
    d: EventDetailsView,
    removed_events: RemovedEvents,
    sources: Seq<EventSourceView>,
) -> Seq<EventView> {
    if crate::strutil::spec_has_uppercase(name) {
        Seq::empty()
    } else {
        match spec_lookup_source(sources, name) {
            Some(entries) => spec_group_events(entries, d, removed_events),
            None => Seq::empty(),
        }
    }
}

/// The merged (unsorted) working set of a subscriber: the contributions of
/// the subscribed groups, in subscription order.
pub open spec fn spec_user_events(
    config: UserconfigView,
    sources: Seq<EventSourceView>,
) -> Seq<EventView>
    decreases config.events.len(),
{
    if config.events.len() == 0 {
        Seq::empty()
    } else {
        spec_user_events(UserconfigView { events: config.events.drop_last(), ..config }, sources)
            + spec_group_contribution(
            config.events.last().0,
            config.events.last().1,
            config.removed_events,
            sources,
        )
    }
}

/// Builds the merged working set of one subscriber from the sources the
/// caller read.
pub fn build_user_events(config: &Userconfig, sources: &Vec<EventSource>) -> (r: Vec<
    SoonToBeIcsEvent,
>)
    ensures
        event_views(r@) == spec_user_events(config@, source_views(sources@)),
{
    let ghost configv = config@;
    let ghost sourcesv = source_views(sources@);
    let mut result: Vec<SoonToBeIcsEvent> = Vec::new();
    proof {
        assert(UserconfigView { events: configv.events.take(0), ..configv }
            =~= UserconfigView { events: Seq::empty(), ..configv });
        assert(event_views(result@) =~= Seq::<EventView>::empty());
    }
    let mut i: usize = 0;
    while i < config.events.len()
        invariant
            0 <= i <= config.events@.len(),
            configv == config@,
            sourcesv == source_views(sources@),
            event_views(result@) == spec_user_events(
                UserconfigView { events: configv.events.take(i as int), ..configv },
                sourcesv,
            ),
        decreases config.events@.len() - i,
    {
        let ghost prefix = UserconfigView { events: configv.events.take(i as int), ..configv };
        let ghost prefix1 = UserconfigView { events: configv.events.take(i + 1), ..configv };
        proof {
            assert(configv.events[i as int] == (config.events@[i as int].0@, config.events@[i as int].1@));
            assert(prefix1.events.drop_last() =~= prefix.events);
            assert(UserconfigView { events: prefix1.events.drop_last(), ..prefix1 } =~= prefix);
            assert(prefix1.events.last() == configv.events[i as int]);
        }
        let name = &config.events[i].0;
        let details = &config.events[i].1;
        if !crate::strutil::has_uppercase(name.as_str()) {
            match lookup_source(sources, name.as_str()) {
                Some(entries) => {
                    let ghost before = event_views(result@);
                    let mut group = load_and_parse_events(entries, details, config.removed_events);
                    let ghost groupv = event_views(group@);
                    result.append(&mut group);
                    proof {
                        assert(event_views(result@) =~= before + groupv);
                        assert(event_views(result@) =~= spec_user_events(prefix1, sourcesv));
                    }
                },
                None => {
                    proof {
                        assert(event_views(result@) =~= spec_user_events(prefix1, sourcesv));
                    }
                },
            }
        } else {
            proof {
                assert(event_views(result@) =~= spec_user_events(prefix1, sourcesv));
            }
        }
        i += 1;
    }
    proof {
        assert(configv.events.take(config.events@.len() as int) =~= configv.events);
        assert(UserconfigView { events: configv.events.take(config.events@.len() as int), ..configv }
            =~= configv);
    }
    result
}

/// One filesystem action that realizes a change of the directory model.
pub enum FsAction {
    Rename { from: String, to: String },
    Remove { filename: String },
    Write { filename: String, content: String },
}

#[verifier::ext_equal]
pub ghost enum FsActionView {
    Rename { from: Seq<char>, to: Seq<char> },
    Remove { filename: Seq<char> },
    Write { filename: Seq<char>, content: Seq<char> },
}

impl View for FsAction {
    type V = FsActionView;

    open spec fn view(&self) -> FsActionView {
        match self {
            FsAction::Rename { from, to } => FsActionView::Rename { from: from@, to: to@ },
            FsAction::Remove { filename } => FsActionView::Remove { filename: filename@ },
            FsAction::Write { filename, content } => FsActionView::Write {
                filename: filename@,
                content: content@,
            },
        }
    }
}

pub open spec fn action_views(s: Seq<FsAction>) -> Seq<FsActionView> {
    s.map_values(|a: FsAction| a@)
}

/// The artifact name prefix every file of this subscriber carries.
pub open spec fn spec_user_prefix(id: i64) -> Seq<char> {
    spec_int_str(id as int) + seq!['-']
}

/// The one artifact name the subscriber's configuration asks for.
pub open spec fn spec_target_filename(c: UserconfigFileView) -> Seq<char> {
    spec_user_prefix(c.chat.id) + c.config.calendarfile_suffix + ".ics"@
}

pub proof fn lemma_target_has_prefix(c: UserconfigFileView)
    ensures
        spec_starts_with(spec_target_filename(c), spec_user_prefix(c.chat.id)),
{
    let p = spec_user_prefix(c.chat.id);
    let t = spec_target_filename(c);
    assert(t.subrange(0, p.len() as int) =~= p);
}

/// The intermediate state after one reconciliation step.
#[verifier::ext_equal]
pub ghost struct DirStep {
    pub changetype: Changetype,
    pub dir: Seq<(Seq<char>, Seq<char>)>,
    pub actions: Seq<FsActionView>,
}

/// Step one of a run: reconcile filename drift. Exactly one artifact with the
/// subscriber's prefix but another name is renamed to the target name; two or
/// more are stale duplicates and all deleted; otherwise nothing happens.
pub open spec fn spec_reconcile_names(
    c: UserconfigFileView,
    dir: Seq<(Seq<char>, Seq<char>)>,
) -> DirStep {
    let prefix = spec_user_prefix(c.chat.id);
    let target = spec_target_filename(c);
    let existing = spec_existing(dir, prefix);
    if existing.len() == 1 && existing[0] != target {
        DirStep {
            changetype: Changetype::Moved,
            dir: spec_rename(dir, existing[0], target),
            actions: seq![FsActionView::Rename { from: existing[0], to: target }],
        }
    } else if existing.len() > 1 {
        DirStep {
            changetype: Changetype::Removed,
            dir: spec_remove_prefixed(dir, prefix),
            actions: existing.map_values(|n: Seq<char>| FsActionView::Remove { filename: n }),
        }
    } else {
        DirStep { changetype: Changetype::Same, dir, actions: Seq::empty() }
    }
}

/// The result of reconciling one subscriber against the directory model.
#[verifier::ext_equal]
pub ghost struct ReconcileOutcome {
    pub changetype: Changetype,
    pub filename: Seq<char>,
    pub dir: Seq<(Seq<char>, Seq<char>)>,
    pub actions: Seq<FsActionView>,
}

/// One full reconciliation run for one subscriber, as a function of the
/// configuration, the occurrences read per group, and the directory model:
/// filename drift is reconciled, the merged working set is built and sorted,
/// an empty set deletes the artifact (outcome `Removed`) or leaves a
/// classification of `Skipped` where nothing changed state; a non-empty set
/// is rendered and written only when the content differs (`Added` without an
/// existing artifact, `Changed` on differing content, the step-one
/// classification otherwise).
///
/// Opaque: callers that need the definition reveal it; the batch driver only
/// composes runs and treats each as a value.
#[verifier::opaque]
pub open spec fn spec_one(
    c: UserconfigFileView,
    sources: Seq<EventSourceView>,
    dir: Seq<(Seq<char>, Seq<char>)>,
) -> ReconcileOutcome {
    let target = spec_target_filename(c);
    let step1 = spec_reconcile_names(c, dir);
    let events = spec_sort_events(spec_user_events(c.config, sources));
    if events.len() == 0 {
        if dir_contains(step1.dir, target) {
            ReconcileOutcome {
                changetype: Changetype::Removed,
                filename: target,
                dir: spec_remove(step1.dir, target),
                actions: step1.actions.push(FsActionView::Remove { filename: target }),
            }
        } else {
            ReconcileOutcome {
                changetype: if step1.changetype == Changetype::Same {
                    Changetype::Skipped
                } else {
                    step1.changetype
                },
                filename: target,
                dir: step1.dir,
                actions: step1.actions,
            }
        }
    } else {
        let text = spec_generate_ics(c.chat.first_name, events);
        if dir_contains(step1.dir, target) {
            if dir_content(step1.dir, target) == text {
                ReconcileOutcome {
                    changetype: step1.changetype,
                    filename: target,
                    dir: step1.dir,
                    actions: step1.actions,
                }
            } else {
                ReconcileOutcome {
                    changetype: Changetype::Changed,
                    filename: target,
                    dir: spec_write(step1.dir, target, text),
                    actions: step1.actions.push(
                        FsActionView::Write { filename: target, content: text },
                    ),
                }
            }
        } else {
            ReconcileOutcome {
                changetype: Changetype::Added,
                filename: target,
                dir: spec_write(step1.dir, target, text),
                actions: step1.actions.push(
                    FsActionView::Write { filename: target, content: text },
                ),
            }
        }
    }
}

/// What one run reports: the outcome classification under the subscriber's
/// display name, and the artifact name the run owns.
pub struct Buildresult {
    pub changestatus: Changestatus,
    pub filename: String,
}

/// Builds the target artifact name `{id}-{suffix}.ics`.
fn target_filename(content: &UserconfigFile) -> (r: (String, String))
    ensures
        r.0@ == spec_user_prefix(content@.chat.id),
        r.1@ == spec_target_filename(content@),
{
    let mut prefix = crate::strutil::i64_to_string(content.chat.id);
    prefix.append("-");
    let mut filename = prefix.clone();
    filename.append(content.config.calendarfile_suffix.as_str());
    filename.append(".ics");
    proof {
        reveal_strlit("-");
        reveal_strlit(".ics");
        assert(prefix@ =~= spec_user_prefix(content@.chat.id));
        assert(filename@ =~= spec_target_filename(content@));
    }
    (prefix, filename)
}

/// Reconciles one subscriber against the directory model: the result of
/// `spec_one`, with the filesystem actions that realize the model change.
#[verifier::rlimit(100)]
#[verifier::spinoff_prover]
pub fn one_internal(
    content: &UserconfigFile,
    sources: &Vec<EventSource>,
    dir: &mut OutputDir,
) -> (r: (Buildresult, Vec<FsAction>))
    requires
        old(dir).wf(),
    ensures
        final(dir).wf(),
        ({
            let o = spec_one(content@, source_views(sources@), old(dir)@);
            &&& final(dir)@ == o.dir
            &&& r.0.changestatus.changetype == o.changetype
            &&& r.0.changestatus.name@ == content@.chat.first_name
            &&& r.0.filename@ == o.filename
            &&& action_views(r.1@) == o.actions
        }),
{
    proof {
        reveal(spec_one);
    }
    let ghost cv = content@;
    let ghost dv = old(dir)@;
    let ghost step1 = spec_reconcile_names(cv, dv);
    let (prefix, ics_filename) = target_filename(content);
    let ghost prefixv = prefix@;
    let ghost target = ics_filename@;

    let mut actions: Vec<FsAction> = Vec::new();
    let mut changetype = Changetype::Same;

    let existing = dir.get_existing_files(prefix.as_str());
    let ghost existingv = spec_existing(dv, prefixv);
    proof {
        assert(views_of(existing@) == existingv);
        lemma_filter_elements(crate::output_dir::dir_names(dv), crate::output_dir::name_has_prefix(prefixv));
        lemma_target_has_prefix(cv);
    }
    if existing.len() == 1 {
        if !str_eq(existing[0].as_str(), ics_filename.as_str()) {
            proof {
                assert(existing@[0]@ == existingv[0]);
                // the one prefixed file exists in the directory
                assert(crate::output_dir::dir_names(dv).contains(existingv[0]));
                let k = choose|k: int|
                    0 <= k < crate::output_dir::dir_names(dv).len()
                        && crate::output_dir::dir_names(dv)[k] == existingv[0];
                assert(dv[k].0 == existingv[0]);
                assert(dir_contains(dv, existingv[0]));
                // and the target name does not
                if dir_contains(dv, target) {
                    let t = choose|t: int| 0 <= t < dv.len() && (#[trigger] dv[t]).0 == target;
                    assert(crate::output_dir::dir_names(dv)[t] == target);
                    crate::output_dir::dir_names(dv).lemma_filter_contains(
                        crate::output_dir::name_has_prefix(prefixv),
                        t,
                    );
                    assert(existingv.contains(target));
                    assert(existingv[0] == target);
                    assert(false);
                }
            }
            dir.rename_file(existing[0].as_str(), ics_filename.as_str());
            actions.push(
                FsAction::Rename { from: existing[0].clone(), to: ics_filename.clone() },
            );
            changetype = Changetype::Moved;
            proof {
                assert(action_views(actions@) =~= step1.actions);
            }
        } else {
            proof {
                assert(existing@[0]@ == existingv[0]);
                assert(existingv[0] == target);
                assert(action_views(actions@) =~= step1.actions);
            }
        }
    } else if existing.len() > 1 {
        let mut k: usize = 0;
        while k < existing.len()
            invariant
                0 <= k <= existing@.len(),
                views_of(existing@) == existingv,
                actions@.len() == k,
                forall|j: int|
                    0 <= j < k ==> (#[trigger] actions@[j])@ == (FsActionView::Remove {
                        filename: existingv[j],
                    }),
            decreases existing@.len() - k,
        {
            actions.push(FsAction::Remove { filename: existing[k].clone() });
            proof {
                assert(actions@[k as int]@ == (FsActionView::Remove { filename: existingv[k as int] }));
            }
            k += 1;
        }
        dir.remove_prefixed(prefix.as_str());
        changetype = Changetype::Removed;
        proof {
            assert(action_views(actions@) =~= existingv.map_values(
                |n: Seq<char>| FsActionView::Remove { filename: n },
            ));
            assert(action_views(actions@) =~= step1.actions);
        }
    } else {
        proof {
            assert(action_views(actions@) =~= step1.actions);
        }
    }
    proof {
        assert(dir@ == step1.dir);
        assert(changetype == step1.changetype);
        assert(action_views(actions@) == step1.actions);
    }

    let mut user_events = build_user_events(&content.config, sources);
    sort_by_start_time(&mut user_events);
    let ghost events = spec_sort_events(spec_user_events(cv.config, source_views(sources@)));
    proof {
        assert(event_views(user_events@) == events);
    }

    if user_events.len() == 0 {
        proof {
            assert(events.len() == 0);
        }
        if dir.contains_file(ics_filename.as_str()) {
            dir.remove_file(ics_filename.as_str());
            actions.push(FsAction::Remove { filename: ics_filename.clone() });
            changetype = Changetype::Removed;
            proof {
                assert(action_views(actions@) =~= step1.actions.push(
                    FsActionView::Remove { filename: target },
                ));
            }
        } else {
            if matches!(changetype, Changetype::Same) {
                changetype = Changetype::Skipped;
            }
        }
        let name = content.chat.first_name.clone();
        return (
            Buildresult { changestatus: Changestatus { name, changetype }, filename: ics_filename },
            actions,
        );
    }
    proof {
        assert(events.len() > 0);
    }
    let ics_content = generate_ics(content.chat.first_name.as_str(), &user_events);
    let ghost text = spec_generate_ics(cv.chat.first_name, events);
    proof {
        assert(ics_content@ == text);
    }
    match dir.read_file(ics_filename.as_str()) {
        Some(current) => {
            if !str_eq(ics_content.as_str(), current.as_str()) {
                let stored = ics_content.clone();
                dir.write_file(ics_filename.as_str(), stored);
                actions.push(
                    FsAction::Write { filename: ics_filename.clone(), content: ics_content },
                );
                changetype = Changetype::Changed;
                proof {
                    assert(action_views(actions@) =~= step1.actions.push(
                        FsActionView::Write { filename: target, content: text },
                    ));
                }
            }
        },
        None => {
            let stored = ics_content.clone();
            dir.write_file(ics_filename.as_str(), stored);
            actions.push(
                FsAction::Write { filename: ics_filename.clone(), content: ics_content },
            );
            changetype = Changetype::Added;
            proof {
                assert(action_views(actions@) =~= step1.actions.push(
                    FsActionView::Write { filename: target, content: text },
                ));
            }
        },
    }
    let name = content.chat.first_name.clone();
    (Buildresult { changestatus: Changestatus { name, changetype }, filename: ics_filename }, actions)
}

/// Reconciles one subscriber and reports the outcome classification.
pub fn one(content: &UserconfigFile, sources: &Vec<EventSource>, dir: &mut OutputDir) -> (r: (
    Changestatus,
    Vec<FsAction>,
))
    requires
        old(dir).wf(),
    ensures
        final(dir).wf(),
        ({
            let o = spec_one(content@, source_views(sources@), old(dir)@);
            &&& final(dir)@ == o.dir
            &&& r.0.changetype == o.changetype
            &&& r.0.name@ == content@.chat.first_name
            &&& action_views(r.1@) == o.actions
        }),
{
    let (buildresult, actions) = one_internal(content, sources, dir);
    (buildresult.changestatus, actions)
}

/// Reconciles the one subscriber whose configuration changed.
pub fn do_specific(content: &UserconfigFile, sources: &Vec<EventSource>, dir: &mut OutputDir) -> (r:
    (Changestatus, Vec<FsAction>))
    requires
        old(dir).wf(),
    ensures
        final(dir).wf(),
        ({
            let o = spec_one(content@, source_views(sources@), old(dir)@);
            &&& final(dir)@ == o.dir
            &&& r.0.changetype == o.changetype
            &&& r.0.name@ == content@.chat.first_name
            &&& action_views(r.1@) == o.actions
        }),
{
    one(content, sources, dir)
}

/// The entries a lookup hands out are those of one of the sources.
proof fn lemma_lookup_source_wf(sources: Seq<EventSourceView>, name: Seq<char>)
    requires
        forall|i: int| 0 <= i < sources.len() ==> (#[trigger] sources[i]).wf(),
    ensures
        spec_lookup_source(sources, name) is Some ==> ({
            let entries = spec_lookup_source(sources, name)->0;
            forall|k: int| 0 <= k < entries.len() ==> (#[trigger] entries[k]).wf()
        }),
    decreases sources.len(),
{
    if sources.len() > 0 && sources[0].name != name {
        let rest = sources.drop_first();
        assert(forall|j: int| 0 <= j < rest.len() ==> rest[j] == sources[j + 1]);
        lemma_lookup_source_wf(rest, name);
    }
}

/// Folding a well-formed subscription's overrides over a working set of
/// valid timestamps keeps every timestamp valid.
proof fn lemma_fold_changes_wf(
    events: Seq<EventView>,
    changes: Seq<(DateTime, crate::userconfig::ChangeView)>,
    removed_events: RemovedEvents,
)
    requires
        forall|k: int| 0 <= k < events.len() ==> (#[trigger] events[k]).wf(),
        forall|i: int| 0 <= i < changes.len() ==> (#[trigger] changes[i]).1.wf(),
    ensures
        forall|k: int|
            0 <= k < spec_fold_changes(events, changes, removed_events).len() ==> (
            #[trigger] spec_fold_changes(events, changes, removed_events)[k]).wf(),
    decreases changes.len(),
{
    if changes.len() > 0 {
        let dl = changes.drop_last();
        assert(forall|i: int| 0 <= i < dl.len() ==> dl[i] == changes[i]);
        lemma_fold_changes_wf(events, dl, removed_events);
        assert(changes[changes.len() - 1].1.wf());
        crate::apply_changes::lemma_apply_change_wf(
            spec_fold_changes(events, dl, removed_events),
            changes.last().0,
            changes.last().1,
            removed_events,
        );
    }
}

/// The working set one group contributes holds only valid timestamps, given
/// well-formed sources and a well-formed subscription.
proof fn lemma_group_contribution_wf(
    name: Seq<char>,
    d: EventDetailsView,
    removed_events: RemovedEvents,
    sources: Seq<EventSourceView>,
)
    requires
        d.wf(),
        forall|i: int| 0 <= i < sources.len() ==> (#[trigger] sources[i]).wf(),
    ensures
        forall|k: int|
            0 <= k < spec_group_contribution(name, d, removed_events, sources).len() ==> (
            #[trigger] spec_group_contribution(name, d, removed_events, sources)[k]).wf(),
{
    if !crate::strutil::spec_has_uppercase(name) && spec_lookup_source(sources, name) is Some {
        let entries = spec_lookup_source(sources, name)->0;
        lemma_lookup_source_wf(sources, name);
        let initial = spec_initial_events(entries);
        assert(forall|k: int| 0 <= k < initial.len() ==> (#[trigger] initial[k]).wf());
        lemma_fold_changes_wf(initial, d.changes, removed_events);
        let folded = spec_fold_changes(initial, d.changes, removed_events);
        let merged = spec_apply_details_all(folded, d);
        assert(forall|k: int| 0 <= k < merged.len() ==> (#[trigger] merged[k]).wf());
    }
}

/// Valid civil times flow through the whole pipeline: when every override and
/// every occurrence read for the subscriber carries well-formed timestamps,
/// so does every event of the merged, sorted working set the renderer sees.
pub proof fn lemma_user_events_wf(config: UserconfigView, sources: Seq<EventSourceView>)
    ensures
        config.wf() && (forall|i: int| 0 <= i < sources.len() ==> (#[trigger] sources[i]).wf())
            ==> ({
            let sorted = spec_sort_events(spec_user_events(config, sources));
            forall|k: int| 0 <= k < sorted.len() ==> (#[trigger] sorted[k]).wf()
        }),
    decreases config.events.len(),
{
    if config.wf() && (forall|i: int| 0 <= i < sources.len() ==> (#[trigger] sources[i]).wf()) {
        let merged = spec_user_events(config, sources);
        lemma_merged_events_wf(config, sources);
        crate::sorting::lemma_sort_events_membership(merged);
        let sorted = spec_sort_events(merged);
        assert forall|k: int| 0 <= k < sorted.len() implies (#[trigger] sorted[k]).wf() by {
            assert(merged.contains(sorted[k]));
            let j = choose|j: int| 0 <= j < merged.len() && merged[j] == sorted[k];
            assert(merged[j].wf());
        }
    }
}

proof fn lemma_merged_events_wf(config: UserconfigView, sources: Seq<EventSourceView>)
    requires
        config.wf(),
        forall|i: int| 0 <= i < sources.len() ==> (#[trigger] sources[i]).wf(),
    ensures
        forall|k: int|
            0 <= k < spec_user_events(config, sources).len() ==> (#[trigger] spec_user_events(
                config,
                sources,
            )[k]).wf(),
    decreases config.events.len(),
{
    if config.events.len() > 0 {
        let prefix = UserconfigView { events: config.events.drop_last(), ..config };
        assert(prefix.wf()) by {
            assert(forall|i: int|
                0 <= i < prefix.events.len() ==> prefix.events[i] == config.events[i]);
        }
        lemma_merged_events_wf(prefix, sources);
        assert(config.events[config.events.len() - 1].1.wf());
        lemma_group_contribution_wf(
            config.events.last().0,
            config.events.last().1,
            config.removed_events,
            sources,
        );
        let whole = spec_user_events(config, sources);
        let left = spec_user_events(prefix, sources);
        let right = spec_group_contribution(
            config.events.last().0,
            config.events.last().1,
            config.removed_events,
            sources,
        );
        assert(whole == left + right);
        assert forall|k: int| 0 <= k < whole.len() implies (#[trigger] whole[k]).wf() by {
            if k < left.len() {
                assert(whole[k] == left[k]);
            } else {
                assert(whole[k] == right[k - left.len()]);
            }
        }
    }
}

/// With unique names, the file found at an index is the one `dir_index_of`
/// picks.
proof fn lemma_index_of_unique(d: Seq<(Seq<char>, Seq<char>)>, name: Seq<char>, i: int)
    requires
        crate::output_dir::dir_wf(d),
        0 <= i < d.len(),
        d[i].0 == name,
    ensures
        dir_contains(d, name),
        crate::output_dir::dir_index_of(d, name) == i,
{
    assert(dir_contains(d, name));
    let k = crate::output_dir::dir_index_of(d, name);
    assert(0 <= k < d.len() && d[k].0 == name);
    if k != i {
        assert(d[k].0 != d[i].0);
    }
}

/// With unique names, of which every prefixed one is the target, the listing
/// of prefixed names is exactly the target when present and empty otherwise.
proof fn lemma_prefixed_listing(d: Seq<(Seq<char>, Seq<char>)>, prefix: Seq<char>, target: Seq<char>)
    requires
        crate::output_dir::dir_wf(d),
        spec_starts_with(target, prefix),
        forall|j: int|
            0 <= j < d.len() && spec_starts_with((#[trigger] d[j]).0, prefix) ==> d[j].0 == target,
    ensures
        dir_contains(d, target) ==> spec_existing(d, prefix) =~= seq![target],
        !dir_contains(d, target) ==> spec_existing(d, prefix) =~= Seq::<Seq<char>>::empty(),
{
    let names = crate::output_dir::dir_names(d);
    let p = crate::output_dir::name_has_prefix(prefix);
    assert(forall|j: int| 0 <= j < names.len() ==> (#[trigger] names[j]) == d[j].0);
    if dir_contains(d, target) {
        let t0 = choose|t0: int| 0 <= t0 < d.len() && (#[trigger] d[t0]).0 == target;
        assert(p(names[t0]));
        assert forall|j: int| 0 <= j < names.len() && j != t0 implies !p(#[trigger] names[j]) by {
            if p(names[j]) {
                assert(d[j].0 == target);
                assert(d[j].0 != d[t0].0);
            }
        }
        crate::output_dir::lemma_filter_single(names, p, t0);
    } else {
        assert forall|j: int| 0 <= j < names.len() implies !p(#[trigger] names[j]) by {
            if p(names[j]) {
                assert(d[j].0 == target);
                assert(dir_contains(d, target));
            }
        }
        crate::output_dir::lemma_filter_none(names, p);
    }
}

/// After the filename-drift step the directory is still well-formed, and the
/// only file carrying the subscriber's prefix, if any, is the target itself.
proof fn lemma_step1_shape(c: UserconfigFileView, dir: Seq<(Seq<char>, Seq<char>)>)
    requires
        crate::output_dir::dir_wf(dir),
    ensures
        ({
            let step1 = spec_reconcile_names(c, dir);
            let prefix = spec_user_prefix(c.chat.id);
            let target = spec_target_filename(c);
            &&& crate::output_dir::dir_wf(step1.dir)
            &&& forall|j: int|
                0 <= j < step1.dir.len() && spec_starts_with(
                    (#[trigger] step1.dir[j]).0,
                    prefix,
                ) ==> step1.dir[j].0 == target
        }),
{
    let step1 = spec_reconcile_names(c, dir);
    let prefix = spec_user_prefix(c.chat.id);
    let target = spec_target_filename(c);
    let names = crate::output_dir::dir_names(dir);
    let p = crate::output_dir::name_has_prefix(prefix);
    let existing = spec_existing(dir, prefix);
    lemma_target_has_prefix(c);
    lemma_filter_elements(names, p);
    assert(forall|j: int| 0 <= j < names.len() ==> (#[trigger] names[j]) == dir[j].0);
    if existing.len() == 1 && existing[0] != target {
        assert(names.contains(existing[0]));
        let i0 = choose|i0: int| 0 <= i0 < names.len() && names[i0] == existing[0];
        lemma_index_of_unique(dir, existing[0], i0);
        let d1 = step1.dir;
        assert(d1 == dir.update(i0, (target, dir[i0].1)));
        // any other prefixed file would be a second element of the listing
        assert forall|j: int|
            0 <= j < d1.len() && j != i0 implies !spec_starts_with((#[trigger] d1[j]).0, prefix) by {
            if spec_starts_with(d1[j].0, prefix) {
                assert(d1[j] == dir[j]);
                assert(p(names[j]));
                names.lemma_filter_contains(p, j);
                assert(existing.contains(names[j]));
                assert(names[j] == existing[0]);
                assert(dir[j].0 == dir[i0].0);
                assert(false);
            }
        }
        assert forall|a: int, b: int|
            #![trigger d1[a], d1[b]]
            0 <= a < b < d1.len() implies d1[a].0 != d1[b].0 by {
            if a != i0 && b != i0 {
                assert(dir[a].0 != dir[b].0);
            } else if a == i0 {
                // a second file named target would carry the prefix
                if d1[b].0 == target {
                    assert(spec_starts_with(d1[b].0, prefix));
                    assert(false);
                }
            } else {
                if d1[a].0 == target {
                    assert(spec_starts_with(d1[a].0, prefix));
                    assert(false);
                }
            }
        }
    } else if existing.len() > 1 {
        let keep = crate::output_dir::file_without_prefix(prefix);
        crate::output_dir::lemma_filter_dir_wf(dir, keep);
        lemma_filter_elements(dir, keep);
        assert forall|j: int|
            0 <= j < step1.dir.len() && spec_starts_with(
                (#[trigger] step1.dir[j]).0,
                prefix,
            ) implies step1.dir[j].0 == target by {
            assert(keep(step1.dir[j]));
        }
    } else {
        assert forall|j: int|
            0 <= j < dir.len() && spec_starts_with((#[trigger] dir[j]).0, prefix) implies dir[j].0
            == target by {
            assert(p(names[j]));
            names.lemma_filter_contains(p, j);
            assert(existing.contains(names[j]));
            assert(existing.len() == 1 && names[j] == existing[0]);
            assert(existing[0] == target);
        }
    }
}

/// After one full run the directory is well-formed, the only file with the
/// subscriber's prefix is the target, and the target exists exactly when the
/// merged working set was non-empty — then with the freshly rendered content.
proof fn lemma_one_shape(
    c: UserconfigFileView,
    sources: Seq<EventSourceView>,
    dir: Seq<(Seq<char>, Seq<char>)>,
)
    requires
        crate::output_dir::dir_wf(dir),
    ensures
        ({
            let o = spec_one(c, sources, dir);
            let prefix = spec_user_prefix(c.chat.id);
            let target = spec_target_filename(c);
            let events = spec_sort_events(spec_user_events(c.config, sources));
            &&& crate::output_dir::dir_wf(o.dir)
            &&& forall|j: int|
                0 <= j < o.dir.len() && spec_starts_with((#[trigger] o.dir[j]).0, prefix)
                    ==> o.dir[j].0 == target
            &&& (events.len() == 0 ==> !dir_contains(o.dir, target))
            &&& (events.len() > 0 ==> dir_contains(o.dir, target) && dir_content(o.dir, target)
                == spec_generate_ics(c.chat.first_name, events))
        }),
{
    reveal(spec_one);
    let o = spec_one(c, sources, dir);
    let prefix = spec_user_prefix(c.chat.id);
    let target = spec_target_filename(c);
    let events = spec_sort_events(spec_user_events(c.config, sources));
    let text = spec_generate_ics(c.chat.first_name, events);
    let step1 = spec_reconcile_names(c, dir);
    let d1 = step1.dir;
    lemma_step1_shape(c, dir);
    lemma_target_has_prefix(c);
    if events.len() == 0 {
        if dir_contains(d1, target) {
            let t0 = choose|t0: int| 0 <= t0 < d1.len() && (#[trigger] d1[t0]).0 == target;
            lemma_index_of_unique(d1, target, t0);
            assert(o.dir == d1.remove(t0));
            d1.remove_ensures(t0);
            assert forall|j: int| 0 <= j < o.dir.len() implies !spec_starts_with(
                (#[trigger] o.dir[j]).0,
                prefix,
            ) by {
                let src = if j < t0 {
                    j
                } else {
                    j + 1
                };
                assert(o.dir[j] == d1[src]);
                if spec_starts_with(d1[src].0, prefix) {
                    assert(d1[src].0 == target);
                    assert(d1[src].0 != d1[t0].0);
                }
            }
            assert forall|a: int, b: int|
                #![trigger o.dir[a], o.dir[b]]
                0 <= a < b < o.dir.len() implies o.dir[a].0 != o.dir[b].0 by {
                let sa = if a < t0 {
                    a
                } else {
                    a + 1
                };
                let sb = if b < t0 {
                    b
                } else {
                    b + 1
                };
                assert(o.dir[a] == d1[sa] && o.dir[b] == d1[sb]);
            }
            if dir_contains(o.dir, target) {
                let w = choose|w: int| 0 <= w < o.dir.len() && (#[trigger] o.dir[w]).0 == target;
                assert(spec_starts_with(o.dir[w].0, prefix));
            }
        } else {
            assert(o.dir == d1);
        }
    } else {
        if dir_contains(d1, target) {
            let t0 = choose|t0: int| 0 <= t0 < d1.len() && (#[trigger] d1[t0]).0 == target;
            lemma_index_of_unique(d1, target, t0);
            if dir_content(d1, target) == text {
                assert(o.dir == d1);
                assert(dir_content(o.dir, target) == text);
            } else {
                assert(o.dir == d1.update(t0, (target, text)));
                assert forall|a: int, b: int|
                    #![trigger o.dir[a], o.dir[b]]
                    0 <= a < b < o.dir.len() implies o.dir[a].0 != o.dir[b].0 by {
                    assert(d1[a].0 != d1[b].0);
                }
                lemma_index_of_unique(o.dir, target, t0);
                assert(dir_content(o.dir, target) == text);
                assert forall|j: int|
                    0 <= j < o.dir.len() && spec_starts_with((#[trigger] o.dir[j]).0, prefix)
                    implies o.dir[j].0 == target by {
                    if j != t0 {
                        assert(o.dir[j] == d1[j]);
                    }
                }
            }
        } else {
            assert(o.dir == d1.push((target, text)));
            let last = d1.len() as int;
            assert forall|a: int, b: int|
                #![trigger o.dir[a], o.dir[b]]
                0 <= a < b < o.dir.len() implies o.dir[a].0 != o.dir[b].0 by {
                if b == last {
                    if d1[a].0 == target {
                        assert(dir_contains(d1, target));
                    }
                } else {
                    assert(d1[a].0 != d1[b].0);
                }
            }
            lemma_index_of_unique(o.dir, target, last);
            assert(dir_content(o.dir, target) == text);
            assert forall|j: int|
                0 <= j < o.dir.len() && spec_starts_with((#[trigger] o.dir[j]).0, prefix) implies
                o.dir[j].0 == target by {
                if j != last {
                    assert(o.dir[j] == d1[j]);
                }
            }
        }
    }
}

/// Idempotence: reconciling a second time with no input changes leaves the
/// directory exactly as the first run left it, performs no filesystem action,
/// and classifies the run `Same` — or `Skipped` when the merged working set
/// is empty, in which case the first run left no artifact either.
pub proof fn lemma_one_idempotent(
    c: UserconfigFileView,
    sources: Seq<EventSourceView>,
    dir: Seq<(Seq<char>, Seq<char>)>,
)
    requires
        crate::output_dir::dir_wf(dir),
    ensures
        ({
            let r1 = spec_one(c, sources, dir);
            let r2 = spec_one(c, sources, r1.dir);
            let events = spec_sort_events(spec_user_events(c.config, sources));
            &&& r2.dir == r1.dir
            &&& r2.actions == Seq::<FsActionView>::empty()
            &&& (events.len() > 0 ==> r2.changetype == Changetype::Same)
            &&& (events.len() == 0 ==> r2.changetype == Changetype::Skipped)
        }),
{
    reveal(spec_one);
    let r1 = spec_one(c, sources, dir);
    let r2 = spec_one(c, sources, r1.dir);
    let prefix = spec_user_prefix(c.chat.id);
    let target = spec_target_filename(c);
    let events = spec_sort_events(spec_user_events(c.config, sources));
    let text = spec_generate_ics(c.chat.first_name, events);
    lemma_one_shape(c, sources, dir);
    lemma_target_has_prefix(c);
    lemma_prefixed_listing(r1.dir, prefix, target);
    let step2 = spec_reconcile_names(c, r1.dir);
    if events.len() == 0 {
        assert(spec_existing(r1.dir, prefix) =~= Seq::<Seq<char>>::empty());
        assert(step2.dir == r1.dir && step2.changetype == Changetype::Same && step2.actions
            =~= Seq::<FsActionView>::empty());
        assert(!dir_contains(step2.dir, target));
    } else {
        assert(spec_existing(r1.dir, prefix) =~= seq![target]);
        assert(spec_existing(r1.dir, prefix)[0] == target);
        assert(step2.dir == r1.dir && step2.changetype == Changetype::Same && step2.actions
            =~= Seq::<FsActionView>::empty());
        assert(dir_contains(step2.dir, target));
        assert(dir_content(step2.dir, target) == text);
    }
}

/// The views of a batch of subscribers with their read sources.
pub open spec fn batch_views(list: Seq<(UserconfigFile, Vec<EventSource>)>) -> Seq<
    (UserconfigFileView, Seq<EventSourceView>),
> {
    list.map_values(|u: (UserconfigFile, Vec<EventSource>)| (u.0@, source_views(u.1@)))
}

/// The state a batch run threads from subscriber to subscriber.
#[verifier::ext_equal]
pub ghost struct BatchState {
    pub changestati: Seq<crate::changestatus::ChangestatusView>,
    pub produced: Seq<Seq<char>>,
    pub dir: Seq<(Seq<char>, Seq<char>)>,
    pub actions: Seq<FsActionView>,
}

/// Every subscriber reconciled in order; each run's outcome is collected
/// under the subscriber's display name and its target artifact name goes into
/// the produced set.
pub open spec fn spec_run_users(
    list: Seq<(UserconfigFileView, Seq<EventSourceView>)>,
    dir: Seq<(Seq<char>, Seq<char>)>,
) -> BatchState
    decreases list.len(),
{
    if list.len() == 0 {
        BatchState {
            changestati: Seq::empty(),
            produced: Seq::empty(),
            dir,
            actions: Seq::empty(),
        }
    } else {
        let prev = spec_run_users(list.drop_last(), dir);
        let o = spec_one(list.last().0, list.last().1, prev.dir);
        BatchState {
            changestati: prev.changestati.push(
                crate::changestatus::ChangestatusView {
                    name: list.last().0.chat.first_name,
                    changetype: o.changetype,
                },
            ),
            produced: prev.produced.push(o.filename),
            dir: o.dir,
            actions: prev.actions + o.actions,
        }
    }
}

/// The predicate holding of a file whose name is in the produced set.
pub open spec fn file_is_produced(produced: Seq<Seq<char>>) -> spec_fn(
    (Seq<char>, Seq<char>),
) -> bool {
    |f: (Seq<char>, Seq<char>)| produced.contains(f.0)
}

/// The predicate holding of an orphaned file: its name is not in the
/// produced set.
pub open spec fn file_is_orphan(produced: Seq<Seq<char>>) -> spec_fn(
    (Seq<char>, Seq<char>),
) -> bool {
    |f: (Seq<char>, Seq<char>)| !produced.contains(f.0)
}

pub open spec fn spec_orphan_files(
    d: Seq<(Seq<char>, Seq<char>)>,
    produced: Seq<Seq<char>>,
) -> Seq<(Seq<char>, Seq<char>)> {
    d.filter(file_is_orphan(produced))
}

pub open spec fn spec_cleanup_dir(
    d: Seq<(Seq<char>, Seq<char>)>,
    produced: Seq<Seq<char>>,
) -> Seq<(Seq<char>, Seq<char>)> {
    d.filter(file_is_produced(produced))
}

pub open spec fn spec_cleanup_statuses(
    d: Seq<(Seq<char>, Seq<char>)>,
    produced: Seq<Seq<char>>,
) -> Seq<crate::changestatus::ChangestatusView> {
    spec_orphan_files(d, produced).map_values(
        |f: (Seq<char>, Seq<char>)|
            crate::changestatus::ChangestatusView { name: f.0, changetype: Changetype::Removed },
    )
}

pub open spec fn spec_cleanup_actions(
    d: Seq<(Seq<char>, Seq<char>)>,
    produced: Seq<Seq<char>>,
) -> Seq<FsActionView> {
    spec_orphan_files(d, produced).map_values(
        |f: (Seq<char>, Seq<char>)| FsActionView::Remove { filename: f.0 },
    )
}

/// A whole batch pass: every subscriber reconciled in order, then every
/// artifact file whose name no run produced deleted, each such deletion
/// classified `Removed` under the file's own name.
pub open spec fn spec_all_remove_rest(
    list: Seq<(UserconfigFileView, Seq<EventSourceView>)>,
    dir: Seq<(Seq<char>, Seq<char>)>,
) -> BatchState {
    let run = spec_run_users(list, dir);
    BatchState {
        changestati: run.changestati + spec_cleanup_statuses(run.dir, run.produced),
        produced: run.produced,
        dir: spec_cleanup_dir(run.dir, run.produced),
        actions: run.actions + spec_cleanup_actions(run.dir, run.produced),
    }
}

/// Each run's produced name is its subscriber's target artifact name.
pub proof fn lemma_run_users_produced(
    list: Seq<(UserconfigFileView, Seq<EventSourceView>)>,
    dir: Seq<(Seq<char>, Seq<char>)>,
)
    ensures
        spec_run_users(list, dir).produced.len() == list.len(),
        forall|u: int|
            0 <= u < list.len() ==> spec_run_users(list, dir).produced[u] == spec_target_filename(
                (#[trigger] list[u]).0,
            ),
    decreases list.len(),
{
    reveal(spec_one);
    if list.len() > 0 {
        lemma_run_users_produced(list.drop_last(), dir);
        assert(forall|u: int| 0 <= u < list.len() - 1 ==> list.drop_last()[u] == list[u]);
    }
}

/// Runs every subscriber's reconciliation in order, collecting the outcome
/// classifications, the produced artifact names, and the actions.
#[verifier::spinoff_prover]
fn run_users(list: &Vec<(UserconfigFile, Vec<EventSource>)>, dir: &mut OutputDir) -> (r: (
    Vec<Changestatus>,
    Vec<String>,
    Vec<FsAction>,
))
    requires
        old(dir).wf(),
    ensures
        final(dir).wf(),
        ({
            let run = spec_run_users(batch_views(list@), old(dir)@);
            &&& crate::changestatus::changestatus_views(r.0@) == run.changestati
            &&& views_of(r.1@) == run.produced
            &&& final(dir)@ == run.dir
            &&& action_views(r.2@) == run.actions
        }),
{
    let ghost listv = batch_views(list@);
    let ghost dv = old(dir)@;

    let mut changestati: Vec<Changestatus> = Vec::new();
    let mut produced: Vec<String> = Vec::new();
    let mut actions: Vec<FsAction> = Vec::new();

    let mut i: usize = 0;
    proof {
        assert(crate::changestatus::changestatus_views(changestati@) =~= spec_run_users(
            listv.take(0),
            dv,
        ).changestati);
        assert(views_of(produced@) =~= spec_run_users(listv.take(0), dv).produced);
        assert(action_views(actions@) =~= spec_run_users(listv.take(0), dv).actions);
        assert(listv.take(0) =~= Seq::empty());
    }
    while i < list.len()
        invariant
            0 <= i <= list@.len(),
            listv == batch_views(list@),
            dv == old(dir)@,
            dir.wf(),
            crate::changestatus::changestatus_views(changestati@) == spec_run_users(
                listv.take(i as int),
                dv,
            ).changestati,
            views_of(produced@) == spec_run_users(listv.take(i as int), dv).produced,
            dir@ == spec_run_users(listv.take(i as int), dv).dir,
            action_views(actions@) == spec_run_users(listv.take(i as int), dv).actions,
        decreases list@.len() - i,
    {
        let ghost prev = spec_run_users(listv.take(i as int), dv);
        proof {
            assert(listv.take(i + 1).drop_last() =~= listv.take(i as int));
            assert(listv.take(i + 1).last() == listv[i as int]);
            assert(listv[i as int] == (list@[i as int].0@, source_views(list@[i as int].1@)));
        }
        let (buildresult, mut new_actions) = one_internal(&list[i].0, &list[i].1, dir);
        changestati.push(buildresult.changestatus);
        produced.push(buildresult.filename);
        actions.append(&mut new_actions);
        proof {
            let cur = spec_run_users(listv.take(i + 1), dv);
            assert(crate::changestatus::changestatus_views(changestati@) =~= cur.changestati);
            assert(views_of(produced@) =~= cur.produced);
            assert(action_views(actions@) =~= cur.actions);
        }
        i += 1;
    }
    proof {
        assert(listv.take(list@.len() as int) =~= listv);
    }
    (changestati, produced, actions)
}

/// Deletes every artifact whose name is not in the produced set, reporting
/// each deletion under the file's own name.
fn cleanup_orphans(produced: &Vec<String>, dir: &mut OutputDir) -> (r: (
    Vec<Changestatus>,
    Vec<FsAction>,
))
    requires
        old(dir).wf(),
    ensures
        final(dir).wf(),
        final(dir)@ == spec_cleanup_dir(old(dir)@, views_of(produced@)),
        crate::changestatus::changestatus_views(r.0@) == spec_cleanup_statuses(
            old(dir)@,
            views_of(produced@),
        ),
        action_views(r.1@) == spec_cleanup_actions(old(dir)@, views_of(produced@)),
{
    let ghost d2 = old(dir)@;
    let ghost pv = views_of(produced@);
    let ghost pkeep = file_is_produced(pv);
    let ghost porph = file_is_orphan(pv);

    let mut changestati: Vec<Changestatus> = Vec::new();
    let mut actions: Vec<FsAction> = Vec::new();
    let mut kept: Vec<(String, String)> = Vec::new();
    let ghost mut done: int = 0;
    proof {
        reveal(Seq::filter);
        assert(crate::output_dir::dir_view(kept@) =~= d2.take(0).filter(pkeep));
        assert(spec_orphan_files(d2.take(0), pv) =~= Seq::<(Seq<char>, Seq<char>)>::empty());
        assert(crate::changestatus::changestatus_views(changestati@) =~= spec_cleanup_statuses(
            d2.take(0),
            pv,
        ));
        assert(action_views(actions@) =~= spec_cleanup_actions(d2.take(0), pv));
    }
    while dir.files.len() > 0
        invariant
            0 <= done <= d2.len(),
            done + dir.files@.len() == d2.len(),
            crate::output_dir::dir_view(dir.files@) =~= d2.skip(done),
            pv == views_of(produced@),
            pkeep == file_is_produced(pv),
            porph == file_is_orphan(pv),
            crate::output_dir::dir_view(kept@) == d2.take(done).filter(pkeep),
            crate::changestatus::changestatus_views(changestati@) == spec_cleanup_statuses(
                d2.take(done),
                pv,
            ),
            action_views(actions@) == spec_cleanup_actions(d2.take(done), pv),
        decreases dir.files@.len(),
    {
        let ghost before = crate::output_dir::dir_view(dir.files@);
        let f = dir.files.remove(0);
        proof {
            reveal(Seq::filter);
            assert(before[0] == (f.0@, f.1@));
            assert(d2.skip(done)[0] == d2[done]);
            assert(crate::output_dir::dir_view(dir.files@) =~= before.drop_first());
            assert(crate::output_dir::dir_view(dir.files@) =~= d2.skip(done + 1));
            assert(d2.take(done + 1).drop_last() =~= d2.take(done));
            assert(d2.take(done + 1).last() == d2[done]);
        }
        if crate::strutil::contains_str(produced, f.0.as_str()) {
            proof {
                assert(pkeep(d2[done]));
                assert(!porph(d2[done]));
            }
            kept.push(f);
            proof {
                assert(crate::output_dir::dir_view(kept@) =~= d2.take(done + 1).filter(pkeep));
                assert(spec_orphan_files(d2.take(done + 1), pv) =~= spec_orphan_files(
                    d2.take(done),
                    pv,
                ));
                assert(crate::changestatus::changestatus_views(changestati@) =~= spec_cleanup_statuses(
                    d2.take(done + 1),
                    pv,
                ));
                assert(action_views(actions@) =~= spec_cleanup_actions(d2.take(done + 1), pv));
            }
        } else {
            proof {
                assert(!pkeep(d2[done]));
                assert(porph(d2[done]));
            }
            let ghost prev_sts = changestati@;
            let ghost prev_acts = actions@;
            changestati.push(Changestatus { name: f.0.clone(), changetype: Changetype::Removed });
            actions.push(FsAction::Remove { filename: f.0 });
            proof {
                assert(crate::output_dir::dir_view(kept@) =~= d2.take(done + 1).filter(pkeep));
                let orph = spec_orphan_files(d2.take(done), pv);
                let orph1 = spec_orphan_files(d2.take(done + 1), pv);
                assert(orph1 =~= orph.push(d2[done]));
                let sts = spec_cleanup_statuses(d2.take(done), pv);
                let sts1 = spec_cleanup_statuses(d2.take(done + 1), pv);
                assert(changestati@ == prev_sts.push(
                    Changestatus { name: f.0, changetype: Changetype::Removed },
                ));
                assert(crate::changestatus::changestatus_views(prev_sts).len() == prev_sts.len());
                assert(sts1.len() == prev_sts.len() + 1);
                let lsts = crate::changestatus::changestatus_views(changestati@);
                assert(lsts.len() == prev_sts.len() + 1);
                assert forall|k: int| 0 <= k < lsts.len() implies lsts[k] == sts1[k] by {
                    if k < prev_sts.len() {
                        assert(changestati@[k] == prev_sts[k]);
                        assert(lsts[k] == crate::changestatus::changestatus_views(prev_sts)[k]);
                        assert(orph1[k] == orph[k]);
                        assert(sts1[k] == sts[k]);
                    } else {
                        assert(changestati@[k] == (Changestatus {
                            name: f.0,
                            changetype: Changetype::Removed,
                        }));
                        assert(orph1[k] == d2[done]);
                        assert(sts1[k] == (crate::changestatus::ChangestatusView {
                            name: d2[done].0,
                            changetype: Changetype::Removed,
                        }));
                    }
                }
                assert(lsts =~= sts1);
                let acts = spec_cleanup_actions(d2.take(done), pv);
                let acts1 = spec_cleanup_actions(d2.take(done + 1), pv);
                assert(actions@ == prev_acts.push(FsAction::Remove { filename: f.0 }));
                assert(action_views(prev_acts).len() == prev_acts.len());
                assert(acts1.len() == prev_acts.len() + 1);
                let lacts = action_views(actions@);
                assert(lacts.len() == prev_acts.len() + 1);
                assert forall|k: int| 0 <= k < lacts.len() implies lacts[k] == acts1[k] by {
                    if k < prev_acts.len() {
                        assert(actions@[k] == prev_acts[k]);
                        assert(lacts[k] == action_views(prev_acts)[k]);
                        assert(orph1[k] == orph[k]);
                        assert(acts1[k] == acts[k]);
                    } else {
                        assert(actions@[k] == (FsAction::Remove { filename: f.0 }));
                        assert(orph1[k] == d2[done]);
                        assert(acts1[k] == (FsActionView::Remove { filename: d2[done].0 }));
                    }
                }
                assert(lacts =~= acts1);
            }
        }
        proof {
            done = done + 1;
        }
    }
    dir.files = kept;
    proof {
        assert(d2.take(done) =~= d2);
        crate::output_dir::lemma_filter_dir_wf(d2, pkeep);
    }
    (changestati, actions)
}

/// Every artifact the cleanup keeps is the target of a subscriber in the
/// batch.
#[verifier::rlimit(100)]
#[verifier::spinoff_prover]
proof fn lemma_cleanup_dir_targets(
    listv: Seq<(UserconfigFileView, Seq<EventSourceView>)>,
    dv: Seq<(Seq<char>, Seq<char>)>,
)
    ensures
        ({
            let run = spec_run_users(listv, dv);
            let cleaned = spec_cleanup_dir(run.dir, run.produced);
            forall|k: int|
                0 <= k < cleaned.len() ==> exists|u: int|
                    0 <= u < listv.len() && (#[trigger] cleaned[k]).0 == spec_target_filename(
                        listv[u].0,
                    )
        }),
{
    let run = spec_run_users(listv, dv);
    let cleaned = spec_cleanup_dir(run.dir, run.produced);
    lemma_run_users_produced(listv, dv);
    crate::output_dir::lemma_filter_elements(run.dir, file_is_produced(run.produced));
    assert forall|k: int| 0 <= k < cleaned.len() implies exists|u: int|
        0 <= u < listv.len() && (#[trigger] cleaned[k]).0 == spec_target_filename(listv[u].0) by {
        assert(file_is_produced(run.produced)(cleaned[k]));
        assert(run.produced.contains(cleaned[k].0));
        let u = choose|u: int| 0 <= u < run.produced.len() && run.produced[u] == cleaned[k].0;
        assert(run.produced[u] == spec_target_filename(listv[u].0));
    }
}

/// Reconciles every subscriber, then deletes every artifact that no run of
/// this pass produced. Afterwards each remaining artifact is the target of a
/// currently configured subscriber.
pub fn all_remove_rest(
    list: &Vec<(UserconfigFile, Vec<EventSource>)>,
    dir: &mut OutputDir,
) -> (r: (Vec<Changestatus>, Vec<FsAction>))
    requires
        old(dir).wf(),
    ensures
        final(dir).wf(),
        ({
            let b = spec_all_remove_rest(batch_views(list@), old(dir)@);
            &&& final(dir)@ == b.dir
            &&& crate::changestatus::changestatus_views(r.0@) == b.changestati
            &&& action_views(r.1@) == b.actions
        }),
        // Orphan cleanup: every artifact left in the directory is the target
        // of a subscriber configured in this pass.
        forall|k: int|
            0 <= k < final(dir)@.len() ==> exists|u: int|
                0 <= u < list@.len() && (#[trigger] final(dir)@[k]).0 == spec_target_filename(
                    batch_views(list@)[u].0,
                ),
{
    let ghost listv = batch_views(list@);
    let ghost dv = old(dir)@;
    let ghost run = spec_run_users(listv, dv);

    let (mut changestati, produced, mut actions) = run_users(list, dir);
    let (mut extra_sts, mut extra_acts) = cleanup_orphans(&produced, dir);
    let ghost base_sts = changestati@;
    let ghost base_acts = actions@;
    let ghost extra_stsv = extra_sts@;
    let ghost extra_actsv = extra_acts@;
    changestati.append(&mut extra_sts);
    actions.append(&mut extra_acts);
    proof {
        assert(views_of(produced@) == run.produced);
        assert(crate::changestatus::changestatus_views(changestati@) =~= crate::changestatus::changestatus_views(
            base_sts,
        ) + crate::changestatus::changestatus_views(extra_stsv));
        assert(action_views(actions@) =~= action_views(base_acts) + action_views(extra_actsv));
        lemma_cleanup_dir_targets(listv, dv);
    }
    (changestati, actions)
}

} // verus!
