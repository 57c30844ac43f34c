//! Stable insertion sort of a working set by event start time. An element is
//! inserted after every element already placed whose start time is less than
//! or equal to its own, so events with equal start times keep their original
//! relative order.

use vstd::prelude::*;

use crate::generate_ics::{event_views, EventView, SoonToBeIcsEvent};
use crate::time::spec_dt_le;

verus! {

/// `e` placed into `s` after every element whose start time is `<=` its own.
pub open spec fn spec_insert_sorted(e: EventView, s: Seq<EventView>) -> Seq<EventView>
    decreases s.len(),
{
    if s.len() == 0 {
        seq![e]
    } else if !spec_dt_le(s[0].start_time, e.start_time) {
        seq![e] + s
    } else {
        seq![s[0]] + spec_insert_sorted(e, s.drop_first())
    }
}

/// The stable sort of `s` by start time: each element in turn, left to right,
/// inserted into the sorted prefix.
pub open spec fn spec_sort_events(s: Seq<EventView>) -> Seq<EventView>
    decreases s.len(),
{
    if s.len() == 0 {
        Seq::empty()
    } else {
        spec_insert_sorted(s.last(), spec_sort_events(s.drop_last()))
    }
}

pub open spec fn spec_sorted_by_start(s: Seq<EventView>) -> bool {
    forall|i: int, j: int|
        #![trigger s[i], s[j]]
        0 <= i < j < s.len() ==> spec_dt_le(s[i].start_time, s[j].start_time)
}

proof fn lemma_insert_sorted_at(e: EventView, s: Seq<EventView>, j: int)
    requires
        0 <= j <= s.len(),
        forall|k: int| 0 <= k < j ==> spec_dt_le((#[trigger] s[k]).start_time, e.start_time),
        j < s.len() ==> !spec_dt_le(s[j].start_time, e.start_time),
    ensures
        spec_insert_sorted(e, s) == s.insert(j, e),
    decreases s.len(),
{
    if s.len() == 0 {
        assert(s.insert(0, e) =~= seq![e]);
    } else if !spec_dt_le(s[0].start_time, e.start_time) {
        assert(j == 0);
        assert(s.insert(0, e) =~= seq![e] + s);
    } else {
        assert(j >= 1);
        let rest = s.drop_first();
        assert(forall|k: int| 0 <= k < rest.len() ==> rest[k] == s[k + 1]);
        lemma_insert_sorted_at(e, rest, j - 1);
        assert(s.insert(j, e) =~= seq![s[0]] + rest.insert(j - 1, e));
    }
}

pub proof fn lemma_insert_sorted_props(e: EventView, s: Seq<EventView>)
    requires
        spec_sorted_by_start(s),
    ensures
        spec_sorted_by_start(spec_insert_sorted(e, s)),
        spec_insert_sorted(e, s).to_multiset() == s.to_multiset().insert(e),
        spec_insert_sorted(e, s).len() == s.len() + 1,
    decreases s.len(),
{
    broadcast use vstd::seq_lib::group_to_multiset_ensures;

    if s.len() == 0 {
        assert(seq![e] =~= Seq::empty().push(e));
        assert(seq![e].to_multiset() == s.to_multiset().insert(e));
    } else if !spec_dt_le(s[0].start_time, e.start_time) {
        let r = seq![e] + s;
        assert forall|i: int, j: int|
            #![trigger r[i], r[j]]
            0 <= i < j < r.len() implies spec_dt_le(r[i].start_time, r[j].start_time) by {
            if i == 0 {
                crate::time::lemma_dt_le_total(s[j - 1].start_time, e.start_time);
                if j >= 2 {
                    assert(spec_dt_le(s[0].start_time, s[j - 1].start_time));
                }
            }
        }
        vstd::seq_lib::lemma_multiset_commutative(seq![e], s);
        assert(seq![e].to_multiset() == Seq::empty().push(e).to_multiset());
        assert(Seq::<EventView>::empty().push(e).to_multiset() == Seq::<
            EventView,
        >::empty().to_multiset().insert(e));
        assert(r.to_multiset() =~= s.to_multiset().insert(e));
    } else {
        let rest = s.drop_first();
        assert(forall|k: int| 0 <= k < rest.len() ==> rest[k] == s[k + 1]);
        lemma_insert_sorted_props(e, rest);
        let ri = spec_insert_sorted(e, rest);
        let r = seq![s[0]] + ri;
        assert forall|i: int, j: int|
            #![trigger r[i], r[j]]
            0 <= i < j < r.len() implies spec_dt_le(r[i].start_time, r[j].start_time) by {
            if i == 0 {
                // r[j] is either e or an element of rest; s[0] precedes both.
                assert(ri.to_multiset().contains(ri[j - 1]));
                if ri[j - 1] == e {
                } else {
                    assert(rest.to_multiset().contains(ri[j - 1]));
                    let k = choose|k: int| 0 <= k < rest.len() && rest[k] == ri[j - 1];
                    assert(spec_dt_le(s[0].start_time, rest[k].start_time));
                }
            }
        }
        vstd::seq_lib::lemma_multiset_commutative(seq![s[0]], ri);
        vstd::seq_lib::lemma_multiset_commutative(seq![s[0]], rest);
        assert(seq![s[0]] + rest =~= s);
        assert(r.to_multiset() =~= s.to_multiset().insert(e));
    }
}

pub proof fn lemma_sort_events_props(s: Seq<EventView>)
    ensures
        spec_sorted_by_start(spec_sort_events(s)),
        spec_sort_events(s).to_multiset() == s.to_multiset(),
        spec_sort_events(s).len() == s.len(),
    decreases s.len(),
{
    broadcast use vstd::seq_lib::group_to_multiset_ensures;

    if s.len() > 0 {
        lemma_sort_events_props(s.drop_last());
        lemma_insert_sorted_props(s.last(), spec_sort_events(s.drop_last()));
        assert(s.drop_last().push(s.last()) =~= s);
        assert(s.drop_last().push(s.last()).to_multiset() == s.drop_last().to_multiset().insert(
            s.last(),
        ));
    }
}

/// Sorting keeps exactly the working set's events, so a property of every
/// element survives it.
pub proof fn lemma_sort_events_membership(s: Seq<EventView>)
    ensures
        forall|k: int|
            0 <= k < spec_sort_events(s).len() ==> s.contains(#[trigger] spec_sort_events(s)[k]),
{
    broadcast use vstd::seq_lib::group_to_multiset_ensures;

    lemma_sort_events_props(s);
    let r = spec_sort_events(s);
    assert forall|k: int| 0 <= k < r.len() implies s.contains(#[trigger] r[k]) by {
        assert(r.contains(r[k]));
        assert(r.to_multiset().count(r[k]) > 0);
        assert(s.to_multiset().count(r[k]) > 0);
    }
}

/// The position after every leading element whose start time is less than or
/// equal to that of `e`.
fn find_insert_pos(result: &Vec<SoonToBeIcsEvent>, e: &SoonToBeIcsEvent) -> (j: usize)
    ensures
        j <= result@.len(),
        forall|k: int| 0 <= k < j ==> spec_dt_le((#[trigger] result@[k]).start_time, e.start_time),
        j < result@.len() ==> !spec_dt_le(result@[j as int].start_time, e.start_time),
{
    let mut j: usize = 0;
    while j < result.len()
        invariant
            0 <= j <= result@.len(),
            forall|k: int|
                0 <= k < j ==> spec_dt_le((#[trigger] result@[k]).start_time, e.start_time),
        decreases result@.len() - j,
    {
        if !crate::time::datetime_le(&result[j].start_time, &e.start_time) {
            return j;
        }
        j += 1;
    }
    j
}

/// Inserts `e` after every element of the sorted vector whose start time is
/// less than or equal to its own.
fn insert_sorted(result: &mut Vec<SoonToBeIcsEvent>, e: SoonToBeIcsEvent)
    ensures
        event_views(final(result)@) == spec_insert_sorted(e@, event_views(old(result)@)),
{
    let j = find_insert_pos(result, &e);
    proof {
        let views = event_views(result@);
        assert(forall|k: int| 0 <= k < views.len() ==> views[k] == result@[k]@);
        lemma_insert_sorted_at(e@, views, j as int);
    }
    result.insert(j, e);
    proof {
        assert(event_views(result@) =~= event_views(old(result)@).insert(j as int, e@));
    }
}

/// Sorts the working set by start time; stable, so ties keep their original
/// relative order.
pub fn sort_by_start_time(events: &mut Vec<SoonToBeIcsEvent>)
    ensures
        event_views(final(events)@) == spec_sort_events(event_views(old(events)@)),
        spec_sorted_by_start(event_views(final(events)@)),
        event_views(final(events)@).to_multiset() == event_views(old(events)@).to_multiset(),
{
    let ghost orig = event_views(events@);
    let mut result: Vec<SoonToBeIcsEvent> = Vec::new();
    let ghost mut consumed: int = 0;
    proof {
        assert(orig.take(0) =~= Seq::empty());
        assert(event_views(result@) =~= Seq::empty());
    }
    while events.len() > 0
        invariant
            0 <= consumed <= orig.len(),
            consumed + events@.len() == orig.len(),
            event_views(events@) =~= orig.skip(consumed),
            event_views(result@) == spec_sort_events(orig.take(consumed)),
        decreases events@.len(),
    {
        let ghost before = event_views(events@);
        let e = events.remove(0);
        proof {
            assert(before.len() > 0);
            assert(consumed + 1 <= orig.len());
            assert(before[0] == e@);
            assert(orig.skip(consumed)[0] == orig[consumed]);
            assert(orig[consumed] == e@);
            assert(event_views(events@) =~= before.drop_first());
        }
        insert_sorted(&mut result, e);
        proof {
            assert(orig.take(consumed + 1).drop_last() =~= orig.take(consumed));
            assert(orig.take(consumed + 1).last() == orig[consumed]);
            assert(event_views(events@) =~= orig.skip(consumed + 1));
        }
        proof {
            consumed = consumed + 1;
        }
    }
    proof {
        assert(orig.take(consumed) =~= orig);
    }
    *events = result;
    proof {
        lemma_sort_events_props(orig);
    }
}

} // verus!
