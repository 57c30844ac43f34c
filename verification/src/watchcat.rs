//! The pure half of the change detector: a batch of debounced filesystem
//! events becomes the set of distinct file names that were created or
//! modified, with deletions ignored and duplicates removed.

use vstd::prelude::*;

use crate::strutil::views_of;

verus! {

#[derive(Clone, Copy, PartialEq, Eq, Structural, Debug)]
pub enum FileEventKind {
    Create,
    Modify,
    Other,
}

/// One debounced filesystem event: its kind and the file names it touched.
pub struct FileEvent {
    pub kind: FileEventKind,
    pub filenames: Vec<String>,
}

#[verifier::ext_equal]
pub ghost struct FileEventView {
    pub kind: FileEventKind,
    pub filenames: Seq<Seq<char>>,
}

impl View for FileEvent {
    type V = FileEventView;

    open spec fn view(&self) -> FileEventView {
        FileEventView { kind: self.kind, filenames: views_of(self.filenames@) }
    }
}

pub open spec fn file_event_views(s: Seq<FileEvent>) -> Seq<FileEventView> {
    s.map_values(|e: FileEvent| e@)
}

pub open spec fn spec_reported_kind(kind: FileEventKind) -> bool {
    kind == FileEventKind::Create || kind == FileEventKind::Modify
}

/// The names of all created or modified files, in event order; deletions and
/// other events contribute nothing.
pub open spec fn spec_changed_names(events: Seq<FileEventView>) -> Seq<Seq<char>>
    decreases events.len(),
{
    if events.len() == 0 {
        Seq::empty()
    } else {
        spec_changed_names(events.drop_last()) + (if spec_reported_kind(events.last().kind) {
            events.last().filenames
        } else {
            Seq::empty()
        })
    }
}

/// Duplicates removed; the first occurrence of each name keeps its place.
pub open spec fn spec_dedup(s: Seq<Seq<char>>) -> Seq<Seq<char>>
    decreases s.len(),
{
    if s.len() == 0 {
        s
    } else {
        let prev = spec_dedup(s.drop_last());
        if prev.contains(s.last()) {
            prev
        } else {
            prev.push(s.last())
        }
    }
}

/// Deduplication returns each name of the input exactly once.
pub proof fn lemma_dedup_props(s: Seq<Seq<char>>)
    ensures
        spec_dedup(s).no_duplicates(),
        forall|x: Seq<char>| spec_dedup(s).contains(x) <==> s.contains(x),
    decreases s.len(),
{
    if s.len() > 0 {
        let dl = s.drop_last();
        lemma_dedup_props(dl);
        let prev = spec_dedup(dl);
        assert forall|x: Seq<char>| spec_dedup(s).contains(x) implies s.contains(x) by {
            if prev.contains(x) {
                assert(dl.contains(x));
                let j = choose|j: int| 0 <= j < dl.len() && dl[j] == x;
                assert(s[j] == x);
            } else {
                assert(x == s.last());
                assert(s[s.len() - 1] == x);
            }
        }
        assert forall|x: Seq<char>| s.contains(x) implies spec_dedup(s).contains(x) by {
            let j = choose|j: int| 0 <= j < s.len() && s[j] == x;
            if j < s.len() - 1 {
                assert(dl[j] == x);
                assert(dl.contains(x));
                assert(prev.contains(x));
                if !prev.contains(s.last()) {
                    let k = choose|k: int| 0 <= k < prev.len() && prev[k] == x;
                    assert(spec_dedup(s)[k] == x);
                }
            } else {
                if prev.contains(s.last()) {
                } else {
                    assert(spec_dedup(s).last() == s.last());
                }
            }
        }
    }
}

/// The distinct names of the files the given events created or modified;
/// each name is reported once, in first-appearance order.
pub fn get_changed_filenames(events: &Vec<FileEvent>) -> (r: Vec<String>)
    ensures
        views_of(r@) == spec_dedup(spec_changed_names(file_event_views(events@))),
{
    let ghost evs = file_event_views(events@);
    let mut out: Vec<String> = Vec::new();
    proof {
        assert(evs.take(0) =~= Seq::empty());
        assert(views_of(out@) =~= spec_dedup(spec_changed_names(evs.take(0))));
    }
    let mut i: usize = 0;
    while i < events.len()
        invariant
            0 <= i <= events@.len(),
            evs == file_event_views(events@),
            views_of(out@) == spec_dedup(spec_changed_names(evs.take(i as int))),
        decreases events@.len() - i,
    {
        let ghost base = spec_changed_names(evs.take(i as int));
        proof {
            assert(evs.take(i + 1).drop_last() =~= evs.take(i as int));
            assert(evs.take(i + 1).last() == evs[i as int]);
            assert(evs[i as int] == events@[i as int]@);
        }
        let reported = match events[i].kind {
            FileEventKind::Create => true,
            FileEventKind::Modify => true,
            FileEventKind::Other => false,
        };
        if reported {
            let names = &events[i].filenames;
            let ghost namesv = views_of(names@);
            let mut j: usize = 0;
            proof {
                assert(base + namesv.take(0) =~= base);
            }
            while j < names.len()
                invariant
                    0 <= j <= names@.len(),
                    namesv == views_of(names@),
                    base == spec_changed_names(evs.take(i as int)),
                    views_of(out@) == spec_dedup(base + namesv.take(j as int)),
                decreases names@.len() - j,
            {
                proof {
                    assert((base + namesv.take(j + 1)).drop_last() =~= base + namesv.take(
                        j as int,
                    ));
                    assert((base + namesv.take(j + 1)).last() == namesv[j as int]);
                    assert(namesv[j as int] == names@[j as int]@);
                }
                if !crate::strutil::contains_str(&out, names[j].as_str()) {
                    out.push(names[j].clone());
                    proof {
                        assert(views_of(out@) =~= spec_dedup(base + namesv.take(j + 1)));
                    }
                } else {
                    proof {
                        assert(views_of(out@) =~= spec_dedup(base + namesv.take(j + 1)));
                    }
                }
                j += 1;
            }
            proof {
                assert(namesv.take(names@.len() as int) =~= namesv);
                assert(base + namesv =~= spec_changed_names(evs.take(i + 1)));
            }
        } else {
            proof {
                assert(base + Seq::<Seq<char>>::empty() =~= base);
                assert(spec_changed_names(evs.take(i + 1)) =~= base);
            }
        }
        i += 1;
    }
    proof {
        assert(evs.take(events@.len() as int) =~= evs);
    }
    out
}

} // verus!
