//! The outcome classification of one reconciliation run, and a human-readable
//! summary of a batch of outcomes.

use vstd::prelude::*;
use vstd::string::StringExecFns;

verus! {

/// What one reconciliation did to a subscriber's artifact: nothing, content
/// overwritten, file created, file (or stale duplicates) deleted, file
/// renamed, or nothing rendered because the working set was empty.
#[derive(Clone, Copy, PartialEq, Eq, Structural, Debug)]
pub enum Changetype {
    Same,
    Changed,
    Added,
    Removed,
    Moved,
    Skipped,
}

#[derive(Clone, PartialEq, Eq, Debug)]
pub struct Changestatus {
    pub name: String,
    pub changetype: Changetype,
}

#[verifier::ext_equal]
pub ghost struct ChangestatusView {
    pub name: Seq<char>,
    pub changetype: Changetype,
}

impl View for Changestatus {
    type V = ChangestatusView;

    open spec fn view(&self) -> ChangestatusView {
        ChangestatusView { name: self.name@, changetype: self.changetype }
    }
}

pub open spec fn changestatus_views(s: Seq<Changestatus>) -> Seq<ChangestatusView> {
    s.map_values(|c: Changestatus| c@)
}

pub open spec fn spec_changetype_label(ct: Changetype) -> Seq<char> {
    match ct {
        Changetype::Same => "Same"@,
        Changetype::Changed => "Changed"@,
        Changetype::Added => "Added"@,
        Changetype::Removed => "Removed"@,
        Changetype::Moved => "Moved"@,
        Changetype::Skipped => "Skipped"@,
    }
}

pub fn changetype_label(ct: Changetype) -> (r: &'static str)
    ensures
        r@ == spec_changetype_label(ct),
{
    match ct {
        Changetype::Same => "Same",
        Changetype::Changed => "Changed",
        Changetype::Added => "Added",
        Changetype::Removed => "Removed",
        Changetype::Moved => "Moved",
        Changetype::Skipped => "Skipped",
    }
}

/// Outcomes worth reporting in a periodic run; `Same` and `Skipped` are
/// noise there and shown only when everything is shown.
pub open spec fn spec_interesting(ct: Changetype) -> bool {
    ct != Changetype::Same && ct != Changetype::Skipped
}

pub fn is_interesting(ct: Changetype) -> (r: bool)
    ensures
        r == spec_interesting(ct),
{
    !(matches!(ct, Changetype::Same) || matches!(ct, Changetype::Skipped))
}

/// One line per reported outcome: the outcome's label, a space, the
/// subscriber or file name, a line break.
pub open spec fn spec_summary_line(c: ChangestatusView) -> Seq<char> {
    spec_changetype_label(c.changetype) + seq![' '] + c.name + seq!['\n']
}

/// The summary of a batch: the lines of all outcomes in order, filtered to
/// the interesting ones unless everything is shown.
pub open spec fn spec_change_summary(changes: Seq<ChangestatusView>, show_all: bool) -> Seq<char>
    decreases changes.len(),
{
    if changes.len() == 0 {
        Seq::empty()
    } else {
        spec_change_summary(changes.drop_last(), show_all) + (if show_all || spec_interesting(
            changes.last().changetype,
        ) {
            spec_summary_line(changes.last())
        } else {
            Seq::empty()
        })
    }
}

pub fn write_change_summary(changes: &Vec<Changestatus>, show_all: bool) -> (r: String)
    ensures
        r@ == spec_change_summary(changestatus_views(changes@), show_all),
{
    let ghost views = changestatus_views(changes@);
    let mut out = String::new();
    let mut i: usize = 0;
    while i < changes.len()
        invariant
            0 <= i <= changes@.len(),
            views == changestatus_views(changes@),
            out@ == spec_change_summary(views.take(i as int), show_all),
        decreases changes@.len() - i,
    {
        proof {
            assert(views.take(i + 1).drop_last() =~= views.take(i as int));
            assert(views.take(i + 1).last() == views[i as int]);
            assert(views[i as int] == changes@[i as int]@);
        }
        if show_all || is_interesting(changes[i].changetype) {
            out.append(changetype_label(changes[i].changetype));
            out.append(" ");
            out.append(changes[i].name.as_str());
            out.append("\n");
            proof {
                reveal_strlit(" ");
                reveal_strlit("\n");
                assert(out@ =~= spec_change_summary(views.take(i + 1), show_all));
            }
        } else {
            proof {
                assert(out@ =~= spec_change_summary(views.take(i + 1), show_all));
            }
        }
        i += 1;
    }
    proof {
        assert(views.take(changes@.len() as int) =~= views);
    }
    out
}

} // verus!
