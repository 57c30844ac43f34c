//! A value model of the artifact output directory: the files it holds, each a
//! name with its content. The reconciliation engine computes on this model and
//! reports the filesystem actions that realize its changes.

use vstd::prelude::*;
use vstd::string::StringExecFns;

use crate::strutil::{spec_starts_with, str_eq, str_starts_with, views_of};

verus! {

/// One artifact file: its name and its text content, as character sequences.
pub open spec fn dir_view(files: Seq<(String, String)>) -> Seq<(Seq<char>, Seq<char>)> {
    files.map_values(|f: (String, String)| (f.0@, f.1@))
}

pub open spec fn dir_names(d: Seq<(Seq<char>, Seq<char>)>) -> Seq<Seq<char>> {
    d.map_values(|f: (Seq<char>, Seq<char>)| f.0)
}

/// File names are unique within a directory.
pub open spec fn dir_wf(d: Seq<(Seq<char>, Seq<char>)>) -> bool {
    forall|i: int, j: int|
        #![trigger d[i], d[j]]
        0 <= i < j < d.len() ==> d[i].0 != d[j].0
}

pub open spec fn dir_contains(d: Seq<(Seq<char>, Seq<char>)>, name: Seq<char>) -> bool {
    exists|i: int| 0 <= i < d.len() && (#[trigger] d[i]).0 == name
}

/// The index of the (unique, under `dir_wf`) file of that name.
pub open spec fn dir_index_of(d: Seq<(Seq<char>, Seq<char>)>, name: Seq<char>) -> int {
    choose|i: int| 0 <= i < d.len() && (#[trigger] d[i]).0 == name
}

pub open spec fn dir_content(d: Seq<(Seq<char>, Seq<char>)>, name: Seq<char>) -> Seq<char> {
    d[dir_index_of(d, name)].1
}

/// The file of that name renamed in place, content kept.
pub open spec fn spec_rename(
    d: Seq<(Seq<char>, Seq<char>)>,
    from: Seq<char>,
    to: Seq<char>,
) -> Seq<(Seq<char>, Seq<char>)> {
    d.update(dir_index_of(d, from), (to, d[dir_index_of(d, from)].1))
}

/// The file of that name taken out.
pub open spec fn spec_remove(
    d: Seq<(Seq<char>, Seq<char>)>,
    name: Seq<char>,
) -> Seq<(Seq<char>, Seq<char>)> {
    d.remove(dir_index_of(d, name))
}

/// The content stored under `name`: overwritten in place when the file
/// exists, appended as a new file otherwise.
pub open spec fn spec_write(
    d: Seq<(Seq<char>, Seq<char>)>,
    name: Seq<char>,
    content: Seq<char>,
) -> Seq<(Seq<char>, Seq<char>)> {
    if dir_contains(d, name) {
        d.update(dir_index_of(d, name), (name, content))
    } else {
        d.push((name, content))
    }
}

/// The predicate holding of a name that starts with `prefix`.
pub open spec fn name_has_prefix(prefix: Seq<char>) -> spec_fn(Seq<char>) -> bool {
    |n: Seq<char>| spec_starts_with(n, prefix)
}

/// The predicate holding of a file whose name does not start with `prefix`.
pub open spec fn file_without_prefix(prefix: Seq<char>) -> spec_fn((Seq<char>, Seq<char>)) -> bool {
    |f: (Seq<char>, Seq<char>)| !spec_starts_with(f.0, prefix)
}

/// The directory without every file whose name starts with `prefix`.
pub open spec fn spec_remove_prefixed(
    d: Seq<(Seq<char>, Seq<char>)>,
    prefix: Seq<char>,
) -> Seq<(Seq<char>, Seq<char>)> {
    d.filter(file_without_prefix(prefix))
}

/// The names of the files whose name starts with `prefix`, in directory
/// order.
pub open spec fn spec_existing(
    d: Seq<(Seq<char>, Seq<char>)>,
    prefix: Seq<char>,
) -> Seq<Seq<char>> {
    dir_names(d).filter(name_has_prefix(prefix))
}

/// Every element a filter keeps is an element of the source, and filtering a
/// well-formed directory keeps it well-formed.
pub proof fn lemma_filter_dir_wf(
    d: Seq<(Seq<char>, Seq<char>)>,
    p: spec_fn((Seq<char>, Seq<char>)) -> bool,
)
    requires
        dir_wf(d),
    ensures
        dir_wf(d.filter(p)),
        forall|k: int| 0 <= k < d.filter(p).len() ==> d.contains(#[trigger] d.filter(p)[k]),
    decreases d.len(),
{
    reveal(Seq::filter);
    if d.len() > 0 {
        let dl = d.drop_last();
        assert(dir_wf(dl)) by {
            assert(forall|i: int| 0 <= i < dl.len() ==> dl[i] == d[i]);
        }
        lemma_filter_dir_wf(dl, p);
        let fdl = dl.filter(p);
        assert(forall|k: int| 0 <= k < fdl.len() ==> dl.contains(#[trigger] fdl[k]));
        assert forall|k: int| 0 <= k < fdl.len() implies d.contains(#[trigger] fdl[k]) by {
            let j = choose|j: int| 0 <= j < dl.len() && dl[j] == fdl[k];
            assert(d[j] == fdl[k]);
        }
        if p(d.last()) {
            let r = fdl.push(d.last());
            assert forall|i: int, j: int|
                #![trigger r[i], r[j]]
                0 <= i < j < r.len() implies r[i].0 != r[j].0 by {
                if j == r.len() - 1 {
                    let src = choose|s: int| 0 <= s < dl.len() && dl[s] == fdl[i];
                    assert(d[src] == r[i]);
                    assert(d[src].0 != d[d.len() - 1].0);
                }
            }
        }
    }
}

/// Every element a filter keeps satisfies the predicate and occurs in the
/// source.
pub proof fn lemma_filter_elements<A>(s: Seq<A>, p: spec_fn(A) -> bool)
    ensures
        forall|k: int|
            0 <= k < s.filter(p).len() ==> p(#[trigger] s.filter(p)[k]) && s.contains(
                s.filter(p)[k],
            ),
    decreases s.len(),
{
    reveal(Seq::filter);
    if s.len() > 0 {
        let dl = s.drop_last();
        lemma_filter_elements(dl, p);
        let f = s.filter(p);
        assert forall|k: int| 0 <= k < f.len() implies p(#[trigger] f[k]) && s.contains(f[k]) by {
            if k < dl.filter(p).len() {
                assert(f[k] == dl.filter(p)[k]);
                assert(dl.contains(dl.filter(p)[k]));
                let j = choose|j: int| 0 <= j < dl.len() && dl[j] == f[k];
                assert(s[j] == f[k]);
            } else {
                assert(f[k] == s.last());
                assert(s[s.len() - 1] == f[k]);
            }
        }
    }
}

/// When exactly one element satisfies the predicate, the filter keeps exactly
/// that element.
pub proof fn lemma_filter_single<A>(s: Seq<A>, p: spec_fn(A) -> bool, i0: int)
    requires
        0 <= i0 < s.len(),
        p(s[i0]),
        forall|j: int| 0 <= j < s.len() && j != i0 ==> !p(#[trigger] s[j]),
    ensures
        s.filter(p) =~= seq![s[i0]],
    decreases s.len(),
{
    reveal(Seq::filter);
    let dl = s.drop_last();
    if i0 == s.len() - 1 {
        assert(forall|j: int| 0 <= j < dl.len() ==> !p(#[trigger] dl[j]));
        dl.lemma_all_neg_filter_empty(p);
    } else {
        assert(forall|j: int| 0 <= j < dl.len() && j != i0 ==> !p(#[trigger] dl[j]));
        lemma_filter_single(dl, p, i0);
        assert(!p(s.last()));
    }
}

/// When no element satisfies the predicate, the filter is empty. (A wrapper
/// around the vstd lemma with the trigger the callers here use.)
pub proof fn lemma_filter_none<A>(s: Seq<A>, p: spec_fn(A) -> bool)
    requires
        forall|j: int| 0 <= j < s.len() ==> !p(#[trigger] s[j]),
    ensures
        s.filter(p) =~= Seq::<A>::empty(),
{
    s.lemma_all_neg_filter_empty(p);
}

/// The artifact output directory as a value: the model the reconciliation
/// engine reads and rewrites.
pub struct OutputDir {
    pub files: Vec<(String, String)>,
}

impl View for OutputDir {
    type V = Seq<(Seq<char>, Seq<char>)>;

    open spec fn view(&self) -> Seq<(Seq<char>, Seq<char>)> {
        dir_view(self.files@)
    }
}

impl OutputDir {
    pub open spec fn wf(&self) -> bool {
        dir_wf(self@)
    }

    pub fn new() -> (r: OutputDir)
        ensures
            r@ =~= Seq::<(Seq<char>, Seq<char>)>::empty(),
            r.wf(),
    {
        OutputDir { files: Vec::new() }
    }

    /// Whether every file name is distinct; callers outside the library use
    /// this to establish `wf` for a directory listing they assembled.
    pub fn is_well_formed(&self) -> (r: bool)
        ensures
            r == self.wf(),
    {
        let n = self.files.len();
        let mut i: usize = 0;
        while i < n
            invariant
                0 <= i <= n,
                n == self.files@.len(),
                forall|a: int, b: int|
                    #![trigger self@[a], self@[b]]
                    0 <= a < b < self@.len() && a < i ==> self@[a].0 != self@[b].0,
            decreases n - i,
        {
            let mut j: usize = i + 1;
            while j < n
                invariant
                    i < j <= n,
                    n == self.files@.len(),
                    forall|b: int|
                        #![trigger self@[b]]
                        i < b < j ==> self@[i as int].0 != self@[b].0,
                decreases n - j,
            {
                if str_eq(self.files[i].0.as_str(), self.files[j].0.as_str()) {
                    proof {
                        assert(self@[i as int].0 == self@[j as int].0);
                    }
                    return false;
                }
                j += 1;
            }
            i += 1;
        }
        true
    }

    /// The index of the file of that name.
    fn find_file(&self, name: &str) -> (r: Option<usize>)
        ensures
            r is Some ==> r->0 < self@.len() && self@[r->0 as int].0 == name@ && dir_contains(
                self@,
                name@,
            ),
            r is Some && self.wf() ==> dir_index_of(self@, name@) == r->0 as int,
            r is None ==> !dir_contains(self@, name@),
    {
        let mut i: usize = 0;
        while i < self.files.len()
            invariant
                0 <= i <= self@.len(),
                self@.len() == self.files@.len(),
                forall|j: int| 0 <= j < i ==> (#[trigger] self@[j]).0 != name@,
            decreases self@.len() - i,
        {
            if str_eq(self.files[i].0.as_str(), name) {
                proof {
                    assert(self@[i as int].0 == name@);
                    if self.wf() {
                        let k = dir_index_of(self@, name@);
                        assert(0 <= k < self@.len() && self@[k].0 == name@);
                        if k != i as int {
                            assert(self@[k].0 != self@[i as int].0);
                        }
                    }
                }
                return Some(i);
            }
            i += 1;
        }
        proof {
            if dir_contains(self@, name@) {
                let k = choose|k: int| 0 <= k < self@.len() && (#[trigger] self@[k]).0 == name@;
                assert(self@[k].0 != name@);
            }
        }
        None
    }

    pub fn contains_file(&self, name: &str) -> (r: bool)
        ensures
            r == dir_contains(self@, name@),
    {
        match self.find_file(name) {
            Some(_) => true,
            None => false,
        }
    }

    /// The content of the file of that name, if it exists.
    pub fn read_file(&self, name: &str) -> (r: Option<String>)
        requires
            self.wf(),
        ensures
            r is Some <==> dir_contains(self@, name@),
            r is Some ==> r->0@ == dir_content(self@, name@),
    {
        match self.find_file(name) {
            Some(i) => Some(self.files[i].1.clone()),
            None => None,
        }
    }

    /// The names of the files whose name starts with `starts_with`, in
    /// directory order.
    pub fn get_existing_files(&self, starts_with: &str) -> (r: Vec<String>)
        ensures
            views_of(r@) == spec_existing(self@, starts_with@),
    {
        let ghost names = dir_names(self@);
        let ghost p = name_has_prefix(starts_with@);
        let mut out: Vec<String> = Vec::new();
        proof {
            reveal(Seq::filter);
            assert(views_of(out@) =~= names.take(0).filter(p));
        }
        let mut i: usize = 0;
        while i < self.files.len()
            invariant
                0 <= i <= self@.len(),
                self@.len() == self.files@.len(),
                names == dir_names(self@),
                p == name_has_prefix(starts_with@),
                views_of(out@) == names.take(i as int).filter(p),
            decreases self@.len() - i,
        {
            proof {
                reveal(Seq::filter);
                assert(names.take(i + 1).drop_last() =~= names.take(i as int));
                assert(names.take(i + 1).last() == names[i as int]);
                assert(names[i as int] == self@[i as int].0);
            }
            if str_starts_with(self.files[i].0.as_str(), starts_with) {
                proof {
                    assert(p(names[i as int]));
                }
                out.push(self.files[i].0.clone());
                proof {
                    assert(views_of(out@) =~= names.take(i + 1).filter(p));
                }
            } else {
                proof {
                    assert(views_of(out@) =~= names.take(i + 1).filter(p));
                }
            }
            i += 1;
        }
        proof {
            assert(names.take(self@.len() as int) =~= names);
        }
        out
    }

    /// Renames one file in place, keeping its content.
    pub fn rename_file(&mut self, from: &str, to: &str)
        requires
            old(self).wf(),
            dir_contains(old(self)@, from@),
            !dir_contains(old(self)@, to@),
        ensures
            final(self)@ == spec_rename(old(self)@, from@, to@),
            final(self).wf(),
    {
        let i = match self.find_file(from) {
            Some(i) => i,
            None => {
                proof {
                    assert(false);
                }
                return ;
            },
        };
        let (_, content) = self.files.remove(i);
        self.files.insert(i, (to.to_owned(), content));
        proof {
            assert(self@ =~= spec_rename(old(self)@, from@, to@));
            let d = self@;
            assert forall|a: int, b: int|
                #![trigger d[a], d[b]]
                0 <= a < b < d.len() implies d[a].0 != d[b].0 by {
                if a != i as int && b != i as int {
                    assert(old(self)@[a].0 != old(self)@[b].0);
                } else if a == i as int {
                    assert(old(self)@[b].0 != to@);
                } else {
                    assert(old(self)@[a].0 != to@);
                }
            }
        }
    }

    /// Deletes one file.
    pub fn remove_file(&mut self, name: &str)
        requires
            old(self).wf(),
            dir_contains(old(self)@, name@),
        ensures
            final(self)@ == spec_remove(old(self)@, name@),
            final(self).wf(),
    {
        let i = match self.find_file(name) {
            Some(i) => i,
            None => {
                proof {
                    assert(false);
                }
                return ;
            },
        };
        self.files.remove(i);
        proof {
            assert(self@ =~= spec_remove(old(self)@, name@));
            let d = self@;
            let o = old(self)@;
            o.remove_ensures(i as int);
            assert forall|a: int, b: int|
                #![trigger d[a], d[b]]
                0 <= a < b < d.len() implies d[a].0 != d[b].0 by {
                let oa = if a < i as int {
                    a
                } else {
                    a + 1
                };
                let ob = if b < i as int {
                    b
                } else {
                    b + 1
                };
                assert(d[a] == o[oa] && d[b] == o[ob]);
            }
        }
    }

    /// Stores `content` under `name`: overwrites the existing file, or adds a
    /// new one.
    pub fn write_file(&mut self, name: &str, content: String)
        requires
            old(self).wf(),
        ensures
            final(self)@ == spec_write(old(self)@, name@, content@),
            final(self).wf(),
    {
        match self.find_file(name) {
            Some(i) => {
                self.files.remove(i);
                self.files.insert(i, (name.to_owned(), content));
                proof {
                    assert(self@ =~= spec_write(old(self)@, name@, content@));
                    let d = self@;
                    assert forall|a: int, b: int|
                        #![trigger d[a], d[b]]
                        0 <= a < b < d.len() implies d[a].0 != d[b].0 by {
                        assert(old(self)@[a].0 != old(self)@[b].0);
                    }
                }
            },
            None => {
                self.files.push((name.to_owned(), content));
                proof {
                    assert(self@ =~= spec_write(old(self)@, name@, content@));
                    let d = self@;
                    assert forall|a: int, b: int|
                        #![trigger d[a], d[b]]
                        0 <= a < b < d.len() implies d[a].0 != d[b].0 by {
                        if b == d.len() - 1 {
                            assert(old(self)@[a].0 != name@);
                        } else {
                            assert(old(self)@[a].0 != old(self)@[b].0);
                        }
                    }
                }
            },
        }
    }

    /// Deletes every file whose name starts with `prefix`.
    pub fn remove_prefixed(&mut self, prefix: &str)
        requires
            old(self).wf(),
        ensures
            final(self)@ == spec_remove_prefixed(old(self)@, prefix@),
            final(self).wf(),
    {
        let ghost orig = self@;
        let ghost p = file_without_prefix(prefix@);
        let mut kept: Vec<(String, String)> = Vec::new();
        proof {
            reveal(Seq::filter);
            assert(dir_view(kept@) =~= orig.take(0).filter(p));
        }
        let ghost total = self.files@.len();
        let ghost mut i: int = 0;
        while self.files.len() > 0
            invariant
                0 <= i <= total,
                i + self.files@.len() == total,
                dir_view(self.files@) =~= orig.skip(i),
                orig == dir_view(old(self).files@),
                orig.len() == total,
                p == file_without_prefix(prefix@),
                dir_view(kept@) == orig.take(i).filter(p),
            decreases self.files@.len(),
        {
            let ghost before = dir_view(self.files@);
            let f = self.files.remove(0);
            proof {
                reveal(Seq::filter);
                assert(before[0] == (f.0@, f.1@));
                assert(orig.skip(i)[0] == orig[i]);
                assert(dir_view(self.files@) =~= before.drop_first());
                assert(dir_view(self.files@) =~= orig.skip(i + 1));
                assert(orig.take(i + 1).drop_last() =~= orig.take(i));
                assert(orig.take(i + 1).last() == orig[i]);
            }
            if !str_starts_with(f.0.as_str(), prefix) {
                proof {
                    assert(p(orig[i]));
                }
                kept.push(f);
                proof {
                    assert(dir_view(kept@) =~= orig.take(i + 1).filter(p));
                }
            } else {
                proof {
                    assert(!p(orig[i]));
                    assert(dir_view(kept@) =~= orig.take(i + 1).filter(p));
                }
            }
            proof {
                i = i + 1;
            }
        }
        self.files = kept;
        proof {
            assert(orig.take(total as int) =~= orig);
            assert(i == total);
            lemma_filter_dir_wf(orig, p);
        }
    }
}

} // verus!
