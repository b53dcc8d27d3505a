//! The project index: project names mapped to ordered candidate lists, with
//! keys kept in the order in which projects were first met.

use vstd::prelude::*;

verus! {

/// The mathematical content of an index: (name, candidates) pairs in key order.
pub type IndexView = Seq<(Seq<char>, Seq<Seq<char>>)>;

/// Position of the first key equal to `name`, or -1 where there is none.
pub open spec fn key_pos(idx: IndexView, name: Seq<char>) -> int
    decreases idx.len(),
{
    if idx.len() == 0 {
        -1
    } else {
        let p = key_pos(idx.drop_last(), name);
        if p >= 0 {
            p
        } else if idx.last().0 == name {
            idx.len() - 1
        } else {
            -1
        }
    }
}

/// No two pairs of `idx` share a key.
pub open spec fn keys_unique(idx: IndexView) -> bool {
    forall|i: int, j: int| 0 <= i < j < idx.len() ==> #[trigger] idx[i].0 != #[trigger] idx[j].0
}

/// `idx` after one project's contribution: nothing where it is empty; else
/// appended to the project's list if the name is a key, or a new last key.
pub open spec fn merged(idx: IndexView, name: Seq<char>, cands: Seq<Seq<char>>) -> IndexView {
    if cands.len() == 0 {
        idx
    } else {
        let p = key_pos(idx, name);
        if p >= 0 {
            idx.update(p, (name, idx[p].1 + cands))
        } else {
            idx.push((name, cands))
        }
    }
}

/// `key_pos` finds the first pair with the key, and -1 exactly when none has it.
pub proof fn lemma_key_pos(idx: IndexView, name: Seq<char>)
    ensures
        -1 <= key_pos(idx, name) < idx.len(),
        key_pos(idx, name) == -1 <==> forall|j: int| 0 <= j < idx.len() ==> idx[j].0 != name,
        key_pos(idx, name) >= 0 ==> idx[key_pos(idx, name)].0 == name && forall|j: int|
            0 <= j < key_pos(idx, name) ==> idx[j].0 != name,
    decreases idx.len(),
{
    if idx.len() > 0 {
        lemma_key_pos(idx.drop_last(), name);
        assert forall|j: int| 0 <= j < idx.len() - 1 implies idx[j] == idx.drop_last()[j] by {}
    }
}

/// Merging a contribution keeps keys unique.
pub proof fn lemma_merged_keys_unique(idx: IndexView, name: Seq<char>, cands: Seq<Seq<char>>)
    requires
        keys_unique(idx),
    ensures
        keys_unique(merged(idx, name, cands)),
{
    lemma_key_pos(idx, name);
    let r = merged(idx, name, cands);
    if cands.len() != 0 {
        assert forall|i: int, j: int| 0 <= i < j < r.len() implies #[trigger] r[i].0
            != #[trigger] r[j].0 by {
            if key_pos(idx, name) < 0 && j == idx.len() {
                assert(idx[i].0 != name);
            } else {
                assert(r[i].0 == idx[i].0 && r[j].0 == idx[j].0);
            }
        }
    }
}

/// A position holding the key, with no earlier one holding it, is `key_pos`.
proof fn lemma_key_pos_at(idx: IndexView, name: Seq<char>, p: int)
    requires
        0 <= p < idx.len(),
        idx[p].0 == name,
        forall|j: int| 0 <= j < p ==> idx[j].0 != name,
    ensures
        key_pos(idx, name) == p,
{
    lemma_key_pos(idx, name);
    let kp = key_pos(idx, name);
    if kp < p {
        assert(idx[kp].0 != name);
    }
    if kp > p {
        assert(idx[p].0 != name);
    }
}

/// Two contributions under one name, one after the other, leave the same index
/// as their concatenation: lists are appended in order and never deduplicated.
pub proof fn lemma_merge_concatenates(
    idx: IndexView,
    name: Seq<char>,
    first: Seq<Seq<char>>,
    second: Seq<Seq<char>>,
)
    ensures
        merged(merged(idx, name, first), name, second) == merged(idx, name, first + second),
{
    lemma_key_pos(idx, name);
    if first.len() == 0 {
        assert(first + second =~= second);
    } else if second.len() == 0 {
        assert(first + second =~= first);
    } else {
        let p = key_pos(idx, name);
        let m1 = merged(idx, name, first);
        if p >= 0 {
            assert forall|j: int| 0 <= j < p implies m1[j].0 != name by {
                assert(m1[j] == idx[j]);
            }
            lemma_key_pos_at(m1, name, p);
            assert(idx[p].1 + first + second =~= idx[p].1 + (first + second));
            assert(m1.update(p, (name, m1[p].1 + second)) =~= idx.update(
                p,
                (name, idx[p].1 + (first + second)),
            ));
        } else {
            assert forall|j: int| 0 <= j < idx.len() implies m1[j].0 != name by {
                assert(m1[j] == idx[j]);
            }
            lemma_key_pos_at(m1, name, idx.len() as int);
            assert(m1.update(idx.len() as int, (name, m1[idx.len() as int].1 + second))
                =~= idx.push((name, first + second)));
        }
    }
}

/// A mapping from project name to ordered candidate URLs.
pub struct ProjectIndex {
    entries: Vec<(String, Vec<String>)>,
}

impl View for ProjectIndex {
    type V = IndexView;

    closed spec fn view(&self) -> IndexView {
        self.entries.deep_view()
    }
}

impl ProjectIndex {
    /// Keys are unique.
    pub open spec fn wf(&self) -> bool {
        keys_unique(self@)
    }

    proof fn lemma_view(&self)
        ensures
            self@.len() == self.entries@.len(),
            forall|j: int|
                0 <= j < self@.len() ==> #[trigger] self@[j] == (
                    self.entries@[j].0@,
                    self.entries@[j].1.deep_view(),
                ),
    {
    }

    /// An index with no projects.
    pub fn new() -> (r: ProjectIndex)
        ensures
            r@ == Seq::<(Seq<char>, Seq<Seq<char>>)>::empty(),
            r.wf(),
    {
        let r = ProjectIndex { entries: Vec::new() };
        assert(r@ =~= Seq::<(Seq<char>, Seq<Seq<char>>)>::empty());
        r
    }

    /// Position of the key `name`, if it is one.
    fn position(&self, name: &String) -> (r: Option<usize>)
        ensures
            match r {
                Some(i) => i < self.entries.len() && i as int == key_pos(self@, name@),
                None => key_pos(self@, name@) == -1,
            },
    {
        proof {
            lemma_key_pos(self@, name@);
            self.lemma_view();
        }
        let mut i: usize = 0;
        while i < self.entries.len()
            invariant
                i <= self@.len(),
                self@.len() == self.entries.len(),
                forall|j: int| 0 <= j < i ==> self@[j].0 != name@,
            decreases self.entries.len() - i,
        {
            assert(self@[i as int] == (self.entries@[i as int].0@, self.entries@[i as int].1.deep_view()));
            if self.entries[i].0 == *name {
                assert(self@[i as int].0 == name@);
                proof {
                    lemma_key_pos(self@, name@);
                    let kp = key_pos(self@, name@);
                    assert(kp != -1);
                    if kp < i {
                        assert(self@[kp].0 != name@);
                    }
                    if kp > i {
                        assert(self@[i as int].0 != name@);
                    }
                }
                return Some(i);
            }
            i = i + 1;
        }
        None
    }

    /// Records one project's candidates: appended after the ones it has if
    /// `name` is a key, as a new last key otherwise; an empty list changes nothing.
    pub fn add(&mut self, name: String, candidates: Vec<String>)
        requires
            old(self).wf(),
        ensures
            final(self)@ == merged(old(self)@, name@, candidates.deep_view()),
            final(self).wf(),
    {
        proof {
            lemma_merged_keys_unique(self@, name@, candidates.deep_view());
        }
        let mut candidates = candidates;
        if candidates.len() == 0 {
            return;
        }
        let ghost cands = candidates.deep_view();
        proof {
            self.lemma_view();
        }
        match self.position(&name) {
            Some(i) => {
                let ghost before = self@;
                let ghost before_entries = self.entries@;
                proof {
                    lemma_key_pos(before, name@);
                }
                let (key, mut list) = self.entries.remove(i);
                assert(key@ == before[i as int].0);
                assert(list.deep_view() == before[i as int].1);
                let ghost list_before = list.deep_view();
                list.append(&mut candidates);
                assert(list.deep_view() =~= list_before + cands);
                self.entries.insert(i, (key, list));
                proof {
                    self.lemma_view();
                    assert(self.entries@ == before_entries.remove(i as int).insert(i as int, (key, list)));
                    assert forall|j: int| 0 <= j < before.len() && j != i implies self.entries@[j] == before_entries[j] by {}
                }
                assert(self@ =~= before.update(i as int, (name@, before[i as int].1 + cands)));
            },
            None => {
                let ghost before = self@;
                self.entries.push((name, candidates));
                assert(self@ =~= before.push((name@, cands)));
            },
        }
    }

    /// Number of projects.
    pub fn len(&self) -> (r: usize)
        ensures
            r == self@.len(),
    {
        self.entries.len()
    }

    /// The (name, candidates) pairs in key order.
    pub fn entries(&self) -> (r: &Vec<(String, Vec<String>)>)
        ensures
            r.deep_view() == self@,
    {
        &self.entries
    }

    /// The candidates of the project `name`, if it is a key.
    pub fn candidates_for(&self, name: &String) -> (r: Option<&Vec<String>>)
        ensures
            match r {
                Some(v) => 0 <= key_pos(self@, name@) && v.deep_view() == self@[key_pos(
                    self@,
                    name@,
                )].1,
                None => key_pos(self@, name@) == -1,
            },
    {
        proof {
            self.lemma_view();
        }
        match self.position(name) {
            Some(i) => Some(&self.entries[i].1),
            None => None,
        }
    }
}

} // verus!
