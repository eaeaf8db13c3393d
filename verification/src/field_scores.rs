//! Per-field scores of a match: an ordered list of named scores.

use vstd::prelude::*;
use crate::score::Score;

verus! {

/// The named scores of a match, in the order in which the names were first
/// given. A name is looked up by its first entry.
#[derive(Clone, Debug)]
pub struct FieldScores {
    pub entries: Vec<(String, Score)>,
}

/// The index of the first entry named `name`, or the number of entries where
/// there is none.
pub open spec fn first_index<V>(entries: Seq<(Seq<char>, V)>, name: Seq<char>) -> int
    decreases entries.len(),
{
    if entries.len() == 0 {
        0
    } else if entries[0].0 == name {
        0
    } else {
        1 + first_index(entries.drop_first(), name)
    }
}

/// The score under `name`, if there is one.
pub open spec fn named_score(entries: Seq<(Seq<char>, Score)>, name: Seq<char>) -> Option<Score> {
    let at = first_index(entries, name);
    if at < entries.len() {
        Some(entries[at].1)
    } else {
        None
    }
}

/// The entries with the score under `name` replaced by `score`, or with a
/// new last entry where the name is new.
pub open spec fn with_score(
    entries: Seq<(Seq<char>, Score)>,
    name: Seq<char>,
    score: Score,
) -> Seq<(Seq<char>, Score)> {
    let at = first_index(entries, name);
    if at < entries.len() {
        entries.update(at, (name, score))
    } else {
        entries.push((name, score))
    }
}

/// The entries with `score` added to the score under `name`, or with a new
/// last entry where the name is new.
pub open spec fn with_added(
    entries: Seq<(Seq<char>, Score)>,
    name: Seq<char>,
    score: Score,
) -> Seq<(Seq<char>, Score)> {
    let at = first_index(entries, name);
    if at < entries.len() {
        entries.update(at, (name, entries[at].1.spec_plus(score)))
    } else {
        entries.push((name, score))
    }
}

/// `first_index` is the least index whose entry has the name.
pub proof fn lemma_first_index<V>(entries: Seq<(Seq<char>, V)>, name: Seq<char>)
    ensures
        0 <= first_index(entries, name) <= entries.len(),
        first_index(entries, name) < entries.len() ==> entries[first_index(entries, name)].0
            == name,
        forall|i: int| 0 <= i < first_index(entries, name) ==> (#[trigger] entries[i]).0 != name,
    decreases entries.len(),
{
    if entries.len() > 0 && entries[0].0 != name {
        let rest = entries.drop_first();
        lemma_first_index(rest, name);
        assert forall|i: int| 0 <= i < first_index(entries, name) implies (#[trigger] entries[i]).0
            != name by {
            if i > 0 {
                assert(entries[i] == rest[i - 1]);
            }
        }
    }
}

/// An index whose entry has the name, with no such entry before it, is the
/// first index.
pub proof fn lemma_first_index_is<V>(entries: Seq<(Seq<char>, V)>, name: Seq<char>, at: int)
    requires
        0 <= at <= entries.len(),
        at < entries.len() ==> entries[at].0 == name,
        forall|i: int| 0 <= i < at ==> (#[trigger] entries[i]).0 != name,
    ensures
        first_index(entries, name) == at,
{
    lemma_first_index(entries, name);
    let first = first_index(entries, name);
    if first < at {
        assert(entries[first].0 != name);
    } else if at < first {
        assert(entries[at].0 != name);
    }
}

impl View for FieldScores {
    type V = Seq<(Seq<char>, Score)>;

    open spec fn view(&self) -> Seq<(Seq<char>, Score)> {
        Seq::new(self.entries@.len(), |i: int| (self.entries@[i].0@, self.entries@[i].1))
    }
}

impl FieldScores {
    /// No scores.
    pub fn new() -> (scores: Self)
        ensures
            scores@ == Seq::<(Seq<char>, Score)>::empty(),
    {
        let scores = FieldScores { entries: Vec::new() };
        assert(scores@ =~= Seq::<(Seq<char>, Score)>::empty());
        scores
    }

    /// The number of entries.
    pub fn len(&self) -> (n: usize)
        ensures
            n == self@.len(),
    {
        self.entries.len()
    }

    /// Whether there is no entry.
    pub fn is_empty(&self) -> (empty: bool)
        ensures
            empty == (self@.len() == 0),
    {
        self.entries.len() == 0
    }

    /// The index of the first entry named `name`, or `len()`.
    pub fn position(&self, name: &String) -> (at: usize)
        ensures
            at == first_index(self@, name@),
            at <= self@.len(),
    {
        let mut i: usize = 0;
        while i < self.entries.len()
            invariant
                i <= self.entries.len(),
                forall|j: int| 0 <= j < i ==> (#[trigger] self@[j]).0 != name@,
            decreases self.entries.len() - i,
        {
            if self.entries[i].0 == *name {
                assert(self@[i as int].0 == name@);
                proof {
                    lemma_first_index_is(self@, name@, i as int);
                }
                return i;
            }
            i += 1;
        }
        proof {
            lemma_first_index_is(self@, name@, i as int);
        }
        i
    }

    /// The score under `name`, if there is one.
    pub fn get(&self, name: &str) -> (score: Option<Score>)
        ensures
            score == named_score(self@, name@),
    {
        let owned = name.to_owned();
        let at = self.position(&owned);
        if at < self.entries.len() {
            assert(self@[at as int].1 == self.entries@[at as int].1);
            Some(self.entries[at].1)
        } else {
            None
        }
    }

    /// Puts `score` under `name`, in place of an earlier score of that name.
    pub fn set(&mut self, name: String, score: Score)
        ensures
            final(self)@ == with_score(old(self)@, name@, score),
    {
        let at = self.position(&name);
        if at < self.entries.len() {
            self.entries.set(at, (name, score));
        } else {
            self.entries.push((name, score));
        }
        assert(self@ =~= with_score(old(self)@, name@, score));
    }

    /// Adds `score` to the score under `name`; a new name starts from zero.
    pub fn add(&mut self, name: String, score: Score)
        ensures
            final(self)@ == with_added(old(self)@, name@, score),
    {
        let at = self.position(&name);
        if at < self.entries.len() {
            let sum = self.entries[at].1.plus(score);
            self.entries.set(at, (name, sum));
        } else {
            self.entries.push((name, score));
        }
        assert(self@ =~= with_added(old(self)@, name@, score));
    }
}

} // verus!
