//! The ranking steps of a search: rescale, merge, sort, paginate.
//!
//! Each step is a function from per-searcher match lists to match lists, and
//! is stated over the views of the matches.

use vstd::prelude::*;
use std::collections::HashMap;
use crate::field_scores::{with_added, FieldScores};
use crate::score::{Score, SCORE_MAX};
use crate::sort::{sort_by_score, stable_sorted};
use crate::types::{
    match_views, spec_weight, DetailView, MatchView, SearchOptions, SearcherKind, SearusMatch,
};

verus! {

/// How the scores of one searcher are brought onto the unit interval.
#[derive(Clone, Copy, Debug, PartialEq, Eq, Structural)]
pub enum NormalizationMethod {
    /// `(score - min) / (max - min)`; every score becomes 1 where `max = min`.
    MinMax,
    /// `1 / (1 + score)`: turns a distance into a similarity.
    InverseDistance,
}

/// The match lists of the searchers that found something, each under the
/// kind of its searcher, in the order in which the searchers are registered.
pub open spec fn result_views<T>(results: Seq<(SearcherKind, Vec<SearusMatch<T>>)>) -> Seq<
    (SearcherKind, Seq<MatchView<T>>),
> {
    Seq::new(results.len(), |k: int| (results[k].0, match_views(results[k].1@)))
}

// ---------------------------------------------------------------------
// Rescaling
// ---------------------------------------------------------------------
/// The least score of a list; the largest score there is where the list is
/// empty.
pub open spec fn lowest<T>(list: Seq<MatchView<T>>) -> Score
    decreases list.len(),
{
    if list.len() == 0 {
        Score { micros: SCORE_MAX }
    } else {
        let rest = lowest(list.drop_last());
        if list.last().score.micros < rest.micros {
            list.last().score
        } else {
            rest
        }
    }
}

/// The greatest score of a list; zero where the list is empty.
pub open spec fn highest<T>(list: Seq<MatchView<T>>) -> Score
    decreases list.len(),
{
    if list.len() == 0 {
        Score { micros: 0 }
    } else {
        let rest = highest(list.drop_last());
        if list.last().score.micros > rest.micros {
            list.last().score
        } else {
            rest
        }
    }
}

/// A score of a list whose least score is `lo` and whose greatest is `hi`,
/// brought onto the unit interval.
pub open spec fn rescaled(score: Score, lo: Score, hi: Score, method: NormalizationMethod) -> Score {
    match method {
        NormalizationMethod::MinMax => if hi.micros > lo.micros {
            score.spec_minus(lo).spec_over(hi.spec_minus(lo))
        } else {
            Score { micros: 1_000_000 }
        },
        NormalizationMethod::InverseDistance => (Score { micros: 1_000_000 }).spec_over(
            (Score { micros: 1_000_000 }).spec_plus(score),
        ),
    }
}

/// A list with each score rescaled against the least and greatest score of
/// the list.
pub open spec fn normalized_list<T>(list: Seq<MatchView<T>>, method: NormalizationMethod) -> Seq<
    MatchView<T>,
> {
    Seq::new(
        list.len(),
        |i: int|
            MatchView { score: rescaled(list[i].score, lowest(list), highest(list), method), ..list[i] },
    )
}

/// Every list rescaled on its own.
pub open spec fn normalized_all<T>(
    results: Seq<(SearcherKind, Seq<MatchView<T>>)>,
    method: NormalizationMethod,
) -> Seq<(SearcherKind, Seq<MatchView<T>>)> {
    Seq::new(results.len(), |k: int| (results[k].0, normalized_list(results[k].1, method)))
}

/// Every score of a list lies between its least and its greatest score.
pub proof fn lemma_score_bounds<T>(list: Seq<MatchView<T>>, i: int)
    requires
        0 <= i < list.len(),
    ensures
        lowest(list).micros <= list[i].score.micros <= highest(list).micros,
    decreases list.len(),
{
    if i < list.len() - 1 {
        lemma_score_bounds(list.drop_last(), i);
    }
}

/// Rescales one score.
pub fn rescale(score: Score, lo: Score, hi: Score, method: NormalizationMethod) -> (r: Score)
    ensures
        r == rescaled(score, lo, hi, method),
        (method is InverseDistance || lo.micros <= score.micros <= hi.micros) ==> r.micros
            <= 1_000_000,
        method is MinMax && lo.micros <= score.micros <= hi.micros && lo.micros < hi.micros ==> r.micros
            * (hi.micros - lo.micros) <= (score.micros - lo.micros) * 1_000_000 < (r.micros + 1) * (
        hi.micros - lo.micros),
        method is MinMax && lo.micros >= hi.micros ==> r.micros == 1_000_000,
        method is InverseDistance && score.micros <= SCORE_MAX - 1_000_000 ==> r.micros * (1_000_000
            + score.micros) <= 1_000_000 * 1_000_000 < (r.micros + 1) * (1_000_000 + score.micros),
{
    match method {
        NormalizationMethod::MinMax => {
            if hi.micros > lo.micros {
                let r = score.minus(lo).over(hi.minus(lo));
                proof {
                    if lo.micros <= score.micros <= hi.micros {
                        let a = (score.micros - lo.micros) as int;
                        let b = (hi.micros - lo.micros) as int;
                        assert(a * 1_000_000 / b <= 1_000_000) by (nonlinear_arith)
                            requires
                                0 <= a <= b,
                                b > 0,
                        ;
                    }
                }
                r
            } else {
                Score::one()
            }
        },
        NormalizationMethod::InverseDistance => {
            let den = Score::one().plus(score);
            let r = Score::one().over(den);
            proof {
                let b = den.micros as int;
                assert(1_000_000int * 1_000_000int / b <= 1_000_000int) by (nonlinear_arith)
                    requires
                        b >= 1_000_000,
                ;
            }
            r
        },
    }
}

/// Rescales the scores of one searcher's matches against each other.
///
/// Afterwards every score is at most 1.
pub fn normalize_list<T>(matches: &mut Vec<SearusMatch<T>>, method: NormalizationMethod)
    ensures
        match_views(final(matches)@) == normalized_list(match_views(old(matches)@), method),
        final(matches)@.len() == old(matches)@.len(),
        forall|i: int|
            0 <= i < final(matches)@.len() ==> (#[trigger] final(matches)@[i]).score.micros
                <= 1_000_000,
{
    let ghost before = match_views(matches@);
    let mut lo = Score { micros: SCORE_MAX };
    let mut hi = Score { micros: 0 };
    let mut i: usize = 0;
    while i < matches.len()
        invariant
            i <= matches.len(),
            before == match_views(matches@),
            lo == lowest(before.take(i as int)),
            hi == highest(before.take(i as int)),
        decreases matches.len() - i,
    {
        proof {
            assert(before.take(i + 1).drop_last() =~= before.take(i as int));
        }
        let s = matches[i].score;
        if s.micros < lo.micros {
            lo = s;
        }
        if s.micros > hi.micros {
            hi = s;
        }
        i += 1;
    }
    assert(before.take(i as int) =~= before);
    let mut j: usize = 0;
    while j < matches.len()
        invariant
            j <= matches.len(),
            matches@.len() == before.len(),
            lo == lowest(before),
            hi == highest(before),
            forall|k: int|
                0 <= k < j ==> (#[trigger] matches@[k])@ == (MatchView {
                    score: rescaled(before[k].score, lo, hi, method),
                    ..before[k]
                }),
            forall|k: int| 0 <= k < j ==> (#[trigger] matches@[k]).score.micros <= 1_000_000,
            forall|k: int| j <= k < matches@.len() ==> (#[trigger] matches@[k])@ == before[k],
        decreases matches.len() - j,
    {
        proof {
            lemma_score_bounds(before, j as int);
        }
        let s = rescale(matches[j].score, lo, hi, method);
        matches[j].score = s;
        j += 1;
    }
    assert(match_views(matches@) =~= normalized_list(before, method));
}

/// Rescales the scores of each searcher's matches, list by list.
///
/// Afterwards every score is at most 1.
pub fn normalize_results<T>(
    results: Vec<(SearcherKind, Vec<SearusMatch<T>>)>,
    method: NormalizationMethod,
) -> (normalized: Vec<(SearcherKind, Vec<SearusMatch<T>>)>)
    ensures
        result_views(normalized@) == normalized_all(result_views(results@), method),
        normalized@.len() == results@.len(),
        forall|k: int, i: int|
            0 <= k < normalized@.len() && 0 <= i < normalized@[k].1@.len() ==> (
            #[trigger] normalized@[k].1@[i]).score.micros <= 1_000_000,
{
    let mut normalized = results;
    let mut k: usize = 0;
    while k < normalized.len()
        invariant
            k <= normalized.len(),
            normalized@.len() == results@.len(),
            forall|j: int|
                0 <= j < k ==> (#[trigger] normalized@[j]).0 == results@[j].0 && match_views(
                    normalized@[j].1@,
                ) == normalized_list(match_views(results@[j].1@), method),
            forall|j: int, i: int|
                0 <= j < k && 0 <= i < normalized@[j].1@.len() ==> (
                #[trigger] normalized@[j].1@[i]).score.micros <= 1_000_000,
            forall|j: int| k <= j < normalized@.len() ==> (#[trigger] normalized@[j]) == results@[j],
        decreases normalized.len() - k,
    {
        normalize_list(&mut normalized[k].1, method);
        k += 1;
    }
    assert(result_views(normalized@) =~= normalized_all(result_views(results@), method));
    normalized
}

// ---------------------------------------------------------------------
// Merging
// ---------------------------------------------------------------------
/// The index of the first match with the given id, or the number of matches
/// where there is none.
pub open spec fn index_of_id<T>(list: Seq<MatchView<T>>, id: usize) -> int
    decreases list.len(),
{
    if list.len() == 0 {
        0
    } else if list[0].id == id {
        0
    } else {
        1 + index_of_id(list.drop_first(), id)
    }
}

/// `index_of_id` is the least index whose match has the id.
pub proof fn lemma_index_of_id<T>(list: Seq<MatchView<T>>, id: usize)
    ensures
        0 <= index_of_id(list, id) <= list.len(),
        index_of_id(list, id) < list.len() ==> list[index_of_id(list, id)].id == id,
        forall|i: int| 0 <= i < index_of_id(list, id) ==> (#[trigger] list[i]).id != id,
    decreases list.len(),
{
    if list.len() > 0 && list[0].id != id {
        let rest = list.drop_first();
        lemma_index_of_id(rest, id);
        assert forall|i: int| 0 <= i < index_of_id(list, id) implies (#[trigger] list[i]).id
            != id by {
            if i > 0 {
                assert(list[i] == rest[i - 1]);
            }
        }
    }
}

/// An index whose match has the id, with no such match before it, is the
/// index of the id.
pub proof fn lemma_index_of_id_is<T>(list: Seq<MatchView<T>>, id: usize, at: int)
    requires
        0 <= at <= list.len(),
        at < list.len() ==> list[at].id == id,
        forall|i: int| 0 <= i < at ==> (#[trigger] list[i]).id != id,
    ensures
        index_of_id(list, id) == at,
{
    lemma_index_of_id(list, id);
    let first = index_of_id(list, id);
    if first < at {
        assert(list[first].id != id);
    } else if at < first {
        assert(list[at].id != id);
    }
}

/// The field scores `base` after each score of `extra`, weighted, has been
/// added under its name, in order.
pub open spec fn add_all(
    base: Seq<(Seq<char>, Score)>,
    extra: Seq<(Seq<char>, Score)>,
    weight: Score,
) -> Seq<(Seq<char>, Score)>
    decreases extra.len(),
{
    if extra.len() == 0 {
        base
    } else {
        with_added(
            add_all(base, extra.drop_last(), weight),
            extra.last().0,
            extra.last().1.spec_times(weight),
        )
    }
}

/// The entry that a record starts from when it is first seen: its item and
/// id, a score of zero, and nothing else.
pub open spec fn blank<T>(m: MatchView<T>) -> MatchView<T> {
    MatchView {
        item: m.item,
        score: Score { micros: 0 },
        field_scores: Seq::empty(),
        details: Seq::empty(),
        id: m.id,
    }
}

/// A merged entry after one more match of the same record has been taken
/// in with the weight of its searcher: the weighted score and field scores
/// are added, the details follow the earlier ones.
pub open spec fn combined<T>(entry: MatchView<T>, m: MatchView<T>, weight: Score) -> MatchView<T> {
    MatchView {
        item: entry.item,
        score: entry.score.spec_plus(m.score.spec_times(weight)),
        field_scores: add_all(entry.field_scores, m.field_scores, weight),
        details: entry.details + m.details,
        id: entry.id,
    }
}

/// The merged list after one more match has been taken in. A record that
/// was not seen before gets a new last entry.
pub open spec fn absorb<T>(merged: Seq<MatchView<T>>, m: MatchView<T>, weight: Score) -> Seq<
    MatchView<T>,
> {
    let at = index_of_id(merged, m.id);
    let base = if at < merged.len() {
        merged
    } else {
        merged.push(blank(m))
    };
    base.update(at, combined(base[at], m, weight))
}

/// The merged list after a whole list of one searcher has been taken in, in
/// order.
pub open spec fn absorb_all<T>(merged: Seq<MatchView<T>>, list: Seq<MatchView<T>>, weight: Score) -> Seq<
    MatchView<T>,
>
    decreases list.len(),
{
    if list.len() == 0 {
        merged
    } else {
        absorb(absorb_all(merged, list.drop_last(), weight), list.last(), weight)
    }
}

/// The merged list of all searchers: one entry for each record that any of
/// them matched, in the order in which the records were first seen.
pub open spec fn spec_merge<T>(
    results: Seq<(SearcherKind, Seq<MatchView<T>>)>,
    weights: Seq<(SearcherKind, Score)>,
) -> Seq<MatchView<T>>
    decreases results.len(),
{
    if results.len() == 0 {
        Seq::empty()
    } else {
        absorb_all(
            spec_merge(results.drop_last(), weights),
            results.last().1,
            spec_weight(weights, results.last().0),
        )
    }
}

/// The index of the first match with the given id, or `len()`.
pub fn position_of_id<T>(matches: &Vec<SearusMatch<T>>, id: usize) -> (at: usize)
    ensures
        at == index_of_id(match_views(matches@), id),
        at <= matches@.len(),
{
    let mut i: usize = 0;
    while i < matches.len()
        invariant
            i <= matches.len(),
            forall|j: int| 0 <= j < i ==> (#[trigger] match_views(matches@)[j]).id != id,
        decreases matches.len() - i,
    {
        if matches[i].id == id {
            proof {
                lemma_index_of_id_is(match_views(matches@), id, i as int);
            }
            return i;
        }
        i += 1;
    }
    proof {
        lemma_index_of_id_is(match_views(matches@), id, i as int);
    }
    i
}

/// Adds each score of `extra`, weighted, to the score of its name in
/// `target`.
pub fn add_weighted(target: &mut FieldScores, extra: FieldScores, weight: Score)
    ensures
        final(target)@ == add_all(old(target)@, extra@, weight),
{
    let ghost all = extra@;
    for entry in it: extra.entries
        invariant
            it.seq() == extra.entries@,
            all == extra@,
            target@ == add_all(old(target)@, all.take(it.index()), weight),
    {
        proof {
            let i = it.index();
            assert(all.take(i + 1).drop_last() =~= all.take(i));
            assert(all.take(i + 1).last() == (entry.0@, entry.1));
        }
        let (name, score) = entry;
        target.add(name, score.times(weight));
    }
    assert(all.take(all.len() as int) =~= all);
}

/// Takes one match into the merged list, with the weight of its searcher.
pub fn absorb_match<T>(merged: &mut Vec<SearusMatch<T>>, m: SearusMatch<T>, weight: Score)
    ensures
        match_views(final(merged)@) == absorb(match_views(old(merged)@), m@, weight),
{
    let at = position_of_id(merged, m.id);
    absorb_at(merged, m, weight, at);
}

/// Whether the index gives, for the id of each merged match, the place of
/// the match, and holds no other id.
pub open spec fn indexes<T>(index: Map<usize, usize>, merged: Seq<MatchView<T>>) -> bool {
    &&& forall|p: int|
        0 <= p < merged.len() ==> index.contains_key((#[trigger] merged[p]).id)
            && index[merged[p].id] == p
    &&& forall|id: usize| #[trigger]
        index.contains_key(id) ==> index[id] < merged.len() && merged[index[id] as int].id == id
}

/// Takes one match into the merged list, finding its record by the index.
fn absorb_indexed<T>(
    merged: &mut Vec<SearusMatch<T>>,
    index: &mut HashMap<usize, usize>,
    m: SearusMatch<T>,
    weight: Score,
)
    requires
        indexes(old(index)@, match_views(old(merged)@)),
    ensures
        match_views(final(merged)@) == absorb(match_views(old(merged)@), m@, weight),
        indexes(final(index)@, match_views(final(merged)@)),
{
    broadcast use vstd::std_specs::hash::group_hash_axioms;

    let ghost before = match_views(merged@);
    let id = m.id;
    let at: usize = match index.get(&id) {
        Some(place) => *place,
        None => merged.len(),
    };
    proof {
        if at < merged.len() {
            assert forall|j: int| 0 <= j < at implies (#[trigger] before[j]).id != id by {
                assert(index@[before[j].id] == j);
            }
        } else {
            assert forall|j: int| 0 <= j < at implies (#[trigger] before[j]).id != id by {
                assert(index@.contains_key(before[j].id));
            }
        }
        lemma_index_of_id_is(before, id, at as int);
    }
    if at == merged.len() {
        index.insert(id, at);
    }
    absorb_at(merged, m, weight, at);
    proof {
        let after = match_views(merged@);
        assert forall|p: int| 0 <= p < after.len() implies index@.contains_key(
            (#[trigger] after[p]).id,
        ) && index@[after[p].id] == p by {
            if p < before.len() {
                assert(after[p].id == before[p].id);
                assert(old(index)@[before[p].id] == p);
            }
        }
        assert forall|key: usize| #[trigger] index@.contains_key(key) implies index@[key]
            < after.len() && after[index@[key] as int].id == key by {
            if old(index)@.contains_key(key) {
                assert(before[old(index)@[key] as int].id == key);
                assert(after[old(index)@[key] as int].id == before[old(index)@[key] as int].id);
            }
        }
    }
}

/// Takes one match into the merged list at the place of its record, which
/// is the end of the list for a record that was not seen before.
fn absorb_at<T>(merged: &mut Vec<SearusMatch<T>>, m: SearusMatch<T>, weight: Score, at: usize)
    requires
        at == index_of_id(match_views(old(merged)@), m.id),
        at <= old(merged)@.len(),
    ensures
        match_views(final(merged)@) == absorb(match_views(old(merged)@), m@, weight),
        final(merged)@.len() == if at < old(merged)@.len() {
            old(merged)@.len()
        } else {
            old(merged)@.len() + 1
        },
        forall|p: int| 0 <= p < old(merged)@.len() ==> (#[trigger] final(merged)@[p]).id == old(merged)@[p].id,
        final(merged)@[at as int].id == m.id,
{
    let ghost before = match_views(merged@);
    let ghost incoming = m@;
    proof {
        lemma_index_of_id(before, m.id);
    }
    let SearusMatch { item, score, field_scores, details, id } = m;
    let mut details = details;
    if at == merged.len() {
        let fresh = SearusMatch {
            item,
            score: Score::zero(),
            field_scores: FieldScores::new(),
            details: Vec::new(),
            id,
        };
        assert(fresh@ == blank(incoming)) by {
            assert(fresh@.details =~= Seq::<DetailView>::empty());
        }
        merged.push(fresh);
        assert(match_views(merged@) =~= before.push(blank(incoming)));
    }
    let ghost base = match_views(merged@);
    let sum = merged[at].score.plus(score.times(weight));
    merged[at].score = sum;
    add_weighted(&mut merged[at].field_scores, field_scores, weight);
    merged[at].details.append(&mut details);
    proof {
        assert(merged@[at as int]@.details =~= base[at as int].details + incoming.details);
        assert(merged@[at as int]@ == combined(base[at as int], incoming, weight));
        assert(match_views(merged@) =~= base.update(at as int, combined(base[at as int], incoming, weight)));
    }
}

/// Takes a whole list of one searcher into the merged list, in order.
fn absorb_list<T>(
    merged: &mut Vec<SearusMatch<T>>,
    index: &mut HashMap<usize, usize>,
    matches: Vec<SearusMatch<T>>,
    weight: Score,
)
    requires
        indexes(old(index)@, match_views(old(merged)@)),
    ensures
        match_views(final(merged)@) == absorb_all(
            match_views(old(merged)@),
            match_views(matches@),
            weight,
        ),
        indexes(final(index)@, match_views(final(merged)@)),
{
    let ghost all = match_views(matches@);
    for m in it: matches
        invariant
            it.seq() == matches@,
            all == match_views(matches@),
            match_views(merged@) == absorb_all(
                match_views(old(merged)@),
                all.take(it.index()),
                weight,
            ),
            indexes(index@, match_views(merged@)),
    {
        proof {
            let i = it.index();
            assert(all.take(i + 1).drop_last() =~= all.take(i));
            assert(all.take(i + 1).last() == m@);
        }
        absorb_indexed(merged, index, m, weight);
    }
    assert(all.take(all.len() as int) =~= all);
}

/// Merges the match lists of all searchers by record.
///
/// A record's merged score is the sum, over the searchers that matched it,
/// of its score there times the weight of the searcher's kind. Field scores
/// are summed in the same way, and details are concatenated, searcher by
/// searcher in the order of `results`. The entries stand in the order in
/// which their records were first seen.
pub fn merge_results<T>(
    results: Vec<(SearcherKind, Vec<SearusMatch<T>>)>,
    options: &SearchOptions,
) -> (merged: Vec<SearusMatch<T>>)
    ensures
        match_views(merged@) == spec_merge(result_views(results@), options.weights@),
{
    let mut merged: Vec<SearusMatch<T>> = Vec::new();
    let mut index: HashMap<usize, usize> = HashMap::new();
    let ghost all = result_views(results@);
    assert(match_views(merged@) =~= Seq::<MatchView<T>>::empty());
    for pair in it: results
        invariant
            it.seq() == results@,
            all == result_views(results@),
            match_views(merged@) == spec_merge(all.take(it.index()), options.weights@),
            indexes(index@, match_views(merged@)),
    {
        proof {
            let k = it.index();
            assert(all.take(k + 1).drop_last() =~= all.take(k));
            assert(all.take(k + 1).last() == (pair.0, match_views(pair.1@)));
        }
        let (kind, matches) = pair;
        let weight = options.weight_for(kind);
        absorb_list(&mut merged, &mut index, matches, weight);
    }
    assert(all.take(all.len() as int) =~= all);
    merged
}

// ---------------------------------------------------------------------
// Pagination
// ---------------------------------------------------------------------
/// The page of a list that leaves out the first `skip` matches and holds
/// the next `limit`, or as many as there are.
pub open spec fn page_of<T>(list: Seq<MatchView<T>>, skip: nat, limit: nat) -> Seq<MatchView<T>> {
    if skip >= list.len() {
        Seq::empty()
    } else if skip + limit >= list.len() {
        list.subrange(skip as int, list.len() as int)
    } else {
        list.subrange(skip as int, (skip + limit) as int)
    }
}

/// Leaves out the first `skip` matches and returns the next `limit`, or as
/// many as there are.
pub fn paginate<T>(matches: Vec<SearusMatch<T>>, skip: usize, limit: usize) -> (page: Vec<
    SearusMatch<T>,
>)
    ensures
        match_views(page@) == page_of(match_views(matches@), skip as nat, limit as nat),
        page@ == if skip >= matches@.len() {
            Seq::empty()
        } else if skip + limit >= matches@.len() {
            matches@.subrange(skip as int, matches@.len() as int)
        } else {
            matches@.subrange(skip as int, skip + limit)
        },
        page@.len() <= limit,
        page@.len() <= matches@.len(),
{
    let mut all = matches;
    if skip >= all.len() {
        let page: Vec<SearusMatch<T>> = Vec::new();
        assert(match_views(page@) =~= Seq::<MatchView<T>>::empty());
        return page;
    }
    let mut page = all.split_off(skip);
    page.truncate(limit);
    assert(match_views(page@) =~= page_of(match_views(matches@), skip as nat, limit as nat));
    page
}

/// The ranked page of a search: the lists rescaled, merged by record,
/// sorted by descending score, and paginated.
pub open spec fn spec_rank<T>(
    results: Seq<(SearcherKind, Seq<MatchView<T>>)>,
    method: NormalizationMethod,
    options: SearchOptions,
) -> Seq<MatchView<T>> {
    page_of(
        stable_sorted(spec_merge(normalized_all(results, method), options.weights@)),
        options.skip as nat,
        options.limit as nat,
    )
}

/// Ranks the matches that the searchers found: rescales each list, merges
/// the lists by record with the weights of `options`, sorts by descending
/// score and returns the page that `options` asks for.
pub fn rank<T>(
    results: Vec<(SearcherKind, Vec<SearusMatch<T>>)>,
    method: NormalizationMethod,
    options: &SearchOptions,
) -> (page: Vec<SearusMatch<T>>)
    ensures
        match_views(page@) == spec_rank(result_views(results@), method, *options),
        page@.len() <= options.limit,
{
    let normalized = normalize_results(results, method);
    let merged = merge_results(normalized, options);
    let sorted = sort_by_score(merged);
    paginate(sorted, options.skip, options.limit)
}

} // verus!
