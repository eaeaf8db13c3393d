//! What holds of the ranking steps on every input.

use vstd::prelude::*;
use vstd::set_lib::{lemma_int_range, lemma_len_subset, set_int_range};
use crate::ranking::{
    absorb, absorb_all, blank, combined, index_of_id, lemma_index_of_id, normalized_all,
    normalized_list, spec_merge, spec_rank, NormalizationMethod,
};
use crate::sort::{lemma_slot, slot, stable_sorted};
use crate::score::{score_of, Score};
use crate::types::{copies_of, gathered, spec_weight, MatchView, SearchOptions, SearcherKind};

verus! {

// ---------------------------------------------------------------------
// Sorting
// ---------------------------------------------------------------------
/// For each place of the sorted list, the index that its match had before
/// sorting.
pub open spec fn sort_origin<T>(list: Seq<MatchView<T>>) -> Seq<int>
    decreases list.len(),
{
    if list.len() == 0 {
        Seq::empty()
    } else {
        let front = stable_sorted(list.drop_last());
        sort_origin(list.drop_last()).insert(slot(front, list.last().score), list.len() - 1)
    }
}

/// Sorting rearranges the matches, by descending score, and is stable.
///
/// The sorted list holds every match of the list exactly once: place `k`
/// holds the match that stood at `sort_origin(list)[k]`, and no two places
/// have the same origin. Scores never rise from one place to the next, and
/// two matches of equal score stand in the order in which they stood
/// before.
pub proof fn law_sort_is_stable<T>(list: Seq<MatchView<T>>)
    ensures
        stable_sorted(list).len() == list.len(),
        sort_origin(list).len() == list.len(),
        forall|k: int|
            0 <= k < list.len() ==> 0 <= (#[trigger] sort_origin(list)[k]) < list.len()
                && stable_sorted(list)[k] == list[sort_origin(list)[k]],
        forall|k: int, l: int|
            0 <= k < l < list.len() ==> sort_origin(list)[k] != sort_origin(list)[l],
        forall|k: int, l: int|
            0 <= k < l < list.len() ==> stable_sorted(list)[k].score.micros >= stable_sorted(
                list,
            )[l].score.micros,
        forall|k: int, l: int|
            0 <= k < l < list.len() && stable_sorted(list)[k].score == stable_sorted(
                list,
            )[l].score ==> sort_origin(list)[k] < sort_origin(list)[l],
    decreases list.len(),
{
    if list.len() > 0 {
        let shorter = list.drop_last();
        law_sort_is_stable(shorter);
        let front = stable_sorted(shorter);
        let from = sort_origin(shorter);
        let x = list.last();
        let at = slot(front, x.score);
        lemma_slot(front, x.score);
        let out = stable_sorted(list);
        let origin = sort_origin(list);
        let n = list.len() - 1;
        assert(out == front.insert(at, x));
        assert(origin == from.insert(at, n));
        assert forall|k: int| 0 <= k < list.len() implies 0 <= (#[trigger] origin[k]) < list.len()
            && out[k] == list[origin[k]] by {
            if k < at {
                assert(origin[k] == from[k]);
                assert(out[k] == front[k]);
                assert(shorter[from[k]] == list[from[k]]);
            } else if k > at {
                assert(origin[k] == from[k - 1]);
                assert(out[k] == front[k - 1]);
                assert(shorter[from[k - 1]] == list[from[k - 1]]);
            }
        }
        assert forall|k: int, l: int| 0 <= k < l < list.len() implies origin[k] != origin[l]
            && out[k].score.micros >= out[l].score.micros && (out[k].score == out[l].score
            ==> origin[k] < origin[l]) by {
            let ok = if k < at {
                from[k]
            } else if k == at {
                n
            } else {
                from[k - 1]
            };
            let ol = if l < at {
                from[l]
            } else if l == at {
                n
            } else {
                from[l - 1]
            };
            assert(origin[k] == ok && origin[l] == ol);
            if l < at {
                assert(out[k] == front[k] && out[l] == front[l]);
            } else if l == at {
                assert(out[k] == front[k]);
                assert(from[k] < n);
            } else if k < at {
                assert(out[k] == front[k] && out[l] == front[l - 1]);
            } else if k == at {
                assert(out[l] == front[l - 1]);
                if at < l - 1 {
                    assert(front[at].score.micros >= front[l - 1].score.micros);
                }
            } else {
                assert(out[k] == front[k - 1] && out[l] == front[l - 1]);
            }
        }
    }
}

/// Where each match that is picked for an index has that index as its id,
/// the ids of the gathered matches are indices below the count. Sorting
/// and cloning the items change no id.
pub proof fn lemma_found_ids<T: Clone>(
    found: Seq<MatchView<T>>,
    count: nat,
    pick: spec_fn(int) -> Option<MatchView<T>>,
)
    requires
        copies_of(found, stable_sorted(gathered(count, pick))),
        forall|i: int| 0 <= i < count && pick(i) is Some ==> (#[trigger] pick(i))->0.id == i,
    ensures
        forall|k: int| 0 <= k < found.len() ==> (#[trigger] found[k]).id < count,
{
    let unsorted = gathered(count, pick);
    let sorted = stable_sorted(unsorted);
    lemma_gathered_ids(count, pick);
    law_sort_is_stable(unsorted);
    assert forall|k: int| 0 <= k < found.len() implies (#[trigger] found[k]).id < count by {
        assert(found[k].id == sorted[k].id);
        assert(sorted[k] == unsorted[sort_origin(unsorted)[k]]);
    }
}

/// Where each match that is picked for an index has that index as its id,
/// the ids of the gathered matches are indices below the count.
pub proof fn lemma_gathered_ids<T>(count: nat, pick: spec_fn(int) -> Option<MatchView<T>>)
    requires
        forall|i: int| 0 <= i < count && pick(i) is Some ==> (#[trigger] pick(i))->0.id == i,
    ensures
        forall|k: int|
            0 <= k < gathered(count, pick).len() ==> (#[trigger] gathered(count, pick)[k]).id
                < count,
    decreases count,
{
    if count > 0 {
        lemma_gathered_ids((count - 1) as nat, pick);
        let front = gathered((count - 1) as nat, pick);
        assert forall|k: int| 0 <= k < gathered(count, pick).len() implies (#[trigger] gathered(
            count,
            pick,
        )[k]).id < count by {
            if k < front.len() {
                assert(front[k].id < count - 1);
            } else {
                assert(pick(count - 1) is Some);
            }
        }
    }
}

// ---------------------------------------------------------------------
// Merging
// ---------------------------------------------------------------------
/// Whether no two matches of the list have the same id.
pub open spec fn distinct_ids<T>(list: Seq<MatchView<T>>) -> bool {
    forall|i: int, j: int| 0 <= i < j < list.len() ==> list[i].id != list[j].id
}

/// Whether some match of the list has the id.
pub open spec fn has_id<T>(list: Seq<MatchView<T>>, id: usize) -> bool {
    exists|i: int| 0 <= i < list.len() && (#[trigger] list[i]).id == id
}

/// Whether some match of some list has the id.
pub open spec fn any_has_id<T>(results: Seq<(SearcherKind, Seq<MatchView<T>>)>, id: usize) -> bool {
    exists|k: int| 0 <= k < results.len() && has_id((#[trigger] results[k]).1, id)
}

/// Taking in one match keeps the ids distinct, keeps every id that was
/// there, and adds the id of the match and no other.
pub proof fn lemma_absorb_ids<T>(merged: Seq<MatchView<T>>, m: MatchView<T>, weight: Score)
    requires
        distinct_ids(merged),
    ensures
        distinct_ids(absorb(merged, m, weight)),
        merged.len() <= absorb(merged, m, weight).len() <= merged.len() + 1,
        forall|i: int| 0 <= i < merged.len() ==> (#[trigger] absorb(merged, m, weight)[i]).id == merged[i].id,
        forall|i: int| 0 <= i < merged.len() ==> absorb(merged, m, weight)[i].item == (#[trigger] merged[i]).item,
        forall|id: usize|
            has_id(absorb(merged, m, weight), id) <==> has_id(merged, id) || id == m.id,
{
    lemma_index_of_id(merged, m.id);
    let at = index_of_id(merged, m.id);
    let base = if at < merged.len() {
        merged
    } else {
        merged.push(blank(m))
    };
    let out = absorb(merged, m, weight);
    assert(out == base.update(at, combined(base[at], m, weight)));
    assert(out[at].id == m.id);
    assert forall|i: int, j: int| 0 <= i < j < out.len() implies out[i].id != out[j].id by {
        if j < merged.len() {
            assert(merged[i].id != merged[j].id);
        } else {
            assert(merged[i].id != m.id);
        }
    }
    assert forall|id: usize| has_id(out, id) <==> has_id(merged, id) || id == m.id by {
        if has_id(out, id) {
            let i = choose|i: int| 0 <= i < out.len() && (#[trigger] out[i]).id == id;
            if i < merged.len() {
                assert(merged[i].id == id);
            }
        }
        if has_id(merged, id) {
            let i = choose|i: int| 0 <= i < merged.len() && (#[trigger] merged[i]).id == id;
            assert(out[i].id == id);
        }
        if id == m.id {
            assert(out[at].id == id);
        }
    }
}

/// Taking in a list keeps the ids distinct and adds the ids of the list and
/// no others.
pub proof fn lemma_absorb_all_ids<T>(merged: Seq<MatchView<T>>, list: Seq<MatchView<T>>, weight: Score)
    requires
        distinct_ids(merged),
    ensures
        distinct_ids(absorb_all(merged, list, weight)),
        merged.len() <= absorb_all(merged, list, weight).len() <= merged.len() + list.len(),
        forall|id: usize|
            has_id(absorb_all(merged, list, weight), id) <==> has_id(merged, id) || has_id(list, id),
    decreases list.len(),
{
    if list.len() == 0 {
        assert forall|id: usize| !has_id(list, id) by {}
    } else {
        let shorter = list.drop_last();
        lemma_absorb_all_ids(merged, shorter, weight);
        let before = absorb_all(merged, shorter, weight);
        lemma_absorb_ids(before, list.last(), weight);
        let out = absorb_all(merged, list, weight);
        assert forall|id: usize| has_id(out, id) <==> has_id(merged, id) || has_id(list, id) by {
            if has_id(shorter, id) {
                let i = choose|i: int| 0 <= i < shorter.len() && (#[trigger] shorter[i]).id == id;
                assert(list[i].id == id);
            }
            if id == list.last().id {
                assert(list[list.len() - 1].id == id);
            }
            if has_id(list, id) {
                let i = choose|i: int| 0 <= i < list.len() && (#[trigger] list[i]).id == id;
                if i < shorter.len() {
                    assert(shorter[i].id == id);
                }
            }
        }
    }
}

/// Rescaling changes no id.
pub proof fn lemma_normalized_ids<T>(
    results: Seq<(SearcherKind, Seq<MatchView<T>>)>,
    method: NormalizationMethod,
    id: usize,
)
    ensures
        any_has_id(normalized_all(results, method), id) <==> any_has_id(results, id),
{
    let after = normalized_all(results, method);
    assert forall|k: int| 0 <= k < results.len() implies (has_id((#[trigger] after[k]).1, id)
        <==> has_id(results[k].1, id)) by {
        let a = after[k].1;
        let b = results[k].1;
        assert(a == normalized_list(b, method));
        if has_id(a, id) {
            let i = choose|i: int| 0 <= i < a.len() && (#[trigger] a[i]).id == id;
            assert(b[i].id == id);
        }
        if has_id(b, id) {
            let i = choose|i: int| 0 <= i < b.len() && (#[trigger] b[i]).id == id;
            assert(a[i].id == id);
        }
    }
    if any_has_id(after, id) {
        let k = choose|k: int| 0 <= k < after.len() && has_id((#[trigger] after[k]).1, id);
        assert(has_id(results[k].1, id));
    }
    if any_has_id(results, id) {
        let k = choose|k: int| 0 <= k < results.len() && has_id((#[trigger] results[k]).1, id);
        assert(has_id(after[k].1, id));
    }
}

/// The merged list has one entry for each record that some searcher
/// matched, and none else.
pub proof fn law_merge_is_by_record<T>(
    results: Seq<(SearcherKind, Seq<MatchView<T>>)>,
    weights: Seq<(SearcherKind, Score)>,
)
    ensures
        distinct_ids(spec_merge(results, weights)),
        forall|id: usize| has_id(spec_merge(results, weights), id) <==> any_has_id(results, id),
    decreases results.len(),
{
    let merged = spec_merge(results, weights);
    if results.len() == 0 {
        assert forall|id: usize| !has_id(merged, id) && !any_has_id(results, id) by {}
    } else {
        let shorter = results.drop_last();
        law_merge_is_by_record(shorter, weights);
        let list = results.last().1;
        lemma_absorb_all_ids(
            spec_merge(shorter, weights),
            list,
            spec_weight(weights, results.last().0),
        );
        assert forall|id: usize| has_id(merged, id) <==> any_has_id(results, id) by {
            if any_has_id(shorter, id) {
                let k = choose|k: int| 0 <= k < shorter.len() && has_id((#[trigger] shorter[k]).1, id);
                assert(has_id(results[k].1, id));
            }
            if has_id(list, id) {
                assert(has_id(results[results.len() - 1].1, id));
            }
            if any_has_id(results, id) {
                let k = choose|k: int| 0 <= k < results.len() && has_id((#[trigger] results[k]).1, id);
                if k < shorter.len() {
                    assert(has_id(shorter[k].1, id));
                }
            }
        }
    }
}

/// What the matches of a list with the given id add to the merged score of
/// their record: the sum of their weighted scores, in millionths.
pub open spec fn list_total<T>(list: Seq<MatchView<T>>, weight: Score, id: usize) -> int
    decreases list.len(),
{
    if list.len() == 0 {
        0
    } else {
        list_total(list.drop_last(), weight, id) + if list.last().id == id {
            list.last().score.spec_times(weight).units()
        } else {
            0
        }
    }
}

/// The sum, over all searchers, of the scores of the record with the given
/// id, each times the weight of the kind of its searcher, in millionths.
pub open spec fn weighted_total<T>(
    results: Seq<(SearcherKind, Seq<MatchView<T>>)>,
    weights: Seq<(SearcherKind, Score)>,
    id: usize,
) -> int
    decreases results.len(),
{
    if results.len() == 0 {
        0
    } else {
        weighted_total(results.drop_last(), weights, id) + list_total(
            results.last().1,
            spec_weight(weights, results.last().0),
            id,
        )
    }
}

/// Whether each score of the merged list is the given total of its record,
/// saturated, and the total of every other record is zero.
pub open spec fn scores_are<T>(merged: Seq<MatchView<T>>, totals: spec_fn(usize) -> int) -> bool {
    &&& forall|p: int|
        0 <= p < merged.len() ==> (#[trigger] merged[p]).score == score_of(totals(merged[p].id))
    &&& forall|id: usize| !has_id(merged, id) ==> #[trigger] totals(id) == 0
    &&& forall|id: usize| #[trigger] totals(id) >= 0
}

/// Taking in one match adds its weighted score to the total of its record.
pub proof fn lemma_absorb_scores<T>(
    merged: Seq<MatchView<T>>,
    m: MatchView<T>,
    weight: Score,
    totals: spec_fn(usize) -> int,
    after: spec_fn(usize) -> int,
)
    requires
        distinct_ids(merged),
        scores_are(merged, totals),
        forall|id: usize|
            #[trigger] after(id) == totals(id) + if id == m.id {
                m.score.spec_times(weight).units()
            } else {
                0
            },
    ensures
        scores_are(absorb(merged, m, weight), after),
{
    lemma_index_of_id(merged, m.id);
    lemma_absorb_ids(merged, m, weight);
    let at = index_of_id(merged, m.id);
    let out = absorb(merged, m, weight);
    let base = if at < merged.len() {
        merged
    } else {
        merged.push(blank(m))
    };
    assert(out == base.update(at, combined(base[at], m, weight)));
    assert(totals(m.id) >= 0);
    if at >= merged.len() {
        assert(!has_id(merged, m.id));
        assert(totals(m.id) == 0);
    } else {
        assert(merged[at].score == score_of(totals(m.id)));
    }
    assert forall|p: int| 0 <= p < out.len() implies (#[trigger] out[p]).score == score_of(
        after(out[p].id),
    ) by {
        if p == at {
            assert(out[p].id == m.id);
            assert(after(m.id) == totals(m.id) + m.score.spec_times(weight).units());
        } else {
            assert(out[p] == merged[p]);
            assert(merged[p].id != m.id) by {
                if p < at {
                } else {
                    assert(merged[at].id == m.id);
                }
            }
            assert(after(merged[p].id) == totals(merged[p].id));
        }
    }
    assert forall|id: usize| !has_id(out, id) implies #[trigger] after(id) == 0 by {
        assert(!has_id(merged, id) && id != m.id);
        assert(totals(id) == 0);
    }
    assert forall|id: usize| #[trigger] after(id) >= 0 by {
        assert(totals(id) >= 0);
    }
}

/// Taking in a list adds, for each record, the total of the list.
pub proof fn lemma_absorb_all_scores<T>(
    merged: Seq<MatchView<T>>,
    list: Seq<MatchView<T>>,
    weight: Score,
    totals: spec_fn(usize) -> int,
    after: spec_fn(usize) -> int,
)
    requires
        distinct_ids(merged),
        scores_are(merged, totals),
        forall|id: usize| #[trigger] after(id) == totals(id) + list_total(list, weight, id),
    ensures
        scores_are(absorb_all(merged, list, weight), after),
    decreases list.len(),
{
    if list.len() == 0 {
        assert forall|p: int| 0 <= p < merged.len() implies (#[trigger] merged[p]).score
            == score_of(after(merged[p].id)) by {
            assert(after(merged[p].id) == totals(merged[p].id));
        }
        assert forall|id: usize| !has_id(merged, id) implies #[trigger] after(id) == 0 by {
            assert(totals(id) == 0);
        }
        assert forall|id: usize| #[trigger] after(id) >= 0 by {
            assert(totals(id) >= 0);
        }
    } else {
        let shorter = list.drop_last();
        let middle = |id: usize| totals(id) + list_total(shorter, weight, id);
        lemma_absorb_all_scores(merged, shorter, weight, totals, middle);
        lemma_absorb_all_ids(merged, shorter, weight);
        assert forall|id: usize|
            #[trigger] after(id) == middle(id) + if id == list.last().id {
                list.last().score.spec_times(weight).units()
            } else {
                0
            } by {
            assert(after(id) == totals(id) + list_total(list, weight, id));
        }
        lemma_absorb_scores(
            absorb_all(merged, shorter, weight),
            list.last(),
            weight,
            middle,
            after,
        );
    }
}

/// The merged score of a record is the sum, over the searchers that
/// matched it, of its score there times the weight of the searcher's kind,
/// saturated. It is not capped at 1.
pub proof fn law_merged_score_is_weighted_sum<T>(
    results: Seq<(SearcherKind, Seq<MatchView<T>>)>,
    weights: Seq<(SearcherKind, Score)>,
)
    ensures
        forall|p: int|
            0 <= p < spec_merge(results, weights).len() ==> (#[trigger] spec_merge(
                results,
                weights,
            )[p]).score == score_of(
                weighted_total(results, weights, spec_merge(results, weights)[p].id),
            ),
{
    lemma_merged_scores(results, weights);
}

/// The scores of the merged list are the weighted totals.
pub proof fn lemma_merged_scores<T>(
    results: Seq<(SearcherKind, Seq<MatchView<T>>)>,
    weights: Seq<(SearcherKind, Score)>,
)
    ensures
        scores_are(spec_merge(results, weights), |id: usize| weighted_total(results, weights, id)),
    decreases results.len(),
{
    let after = |id: usize| weighted_total(results, weights, id);
    if results.len() == 0 {
        assert forall|id: usize| #[trigger] after(id) == 0 by {}
    } else {
        let shorter = results.drop_last();
        let totals = |id: usize| weighted_total(shorter, weights, id);
        lemma_merged_scores(shorter, weights);
        law_merge_is_by_record(shorter, weights);
        let weight = spec_weight(weights, results.last().0);
        assert forall|id: usize|
            #[trigger] after(id) == totals(id) + list_total(results.last().1, weight, id) by {}
        lemma_absorb_all_scores(
            spec_merge(shorter, weights),
            results.last().1,
            weight,
            totals,
            after,
        );
    }
}

/// A list of matches with distinct ids below `count` has at most `count`
/// matches.
pub proof fn lemma_distinct_ids_bounded<T>(list: Seq<MatchView<T>>, count: nat)
    requires
        distinct_ids(list),
        forall|i: int| 0 <= i < list.len() ==> (#[trigger] list[i]).id < count,
    ensures
        list.len() <= count,
{
    let ids = Seq::new(list.len(), |i: int| list[i].id as int);
    assert(ids.no_duplicates());
    ids.unique_seq_to_set();
    lemma_int_range(0, count as int);
    assert(ids.to_set().subset_of(set_int_range(0, count as int))) by {
        assert forall|x: int| ids.to_set().contains(x) implies set_int_range(
            0,
            count as int,
        ).contains(x) by {
            let i = choose|i: int| 0 <= i < ids.len() && ids[i] == x;
            assert(list[i].id < count);
        }
    }
    lemma_len_subset(ids.to_set(), set_int_range(0, count as int));
}

/// A page is never longer than its limit, nor than the number of records
/// that were searched.
///
/// That every id is the index of a record is what the searchers owe; the
/// bound by the limit holds without it.
pub proof fn law_page_is_bounded<T>(
    results: Seq<(SearcherKind, Seq<MatchView<T>>)>,
    method: NormalizationMethod,
    options: SearchOptions,
    records: nat,
)
    requires
        forall|k: int, i: int|
            0 <= k < results.len() && 0 <= i < results[k].1.len() ==> (#[trigger] results[k].1[i]).id
                < records,
    ensures
        spec_rank(results, method, options).len() <= options.limit,
        spec_rank(results, method, options).len() <= records,
{
    let normalized = normalized_all(results, method);
    let merged = spec_merge(normalized, options.weights@);
    law_merge_is_by_record(normalized, options.weights@);
    assert forall|p: int| 0 <= p < merged.len() implies (#[trigger] merged[p]).id < records by {
        let id = merged[p].id;
        assert(has_id(merged, id));
        lemma_normalized_ids(results, method, id);
        let k = choose|k: int| 0 <= k < results.len() && has_id((#[trigger] results[k]).1, id);
        let i = choose|i: int| 0 <= i < results[k].1.len() && (#[trigger] results[k].1[i]).id == id;
        assert(results[k].1[i].id < records);
    }
    lemma_distinct_ids_bounded(merged, records);
    law_sort_is_stable(merged);
}

} // verus!
