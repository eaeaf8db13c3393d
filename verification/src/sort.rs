//! Stable sorting of matches by descending score.
//!
//! The sorted list is defined by placing the matches one after the other,
//! each behind the matches that are not lower. The sort itself is a merge
//! sort.

use vstd::prelude::*;
use crate::score::Score;
use crate::types::{copies_of, copy_of, match_views, MatchView, SearusMatch};

verus! {

/// Where a match of the given score goes into a list sorted by descending
/// score: before the first match with a lower score.
pub open spec fn slot<T>(list: Seq<MatchView<T>>, score: Score) -> int
    decreases list.len(),
{
    if list.len() == 0 {
        0
    } else if list[0].score.micros < score.micros {
        0
    } else {
        1 + slot(list.drop_first(), score)
    }
}

/// The list sorted by descending score, matches of equal score in their
/// order in the list.
pub open spec fn stable_sorted<T>(list: Seq<MatchView<T>>) -> Seq<MatchView<T>>
    decreases list.len(),
{
    if list.len() == 0 {
        list
    } else {
        let front = stable_sorted(list.drop_last());
        front.insert(slot(front, list.last().score), list.last())
    }
}

/// `slot` is the least index whose match has a lower score.
pub proof fn lemma_slot<T>(list: Seq<MatchView<T>>, score: Score)
    ensures
        0 <= slot(list, score) <= list.len(),
        slot(list, score) < list.len() ==> list[slot(list, score)].score.micros < score.micros,
        forall|i: int|
            0 <= i < slot(list, score) ==> (#[trigger] list[i]).score.micros >= score.micros,
    decreases list.len(),
{
    if list.len() > 0 && list[0].score.micros >= score.micros {
        let rest = list.drop_first();
        lemma_slot(rest, score);
        assert forall|i: int| 0 <= i < slot(list, score) implies (#[trigger] list[i]).score.micros
            >= score.micros by {
            if i > 0 {
                assert(list[i] == rest[i - 1]);
            }
        }
    }
}

/// An index whose match has a lower score, with no such match before it,
/// is the slot.
pub proof fn lemma_slot_is<T>(list: Seq<MatchView<T>>, score: Score, at: int)
    requires
        0 <= at <= list.len(),
        at < list.len() ==> list[at].score.micros < score.micros,
        forall|i: int| 0 <= i < at ==> (#[trigger] list[i]).score.micros >= score.micros,
    ensures
        slot(list, score) == at,
{
    lemma_slot(list, score);
    let first = slot(list, score);
    if first < at {
        assert(list[first].score.micros >= score.micros);
    } else if at < first {
        assert(list[at].score.micros >= score.micros);
    }
}

/// Lists with the same scores, place by place, have the same slots.
pub proof fn lemma_slot_alike<T>(a: Seq<MatchView<T>>, b: Seq<MatchView<T>>, score: Score)
    requires
        a.len() == b.len(),
        forall|k: int| 0 <= k < a.len() ==> (#[trigger] a[k]).score == b[k].score,
    ensures
        slot(a, score) == slot(b, score),
{
    lemma_slot(a, score);
    let at = slot(a, score);
    assert forall|i: int| 0 <= i < at implies (#[trigger] b[i]).score.micros >= score.micros by {
        assert(a[i].score == b[i].score);
    }
    if at < a.len() {
        assert(a[at].score == b[at].score);
    }
    lemma_slot_is(b, score, at);
}

/// Sorting commutes with cloning the items.
pub proof fn lemma_sorted_copies<T: Clone>(found: Seq<MatchView<T>>, expected: Seq<MatchView<T>>)
    requires
        copies_of(found, expected),
    ensures
        copies_of(stable_sorted(found), stable_sorted(expected)),
    decreases found.len(),
{
    if found.len() > 0 {
        let a = stable_sorted(found.drop_last());
        let b = stable_sorted(expected.drop_last());
        assert(copies_of(found.drop_last(), expected.drop_last()));
        lemma_sorted_copies(found.drop_last(), expected.drop_last());
        assert(copy_of(found.last(), expected.last()));
        let score = found.last().score;
        lemma_slot_alike(a, b, score);
        lemma_slot(a, score);
        let at = slot(a, score);
        let x = a.insert(at, found.last());
        let y = b.insert(at, expected.last());
        assert forall|k: int| 0 <= k < x.len() implies copy_of(#[trigger] x[k], y[k]) by {
            if k < at {
                assert(copy_of(a[k], b[k]));
            } else if k > at {
                assert(copy_of(a[k - 1], b[k - 1]));
            }
        }
    }
}


/// Whether scores never rise from one place of the list to the next.
pub open spec fn descending<T>(list: Seq<MatchView<T>>) -> bool {
    forall|i: int, j: int| 0 <= i < j < list.len() ==> list[i].score.micros >= list[j].score.micros
}

/// Whether no score of the list is below the given score.
pub open spec fn at_least<T>(list: Seq<MatchView<T>>, score: Score) -> bool {
    forall|i: int| 0 <= i < list.len() ==> (#[trigger] list[i]).score.micros >= score.micros
}

/// The list with one more match put into its slot.
pub open spec fn placed<T>(list: Seq<MatchView<T>>, x: MatchView<T>) -> Seq<MatchView<T>> {
    list.insert(slot(list, x.score), x)
}

/// Two lists merged from their ends: the last place goes to the lower of
/// the two last matches, and to that of `b` where they are equal.
pub open spec fn merged<T>(a: Seq<MatchView<T>>, b: Seq<MatchView<T>>) -> Seq<MatchView<T>>
    decreases a.len() + b.len(),
{
    if a.len() == 0 {
        b
    } else if b.len() == 0 {
        a
    } else if a.last().score.micros < b.last().score.micros {
        merged(a.drop_last(), b).push(a.last())
    } else {
        merged(a, b.drop_last()).push(b.last())
    }
}

/// A match that is lower than the one to be placed can be pushed before or
/// after the placing.
pub proof fn lemma_placed_before_lower<T>(list: Seq<MatchView<T>>, low: MatchView<T>, x: MatchView<T>)
    requires
        low.score.micros < x.score.micros,
    ensures
        placed(list.push(low), x) == placed(list, x).push(low),
{
    lemma_slot(list, x.score);
    let at = slot(list, x.score);
    let longer = list.push(low);
    assert forall|i: int| 0 <= i < at implies (#[trigger] longer[i]).score.micros
        >= x.score.micros by {
        assert(longer[i] == list[i]);
    }
    if at < list.len() {
        assert(longer[at] == list[at]);
    }
    lemma_slot_is(longer, x.score, at);
    assert(longer.insert(at, x) =~= list.insert(at, x).push(low));
}

/// A match that is not above any match of the list is placed last.
pub proof fn lemma_placed_last<T>(list: Seq<MatchView<T>>, x: MatchView<T>)
    requires
        at_least(list, x.score),
    ensures
        placed(list, x) == list.push(x),
{
    lemma_slot_is(list, x.score, list.len() as int);
    assert(list.insert(list.len() as int, x) =~= list.push(x));
}

/// Merging keeps every match, and keeps the scores at least as high as
/// they were in both lists.
pub proof fn lemma_merged_floor<T>(a: Seq<MatchView<T>>, b: Seq<MatchView<T>>, score: Score)
    requires
        at_least(a, score),
        at_least(b, score),
    ensures
        at_least(merged(a, b), score),
        merged(a, b).len() == a.len() + b.len(),
    decreases a.len() + b.len(),
{
    if a.len() > 0 && b.len() > 0 {
        if a.last().score.micros < b.last().score.micros {
            assert forall|i: int| 0 <= i < a.drop_last().len() implies (#[trigger] a.drop_last()[i]).score.micros
                >= score.micros by {
                assert(a.drop_last()[i] == a[i]);
            }
            lemma_merged_floor(a.drop_last(), b, score);
            assert(a[a.len() - 1].score.micros >= score.micros);
        } else {
            assert forall|i: int| 0 <= i < b.drop_last().len() implies (#[trigger] b.drop_last()[i]).score.micros
                >= score.micros by {
                assert(b.drop_last()[i] == b[i]);
            }
            lemma_merged_floor(a, b.drop_last(), score);
            assert(b[b.len() - 1].score.micros >= score.micros);
        }
    }
}

/// Merging keeps every match.
pub proof fn lemma_merged_len<T>(a: Seq<MatchView<T>>, b: Seq<MatchView<T>>)
    ensures
        merged(a, b).len() == a.len() + b.len(),
{
    lemma_merged_floor(a, b, Score { micros: 0 });
}

/// Merging a descending list with a single match places the match.
pub proof fn lemma_merged_single<T>(a: Seq<MatchView<T>>, x: MatchView<T>)
    requires
        descending(a),
    ensures
        merged(a, seq![x]) == placed(a, x),
    decreases a.len(),
{
    let one = seq![x];
    if a.len() == 0 {
        lemma_slot(a, x.score);
        assert(a.insert(0, x) =~= one);
    } else if a.last().score.micros < x.score.micros {
        let shorter = a.drop_last();
        lemma_merged_single(shorter, x);
        lemma_placed_before_lower(shorter, a.last(), x);
        assert(shorter.push(a.last()) =~= a);
        assert(one.last() == x);
    } else {
        assert(one.last() == x);
        assert(one.drop_last() =~= Seq::<MatchView<T>>::empty());
        assert(merged(a, one.drop_last()) == a);
        assert(at_least(a, x.score)) by {
            assert forall|i: int| 0 <= i < a.len() implies (#[trigger] a[i]).score.micros
                >= x.score.micros by {
                assert(a[i].score.micros >= a[a.len() - 1].score.micros);
            }
        }
        lemma_placed_last(a, x);
    }
}

/// Placing a match into the second of two descending lists and merging is
/// merging and placing the match.
pub proof fn lemma_merged_placed<T>(a: Seq<MatchView<T>>, b: Seq<MatchView<T>>, x: MatchView<T>)
    requires
        descending(a),
        descending(b),
    ensures
        merged(a, placed(b, x)) == placed(merged(a, b), x),
    decreases a.len() + b.len(),
{
    lemma_slot(b, x.score);
    let p = slot(b, x.score);
    let bx = placed(b, x);
    if a.len() == 0 {
    } else if b.len() == 0 {
        assert(bx =~= seq![x]);
        lemma_merged_single(a, x);
    } else {
        let al = a.last();
        let bl = b.last();
        if p == b.len() {
            assert(bx.last() == x);
            assert(bx.drop_last() =~= b);
            if al.score.micros < x.score.micros {
                lemma_merged_placed(a.drop_last(), b, x);
                assert(b[b.len() - 1].score.micros >= x.score.micros);
                lemma_placed_before_lower(merged(a.drop_last(), b), al, x);
            } else {
                assert(at_least(a, x.score)) by {
                    assert forall|i: int| 0 <= i < a.len() implies (#[trigger] a[i]).score.micros
                        >= x.score.micros by {
                        assert(a[i].score.micros >= a[a.len() - 1].score.micros);
                    }
                }
                lemma_merged_floor(a, b, x.score);
                lemma_placed_last(merged(a, b), x);
            }
        } else {
            assert(b[p].score.micros < x.score.micros);
            assert(bl.score.micros < x.score.micros) by {
                if p < b.len() - 1 {
                    assert(b[p].score.micros >= b[b.len() - 1].score.micros);
                }
            }
            assert(bx.last() == bl);
            let shorter = b.drop_last();
            assert forall|i: int| 0 <= i < p implies (#[trigger] shorter[i]).score.micros
                >= x.score.micros by {
                assert(shorter[i] == b[i]);
            }
            if p < shorter.len() {
                assert(shorter[p] == b[p]);
            }
            lemma_slot_is(shorter, x.score, p);
            assert(bx.drop_last() =~= placed(shorter, x));
            if al.score.micros < bl.score.micros {
                lemma_merged_placed(a.drop_last(), b, x);
                lemma_placed_before_lower(merged(a.drop_last(), b), al, x);
            } else {
                lemma_merged_placed(a, shorter, x);
                lemma_placed_before_lower(merged(a, shorter), bl, x);
            }
        }
    }
}

/// Placing a match into a descending list leaves it descending.
pub proof fn lemma_placed_descending<T>(list: Seq<MatchView<T>>, x: MatchView<T>)
    requires
        descending(list),
    ensures
        descending(placed(list, x)),
{
    lemma_slot(list, x.score);
    let at = slot(list, x.score);
    let out = placed(list, x);
    assert forall|i: int, j: int| 0 <= i < j < out.len() implies out[i].score.micros
        >= out[j].score.micros by {
        if j < at {
            assert(out[i] == list[i] && out[j] == list[j]);
        } else if j == at {
            assert(out[i] == list[i]);
        } else if i < at {
            assert(out[i] == list[i] && out[j] == list[j - 1]);
        } else if i == at {
            assert(out[j] == list[j - 1]);
            if at < j - 1 {
                assert(list[at].score.micros >= list[j - 1].score.micros);
            }
        } else {
            assert(out[i] == list[i - 1] && out[j] == list[j - 1]);
        }
    }
}

/// A sorted list is descending.
pub proof fn lemma_sorted_descending<T>(list: Seq<MatchView<T>>)
    ensures
        descending(stable_sorted(list)),
    decreases list.len(),
{
    if list.len() > 0 {
        lemma_sorted_descending(list.drop_last());
        lemma_placed_descending(stable_sorted(list.drop_last()), list.last());
    }
}

/// Sorting two lists and merging them is sorting the one followed by the
/// other.
pub proof fn lemma_sorted_concat<T>(a: Seq<MatchView<T>>, b: Seq<MatchView<T>>)
    ensures
        stable_sorted(a + b) == merged(stable_sorted(a), stable_sorted(b)),
    decreases b.len(),
{
    if b.len() == 0 {
        assert(a + b =~= a);
        assert(stable_sorted(b) =~= Seq::<MatchView<T>>::empty());
        let sa = stable_sorted(a);
        assert(merged(sa, stable_sorted(b)) == sa);
    } else {
        let shorter = b.drop_last();
        assert((a + b).drop_last() =~= a + shorter);
        assert((a + b).last() == b.last());
        lemma_sorted_concat(a, shorter);
        lemma_sorted_descending(a);
        lemma_sorted_descending(shorter);
        lemma_merged_placed(stable_sorted(a), stable_sorted(shorter), b.last());
    }
}

/// Merges two lists from their ends.
pub fn merge_sorted<T>(left: Vec<SearusMatch<T>>, right: Vec<SearusMatch<T>>) -> (out: Vec<
    SearusMatch<T>,
>)
    ensures
        match_views(out@) == merged(match_views(left@), match_views(right@)),
{
    let mut a = left;
    let mut b = right;
    let ghost goal = merged(match_views(a@), match_views(b@));
    let mut tail: Vec<SearusMatch<T>> = Vec::new();
    assert(match_views(tail@).reverse() =~= Seq::<MatchView<T>>::empty());
    assert(goal =~= goal + match_views(tail@).reverse());
    while a.len() > 0 && b.len() > 0
        invariant
            goal == merged(match_views(a@), match_views(b@)) + match_views(tail@).reverse(),
        decreases a.len() + b.len(),
    {
        let ghost av = match_views(a@);
        let ghost bv = match_views(b@);
        let ghost tv = match_views(tail@);
        let moved = if a[a.len() - 1].score.micros < b[b.len() - 1].score.micros {
            let x = a.pop().unwrap();
            assert(match_views(a@) =~= av.drop_last());
            assert(x@ == av.last());
            x
        } else {
            let y = b.pop().unwrap();
            assert(match_views(b@) =~= bv.drop_last());
            assert(y@ == bv.last());
            y
        };
        let ghost rest = merged(match_views(a@), match_views(b@));
        assert(merged(av, bv) == rest.push(moved@));
        tail.push(moved);
        assert(match_views(tail@) =~= tv.push(moved@));
        assert(rest.push(moved@) + tv.reverse() =~= rest + tv.push(moved@).reverse());
    }
    let mut out = if a.len() > 0 {
        a
    } else {
        b
    };
    assert(goal == match_views(out@) + match_views(tail@).reverse());
    while tail.len() > 0
        invariant
            goal == match_views(out@) + match_views(tail@).reverse(),
        decreases tail.len(),
    {
        let ghost ov = match_views(out@);
        let ghost tv = match_views(tail@);
        let x = tail.pop().unwrap();
        assert(match_views(tail@) =~= tv.drop_last());
        assert(x@ == tv.last());
        out.push(x);
        assert(match_views(out@) =~= ov.push(x@));
        assert(ov + tv.reverse() =~= ov.push(x@) + tv.drop_last().reverse());
    }
    assert(match_views(tail@).reverse() =~= Seq::<MatchView<T>>::empty());
    assert(goal =~= match_views(out@));
    out
}

/// Sorts matches by descending score. Matches of equal score keep their
/// order.
pub fn sort_by_score<T>(matches: Vec<SearusMatch<T>>) -> (sorted: Vec<SearusMatch<T>>)
    ensures
        match_views(sorted@) == stable_sorted(match_views(matches@)),
        sorted@.len() == matches@.len(),
    decreases matches@.len(),
{
    let ghost all = match_views(matches@);
    if matches.len() <= 1 {
        proof {
            if all.len() == 1 {
                let none = all.drop_last();
                assert(stable_sorted(none) =~= Seq::<MatchView<T>>::empty());
                lemma_slot(stable_sorted(none), all.last().score);
                assert(stable_sorted(all) =~= all);
            } else {
                assert(stable_sorted(all) =~= all);
            }
        }
        return matches;
    }
    let mut left = matches;
    let half = left.len() / 2;
    let right = left.split_off(half);
    let ghost lv = match_views(left@);
    let ghost rv = match_views(right@);
    assert(all =~= lv + rv);
    let left_sorted = sort_by_score(left);
    let right_sorted = sort_by_score(right);
    proof {
        lemma_sorted_concat(lv, rv);
        lemma_merged_len(stable_sorted(lv), stable_sorted(rv));
    }
    let sorted = merge_sorted(left_sorted, right_sorted);
    assert(match_views(sorted@).len() == sorted@.len());
    sorted
}

} // verus!
