//! Fuzzy text search: the closest pair of a query term and a term of the
//! record, by Jaro-Winkler similarity.

use vstd::prelude::*;
use crate::attr::AttrNode;
use crate::context::SearchContext;
use crate::field_scores::FieldScores;
use crate::filter::{let_through, passes, FilterExpr};
use crate::sort::{lemma_sorted_copies, sort_by_score, stable_sorted};
use crate::ranking_laws::lemma_found_ids;
use crate::score::{binary64_score, Score};
use crate::searcher::Searcher;
use crate::searchers::tokenizer::{spec_tokenize, tokenize};
use crate::types::{
    copies_of, copy_of, gathered, match_views, DetailView, MatchView, Query, Record, SearchDetail,
    SearcherKind, SearusMatch,
};

verus! {

/// The Jaro-Winkler similarity of two texts as `strsim::jaro_winkler`
/// computes it, as the bit pattern of its IEEE 754 binary64 encoding.
pub uninterp spec fn jaro_winkler_bits(a: Seq<char>, b: Seq<char>) -> u64;

/// Calls `strsim::jaro_winkler` and takes the bit pattern of the number it
/// returns. It is trusted that this is the pattern [`jaro_winkler_bits`]
/// names: the similarity depends on the two texts alone.
#[verifier::external_body]
fn jaro_winkler(a: &str, b: &str) -> (bits: u64)
    ensures
        bits == jaro_winkler_bits(a@, b@),
{
    strsim::jaro_winkler(a, b).to_bits()
}

/// The similarity of a query term and a term of a record, as a score.
pub open spec fn similarity_of(q: Seq<char>, d: Seq<char>) -> Score {
    binary64_score(jaro_winkler_bits(q, d))
}

/// The length of a text in bytes, as `str::len` gives it.
pub open spec fn byte_len(text: Seq<char>) -> usize {
    vstd::utf8::encode_utf8(text).len() as usize
}

/// Whether a pair of terms is left out unseen: their lengths in bytes
/// differ by more than half the greater length.
pub open spec fn pruned(q: Seq<char>, d: Seq<char>) -> bool {
    let q_len = byte_len(q);
    let d_len = byte_len(d);
    if q_len > d_len {
        q_len - d_len > q_len / 2
    } else {
        d_len - q_len > d_len / 2
    }
}

/// The best pair found so far. `done` says that a similarity above 0.95 was
/// found, after which no further pair is looked at.
pub struct BestView {
    pub similarity: Score,
    pub query_term: Seq<char>,
    pub doc_term: Seq<char>,
    pub done: bool,
}

/// The best pair found so far.
#[derive(Clone, Debug)]
pub struct BestPair {
    pub similarity: Score,
    pub query_term: String,
    pub doc_term: String,
    pub done: bool,
}

impl View for BestPair {
    type V = BestView;

    open spec fn view(&self) -> BestView {
        BestView {
            similarity: self.similarity,
            query_term: self.query_term@,
            doc_term: self.doc_term@,
            done: self.done,
        }
    }
}

/// The best pair after a pair of the given similarity has been looked at:
/// the new pair where its similarity is above the best so far and at least
/// the threshold.
pub open spec fn taken(
    best: BestView,
    q: Seq<char>,
    d: Seq<char>,
    similarity: Score,
    threshold: Score,
) -> BestView {
    if similarity.micros > best.similarity.micros && similarity.micros >= threshold.micros {
        BestView { similarity, query_term: q, doc_term: d, done: similarity.micros > 950_000 }
    } else {
        best
    }
}

/// The best pair after one more pair of terms.
pub open spec fn considered(best: BestView, q: Seq<char>, d: Seq<char>, threshold: Score) -> BestView {
    if best.done || pruned(q, d) {
        best
    } else {
        taken(best, q, d, similarity_of(q, d), threshold)
    }
}

/// The best pair after one query term has met the terms of a field, in
/// order.
pub open spec fn after_doc_terms(
    best: BestView,
    q: Seq<char>,
    doc_terms: Seq<Seq<char>>,
    threshold: Score,
) -> BestView
    decreases doc_terms.len(),
{
    if doc_terms.len() == 0 {
        best
    } else {
        considered(
            after_doc_terms(best, q, doc_terms.drop_last(), threshold),
            q,
            doc_terms.last(),
            threshold,
        )
    }
}

/// The best pair after every query term has met the terms of a field,
/// query term by query term.
pub open spec fn after_field(
    best: BestView,
    query_terms: Seq<Seq<char>>,
    doc_terms: Seq<Seq<char>>,
    threshold: Score,
) -> BestView
    decreases query_terms.len(),
{
    if query_terms.len() == 0 {
        best
    } else {
        after_doc_terms(
            after_field(best, query_terms.drop_last(), doc_terms, threshold),
            query_terms.last(),
            doc_terms,
            threshold,
        )
    }
}

/// The text of the attribute under a key, if it is a text or a number.
pub open spec fn fuzzy_text(attrs: AttrNode, field: Seq<char>) -> Option<Seq<char>> {
    match attrs.spec_child(field) {
        Some(node) => node.spec_plain_text(),
        None => None,
    }
}

/// The best pair after the fields of a record, field by field.
pub open spec fn after_fields(
    attrs: AttrNode,
    fields: Seq<Seq<char>>,
    query_terms: Seq<Seq<char>>,
    threshold: Score,
) -> BestView
    decreases fields.len(),
{
    if fields.len() == 0 {
        BestView {
            similarity: Score { micros: 0 },
            query_term: Seq::empty(),
            doc_term: Seq::empty(),
            done: false,
        }
    } else {
        let front = after_fields(attrs, fields.drop_last(), query_terms, threshold);
        match fuzzy_text(attrs, fields.last()) {
            Some(text) => after_field(front, query_terms, spec_tokenize(text), threshold),
            None => front,
        }
    }
}

/// The match of a record, if its best similarity is at least the
/// threshold.
pub open spec fn fuzzy_match<T>(
    record: Record<T>,
    index: usize,
    fields: Seq<Seq<char>>,
    query_terms: Seq<Seq<char>>,
    threshold: Score,
) -> Option<MatchView<T>> {
    let best = after_fields(record.attrs, fields, query_terms, threshold);
    if best.similarity.micros >= threshold.micros {
        Some(
            MatchView {
                item: record.item,
                score: best.similarity,
                field_scores: Seq::empty(),
                details: seq![
                    DetailView::Fuzzy {
                        matched_term: best.doc_term,
                        original_term: best.query_term,
                        similarity: best.similarity,
                    },
                ],
                id: index,
            },
        )
    } else {
        None
    }
}

/// For each record, its match if the record passes the filter.
pub open spec fn fuzzy_pick<T>(
    records: Seq<Record<T>>,
    filters: Option<FilterExpr>,
    fields: Seq<Seq<char>>,
    query_terms: Seq<Seq<char>>,
    threshold: Score,
) -> spec_fn(int) -> Option<MatchView<T>> {
    |i: int|
        if passes(filters, records[i].attrs) {
            fuzzy_match(records[i], i as usize, fields, query_terms, threshold)
        } else {
            None
        }
}

/// What a fuzzy search finds, before the items are cloned: the matches of
/// the records that pass the filter, by descending score, records of equal
/// score in their order.
pub open spec fn fuzzy_results<T>(
    records: Seq<Record<T>>,
    filters: Option<FilterExpr>,
    fields: Seq<Seq<char>>,
    query_terms: Seq<Seq<char>>,
    threshold: Score,
) -> Seq<MatchView<T>> {
    stable_sorted(gathered(records.len(), fuzzy_pick(records, filters, fields, query_terms, threshold)))
}

/// Once a similarity above 0.95 was found, further terms change nothing.
pub proof fn lemma_done_doc_terms(best: BestView, q: Seq<char>, doc_terms: Seq<Seq<char>>, threshold: Score)
    requires
        best.done,
    ensures
        after_doc_terms(best, q, doc_terms, threshold) == best,
    decreases doc_terms.len(),
{
    if doc_terms.len() > 0 {
        lemma_done_doc_terms(best, q, doc_terms.drop_last(), threshold);
    }
}

/// Once a similarity above 0.95 was found, further query terms change
/// nothing.
pub proof fn lemma_done_field(
    best: BestView,
    query_terms: Seq<Seq<char>>,
    doc_terms: Seq<Seq<char>>,
    threshold: Score,
)
    requires
        best.done,
    ensures
        after_field(best, query_terms, doc_terms, threshold) == best,
    decreases query_terms.len(),
{
    if query_terms.len() > 0 {
        lemma_done_field(best, query_terms.drop_last(), doc_terms, threshold);
        lemma_done_doc_terms(best, query_terms.last(), doc_terms, threshold);
    }
}

/// Whether a pair of terms is left out unseen.
pub fn prune(q: &str, d: &str) -> (r: bool)
    ensures
        r == pruned(q@, d@),
{
    let q_len = q.len();
    let d_len = d.len();
    if q_len > d_len {
        q_len - d_len > q_len / 2
    } else {
        d_len - q_len > d_len / 2
    }
}

/// A searcher that matches the terms of the query approximately against
/// the terms of the fields it is given.
#[derive(Clone, Debug)]
pub struct FuzzySearch {
    /// The least similarity that counts as a match, between 0 and 1.
    pub threshold: Score,
    /// The keys of the record attributes that are searched.
    pub fields: Vec<String>,
}

impl FuzzySearch {
    /// A searcher over the given fields with a threshold of 0.8.
    pub fn new(fields: Vec<String>) -> (searcher: Self)
        ensures
            searcher.threshold.micros == 800_000,
            searcher.fields == fields,
    {
        FuzzySearch { threshold: Score { micros: 800_000 }, fields }
    }

    /// The searcher with another threshold.
    pub fn with_threshold(self, threshold: Score) -> (searcher: Self)
        ensures
            searcher.threshold == threshold,
            searcher.fields == self.fields,
    {
        let mut searcher = self;
        searcher.threshold = threshold;
        searcher
    }

    /// The text of the attribute under a key.
    fn extract_field(attrs: &AttrNode, field: &String) -> (text: Option<String>)
        ensures
            match text {
                Some(t) => fuzzy_text(*attrs, field@) == Some(t@),
                None => fuzzy_text(*attrs, field@) is None,
            },
    {
        match attrs.child(field) {
            Some(node) => node.plain_text(),
            None => None,
        }
    }

    /// Takes a pair of terms of the given similarity as the best pair if
    /// its similarity is above the best so far and at least the threshold.
    pub fn take(&self, best: BestPair, q: &String, d: &String, similarity: Score) -> (next: BestPair)
        ensures
            next@ == taken(best@, q@, d@, similarity, self.threshold),
    {
        if similarity.micros > best.similarity.micros && similarity.micros >= self.threshold.micros {
            BestPair {
                similarity,
                query_term: q.clone(),
                doc_term: d.clone(),
                done: similarity.micros > 950_000,
            }
        } else {
            best
        }
    }

    /// Lets every query term meet the terms of one field.
    fn scan_field(&self, best: BestPair, query_terms: &Vec<String>, doc_terms: &Vec<String>) -> (next:
        BestPair)
        ensures
            next@ == after_field(
                best@,
                query_terms.deep_view(),
                doc_terms.deep_view(),
                self.threshold,
            ),
    {
        let ghost qs = query_terms.deep_view();
        let ghost ds = doc_terms.deep_view();
        let ghost start = best@;
        let mut best = best;
        let mut i: usize = 0;
        while i < query_terms.len() && !best.done
            invariant
                i <= query_terms.len(),
                qs == query_terms.deep_view(),
                ds == doc_terms.deep_view(),
                best@ == after_field(start, qs.take(i as int), ds, self.threshold),
            decreases query_terms.len() - i,
        {
            proof {
                assert(qs.take(i + 1).drop_last() =~= qs.take(i as int));
                assert(qs.take(i + 1).last() == query_terms@[i as int]@);
            }
            let ghost before = best@;
            let ghost q = query_terms@[i as int]@;
            let mut j: usize = 0;
            while j < doc_terms.len() && !best.done
                invariant
                    j <= doc_terms.len(),
                    i < query_terms.len(),
                    ds == doc_terms.deep_view(),
                    q == query_terms@[i as int]@,
                    best@ == after_doc_terms(before, q, ds.take(j as int), self.threshold),
                decreases doc_terms.len() - j,
            {
                proof {
                    assert(ds.take(j + 1).drop_last() =~= ds.take(j as int));
                    assert(ds.take(j + 1).last() == doc_terms@[j as int]@);
                }
                if !prune(query_terms[i].as_str(), doc_terms[j].as_str()) {
                    let bits = jaro_winkler(query_terms[i].as_str(), doc_terms[j].as_str());
                    let similarity = Score::from_binary64_bits(bits);
                    best = self.take(best, &query_terms[i], &doc_terms[j], similarity);
                }
                j += 1;
            }
            proof {
                if j < doc_terms.len() {
                    lemma_done_rest(best@, q, ds, j as int, self.threshold);
                }
                assert(ds.take(ds.len() as int) =~= ds);
            }
            i += 1;
        }
        proof {
            if i < query_terms.len() {
                lemma_done_queries(best@, qs, i as int, ds, self.threshold);
            }
            assert(qs.take(qs.len() as int) =~= qs);
        }
        best
    }

    /// Matches one record against the terms of a query.
    ///
    /// The terms of the query meet the terms of each field in turn. A pair
    /// whose lengths in bytes differ by more than half the greater length
    /// is left out. The pair with the greatest similarity that is at least
    /// the threshold is kept, the first where several are equal; after a
    /// similarity above 0.95 no further pair is looked at. The record
    /// matches if the greatest similarity is at least the threshold, and
    /// that similarity is its score.
    pub fn match_entity<T: Clone>(
        &self,
        record: &Record<T>,
        index: usize,
        query: &Query,
        query_terms: &Vec<String>,
    ) -> (found: Option<SearusMatch<T>>)
        ensures
            match found {
                Some(m) => {
                    let expected = fuzzy_match(
                        *record,
                        index,
                        self.fields.deep_view(),
                        query_terms.deep_view(),
                        self.threshold,
                    );
                    expected is Some && copy_of(m@, expected->0)
                },
                None => fuzzy_match(
                    *record,
                    index,
                    self.fields.deep_view(),
                    query_terms.deep_view(),
                    self.threshold,
                ) is None,
            },
    {
        let ghost fields = self.fields.deep_view();
        let ghost qs = query_terms.deep_view();
        let mut best = BestPair {
            similarity: Score::zero(),
            query_term: String::new(),
            doc_term: String::new(),
            done: false,
        };
        let mut f: usize = 0;
        while f < self.fields.len() && !best.done
            invariant
                f <= self.fields.len(),
                fields == self.fields.deep_view(),
                qs == query_terms.deep_view(),
                best@ == after_fields(record.attrs, fields.take(f as int), qs, self.threshold),
            decreases self.fields.len() - f,
        {
            proof {
                assert(fields.take(f + 1).drop_last() =~= fields.take(f as int));
                assert(fields.take(f + 1).last() == self.fields@[f as int]@);
            }
            match Self::extract_field(&record.attrs, &self.fields[f]) {
                Some(text) => {
                    let doc_terms = tokenize(text.as_str());
                    best = self.scan_field(best, query_terms, &doc_terms);
                },
                None => {},
            }
            f += 1;
        }
        proof {
            if f < self.fields.len() {
                lemma_done_fields(record.attrs, fields, f as int, qs, self.threshold);
            }
            assert(fields.take(fields.len() as int) =~= fields);
        }
        if best.similarity.micros >= self.threshold.micros {
            let similarity = best.similarity;
            let detail = SearchDetail::Fuzzy {
                matched_term: best.doc_term,
                original_term: best.query_term,
                similarity,
            };
            let mut details: Vec<SearchDetail> = Vec::new();
            details.push(detail);
            let m = SearusMatch {
                item: record.item.clone(),
                score: similarity,
                field_scores: FieldScores::new(),
                details,
                id: index,
            };
            proof {
                let expected = fuzzy_match(*record, index, fields, qs, self.threshold);
                assert(m@.details =~= expected->0.details);
            }
            Some(m)
        } else {
            None
        }
    }

    /// Sorts matches by descending score; matches of equal score keep their
    /// order.
    pub fn sort_results<T>(&self, results: &mut Vec<SearusMatch<T>>)
        ensures
            match_views(final(results)@) == stable_sorted(match_views(old(results)@)),
    {
        let mut taken: Vec<SearusMatch<T>> = Vec::new();
        taken.append(results);
        let mut sorted = sort_by_score(taken);
        results.append(&mut sorted);
    }

    /// The matches of the records that pass the query's filter, by
    /// descending score. Nothing is found without text in the query, or
    /// with text that has no token.
    pub fn find<T: Clone>(&self, items: &[Record<T>], query: &Query) -> (results: Vec<SearusMatch<T>>)
        ensures
            forall|k: int| 0 <= k < results@.len() ==> (#[trigger] results@[k]).id < items@.len(),
            query.text is None || spec_tokenize(query.text->0@).len() == 0 ==> results@.len() == 0,
            query.text is Some && spec_tokenize(query.text->0@).len() > 0 ==> copies_of(
                match_views(results@),
                fuzzy_results(
                    items@,
                    query.filters,
                    self.fields.deep_view(),
                    spec_tokenize(query.text->0@),
                    self.threshold,
                ),
            ),
    {
        let query_text = match &query.text {
            Some(text) => text,
            None => {
                return Vec::new();
            },
        };
        let query_terms = tokenize(query_text.as_str());
        if query_terms.len() == 0 {
            return Vec::new();
        }
        let ghost pick = fuzzy_pick(
            items@,
            query.filters,
            self.fields.deep_view(),
            query_terms.deep_view(),
            self.threshold,
        );
        let mut found: Vec<SearusMatch<T>> = Vec::new();
        let mut i: usize = 0;
        while i < items.len()
            invariant
                i <= items.len(),
                pick == fuzzy_pick(
                    items@,
                    query.filters,
                    self.fields.deep_view(),
                    query_terms.deep_view(),
                    self.threshold,
                ),
                copies_of(match_views(found@), gathered(i as nat, pick)),
            decreases items.len() - i,
        {
            let ghost before = match_views(found@);
            if let_through(&query.filters, &items[i].attrs) {
                match self.match_entity(&items[i], i, query, &query_terms) {
                    Some(m) => {
                        found.push(m);
                        assert(match_views(found@) =~= before.push(m@));
                    },
                    None => {},
                }
            }
            i += 1;
        }
        let ghost gathered_all = gathered(items@.len(), pick);
        let ghost unsorted = match_views(found@);
        let results = sort_by_score(found);
        proof {
            lemma_sorted_copies(unsorted, gathered_all);
            lemma_found_ids(match_views(results@), items@.len(), pick);
            assert forall|k: int| 0 <= k < results@.len() implies (#[trigger] results@[k]).id
                < items@.len() by {
                assert(match_views(results@)[k].id == results@[k].id);
            }
        }
        results
    }
}

/// Once a similarity above 0.95 was found, the terms that are left change
/// nothing.
pub proof fn lemma_done_rest(best: BestView, q: Seq<char>, doc_terms: Seq<Seq<char>>, upto: int, threshold: Score)
    requires
        0 <= upto <= doc_terms.len(),
        best.done,
    ensures
        forall|start: BestView|
            after_doc_terms(start, q, doc_terms.take(upto), threshold) == best ==> #[trigger] after_doc_terms(
                start,
                q,
                doc_terms,
                threshold,
            ) == best,
    decreases doc_terms.len() - upto,
{
    if upto < doc_terms.len() {
        lemma_done_rest(best, q, doc_terms, upto + 1, threshold);
        assert(doc_terms.take(upto + 1).drop_last() =~= doc_terms.take(upto));
    } else {
        assert(doc_terms.take(upto) =~= doc_terms);
    }
}

/// Once a similarity above 0.95 was found, the query terms that are left
/// change nothing.
pub proof fn lemma_done_queries(
    best: BestView,
    query_terms: Seq<Seq<char>>,
    upto: int,
    doc_terms: Seq<Seq<char>>,
    threshold: Score,
)
    requires
        0 <= upto <= query_terms.len(),
        best.done,
    ensures
        forall|start: BestView|
            after_field(start, query_terms.take(upto), doc_terms, threshold) == best ==> #[trigger] after_field(
                start,
                query_terms,
                doc_terms,
                threshold,
            ) == best,
    decreases query_terms.len() - upto,
{
    if upto < query_terms.len() {
        lemma_done_queries(best, query_terms, upto + 1, doc_terms, threshold);
        assert(query_terms.take(upto + 1).drop_last() =~= query_terms.take(upto));
        lemma_done_doc_terms(best, query_terms[upto], doc_terms, threshold);
    } else {
        assert(query_terms.take(upto) =~= query_terms);
    }
}

/// Once a similarity above 0.95 was found, the fields that are left change
/// nothing.
pub proof fn lemma_done_fields(
    attrs: AttrNode,
    fields: Seq<Seq<char>>,
    upto: int,
    query_terms: Seq<Seq<char>>,
    threshold: Score,
)
    requires
        0 <= upto <= fields.len(),
        after_fields(attrs, fields.take(upto), query_terms, threshold).done,
    ensures
        after_fields(attrs, fields, query_terms, threshold) == after_fields(
            attrs,
            fields.take(upto),
            query_terms,
            threshold,
        ),
    decreases fields.len() - upto,
{
    if upto < fields.len() {
        let best = after_fields(attrs, fields.take(upto), query_terms, threshold);
        assert(fields.take(upto + 1).drop_last() =~= fields.take(upto));
        match fuzzy_text(attrs, fields.take(upto + 1).last()) {
            Some(text) => {
                lemma_done_field(best, query_terms, spec_tokenize(text), threshold);
            },
            None => {},
        }
        lemma_done_fields(attrs, fields, upto + 1, query_terms, threshold);
    } else {
        assert(fields.take(upto) =~= fields);
    }
}

impl<T: Clone> Searcher<T> for FuzzySearch {
    /// The kind `Fuzzy`.
    fn kind(&self) -> SearcherKind
        returns
            SearcherKind::Fuzzy,
    {
        SearcherKind::Fuzzy
    }

    /// What [`FuzzySearch::find`] finds among the records of the context.
    fn search(&self, context: &SearchContext<T>, query: &Query) -> (results: Vec<SearusMatch<T>>)
        ensures
            forall|k: int|
                0 <= k < results@.len() ==> (#[trigger] results@[k]).id < context.items@.len(),
            query.text is None || spec_tokenize(query.text->0@).len() == 0 ==> results@.len() == 0,
            query.text is Some && spec_tokenize(query.text->0@).len() > 0 ==> copies_of(
                match_views(results@),
                fuzzy_results(
                    context.items@,
                    query.filters,
                    self.fields.deep_view(),
                    spec_tokenize(query.text->0@),
                    self.threshold,
                ),
            ),
    {
        self.find(context.items, query)
    }
}

} // verus!
