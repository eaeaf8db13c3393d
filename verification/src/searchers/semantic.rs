//! Text search over the fields that the rules name.

use vstd::prelude::*;
use vstd::hash_map::StringHashMap;
use vstd::hash_set::StringHashSet;
use crate::attr::AttrNode;
use crate::context::SearchContext;
use crate::field_scores::{with_score, FieldScores};
use crate::filter::{let_through, passes, FilterExpr};
use crate::sort::{lemma_sorted_copies, sort_by_score, stable_sorted};
use crate::ranking_laws::lemma_found_ids;
use crate::rules::{named_rules, FieldRule, Matcher, SemanticRules};
use crate::score::{score_of, spec_ratio, Score};
use crate::searcher::Searcher;
use crate::searchers::bm25::{bm25_score, count_in, BM25Scorer};
use crate::searchers::tokenizer::{
    count_terms, spec_frequencies, spec_tokenize, tokenize,
};
use crate::text::{contains, join_spaced, lowercase, lowercase_of, occurs_in, spaced};
use crate::types::{
    copies_of, copy_of, gathered, match_views, trees, DetailView, MatchView, Query, Record,
    SearchDetail, SearcherKind, SearusMatch,
};

verus! {

/// The text of the attribute at a path, if there is one and it is a text, a
/// number or a truth value.
pub open spec fn field_text(attrs: AttrNode, path: Seq<char>) -> Option<Seq<char>> {
    match attrs.spec_lookup(path) {
        Some(node) => node.spec_text(),
        None => None,
    }
}

/// The text of the attribute at a path.
pub fn extract_field(attrs: &AttrNode, path: &str) -> (text: Option<String>)
    ensures
        match text {
            Some(t) => field_text(*attrs, path@) == Some(t@),
            None => field_text(*attrs, path@) is None,
        },
{
    match attrs.lookup(path) {
        Some(node) => node.text(),
        None => None,
    }
}

// ---------------------------------------------------------------------
// Corpus statistics
// ---------------------------------------------------------------------
/// The tokens of a record: those of each field that the rules name and the
/// record has, field after field.
pub open spec fn doc_tokens(attrs: AttrNode, fields: Seq<(Seq<char>, FieldRule)>) -> Seq<Seq<char>>
    decreases fields.len(),
{
    if fields.len() == 0 {
        Seq::empty()
    } else {
        let front = doc_tokens(attrs, fields.drop_last());
        match field_text(attrs, fields.last().0) {
            Some(text) => front + spec_tokenize(text),
            None => front,
        }
    }
}

/// The number of fields that the rules name and the record has.
pub open spec fn doc_fields(attrs: AttrNode, fields: Seq<(Seq<char>, FieldRule)>) -> nat
    decreases fields.len(),
{
    if fields.len() == 0 {
        0
    } else {
        doc_fields(attrs, fields.drop_last()) + if field_text(attrs, fields.last().0) is Some {
            1nat
        } else {
            0nat
        }
    }
}

/// The number of records that pass the filter and hold the term.
pub open spec fn holding(
    records: Seq<AttrNode>,
    filters: Option<FilterExpr>,
    fields: Seq<(Seq<char>, FieldRule)>,
    term: Seq<char>,
) -> nat
    decreases records.len(),
{
    if records.len() == 0 {
        0
    } else {
        holding(records.drop_last(), filters, fields, term) + if passes(filters, records.last())
            && doc_tokens(records.last(), fields).contains(term) {
            1nat
        } else {
            0nat
        }
    }
}

/// The number of records that pass the filter.
pub open spec fn surviving(records: Seq<AttrNode>, filters: Option<FilterExpr>) -> nat
    decreases records.len(),
{
    if records.len() == 0 {
        0
    } else {
        surviving(records.drop_last(), filters) + if passes(filters, records.last()) {
            1nat
        } else {
            0nat
        }
    }
}

/// The number of tokens of the records that pass the filter.
pub open spec fn corpus_length(
    records: Seq<AttrNode>,
    filters: Option<FilterExpr>,
    fields: Seq<(Seq<char>, FieldRule)>,
) -> nat
    decreases records.len(),
{
    if records.len() == 0 {
        0
    } else {
        corpus_length(records.drop_last(), filters, fields) + if passes(filters, records.last()) {
            doc_tokens(records.last(), fields).len()
        } else {
            0nat
        }
    }
}

/// The number of fields, over the records that pass the filter, that the
/// rules name and the record has.
pub open spec fn corpus_fields(
    records: Seq<AttrNode>,
    filters: Option<FilterExpr>,
    fields: Seq<(Seq<char>, FieldRule)>,
) -> nat
    decreases records.len(),
{
    if records.len() == 0 {
        0
    } else {
        corpus_fields(records.drop_last(), filters, fields) + if passes(filters, records.last()) {
            doc_fields(records.last(), fields)
        } else {
            0nat
        }
    }
}

/// A count held in `usize`: the count itself, or the largest `usize` where
/// it is larger.
pub open spec fn capped(count: nat) -> nat {
    if count > usize::MAX {
        usize::MAX as nat
    } else {
        count
    }
}

/// The document frequencies of a corpus: for each term that a record
/// holds, the number of records that hold it.
pub open spec fn corpus_doc_freq(
    records: Seq<AttrNode>,
    filters: Option<FilterExpr>,
    fields: Seq<(Seq<char>, FieldRule)>,
) -> Map<Seq<char>, usize> {
    Map::new(
        |term: Seq<char>| holding(records, filters, fields, term) > 0,
        |term: Seq<char>| holding(records, filters, fields, term) as usize,
    )
}

/// The mean number of tokens of a field, over the fields that the rules
/// name and a record has; zero where there is no such field.
pub open spec fn corpus_mean(
    records: Seq<AttrNode>,
    filters: Option<FilterExpr>,
    fields: Seq<(Seq<char>, FieldRule)>,
) -> Score {
    spec_ratio(
        capped(corpus_length(records, filters, fields)),
        capped(corpus_fields(records, filters, fields)),
    )
}

/// The statistics of the records that a search scores. A record that the
/// query's filter rejects has no part in them.
pub struct CorpusStats {
    /// For each term, the number of records that hold it.
    pub doc_freq: StringHashMap<usize>,
    /// The mean number of tokens of a field.
    pub avg_doc_length: Score,
    /// The number of records.
    pub total_docs: usize,
}

impl CorpusStats {
    /// Whether these are the statistics of the given records under the
    /// given filter and rules.
    pub open spec fn describes(
        self,
        records: Seq<AttrNode>,
        filters: Option<FilterExpr>,
        fields: Seq<(Seq<char>, FieldRule)>,
    ) -> bool {
        &&& self.doc_freq@ == corpus_doc_freq(records, filters, fields)
        &&& self.avg_doc_length == corpus_mean(records, filters, fields)
        &&& self.total_docs == surviving(records, filters)
    }
}

/// No more records hold a term, or pass the filter, than there are.
pub proof fn lemma_counts_bounded(
    records: Seq<AttrNode>,
    filters: Option<FilterExpr>,
    fields: Seq<(Seq<char>, FieldRule)>,
    term: Seq<char>,
)
    ensures
        holding(records, filters, fields, term) <= records.len(),
        surviving(records, filters) <= records.len(),
    decreases records.len(),
{
    if records.len() > 0 {
        lemma_counts_bounded(records.drop_last(), filters, fields, term);
    }
}

/// The frequencies after one more document: each term among `tokens` that
/// is not in `seen` is counted once more.
pub open spec fn noted(
    counts: Map<Seq<char>, usize>,
    seen: Set<Seq<char>>,
    tokens: Seq<Seq<char>>,
) -> Map<Seq<char>, usize> {
    Map::new(
        |term: Seq<char>| counts.contains_key(term) || (tokens.contains(term) && !seen.contains(term)),
        |term: Seq<char>|
            if tokens.contains(term) && !seen.contains(term) {
                (count_in(counts, term, 0) + 1) as usize
            } else {
                count_in(counts, term, 0) as usize
            },
    )
}

/// Counts each term among `tokens` that this document has not shown before.
fn note_tokens(doc_freq: &mut StringHashMap<usize>, seen: &mut StringHashSet, tokens: &Vec<String>)
    requires
        forall|term: Seq<char>|
            old(doc_freq)@.contains_key(term) && !old(seen)@.contains(term) ==> old(doc_freq)@[term]
                < usize::MAX,
    ensures
        final(doc_freq)@ == noted(old(doc_freq)@, old(seen)@, tokens.deep_view()),
        forall|term: Seq<char>|
            #![trigger final(seen)@.contains(term)]
            final(seen)@.contains(term) <==> old(seen)@.contains(term) || tokens.deep_view().contains(
                term,
            ),
{
    let ghost all = tokens.deep_view();
    let mut j: usize = 0;
    assert(doc_freq@ =~= noted(old(doc_freq)@, old(seen)@, all.take(0)));
    while j < tokens.len()
        invariant
            j <= tokens.len(),
            all == tokens.deep_view(),
            forall|term: Seq<char>|
                old(doc_freq)@.contains_key(term) && !old(seen)@.contains(term) ==> old(
                    doc_freq,
                )@[term] < usize::MAX,
            doc_freq@ == noted(old(doc_freq)@, old(seen)@, all.take(j as int)),
            forall|term: Seq<char>|
                #![trigger seen@.contains(term)]
                seen@.contains(term) <==> old(seen)@.contains(term) || all.take(j as int).contains(
                    term,
                ),
        decreases tokens.len() - j,
    {
        let ghost before = all.take(j as int);
        let ghost after = all.take(j + 1);
        let ghost term = tokens@[j as int]@;
        proof {
            assert(after =~= before.push(term));
            assert forall|t: Seq<char>| after.contains(t) <==> (t == term || before.contains(t)) by {
                if before.contains(t) {
                    let k = choose|k: int| 0 <= k < before.len() && before[k] == t;
                    assert(after[k] == t);
                }
                if t == term {
                    assert(after[j as int] == t);
                }
                if after.contains(t) {
                    let k = choose|k: int| 0 <= k < after.len() && after[k] == t;
                    if k < j {
                        assert(before[k] == t);
                    }
                }
            }
        }
        if !seen.contains(tokens[j].as_str()) {
            let known: usize = match doc_freq.get(tokens[j].as_str()) {
                Some(n) => *n,
                None => 0,
            };
            assert(!before.contains(term));
            assert(known == count_in(old(doc_freq)@, term, 0));
            doc_freq.insert(tokens[j].clone(), known + 1);
            seen.insert(tokens[j].clone());
        }
        assert(doc_freq@ =~= noted(old(doc_freq)@, old(seen)@, after));
        j += 1;
    }
    assert(all.take(j as int) =~= all);
}

/// Adds two counts held in `usize`.
fn add_capped(a: usize, b: usize) -> (sum: usize)
    ensures
        sum == capped((a + b) as nat),
{
    if a > usize::MAX - b {
        usize::MAX
    } else {
        a + b
    }
}

/// The statistics of the records that pass the filter, over the fields that
/// the rules name.
pub fn calculate_corpus_stats<T>(
    items: &[Record<T>],
    rules: &SemanticRules,
    filters: &Option<FilterExpr>,
) -> (stats: CorpusStats)
    ensures
        stats.describes(trees(items@), *filters, named_rules(rules.fields@)),
{
    let ghost records = trees(items@);
    let ghost fields = named_rules(rules.fields@);
    let mut doc_freq: StringHashMap<usize> = StringHashMap::new();
    let mut total_length: usize = 0;
    let mut doc_count: usize = 0;
    let mut total_docs: usize = 0;
    let mut i: usize = 0;
    assert(doc_freq@ =~= corpus_doc_freq(records.take(0), *filters, fields));
    while i < items.len()
        invariant
            i <= items.len(),
            records == trees(items@),
            fields == named_rules(rules.fields@),
            doc_freq@ == corpus_doc_freq(records.take(i as int), *filters, fields),
            total_length == capped(corpus_length(records.take(i as int), *filters, fields)),
            doc_count == capped(corpus_fields(records.take(i as int), *filters, fields)),
            total_docs == surviving(records.take(i as int), *filters),
        decreases items.len() - i,
    {
        let ghost before = records.take(i as int);
        let ghost after = records.take(i + 1);
        let ghost tree = items@[i as int].attrs;
        proof {
            assert(after.drop_last() =~= before);
            assert(after.last() == tree);
            lemma_counts_bounded(before, *filters, fields, Seq::empty());
        }
        if let_through(filters, &items[i].attrs) {
            let ghost start = doc_freq@;
            let mut seen = StringHashSet::new();
            let mut f: usize = 0;
            assert(doc_freq@ =~= noted(start, Set::empty(), doc_tokens(tree, fields.take(0))));
            while f < rules.fields.len()
                invariant
                    f <= rules.fields.len(),
                    i < items.len(),
                    records == trees(items@),
                    fields == named_rules(rules.fields@),
                    before == records.take(i as int),
                    tree == items@[i as int].attrs,
                    start == corpus_doc_freq(before, *filters, fields),
                    doc_freq@ == noted(start, Set::empty(), doc_tokens(tree, fields.take(f as int))),
                    forall|term: Seq<char>|
                        #![trigger seen@.contains(term)]
                        seen@.contains(term) <==> doc_tokens(tree, fields.take(f as int)).contains(
                            term,
                        ),
                    total_length == capped(
                        corpus_length(before, *filters, fields) + doc_tokens(
                            tree,
                            fields.take(f as int),
                        ).len(),
                    ),
                    doc_count == capped(
                        corpus_fields(before, *filters, fields) + doc_fields(
                            tree,
                            fields.take(f as int),
                        ),
                    ),
                decreases rules.fields.len() - f,
            {
                let ghost done = doc_tokens(tree, fields.take(f as int));
                proof {
                    assert(fields.take(f + 1).drop_last() =~= fields.take(f as int));
                    assert(fields.take(f + 1).last() == (
                        rules.fields@[f as int].0@,
                        rules.fields@[f as int].1,
                    ));
                }
                match extract_field(&items[i].attrs, rules.fields[f].0.as_str()) {
                    Some(text) => {
                        let tokens = tokenize(text.as_str());
                        let ghost fresh = tokens.deep_view();
                        total_length = add_capped(total_length, tokens.len());
                        doc_count = add_capped(doc_count, 1);
                        proof {
                            assert forall|term: Seq<char>|
                                doc_freq@.contains_key(term) && !seen@.contains(
                                    term,
                                ) implies doc_freq@[term] < usize::MAX by {
                                lemma_counts_bounded(before, *filters, fields, term);
                            }
                        }
                        let ghost seen_before = seen@;
                        note_tokens(&mut doc_freq, &mut seen, &tokens);
                        proof {
                            let joined = done + fresh;
                            assert forall|term: Seq<char>|
                                joined.contains(term) <==> done.contains(term) || fresh.contains(
                                    term,
                                ) by {
                                if done.contains(term) {
                                    let k = choose|k: int| 0 <= k < done.len() && done[k] == term;
                                    assert(joined[k] == term);
                                }
                                if fresh.contains(term) {
                                    let k = choose|k: int| 0 <= k < fresh.len() && fresh[k] == term;
                                    assert(joined[done.len() + k] == term);
                                }
                                if joined.contains(term) {
                                    let k = choose|k: int| 0 <= k < joined.len() && joined[k] == term;
                                    if k < done.len() {
                                        assert(done[k] == term);
                                    } else {
                                        assert(fresh[k - done.len()] == term);
                                    }
                                }
                            }
                            assert(doc_freq@ =~= noted(start, Set::empty(), joined));
                            assert(doc_tokens(tree, fields.take(f + 1)) == joined);
                            assert forall|term: Seq<char>|
                                seen@.contains(term) <==> joined.contains(term) by {
                                assert(seen_before.contains(term) <==> done.contains(term));
                                assert(seen@.contains(term) <==> seen_before.contains(term)
                                    || fresh.contains(term));
                                assert(joined.contains(term) <==> done.contains(term)
                                    || fresh.contains(term));
                            }
                        }
                    },
                    None => {
                        assert(doc_tokens(tree, fields.take(f + 1)) == done);
                    },
                }
                f += 1;
            }
            total_docs = total_docs + 1;
            proof {
                assert(fields.take(f as int) =~= fields);
                let tokens = doc_tokens(tree, fields);
                assert forall|term: Seq<char>|
                    holding(after, *filters, fields, term) == holding(
                        before,
                        *filters,
                        fields,
                        term,
                    ) + if tokens.contains(term) {
                        1nat
                    } else {
                        0nat
                    } by {}
                assert forall|term: Seq<char>|
                    #[trigger] holding(before, *filters, fields, term) <= i by {
                    lemma_counts_bounded(before, *filters, fields, term);
                }
                assert(doc_freq@ =~= corpus_doc_freq(after, *filters, fields));
            }
        } else {
            proof {
                assert(doc_freq@ =~= corpus_doc_freq(after, *filters, fields));
            }
        }
        i += 1;
    }
    assert(records.take(i as int) =~= records);
    CorpusStats {
        doc_freq,
        avg_doc_length: Score::from_ratio(total_length, doc_count),
        total_docs,
    }
}

// ---------------------------------------------------------------------
// Scoring
// ---------------------------------------------------------------------
/// The terms that have a count, in order.
pub open spec fn held_terms(terms: Seq<Seq<char>>, counts: Map<Seq<char>, usize>) -> Seq<Seq<char>>
    decreases terms.len(),
{
    if terms.len() == 0 {
        Seq::empty()
    } else {
        let front = held_terms(terms.drop_last(), counts);
        if counts.contains_key(terms.last()) {
            front.push(terms.last())
        } else {
            front
        }
    }
}

/// The sum of the counts of the terms that have one.
pub open spec fn held_total(terms: Seq<Seq<char>>, counts: Map<Seq<char>, usize>) -> Score
    decreases terms.len(),
{
    if terms.len() == 0 {
        Score { micros: 0 }
    } else {
        let front = held_total(terms.drop_last(), counts);
        if counts.contains_key(terms.last()) {
            front.spec_plus(score_of(counts[terms.last()] as int * 1_000_000))
        } else {
            front
        }
    }
}

/// Whether a text holds the whole query: the terms joined by spaces occur
/// in the lowercase form of the text.
pub open spec fn exact_hit(terms: Seq<Seq<char>>, text: Seq<char>) -> bool {
    occurs_in(spaced(terms), lowercase_of(text))
}

/// The terms of the query that a field is found to hold under a matcher.
pub open spec fn field_matched(matcher: Matcher, terms: Seq<Seq<char>>, text: Seq<char>) -> Seq<
    Seq<char>,
> {
    match matcher {
        Matcher::Exact => if exact_hit(terms, text) {
            terms
        } else {
            Seq::empty()
        },
        Matcher::BM25 => held_terms(terms, spec_frequencies(spec_tokenize(text))),
        Matcher::Tokenized => held_terms(terms, spec_frequencies(spec_tokenize(text))),
        Matcher::Fuzzy => Seq::empty(),
    }
}

/// The score of a field under a matcher: 1 or 0 for `Exact`, the BM25
/// score for `BM25`, the number of occurrences of the terms of the query
/// for `Tokenized`, and 0 for `Fuzzy`.
pub open spec fn field_score(
    scorer: BM25Scorer,
    matcher: Matcher,
    terms: Seq<Seq<char>>,
    text: Seq<char>,
    doc_freq: Map<Seq<char>, usize>,
    avg: Score,
    total_docs: nat,
) -> Score {
    match matcher {
        Matcher::Exact => if exact_hit(terms, text) {
            Score { micros: 1_000_000 }
        } else {
            Score { micros: 0 }
        },
        Matcher::BM25 => bm25_score(
            scorer,
            terms,
            spec_frequencies(spec_tokenize(text)),
            spec_tokenize(text).len(),
            avg,
            doc_freq,
            total_docs,
        ),
        Matcher::Tokenized => held_total(terms, spec_frequencies(spec_tokenize(text))),
        Matcher::Fuzzy => Score { micros: 0 },
    }
}

/// The running result of scoring the fields of a record.
pub struct Tally {
    pub total: Score,
    pub field_scores: Seq<(Seq<char>, Score)>,
    pub matched: Seq<Seq<char>>,
}

/// The result of scoring the fields of a record, in the order of the rules.
/// A field that scores above 0 adds its score, times the boost and the
/// priority of its rule, to the total, and stands with it among the field
/// scores.
pub open spec fn tallied(
    scorer: BM25Scorer,
    attrs: AttrNode,
    fields: Seq<(Seq<char>, FieldRule)>,
    terms: Seq<Seq<char>>,
    doc_freq: Map<Seq<char>, usize>,
    avg: Score,
    total_docs: nat,
) -> Tally
    decreases fields.len(),
{
    if fields.len() == 0 {
        Tally { total: Score { micros: 0 }, field_scores: Seq::empty(), matched: Seq::empty() }
    } else {
        let front = tallied(scorer, attrs, fields.drop_last(), terms, doc_freq, avg, total_docs);
        let name = fields.last().0;
        let rule = fields.last().1;
        match field_text(attrs, name) {
            None => front,
            Some(text) => {
                let score = field_score(scorer, rule.matcher, terms, text, doc_freq, avg, total_docs);
                let matched = front.matched + field_matched(rule.matcher, terms, text);
                if score.micros > 0 {
                    let weighted = score.spec_times(rule.boost).spec_scaled(rule.priority as nat);
                    Tally {
                        total: front.total.spec_plus(weighted),
                        field_scores: with_score(front.field_scores, name, weighted),
                        matched,
                    }
                } else {
                    Tally { total: front.total, field_scores: front.field_scores, matched }
                }
            },
        }
    }
}

/// The match of a record, if its total is above 0. It has one detail with
/// the terms that its fields hold, unless there is none.
pub open spec fn semantic_match<T>(
    scorer: BM25Scorer,
    record: Record<T>,
    index: usize,
    fields: Seq<(Seq<char>, FieldRule)>,
    terms: Seq<Seq<char>>,
    doc_freq: Map<Seq<char>, usize>,
    avg: Score,
    total_docs: nat,
) -> Option<MatchView<T>> {
    let tally = tallied(scorer, record.attrs, fields, terms, doc_freq, avg, total_docs);
    if tally.total.micros > 0 {
        Some(
            MatchView {
                item: record.item,
                score: tally.total,
                field_scores: tally.field_scores,
                details: if tally.matched.len() > 0 {
                    seq![
                        DetailView::Semantic {
                            matched_terms: tally.matched,
                            field: "multiple"@,
                            weight: tally.total,
                        },
                    ]
                } else {
                    Seq::empty()
                },
                id: index,
            },
        )
    } else {
        None
    }
}

/// For each record, its match if the record passes the filter.
pub open spec fn semantic_pick<T>(
    scorer: BM25Scorer,
    records: Seq<Record<T>>,
    filters: Option<FilterExpr>,
    fields: Seq<(Seq<char>, FieldRule)>,
    terms: Seq<Seq<char>>,
    doc_freq: Map<Seq<char>, usize>,
    avg: Score,
    total_docs: nat,
) -> spec_fn(int) -> Option<MatchView<T>> {
    |i: int|
        if passes(filters, records[i].attrs) {
            semantic_match(scorer, records[i], i as usize, fields, terms, doc_freq, avg, total_docs)
        } else {
            None
        }
}

/// What a text search finds, before the items are cloned: the matches of
/// the records that pass the filter, scored against the statistics of those
/// records, by descending score, records of equal score in their order.
pub open spec fn semantic_results<T>(
    scorer: BM25Scorer,
    records: Seq<Record<T>>,
    filters: Option<FilterExpr>,
    fields: Seq<(Seq<char>, FieldRule)>,
    terms: Seq<Seq<char>>,
) -> Seq<MatchView<T>> {
    stable_sorted(
        gathered(
            records.len(),
            semantic_pick(
                scorer,
                records,
                filters,
                fields,
                terms,
                corpus_doc_freq(trees(records), filters, fields),
                corpus_mean(trees(records), filters, fields),
                surviving(trees(records), filters),
            ),
        ),
    )
}

/// Appends the terms that have a count.
fn push_held(terms: &Vec<String>, counts: &StringHashMap<usize>, matched: &mut Vec<String>)
    ensures
        final(matched).deep_view() == old(matched).deep_view() + held_terms(
            terms.deep_view(),
            counts@,
        ),
{
    let ghost all = terms.deep_view();
    let ghost start = matched.deep_view();
    let mut i: usize = 0;
    assert(matched.deep_view() =~= start + held_terms(all.take(0), counts@));
    while i < terms.len()
        invariant
            i <= terms.len(),
            all == terms.deep_view(),
            matched.deep_view() == start + held_terms(all.take(i as int), counts@),
        decreases terms.len() - i,
    {
        proof {
            assert(all.take(i + 1).drop_last() =~= all.take(i as int));
            assert(all.take(i + 1).last() == terms@[i as int]@);
        }
        let ghost before = matched.deep_view();
        if counts.contains_key(terms[i].as_str()) {
            matched.push(terms[i].clone());
            assert(matched.deep_view() =~= before.push(terms@[i as int]@));
            assert(matched.deep_view() =~= start + held_terms(all.take(i + 1), counts@));
        }
        i += 1;
    }
    assert(all.take(i as int) =~= all);
}

/// The sum of the counts of the terms that have one.
fn sum_held(terms: &Vec<String>, counts: &StringHashMap<usize>) -> (total: Score)
    ensures
        total == held_total(terms.deep_view(), counts@),
{
    let ghost all = terms.deep_view();
    let mut total = Score::zero();
    let mut i: usize = 0;
    while i < terms.len()
        invariant
            i <= terms.len(),
            all == terms.deep_view(),
            total == held_total(all.take(i as int), counts@),
        decreases terms.len() - i,
    {
        proof {
            assert(all.take(i + 1).drop_last() =~= all.take(i as int));
            assert(all.take(i + 1).last() == terms@[i as int]@);
        }
        match counts.get(terms[i].as_str()) {
            Some(count) => {
                total = total.plus(Score::from_count(*count));
            },
            None => {},
        }
        i += 1;
    }
    assert(all.take(i as int) =~= all);
    total
}

/// Appends copies of all the terms.
fn push_all(terms: &Vec<String>, matched: &mut Vec<String>)
    ensures
        final(matched).deep_view() == old(matched).deep_view() + terms.deep_view(),
{
    let ghost all = terms.deep_view();
    let ghost start = matched.deep_view();
    let mut i: usize = 0;
    assert(matched.deep_view() =~= start + all.take(0));
    while i < terms.len()
        invariant
            i <= terms.len(),
            all == terms.deep_view(),
            matched.deep_view() == start + all.take(i as int),
        decreases terms.len() - i,
    {
        let ghost before = matched.deep_view();
        matched.push(terms[i].clone());
        assert(matched.deep_view() =~= before.push(terms@[i as int]@));
        assert(matched.deep_view() =~= start + all.take(i + 1));
        i += 1;
    }
    assert(all.take(i as int) =~= all);
}

/// A searcher that scores the text of a record field by field, as the rules
/// say.
#[derive(Clone, Debug)]
pub struct SemanticSearch {
    pub rules: SemanticRules,
    pub bm25: BM25Scorer,
}

impl SemanticSearch {
    /// A searcher with the given rules and the default BM25 parameters.
    pub fn new(rules: SemanticRules) -> (searcher: Self)
        ensures
            searcher.rules == rules,
            searcher.bm25.k1.micros == 1_500_000,
            searcher.bm25.b.micros == 750_000,
    {
        SemanticSearch { rules, bm25: BM25Scorer::new() }
    }

    /// Scores one field and appends the terms of the query that it holds.
    pub fn score_field(
        &self,
        query_terms: &Vec<String>,
        text: &str,
        rule: &FieldRule,
        stats: &CorpusStats,
        matched_terms: &mut Vec<String>,
    ) -> (score: Score)
        ensures
            score == field_score(
                self.bm25,
                rule.matcher,
                query_terms.deep_view(),
                text@,
                stats.doc_freq@,
                stats.avg_doc_length,
                stats.total_docs as nat,
            ),
            final(matched_terms).deep_view() == old(matched_terms).deep_view() + field_matched(
                rule.matcher,
                query_terms.deep_view(),
                text@,
            ),
    {
        match rule.matcher {
            Matcher::Exact => {
                let text_lower = lowercase(text);
                let query_lower = join_spaced(query_terms);
                if contains(text_lower.as_str(), query_lower.as_str()) {
                    push_all(query_terms, matched_terms);
                    Score::one()
                } else {
                    assert(matched_terms.deep_view() =~= old(matched_terms).deep_view()
                        + Seq::<Seq<char>>::empty());
                    Score::zero()
                }
            },
            Matcher::BM25 => {
                let tokens = tokenize(text);
                let doc_terms = count_terms(&tokens);
                let score = self.bm25.score(
                    query_terms,
                    &doc_terms,
                    tokens.len(),
                    stats.avg_doc_length,
                    &stats.doc_freq,
                    stats.total_docs,
                );
                push_held(query_terms, &doc_terms, matched_terms);
                score
            },
            Matcher::Tokenized => {
                let tokens = tokenize(text);
                let doc_terms = count_terms(&tokens);
                push_held(query_terms, &doc_terms, matched_terms);
                sum_held(query_terms, &doc_terms)
            },
            Matcher::Fuzzy => {
                assert(matched_terms.deep_view() =~= old(matched_terms).deep_view()
                    + Seq::<Seq<char>>::empty());
                Score::zero()
            },
        }
    }

    /// Matches one record against the terms of a query.
    ///
    /// Each field that the rules name and the record has is scored by its
    /// matcher. The score of the record is the sum, over the fields that
    /// score above 0, of the score times the boost and the priority of the
    /// rule; the record matches if that sum is above 0.
    pub fn match_entity<T: Clone>(
        &self,
        record: &Record<T>,
        index: usize,
        query: &Query,
        stats: &CorpusStats,
        query_terms: &Vec<String>,
    ) -> (found: Option<SearusMatch<T>>)
        ensures
            match found {
                Some(m) => {
                    let expected = semantic_match(
                        self.bm25,
                        *record,
                        index,
                        named_rules(self.rules.fields@),
                        query_terms.deep_view(),
                        stats.doc_freq@,
                        stats.avg_doc_length,
                        stats.total_docs as nat,
                    );
                    expected is Some && copy_of(m@, expected->0)
                },
                None => semantic_match(
                    self.bm25,
                    *record,
                    index,
                    named_rules(self.rules.fields@),
                    query_terms.deep_view(),
                    stats.doc_freq@,
                    stats.avg_doc_length,
                    stats.total_docs as nat,
                ) is None,
            },
    {
        let ghost fields = named_rules(self.rules.fields@);
        let ghost terms = query_terms.deep_view();
        let mut total = Score::zero();
        let mut field_scores = FieldScores::new();
        let mut matched_terms: Vec<String> = Vec::new();
        let mut f: usize = 0;
        assert(matched_terms.deep_view() =~= Seq::<Seq<char>>::empty());
        while f < self.rules.fields.len()
            invariant
                f <= self.rules.fields.len(),
                fields == named_rules(self.rules.fields@),
                terms == query_terms.deep_view(),
                (Tally {
                    total,
                    field_scores: field_scores@,
                    matched: matched_terms.deep_view(),
                }) == tallied(
                    self.bm25,
                    record.attrs,
                    fields.take(f as int),
                    terms,
                    stats.doc_freq@,
                    stats.avg_doc_length,
                    stats.total_docs as nat,
                ),
            decreases self.rules.fields.len() - f,
        {
            proof {
                assert(fields.take(f + 1).drop_last() =~= fields.take(f as int));
                assert(fields.take(f + 1).last() == (
                    self.rules.fields@[f as int].0@,
                    self.rules.fields@[f as int].1,
                ));
            }
            let rule = self.rules.fields[f].1;
            match extract_field(&record.attrs, self.rules.fields[f].0.as_str()) {
                Some(text) => {
                    let score = self.score_field(
                        query_terms,
                        text.as_str(),
                        &rule,
                        stats,
                        &mut matched_terms,
                    );
                    if score.micros > 0 {
                        let weighted = score.times(rule.boost).scaled(rule.priority);
                        field_scores.set(self.rules.fields[f].0.clone(), weighted);
                        total = total.plus(weighted);
                    }
                },
                None => {},
            }
            f += 1;
        }
        assert(fields.take(f as int) =~= fields);
        if total.micros > 0 {
            let mut details: Vec<SearchDetail> = Vec::new();
            let ghost matched = matched_terms.deep_view();
            if matched_terms.len() > 0 {
                details.push(
                    SearchDetail::Semantic {
                        matched_terms,
                        field: "multiple".to_owned(),
                        weight: total,
                    },
                );
            }
            let m = SearusMatch {
                item: record.item.clone(),
                score: total,
                field_scores,
                details,
                id: index,
            };
            proof {
                let expected = semantic_match(
                    self.bm25,
                    *record,
                    index,
                    fields,
                    terms,
                    stats.doc_freq@,
                    stats.avg_doc_length,
                    stats.total_docs as nat,
                );
                assert(m@.details =~= expected->0.details);
            }
            Some(m)
        } else {
            None
        }
    }

    /// Sorts matches by descending score; matches of equal score keep their
    /// order.
    pub fn sort_results<T>(&self, results: &mut Vec<SearusMatch<T>>)
        ensures
            match_views(final(results)@) == stable_sorted(match_views(old(results)@)),
    {
        let mut taken: Vec<SearusMatch<T>> = Vec::new();
        taken.append(results);
        let mut sorted = sort_by_score(taken);
        results.append(&mut sorted);
    }

    /// The matches of the records that pass the query's filter, by
    /// descending score. Nothing is found without text in the query, or
    /// with text that has no token.
    pub fn find<T: Clone>(&self, items: &[Record<T>], query: &Query) -> (results: Vec<SearusMatch<T>>)
        ensures
            forall|k: int| 0 <= k < results@.len() ==> (#[trigger] results@[k]).id < items@.len(),
            query.text is None || spec_tokenize(query.text->0@).len() == 0 ==> results@.len() == 0,
            query.text is Some && spec_tokenize(query.text->0@).len() > 0 ==> copies_of(
                match_views(results@),
                semantic_results(
                    self.bm25,
                    items@,
                    query.filters,
                    named_rules(self.rules.fields@),
                    spec_tokenize(query.text->0@),
                ),
            ),
    {
        let query_text = match &query.text {
            Some(text) => text,
            None => {
                return Vec::new();
            },
        };
        let query_terms = tokenize(query_text.as_str());
        if query_terms.len() == 0 {
            return Vec::new();
        }
        let stats = calculate_corpus_stats(items, &self.rules, &query.filters);
        let ghost pick = semantic_pick(
            self.bm25,
            items@,
            query.filters,
            named_rules(self.rules.fields@),
            query_terms.deep_view(),
            stats.doc_freq@,
            stats.avg_doc_length,
            stats.total_docs as nat,
        );
        let mut found: Vec<SearusMatch<T>> = Vec::new();
        let mut i: usize = 0;
        while i < items.len()
            invariant
                i <= items.len(),
                pick == semantic_pick(
                    self.bm25,
                    items@,
                    query.filters,
                    named_rules(self.rules.fields@),
                    query_terms.deep_view(),
                    stats.doc_freq@,
                    stats.avg_doc_length,
                    stats.total_docs as nat,
                ),
                copies_of(match_views(found@), gathered(i as nat, pick)),
            decreases items.len() - i,
        {
            let ghost before = match_views(found@);
            if let_through(&query.filters, &items[i].attrs) {
                match self.match_entity(&items[i], i, query, &stats, &query_terms) {
                    Some(m) => {
                        found.push(m);
                        assert(match_views(found@) =~= before.push(m@));
                    },
                    None => {},
                }
            }
            i += 1;
        }
        let ghost gathered_all = gathered(items@.len(), pick);
        let ghost unsorted = match_views(found@);
        let results = sort_by_score(found);
        proof {
            lemma_sorted_copies(unsorted, gathered_all);
            lemma_found_ids(match_views(results@), items@.len(), pick);
            assert forall|k: int| 0 <= k < results@.len() implies (#[trigger] results@[k]).id
                < items@.len() by {
                assert(match_views(results@)[k].id == results@[k].id);
            }
        }
        results
    }
}

impl<T: Clone> Searcher<T> for SemanticSearch {
    /// The kind `Semantic`.
    fn kind(&self) -> SearcherKind
        returns
            SearcherKind::Semantic,
    {
        SearcherKind::Semantic
    }

    /// What [`SemanticSearch::find`] finds among the records of the context.
    fn search(&self, context: &SearchContext<T>, query: &Query) -> (results: Vec<SearusMatch<T>>)
        ensures
            forall|k: int|
                0 <= k < results@.len() ==> (#[trigger] results@[k]).id < context.items@.len(),
            query.text is None || spec_tokenize(query.text->0@).len() == 0 ==> results@.len() == 0,
            query.text is Some && spec_tokenize(query.text->0@).len() > 0 ==> copies_of(
                match_views(results@),
                semantic_results(
                    self.bm25,
                    context.items@,
                    query.filters,
                    named_rules(self.rules.fields@),
                    spec_tokenize(query.text->0@),
                ),
            ),
    {
        self.find(context.items, query)
    }
}

} // verus!
