//! The engine: searchers and extensions around the ranking steps.

use vstd::prelude::*;
use crate::attr::AttrNode;
use crate::context::SearchContext;
use crate::extension::SearusExtension;
use crate::ranking::{
    merge_results, normalize_results, paginate, rank, result_views, spec_rank,
    NormalizationMethod,
};
use crate::sort::sort_by_score;
use crate::searcher::{ask_kind, found_by, kind_of, run_searcher, Searcher};
use crate::types::{match_views, Query, Record, SearcherKind, SearusMatch};

verus! {

/// A search engine: an ordered list of searchers, the way their scores are
/// rescaled, and an ordered list of extensions. It is fixed once built.
#[verifier::reject_recursive_types(T)]
pub struct SearusEngine<T> {
    pub searchers: Vec<Box<dyn Searcher<T>>>,
    pub normalization: NormalizationMethod,
    pub extensions: Vec<Box<dyn SearusExtension<T>>>,
}

/// Builds a [`SearusEngine`] part by part.
#[verifier::reject_recursive_types(T)]
pub struct SearusEngineBuilder<T> {
    pub searchers: Vec<Box<dyn Searcher<T>>>,
    pub normalization: Option<NormalizationMethod>,
    pub extensions: Vec<Box<dyn SearusExtension<T>>>,
}

impl<T> SearusEngineBuilder<T> {
    /// A builder with no searchers, no extensions and no method chosen.
    pub fn new() -> (builder: Self)
        ensures
            builder.searchers@.len() == 0,
            builder.normalization is None,
            builder.extensions@.len() == 0,
    {
        SearusEngineBuilder { searchers: Vec::new(), normalization: None, extensions: Vec::new() }
    }

    /// Registers a searcher after those already registered.
    pub fn with(self, searcher: Box<dyn Searcher<T>>) -> (builder: Self)
        ensures
            builder.searchers@ == self.searchers@.push(searcher),
            builder.normalization == self.normalization,
            builder.extensions@ == self.extensions@,
    {
        let mut builder = self;
        builder.searchers.push(searcher);
        builder
    }

    /// Chooses how scores are rescaled.
    pub fn normalization(self, method: NormalizationMethod) -> (builder: Self)
        ensures
            builder.searchers@ == self.searchers@,
            builder.normalization == Some(method),
            builder.extensions@ == self.extensions@,
    {
        let mut builder = self;
        builder.normalization = Some(method);
        builder
    }

    /// Registers an extension after those already registered.
    pub fn with_extension(self, extension: Box<dyn SearusExtension<T>>) -> (builder: Self)
        ensures
            builder.searchers@ == self.searchers@,
            builder.normalization == self.normalization,
            builder.extensions@ == self.extensions@.push(extension),
    {
        let mut builder = self;
        builder.extensions.push(extension);
        builder
    }

    /// The engine; scores are rescaled by `MinMax` unless a method was
    /// chosen.
    pub fn build(self) -> (engine: SearusEngine<T>)
        ensures
            engine.searchers@ == self.searchers@,
            engine.extensions@ == self.extensions@,
            engine.normalization == match self.normalization {
                Some(method) => method,
                None => NormalizationMethod::MinMax,
            },
    {
        let method = match self.normalization {
            Some(method) => method,
            None => NormalizationMethod::MinMax,
        };
        SearusEngine { searchers: self.searchers, normalization: method, extensions: self.extensions }
    }
}

/// What the searchers of an engine can hand to the ranking steps: at most
/// one list for each searcher, and no empty list.
pub open spec fn dispatched<T>(
    results: Seq<(SearcherKind, Vec<SearusMatch<T>>)>,
    searchers: nat,
) -> bool {
    &&& results.len() <= searchers
    &&& forall|k: int| 0 <= k < results.len() ==> (#[trigger] results[k]).1@.len() > 0
}

/// Whether `found` is what the searcher at place `k` can return for the
/// query on the context.
pub open spec fn found_at<T>(
    searchers: Seq<Box<dyn Searcher<T>>>,
    k: int,
    context: &SearchContext<T>,
    query: &Query,
    found: Vec<SearusMatch<T>>,
) -> bool {
    found_by(&*searchers[k], context, query, found)
}

/// Whether `kind` is what the searcher at place `k` can give as its kind.
pub open spec fn kind_at<T>(searchers: Seq<Box<dyn Searcher<T>>>, k: int, kind: SearcherKind) -> bool {
    kind_of::<T, dyn Searcher<T>>(&*searchers[k], kind)
}

/// Whether the searcher at place `k` returned an empty list for the query
/// on the context.
pub open spec fn empty_at<T>(
    searchers: Seq<Box<dyn Searcher<T>>>,
    k: int,
    context: &SearchContext<T>,
    query: &Query,
) -> bool {
    exists|found: Vec<SearusMatch<T>>|
        found@.len() == 0 && #[trigger] found_at(searchers, k, context, query, found)
}

/// Whether `results` is what the first `count` searchers hand to the
/// ranking steps when each is run on the context and the query, in order:
/// for each searcher that returned a list that is not empty, that list
/// under the kind the searcher gave; nothing for a searcher that returned
/// an empty list.
pub open spec fn dispatch_of<T>(
    searchers: Seq<Box<dyn Searcher<T>>>,
    count: nat,
    context: &SearchContext<T>,
    query: &Query,
    results: Seq<(SearcherKind, Vec<SearusMatch<T>>)>,
) -> bool
    decreases count,
{
    if count == 0 {
        results.len() == 0
    } else {
        ||| empty_at(searchers, count - 1, context, query) && dispatch_of(
            searchers,
            (count - 1) as nat,
            context,
            query,
            results,
        )
        ||| results.len() > 0 && results.last().1@.len() > 0 && found_at(
            searchers,
            count - 1,
            context,
            query,
            results.last().1,
        ) && kind_at(searchers, count - 1, results.last().0) && dispatch_of(
            searchers,
            (count - 1) as nat,
            context,
            query,
            results.drop_last(),
        )
    }
}

/// What the searchers hand on has at most one list for each searcher, and
/// no empty list.
pub proof fn lemma_dispatch_shape<T>(
    searchers: Seq<Box<dyn Searcher<T>>>,
    count: nat,
    context: &SearchContext<T>,
    query: &Query,
    results: Seq<(SearcherKind, Vec<SearusMatch<T>>)>,
)
    requires
        dispatch_of(searchers, count, context, query, results),
    ensures
        dispatched(results, count),
    decreases count,
{
    if count > 0 {
        if empty_at(searchers, count - 1, context, query) && dispatch_of(
            searchers,
            (count - 1) as nat,
            context,
            query,
            results,
        ) {
            lemma_dispatch_shape(searchers, (count - 1) as nat, context, query, results);
        } else {
            lemma_dispatch_shape(
                searchers,
                (count - 1) as nat,
                context,
                query,
                results.drop_last(),
            );
            assert forall|k: int| 0 <= k < results.len() implies (#[trigger] results[k]).1@.len()
                > 0 by {
                if k < results.len() - 1 {
                    assert(results.drop_last()[k] == results[k]);
                }
            }
        }
    }
}

/// Runs the searcher at place `k` on the context and the query.
fn run_at<T>(
    searchers: &Vec<Box<dyn Searcher<T>>>,
    k: usize,
    context: &SearchContext<T>,
    query: &Query,
) -> (found: Vec<SearusMatch<T>>)
    requires
        k < searchers@.len(),
    ensures
        found_at(searchers@, k as int, context, query, found),
{
    run_searcher(&*searchers[k], context, query)
}

/// Asks the searcher at place `k` for its kind.
fn kind_at_place<T>(searchers: &Vec<Box<dyn Searcher<T>>>, k: usize) -> (kind: SearcherKind)
    requires
        k < searchers@.len(),
    ensures
        kind_at(searchers@, k as int, kind),
{
    ask_kind::<T, dyn Searcher<T>>(&*searchers[k])
}

impl<T> SearusEngine<T> {
    /// A builder with no searchers, no extensions and no method chosen.
    pub fn builder() -> (builder: SearusEngineBuilder<T>)
        ensures
            builder.searchers@.len() == 0,
            builder.normalization is None,
            builder.extensions@.len() == 0,
    {
        SearusEngineBuilder::new()
    }

    /// Runs every searcher on the records, in the order of registration,
    /// and keeps the lists that are not empty, each under the kind of its
    /// searcher. Each searcher is handed the query as it is, and one
    /// context over the records with an empty cache.
    pub fn dispatch(&self, items: &[Record<T>], query: &Query) -> (results: Vec<
        (SearcherKind, Vec<SearusMatch<T>>),
    >)
        ensures
            dispatched(results@, self.searchers@.len()),
            exists|context: SearchContext<T>|
                context.items@ == items@ && context.cache@ == Map::<Seq<char>, AttrNode>::empty()
                    && #[trigger] dispatch_of(
                    self.searchers@,
                    self.searchers@.len(),
                    &context,
                    query,
                    results@,
                ),
    {
        let context = SearchContext::new(items);
        let mut results: Vec<(SearcherKind, Vec<SearusMatch<T>>)> = Vec::new();
        let mut k: usize = 0;
        while k < self.searchers.len()
            invariant
                k <= self.searchers.len(),
                context.items@ == items@,
                context.cache@ == Map::<Seq<char>, AttrNode>::empty(),
                dispatch_of(self.searchers@, k as nat, &context, query, results@),
            decreases self.searchers.len() - k,
        {
            let ghost before = results@;
            let found = run_at(&self.searchers, k, &context, query);
            if found.len() > 0 {
                let kind = kind_at_place(&self.searchers, k);
                results.push((kind, found));
                assert(results@.drop_last() =~= before);
            } else {
                assert(empty_at(self.searchers@, k as int, &context, query));
            }
            k += 1;
        }
        proof {
            lemma_dispatch_shape(
                self.searchers@,
                self.searchers@.len(),
                &context,
                query,
                results@,
            );
        }
        results
    }

    /// Searches the records with every searcher and ranks what they found.
    ///
    /// An engine without searchers finds nothing. An engine without
    /// extensions runs each searcher on the records and the query, and
    /// returns the ranked page of the lists that are not empty, as [`rank`]
    /// computes it from the query's options. With extensions each
    /// hook runs at its stage, in the order of registration: `before_query`
    /// and `before_items` on the engine's own copies, `after_searcher` on
    /// each searcher's matches, `before_merge` on the lists that are not
    /// empty, `after_merge` on the merged matches, `before_limit` on the
    /// sorted matches and `after_limit` on the page.
    pub fn search(&self, items: &[Record<T>], query: &Query) -> (results: Vec<SearusMatch<T>>) where
        T: Clone,

        ensures
            self.searchers@.len() == 0 ==> results@.len() == 0,
            self.extensions@.len() == 0 ==> results@.len() <= query.options.limit,
            self.extensions@.len() == 0 ==> exists|
                context: SearchContext<T>,
                found: Seq<(SearcherKind, Vec<SearusMatch<T>>)>,
            |
                context.items@ == items@ && context.cache@ == Map::<Seq<char>, AttrNode>::empty()
                    && #[trigger] dispatch_of(
                    self.searchers@,
                    self.searchers@.len(),
                    &context,
                    query,
                    found,
                ) && match_views(results@) == spec_rank(
                    result_views(found),
                    self.normalization,
                    query.options,
                ),
    {
        if self.extensions.len() == 0 {
            let found = self.dispatch(items, query);
            let ghost witness = found@;
            let ghost context = choose|context: SearchContext<T>|
                context.items@ == items@ && context.cache@ == Map::<Seq<char>, AttrNode>::empty()
                    && #[trigger] dispatch_of(
                    self.searchers@,
                    self.searchers@.len(),
                    &context,
                    query,
                    witness,
                );
            let page = rank(found, self.normalization, &query.options);
            assert(dispatch_of(self.searchers@, self.searchers@.len(), &context, query, witness)
                && match_views(page@) == spec_rank(
                result_views(witness),
                self.normalization,
                query.options,
            ));
            page
        } else {
            self.search_extended(items, query)
        }
    }

    /// The search of an engine with extensions: the stages of [`Self::search`]
    /// with every hook run at its stage.
    fn search_extended(&self, items: &[Record<T>], query: &Query) -> (results: Vec<SearusMatch<T>>) where
        T: Clone,

        ensures
            self.searchers@.len() == 0 ==> results@.len() == 0,
    {
        let mut query = query.clone();
        let mut e: usize = 0;
        while e < self.extensions.len()
            invariant
                e <= self.extensions.len(),
            decreases self.extensions.len() - e,
        {
            self.extensions[e].before_query(&mut query);
            e += 1;
        }
        let mut records: Vec<Record<T>> = Vec::new();
        let mut i: usize = 0;
        while i < items.len()
            invariant
                i <= items.len(),
            decreases items.len() - i,
        {
            records.push(items[i].clone());
            i += 1;
        }
        e = 0;
        while e < self.extensions.len()
            invariant
                e <= self.extensions.len(),
            decreases self.extensions.len() - e,
        {
            self.extensions[e].before_items(&query, &mut records);
            e += 1;
        }
        if self.searchers.len() == 0 {
            return Vec::new();
        }
        let context = SearchContext::new(records.as_slice());
        let mut found: Vec<(SearcherKind, Vec<SearusMatch<T>>)> = Vec::new();
        let mut k: usize = 0;
        while k < self.searchers.len()
            invariant
                k <= self.searchers.len(),
            decreases self.searchers.len() - k,
        {
            let mut matches = self.searchers[k].search(&context, &query);
            e = 0;
            while e < self.extensions.len()
                invariant
                    e <= self.extensions.len(),
                decreases self.extensions.len() - e,
            {
                self.extensions[e].after_searcher(&query, &mut matches);
                e += 1;
            }
            if matches.len() > 0 {
                found.push((self.searchers[k].kind(), matches));
            }
            k += 1;
        }
        if found.len() == 0 {
            return Vec::new();
        }
        e = 0;
        while e < self.extensions.len()
            invariant
                e <= self.extensions.len(),
            decreases self.extensions.len() - e,
        {
            self.extensions[e].before_merge(&query, &mut found);
            e += 1;
        }
        let normalized = normalize_results(found, self.normalization);
        let mut merged = merge_results(normalized, &query.options);
        e = 0;
        while e < self.extensions.len()
            invariant
                e <= self.extensions.len(),
            decreases self.extensions.len() - e,
        {
            self.extensions[e].after_merge(&query, &mut merged);
            e += 1;
        }
        let mut sorted = sort_by_score(merged);
        e = 0;
        while e < self.extensions.len()
            invariant
                e <= self.extensions.len(),
            decreases self.extensions.len() - e,
        {
            self.extensions[e].before_limit(&query, &mut sorted);
            e += 1;
        }
        let mut page = paginate(sorted, query.options.skip, query.options.limit);
        e = 0;
        while e < self.extensions.len()
            invariant
                e <= self.extensions.len(),
            decreases self.extensions.len() - e,
        {
            self.extensions[e].after_limit(&query, &mut page);
            e += 1;
        }
        page
    }
}

} // verus!
