//! The interface of a scoring strategy.

use vstd::prelude::*;
use crate::context::SearchContext;
use crate::types::{Query, SearcherKind, SearusMatch};

verus! {

/// A scoring strategy that an engine can hold.
///
/// A searcher reads the parts of the query that it understands and returns
/// one match for each record it finds, with a raw score. The `id` of a match
/// is the index of its record in `context.items`. The engine rescales the
/// scores before it merges them with those of other searchers.
pub trait Searcher<T> {
    /// The kind of this searcher, by which its weight is looked up.
    fn kind(&self) -> SearcherKind;

    /// The matches of `query` among the records of `context`.
    fn search(&self, context: &SearchContext<T>, query: &Query) -> Vec<SearusMatch<T>>;
}

/// Whether `found` is what a call of the searcher's `search` on the context
/// and the query can return.
pub open spec fn found_by<T, S: Searcher<T> + ?Sized>(
    searcher: &S,
    context: &SearchContext<T>,
    query: &Query,
    found: Vec<SearusMatch<T>>,
) -> bool {
    call_ensures(S::search, (searcher, context, query), found)
}

/// Whether `kind` is what a call of the searcher's `kind` can return.
pub open spec fn kind_of<T, S: Searcher<T> + ?Sized>(searcher: &S, kind: SearcherKind) -> bool {
    call_ensures(S::kind, (searcher,), kind)
}

/// Runs a searcher on the context and the query.
pub fn run_searcher<T, S: Searcher<T> + ?Sized>(
    searcher: &S,
    context: &SearchContext<T>,
    query: &Query,
) -> (found: Vec<SearusMatch<T>>)
    ensures
        found_by(searcher, context, query, found),
{
    searcher.search(context, query)
}

/// Asks a searcher for its kind.
pub fn ask_kind<T, S: Searcher<T> + ?Sized>(searcher: &S) -> (kind: SearcherKind)
    ensures
        kind_of::<T, S>(searcher, kind),
{
    searcher.kind()
}

} // verus!
