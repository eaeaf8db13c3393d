//! Hooks into the stages of a search.

use vstd::prelude::*;
use crate::searcher::Searcher;
use crate::types::{Query, Record, SearcherKind, SearusMatch};

verus! {

/// An extension of an engine. Each hook runs at a fixed stage of a search
/// and may change what it is handed; each does nothing unless it is
/// overridden.
pub trait SearusExtension<T> {
    /// Runs first, on the engine's own copy of the query.
    fn before_query(&self, query: &mut Query) {
    }

    /// Runs on the engine's own copy of the records, before any searcher
    /// sees them.
    fn before_items(&self, query: &Query, items: &mut Vec<Record<T>>) {
    }

    /// Advisory: the engine does not run this hook.
    fn before_searcher(&self, query: &Query, searcher: &mut Box<dyn Searcher<T>>) {
    }

    /// Runs on the matches of each searcher, right after it returns.
    fn after_searcher(&self, query: &Query, results: &mut Vec<SearusMatch<T>>) {
    }

    /// Runs on the match lists of all searchers, before they are rescaled.
    fn before_merge(&self, query: &Query, results: &mut Vec<(SearcherKind, Vec<SearusMatch<T>>)>) {
    }

    /// Runs on the merged matches, before they are sorted.
    fn after_merge(&self, query: &Query, results: &mut Vec<SearusMatch<T>>) {
    }

    /// Runs on the sorted matches, before the page is cut.
    fn before_limit(&self, query: &Query, results: &mut Vec<SearusMatch<T>>) {
    }

    /// Runs last, on the page.
    fn after_limit(&self, query: &Query, results: &mut Vec<SearusMatch<T>>) {
    }
}

} // verus!
