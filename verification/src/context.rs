//! The context handed to a searcher.

use vstd::prelude::*;
use vstd::hash_map::StringHashMap;
use crate::attr::AttrNode;
use crate::types::Record;

verus! {

/// The records under search, with a cache of named values that searchers
/// may share.
pub struct SearchContext<'a, T> {
    pub items: &'a [Record<T>],
    pub cache: StringHashMap<AttrNode>,
}

impl<'a, T> SearchContext<'a, T> {
    /// A context over `items` with an empty cache.
    pub fn new(items: &'a [Record<T>]) -> (context: Self)
        ensures
            context.items@ == items@,
            context.cache@ == Map::<Seq<char>, AttrNode>::empty(),
    {
        SearchContext { items, cache: StringHashMap::new() }
    }

    /// The context with `value` cached under `key`, in place of an earlier
    /// value of that key.
    pub fn with_cache_value(self, key: &str, value: AttrNode) -> (context: Self)
        ensures
            context.items@ == self.items@,
            context.cache@ == self.cache@.insert(key@, value),
    {
        let mut context = self;
        context.cache.insert(key.to_owned(), value);
        context
    }

    /// The value cached under `key`, if there is one.
    pub fn get_cache_value(&self, key: &str) -> (value: Option<&AttrNode>)
        ensures
            match value {
                Some(v) => self.cache@.contains_key(key@) && *v == self.cache@[key@],
                None => !self.cache@.contains_key(key@),
            },
    {
        self.cache.get(key)
    }
}

} // verus!
