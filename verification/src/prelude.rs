//! The names that most callers need, in one place.

pub use vstd::hash_map::StringHashMap;

pub use crate::attr::{AttrNode, Number};
pub use crate::context::SearchContext;
pub use crate::engine::{SearusEngine, SearusEngineBuilder};
pub use crate::extension::SearusExtension;
pub use crate::field_scores::FieldScores;
pub use crate::filter::{filter_items, CompareOp, FilterExpr, FilterValue};
pub use crate::ranking::NormalizationMethod;
pub use crate::rules::{
    FieldRule, Matcher, ObjectAccess, ObjectRule, ObjectRuleBuilder, SemanticRules,
    SemanticRulesBuilder,
};
pub use crate::score::Score;
pub use crate::searcher::Searcher;
pub use crate::searchers::bm25::BM25Scorer;
pub use crate::searchers::fuzzy::FuzzySearch;
pub use crate::searchers::semantic::{CorpusStats, SemanticSearch};
pub use crate::searchers::tagged::{TagNode, TagRelationshipTree, TaggedSearch};
pub use crate::types::{
    ImageData, Query, QueryBuilder, Record, SearchDetail, SearchOptions, Searchable, SearcherKind,
    SearusMatch,
};
