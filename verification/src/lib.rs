//! An embeddable, multi-modal search library with machine-checked contracts.
//!
//! A query may combine free text, tags and a structured filter. The engine
//! dispatches it to a list of searchers, rescales each searcher's scores to
//! the unit interval, blends them by per-kind weights, sorts and paginates.
//!
//! Records are searched through their attribute trees ([`attr::AttrNode`]),
//! and scores are exact fixed-point numbers ([`score::Score`]), so every
//! step is stated and proved over the integers.
//!
//! - [`engine`], [`searcher`], [`extension`], [`context`]: the engine and
//!   what plugs into it.
//! - [`ranking`], [`sort`]: rescaling, merging, sorting and pagination, with
//!   their laws in [`ranking_laws`].
//! - [`searchers`]: text search with BM25, fuzzy search and tag search, and
//!   the tokenizer they share.
//! - [`filter`]: filter expressions and their evaluation.
//! - [`types`], [`rules`], [`field_scores`], [`score`], [`attr`], [`text`]:
//!   the data they work on.

pub mod attr;
pub mod context;
pub mod embeddings;
pub mod engine;
pub mod extension;
pub mod field_scores;
pub mod filter;
pub mod prelude;
pub mod ranking;
pub mod ranking_laws;
pub mod rules;
pub mod score;
pub mod searcher;
pub mod searchers;
pub mod sort;
pub mod text;
pub mod types;
