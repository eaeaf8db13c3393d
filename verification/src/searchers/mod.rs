//! The built-in searchers.

pub mod bm25;
pub mod fuzzy;
pub mod semantic;
pub mod tagged;
pub mod tagged_laws;
pub mod tokenizer;
