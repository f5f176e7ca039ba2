//! Semantic code search: structural extraction of code elements from a
//! syntax tree, their rich-context rendering for embedding, an in-memory
//! corpus, and deterministic top-k ranking.

pub mod text;
pub mod syntax;
pub mod element;
pub mod extract;
pub mod context;
pub mod rank;
pub mod index;
