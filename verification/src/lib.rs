//! Core of a markdown-to-document rendering pipeline.
//!
//! The crate rewrites authored markdown in two verified passes: diagram
//! fences become opaque embed directives, and invisible position anchors are
//! injected before block-level constructs.  Around those passes it provides
//! the bookkeeping the surrounding application needs: a bidirectional source
//! map assembled from schema-ambiguous renderer query results, a
//! content-addressed cache key for compiled diagram artifacts, the LaTeX
//! document assembly for the external diagram compiler, and the decision
//! logic of the compile/fallback/cache state machine.

pub mod strutil;
pub mod splice;
pub mod fence;
pub mod placeholder;
pub mod events;
pub mod extract;
pub mod preprocessor;
pub mod cache;
pub mod latex;
pub mod pipeline;
pub mod sourcemap;
