//! Snapshot support for token-shaped values: comparison and rendering of
//! token trees, layout of inline literals, in-place patching of source text
//! and line diffs of the outcome.

pub mod diff;
pub mod inline;
pub mod listing;
pub mod outline;
pub mod patch;
pub mod scan;
pub mod settings;
pub mod text;
pub mod syntax;
pub mod tokens;
pub mod tokenstream;
