//! A verified analysis pass that flags redundant identity conversions:
//! calls to tracked conversion methods or factory functions whose input
//! type and output type are identical, making the call a no-op.
//!
//! The host hands the pass a fully type-checked expression tree together
//! with an [`context::AnalysisContext`] of per-node facts (inferred types,
//! definition resolution, macro origin, source snippets). The pass walks
//! the tree pre-order, suppresses the synthetic duplicate call that
//! error-propagation desugaring introduces, and reports each remaining
//! identity conversion exactly once.

pub mod ast;
pub mod context;
pub mod detector;
pub mod diagnostics;
pub mod laws;
pub mod rules;
pub mod traversal;
