//! Diagnostics the pass produces, and the registered lint category.

use vstd::prelude::*;
use crate::ast::Span;

verus! {

/// One reported identity conversion: a warning with a suggested
/// textual replacement.
#[derive(PartialEq, Eq, Debug)]
pub struct Diagnostic {
    /// The span of the whole redundant call expression.
    pub span: Span,
    /// The warning message.
    pub message: String,
    /// The label of the suggestion, naming the call to remove.
    pub label: String,
    /// The suggested replacement: the source text of the call's input.
    pub replacement: String,
}

/// The mathematical value of a [`Diagnostic`].
pub struct DiagView {
    pub span: Span,
    pub message: Seq<char>,
    pub label: Seq<char>,
    pub replacement: Seq<char>,
}

impl DeepView for Diagnostic {
    type V = DiagView;

    open spec fn deep_view(&self) -> DiagView {
        DiagView {
            span: self.span,
            message: self.message@,
            label: self.label@,
            replacement: self.replacement@,
        }
    }
}

/// The one diagnostic category this pass registers.
#[derive(PartialEq, Eq, Debug)]
pub struct Lint {
    /// The category's name.
    pub name: String,
    /// A one-line description of what the category reports.
    pub description: String,
    /// Whether the category warns by default.
    pub warn_by_default: bool,
}

} // verus!
