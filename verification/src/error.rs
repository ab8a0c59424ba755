//! The ways in which generation for one operation can fail.

use vstd::prelude::*;

verus! {

/// A fatal generation error. Generation is all-or-nothing: the first error
/// met ends the pass for the whole operation.
#[derive(Debug, Clone, PartialEq, Eq)]
pub enum CodegenError {
    /// A qualifier sequence holds two `Required` in a row.
    MalformedQualifiers,
    /// A selection names a field that its target type does not have.
    UnknownField { field: String, enclosing: String },
    /// A spread names a fragment that the operation's fragment table lacks.
    UnresolvedFragment { fragment: usize },
    /// Two type conditions of one selection set can match the same concrete
    /// type. Such selections are rejected, never merged.
    AmbiguousTypeCondition { condition: String },
}

/// The mathematical value of a [`CodegenError`].
pub enum CodegenErrorView {
    MalformedQualifiers,
    UnknownField { field: Seq<char>, enclosing: Seq<char> },
    UnresolvedFragment { fragment: nat },
    AmbiguousTypeCondition { condition: Seq<char> },
}

impl View for CodegenError {
    type V = CodegenErrorView;

    open spec fn view(&self) -> CodegenErrorView {
        match self {
            CodegenError::MalformedQualifiers => CodegenErrorView::MalformedQualifiers,
            CodegenError::UnknownField { field, enclosing } => CodegenErrorView::UnknownField {
                field: field@,
                enclosing: enclosing@,
            },
            CodegenError::UnresolvedFragment { fragment } => CodegenErrorView::UnresolvedFragment {
                fragment: *fragment as nat,
            },
            CodegenError::AmbiguousTypeCondition { condition } => {
                CodegenErrorView::AmbiguousTypeCondition { condition: condition@ }
            },
        }
    }
}

} // verus!
