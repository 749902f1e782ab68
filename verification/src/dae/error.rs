//! Diagnostics of the lowering passes.
use crate::span::Span;
use crate::text::owned;
use vstd::prelude::*;

verus! {

/// Why a system could not be lowered.
#[allow(inconsistent_fields)]
#[derive(Debug)]
pub enum ToDaeError {
    /// Generated data lacks what the runtime needs to know of it.
    RuntimeMetadataViolation { message: String, span: Option<Span> },
    /// The model breaks a rule of the runtime.
    RuntimeContractViolation { message: String, span: Span },
}

/// The mathematical content of a [`ToDaeError`].
#[allow(inconsistent_fields)]
pub enum ToDaeErrorView {
    RuntimeMetadataViolation { message: Seq<char>, span: Option<Span> },
    RuntimeContractViolation { message: Seq<char>, span: Span },
}

impl View for ToDaeError {
    type V = ToDaeErrorView;

    open spec fn view(&self) -> ToDaeErrorView {
        match *self {
            ToDaeError::RuntimeMetadataViolation {
                message,
                span,
            } => ToDaeErrorView::RuntimeMetadataViolation { message: message@, span },
            ToDaeError::RuntimeContractViolation {
                message,
                span,
            } => ToDaeErrorView::RuntimeContractViolation { message: message@, span },
        }
    }
}

impl ToDaeErrorView {
    /// The explanation.
    pub open spec fn text(self) -> Seq<char> {
        match self {
            ToDaeErrorView::RuntimeMetadataViolation { message, .. } => message,
            ToDaeErrorView::RuntimeContractViolation { message, .. } => message,
        }
    }
}

impl ToDaeError {
    /// The explanation.
    pub fn message(&self) -> (s: String)
        ensures
            s@ == self@.text(),
    {
        match self {
            ToDaeError::RuntimeMetadataViolation { message, .. } => message.clone(),
            ToDaeError::RuntimeContractViolation { message, .. } => message.clone(),
        }
    }
}

/// What `context` lacks when it has no source position.
pub open spec fn missing_provenance(context: Seq<char>) -> ToDaeErrorView {
    ToDaeErrorView::RuntimeMetadataViolation {
        message: context + " is missing source provenance"@,
        span: None,
    }
}

/// The error for a thing without a source position.
pub fn missing_provenance_error(context: &str) -> (e: ToDaeError)
    ensures
        e@ == missing_provenance(context@),
{
    let mut message = owned(context);
    message.append(" is missing source provenance");
    ToDaeError::RuntimeMetadataViolation { message, span: None }
}

} // verus!
