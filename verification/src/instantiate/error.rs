//! What stops an instantiation.
use crate::span::Span;
use crate::text::{join, join_text, nat_text, owned, push_usize, views};
use vstd::prelude::*;

verus! {

/// What stops an instantiation.
#[derive(Debug)]
pub enum InstantiateError {
    ModelNotFound { name: String },
    /// Components are nested deeper than allowed.
    DepthLimit { path: String, depth: usize, limit: usize, span: Span },
    /// A class contains itself.
    Cycle { cycle: String, span: Span },
    InnerOuterTypeMismatch { name: String, outer_type: String, inner_type: String, span: Span },
    /// A component of a partial class.
    PartialClass { path: String, type_text: String, span: Span },
    UnresolvedType { path: String, type_text: String, span: Span },
    /// An attribute that the type of a component forbids to modify.
    FinalAttribute { path: String, attribute: String, span: Span },
    /// A connection that depends on something that is not known.
    UnknownConnection { path: String, span: Span },
    MissingSourceContext { context: &'static str },
    MissingInners { names: Vec<String> },
    /// There are no identities left.
    TooManyInstances,
}

pub enum InstantiateErrorView {
    ModelNotFound { name: Seq<char> },
    DepthLimit { path: Seq<char>, depth: nat, limit: usize, span: Span },
    Cycle { cycle: Seq<char>, span: Span },
    InnerOuterTypeMismatch {
        name: Seq<char>,
        outer_type: Seq<char>,
        inner_type: Seq<char>,
        span: Span,
    },
    PartialClass { path: Seq<char>, type_text: Seq<char>, span: Span },
    UnresolvedType { path: Seq<char>, type_text: Seq<char>, span: Span },
    FinalAttribute { path: Seq<char>, attribute: Seq<char>, span: Span },
    UnknownConnection { path: Seq<char>, span: Span },
    MissingSourceContext { context: Seq<char> },
    MissingInners { names: Seq<Seq<char>> },
    TooManyInstances,
}

impl View for InstantiateError {
    type V = InstantiateErrorView;

    open spec fn view(&self) -> InstantiateErrorView {
        match *self {
            InstantiateError::ModelNotFound { name } => InstantiateErrorView::ModelNotFound {
                name: name@,
            },
            InstantiateError::DepthLimit { path, depth, limit, span } =>
            InstantiateErrorView::DepthLimit { path: path@, depth: depth as nat, limit, span },
            InstantiateError::Cycle { cycle, span } => InstantiateErrorView::Cycle {
                cycle: cycle@,
                span,
            },
            InstantiateError::InnerOuterTypeMismatch { name, outer_type, inner_type, span } =>
            InstantiateErrorView::InnerOuterTypeMismatch {
                name: name@,
                outer_type: outer_type@,
                inner_type: inner_type@,
                span,
            },
            InstantiateError::PartialClass { path, type_text, span } =>
            InstantiateErrorView::PartialClass { path: path@, type_text: type_text@, span },
            InstantiateError::UnresolvedType { path, type_text, span } =>
            InstantiateErrorView::UnresolvedType { path: path@, type_text: type_text@, span },
            InstantiateError::FinalAttribute { path, attribute, span } =>
            InstantiateErrorView::FinalAttribute { path: path@, attribute: attribute@, span },
            InstantiateError::UnknownConnection { path, span } =>
            InstantiateErrorView::UnknownConnection { path: path@, span },
            InstantiateError::MissingSourceContext { context } =>
            InstantiateErrorView::MissingSourceContext { context: context@ },
            InstantiateError::MissingInners { names } => InstantiateErrorView::MissingInners {
                names: views(names@),
            },
            InstantiateError::TooManyInstances => InstantiateErrorView::TooManyInstances,
        }
    }
}

impl InstantiateErrorView {
    /// The error in words.
    pub open spec fn message(self) -> Seq<char> {
        match self {
            InstantiateErrorView::ModelNotFound { name } => "model not found: "@ + name,
            InstantiateErrorView::DepthLimit { path, depth, limit, span } => "instantiation of "@
                + path + " is "@ + nat_text(depth) + " deep, more than "@ + nat_text(
                limit as nat,
            ),
            InstantiateErrorView::Cycle { cycle, span } => "instantiation cycle: "@ + cycle,
            InstantiateErrorView::InnerOuterTypeMismatch { name, outer_type, inner_type, span } =>
            "outer "@ + name + " has type "@ + outer_type + " but inner has type "@ + inner_type,
            InstantiateErrorView::PartialClass { path, type_text, span } => "component "@ + path
                + " has partial type "@ + type_text,
            InstantiateErrorView::UnresolvedType { path, type_text, span } => "component "@ + path
                + " has unknown type "@ + type_text,
            InstantiateErrorView::FinalAttribute { path, attribute, span } => "attribute "@
                + attribute + " of component "@ + path + " is final"@,
            InstantiateErrorView::UnknownConnection { path, span } =>
            "a connection depends on what is not known in "@ + path,
            InstantiateErrorView::MissingSourceContext { context } => context
                + " is missing source provenance"@,
            InstantiateErrorView::MissingInners { names } => "missing inner declarations: "@
                + join_text(names, ", "@),
            InstantiateErrorView::TooManyInstances => "too many instances"@,
        }
    }
}

impl InstantiateError {
    /// The error in words.
    pub fn message(&self) -> (s: String)
        ensures
            s@ == self@.message(),
    {
        match self {
            InstantiateError::ModelNotFound { name } => {
                let mut s = owned("model not found: ");
                s.append(name.as_str());
                s
            },
            InstantiateError::DepthLimit { path, depth, limit, .. } => {
                let mut s = owned("instantiation of ");
                s.append(path.as_str());
                s.append(" is ");
                push_usize(&mut s, *depth);
                s.append(" deep, more than ");
                push_usize(&mut s, *limit);
                s
            },
            InstantiateError::Cycle { cycle, .. } => {
                let mut s = owned("instantiation cycle: ");
                s.append(cycle.as_str());
                s
            },
            InstantiateError::InnerOuterTypeMismatch { name, outer_type, inner_type, .. } => {
                let mut s = owned("outer ");
                s.append(name.as_str());
                s.append(" has type ");
                s.append(outer_type.as_str());
                s.append(" but inner has type ");
                s.append(inner_type.as_str());
                s
            },
            InstantiateError::PartialClass { path, type_text, .. } => {
                let mut s = owned("component ");
                s.append(path.as_str());
                s.append(" has partial type ");
                s.append(type_text.as_str());
                s
            },
            InstantiateError::UnresolvedType { path, type_text, .. } => {
                let mut s = owned("component ");
                s.append(path.as_str());
                s.append(" has unknown type ");
                s.append(type_text.as_str());
                s
            },
            InstantiateError::FinalAttribute { path, attribute, .. } => {
                let mut s = owned("attribute ");
                s.append(attribute.as_str());
                s.append(" of component ");
                s.append(path.as_str());
                s.append(" is final");
                s
            },
            InstantiateError::UnknownConnection { path, .. } => {
                let mut s = owned("a connection depends on what is not known in ");
                s.append(path.as_str());
                s
            },
            InstantiateError::MissingSourceContext { context } => {
                let mut s = owned(*context);
                s.append(" is missing source provenance");
                s
            },
            InstantiateError::MissingInners { names } => {
                let mut s = owned("missing inner declarations: ");
                s.append(join(names, ", ").as_str());
                s
            },
            InstantiateError::TooManyInstances => owned("too many instances"),
        }
    }
}

/// A source position that has to be known.
pub open spec fn known_span(span: Span, context: Seq<char>) -> Result<Span, InstantiateErrorView> {
    if span == Span::dummy_spec() {
        Err(InstantiateErrorView::MissingSourceContext { context })
    } else {
        Ok(span)
    }
}

/// A source position that has to be known.
pub fn location_to_span(span: Span, context: &'static str) -> (r: Result<Span, InstantiateError>)
    ensures
        match r {
            Ok(s) => known_span(span, context@) == Ok::<_, InstantiateErrorView>(s),
            Err(e) => known_span(span, context@) == Err::<Span, _>(e@),
        },
{
    if span.is_dummy() {
        Err(InstantiateError::MissingSourceContext { context })
    } else {
        Ok(span)
    }
}

} // verus!
