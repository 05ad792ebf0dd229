//! What can go wrong while a layered configuration is resolved.

use crate::identifiers::{IdentifierKind, ParseError, ParseErrorView};
use crate::layer::LayerScope;
use crate::value::NestedKind;
use vstd::prelude::*;

verus! {

/// The two paths that every resolved configuration must have.
#[derive(Clone, Copy, Debug, PartialEq, Eq, Hash, Structural)]
pub enum RequiredPath {
    Artifact,
    TargetSpecs,
}

/// The reason a configuration could not be resolved.
#[derive(Clone, Debug, PartialEq, Eq)]
pub enum ResolutionError {
    /// A requested target, platform or profile is not in its closed set.
    UnknownIdentifier { kind: IdentifierKind, input: String },
    /// Two sections are written for the same scope.
    DuplicateLayerDefinition { scope: LayerScope },
    /// A section gives the same property twice.
    DuplicatePropertyName { scope: LayerScope, name: String },
    /// A section gives a property an array or a table.
    UnsupportedNestedValue { scope: LayerScope, name: String, found: NestedKind },
    /// Neither the global section nor a selected one gives the path.
    MissingRequiredPath { path: RequiredPath },
}

/// Mathematical model of a [`ResolutionError`].
pub enum ResolutionErrorView {
    UnknownIdentifier { kind: IdentifierKind, input: Seq<char> },
    DuplicateLayerDefinition { scope: LayerScope },
    DuplicatePropertyName { scope: LayerScope, name: Seq<char> },
    UnsupportedNestedValue { scope: LayerScope, name: Seq<char>, found: NestedKind },
    MissingRequiredPath { path: RequiredPath },
}

impl View for ResolutionError {
    type V = ResolutionErrorView;

    open spec fn view(&self) -> ResolutionErrorView {
        match *self {
            ResolutionError::UnknownIdentifier { kind, input } => {
                ResolutionErrorView::UnknownIdentifier { kind, input: input@ }
            },
            ResolutionError::DuplicateLayerDefinition { scope } => {
                ResolutionErrorView::DuplicateLayerDefinition { scope }
            },
            ResolutionError::DuplicatePropertyName { scope, name } => {
                ResolutionErrorView::DuplicatePropertyName { scope, name: name@ }
            },
            ResolutionError::UnsupportedNestedValue { scope, name, found } => {
                ResolutionErrorView::UnsupportedNestedValue { scope, name: name@, found }
            },
            ResolutionError::MissingRequiredPath { path } => {
                ResolutionErrorView::MissingRequiredPath { path }
            },
        }
    }
}

/// The resolution error that stands for a parse error.
pub open spec fn unknown_identifier(e: ParseErrorView) -> ResolutionErrorView {
    match e {
        ParseErrorView::UnknownIdentifier { kind, input } => {
            ResolutionErrorView::UnknownIdentifier { kind, input }
        },
    }
}

impl ResolutionError {
    /// Carries a rejected identifier over into a resolution error.
    pub fn from_parse_error(e: ParseError) -> (r: ResolutionError)
        ensures
            r@ == unknown_identifier(e@),
    {
        match e {
            ParseError::UnknownIdentifier { kind, input } => {
                ResolutionError::UnknownIdentifier { kind, input }
            },
        }
    }
}

} // verus!
