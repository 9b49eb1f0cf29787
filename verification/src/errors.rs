//! Error values of the engine: hard failures of parsing, bundle construction
//! and rendering, and the soft resolution problems collected while rendering.

use vstd::prelude::*;

verus! {

/// Why a resource text was rejected.
#[derive(Clone, Copy, Debug, PartialEq, Eq, Structural)]
pub enum ParseErrorKind {
    /// A `{` was not matched by a `}` before the end of its pattern body.
    UnterminatedPlaceable,
    /// The same message id was defined twice in one resource.
    DuplicateMessageId,
    /// A definition line or a placeable holds a malformed identifier.
    InvalidIdentifier,
    /// The same attribute id was defined twice on one message.
    DuplicateAttributeId,
    /// An attribute or continuation line with no message before it.
    UnattachedLine,
}

/// Model of a parse error: its kind and the text it complains of.
pub struct ParseErrModel {
    pub kind: ParseErrorKind,
    pub detail: Seq<char>,
}

/// A hard parse failure; `detail` holds the offending text.
#[derive(Debug)]
pub struct ParseError {
    pub kind: ParseErrorKind,
    pub detail: String,
}

impl View for ParseError {
    type V = ParseErrModel;

    open spec fn view(&self) -> ParseErrModel {
        ParseErrModel { kind: self.kind, detail: self.detail@ }
    }
}

/// What went wrong, non-fatally, while rendering a pattern.
#[derive(Clone, Copy, Debug, PartialEq, Eq, Structural)]
pub enum ResolutionErrorKind {
    /// A placeable referenced an argument the caller did not supply.
    MissingArgument,
    /// A message id that the bundle does not hold.
    UnknownMessage,
    /// A rendered pattern with no elements at all.
    EmptyPattern,
}

/// Model of a resolution problem.
pub struct ResolutionErrModel {
    pub kind: ResolutionErrorKind,
    pub detail: Seq<char>,
}

/// A non-fatal resolution problem, collected while rendering continues;
/// `detail` names the argument or message concerned.
#[derive(Debug)]
pub struct ResolutionError {
    pub kind: ResolutionErrorKind,
    pub detail: String,
}

impl View for ResolutionError {
    type V = ResolutionErrModel;

    open spec fn view(&self) -> ResolutionErrModel {
        ResolutionErrModel { kind: self.kind, detail: self.detail@ }
    }
}

/// The model of a collected error sequence.
pub open spec fn errs_model(s: Seq<ResolutionError>) -> Seq<ResolutionErrModel> {
    s.map_values(|e: ResolutionError| e@)
}

/// Why a render request failed outright.
#[derive(Debug)]
pub enum RenderError {
    /// The requested message id is not in the bundle.
    UnknownMessage(String),
}

/// Why a bundle could not be built.
#[derive(Debug)]
pub enum BundleError {
    /// The locale tag does not conform to the language-tag grammar.
    InvalidLocale(String),
    /// The resource text was rejected; no bundle is produced.
    ParseFailure(ParseError),
}

} // verus!
