//! Why a document could not be turned into a tree.

use vstd::prelude::*;
use vstd::string::StringExecFns;

verus! {

/// The step at which a document was given up.
#[derive(Debug, Clone, Copy, PartialEq, Eq, Structural)]
pub enum Stage {
    /// The tokenizer found no well-formed markup.
    Reading,
    /// A tag name is not UTF-8 text.
    TagName,
    /// An attribute name is not UTF-8 text.
    AttributeKey,
    /// An attribute value holds a reference that cannot be resolved.
    AttributeValue,
    /// A text holds a reference that cannot be resolved.
    Text,
}

/// The kinds of failure that callers tell apart.
#[derive(Debug, Clone, Copy, PartialEq, Eq, Structural)]
pub enum ErrorKind {
    MalformedXml,
    InvalidTagName,
    InvalidAttributeKey,
    InvalidEscapeSequence,
}

impl Stage {
    /// The kind of failure that giving up at this step amounts to.
    pub open spec fn spec_kind(self) -> ErrorKind {
        match self {
            Stage::Reading => ErrorKind::MalformedXml,
            Stage::TagName => ErrorKind::InvalidTagName,
            Stage::AttributeKey => ErrorKind::InvalidAttributeKey,
            Stage::AttributeValue => ErrorKind::InvalidEscapeSequence,
            Stage::Text => ErrorKind::InvalidEscapeSequence,
        }
    }

    /// How a message about this step begins.
    pub open spec fn spec_prefix(self) -> Seq<char> {
        match self {
            Stage::Reading => "Error parsing XML: "@,
            Stage::TagName => "Error parsing tag name: "@,
            Stage::AttributeKey => "Error parsing attribute key: "@,
            Stage::AttributeValue => "Error parsing attribute value: "@,
            Stage::Text => "Error parsing text: "@,
        }
    }

    /// The kind of failure that giving up at this step amounts to.
    #[verifier::when_used_as_spec(spec_kind)]
    pub fn kind(self) -> (kind: ErrorKind)
        ensures
            kind == self.spec_kind(),
    {
        match self {
            Stage::Reading => ErrorKind::MalformedXml,
            Stage::TagName => ErrorKind::InvalidTagName,
            Stage::AttributeKey => ErrorKind::InvalidAttributeKey,
            Stage::AttributeValue => ErrorKind::InvalidEscapeSequence,
            Stage::Text => ErrorKind::InvalidEscapeSequence,
        }
    }

    /// How a message about this step begins.
    pub fn prefix(self) -> (text: &'static str)
        ensures
            text@ == self.spec_prefix(),
    {
        match self {
            Stage::Reading => "Error parsing XML: ",
            Stage::TagName => "Error parsing tag name: ",
            Stage::AttributeKey => "Error parsing attribute key: ",
            Stage::AttributeValue => "Error parsing attribute value: ",
            Stage::Text => "Error parsing text: ",
        }
    }
}

/// The model of a [`ParseError`].
pub struct ErrorView {
    pub stage: Stage,
    pub cause: Seq<char>,
}

impl ErrorView {
    /// The whole message: what was being done, then what went wrong.
    pub open spec fn message(self) -> Seq<char> {
        self.stage.spec_prefix() + self.cause
    }
}

/// A failed conversion: the step that failed and what the tokenizer said about it.
#[derive(Debug, PartialEq, Eq)]
pub struct ParseError {
    stage: Stage,
    cause: String,
}

impl View for ParseError {
    type V = ErrorView;

    closed spec fn view(&self) -> ErrorView {
        ErrorView { stage: self.stage, cause: self.cause@ }
    }
}

impl ParseError {
    /// The failure at `stage` of which the tokenizer said `cause`.
    pub fn new(stage: Stage, cause: String) -> (error: ParseError)
        ensures
            error@ == (ErrorView { stage, cause: cause@ }),
    {
        ParseError { stage, cause }
    }

    /// The step that failed.
    pub fn stage(&self) -> (stage: Stage)
        ensures
            stage == self@.stage,
    {
        self.stage
    }

    /// The kind of failure.
    pub fn kind(&self) -> (kind: ErrorKind)
        ensures
            kind == self@.stage.spec_kind(),
    {
        self.stage.kind()
    }

    /// What the tokenizer said went wrong.
    pub fn cause(&self) -> (cause: &str)
        ensures
            cause@ == self@.cause,
    {
        self.cause.as_str()
    }

    /// The whole message: what was being done, then what went wrong.
    pub fn message(&self) -> (text: String)
        ensures
            text@ == self@.message(),
    {
        let mut text = self.stage.prefix().to_owned();
        text.append(self.cause.as_str());
        text
    }
}

} // verus!
