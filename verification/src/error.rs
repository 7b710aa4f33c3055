//! The ways in which a translation fails.

use vstd::prelude::*;
use vstd::string::*;
use crate::expr::NodeKind;

verus! {

/// Why a translation was given up. Nothing is produced beside an error.
#[derive(Clone, Debug, PartialEq, Eq)]
pub enum TranslateError {
    /// A call whose callee is neither an identifier nor a member access; the kind
    /// of node found in its place is given.
    InvalidCallee(NodeKind),
    /// A node without a translation stood where a value was needed; the node's
    /// own description is given.
    UnsupportedNode(String),
    /// An impersonation directive that names an actor was called without one.
    MissingActor,
    /// An assertion was called without an operand.
    MissingOperand,
    /// No contract of the unit is named as a test contract.
    NoTestContract,
    /// A test function has no body.
    MissingBody,
    /// A text that should be a document is none.
    NotADocument,
}

/// What an error holds, with its text as a sequence of characters.
pub enum ErrorView {
    InvalidCallee(NodeKind),
    UnsupportedNode(Seq<char>),
    MissingActor,
    MissingOperand,
    NoTestContract,
    MissingBody,
    NotADocument,
}

impl View for TranslateError {
    type V = ErrorView;

    open spec fn view(&self) -> ErrorView {
        match *self {
            TranslateError::InvalidCallee(kind) => ErrorView::InvalidCallee(kind),
            TranslateError::UnsupportedNode(description) => ErrorView::UnsupportedNode(
                description@,
            ),
            TranslateError::MissingActor => ErrorView::MissingActor,
            TranslateError::MissingOperand => ErrorView::MissingOperand,
            TranslateError::NoTestContract => ErrorView::NoTestContract,
            TranslateError::MissingBody => ErrorView::MissingBody,
            TranslateError::NotADocument => ErrorView::NotADocument,
        }
    }
}

/// The words for a kind of node.
pub open spec fn kind_words(kind: NodeKind) -> Seq<char> {
    match kind {
        NodeKind::Literal => "a literal"@,
        NodeKind::Identifier => "an identifier"@,
        NodeKind::MemberAccess => "a member access"@,
        NodeKind::Call => "a call"@,
        NodeKind::ArrayLiteral => "an array literal"@,
        NodeKind::Unsupported => "an unsupported node"@,
    }
}

impl ErrorView {
    /// The sentence for each error.
    pub open spec fn sentence(self) -> Seq<char> {
        match self {
            ErrorView::InvalidCallee(kind) => "invalid callee: found "@ + kind_words(kind),
            ErrorView::UnsupportedNode(description) => "unsupported node where a value is required: "@
                + description,
            ErrorView::MissingActor => "impersonation directive without an actor"@,
            ErrorView::MissingOperand => "assertion without an operand"@,
            ErrorView::NoTestContract => "No test contract found"@,
            ErrorView::MissingBody => "Function body not found"@,
            ErrorView::NotADocument => "text is no document"@,
        }
    }
}

impl TranslateError {
    /// A sentence that says what went wrong.
    pub fn message(&self) -> (r: String)
        ensures
            r@ == self@.sentence(),
    {
        match self {
            TranslateError::InvalidCallee(kind) => {
                let mut text = String::from_str("invalid callee: found ");
                match kind {
                    NodeKind::Literal => text.append("a literal"),
                    NodeKind::Identifier => text.append("an identifier"),
                    NodeKind::MemberAccess => text.append("a member access"),
                    NodeKind::Call => text.append("a call"),
                    NodeKind::ArrayLiteral => text.append("an array literal"),
                    NodeKind::Unsupported => text.append("an unsupported node"),
                }
                text
            },
            TranslateError::UnsupportedNode(description) => {
                let mut text = String::from_str("unsupported node where a value is required: ");
                text.append(description.as_str());
                text
            },
            TranslateError::MissingActor => String::from_str(
                "impersonation directive without an actor",
            ),
            TranslateError::MissingOperand => String::from_str("assertion without an operand"),
            TranslateError::NoTestContract => String::from_str("No test contract found"),
            TranslateError::MissingBody => String::from_str("Function body not found"),
            TranslateError::NotADocument => String::from_str("text is no document"),
        }
    }
}

} // verus!
