//! Errors of managed-context loading, construction and publication.

use vstd::prelude::*;

use crate::allocation::RuleIdTreeError;
use crate::text::{decimal, decimal_string, join, join3};

verus! {

/// Errors returned by managed-context loading, construction, or publication.
#[derive(Debug)]
pub enum ContextError {
    /// CBOR was malformed, incomplete, non-complete, or had duplicate map keys.
    Cbor(String),
    /// The same input could not be loaded by one of the two model libraries.
    Model(String),
    /// The SCHC rule context could not be constructed.
    Schc(String),
    /// The runtime could not be constructed.
    Runtime(String),
    /// A candidate tree was not the canonical complete tree.
    NonCanonicalCandidate,
    /// A protected rule was added, removed, re-identified, re-natured, or
    /// changed.
    ProtectedRuleChanged(String),
    /// Candidate construction parameters differ from those of the active
    /// context.
    CandidateRecipeMismatch,
    /// A model operation failed.
    Rustconf(String),
    /// A rule that an explicit policy names is not in the context.
    MissingProtectedRule {
        /// Numeric rule identity value.
        value: u64,
        /// Rule identity bit length.
        bit_len: usize,
    },
    /// The dynamic identity tree was rejected.
    RuleIdTree(RuleIdTreeError),
    /// Another preparation is waiting for its transaction.
    PreparationBusy,
    /// A transaction is not one that the context takes part in.
    UnsupportedTransaction(String),
}

/// A context error as a mathematical value.
pub enum ContextFault {
    /// CBOR was malformed, incomplete, non-complete, or had duplicate map keys.
    Cbor(Seq<char>),
    /// The same input could not be loaded by one of the two model libraries.
    Model(Seq<char>),
    /// The SCHC rule context could not be constructed.
    Schc(Seq<char>),
    /// The runtime could not be constructed.
    Runtime(Seq<char>),
    /// A candidate tree was not the canonical complete tree.
    NonCanonicalCandidate,
    /// A protected rule was added, removed, re-identified, re-natured, or
    /// changed.
    ProtectedRuleChanged(Seq<char>),
    /// Candidate construction parameters differ from those of the active
    /// context.
    CandidateRecipeMismatch,
    /// A model operation failed.
    Rustconf(Seq<char>),
    /// A rule that an explicit policy names is not in the context.
    MissingProtectedRule(u64, usize),
    /// The dynamic identity tree was rejected, with the text of its error.
    RuleIdTree(Seq<char>),
    /// Another preparation is waiting for its transaction.
    PreparationBusy,
    /// A transaction is not one that the context takes part in.
    UnsupportedTransaction(Seq<char>),
}

impl View for ContextError {
    type V = ContextFault;

    open spec fn view(&self) -> ContextFault {
        match self {
            ContextError::Cbor(text) => ContextFault::Cbor(text@),
            ContextError::Model(text) => ContextFault::Model(text@),
            ContextError::Schc(text) => ContextFault::Schc(text@),
            ContextError::Runtime(text) => ContextFault::Runtime(text@),
            ContextError::NonCanonicalCandidate => ContextFault::NonCanonicalCandidate,
            ContextError::ProtectedRuleChanged(text) => ContextFault::ProtectedRuleChanged(text@),
            ContextError::CandidateRecipeMismatch => ContextFault::CandidateRecipeMismatch,
            ContextError::Rustconf(text) => ContextFault::Rustconf(text@),
            ContextError::MissingProtectedRule { value, bit_len } => {
                ContextFault::MissingProtectedRule(*value, *bit_len)
            },
            ContextError::RuleIdTree(error) => ContextFault::RuleIdTree(error.described()),
            ContextError::PreparationBusy => ContextFault::PreparationBusy,
            ContextError::UnsupportedTransaction(text) => ContextFault::UnsupportedTransaction(
                text@,
            ),
        }
    }
}

impl ContextFault {
    /// The text that describes this error.
    pub open spec fn described(self) -> Seq<char> {
        match self {
            ContextFault::Cbor(text) => "invalid complete CBOR: "@ + text,
            ContextFault::Model(text) => "model loading failed: "@ + text,
            ContextFault::Schc(text) => "SCHC context construction failed: "@ + text,
            ContextFault::Runtime(text) => "SCHC runtime construction failed: "@ + text,
            ContextFault::NonCanonicalCandidate => "candidate tree is not canonical"@,
            ContextFault::ProtectedRuleChanged(text) => "protected management rule changed: "@
                + text,
            ContextFault::CandidateRecipeMismatch => {
                "candidate construction parameters differ from the active context"@
            },
            ContextFault::Rustconf(text) => "rustconf error: "@ + text,
            ContextFault::MissingProtectedRule(value, bit_len) => "protected RuleID "@ + decimal(
                value as nat,
            ) + "/"@ + decimal(bit_len as nat) + " is absent from the context"@,
            ContextFault::RuleIdTree(text) => text,
            ContextFault::PreparationBusy => "a context preparation is already in progress"@,
            ContextFault::UnsupportedTransaction(text) => "unsupported transaction: "@ + text,
        }
    }
}

impl ContextError {
    /// Describes this error.
    pub fn message(&self) -> (result: String)
        ensures
            result@ == self@.described(),
    {
        match self {
            ContextError::Cbor(text) => join("invalid complete CBOR: ", text.as_str()),
            ContextError::Model(text) => join("model loading failed: ", text.as_str()),
            ContextError::Schc(text) => join("SCHC context construction failed: ", text.as_str()),
            ContextError::Runtime(text) => join(
                "SCHC runtime construction failed: ",
                text.as_str(),
            ),
            ContextError::NonCanonicalCandidate => "candidate tree is not canonical".to_owned(),
            ContextError::ProtectedRuleChanged(text) => join(
                "protected management rule changed: ",
                text.as_str(),
            ),
            ContextError::CandidateRecipeMismatch => {
                "candidate construction parameters differ from the active context".to_owned()
            },
            ContextError::Rustconf(text) => join("rustconf error: ", text.as_str()),
            ContextError::MissingProtectedRule { value, bit_len } => {
                let head = join3("protected RuleID ", decimal_string(*value).as_str(), "/");
                join3(
                    head.as_str(),
                    decimal_string(*bit_len as u64).as_str(),
                    " is absent from the context",
                )
            },
            ContextError::RuleIdTree(error) => error.message(),
            ContextError::PreparationBusy => {
                "a context preparation is already in progress".to_owned()
            },
            ContextError::UnsupportedTransaction(text) => join(
                "unsupported transaction: ",
                text.as_str(),
            ),
        }
    }
}

pub(crate) fn cbor_error(message: &str) -> (result: ContextError)
    ensures
        result@ == ContextFault::Cbor(message@),
{
    ContextError::Cbor(message.to_owned())
}

pub(crate) fn model_error(message: &str) -> (result: ContextError)
    ensures
        result@ == ContextFault::Model(message@),
{
    ContextError::Model(message.to_owned())
}

/// The error about a protected rule that is missing names it by value and
/// length.
pub proof fn missing_protected_rule_is_named(value: u64, bit_len: usize)
    ensures
        ContextFault::MissingProtectedRule(value, bit_len).described() == "protected RuleID "@
            + decimal(value as nat) + "/"@ + decimal(bit_len as nat)
            + " is absent from the context"@,
{
}

} // verus!
