//! Errors of inspection, management and the link.

use vstd::prelude::*;

use crate::allocation::RuleIdTreeError;
use crate::link_types::LinkError;
use crate::rule_text::{entries_view, EntryView, RuleEntry};
use crate::selector::RuleSelector;
use crate::text::{decimal, decimal_string, join, join3};

verus! {

/// Errors returned by context inspection and its protected exchange.
#[derive(Debug)]
pub enum InspectionError {
    /// A rule selector was malformed or out of range.
    InvalidSelector(String),
    /// A requested rule was not found.
    MissingRule {
        /// Numeric rule identity value.
        value: u64,
        /// Rule identity bit length.
        bits: usize,
    },
    /// A result contained more than one matching rule.
    AmbiguousRule {
        /// Numeric rule identity value.
        value: u64,
        /// Rule identity bit length.
        bits: usize,
        /// Number of matching rules.
        matches: usize,
    },
    /// A targeted rule-update command was malformed.
    InvalidUpdate(String),
    /// No entry matched a targeted update selector.
    MissingEntry {
        /// Exact identity of the rule searched.
        rule: RuleSelector,
        /// Human-readable selector description.
        selector: String,
    },
    /// More than one entry matched a targeted update selector.
    AmbiguousEntry {
        /// Exact identity of the rule searched.
        rule: RuleSelector,
        /// Human-readable selector description.
        selector: String,
        /// Complete entries that matched, in canonical order.
        matches: Vec<RuleEntry>,
        /// Stable formatted representation of the matching entries.
        readable_matches: String,
    },
    /// A target-value update could not be converted to the selected shape.
    InvalidTarget(String),
    /// The local management datastore or model rejected a request.
    Datastore(String),
    /// A CoAP request or response could not be represented.
    Coap(String),
    /// A CoAP token exceeded the protocol's eight-byte limit.
    InvalidToken(String),
    /// A protected link operation failed.
    Link(LinkError),
    /// The protected response did not match its request.
    Correlation(String),
    /// The remote endpoint returned unexpected content.
    UnexpectedResponse(String),
    /// Automatic flow management requires an explicit dynamic identity tree.
    MissingDynamicRuleIdNamespace,
    /// The configured dynamic identity tree rejected allocation or validation.
    RuleIdTree(RuleIdTreeError),
    /// A flow contains a field that no duplicate operation can represent.
    UnrepresentableFlow(String),
}

/// An inspection error as a mathematical value.
pub enum Fault {
    /// A rule selector was malformed or out of range.
    InvalidSelector(Seq<char>),
    /// A requested rule was not found.
    MissingRule(u64, usize),
    /// A result contained more than one matching rule.
    AmbiguousRule(u64, usize, usize),
    /// A targeted rule-update command was malformed.
    InvalidUpdate(Seq<char>),
    /// No entry matched a targeted update selector.
    MissingEntry(RuleSelector, Seq<char>),
    /// More than one entry matched a targeted update selector.
    AmbiguousEntry(RuleSelector, Seq<char>, Seq<EntryView>, Seq<char>),
    /// A target-value update could not be converted to the selected shape.
    InvalidTarget(Seq<char>),
    /// The local management datastore or model rejected a request.
    Datastore(Seq<char>),
    /// A CoAP request or response could not be represented.
    Coap(Seq<char>),
    /// A CoAP token exceeded the protocol's eight-byte limit.
    InvalidToken(Seq<char>),
    /// A protected link operation failed, with the text of its error.
    Link(Seq<char>),
    /// The protected response did not match its request.
    Correlation(Seq<char>),
    /// The remote endpoint returned unexpected content.
    UnexpectedResponse(Seq<char>),
    /// Automatic flow management requires an explicit dynamic identity tree.
    MissingDynamicRuleIdNamespace,
    /// The dynamic identity tree rejected allocation, with the text of its
    /// error.
    RuleIdTree(Seq<char>),
    /// A flow contains a field that no duplicate operation can represent.
    UnrepresentableFlow(Seq<char>),
}

impl View for InspectionError {
    type V = Fault;

    open spec fn view(&self) -> Fault {
        match self {
            InspectionError::InvalidSelector(text) => Fault::InvalidSelector(text@),
            InspectionError::MissingRule { value, bits } => Fault::MissingRule(*value, *bits),
            InspectionError::AmbiguousRule { value, bits, matches } => Fault::AmbiguousRule(
                *value,
                *bits,
                *matches,
            ),
            InspectionError::InvalidUpdate(text) => Fault::InvalidUpdate(text@),
            InspectionError::MissingEntry { rule, selector } => Fault::MissingEntry(
                *rule,
                selector@,
            ),
            InspectionError::AmbiguousEntry { rule, selector, matches, readable_matches } => {
                Fault::AmbiguousEntry(
                    *rule,
                    selector@,
                    entries_view(matches@),
                    readable_matches@,
                )
            },
            InspectionError::InvalidTarget(text) => Fault::InvalidTarget(text@),
            InspectionError::Datastore(text) => Fault::Datastore(text@),
            InspectionError::Coap(text) => Fault::Coap(text@),
            InspectionError::InvalidToken(text) => Fault::InvalidToken(text@),
            InspectionError::Link(error) => Fault::Link(error.described()),
            InspectionError::Correlation(text) => Fault::Correlation(text@),
            InspectionError::UnexpectedResponse(text) => Fault::UnexpectedResponse(text@),
            InspectionError::MissingDynamicRuleIdNamespace => Fault::MissingDynamicRuleIdNamespace,
            InspectionError::RuleIdTree(error) => Fault::RuleIdTree(error.described()),
            InspectionError::UnrepresentableFlow(text) => Fault::UnrepresentableFlow(text@),
        }
    }
}

impl Fault {
    /// The text that describes this error.
    pub open spec fn described(self) -> Seq<char> {
        match self {
            Fault::InvalidSelector(text) => "invalid RuleID selector: "@ + text,
            Fault::MissingRule(value, bits) => "RuleID "@ + decimal(value as nat) + "/"@ + decimal(
                bits as nat,
            ) + " was not found"@,
            Fault::AmbiguousRule(value, bits, matches) => "RuleID "@ + decimal(value as nat) + "/"@
                + decimal(bits as nat) + " was ambiguous ("@ + decimal(matches as nat)
                + " matches)"@,
            Fault::InvalidUpdate(text) => "invalid rule update command: "@ + text,
            Fault::MissingEntry(rule, selector) => "RuleID "@ + rule.spelled()
                + " has no entry matching "@ + selector,
            Fault::AmbiguousEntry(rule, selector, _, readable) => "RuleID "@ + rule.spelled()
                + " selector "@ + selector + " was ambiguous; matching entries:\n"@ + readable,
            Fault::InvalidTarget(text) => "invalid targeted rule update: "@ + text,
            Fault::Datastore(text) => "management datastore error: "@ + text,
            Fault::Coap(text) => "management CoAP error: "@ + text,
            Fault::InvalidToken(text) => "invalid CoAP token: "@ + text,
            Fault::Link(text) => "management SCHC link error: "@ + text,
            Fault::Correlation(text) => "management response correlation failed: "@ + text,
            Fault::UnexpectedResponse(text) => "unexpected management response: "@ + text,
            Fault::MissingDynamicRuleIdNamespace => {
                "automatic flow management requires an explicit dynamic RuleID namespace"@
            },
            Fault::RuleIdTree(text) => "dynamic RuleID allocation failed: "@ + text,
            Fault::UnrepresentableFlow(text) => {
                "flow cannot be represented by duplicate-rule management: "@ + text
            },
        }
    }
}

impl InspectionError {
    /// Describes this error.
    pub fn message(&self) -> (result: String)
        ensures
            result@ == self@.described(),
    {
        match self {
            InspectionError::InvalidSelector(text) => join(
                "invalid RuleID selector: ",
                text.as_str(),
            ),
            InspectionError::MissingRule { value, bits } => {
                let id = join3(
                    decimal_string(*value).as_str(),
                    "/",
                    decimal_string(*bits as u64).as_str(),
                );
                let result = join3("RuleID ", id.as_str(), " was not found");
                assert(result@ =~= self@.described());
                result
            },
            InspectionError::AmbiguousRule { value, bits, matches } => {
                let id = join3(
                    decimal_string(*value).as_str(),
                    "/",
                    decimal_string(*bits as u64).as_str(),
                );
                let head = join3("RuleID ", id.as_str(), " was ambiguous (");
                let result = join3(
                    head.as_str(),
                    decimal_string(*matches as u64).as_str(),
                    " matches)",
                );
                assert(result@ =~= self@.described());
                result
            },
            InspectionError::InvalidUpdate(text) => join(
                "invalid rule update command: ",
                text.as_str(),
            ),
            InspectionError::MissingEntry { rule, selector } => join(
                join3("RuleID ", rule.to_text().as_str(), " has no entry matching ").as_str(),
                selector.as_str(),
            ),
            InspectionError::AmbiguousEntry { rule, selector, readable_matches, .. } => {
                let head = join3("RuleID ", rule.to_text().as_str(), " selector ");
                let middle = join3(
                    head.as_str(),
                    selector.as_str(),
                    " was ambiguous; matching entries:\n",
                );
                join(middle.as_str(), readable_matches.as_str())
            },
            InspectionError::InvalidTarget(text) => join(
                "invalid targeted rule update: ",
                text.as_str(),
            ),
            InspectionError::Datastore(text) => join(
                "management datastore error: ",
                text.as_str(),
            ),
            InspectionError::Coap(text) => join("management CoAP error: ", text.as_str()),
            InspectionError::InvalidToken(text) => join("invalid CoAP token: ", text.as_str()),
            InspectionError::Link(error) => join(
                "management SCHC link error: ",
                error.message().as_str(),
            ),
            InspectionError::Correlation(text) => join(
                "management response correlation failed: ",
                text.as_str(),
            ),
            InspectionError::UnexpectedResponse(text) => join(
                "unexpected management response: ",
                text.as_str(),
            ),
            InspectionError::MissingDynamicRuleIdNamespace => {
                "automatic flow management requires an explicit dynamic RuleID namespace".to_owned()
            },
            InspectionError::RuleIdTree(error) => join(
                "dynamic RuleID allocation failed: ",
                error.message().as_str(),
            ),
            InspectionError::UnrepresentableFlow(text) => join(
                "flow cannot be represented by duplicate-rule management: ",
                text.as_str(),
            ),
        }
    }
}

pub(crate) fn invalid_update(message: &str) -> (result: InspectionError)
    ensures
        result@ == Fault::InvalidUpdate(message@),
{
    InspectionError::InvalidUpdate(message.to_owned())
}

pub(crate) fn invalid_target(message: &str) -> (result: InspectionError)
    ensures
        result@ == Fault::InvalidTarget(message@),
{
    InspectionError::InvalidTarget(message.to_owned())
}

pub(crate) fn unexpected(message: &str) -> (result: InspectionError)
    ensures
        result@ == Fault::UnexpectedResponse(message@),
{
    InspectionError::UnexpectedResponse(message.to_owned())
}

/// The error of a malformed duplicate operation.
pub open spec fn duplicate_fault(message: Seq<char>) -> Fault {
    Fault::InvalidUpdate("duplicate-rule: "@ + message)
}

pub(crate) fn invalid_duplicate(message: &str) -> (result: InspectionError)
    ensures
        result@ == duplicate_fault(message@),
{
    InspectionError::InvalidUpdate(join("duplicate-rule: ", message))
}

/// What is known of an error: the error itself, or only how its message
/// begins, where the rest comes from an outside library.
pub enum Expected {
    /// The error itself.
    Named(Fault),
    /// A refused duplicate operation whose message begins this way.
    Prefixed(Seq<char>),
}

/// A refused duplicate operation with a message of two parts.
pub open spec fn prefixed_fault(prefix: Seq<char>, text: Seq<char>) -> Fault {
    duplicate_fault(prefix + text)
}

/// Whether an error is as expected.
pub open spec fn meets(expected: Expected, fault: Fault) -> bool {
    match expected {
        Expected::Named(named) => fault == named,
        Expected::Prefixed(prefix) => exists|text: Seq<char>|
            fault == #[trigger] prefixed_fault(prefix, text),
    }
}

pub(crate) fn prefixed_duplicate(prefix: &str, text: &str) -> (result: InspectionError)
    ensures
        result@ == prefixed_fault(prefix@, text@),
{
    invalid_duplicate(crate::text::join(prefix, text).as_str())
}

/// An error about a rule names it by value and length, and tells how often it
/// was found where that is more than once.
pub proof fn errors_name_the_rule(fault: Fault)
    ensures
        fault matches Fault::MissingRule(value, bits) ==> fault.described() == "RuleID "@ + decimal(
            value as nat,
        ) + "/"@ + decimal(bits as nat) + " was not found"@,
        fault matches Fault::AmbiguousRule(value, bits, count) ==> fault.described() == "RuleID "@
            + decimal(value as nat) + "/"@ + decimal(bits as nat) + " was ambiguous ("@ + decimal(
            count as nat,
        ) + " matches)"@,
        fault matches Fault::MissingEntry(rule, selector) ==> fault.described() == "RuleID "@
            + rule.spelled() + " has no entry matching "@ + selector,
        fault matches Fault::AmbiguousEntry(rule, selector, _, readable) ==> fault.described()
            == "RuleID "@ + rule.spelled() + " selector "@ + selector
            + " was ambiguous; matching entries:\n"@ + readable,
{
}

} // verus!
