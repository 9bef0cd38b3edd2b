//! Traffic classes, routes and link errors.

use vstd::prelude::*;

use crate::text::{decimal, decimal_string, join, join3};

verus! {

/// The origin declared by the producer of a logical packet.
#[derive(Debug, Clone, Copy, PartialEq, Eq, Structural)]
pub enum TrafficOrigin {
    /// Ordinary application traffic.
    Application,
    /// Protected context-management traffic.
    Management,
}

/// The traffic class derived from the exact selected or matched rule.
#[derive(Debug, Clone, Copy, PartialEq, Eq, Structural)]
pub enum TrafficClass {
    /// Traffic using an unprotected ordinary rule.
    Ordinary,
    /// Traffic using a protected management rule.
    ProtectedManagement,
}

/// The route available after successful device-side validation.
#[derive(Debug, Clone, Copy, PartialEq, Eq, Structural)]
pub enum TrafficRoute {
    /// Deliver to the ordinary application handler.
    Application,
    /// Deliver to the protected context-management handler.
    ProtectedManagement,
}

/// Whether a report describes compression or decompression.
#[derive(Debug, Clone, Copy, PartialEq, Eq, Structural)]
pub enum LinkOperation {
    /// A logical packet was compressed.
    Encode,
    /// A raw SCHC datagram was decompressed.
    Decode,
}

/// The endpoint that a link serves.
#[derive(Debug, Clone, Copy, PartialEq, Eq, Structural)]
pub enum LinkRole {
    /// The core endpoint.
    Core,
    /// The device endpoint.
    Device,
}

impl TrafficClass {
    /// The route of a class.
    pub open spec fn to_route(self) -> TrafficRoute {
        match self {
            TrafficClass::Ordinary => TrafficRoute::Application,
            TrafficClass::ProtectedManagement => TrafficRoute::ProtectedManagement,
        }
    }

    /// Returns the route authorized by this class.
    pub fn route(self) -> (result: TrafficRoute)
        ensures
            result == self.to_route(),
    {
        match self {
            TrafficClass::Ordinary => TrafficRoute::Application,
            TrafficClass::ProtectedManagement => TrafficRoute::ProtectedManagement,
        }
    }

    /// The name of a class.
    pub open spec fn named(self) -> Seq<char> {
        match self {
            TrafficClass::Ordinary => "Ordinary"@,
            TrafficClass::ProtectedManagement => "ProtectedManagement"@,
        }
    }
}

impl TrafficOrigin {
    /// The name of an origin.
    pub open spec fn named(self) -> Seq<char> {
        match self {
            TrafficOrigin::Application => "Application"@,
            TrafficOrigin::Management => "Management"@,
        }
    }

    /// The class that traffic of this origin must have.
    pub open spec fn admitted(self) -> TrafficClass {
        match self {
            TrafficOrigin::Application => TrafficClass::Ordinary,
            TrafficOrigin::Management => TrafficClass::ProtectedManagement,
        }
    }
}

/// Errors from SCHC encoding, decoding, policy classification, and packet
/// validation.
#[derive(Debug)]
pub enum LinkError {
    /// The runtime rejected the operation.
    Runtime(String),
    /// The reconstructed logical packet was not a complete valid packet.
    Packet(String),
    /// A decoder reported a rule that is not in this context snapshot.
    UnknownRuleId {
        /// Numeric rule identity value.
        value: u64,
        /// Encoded bit length.
        bit_len: usize,
    },
    /// A producer declaration disagreed with the exact selected rule.
    OriginRuleMismatch {
        /// Declared producer origin.
        origin: TrafficOrigin,
        /// Numeric selected identity value.
        value: u64,
        /// Selected encoded bit length.
        bit_len: usize,
        /// Class derived from the selected identity.
        selected: TrafficClass,
    },
    /// A raw link send accepted fewer bytes than the complete datagram.
    ShortSend {
        /// Number of bytes supplied to the socket.
        expected: usize,
        /// Number of bytes accepted by the socket.
        actual: usize,
    },
    /// A raw link datagram was empty.
    EmptyFrame,
    /// A decoded frame was not the canonical encoding of its reconstruction.
    FrameMismatch {
        /// Canonical frame bytes produced from the reconstructed packet.
        expected: Vec<u8>,
        /// Bytes received from the link.
        actual: Vec<u8>,
    },
    /// A connected link received a datagram from an unexpected peer.
    UnexpectedPeer {
        /// Configured peer address.
        expected: String,
        /// Received source address.
        actual: String,
    },
    /// A socket operation failed.
    Io(String),
}

/// A link error as a mathematical value.
pub enum LinkFault {
    /// The runtime rejected the operation.
    Runtime(Seq<char>),
    /// The reconstructed logical packet was not a complete valid packet.
    Packet(Seq<char>),
    /// A decoder reported a rule that is not in this context snapshot.
    UnknownRuleId(u64, usize),
    /// A producer declaration disagreed with the exact selected rule.
    OriginRuleMismatch(TrafficOrigin, u64, usize, TrafficClass),
    /// A raw link send accepted fewer bytes than the complete datagram.
    ShortSend(usize, usize),
    /// A raw link datagram was empty.
    EmptyFrame,
    /// A decoded frame was not the canonical encoding of its reconstruction.
    FrameMismatch(Seq<u8>, Seq<u8>),
    /// A connected link received a datagram from an unexpected peer.
    UnexpectedPeer(Seq<char>, Seq<char>),
    /// A socket operation failed.
    Io(Seq<char>),
}

impl View for LinkError {
    type V = LinkFault;

    open spec fn view(&self) -> LinkFault {
        match self {
            LinkError::Runtime(text) => LinkFault::Runtime(text@),
            LinkError::Packet(text) => LinkFault::Packet(text@),
            LinkError::UnknownRuleId { value, bit_len } => LinkFault::UnknownRuleId(
                *value,
                *bit_len,
            ),
            LinkError::OriginRuleMismatch { origin, value, bit_len, selected } => {
                LinkFault::OriginRuleMismatch(*origin, *value, *bit_len, *selected)
            },
            LinkError::ShortSend { expected, actual } => LinkFault::ShortSend(*expected, *actual),
            LinkError::EmptyFrame => LinkFault::EmptyFrame,
            LinkError::FrameMismatch { expected, actual } => LinkFault::FrameMismatch(
                expected@,
                actual@,
            ),
            LinkError::UnexpectedPeer { expected, actual } => LinkFault::UnexpectedPeer(
                expected@,
                actual@,
            ),
            LinkError::Io(text) => LinkFault::Io(text@),
        }
    }
}

impl LinkError {
    /// The text that describes this error.
    pub open spec fn described(self) -> Seq<char> {
        match self {
            LinkError::Runtime(text) => "SCHC runtime operation failed: "@ + text@,
            LinkError::Packet(text) => "logical packet validation failed: "@ + text@,
            LinkError::UnknownRuleId { value, bit_len } => "matched unknown RuleID "@ + decimal(
                value as nat,
            ) + "/"@ + decimal(bit_len as nat),
            LinkError::OriginRuleMismatch { origin, value, bit_len, selected } => origin.named()
                + " origin selected "@ + decimal(value as nat) + "/"@ + decimal(bit_len as nat)
                + ", classified as "@ + selected.named(),
            LinkError::ShortSend { expected, actual } => {
                "short raw SCHC datagram send: expected "@ + decimal(expected as nat)
                    + " bytes, sent "@ + decimal(actual as nat)
            },
            LinkError::EmptyFrame => "empty SCHC link datagram"@,
            LinkError::FrameMismatch { .. } => {
                "decoded frame is not canonical for its reconstructed packet"@
            },
            LinkError::UnexpectedPeer { expected, actual } => "unexpected SCHC peer: expected "@
                + expected@ + ", received "@ + actual@,
            LinkError::Io(text) => "raw SCHC UDP socket operation failed: "@ + text@,
        }
    }

    /// Describes this error.
    pub fn message(&self) -> (result: String)
        ensures
            result@ == self.described(),
    {
        match self {
            LinkError::Runtime(text) => join("SCHC runtime operation failed: ", text.as_str()),
            LinkError::Packet(text) => join("logical packet validation failed: ", text.as_str()),
            LinkError::UnknownRuleId { value, bit_len } => join(
                join3("matched unknown RuleID ", decimal_string(*value).as_str(), "/").as_str(),
                decimal_string(*bit_len as u64).as_str(),
            ),
            LinkError::OriginRuleMismatch { origin, value, bit_len, selected } => {
                let name = match origin {
                    TrafficOrigin::Application => "Application",
                    TrafficOrigin::Management => "Management",
                };
                let class = match selected {
                    TrafficClass::Ordinary => "Ordinary",
                    TrafficClass::ProtectedManagement => "ProtectedManagement",
                };
                let head = join3(name, " origin selected ", decimal_string(*value).as_str());
                let middle = join3(head.as_str(), "/", decimal_string(*bit_len as u64).as_str());
                join3(middle.as_str(), ", classified as ", class)
            },
            LinkError::ShortSend { expected, actual } => join(
                join3(
                    "short raw SCHC datagram send: expected ",
                    decimal_string(*expected as u64).as_str(),
                    " bytes, sent ",
                ).as_str(),
                decimal_string(*actual as u64).as_str(),
            ),
            LinkError::EmptyFrame => "empty SCHC link datagram".to_owned(),
            LinkError::FrameMismatch { .. } => {
                "decoded frame is not canonical for its reconstructed packet".to_owned()
            },
            LinkError::UnexpectedPeer { expected, actual } => join(
                join3("unexpected SCHC peer: expected ", expected.as_str(), ", received ").as_str(),
                actual.as_str(),
            ),
            LinkError::Io(text) => join("raw SCHC UDP socket operation failed: ", text.as_str()),
        }
    }
}

/// Application traffic is ordinary and takes the application route; management
/// traffic is protected and takes the protected route.
pub proof fn origins_have_their_class_and_route(origin: TrafficOrigin)
    ensures
        origin is Application ==> origin.admitted() is Ordinary && origin.admitted().to_route()
            is Application,
        origin is Management ==> origin.admitted() is ProtectedManagement
            && origin.admitted().to_route() is ProtectedManagement,
        origin is Application ==> origin.named() == "Application"@ && origin.admitted().named()
            == "Ordinary"@,
        origin is Management ==> origin.named() == "Management"@ && origin.admitted().named()
            == "ProtectedManagement"@,
{
}

/// An error names what it is about: a rule by value and length, and a short
/// send by what was expected and then what was sent.
pub proof fn link_errors_name_their_parts(error: LinkError)
    ensures
        error matches LinkError::UnknownRuleId { value, bit_len } ==> error.described()
            == "matched unknown RuleID "@ + decimal(value as nat) + "/"@ + decimal(bit_len as nat),
        error matches LinkError::ShortSend { expected, actual } ==> error.described()
            == "short raw SCHC datagram send: expected "@ + decimal(expected as nat)
            + " bytes, sent "@ + decimal(actual as nat),
        error matches LinkError::UnexpectedPeer { expected, actual } ==> error.described()
            == "unexpected SCHC peer: expected "@ + expected@ + ", received "@ + actual@,
        error matches LinkError::OriginRuleMismatch { origin, value, bit_len, selected }
            ==> error.described() == origin.named() + " origin selected "@ + decimal(value as nat)
            + "/"@ + decimal(bit_len as nat) + ", classified as "@ + selected.named(),
{
}

} // verus!
