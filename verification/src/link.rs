//! Link operations: which runtime compresses, which rule was used, and what
//! traffic it admits.
//!
//! The logical packet and the SCHC frame are two different values. A link
//! datagram is exactly the padded frame; no rule, route, bit length or packet
//! metadata is added to it.

use vstd::prelude::*;

use crate::cbor::same_bytes;
use crate::coap::{options_view, Coap, CoapMessage, CoapOption, PacketError};
use crate::context::{holds_id, rule_ids, ContextSnapshot, SnapshotView};
use crate::link_types::{
    LinkError, LinkFault, LinkOperation, LinkRole, TrafficClass, TrafficOrigin, TrafficRoute,
};
use crate::packet::Ipv6UdpCoapPacket;
use crate::policy::protects;
use crate::rule::{copy_bytes, find_rule, rule_with_id, Rule, RuleView};
use crate::rule_id::RuleId;
use crate::text::same_text;

verus! {

/// One padded SCHC frame with its number of meaningful bits.
#[derive(Debug)]
pub struct SchcFrame {
    /// Padded frame bytes.
    pub bytes: Vec<u8>,
    /// Number of meaningful bits.
    pub bit_len: usize,
}

/// What a runtime compressed: the frame and the rule that it selected.
#[derive(Debug)]
pub struct RuntimeEncoding {
    /// Selected rule.
    pub rule_id: RuleId,
    /// Compressed frame.
    pub frame: SchcFrame,
}

/// What a runtime decompressed: the packet and the rule that it matched.
#[derive(Debug)]
pub struct RuntimeDecoding {
    /// Matched rule.
    pub rule_id: RuleId,
    /// Reconstructed packet bytes.
    pub packet: Vec<u8>,
}

/// One of the two runtimes of a context.
#[derive(Debug, Clone, Copy, PartialEq, Eq, Structural)]
pub enum RuntimeKind {
    /// The runtime over every rule.
    Full,
    /// The runtime over the rules that application traffic may use.
    Application,
}

/// Complete observability for one SCHC operation.
///
/// `packet_bytes` always contains a complete logical packet and `frame_bytes`
/// only the padded frame.
#[derive(Debug)]
pub struct LinkReport {
    /// Operation represented by this report.
    pub operation: LinkOperation,
    /// Exact selected or matched rule identity.
    pub rule_id: RuleId,
    /// Active-context publication generation used by this operation.
    pub generation: u64,
    /// Traffic class derived from the rule identity.
    pub traffic_class: TrafficClass,
    /// Complete logical packet bytes.
    pub packet_bytes: Vec<u8>,
    /// Raw padded frame bytes.
    pub frame_bytes: Vec<u8>,
    /// Number of complete logical packet bytes.
    pub packet_size: usize,
    /// Number of meaningful bits, when compression supplied it.
    pub schc_bit_len: Option<usize>,
    /// Number of bytes sent or received on the link.
    pub padded_byte_len: usize,
    /// The selected rule, for accounting of protected management traffic.
    pub management_rule: Option<Rule>,
    /// The SID document, for the report of a duplicate operation.
    pub management_rpc_sid: Option<String>,
}

/// A link report as a mathematical value.
pub struct ReportView {
    /// Operation represented by this report.
    pub operation: LinkOperation,
    /// Exact selected or matched rule identity.
    pub rule_id: RuleId,
    /// Active-context publication generation used by this operation.
    pub generation: u64,
    /// Traffic class derived from the rule identity.
    pub traffic_class: TrafficClass,
    /// Complete logical packet bytes.
    pub packet_bytes: Seq<u8>,
    /// Raw padded frame bytes.
    pub frame_bytes: Seq<u8>,
    /// Number of complete logical packet bytes.
    pub packet_size: usize,
    /// Number of meaningful bits, when compression supplied it.
    pub schc_bit_len: Option<usize>,
    /// Number of bytes sent or received on the link.
    pub padded_byte_len: usize,
    /// The selected rule, for accounting of protected management traffic.
    pub management_rule: Option<RuleView>,
    /// The SID document, for the report of a duplicate operation.
    pub management_rpc_sid: Option<Seq<char>>,
}

impl View for LinkReport {
    type V = ReportView;

    open spec fn view(&self) -> ReportView {
        ReportView {
            operation: self.operation,
            rule_id: self.rule_id,
            generation: self.generation,
            traffic_class: self.traffic_class,
            packet_bytes: self.packet_bytes@,
            frame_bytes: self.frame_bytes@,
            packet_size: self.packet_size,
            schc_bit_len: self.schc_bit_len,
            padded_byte_len: self.padded_byte_len,
            management_rule: match self.management_rule {
                Some(rule) => Some(rule@),
                None => None,
            },
            management_rpc_sid: match self.management_rpc_sid {
                Some(text) => Some(text@),
                None => None,
            },
        }
    }
}

impl LinkReport {
    /// Returns a copy of this report.
    pub fn copy(&self) -> (result: Self)
        ensures
            result@ == self@,
    {
        let management_rule = match &self.management_rule {
            Some(rule) => Some(rule.copy()),
            None => None,
        };
        let management_rpc_sid = match &self.management_rpc_sid {
            Some(text) => Some(text.clone()),
            None => None,
        };
        LinkReport {
            operation: self.operation,
            rule_id: self.rule_id,
            generation: self.generation,
            traffic_class: self.traffic_class,
            packet_bytes: copy_bytes(self.packet_bytes.as_slice()),
            frame_bytes: copy_bytes(self.frame_bytes.as_slice()),
            packet_size: self.packet_size,
            schc_bit_len: self.schc_bit_len,
            padded_byte_len: self.padded_byte_len,
            management_rule,
            management_rpc_sid,
        }
    }
}

/// The identity of the rule that carries duplicate operations.
pub open spec fn duplicate_rule_id() -> RuleId {
    RuleId { value: 29, bit_len: 8 }
}

/// The class of a rule in a context, or that the context does not know it.
pub open spec fn class_of(snapshot: SnapshotView, id: RuleId) -> Result<TrafficClass, LinkFault> {
    if !holds_id(rule_ids(snapshot.data.rules), id) && !holds_id(
        snapshot.data.application_rule_ids,
        id,
    ) {
        Err(LinkFault::UnknownRuleId(id.value, id.bit_len))
    } else if protects(snapshot.data.protected, id) {
        Ok(TrafficClass::ProtectedManagement)
    } else {
        Ok(TrafficClass::Ordinary)
    }
}

/// Classifies a rule of a context.
pub fn classify(snapshot: &ContextSnapshot, rule_id: RuleId) -> (result: Result<
    TrafficClass,
    LinkError,
>)
    ensures
        match result {
            Ok(class) => class_of(snapshot@, rule_id) == Ok::<TrafficClass, LinkFault>(class),
            Err(error) => class_of(snapshot@, rule_id) == Err::<TrafficClass, LinkFault>(error@),
        },
{
    if !snapshot.contains_rule_id(rule_id) && !snapshot.contains_application_rule_id(rule_id) {
        return Err(
            LinkError::UnknownRuleId { value: rule_id.value, bit_len: rule_id.bit_len },
        );
    }
    if snapshot.data.protected.contains(rule_id) {
        Ok(TrafficClass::ProtectedManagement)
    } else {
        Ok(TrafficClass::Ordinary)
    }
}

/// Checks that traffic of an origin uses a rule of its own class.
pub fn enforce_origin(origin: TrafficOrigin, rule_id: RuleId, class: TrafficClass) -> (result:
    Result<(), LinkError>)
    ensures
        match result {
            Ok(_) => class == origin.admitted(),
            Err(error) => class != origin.admitted() && error@ == LinkFault::OriginRuleMismatch(
                origin,
                rule_id.value,
                rule_id.bit_len,
                class,
            ),
        },
{
    let accepted = match (origin, class) {
        (TrafficOrigin::Application, TrafficClass::Ordinary) => true,
        (TrafficOrigin::Management, TrafficClass::ProtectedManagement) => true,
        _ => false,
    };
    if accepted {
        Ok(())
    } else {
        Err(
            LinkError::OriginRuleMismatch {
                origin,
                value: rule_id.value,
                bit_len: rule_id.bit_len,
                selected: class,
            },
        )
    }
}

/// The rule that a report keeps: the selected one of protected traffic.
pub open spec fn reported_rule(
    snapshot: SnapshotView,
    id: RuleId,
    class: TrafficClass,
) -> Option<RuleView> {
    if class == TrafficClass::ProtectedManagement {
        rule_with_id(snapshot.data.rules, id)
    } else {
        None
    }
}

/// The SID document that a report keeps: that of a duplicate operation.
pub open spec fn reported_sid(id: RuleId, sid_json: Seq<char>) -> Option<Seq<char>> {
    if id == duplicate_rule_id() {
        Some(sid_json)
    } else {
        None
    }
}

fn keep_rule(snapshot: &ContextSnapshot, id: RuleId, class: TrafficClass) -> (result: Option<Rule>)
    ensures
        match result {
            Some(rule) => reported_rule(snapshot@, id, class) == Some(rule@),
            None => reported_rule(snapshot@, id, class) is None,
        },
{
    if class == TrafficClass::ProtectedManagement {
        match find_rule(&snapshot.data.rules, id) {
            Some(rule) => Some(rule.copy()),
            None => None,
        }
    } else {
        None
    }
}

fn keep_sid(id: RuleId, sid_json: &str) -> (result: Option<String>)
    ensures
        match result {
            Some(text) => reported_sid(id, sid_json@) == Some(text@),
            None => reported_sid(id, sid_json@) is None,
        },
{
    if id == RuleId::new(29, 8) {
        Some(sid_json.to_owned())
    } else {
        None
    }
}

/// A successful outbound compression result with its report.
#[derive(Debug)]
pub struct LinkEncoding {
    /// Raw padded frame.
    pub frame: SchcFrame,
    /// Operation report.
    pub report: LinkReport,
}

impl LinkEncoding {
    /// Returns the raw padded frame.
    pub fn frame(&self) -> (result: &SchcFrame)
        ensures
            *result == self.frame,
    {
        &self.frame
    }

    /// Returns the operation report.
    pub fn report(&self) -> (result: &LinkReport)
        ensures
            *result == self.report,
    {
        &self.report
    }

    /// Consumes the result and returns its frame.
    pub fn into_frame(self) -> (result: SchcFrame)
        ensures
            result == self.frame,
    {
        self.frame
    }
}

/// A successful inbound decode and rule-derived route.
#[derive(Debug)]
pub struct LinkDecoded {
    /// Fully validated logical packet.
    pub packet: Ipv6UdpCoapPacket,
    /// Exact matched rule identity.
    pub rule_id: RuleId,
    /// Rule-derived traffic class.
    pub traffic_class: TrafficClass,
    /// Route authorized by the matched rule.
    pub route: TrafficRoute,
    /// Operation report.
    pub report: LinkReport,
}

impl LinkDecoded {
    /// Returns the fully validated logical packet.
    pub fn packet(&self) -> (result: &Ipv6UdpCoapPacket)
        ensures
            *result == self.packet,
    {
        &self.packet
    }

    /// Returns the exact matched rule identity.
    pub fn rule_id(&self) -> (result: RuleId)
        ensures
            result == self.rule_id,
    {
        self.rule_id
    }

    /// Returns the rule-derived traffic class.
    pub fn traffic_class(&self) -> (result: TrafficClass)
        ensures
            result == self.traffic_class,
    {
        self.traffic_class
    }

    /// Returns the route authorized by the matched rule.
    pub fn route(&self) -> (result: TrafficRoute)
        ensures
            result == self.route,
    {
        self.route
    }

    /// Returns the operation report.
    pub fn report(&self) -> (result: &LinkReport)
        ensures
            *result == self.report,
    {
        &self.report
    }
}

/// Link operations of one endpoint role.
#[derive(Debug, Clone, Copy, PartialEq, Eq, Structural)]
pub struct SchcLink {
    /// Endpoint role.
    pub role: LinkRole,
}

/// What compression of a packet reports.
pub open spec fn encoded_report(
    snapshot: SnapshotView,
    sid_json: Seq<char>,
    class: TrafficClass,
    packet: Seq<u8>,
    encoded: RuntimeEncoding,
) -> ReportView {
    ReportView {
        operation: LinkOperation::Encode,
        rule_id: encoded.rule_id,
        generation: snapshot.generation,
        traffic_class: class,
        packet_bytes: packet,
        frame_bytes: encoded.frame.bytes@,
        packet_size: packet.len() as usize,
        schc_bit_len: Some(encoded.frame.bit_len),
        padded_byte_len: encoded.frame.bytes@.len() as usize,
        management_rule: reported_rule(snapshot, encoded.rule_id, class),
        management_rpc_sid: reported_sid(encoded.rule_id, sid_json),
    }
}

/// The runtime that compresses traffic of an origin.
pub open spec fn runtime_of(origin: TrafficOrigin) -> RuntimeKind {
    match origin {
        TrafficOrigin::Application => RuntimeKind::Application,
        TrafficOrigin::Management => RuntimeKind::Full,
    }
}

/// The runtime that compresses a matched rule again.
pub open spec fn canonical_runtime_of(snapshot: SnapshotView, id: RuleId) -> RuntimeKind {
    if protects(snapshot.data.protected, id) {
        RuntimeKind::Full
    } else {
        RuntimeKind::Application
    }
}

/// Why compression of a packet is refused.
pub open spec fn encode_fault(
    snapshot: SnapshotView,
    origin: TrafficOrigin,
    encoded: Result<RuntimeEncoding, String>,
) -> Option<LinkFault> {
    match encoded {
        Err(text) => Some(LinkFault::Runtime(text@)),
        Ok(encoding) => match class_of(snapshot, encoding.rule_id) {
            Err(fault) => Some(fault),
            Ok(class) => if class != origin.admitted() {
                Some(
                    LinkFault::OriginRuleMismatch(
                        origin,
                        encoding.rule_id.value,
                        encoding.rule_id.bit_len,
                        class,
                    ),
                )
            } else {
                None
            },
        },
    }
}

/// The decompression that counts: the full runtime's, or the application
/// runtime's when the full one failed.
pub open spec fn chosen_decoding(
    full: Result<RuntimeDecoding, String>,
    application: Result<RuntimeDecoding, String>,
) -> Result<RuntimeDecoding, LinkFault> {
    match full {
        Ok(decoding) => Ok(decoding),
        Err(text) => match application {
            Ok(decoding) => Ok(decoding),
            Err(_) => Err(LinkFault::Runtime(text@)),
        },
    }
}

/// What decompression of a frame reports.
pub open spec fn decoded_report(
    snapshot: SnapshotView,
    sid_json: Seq<char>,
    class: TrafficClass,
    id: RuleId,
    packet: Seq<u8>,
    frame: Seq<u8>,
    bit_len: usize,
) -> ReportView {
    ReportView {
        operation: LinkOperation::Decode,
        rule_id: id,
        generation: snapshot.generation,
        traffic_class: class,
        packet_bytes: packet,
        frame_bytes: frame,
        packet_size: packet.len() as usize,
        schc_bit_len: Some(bit_len),
        padded_byte_len: frame.len() as usize,
        management_rule: reported_rule(snapshot, id, class),
        management_rpc_sid: reported_sid(id, sid_json),
    }
}

/// Why decompression of a frame is refused.
pub open spec fn decode_fault(
    snapshot: SnapshotView,
    frame: Seq<u8>,
    full: Result<RuntimeDecoding, String>,
    application: Result<RuntimeDecoding, String>,
    packet: Result<Ipv6UdpCoapPacket, String>,
    canonical: Result<RuntimeEncoding, String>,
) -> Option<LinkFault> {
    if frame.len() == 0 {
        Some(LinkFault::EmptyFrame)
    } else {
        match chosen_decoding(full, application) {
            Err(fault) => Some(fault),
            Ok(decoding) => match class_of(snapshot, decoding.rule_id) {
                Err(fault) => Some(fault),
                Ok(_) => match packet {
                    Err(text) => Some(LinkFault::Packet(text@)),
                    Ok(_) => match canonical {
                        Err(text) => Some(LinkFault::Runtime(text@)),
                        Ok(encoding) => if encoding.rule_id != decoding.rule_id
                            || encoding.frame.bytes@ != frame {
                            Some(LinkFault::FrameMismatch(encoding.frame.bytes@, frame))
                        } else {
                            None
                        },
                    },
                },
            },
        }
    }
}

impl SchcLink {
    /// Creates the link of one endpoint role.
    pub fn new(role: LinkRole) -> (result: Self)
        ensures
            result.role == role,
    {
        SchcLink { role }
    }

    /// Returns the configured endpoint role.
    pub fn role(&self) -> (result: LinkRole)
        ensures
            result == self.role,
    {
        self.role
    }

    /// The role of the other endpoint.
    pub open spec fn peer(self) -> LinkRole {
        match self.role {
            LinkRole::Core => LinkRole::Device,
            LinkRole::Device => LinkRole::Core,
        }
    }

    /// Returns the role of the other endpoint.
    pub fn peer_role(&self) -> (result: LinkRole)
        ensures
            result == self.peer(),
    {
        match self.role {
            LinkRole::Core => LinkRole::Device,
            LinkRole::Device => LinkRole::Core,
        }
    }

    /// Returns the runtime that compresses traffic of an origin.
    pub fn runtime_for(origin: TrafficOrigin) -> (result: RuntimeKind)
        ensures
            result == runtime_of(origin),
    {
        match origin {
            TrafficOrigin::Application => RuntimeKind::Application,
            TrafficOrigin::Management => RuntimeKind::Full,
        }
    }

    /// Returns the runtime that compresses a matched rule again.
    pub fn canonical_runtime(snapshot: &ContextSnapshot, rule_id: RuleId) -> (result: RuntimeKind)
        ensures
            result == canonical_runtime_of(snapshot@, rule_id),
    {
        if snapshot.data.protected.contains(rule_id) {
            RuntimeKind::Full
        } else {
            RuntimeKind::Application
        }
    }

    /// Accepts what the origin's runtime compressed, and enforces the declared
    /// origin. Context, classes and generation all come from one snapshot.
    pub fn encode(
        &self,
        snapshot: &ContextSnapshot,
        sid_json: &str,
        origin: TrafficOrigin,
        packet: &[u8],
        encoded: Result<RuntimeEncoding, String>,
    ) -> (result: Result<LinkEncoding, LinkError>)
        ensures
            match result {
                Ok(encoding) => {
                    &&& encode_fault(snapshot@, origin, encoded) is None
                    &&& encoded matches Ok(given)
                    &&& encoding.frame == given.frame
                    &&& encoding.report@ == encoded_report(
                        snapshot@,
                        sid_json@,
                        origin.admitted(),
                        packet@,
                        given,
                    )
                },
                Err(error) => encode_fault(snapshot@, origin, encoded) == Some(error@),
            },
    {
        let encoding = match encoded {
            Ok(encoding) => encoding,
            Err(text) => {
                return Err(LinkError::Runtime(text));
            },
        };
        let class = classify(snapshot, encoding.rule_id)?;
        enforce_origin(origin, encoding.rule_id, class)?;
        let report = LinkReport {
            operation: LinkOperation::Encode,
            rule_id: encoding.rule_id,
            generation: snapshot.generation,
            traffic_class: class,
            packet_bytes: copy_bytes(packet),
            frame_bytes: copy_bytes(encoding.frame.bytes.as_slice()),
            packet_size: packet.len(),
            schc_bit_len: Some(encoding.frame.bit_len),
            padded_byte_len: encoding.frame.bytes.len(),
            management_rule: keep_rule(snapshot, encoding.rule_id, class),
            management_rpc_sid: keep_sid(encoding.rule_id, sid_json),
        };
        Ok(LinkEncoding { frame: encoding.frame, report })
    }

    /// Accepts one decompressed frame: the packet has to be valid, its rule
    /// known, and the frame the canonical one of its reconstruction. The route
    /// comes only from the exact matched rule.
    pub fn decode(
        &self,
        snapshot: &ContextSnapshot,
        sid_json: &str,
        frame: &[u8],
        full: Result<RuntimeDecoding, String>,
        application: Result<RuntimeDecoding, String>,
        packet: Result<Ipv6UdpCoapPacket, String>,
        canonical: Result<RuntimeEncoding, String>,
    ) -> (result: Result<LinkDecoded, LinkError>)
        ensures
            match result {
                Ok(decoded) => {
                    &&& decode_fault(snapshot@, frame@, full, application, packet, canonical) is None
                    &&& chosen_decoding(full, application) matches Ok(decoding)
                    &&& class_of(snapshot@, decoding.rule_id) == Ok::<TrafficClass, LinkFault>(
                        decoded.traffic_class,
                    )
                    &&& packet == Ok::<Ipv6UdpCoapPacket, String>(decoded.packet)
                    &&& decoded.rule_id == decoding.rule_id
                    &&& decoded.route == decoded.traffic_class.to_route()
                    &&& decoded.report@ == decoded_report(
                        snapshot@,
                        sid_json@,
                        decoded.traffic_class,
                        decoding.rule_id,
                        decoded.packet@.packet.bytes,
                        frame@,
                        canonical->Ok_0.frame.bit_len,
                    )
                },
                Err(error) => decode_fault(
                    snapshot@,
                    frame@,
                    full,
                    application,
                    packet,
                    canonical,
                ) == Some(error@),
            },
    {
        if frame.len() == 0 {
            return Err(LinkError::EmptyFrame);
        }
        let decoding = match full {
            Ok(decoding) => decoding,
            Err(text) => match application {
                Ok(decoding) => decoding,
                Err(_) => {
                    return Err(LinkError::Runtime(text));
                },
            },
        };
        let class = classify(snapshot, decoding.rule_id)?;
        let packet = match packet {
            Ok(packet) => packet,
            Err(text) => {
                return Err(LinkError::Packet(text));
            },
        };
        let canonical = match canonical {
            Ok(encoding) => encoding,
            Err(text) => {
                return Err(LinkError::Runtime(text));
            },
        };
        if canonical.rule_id != decoding.rule_id || !same_bytes(
            canonical.frame.bytes.as_slice(),
            frame,
        ) {
            return Err(
                LinkError::FrameMismatch {
                    expected: canonical.frame.bytes,
                    actual: copy_bytes(frame),
                },
            );
        }
        let report = LinkReport {
            operation: LinkOperation::Decode,
            rule_id: decoding.rule_id,
            generation: snapshot.generation,
            traffic_class: class,
            packet_bytes: copy_bytes(packet.packet.bytes.as_slice()),
            frame_bytes: copy_bytes(frame),
            packet_size: packet.packet.bytes.len(),
            schc_bit_len: Some(canonical.frame.bit_len),
            padded_byte_len: frame.len(),
            management_rule: keep_rule(snapshot, decoding.rule_id, class),
            management_rpc_sid: keep_sid(decoding.rule_id, sid_json),
        };
        Ok(
            LinkDecoded {
                packet,
                rule_id: decoding.rule_id,
                traffic_class: class,
                route: class.route(),
                report,
            },
        )
    }
}

/// Compression never mixes traffic: an accepted packet uses a rule that is
/// protected exactly when its origin is management.
pub proof fn accepted_traffic_keeps_to_its_origin(
    snapshot: SnapshotView,
    origin: TrafficOrigin,
    encoded: Result<RuntimeEncoding, String>,
)
    requires
        encode_fault(snapshot, origin, encoded) is None,
    ensures
        encoded is Ok,
        protects(snapshot.data.protected, encoded->Ok_0.rule_id) <==> origin
            == TrafficOrigin::Management,
{
}

/// An accepted frame is the frame that its packet compresses to, under the
/// rule that it was decompressed with.
pub proof fn accepted_frame_is_canonical(
    snapshot: SnapshotView,
    frame: Seq<u8>,
    full: Result<RuntimeDecoding, String>,
    application: Result<RuntimeDecoding, String>,
    packet: Result<Ipv6UdpCoapPacket, String>,
    canonical: Result<RuntimeEncoding, String>,
)
    requires
        decode_fault(snapshot, frame, full, application, packet, canonical) is None,
    ensures
        canonical is Ok,
        chosen_decoding(full, application) is Ok,
        canonical->Ok_0.frame.bytes@ == frame,
        canonical->Ok_0.rule_id == chosen_decoding(full, application)->Ok_0.rule_id,
        frame.len() > 0,
{
}

/// Checks how many bytes of a datagram a socket accepted.
pub fn check_sent(expected: usize, actual: usize) -> (result: Result<(), LinkError>)
    ensures
        match result {
            Ok(_) => expected == actual,
            Err(error) => expected != actual && error@ == LinkFault::ShortSend(expected, actual),
        },
{
    if actual != expected {
        return Err(LinkError::ShortSend { expected, actual });
    }
    Ok(())
}

/// Checks that a datagram to send is not empty.
pub fn check_outgoing(bytes: &[u8]) -> (result: Result<(), LinkError>)
    ensures
        match result {
            Ok(_) => bytes@.len() > 0,
            Err(error) => bytes@.len() == 0 && error@ == LinkFault::EmptyFrame,
        },
{
    if bytes.len() == 0 {
        return Err(LinkError::EmptyFrame);
    }
    Ok(())
}

/// Checks that a received datagram comes from the peer and is not empty.
pub fn check_incoming(expected: &str, actual: &str, bytes: &[u8]) -> (result: Result<
    (),
    LinkError,
>)
    ensures
        match result {
            Ok(_) => expected@ == actual@ && bytes@.len() > 0,
            Err(error) => if expected@ != actual@ {
                error@ == LinkFault::UnexpectedPeer(expected@, actual@)
            } else {
                bytes@.len() == 0 && error@ == LinkFault::EmptyFrame
            },
        },
{
    if !same_text(expected, actual) {
        return Err(
            LinkError::UnexpectedPeer { expected: expected.to_owned(), actual: actual.to_owned() },
        );
    }
    check_outgoing(bytes)
}

/// A response to build: its endpoints and its CoAP message.
#[derive(Debug)]
pub struct ResponsePlan {
    /// Source address.
    pub source: u128,
    /// Destination address.
    pub destination: u128,
    /// Source port.
    pub source_port: u16,
    /// Destination port.
    pub destination_port: u16,
    /// CoAP message.
    pub message: CoapMessage,
}

/// The empty content response to a message.
pub open spec fn ordinary_response(request: Coap) -> Coap {
    Coap {
        version: 1,
        message_type: 2,
        code: 69,
        message_id: request.message_id,
        token: request.token,
        options: seq![(12u16, seq![142u8])],
        payload: Seq::empty(),
    }
}

/// Plans a synthetic content response with the content format of instance
/// sequences.
///
/// Message ID and token are retained, and both logical endpoints are swapped.
/// This is independent of any datastore or URI semantics.
pub fn temporary_ordinary_response(request: &Ipv6UdpCoapPacket) -> (result: Result<
    ResponsePlan,
    PacketError,
>)
    ensures
        match result {
            Ok(plan) => {
                &&& request@.message.token.len() <= 8
                &&& plan.source == request@.packet.destination
                &&& plan.destination == request@.packet.source
                &&& plan.source_port == request@.packet.destination_port
                &&& plan.destination_port == request@.packet.source_port
                &&& plan.message@ == ordinary_response(request@.message)
            },
            Err(error) => request@.message.token.len() > 8 && error == PacketError::Token,
        },
{
    let format: Vec<u8> = vec![142];
    let options: Vec<CoapOption> = vec![CoapOption::new(12, format)];
    assert(options_view(options@) =~= seq![(12u16, seq![142u8])]) by {
        assert(options@[0].value@ =~= seq![142u8]);
    }
    let payload: Vec<u8> = Vec::new();
    let message = CoapMessage::from_parts(
        1,
        2,
        69,
        request.message.message_id,
        copy_bytes(request.message.token.as_slice()),
        options,
        payload,
    )?;
    assert(message@ == ordinary_response(request@.message));
    Ok(
        ResponsePlan {
            source: request.packet.destination,
            destination: request.packet.source,
            source_port: request.packet.destination_port,
            destination_port: request.packet.source_port,
            message,
        },
    )
}

/// A rule of the context is protected management traffic exactly when it is
/// protected, and ordinary otherwise; a rule that neither the context nor its
/// application rules hold is unknown.
pub proof fn rules_are_classified_by_protection(snapshot: SnapshotView, id: RuleId)
    ensures
        ({
            let known = holds_id(rule_ids(snapshot.data.rules), id) || holds_id(
                snapshot.data.application_rule_ids,
                id,
            );
            &&& known && protects(snapshot.data.protected, id) ==> class_of(snapshot, id) == Ok::<
                TrafficClass,
                LinkFault,
            >(TrafficClass::ProtectedManagement)
            &&& known && !protects(snapshot.data.protected, id) ==> class_of(snapshot, id) == Ok::<
                TrafficClass,
                LinkFault,
            >(TrafficClass::Ordinary)
            &&& !known ==> class_of(snapshot, id) == Err::<TrafficClass, LinkFault>(
                LinkFault::UnknownRuleId(id.value, id.bit_len),
            )
        }),
{
}

/// Management traffic is compressed by the runtime over every rule and
/// application traffic by that over the application rules; a frame is
/// compressed again by the full runtime exactly where its rule is protected.
/// Management traffic needs a protected rule and is routed to management,
/// application traffic an ordinary rule and is routed to the application. The
/// peer of the core is the device, and that of the device the core.
pub proof fn traffic_keeps_to_its_runtime_and_route(snapshot: SnapshotView, id: RuleId)
    ensures
        runtime_of(TrafficOrigin::Management) == RuntimeKind::Full,
        runtime_of(TrafficOrigin::Application) == RuntimeKind::Application,
        canonical_runtime_of(snapshot, id) == RuntimeKind::Full <==> protects(
            snapshot.data.protected,
            id,
        ),
        TrafficOrigin::Management.admitted() == TrafficClass::ProtectedManagement,
        TrafficOrigin::Application.admitted() == TrafficClass::Ordinary,
        TrafficClass::ProtectedManagement.to_route() == TrafficRoute::ProtectedManagement,
        TrafficClass::Ordinary.to_route() == TrafficRoute::Application,
        (SchcLink { role: LinkRole::Core }).peer() == LinkRole::Device,
        (SchcLink { role: LinkRole::Device }).peer() == LinkRole::Core,
{
}

/// A report of compression tells the packet that was compressed and the frame
/// that came of it, with their sizes and the meaningful bits; a report of
/// decompression tells the frame that was received and the packet that came of
/// it. Both tell the rule, its class and the generation of the context; they
/// keep the rule of protected traffic only, and the SID document only for rule
/// 29 of eight bits.
pub proof fn reports_tell_what_was_sent(
    snapshot: SnapshotView,
    sid_json: Seq<char>,
    class: TrafficClass,
    packet: Seq<u8>,
    encoded: RuntimeEncoding,
    frame: Seq<u8>,
    bit_len: usize,
)
    requires
        packet.len() <= usize::MAX,
        frame.len() <= usize::MAX,
        encoded.frame.bytes@.len() <= usize::MAX,
    ensures
        ({
            let id = encoded.rule_id;
            let out = encoded_report(snapshot, sid_json, class, packet, encoded);
            let back = decoded_report(snapshot, sid_json, class, id, packet, frame, bit_len);
            &&& out.operation == LinkOperation::Encode
            &&& back.operation == LinkOperation::Decode
            &&& out.rule_id == id && back.rule_id == id
            &&& out.generation == snapshot.generation && back.generation == snapshot.generation
            &&& out.traffic_class == class && back.traffic_class == class
            &&& out.packet_bytes == packet && back.packet_bytes == packet
            &&& out.frame_bytes == encoded.frame.bytes@ && back.frame_bytes == frame
            &&& out.packet_size == packet.len() && back.packet_size == packet.len()
            &&& out.schc_bit_len == Some(encoded.frame.bit_len) && back.schc_bit_len == Some(
                bit_len,
            )
            &&& out.padded_byte_len == encoded.frame.bytes@.len() && back.padded_byte_len
                == frame.len()
            &&& class == TrafficClass::Ordinary ==> out.management_rule is None
                && back.management_rule is None
            &&& class == TrafficClass::ProtectedManagement ==> out.management_rule
                == rule_with_id(snapshot.data.rules, id) && back.management_rule == rule_with_id(
                snapshot.data.rules,
                id,
            )
            &&& id == (RuleId { value: 29, bit_len: 8 }) ==> out.management_rpc_sid == Some(
                sid_json,
            ) && back.management_rpc_sid == Some(sid_json)
            &&& id != (RuleId { value: 29, bit_len: 8 }) ==> out.management_rpc_sid is None
                && back.management_rpc_sid is None
        }),
{
}

/// Of two decompressions that of the full runtime counts; that of the
/// application runtime counts only where the full one failed.
pub proof fn full_runtime_decompresses_first(
    full: Result<RuntimeDecoding, String>,
    application: Result<RuntimeDecoding, String>,
)
    ensures
        full is Ok ==> chosen_decoding(full, application) == Ok::<RuntimeDecoding, LinkFault>(
            full->Ok_0,
        ),
        full is Err && application is Ok ==> chosen_decoding(full, application) == Ok::<
            RuntimeDecoding,
            LinkFault,
        >(application->Ok_0),
        full is Err && application is Err ==> chosen_decoding(full, application) == Err::<
            RuntimeDecoding,
            LinkFault,
        >(LinkFault::Runtime(full->Err_0@)),
{
}

/// The ordinary response to a request is an acknowledgement, type two, with
/// content, code 69, that keeps the request's message ID and token, tells the
/// content format 142 in option twelve and has no payload.
pub proof fn ordinary_response_answers_its_request(request: Coap)
    ensures
        ({
            let response = ordinary_response(request);
            &&& response.version == 1
            &&& response.message_type == 2
            &&& response.code == 69
            &&& response.message_id == request.message_id
            &&& response.token == request.token
            &&& response.options.len() == 1
            &&& response.options[0].0 == 12
            &&& response.options[0].1 == seq![142u8]
            &&& response.payload.len() == 0
        }),
{
}

} // verus!
