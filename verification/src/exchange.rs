//! One management exchange: its identity, its token, and the response that
//! belongs to it.

use vstd::prelude::*;

use crate::cbor::same_bytes;
use crate::coap::{
    coap_read, read_coap, Coap, CoapMessage, COAP_ACKNOWLEDGEMENT, COAP_CONFIRMABLE,
    COAP_NON_CONFIRMABLE, MAX_COAP_TOKEN_LEN,
};
use crate::codec::{
    big_endian, number_bytes, number_bytes_are_big_endian, number_bytes_round_trip,
};
use crate::endpoint::{goes_from, oriented};
use crate::error::{unexpected, Fault, InspectionError};
use crate::link::{LinkDecoded, LinkEncoding, LinkReport, SchcFrame};
use crate::link_types::{LinkError, LinkRole, TrafficClass, TrafficRoute};
use crate::number::bytes_value;
use crate::packet::{
    CoapPacketView, Ipv6UdpCoapPacket, CORE_LOGICAL_ADDRESS, DEVICE_LOGICAL_ADDRESS,
    MANAGEMENT_PORT,
};
use crate::policy::id_text;
use crate::request::{
    datagram_outcome, datagram_view, duplicate_shape, is_duplicate_rule_datagram, serialize,
};
use crate::rule::copy_bytes;
use crate::rule_id::RuleId;
use crate::text::{decimal, decimal_string, join, join3};

verus! {

/// The number of message IDs of the seven-bit reconstruction window.
pub const MANAGEMENT_MID_MODULUS: u16 = 128;

/// The message ID that is allocated next.
pub open spec fn allocated_id(next: u16) -> u16 {
    if next >= MANAGEMENT_MID_MODULUS {
        0
    } else {
        next
    }
}

/// Allocates one message ID from the stateless seven-bit reconstruction window.
///
/// Management exchanges are synchronous and have at most one outstanding
/// request, so a completed exchange releases its message ID for reuse after the
/// bounded cycle. No value outside that window is emitted on the protected
/// link.
pub fn next_management_message_id(next: &mut u16) -> (result: u16)
    ensures
        result == allocated_id(*old(next)),
        result < MANAGEMENT_MID_MODULUS,
        *final(next) == (allocated_id(*old(next)) + 1) % 128,
{
    if *next >= MANAGEMENT_MID_MODULUS {
        *next = 0;
    }
    let message_id: u16 = *next;
    *next = (*next + 1) % MANAGEMENT_MID_MODULUS;
    message_id
}

/// The message ID that comes a number of allocations after one.
pub open spec fn later_id(first: u16, count: nat) -> u16
    decreases count,
{
    if count == 0 {
        allocated_id(first)
    } else {
        later_id(((allocated_id(first) + 1) % 128) as u16, (count - 1) as nat)
    }
}

/// Message IDs run through the whole window before one is reused: the ID that
/// comes `count` allocations later is `count` further, modulo the window.
pub proof fn message_ids_cycle_through_the_window(first: u16, count: nat)
    ensures
        later_id(first, count) == (allocated_id(first) + count) % 128,
        0 < count < 128 ==> later_id(first, count) != allocated_id(first),
        count == 128 ==> later_id(first, count) == allocated_id(first),
    decreases count,
{
    if count > 0 {
        message_ids_cycle_through_the_window(
            ((allocated_id(first) + 1) % 128) as u16,
            (count - 1) as nat,
        );
    }
}

/// The validated opaque token carried by a CoAP exchange.
#[derive(Debug, Clone, PartialEq, Eq)]
pub struct CoapToken {
    /// Token bytes.
    pub bytes: Vec<u8>,
}

impl View for CoapToken {
    type V = Seq<u8>;

    open spec fn view(&self) -> Seq<u8> {
        self.bytes@
    }
}

/// The error of a token that is too long.
pub open spec fn token_fault(length: nat) -> Fault {
    Fault::InvalidToken("length must be at most 8 bytes, got "@ + decimal(length))
}

impl CoapToken {
    /// Whether the token fits a CoAP message.
    pub open spec fn well_formed(&self) -> bool {
        self@.len() <= 8
    }

    /// Creates a token after enforcing CoAP's zero-to-eight-byte limit.
    pub fn new(bytes: &[u8]) -> (result: Result<Self, InspectionError>)
        ensures
            match result {
                Ok(token) => token@ == bytes@ && token.well_formed(),
                Err(error) => bytes@.len() > 8 && error@ == token_fault(bytes@.len()),
            },
    {
        if bytes.len() > MAX_COAP_TOKEN_LEN {
            return Err(
                InspectionError::InvalidToken(
                    join(
                        "length must be at most 8 bytes, got ",
                        decimal_string(bytes.len() as u64).as_str(),
                    ),
                ),
            );
        }
        Ok(CoapToken { bytes: copy_bytes(bytes) })
    }

    /// Returns the empty token.
    pub fn empty() -> (result: Self)
        ensures
            result@ == Seq::<u8>::empty(),
    {
        let token = CoapToken { bytes: Vec::new() };
        assert(token@ =~= Seq::<u8>::empty());
        token
    }

    /// Returns the token bytes.
    pub fn as_bytes(&self) -> (result: &[u8])
        ensures
            result@ == self@,
    {
        self.bytes.as_slice()
    }

    /// Returns whether this token is empty.
    pub fn is_empty(&self) -> (result: bool)
        ensures
            result == (self@.len() == 0),
    {
        self.bytes.len() == 0
    }
}

/// Identifies one CoAP exchange by message ID and token.
#[derive(Debug, Clone, PartialEq, Eq)]
pub struct ExchangeId {
    /// Message ID.
    pub message_id: u16,
    /// Token.
    pub token: CoapToken,
}

/// Whether a response with an identity and a message type belongs to a
/// request: the token is kept, and an acknowledgement keeps the message ID.
pub open spec fn belongs(
    request: (u16, Seq<u8>),
    response: (u16, Seq<u8>),
    message_type: u8,
) -> bool {
    &&& request.1 == response.1
    &&& message_type == COAP_CONFIRMABLE || message_type == COAP_NON_CONFIRMABLE || (message_type
        == COAP_ACKNOWLEDGEMENT && request.0 == response.0)
}

impl ExchangeId {
    /// The message ID and token.
    pub open spec fn identity(&self) -> (u16, Seq<u8>) {
        (self.message_id, self.token@)
    }

    /// Creates an exchange identifier after validating its token.
    pub fn new(message_id: u16, token: &[u8]) -> (result: Result<Self, InspectionError>)
        ensures
            match result {
                Ok(exchange) => exchange.identity() == (message_id, token@)
                    && exchange.token.well_formed(),
                Err(error) => token@.len() > 8 && error@ == token_fault(token@.len()),
            },
    {
        let token = CoapToken::new(token)?;
        Ok(ExchangeId { message_id, token })
    }

    /// Builds an exchange identifier from a parsed CoAP message.
    pub fn from_message(message: &CoapMessage) -> (result: Result<Self, InspectionError>)
        ensures
            match result {
                Ok(exchange) => exchange.identity() == (message@.message_id, message@.token)
                    && exchange.token.well_formed(),
                Err(error) => message@.token.len() > 8 && error@ == token_fault(
                    message@.token.len(),
                ),
            },
    {
        ExchangeId::new(message.message_id, message.token.as_slice())
    }

    /// Returns the CoAP message ID.
    pub fn message_id(&self) -> (result: u16)
        ensures
            result == self.identity().0,
    {
        self.message_id
    }

    /// Returns the validated CoAP token.
    pub fn token(&self) -> (result: &CoapToken)
        ensures
            result@ == self.identity().1,
    {
        &self.token
    }

    /// Returns whether a response's exchange identity is valid for a message
    /// type. Confirmable and non-confirmable separate responses may use a new
    /// message ID; a piggybacked acknowledgement must keep that of the
    /// request. All supported response forms must retain the token.
    pub fn matches_response(&self, response: &Self, message_type: u8) -> (result: bool)
        ensures
            result == belongs(self.identity(), response.identity(), message_type),
    {
        same_bytes(self.token.bytes.as_slice(), response.token.bytes.as_slice()) && (message_type
            == COAP_CONFIRMABLE || message_type == COAP_NON_CONFIRMABLE || (message_type
            == COAP_ACKNOWLEDGEMENT && self.message_id == response.message_id))
    }
}

/// Source of process-local token numbers.
#[derive(Debug)]
pub struct TokenSequence {
    /// The next number.
    pub next: u64,
}

impl TokenSequence {
    /// Starts at one.
    pub fn new() -> (result: Self)
        ensures
            result.next == 1,
    {
        TokenSequence { next: 1 }
    }
}

/// Selects the token policy used when a management request crosses the CoAP
/// boundary.
#[derive(Debug, Clone, Copy, PartialEq, Eq, Structural)]
pub enum TokenPolicy {
    /// Use the empty token required by the compact profile.
    Empty,
    /// Generate a process-local eight-byte opaque token.
    ///
    /// The management rules of the compact profile reject arbitrary nonempty
    /// tokens, so callers select this only with a profile that transports
    /// token bytes.
    Generated,
}

/// The token of a policy when a number is next.
pub open spec fn policy_token(policy: TokenPolicy, next: u64) -> Seq<u8> {
    match policy {
        TokenPolicy::Empty => Seq::empty(),
        TokenPolicy::Generated => number_bytes(next as nat),
    }
}

/// The number that follows a token of a policy.
pub open spec fn next_number(policy: TokenPolicy, next: u64) -> u64 {
    match policy {
        TokenPolicy::Empty => next,
        TokenPolicy::Generated => if next == u64::MAX {
            0
        } else {
            (next + 1) as u64
        },
    }
}

impl TokenPolicy {
    /// Returns the policy of the compact profile.
    pub fn default() -> (result: Self)
        ensures
            result == TokenPolicy::Empty,
    {
        TokenPolicy::Empty
    }

    /// Produces the token selected by this policy.
    pub fn token(self, sequence: &mut TokenSequence) -> (result: CoapToken)
        ensures
            result@ == policy_token(self, old(sequence).next),
            result.well_formed(),
            final(sequence).next == next_number(self, old(sequence).next),
    {
        match self {
            TokenPolicy::Empty => CoapToken::empty(),
            TokenPolicy::Generated => {
                let number: u64 = sequence.next;
                sequence.next = number.wrapping_add(1);
                CoapToken { bytes: big_endian(number) }
            },
        }
    }
}

/// Two tokens generated one after the other differ.
pub proof fn generated_tokens_differ(next: u64)
    ensures
        policy_token(TokenPolicy::Generated, next) != policy_token(
            TokenPolicy::Generated,
            next_number(TokenPolicy::Generated, next),
        ),
        policy_token(TokenPolicy::Generated, next).len() == 8,
{
    number_bytes_round_trip(next as nat);
    number_bytes_round_trip(next_number(TokenPolicy::Generated, next) as nat);
}

/// How a token replaces that of a datagram; what the codec's own errors say is
/// left open.
pub open spec fn token_outcome(
    datagram: Seq<u8>,
    token: Seq<u8>,
    outcome: Result<Seq<u8>, Fault>,
) -> bool {
    match coap_read(datagram) {
        None => outcome matches Err(Fault::Coap(_)),
        Some(message) => datagram_outcome((Coap { token, ..message }), outcome),
    }
}

/// Writes a datagram again with the token of a policy.
pub fn apply_token_policy(
    coap_datagram: &[u8],
    token_policy: TokenPolicy,
    sequence: &mut TokenSequence,
) -> (result: Result<Vec<u8>, InspectionError>)
    ensures
        token_outcome(
            coap_datagram@,
            policy_token(token_policy, old(sequence).next),
            datagram_view(result),
        ),
        final(sequence).next == if coap_read(coap_datagram@) is Some {
            next_number(token_policy, old(sequence).next)
        } else {
            old(sequence).next
        },
{
    let mut message = match read_coap(coap_datagram) {
        Ok(message) => message,
        Err(text) => {
            return Err(InspectionError::Coap(text));
        },
    };
    let token = token_policy.token(sequence);
    message.token = token.bytes;
    serialize(&message)
}

/// Rewriting a token keeps everything else of a request that reads back:
/// method, message ID, options and payload.
pub proof fn token_policy_keeps_the_request(
    datagram: Seq<u8>,
    message: Coap,
    token: Seq<u8>,
    rewritten: Seq<u8>,
)
    requires
        coap_read(datagram) == Some(message),
        crate::coap::reads_back(message),
        token.len() <= 8,
        token_outcome(datagram, token, Ok::<Seq<u8>, Fault>(rewritten)),
    ensures
        coap_read(rewritten) == Some(Coap { token, ..message }),
{
}

/// How the datagram of a tracked request is prepared; what the codec's own
/// errors say is left open.
pub open spec fn wire_outcome(
    datagram: Seq<u8>,
    token: Seq<u8>,
    outcome: Result<Seq<u8>, Fault>,
) -> bool {
    if coap_read(datagram) matches Some(message) && duplicate_shape(message) {
        outcome == Err::<Seq<u8>, Fault>(
            Fault::UnexpectedResponse(
                "duplicate-rule NON POST is one-way and is not prepared for response tracking"@,
            ),
        )
    } else {
        token_outcome(datagram, token, outcome)
    }
}

/// Prepares the datagram of a request whose response is awaited.
pub fn management_wire_datagram(
    coap_datagram: &[u8],
    token_policy: TokenPolicy,
    sequence: &mut TokenSequence,
) -> (result: Result<Vec<u8>, InspectionError>)
    ensures
        wire_outcome(
            coap_datagram@,
            policy_token(token_policy, old(sequence).next),
            datagram_view(result),
        ),
        final(sequence).next == match coap_read(coap_datagram@) {
            Some(message) if !duplicate_shape(message) => next_number(
                token_policy,
                old(sequence).next,
            ),
            _ => old(sequence).next,
        },
{
    if is_duplicate_rule_datagram(coap_datagram) {
        return Err(
            unexpected(
                "duplicate-rule NON POST is one-way and is not prepared for response tracking",
            ),
        );
    }
    apply_token_policy(coap_datagram, token_policy, sequence)
}

/// An encoded protected management request awaiting transport and response
/// validation.
#[derive(Debug)]
pub struct PreparedManagementRequest {
    /// Exact padded frame.
    pub frame: SchcFrame,
    /// Compression report.
    pub report: LinkReport,
    /// Identity required to correlate a response.
    pub exchange_id: ExchangeId,
}

impl PreparedManagementRequest {
    /// Returns the exact padded frame selected during preparation.
    pub fn frame(&self) -> (result: &SchcFrame)
        ensures
            *result == self.frame,
    {
        &self.frame
    }

    /// Returns the compression report for the prepared request.
    pub fn report(&self) -> (result: &LinkReport)
        ensures
            *result == self.report,
    {
        &self.report
    }

    /// Returns the identity required to correlate a response.
    pub fn exchange_id(&self) -> (result: &ExchangeId)
        ensures
            *result == self.exchange_id,
    {
        &self.exchange_id
    }
}

/// Whether a packet carries a datagram from the core's to the device's
/// management endpoint.
pub open spec fn carries_request(packet: CoapPacketView, wire: Seq<u8>) -> bool {
    packet.datagram == wire && oriented(packet, LinkRole::Core, MANAGEMENT_PORT)
}

/// Why a compressed request is not one of protected management.
pub open spec fn preparation_fault(
    wire: Seq<u8>,
    packet: Result<Ipv6UdpCoapPacket, String>,
    encoded: Result<LinkEncoding, LinkError>,
) -> Option<Fault> {
    match packet {
        Err(text) => Some(Fault::Coap(text@)),
        Ok(request) => if !carries_request(request@, wire) {
            Some(Fault::Coap("logical packet does not carry the management request"@))
        } else {
            match encoded {
                Err(error) => Some(Fault::Link(error.described())),
                Ok(encoding) => if encoding.report.packet_bytes@ != request@.packet.bytes {
                    Some(Fault::Coap("management request was compressed from another packet"@))
                } else if encoding.report.traffic_class != TrafficClass::ProtectedManagement {
                    Some(
                        Fault::UnexpectedResponse(
                            "management request selected unsupported protected RuleID "@ + decimal(
                                encoding.report.rule_id.value as nat,
                            ) + "/"@ + decimal(encoding.report.rule_id.bit_len as nat),
                        ),
                    )
                } else if request@.message.token.len() > 8 {
                    Some(token_fault(request@.message.token.len()))
                } else {
                    None
                },
            }
        },
    }
}

/// Accepts one compressed management request and keeps what correlates its
/// response.
///
/// `wire` is the datagram that [`management_wire_datagram`] prepared, `packet`
/// the logical packet from the core's to the device's management endpoint
/// around it, and `encoded` its compression. No transport operation is
/// performed.
pub fn prepare_management_request(
    wire: &[u8],
    packet: Result<Ipv6UdpCoapPacket, String>,
    encoded: Result<LinkEncoding, LinkError>,
) -> (result: Result<PreparedManagementRequest, InspectionError>)
    ensures
        match result {
            Ok(prepared) => {
                &&& preparation_fault(wire@, packet, encoded) is None
                &&& packet matches Ok(request)
                &&& encoded matches Ok(encoding)
                &&& prepared.frame == encoding.frame
                &&& prepared.report == encoding.report
                &&& prepared.exchange_id.identity() == (
                    request@.message.message_id,
                    request@.message.token,
                )
            },
            Err(error) => preparation_fault(wire@, packet, encoded) == Some(error@),
        },
{
    let request = match packet {
        Ok(request) => request,
        Err(text) => {
            return Err(InspectionError::Coap(text));
        },
    };
    if !same_bytes(request.datagram.as_slice(), wire) || !goes_from(
        &request,
        LinkRole::Core,
        MANAGEMENT_PORT,
    ) {
        return Err(
            InspectionError::Coap(
                "logical packet does not carry the management request".to_owned(),
            ),
        );
    }
    let encoding = match encoded {
        Ok(encoding) => encoding,
        Err(error) => {
            return Err(InspectionError::Link(error));
        },
    };
    if !same_bytes(
        encoding.report.packet_bytes.as_slice(),
        request.packet.bytes.as_slice(),
    ) {
        return Err(
            InspectionError::Coap(
                "management request was compressed from another packet".to_owned(),
            ),
        );
    }
    if encoding.report.traffic_class != TrafficClass::ProtectedManagement {
        let head = join3(
            "management request selected unsupported protected RuleID ",
            decimal_string(encoding.report.rule_id.value).as_str(),
            "/",
        );
        return Err(
            unexpected(
                join(
                    head.as_str(),
                    decimal_string(encoding.report.rule_id.bit_len as u64).as_str(),
                ).as_str(),
            ),
        );
    }
    let exchange_id = ExchangeId::from_message(&request.message)?;
    Ok(
        PreparedManagementRequest {
            frame: encoding.frame,
            report: encoding.report,
            exchange_id,
        },
    )
}

/// A protected request/response exchange and its link reports.
#[derive(Debug)]
pub struct ManagementExchange {
    /// Response payload.
    pub payload: Vec<u8>,
    /// Core-to-device compression report.
    pub request_report: LinkReport,
    /// Device-to-core decompression report.
    pub response_report: LinkReport,
}

/// Whether a packet goes from the device's to the core's management endpoint.
pub open spec fn from_device(packet: CoapPacketView) -> bool {
    &&& packet.packet.source == DEVICE_LOGICAL_ADDRESS
    &&& packet.packet.destination == CORE_LOGICAL_ADDRESS
    &&& packet.packet.source_port == MANAGEMENT_PORT
    &&& packet.packet.destination_port == MANAGEMENT_PORT
}

/// Why a decoded frame is no response to a request.
pub open spec fn response_fault(
    request: (u16, Seq<u8>),
    route: TrafficRoute,
    rule_id: RuleId,
    packet: CoapPacketView,
) -> Option<Fault> {
    let message = packet.message;
    if route != TrafficRoute::ProtectedManagement {
        Some(
            Fault::UnexpectedResponse(
                "management response selected "@ + id_text(rule_id)
                    + " instead of protected management"@,
            ),
        )
    } else if !from_device(packet) {
        Some(
            Fault::UnexpectedResponse("management response logical orientation is invalid"@),
        )
    } else if !(2 <= message.code / 32 <= 5) {
        Some(
            Fault::UnexpectedResponse(
                "management response has non-response CoAP code "@ + decimal(message.code as nat),
            ),
        )
    } else if message.token.len() > 8 {
        Some(token_fault(message.token.len()))
    } else if message.message_type > COAP_ACKNOWLEDGEMENT {
        Some(
            Fault::UnexpectedResponse(
                "management response has unsupported CoAP message type "@ + decimal(
                    message.message_type as nat,
                ),
            ),
        )
    } else if !belongs(request, (message.message_id, message.token), message.message_type) {
        Some(Fault::Correlation("CoAP message ID or token mismatch"@))
    } else {
        None
    }
}

/// Validates one already decoded response against a prepared request.
///
/// Validation requires the protected-management route, the exact
/// device-to-core logical orientation and management ports, and a matching
/// token with the message-type-specific message ID rule.
pub fn validate_management_response(
    prepared: &PreparedManagementRequest,
    decoded: &LinkDecoded,
) -> (result: Result<(u8, ManagementExchange), InspectionError>)
    ensures
        ({
            let fault = response_fault(
                prepared.exchange_id.identity(),
                decoded.route,
                decoded.rule_id,
                decoded.packet@,
            );
            match result {
                Ok((code, exchange)) => {
                    &&& fault is None
                    &&& code == decoded.packet@.message.code
                    &&& exchange.payload@ == decoded.packet@.message.payload
                    &&& exchange.request_report@ == prepared.report@
                    &&& exchange.response_report@ == decoded.report@
                },
                Err(error) => fault == Some(error@),
            }
        }),
{
    if decoded.route != TrafficRoute::ProtectedManagement {
        return Err(
            unexpected(
                join3(
                    "management response selected ",
                    format_rule_id(decoded.rule_id).as_str(),
                    " instead of protected management",
                ).as_str(),
            ),
        );
    }
    let response = &decoded.packet;
    if response.packet.source != DEVICE_LOGICAL_ADDRESS || response.packet.destination
        != CORE_LOGICAL_ADDRESS || response.packet.source_port != MANAGEMENT_PORT
        || response.packet.destination_port != MANAGEMENT_PORT {
        return Err(unexpected("management response logical orientation is invalid"));
    }
    let code: u8 = response.message.code;
    if code / 32 < 2 || code / 32 > 5 {
        return Err(
            unexpected(
                join(
                    "management response has non-response CoAP code ",
                    decimal_string(code as u64).as_str(),
                ).as_str(),
            ),
        );
    }
    let response_exchange = ExchangeId::from_message(&response.message)?;
    let response_type: u8 = response.message.message_type;
    if response_type > COAP_ACKNOWLEDGEMENT {
        return Err(
            unexpected(
                join(
                    "management response has unsupported CoAP message type ",
                    decimal_string(response_type as u64).as_str(),
                ).as_str(),
            ),
        );
    }
    if !prepared.exchange_id.matches_response(&response_exchange, response_type) {
        return Err(
            InspectionError::Correlation("CoAP message ID or token mismatch".to_owned()),
        );
    }
    Ok(
        (
            code,
            ManagementExchange {
                payload: copy_bytes(response.message.payload.as_slice()),
                request_report: prepared.report.copy(),
                response_report: decoded.report.copy(),
            },
        ),
    )
}

fn format_rule_id(id: RuleId) -> (result: String)
    ensures
        result@ == id_text(id),
{
    let head = join3("RuleId { value: ", decimal_string(id.value).as_str(), ", bit_len: ");
    join3(head.as_str(), decimal_string(id.bit_len as u64).as_str(), " }")
}

/// A response is accepted only when it carries the request's token, and an
/// acknowledgement only when it also carries the request's message ID.
pub proof fn accepted_response_carries_the_token(
    request: (u16, Seq<u8>),
    route: TrafficRoute,
    rule_id: RuleId,
    packet: CoapPacketView,
)
    requires
        response_fault(request, route, rule_id, packet) is None,
    ensures
        packet.message.token == request.1,
        packet.message.message_type == COAP_ACKNOWLEDGEMENT ==> packet.message.message_id
            == request.0,
        route == TrafficRoute::ProtectedManagement,
        from_device(packet),
{
}

/// Which responses belong to a request: they carry its token; a separate
/// response, type zero or one, may have any message ID; an acknowledgement,
/// type two, has that of the request; and no reset, type three, is one.
pub proof fn responses_belong_by_token_and_message_id(
    message_id: u16,
    token: Seq<u8>,
    other_id: u16,
    other_token: Seq<u8>,
)
    ensures
        belongs((message_id, token), (other_id, token), 0),
        belongs((message_id, token), (other_id, token), 1),
        belongs((message_id, token), (message_id, token), 2),
        other_id != message_id ==> !belongs((message_id, token), (other_id, token), 2),
        !belongs((message_id, token), (message_id, token), 3),
        other_token != token ==> !belongs((message_id, token), (message_id, other_token), 0)
            && !belongs((message_id, token), (message_id, other_token), 1) && !belongs(
            (message_id, token),
            (message_id, other_token),
            2,
        ),
{
}

/// An accepted response travelled from the management endpoint of the device,
/// 2001:db8::1 port 8724, to that of the core, 2001:db8::2 port 8724, has a
/// response code of class two to five and is no reset.
pub proof fn accepted_response_comes_from_the_device(
    request: (u16, Seq<u8>),
    route: TrafficRoute,
    rule_id: RuleId,
    packet: CoapPacketView,
)
    requires
        response_fault(request, route, rule_id, packet) is None,
    ensures
        packet.packet.source == 0x2001_0db8_0000_0000_0000_0000_0000_0001,
        packet.packet.destination == 0x2001_0db8_0000_0000_0000_0000_0000_0002,
        packet.packet.source_port == 8724,
        packet.packet.destination_port == 8724,
        64 <= packet.message.code < 192,
        packet.message.message_type <= 2,
        packet.message.token.len() <= 8,
{
}

/// A response is accepted whenever it travelled that way under protected
/// management, has a response code, the request's token and, as an
/// acknowledgement, the request's message ID.
pub proof fn matching_response_is_accepted(
    request: (u16, Seq<u8>),
    rule_id: RuleId,
    packet: CoapPacketView,
)
    requires
        packet.packet.source == 0x2001_0db8_0000_0000_0000_0000_0000_0001,
        packet.packet.destination == 0x2001_0db8_0000_0000_0000_0000_0000_0002,
        packet.packet.source_port == 8724,
        packet.packet.destination_port == 8724,
        64 <= packet.message.code < 192,
        packet.message.token == request.1,
        request.1.len() <= 8,
        packet.message.message_type <= 1 || (packet.message.message_type == 2
            && packet.message.message_id == request.0),
    ensures
        response_fault(request, TrafficRoute::ProtectedManagement, rule_id, packet) is None,
        response_fault(request, TrafficRoute::Application, rule_id, packet) is Some,
{
}

/// Message IDs stay below 128 and follow one another; the one after 127 is
/// zero, as is the one after any number outside the window.
pub proof fn message_ids_follow_one_another(next: u16)
    ensures
        next < 128 ==> allocated_id(next) == next,
        next >= 128 ==> allocated_id(next) == 0,
{
}

/// The empty policy leaves a request without a token and the sequence as it
/// is; a generated token is the next number in eight bytes, the most
/// significant first, and the sequence goes on by one, from its end to zero.
pub proof fn tokens_follow_their_policy(next: u64)
    ensures
        policy_token(TokenPolicy::Empty, next).len() == 0,
        next_number(TokenPolicy::Empty, next) == next,
        policy_token(TokenPolicy::Generated, next).len() == 8,
        bytes_value(policy_token(TokenPolicy::Generated, next)) == next,
        next < u64::MAX ==> next_number(TokenPolicy::Generated, next) == next + 1,
        next == u64::MAX ==> next_number(TokenPolicy::Generated, next) == 0,
{
    number_bytes_are_big_endian(next as nat);
}

/// A request is prepared only where its packet carries the wire datagram from
/// the core, 2001:db8::2 port 8724, to the device, 2001:db8::1 port 8724, its
/// compression is that of the packet, and the selected rule is protected.
pub proof fn prepared_request_goes_to_the_device(
    wire: Seq<u8>,
    packet: Result<Ipv6UdpCoapPacket, String>,
    encoded: Result<LinkEncoding, LinkError>,
)
    requires
        preparation_fault(wire, packet, encoded) is None,
    ensures
        packet is Ok,
        encoded is Ok,
        packet->Ok_0.datagram@ == wire,
        packet->Ok_0.packet.source == 0x2001_0db8_0000_0000_0000_0000_0000_0002,
        packet->Ok_0.packet.destination == 0x2001_0db8_0000_0000_0000_0000_0000_0001,
        packet->Ok_0.packet.source_port == 8724,
        packet->Ok_0.packet.destination_port == 8724,
        encoded->Ok_0.report.packet_bytes@ == packet->Ok_0.packet.bytes@,
        encoded->Ok_0.report.traffic_class == TrafficClass::ProtectedManagement,
        packet->Ok_0.message.token@.len() <= 8,
{
}

/// A request that expects no answer is never prepared for one, and any other
/// request is sent with the token that it was given.
pub proof fn one_way_request_is_not_tracked(
    datagram: Seq<u8>,
    token: Seq<u8>,
    outcome: Result<Seq<u8>, Fault>,
)
    requires
        wire_outcome(datagram, token, outcome),
    ensures
        coap_read(datagram) is Some && duplicate_shape(coap_read(datagram)->0) ==> outcome is Err,
        coap_read(datagram) is None || !duplicate_shape(coap_read(datagram)->0) ==> token_outcome(
            datagram,
            token,
            outcome,
        ),
{
}

} // verus!
