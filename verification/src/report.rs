//! Byte accounting of one link report: what each layer of a packet costs.

use vstd::prelude::*;

use crate::coap::{options_view, Coap, CoapMessage, CoapOption};
use crate::duplicate_cost::{
    account_payload, answered_cost, cost_accounts_for_every_byte, cost_view, CostView,
    DuplicateRpcCost, RpcAnswers,
};
use crate::duplicate_operation::answers_view;
use crate::error::{Fault, InspectionError};
use crate::link::{duplicate_rule_id, LinkReport, ReportView};
use crate::number::{bytes_to_u64, bytes_value};
use crate::packet::{
    CoapPacketView, Ipv6UdpCoapPacket, PacketView, IPV6_HEADER_LEN, IPV6_VERSION, UDP_HEADER_LEN,
};
use crate::service::decoded_view;
use crate::text::{decimal, decimal_string, join, join3};

verus! {

/// Direction shown by a packet report.
#[derive(Debug, Clone, Copy, PartialEq, Eq, Structural)]
pub enum ReportDirection {
    /// Packet is being transmitted.
    Tx,
    /// Packet is being received.
    Rx,
}

impl ReportDirection {
    /// The label of this direction.
    pub open spec fn labelled(self) -> Seq<char> {
        match self {
            ReportDirection::Tx => "TX"@,
            ReportDirection::Rx => "RX"@,
        }
    }

    /// Returns the label of this direction.
    pub fn label(self) -> (result: &'static str)
        ensures
            result@ == self.labelled(),
    {
        match self {
            ReportDirection::Tx => "TX",
            ReportDirection::Rx => "RX",
        }
    }
}

/// Errors returned when a packet report cannot be safely generated.
#[derive(Debug)]
pub enum ReportError {
    /// The report packet is malformed or internally inconsistent.
    InvalidPacket(String),
    /// The SCHC bit accounting is inconsistent with the padded frame.
    InvalidSchc(String),
}

/// A report error as a mathematical value.
pub enum ReportFault {
    /// The report packet is malformed or internally inconsistent.
    InvalidPacket(Seq<char>),
    /// The SCHC bit accounting is inconsistent with the padded frame.
    InvalidSchc(Seq<char>),
}

impl View for ReportError {
    type V = ReportFault;

    open spec fn view(&self) -> ReportFault {
        match self {
            ReportError::InvalidPacket(text) => ReportFault::InvalidPacket(text@),
            ReportError::InvalidSchc(text) => ReportFault::InvalidSchc(text@),
        }
    }
}

impl ReportFault {
    /// The text that describes this error.
    pub open spec fn described(self) -> Seq<char> {
        match self {
            ReportFault::InvalidPacket(text) => "packet report rejected: "@ + text,
            ReportFault::InvalidSchc(text) => "packet report SCHC accounting failed: "@ + text,
        }
    }
}

impl ReportError {
    /// Returns the text that describes this error.
    pub fn message(&self) -> (result: String)
        ensures
            result@ == self@.described(),
    {
        match self {
            ReportError::InvalidPacket(text) => join("packet report rejected: ", text.as_str()),
            ReportError::InvalidSchc(text) => join(
                "packet report SCHC accounting failed: ",
                text.as_str(),
            ),
        }
    }
}

fn invalid_packet(text: &str) -> (result: ReportError)
    ensures
        result@ == ReportFault::InvalidPacket(text@),
{
    ReportError::InvalidPacket(text.to_owned())
}

fn invalid_schc(text: &str) -> (result: ReportError)
    ensures
        result@ == ReportFault::InvalidSchc(text@),
{
    ReportError::InvalidSchc(text.to_owned())
}

/// Exact encoded cost of one CoAP option.
#[derive(Debug, Clone, Copy, PartialEq, Eq, Structural)]
pub struct CoapOptionCost {
    /// Absolute option number.
    pub number: u32,
    /// Encoded option value length.
    pub value_bytes: usize,
    /// Shared one-byte option header.
    pub header_bytes: usize,
    /// Extended delta bytes, excluding the shared header.
    pub delta_extension_bytes: usize,
    /// Extended length bytes, excluding the shared header.
    pub length_extension_bytes: usize,
    /// Total encoded option cost.
    pub encoded_bytes: usize,
}

/// Exact byte cost of a CoAP datagram.
#[derive(Debug)]
pub struct CoapCost {
    /// Fixed four-byte CoAP base header.
    pub base_header_bytes: usize,
    /// Token bytes.
    pub token_bytes: usize,
    /// Options in encoded order.
    pub options: Vec<CoapOptionCost>,
    /// Payload marker bytes, either zero or one.
    pub payload_marker_bytes: usize,
    /// CoAP payload bytes.
    pub payload_bytes: usize,
    /// Complete CoAP datagram size.
    pub total_bytes: usize,
}

/// The cost of a CoAP datagram as a mathematical value.
pub struct CoapCostView {
    /// Fixed four-byte CoAP base header.
    pub base_header_bytes: usize,
    /// Token bytes.
    pub token_bytes: usize,
    /// Options in encoded order.
    pub options: Seq<CoapOptionCost>,
    /// Payload marker bytes, either zero or one.
    pub payload_marker_bytes: usize,
    /// CoAP payload bytes.
    pub payload_bytes: usize,
    /// Complete CoAP datagram size.
    pub total_bytes: usize,
}

impl View for CoapCost {
    type V = CoapCostView;

    open spec fn view(&self) -> CoapCostView {
        CoapCostView {
            base_header_bytes: self.base_header_bytes,
            token_bytes: self.token_bytes,
            options: self.options@,
            payload_marker_bytes: self.payload_marker_bytes,
            payload_bytes: self.payload_bytes,
            total_bytes: self.total_bytes,
        }
    }
}

/// Exact byte cost of the IPv6 and UDP layers.
#[derive(Debug)]
pub struct PacketLayerCost {
    /// IPv6 base-header bytes.
    pub ipv6_header_bytes: usize,
    /// UDP header bytes.
    pub udp_header_bytes: usize,
    /// CoAP datagram cost.
    pub coap: CoapCost,
    /// Complete packet size.
    pub packet_bytes: usize,
}

/// The cost of the layers as a mathematical value.
pub struct LayersView {
    /// IPv6 base-header bytes.
    pub ipv6_header_bytes: usize,
    /// UDP header bytes.
    pub udp_header_bytes: usize,
    /// CoAP datagram cost.
    pub coap: CoapCostView,
    /// Complete packet size.
    pub packet_bytes: usize,
}

impl View for PacketLayerCost {
    type V = LayersView;

    open spec fn view(&self) -> LayersView {
        LayersView {
            ipv6_header_bytes: self.ipv6_header_bytes,
            udp_header_bytes: self.udp_header_bytes,
            coap: self.coap@,
            packet_bytes: self.packet_bytes,
        }
    }
}

/// Exact SCHC meaningful-bit and padding cost.
#[derive(Debug, Clone, Copy, PartialEq, Eq, Structural)]
pub struct SchcCost {
    /// Meaningful encoded SCHC bits.
    pub meaningful_bits: usize,
    /// Padded transmitted frame bytes.
    pub padded_bytes: usize,
    /// Byte padding bits.
    pub padding_bits: usize,
}

/// IPv6 fields shown in debug reports.
#[derive(Debug)]
pub struct Ipv6Report {
    /// IPv6 version.
    pub version: u8,
    /// Traffic class.
    pub traffic_class: u8,
    /// Flow label.
    pub flow_label: u32,
    /// Declared payload length.
    pub payload_length: u16,
    /// Next-header value.
    pub next_header: u8,
    /// Hop limit.
    pub hop_limit: u8,
    /// Source address.
    pub source: String,
    /// Destination address.
    pub destination: String,
}

/// IPv6 fields as a mathematical value.
pub struct Ipv6View {
    /// IPv6 version.
    pub version: u8,
    /// Traffic class.
    pub traffic_class: u8,
    /// Flow label.
    pub flow_label: u32,
    /// Declared payload length.
    pub payload_length: u16,
    /// Next-header value.
    pub next_header: u8,
    /// Hop limit.
    pub hop_limit: u8,
    /// Source address.
    pub source: Seq<char>,
    /// Destination address.
    pub destination: Seq<char>,
}

impl View for Ipv6Report {
    type V = Ipv6View;

    open spec fn view(&self) -> Ipv6View {
        Ipv6View {
            version: self.version,
            traffic_class: self.traffic_class,
            flow_label: self.flow_label,
            payload_length: self.payload_length,
            next_header: self.next_header,
            hop_limit: self.hop_limit,
            source: self.source@,
            destination: self.destination@,
        }
    }
}

/// UDP fields shown in debug reports.
#[derive(Debug, Clone, Copy, PartialEq, Eq, Structural)]
pub struct UdpReport {
    /// Source port.
    pub source_port: u16,
    /// Destination port.
    pub destination_port: u16,
    /// Declared UDP length.
    pub length: u16,
    /// UDP checksum.
    pub checksum: u16,
}

/// One decoded CoAP option description.
#[derive(Debug)]
pub struct CoapOptionDescription {
    /// Option number.
    pub number: u32,
    /// Stable human-readable option name.
    pub name: &'static str,
    /// Decoded value suitable for plain-text display.
    pub value: String,
}

/// An option description as a mathematical value.
pub struct OptionView {
    /// Option number.
    pub number: u32,
    /// Stable human-readable option name.
    pub name: Seq<char>,
    /// Decoded value.
    pub value: Seq<char>,
}

impl View for CoapOptionDescription {
    type V = OptionView;

    open spec fn view(&self) -> OptionView {
        OptionView { number: self.number, name: self.name@, value: self.value@ }
    }
}

/// The descriptions of a list.
pub open spec fn descriptions_view(list: Seq<CoapOptionDescription>) -> Seq<OptionView> {
    Seq::new(list.len(), |i: int| list[i]@)
}

/// CoAP fields shown in debug reports.
#[derive(Debug)]
pub struct CoapReport {
    /// CoAP version.
    pub version: u8,
    /// Message type.
    pub message_type: u8,
    /// Request or response code.
    pub code: u8,
    /// Message ID.
    pub message_id: u16,
    /// Token length.
    pub token_bytes: usize,
    /// Safe human-readable token value.
    pub token: String,
    /// Option values in encoded order.
    pub options: Vec<CoapOptionDescription>,
    /// Payload length.
    pub payload_bytes: usize,
}

/// CoAP fields as a mathematical value.
pub struct CoapReportView {
    /// CoAP version.
    pub version: u8,
    /// Message type.
    pub message_type: u8,
    /// Request or response code.
    pub code: u8,
    /// Message ID.
    pub message_id: u16,
    /// Token length.
    pub token_bytes: nat,
    /// Safe human-readable token value.
    pub token: Seq<char>,
    /// Option values in encoded order.
    pub options: Seq<OptionView>,
    /// Payload length.
    pub payload_bytes: nat,
}

impl View for CoapReport {
    type V = CoapReportView;

    open spec fn view(&self) -> CoapReportView {
        CoapReportView {
            version: self.version,
            message_type: self.message_type,
            code: self.code,
            message_id: self.message_id,
            token_bytes: self.token_bytes as nat,
            token: self.token@,
            options: descriptions_view(self.options@),
            payload_bytes: self.payload_bytes as nat,
        }
    }
}

/// All independently testable costs used by one rendered report.
#[derive(Debug)]
pub struct PacketReport {
    /// Parsed IPv6 metadata.
    pub ipv6: Ipv6Report,
    /// Parsed UDP metadata.
    pub udp: UdpReport,
    /// Parsed CoAP metadata and costs.
    pub coap: CoapReport,
    /// Layer byte-cost proof.
    pub layers: PacketLayerCost,
    /// SCHC bit-cost proof.
    pub schc: SchcCost,
    /// Specialized duplicate-rule description, when applicable.
    pub rpc: Option<DuplicateRpcCost>,
}

/// A packet report as a mathematical value.
pub struct PacketReportView {
    /// Parsed IPv6 metadata.
    pub ipv6: Ipv6View,
    /// Parsed UDP metadata.
    pub udp: UdpReport,
    /// Parsed CoAP metadata and costs.
    pub coap: CoapReportView,
    /// Layer byte costs.
    pub layers: LayersView,
    /// SCHC bit costs.
    pub schc: SchcCost,
    /// Specialized duplicate-rule description, when applicable.
    pub rpc: Option<CostView>,
}

/// The accounting of an optional operation.
pub open spec fn rpc_view(rpc: Option<DuplicateRpcCost>) -> Option<CostView> {
    match rpc {
        Some(cost) => Some(cost@),
        None => None,
    }
}

impl View for PacketReport {
    type V = PacketReportView;

    open spec fn view(&self) -> PacketReportView {
        PacketReportView {
            ipv6: self.ipv6@,
            udp: self.udp,
            coap: self.coap@,
            layers: self.layers@,
            schc: self.schc,
            rpc: rpc_view(self.rpc),
        }
    }
}

/// The bytes that an extended nibble takes.
pub open spec fn extension_size(nibble: int) -> int {
    if nibble == 13 {
        1
    } else if nibble == 14 {
        2
    } else {
        0
    }
}

fn extended_bytes(nibble: u8) -> (result: usize)
    ensures
        result == extension_size(nibble as int),
{
    if nibble == 13 {
        1
    } else if nibble == 14 {
        2
    } else {
        0
    }
}

/// The value of a nibble with its extension, which begins at an offset.
pub open spec fn extended_value(nibble: int, bytes: Seq<u8>, offset: int, label: Seq<char>) -> Result<
    nat,
    ReportFault,
> {
    if nibble <= 12 {
        Ok(nibble as nat)
    } else if nibble == 13 {
        if offset >= bytes.len() {
            Err(ReportFault::InvalidPacket("CoAP "@ + label + " extension is truncated"@))
        } else {
            Ok((bytes[offset] + 13) as nat)
        }
    } else if nibble == 14 {
        if offset + 2 > usize::MAX {
            Err(ReportFault::InvalidPacket("CoAP "@ + label + " extension overflows"@))
        } else if offset + 2 > bytes.len() {
            Err(ReportFault::InvalidPacket("CoAP "@ + label + " extension is truncated"@))
        } else {
            Ok((bytes[offset] * 256 + bytes[offset + 1] + 269) as nat)
        }
    } else {
        Err(ReportFault::InvalidPacket("CoAP "@ + label + " uses reserved nibble"@))
    }
}

fn read_coap_extended(nibble: u8, bytes: &[u8], offset: usize, label: &str) -> (result: Result<
    (u32, usize),
    ReportError,
>)
    requires
        offset <= bytes@.len(),
    ensures
        match result {
            Ok((value, next)) => {
                &&& extended_value(nibble as int, bytes@, offset as int, label@) == Ok::<
                    nat,
                    ReportFault,
                >(value as nat)
                &&& next == offset + extension_size(nibble as int)
                &&& next <= bytes@.len()
                &&& value <= 0x1_010c
            },
            Err(error) => extended_value(nibble as int, bytes@, offset as int, label@) == Err::<
                nat,
                ReportFault,
            >(error@),
        },
{
    if nibble <= 12 {
        return Ok((nibble as u32, offset));
    }
    if nibble == 13 {
        if offset >= bytes.len() {
            return Err(
                invalid_packet(join3("CoAP ", label, " extension is truncated").as_str()),
            );
        }
        return Ok((bytes[offset] as u32 + 13, offset + 1));
    }
    if nibble == 14 {
        let end: usize = match offset.checked_add(2) {
            Some(end) => end,
            None => {
                return Err(
                    invalid_packet(join3("CoAP ", label, " extension overflows").as_str()),
                );
            },
        };
        if end > bytes.len() {
            return Err(
                invalid_packet(join3("CoAP ", label, " extension is truncated").as_str()),
            );
        }
        let value: u32 = bytes[offset] as u32 * 256 + bytes[offset + 1] as u32 + 269;
        return Ok((value, end));
    }
    Err(invalid_packet(join3("CoAP ", label, " uses reserved nibble").as_str()))
}

/// One encoded option: its cost and where it ends.
pub open spec fn option_at(bytes: Seq<u8>, start: int, previous: nat) -> Result<
    (CoapOptionCost, int),
    ReportFault,
> {
    let high = bytes[start] as int / 16;
    let low = bytes[start] as int % 16;
    let after_delta = start + 1 + extension_size(high);
    let after_length = after_delta + extension_size(low);
    match extended_value(high, bytes, start + 1, "delta"@) {
        Err(fault) => Err(fault),
        Ok(delta) => match extended_value(low, bytes, after_delta, "length"@) {
            Err(fault) => Err(fault),
            Ok(length) => if previous + delta > u32::MAX {
                Err(ReportFault::InvalidPacket("CoAP option number overflow"@))
            } else if after_length + length > usize::MAX {
                Err(ReportFault::InvalidPacket("CoAP option length overflow"@))
            } else if after_length + length > bytes.len() {
                Err(ReportFault::InvalidPacket("CoAP option exceeds datagram"@))
            } else {
                Ok(
                    (
                        CoapOptionCost {
                            number: (previous + delta) as u32,
                            value_bytes: length as usize,
                            header_bytes: 1,
                            delta_extension_bytes: extension_size(high) as usize,
                            length_extension_bytes: extension_size(low) as usize,
                            encoded_bytes: (after_length + length - start) as usize,
                        },
                        after_length + length,
                    ),
                )
            },
        },
    }
}

/// The options of a datagram from an offset on, and where its payload begins.
pub open spec fn options_from(bytes: Seq<u8>, offset: int, previous: nat) -> Result<
    (Seq<CoapOptionCost>, int),
    ReportFault,
>
    decreases bytes.len() - offset,
{
    if offset < 0 || offset >= bytes.len() {
        Ok((Seq::empty(), offset))
    } else if bytes[offset] == 0xff {
        if offset + 1 >= bytes.len() {
            Err(ReportFault::InvalidPacket("CoAP payload marker has no payload"@))
        } else {
            Ok((Seq::empty(), offset + 1))
        }
    } else {
        match option_at(bytes, offset, previous) {
            Err(fault) => Err(fault),
            Ok((cost, end)) => if end <= offset {
                Ok((Seq::empty(), offset))
            } else {
                match options_from(bytes, end, cost.number as nat) {
                    Err(fault) => Err(fault),
                    Ok((rest, payload)) => Ok((seq![cost] + rest, payload)),
                }
            },
        }
    }
}

fn read_option(bytes: &[u8], start: usize, previous: u32) -> (result: Result<
    (CoapOptionCost, usize),
    ReportError,
>)
    requires
        start < bytes@.len(),
    ensures
        match result {
            Ok((cost, end)) => option_at(bytes@, start as int, previous as nat) == Ok::<
                (CoapOptionCost, int),
                ReportFault,
            >((cost, end as int)) && start < end <= bytes@.len(),
            Err(error) => option_at(bytes@, start as int, previous as nat) == Err::<
                (CoapOptionCost, int),
                ReportFault,
            >(error@),
        },
{
    let header: u8 = bytes[start];
    let (delta, after_delta) = read_coap_extended(header / 16, bytes, start + 1, "delta")?;
    let (length, after_length) = read_coap_extended(header % 16, bytes, after_delta, "length")?;
    let number: u32 = match previous.checked_add(delta) {
        Some(number) => number,
        None => {
            return Err(invalid_packet("CoAP option number overflow"));
        },
    };
    let end: usize = match after_length.checked_add(length as usize) {
        Some(end) => end,
        None => {
            return Err(invalid_packet("CoAP option length overflow"));
        },
    };
    if end > bytes.len() {
        return Err(invalid_packet("CoAP option exceeds datagram"));
    }
    let cost = CoapOptionCost {
        number,
        value_bytes: length as usize,
        header_bytes: 1,
        delta_extension_bytes: extended_bytes(header / 16),
        length_extension_bytes: extended_bytes(header % 16),
        encoded_bytes: end - start,
    };
    Ok((cost, end))
}

fn read_options(bytes: &[u8], start: usize) -> (result: Result<
    (Vec<CoapOptionCost>, usize),
    ReportError,
>)
    requires
        start <= bytes@.len(),
    ensures
        match result {
            Ok((options, payload)) => options_from(bytes@, start as int, 0) == Ok::<
                (Seq<CoapOptionCost>, int),
                ReportFault,
            >((options@, payload as int)) && start <= payload <= bytes@.len(),
            Err(error) => options_from(bytes@, start as int, 0) == Err::<
                (Seq<CoapOptionCost>, int),
                ReportFault,
            >(error@),
        },
{
    let mut options: Vec<CoapOptionCost> = Vec::new();
    let mut offset: usize = start;
    let mut previous: u32 = 0;
    let ghost whole = options_from(bytes@, start as int, 0);
    proof {
        match whole {
            Ok((rest, _)) => {
                assert(options@ + rest =~= rest);
            },
            Err(_) => {},
        }
    }
    while offset < bytes.len()
        invariant
            start <= offset <= bytes@.len(),
            whole == options_from(bytes@, start as int, 0),
            match options_from(bytes@, offset as int, previous as nat) {
                Ok((rest, payload)) => whole == Ok::<(Seq<CoapOptionCost>, int), ReportFault>(
                    (options@ + rest, payload),
                ),
                Err(fault) => whole == Err::<(Seq<CoapOptionCost>, int), ReportFault>(fault),
            },
        decreases bytes.len() - offset,
    {
        let length: usize = bytes.len();
        if bytes[offset] == 0xff {
            if offset + 1 >= length {
                return Err(invalid_packet("CoAP payload marker has no payload"));
            }
            assert(options@ + Seq::<CoapOptionCost>::empty() =~= options@);
            return Ok((options, offset + 1));
        }
        let (cost, end) = read_option(bytes, offset, previous)?;
        let ghost before = options@;
        options.push(cost);
        proof {
            match options_from(bytes@, end as int, cost.number as nat) {
                Ok((rest, _)) => {
                    assert(before + (seq![cost] + rest) =~= options@ + rest);
                },
                Err(_) => {},
            }
        }
        previous = cost.number;
        offset = end;
    }
    assert(options@ + Seq::<CoapOptionCost>::empty() =~= options@);
    Ok((options, offset))
}

/// Whether the costs of options belong to the options of a message.
pub open spec fn costs_match(costs: Seq<CoapOptionCost>, options: Seq<(u16, Seq<u8>)>) -> bool {
    forall|i: int|
        0 <= i < costs.len() ==> (#[trigger] costs[i]).number == options[i].0
            && costs[i].value_bytes == options[i].1.len()
}

/// The cost of a CoAP datagram that holds a message.
pub open spec fn coap_cost(bytes: Seq<u8>, message: Coap) -> Result<CoapCostView, ReportFault> {
    if bytes.len() < 4 {
        Err(ReportFault::InvalidPacket("CoAP datagram is shorter than four bytes"@))
    } else {
        let token = bytes[0] as int % 16;
        if 4 + token > bytes.len() || token != message.token.len() {
            Err(ReportFault::InvalidPacket("CoAP token length is inconsistent"@))
        } else {
            match options_from(bytes, 4 + token, 0) {
                Err(fault) => Err(fault),
                Ok((options, offset)) => {
                    let payload = bytes.len() - offset;
                    if options.len() != message.options.len() || payload != message.payload.len() {
                        Err(
                            ReportFault::InvalidPacket(
                                "CoAP parsed fields do not match encoded datagram"@,
                            ),
                        )
                    } else if !costs_match(options, message.options) {
                        Err(
                            ReportFault::InvalidPacket(
                                "CoAP option cost does not match parsed option"@,
                            ),
                        )
                    } else {
                        Ok(
                            CoapCostView {
                                base_header_bytes: 4,
                                token_bytes: token as usize,
                                options,
                                payload_marker_bytes: if payload != 0 {
                                    1
                                } else {
                                    0
                                },
                                payload_bytes: payload as usize,
                                total_bytes: bytes.len() as usize,
                            },
                        )
                    }
                },
            }
        }
    }
}

fn check_costs(costs: &Vec<CoapOptionCost>, message: &CoapMessage) -> (result: bool)
    requires
        costs@.len() == message.options@.len(),
    ensures
        result == costs_match(costs@, message@.options),
{
    let ghost view = options_view(message.options@);
    let mut index: usize = 0;
    while index < costs.len()
        invariant
            index <= costs@.len(),
            costs@.len() == message.options@.len(),
            view == options_view(message.options@),
            view == message@.options,
            forall|i: int|
                0 <= i < index ==> (#[trigger] costs@[i]).number == view[i].0
                    && costs@[i].value_bytes == view[i].1.len(),
        decreases costs.len() - index,
    {
        let option = &message.options[index];
        assert(view[index as int] == (option.number, option.value@));
        if costs[index].number != option.number as u32 || costs[index].value_bytes
            != option.value.len() {
            assert(costs@[index as int].number != view[index as int].0
                || costs@[index as int].value_bytes != view[index as int].1.len());
            return false;
        }
        index += 1;
    }
    true
}

/// Accounts for every byte of a CoAP datagram that holds a message.
pub fn inspect_coap(bytes: &[u8], message: &CoapMessage) -> (result: Result<CoapCost, ReportError>)
    ensures
        match result {
            Ok(cost) => coap_cost(bytes@, message@) == Ok::<CoapCostView, ReportFault>(cost@),
            Err(error) => coap_cost(bytes@, message@) == Err::<CoapCostView, ReportFault>(error@),
        },
{
    if bytes.len() < 4 {
        return Err(invalid_packet("CoAP datagram is shorter than four bytes"));
    }
    let token: usize = (bytes[0] % 16) as usize;
    if 4 + token > bytes.len() || token != message.token.len() {
        return Err(invalid_packet("CoAP token length is inconsistent"));
    }
    let (options, offset) = read_options(bytes, 4 + token)?;
    let payload: usize = bytes.len() - offset;
    assert(message@.options.len() == message.options@.len());
    if options.len() != message.options.len() || payload != message.payload.len() {
        return Err(invalid_packet("CoAP parsed fields do not match encoded datagram"));
    }
    if !check_costs(&options, message) {
        return Err(invalid_packet("CoAP option cost does not match parsed option"));
    }
    let marker: usize = if payload != 0 {
        1
    } else {
        0
    };
    Ok(
        CoapCost {
            base_header_bytes: 4,
            token_bytes: token,
            options,
            payload_marker_bytes: marker,
            payload_bytes: payload,
            total_bytes: bytes.len(),
        },
    )
}

/// The encoded size of some options.
pub open spec fn encoded_size(options: Seq<CoapOptionCost>) -> nat
    decreases options.len(),
{
    if options.len() == 0 {
        0
    } else {
        encoded_size(options.drop_last()) + options.last().encoded_bytes as nat
    }
}

/// The parts of a CoAP datagram without its payload.
pub open spec fn coap_overhead(cost: CoapCostView) -> nat {
    (cost.base_header_bytes + cost.token_bytes + encoded_size(cost.options)
        + cost.payload_marker_bytes) as nat
}

/// All parts of a CoAP datagram together.
pub open spec fn coap_total(cost: CoapCostView) -> nat {
    (coap_overhead(cost) + cost.payload_bytes) as nat
}

proof fn lemma_encoded_size_front(first: CoapOptionCost, rest: Seq<CoapOptionCost>)
    ensures
        encoded_size(seq![first] + rest) == first.encoded_bytes + encoded_size(rest),
    decreases rest.len(),
{
    let all = seq![first] + rest;
    if rest.len() == 0 {
        assert(all.drop_last() =~= Seq::<CoapOptionCost>::empty());
        assert(encoded_size(all.drop_last()) == 0);
        assert(all.last() == first);
    } else {
        lemma_encoded_size_front(first, rest.drop_last());
        assert(all.drop_last() =~= seq![first] + rest.drop_last());
        assert(all.last() == rest.last());
    }
}

proof fn lemma_options_add_up(bytes: Seq<u8>, offset: int, previous: nat)
    requires
        0 <= offset <= bytes.len() <= usize::MAX,
        options_from(bytes, offset, previous) is Ok,
    ensures
        ({
            let (options, payload) = options_from(bytes, offset, previous)->Ok_0;
            &&& payload <= bytes.len()
            &&& offset + encoded_size(options) == payload || (offset + encoded_size(options) + 1
                == payload && payload < bytes.len())
            &&& payload == bytes.len() || offset + encoded_size(options) + 1 == payload
            &&& forall|i: int|
                0 <= i < options.len() ==> ({
                    let option = #[trigger] options[i];
                    option.header_bytes + option.delta_extension_bytes
                        + option.length_extension_bytes + option.value_bytes
                        == option.encoded_bytes
                })
        }),
    decreases bytes.len() - offset,
{
    if offset < bytes.len() && bytes[offset] != 0xff {
        let (cost, end) = option_at(bytes, offset, previous)->Ok_0;
        assert(offset < end <= bytes.len());
        lemma_options_add_up(bytes, end, cost.number as nat);
        let (rest, payload) = options_from(bytes, end, cost.number as nat)->Ok_0;
        lemma_encoded_size_front(cost, rest);
        let options = options_from(bytes, offset, previous)->Ok_0.0;
        assert(options == seq![cost] + rest);
        assert forall|i: int| 0 <= i < options.len() implies ({
            let option = #[trigger] options[i];
            option.header_bytes + option.delta_extension_bytes + option.length_extension_bytes
                + option.value_bytes == option.encoded_bytes
        }) by {
            if i > 0 {
                assert(options[i] == rest[i - 1]);
            }
        }
    }
}

/// The parts of an accepted accounting add up: header, extensions and value to
/// each option, and header, token, options, marker and payload to the datagram.
pub proof fn coap_cost_adds_up(bytes: Seq<u8>, message: Coap)
    requires
        bytes.len() <= usize::MAX,
        coap_cost(bytes, message) is Ok,
    ensures
        ({
            let cost = coap_cost(bytes, message)->Ok_0;
            &&& coap_total(cost) == bytes.len()
            &&& cost.total_bytes == bytes.len()
            &&& forall|i: int|
                0 <= i < cost.options.len() ==> ({
                    let option = #[trigger] cost.options[i];
                    option.header_bytes + option.delta_extension_bytes
                        + option.length_extension_bytes + option.value_bytes
                        == option.encoded_bytes
                })
        }),
{
    let token = bytes[0] as int % 16;
    lemma_options_add_up(bytes, 4 + token, 0);
}

/// The text that `String::from_utf8_lossy` reads from a byte string.
pub uninterp spec fn lossy_text(bytes: Seq<u8>) -> Seq<char>;

/// Calls `String::from_utf8_lossy` and returns the text: the characters that
/// the bytes encode where they are valid UTF-8. What stands for bytes that are
/// not valid is left open.
#[verifier::external_body]
fn read_lossy(bytes: &[u8]) -> (result: String)
    ensures
        result@ == lossy_text(bytes@),
        vstd::utf8::valid_utf8(bytes@) ==> result@ == vstd::utf8::decode_utf8(bytes@),
{
    String::from_utf8_lossy(bytes).into_owned()
}

/// The stable name of an option.
pub open spec fn option_label(number: u16) -> Seq<char> {
    if number == 1 {
        "If-Match"@
    } else if number == 3 {
        "Uri-Host"@
    } else if number == 4 {
        "ETag"@
    } else if number == 5 {
        "If-None-Match"@
    } else if number == 6 {
        "Observe"@
    } else if number == 7 {
        "Uri-Port"@
    } else if number == 8 {
        "Location-Path"@
    } else if number == 11 {
        "Uri-Path"@
    } else if number == 12 {
        "Content-Format"@
    } else if number == 14 {
        "Max-Age"@
    } else if number == 15 {
        "Uri-Query"@
    } else if number == 17 {
        "Accept"@
    } else if number == 20 {
        "Location-Query"@
    } else if number == 23 {
        "Block2"@
    } else if number == 27 {
        "Block1"@
    } else if number == 35 {
        "Proxy-Uri"@
    } else if number == 39 {
        "Proxy-Scheme"@
    } else if number == 60 {
        "Size1"@
    } else {
        "Option"@
    }
}

/// Returns the stable name of an option.
pub fn option_name(number: u16) -> (result: &'static str)
    ensures
        result@ == option_label(number),
{
    if number == 1 {
        "If-Match"
    } else if number == 3 {
        "Uri-Host"
    } else if number == 4 {
        "ETag"
    } else if number == 5 {
        "If-None-Match"
    } else if number == 6 {
        "Observe"
    } else if number == 7 {
        "Uri-Port"
    } else if number == 8 {
        "Location-Path"
    } else if number == 11 {
        "Uri-Path"
    } else if number == 12 {
        "Content-Format"
    } else if number == 14 {
        "Max-Age"
    } else if number == 15 {
        "Uri-Query"
    } else if number == 17 {
        "Accept"
    } else if number == 20 {
        "Location-Query"
    } else if number == 23 {
        "Block2"
    } else if number == 27 {
        "Block1"
    } else if number == 35 {
        "Proxy-Uri"
    } else if number == 39 {
        "Proxy-Scheme"
    } else if number == 60 {
        "Size1"
    } else {
        "Option"
    }
}

/// How an unsigned option value is shown.
pub open spec fn unsigned_text(bytes: Seq<u8>) -> Seq<char> {
    if bytes.len() > 8 {
        "binary "@ + decimal(bytes.len()) + " B"@
    } else {
        decimal(bytes_value(bytes))
    }
}

fn decode_unsigned(bytes: &[u8]) -> (result: String)
    ensures
        result@ == unsigned_text(bytes@),
{
    match bytes_to_u64(bytes) {
        Some(value) => decimal_string(value),
        None => join3("binary ", decimal_string(bytes.len() as u64).as_str(), " B"),
    }
}

/// How an option value is shown.
pub open spec fn option_value_text(number: u16, value: Seq<u8>) -> Seq<char> {
    if number == 1 {
        decimal(value.len()) + " B If-Match"@
    } else if number == 11 {
        lossy_text(value)
    } else if number == 12 || number == 17 || number == 23 || number == 35 || number == 60 {
        unsigned_text(value)
    } else {
        decimal(value.len()) + " B"@
    }
}

/// The description of an option.
pub open spec fn option_described(number: u16, value: Seq<u8>) -> OptionView {
    OptionView {
        number: number as u32,
        name: option_label(number),
        value: option_value_text(number, value),
    }
}

/// Describes an option.
pub fn describe_option(option: &CoapOption) -> (result: CoapOptionDescription)
    ensures
        result@ == option_described(option.number, option.value@),
{
    let number: u16 = option.number;
    let bytes = option.value.as_slice();
    let value = if number == 1 {
        join(decimal_string(bytes.len() as u64).as_str(), " B If-Match")
    } else if number == 11 {
        read_lossy(bytes)
    } else if number == 12 || number == 17 || number == 23 || number == 35 || number == 60 {
        decode_unsigned(bytes)
    } else {
        join(decimal_string(bytes.len() as u64).as_str(), " B")
    };
    CoapOptionDescription { number: number as u32, name: option_name(number), value }
}

/// The descriptions of options in their order.
pub open spec fn options_described(options: Seq<(u16, Seq<u8>)>) -> Seq<OptionView> {
    options.map_values(|option: (u16, Seq<u8>)| option_described(option.0, option.1))
}

fn describe_options(options: &Vec<CoapOption>) -> (result: Vec<CoapOptionDescription>)
    ensures
        descriptions_view(result@) == options_described(options_view(options@)),
{
    let mut list: Vec<CoapOptionDescription> = Vec::new();
    let mut index: usize = 0;
    while index < options.len()
        invariant
            index <= options@.len(),
            list@.len() == index,
            forall|i: int|
                0 <= i < index ==> (#[trigger] list@[i])@ == option_described(
                    options@[i].number,
                    options@[i].value@,
                ),
        decreases options.len() - index,
    {
        list.push(describe_option(&options[index]));
        index += 1;
    }
    assert(descriptions_view(list@) =~= options_described(options_view(options@)));
    list
}

/// Whether every byte is a visible ASCII character.
pub open spec fn all_visible(bytes: Seq<u8>) -> bool {
    forall|i: int| 0 <= i < bytes.len() ==> 0x21 <= #[trigger] bytes[i] <= 0x7e
}

/// ASCII bytes as characters.
pub open spec fn ascii_text(bytes: Seq<u8>) -> Seq<char> {
    bytes.map_values(|byte: u8| byte as char)
}

/// How a token is shown.
pub open spec fn token_text(token: Seq<u8>) -> Seq<char> {
    if token.len() == 0 {
        "empty"@
    } else if all_visible(token) {
        ascii_text(token)
    } else {
        "binary "@ + decimal(token.len()) + " B"@
    }
}

/// Describes a token without printing anything but visible characters.
pub fn describe_token(token: &[u8]) -> (result: String)
    ensures
        result@ == token_text(token@),
{
    if token.len() == 0 {
        return "empty".to_owned();
    }
    let mut text = String::new();
    let mut index: usize = 0;
    assert(text@ =~= ascii_text(token@.take(0)));
    while index < token.len()
        invariant
            index <= token@.len(),
            token@.len() > 0,
            forall|i: int| 0 <= i < index ==> 0x21 <= #[trigger] token@[i] <= 0x7e,
            text@ == ascii_text(token@.take(index as int)),
        decreases token.len() - index,
    {
        let byte: u8 = token[index];
        if byte < 0x21 || byte > 0x7e {
            assert(!all_visible(token@));
            return join3("binary ", decimal_string(token.len() as u64).as_str(), " B");
        }
        text.push(byte as char);
        assert(text@ =~= ascii_text(token@.take(index + 1)));
        index += 1;
    }
    assert(token@.take(index as int) =~= token@);
    text
}

/// A packet that was parsed from the bytes of a report, with its addresses as
/// text.
#[derive(Debug)]
pub struct ParsedPacket {
    /// The packet.
    pub packet: Ipv6UdpCoapPacket,
    /// The text of its source address.
    pub source: String,
    /// The text of its destination address.
    pub destination: String,
}

/// A parsed packet as a mathematical value.
pub struct ParsedView {
    /// The packet.
    pub packet: CoapPacketView,
    /// The text of its source address.
    pub source: Seq<char>,
    /// The text of its destination address.
    pub destination: Seq<char>,
}

impl View for ParsedPacket {
    type V = ParsedView;

    open spec fn view(&self) -> ParsedView {
        ParsedView {
            packet: self.packet@,
            source: self.source@,
            destination: self.destination@,
        }
    }
}

/// The packet of a parse, or its error text.
pub open spec fn parse_view(parsed: Result<ParsedPacket, String>) -> Result<ParsedView, Seq<char>> {
    match parsed {
        Ok(packet) => Ok(packet@),
        Err(text) => Err(text@),
    }
}

/// Why the sizes of a report contradict its bytes.
pub open spec fn sizes_fault(report: ReportView) -> Option<ReportFault> {
    if report.packet_size != report.packet_bytes.len() {
        Some(
            ReportFault::InvalidPacket(
                "packet_size="@ + decimal(report.packet_size as nat) + " but packet_bytes has "@
                    + decimal(report.packet_bytes.len()) + " bytes"@,
            ),
        )
    } else if report.padded_byte_len != report.frame_bytes.len() {
        Some(
            ReportFault::InvalidSchc(
                "padded_byte_len="@ + decimal(report.padded_byte_len as nat)
                    + " but frame_bytes has "@ + decimal(report.frame_bytes.len()) + " bytes"@,
            ),
        )
    } else {
        None
    }
}

pub(crate) fn validate_line_report(report: &LinkReport) -> (result: Result<(), ReportError>)
    ensures
        match result {
            Ok(_) => sizes_fault(report@) is None,
            Err(error) => sizes_fault(report@) == Some(error@),
        },
{
    if report.packet_size != report.packet_bytes.len() {
        let head = join3(
            "packet_size=",
            decimal_string(report.packet_size as u64).as_str(),
            " but packet_bytes has ",
        );
        return Err(
            invalid_packet(
                join3(
                    head.as_str(),
                    decimal_string(report.packet_bytes.len() as u64).as_str(),
                    " bytes",
                ).as_str(),
            ),
        );
    }
    if report.padded_byte_len != report.frame_bytes.len() {
        let head = join3(
            "padded_byte_len=",
            decimal_string(report.padded_byte_len as u64).as_str(),
            " but frame_bytes has ",
        );
        return Err(
            invalid_schc(
                join3(
                    head.as_str(),
                    decimal_string(report.frame_bytes.len() as u64).as_str(),
                    " bytes",
                ).as_str(),
            ),
        );
    }
    Ok(())
}

/// Why a report's bytes cannot be an IPv6 packet.
pub open spec fn version_fault(bytes: Seq<u8>) -> Option<ReportFault> {
    if bytes.len() < IPV6_HEADER_LEN {
        Some(
            ReportFault::InvalidPacket(
                "IPv6 packet is shorter than "@ + decimal(IPV6_HEADER_LEN as nat) + " bytes"@,
            ),
        )
    } else if bytes[0] / 16 != IPV6_VERSION {
        Some(
            ReportFault::InvalidPacket(
                "IPv6 version is "@ + decimal((bytes[0] / 16) as nat) + ", expected "@ + decimal(
                    IPV6_VERSION as nat,
                ),
            ),
        )
    } else {
        None
    }
}

/// Why the declared lengths of a packet contradict its size.
pub open spec fn lengths_fault(packet: PacketView, size: nat) -> Option<ReportFault> {
    let inside = (size - IPV6_HEADER_LEN) as nat;
    if packet.payload_length != inside {
        Some(
            ReportFault::InvalidPacket(
                "IPv6 payload length is "@ + decimal(packet.payload_length as nat)
                    + ", packet contains "@ + decimal(inside),
            ),
        )
    } else if packet.udp_length != inside || packet.udp_length < UDP_HEADER_LEN {
        Some(
            ReportFault::InvalidPacket(
                "UDP length is "@ + decimal(packet.udp_length as nat) + ", expected "@ + decimal(
                    inside,
                ) + " and at least "@ + decimal(UDP_HEADER_LEN as nat),
            ),
        )
    } else {
        None
    }
}

/// The cost of the layers of a packet of some size.
pub open spec fn layers_cost(packet: CoapPacketView, size: nat) -> Result<LayersView, ReportFault> {
    match lengths_fault(packet.packet, size) {
        Some(fault) => Err(fault),
        None => match coap_cost(packet.datagram, packet.message) {
            Err(fault) => Err(fault),
            Ok(cost) => if packet.datagram.len() + IPV6_HEADER_LEN + UDP_HEADER_LEN > usize::MAX {
                Err(ReportFault::InvalidPacket("packet byte cost overflow"@))
            } else if packet.datagram.len() + IPV6_HEADER_LEN + UDP_HEADER_LEN != size {
                Err(
                    ReportFault::InvalidPacket(
                        "packet cost is "@ + decimal(
                            packet.datagram.len() + IPV6_HEADER_LEN as nat + UDP_HEADER_LEN as nat,
                        ) + ", packet has "@ + decimal(size) + " bytes"@,
                    ),
                )
            } else {
                Ok(
                    LayersView {
                        ipv6_header_bytes: IPV6_HEADER_LEN,
                        udp_header_bytes: UDP_HEADER_LEN,
                        coap: cost,
                        packet_bytes: size as usize,
                    },
                )
            },
        },
    }
}

/// The SCHC cost of a report.
pub open spec fn schc_cost(report: ReportView) -> Result<SchcCost, ReportFault> {
    match report.schc_bit_len {
        None => Err(ReportFault::InvalidSchc("meaningful SCHC bit length is unavailable"@)),
        Some(bits) => if report.padded_byte_len * 8 > usize::MAX {
            Err(ReportFault::InvalidSchc("padded byte count overflows bits"@))
        } else if report.padded_byte_len * 8 < bits {
            Err(
                ReportFault::InvalidSchc(
                    "meaningful bits "@ + decimal(bits as nat) + " exceed padded bits "@ + decimal(
                        (report.padded_byte_len * 8) as nat,
                    ),
                ),
            )
        } else {
            Ok(
                SchcCost {
                    meaningful_bits: bits,
                    padded_bytes: report.padded_byte_len,
                    padding_bits: (report.padded_byte_len * 8 - bits) as usize,
                },
            )
        },
    }
}

/// The duplicate operation of a report, when its rule carries one.
pub open spec fn operation_cost(
    report: ReportView,
    rpc: Option<Result<CostView, Fault>>,
) -> Result<Option<CostView>, ReportFault> {
    if report.rule_id != duplicate_rule_id() {
        Ok(None)
    } else if report.management_rpc_sid is None {
        Err(ReportFault::InvalidPacket("duplicate-rule report has no SID model source"@))
    } else {
        match rpc->0 {
            Err(fault) => Err(ReportFault::InvalidPacket(fault.described())),
            Ok(cost) => Ok(Some(cost)),
        }
    }
}

/// The IPv6 fields of a packet.
pub open spec fn ipv6_fields(version: u8, parsed: ParsedView) -> Ipv6View {
    Ipv6View {
        version,
        traffic_class: parsed.packet.packet.traffic_class,
        flow_label: parsed.packet.packet.flow_label,
        payload_length: parsed.packet.packet.payload_length,
        next_header: parsed.packet.packet.next_header,
        hop_limit: parsed.packet.packet.hop_limit,
        source: parsed.source,
        destination: parsed.destination,
    }
}

/// The UDP fields of a packet.
pub open spec fn udp_fields(packet: PacketView) -> UdpReport {
    UdpReport {
        source_port: packet.source_port,
        destination_port: packet.destination_port,
        length: packet.udp_length,
        checksum: packet.udp_checksum,
    }
}

/// The CoAP fields of a message.
pub open spec fn coap_fields(message: Coap) -> CoapReportView {
    CoapReportView {
        version: message.version,
        message_type: message.message_type,
        code: message.code,
        message_id: message.message_id,
        token_bytes: message.token.len(),
        token: token_text(message.token),
        options: options_described(message.options),
        payload_bytes: message.payload.len(),
    }
}

/// The inspected report.
pub open spec fn inspected(
    report: ReportView,
    parsed: Result<ParsedView, Seq<char>>,
    rpc: Option<Result<CostView, Fault>>,
) -> Result<PacketReportView, ReportFault> {
    if sizes_fault(report) is Some {
        Err(sizes_fault(report)->0)
    } else if version_fault(report.packet_bytes) is Some {
        Err(version_fault(report.packet_bytes)->0)
    } else {
        match parsed {
            Err(text) => Err(ReportFault::InvalidPacket(text)),
            Ok(found) => match layers_cost(found.packet, report.packet_bytes.len()) {
                Err(fault) => Err(fault),
                Ok(layers) => match schc_cost(report) {
                    Err(fault) => Err(fault),
                    Ok(schc) => match operation_cost(report, rpc) {
                        Err(fault) => Err(fault),
                        Ok(operation) => Ok(
                            PacketReportView {
                                ipv6: ipv6_fields(report.packet_bytes[0] / 16, found),
                                udp: udp_fields(found.packet.packet),
                                coap: coap_fields(found.packet.message),
                                layers,
                                schc,
                                rpc: operation,
                            },
                        ),
                    },
                },
            },
        }
    }
}

fn check_version(bytes: &[u8]) -> (result: Result<u8, ReportError>)
    ensures
        match result {
            Ok(version) => version_fault(bytes@) is None && version == bytes@[0] / 16
                && bytes@.len() >= IPV6_HEADER_LEN,
            Err(error) => version_fault(bytes@) == Some(error@),
        },
{
    if bytes.len() < IPV6_HEADER_LEN {
        return Err(
            invalid_packet(
                join3(
                    "IPv6 packet is shorter than ",
                    decimal_string(IPV6_HEADER_LEN as u64).as_str(),
                    " bytes",
                ).as_str(),
            ),
        );
    }
    let version: u8 = bytes[0] / 16;
    if version != IPV6_VERSION {
        let head = join3(
            "IPv6 version is ",
            decimal_string(version as u64).as_str(),
            ", expected ",
        );
        return Err(
            invalid_packet(
                join(head.as_str(), decimal_string(IPV6_VERSION as u64).as_str()).as_str(),
            ),
        );
    }
    Ok(version)
}

fn check_lengths(packet: &Ipv6UdpCoapPacket, size: usize) -> (result: Result<(), ReportError>)
    requires
        size >= IPV6_HEADER_LEN,
    ensures
        match result {
            Ok(_) => lengths_fault(packet@.packet, size as nat) is None,
            Err(error) => lengths_fault(packet@.packet, size as nat) == Some(error@),
        },
{
    let inside: usize = size - IPV6_HEADER_LEN;
    let declared: usize = packet.packet.payload_length as usize;
    if declared != inside {
        let head = join3(
            "IPv6 payload length is ",
            decimal_string(declared as u64).as_str(),
            ", packet contains ",
        );
        return Err(
            invalid_packet(join(head.as_str(), decimal_string(inside as u64).as_str()).as_str()),
        );
    }
    let udp: usize = packet.packet.udp_length as usize;
    if udp != inside || udp < UDP_HEADER_LEN {
        let head = join3(
            "UDP length is ",
            decimal_string(udp as u64).as_str(),
            ", expected ",
        );
        let more = join3(
            head.as_str(),
            decimal_string(inside as u64).as_str(),
            " and at least ",
        );
        return Err(
            invalid_packet(
                join(more.as_str(), decimal_string(UDP_HEADER_LEN as u64).as_str()).as_str(),
            ),
        );
    }
    Ok(())
}

fn inspect_layers(packet: &Ipv6UdpCoapPacket, size: usize) -> (result: Result<
    PacketLayerCost,
    ReportError,
>)
    requires
        size >= IPV6_HEADER_LEN,
    ensures
        match result {
            Ok(layers) => layers_cost(packet@, size as nat) == Ok::<LayersView, ReportFault>(
                layers@,
            ),
            Err(error) => layers_cost(packet@, size as nat) == Err::<LayersView, ReportFault>(
                error@,
            ),
        },
{
    check_lengths(packet, size)?;
    let coap = inspect_coap(packet.datagram.as_slice(), &packet.message)?;
    let sum: usize = match packet.datagram.len().checked_add(IPV6_HEADER_LEN + UDP_HEADER_LEN) {
        Some(sum) => sum,
        None => {
            return Err(invalid_packet("packet byte cost overflow"));
        },
    };
    if sum != size {
        let head = join3(
            "packet cost is ",
            decimal_string(sum as u64).as_str(),
            ", packet has ",
        );
        return Err(
            invalid_packet(
                join3(head.as_str(), decimal_string(size as u64).as_str(), " bytes").as_str(),
            ),
        );
    }
    Ok(
        PacketLayerCost {
            ipv6_header_bytes: IPV6_HEADER_LEN,
            udp_header_bytes: UDP_HEADER_LEN,
            coap,
            packet_bytes: size,
        },
    )
}

fn measure_schc(report: &LinkReport) -> (result: Result<SchcCost, ReportError>)
    ensures
        match result {
            Ok(cost) => schc_cost(report@) == Ok::<SchcCost, ReportFault>(cost),
            Err(error) => schc_cost(report@) == Err::<SchcCost, ReportFault>(error@),
        },
{
    let bits: usize = match report.schc_bit_len {
        Some(bits) => bits,
        None => {
            return Err(invalid_schc("meaningful SCHC bit length is unavailable"));
        },
    };
    let space: usize = match report.padded_byte_len.checked_mul(8) {
        Some(space) => space,
        None => {
            return Err(invalid_schc("padded byte count overflows bits"));
        },
    };
    if space < bits {
        let head = join3(
            "meaningful bits ",
            decimal_string(bits as u64).as_str(),
            " exceed padded bits ",
        );
        return Err(
            invalid_schc(join(head.as_str(), decimal_string(space as u64).as_str()).as_str()),
        );
    }
    Ok(
        SchcCost {
            meaningful_bits: bits,
            padded_bytes: report.padded_byte_len,
            padding_bits: space - bits,
        },
    )
}

/// Whether a report carries an operation whose bytes are accounted for.
pub open spec fn carries_operation(report: ReportView) -> bool {
    report.rule_id == duplicate_rule_id() && report.management_rpc_sid is Some
}

/// The accounting of the operation that a report carries: that of its packet's
/// payload, and none where it carries no operation or holds no packet.
pub open spec fn rpc_of(
    report: ReportView,
    parsed: Result<ParsedView, Seq<char>>,
    answers: RpcAnswers,
    rpc: Option<Result<CostView, Fault>>,
) -> bool {
    match rpc {
        None => !carries_operation(report) || parsed is Err,
        Some(outcome) => carries_operation(report) && parsed is Ok && answered_cost(
            parsed->Ok_0.packet.message.payload,
            answers,
            outcome,
        ),
    }
}

/// What inspecting a report gives, with the answers of the model library.
pub open spec fn inspection_of(
    report: ReportView,
    parsed: Result<ParsedView, Seq<char>>,
    answers: RpcAnswers,
    outcome: Result<PacketReportView, ReportFault>,
) -> bool {
    exists|rpc: Option<Result<CostView, Fault>>| #[trigger]
        rpc_of(report, parsed, answers, rpc) && outcome == inspected(report, parsed, rpc)
}

/// The result of an inspection.
pub open spec fn inspection_view(result: Result<PacketReport, ReportError>) -> Result<
    PacketReportView,
    ReportFault,
> {
    match result {
        Ok(inspection) => Ok(inspection@),
        Err(error) => Err(error@),
    }
}

/// The accounting of an optional answer.
spec fn rpc_answer(rpc: Option<Result<DuplicateRpcCost, InspectionError>>) -> Option<
    Result<CostView, Fault>,
> {
    match rpc {
        Some(answer) => Some(cost_view(answer)),
        None => None,
    }
}

/// Builds the parsed report data without rendering strings.
///
/// `parsed` is the packet that the report's bytes hold. `answers` are those of
/// the model library for the packet's payload; they are looked at where the
/// report carries an operation.
pub fn inspect_report(
    report: &LinkReport,
    parsed: Result<ParsedPacket, String>,
    answers: &RpcAnswers,
) -> (result: Result<PacketReport, ReportError>)
    ensures
        inspection_of(report@, parse_view(parsed), *answers, inspection_view(result)),
        result matches Ok(shown) ==> parsed is Ok && {
            let packet = parsed->Ok_0.packet.packet;
            let message = parsed->Ok_0.packet.message;
            &&& shown.udp.source_port == packet.source_port
            &&& shown.udp.destination_port == packet.destination_port
            &&& shown.udp.length == packet.udp_length
            &&& shown.udp.checksum == packet.udp_checksum
            &&& shown.ipv6.version == report.packet_bytes@[0] / 16
            &&& shown.ipv6.traffic_class == packet.traffic_class
            &&& shown.ipv6.flow_label == packet.flow_label
            &&& shown.ipv6.payload_length == packet.payload_length
            &&& shown.ipv6.next_header == packet.next_header
            &&& shown.ipv6.hop_limit == packet.hop_limit
            &&& shown.ipv6.source@ == parsed->Ok_0.source@
            &&& shown.ipv6.destination@ == parsed->Ok_0.destination@
            &&& shown.coap.version == message.version
            &&& shown.coap.message_type == message.message_type
            &&& shown.coap.code == message.code
            &&& shown.coap.message_id == message.message_id
            &&& shown.coap.token_bytes == message.token@.len()
            &&& shown.coap.payload_bytes == message.payload@.len()
            &&& shown.coap.options@.len() == message.options@.len()
            &&& forall|i: int|
                0 <= i < message.options@.len() ==> (#[trigger] shown.coap.options@[i]).number
                    == message.options@[i].number
            &&& report.schc_bit_len == Some(shown.schc.meaningful_bits)
            &&& shown.schc.padded_bytes == report.frame_bytes@.len()
        },
{
    let carries = report.rule_id.value == 29 && report.rule_id.bit_len == 8
        && report.management_rpc_sid.is_some();
    let rpc = match &parsed {
        Ok(found) if carries => {
            Some(account_payload(found.packet.message.payload.as_slice(), answers))
        },
        _ => None,
    };
    assert(rpc_of(report@, parse_view(parsed), *answers, rpc_answer(rpc)));
    let result = inspect_layers_and_operation(report, parsed, rpc);
    proof {
        if result is Ok {
            let shown = result->Ok_0;
            let found = parsed->Ok_0;
            inspected_fields_are_those_of_the_packet(
                report@,
                parse_view(parsed),
                rpc_answer(rpc),
            );
            let options = found.packet.message.options@;
            assert(descriptions_view(shown.coap.options@).len() == options_view(options).len());
            assert forall|i: int| 0 <= i < options.len() implies (
            #[trigger] shown.coap.options@[i]).number == options[i].number by {
                assert(descriptions_view(shown.coap.options@)[i] == shown.coap.options@[i]@);
                assert(options_view(options)[i] == (options[i].number, options[i].value@));
            }
        }
    }
    result
}

/// What an inspected report shows is what the packet holds, field by field:
/// the UDP ports, length and checksum, the IPv6 fields, the CoAP header and
/// the number of each option; its bit counts are those of the sent frame.
pub proof fn inspected_fields_are_those_of_the_packet(
    report: ReportView,
    parsed: Result<ParsedView, Seq<char>>,
    rpc: Option<Result<CostView, Fault>>,
)
    requires
        inspected(report, parsed, rpc) is Ok,
    ensures
        ({
            let shown = inspected(report, parsed, rpc)->Ok_0;
            let packet = parsed->Ok_0.packet.packet;
            let message = parsed->Ok_0.packet.message;
            &&& parsed is Ok
            &&& shown.udp.source_port == packet.source_port
            &&& shown.udp.destination_port == packet.destination_port
            &&& shown.udp.length == packet.udp_length
            &&& shown.udp.checksum == packet.udp_checksum
            &&& shown.ipv6.version == 6
            &&& report.packet_bytes[0] / 16 == 6
            &&& shown.ipv6.traffic_class == packet.traffic_class
            &&& shown.ipv6.flow_label == packet.flow_label
            &&& shown.ipv6.payload_length == packet.payload_length
            &&& shown.ipv6.next_header == packet.next_header
            &&& shown.ipv6.hop_limit == packet.hop_limit
            &&& shown.ipv6.source == parsed->Ok_0.source
            &&& shown.ipv6.destination == parsed->Ok_0.destination
            &&& shown.coap.version == message.version
            &&& shown.coap.message_type == message.message_type
            &&& shown.coap.code == message.code
            &&& shown.coap.message_id == message.message_id
            &&& shown.coap.token_bytes == message.token.len()
            &&& shown.coap.payload_bytes == message.payload.len()
            &&& shown.coap.options.len() == message.options.len()
            &&& forall|i: int|
                0 <= i < message.options.len() ==> (#[trigger] shown.coap.options[i]).number
                    == message.options[i].0
            &&& report.schc_bit_len == Some(shown.schc.meaningful_bits)
            &&& shown.schc.padded_bytes == report.frame_bytes.len()
            &&& shown.schc.padding_bits == report.frame_bytes.len() * 8
                - shown.schc.meaningful_bits
            &&& report.packet_size == report.packet_bytes.len()
            &&& packet.payload_length == report.packet_bytes.len() - 40
            &&& packet.udp_length == packet.payload_length
            &&& shown.layers.ipv6_header_bytes == 40
            &&& shown.layers.udp_header_bytes == 8
            &&& shown.layers.coap.total_bytes == parsed->Ok_0.packet.datagram.len()
        }),
{
}

fn inspect_layers_and_operation(
    report: &LinkReport,
    parsed: Result<ParsedPacket, String>,
    rpc: Option<Result<DuplicateRpcCost, InspectionError>>,
) -> (result: Result<PacketReport, ReportError>)
    requires
        carries_operation(report@) && parsed is Ok ==> rpc is Some,
    ensures
        inspection_view(result) == inspected(report@, parse_view(parsed), rpc_answer(rpc)),
{
    validate_line_report(report)?;
    let version: u8 = check_version(report.packet_bytes.as_slice())?;
    let found = match parsed {
        Ok(found) => found,
        Err(text) => {
            return Err(ReportError::InvalidPacket(text));
        },
    };
    let layers = inspect_layers(&found.packet, report.packet_bytes.len())?;
    let schc = measure_schc(report)?;
    let carries = report.rule_id.value == 29 && report.rule_id.bit_len == 8;
    let operation = if carries {
        if report.management_rpc_sid.is_none() {
            return Err(invalid_packet("duplicate-rule report has no SID model source"));
        }
        match rpc {
            Some(Ok(cost)) => Some(cost),
            Some(Err(error)) => {
                return Err(ReportError::InvalidPacket(error.message()));
            },
            None => None,
        }
    } else {
        None
    };
    let message = &found.packet.message;
    let inner = &found.packet.packet;
    Ok(
        PacketReport {
            udp: UdpReport {
                source_port: inner.source_port,
                destination_port: inner.destination_port,
                length: inner.udp_length,
                checksum: inner.udp_checksum,
            },
            coap: CoapReport {
                version: message.version,
                message_type: message.message_type,
                code: message.code,
                message_id: message.message_id,
                token_bytes: message.token.len(),
                token: describe_token(message.token.as_slice()),
                options: describe_options(&message.options),
                payload_bytes: message.payload.len(),
            },
            ipv6: Ipv6Report {
                version,
                traffic_class: inner.traffic_class,
                flow_label: inner.flow_label,
                payload_length: inner.payload_length,
                next_header: inner.next_header,
                hop_limit: inner.hop_limit,
                source: found.source,
                destination: found.destination,
            },
            layers,
            schc,
            rpc: operation,
        },
    )
}

/// The layers of an inspected report add up to its packet, its meaningful bits
/// and padding to its frame, and the parts of an operation that it carries to
/// the packet's payload.
pub proof fn inspected_report_adds_up(
    report: ReportView,
    parsed: Result<ParsedView, Seq<char>>,
    answers: RpcAnswers,
    outcome: Result<PacketReportView, ReportFault>,
)
    requires
        inspection_of(report, parsed, answers, outcome),
        outcome is Ok,
        report.packet_bytes.len() <= usize::MAX,
        parsed->Ok_0.packet.message.payload.len() <= usize::MAX,
    ensures
        ({
            let shown = outcome->Ok_0;
            &&& shown.layers.ipv6_header_bytes + shown.layers.udp_header_bytes + coap_total(
                shown.layers.coap,
            ) == report.packet_bytes.len()
            &&& shown.layers.packet_bytes == report.packet_bytes.len()
            &&& shown.schc.meaningful_bits + shown.schc.padding_bits == shown.schc.padded_bytes * 8
            &&& shown.rpc matches Some(cost) ==> cost.fixed_bytes + cost.variable_framing_bytes
                + cost.target_value_bytes == shown.coap.payload_bytes
        }),
{
    let rpc = choose|rpc: Option<Result<CostView, Fault>>| #[trigger]
        rpc_of(report, parsed, answers, rpc) && outcome == inspected(report, parsed, rpc);
    let packet = parsed->Ok_0.packet;
    coap_cost_adds_up(packet.datagram, packet.message);
    if outcome->Ok_0.rpc is Some {
        cost_accounts_for_every_byte(
            answers.model->Ok_0@,
            packet.message.payload,
            decoded_view(answers.instances),
            answers_view(answers.decoded@),
            rpc->0,
        );
    }
}

/// An option nibble stands for itself up to twelve; thirteen adds the next
/// byte to thirteen, fourteen adds the next two bytes to 269, and fifteen
/// stands for nothing.
pub proof fn extended_values_follow_their_nibble(
    nibble: int,
    bytes: Seq<u8>,
    offset: int,
    label: Seq<char>,
)
    requires
        0 <= nibble < 16,
        0 <= offset,
        bytes.len() <= usize::MAX,
    ensures
        nibble <= 12 ==> extended_value(nibble, bytes, offset, label) == Ok::<nat, ReportFault>(
            nibble as nat,
        ) && extension_size(nibble) == 0,
        nibble == 13 ==> extension_size(nibble) == 1 && (extended_value(
            nibble,
            bytes,
            offset,
            label,
        ) is Ok <==> offset < bytes.len()),
        nibble == 13 && offset < bytes.len() ==> extended_value(nibble, bytes, offset, label)->Ok_0
            == 13 + bytes[offset],
        nibble == 14 ==> extension_size(nibble) == 2 && (extended_value(
            nibble,
            bytes,
            offset,
            label,
        ) is Ok <==> offset + 1 < bytes.len()),
        nibble == 14 && offset + 1 < bytes.len() ==> extended_value(
            nibble,
            bytes,
            offset,
            label,
        )->Ok_0 == 269 + 256 * bytes[offset] + bytes[offset + 1],
        nibble == 15 ==> extended_value(nibble, bytes, offset, label) is Err,
{
}

/// An encoded option adds its delta to the number before it, and ends where
/// its header, its extensions and its value end.
pub proof fn encoded_option_follows_the_one_before(bytes: Seq<u8>, start: int, previous: nat)
    requires
        0 <= start < bytes.len() <= usize::MAX,
        option_at(bytes, start, previous) is Ok,
    ensures
        ({
            let (cost, end) = option_at(bytes, start, previous)->Ok_0;
            let high = bytes[start] as int / 16;
            let low = bytes[start] as int % 16;
            let delta = extended_value(high, bytes, start + 1, "delta"@);
            let length = extended_value(
                low,
                bytes,
                start + 1 + extension_size(high),
                "length"@,
            );
            &&& delta is Ok
            &&& length is Ok
            &&& cost.number == previous + delta->Ok_0
            &&& cost.value_bytes == length->Ok_0
            &&& cost.header_bytes == 1
            &&& cost.delta_extension_bytes == extension_size(high)
            &&& cost.length_extension_bytes == extension_size(low)
            &&& cost.encoded_bytes == end - start
            &&& end == start + 1 + extension_size(high) + extension_size(low) + length->Ok_0
            &&& end <= bytes.len()
        }),
{
}

/// The accounting of a datagram has a header of four bytes, as many token
/// bytes as the low half of its first byte says, one entry for each option
/// with its number and size, and a marker of one byte exactly where there is a
/// payload.
pub proof fn accounting_is_that_of_the_message(bytes: Seq<u8>, message: Coap)
    requires
        bytes.len() <= usize::MAX,
        coap_cost(bytes, message) is Ok,
    ensures
        ({
            let cost = coap_cost(bytes, message)->Ok_0;
            &&& cost.base_header_bytes == 4
            &&& cost.token_bytes == bytes[0] as int % 16
            &&& cost.token_bytes == message.token.len()
            &&& cost.options.len() == message.options.len()
            &&& forall|i: int|
                0 <= i < message.options.len() ==> (#[trigger] cost.options[i]).number
                    == message.options[i].0 && cost.options[i].value_bytes
                    == message.options[i].1.len()
            &&& cost.payload_bytes == message.payload.len()
            &&& message.payload.len() > 0 ==> cost.payload_marker_bytes == 1
            &&& message.payload.len() == 0 ==> cost.payload_marker_bytes == 0
            &&& cost.total_bytes == bytes.len()
        }),
{
    let token = bytes[0] as int % 16;
    lemma_options_add_up(bytes, 4 + token, 0);
}

/// Each option number has its own name.
pub proof fn options_are_named_by_their_numbers(number: u16)
    ensures
        number == 1 ==> option_label(number) == "If-Match"@,
        number == 3 ==> option_label(number) == "Uri-Host"@,
        number == 4 ==> option_label(number) == "ETag"@,
        number == 5 ==> option_label(number) == "If-None-Match"@,
        number == 6 ==> option_label(number) == "Observe"@,
        number == 7 ==> option_label(number) == "Uri-Port"@,
        number == 8 ==> option_label(number) == "Location-Path"@,
        number == 11 ==> option_label(number) == "Uri-Path"@,
        number == 12 ==> option_label(number) == "Content-Format"@,
        number == 14 ==> option_label(number) == "Max-Age"@,
        number == 15 ==> option_label(number) == "Uri-Query"@,
        number == 17 ==> option_label(number) == "Accept"@,
        number == 20 ==> option_label(number) == "Location-Query"@,
        number == 23 ==> option_label(number) == "Block2"@,
        number == 27 ==> option_label(number) == "Block1"@,
        number == 35 ==> option_label(number) == "Proxy-Uri"@,
        number == 39 ==> option_label(number) == "Proxy-Scheme"@,
        number == 60 ==> option_label(number) == "Size1"@,
        number != 1 && number != 3 && number != 4 && number != 5 && number != 6 && number != 7
            && number != 8 && number != 11 && number != 12 && number != 14 && number != 15
            && number != 17 && number != 20 && number != 23 && number != 27 && number != 35
            && number != 39 && number != 60
            ==> option_label(number) == "Option"@,
{
}

/// The value of an option is shown by its size, a path segment as text, and a
/// number as the number of its bytes.
pub proof fn option_values_are_shown_by_their_kind(number: u16, value: Seq<u8>)
    ensures
        number == 1 ==> option_value_text(number, value) == decimal(value.len()) + " B If-Match"@,
        number == 11 ==> option_value_text(number, value) == lossy_text(value),
        (number == 12 || number == 17 || number == 23 || number == 35 || number == 60)
            && value.len() <= 8 ==> option_value_text(number, value) == decimal(
            bytes_value(value),
        ),
        (number == 12 || number == 17 || number == 23 || number == 35 || number == 60)
            && value.len() > 8 ==> option_value_text(number, value) == "binary "@ + decimal(
            value.len(),
        ) + " B"@,
        number != 1 && number != 11 && number != 12 && number != 17 && number != 23 && number != 35
            && number != 60 ==> option_value_text(number, value) == decimal(value.len()) + " B"@,
{
}

/// Options are described in their order, each by its number, its name and its
/// value.
pub proof fn options_are_described_in_order(options: Seq<(u16, Seq<u8>)>, at: int)
    requires
        0 <= at < options.len(),
    ensures
        options_described(options).len() == options.len(),
        options_described(options)[at].number == options[at].0,
        options_described(options)[at].name == option_label(options[at].0),
        options_described(options)[at].value == option_value_text(options[at].0, options[at].1),
{
}

/// A token of visible characters is shown as it is, and any other by its size.
pub proof fn tokens_are_shown_by_their_bytes(token: Seq<u8>)
    ensures
        token.len() == 0 ==> token_text(token) == "empty"@,
        token.len() > 0 && (forall|i: int| 0 <= i < token.len() ==> 33 <= #[trigger] token[i] <= 126)
            ==> token_text(token).len() == token.len() && forall|i: int|
            0 <= i < token.len() ==> #[trigger] token_text(token)[i] as int == token[i],
        token.len() > 0 && !(forall|i: int|
            0 <= i < token.len() ==> 33 <= #[trigger] token[i] <= 126) ==> token_text(token)
            == "binary "@ + decimal(token.len()) + " B"@,
{
}

/// Only a report of rule 29/8 shows an operation, and such a report needs the
/// model that describes the operation.
pub proof fn operation_is_that_of_the_duplicate_rule(
    report: ReportView,
    rpc: Option<Result<CostView, Fault>>,
)
    ensures
        !(report.rule_id.value == 29 && report.rule_id.bit_len == 8) ==> operation_cost(report, rpc)
            == Ok::<Option<CostView>, ReportFault>(None),
        report.rule_id.value == 29 && report.rule_id.bit_len == 8 && report.management_rpc_sid
            is None ==> operation_cost(report, rpc) is Err,
        report.rule_id.value == 29 && report.rule_id.bit_len == 8 && report.management_rpc_sid
            is Some && rpc is Some && rpc->0 is Ok ==> operation_cost(report, rpc) == Ok::<
            Option<CostView>,
            ReportFault,
        >(Some(rpc->0->Ok_0)),
        report.rule_id.value == 29 && report.rule_id.bit_len == 8 && report.management_rpc_sid
            is Some && rpc is Some && rpc->0 is Err ==> operation_cost(report, rpc) is Err,
{
}

/// The frame of a report has at least its meaningful bits, and the sizes that
/// it names are those of its packet and its frame.
pub proof fn accepted_report_has_its_sizes(report: ReportView)
    ensures
        sizes_fault(report) is None <==> report.packet_size == report.packet_bytes.len()
            && report.padded_byte_len == report.frame_bytes.len(),
        schc_cost(report) is Ok <==> report.schc_bit_len is Some && report.padded_byte_len * 8
            <= usize::MAX && report.schc_bit_len->0 <= report.padded_byte_len * 8,
        version_fault(report.packet_bytes) is None <==> report.packet_bytes.len() >= 40
            && report.packet_bytes[0] / 16 == 6,
{
}

/// The label of a direction.
pub proof fn directions_are_labelled(direction: ReportDirection)
    ensures
        direction is Tx ==> direction.labelled() == "TX"@,
        direction is Rx ==> direction.labelled() == "RX"@,
{
}

} // verus!
