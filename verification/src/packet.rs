//! Logical packets as plain values: the fields that link and management read.

use vstd::prelude::*;

use crate::coap::{Coap, CoapMessage};

verus! {

/// Number of bytes in an IPv6 header.
pub const IPV6_HEADER_LEN: usize = 40;

/// Number of bytes in a UDP header.
pub const UDP_HEADER_LEN: usize = 8;

/// The IPv6 version.
pub const IPV6_VERSION: u8 = 6;

/// The next-header value of UDP.
pub const UDP_NEXT_HEADER: u8 = 17;

/// The fixed logical address of the core.
pub const CORE_LOGICAL_ADDRESS: u128 = 0x2001_0db8_0000_0000_0000_0000_0000_0002;

/// The fixed logical address of the device.
pub const DEVICE_LOGICAL_ADDRESS: u128 = 0x2001_0db8_0000_0000_0000_0000_0000_0001;

/// The ordinary application port of the logical packet.
pub const APPLICATION_PORT: u16 = 5683;

/// The protected context-management port of both logical endpoints.
pub const MANAGEMENT_PORT: u16 = 8724;

/// A validated IPv6/UDP packet. Addresses are numbers of 128 bits.
#[derive(Debug)]
pub struct Ipv6UdpPacket {
    /// Complete packet bytes.
    pub bytes: Vec<u8>,
    /// Traffic class.
    pub traffic_class: u8,
    /// Flow label.
    pub flow_label: u32,
    /// Declared IPv6 payload length.
    pub payload_length: u16,
    /// Next-header value.
    pub next_header: u8,
    /// Hop limit.
    pub hop_limit: u8,
    /// Source address.
    pub source: u128,
    /// Destination address.
    pub destination: u128,
    /// UDP source port.
    pub source_port: u16,
    /// UDP destination port.
    pub destination_port: u16,
    /// Declared UDP length.
    pub udp_length: u16,
    /// UDP checksum.
    pub udp_checksum: u16,
}

/// A packet as a mathematical value.
pub struct PacketView {
    /// Complete packet bytes.
    pub bytes: Seq<u8>,
    /// Traffic class.
    pub traffic_class: u8,
    /// Flow label.
    pub flow_label: u32,
    /// Declared IPv6 payload length.
    pub payload_length: u16,
    /// Next-header value.
    pub next_header: u8,
    /// Hop limit.
    pub hop_limit: u8,
    /// Source address.
    pub source: u128,
    /// Destination address.
    pub destination: u128,
    /// UDP source port.
    pub source_port: u16,
    /// UDP destination port.
    pub destination_port: u16,
    /// Declared UDP length.
    pub udp_length: u16,
    /// UDP checksum.
    pub udp_checksum: u16,
}

impl View for Ipv6UdpPacket {
    type V = PacketView;

    open spec fn view(&self) -> PacketView {
        PacketView {
            bytes: self.bytes@,
            traffic_class: self.traffic_class,
            flow_label: self.flow_label,
            payload_length: self.payload_length,
            next_header: self.next_header,
            hop_limit: self.hop_limit,
            source: self.source,
            destination: self.destination,
            source_port: self.source_port,
            destination_port: self.destination_port,
            udp_length: self.udp_length,
            udp_checksum: self.udp_checksum,
        }
    }
}

/// A validated IPv6/UDP packet that carries a CoAP message.
#[derive(Debug)]
pub struct Ipv6UdpCoapPacket {
    /// The IPv6/UDP packet.
    pub packet: Ipv6UdpPacket,
    /// The CoAP datagram that it carries.
    pub datagram: Vec<u8>,
    /// The CoAP message of that datagram.
    pub message: CoapMessage,
}

/// A packet with its CoAP message as a mathematical value.
pub struct CoapPacketView {
    /// The IPv6/UDP packet.
    pub packet: PacketView,
    /// The CoAP datagram that it carries.
    pub datagram: Seq<u8>,
    /// The CoAP message of that datagram.
    pub message: Coap,
}

impl View for Ipv6UdpCoapPacket {
    type V = CoapPacketView;

    open spec fn view(&self) -> CoapPacketView {
        CoapPacketView {
            packet: self.packet@,
            datagram: self.datagram@,
            message: self.message@,
        }
    }
}

} // verus!
