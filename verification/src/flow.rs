//! Logical flows: which rule describes a packet, and which change of a rule
//! would.

use vstd::arithmetic::power2::{lemma2_to64, lemma2_to64_rest, pow2};
use vstd::prelude::*;

use crate::duplicate_command::{overrides_view, OverrideView, RuleDuplicateOverride};
use crate::json::Json;
use crate::link_types::LinkRole;
use crate::number::{
    bytes_to_u64, bytes_value, lemma_width, number_in_width, width_bytes, width_bytes_round_trip,
};
use crate::packet::{Ipv6UdpPacket, PacketView};
use crate::rule::{
    fields_view, mapping_view, Direction, DirectionSelector, FieldLength, FieldRef, FieldRule,
    FieldRuleView, FieldView, MatchingOperator, Rule, TargetValue, TargetView,
};
use crate::sort::{
    lemma_sort_by_picks, order_view, pair_key, picked, sort_by, sort_order,
    sorting_orders_and_keeps_items,
};
use crate::target::replacement_bytes;
use crate::text::{decimal, decimal_string, lemma_decimal_round_trip, same_text};

verus! {

/// Direction of a logical IPv6/UDP flow relative to the SCHC device.
#[derive(Debug, Clone, Copy, PartialEq, Eq, Structural)]
pub enum FlowDirection {
    /// The logical packet travels from the device toward the application.
    Uplink,
    /// The logical packet travels from the application toward the device.
    Downlink,
}

impl FlowDirection {
    /// The SCHC direction of this flow.
    pub open spec fn direction(self) -> Direction {
        match self {
            FlowDirection::Uplink => Direction::Up,
            FlowDirection::Downlink => Direction::Down,
        }
    }

    /// Returns the SCHC direction of this flow.
    pub fn schc_direction(self) -> (result: Direction)
        ensures
            result == self.direction(),
    {
        match self {
            FlowDirection::Uplink => Direction::Up,
            FlowDirection::Downlink => Direction::Down,
        }
    }

    /// Returns the endpoint that sends this flow.
    pub fn link_role(self) -> (result: LinkRole)
        ensures
            result == match self {
                FlowDirection::Uplink => LinkRole::Device,
                FlowDirection::Downlink => LinkRole::Core,
            },
    {
        match self {
            FlowDirection::Uplink => LinkRole::Device,
            FlowDirection::Downlink => LinkRole::Core,
        }
    }
}

/// Whether an entry describes an application payload.
pub open spec fn payload_field(field: FieldView) -> bool {
    field == FieldView::Payload || field == FieldView::Udp("fid-udp-payload"@)
}

/// Whether a rule describes an application payload.
pub open spec fn describes_payload(fields: Seq<FieldRuleView>) -> bool {
    exists|i: int| 0 <= i < fields.len() && payload_field((#[trigger] fields[i]).field)
}

/// Returns whether a rule describes an application payload.
pub fn has_application_payload(rule: &Rule) -> (result: bool)
    ensures
        result == describes_payload(rule@.fields),
{
    let ghost view = fields_view(rule.fields@);
    let mut index: usize = 0;
    while index < rule.fields.len()
        invariant
            index <= rule.fields@.len(),
            view == fields_view(rule.fields@),
            forall|i: int| 0 <= i < index ==> !payload_field((#[trigger] view[i]).field),
        decreases rule.fields.len() - index,
    {
        assert(view[index as int] == rule.fields@[index as int]@);
        let found = match &rule.fields[index].field {
            FieldRef::Payload => true,
            FieldRef::Udp(name) => same_text(name.as_str(), "fid-udp-payload"),
            _ => false,
        };
        if found {
            assert(payload_field(view[index as int].field));
            return true;
        }
        index += 1;
    }
    false
}

/// Whether an entry compares a field with one value.
pub open spec fn compares(entry: FieldRuleView, field: FieldView) -> bool {
    entry.field == field && entry.matching != MatchingOperator::Ignore && entry.target is Bytes
}

/// Whether a rule compares a field with one value.
pub open spec fn identifies(fields: Seq<FieldRuleView>, field: FieldView) -> bool {
    exists|i: int| 0 <= i < fields.len() && compares(#[trigger] fields[i], field)
}

/// Whether a rule models the complete flow identity of the generic IPv6/UDP
/// workload: flow label, both address halves of both ends, and both ports.
pub open spec fn complete_flow(fields: Seq<FieldRuleView>) -> bool {
    &&& identifies(fields, FieldView::Ipv6("fid-ipv6-flowlabel"@))
    &&& identifies(fields, FieldView::Ipv6("fid-ipv6-devprefix"@))
    &&& identifies(fields, FieldView::Ipv6("fid-ipv6-deviid"@))
    &&& identifies(fields, FieldView::Ipv6("fid-ipv6-appprefix"@))
    &&& identifies(fields, FieldView::Ipv6("fid-ipv6-appiid"@))
    &&& identifies(fields, FieldView::Udp("fid-udp-dev-port"@))
    &&& identifies(fields, FieldView::Udp("fid-udp-app-port"@))
}

fn named_ipv6(field: &FieldRef, wanted: &str) -> (result: bool)
    ensures
        result == (field@ == FieldView::Ipv6(wanted@)),
{
    match field {
        FieldRef::Ipv6(name) => same_text(name.as_str(), wanted),
        _ => false,
    }
}

fn named_udp(field: &FieldRef, wanted: &str) -> (result: bool)
    ensures
        result == (field@ == FieldView::Udp(wanted@)),
{
    match field {
        FieldRef::Udp(name) => same_text(name.as_str(), wanted),
        _ => false,
    }
}

fn find_named(fields: &Vec<FieldRule>, ipv6: bool, wanted: &str) -> (result: bool)
    ensures
        result == identifies(
            fields_view(fields@),
            if ipv6 {
                FieldView::Ipv6(wanted@)
            } else {
                FieldView::Udp(wanted@)
            },
        ),
{
    let ghost view = fields_view(fields@);
    let ghost field = if ipv6 {
        FieldView::Ipv6(wanted@)
    } else {
        FieldView::Udp(wanted@)
    };
    let mut index: usize = 0;
    while index < fields.len()
        invariant
            index <= fields@.len(),
            view == fields_view(fields@),
            field == if ipv6 {
                FieldView::Ipv6(wanted@)
            } else {
                FieldView::Udp(wanted@)
            },
            forall|i: int| 0 <= i < index ==> !compares(#[trigger] view[i], field),
        decreases fields.len() - index,
    {
        let entry = &fields[index];
        assert(view[index as int] == entry@);
        let named = if ipv6 {
            named_ipv6(&entry.field, wanted)
        } else {
            named_udp(&entry.field, wanted)
        };
        let valued = match &entry.target {
            TargetValue::Bytes(_) => true,
            _ => false,
        };
        if named && valued && entry.matching != MatchingOperator::Ignore {
            assert(compares(view[index as int], field));
            return true;
        }
        index += 1;
    }
    false
}

/// Returns whether a rule models the complete flow identity of the generic
/// IPv6/UDP workload.
///
/// Header-only fallback rules can still encode a packet, but they are not
/// suitable parents for a concrete flow duplicate and must not make an
/// otherwise new flow look already installed.
pub fn has_complete_flow_fields(rule: &Rule) -> (result: bool)
    ensures
        result == complete_flow(rule@.fields),
{
    let fields = &rule.fields;
    find_named(fields, true, "fid-ipv6-flowlabel") && find_named(fields, true, "fid-ipv6-devprefix")
        && find_named(fields, true, "fid-ipv6-deviid") && find_named(
        fields,
        true,
        "fid-ipv6-appprefix",
    ) && find_named(fields, true, "fid-ipv6-appiid") && find_named(
        fields,
        false,
        "fid-udp-dev-port",
    ) && find_named(fields, false, "fid-udp-app-port")
}

/// The leading half of an address.
pub open spec fn prefix_half(address: u128) -> u64 {
    (address / 0x1_0000_0000_0000_0000) as u64
}

/// The trailing half of an address.
pub open spec fn interface_half(address: u128) -> u64 {
    (address % 0x1_0000_0000_0000_0000) as u64
}

/// The value and width of a packet field as rules name it: the device end is
/// the source of an uplink packet and the destination of a downlink packet.
pub open spec fn logical_number(
    packet: PacketView,
    direction: FlowDirection,
    field: FieldView,
) -> Option<(u64, usize)> {
    let up = direction == FlowDirection::Uplink;
    let device = if up {
        packet.source
    } else {
        packet.destination
    };
    let application = if up {
        packet.destination
    } else {
        packet.source
    };
    let device_port = if up {
        packet.source_port
    } else {
        packet.destination_port
    };
    let application_port = if up {
        packet.destination_port
    } else {
        packet.source_port
    };
    match field {
        FieldView::Ipv6(name) => if name == "fid-ipv6-version"@ {
            Some((6u64, 4usize))
        } else if name == "fid-ipv6-trafficclass"@ {
            Some((packet.traffic_class as u64, 8usize))
        } else if name == "fid-ipv6-flowlabel"@ {
            Some((packet.flow_label as u64, 20usize))
        } else if name == "fid-ipv6-payload-length"@ {
            Some((packet.payload_length as u64, 16usize))
        } else if name == "fid-ipv6-nextheader"@ {
            Some((packet.next_header as u64, 8usize))
        } else if name == "fid-ipv6-hoplimit"@ {
            Some((packet.hop_limit as u64, 8usize))
        } else if name == "fid-ipv6-devprefix"@ {
            Some((prefix_half(device), 64usize))
        } else if name == "fid-ipv6-deviid"@ {
            Some((interface_half(device), 64usize))
        } else if name == "fid-ipv6-appprefix"@ {
            Some((prefix_half(application), 64usize))
        } else if name == "fid-ipv6-appiid"@ {
            Some((interface_half(application), 64usize))
        } else {
            None
        },
        FieldView::Udp(name) => if name == "fid-udp-dev-port"@ {
            Some((device_port as u64, 16usize))
        } else if name == "fid-udp-app-port"@ {
            Some((application_port as u64, 16usize))
        } else if name == "fid-udp-length"@ {
            Some((packet.udp_length as u64, 16usize))
        } else if name == "fid-udp-checksum"@ {
            Some((packet.udp_checksum as u64, 16usize))
        } else {
            None
        },
        _ => None,
    }
}

proof fn lemma_field_names_differ()
    ensures
        "fid-udp-app-port"@ != "fid-udp-dev-port"@,
        "fid-udp-length"@ != "fid-udp-dev-port"@,
        "fid-udp-length"@ != "fid-udp-app-port"@,
        "fid-udp-checksum"@ != "fid-udp-dev-port"@,
        "fid-udp-checksum"@ != "fid-udp-app-port"@,
        "fid-udp-checksum"@ != "fid-udp-length"@,
        "fid-ipv6-trafficclass"@ != "fid-ipv6-version"@,
        "fid-ipv6-flowlabel"@ != "fid-ipv6-version"@,
        "fid-ipv6-flowlabel"@ != "fid-ipv6-trafficclass"@,
        "fid-ipv6-payload-length"@ != "fid-ipv6-version"@,
        "fid-ipv6-payload-length"@ != "fid-ipv6-trafficclass"@,
        "fid-ipv6-payload-length"@ != "fid-ipv6-flowlabel"@,
        "fid-ipv6-nextheader"@ != "fid-ipv6-version"@,
        "fid-ipv6-nextheader"@ != "fid-ipv6-trafficclass"@,
        "fid-ipv6-nextheader"@ != "fid-ipv6-flowlabel"@,
        "fid-ipv6-nextheader"@ != "fid-ipv6-payload-length"@,
        "fid-ipv6-hoplimit"@ != "fid-ipv6-version"@,
        "fid-ipv6-hoplimit"@ != "fid-ipv6-trafficclass"@,
        "fid-ipv6-hoplimit"@ != "fid-ipv6-flowlabel"@,
        "fid-ipv6-hoplimit"@ != "fid-ipv6-payload-length"@,
        "fid-ipv6-hoplimit"@ != "fid-ipv6-nextheader"@,
{
    reveal_strlit("fid-udp-dev-port");
    reveal_strlit("fid-udp-app-port");
    reveal_strlit("fid-udp-length");
    reveal_strlit("fid-udp-checksum");
    assert("fid-udp-app-port"@[8] == 'a' && "fid-udp-dev-port"@[8] == 'd');
    assert("fid-udp-length"@[8] == 'l' && "fid-udp-checksum"@[8] == 'c');
    reveal_strlit("fid-ipv6-version");
    reveal_strlit("fid-ipv6-trafficclass");
    reveal_strlit("fid-ipv6-flowlabel");
    reveal_strlit("fid-ipv6-payload-length");
    reveal_strlit("fid-ipv6-nextheader");
    reveal_strlit("fid-ipv6-hoplimit");
    assert("fid-ipv6-version"@[9] == 'v' && "fid-ipv6-trafficclass"@[9] == 't');
    assert("fid-ipv6-flowlabel"@[9] == 'f' && "fid-ipv6-payload-length"@[9] == 'p');
    assert("fid-ipv6-nextheader"@[9] == 'n' && "fid-ipv6-hoplimit"@[9] == 'h');
}

proof fn lemma_end_names_differ()
    ensures
        forall|name: Seq<char>|
            (name == "fid-ipv6-devprefix"@ || name == "fid-ipv6-deviid"@ || name
                == "fid-ipv6-appprefix"@ || name == "fid-ipv6-appiid"@) ==> {
                &&& #[trigger] name.len() > 9
                &&& name != "fid-ipv6-version"@
                &&& name != "fid-ipv6-trafficclass"@
                &&& name != "fid-ipv6-flowlabel"@
                &&& name != "fid-ipv6-payload-length"@
                &&& name != "fid-ipv6-nextheader"@
                &&& name != "fid-ipv6-hoplimit"@
            },
        "fid-ipv6-devprefix"@ != "fid-ipv6-deviid"@,
        "fid-ipv6-appprefix"@ != "fid-ipv6-deviid"@,
        "fid-ipv6-appprefix"@ != "fid-ipv6-devprefix"@,
        "fid-ipv6-appprefix"@ != "fid-ipv6-appiid"@,
        "fid-ipv6-appiid"@ != "fid-ipv6-deviid"@,
        "fid-ipv6-appiid"@ != "fid-ipv6-devprefix"@,
{
    reveal_strlit("fid-ipv6-version");
    reveal_strlit("fid-ipv6-trafficclass");
    reveal_strlit("fid-ipv6-flowlabel");
    reveal_strlit("fid-ipv6-payload-length");
    reveal_strlit("fid-ipv6-nextheader");
    reveal_strlit("fid-ipv6-hoplimit");
    reveal_strlit("fid-ipv6-devprefix");
    reveal_strlit("fid-ipv6-deviid");
    reveal_strlit("fid-ipv6-appprefix");
    reveal_strlit("fid-ipv6-appiid");
    assert("fid-ipv6-version"@[9] == 'v' && "fid-ipv6-trafficclass"@[9] == 't');
    assert("fid-ipv6-flowlabel"@[9] == 'f' && "fid-ipv6-payload-length"@[10] == 'a');
    assert("fid-ipv6-payload-length"@.len() == 23);
    assert("fid-ipv6-nextheader"@[9] == 'n' && "fid-ipv6-hoplimit"@[9] == 'h');
    assert("fid-ipv6-devprefix"@[9] == 'd' && "fid-ipv6-deviid"@[9] == 'd');
    assert("fid-ipv6-appprefix"@[9] == 'a' && "fid-ipv6-appiid"@[9] == 'a');
    assert("fid-ipv6-devprefix"@.len() == 18 && "fid-ipv6-deviid"@.len() == 15);
    assert("fid-ipv6-appprefix"@.len() == 18 && "fid-ipv6-appiid"@.len() == 15);
}

/// The ports of a flow as rules name them: the device port of an uplink
/// packet is its source port and the application port its destination port,
/// and the other way round for a downlink packet. Both are sixteen bits wide.
pub proof fn ports_belong_to_their_ends(packet: PacketView)
    ensures
        logical_number(packet, FlowDirection::Uplink, FieldView::Udp("fid-udp-dev-port"@)) == Some(
            (packet.source_port as u64, 16usize),
        ),
        logical_number(packet, FlowDirection::Uplink, FieldView::Udp("fid-udp-app-port"@)) == Some(
            (packet.destination_port as u64, 16usize),
        ),
        logical_number(packet, FlowDirection::Downlink, FieldView::Udp("fid-udp-dev-port"@))
            == Some((packet.destination_port as u64, 16usize)),
        logical_number(packet, FlowDirection::Downlink, FieldView::Udp("fid-udp-app-port"@))
            == Some((packet.source_port as u64, 16usize)),
{
    lemma_field_names_differ();
}

/// The address halves of a flow as rules name them. The device end of an
/// uplink packet is its source, that of a downlink packet its destination;
/// the prefix holds the leading half of the address and the interface
/// identifier the trailing one, so that both together are the address.
pub proof fn addresses_belong_to_their_ends(packet: PacketView, direction: FlowDirection)
    ensures
        ({
            let (device, application) = match direction {
                FlowDirection::Uplink => (packet.source, packet.destination),
                FlowDirection::Downlink => (packet.destination, packet.source),
            };
            let device_prefix = logical_number(
                packet,
                direction,
                FieldView::Ipv6("fid-ipv6-devprefix"@),
            );
            let device_iid = logical_number(
                packet,
                direction,
                FieldView::Ipv6("fid-ipv6-deviid"@),
            );
            let application_prefix = logical_number(
                packet,
                direction,
                FieldView::Ipv6("fid-ipv6-appprefix"@),
            );
            let application_iid = logical_number(
                packet,
                direction,
                FieldView::Ipv6("fid-ipv6-appiid"@),
            );
            &&& device_prefix is Some && (device_prefix->0).1 == 64
            &&& device_iid is Some && (device_iid->0).1 == 64
            &&& (device_prefix->0).0 * 0x1_0000_0000_0000_0000 + (device_iid->0).0 == device
            &&& application_prefix is Some && (application_prefix->0).1 == 64
            &&& application_iid is Some && (application_iid->0).1 == 64
            &&& (application_prefix->0).0 * 0x1_0000_0000_0000_0000 + (application_iid->0).0
                == application
        }),
{
    lemma_end_names_differ();
    assert("fid-ipv6-devprefix"@.len() > 9);
    assert("fid-ipv6-deviid"@.len() > 9);
    assert("fid-ipv6-appprefix"@.len() > 9);
    assert("fid-ipv6-appiid"@.len() > 9);
}

/// The fields of a flow that no end owns are those of the packet itself, in
/// the widths that their headers give them, whichever way the packet travels.
pub proof fn header_fields_are_those_of_the_packet(packet: PacketView, direction: FlowDirection)
    ensures
        logical_number(packet, direction, FieldView::Ipv6("fid-ipv6-version"@)) == Some(
            (6u64, 4usize),
        ),
        logical_number(packet, direction, FieldView::Ipv6("fid-ipv6-trafficclass"@)) == Some(
            (packet.traffic_class as u64, 8usize),
        ),
        logical_number(packet, direction, FieldView::Ipv6("fid-ipv6-flowlabel"@)) == Some(
            (packet.flow_label as u64, 20usize),
        ),
        logical_number(packet, direction, FieldView::Ipv6("fid-ipv6-payload-length"@)) == Some(
            (packet.payload_length as u64, 16usize),
        ),
        logical_number(packet, direction, FieldView::Ipv6("fid-ipv6-nextheader"@)) == Some(
            (packet.next_header as u64, 8usize),
        ),
        logical_number(packet, direction, FieldView::Ipv6("fid-ipv6-hoplimit"@)) == Some(
            (packet.hop_limit as u64, 8usize),
        ),
        logical_number(packet, direction, FieldView::Udp("fid-udp-length"@)) == Some(
            (packet.udp_length as u64, 16usize),
        ),
        logical_number(packet, direction, FieldView::Udp("fid-udp-checksum"@)) == Some(
            (packet.udp_checksum as u64, 16usize),
        ),
{
    lemma_field_names_differ();
}

/// A packet and the answer to it belong to the same flow: with the ends
/// exchanged and the direction turned round, every field that rules name has
/// the same value.
pub proof fn answer_belongs_to_the_same_flow(packet: PacketView, field: FieldView)
    ensures
        logical_number(packet, FlowDirection::Uplink, field) == logical_number(
            PacketView {
                source: packet.destination,
                destination: packet.source,
                source_port: packet.destination_port,
                destination_port: packet.source_port,
                ..packet
            },
            FlowDirection::Downlink,
            field,
        ),
{
}

/// The bytes of a field of some width.
pub open spec fn field_bytes(number: u64, bits: usize) -> Seq<u8> {
    width_bytes(number as nat, ((bits + 7) / 8) as nat)
}

fn logical_field_number(packet: &Ipv6UdpPacket, direction: FlowDirection, field: &FieldRef) -> (result:
    Option<(u64, usize)>)
    ensures
        result == logical_number(packet@, direction, field@),
        result matches Some((_, bits)) ==> 0 < bits <= 64,
{
    let up = direction == FlowDirection::Uplink;
    let (device, application) = if up {
        (packet.source, packet.destination)
    } else {
        (packet.destination, packet.source)
    };
    let (device_port, application_port) = if up {
        (packet.source_port, packet.destination_port)
    } else {
        (packet.destination_port, packet.source_port)
    };
    if named_ipv6(field, "fid-ipv6-version") {
        return Some((6, 4));
    }
    if named_ipv6(field, "fid-ipv6-trafficclass") {
        return Some((packet.traffic_class as u64, 8));
    }
    if named_ipv6(field, "fid-ipv6-flowlabel") {
        return Some((packet.flow_label as u64, 20));
    }
    if named_ipv6(field, "fid-ipv6-payload-length") {
        return Some((packet.payload_length as u64, 16));
    }
    if named_ipv6(field, "fid-ipv6-nextheader") {
        return Some((packet.next_header as u64, 8));
    }
    if named_ipv6(field, "fid-ipv6-hoplimit") {
        return Some((packet.hop_limit as u64, 8));
    }
    if named_ipv6(field, "fid-ipv6-devprefix") {
        return Some(((device / 0x1_0000_0000_0000_0000) as u64, 64));
    }
    if named_ipv6(field, "fid-ipv6-deviid") {
        return Some(((device % 0x1_0000_0000_0000_0000) as u64, 64));
    }
    if named_ipv6(field, "fid-ipv6-appprefix") {
        return Some(((application / 0x1_0000_0000_0000_0000) as u64, 64));
    }
    if named_ipv6(field, "fid-ipv6-appiid") {
        return Some(((application % 0x1_0000_0000_0000_0000) as u64, 64));
    }
    if named_udp(field, "fid-udp-dev-port") {
        return Some((device_port as u64, 16));
    }
    if named_udp(field, "fid-udp-app-port") {
        return Some((application_port as u64, 16));
    }
    if named_udp(field, "fid-udp-length") {
        return Some((packet.udp_length as u64, 16));
    }
    if named_udp(field, "fid-udp-checksum") {
        return Some((packet.udp_checksum as u64, 16));
    }
    None
}

/// Returns the bytes and width of a packet field as rules name it.
pub fn logical_field_value(packet: &Ipv6UdpPacket, direction: FlowDirection, field: &FieldRef) -> (result:
    Option<(Vec<u8>, usize)>)
    ensures
        match logical_number(packet@, direction, field@) {
            Some((number, bits)) => result matches Some((bytes, width)) && bytes@ == field_bytes(
                number,
                bits,
            ) && width == bits && 0 < bits <= 64,
            None => result is None,
        },
{
    match logical_field_number(packet, direction, field) {
        Some((number, bits)) => Some((number_in_width(number, (bits + 7) / 8), bits)),
        None => None,
    }
}

/// What a bit counts in its byte, the first bit most.
pub open spec fn bit_weight(position: int) -> int {
    if position == 0 {
        128
    } else if position == 1 {
        64
    } else if position == 2 {
        32
    } else if position == 3 {
        16
    } else if position == 4 {
        8
    } else if position == 5 {
        4
    } else if position == 6 {
        2
    } else {
        1
    }
}

/// One bit of a byte string, where bits behind its end are zero.
pub open spec fn bit_of(bytes: Seq<u8>, index: int) -> bool {
    index / 8 < bytes.len() && (bytes[index / 8] as int / bit_weight(index % 8)) % 2 == 1
}

fn weight_of(position: usize) -> (result: u8)
    requires
        position < 8,
    ensures
        result == bit_weight(position as int),
        result > 0,
{
    if position == 0 {
        128
    } else if position == 1 {
        64
    } else if position == 2 {
        32
    } else if position == 3 {
        16
    } else if position == 4 {
        8
    } else if position == 5 {
        4
    } else if position == 6 {
        2
    } else {
        1
    }
}

/// Returns one bit of a byte string.
pub fn bit_at(bytes: &[u8], index: usize) -> (result: bool)
    ensures
        result == bit_of(bytes@, index as int),
{
    let at: usize = index / 8;
    if at >= bytes.len() {
        return false;
    }
    let weight: u8 = weight_of(index % 8);
    (bytes[at] / weight) % 2 == 1
}

/// The number of a byte string of at most eight bytes.
pub open spec fn small_number(bytes: Seq<u8>) -> Option<nat> {
    if bytes.len() <= 8 {
        Some(bytes_value(bytes))
    } else {
        None
    }
}

/// Whether a field's value matches a target.
pub open spec fn matches_target(
    actual: Seq<u8>,
    target: Seq<u8>,
    bits: usize,
    matching: MatchingOperator,
) -> bool {
    match matching {
        MatchingOperator::Equal => small_number(actual) == small_number(target),
        MatchingOperator::Msb(prefix) => forall|index: int|
            0 <= index < prefix && index < bits ==> #[trigger] bit_of(actual, index) == bit_of(
                target,
                index,
            ),
        _ => forall|index: int|
            0 <= index < bits ==> #[trigger] bit_of(actual, index) == bit_of(target, index),
    }
}

fn same_bits(actual: &[u8], target: &[u8], count: usize) -> (result: bool)
    ensures
        result == (forall|index: int|
            0 <= index < count ==> #[trigger] bit_of(actual@, index) == bit_of(target@, index)),
{
    let mut index: usize = 0;
    while index < count
        invariant
            index <= count,
            forall|i: int|
                0 <= i < index ==> #[trigger] bit_of(actual@, i) == bit_of(target@, i),
        decreases count - index,
    {
        if bit_at(actual, index) != bit_at(target, index) {
            assert(bit_of(actual@, index as int) != bit_of(target@, index as int));
            return false;
        }
        index += 1;
    }
    true
}

/// Returns whether a field's value matches a target.
pub fn target_matches(actual: &[u8], target: &[u8], bits: usize, matching: MatchingOperator) -> (result:
    bool)
    ensures
        result == matches_target(actual@, target@, bits, matching),
{
    match matching {
        MatchingOperator::Equal => match (bytes_to_u64(actual), bytes_to_u64(target)) {
            (Some(left), Some(right)) => left == right,
            (None, None) => true,
            _ => false,
        },
        MatchingOperator::Msb(prefix) => {
            let count: usize = if prefix < bits {
                prefix
            } else {
                bits
            };
            same_bits(actual, target, count)
        },
        _ => same_bits(actual, target, bits),
    }
}

/// Whether a field's value matches one of some targets.
pub open spec fn matches_any(
    actual: Seq<u8>,
    bits: usize,
    values: Seq<Seq<u8>>,
    matching: MatchingOperator,
) -> bool {
    exists|i: int|
        0 <= i < values.len() && matches_target(actual, #[trigger] values[i], bits, matching)
}

/// Whether a field's value matches one of the targets of an entry.
pub open spec fn matches_entry(
    actual: Seq<u8>,
    bits: usize,
    target: TargetView,
    matching: MatchingOperator,
) -> bool {
    match target {
        TargetView::Absent => false,
        TargetView::Bytes(bytes) => matches_target(actual, bytes, bits, matching),
        TargetView::Mapping(values) => matches_any(actual, bits, values, matching),
    }
}

fn any_matches(actual: &[u8], bits: usize, values: &Vec<Vec<u8>>, matching: MatchingOperator) -> (result:
    bool)
    ensures
        result == matches_any(actual@, bits, mapping_view(values@), matching),
{
    let ghost view = mapping_view(values@);
    let mut index: usize = 0;
    while index < values.len()
        invariant
            index <= values@.len(),
            view == mapping_view(values@),
            forall|i: int|
                0 <= i < index ==> !matches_target(actual@, #[trigger] view[i], bits, matching),
        decreases values.len() - index,
    {
        assert(view[index as int] == values@[index as int]@);
        if target_matches(actual, values[index].as_slice(), bits, matching) {
            return true;
        }
        index += 1;
    }
    false
}

fn entry_matches(actual: &[u8], bits: usize, target: &TargetValue, matching: MatchingOperator) -> (result:
    bool)
    ensures
        result == matches_entry(actual@, bits, target@, matching),
{
    match target {
        TargetValue::Absent => false,
        TargetValue::Bytes(bytes) => target_matches(actual, bytes.as_slice(), bits, matching),
        TargetValue::Mapping(values) => any_matches(actual, bits, values, matching),
    }
}

/// What one entry means for a flow.
pub enum EntryPlan {
    /// The entry already describes the packet, or does not apply to it.
    Keep,
    /// The entry's target has to become a number.
    Change(nat),
    /// No change of a target makes the entry describe the packet.
    Refuse,
}

/// What one entry means for a flow.
pub open spec fn entry_plan(
    entry: FieldRuleView,
    packet: PacketView,
    direction: FlowDirection,
) -> EntryPlan {
    if !entry.direction.applies(direction.direction()) || entry.matching
        == MatchingOperator::Ignore {
        EntryPlan::Keep
    } else {
        match logical_number(packet, direction, entry.field) {
            None => if entry.target == TargetView::Absent {
                EntryPlan::Keep
            } else {
                EntryPlan::Refuse
            },
            Some((number, bits)) => {
                let actual = field_bytes(number, bits);
                if matches_entry(actual, bits, entry.target, entry.matching) {
                    EntryPlan::Keep
                } else if entry.target is Bytes && entry.length is FixedBits {
                    EntryPlan::Change(bytes_value(actual))
                } else {
                    EntryPlan::Refuse
                }
            },
        }
    }
}

/// The override that sets an entry's target to a number.
pub open spec fn target_override(entry_index: usize, number: nat) -> OverrideView {
    OverrideView {
        entry_index,
        target_value: Some(decimal(number)),
        matching_operator: None,
        cda: None,
    }
}

/// The overrides that make the first entries of a rule describe a packet, in
/// the order of the entries.
pub open spec fn entry_overrides(
    fields: Seq<FieldRuleView>,
    count: nat,
    packet: PacketView,
    direction: FlowDirection,
) -> Option<Seq<OverrideView>>
    decreases count,
{
    if count == 0 {
        Some(Seq::empty())
    } else {
        match entry_overrides(fields, (count - 1) as nat, packet, direction) {
            None => None,
            Some(before) => match entry_plan(fields[count - 1], packet, direction) {
                EntryPlan::Keep => Some(before),
                EntryPlan::Change(number) => Some(
                    before.push(target_override(fields[count - 1].entry_index, number)),
                ),
                EntryPlan::Refuse => None,
            },
        }
    }
}

/// The order of overrides.
pub open spec fn override_key() -> spec_fn(OverrideView) -> (int, int) {
    |change: OverrideView| (change.entry_index as int, 0int)
}

/// The overrides that make a rule describe a packet, ordered by entry.
pub open spec fn planned_overrides(
    fields: Seq<FieldRuleView>,
    packet: PacketView,
    direction: FlowDirection,
) -> Option<Seq<OverrideView>> {
    match entry_overrides(fields, fields.len(), packet, direction) {
        None => None,
        Some(list) => Some(sort_by(list, override_key())),
    }
}

proof fn lemma_refusal_stays(
    fields: Seq<FieldRuleView>,
    count: nat,
    more: nat,
    packet: PacketView,
    direction: FlowDirection,
)
    requires
        count <= more,
        entry_overrides(fields, count, packet, direction) is None,
    ensures
        entry_overrides(fields, more, packet, direction) is None,
    decreases more,
{
    if count < more {
        lemma_refusal_stays(fields, count, (more - 1) as nat, packet, direction);
    }
}

fn copy_text(text: &Option<String>) -> (result: Option<String>)
    ensures
        crate::rule_text::option_view(result) == crate::rule_text::option_view(*text),
{
    match text {
        Some(held) => Some(held.clone()),
        None => None,
    }
}

/// Returns a copy of an override.
pub fn copy_override(change: &RuleDuplicateOverride) -> (result: RuleDuplicateOverride)
    ensures
        result@ == change@,
{
    RuleDuplicateOverride {
        entry_index: change.entry_index,
        target_value: copy_text(&change.target_value),
        matching_operator: copy_text(&change.matching_operator),
        cda: copy_text(&change.cda),
    }
}

fn order_overrides(list: &Vec<RuleDuplicateOverride>) -> (result: Vec<RuleDuplicateOverride>)
    ensures
        overrides_view(result@) == sort_by(overrides_view(list@), override_key()),
{
    let mut keys: Vec<(u64, u64)> = Vec::new();
    let mut index: usize = 0;
    while index < list.len()
        invariant
            index <= list@.len(),
            keys@.len() == index,
            forall|i: int|
                0 <= i < index ==> (#[trigger] keys@[i]) == (list@[i].entry_index as u64, 0u64),
        decreases list.len() - index,
    {
        keys.push((list[index].entry_index as u64, 0));
        index += 1;
    }
    let order = sort_order(&keys);
    let ghost view = overrides_view(list@);
    proof {
        assert forall|i: int| 0 <= i < view.len() implies override_key()(#[trigger] view[i])
            == pair_key(keys@)(i) by {
            assert(keys@[i] == (list@[i].entry_index as u64, 0u64));
        }
        lemma_sort_by_picks(view, override_key(), pair_key(keys@));
    }
    let mut result: Vec<RuleDuplicateOverride> = Vec::new();
    index = 0;
    while index < order.len()
        invariant
            index <= order@.len(),
            order@.len() == list@.len(),
            result@.len() == index,
            view == overrides_view(list@),
            forall|i: int| 0 <= i < order@.len() ==> (#[trigger] order@[i]) < list@.len(),
            forall|i: int|
                0 <= i < index ==> (#[trigger] result@[i])@ == view[order_view(order@)[i]],
        decreases order.len() - index,
    {
        result.push(copy_override(&list[order[index]]));
        index += 1;
    }
    assert(overrides_view(result@) =~= picked(view, order_view(order@)));
    result
}

fn plan_entry(entry: &FieldRule, packet: &Ipv6UdpPacket, direction: FlowDirection) -> (result: Option<
    Option<u64>,
>)
    ensures
        match entry_plan(entry@, packet@, direction) {
            EntryPlan::Keep => result == Some(None::<u64>),
            EntryPlan::Change(number) => result matches Some(Some(value)) && value == number,
            EntryPlan::Refuse => result is None,
        },
{
    if !entry.direction.accepts(direction.schc_direction()) || entry.matching
        == MatchingOperator::Ignore {
        return Some(None);
    }
    match logical_field_value(packet, direction, &entry.field) {
        None => match &entry.target {
            TargetValue::Absent => Some(None),
            _ => None,
        },
        Some((actual, bits)) => {
            if entry_matches(actual.as_slice(), bits, &entry.target, entry.matching) {
                return Some(None);
            }
            let valued = match &entry.target {
                TargetValue::Bytes(_) => true,
                _ => false,
            };
            let fixed = match entry.length {
                FieldLength::FixedBits(_) => true,
                _ => false,
            };
            if !valued || !fixed {
                return None;
            }
            proof {
                let number = (logical_number(packet@, direction, entry@.field)->0).0;
                lemma_width(number as nat, ((bits + 7) / 8) as nat);
            }
            match bytes_to_u64(actual.as_slice()) {
                Some(number) => Some(Some(number)),
                None => None,
            }
        },
    }
}

/// Returns the overrides that make a rule describe a packet, or nothing when
/// no change of its targets does.
pub fn flow_overrides(parent: &Rule, packet: &Ipv6UdpPacket, direction: FlowDirection) -> (result:
    Option<Vec<RuleDuplicateOverride>>)
    ensures
        match planned_overrides(parent@.fields, packet@, direction) {
            Some(list) => result matches Some(overrides) && overrides_view(overrides@) == list,
            None => result is None,
        },
{
    let ghost view = fields_view(parent.fields@);
    let mut list: Vec<RuleDuplicateOverride> = Vec::new();
    let mut index: usize = 0;
    assert(overrides_view(list@) =~= Seq::<OverrideView>::empty());
    while index < parent.fields.len()
        invariant
            index <= parent.fields@.len(),
            view == fields_view(parent.fields@),
            entry_overrides(view, index as nat, packet@, direction) == Some(
                overrides_view(list@),
            ),
        decreases parent.fields.len() - index,
    {
        let entry = &parent.fields[index];
        assert(view[index as int] == entry@);
        match plan_entry(entry, packet, direction) {
            None => {
                proof {
                    lemma_refusal_stays(
                        view,
                        (index + 1) as nat,
                        view.len(),
                        packet@,
                        direction,
                    );
                }
                return None;
            },
            Some(None) => {},
            Some(Some(number)) => {
                let ghost before = overrides_view(list@);
                let change = RuleDuplicateOverride {
                    entry_index: entry.entry_index,
                    target_value: Some(decimal_string(number)),
                    matching_operator: None,
                    cda: None,
                };
                list.push(change);
                assert(overrides_view(list@) =~= before.push(change@));
            },
        }
        index += 1;
    }
    Some(order_overrides(&list))
}

/// The bytes that a planned override leads to match the packet, wherever the
/// entry compares whole values: the change that is planned is the change that
/// is needed.
pub proof fn planned_target_matches(
    entry: FieldRuleView,
    packet: PacketView,
    direction: FlowDirection,
    number: nat,
    width: nat,
    field_length: Json,
)
    requires
        entry_plan(entry, packet, direction) == EntryPlan::Change(number),
        entry.matching == MatchingOperator::Equal,
        width <= 8,
        replacement_bytes(decimal(number), width, field_length) is Ok,
    ensures
        logical_number(packet, direction, entry.field) matches Some((value, bits))
            && matches_target(
            field_bytes(value, bits),
            replacement_bytes(decimal(number), width, field_length)->Ok_0,
            bits,
            MatchingOperator::Equal,
        ),
{
    let (value, bits) = logical_number(packet, direction, entry.field)->0;
    let actual = field_bytes(value, bits);
    lemma_width(value as nat, ((bits + 7) / 8) as nat);
    lemma_decimal_round_trip(number);
    crate::target::accepted_target_value_is_exact(decimal(number), width, field_length);
    assert(bits <= 64);
}

/// Which entries a flow changes: exactly those that apply to its direction,
/// compare their field, and hold another value than the packet. The change
/// sets the target to the number that the packet holds in that field. An entry
/// that cannot be changed so makes the rule unfit for the flow.
pub proof fn planned_entry_takes_the_packet_value(
    entry: FieldRuleView,
    packet: PacketView,
    direction: FlowDirection,
)
    requires
        packet.flow_label < 0x10_0000,
    ensures
        direction == FlowDirection::Uplink && entry.direction == DirectionSelector::Down
            ==> entry_plan(entry, packet, direction) is Keep,
        direction == FlowDirection::Downlink && entry.direction == DirectionSelector::Up
            ==> entry_plan(entry, packet, direction) is Keep,
        entry.matching == MatchingOperator::Ignore ==> entry_plan(entry, packet, direction)
            is Keep,
        entry_plan(entry, packet, direction) matches EntryPlan::Change(number) ==> {
            &&& entry.matching != MatchingOperator::Ignore
            &&& entry.target is Bytes
            &&& entry.length is FixedBits
            &&& logical_number(packet, direction, entry.field) matches Some((value, bits))
                && number == value && !matches_target(
                field_bytes(value, bits),
                entry.target->Bytes_0,
                bits,
                entry.matching,
            )
        },
        ({
            let applies = entry.direction == DirectionSelector::Bidirectional || (entry.direction
                == DirectionSelector::Up && direction == FlowDirection::Uplink) || (
            entry.direction == DirectionSelector::Down && direction == FlowDirection::Downlink);
            applies && entry.matching == MatchingOperator::Equal && entry.target is Bytes
                && entry.target->Bytes_0.len() <= 8 && entry.length is FixedBits ==> (
            logical_number(packet, direction, entry.field) matches Some((value, bits)) ==> {
                &&& bytes_value(entry.target->Bytes_0) == value <==> entry_plan(
                    entry,
                    packet,
                    direction,
                ) is Keep
                &&& bytes_value(entry.target->Bytes_0) != value ==> entry_plan(
                    entry,
                    packet,
                    direction,
                ) == EntryPlan::Change(value as nat)
            })
        }),
{
    lemma2_to64();
    lemma2_to64_rest();
    match logical_number(packet, direction, entry.field) {
        Some((value, bits)) => {
            let width = ((bits + 7) / 8) as nat;
            lemma_logical_number_fits(packet, direction, entry.field);
            width_bytes_round_trip(value as nat, width);
        },
        None => {},
    }
}

proof fn lemma_logical_number_fits(packet: PacketView, direction: FlowDirection, field: FieldView)
    requires
        packet.flow_label < 0x100_0000,
        logical_number(packet, direction, field) is Some,
    ensures
        ({
            let (value, bits) = logical_number(packet, direction, field)->0;
            0 < bits <= 64 && value < pow2(8 * ((bits + 7) / 8) as nat)
        }),
{
    lemma2_to64();
    lemma2_to64_rest();
}

#[verifier::opaque]
spec fn plan_at(
    fields: Seq<FieldRuleView>,
    at: int,
    packet: PacketView,
    direction: FlowDirection,
) -> EntryPlan {
    entry_plan(fields[at], packet, direction)
}

#[verifier::opaque]
spec fn planned_before(
    fields: Seq<FieldRuleView>,
    count: nat,
    packet: PacketView,
    direction: FlowDirection,
) -> Option<Seq<OverrideView>> {
    entry_overrides(fields, count, packet, direction)
}

proof fn lemma_planned_step(
    fields: Seq<FieldRuleView>,
    count: nat,
    packet: PacketView,
    direction: FlowDirection,
)
    ensures
        planned_before(fields, 0, packet, direction) == Some(Seq::<OverrideView>::empty()),
        count > 0 ==> planned_before(fields, count, packet, direction) == match planned_before(
            fields,
            (count - 1) as nat,
            packet,
            direction,
        ) {
            None => None,
            Some(before) => match plan_at(fields, count - 1, packet, direction) {
                EntryPlan::Keep => Some(before),
                EntryPlan::Change(number) => Some(
                    before.push(
                        OverrideView {
                            entry_index: fields[count - 1].entry_index,
                            target_value: Some(decimal(number)),
                            matching_operator: None,
                            cda: None,
                        },
                    ),
                ),
                EntryPlan::Refuse => None,
            },
        },
{
    reveal(plan_at);
    reveal(planned_before);
}

proof fn lemma_planned_entries(
    fields: Seq<FieldRuleView>,
    count: nat,
    packet: PacketView,
    direction: FlowDirection,
)
    requires
        count <= fields.len(),
        planned_before(fields, count, packet, direction) is Some,
    ensures
        ({
            let list = planned_before(fields, count, packet, direction)->0;
            &&& forall|k: int|
                #![trigger list[k]]
                0 <= k < list.len() ==> list[k].matching_operator is None && list[k].cda is None
                    && exists|i: int|
                    #![trigger fields[i]]
                    0 <= i < count && fields[i].entry_index == list[k].entry_index && plan_at(
                        fields,
                        i,
                        packet,
                        direction,
                    ) is Change && list[k].target_value == Some(
                        decimal(plan_at(fields, i, packet, direction)->Change_0),
                    )
            &&& forall|i: int|
                #![trigger fields[i]]
                0 <= i < count ==> !(plan_at(fields, i, packet, direction) is Refuse) && (plan_at(
                    fields,
                    i,
                    packet,
                    direction,
                ) is Change ==> list.contains(
                    OverrideView {
                        entry_index: fields[i].entry_index,
                        target_value: Some(
                            decimal(plan_at(fields, i, packet, direction)->Change_0),
                        ),
                        matching_operator: None,
                        cda: None,
                    },
                ))
        }),
    decreases count,
{
    lemma_planned_step(fields, count, packet, direction);
    if count > 0 {
        lemma_planned_entries(fields, (count - 1) as nat, packet, direction);
        let before = planned_before(fields, (count - 1) as nat, packet, direction)->0;
        let list = planned_before(fields, count, packet, direction)->0;
        let last = count - 1;
        assert forall|k: int|
            #![trigger list[k]]
            0 <= k < list.len() implies list[k].matching_operator is None && list[k].cda is None
            && exists|i: int|
            #![trigger fields[i]]
            0 <= i < count && fields[i].entry_index == list[k].entry_index && plan_at(
                fields,
                i,
                packet,
                direction,
            ) is Change && list[k].target_value == Some(
                decimal(plan_at(fields, i, packet, direction)->Change_0),
            ) by {
            if k < before.len() {
                assert(list[k] == before[k]);
            } else {
                assert(fields[last].entry_index == list[k].entry_index);
            }
        }
        assert forall|i: int| #![trigger fields[i]] 0 <= i < count implies !(plan_at(
            fields,
            i,
            packet,
            direction,
        ) is Refuse) && (plan_at(fields, i, packet, direction) is Change ==> list.contains(
            OverrideView {
                entry_index: fields[i].entry_index,
                target_value: Some(decimal(plan_at(fields, i, packet, direction)->Change_0)),
                matching_operator: None,
                cda: None,
            },
        )) by {
            if plan_at(fields, i, packet, direction) is Change {
                let wanted = OverrideView {
                    entry_index: fields[i].entry_index,
                    target_value: Some(decimal(plan_at(fields, i, packet, direction)->Change_0)),
                    matching_operator: None,
                    cda: None,
                };
                if i < last {
                    assert(before.contains(wanted));
                    let k = choose|k: int| 0 <= k < before.len() && before[k] == wanted;
                    assert(list[k] == wanted);
                } else {
                    assert(list[before.len() as int] == wanted);
                }
            }
        }
    }
}

/// The planned overrides of a rule are those of its entries: every override
/// sets only the target of one entry, to the decimal numeral of the value that
/// the packet needs there; every entry that needs a change has its override;
/// no entry resists; and the overrides stand in the order of the entries.
pub proof fn planned_overrides_are_those_of_the_entries(
    fields: Seq<FieldRuleView>,
    packet: PacketView,
    direction: FlowDirection,
    at: int,
    place: int,
)
    requires
        planned_overrides(fields, packet, direction) is Some,
        0 <= at < fields.len(),
        0 <= place < planned_overrides(fields, packet, direction)->0.len(),
    ensures
        ({
            let list = planned_overrides(fields, packet, direction)->0;
            &&& list[place].matching_operator is None
            &&& list[place].cda is None
            &&& exists|i: int|
                #![trigger fields[i]]
                0 <= i < fields.len() && fields[i].entry_index == list[place].entry_index
                    && entry_plan(fields[i], packet, direction) is Change
                    && list[place].target_value == Some(
                    decimal(entry_plan(fields[i], packet, direction)->Change_0),
                )
            &&& !(entry_plan(fields[at], packet, direction) is Refuse)
            &&& entry_plan(fields[at], packet, direction) matches EntryPlan::Change(number)
                ==> list.contains(
                OverrideView {
                    entry_index: fields[at].entry_index,
                    target_value: Some(decimal(number)),
                    matching_operator: None,
                    cda: None,
                },
            )
            &&& forall|k: int, l: int|
                0 <= k <= l < list.len() ==> (#[trigger] list[k]).entry_index <= (
                #[trigger] list[l]).entry_index
        }),
{
    let found = planned_before(fields, fields.len(), packet, direction)->0;
    lemma_planned_order(fields, packet, direction);
    lemma_planned_entries(fields, fields.len(), packet, direction);
    let list = planned_overrides(fields, packet, direction)->0;
    assert(list.contains(list[place]));
    assert(found.contains(list[place]));
    let j = choose|j: int| 0 <= j < found.len() && found[j] == list[place];
    assert(found[j] == list[place]);
    let i = choose|i: int|
        #![trigger fields[i]]
        0 <= i < fields.len() && fields[i].entry_index == found[j].entry_index && plan_at(
            fields,
            i,
            packet,
            direction,
        ) is Change && found[j].target_value == Some(
            decimal(plan_at(fields, i, packet, direction)->Change_0),
        );
    assert(plan_at(fields, i, packet, direction) == entry_plan(fields[i], packet, direction)) by {
        reveal(plan_at);
    }
    assert(plan_at(fields, at, packet, direction) == entry_plan(
        fields[at],
        packet,
        direction,
    )) by {
        reveal(plan_at);
    }
    assert(fields[i].entry_index == list[place].entry_index);
}

proof fn lemma_planned_order(
    fields: Seq<FieldRuleView>,
    packet: PacketView,
    direction: FlowDirection,
)
    requires
        planned_overrides(fields, packet, direction) is Some,
    ensures
        planned_before(fields, fields.len(), packet, direction) is Some,
        ({
            let found = planned_before(fields, fields.len(), packet, direction)->0;
            let list = planned_overrides(fields, packet, direction)->0;
            &&& forall|item: OverrideView| #[trigger] found.contains(item) <==> list.contains(item)
            &&& forall|k: int, l: int|
                0 <= k <= l < list.len() ==> (#[trigger] list[k]).entry_index <= (
                #[trigger] list[l]).entry_index
        }),
{
    broadcast use vstd::seq_lib::group_to_multiset_ensures;

    reveal(planned_before);
    let found = planned_before(fields, fields.len(), packet, direction)->0;
    let list = planned_overrides(fields, packet, direction)->0;
    sorting_orders_and_keeps_items(found, override_key());
    assert forall|item: OverrideView| #[trigger] found.contains(item) <==> list.contains(item) by {
        assert(found.to_multiset().count(item) > 0 <==> found.contains(item));
        assert(list.to_multiset().count(item) > 0 <==> list.contains(item));
    }
    assert forall|k: int, l: int| 0 <= k <= l < list.len() implies (
    #[trigger] list[k]).entry_index <= (#[trigger] list[l]).entry_index by {
        assert(override_key()(list[k]).0 == list[k].entry_index);
        assert(override_key()(list[l]).0 == list[l].entry_index);
    }
}

/// A rule fits a complete flow only where it compares the flow label, both
/// halves of both addresses and both ports with a value each, and it carries
/// application data only where an entry describes a payload.
pub proof fn complete_flow_compares_every_part(fields: Seq<FieldRuleView>, field: FieldView)
    requires
        complete_flow(fields),
        field == FieldView::Ipv6("fid-ipv6-flowlabel"@) || field == FieldView::Ipv6(
            "fid-ipv6-devprefix"@,
        ) || field == FieldView::Ipv6("fid-ipv6-deviid"@) || field == FieldView::Ipv6(
            "fid-ipv6-appprefix"@,
        ) || field == FieldView::Ipv6("fid-ipv6-appiid"@) || field == FieldView::Udp(
            "fid-udp-dev-port"@,
        ) || field == FieldView::Udp("fid-udp-app-port"@),
    ensures
        exists|i: int|
            #![trigger fields[i]]
            0 <= i < fields.len() && fields[i].field == field && fields[i].matching
                != MatchingOperator::Ignore && fields[i].target is Bytes,
        describes_payload(fields) <==> exists|i: int|
            #![trigger fields[i]]
            0 <= i < fields.len() && (fields[i].field is Payload || fields[i].field
                == FieldView::Udp("fid-udp-payload"@)),
{
    let i = choose|i: int| 0 <= i < fields.len() && compares(#[trigger] fields[i], field);
    assert(fields[i].field == field);
}

/// An uplink flow travels up, from the device, and a downlink flow down, from
/// the core.
pub proof fn flow_directions_are_those_of_the_rules()
    ensures
        FlowDirection::Uplink.direction() == Direction::Up,
        FlowDirection::Downlink.direction() == Direction::Down,
{
}

/// The bits of a byte string are those of its bytes, the most significant bit
/// of the first byte first; a byte is what its eight bits add up to.
pub proof fn bits_spell_the_bytes(bytes: Seq<u8>, at: int)
    requires
        0 <= at < bytes.len(),
    ensures
        bit_of(bytes, 8 * at) <==> bytes[at] >= 128,
        bit_of(bytes, 8 * at + 7) <==> bytes[at] % 2 == 1,
        ({
            let digit = |place: int|
                if bit_of(bytes, 8 * at + place) {
                    1int
                } else {
                    0int
                };
            bytes[at] == 128 * digit(0) + 64 * digit(1) + 32 * digit(2) + 16 * digit(3) + 8
                * digit(4) + 4 * digit(5) + 2 * digit(6) + digit(7)
        }),
        !bit_of(bytes, 8 * bytes.len() as int),
{
    let byte = bytes[at];
    assert(byte == 128 * ((byte / 128) % 2) + 64 * ((byte / 64) % 2) + 32 * ((byte / 32) % 2) + 16
        * ((byte / 16) % 2) + 8 * ((byte / 8) % 2) + 4 * ((byte / 4) % 2) + 2 * ((byte / 2) % 2)
        + byte % 2) by (bit_vector);
    lemma_bit_at(bytes, at, 0);
    lemma_bit_at(bytes, at, 1);
    lemma_bit_at(bytes, at, 2);
    lemma_bit_at(bytes, at, 3);
    lemma_bit_at(bytes, at, 4);
    lemma_bit_at(bytes, at, 5);
    lemma_bit_at(bytes, at, 6);
    lemma_bit_at(bytes, at, 7);
}

proof fn lemma_bit_at(bytes: Seq<u8>, at: int, place: int)
    requires
        0 <= at < bytes.len(),
        0 <= place < 8,
    ensures
        bit_of(bytes, 8 * at + place) == ((bytes[at] as int / bit_weight(place)) % 2 == 1),
{
    assert((8 * at + place) / 8 == at);
    assert((8 * at + place) % 8 == place);
}

/// Whole values match when they are the same number; leading bits match when
/// that many bits are the same, at most as many as the field has; in a list
/// of targets one match is enough, and nothing matches an absent target.
pub proof fn targets_match_by_their_operator(
    actual: Seq<u8>,
    target: Seq<u8>,
    bits: usize,
    prefix: usize,
)
    requires
        actual.len() <= 8,
        target.len() <= 8,
    ensures
        matches_target(actual, target, bits, MatchingOperator::Equal) <==> bytes_value(actual)
            == bytes_value(target),
        prefix <= bits ==> (matches_target(actual, target, bits, MatchingOperator::Msb(prefix))
            <==> forall|index: int|
            0 <= index < prefix ==> #[trigger] bit_of(actual, index) == bit_of(target, index)),
        prefix >= bits ==> (matches_target(actual, target, bits, MatchingOperator::Msb(prefix))
            <==> forall|index: int|
            0 <= index < bits ==> #[trigger] bit_of(actual, index) == bit_of(target, index)),
        matches_target(actual, target, bits, MatchingOperator::Msb(0)),
        !matches_entry(actual, bits, TargetView::Absent, MatchingOperator::Equal),
        matches_entry(actual, bits, TargetView::Bytes(target), MatchingOperator::Equal)
            <==> bytes_value(actual) == bytes_value(target),
        bytes_value(actual) == bytes_value(target) ==> matches_entry(
            actual,
            bits,
            TargetView::Mapping(seq![target]),
            MatchingOperator::Equal,
        ),
        !matches_entry(
            actual,
            bits,
            TargetView::Mapping(Seq::empty()),
            MatchingOperator::Equal,
        ),
{
    let single = seq![target];
    assert(single[0] == target);
    if bytes_value(actual) == bytes_value(target) {
        assert(matches_target(actual, single[0], bits, MatchingOperator::Equal));
        assert(matches_any(actual, bits, single, MatchingOperator::Equal));
    }
}

} // verus!
