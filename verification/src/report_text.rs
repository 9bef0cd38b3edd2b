//! Deterministic human-readable packet reports.

use vstd::prelude::*;

use crate::duplicate_command::OverrideView;
use crate::duplicate_cost::{
    described_view, CostView, DuplicateRpcCost, DuplicateRpcOverride, RpcAnswers,
};
use crate::link::{LinkReport, ReportView};
use crate::link_types::TrafficClass;
use crate::packet::UDP_NEXT_HEADER;
use crate::report::{
    coap_overhead, descriptions_view, encoded_size, inspect_report, inspected_report_adds_up,
    inspection_of, inspection_view, parse_view, sizes_fault, validate_line_report,
    CoapOptionCost, CoapOptionDescription, CoapReport, CoapReportView, Ipv6Report, Ipv6View,
    OptionView, PacketReport, PacketReportView, ParsedPacket, ReportDirection, ReportError,
    ReportFault, SchcCost, UdpReport,
};
use crate::text::{
    decimal, decimal_string, hex_digits, hex_string, join, join3, join_list, joined, same_text,
    strings_view,
};

verus! {

/// The text of some lines, each with its line end.
pub open spec fn text_of_lines(lines: Seq<Seq<char>>) -> Seq<char>
    decreases lines.len(),
{
    if lines.len() == 0 {
        Seq::empty()
    } else {
        text_of_lines(lines.drop_last()) + lines.last() + "\n"@
    }
}

/// Returns the text of some lines, each with its line end.
pub fn lines_text(lines: &Vec<String>) -> (result: String)
    ensures
        result@ == text_of_lines(strings_view(lines@)),
{
    let ghost view = strings_view(lines@);
    let mut text = String::new();
    let mut index: usize = 0;
    assert(text@ =~= text_of_lines(view.take(0)));
    while index < lines.len()
        invariant
            index <= lines@.len(),
            view == strings_view(lines@),
            text@ == text_of_lines(view.take(index as int)),
        decreases lines.len() - index,
    {
        proof {
            assert(view.take(index + 1).drop_last() =~= view.take(index as int));
            assert(view.take(index + 1).last() == lines@[index as int]@);
        }
        text = join3(text.as_str(), lines[index].as_str(), "\n");
        index += 1;
    }
    assert(view.take(index as int) =~= view);
    text
}

/// Spaces.
pub open spec fn spaces(count: nat) -> Seq<char> {
    Seq::new(count, |i: int| ' ')
}

/// A text moved to the right end of a width.
pub open spec fn right_aligned(text: Seq<char>, width: nat) -> Seq<char> {
    if text.len() < width {
        spaces((width - text.len()) as nat) + text
    } else {
        text
    }
}

fn aligned_number(number: usize) -> (result: String)
    ensures
        result@ == right_aligned(decimal(number as nat), 3),
{
    let digits = decimal_string(number as u64);
    let length: usize = digits.as_str().unicode_len();
    proof {
        reveal_strlit(" ");
        reveal_strlit("  ");
        crate::text::lemma_decimal_round_trip(number as nat);
    }
    if length >= 3 {
        return digits;
    }
    if length == 2 {
        let text = join(" ", digits.as_str());
        assert(" "@ =~= spaces(1));
        return text;
    }
    let text = join("  ", digits.as_str());
    assert("  "@ =~= spaces(2));
    text
}

/// Whether an option says that the payload is management data.
pub open spec fn management_format(option: OptionView) -> bool {
    option.number == 12 && (option.value == "141"@ || option.value == "142"@)
}

/// How the payload of a message is described.
pub open spec fn payload_name(options: Seq<OptionView>) -> Seq<char> {
    if exists|i: int| 0 <= i < options.len() && management_format(#[trigger] options[i]) {
        "binary CORECONF payload"@
    } else {
        "payload"@
    }
}

fn name_payload(options: &Vec<CoapOptionDescription>) -> (result: &'static str)
    ensures
        result@ == payload_name(descriptions_view(options@)),
{
    let ghost view = descriptions_view(options@);
    let mut index: usize = 0;
    while index < options.len()
        invariant
            index <= options@.len(),
            view == descriptions_view(options@),
            forall|i: int| 0 <= i < index ==> !management_format(#[trigger] view[i]),
        decreases options.len() - index,
    {
        let option = &options[index];
        assert(view[index as int] == option@);
        if option.number == 12 && (same_text(option.value.as_str(), "141") || same_text(
            option.value.as_str(),
            "142",
        )) {
            assert(management_format(view[index as int]));
            return "binary CORECONF payload";
        }
        index += 1;
    }
    "payload"
}

/// A line with a number in the middle.
pub open spec fn number_line(head: Seq<char>, number: nat, tail: Seq<char>) -> Seq<char> {
    head + decimal(number) + tail
}

fn build_number_line(head: &str, number: u64, tail: &str) -> (result: String)
    ensures
        result@ == number_line(head@, number as nat, tail@),
{
    join3(head, decimal_string(number).as_str(), tail)
}

/// A line with a right-aligned number of bytes.
pub open spec fn aligned_line(head: Seq<char>, number: nat) -> Seq<char> {
    head + right_aligned(decimal(number), 3) + " B"@
}

fn build_aligned_line(head: &str, number: usize) -> (result: String)
    ensures
        result@ == aligned_line(head@, number as nat),
{
    join3(head, aligned_number(number).as_str(), " B")
}

/// The lines about the layers of a packet.
pub open spec fn layer_lines(report: PacketReportView) -> Seq<Seq<char>> {
    seq![
        number_line("  Packet                           "@, report.layers.packet_bytes as nat, " B"@),
        number_line(
            "    IPv6                            "@,
            report.layers.ipv6_header_bytes as nat,
            " B"@,
        ),
        number_line(
            "    UDP                              "@,
            report.layers.udp_header_bytes as nat,
            " B"@,
        ),
        number_line(
            "    CoAP                            "@,
            report.layers.coap.total_bytes as nat,
            " B"@,
        ),
        aligned_line(
            "      header/token/options/marker "@,
            coap_overhead(report.layers.coap),
        ),
    ]
}

/// The lines about the payload of a packet.
pub open spec fn payload_lines(report: PacketReportView) -> Seq<Seq<char>> {
    match report.rpc {
        Some(rpc) => seq![
            aligned_line("      RPC                           "@, rpc.payload_bytes as nat),
            aligned_line("        fixed                       "@, rpc.fixed_bytes as nat),
            aligned_line(
                "        variable framing           "@,
                rpc.variable_framing_bytes as nat,
            ),
            aligned_line("        target values              "@, rpc.target_value_bytes as nat),
        ],
        None => seq![
            number_line(
                "      payload          "@,
                report.layers.coap.payload_bytes as nat,
                " B ("@ + payload_name(report.coap.options) + ")"@,
            ),
        ],
    }
}

fn sum_encoded(options: &Vec<CoapOptionCost>) -> (result: usize)
    requires
        encoded_size(options@) <= usize::MAX,
    ensures
        result == encoded_size(options@),
{
    let mut total: usize = 0;
    let mut index: usize = 0;
    while index < options.len()
        invariant
            index <= options@.len(),
            encoded_size(options@) <= usize::MAX,
            total == encoded_size(options@.take(index as int)),
        decreases options.len() - index,
    {
        proof {
            assert(options@.take(index + 1).drop_last() =~= options@.take(index as int));
            assert(options@.take(index + 1).last() == options@[index as int]);
            lemma_encoded_size_grows(options@, (index + 1) as nat);
        }
        total = total + options[index].encoded_bytes;
        index += 1;
    }
    assert(options@.take(index as int) =~= options@);
    total
}

proof fn lemma_encoded_size_grows(options: Seq<CoapOptionCost>, count: nat)
    requires
        count <= options.len(),
    ensures
        encoded_size(options.take(count as int)) <= encoded_size(options),
    decreases options.len(),
{
    if count == options.len() {
        assert(options.take(count as int) =~= options);
    } else {
        lemma_encoded_size_grows(options.drop_last(), count);
        assert(options.drop_last().take(count as int) =~= options.take(count as int));
    }
}

fn render_layers(report: &PacketReport) -> (result: Vec<String>)
    requires
        coap_overhead(report@.layers.coap) <= usize::MAX,
    ensures
        strings_view(result@) == layer_lines(report@),
{
    let coap = &report.layers.coap;
    let overhead: usize = coap.base_header_bytes + coap.token_bytes + sum_encoded(&coap.options)
        + coap.payload_marker_bytes;
    let lines: Vec<String> = vec![
        build_number_line(
            "  Packet                           ",
            report.layers.packet_bytes as u64,
            " B",
        ),
        build_number_line(
            "    IPv6                            ",
            report.layers.ipv6_header_bytes as u64,
            " B",
        ),
        build_number_line(
            "    UDP                              ",
            report.layers.udp_header_bytes as u64,
            " B",
        ),
        build_number_line("    CoAP                            ", coap.total_bytes as u64, " B"),
        build_aligned_line("      header/token/options/marker ", overhead),
    ];
    assert(strings_view(lines@) =~= layer_lines(report@));
    lines
}

fn render_payload(report: &PacketReport) -> (result: Vec<String>)
    ensures
        strings_view(result@) == payload_lines(report@),
{
    match &report.rpc {
        Some(rpc) => {
            let lines: Vec<String> = vec![
                build_aligned_line("      RPC                           ", rpc.payload_bytes),
                build_aligned_line("        fixed                       ", rpc.fixed_bytes),
                build_aligned_line(
                    "        variable framing           ",
                    rpc.variable_framing_bytes,
                ),
                build_aligned_line("        target values              ", rpc.target_value_bytes),
            ];
            assert(strings_view(lines@) =~= payload_lines(report@));
            lines
        },
        None => {
            let tail = join3(" B (", name_payload(&report.coap.options), ")");
            let lines: Vec<String> = vec![
                build_number_line(
                    "      payload          ",
                    report.layers.coap.payload_bytes as u64,
                    tail.as_str(),
                ),
            ];
            assert(strings_view(lines@) =~= payload_lines(report@));
            lines
        },
    }
}

/// The name of a next header.
pub open spec fn next_header_text(value: u8) -> Seq<char> {
    if value == UDP_NEXT_HEADER {
        "UDP"@
    } else {
        "unknown"@
    }
}

fn next_header_name(value: u8) -> (result: &'static str)
    ensures
        result@ == next_header_text(value),
{
    if value == UDP_NEXT_HEADER {
        "UDP"
    } else {
        "unknown"
    }
}

/// The lines about IPv6 fields.
pub open spec fn ipv6_lines(ipv6: Ipv6View) -> Seq<Seq<char>> {
    seq![
        "  IPv6"@,
        number_line("    version          "@, ipv6.version as nat, ""@),
        "    source           "@ + ipv6.source,
        "    destination      "@ + ipv6.destination,
        number_line("    traffic class    "@, ipv6.traffic_class as nat, ""@),
        number_line("    flow label       "@, ipv6.flow_label as nat, ""@),
        number_line("    payload length   "@, ipv6.payload_length as nat, " B"@),
        number_line(
            "    next header      "@ + next_header_text(ipv6.next_header) + " ("@,
            ipv6.next_header as nat,
            ")"@,
        ),
        number_line("    hop limit        "@, ipv6.hop_limit as nat, ""@),
    ]
}

fn render_ipv6(ipv6: &Ipv6Report) -> (result: Vec<String>)
    ensures
        strings_view(result@) == ipv6_lines(ipv6@),
{
    let next = join3("    next header      ", next_header_name(ipv6.next_header), " (");
    let lines: Vec<String> = vec![
        "  IPv6".to_owned(),
        build_number_line("    version          ", ipv6.version as u64, ""),
        join("    source           ", ipv6.source.as_str()),
        join("    destination      ", ipv6.destination.as_str()),
        build_number_line("    traffic class    ", ipv6.traffic_class as u64, ""),
        build_number_line("    flow label       ", ipv6.flow_label as u64, ""),
        build_number_line("    payload length   ", ipv6.payload_length as u64, " B"),
        build_number_line(next.as_str(), ipv6.next_header as u64, ")"),
        build_number_line("    hop limit        ", ipv6.hop_limit as u64, ""),
    ];
    assert(strings_view(lines@) =~= ipv6_lines(ipv6@));
    lines
}

/// The lines about UDP fields.
pub open spec fn udp_lines(udp: UdpReport) -> Seq<Seq<char>> {
    seq![
        "  UDP"@,
        number_line("    source port       "@, udp.source_port as nat, ""@),
        number_line("    destination port  "@, udp.destination_port as nat, ""@),
        number_line("    length            "@, udp.length as nat, " B"@),
        number_line("    checksum          "@, udp.checksum as nat, ""@),
    ]
}

fn render_udp(udp: &UdpReport) -> (result: Vec<String>)
    ensures
        strings_view(result@) == udp_lines(*udp),
{
    let lines: Vec<String> = vec![
        "  UDP".to_owned(),
        build_number_line("    source port       ", udp.source_port as u64, ""),
        build_number_line("    destination port  ", udp.destination_port as u64, ""),
        build_number_line("    length            ", udp.length as u64, " B"),
        build_number_line("    checksum          ", udp.checksum as u64, ""),
    ];
    assert(strings_view(lines@) =~= udp_lines(*udp));
    lines
}

/// The name of a message type.
pub open spec fn message_type_text(value: u8) -> Seq<char> {
    if value == 0 {
        "CON"@
    } else if value == 1 {
        "NON"@
    } else if value == 2 {
        "ACK"@
    } else if value == 3 {
        "RST"@
    } else {
        "unknown"@
    }
}

fn message_type_name(value: u8) -> (result: &'static str)
    ensures
        result@ == message_type_text(value),
{
    if value == 0 {
        "CON"
    } else if value == 1 {
        "NON"
    } else if value == 2 {
        "ACK"
    } else if value == 3 {
        "RST"
    } else {
        "unknown"
    }
}

/// The name of a request or response code.
pub open spec fn code_text(code: u8) -> Seq<char> {
    if code == 1 {
        "0.01 GET"@
    } else if code == 2 {
        "0.02 POST"@
    } else if code == 3 {
        "0.03 PUT"@
    } else if code == 4 {
        "0.04 DELETE"@
    } else if code == 5 {
        "0.05 FETCH"@
    } else if code == 65 {
        "2.01 Created"@
    } else if code == 66 {
        "2.02 Deleted"@
    } else if code == 67 {
        "2.03 Valid"@
    } else if code == 68 {
        "2.04 Changed"@
    } else if code == 69 {
        "2.05 Content"@
    } else if code == 128 {
        "4.00 Bad Request"@
    } else if code == 129 {
        "4.01 Unauthorized"@
    } else if code == 132 {
        "4.04 Not Found"@
    } else if code == 160 {
        "5.00 Internal Server Error"@
    } else {
        "unknown code"@
    }
}

fn code_name(code: u8) -> (result: &'static str)
    ensures
        result@ == code_text(code),
{
    if code == 1 {
        "0.01 GET"
    } else if code == 2 {
        "0.02 POST"
    } else if code == 3 {
        "0.03 PUT"
    } else if code == 4 {
        "0.04 DELETE"
    } else if code == 5 {
        "0.05 FETCH"
    } else if code == 65 {
        "2.01 Created"
    } else if code == 66 {
        "2.02 Deleted"
    } else if code == 67 {
        "2.03 Valid"
    } else if code == 68 {
        "2.04 Changed"
    } else if code == 69 {
        "2.05 Content"
    } else if code == 128 {
        "4.00 Bad Request"
    } else if code == 129 {
        "4.01 Unauthorized"
    } else if code == 132 {
        "4.04 Not Found"
    } else if code == 160 {
        "5.00 Internal Server Error"
    } else {
        "unknown code"
    }
}

/// The line about a token.
pub open spec fn token_line(coap: CoapReportView) -> Seq<char> {
    if coap.token_bytes == 0 {
        "    token             empty"@
    } else {
        number_line("    token             "@, coap.token_bytes, " B "@ + coap.token)
    }
}

/// The line about an option.
pub open spec fn option_line(option: OptionView) -> Seq<char> {
    number_line(
        "      "@ + option.name + " ("@,
        option.number as nat,
        ")  "@ + option.value,
    )
}

/// The lines about CoAP fields in front of its options.
pub open spec fn coap_head_lines(coap: CoapReportView) -> Seq<Seq<char>> {
    seq![
        "  CoAP"@,
        number_line("    version           "@, coap.version as nat, ""@),
        "    type              "@ + message_type_text(coap.message_type),
        "    code              0x"@ + hex_digits(seq![coap.code]) + (" "@ + code_text(coap.code)),
        number_line("    message ID        "@, coap.message_id as nat, ""@),
        token_line(coap),
        "    options"@,
    ]
}

/// The lines about CoAP fields.
pub open spec fn coap_lines(coap: CoapReportView) -> Seq<Seq<char>> {
    coap_head_lines(coap) + coap.options.map_values(|option: OptionView| option_line(option))
        + seq![number_line("    payload           "@, coap.payload_bytes, " B"@)]
}

fn render_coap_head(coap: &CoapReport) -> (result: Vec<String>)
    ensures
        strings_view(result@) == coap_head_lines(coap@),
{
    let token = if coap.token_bytes == 0 {
        "    token             empty".to_owned()
    } else {
        build_number_line(
            "    token             ",
            coap.token_bytes as u64,
            join(" B ", coap.token.as_str()).as_str(),
        )
    };
    let code: Vec<u8> = vec![coap.code];
    assert(code@ =~= seq![coap.code]);
    let lines: Vec<String> = vec![
        "  CoAP".to_owned(),
        build_number_line("    version           ", coap.version as u64, ""),
        join("    type              ", message_type_name(coap.message_type)),
        join3(
            "    code              0x",
            hex_string(code.as_slice()).as_str(),
            join(" ", code_name(coap.code)).as_str(),
        ),
        build_number_line("    message ID        ", coap.message_id as u64, ""),
        token,
        "    options".to_owned(),
    ];
    assert(strings_view(lines@) =~= coap_head_lines(coap@));
    lines
}

fn render_option(option: &CoapOptionDescription) -> (result: String)
    ensures
        result@ == option_line(option@),
{
    build_number_line(
        join3("      ", option.name, " (").as_str(),
        option.number as u64,
        join(")  ", option.value.as_str()).as_str(),
    )
}

fn render_coap(coap: &CoapReport) -> (result: Vec<String>)
    ensures
        strings_view(result@) == coap_lines(coap@),
{
    let ghost view = descriptions_view(coap.options@);
    let ghost shown = view.map_values(|option: OptionView| option_line(option));
    let mut lines = render_coap_head(coap);
    let ghost head = strings_view(lines@);
    let mut index: usize = 0;
    assert(head + shown.take(0) =~= head);
    while index < coap.options.len()
        invariant
            index <= coap.options@.len(),
            view == descriptions_view(coap.options@),
            shown == view.map_values(|option: OptionView| option_line(option)),
            strings_view(lines@) == head + shown.take(index as int),
        decreases coap.options.len() - index,
    {
        let ghost before = strings_view(lines@);
        let line = render_option(&coap.options[index]);
        lines.push(line);
        proof {
            assert(view[index as int] == coap.options@[index as int]@);
            assert(shown[index as int] == line@);
            assert(strings_view(lines@) =~= before.push(line@));
            assert(head + shown.take(index + 1) =~= (head + shown.take(index as int)).push(
                shown[index as int],
            ));
        }
        index += 1;
    }
    assert(shown.take(index as int) =~= shown);
    let ghost before = strings_view(lines@);
    let last = build_number_line("    payload           ", coap.payload_bytes as u64, " B");
    lines.push(last);
    assert(strings_view(lines@) =~= before + seq![last@]);
    lines
}

/// What one override shows.
pub open spec fn override_fields(change: OverrideView) -> Seq<Seq<char>> {
    let target = match change.target_value {
        Some(value) => seq!["target="@ + value],
        None => Seq::empty(),
    };
    let matching = match change.matching_operator {
        Some(value) => seq!["mo="@ + value],
        None => Seq::empty(),
    };
    let action = match change.cda {
        Some(value) => seq!["cda="@ + value],
        None => Seq::empty(),
    };
    target + matching + action
}

/// The line about one override.
pub open spec fn override_line(change: OverrideView) -> Seq<char> {
    number_line(
        "      entry "@,
        change.entry_index as nat,
        "       "@ + joined(override_fields(change), " "@),
    )
}

fn render_override(change: &DuplicateRpcOverride) -> (result: String)
    ensures
        result@ == override_line(change@),
{
    let mut fields: Vec<String> = Vec::new();
    assert(strings_view(fields@) =~= Seq::<Seq<char>>::empty());
    let ghost target = match change@.target_value {
        Some(value) => seq!["target="@ + value],
        None => Seq::empty(),
    };
    let ghost matching = match change@.matching_operator {
        Some(value) => seq!["mo="@ + value],
        None => Seq::empty(),
    };
    if let Some(value) = &change.target_value {
        fields.push(join("target=", value.as_str()));
    }
    assert(strings_view(fields@) =~= target);
    if let Some(value) = &change.matching_operator {
        let ghost before = strings_view(fields@);
        fields.push(join("mo=", value.as_str()));
        assert(strings_view(fields@) =~= before + matching);
    }
    assert(strings_view(fields@) =~= target + matching);
    if let Some(value) = &change.cda {
        let ghost before = strings_view(fields@);
        fields.push(join("cda=", value.as_str()));
        assert(strings_view(fields@) =~= before + seq!["cda="@ + value@]);
    }
    assert(strings_view(fields@) =~= override_fields(change@));
    let shown = join_list(&fields, " ");
    build_number_line(
        "      entry ",
        change.entry_index as u64,
        join("       ", shown.as_str()).as_str(),
    )
}

/// The lines about a duplicate operation.
pub open spec fn rpc_lines(rpc: CostView) -> Seq<Seq<char>> {
    seq![
        "  RPC"@,
        "    operation         duplicate-rule"@,
        "    source            "@ + rpc.source.spelled(),
        "    destination       "@ + rpc.destination.spelled(),
        "    overrides"@,
    ] + rpc.overrides.map_values(|change: OverrideView| override_line(change))
}

fn render_rpc(rpc: &DuplicateRpcCost) -> (result: Vec<String>)
    ensures
        strings_view(result@) == rpc_lines(rpc@),
{
    let ghost view = described_view(rpc.overrides@);
    let ghost shown = view.map_values(|change: OverrideView| override_line(change));
    let mut lines: Vec<String> = vec![
        "  RPC".to_owned(),
        "    operation         duplicate-rule".to_owned(),
        join("    source            ", rpc.source.to_text().as_str()),
        join("    destination       ", rpc.destination.to_text().as_str()),
        "    overrides".to_owned(),
    ];
    let ghost head = strings_view(lines@);
    proof {
        assert(head =~= seq![
            "  RPC"@,
            "    operation         duplicate-rule"@,
            "    source            "@ + rpc@.source.spelled(),
            "    destination       "@ + rpc@.destination.spelled(),
            "    overrides"@,
        ]);
        assert(head + shown.take(0) =~= head);
    }
    let mut index: usize = 0;
    while index < rpc.overrides.len()
        invariant
            index <= rpc.overrides@.len(),
            view == described_view(rpc.overrides@),
            shown == view.map_values(|change: OverrideView| override_line(change)),
            strings_view(lines@) == head + shown.take(index as int),
        decreases rpc.overrides.len() - index,
    {
        let ghost before = strings_view(lines@);
        let line = render_override(&rpc.overrides[index]);
        lines.push(line);
        proof {
            assert(view[index as int] == rpc.overrides@[index as int]@);
            assert(shown[index as int] == line@);
            assert(strings_view(lines@) =~= before.push(line@));
            assert(head + shown.take(index + 1) =~= (head + shown.take(index as int)).push(
                shown[index as int],
            ));
        }
        index += 1;
    }
    assert(shown.take(index as int) =~= shown);
    lines
}

/// The lines about SCHC.
pub open spec fn schc_lines(schc: SchcCost) -> Seq<Seq<char>> {
    seq![
        "  SCHC"@,
        number_line("    meaningful      "@, schc.meaningful_bits as nat, " bits"@),
        number_line("    padded           "@, schc.padded_bytes as nat, " B"@),
        number_line("    padding          "@, schc.padding_bits as nat, " bits"@),
    ]
}

fn render_schc(schc: &SchcCost) -> (result: Vec<String>)
    ensures
        strings_view(result@) == schc_lines(*schc),
{
    let lines: Vec<String> = vec![
        "  SCHC".to_owned(),
        build_number_line("    meaningful      ", schc.meaningful_bits as u64, " bits"),
        build_number_line("    padded           ", schc.padded_bytes as u64, " B"),
        build_number_line("    padding          ", schc.padding_bits as u64, " bits"),
    ];
    assert(strings_view(lines@) =~= schc_lines(*schc));
    lines
}

/// The lines about an optional operation.
pub open spec fn optional_rpc_lines(rpc: Option<CostView>) -> Seq<Seq<char>> {
    match rpc {
        Some(cost) => rpc_lines(cost),
        None => Seq::empty(),
    }
}

/// The lines of an inspected report.
pub open spec fn debug_lines(report: PacketReportView) -> Seq<Seq<char>> {
    layer_lines(report) + payload_lines(report) + ipv6_lines(report.ipv6) + udp_lines(report.udp)
        + coap_lines(report.coap) + optional_rpc_lines(report.rpc) + schc_lines(report.schc)
}

fn add_lines(lines: &mut Vec<String>, more: Vec<String>)
    ensures
        strings_view(final(lines)@) == strings_view(old(lines)@) + strings_view(more@),
{
    let mut more = more;
    let ghost before = strings_view(lines@);
    let ghost added = strings_view(more@);
    lines.append(&mut more);
    assert(strings_view(lines@) =~= before + added);
}

/// Renders an inspected report, line by line.
pub fn render_debug(report: &PacketReport) -> (result: Vec<String>)
    requires
        coap_overhead(report@.layers.coap) <= usize::MAX,
    ensures
        strings_view(result@) == debug_lines(report@),
{
    let mut lines = render_layers(report);
    add_lines(&mut lines, render_payload(report));
    add_lines(&mut lines, render_ipv6(&report.ipv6));
    add_lines(&mut lines, render_udp(&report.udp));
    add_lines(&mut lines, render_coap(&report.coap));
    let ghost before = strings_view(lines@);
    if let Some(rpc) = &report.rpc {
        add_lines(&mut lines, render_rpc(rpc));
    } else {
        assert(before + Seq::<Seq<char>>::empty() =~= before);
    }
    add_lines(&mut lines, render_schc(&report.schc));
    lines
}

/// The label of a traffic class in four characters.
pub open spec fn class_label(class: TrafficClass) -> Seq<char> {
    match class {
        TrafficClass::Ordinary => "APP "@,
        TrafficClass::ProtectedManagement => "MGMT"@,
    }
}

/// The one-line form of a report.
pub open spec fn report_line(direction: ReportDirection, report: ReportView) -> Seq<char> {
    let class = direction.labelled() + " "@ + class_label(report.traffic_class);
    let rule = class + "  "@ + decimal(report.rule_id.value as nat);
    let identity = rule + "/"@ + decimal(report.rule_id.bit_len as nat);
    let packet = identity + "  "@ + decimal(report.packet_size as nat);
    packet + " B -> "@ + decimal(report.padded_byte_len as nat) + " B\n"@
}

fn concise_line(direction: ReportDirection, report: &LinkReport) -> (result: String)
    ensures
        result@ == report_line(direction, report@),
{
    let label = match report.traffic_class {
        TrafficClass::Ordinary => "APP ",
        TrafficClass::ProtectedManagement => "MGMT",
    };
    let class = join3(direction.label(), " ", label);
    let rule = join3(class.as_str(), "  ", decimal_string(report.rule_id.value).as_str());
    let identity = join3(
        rule.as_str(),
        "/",
        decimal_string(report.rule_id.bit_len as u64).as_str(),
    );
    let packet = join3(
        identity.as_str(),
        "  ",
        decimal_string(report.packet_size as u64).as_str(),
    );
    let frame = join3(
        packet.as_str(),
        " B -> ",
        decimal_string(report.padded_byte_len as u64).as_str(),
    );
    join(frame.as_str(), " B\n")
}

/// The text of a report, with the concise line first in both modes. `None`
/// stands for the concise mode, otherwise the inspected report is shown.
pub open spec fn report_text(
    direction: ReportDirection,
    report: ReportView,
    inspection: Option<Result<PacketReportView, ReportFault>>,
) -> Result<Seq<char>, ReportFault> {
    match sizes_fault(report) {
        Some(fault) => Err(fault),
        None => match inspection {
            None => Ok(report_line(direction, report)),
            Some(Err(fault)) => Err(fault),
            Some(Ok(shown)) => Ok(
                report_line(direction, report) + text_of_lines(debug_lines(shown)),
            ),
        },
    }
}

/// Formats one report, with the concise line first in both modes.
///
/// `parsed` and `answers` are those of `inspect_report`; they are looked at in
/// debug mode only.
pub fn format_report(
    direction: ReportDirection,
    report: &LinkReport,
    debug: bool,
    parsed: Result<ParsedPacket, String>,
    answers: &RpcAnswers,
) -> (result: Result<String, ReportError>)
    ensures
        ({
            let outcome = match result {
                Ok(text) => Ok(text@),
                Err(error) => Err(error@),
            };
            if debug {
                exists|inspection: Result<PacketReportView, ReportFault>| #[trigger]
                    inspection_of(report@, parse_view(parsed), *answers, inspection) && outcome
                        == report_text(direction, report@, Some(inspection))
            } else {
                outcome == report_text(direction, report@, None)
            }
        }),
{
    if !debug {
        validate_line_report(report)?;
        return Ok(concise_line(direction, report));
    }
    let ghost packet = parse_view(parsed);
    assert(parsed is Ok ==> packet->Ok_0.packet.message.payload.len()
        == parsed->Ok_0.packet.message.payload.len());
    let inspection = inspect_report(report, parsed, answers);
    assert(inspection_of(report@, packet, *answers, inspection_view(inspection)));
    validate_line_report(report)?;
    let line = concise_line(direction, report);
    let shown = inspection?;
    proof {
        inspected_report_adds_up(report@, packet, *answers, Ok(shown@));
    }
    let lines = render_debug(&shown);
    Ok(join(line.as_str(), lines_text(&lines).as_str()))
}

/// Each message type has its own name.
pub proof fn message_types_are_named(value: u8)
    ensures
        value == 0 ==> message_type_text(value) == "CON"@,
        value == 1 ==> message_type_text(value) == "NON"@,
        value == 2 ==> message_type_text(value) == "ACK"@,
        value == 3 ==> message_type_text(value) == "RST"@,
        value > 3 ==> message_type_text(value) == "unknown"@,
{
}

/// Each known code is shown as class and detail with its own name.
pub proof fn codes_are_named_by_class_and_detail(code: u8)
    ensures
        code == 1 ==> code_text(code) == "0.01 GET"@,
        code == 2 ==> code_text(code) == "0.02 POST"@,
        code == 3 ==> code_text(code) == "0.03 PUT"@,
        code == 4 ==> code_text(code) == "0.04 DELETE"@,
        code == 5 ==> code_text(code) == "0.05 FETCH"@,
        code == 65 ==> code_text(code) == "2.01 Created"@,
        code == 66 ==> code_text(code) == "2.02 Deleted"@,
        code == 67 ==> code_text(code) == "2.03 Valid"@,
        code == 68 ==> code_text(code) == "2.04 Changed"@,
        code == 69 ==> code_text(code) == "2.05 Content"@,
        code == 128 ==> code_text(code) == "4.00 Bad Request"@,
        code == 129 ==> code_text(code) == "4.01 Unauthorized"@,
        code == 132 ==> code_text(code) == "4.04 Not Found"@,
        code == 160 ==> code_text(code) == "5.00 Internal Server Error"@,
        code != 1 && code != 2 && code != 3 && code != 4 && code != 5 && code != 65 && code != 66
            && code != 67 && code != 68 && code != 69 && code != 128 && code != 129 && code != 132
            && code != 160
            ==> code_text(code) == "unknown code"@,
{
}

/// A line shows what its label says: the sizes of the layers in their order,
/// and the size of the payload, or the parts of the operation that it is.
pub proof fn layers_are_shown_with_their_sizes(report: PacketReportView)
    ensures
        ({
            let lines = layer_lines(report);
            &&& lines.len() == 5
            &&& lines[0] == "  Packet                           "@ + decimal(
                report.layers.packet_bytes as nat,
            ) + " B"@
            &&& lines[1] == "    IPv6                            "@ + decimal(
                report.layers.ipv6_header_bytes as nat,
            ) + " B"@
            &&& lines[2] == "    UDP                              "@ + decimal(
                report.layers.udp_header_bytes as nat,
            ) + " B"@
            &&& lines[3] == "    CoAP                            "@ + decimal(
                report.layers.coap.total_bytes as nat,
            ) + " B"@
            &&& lines[4] == "      header/token/options/marker "@ + right_aligned(
                decimal(
                    (report.layers.coap.base_header_bytes + report.layers.coap.token_bytes
                        + encoded_size(report.layers.coap.options)
                        + report.layers.coap.payload_marker_bytes) as nat,
                ),
                3,
            ) + " B"@
        }),
{
}

/// The payload is shown by its size, or by the parts of the operation that it
/// holds.
pub proof fn payload_is_shown_with_its_parts(report: PacketReportView)
    ensures
        report.rpc matches Some(rpc) ==> payload_lines(report).len() == 4 && payload_lines(
            report,
        )[0] == "      RPC                           "@ + right_aligned(
            decimal(rpc.payload_bytes as nat),
            3,
        ) + " B"@ && payload_lines(report)[1] == "        fixed                       "@
            + right_aligned(decimal(rpc.fixed_bytes as nat), 3) + " B"@ && payload_lines(report)[2]
            == "        variable framing           "@ + right_aligned(
            decimal(rpc.variable_framing_bytes as nat),
            3,
        ) + " B"@ && payload_lines(report)[3] == "        target values              "@
            + right_aligned(decimal(rpc.target_value_bytes as nat), 3) + " B"@,
        report.rpc is None ==> payload_lines(report).len() == 1 && payload_lines(report)[0]
            == "      payload          "@ + decimal(report.layers.coap.payload_bytes as nat)
            + (" B ("@ + payload_name(report.coap.options) + ")"@),
{
}

/// A payload is management data where a content format of 141 or 142 says so.
pub proof fn payload_is_named_by_its_format(options: Seq<OptionView>)
    ensures
        (exists|i: int|
            0 <= i < options.len() && (#[trigger] options[i]).number == 12 && (options[i].value
                == "141"@ || options[i].value == "142"@)) ==> payload_name(options)
            == "binary CORECONF payload"@,
        !(exists|i: int|
            0 <= i < options.len() && (#[trigger] options[i]).number == 12 && (options[i].value
                == "141"@ || options[i].value == "142"@)) ==> payload_name(options) == "payload"@,
{
    if exists|i: int|
        0 <= i < options.len() && (#[trigger] options[i]).number == 12 && (options[i].value
            == "141"@ || options[i].value == "142"@) {
        let i = choose|i: int|
            0 <= i < options.len() && (#[trigger] options[i]).number == 12 && (options[i].value
                == "141"@ || options[i].value == "142"@);
        assert(management_format(options[i]));
    }
}

/// A text moved to the right ends with the text, and has the width where the
/// text is not wider; in front of it stand spaces.
pub proof fn aligned_text_ends_with_the_text(text: Seq<char>, width: nat)
    ensures
        ({
            let moved = right_aligned(text, width);
            let room = moved.len() - text.len();
            &&& text.len() <= width ==> moved.len() == width
            &&& text.len() > width ==> moved == text
            &&& room >= 0
            &&& moved.skip(room) == text
            &&& forall|i: int| 0 <= i < room ==> #[trigger] moved[i] == ' '
        }),
{
    let moved = right_aligned(text, width);
    assert(moved.skip(moved.len() - text.len()) =~= text);
}

/// The IPv6 lines show the fields of the header behind their labels.
pub proof fn ipv6_fields_are_shown_by_their_labels(ipv6: Ipv6View)
    ensures
        ({
            let lines = ipv6_lines(ipv6);
            &&& lines.len() == 9
            &&& lines[1] == "    version          "@ + decimal(ipv6.version as nat) + ""@
            &&& lines[2] == "    source           "@ + ipv6.source
            &&& lines[3] == "    destination      "@ + ipv6.destination
            &&& lines[4] == "    traffic class    "@ + decimal(ipv6.traffic_class as nat) + ""@
            &&& lines[5] == "    flow label       "@ + decimal(ipv6.flow_label as nat) + ""@
            &&& lines[6] == "    payload length   "@ + decimal(ipv6.payload_length as nat) + " B"@
            &&& ipv6.next_header == 17 ==> lines[7] == "    next header      "@ + "UDP"@ + " ("@
                + decimal(17) + ")"@
            &&& ipv6.next_header != 17 ==> lines[7] == "    next header      "@ + "unknown"@
                + " ("@ + decimal(ipv6.next_header as nat) + ")"@
            &&& lines[8] == "    hop limit        "@ + decimal(ipv6.hop_limit as nat) + ""@
        }),
{
}

/// The UDP lines show the fields of the header behind their labels.
pub proof fn udp_fields_are_shown_by_their_labels(udp: UdpReport)
    ensures
        ({
            let lines = udp_lines(udp);
            &&& lines.len() == 5
            &&& lines[0] == "  UDP"@
            &&& lines[1] == "    source port       "@ + decimal(udp.source_port as nat) + ""@
            &&& lines[2] == "    destination port  "@ + decimal(udp.destination_port as nat) + ""@
            &&& lines[3] == "    length            "@ + decimal(udp.length as nat) + " B"@
            &&& lines[4] == "    checksum          "@ + decimal(udp.checksum as nat) + ""@
        }),
{
}

/// The CoAP lines show the fields of the message behind their labels, one line
/// for each option, and the size of the payload last.
pub proof fn coap_fields_are_shown_by_their_labels(coap: CoapReportView)
    ensures
        ({
            let lines = coap_lines(coap);
            &&& lines.len() == coap.options.len() + 8
            &&& lines[0] == "  CoAP"@
            &&& lines[1] == "    version           "@ + decimal(coap.version as nat) + ""@
            &&& lines[2] == "    type              "@ + message_type_text(coap.message_type)
            &&& lines[3] == "    code              0x"@ + hex_digits(seq![coap.code]) + (" "@
                + code_text(coap.code))
            &&& lines[4] == "    message ID        "@ + decimal(coap.message_id as nat) + ""@
            &&& coap.token_bytes == 0 ==> lines[5] == "    token             empty"@
            &&& coap.token_bytes > 0 ==> lines[5] == "    token             "@ + decimal(
                coap.token_bytes,
            ) + (" B "@ + coap.token)
            &&& lines[6] == "    options"@
            &&& forall|i: int|
                0 <= i < coap.options.len() ==> lines[7 + i] == "      "@ + (
                #[trigger] coap.options[i]).name + " ("@ + decimal(coap.options[i].number as nat)
                    + (")  "@ + coap.options[i].value)
            &&& lines[lines.len() - 1] == "    payload           "@ + decimal(coap.payload_bytes)
                + " B"@
        }),
{
    let lines = coap_lines(coap);
    let shown = coap.options.map_values(|option: OptionView| option_line(option));
    assert forall|i: int| 0 <= i < coap.options.len() implies lines[7 + i] == "      "@ + (
    #[trigger] coap.options[i]).name + " ("@ + decimal(coap.options[i].number as nat) + (")  "@
        + coap.options[i].value) by {
        assert(lines[7 + i] == shown[i]);
    }
}

/// An override is shown with its entry and with those of target value, matching
/// operator and action that it changes, each behind its own name.
pub proof fn override_is_shown_by_what_it_changes(change: OverrideView)
    ensures
        override_line(change) == "      entry "@ + decimal(change.entry_index as nat) + ("       "@
            + joined(override_fields(change), " "@)),
        change.target_value is Some ==> override_fields(change).len() > 0 && override_fields(
            change,
        )[0] == "target="@ + change.target_value->0,
        change.target_value is None && change.matching_operator is Some ==> override_fields(
            change,
        ).len() > 0 && override_fields(change)[0] == "mo="@ + change.matching_operator->0,
        change.target_value is Some && change.matching_operator is Some ==> override_fields(
            change,
        ).len() > 1 && override_fields(change)[1] == "mo="@ + change.matching_operator->0,
        change.cda is Some ==> override_fields(change).len() > 0 && override_fields(change).last()
            == "cda="@ + change.cda->0,
        override_fields(change).len() == (if change.target_value is Some {
            1int
        } else {
            0
        }) + (if change.matching_operator is Some {
            1int
        } else {
            0
        }) + (if change.cda is Some {
            1int
        } else {
            0
        }),
{
}

/// An operation is shown with its source and its destination, and one line for
/// each override in their order.
pub proof fn operation_is_shown_from_source_to_destination(rpc: CostView)
    ensures
        ({
            let lines = rpc_lines(rpc);
            &&& lines.len() == rpc.overrides.len() + 5
            &&& lines[1] == "    operation         duplicate-rule"@
            &&& lines[2] == "    source            "@ + rpc.source.spelled()
            &&& lines[3] == "    destination       "@ + rpc.destination.spelled()
            &&& forall|i: int|
                0 <= i < rpc.overrides.len() ==> lines[5 + i] == override_line(
                    #[trigger] rpc.overrides[i],
                )
        }),
{
}

/// The SCHC lines show the meaningful bits, the padded bytes and the padding
/// bits behind their labels.
pub proof fn schc_sizes_are_shown_by_their_labels(schc: SchcCost)
    ensures
        schc_lines(schc).len() == 4,
        schc_lines(schc)[1] == "    meaningful      "@ + decimal(schc.meaningful_bits as nat)
            + " bits"@,
        schc_lines(schc)[2] == "    padded           "@ + decimal(schc.padded_bytes as nat) + " B"@,
        schc_lines(schc)[3] == "    padding          "@ + decimal(schc.padding_bits as nat)
            + " bits"@,
{
}

/// The line of a report shows its direction, its class, the identity of its
/// rule, the size of the packet and then the size of the frame.
pub proof fn report_line_leads_from_packet_to_frame(direction: ReportDirection, report: ReportView)
    ensures
        report_line(direction, report) == direction.labelled() + " "@ + class_label(
            report.traffic_class,
        ) + "  "@ + decimal(report.rule_id.value as nat) + "/"@ + decimal(
            report.rule_id.bit_len as nat,
        ) + "  "@ + decimal(report.packet_size as nat) + " B -> "@ + decimal(
            report.padded_byte_len as nat,
        ) + " B\n"@,
        report.traffic_class is Ordinary ==> class_label(report.traffic_class) == "APP "@,
        report.traffic_class is ProtectedManagement ==> class_label(report.traffic_class)
            == "MGMT"@,
{
}

/// The text of a report begins with its line; the inspected report follows it,
/// line by line, where one is shown.
pub proof fn report_text_begins_with_its_line(
    direction: ReportDirection,
    report: ReportView,
    inspection: Option<Result<PacketReportView, ReportFault>>,
)
    ensures
        report_text(direction, report, inspection) is Ok <==> sizes_fault(report) is None && (
        inspection is None || inspection->0 is Ok),
        report_text(direction, report, inspection) matches Ok(text) ==> report_line(
            direction,
            report,
        ).is_prefix_of(text),
        sizes_fault(report) is None && inspection is None ==> report_text(
            direction,
            report,
            inspection,
        ) == Ok::<Seq<char>, ReportFault>(report_line(direction, report)),
        report_text(direction, report, inspection) matches Ok(text) ==> inspection matches Some(
            Ok(shown),
        ) ==> text == report_line(direction, report) + text_of_lines(debug_lines(shown)),
{
    if report_text(direction, report, inspection) is Ok {
        let line = report_line(direction, report);
        let text = report_text(direction, report, inspection)->Ok_0;
        assert(text.subrange(0, line.len() as int) =~= line);
    }
}

} // verus!
