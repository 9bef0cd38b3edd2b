//! Links, reports, bit accounting and flows.

use schc_coreconf::allocation::{DynamicRuleIdNamespace, RuleIdSpec};
use schc_coreconf::breakdown::{
    management_bit_breakdown, mapping_index_bits, payload_prefix_bits, variable_length_prefix_bits,
};
use schc_coreconf::coap::{CoapMessage, CoapOption};
use schc_coreconf::codec::ContextTag;
use schc_coreconf::context::{ContextData, ContextSnapshot};
use schc_coreconf::duplicate_cost::RpcAnswers;
use schc_coreconf::endpoint::{check_tun_packet, core_frame_step, device_frame_step};
use schc_coreconf::error::InspectionError;
use schc_coreconf::flow::{
    bit_at, flow_overrides, has_application_payload, has_complete_flow_fields,
    logical_field_value, target_matches, FlowDirection,
};
use schc_coreconf::flow_change::{flow_change, flow_destination, FlowChange, FlowTrial};
use schc_coreconf::inspection::{
    decode_nature_value, decode_rule_detail_payload, decode_rule_list_payload, DetailAnswers,
    ListAnswers,
};
use schc_coreconf::json::JsonValue;
use schc_coreconf::link::{
    classify, enforce_origin, LinkReport, RuntimeDecoding, RuntimeEncoding, RuntimeKind,
    SchcFrame, SchcLink,
};
use schc_coreconf::link_types::{
    LinkError, LinkOperation, LinkRole, TrafficClass, TrafficOrigin, TrafficRoute,
};
use schc_coreconf::packet::{
    Ipv6UdpCoapPacket, Ipv6UdpPacket, APPLICATION_PORT, CORE_LOGICAL_ADDRESS,
    DEVICE_LOGICAL_ADDRESS, MANAGEMENT_PORT,
};
use schc_coreconf::policy::{ProtectedRules, ProtectionPolicy};
use schc_coreconf::report::{
    describe_option, describe_token, inspect_coap, inspect_report, option_name, ParsedPacket,
    ReportDirection, ReportError,
};
use schc_coreconf::report_text::{format_report, lines_text, render_debug};
use schc_coreconf::rule::{
    Cda, DirectionSelector, FieldLength, FieldRef, FieldRule, MatchingOperator, Rule, RuleNature,
    TargetValue,
};
use schc_coreconf::rule_id::RuleId;
use schc_coreconf::selector::RuleSelector;
use schc_coreconf::sid::{ListKeys, SidItem, SidModel};

fn field(entry_index: usize, field: FieldRef, length: FieldLength, target: TargetValue) -> FieldRule {
    FieldRule {
        entry_index,
        field,
        field_position: 1,
        direction: DirectionSelector::Bidirectional,
        length,
        target,
        matching: MatchingOperator::Equal,
        action: Cda::NotSent,
    }
}

fn rule(value: u64, nature: RuleNature, fields: Vec<FieldRule>) -> Rule {
    Rule { id: RuleId::new(value, 8), nature, fields }
}

fn snapshot_of(rules: Vec<Rule>) -> ContextSnapshot {
    let protected =
        ProtectedRules::derive(&rules, &ProtectionPolicy::from_rule_ids(&Vec::new())).expect("ids");
    let application_rule_ids = rules
        .iter()
        .filter(|rule| rule.nature != RuleNature::Management)
        .map(Rule::id)
        .collect();
    ContextSnapshot {
        data: ContextData {
            tree: JsonValue::Null,
            sor: Vec::new(),
            application_rule_ids,
            rules,
            protected,
            guard_period: None,
            digest: vec![0; 32],
            tag: ContextTag::new([0; 8]),
        },
        generation: 3,
        dynamic_rule_ids: None,
        context_profile: None,
    }
}

fn snapshot() -> ContextSnapshot {
    snapshot_of(vec![
        rule(17, RuleNature::Management, Vec::new()),
        rule(21, RuleNature::Compression, Vec::new()),
        rule(25, RuleNature::Compression, Vec::new()),
    ])
}

const DATAGRAM: [u8; 12] = [0x41, 0x01, 0x12, 0x01, 0xaa, 0xb4, b'd', b'e', b'm', b'o', 0xff, 0x07];

fn packet(sender: LinkRole, port: u16) -> Ipv6UdpCoapPacket {
    let (source, destination) = match sender {
        LinkRole::Core => (CORE_LOGICAL_ADDRESS, DEVICE_LOGICAL_ADDRESS),
        LinkRole::Device => (DEVICE_LOGICAL_ADDRESS, CORE_LOGICAL_ADDRESS),
    };
    let mut bytes = vec![0; 48];
    bytes[0] = 0x60;
    bytes.extend_from_slice(&DATAGRAM);
    Ipv6UdpCoapPacket {
        packet: Ipv6UdpPacket {
            bytes,
            traffic_class: 0,
            flow_label: 0,
            payload_length: 20,
            next_header: 17,
            hop_limit: 64,
            source,
            destination,
            source_port: port,
            destination_port: port,
            udp_length: 20,
            udp_checksum: 0x1234,
        },
        datagram: DATAGRAM.to_vec(),
        message: CoapMessage::from_parts(
            1,
            0,
            1,
            0x1201,
            vec![0xaa],
            vec![CoapOption::new(11, b"demo".to_vec())],
            vec![7],
        )
        .expect("message"),
    }
}

fn frame(first: u8) -> SchcFrame {
    SchcFrame { bytes: vec![first, 0x80], bit_len: 9 }
}

fn exchange(sender: LinkRole, rule_value: u64) -> TrafficRoute {
    let held = snapshot();
    let sent = packet(sender, APPLICATION_PORT);
    assert!(check_tun_packet(sender, &sent).is_ok());
    let encoding = || RuntimeEncoding {
        rule_id: RuleId::new(rule_value, 8),
        frame: frame(rule_value as u8),
    };
    let encoded = SchcLink::new(sender)
        .encode(&held, "{}", TrafficOrigin::Application, &sent.packet.bytes, Ok(encoding()))
        .expect("encode request");
    assert_eq!(encoded.frame().bytes, vec![rule_value as u8, 0x80]);
    assert_eq!(encoded.report().schc_bit_len, Some(9));
    let receiver = SchcLink::new(sender).peer_role();
    let decoding = || RuntimeDecoding {
        rule_id: RuleId::new(rule_value, 8),
        packet: sent.packet.bytes.clone(),
    };
    let decoded = SchcLink::new(receiver)
        .decode(
            &held,
            "{}",
            &encoded.frame().bytes,
            Ok(decoding()),
            Ok(decoding()),
            Ok(packet(sender, APPLICATION_PORT)),
            Ok(encoding()),
        )
        .expect("decode request");
    assert_eq!(decoded.rule_id(), RuleId::new(rule_value, 8));
    assert!(matches!(decoded.report().operation, LinkOperation::Decode));
    assert_eq!(decoded.packet().packet.bytes, sent.packet.bytes);
    match receiver {
        LinkRole::Core => assert!(core_frame_step(&decoded, None).is_ok()),
        LinkRole::Device => assert!(device_frame_step(&decoded).is_ok()),
    }
    decoded.route()
}

#[test]
fn core_tun_application_request_reaches_peer_as_raw_schc_frame() {
    assert_eq!(exchange(LinkRole::Core, 25), TrafficRoute::Application);
}

#[test]
fn device_tun_application_response_reaches_peer_as_raw_schc_frame() {
    assert_eq!(exchange(LinkRole::Device, 21), TrafficRoute::Application);
}

#[test]
fn traffic_keeps_to_the_rules_of_its_origin() {
    let held = snapshot();
    assert!(matches!(
        classify(&held, RuleId::new(17, 8)),
        Ok(TrafficClass::ProtectedManagement)
    ));
    assert!(matches!(classify(&held, RuleId::new(21, 8)), Ok(TrafficClass::Ordinary)));
    assert!(matches!(
        classify(&held, RuleId::new(99, 8)),
        Err(LinkError::UnknownRuleId { value: 99, bit_len: 8 })
    ));
    assert!(matches!(
        enforce_origin(
            TrafficOrigin::Application,
            RuleId::new(17, 8),
            TrafficClass::ProtectedManagement
        ),
        Err(LinkError::OriginRuleMismatch { .. })
    ));
    assert_eq!(SchcLink::runtime_for(TrafficOrigin::Management), RuntimeKind::Full);
    assert_eq!(SchcLink::runtime_for(TrafficOrigin::Application), RuntimeKind::Application);
    let refused = SchcLink::new(LinkRole::Core).encode(
        &held,
        "{}",
        TrafficOrigin::Application,
        &[1],
        Err("no rule".to_owned()),
    );
    assert!(matches!(refused, Err(LinkError::Runtime(text)) if text == "no rule"));
}

#[test]
fn frames_must_be_canonical() {
    let held = snapshot();
    let decoding = || RuntimeDecoding { rule_id: RuleId::new(25, 8), packet: vec![1] };
    let result = SchcLink::new(LinkRole::Device).decode(
        &held,
        "{}",
        &[25, 0x81],
        Ok(decoding()),
        Ok(decoding()),
        Ok(packet(LinkRole::Core, APPLICATION_PORT)),
        Ok(RuntimeEncoding { rule_id: RuleId::new(25, 8), frame: frame(25) }),
    );
    assert!(matches!(result, Err(LinkError::FrameMismatch { .. })));
}

fn report() -> LinkReport {
    let sent = packet(LinkRole::Core, APPLICATION_PORT);
    LinkReport {
        operation: LinkOperation::Encode,
        rule_id: RuleId::new(25, 8),
        generation: 3,
        traffic_class: TrafficClass::Ordinary,
        packet_size: sent.packet.bytes.len(),
        packet_bytes: sent.packet.bytes,
        frame_bytes: vec![25, 0x80],
        schc_bit_len: Some(9),
        padded_byte_len: 2,
        management_rule: None,
        management_rpc_sid: None,
    }
}

fn parsed() -> ParsedPacket {
    ParsedPacket {
        packet: packet(LinkRole::Core, APPLICATION_PORT),
        source: "2001:db8::2".to_owned(),
        destination: "2001:db8::1".to_owned(),
    }
}

fn no_answers() -> RpcAnswers {
    RpcAnswers {
        model: Err("no model".to_owned()),
        instances: Err("no instances".to_owned()),
        decoded: Vec::new(),
    }
}

#[test]
fn coap_costs_add_up() {
    let sent = packet(LinkRole::Core, APPLICATION_PORT);
    let cost = inspect_coap(&DATAGRAM, &sent.message).expect("cost");
    assert_eq!(cost.base_header_bytes, 4);
    assert_eq!(cost.token_bytes, 1);
    assert_eq!(cost.options.len(), 1);
    assert_eq!(cost.options[0].encoded_bytes, 5);
    assert_eq!(cost.payload_marker_bytes, 1);
    assert_eq!(cost.payload_bytes, 1);
    assert_eq!(cost.total_bytes, 12);
    assert!(matches!(
        inspect_coap(&DATAGRAM[..3], &sent.message),
        Err(ReportError::InvalidPacket(_))
    ));
    assert!(inspect_coap(&DATAGRAM[..11], &sent.message).is_err());
}

#[test]
fn reports_name_every_layer() {
    let found = inspect_report(&report(), Ok(parsed()), &no_answers()).expect("report");
    assert_eq!(found.layers.packet_bytes, 60);
    assert_eq!(
        found.layers.ipv6_header_bytes + found.layers.udp_header_bytes
            + found.layers.coap.total_bytes,
        60
    );
    assert_eq!(found.schc.padding_bits, 7);
    assert_eq!(found.ipv6.source, "2001:db8::2");
    assert_eq!(found.coap.options[0].value, "demo");
    let lines = render_debug(&found);
    assert!(lines[0].ends_with("60 B"));
    let text = format_report(ReportDirection::Tx, &report(), true, Ok(parsed()), &no_answers())
        .expect("debug text");
    assert!(text.starts_with("TX APP"));
    assert!(text.contains(&lines_text(&lines)));
    let unread = Err("x".to_owned());
    let short = format_report(ReportDirection::Rx, &report(), false, unread, &no_answers())
        .expect("one line");
    assert!(short.starts_with("RX APP"));
    assert_eq!(short.lines().count(), 1);
}

#[test]
fn inconsistent_reports_are_refused() {
    let refusal = |change: fn(&mut LinkReport)| {
        let mut broken = report();
        change(&mut broken);
        inspect_report(&broken, Ok(parsed()), &no_answers()).expect_err("refused")
    };
    assert!(matches!(refusal(|report| report.packet_size = 1), ReportError::InvalidPacket(_)));
    assert!(matches!(refusal(|report| report.padded_byte_len = 3), ReportError::InvalidSchc(_)));
    assert!(matches!(refusal(|report| report.schc_bit_len = None), ReportError::InvalidSchc(_)));
    assert!(matches!(
        refusal(|report| report.schc_bit_len = Some(17)),
        ReportError::InvalidSchc(_)
    ));
    assert!(matches!(
        refusal(|report| report.packet_bytes[0] = 0x40),
        ReportError::InvalidPacket(text) if text.contains("IPv6 version is 4")
    ));
    assert!(matches!(
        refusal(|report| report.rule_id = RuleId::new(29, 8)),
        ReportError::InvalidPacket(text) if text == "duplicate-rule report has no SID model source"
    ));
    assert!(matches!(
        refusal(|report| {
            report.rule_id = RuleId::new(29, 8);
            report.management_rpc_sid = Some("{}".to_owned());
        }),
        ReportError::InvalidPacket(text)
            if text == InspectionError::Datastore("no model".to_owned()).message()
    ));
    assert!(matches!(
        inspect_report(&report(), Err("bad packet".to_owned()), &no_answers()),
        Err(ReportError::InvalidPacket(text)) if text == "bad packet"
    ));
}

#[test]
fn options_and_tokens_are_described() {
    assert_eq!(option_name(11), "Uri-Path");
    assert_eq!(option_name(12), "Content-Format");
    assert_eq!(describe_option(&CoapOption::new(12, vec![142])).value, "142");
    assert_eq!(describe_option(&CoapOption::new(11, b"schc".to_vec())).value, "schc");
    assert_eq!(
        describe_option(&CoapOption::new(11, vec![b'a', 0xff])).value,
        "a\u{fffd}"
    );
    assert_ne!(describe_token(&[0xaa]), describe_token(b"ok"));
}

#[test]
fn index_and_length_bits_are_tight() {
    assert_eq!(mapping_index_bits(0), 0);
    assert_eq!(mapping_index_bits(1), 0);
    assert_eq!(mapping_index_bits(2), 1);
    assert_eq!(mapping_index_bits(3), 2);
    assert_eq!(mapping_index_bits(4), 2);
    assert_eq!(mapping_index_bits(5), 3);
    assert_eq!(variable_length_prefix_bits(14), 4);
    assert_eq!(variable_length_prefix_bits(15), 12);
    assert_eq!(variable_length_prefix_bits(255), 28);
    assert_eq!(payload_prefix_bits(FieldLength::VariableBytes, 1), 4);
    assert_eq!(payload_prefix_bits(FieldLength::Remaining, 1), 0);
}

#[test]
fn breakdowns_need_protected_reports_in_the_window() {
    assert!(matches!(
        management_bit_breakdown(&report(), &Ok(packet(LinkRole::Core, MANAGEMENT_PORT))),
        Err(InspectionError::UnexpectedResponse(_))
    ));
    let mut management = report();
    management.traffic_class = TrafficClass::ProtectedManagement;
    assert!(matches!(
        management_bit_breakdown(&management, &Err("bad".to_owned())),
        Err(InspectionError::Coap(text)) if text == "bad"
    ));
    assert!(management_bit_breakdown(
        &management,
        &Ok(packet(LinkRole::Core, MANAGEMENT_PORT))
    )
    .expect_err("window")
    .message()
    .contains("7-bit"));
}

fn flow_rule(value: u64, port: u16) -> Rule {
    let bytes = |number: u64| TargetValue::Bytes(number.to_be_bytes().to_vec());
    let half = |address: u128| ((address >> 64) as u64, address as u64);
    let device = half(DEVICE_LOGICAL_ADDRESS);
    let core = half(CORE_LOGICAL_ADDRESS);
    let ipv6 = |name: &str| FieldRef::Ipv6(name.to_owned());
    let udp = |name: &str| FieldRef::Udp(name.to_owned());
    let port = TargetValue::Bytes(port.to_be_bytes().to_vec());
    let fixed = FieldLength::FixedBits(64);
    let short = FieldLength::FixedBits(16);
    rule(
        value,
        RuleNature::Compression,
        vec![
            field(
                0,
                ipv6("fid-ipv6-flowlabel"),
                FieldLength::FixedBits(20),
                TargetValue::Bytes(vec![0, 0, 0]),
            ),
            field(1, ipv6("fid-ipv6-devprefix"), fixed, bytes(device.0)),
            field(2, ipv6("fid-ipv6-deviid"), fixed, bytes(device.1)),
            field(3, ipv6("fid-ipv6-appprefix"), fixed, bytes(core.0)),
            field(4, ipv6("fid-ipv6-appiid"), fixed, bytes(core.1)),
            field(5, udp("fid-udp-dev-port"), short, port.copy()),
            field(6, udp("fid-udp-app-port"), short, port),
            field(7, FieldRef::Payload, FieldLength::Remaining, TargetValue::Absent),
        ],
    )
}

fn accepted(cost: usize) -> FlowTrial {
    FlowTrial {
        wire_bytes: Some(cost),
        payload: true,
        operation: true,
        tree: true,
        prepared: true,
        encoded: true,
    }
}

#[test]
fn flow_fields_come_from_the_logical_packet() {
    let sent = packet(LinkRole::Core, APPLICATION_PORT).packet;
    let value = |name: &str| {
        logical_field_value(&sent, FlowDirection::Downlink, &FieldRef::Udp(name.to_owned()))
    };
    assert!(value("unknown").is_none());
    assert_eq!(FlowDirection::Uplink.link_role(), LinkRole::Device);
    assert!(bit_at(&[0x80], 0));
    assert!(!bit_at(&[0x80], 1));
    assert!(target_matches(&[5], &[5], 8, MatchingOperator::Equal));
    assert!(!target_matches(&[5], &[6], 8, MatchingOperator::Equal));
    assert!(!target_matches(&[5], &[6], 8, MatchingOperator::MatchMapping));
    assert!(target_matches(&[0, 5], &[5], 16, MatchingOperator::Equal));
    assert!(target_matches(&[0xf5], &[0xf0], 8, MatchingOperator::Msb(4)));
}

#[test]
fn flows_use_a_matching_rule_or_the_cheapest_copy() {
    let sent = packet(LinkRole::Core, APPLICATION_PORT).packet;
    let namespace = || {
        Some(DynamicRuleIdNamespace {
            prefix: RuleIdSpec { value: 1, length: 1 },
            allowed_lengths: vec![8],
        })
    };
    let mut held = snapshot_of(vec![flow_rule(20, 5683)]);
    assert!(matches!(
        flow_destination(&held),
        Err(InspectionError::MissingDynamicRuleIdNamespace)
    ));
    assert!(matches!(
        flow_change(&held, &sent, FlowDirection::Downlink, None, &vec![accepted(1)]),
        Err(InspectionError::MissingDynamicRuleIdNamespace)
    ));
    held.dynamic_rule_ids = namespace();
    assert!(has_complete_flow_fields(&held.data.rules[0]));
    assert!(has_application_payload(&held.data.rules[0]));
    let changes = flow_overrides(&held.data.rules[0], &sent, FlowDirection::Downlink);
    assert_eq!(changes.expect("describable").len(), 0);
    assert!(matches!(
        flow_change(
            &held,
            &sent,
            FlowDirection::Downlink,
            Some(RuleId::new(20, 8)),
            &vec![accepted(10)]
        ),
        Ok(FlowChange::AlreadyMatches { rule }) if rule.to_text() == "20/8"
    ));
    assert!(matches!(
        flow_change(&held, &sent, FlowDirection::Downlink, None, &vec![accepted(10)]),
        Err(InspectionError::UnrepresentableFlow(_))
    ));

    let mut held = snapshot_of(vec![flow_rule(20, 1), flow_rule(21, 2), flow_rule(22, 3)]);
    held.dynamic_rule_ids = namespace();
    assert_eq!(flow_destination(&held).expect("destination"), RuleId::new(128, 8));
    let change = flow_change(
        &held,
        &sent,
        FlowDirection::Downlink,
        None,
        &vec![accepted(12), accepted(10), accepted(11)],
    )
    .expect("change");
    let FlowChange::Duplicate { parent, request } = change else {
        panic!("no copy");
    };
    assert_eq!(parent.to_text(), "21/8");
    assert_eq!(request.destination.to_text(), "128/8");
    assert_eq!(request.overrides.len(), 2);
    assert_eq!(request.overrides[0].entry_index, 5);
    assert_eq!(request.overrides[0].target_value.as_deref(), Some("5683"));
    let mut refused = accepted(1);
    refused.prepared = false;
    assert_eq!(refused.accepted_cost(), None);
    assert_eq!(accepted(9).accepted_cost(), Some(9));
}

fn nature_model() -> SidModel {
    let names = [
        ("/ietf-schc:schc", 2574),
        ("/ietf-schc:schc/rule", 2575),
        ("/ietf-schc:schc/rule/rule-id-length", 2576),
        ("/ietf-schc:schc/rule/rule-id-value", 2577),
        ("/ietf-schc:schc/rule/entry-universal", 2580),
        ("/ietf-schc:schc/rule/entry-universal/entry-index", 2581),
        ("/ietf-schc:schc/rule/entry-universal/field-length", 2582),
        ("/ietf-schc:schc/rule/entry-universal/target-value", 2583),
        ("/ietf-schc:schc/rule/entry-universal/target-value/index", 2584),
        ("/ietf-schc:schc/rule/entry-universal/target-value/value", 2585),
        ("nature-compression", 2700),
        ("/ietf-schc:duplicate-rule", 2600),
        ("/ietf-schc:duplicate-rule/input", 2601),
        ("/ietf-schc:duplicate-rule/input/from", 2602),
        ("/ietf-schc:duplicate-rule/input/from/rule-id-length", 2603),
        ("/ietf-schc:duplicate-rule/input/from/rule-id-value", 2604),
        ("/ietf-schc:duplicate-rule/input/ipatch-sequence", 2605),
        ("/ietf-schc:duplicate-rule/input/to", 2606),
        ("/ietf-schc:duplicate-rule/input/to/rule-id-length", 2607),
        ("/ietf-schc:duplicate-rule/input/to/rule-id-value", 2608),
        ("/ietf-schc:schc/rule/entry-universal/matching-operator", 2586),
        ("/ietf-schc:schc/rule/entry-universal/comp-decomp-action", 2587),
    ];
    SidModel {
        items: names
            .iter()
            .map(|(identifier, sid)| SidItem { identifier: (*identifier).to_owned(), sid: *sid })
            .collect(),
        lists: vec![
            ListKeys { sid: 2575, keys: vec![2577, 2576] },
            ListKeys { sid: 2580, keys: vec![2581] },
            ListKeys { sid: 2583, keys: vec![2584] },
        ],
    }
}

#[test]
fn natures_are_read_by_name_or_number() {
    let named = decode_nature_value(
        &nature_model(),
        &JsonValue::Text("ietf-schc:nature-compression".to_owned()),
        &Err("unused".to_owned()),
    );
    assert_eq!(named.expect("name"), "compression");
    let numbered = decode_nature_value(
        &nature_model(),
        &JsonValue::Integer(2700),
        &Ok(JsonValue::Integer(2700)),
    );
    assert_eq!(numbered.expect("number"), "compression");
    assert!(decode_nature_value(
        &nature_model(),
        &JsonValue::Integer(1),
        &Ok(JsonValue::Integer(1))
    )
    .is_err());
    assert!(decode_nature_value(&nature_model(), &JsonValue::Null, &Ok(JsonValue::Null)).is_err());
}

#[test]
fn device_responses_are_checked() {
    let list = decode_rule_list_payload(
        &nature_model(),
        &ListAnswers {
            instances: Err("bad CBOR".to_owned()),
            root: Err("no root".to_owned()),
            accepted: Ok(()),
            natures: Vec::new(),
        },
    );
    assert!(list.expect_err("refused").message().contains("bad CBOR"));
    let detail = decode_rule_detail_payload(
        &nature_model(),
        RuleSelector { value: 20, bits: 8 },
        &DetailAnswers {
            instances: Ok(Vec::new()),
            rule: Err("no rule".to_owned()),
            typed: Ok(Vec::new()),
        },
    );
    assert!(detail.is_err());
}
