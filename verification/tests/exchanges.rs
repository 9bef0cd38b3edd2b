//! Management exchanges: selectors, commands, tokens, requests and endpoint
//! decisions.

use coap_lite::{MessageClass, MessageType, Packet, RequestType, ResponseType};
use schc_coreconf::coap::{
    CoapMessage, CoapOption, PacketError, COAP_ACKNOWLEDGEMENT, COAP_CONFIRMABLE,
    COAP_NON_CONFIRMABLE, URI_PATH,
};
use schc_coreconf::codec::ContextTag;
use schc_coreconf::command_outcome::{format_coap_code, validate_changed_response};
use schc_coreconf::console::CommandResult;
use schc_coreconf::endpoint::{
    after_command, after_missing_frame, after_traffic, check_response_rule, check_tun_packet,
    core_frame_step, device_duplicate_line, device_frame_step, stage_error, wait_step,
    CoreFrameStep, DeviceFrameStep, EndpointError, EndpointStage, LoopStep, WaitEvent, WaitStage,
    WaitStep,
};
use schc_coreconf::error::InspectionError;
use schc_coreconf::exchange::{
    apply_token_policy, management_wire_datagram, next_management_message_id,
    prepare_management_request, validate_management_response, CoapToken, ExchangeId,
    PreparedManagementRequest, TokenPolicy, TokenSequence,
};
use schc_coreconf::json::JsonValue;
use schc_coreconf::link::{
    check_incoming, check_outgoing, check_sent, temporary_ordinary_response, LinkDecoded,
    LinkEncoding, LinkReport, SchcFrame,
};
use schc_coreconf::link_types::{
    LinkError, LinkOperation, LinkRole, TrafficClass, TrafficRoute,
};
use schc_coreconf::packet::{
    Ipv6UdpCoapPacket, Ipv6UdpPacket, APPLICATION_PORT, CORE_LOGICAL_ADDRESS,
    DEVICE_LOGICAL_ADDRESS, MANAGEMENT_PORT,
};
use schc_coreconf::packet_loop::{
    DeviceFailure, PacketDevice, PacketEventLoop, PacketLoopError, PacketPoll,
};
use schc_coreconf::path::PathComponent;
use schc_coreconf::request::{
    base_request, context_check_request, duplicate_rule_message, is_duplicate_rule_coap_shape,
    is_duplicate_rule_datagram, rule_get_request, rule_list_request, rule_request_path,
    COAP_FETCH,
};
use schc_coreconf::rule::{field_name, FieldRef};
use schc_coreconf::rule_id::RuleId;
use schc_coreconf::selector::{parse_rule_selector, RuleSelector};
use schc_coreconf::service::{route_datagram, route_message, ServiceRoute};
use schc_coreconf::sid::{SidItem, SidModel};

fn same_selector(left: RuleSelector, right: RuleSelector) -> bool {
    left.value == right.value && left.bits == right.bits
}

#[test]
fn selector_parser_is_strict() {
    assert!(same_selector(
        parse_rule_selector("20/8").unwrap(),
        RuleSelector::new(20, 8).unwrap()
    ));
    assert!(parse_rule_selector("20").is_err());
    assert!(parse_rule_selector("20/0").is_err());
    assert!(parse_rule_selector("256/8").is_err());
    assert!(parse_rule_selector("20/8/1").is_err());
}

#[test]
fn selector_text_reads_back() {
    let selector = RuleSelector::new(u64::MAX, 64).expect("widest selector");
    assert_eq!(selector.to_text(), "18446744073709551615/64");
    assert!(same_selector(parse_rule_selector(&selector.to_text()).unwrap(), selector));
    assert_eq!(
        parse_rule_selector("300/8").expect_err("too large").message(),
        "invalid RuleID selector: value 300 does not fit in 8 bits"
    );
}

#[test]
fn unknown_numeric_field_sid_has_readable_fallback() {
    assert_eq!(field_name(&FieldRef::UnknownSid(99999)), "sid:99999");
    assert_eq!(field_name(&FieldRef::CoapOption { number: 11 }), "coap-option(11)");
}

#[test]
fn management_mid_allocator_reuses_the_bounded_reconstruction_window() {
    let mut next = 127;
    assert_eq!(next_management_message_id(&mut next), 127);
    assert_eq!(next, 0);
    assert_eq!(next_management_message_id(&mut next), 0);
    assert_eq!(next, 1);
}

#[test]
fn token_policy_keeps_the_current_profile_empty_and_generates_valid_tokens() {
    let mut sequence = TokenSequence::new();
    let empty = TokenPolicy::Empty.token(&mut sequence);
    assert!(empty.is_empty());

    let first = TokenPolicy::Generated.token(&mut sequence);
    let second = TokenPolicy::Generated.token(&mut sequence);
    assert_eq!(first.as_bytes().len(), 8);
    assert_eq!(second.as_bytes().len(), 8);
    assert_ne!(first.as_bytes(), second.as_bytes());
}

#[test]
fn exchange_id_round_trips_a_supported_nonempty_token() {
    let message = CoapMessage::from_parts(
        1,
        COAP_CONFIRMABLE,
        1,
        0x1234,
        vec![1, 2, 3, 4, 5, 6, 7, 8],
        Vec::new(),
        b"payload".to_vec(),
    )
    .expect("CoAP message");
    let exchange = ExchangeId::from_message(&message).expect("exchange ID");
    assert_eq!(exchange.message_id(), 0x1234);
    assert_eq!(exchange.token().as_bytes(), &[1, 2, 3, 4, 5, 6, 7, 8]);
    let same = ExchangeId::new(0x1234, exchange.token().as_bytes()).expect("same exchange ID");
    assert_eq!(exchange.message_id(), same.message_id());
    assert_eq!(exchange.token().as_bytes(), same.token().as_bytes());
}

#[test]
fn exchange_id_rejects_wrong_tokens_and_applies_coap_mid_rules() {
    assert!(matches!(ExchangeId::new(0, &[0; 9]), Err(InspectionError::InvalidToken(_))));
    let request = ExchangeId::new(7, &[0xa1, 0xb2]).expect("request exchange ID");
    let same = ExchangeId::new(7, &[0xa1, 0xb2]).expect("same exchange ID");
    let separate = ExchangeId::new(8, &[0xa1, 0xb2]).expect("separate exchange ID");
    let wrong_token = ExchangeId::new(7, &[0xa1, 0xc3]).expect("wrong-token exchange ID");

    assert!(request.matches_response(&same, COAP_ACKNOWLEDGEMENT));
    assert!(!request.matches_response(&separate, COAP_ACKNOWLEDGEMENT));
    assert!(request.matches_response(&separate, COAP_CONFIRMABLE));
    assert!(request.matches_response(&separate, COAP_NON_CONFIRMABLE));
    assert!(!request.matches_response(&wrong_token, COAP_CONFIRMABLE));
    assert!(!request.matches_response(&same, 3));
}

#[test]
fn apply_token_policy_rewrites_the_coap_boundary_without_changing_request_shape() {
    let mut packet = Packet::new();
    packet.header.message_id = 19;
    packet.header.code = MessageClass::Request(RequestType::Fetch);
    packet.header.set_type(MessageType::Confirmable);
    packet.add_option(coap_lite::CoapOption::UriPath, b"schc".to_vec());
    let request = packet.to_bytes().expect("request");
    let message = base_request(COAP_FETCH, 19);
    assert_eq!(message.message_id(), 19);
    assert_eq!(message.options[0].number(), URI_PATH);
    assert_eq!(message.options[0].value(), b"schc");

    let mut sequence = TokenSequence::new();
    let rewritten =
        apply_token_policy(&request, TokenPolicy::Generated, &mut sequence).expect("rewrite");
    let packet = Packet::from_bytes(&rewritten).expect("rewritten packet");
    assert_eq!(packet.header.message_id, 19);
    assert_eq!(packet.get_token().len(), 8);
    assert_eq!(
        packet
            .get_option(coap_lite::CoapOption::UriPath)
            .and_then(|paths| paths.front()),
        Some(&b"schc".to_vec())
    );
    let kept =
        apply_token_policy(&request, TokenPolicy::default(), &mut sequence).expect("empty token");
    assert_eq!(kept, request);
    assert!(matches!(
        apply_token_policy(&[0xff], TokenPolicy::Empty, &mut sequence),
        Err(InspectionError::Coap(_))
    ));
}

#[test]
fn messages_and_tokens_are_checked() {
    let parts = |version, kind, token: Vec<u8>| {
        CoapMessage::from_parts(version, kind, 1, 0, token, Vec::new(), Vec::new())
    };
    assert!(matches!(parts(4, 0, Vec::new()), Err(PacketError::Version)));
    assert!(matches!(parts(1, 4, Vec::new()), Err(PacketError::MessageType)));
    assert!(matches!(parts(1, 0, vec![0; 9]), Err(PacketError::Token)));
    assert!(CoapToken::new(&[0; 8]).is_ok());
    assert!(CoapToken::new(&[0; 9]).is_err());
    assert!(CoapToken::empty().is_empty());
}

#[test]
fn duplicate_requests_are_recognised_and_not_prepared() {
    let message = duplicate_rule_message(vec![1, 2], 5);
    assert!(is_duplicate_rule_coap_shape(&message));
    assert!(!is_duplicate_rule_coap_shape(&base_request(COAP_FETCH, 5)));
    let mut packet = Packet::new();
    packet.header.message_id = 5;
    packet.header.code = MessageClass::Request(RequestType::Post);
    packet.header.set_type(MessageType::NonConfirmable);
    packet.add_option(coap_lite::CoapOption::UriPath, b"schc".to_vec());
    packet.add_option(coap_lite::CoapOption::ContentFormat, vec![142]);
    packet.payload = vec![1, 2];
    let datagram = packet.to_bytes().expect("datagram");
    assert!(is_duplicate_rule_datagram(&datagram));
    let mut sequence = TokenSequence::new();
    assert!(
        management_wire_datagram(&datagram, TokenPolicy::Empty, &mut sequence).is_err(),
        "one-way requests are not tracked"
    );
    assert!(!is_duplicate_rule_datagram(&[0xff]));
}

fn shifted_model() -> SidModel {
    let item = |identifier: &str, sid: i64| SidItem { identifier: identifier.to_owned(), sid };
    SidModel {
        items: vec![item("/ietf-schc:schc", 2815), item("/ietf-schc:schc/rule", 2840)],
        lists: Vec::new(),
    }
}

fn numbers(components: &[PathComponent]) -> Vec<i128> {
    components
        .iter()
        .map(|component| match component {
            PathComponent::SidDelta(delta) => i128::from(*delta),
            PathComponent::KeyValue(JsonValue::Integer(number)) => *number,
            other => panic!("no number: {other:?}"),
        })
        .collect()
}

#[test]
fn model_aware_rule_fetch_builders_use_shifted_sids() {
    let model = shifted_model();
    let path = rule_request_path(&model, None).expect("rule list path");
    assert_eq!(numbers(path.components()), vec![2815]);
    let list = Packet::from_bytes(
        &rule_list_request(&model, Ok(vec![0x19, 0x0a, 0xff]), 1).expect("rule list request"),
    )
    .expect("rule list packet");
    assert_eq!(list.payload, vec![0x19, 0x0a, 0xff]);
    assert_eq!(list.header.code, MessageClass::Request(RequestType::Fetch));

    let selector = RuleSelector::new(20, 8).expect("selector");
    let path = rule_request_path(&model, Some(selector)).expect("rule get path");
    assert_eq!(numbers(path.components()), vec![2815, 25, 20, 8]);
    let get = Packet::from_bytes(
        &rule_get_request(&model, selector, Ok(vec![0x84]), 2).expect("rule get request"),
    )
    .expect("rule get packet");
    assert_eq!(get.header.message_id, 2);
    assert_eq!(get.payload, vec![0x84]);
    assert!(matches!(
        rule_list_request(&model, Err("no path".to_owned()), 1),
        Err(InspectionError::Datastore(text)) if text == "no path"
    ));
}

#[test]
fn local_changed_response_rejects_wrong_mid_or_token() {
    let mut request = Packet::new();
    request.header.message_id = 41;
    request.header.code = MessageClass::Request(RequestType::IPatch);
    request.header.set_type(MessageType::Confirmable);
    request.set_token(Vec::new());
    let request_bytes = request.to_bytes().expect("request");

    let mut wrong_mid = Packet::new();
    wrong_mid.header.message_id = 42;
    wrong_mid.header.code = MessageClass::Response(ResponseType::Changed);
    wrong_mid.header.set_type(MessageType::Acknowledgement);
    wrong_mid.set_token(Vec::new());
    assert!(validate_changed_response(
        &request_bytes,
        &wrong_mid.to_bytes().expect("wrong MID response")
    )
    .is_err());

    let mut wrong_token = Packet::new();
    wrong_token.header.message_id = 41;
    wrong_token.header.code = MessageClass::Response(ResponseType::Changed);
    wrong_token.header.set_type(MessageType::Acknowledgement);
    wrong_token.set_token(vec![1]);
    assert!(validate_changed_response(
        &request_bytes,
        &wrong_token.to_bytes().expect("wrong token response")
    )
    .is_err());

    let mut right = Packet::new();
    right.header.message_id = 41;
    right.header.code = MessageClass::Response(ResponseType::Changed);
    right.header.set_type(MessageType::Acknowledgement);
    assert!(validate_changed_response(&request_bytes, &right.to_bytes().expect("right")).is_ok());
    right.header.code = MessageClass::Response(ResponseType::Conflict);
    assert_eq!(
        validate_changed_response(&request_bytes, &right.to_bytes().expect("conflict"))
            .expect_err("code"),
        "expected local CoAP 2.04 Changed, got Response(Conflict)"
    );
    assert!(validate_changed_response(&[0xff], &request_bytes)
        .expect_err("request")
        .starts_with("malformed local request correlation: "));
    assert!(validate_changed_response(&request_bytes, &[0xff])
        .expect_err("response")
        .starts_with("malformed local CoAP response: "));
}

#[test]
fn codes_are_written_with_two_digits() {
    assert_eq!(format_coap_code(68), "2.04");
    assert_eq!(format_coap_code(128), "4.00");
    assert_eq!(format_coap_code(0x5f), "2.31");
}

fn packet(
    source: u128,
    destination: u128,
    port: u16,
    message: CoapMessage,
    datagram: Vec<u8>,
) -> Ipv6UdpCoapPacket {
    let mut bytes = vec![0x60; 48];
    bytes.extend_from_slice(&datagram);
    Ipv6UdpCoapPacket {
        packet: Ipv6UdpPacket {
            bytes,
            traffic_class: 0,
            flow_label: 0,
            payload_length: 0,
            next_header: 17,
            hop_limit: 64,
            source,
            destination,
            source_port: port,
            destination_port: port,
            udp_length: 0,
            udp_checksum: 0,
        },
        datagram,
        message,
    }
}

fn message(kind: u8, code: u8, message_id: u16, payload: &[u8]) -> CoapMessage {
    CoapMessage::from_parts(1, kind, code, message_id, Vec::new(), Vec::new(), payload.to_vec())
        .expect("message")
}

fn application_request(message_id: u16) -> Ipv6UdpCoapPacket {
    let message = CoapMessage::from_parts(
        1,
        0,
        1,
        message_id,
        vec![0xaa],
        vec![CoapOption::new(11, b"demo".to_vec())],
        Vec::new(),
    )
    .expect("request CoAP");
    packet(CORE_LOGICAL_ADDRESS, DEVICE_LOGICAL_ADDRESS, APPLICATION_PORT, message, vec![0x41])
}

fn application_response(message_id: u16) -> Ipv6UdpCoapPacket {
    packet(
        DEVICE_LOGICAL_ADDRESS,
        CORE_LOGICAL_ADDRESS,
        APPLICATION_PORT,
        message(2, 69, message_id, b"ok"),
        vec![0x60],
    )
}

fn report(operation: LinkOperation, rule_id: RuleId) -> LinkReport {
    LinkReport {
        operation,
        rule_id,
        generation: 1,
        traffic_class: TrafficClass::ProtectedManagement,
        packet_bytes: Vec::new(),
        frame_bytes: Vec::new(),
        packet_size: 0,
        schc_bit_len: None,
        padded_byte_len: 0,
        management_rule: None,
        management_rpc_sid: None,
    }
}

fn decoded(packet: Ipv6UdpCoapPacket, route: TrafficRoute, rule_id: RuleId) -> LinkDecoded {
    LinkDecoded {
        packet,
        rule_id,
        traffic_class: match route {
            TrafficRoute::Application => TrafficClass::Ordinary,
            TrafficRoute::ProtectedManagement => TrafficClass::ProtectedManagement,
        },
        route,
        report: report(LinkOperation::Decode, rule_id),
    }
}

fn management_request(datagram: &[u8], message_id: u16) -> Ipv6UdpCoapPacket {
    packet(
        CORE_LOGICAL_ADDRESS,
        DEVICE_LOGICAL_ADDRESS,
        MANAGEMENT_PORT,
        message(0, 5, message_id, &[]),
        datagram.to_vec(),
    )
}

fn compressed(request: &Ipv6UdpCoapPacket) -> LinkEncoding {
    let mut report = report(LinkOperation::Encode, RuleId::new(16, 8));
    report.packet_bytes = request.packet.bytes.clone();
    LinkEncoding { frame: SchcFrame { bytes: vec![0x10], bit_len: 8 }, report }
}

fn prepared(message_id: u16) -> PreparedManagementRequest {
    let datagram = context_check_request(ContextTag::new([1; 8]), message_id);
    let request = management_request(&datagram, message_id);
    let encoding = compressed(&request);
    prepare_management_request(&datagram, Ok(request), Ok(encoding)).expect("prepared request")
}

#[test]
fn prepared_requests_carry_their_datagram() {
    let datagram = context_check_request(ContextTag::new([1; 8]), 3);
    let other = context_check_request(ContextTag::new([2; 8]), 3);
    let refusal = |wire: &[u8], request: Ipv6UdpCoapPacket, encoding: LinkEncoding| {
        prepare_management_request(wire, Ok(request), Ok(encoding)).expect_err("refused").message()
    };
    let request = || management_request(&datagram, 3);
    assert!(refusal(&other, request(), compressed(&request()))
        .contains("does not carry the management request"));
    let mut reversed = request();
    reversed.packet.source = DEVICE_LOGICAL_ADDRESS;
    reversed.packet.destination = CORE_LOGICAL_ADDRESS;
    assert!(refusal(&datagram, reversed, compressed(&request()))
        .contains("does not carry the management request"));
    assert!(refusal(&datagram, request(), compressed(&management_request(&other, 3)))
        .contains("compressed from another packet"));
    let mut ordinary = compressed(&request());
    ordinary.report.traffic_class = TrafficClass::Ordinary;
    assert!(refusal(&datagram, request(), ordinary)
        .contains("unsupported protected RuleID 16/8"));
}

fn management_response(message_id: u16) -> LinkDecoded {
    decoded(
        packet(
            DEVICE_LOGICAL_ADDRESS,
            CORE_LOGICAL_ADDRESS,
            MANAGEMENT_PORT,
            message(2, 69, message_id, &[0xc6, 0]),
            vec![0x60],
        ),
        TrafficRoute::ProtectedManagement,
        RuleId::new(17, 8),
    )
}

struct FakeDevice {
    reads: Vec<Result<Vec<u8>, DeviceFailure>>,
    writes: Vec<Vec<u8>>,
    write_limit: Option<usize>,
}

impl PacketDevice for FakeDevice {
    fn read_packet(&mut self) -> Result<Vec<u8>, DeviceFailure> {
        self.reads.remove(0)
    }

    fn write_packet(&mut self, packet: &[u8]) -> Result<usize, DeviceFailure> {
        self.writes.push(packet.to_vec());
        Ok(self.write_limit.unwrap_or(packet.len()))
    }
}

fn fake_device(write_limit: Option<usize>) -> PacketEventLoop<FakeDevice> {
    PacketEventLoop::new(FakeDevice { reads: Vec::new(), writes: Vec::new(), write_limit })
}

#[test]
fn would_block_is_idle() {
    let mut packets = PacketEventLoop::new(FakeDevice {
        reads: vec![Err(DeviceFailure::WouldBlock)],
        writes: Vec::new(),
        write_limit: Some(0),
    });
    assert!(matches!(packets.poll().unwrap(), PacketPoll::Idle));
}

#[test]
fn short_write_is_reported() {
    let mut packets = fake_device(Some(1));
    let error = packets.write(&[1, 2]).unwrap_err();
    assert_eq!(packets.device.writes, vec![vec![1, 2]]);
    assert!(matches!(error, PacketLoopError::ShortWrite { expected: 2, actual: 1 }));
    assert_eq!(error.message(), "short TUN packet write: expected 2 bytes, wrote 1");
}

#[test]
fn reads_are_packets_or_failures() {
    let mut packets = PacketEventLoop::new(FakeDevice {
        reads: vec![Ok(vec![7]), Err(DeviceFailure::Failed("gone".to_owned()))],
        writes: Vec::new(),
        write_limit: None,
    });
    assert!(matches!(packets.poll(), Ok(PacketPoll::Packet(bytes)) if bytes == [7]));
    assert_eq!(
        packets.poll().expect_err("failure").message(),
        "TUN packet-device operation failed: gone"
    );
}

#[test]
fn core_raw_application_response_reaches_tun_byte_for_byte() {
    let frame = decoded(application_response(0x1202), TrafficRoute::Application, RuleId::new(21, 8));
    assert!(matches!(core_frame_step(&frame, None), Ok(CoreFrameStep::Write)));
    let mut packets = fake_device(None);
    packets.write(&frame.packet.packet.bytes).expect("write");
    assert_eq!(packets.device.writes, vec![frame.packet.packet.bytes.clone()]);
}

#[test]
fn core_management_response_isolated_from_tun_and_owns_one_rx_report() {
    let request = prepared(7);
    let result = core_frame_step(&management_response(7), Some(&request)).expect("response");
    let CoreFrameStep::Management(code, exchange) = result else {
        panic!("expected management result");
    };
    assert_eq!(code, 69);
    assert_eq!(exchange.payload, vec![0xc6, 0]);
    assert!(matches!(exchange.request_report.operation, LinkOperation::Encode));
    assert!(matches!(exchange.response_report.operation, LinkOperation::Decode));
    assert_eq!(exchange.response_report.rule_id, RuleId::new(17, 8));
    assert!(matches!(
        core_frame_step(&management_response(7), None),
        Err(EndpointError::Drop(text)) if text == "drop unrelated protected SCHC frame"
    ));
}

fn after_sending(event: WaitEvent) -> WaitStep {
    let (stage, step) = wait_step(WaitStage::Ready, WaitEvent::Prepared);
    assert!(matches!(step, WaitStep::Send));
    wait_step(stage, event).1
}

#[test]
fn core_management_wait_interleaves_tun_request_and_application_response() {
    let request = prepared(8);
    assert!(matches!(after_sending(WaitEvent::NoFrame), WaitStep::Wait));
    assert!(check_tun_packet(LinkRole::Core, &application_request(0x1203)).is_ok());
    assert!(matches!(after_sending(WaitEvent::Packet(Ok(()))), WaitStep::Wait));
    let application =
        decoded(application_response(0x1203), TrafficRoute::Application, RuleId::new(21, 8));
    let step = core_frame_step(&application, Some(&request));
    assert!(matches!(step, Ok(CoreFrameStep::Write)));
    assert!(matches!(after_sending(WaitEvent::Frame(step)), WaitStep::Wait));
    let step = core_frame_step(&management_response(8), Some(&request));
    assert!(matches!(after_sending(WaitEvent::Frame(step)), WaitStep::Done(69, _)));
}

#[test]
fn core_management_wait_ignores_wrong_protected_response_before_correct_one() {
    let request = prepared(9);
    let wrong = core_frame_step(&management_response(10), Some(&request));
    let WaitStep::Print(line) = after_sending(WaitEvent::Frame(wrong)) else {
        panic!("the wait goes on");
    };
    assert!(line.starts_with("ERROR ignore unrelated management response: "));
    let right = core_frame_step(&management_response(9), Some(&request));
    assert!(matches!(after_sending(WaitEvent::Frame(right)), WaitStep::Done(69, _)));
}

#[test]
fn management_wait_has_a_testable_bounded_deadline_and_sends_once() {
    let request = prepared(1);
    let mut sent: Vec<Vec<u8>> = Vec::new();
    let mut stage = WaitStage::Ready;
    let mut events = vec![
        WaitEvent::Prepared,
        WaitEvent::NoFrame,
        WaitEvent::Packet(Ok(())),
        WaitEvent::Frame(Err(EndpointError::Drop("unrelated".to_owned()))),
        WaitEvent::NoFrame,
        WaitEvent::Expired(5),
    ];
    let mut failure = None;
    for event in events.drain(..) {
        let (next, step) = wait_step(stage, event);
        stage = next;
        match step {
            WaitStep::Send => sent.push(request.frame().bytes.clone()),
            WaitStep::Wait | WaitStep::Print(_) => {}
            WaitStep::Done(..) => panic!("no response came"),
            WaitStep::Fail(error) => failure = Some(error),
        }
    }
    let error = failure.expect("missing response must time out");
    assert!(error.contains("management response timeout"));
    assert_eq!(error, "management response timeout after 5 ms");
    assert_eq!(sent, vec![request.frame().bytes.clone()], "one request");
    assert_eq!(stage, WaitStage::Ended);
    for stage in [WaitStage::Sent, WaitStage::Ended] {
        let (next, step) = wait_step(stage, WaitEvent::Prepared);
        assert_eq!(next, WaitStage::Ended);
        assert!(
            matches!(step, WaitStep::Fail(text) if text == "management exchange is out of order"),
            "request was resent"
        );
    }
    assert!(matches!(
        wait_step(WaitStage::Ready, WaitEvent::NoFrame),
        (WaitStage::Ended, WaitStep::Fail(_))
    ));
    assert!(matches!(
        after_sending(WaitEvent::SendFailed("down".to_owned())),
        WaitStep::Fail(text) if text == "send management SCHC frame: down"
    ));
    assert!(matches!(
        after_sending(WaitEvent::ReceiveFailed("down".to_owned())),
        WaitStep::Fail(text) if text == "receive management SCHC frame: down"
    ));
    assert!(matches!(
        after_sending(WaitEvent::PollFailed("gone".to_owned())),
        WaitStep::Fail(text) if text == "gone"
    ));
}

#[test]
fn core_tun_wrong_orientation_drops_then_valid_packet_recovers() {
    let reverse = packet(
        DEVICE_LOGICAL_ADDRESS,
        CORE_LOGICAL_ADDRESS,
        APPLICATION_PORT,
        message(0, 1, 0x1204, &[]),
        vec![0x40],
    );
    let drop = check_tun_packet(LinkRole::Core, &reverse).expect_err("wrong orientation drop");
    assert!(matches!(drop, EndpointError::Drop(message) if message.contains("orientation")));
    assert!(check_tun_packet(LinkRole::Device, &reverse).is_ok());
    assert!(check_tun_packet(LinkRole::Core, &application_request(0x1204)).is_ok());
}

#[test]
fn core_raw_frame_short_tun_write_is_a_contextual_fatal_error() {
    let response = application_response(0x1205);
    let length = response.packet.bytes.len();
    let failure = fake_device(Some(length - 1))
        .write(&response.packet.bytes)
        .expect_err("short write");
    let error = stage_error(LinkRole::Core, &EndpointStage::WritePacket(failure.message()));
    let EndpointError::Fatal(message) = error else {
        panic!("expected fatal error");
    };
    assert!(message.contains("write application packet to TUN"));
    assert!(message.contains(&format!("expected {length}")));
    assert!(message.contains(&format!("wrote {}", length - 1)));
}

#[test]
fn device_raw_schc_request_reaches_tun_byte_for_byte() {
    let frame = decoded(application_request(0x2201), TrafficRoute::Application, RuleId::new(25, 8));
    assert!(matches!(device_frame_step(&frame), Ok(DeviceFrameStep::Write)));
    let mut packets = fake_device(None);
    packets.write(&frame.packet.packet.bytes).expect("write");
    assert_eq!(packets.device.writes, vec![frame.packet.packet.bytes.clone()]);
}

#[test]
fn device_management_isolated_from_tun_and_response_correlates() {
    let datagram = context_check_request(ContextTag::new([2; 8]), 3);
    let frame = decoded(
        packet(
            CORE_LOGICAL_ADDRESS,
            DEVICE_LOGICAL_ADDRESS,
            MANAGEMENT_PORT,
            message(0, 5, 3, &[]),
            datagram,
        ),
        TrafficRoute::ProtectedManagement,
        RuleId::new(16, 8),
    );
    assert!(matches!(device_frame_step(&frame), Ok(DeviceFrameStep::Request)));
    assert!(check_response_rule(RuleId::new(17, 8)).is_ok());
    assert!(check_response_rule(RuleId::new(16, 8)).is_err());
    let (response_code, exchange) =
        validate_management_response(&prepared(3), &management_response(3))
            .expect("correlated management response");
    assert_eq!(response_code, 69);
    assert!(matches!(exchange.request_report.operation, LinkOperation::Encode));
    assert!(matches!(exchange.response_report.operation, LinkOperation::Decode));
    assert_eq!(exchange.response_report.rule_id, RuleId::new(17, 8));
}

#[test]
fn device_raw_drop_then_valid_request_recovers() {
    let error =
        stage_error(LinkRole::Device, &EndpointStage::DecodeFrame("bad rule".to_owned()));
    assert!(
        matches!(&error, EndpointError::Drop(message) if message.contains("malformed")),
        "malformed frame must drop"
    );
    assert!(matches!(
        after_traffic(&Err(error), true),
        LoopStep::Print(line) if line == "ERROR drop malformed SCHC frame: bad rule"
    ));
    let frame = decoded(application_request(0x2203), TrafficRoute::Application, RuleId::new(25, 8));
    assert!(matches!(device_frame_step(&frame), Ok(DeviceFrameStep::Write)));
}

#[test]
fn device_raw_frame_short_tun_write_is_a_contextual_fatal_error() {
    let request = application_request(0x2204);
    let length = request.packet.bytes.len();
    let failure = fake_device(Some(length - 1))
        .write(&request.packet.bytes)
        .expect_err("short write must be fatal");
    let error = stage_error(LinkRole::Device, &EndpointStage::WritePacket(failure.message()));
    let EndpointError::Fatal(message) = error else {
        panic!("expected fatal error");
    };
    assert!(message.contains("write application packet to TUN"));
    assert!(message.contains(&format!("expected {length}")));
    assert!(message.contains(&format!("wrote {}", length - 1)));
}

#[test]
fn device_drops_frames_with_the_wrong_orientation() {
    let response =
        decoded(application_response(1), TrafficRoute::Application, RuleId::new(21, 8));
    assert!(matches!(
        device_frame_step(&response),
        Err(EndpointError::Drop(text)) if text == "drop unsupported application orientation"
    ));
    assert!(matches!(
        device_frame_step(&management_response(1)),
        Err(EndpointError::Drop(text)) if text == "drop unsupported management orientation"
    ));
    let malformed = decoded(
        packet(
            CORE_LOGICAL_ADDRESS,
            DEVICE_LOGICAL_ADDRESS,
            MANAGEMENT_PORT,
            message(0, 5, 3, &[]),
            vec![0xff],
        ),
        TrafficRoute::ProtectedManagement,
        RuleId::new(16, 8),
    );
    assert!(matches!(
        device_frame_step(&malformed),
        Err(EndpointError::Drop(text)) if text.starts_with("drop malformed management request: ")
    ));
}

#[test]
fn device_reports_duplicates_in_one_line() {
    assert_eq!(
        device_duplicate_line(&Ok(None), 1, 2),
        "OK duplicate  local=installed  response=none"
    );
    assert_eq!(
        device_duplicate_line(&Ok(None), 2, 2),
        "OK duplicate  local=idempotent  response=none"
    );
    assert_eq!(
        device_duplicate_line(&Ok(Some(vec![1])), 1, 1),
        "ERROR duplicate  local=failed  response=unexpected"
    );
    assert_eq!(
        device_duplicate_line(&Err("bad".to_owned()), 1, 1),
        "ERROR duplicate  local=failed  response=none  cause=bad"
    );
}

#[test]
fn loops_stop_once_or_go_on() {
    assert!(matches!(after_command(&Ok(CommandResult::Quit), false), LoopStep::Finish));
    assert!(matches!(after_command(&Ok(CommandResult::Successful), true), LoopStep::Finish));
    assert!(matches!(after_command(&Ok(CommandResult::Successful), false), LoopStep::Next));
    assert!(matches!(after_command(&Ok(CommandResult::Unavailable), true), LoopStep::Next));
    assert!(matches!(
        after_command(&Err("no".to_owned()), true),
        LoopStep::Print(line) if line == "ERROR no"
    ));
    assert!(matches!(after_traffic(&Ok(()), true), LoopStep::Finish));
    assert!(matches!(after_traffic(&Ok(()), false), LoopStep::Next));
    assert!(matches!(
        after_traffic(&Err(EndpointError::Fatal("dead".to_owned())), false),
        LoopStep::Fail(text) if text == "dead"
    ));
    assert!(matches!(after_missing_frame(LinkRole::Core, true, "x"), LoopStep::Next));
    assert!(matches!(
        after_missing_frame(LinkRole::Device, false, "x"),
        LoopStep::Print(line) if line == "ERROR receive request SCHC frame: x"
    ));
}

#[test]
fn service_routes_by_method_and_path() {
    let datagram = context_check_request(ContextTag::new([3; 8]), 4);
    let (message, route) = route_datagram(&datagram).expect("route");
    assert_eq!(message.message_id(), 4);
    assert!(matches!(route, ServiceRoute::ContextCheck));
    assert!(matches!(route_message(&duplicate_rule_message(vec![1], 2)), ServiceRoute::Duplicate));
    assert!(matches!(route_datagram(&[0xff]), Err(InspectionError::Coap(_))));
    let asks = |code: u8, format: u8, payload: Vec<u8>| {
        CoapMessage::from_parts(
            1,
            0,
            code,
            9,
            Vec::new(),
            vec![
                CoapOption::new(11, b"schc".to_vec()),
                CoapOption::new(12, vec![format]),
            ],
            payload,
        )
        .expect("request")
    };
    assert!(matches!(route_message(&asks(7, 142, vec![0xa1])), ServiceRoute::TargetPatch));
    assert!(matches!(route_message(&asks(5, 141, vec![0x19])), ServiceRoute::Inspect));
    assert!(matches!(route_message(&asks(5, 141, vec![0xc6])), ServiceRoute::ContextCheck));
    assert!(matches!(route_message(&asks(4, 141, Vec::new())), ServiceRoute::NotAllowed));
}

#[test]
fn raw_datagrams_are_checked() {
    assert!(check_sent(3, 3).is_ok());
    assert!(matches!(check_sent(3, 2), Err(LinkError::ShortSend { expected: 3, actual: 2 })));
    assert!(matches!(check_outgoing(&[]), Err(LinkError::EmptyFrame)));
    assert!(check_outgoing(&[1]).is_ok());
    assert!(matches!(
        check_incoming("a:1", "b:1", &[1]),
        Err(LinkError::UnexpectedPeer { .. })
    ));
    assert!(matches!(check_incoming("a:1", "a:1", &[]), Err(LinkError::EmptyFrame)));
    assert!(check_incoming("a:1", "a:1", &[1]).is_ok());
}

#[test]
fn ordinary_responses_turn_the_packet_around() {
    let request = application_request(0x33);
    let plan = temporary_ordinary_response(&request).expect("response");
    assert_eq!(plan.source, DEVICE_LOGICAL_ADDRESS);
    assert_eq!(plan.destination, CORE_LOGICAL_ADDRESS);
    assert_eq!(plan.message.message_id(), 0x33);
    assert_eq!(plan.message.token(), &[0xaa]);
}
