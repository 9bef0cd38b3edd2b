//! The management service: transactions, targeted changes, inspection of
//! device responses and bit accounting.

use schc_coreconf::breakdown::management_bit_breakdown;
use schc_coreconf::coap::{CoapMessage, CoapOption};
use schc_coreconf::codec::ContextTag;
use schc_coreconf::command_outcome::{plan_duplicate, read_duplicate};
use schc_coreconf::context::{
    ActiveContext, ContextData, ContextRecipe, ContextSnapshot, PreparedContext,
};
use schc_coreconf::context_error::ContextError;
use schc_coreconf::data_command::{parse_data_command, DataCommand};
use schc_coreconf::error::InspectionError;
use schc_coreconf::exchange::next_management_message_id;
use schc_coreconf::inspection::{
    decode_rule_detail_payload, decode_rule_list_payload, listed_rule_count, remote_rule_tree,
    DetailAnswers, ListAnswers,
};
use schc_coreconf::json::JsonValue;
use schc_coreconf::link::{LinkReport, RuntimeKind, SchcLink};
use schc_coreconf::link_types::{LinkOperation, TrafficClass};
use schc_coreconf::packet::{
    Ipv6UdpCoapPacket, Ipv6UdpPacket, CORE_LOGICAL_ADDRESS, DEVICE_LOGICAL_ADDRESS,
    MANAGEMENT_PORT,
};
use schc_coreconf::path::{management_instance_path, target_value_path, Instance};
use schc_coreconf::policy::{ProtectedRules, ProtectionPolicy};
use schc_coreconf::rule::{
    Cda, DirectionSelector, FieldLength, FieldRef, FieldRule, MatchingOperator, Rule, RuleNature,
    TargetValue,
};
use schc_coreconf::rule_id::RuleId;
use schc_coreconf::selector::RuleSelector;
use schc_coreconf::service::{
    finish_response, handle_context_check, handle_target_ipatch, parse_if_match_option,
    PatchAnswers, PatchCode, PatchFacts,
};
use schc_coreconf::sid::{ListKeys, ModelSids, SidItem, SidModel};
use schc_coreconf::target::{byte_array, ResolvedRuleUpdate};
use schc_coreconf::transaction::{ContextParticipant, TransactionRequest};
use schc_coreconf::update_command::parse_rule_update_command;

fn model() -> SidModel {
    let names = [
        ("/ietf-schc:schc", 2574),
        ("/ietf-schc:schc/rule", 2575),
        ("/ietf-schc:schc/rule/rule-id-length", 2576),
        ("/ietf-schc:schc/rule/rule-id-value", 2577),
        ("/ietf-schc:schc/rule/entry-universal", 2580),
        ("/ietf-schc:schc/rule/entry-universal/entry-index", 2581),
        ("/ietf-schc:schc/rule/entry-universal/field-length", 2582),
        ("/ietf-schc:schc/rule/entry-universal/target-value", 2583),
        ("/ietf-schc:schc/rule/entry-universal/target-value/index", 2584),
        ("/ietf-schc:schc/rule/entry-universal/target-value/value", 2585),
        ("/ietf-schc:duplicate-rule", 2600),
        ("/ietf-schc:duplicate-rule/input", 2601),
        ("/ietf-schc:duplicate-rule/input/from", 2602),
        ("/ietf-schc:duplicate-rule/input/from/rule-id-length", 2603),
        ("/ietf-schc:duplicate-rule/input/from/rule-id-value", 2604),
        ("/ietf-schc:duplicate-rule/input/ipatch-sequence", 2605),
        ("/ietf-schc:duplicate-rule/input/to", 2606),
        ("/ietf-schc:duplicate-rule/input/to/rule-id-length", 2607),
        ("/ietf-schc:duplicate-rule/input/to/rule-id-value", 2608),
        ("/ietf-schc:schc/rule/entry-universal/matching-operator", 2586),
        ("/ietf-schc:schc/rule/entry-universal/comp-decomp-action", 2587),
    ];
    SidModel {
        items: names
            .iter()
            .map(|(identifier, sid)| SidItem { identifier: (*identifier).to_owned(), sid: *sid })
            .collect(),
        lists: vec![
            ListKeys { sid: 2575, keys: vec![2577, 2576] },
            ListKeys { sid: 2580, keys: vec![2581] },
            ListKeys { sid: 2583, keys: vec![2584] },
        ],
    }
}

fn json(text: &str) -> JsonValue {
    match parse_data_command(&format!("set p {text}")) {
        Ok(DataCommand::Assign(_, value)) => value,
        other => panic!("not JSON: {other:?}"),
    }
}

fn rule(value: u64, nature: RuleNature) -> Rule {
    Rule {
        id: RuleId::new(value, 8),
        nature,
        fields: vec![FieldRule {
            entry_index: 9,
            field: FieldRef::Ipv6("dev-prefix".to_owned()),
            field_position: 1,
            direction: DirectionSelector::Bidirectional,
            length: FieldLength::FixedBits(64),
            target: TargetValue::Bytes(vec![0, 0, 0, 0, 0, 0, 0, 5]),
            matching: MatchingOperator::Equal,
            action: Cda::NotSent,
        }],
    }
}

fn tree_text(rules: &[u64]) -> String {
    tree_with(rules, "AAAAAAAAAAU=")
}

fn tree_with(rules: &[u64], target: &str) -> String {
    let listed: Vec<String> = rules
        .iter()
        .map(|value| {
            let target = if *value == 20 { target } else { "AAAAAAAAAAU=" };
            format!(
                r#"{{"entry-universal":[{{"entry-index":9,"field-length":64,"target-value":[{{"index":0,"value":"{target}"}}]}}],"rule-id-length":8,"rule-id-value":{value},"rule-nature":"nature-compression"}}"#
            )
        })
        .collect();
    format!(r#"{{"ietf-schc:schc":{{"rule":[{}]}}}}"#, listed.join(","))
}

fn prepared(rules: &[u64]) -> PreparedContext {
    let held: Vec<Rule> = rules
        .iter()
        .map(|value| {
            rule(
                *value,
                if *value == 16 { RuleNature::Management } else { RuleNature::Compression },
            )
        })
        .collect();
    let protected =
        ProtectedRules::derive(&held, &ProtectionPolicy::from_rule_ids(&Vec::new())).expect("ids");
    PreparedContext {
        recipe: ContextRecipe {
            sid_json: String::new(),
            device_id: "d".to_owned(),
            profile: String::new(),
            dynamic_rule_ids: None,
            context_profile: None,
        },
        data: ContextData {
            tree: json(&tree_text(rules)),
            sor: vec![0xa0],
            application_rule_ids: held.iter().map(Rule::id).collect(),
            rules: held,
            protected,
            guard_period: None,
            digest: vec![rules.len() as u8; 32],
            tag: ContextTag::new([rules.len() as u8; 8]),
        },
    }
}

fn changed(rules: &[u64], target: &str) -> PreparedContext {
    let mut candidate = prepared(rules);
    candidate.data.tree = json(&tree_with(rules, target));
    candidate
}

fn snapshot() -> ContextSnapshot {
    ContextSnapshot::from_prepared(prepared(&[16, 20]), 1)
}

fn selector(value: u64) -> RuleSelector {
    RuleSelector::new(value, 8).expect("selector")
}

const ROOT_PATCH: TransactionRequest =
    TransactionRequest { ipatch: true, root: true, streaming: false };

#[test]
fn reserved_candidate_is_published_once() {
    let mut active = ActiveContext::new(prepared(&[16, 20]));
    let mut participant = ContextParticipant::new();
    let tree = json(&tree_text(&[16, 20, 22]));
    let canonical = || Ok(vec![0xa0]);
    assert!(participant.pre_commit(&active, &tree, ROOT_PATCH, canonical()).is_err());
    participant.prepare_tree(&active, Ok(prepared(&[16, 20, 22]))).expect("reserved");
    assert!(participant.has_prepared() && !participant.has_pending());
    let foreign = json(&tree_text(&[16]));
    assert!(participant.pre_commit(&active, &foreign, ROOT_PATCH, canonical()).is_err());
    assert!(participant.has_prepared());
    participant.pre_commit(&active, &tree, ROOT_PATCH, canonical()).expect("pending");
    assert!(participant.has_pending());
    participant.post_commit(&mut active, &tree);
    assert_eq!(active.generation(), 2);
    assert!(!participant.has_pending());
    participant.post_commit(&mut active, &tree);
    assert_eq!(active.generation(), 2);
}

#[test]
fn refused_transactions_release_or_keep_the_reservation() {
    let active = ActiveContext::new(prepared(&[16, 20]));
    let mut participant = ContextParticipant::new();
    let tree = json(&tree_text(&[16, 20, 22]));
    assert!(matches!(
        participant.prepare_sor(&active, Err(ContextError::NonCanonicalCandidate)),
        Err(ContextError::NonCanonicalCandidate)
    ));
    participant.prepare_sor(&active, Ok(prepared(&[16, 20, 22]))).expect("reserved");
    let streaming = TransactionRequest { ipatch: true, root: true, streaming: true };
    let refusal = participant
        .pre_commit(&active, &tree, streaming, Ok(vec![0xa0]))
        .expect_err("streaming");
    assert!(refusal.starts_with("schc-coreconf transaction rejected: "));
    assert!(!participant.has_prepared());
    participant.prepare_tree(&active, Ok(prepared(&[16, 20, 22]))).expect("reserved");
    let refusal = participant
        .pre_commit(&active, &tree, ROOT_PATCH, Ok(vec![0xa1]))
        .expect_err("another encoding");
    assert!(refusal.contains(&ContextError::NonCanonicalCandidate.message()));
    assert!(!participant.has_prepared());
    let unprotected = json(&tree_text(&[20, 22]));
    participant.prepare_tree(&active, Ok(prepared(&[20, 22]))).expect("reserved");
    let refusal = participant
        .pre_commit(&active, &unprotected, ROOT_PATCH, Ok(vec![0xa0]))
        .expect_err("lost protected rule");
    assert!(refusal.contains("protected"));
    assert!(!participant.has_prepared());
    participant.prepare_tree(&active, Ok(prepared(&[16, 20, 22]))).expect("reserved");
    participant.clear_prepared();
    assert!(!participant.has_prepared());
    participant.prepare_tree(&active, Ok(prepared(&[16, 20, 22]))).expect("reserved");
    participant.reset_transaction();
    assert!(!participant.has_prepared() && !participant.has_pending());
}

fn patch_message(options: Vec<CoapOption>) -> CoapMessage {
    CoapMessage::from_parts(1, 0, 7, 3, Vec::new(), options, vec![1]).expect("message")
}

fn patch_answers() -> PatchAnswers {
    let sids = ModelSids::resolve(&model()).expect("SIDs");
    PatchAnswers {
        instances: Ok(vec![Instance {
            path: target_value_path(sids, selector(20), 9, 0),
            value: Some(byte_array(&[0, 0, 0, 0, 0, 0, 0, 6])),
        }]),
        datastore: Ok(()),
        target_path: Ok(()),
        parsed_path: Ok(()),
        exists: Ok(true),
        current: Ok(byte_array(&[0, 0, 0, 0, 0, 0, 0, 5])),
        entry_path: Ok(()),
        entry: Ok(Some(json(r#"{"entry-index":9,"field-length":64}"#))),
        accepted: Ok(JsonValue::Text("AAAAAAAAAAY=".to_owned())),
        replacement: Ok(byte_array(&[0, 0, 0, 0, 0, 0, 0, 6])),
        written: Ok(()),
    }
}

const FACTS: PatchFacts =
    PatchFacts { management: true, root: true, instances_format: true, empty: false };

#[test]
fn targeted_change_publishes_its_candidate() {
    let mut active = ActiveContext::new(prepared(&[16, 20]));
    let tag = active.tag();
    let result = handle_target_ipatch(
        &mut active,
        &model(),
        &patch_message(vec![CoapOption::new(1, tag.to_vec())]),
        &FACTS,
        &patch_answers(),
        Ok(changed(&[16, 20], "AAAAAAAAAAY=")),
        Ok(vec![0xa0]),
    );
    assert!(result.is_ok(), "{result:?}");
    assert_eq!(active.generation(), 2);
    assert!(active.tree().same(&json(&tree_with(&[16, 20], "AAAAAAAAAAY="))));
}

#[test]
fn targeted_change_is_refused_without_a_trace() {
    let refused = |message: CoapMessage,
                   facts: PatchFacts,
                   prepared_candidate: Result<PreparedContext, ContextError>| {
        let mut active = ActiveContext::new(prepared(&[16, 20]));
        let failure = handle_target_ipatch(
            &mut active,
            &model(),
            &message,
            &facts,
            &patch_answers(),
            prepared_candidate,
            Ok(vec![0xa0]),
        )
        .expect_err("refused");
        assert_eq!(active.generation(), 1);
        failure
    };
    let stale = refused(
        patch_message(vec![CoapOption::new(1, vec![9; 8])]),
        FACTS,
        Ok(changed(&[16, 20], "AAAAAAAAAAY=")),
    );
    assert!(stale.precondition_failed);
    let twice = refused(
        patch_message(vec![CoapOption::new(1, vec![2; 8]), CoapOption::new(1, vec![2; 8])]),
        FACTS,
        Ok(changed(&[16, 20], "AAAAAAAAAAY=")),
    );
    assert_eq!(twice.code, PatchCode::BadRequest);
    let short =
        refused(patch_message(vec![CoapOption::new(1, vec![2])]), FACTS, Ok(prepared(&[16, 20])));
    assert!(short.message.contains("exactly 8 bytes"));
    let outside = refused(
        patch_message(Vec::new()),
        PatchFacts { root: false, ..FACTS },
        Ok(prepared(&[16, 20])),
    );
    assert_eq!(outside.code, PatchCode::BadRequest);
    let broken = refused(
        patch_message(Vec::new()),
        FACTS,
        Err(ContextError::NonCanonicalCandidate),
    );
    assert_eq!(broken.code, PatchCode::Conflict);
    let unprotected = refused(patch_message(Vec::new()), FACTS, Ok(prepared(&[20])));
    assert_eq!(unprotected.code, PatchCode::Conflict);
    for foreign in [
        prepared(&[16, 20]),
        prepared(&[16, 20, 22]),
        changed(&[16, 20], "AAAAAAAAAAc="),
        changed(&[16, 20, 22], "AAAAAAAAAAY="),
    ] {
        let failure = refused(patch_message(Vec::new()), FACTS, Ok(foreign));
        assert_eq!(failure.code, PatchCode::Conflict);
        assert!(failure.message.contains(&ContextError::NonCanonicalCandidate.message()));
    }
    assert!(parse_if_match_option(&patch_message(Vec::new())).expect("none").is_none());
}

#[test]
fn context_checks_are_answered_or_refused() {
    let held = snapshot();
    let mut payload = vec![0xc6];
    payload.extend_from_slice(&held.tag().bytes());
    let message = CoapMessage::from_parts(1, 0, 5, 1, Vec::new(), Vec::new(), payload).expect("m");
    assert_eq!(handle_context_check(&message, &held).expect("equal"), vec![0xc6, 0]);
    let short = CoapMessage::from_parts(1, 0, 5, 1, Vec::new(), Vec::new(), vec![0xc6]).expect("m");
    let failure = handle_context_check(&short, &held).expect_err("short");
    assert_eq!(failure.code, PatchCode::BadRequest);
    assert!(failure.message.contains("marker and eight-byte tag"));
}

#[test]
fn responses_lose_their_content_format() {
    let response = |code| {
        CoapMessage::from_parts(
            1,
            2,
            code,
            5,
            vec![7],
            vec![CoapOption::new(4, vec![1]), CoapOption::new(12, vec![140])],
            b"x".to_vec(),
        )
        .expect("response")
    };
    let sent =
        coap_lite::Packet::from_bytes(&finish_response(response(69), false)).expect("response");
    assert!(sent.get_option(coap_lite::CoapOption::ContentFormat).is_none());
    assert!(sent.get_option(coap_lite::CoapOption::ETag).is_some());
    assert_eq!(u8::from(sent.header.code), 69);
    let failed =
        coap_lite::Packet::from_bytes(&finish_response(response(137), true)).expect("response");
    assert_eq!(u8::from(failed.header.code), 140);
    assert_eq!(failed.payload, b"x");
}

fn root_instance() -> Instance {
    Instance {
        path: management_instance_path(2574, 2575, None).expect("root path"),
        value: Some(json("{}")),
    }
}

fn nature_model() -> SidModel {
    let mut held = model();
    held.items.push(SidItem { identifier: "/ietf-schc:schc/rule/rule-nature".to_owned(), sid: 2578 });
    held
}

#[test]
fn rule_lists_are_ordered_and_unique() {
    let listed = |rules: &str| {
        let root = json(&format!(r#"{{"rule":[{rules}]}}"#));
        let count = listed_rule_count(&root);
        decode_rule_list_payload(
            &model(),
            &ListAnswers {
                instances: Ok(vec![root_instance()]),
                root: Ok(root),
                accepted: Ok(()),
                natures: (0..count).map(|_| Err("unused".to_owned())).collect(),
            },
        )
    };
    let one = r#"{"rule-id-length":8,"rule-id-value":20,"rule-nature":"nature-compression"}"#;
    let two = r#"{"rule-id-length":8,"rule-id-value":16,"rule-nature":"nature-management"}"#;
    let summaries = listed(&format!("{one},{two}")).expect("list");
    assert_eq!(summaries.len(), 2);
    assert_eq!(summaries[0].id.to_text(), "16/8");
    assert_eq!(summaries[0].nature, "management");
    assert_eq!(summaries[1].nature, "compression");
    assert!(listed(&format!("{one},{one}"))
        .expect_err("twice")
        .message()
        .contains("duplicated RuleID 20/8"));
    assert!(listed("7").is_err());
    assert!(listed(r#"{"rule-id-length":8,"rule-id-value":20}"#)
        .expect_err("nature")
        .message()
        .contains("missing rule-nature"));
    let accepted = decode_rule_list_payload(
        &model(),
        &ListAnswers {
            instances: Ok(Vec::new()),
            root: Ok(JsonValue::Null),
            accepted: Ok(()),
            natures: Vec::new(),
        },
    );
    assert!(matches!(accepted, Err(InspectionError::UnexpectedResponse(_))));
}

#[test]
fn rule_details_are_those_of_the_selected_rule() {
    let rule_json =
        r#"{"rule-id-length":8,"rule-id-value":20,"rule-nature":"nature-compression"}"#;
    let detail = |value: u64, typed: Vec<Rule>| {
        decode_rule_detail_payload(
            &nature_model(),
            selector(value),
            &DetailAnswers {
                instances: Ok(vec![Instance {
                    path: management_instance_path(2574, 2575, Some(selector(value)))
                        .expect("path"),
                    value: Some(json(rule_json)),
                }]),
                rule: Ok(json(rule_json)),
                typed: Ok(typed),
            },
        )
    };
    let found = detail(20, vec![rule(20, RuleNature::Compression)]).expect("detail");
    assert_eq!(found.id.to_text(), "20/8");
    assert_eq!(found.entries.len(), 1);
    assert!(detail(21, vec![rule(21, RuleNature::Compression)])
        .expect_err("other rule")
        .message()
        .contains("instead of 21/8"));
    assert!(detail(20, Vec::new()).is_err());
    assert!(detail(20, vec![rule(21, RuleNature::Compression)]).is_err());
    let tree = remote_rule_tree(&json(rule_json));
    assert_eq!(
        tree.get("ietf-schc:schc").and_then(|root| root.get("rule")).map(|rules| matches!(
            rules,
            JsonValue::Array(items) if items.len() == 1
        )),
        Some(true)
    );
}

#[test]
fn management_bits_are_all_accounted_for() {
    let message = CoapMessage::from_parts(1, 2, 69, 5, Vec::new(), Vec::new(), vec![1, 2, 3])
        .expect("message");
    let coap = |name: &str, length, target, matching, action| FieldRule {
        entry_index: 0,
        field: FieldRef::Coap(name.to_owned()),
        field_position: 1,
        direction: DirectionSelector::Bidirectional,
        length,
        target,
        matching,
        action,
    };
    let selected = Rule {
        id: RuleId::new(17, 8),
        nature: RuleNature::Management,
        fields: vec![
            coap(
                "fid-coap-code",
                FieldLength::FixedBits(8),
                TargetValue::Mapping(vec![vec![68], vec![69], vec![128]]),
                MatchingOperator::MatchMapping,
                Cda::MappingSent,
            ),
            coap(
                "fid-coap-mid",
                FieldLength::FixedBits(16),
                TargetValue::Bytes(vec![0, 0]),
                MatchingOperator::Msb(9),
                Cda::Lsb,
            ),
            FieldRule {
                entry_index: 2,
                field: FieldRef::Payload,
                field_position: 1,
                direction: DirectionSelector::Bidirectional,
                length: FieldLength::VariableBytes,
                target: TargetValue::Absent,
                matching: MatchingOperator::Ignore,
                action: Cda::ValueSent,
            },
        ],
    };
    let report = LinkReport {
        operation: LinkOperation::Encode,
        rule_id: RuleId::new(17, 8),
        generation: 1,
        traffic_class: TrafficClass::ProtectedManagement,
        packet_bytes: Vec::new(),
        frame_bytes: Vec::new(),
        packet_size: 0,
        schc_bit_len: Some(8 + 2 + 7 + 24 + 4),
        padded_byte_len: 6,
        management_rule: Some(selected),
        management_rpc_sid: None,
    };
    let packet = Ipv6UdpCoapPacket {
        packet: Ipv6UdpPacket {
            bytes: Vec::new(),
            traffic_class: 0,
            flow_label: 0,
            payload_length: 0,
            next_header: 17,
            hop_limit: 64,
            source: DEVICE_LOGICAL_ADDRESS,
            destination: CORE_LOGICAL_ADDRESS,
            source_port: MANAGEMENT_PORT,
            destination_port: MANAGEMENT_PORT,
            udp_length: 0,
            udp_checksum: 0,
        },
        datagram: Vec::new(),
        message,
    };
    let parts = management_bit_breakdown(&report, &Ok(packet)).expect("breakdown");
    assert_eq!(parts.rule_id_bits, 8);
    assert_eq!(parts.method_or_response_mapping_bits, 2);
    assert_eq!(parts.mid_residue_bits, 7);
    assert_eq!(parts.payload_bits, 24);
    assert_eq!(parts.payload_length_bits, 4);
    assert_eq!(parts.byte_padding_bits, 3);
    assert_eq!(parts.unaccounted_residue_bits, 0);
    assert_eq!(parts.transport_residue_bits(), 17);
}

#[test]
fn duplicates_are_planned_under_the_next_message_id() {
    let request = read_duplicate("rule duplicate 20/8 22/8").expect("request");
    let mut next: u16 = 127;
    let datagram =
        plan_duplicate(&model(), &snapshot(), &request, &mut next, &Vec::new()).expect("datagram");
    assert_eq!(next, 0);
    let packet = coap_lite::Packet::from_bytes(&datagram).expect("packet");
    assert_eq!(packet.header.message_id, 127);
    let missing = read_duplicate("rule duplicate 99/8 22/8 entry=1 tv=1").expect("request");
    let answers = vec![schc_coreconf::duplicate_payload::OverrideAnswers {
        matching: Err(String::new()),
        cda: Err(String::new()),
        target_key: Err(String::new()),
        matching_key: Err(String::new()),
        cda_key: Err(String::new()),
    }];
    let refusal = plan_duplicate(&model(), &snapshot(), &missing, &mut next, &answers)
        .expect_err("no source");
    assert!(refusal.starts_with("duplicate 99/8 -> 22/8 rejected: "));
    assert_eq!(next, 1);
}

#[test]
fn message_ids_cycle() {
    let mut next: u16 = 0;
    for expected in (0..128).chain(0..3) {
        assert_eq!(next_management_message_id(&mut next), expected);
    }
    next = 500;
    assert_eq!(next_management_message_id(&mut next), 0);
}

#[test]
fn canonical_runtime_follows_protection() {
    let held = snapshot();
    assert_eq!(SchcLink::canonical_runtime(&held, RuleId::new(16, 8)), RuntimeKind::Full);
    assert_eq!(SchcLink::canonical_runtime(&held, RuleId::new(20, 8)), RuntimeKind::Application);
}

#[test]
fn preconditions_need_a_datagram() {
    let request = parse_rule_update_command("rule update 20/8 entry=9 tv=6 --if-match").expect("c");
    let sids = ModelSids::resolve(&model()).expect("SIDs");
    let update = ResolvedRuleUpdate {
        request,
        entry_index: 9,
        target_value_index: 0,
        path: target_value_path(sids, selector(20), 9, 0),
        value: byte_array(&[6]),
    };
    assert!(update.ipatch_request(&json("[1]")).is_err());
    assert!(update.ipatch_datagram(1, None, &json("[1]")).is_err());
    let datagram = update
        .ipatch_datagram(1, Some(ContextTag::new([4; 8])), &json("[1]"))
        .expect("datagram");
    let packet = coap_lite::Packet::from_bytes(&datagram).expect("packet");
    assert_eq!(packet.payload, vec![0xa1, 0x81, 0x01, 0x41, 0x06]);
    assert!(update.instance().value.is_some());
}
