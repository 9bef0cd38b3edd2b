//! The duplicate operation: commands, payloads, changes and accounting.

use ciborium::value::Value;
use schc_coreconf::base64::{base64_decode, base64_encode};
use schc_coreconf::cbor::CborValue;
use schc_coreconf::coap::CoapMessage;
use schc_coreconf::codec::ContextTag;
use schc_coreconf::context::{
    ActiveContext, ContextData, ContextRecipe, ContextSnapshot, PreparedContext,
};
use schc_coreconf::context_error::ContextError;
use schc_coreconf::data_command::{parse_data_command, DataCommand};
use schc_coreconf::duplicate_command::{
    parse_rule_duplicate_command, RuleDuplicateOverride, RuleDuplicateRequest,
};
use schc_coreconf::duplicate_cost::{duplicate_rpc_cost, RpcAnswers};
use schc_coreconf::duplicate_operation::{
    decode_duplicate_operation, read_operation, split_members, DecodedDuplicateOperation,
};
use schc_coreconf::duplicate_payload::{
    canonical_identity, duplicate_identity_sid, duplicate_inner_payload,
    encode_duplicate_rpc_payload, OverrideAnswers,
};
use schc_coreconf::duplicate_service::{
    apply_duplicate_operation, duplicate_rule_datagram, DuplicateRuleResult,
};
use schc_coreconf::duplicate_tree::{
    candidate_tree, expected_duplicate_tree, find_tree_rule, TreeAnswers,
};
use schc_coreconf::json::JsonValue;
use schc_coreconf::link::LinkReport;
use schc_coreconf::link_types::{LinkOperation, TrafficClass};
use schc_coreconf::number::{binary_fits_field_length, bytes_to_u64, number_in_width};
use schc_coreconf::packet::{
    Ipv6UdpCoapPacket, Ipv6UdpPacket, CORE_LOGICAL_ADDRESS, DEVICE_LOGICAL_ADDRESS,
    MANAGEMENT_PORT,
};
use schc_coreconf::path::{
    duplicate_leaf_from_path, duplicate_override_path, target_value_path,
    validate_root_instance_path, validate_rule_instance_path, DuplicateLeaf, Instance,
    InstancePath,
};
use schc_coreconf::policy::{ProtectedRules, ProtectionPolicy};
use schc_coreconf::report::{inspect_report, ParsedPacket, ReportDirection, ReportError};
use schc_coreconf::report_text::{format_report, lines_text, render_debug};
use schc_coreconf::request::is_duplicate_rule_datagram;
use schc_coreconf::rule::{
    Cda, DirectionSelector, FieldLength, FieldRef, FieldRule, MatchingOperator, Rule, RuleNature,
    TargetValue,
};
use schc_coreconf::rule_id::RuleId;
use schc_coreconf::rule_text::{RuleEntrySelector, RuleSummary};
use schc_coreconf::selector::RuleSelector;
use schc_coreconf::sid::{validate_duplicate_model_shape, ListKeys, SidItem, SidModel};
use schc_coreconf::target::numeric_target_value;
use schc_coreconf::update_command::parse_rule_update_command;

fn model() -> SidModel {
    let names = [
        ("/ietf-schc:schc", 2574),
        ("/ietf-schc:schc/rule", 2575),
        ("/ietf-schc:schc/rule/rule-id-length", 2576),
        ("/ietf-schc:schc/rule/rule-id-value", 2577),
        ("/ietf-schc:schc/rule/entry-universal", 2580),
        ("/ietf-schc:schc/rule/entry-universal/entry-index", 2581),
        ("/ietf-schc:schc/rule/entry-universal/field-length", 2582),
        ("/ietf-schc:schc/rule/entry-universal/target-value", 2583),
        ("/ietf-schc:schc/rule/entry-universal/target-value/index", 2584),
        ("/ietf-schc:schc/rule/entry-universal/target-value/value", 2585),
        ("/ietf-schc:duplicate-rule", 2600),
        ("/ietf-schc:duplicate-rule/input", 2601),
        ("/ietf-schc:duplicate-rule/input/from", 2602),
        ("/ietf-schc:duplicate-rule/input/from/rule-id-length", 2603),
        ("/ietf-schc:duplicate-rule/input/from/rule-id-value", 2604),
        ("/ietf-schc:duplicate-rule/input/ipatch-sequence", 2605),
        ("/ietf-schc:duplicate-rule/input/to", 2606),
        ("/ietf-schc:duplicate-rule/input/to/rule-id-length", 2607),
        ("/ietf-schc:duplicate-rule/input/to/rule-id-value", 2608),
        ("/ietf-schc:schc/rule/entry-universal/matching-operator", 2586),
        ("/ietf-schc:schc/rule/entry-universal/comp-decomp-action", 2587),
    ];
    SidModel {
        items: names
            .iter()
            .map(|(identifier, sid)| SidItem { identifier: (*identifier).to_owned(), sid: *sid })
            .collect(),
        lists: vec![
            ListKeys { sid: 2575, keys: vec![2577, 2576] },
            ListKeys { sid: 2580, keys: vec![2581] },
            ListKeys { sid: 2583, keys: vec![2584] },
        ],
    }
}


fn json(text: &str) -> JsonValue {
    match parse_data_command(&format!("set p {text}")) {
        Ok(DataCommand::Assign(_, value)) => value,
        other => panic!("not JSON: {other:?}"),
    }
}

fn shifted_model() -> SidModel {
    let replacements = [
        ("/ietf-schc:schc", 2815),
        ("/ietf-schc:schc/rule", 2840),
        ("/ietf-schc:duplicate-rule", 2906),
        ("/ietf-schc:duplicate-rule/input", 2918),
        ("/ietf-schc:duplicate-rule/input/from", 2920),
        ("/ietf-schc:duplicate-rule/input/from/rule-id-length", 2923),
        ("/ietf-schc:duplicate-rule/input/from/rule-id-value", 2926),
        ("/ietf-schc:duplicate-rule/input/ipatch-sequence", 2930),
        ("/ietf-schc:duplicate-rule/input/to", 2934),
        ("/ietf-schc:duplicate-rule/input/to/rule-id-length", 2937),
        ("/ietf-schc:duplicate-rule/input/to/rule-id-value", 2940),
    ];
    let mut shifted = model();
    for item in &mut shifted.items {
        if let Some((_, sid)) =
            replacements.iter().find(|(identifier, _)| *identifier == item.identifier)
        {
            item.sid = *sid;
        }
    }
    shifted
}

fn selector(value: u64) -> RuleSelector {
    RuleSelector::new(value, 8).expect("selector")
}

fn request(overrides: Vec<RuleDuplicateOverride>) -> RuleDuplicateRequest {
    RuleDuplicateRequest { source: selector(20), destination: selector(22), overrides }
}

fn map_value(value: &Value, key: i64) -> &Value {
    let Value::Map(entries) = value else {
        panic!("not a map");
    };
    entries
        .iter()
        .find(|(candidate, _)| *candidate == Value::Integer(key.into()))
        .map(|(_, held)| held)
        .expect("CBOR map key")
}

#[test]
fn duplicate_rpc_encoder_uses_model_relative_sids() {
    let payload = encode_duplicate_rpc_payload(&shifted_model(), &request(Vec::new()), &[])
        .expect("duplicate payload");
    let root: Value = ciborium::de::from_reader(payload.as_slice()).expect("CBOR");
    let operation = map_value(&root, 2906);
    let input = map_value(operation, 12);
    let from = map_value(input, 2);
    let to = map_value(input, 16);
    let _ = map_value(from, 3);
    let _ = map_value(from, 6);
    let _ = map_value(to, 3);
    let _ = map_value(to, 6);
    assert_eq!(*map_value(from, 6), Value::Integer(20.into()));
    assert_eq!(*map_value(to, 6), Value::Integer(22.into()));
}

fn rule(value: u64, nature: RuleNature) -> Rule {
    Rule {
        id: RuleId::new(value, 8),
        nature,
        fields: vec![FieldRule {
            entry_index: 9,
            field: FieldRef::Ipv6("dev-prefix".to_owned()),
            field_position: 1,
            direction: DirectionSelector::Bidirectional,
            length: FieldLength::FixedBits(64),
            target: TargetValue::Bytes(vec![0, 0, 0, 0, 0, 0, 0, 5]),
            matching: MatchingOperator::Equal,
            action: Cda::NotSent,
        }],
    }
}

fn rule_text(value: u64, target: &str, action: &str) -> String {
    format!(
        r#"{{"entry-universal":[{{"comp-decomp-action":"{action}","entry-index":9,"field-length":64,"matching-operator":"mo-equal","target-value":[{{"index":0,"value":"{target}"}}]}}],"rule-id-length":8,"rule-id-value":{value},"rule-nature":"nature-compression"}}"#
    )
}

fn tree_of(rules: &[String]) -> String {
    format!(r#"{{"ietf-schc:schc":{{"rule":[{}]}}}}"#, rules.join(","))
}

fn tree_text(rules: &[u64]) -> String {
    let listed: Vec<String> =
        rules.iter().map(|value| rule_text(*value, "AAAAAAAAAAU=", "cda-not-sent")).collect();
    tree_of(&listed)
}

fn prepared(rules: &[u64]) -> PreparedContext {
    let held: Vec<Rule> = rules
        .iter()
        .map(|value| {
            rule(
                *value,
                if *value == 16 { RuleNature::Management } else { RuleNature::Compression },
            )
        })
        .collect();
    let protected =
        ProtectedRules::derive(&held, &ProtectionPolicy::from_rule_ids(&Vec::new())).expect("ids");
    PreparedContext {
        recipe: ContextRecipe {
            sid_json: String::new(),
            device_id: "d".to_owned(),
            profile: String::new(),
            dynamic_rule_ids: None,
            context_profile: None,
        },
        data: ContextData {
            tree: json(&tree_text(rules)),
            sor: vec![0xa0],
            application_rule_ids: held.iter().map(Rule::id).collect(),
            rules: held,
            protected,
            guard_period: None,
            digest: vec![rules.len() as u8; 32],
            tag: ContextTag::new([rules.len() as u8; 8]),
        },
    }
}

fn snapshot() -> ContextSnapshot {
    ContextSnapshot::from_prepared(prepared(&[16, 20]), 1)
}

fn change() -> RuleDuplicateOverride {
    RuleDuplicateOverride {
        entry_index: 9,
        target_value: Some("6".to_owned()),
        matching_operator: None,
        cda: Some("value-sent".to_owned()),
    }
}

fn leaf_path(leaf: DuplicateLeaf) -> InstancePath {
    let sids = validate_duplicate_model_shape(&model()).expect("SIDs");
    duplicate_override_path(selector(22), 9, leaf, &sids)
}

fn override_answers() -> OverrideAnswers {
    OverrideAnswers {
        matching: Err("no operator".to_owned()),
        cda: Ok(3001),
        target_key: Ok(CborValue::Array(vec![CborValue::Integer(1)])),
        matching_key: Err("no key".to_owned()),
        cda_key: Ok(CborValue::Array(vec![CborValue::Integer(2)])),
    }
}

#[test]
fn changes_are_encoded_as_one_map_per_entry() {
    let payload = duplicate_inner_payload(
        &model(),
        &snapshot(),
        &request(vec![change()]),
        &vec![override_answers()],
    )
    .expect("inner payload");
    let value: Value = ciborium::de::from_reader(payload.as_slice()).expect("CBOR");
    let Value::Map(entries) = value else {
        panic!("no map");
    };
    assert_eq!(entries.len(), 2);
    assert_eq!(entries[0].0, Value::Array(vec![Value::Integer(1.into())]));
    assert_eq!(entries[0].1, Value::Bytes(vec![0, 0, 0, 0, 0, 0, 0, 6]));
    assert_eq!(entries[1].1, Value::Integer(3001.into()));
    let datagram = duplicate_rule_datagram(
        &model(),
        &snapshot(),
        &request(vec![change()]),
        4,
        &vec![override_answers()],
    )
    .expect("datagram");
    assert!(is_duplicate_rule_datagram(&datagram));
    let mut refused = override_answers();
    refused.cda_key = Err("no path".to_owned());
    assert!(duplicate_inner_payload(
        &model(),
        &snapshot(),
        &request(vec![change()]),
        &vec![refused]
    )
    .expect_err("path")
    .message()
    .contains("no path"));
}

#[test]
fn identities_have_full_names() {
    assert_eq!(canonical_identity("ignore", true).expect("name"), "mo-ignore");
    assert_eq!(canonical_identity("mo-equal", true).expect("name"), "mo-equal");
    assert_eq!(canonical_identity("not-sent", false).expect("name"), "cda-not-sent");
    assert!(canonical_identity("msb", true).is_err());
    assert!(canonical_identity("", false).is_err());
    assert_eq!(duplicate_identity_sid("lsb", false, &Ok(7)).expect("SID"), 7);
    assert!(duplicate_identity_sid("lsb", false, &Err("unknown".to_owned())).is_err());
}

fn operation_instance(inner: &[u8]) -> Instance {
    let encoded = String::from_utf8(base64_encode(inner)).expect("ASCII");
    let mut path = InstancePath::new();
    path.push_delta(2600);
    Instance {
        path,
        value: Some(json(&format!(
            r#"{{"input":{{"from":{{"rule-id-length":8,"rule-id-value":20}},"ipatch-sequence":"{encoded}","to":{{"rule-id-length":8,"rule-id-value":22}}}}}}"#
        ))),
    }
}

fn decoded_changes() -> Vec<Instance> {
    vec![
        Instance { path: leaf_path(DuplicateLeaf::Target), value: Some(json("\"AAAAAAAAAAY=\"")) },
        Instance { path: leaf_path(DuplicateLeaf::Cda), value: Some(json("3001")) },
    ]
}

fn decoded_operation() -> (Vec<u8>, DecodedDuplicateOperation, Vec<u8>) {
    let inner = duplicate_inner_payload(
        &model(),
        &snapshot(),
        &request(vec![change()]),
        &vec![override_answers()],
    )
    .expect("inner payload");
    let payload =
        encode_duplicate_rpc_payload(&model(), &request(vec![change()]), &inner).expect("payload");
    let operation =
        read_operation(&model(), &payload, &Ok(vec![operation_instance(&inner)])).expect("read");
    assert_eq!(operation.source.to_text(), "20/8");
    assert_eq!(operation.destination.to_text(), "22/8");
    assert_eq!(operation.inner, inner);
    let members = split_members(&operation.inner);
    assert_eq!(members.list.len(), 1);
    assert!(members.failure.is_none());
    let decoded = decode_duplicate_operation(
        &model(),
        &payload,
        &Ok(vec![operation_instance(&inner)]),
        &vec![Ok(decoded_changes())],
    )
    .expect("decoded");
    (payload, decoded, inner)
}

#[test]
fn operations_read_back_and_are_accounted_for() {
    let (payload, decoded, inner) = decoded_operation();
    assert_eq!(decoded.request.overrides.len(), 1);
    assert_eq!(decoded.request.overrides[0].entry_index, 9);
    assert_eq!(decoded.inner_payload, inner);
    let cost = duplicate_rpc_cost(
        &model(),
        &payload,
        &Ok(vec![operation_instance(&inner)]),
        &vec![Ok(decoded_changes())],
    )
    .expect("cost");
    assert_eq!(cost.payload_bytes, payload.len());
    assert_eq!(
        cost.fixed_bytes + cost.variable_framing_bytes + cost.target_value_bytes,
        payload.len()
    );
    assert_eq!(cost.target_value_bytes, 8);
    assert_eq!(cost.overrides.len(), 1);
    assert_eq!(cost.overrides[0].entry_index, 9);
}

#[test]
fn accounted_overrides_stand_in_the_order_of_their_entries() {
    let sids = validate_duplicate_model_shape(&model()).expect("SIDs");
    let inner: Vec<u8> =
        [7_u8, 5].iter().flat_map(|value| [0xa1, 0x81, 0x01, 0x41, *value]).collect();
    let payload =
        encode_duplicate_rpc_payload(&model(), &request(Vec::new()), &inner).expect("payload");
    let decoded = [9, 3]
        .iter()
        .map(|entry| {
            Ok(vec![Instance {
                path: duplicate_override_path(
                    selector(22),
                    *entry,
                    DuplicateLeaf::Target,
                    &sids,
                ),
                value: Some(json("\"AA==\"")),
            }])
        })
        .collect();
    let cost = duplicate_rpc_cost(
        &model(),
        &payload,
        &Ok(vec![operation_instance(&inner)]),
        &decoded,
    )
    .expect("cost");
    let shown: Vec<_> = cost
        .overrides
        .iter()
        .map(|group| (group.entry_index, group.target_value.clone()))
        .collect();
    assert_eq!(shown, vec![(3, Some("5".to_owned())), (9, Some("7".to_owned()))]);
}

#[test]
fn answers_have_to_fit_the_members_of_the_payload() {
    let (payload, _, inner) = decoded_operation();
    let refusal = |inner: &[u8], decoded: Vec<Result<Vec<Instance>, String>>| {
        let payload = encode_duplicate_rpc_payload(&model(), &request(vec![change()]), inner)
            .expect("payload");
        let instances = Ok(vec![operation_instance(inner)]);
        let decoding = decode_duplicate_operation(&model(), &payload, &instances, &decoded)
            .expect_err("refused")
            .message();
        let accounting = duplicate_rpc_cost(&model(), &payload, &instances, &decoded)
            .expect_err("refused")
            .message();
        assert_eq!(accounting, decoding);
        decoding
    };
    assert!(refusal(&inner, Vec::new()).contains("override answers are incomplete"));
    assert!(refusal(&inner, vec![Ok(decoded_changes()), Ok(Vec::new())])
        .contains("override answers are incomplete"));
    assert!(refusal(&inner, vec![Err("no model".to_owned())]).contains("no model"));
    let mut broken = inner.clone();
    broken.push(0xff);
    assert!(refusal(&broken, vec![Ok(decoded_changes())])
        .contains("invalid ipatch-sequence CBOR: "));
    assert!(duplicate_rpc_cost(&model(), &payload, &Err("bad".to_owned()), &Vec::new())
        .expect_err("refused")
        .message()
        .contains("RPC payload decode failed: bad"));
}

fn carried_packet(payload: &[u8]) -> Ipv6UdpCoapPacket {
    let mut datagram = vec![0x40, 0x02, 0x00, 0x07, 0xff];
    datagram.extend_from_slice(payload);
    let inside = (datagram.len() + 8) as u16;
    let mut bytes = vec![0x60];
    bytes.resize(48, 0);
    bytes.extend_from_slice(&datagram);
    Ipv6UdpCoapPacket {
        packet: Ipv6UdpPacket {
            bytes,
            traffic_class: 0,
            flow_label: 0,
            payload_length: inside,
            next_header: 17,
            hop_limit: 64,
            source: CORE_LOGICAL_ADDRESS,
            destination: DEVICE_LOGICAL_ADDRESS,
            source_port: MANAGEMENT_PORT,
            destination_port: MANAGEMENT_PORT,
            udp_length: inside,
            udp_checksum: 0,
        },
        datagram,
        message: CoapMessage::from_parts(
            1,
            0,
            2,
            7,
            Vec::new(),
            Vec::new(),
            payload.to_vec(),
        )
        .expect("message"),
    }
}

#[test]
fn reports_account_for_the_operation_that_they_carry() {
    let (payload, _, inner) = decoded_operation();
    let packet = carried_packet(&payload);
    let report = LinkReport {
        operation: LinkOperation::Encode,
        rule_id: RuleId::new(29, 8),
        generation: 1,
        traffic_class: TrafficClass::ProtectedManagement,
        packet_size: packet.packet.bytes.len(),
        packet_bytes: packet.packet.bytes.clone(),
        frame_bytes: vec![29, 0x80],
        schc_bit_len: Some(9),
        padded_byte_len: 2,
        management_rule: None,
        management_rpc_sid: Some("{}".to_owned()),
    };
    let parsed = || ParsedPacket {
        packet: carried_packet(&payload),
        source: "2001:db8::1".to_owned(),
        destination: "2001:db8::2".to_owned(),
    };
    let answers = RpcAnswers {
        model: Ok(model()),
        instances: Ok(vec![operation_instance(&inner)]),
        decoded: vec![Ok(decoded_changes())],
    };
    let found = inspect_report(&report, Ok(parsed()), &answers).expect("report");
    let cost = found.rpc.as_ref().expect("operation");
    assert_eq!(
        cost.fixed_bytes + cost.variable_framing_bytes + cost.target_value_bytes,
        found.coap.payload_bytes
    );
    assert_eq!(cost.target_value_bytes, 8);
    let text = format_report(ReportDirection::Tx, &report, true, Ok(parsed()), &answers)
        .expect("debug text");
    assert!(text.contains(&lines_text(&render_debug(&found))));
    let unread = RpcAnswers {
        model: Ok(model()),
        instances: Err("bad".to_owned()),
        decoded: Vec::new(),
    };
    assert!(matches!(
        inspect_report(&report, Ok(parsed()), &unread),
        Err(ReportError::InvalidPacket(text)) if text.contains("RPC payload decode failed: bad")
    ));
}

#[test]
fn malformed_operations_are_refused() {
    let (payload, _, inner) = decoded_operation();
    let refusal = |payload: &[u8], instances: Result<Vec<Instance>, String>| {
        read_operation(&model(), payload, &instances).expect_err("refused").message()
    };
    assert!(refusal(&[0xff], Ok(Vec::new())).contains("invalid RPC CBOR"));
    assert!(refusal(&[0x01], Ok(Vec::new())).contains("root must be a map"));
    assert!(refusal(&[0xa1, 0x18, 0x01, 0x02], Ok(Vec::new())).contains("noncanonical"));
    assert!(refusal(&[0xa0, 0x00], Ok(Vec::new())).contains("trailing values"));
    assert!(refusal(&payload, Err("bad".to_owned())).contains("RPC payload decode failed: bad"));
    assert!(refusal(&payload, Ok(Vec::new())).contains("exactly one duplicate-rule instance"));
    let mut deleted = operation_instance(&inner);
    deleted.value = None;
    assert!(refusal(&payload, Ok(vec![deleted])).contains("cannot be deleted"));
    let mut extra = operation_instance(&inner);
    extra.value = Some(json(r#"{"input":{"more":1}}"#));
    assert!(refusal(&payload, Ok(vec![extra])).contains("unknown field"));
}

#[test]
fn copied_rules_keep_the_others() {
    let held = snapshot();
    let (_, tree) = candidate_tree(&model(), &held, selector(20), selector(22)).expect("tree");
    for value in [16, 20, 22] {
        assert!(
            find_tree_rule(&tree, &model(), selector(value)).expect("tree").is_some(),
            "{value}"
        );
    }
    assert!(find_tree_rule(&tree, &model(), selector(23)).expect("tree").is_none());
    assert!(candidate_tree(&model(), &held, selector(99), selector(22)).is_err());
    let answers = TreeAnswers {
        datastore: Ok(()),
        changes: Vec::new(),
        tree: json(&tree_text(&[16, 20, 22])),
    };
    let expected = expected_duplicate_tree(
        &model(),
        &held,
        &request(Vec::new()),
        &Vec::new(),
        &answers,
    )
    .expect("expected tree");
    assert!(expected.same(&json(&tree_text(&[16, 20, 22]))));
    for foreign in [tree_text(&[16, 20]), tree_text(&[16, 22]), tree_text(&[16, 20, 22, 23])] {
        let answers =
            TreeAnswers { datastore: Ok(()), changes: Vec::new(), tree: json(&foreign) };
        assert!(expected_duplicate_tree(
            &model(),
            &held,
            &request(Vec::new()),
            &Vec::new(),
            &answers
        )
        .expect_err("foreign tree")
        .message()
        .contains("candidate tree differs beyond its overrides"));
    }
}

#[test]
fn applied_operations_publish_once() {
    let (_, mut decoded, _) = decoded_operation();
    decoded.instances = Vec::new();
    decoded.request.overrides = Vec::new();
    let mut active = ActiveContext::new(prepared(&[16, 20]));
    for foreign in [prepared(&[16, 20]), prepared(&[16, 20, 22, 23]), prepared(&[16, 22])] {
        let answers = TreeAnswers {
            datastore: Ok(()),
            changes: Vec::new(),
            tree: json(&tree_text(&[16, 20, 22])),
        };
        let refused = apply_duplicate_operation(
            &mut active,
            &model(),
            &decoded,
            &answers,
            Ok(foreign),
            Ok(vec![0xa0]),
        );
        assert!(refused
            .expect_err("foreign candidate")
            .message()
            .contains(&ContextError::NonCanonicalCandidate.message()));
        assert_eq!(active.generation(), 1);
    }
    let answers = || TreeAnswers {
        datastore: Ok(()),
        changes: Vec::new(),
        tree: json(&tree_text(&[16, 20, 22])),
    };
    let applied = apply_duplicate_operation(
        &mut active,
        &model(),
        &decoded,
        &answers(),
        Ok(prepared(&[16, 20, 22])),
        Ok(vec![0xa0]),
    )
    .expect("applied");
    assert!(matches!(applied, DuplicateRuleResult::Applied { generation: 2, .. }));
    let again = apply_duplicate_operation(
        &mut active,
        &model(),
        &decoded,
        &answers(),
        Ok(prepared(&[16, 20, 22])),
        Ok(vec![0xa0]),
    )
    .expect("idempotent");
    assert!(matches!(again, DuplicateRuleResult::Idempotent { generation: 2, .. }));
}

#[test]
fn operations_with_changes_are_idempotent_too() {
    let (_, decoded, _) = decoded_operation();
    assert_eq!(decoded.instances.len(), 2);
    let changed = |target: &str, action: &str| {
        tree_of(&[
            rule_text(16, "AAAAAAAAAAU=", "cda-not-sent"),
            rule_text(20, "AAAAAAAAAAU=", "cda-not-sent"),
            rule_text(22, target, action),
        ])
    };
    let expected = changed("AAAAAAAAAAY=", "cda-value-sent");
    let answers = |target: &str, tree: &str| TreeAnswers {
        datastore: Ok(()),
        changes: vec![
            Ok(JsonValue::Text(target.to_owned())),
            Ok(JsonValue::Text("cda-value-sent".to_owned())),
        ],
        tree: json(tree),
    };
    let candidate = |tree: &str| {
        let mut candidate = prepared(&[16, 20, 22]);
        candidate.data.tree = json(tree);
        candidate
    };
    let mut active = ActiveContext::new(prepared(&[16, 20]));
    let mut apply = |target: &str, tree: &str| {
        apply_duplicate_operation(
            &mut active,
            &model(),
            &decoded,
            &answers(target, tree),
            Ok(candidate(tree)),
            Ok(vec![0xa0]),
        )
    };
    let other_operator =
        expected.replacen("mo-equal", "mo-ignore", 3).replacen("mo-ignore", "mo-equal", 2);
    for (target, tree) in [
        ("AAAAAAAAAAY=", other_operator.as_str()),
        ("AAAAAAAAAAc=", expected.as_str()),
    ] {
        assert!(apply(target, tree)
            .expect_err("another tree")
            .message()
            .contains("candidate tree differs beyond its overrides"));
    }
    let first = apply("AAAAAAAAAAY=", &expected).expect("applied");
    let DuplicateRuleResult::Applied { generation, tag } = first else {
        panic!("not applied");
    };
    assert_eq!(generation, 2);
    let DuplicateRuleResult::Idempotent { generation: again, tag: same } =
        apply("AAAAAAAAAAY=", &expected).expect("idempotent")
    else {
        panic!("not idempotent");
    };
    assert_eq!(again, generation);
    assert!(same.same(tag));
    assert!(apply("AAAAAAAAAAc=", &changed("AAAAAAAAAAc=", "cda-value-sent"))
        .expect_err("other contents")
        .message()
        .contains("already exists with different contents"));
    assert_eq!(active.generation(), 2);
    assert!(active.tree().same(&json(&expected)));
}

#[test]
fn duplicate_commands_group_their_changes() {
    let parsed = parse_rule_duplicate_command(
        "rule duplicate 20/8 22/8 entry=9 tv=6 cda=value-sent entry=3 mo=ignore",
    )
    .expect("command");
    assert_eq!(parsed.overrides.len(), 2);
    assert_eq!(parsed.overrides[0].target_value.as_deref(), Some("6"));
    assert_eq!(parsed.overrides[1].matching_operator.as_deref(), Some("ignore"));
    for refused in [
        "rule duplicate",
        "rule duplicate 20/8",
        "rule duplicate 20/8 22/8 tv=6",
        "rule duplicate 20/8 22/8 entry=9",
        "rule duplicate 20/8 22/8 entry=9 tv=1 entry=9 tv=2",
        "rule duplicate 20/8 22/8 entry=9 tv=1 tv=2",
        "rule duplicate 20/8 22/8 entry=x tv=1",
        "rule duplicate 20/8 22/8 entry=9 mo=bogus",
        "rule duplicate 20/8 22/8 entry=9 cda=bogus",
    ] {
        assert!(parse_rule_duplicate_command(refused).is_err(), "{refused}");
    }
}

#[test]
fn update_commands_name_one_entry_and_one_value() {
    let exact = parse_rule_update_command("rule update 20/8 entry=9 tv=6 --if-match").expect("exact");
    assert!(exact.if_match);
    assert_eq!(exact.target_value, "6");
    assert!(matches!(exact.entry, RuleEntrySelector::Entry { entry_index: 9 }));
    let field = parse_rule_update_command("rule update 20/8 fid=dev-prefix fp=1 di=up tv=6")
        .expect("field");
    assert!(matches!(
        field.entry,
        RuleEntrySelector::Field { field_position: Some(1), .. }
    ));
    for refused in [
        "rule update",
        "rule update 20/8",
        "rule update 20/8 entry=9",
        "rule update 20/8 tv=6",
        "rule update 20/8 entry=9 fid=x tv=6",
        "rule update 20/8 entry=9 fp=1 tv=6",
        "rule update 20/8 entry=9 tv=6 tv=7",
        "rule update 20/8 fid=x di=left tv=6",
        "rule update 20/8 fid=x fp=0 tv=6",
        "rule update 20/8 entry=9 tv=6 other",
    ] {
        assert!(parse_rule_update_command(refused).is_err(), "{refused}");
    }
}

#[test]
fn update_arguments_come_in_any_order_and_spacing() {
    let expected =
        parse_rule_update_command("rule update 20/8 fid=dev-prefix fp=1 di=up tv=6 --if-match")
            .expect("update");
    for other in [
        "rule update 20/8 --if-match tv=6 di=up fp=1 fid=dev-prefix",
        "  rule\tupdate   20/8 tv=6 fid=dev-prefix\t--if-match di=up  fp=1 \n",
    ] {
        let parsed = parse_rule_update_command(other).expect("update");
        assert_eq!(format!("{parsed:?}"), format!("{expected:?}"));
    }
}

#[test]
fn change_paths_lead_back_to_their_leaf() {
    let sids = validate_duplicate_model_shape(&model()).expect("SIDs");
    for leaf in [DuplicateLeaf::Target, DuplicateLeaf::MatchingOperator, DuplicateLeaf::Cda] {
        let path = duplicate_override_path(selector(22), 9, leaf, &sids);
        let (entry, found) =
            duplicate_leaf_from_path(&path, selector(22), &sids).expect("known leaf");
        assert_eq!(entry, 9);
        assert_eq!(found, leaf);
        assert!(duplicate_leaf_from_path(&path, selector(23), &sids).is_err());
    }
    assert!(duplicate_leaf_from_path(&InstancePath::new(), selector(22), &sids).is_err());
    let target = target_value_path(sids, selector(20), 9, 0);
    assert!(validate_root_instance_path(&target, 2574).is_err());
    let mut root = InstancePath::new();
    root.push_delta(2574);
    assert!(validate_root_instance_path(&root, 2574).is_ok());
    assert!(validate_rule_instance_path(&root, 2574, 2575, selector(20)).is_err());
}

#[test]
fn base64_reads_back_every_byte() {
    assert_eq!(base64_encode(b""), b"");
    assert_eq!(base64_encode(b"f"), b"Zg==");
    assert_eq!(base64_encode(b"fo"), b"Zm8=");
    assert_eq!(base64_encode(b"foo"), b"Zm9v");
    let bytes: Vec<u8> = (0..=255).collect();
    assert_eq!(base64_decode(&base64_encode(&bytes)).expect("decoded"), bytes);
    assert!(base64_decode(b"Zg=").is_err());
    assert!(base64_decode(b"Z===").is_err());
    assert!(base64_decode(b"Z*==").is_err());
}

#[test]
fn target_values_keep_their_width() {
    assert_eq!(
        numeric_target_value("6", &[0, 0, 5], &JsonValue::Integer(24)).expect("value"),
        vec![0, 0, 6]
    );
    assert!(numeric_target_value("16777216", &[0, 0, 5], &JsonValue::Integer(24)).is_err());
    assert!(numeric_target_value("8", &[5], &JsonValue::Integer(3)).is_err());
    assert!(numeric_target_value("x", &[5], &JsonValue::Integer(8)).is_err());
    assert!(binary_fits_field_length(&[0, 7], 3));
    assert!(!binary_fits_field_length(&[0, 8], 3));
    assert_eq!(number_in_width(258, 3), vec![0, 1, 2]);
    assert_eq!(bytes_to_u64(&[1, 2]), Some(258));
    assert_eq!(bytes_to_u64(&[1; 9]), None);
}

#[test]
fn summaries_hold_selector_and_nature() {
    let summary = RuleSummary { id: selector(20), nature: "compression".to_owned() };
    let lines = schc_coreconf::rule_text::format_rule_list(&[summary]);
    assert_eq!(lines.len(), 1);
    assert!(lines[0].contains("20/8") && lines[0].contains("compression"));
}
