//! Contexts: loading, identity, protection, publication, and the commands of
//! the core's console on them.

use std::cell::RefCell;

use schc_coreconf::allocation::{ContextProfile, DynamicRuleIdNamespace, RuleIdSpec};
use schc_coreconf::cbor::CborValue;
use schc_coreconf::codec::{context_tag, digest_context, normalize_tree, strict_cbor_value};
use schc_coreconf::command_flow::{
    begin_duplicate, begin_update, duplicate_step, update_step, CommandAction, DuplicateEvent,
    DuplicateStage, UpdateEvent, UpdateStage,
};
use schc_coreconf::command_outcome::{
    check_device_verdict, check_duplicate_rule, check_duplicate_sent, context_check_answer,
    device_get_answer, device_list_answer, finish_duplicate, finish_update, plan_update,
    read_duplicate, read_update, resolve_change, DeviceReply,
};
use schc_coreconf::console::{
    console_help, handle_command, status_lines, CommandResult, ConsoleStep,
};
use schc_coreconf::context::{
    canonical_sor_from_tree, canonicalize_sor, check_sor, derive_protected_management_rule_ids,
    guard_period_from_tree, tree_from_sor, ActiveContext, ActiveContextBackend, ContextRecipe,
    ContextSnapshot, GuardPeriod, LoadedContext, ModelAnswers, PreparedContext, RuntimeAnswers,
};
use schc_coreconf::context_error::ContextError;
use schc_coreconf::data_command::{parse_data_command, DataCommand};
use schc_coreconf::error::InspectionError;
use schc_coreconf::json::JsonValue;
use schc_coreconf::path::{target_value_path, Instance};
use schc_coreconf::policy::{protected_management_rule_ids, ProtectedRules, ProtectionPolicy};
use schc_coreconf::request::{
    context_check_request, context_check_response, decode_context_check_payload,
};
use schc_coreconf::rule::{
    Cda, DirectionSelector, FieldLength, FieldRef, FieldRule, MatchingOperator, Rule, RuleNature,
    TargetValue,
};
use schc_coreconf::rule_id::RuleId;
use schc_coreconf::rule_text::RuleSummary;
use schc_coreconf::selector::RuleSelector;
use schc_coreconf::service::{
    apply_target_ipatch, check_target, detail_from_snapshot, handle_target_ipatch,
    resolve_update_entry, route_datagram, ContextStatus, PatchAnswers, PatchCode, PatchFacts,
    ServiceRoute,
};
use schc_coreconf::sid::{ListKeys, ModelSids, SidItem, SidModel};
use schc_coreconf::target::byte_array;
use schc_coreconf::transaction::{ContextParticipant, TransactionState};

const TREE: &str = r#"{"ietf-schc:schc":{"rule":[
    {"rule-id-value":16,"rule-id-length":8,"rule-nature":"nature-management","entry-universal":[]},
    {"rule-id-value":20,"rule-id-length":8,"rule-nature":"nature-compression","entry-universal":[
        {"entry-index":9,"field-length":64,"target-value":[{"index":0,"value":"AAAAAAAAAAU="}]}
    ]}
]}}"#;

fn json(text: &str) -> JsonValue {
    match parse_data_command(&format!("set p {text}")) {
        Ok(DataCommand::Assign(_, value)) => value,
        other => panic!("not JSON: {other:?}"),
    }
}

fn model() -> SidModel {
    let names = [
        ("/ietf-schc:schc", 2574),
        ("/ietf-schc:schc/rule", 2575),
        ("/ietf-schc:schc/rule/rule-id-length", 2576),
        ("/ietf-schc:schc/rule/rule-id-value", 2577),
        ("/ietf-schc:schc/rule/entry-universal", 2580),
        ("/ietf-schc:schc/rule/entry-universal/entry-index", 2581),
        ("/ietf-schc:schc/rule/entry-universal/field-length", 2582),
        ("/ietf-schc:schc/rule/entry-universal/target-value", 2583),
        ("/ietf-schc:schc/rule/entry-universal/target-value/index", 2584),
        ("/ietf-schc:schc/rule/entry-universal/target-value/value", 2585),
        ("/ietf-schc:duplicate-rule", 2600),
        ("/ietf-schc:duplicate-rule/input", 2601),
        ("/ietf-schc:duplicate-rule/input/from", 2602),
        ("/ietf-schc:duplicate-rule/input/from/rule-id-length", 2603),
        ("/ietf-schc:duplicate-rule/input/from/rule-id-value", 2604),
        ("/ietf-schc:duplicate-rule/input/ipatch-sequence", 2605),
        ("/ietf-schc:duplicate-rule/input/to", 2606),
        ("/ietf-schc:duplicate-rule/input/to/rule-id-length", 2607),
        ("/ietf-schc:duplicate-rule/input/to/rule-id-value", 2608),
        ("/ietf-schc:schc/rule/entry-universal/matching-operator", 2586),
        ("/ietf-schc:schc/rule/entry-universal/comp-decomp-action", 2587),
    ];
    SidModel {
        items: names
            .iter()
            .map(|(identifier, sid)| SidItem { identifier: (*identifier).to_owned(), sid: *sid })
            .collect(),
        lists: vec![
            ListKeys { sid: 2575, keys: vec![2577, 2576] },
            ListKeys { sid: 2580, keys: vec![2581] },
            ListKeys { sid: 2583, keys: vec![2584] },
        ],
    }
}

fn rule(value: u64, nature: RuleNature, target: u8) -> Rule {
    Rule {
        id: RuleId::new(value, 8),
        nature,
        fields: vec![FieldRule {
            entry_index: 9,
            field: FieldRef::Ipv6("dev-prefix".to_owned()),
            field_position: 1,
            direction: DirectionSelector::Bidirectional,
            length: FieldLength::FixedBits(64),
            target: TargetValue::Bytes(vec![0, 0, 0, 0, 0, 0, 0, target]),
            matching: MatchingOperator::Equal,
            action: Cda::NotSent,
        }],
    }
}

fn integer(number: i128) -> CborValue {
    CborValue::Integer(number)
}

fn encoded_context() -> CborValue {
    let listed = |value: i128| {
        CborValue::Entries(vec![(integer(1), integer(8)), (integer(2), integer(value))])
    };
    CborValue::Entries(vec![(
        integer(2574),
        CborValue::Entries(vec![(
            integer(1),
            CborValue::Array(vec![listed(16), listed(20)]),
        )]),
    )])
}

fn sor() -> Vec<u8> {
    vec![
        0xa1, 0x19, 0x0a, 0x0e, 0xa1, 0x01, 0x82, 0xa2, 0x01, 0x08, 0x02, 0x10, 0xa2, 0x01, 0x08,
        0x02, 0x14,
    ]
}

fn answers(tree: &str, target: u8) -> ModelAnswers {
    ModelAnswers {
        initial_tree: Ok(json(tree)),
        encoded: Ok(encoded_context()),
        canonical_tree: Ok(json(tree)),
        rules: Ok(vec![
            rule(16, RuleNature::Management, 0),
            rule(20, RuleNature::Compression, target),
        ]),
    }
}

fn recipe(namespace: Option<DynamicRuleIdNamespace>) -> ContextRecipe {
    ContextRecipe {
        sid_json: "{}".to_owned(),
        device_id: "demo-device".to_owned(),
        profile: String::new(),
        dynamic_rule_ids: namespace,
        context_profile: None,
    }
}

fn runtime_answers() -> RuntimeAnswers {
    RuntimeAnswers {
        runtime: Ok(()),
        application_rules: Ok(vec![RuleId::new(20, 8)]),
        application_runtime: Ok(()),
    }
}

fn prepared_with(tree: &str, target: u8) -> PreparedContext {
    let loaded = LoadedContext::from_sor(&model(), &sor(), answers(tree, target)).expect("loaded");
    PreparedContext::from_loaded(recipe(None), loaded, &model(), runtime_answers())
        .expect("prepared")
}

fn prepared() -> PreparedContext {
    prepared_with(TREE, 5)
}

fn changed_tree() -> String {
    TREE.replace("AAAAAAAAAAU=", "AAAAAAAAAAY=")
}

fn snapshot() -> ContextSnapshot {
    ContextSnapshot::from_prepared(prepared(), 1)
}

#[test]
fn guard_period_accepts_schema_boundaries() {
    let period = guard_period_from_tree(&json(
        r#"{"ietf-schc:context":{"guard-period":{"ticks-duration":255,"ticks-numbers":65535}}}"#,
    ))
    .expect("guard period");
    assert_eq!(period, Some(GuardPeriod { ticks_duration: 255, ticks_numbers: 65535 }));
}

#[test]
fn guard_period_rejects_ticks_duration_above_uint8() {
    let error = guard_period_from_tree(&json(
        r#"{"ietf-schc:context":{"guard-period":{"ticks-duration":256,"ticks-numbers":0}}}"#,
    ))
    .expect_err("ticks-duration 256 must be rejected");
    assert!(error.message().contains("ticks-duration is not uint8"));
}

#[test]
fn guard_period_rejects_malformed_present_leaves() {
    let cases = [
        (r#"{"ticks-duration":null,"ticks-numbers":0}"#, "ticks-duration"),
        (r#"{"ticks-duration":"20","ticks-numbers":0}"#, "ticks-duration"),
        (r#"{"ticks-duration":-1,"ticks-numbers":0}"#, "ticks-duration"),
        (r#"{"ticks-duration":20,"ticks-numbers":null}"#, "ticks-numbers"),
        (r#"{"ticks-duration":20,"ticks-numbers":"0"}"#, "ticks-numbers"),
        (r#"{"ticks-duration":20,"ticks-numbers":-1}"#, "ticks-numbers"),
        (r#"{"ticks-duration":20,"ticks-numbers":65536}"#, "ticks-numbers"),
    ];
    for (period, leaf) in cases {
        let error = guard_period_from_tree(&json(&format!(
            r#"{{"ietf-schc:context":{{"guard-period":{period}}}}}"#
        )))
        .expect_err("malformed guard-period leaf must be rejected");
        assert!(error.message().contains(&format!("{leaf} is not")));
    }
}

#[test]
fn guard_period_rejects_non_object_container() {
    let error = guard_period_from_tree(&json(r#"{"ietf-schc:context":{"guard-period":[]}}"#))
        .expect_err("non-object guard-period must be rejected");
    assert!(error.message().contains("guard-period is not an object"));
}

#[test]
fn guard_period_without_tick_count_is_not_materialized() {
    let period = guard_period_from_tree(&json(
        r#"{"ietf-schc:context":{"guard-period":{"ticks-duration":20}}}"#,
    ))
    .expect("guard period");
    assert_eq!(period, None);
}

#[test]
fn loaded_context_uses_default_duration_when_guard_duration_is_omitted() {
    let tree = r#"{"ietf-schc:context":{"guard-period":{"ticks-numbers":10}},
        "ietf-schc:schc":{"rule":[]}}"#;
    let loaded =
        LoadedContext::from_sor(&model(), &sor(), answers(tree, 5)).expect("default duration");
    assert_eq!(
        loaded.guard_period(),
        Some(GuardPeriod { ticks_duration: 20, ticks_numbers: 10 })
    );
}

#[test]
fn fixture_loads_through_both_models_and_is_deterministic() {
    let (tree_a, sor_a) =
        canonicalize_sor(&model(), &sor(), answers(TREE, 5)).expect("canonical fixture");
    let (tree_b, sor_b) =
        canonicalize_sor(&model(), &sor(), answers(TREE, 5)).expect("canonical fixture");
    assert!(tree_a.same(&tree_b));
    assert_eq!(sor_a, sor_b);
    assert_eq!(sor_a, sor());
    let tree = tree_from_sor(&model(), &sor(), answers(TREE, 5)).expect("tree");
    assert!(tree.same(&tree_a));
    assert_eq!(
        derive_protected_management_rule_ids(&model(), &sor(), answers(TREE, 5)).expect("ids"),
        vec![RuleId::new(16, 8)]
    );
}

#[test]
fn strict_loader_rejects_trailing_value() {
    let mut bytes = sor();
    bytes.push(0);
    assert!(matches!(
        canonicalize_sor(&model(), &bytes, answers(TREE, 5)),
        Err(ContextError::Cbor(_))
    ));

    let duplicate_root = [0xa2, 0x19, 0x0a, 0x0e, 0xa0, 0x19, 0x0a, 0x0e, 0xa0];
    assert!(matches!(
        canonicalize_sor(&model(), &duplicate_root, answers(TREE, 5)),
        Err(ContextError::Cbor(_))
    ));
}

#[test]
fn loading_reports_what_each_model_refuses() {
    assert_eq!(
        check_sor(&model(), &[0xa1, 0x01, 0x02]).expect_err("root").message(),
        ContextError::Cbor("SoR root is missing SCHC SID 2574".to_owned()).message()
    );
    assert!(matches!(check_sor(&model(), &[0x01]), Err(ContextError::Cbor(_))));
    let empty = SidModel { items: Vec::new(), lists: Vec::new() };
    assert!(matches!(check_sor(&empty, &sor()), Err(ContextError::Model(_))));

    let mut refused = answers(TREE, 5);
    refused.initial_tree = Err("no tree".to_owned());
    assert!(matches!(
        LoadedContext::from_sor(&model(), &sor(), refused),
        Err(ContextError::Model(text)) if text == "no tree"
    ));
    let mut refused = answers(TREE, 5);
    refused.encoded = Err("no encoding".to_owned());
    assert!(matches!(
        LoadedContext::from_sor(&model(), &sor(), refused),
        Err(ContextError::Rustconf(text)) if text == "no encoding"
    ));
    let mut refused = answers(TREE, 5);
    refused.rules = Err("no rules".to_owned());
    assert!(matches!(
        LoadedContext::from_sor(&model(), &sor(), refused),
        Err(ContextError::Schc(text)) if text == "no rules"
    ));
    let mut refused = answers(TREE, 5);
    refused.canonical_tree = Ok(json(&changed_tree()));
    assert!(matches!(
        LoadedContext::from_sor(&model(), &sor(), refused),
        Err(ContextError::Model(text)) if text.contains("round-trip")
    ));
}

#[test]
fn normalizing_orders_every_list_and_keeps_what_it_holds() {
    let entries = |list: &str| format!(r#"{{"deep":[{{"entry-universal":[{list}]}}]}}"#);
    let ordered = |list: &str| normalize_tree(&json(&entries(list)));
    let sorted = ordered(r#"{"entry-index":2,"x":1},{"entry-index":0},{"entry-index":1}"#)
        .expect("normal form");
    assert!(sorted.same(&json(&entries(
        r#"{"entry-index":0},{"entry-index":1},{"entry-index":2,"x":1}"#
    ))));
    assert!(normalize_tree(&sorted).expect("again").same(&sorted));
    assert!(matches!(
        ordered(r#"{"entry-index":1},{"entry-index":1}"#),
        Err(ContextError::Model(text)) if text == "duplicate SCHC entry-index 1"
    ));
    assert!(matches!(
        ordered(r#"{"entry-index":1},{}"#),
        Err(ContextError::Model(text)) if text == "SCHC entry is missing numeric entry-index"
    ));
    let rules = normalize_tree(&json(
        r#"{"rule":[{"rule-id-length":8,"rule-id-value":2},{"rule-id-length":3,"rule-id-value":7},
            {"rule-id-length":8,"rule-id-value":1}],"other":[3,1,2]}"#,
    ))
    .expect("normal form");
    assert!(rules.same(&json(
        r#"{"rule":[{"rule-id-length":3,"rule-id-value":7},{"rule-id-length":8,"rule-id-value":1},
            {"rule-id-length":8,"rule-id-value":2}],"other":[3,1,2]}"#
    )));
}

#[test]
fn candidate_tree_must_be_canonical() {
    let reversed = r#"{"ietf-schc:schc":{"rule":[
        {"rule-id-value":20,"rule-id-length":8},{"rule-id-value":16,"rule-id-length":8}]}}"#;
    assert!(matches!(
        canonical_sor_from_tree(
            &model(),
            &json(reversed),
            Ok(encoded_context()),
            answers(reversed, 5)
        ),
        Err(ContextError::NonCanonicalCandidate)
    ));
    let tree = normalize_tree(&json(TREE)).expect("normal tree");
    assert_eq!(
        canonical_sor_from_tree(&model(), &tree, Ok(encoded_context()), answers(TREE, 5))
            .expect("canonical encoding"),
        sor()
    );
}

#[test]
fn normalising_twice_changes_nothing() {
    let reversed = json(
        r#"{"ietf-schc:schc":{"rule":[
            {"rule-id-value":2,"rule-id-length":9},
            {"rule-id-value":20,"rule-id-length":8},
            {"rule-id-value":16,"rule-id-length":8}]}}"#,
    );
    let once = normalize_tree(&reversed).expect("once");
    assert!(!once.same(&reversed));
    assert!(normalize_tree(&once).expect("twice").same(&once));
    assert!(normalize_tree(&json(
        r#"{"entry-universal":[{"entry-index":1},{"entry-index":1}]}"#
    ))
    .is_err());
}

#[test]
fn identity_follows_tree_and_encoding() {
    let first = digest_context(&json(TREE), &sor()).expect("digest");
    let again = digest_context(&json(TREE), &sor()).expect("digest");
    let other_tree = digest_context(&json(&changed_tree()), &sor()).expect("digest");
    let other_sor = digest_context(&json(TREE), &[0xa0]).expect("digest");
    assert_eq!(first.len(), 32);
    assert_eq!(first, again);
    assert_ne!(first, other_tree);
    assert_ne!(first, other_sor);
    assert_ne!(first, sor());
    let tag = context_tag(&first);
    assert_eq!(tag.bytes().to_vec(), first[..8].to_vec());
    assert_eq!(tag.to_hex().len(), 16);
}

#[test]
fn strict_reader_reads_one_value() {
    assert!(strict_cbor_value(&[0x18]).is_err());
    assert!(strict_cbor_value(&[0x01, 0x02]).is_err());
    assert!(strict_cbor_value(&[0xa2, 0x01, 0x02, 0x01, 0x03]).is_err());
    assert!(matches!(strict_cbor_value(&[0x18, 0x2a]), Ok(CborValue::Integer(42))));
    assert!(matches!(strict_cbor_value(&[0x42, 0x01, 0x02]), Ok(CborValue::Bytes(bytes)) if bytes == [1, 2]));
}

#[test]
fn protection_follows_policy_and_nature() {
    let rules = vec![rule(16, RuleNature::Management, 0), rule(20, RuleNature::Compression, 5)];
    let automatic =
        ProtectedRules::derive(&rules, &ProtectionPolicy::from_rule_ids(&Vec::new())).expect("auto");
    assert_eq!(automatic.ids(), vec![RuleId::new(16, 8)]);
    let explicit = ProtectionPolicy::from_rule_ids(&vec![
        RuleId::new(20, 8),
        RuleId::new(16, 8),
        RuleId::new(20, 8),
    ]);
    assert_eq!(explicit.rule_ids(), &[RuleId::new(16, 8), RuleId::new(20, 8)]);
    let both = ProtectedRules::derive(&rules, &explicit).expect("both");
    assert!(both.contains(RuleId::new(20, 8)));
    assert!(matches!(
        ProtectedRules::derive(
            &rules,
            &ProtectionPolicy::from_rule_ids(&vec![RuleId::new(99, 8)])
        ),
        Err(ContextError::MissingProtectedRule { value: 99, bit_len: 8 })
    ));
    assert!(automatic.enforce(&both).is_err());
    assert!(both.enforce(&automatic).is_err());
    assert!(automatic.enforce(&automatic.copy()).is_ok());
    let changed = vec![rule(16, RuleNature::Management, 1)];
    let candidate =
        ProtectedRules::derive(&changed, &ProtectionPolicy::from_rule_ids(&Vec::new()))
            .expect("changed");
    assert!(matches!(
        automatic.enforce(&candidate),
        Err(ContextError::ProtectedRuleChanged(_))
    ));
    assert_eq!(
        protected_management_rule_ids().map(|id| id.value()),
        [16, 17, 26, 27, 28, 29]
    );
}

#[test]
fn preparation_checks_namespace_and_runtime() {
    let loaded = || LoadedContext::from_sor(&model(), &sor(), answers(TREE, 5)).expect("loaded");
    let namespace = DynamicRuleIdNamespace {
        prefix: RuleIdSpec { value: 20, length: 8 },
        allowed_lengths: vec![10, 9],
    };
    assert!(matches!(
        PreparedContext::from_loaded(
            recipe(Some(namespace)),
            loaded(),
            &model(),
            runtime_answers()
        ),
        Err(ContextError::RuleIdTree(_))
    ));
    let namespace = DynamicRuleIdNamespace {
        prefix: RuleIdSpec { value: 1, length: 1 },
        allowed_lengths: vec![10, 9],
    };
    let kept = PreparedContext::from_loaded(
        recipe(Some(namespace)),
        loaded(),
        &model(),
        runtime_answers(),
    )
    .expect("free namespace");
    assert_eq!(kept.dynamic_rule_ids().expect("namespace").allowed_lengths, vec![9, 10]);
    let mut refused = runtime_answers();
    refused.runtime = Err("no runtime".to_owned());
    assert!(matches!(
        PreparedContext::from_loaded(recipe(None), loaded(), &model(), refused),
        Err(ContextError::Runtime(text)) if text == "no runtime"
    ));
    assert!(ContextProfile { dynamic_rule_ids: None }.validate().is_ok());
}

fn replace(active: &mut ActiveContext, candidate: PreparedContext) {
    ActiveContextBackend::new(active)
        .replace_tree(active, Ok(candidate), Ok(sor()))
        .expect("published");
}

#[test]
fn publication_advances_one_generation() {
    let mut active = ActiveContext::new(prepared());
    assert_eq!(active.generation(), 1);
    let tag = active.tag();
    assert!(active
        .validate_candidate(&prepared_with(&changed_tree(), 6), Ok(sor()))
        .is_ok());
    replace(&mut active, prepared_with(&changed_tree(), 6));
    assert_eq!(active.generation(), 2);
    assert!(!active.tag().same(tag));
    assert!(active.snapshot().contains_rule_id(RuleId::new(20, 8)));
    assert!(active.snapshot().contains_application_rule_id(RuleId::new(20, 8)));
    assert!(!active.snapshot().contains_application_rule_id(RuleId::new(16, 8)));
}

#[test]
fn stale_backend_does_not_publish() {
    let mut active = ActiveContext::new(prepared());
    let mut backend = ActiveContextBackend::new(&active);
    replace(&mut active, prepared_with(&changed_tree(), 6));
    assert!(backend.replace_tree(&mut active, Ok(prepared()), Ok(sor())).is_err());
    assert_eq!(active.generation(), 2);
    let tree = backend.read_tree(&active);
    assert!(tree.same(active.snapshot().tree()));
    assert!(backend.replace_tree(&mut active, Ok(prepared()), Ok(sor())).is_ok());
    assert_eq!(active.generation(), 3);
}

#[test]
fn only_one_preparation_is_reserved() {
    let active = ActiveContext::new(prepared());
    let mut participant = ContextParticipant::new();
    assert!(participant.prepare(&active, prepared_with(&changed_tree(), 6)).is_ok());
    assert!(matches!(participant.state, TransactionState::Prepared(_)));
    assert!(matches!(
        participant.prepare(&active, prepared()),
        Err(ContextError::PreparationBusy)
    ));
}

#[test]
fn status_reads_one_snapshot() {
    let held = snapshot();
    let status = ContextStatus::from_snapshot(&held);
    assert_eq!(status.generation, 1);
    assert_eq!(status.rule_count, 2);
    assert!(status.tag.same(held.tag()));
    assert_eq!(status_lines(&held, false), vec!["CONTEXT generation=1  rules=2".to_owned()]);
    let debug = status_lines(&held, true);
    assert_eq!(debug.len(), 2);
    assert!(debug[1].starts_with(&format!("  tag={}  digest={}", held.tag().to_hex(), held.tag().to_hex())));
}

#[test]
fn console_answers_local_commands() {
    let held = snapshot();
    let lines = |command: &str| match handle_command(command, &held, false) {
        Ok(ConsoleStep::Print { lines, result }) => (lines, result),
        other => panic!("{command}: {other:?}"),
    };
    assert_eq!(lines(""), (Vec::new(), CommandResult::Continue));
    assert_eq!(lines("quit"), (Vec::new(), CommandResult::Quit));
    assert_eq!(lines("help"), (console_help(), CommandResult::Continue));
    assert_eq!(lines("context set x").1, CommandResult::Unavailable);
    assert_eq!(
        lines("context status"),
        (vec!["CONTEXT generation=1  rules=2".to_owned()], CommandResult::Successful)
    );
    let (list, result) = lines("rule list core");
    assert_eq!(result, CommandResult::Successful);
    assert_eq!(list.len(), 2);
    assert!(list[0].contains("16/8") && list[1].contains("20/8"));
    let (detail, _) = lines("rule get core 20/8");
    assert_eq!(detail.len(), 2);
    assert!(detail[1].contains("0x0000000000000005"));
    assert_eq!(
        lines("anything else"),
        (vec!["ERROR unknown command; use help".to_owned()], CommandResult::Continue)
    );
}

#[test]
fn console_names_exchanges_and_refuses_malformed_commands() {
    let held = snapshot();
    let step = |command: &str| handle_command(command, &held, false);
    assert!(matches!(step("rule duplicate 1/2 3/4"), Ok(ConsoleStep::Duplicate)));
    assert!(matches!(step("rule update"), Ok(ConsoleStep::Update)));
    assert!(matches!(step("context check"), Ok(ConsoleStep::CheckDevice)));
    assert!(matches!(step("rule list device"), Ok(ConsoleStep::ListDevice)));
    assert!(matches!(
        step("rule get device 20/8"),
        Ok(ConsoleStep::GetDevice(RuleSelector { value: 20, bits: 8 }))
    ));
    let refusal = |command: &str| step(command).expect_err("refused");
    assert_eq!(refusal("rule list both"), "rule list target must be core or device");
    assert_eq!(refusal("rule get core"), "rule get requires selector");
    assert_eq!(refusal("rule get core 20/8 more"), "rule get accepts exactly one selector");
    assert_eq!(refusal("rule get both 20/8"), "rule get target must be core or device");
    assert!(refusal("rule get both 20").starts_with("invalid RuleID selector: "));
    assert_eq!(refusal("rule get core 21/8"), "RuleID 21/8 was not found");
}

#[test]
fn device_answers_become_lines_or_texts() {
    let summaries = vec![RuleSummary {
        id: RuleSelector { value: 20, bits: 8 },
        nature: "compression".to_owned(),
    }];
    let lines = device_list_answer(&DeviceReply::Received(summaries)).expect("lines");
    assert_eq!(lines.len(), 1);
    assert_eq!(
        device_list_answer(&DeviceReply::Exchange("gone".to_owned())).expect_err("exchange"),
        "device rule list failed: gone"
    );
    assert_eq!(
        device_get_answer(&DeviceReply::Request(InspectionError::Coap("big".to_owned())))
            .expect_err("request"),
        "device rule get request failed: management CoAP error: big"
    );
    assert_eq!(
        device_get_answer(&DeviceReply::Response(InspectionError::MissingRule {
            value: 1,
            bits: 2
        }))
        .expect_err("response"),
        "device rule get response failed: RuleID 1/2 was not found"
    );
}

#[test]
fn context_check_tells_equal_and_different_tags() {
    let core = snapshot().tag();
    let device = prepared_with(&changed_tree(), 6).tag();
    let request = context_check_request(core, 7);
    let packet = coap_lite::Packet::from_bytes(&request).expect("request");
    let equal = context_check_response(&packet.payload, core).expect("reply");
    assert!(decode_context_check_payload(&equal, core).expect("equal").equal);
    let reply = context_check_response(&packet.payload, device).expect("reply");
    let result = decode_context_check_payload(&reply, core).expect("different");
    assert!(!result.equal);
    assert!(result.device_tag.same(device));
    let own = context_check_response(&packet.payload, device).map(|mut reply| {
        reply.truncate(2);
        reply.extend_from_slice(&core.bytes());
        reply
    });
    let own = decode_context_check_payload(&own.expect("reply"), core).expect("own tag");
    assert!(own.equal && own.device_tag.same(core));
    assert_eq!(
        context_check_answer(&Ok(equal), core, false).expect("lines"),
        vec!["OK context check  equal".to_owned()]
    );
    let lines = context_check_answer(&Ok(reply), core, true).expect("lines");
    assert_eq!(lines[0], "ERROR context check  mismatch");
    assert_eq!(
        lines[1],
        format!("  core tag={}  device tag={}", core.to_hex(), device.to_hex())
    );
    assert_eq!(
        context_check_answer(&Err("lost".to_owned()), core, false).expect_err("lost"),
        "context check failed: lost"
    );
    assert!(context_check_answer(&Ok(vec![1]), core, false)
        .expect_err("length")
        .starts_with("context check response failed: "));
}

fn update_path() -> JsonValue {
    json("[2574,1,20,8,5,9,3,0,2]")
}

fn execute_rule_update<SendDevice, ApplyLocal>(
    command: &str,
    core: &mut ActiveContext,
    next_message_id: &mut u16,
    debug: bool,
    mut send_device: SendDevice,
    mut apply_local: ApplyLocal,
) -> Result<Vec<String>, String>
where
    SendDevice: FnMut(&[u8]) -> Result<u8, String>,
    ApplyLocal: FnMut(&mut ActiveContext, &[u8]) -> Result<Vec<u8>, String>,
{
    let request = read_update(command)?;
    let resolved = resolve_change(
        &request,
        core.snapshot(),
        &model(),
        &Ok(json("[0,0,0,0,0,0,0,5]")),
        &Ok(()),
    );
    let (mut stage, mut action) =
        begin_update(&resolved, core.snapshot(), next_message_id, &update_path());
    loop {
        (stage, action) = match action {
            CommandAction::Send(datagram) => {
                update_step(stage, UpdateEvent::Device(send_device(&datagram)), debug)
            }
            CommandAction::Apply(datagram) => {
                let applied = apply_local(core, &datagram);
                update_step(stage, UpdateEvent::Local(applied, core.snapshot()), debug)
            }
            CommandAction::Report(result) => return result,
        };
    }
}

fn assert_unchanged(core: &ActiveContext) {
    let before = snapshot();
    assert!(core.snapshot().tree().same(before.tree()));
    assert_eq!(core.generation(), 1);
    assert!(core.tag().same(before.tag()));
}

#[test]
fn protected_update_is_rejected_before_device_send() {
    let mut core = ActiveContext::new(prepared());
    let mut next: u16 = 1;
    let mut device_sent = false;
    let error = execute_rule_update(
        "rule update 16/8 entry=0 tv=6",
        &mut core,
        &mut next,
        false,
        |_datagram| {
            device_sent = true;
            Ok(68)
        },
        |_core, _datagram| panic!("local must not run"),
    )
    .expect_err("protected update");
    assert!(error.contains("protected RuleID"));
    assert_eq!(
        error,
        "rule update 16/8 rejected: protected RuleID; device=not-sent; local=unchanged"
    );
    assert!(!device_sent);
    assert_eq!(next, 1);
    assert_unchanged(&core);
}

#[test]
fn device_rejection_does_not_attempt_local_application() {
    for (reply, expected) in [
        (
            Ok(128),
            "rule update 20/8 entry=9 device=4.00 rejected; local=not-attempted; local=unchanged",
        ),
        (
            Err("lost".to_owned()),
            "rule update 20/8 entry=9 device exchange failed: lost; local=unchanged",
        ),
    ] {
        let mut core = ActiveContext::new(prepared());
        let mut device_sent = 0;
        let mut local_called = false;
        let error = execute_rule_update(
            "rule update 20/8 entry=9 tv=6",
            &mut core,
            &mut 1,
            false,
            |_datagram| {
                device_sent += 1;
                reply.clone()
            },
            |_core, _datagram| {
                local_called = true;
                Err("local must not run".to_owned())
            },
        )
        .expect_err("device rejection");
        assert_eq!(error, expected);
        assert_eq!(device_sent, 1);
        assert!(!local_called);
        assert_unchanged(&core);
    }
    let rule = RuleSelector { value: 20, bits: 8 };
    let error = check_device_verdict(rule, 9, &Ok(128)).expect_err("device rejection");
    assert!(error.contains("device=4.00"));
    assert!(error.contains("local=not-attempted"));
    assert!(check_device_verdict(rule, 9, &Ok(68)).is_ok());
}

fn changed_response(datagram: &[u8]) -> Vec<u8> {
    let request = coap_lite::Packet::from_bytes(datagram).expect("request");
    let mut response = coap_lite::Packet::new();
    response.header.message_id = request.header.message_id;
    response.header.code = coap_lite::MessageClass::Response(coap_lite::ResponseType::Changed);
    response.header.set_type(coap_lite::MessageType::Acknowledgement);
    response.set_token(request.get_token().to_vec());
    response.to_bytes().expect("response")
}

fn planned_update(command: &str) -> (ContextSnapshot, usize, Vec<u8>) {
    let held = snapshot();
    let request = read_update(command).expect("request");
    assert_eq!(resolve_update_entry(&held, &request).expect("entry"), 9);
    let update = resolve_change(
        &request,
        &held,
        &model(),
        &Ok(json("[0,0,0,0,0,0,0,5]")),
        &Ok(()),
    )
    .expect("resolved update");
    let mut next: u16 = 10;
    let datagram = plan_update(&update, &held, &mut next, &update_path()).expect("datagram");
    assert_eq!(next, 11);
    (held, update.entry_index, datagram)
}

#[test]
fn local_failure_after_device_success_reports_possible_divergence() {
    let mut core = ActiveContext::new(prepared());
    let mut device_sent = false;
    let error = execute_rule_update(
        "rule update 20/8 entry=9 tv=6",
        &mut core,
        &mut 1,
        false,
        |_datagram| {
            device_sent = true;
            Ok(68)
        },
        |_core, _datagram| Err("forced local failure".to_owned()),
    )
    .expect_err("local failure");
    assert!(device_sent);
    assert!(error.contains("forced local failure"));
    assert!(error.contains("possible divergence"));
    assert!(error.contains("run context check"));
    assert_unchanged(&core);
    let (held, entry, datagram) = planned_update("rule update 20/8 entry=9 tv=6");
    let rule = RuleSelector { value: 20, bits: 8 };
    let error = finish_update(
        rule,
        entry,
        &datagram,
        &Ok(changed_response(&datagram)),
        1,
        &held,
        false,
    )
    .expect_err("not published");
    assert!(error.contains("did not publish exactly once (generation=1)"));
    let error = finish_update(
        rule,
        entry,
        &datagram,
        &Ok(changed_response(&datagram)),
        u64::MAX,
        &held,
        false,
    )
    .expect_err("overflow");
    assert!(error.contains("local generation overflow"));
}

fn text_of(path: &[&str], tree: &JsonValue) -> String {
    let mut at = tree;
    for name in path {
        at = match at {
            JsonValue::Array(items) => &items[name.parse::<usize>().expect("index")],
            object => object.get(name).expect("member"),
        };
    }
    match at {
        JsonValue::Text(text) => text.clone(),
        other => panic!("no text: {other:?}"),
    }
}

fn update_instance(value: Option<JsonValue>) -> Instance {
    let sids = ModelSids::resolve(&model()).expect("SIDs");
    Instance { path: target_value_path(sids, RuleSelector { value: 20, bits: 8 }, 9, 0), value }
}

fn update_answers(value: Option<JsonValue>) -> PatchAnswers {
    PatchAnswers {
        instances: Ok(vec![update_instance(value)]),
        datastore: Ok(()),
        target_path: Ok(()),
        parsed_path: Ok(()),
        exists: Ok(true),
        current: Ok(byte_array(&[0, 0, 0, 0, 0, 0, 0, 5])),
        entry_path: Ok(()),
        entry: Ok(Some(json(r#"{"entry-index":9,"field-length":64}"#))),
        accepted: Ok(JsonValue::Text("AAAAAAAAAAY=".to_owned())),
        replacement: Ok(byte_array(&[0, 0, 0, 0, 0, 0, 0, 6])),
        written: Ok(()),
    }
}

const FACTS: PatchFacts =
    PatchFacts { management: true, root: true, instances_format: true, empty: false };

fn handle_update(active: &mut ActiveContext, datagram: &[u8]) -> Result<Vec<u8>, String> {
    let (message, route) = route_datagram(datagram).map_err(|error| error.message())?;
    assert!(matches!(route, ServiceRoute::TargetPatch));
    handle_target_ipatch(
        active,
        &model(),
        &message,
        &FACTS,
        &update_answers(Some(byte_array(&[0, 0, 0, 0, 0, 0, 0, 6]))),
        Ok(prepared_with(&changed_tree(), 6)),
        Ok(sor()),
    )
    .map_err(|failure| failure.message)?;
    Ok(changed_response(datagram))
}

#[test]
fn device_success_precedes_local_publication_and_contexts_match() {
    let mut core = ActiveContext::new(prepared());
    let mut device = ActiveContext::new(prepared());
    let tag = core.tag();
    let sequence = RefCell::new(Vec::new());
    let mut next_message_id: u16 = 10;
    let lines = execute_rule_update(
        "rule update 20/8 entry=9 tv=6 --if-match",
        &mut core,
        &mut next_message_id,
        true,
        |datagram| {
            sequence.borrow_mut().push(("device", datagram.to_vec()));
            let packet = coap_lite::Packet::from_bytes(datagram).expect("datagram");
            assert_eq!(packet.header.message_id, 10);
            assert_eq!(
                packet
                    .get_option(coap_lite::CoapOption::IfMatch)
                    .and_then(|values| values.front())
                    .cloned(),
                Some(tag.to_vec())
            );
            let response = handle_update(&mut device, datagram).expect("device response");
            let packet = coap_lite::Packet::from_bytes(&response).expect("device packet");
            assert_eq!(
                packet.header.code,
                coap_lite::MessageClass::Response(coap_lite::ResponseType::Changed)
            );
            Ok(68)
        },
        |core, datagram| {
            sequence.borrow_mut().push(("local", datagram.to_vec()));
            assert_eq!(core.generation(), 1);
            handle_update(core, datagram)
        },
    )
    .expect("update success");
    let sequence = sequence.into_inner();
    assert_eq!(sequence.iter().map(|(side, _)| *side).collect::<Vec<_>>(), ["device", "local"]);
    assert_eq!(sequence[0].1, sequence[1].1);
    assert_eq!(next_message_id, 11);
    assert_eq!(lines[0], "OK update 20/8 entry=9  device=changed  local=changed");
    assert_eq!(
        lines[1],
        format!("  response=2.04  generation=2  tag={}", core.tag().to_hex())
    );
    assert!(core.snapshot().tree().same(device.snapshot().tree()));
    assert!(core.tag().same(device.tag()));
    assert_eq!(core.generation(), 2);
    assert_eq!(device.generation(), 2);
    assert_eq!(
        text_of(
            &["ietf-schc:schc", "rule", "1", "entry-universal", "0", "target-value", "0", "value"],
            core.snapshot().tree()
        ),
        "AAAAAAAAAAY="
    );
}

#[test]
fn update_events_out_of_order_end_the_command() {
    let held = snapshot();
    let begin = || {
        let request = read_update("rule update 20/8 entry=9 tv=6").expect("request");
        let wire = Ok(json("[0,0,0,0,0,0,0,5]"));
        let resolved = resolve_change(&request, &held, &model(), &wire, &Ok(()));
        begin_update(&resolved, &held, &mut 1, &update_path())
    };
    let (stage, action) = begin();
    assert!(matches!(action, CommandAction::Send(_)));
    let (stage, action) = update_step(stage, UpdateEvent::Local(Ok(Vec::new()), &held), false);
    assert!(matches!(stage, UpdateStage::Ended));
    assert!(matches!(
        action,
        CommandAction::Report(Err(text)) if text == "rule update is out of order"
    ));
    let (stage, _) = begin();
    let (stage, action) = update_step(stage, UpdateEvent::Device(Ok(68)), false);
    assert!(matches!(action, CommandAction::Apply(_)));
    let (stage, action) = update_step(stage, UpdateEvent::Device(Ok(68)), false);
    assert!(matches!(action, CommandAction::Report(Err(_))));
    assert!(matches!(
        update_step(stage, UpdateEvent::Device(Ok(68)), false),
        (UpdateStage::Ended, CommandAction::Report(Err(_)))
    ));
}

#[test]
fn duplicate_is_applied_once_and_only_after_it_left() {
    let held = snapshot();
    let begin = || {
        let request = read_duplicate("rule duplicate 20/8 22/8").expect("request");
        begin_duplicate(&model(), &held, request, &mut 3, &Vec::new())
    };
    let (stage, action) = begin();
    let CommandAction::Send(sent) = action else {
        panic!("nothing sent");
    };
    let (stage, action) = duplicate_step(stage, DuplicateEvent::Sent(Ok(()), 1), false);
    let CommandAction::Apply(applied) = action else {
        panic!("nothing applied");
    };
    assert_eq!(applied, sent);
    let (stage, action) =
        duplicate_step(stage, DuplicateEvent::Local(Ok(None), 2, held.tag()), false);
    assert!(matches!(
        action,
        CommandAction::Report(Ok(lines))
            if lines == ["OK duplicate 20/8 -> 22/8  local=installed  remote=unacknowledged"]
    ));
    assert!(matches!(
        duplicate_step(stage, DuplicateEvent::Sent(Ok(()), 2), false),
        (DuplicateStage::Ended, CommandAction::Report(Err(_)))
    ));
    let (stage, _) = begin();
    let (stage, action) =
        duplicate_step(stage, DuplicateEvent::Sent(Err("down".to_owned()), 1), false);
    assert!(matches!(stage, DuplicateStage::Ended));
    assert!(matches!(
        action,
        CommandAction::Report(Err(text))
            if text == "duplicate 20/8 -> 22/8  remote=not-sent  local=unchanged: down"
    ));
}

#[test]
fn duplicate_commands_report_each_side() {
    assert!(read_duplicate("rule duplicate 20/8")
        .expect_err("destination")
        .ends_with("; device=not-sent; local=unchanged"));
    let request = read_duplicate("rule duplicate 20/8 22/8").expect("request");
    assert!(check_duplicate_rule(RuleId::new(29, 8)).is_ok());
    assert_eq!(
        check_duplicate_rule(RuleId::new(20, 8)).expect_err("rule"),
        "duplicate-rule selected 20/8 instead of 29/8"
    );
    assert!(check_duplicate_sent(&request, &Ok(())).is_ok());
    assert_eq!(
        check_duplicate_sent(&request, &Err("down".to_owned())).expect_err("unsent"),
        "duplicate 20/8 -> 22/8  remote=not-sent  local=unchanged: down"
    );
    let tag = snapshot().tag();
    assert_eq!(
        finish_duplicate(&request, &Ok(None), 1, 2, tag, true).expect("installed"),
        vec![
            "OK duplicate 20/8 -> 22/8  local=installed  remote=unacknowledged".to_owned(),
            format!("  generation=2  tag={}", tag.to_hex()),
        ]
    );
    assert_eq!(
        finish_duplicate(&request, &Ok(None), 2, 2, tag, false).expect("idempotent"),
        vec!["OK duplicate 20/8 -> 22/8  local=idempotent  remote=unacknowledged".to_owned()]
    );
    assert!(finish_duplicate(&request, &Ok(Some(vec![1])), 1, 1, tag, false)
        .expect_err("response")
        .contains("unexpectedly produced a response"));
    assert!(finish_duplicate(&request, &Err("bad".to_owned()), 1, 1, tag, false)
        .expect_err("failure")
        .contains("local=failed: bad; possible divergence"));
}

#[test]
fn stale_or_protected_target_is_refused() {
    let held = snapshot();
    let selector = RuleSelector { value: 20, bits: 8 };
    assert!(check_target(&held, selector, None).is_ok());
    assert!(check_target(&held, selector, Some(held.tag())).is_ok());
    let stale = check_target(&held, selector, Some(prepared_with(&changed_tree(), 6).tag()))
        .expect_err("stale");
    assert!(stale.precondition_failed);
    let protected =
        check_target(&held, RuleSelector { value: 16, bits: 8 }, None).expect_err("protected");
    assert!(!protected.precondition_failed);
    assert!(detail_from_snapshot(&held, selector).is_ok());
    assert!(ModelSids::resolve(&model()).is_ok());
}

#[test]
fn refused_patch_changes_nothing() {
    let mut active = ActiveContext::new(prepared());
    let answers = update_answers(None);
    let failure = apply_target_ipatch(
        &mut active,
        &model(),
        &FACTS,
        None,
        &answers,
        Ok(prepared()),
        Ok(sor()),
    )
    .expect_err("deletion is no target patch");
    assert_eq!(failure.code, PatchCode::BadRequest);
    assert!(!failure.message.is_empty());
    assert_eq!(active.generation(), 1);
}

#[test]
fn recipes_keep_a_normalized_profile() {
    let profile = |lengths: Vec<usize>| ContextProfile {
        dynamic_rule_ids: Some(DynamicRuleIdNamespace {
            prefix: RuleIdSpec { value: 3, length: 2 },
            allowed_lengths: lengths,
        }),
    };
    let recipe =
        ContextRecipe::with_context_profile("{}", "demo-device", "p", &profile(vec![8, 6, 8]))
            .expect("recipe");
    let kept = recipe.dynamic_rule_ids.as_ref().expect("namespace");
    assert_eq!(kept.allowed_lengths, vec![6, 8]);
    let held = recipe.context_profile.as_ref().expect("profile");
    assert_eq!(held.dynamic_rule_ids.as_ref().expect("namespace").allowed_lengths, vec![6, 8]);
    assert!(matches!(
        ContextRecipe::with_context_profile("{}", "demo-device", "p", &profile(Vec::new())),
        Err(ContextError::RuleIdTree(_))
    ));
    let plain = ContextRecipe::new("{}", "demo-device", "p");
    assert!(plain.dynamic_rule_ids.is_none() && plain.context_profile.is_none());
    assert!(!plain.same(&recipe));
    assert!(recipe.copy().same(&recipe));
}
