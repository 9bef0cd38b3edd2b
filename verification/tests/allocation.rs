//! Dynamic rule identities: specifications, namespaces and allocation.

use schc_coreconf::allocation::{
    blocked_intervals, first_free, ContextProfile, DynamicRuleIdNamespace, RuleIdSpec,
    RuleIdTreeError,
};
use schc_coreconf::rule_id::{overlaps, RuleId};

fn namespace(lengths: &[usize]) -> DynamicRuleIdNamespace {
    DynamicRuleIdNamespace {
        prefix: RuleIdSpec { value: 0, length: 1 },
        allowed_lengths: lengths.to_vec(),
    }
}

fn profile_from(json: &str) -> Result<ContextProfile, RuleIdTreeError> {
    let value: serde_json::Value = serde_json::from_str(json).expect("profile JSON");
    let namespace = &value["dynamic_rule_ids"];
    let prefix = RuleIdSpec::new(
        namespace["prefix"]["value"].as_u64().expect("value"),
        namespace["prefix"]["length"].as_u64().expect("length") as usize,
    )?;
    let allowed_lengths = namespace["allowed_lengths"]
        .as_array()
        .expect("lengths")
        .iter()
        .map(|length| length.as_u64().expect("length") as usize)
        .collect();
    Ok(ContextProfile {
        dynamic_rule_ids: Some(DynamicRuleIdNamespace { prefix, allowed_lengths }),
    })
}

#[test]
fn allocates_shortest_leaf_then_lowest_pattern() {
    let tree = namespace(&[4, 3]);
    assert_eq!(tree.allocate(&[]).unwrap(), RuleId::new(0, 3));
    assert_eq!(tree.allocate(&[RuleId::new(0, 3)]).unwrap(), RuleId::new(1, 3));
}

#[test]
fn rejects_reserved_prefix_collision() {
    let tree = namespace(&[4]);
    assert!(matches!(
        tree.allocate(&[RuleId::new(0, 1)]),
        Err(RuleIdTreeError::Collision { .. })
    ));
    assert!(matches!(
        tree.allocate(&[RuleId::new(0, 2)]),
        Err(RuleIdTreeError::Collision { .. })
    ));
}

#[test]
fn collision_names_the_first_overlapping_identity() {
    let tree = namespace(&[4]);
    let error = tree.allocate(&[RuleId::new(0, 2)]).expect_err("collision");
    assert!(matches!(error, RuleIdTreeError::Collision { value: 0, length: 2 }));
    assert_eq!(error.message(), "RuleID tree namespace overlaps existing RuleID 0/2");
    let occupied = [RuleId::new(1, 4), RuleId::new(1, 2), RuleId::new(0, 2)];
    assert!(matches!(
        tree.allocate(&occupied),
        Err(RuleIdTreeError::Collision { value: 1, length: 2 })
    ));
}

#[test]
fn free_values_lie_outside_blocked_intervals() {
    assert_eq!(first_free((0, 8), &[]), Some(0));
    assert_eq!(first_free((0, 8), &[(0, 2), (2, 3)]), Some(3));
    assert_eq!(first_free((0, 8), &[(0, 4), (1, 2), (3, 6)]), Some(6));
    assert_eq!(first_free((0, 8), &[(0, 0), (1, 4)]), Some(0));
    assert_eq!(first_free((2, 4), &[(0, 3), (1, 9)]), None);
    assert_eq!(first_free((5, 5), &[]), None);
}

#[test]
fn blocked_intervals_stay_inside_the_range() {
    let occupied = [RuleId::new(0, 2), RuleId::new(5, 3), RuleId::new(3, 2)];
    let blocked = blocked_intervals((1, 7), &occupied, 3);
    assert_eq!(blocked, vec![(1, 2), (5, 7)]);
    assert_eq!(first_free((1, 7), &blocked), Some(2));
    assert!(blocked_intervals((2, 4), &occupied, 3).is_empty());
}

#[test]
fn accepts_existing_dynamic_leaf_and_allocates_next() {
    let tree = namespace(&[4]);
    assert_eq!(tree.allocate(&[RuleId::new(0, 4)]).unwrap(), RuleId::new(1, 4));
}

#[test]
fn reports_exhaustion() {
    let tree = namespace(&[2]);
    let error = tree
        .allocate(&[
            RuleId::new(0, 2),
            RuleId::new(1, 2),
            RuleId::new(2, 2),
            RuleId::new(3, 2),
        ])
        .expect_err("exhausted");
    assert!(matches!(error, RuleIdTreeError::Exhausted));
    assert!(!error.message().is_empty());
}

#[test]
fn profile_parses_dynamic_namespace() {
    let profile = profile_from(
        r#"{
            "dynamic_rule_ids": {
                "prefix": {"value": 0, "length": 1},
                "allowed_lengths": [4]
            }
        }"#,
    )
    .expect("profile JSON");
    let profile = profile.validate().expect("valid profile");
    assert!(profile
        .dynamic_rule_ids
        .as_ref()
        .expect("dynamic namespace")
        .accepts(RuleId::new(0, 4)));
}

#[test]
fn rejects_implicit_rule_id_length() {
    assert!(matches!(
        RuleIdSpec::new(0, 0),
        Err(RuleIdTreeError::Invalid(message)) if message.contains("unsupported by this codec")
    ));
}

#[test]
fn rejects_rule_id_length_above_codec_range() {
    assert!(matches!(
        RuleIdSpec::new(0, 33),
        Err(RuleIdTreeError::Invalid(message)) if message.contains("1..=32")
    ));
}

#[test]
fn rejects_rule_id_value_above_uint32() {
    assert!(matches!(
        RuleIdSpec::new(u64::from(u32::MAX) + 1, 32),
        Err(RuleIdTreeError::Invalid(message)) if message.contains("uint32")
    ));
}

#[test]
fn rejects_rule_id_value_above_uint32_in_json() {
    assert!(profile_from(
        r#"{
            "dynamic_rule_ids": {
                "prefix": {"value": 4294967296, "length": 32},
                "allowed_lengths": [32]
            }
        }"#
    )
    .is_err());
}

#[test]
fn accepts_maximum_width_rule_id() {
    assert_eq!(
        RuleIdSpec::new(u64::from(u32::MAX), 32).expect("maximum uint32 RuleID").rule_id(),
        RuleId::new(u64::from(u32::MAX), 32)
    );
}

#[test]
fn allocates_lowest_free_leaf_independent_of_occupied_order() {
    let tree = namespace(&[8]);
    assert_eq!(
        tree.allocate(&[RuleId::new(5, 8), RuleId::new(1, 8), RuleId::new(0, 8)]).unwrap(),
        RuleId::new(2, 8)
    );
}

#[test]
fn longer_occupied_leaves_block_shorter_depth_before_next_depth() {
    let tree = namespace(&[2, 4]);
    assert_eq!(
        tree.allocate(&[RuleId::new(0, 4), RuleId::new(4, 4)]).unwrap(),
        RuleId::new(1, 4)
    );
}

#[test]
fn sparse_max_width_namespace_finishes_from_occupied_subtrees() {
    let tree = namespace(&[2, 32]);
    assert!(matches!(
        tree.allocate(&[RuleId::new(0, 2), RuleId::new(1, 2)]),
        Err(RuleIdTreeError::Exhausted)
    ));
}

#[test]
fn allocates_shortest_leaf_before_deeper_mixed_depth_leaf() {
    let tree = namespace(&[5, 3]);
    assert_eq!(tree.allocate(&[]).unwrap(), RuleId::new(0, 3));
    assert_eq!(tree.allocate(&[RuleId::new(0, 3)]).unwrap(), RuleId::new(1, 3));
}

#[test]
fn rejects_existing_rule_that_makes_dynamic_leaf_ambiguous() {
    let tree = namespace(&[4]);
    assert!(matches!(
        tree.allocate(&[RuleId::new(0, 3)]),
        Err(RuleIdTreeError::Collision { .. })
    ));
}

#[test]
fn identities_overlap_when_one_starts_the_other() {
    assert!(overlaps(RuleId::new(0b10, 2), RuleId::new(0b101, 3)));
    assert!(overlaps(RuleId::new(0b101, 3), RuleId::new(0b10, 2)));
    assert!(overlaps(RuleId::new(5, 8), RuleId::new(5, 8)));
    assert!(!overlaps(RuleId::new(0b11, 2), RuleId::new(0b101, 3)));
}

#[test]
fn namespaces_are_normalised_and_checked() {
    let tree = namespace(&[4, 2, 4]).validate().expect("valid namespace");
    assert_eq!(tree.allowed_lengths, vec![2, 4]);
    assert!(namespace(&[]).validate().is_err());
    assert_eq!(
        namespace(&[4, 33, 1]).validate().expect_err("depth").message(),
        "invalid RuleID tree configuration: dynamic RuleID length 1 is outside prefix depth 1..=32"
    );
    assert!(!tree.accepts(RuleId::new(8, 4)));
    assert!(!tree.accepts(RuleId::new(0, 3)));
    assert!(tree.accepts(RuleId::new(7, 4)));
}
