//! The management service: which request does what, and the one mutation that
//! it accepts.

use vstd::arithmetic::power2::pow2;
use vstd::prelude::*;

use crate::application_rules::bytes_view;
use crate::coap::{
    coap_read, coap_written_unlimited, fits_header, read_coap, write_coap_unlimited, Coap,
    CoapMessage, CoapOption, COAP_CONFIRMABLE, CONTENT_FORMAT, IF_MATCH, URI_PATH,
};
use crate::codec::ContextTag;
use crate::context::{
    candidate_fault, holds_id, prepared_view, published, rule_ids, ActiveContext, ContextSnapshot,
    GuardPeriod, PreparedContext, PreparedView, RecipeView, SnapshotView,
};
use crate::context_error::{ContextError, ContextFault};
use crate::error::{unexpected, Fault, InspectionError};
use crate::json::{unsigned, unsigned_member, Json, JsonValue};
use crate::leaf::{
    change_tree, changed_leaf_keeps_other_rules, changed_tree, leaf_names, resolve_leaves, siblings,
    LeafPlace,
};
use crate::number::{binary_fits_field_length, bytes_value, fits_field};
use crate::path::{
    instances_view, number_key, target_path, DuplicateLeaf, Instance, InstancePath, InstanceView,
    PathComponent, Step,
};
use crate::policy::protects;
use crate::request::{
    check_reply, content_message, context_check_response, duplicate_shape,
    is_duplicate_rule_coap_shape, option_values, schc_bytes, schc_segment, strings_of, values_of,
    COAP_DELETE, COAP_FETCH, COAP_GET, COAP_IPATCH, COAP_PATCH, COAP_POST, CONTEXT_CHECK_MARKER,
};
use crate::rule::{copy_bytes, detail_from_rule, detail_of, rules_view, RuleView};
use crate::rule_id::RuleId;
use crate::rule_text::{update_index, DetailView, RuleDetail};
use crate::selector::{selectable, selector_of, RuleSelector};
use crate::sid::{
    tree_key, tree_key_for_sid, update_sids, validate_update_model_shape, ModelSids, ModelView,
    SidModel,
};
use crate::target::{binary_bytes, binary_of, ipatch_message, tag_view};
use crate::text::{decimal, decimal_string, join, join3};
use crate::update_command::RuleUpdateRequest;

verus! {

/// The response code of a refused change.
#[derive(Debug, Clone, Copy, PartialEq, Eq, Structural)]
pub enum PatchCode {
    /// The request is malformed.
    BadRequest,
    /// The request conflicts with the context.
    Conflict,
    /// The service cannot serve any change.
    InternalServerError,
}

/// A refused change.
#[derive(Debug)]
pub struct PatchFailure {
    /// Response code.
    pub code: PatchCode,
    /// Explanation.
    pub message: String,
    /// Whether a precondition failed.
    pub precondition_failed: bool,
}

/// A refused change as a mathematical value.
pub struct Refusal {
    /// Response code.
    pub code: PatchCode,
    /// Explanation.
    pub message: Seq<char>,
    /// Whether a precondition failed.
    pub precondition_failed: bool,
}

impl View for PatchFailure {
    type V = Refusal;

    open spec fn view(&self) -> Refusal {
        Refusal {
            code: self.code,
            message: self.message@,
            precondition_failed: self.precondition_failed,
        }
    }
}

/// A malformed request.
pub open spec fn bad(message: Seq<char>) -> Refusal {
    Refusal { code: PatchCode::BadRequest, message, precondition_failed: false }
}

/// A conflict with the context.
pub open spec fn conflict(message: Seq<char>) -> Refusal {
    Refusal { code: PatchCode::Conflict, message, precondition_failed: false }
}

/// A failed precondition.
pub open spec fn precondition(message: Seq<char>) -> Refusal {
    Refusal { code: PatchCode::Conflict, message, precondition_failed: true }
}

/// A service that cannot serve any change.
pub open spec fn internal(message: Seq<char>) -> Refusal {
    Refusal { code: PatchCode::InternalServerError, message, precondition_failed: false }
}

impl PatchFailure {
    fn bad(message: &str) -> (result: Self)
        ensures
            result@ == bad(message@),
    {
        PatchFailure {
            code: PatchCode::BadRequest,
            message: message.to_owned(),
            precondition_failed: false,
        }
    }

    fn conflict(message: &str) -> (result: Self)
        ensures
            result@ == conflict(message@),
    {
        PatchFailure {
            code: PatchCode::Conflict,
            message: message.to_owned(),
            precondition_failed: false,
        }
    }

    fn precondition(message: &str) -> (result: Self)
        ensures
            result@ == precondition(message@),
    {
        PatchFailure {
            code: PatchCode::Conflict,
            message: message.to_owned(),
            precondition_failed: true,
        }
    }

    fn internal(message: &str) -> (result: Self)
        ensures
            result@ == internal(message@),
    {
        PatchFailure {
            code: PatchCode::InternalServerError,
            message: message.to_owned(),
            precondition_failed: false,
        }
    }
}

/// The precondition tag of a message.
pub open spec fn if_match_of(message: Coap) -> Result<Option<Seq<u8>>, Refusal> {
    let values = option_values(message.options, IF_MATCH);
    if values.len() == 0 {
        Ok(None)
    } else if values.len() != 1 {
        Err(bad("targeted iPATCH must contain zero or one If-Match option"@))
    } else if values[0].len() != 8 {
        Err(bad("If-Match option must contain exactly 8 bytes"@))
    } else {
        Ok(Some(values[0]))
    }
}

/// Reads the precondition tag of a message.
pub fn parse_if_match_option(message: &CoapMessage) -> (result: Result<
    Option<ContextTag>,
    PatchFailure,
>)
    ensures
        match result {
            Ok(tag) => if_match_of(message@) == Ok::<Option<Seq<u8>>, Refusal>(tag_view(tag)),
            Err(failure) => if_match_of(message@) == Err::<Option<Seq<u8>>, Refusal>(failure@),
        },
{
    let values = values_of(message, IF_MATCH);
    assert(strings_of(values@).len() == values@.len());
    if values.len() == 0 {
        return Ok(None);
    }
    if values.len() != 1 {
        return Err(
            PatchFailure::bad("targeted iPATCH must contain zero or one If-Match option"),
        );
    }
    assert(strings_of(values@)[0] == values@[0]@);
    match ContextTag::from_slice(values[0].as_slice()) {
        Some(tag) => Ok(Some(tag)),
        None => Err(PatchFailure::bad("If-Match option must contain exactly 8 bytes")),
    }
}

/// An iPATCH datagram carries the precondition that it was built with.
pub proof fn ipatch_carries_its_precondition(
    message_id: u16,
    base_tag: Option<Seq<u8>>,
    payload: Seq<u8>,
)
    requires
        base_tag matches Some(tag) ==> tag.len() == 8,
    ensures
        if_match_of(ipatch_message(message_id, base_tag, payload)) == Ok::<
            Option<Seq<u8>>,
            Refusal,
        >(base_tag),
        crate::coap::reads_back(ipatch_message(message_id, base_tag, payload)),
{
    let message = ipatch_message(message_id, base_tag, payload);
    let plain = seq![(URI_PATH, schc_segment()), (CONTENT_FORMAT, seq![142u8])];
    let options = message.options;
    let one = options.drop_last();
    let two = one.drop_last();
    reveal_with_fuel(option_values, 4);
    match base_tag {
        None => {
            assert(options =~= plain);
            assert(two =~= Seq::<(u16, Seq<u8>)>::empty());
            assert(options[0].1.len() == 4);
            assert(options[1].1.len() == 1);
        },
        Some(tag) => {
            assert(options[2] == plain[1]);
            assert(options[1] == plain[0]);
            assert(options[0] == (IF_MATCH, tag));
            assert(two =~= seq![(IF_MATCH, tag)]);
            assert(two.drop_last() =~= Seq::<(u16, Seq<u8>)>::empty());
            assert(option_values(options, IF_MATCH) =~= seq![tag]);
            assert(options[1].1.len() == 4);
            assert(options[2].1.len() == 1);
        },
    }
}

/// One change of one target: its rule, path and value.
#[derive(Debug)]
pub struct TargetPatch {
    /// Rule of the target.
    pub selector: RuleSelector,
    /// Path of the target.
    pub path: InstancePath,
    /// Index of its entry.
    pub entry_index: usize,
    /// Index of the target.
    pub target_value_index: usize,
    /// Replacement in wire representation.
    pub value: JsonValue,
}

/// A change as a mathematical value.
pub struct PatchView {
    /// Rule of the target.
    pub selector: RuleSelector,
    /// Path of the target.
    pub path: Seq<Step>,
    /// Index of its entry.
    pub entry_index: usize,
    /// Index of the target.
    pub target_value_index: usize,
    /// Replacement in wire representation.
    pub value: Json,
}

impl View for TargetPatch {
    type V = PatchView;

    open spec fn view(&self) -> PatchView {
        PatchView {
            selector: self.selector,
            path: self.path@,
            entry_index: self.entry_index,
            target_value_index: self.target_value_index,
            value: self.value@,
        }
    }
}

/// The number of a key step.
pub open spec fn key_of(step: Step, name: Seq<char>) -> Result<u64, Refusal> {
    match step {
        Step::Key(value) => match unsigned(value) {
            Some(number) => Ok(number),
            None => Err(
                bad("targeted iPATCH "@ + name + " key must be an unsigned integer"@),
            ),
        },
        Step::Delta(_) => Err(bad("targeted iPATCH is missing the "@ + name + " key"@)),
    }
}

/// The index of a key step.
pub open spec fn index_of(step: Step, name: Seq<char>) -> Result<usize, Refusal> {
    match key_of(step, name) {
        Err(refusal) => Err(refusal),
        Ok(number) => if number > usize::MAX {
            Err(bad("targeted iPATCH "@ + name + " key is out of range"@))
        } else {
            Ok(number as usize)
        },
    }
}

/// The rule of a path of nine steps.
pub open spec fn patched_rule(path: Seq<Step>, sids: ModelSids) -> Result<RuleSelector, Refusal> {
    if !(path[0] is Delta) {
        Err(bad("targeted iPATCH path is missing the SCHC root"@))
    } else if !(path[1] is Delta) {
        Err(bad("targeted iPATCH path is missing the rule list"@))
    } else if path[0] != Step::Delta(sids.root as int) || path[1] != Step::Delta(
        sids.rule - sids.root,
    ) {
        Err(bad("targeted iPATCH path is not rooted at the complete rule list"@))
    } else {
        match key_of(path[2], "RuleID value"@) {
            Err(refusal) => Err(refusal),
            Ok(value) => match key_of(path[3], "RuleID bit length"@) {
                Err(refusal) => Err(refusal),
                Ok(bits) => if bits > usize::MAX {
                    Err(bad("RuleID bit length is out of range"@))
                } else {
                    match selector_of(value, bits as usize) {
                        Err(fault) => Err(bad(fault.described())),
                        Ok(selector) => Ok(selector),
                    }
                },
            },
        }
    }
}

/// The entry and target of a path of nine steps.
pub open spec fn patched_target(path: Seq<Step>, sids: ModelSids) -> Result<
    (usize, usize),
    Refusal,
> {
    if !(path[4] is Delta) {
        Err(bad("targeted iPATCH path is missing the entry list"@))
    } else if path[4] != Step::Delta(sids.entry - sids.rule) {
        Err(bad("targeted iPATCH path is missing the canonical entry list"@))
    } else {
        match index_of(path[5], "entry index"@) {
            Err(refusal) => Err(refusal),
            Ok(entry_index) => if !(path[6] is Delta) {
                Err(bad("targeted iPATCH path is missing the target-value list"@))
            } else if path[6] != Step::Delta(sids.target - sids.entry) {
                Err(bad("targeted iPATCH path is missing the canonical target-value list"@))
            } else {
                match index_of(path[7], "target-value index"@) {
                    Err(refusal) => Err(refusal),
                    Ok(target_index) => if !(path[8] is Delta) {
                        Err(bad("targeted iPATCH path is missing the target-value leaf"@))
                    } else if path[8] != Step::Delta(sids.target_value - sids.target) {
                        Err(bad("targeted iPATCH path names an unsupported leaf"@))
                    } else {
                        Ok((entry_index, target_index))
                    },
                }
            },
        }
    }
}

/// The change that one instance asks for: a replacement of one target value by
/// its complete path.
pub open spec fn patch_of(instance: InstanceView, sids: ModelSids) -> Result<PatchView, Refusal> {
    if instance.path.len() != 9 {
        Err(
            bad(
                "targeted iPATCH path must contain the complete rule, entry, and target-value keys"@,
            ),
        )
    } else {
        match patched_rule(instance.path, sids) {
            Err(refusal) => Err(refusal),
            Ok(selector) => match patched_target(instance.path, sids) {
                Err(refusal) => Err(refusal),
                Ok((entry_index, target_value_index)) => match instance.value {
                    None => Err(bad("targeted iPATCH cannot delete the target-value leaf"@)),
                    Some(value) => Ok(
                        PatchView {
                            selector,
                            path: instance.path,
                            entry_index,
                            target_value_index,
                            value,
                        },
                    ),
                },
            },
        }
    }
}

fn patch_key_u64(component: &PathComponent, name: &str) -> (result: Result<u64, PatchFailure>)
    ensures
        match result {
            Ok(number) => key_of(component@, name@) == Ok::<u64, Refusal>(number),
            Err(failure) => key_of(component@, name@) == Err::<u64, Refusal>(failure@),
        },
{
    match component {
        PathComponent::SidDelta(_) => Err(
            PatchFailure::bad(join3("targeted iPATCH is missing the ", name, " key").as_str()),
        ),
        PathComponent::KeyValue(value) => match value.as_u64() {
            Some(number) => Ok(number),
            None => Err(
                PatchFailure::bad(
                    join3("targeted iPATCH ", name, " key must be an unsigned integer").as_str(),
                ),
            ),
        },
    }
}

fn patch_key_usize(component: &PathComponent, name: &str) -> (result: Result<usize, PatchFailure>)
    ensures
        match result {
            Ok(number) => index_of(component@, name@) == Ok::<usize, Refusal>(number),
            Err(failure) => index_of(component@, name@) == Err::<usize, Refusal>(failure@),
        },
{
    let number: u64 = patch_key_u64(component, name)?;
    if number > usize::MAX as u64 {
        return Err(
            PatchFailure::bad(join3("targeted iPATCH ", name, " key is out of range").as_str()),
        );
    }
    Ok(number as usize)
}

fn is_delta(component: &PathComponent) -> (result: bool)
    ensures
        result == (component@ is Delta),
{
    match component {
        PathComponent::SidDelta(_) => true,
        PathComponent::KeyValue(_) => false,
    }
}

fn is_step(component: &PathComponent, from: i64, to: i64) -> (result: bool)
    requires
        from >= 0,
        to >= 0,
    ensures
        result == (component@ == Step::Delta(to - from)),
{
    match component {
        PathComponent::SidDelta(delta) => *delta == to - from,
        PathComponent::KeyValue(_) => false,
    }
}

fn rule_from_path(path: &InstancePath, sids: &ModelSids) -> (result: Result<
    RuleSelector,
    PatchFailure,
>)
    requires
        path@.len() == 9,
        sids.well_formed(),
    ensures
        match result {
            Ok(selector) => patched_rule(path@, *sids) == Ok::<RuleSelector, Refusal>(selector),
            Err(failure) => patched_rule(path@, *sids) == Err::<RuleSelector, Refusal>(failure@),
        },
{
    let components = &path.components;
    assert(components@.len() == 9);
    if !is_delta(&components[0]) {
        return Err(PatchFailure::bad("targeted iPATCH path is missing the SCHC root"));
    }
    if !is_delta(&components[1]) {
        return Err(PatchFailure::bad("targeted iPATCH path is missing the rule list"));
    }
    if !is_step(&components[0], 0, sids.root) || !is_step(&components[1], sids.root, sids.rule) {
        return Err(
            PatchFailure::bad("targeted iPATCH path is not rooted at the complete rule list"),
        );
    }
    let value: u64 = patch_key_u64(&components[2], "RuleID value")?;
    let bits: u64 = patch_key_u64(&components[3], "RuleID bit length")?;
    if bits > usize::MAX as u64 {
        return Err(PatchFailure::bad("RuleID bit length is out of range"));
    }
    match RuleSelector::new(value, bits as usize) {
        Ok(selector) => Ok(selector),
        Err(error) => Err(PatchFailure::bad(error.message().as_str())),
    }
}

fn target_from_path(path: &InstancePath, sids: &ModelSids) -> (result: Result<
    (usize, usize),
    PatchFailure,
>)
    requires
        path@.len() == 9,
        sids.well_formed(),
    ensures
        match result {
            Ok(found) => patched_target(path@, *sids) == Ok::<(usize, usize), Refusal>(found),
            Err(failure) => patched_target(path@, *sids) == Err::<(usize, usize), Refusal>(
                failure@,
            ),
        },
{
    let components = &path.components;
    assert(components@.len() == 9);
    if !is_delta(&components[4]) {
        return Err(PatchFailure::bad("targeted iPATCH path is missing the entry list"));
    }
    if !is_step(&components[4], sids.rule, sids.entry) {
        return Err(
            PatchFailure::bad("targeted iPATCH path is missing the canonical entry list"),
        );
    }
    let entry_index: usize = patch_key_usize(&components[5], "entry index")?;
    if !is_delta(&components[6]) {
        return Err(PatchFailure::bad("targeted iPATCH path is missing the target-value list"));
    }
    if !is_step(&components[6], sids.entry, sids.target) {
        return Err(
            PatchFailure::bad("targeted iPATCH path is missing the canonical target-value list"),
        );
    }
    let target_index: usize = patch_key_usize(&components[7], "target-value index")?;
    if !is_delta(&components[8]) {
        return Err(PatchFailure::bad("targeted iPATCH path is missing the target-value leaf"));
    }
    if !is_step(&components[8], sids.target, sids.target_value) {
        return Err(PatchFailure::bad("targeted iPATCH path names an unsupported leaf"));
    }
    Ok((entry_index, target_index))
}

/// Reads the change that one instance asks for.
pub fn target_patch_from_instance(instance: &Instance, sids: ModelSids) -> (result: Result<
    TargetPatch,
    PatchFailure,
>)
    requires
        sids.well_formed(),
    ensures
        match result {
            Ok(patch) => patch_of(instance@, sids) == Ok::<PatchView, Refusal>(patch@),
            Err(failure) => patch_of(instance@, sids) == Err::<PatchView, Refusal>(failure@),
        },
{
    if instance.path.components.len() != 9 {
        return Err(
            PatchFailure::bad(
                "targeted iPATCH path must contain the complete rule, entry, and target-value keys",
            ),
        );
    }
    let selector = rule_from_path(&instance.path, &sids)?;
    let (entry_index, target_value_index) = target_from_path(&instance.path, &sids)?;
    match &instance.value {
        None => Err(PatchFailure::bad("targeted iPATCH cannot delete the target-value leaf")),
        Some(value) => Ok(
            TargetPatch {
                selector,
                path: instance.path.copy(),
                entry_index,
                target_value_index,
                value: value.copy(),
            },
        ),
    }
}

/// A path that is accepted is the canonical path of the target that was read
/// from it.
pub proof fn accepted_patch_path_is_canonical(instance: InstanceView, sids: ModelSids)
    requires
        patch_of(instance, sids) is Ok,
    ensures
        ({
            let patch = patch_of(instance, sids)->Ok_0;
            instance.path == target_path(
                sids,
                patch.selector,
                patch.entry_index as int,
                patch.target_value_index as int,
            )
        }),
{
    let path = instance.path;
    let patch = patch_of(instance, sids)->Ok_0;
    assert(path =~= target_path(
        sids,
        patch.selector,
        patch.entry_index as int,
        patch.target_value_index as int,
    ));
}

/// The path that an update is built with is accepted and leads to the same
/// rule, entry and target.
pub proof fn update_path_is_accepted(
    sids: ModelSids,
    rule: RuleSelector,
    entry_index: usize,
    target_index: usize,
    value: Json,
)
    requires
        selectable(rule.value as nat, rule.bits as nat),
    ensures
        ({
            let path = target_path(sids, rule, entry_index as int, target_index as int);
            patch_of((InstanceView { path, value: Some(value) }), sids) == Ok::<PatchView, Refusal>(
                PatchView {
                    selector: rule,
                    path,
                    entry_index,
                    target_value_index: target_index,
                    value,
                },
            )
        }),
{
    let path = target_path(sids, rule, entry_index as int, target_index as int);
    assert(path[2] == number_key(rule.value as int));
    assert(path[3] == number_key(rule.bits as int));
    assert(path[5] == number_key(entry_index as int));
    assert(path[7] == number_key(target_index as int));
}

/// What a request for a targeted change says about itself.
#[derive(Debug)]
pub struct PatchFacts {
    /// Whether it addresses the management interface.
    pub management: bool,
    /// Whether it addresses the root.
    pub root: bool,
    /// Whether its content format is that of instance sequences.
    pub instances_format: bool,
    /// Whether its payload is empty.
    pub empty: bool,
}

/// What the model libraries answered while a change was prepared.
#[derive(Debug)]
pub struct PatchAnswers {
    /// The instances of the payload.
    pub instances: Result<Vec<Instance>, String>,
    /// Whether a datastore accepts the active tree.
    pub datastore: Result<(), String>,
    /// Whether the target path has a textual form.
    pub target_path: Result<(), String>,
    /// Whether that form can be read.
    pub parsed_path: Result<(), String>,
    /// Whether the target exists.
    pub exists: Result<bool, String>,
    /// The current value as the model writes it.
    pub current: Result<JsonValue, String>,
    /// Whether the entry path has a textual form.
    pub entry_path: Result<(), String>,
    /// The entry, when it exists.
    pub entry: Result<Option<JsonValue>, String>,
    /// The replacement by identifiers, as the tree holds it.
    pub accepted: Result<JsonValue, String>,
    /// The replacement as the model writes it.
    pub replacement: Result<JsonValue, String>,
    /// Whether the datastore accepted the replacement.
    pub written: Result<(), String>,
}

/// The error of a request that is no targeted change.
pub open spec fn facts_fault(facts: PatchFacts) -> Option<Refusal> {
    if !facts.management || !facts.root {
        Some(bad("targeted iPATCH must address the management root"@))
    } else if !facts.instances_format {
        Some(
            bad("targeted iPATCH requires content format 142 (yang-instances+cbor-seq)"@),
        )
    } else if facts.empty {
        Some(bad("targeted iPATCH payload must contain one replacement"@))
    } else {
        None
    }
}

/// The change that a payload asks for.
pub open spec fn requested_patch(
    facts: PatchFacts,
    model: ModelView,
    instances: Result<Seq<InstanceView>, Seq<char>>,
) -> Result<(ModelSids, PatchView), Refusal> {
    match facts_fault(facts) {
        Some(refusal) => Err(refusal),
        None => match update_sids(model) {
            Err(fault) => Err(internal(fault.described())),
            Ok(sids) => match instances {
                Err(text) => Err(bad("invalid iPATCH payload: "@ + text)),
                Ok(list) => if list.len() != 1 {
                    Err(
                        bad(
                            "targeted iPATCH must contain exactly one operation, got "@ + decimal(
                                list.len(),
                            ),
                        ),
                    )
                } else {
                    match patch_of(list[0], sids) {
                        Err(refusal) => Err(refusal),
                        Ok(patch) => Ok((sids, patch)),
                    }
                },
            },
        },
    }
}

/// The instances of an answer, or its error text.
pub open spec fn decoded_view(answer: Result<Vec<Instance>, String>) -> Result<
    Seq<InstanceView>,
    Seq<char>,
> {
    match answer {
        Ok(list) => Ok(instances_view(list@)),
        Err(text) => Err(text@),
    }
}

/// Reads the change that a request asks for.
pub fn read_target_patch(
    facts: &PatchFacts,
    model: &SidModel,
    instances: &Result<Vec<Instance>, String>,
) -> (result: Result<(ModelSids, TargetPatch), PatchFailure>)
    requires
        model@.well_formed(),
    ensures
        match result {
            Ok((sids, patch)) => requested_patch(*facts, model@, decoded_view(*instances)) == Ok::<
                (ModelSids, PatchView),
                Refusal,
            >((sids, patch@)) && sids.well_formed(),
            Err(failure) => requested_patch(*facts, model@, decoded_view(*instances)) == Err::<
                (ModelSids, PatchView),
                Refusal,
            >(failure@),
        },
{
    if !facts.management || !facts.root {
        return Err(PatchFailure::bad("targeted iPATCH must address the management root"));
    }
    if !facts.instances_format {
        return Err(
            PatchFailure::bad(
                "targeted iPATCH requires content format 142 (yang-instances+cbor-seq)",
            ),
        );
    }
    if facts.empty {
        return Err(PatchFailure::bad("targeted iPATCH payload must contain one replacement"));
    }
    let sids = match validate_update_model_shape(model) {
        Ok(sids) => sids,
        Err(error) => {
            return Err(PatchFailure::internal(error.message().as_str()));
        },
    };
    let list = match instances {
        Ok(list) => list,
        Err(text) => {
            return Err(
                PatchFailure::bad(join("invalid iPATCH payload: ", text.as_str()).as_str()),
            );
        },
    };
    if list.len() != 1 {
        return Err(
            PatchFailure::bad(
                join(
                    "targeted iPATCH must contain exactly one operation, got ",
                    decimal_string(list.len() as u64).as_str(),
                ).as_str(),
            ),
        );
    }
    assert(instances_view(list@)[0] == list@[0]@);
    let patch = target_patch_from_instance(&list[0], sids)?;
    Ok((sids, patch))
}

/// Why the active context refuses to change a rule.
pub open spec fn target_fault(
    snapshot: SnapshotView,
    selector: RuleSelector,
    if_match: Option<Seq<u8>>,
) -> Option<Refusal> {
    if if_match matches Some(tag) && tag != snapshot.data.tag {
        Some(precondition("If-Match context tag does not match the current context"@))
    } else if protects(snapshot.data.protected, selector.id()) {
        Some(conflict("RuleID "@ + selector.spelled() + " is protected and immutable"@))
    } else if !holds_id(rule_ids(snapshot.data.rules), selector.id()) {
        Some(conflict("RuleID "@ + selector.spelled() + " does not exist"@))
    } else {
        None
    }
}

/// Checks that the active context lets a rule change.
pub fn check_target(
    snapshot: &ContextSnapshot,
    selector: RuleSelector,
    if_match: Option<ContextTag>,
) -> (result: Result<(), PatchFailure>)
    ensures
        match result {
            Ok(_) => target_fault(snapshot@, selector, tag_view(if_match)) is None,
            Err(failure) => target_fault(snapshot@, selector, tag_view(if_match)) == Some(failure@),
        },
{
    if let Some(tag) = if_match {
        if !tag.same(snapshot.data.tag) {
            return Err(
                PatchFailure::precondition(
                    "If-Match context tag does not match the current context",
                ),
            );
        }
    }
    let rule_id = selector.rule_id();
    if snapshot.data.protected.contains(rule_id) {
        return Err(
            PatchFailure::conflict(
                join3(
                    "RuleID ",
                    selector.to_text().as_str(),
                    " is protected and immutable",
                ).as_str(),
            ),
        );
    }
    if !snapshot.contains_rule_id(rule_id) {
        return Err(
            PatchFailure::conflict(
                join3("RuleID ", selector.to_text().as_str(), " does not exist").as_str(),
            ),
        );
    }
    Ok(())
}

/// Why a step of the model libraries refuses a change.
pub open spec fn step_fault(answer: Result<(), String>) -> Option<Refusal> {
    match answer {
        Ok(_) => None,
        Err(text) => Some(conflict(text@)),
    }
}

fn check_step(answer: &Result<(), String>) -> (result: Result<(), PatchFailure>)
    ensures
        match result {
            Ok(_) => step_fault(*answer) is None,
            Err(failure) => step_fault(*answer) == Some(failure@),
        },
{
    match answer {
        Ok(_) => Ok(()),
        Err(text) => Err(PatchFailure::conflict(text.as_str())),
    }
}

/// The bytes of a value as the model writes it.
pub open spec fn wire_bytes(answer: Result<JsonValue, String>) -> Result<Seq<u8>, Refusal> {
    match answer {
        Err(text) => Err(conflict(text@)),
        Ok(value) => match binary_of(value@) {
            Err(fault) => Err(conflict(fault.described())),
            Ok(bytes) => Ok(bytes),
        },
    }
}

fn read_wire(answer: &Result<JsonValue, String>) -> (result: Result<Vec<u8>, PatchFailure>)
    ensures
        match result {
            Ok(bytes) => wire_bytes(*answer) == Ok::<Seq<u8>, Refusal>(bytes@),
            Err(failure) => wire_bytes(*answer) == Err::<Seq<u8>, Refusal>(failure@),
        },
{
    match answer {
        Err(text) => Err(PatchFailure::conflict(text.as_str())),
        Ok(value) => match binary_bytes(value) {
            Ok(bytes) => Ok(bytes),
            Err(error) => Err(PatchFailure::conflict(error.message().as_str())),
        },
    }
}

/// The current value of the target and the length of its field.
pub open spec fn current_target(model: ModelView, sids: ModelSids, answers: PatchAnswers) -> Result<
    (Seq<u8>, u64),
    Refusal,
> {
    if answers.datastore is Err {
        Err(
            conflict(
                "candidate datastore rejected the active tree: "@ + answers.datastore->Err_0@,
            ),
        )
    } else if step_fault(answers.target_path) is Some {
        Err(step_fault(answers.target_path)->0)
    } else if step_fault(answers.parsed_path) is Some {
        Err(step_fault(answers.parsed_path)->0)
    } else {
        match answers.exists {
            Err(text) => Err(conflict(text@)),
            Ok(false) => Err(conflict("target-value leaf does not exist"@)),
            Ok(true) => match wire_bytes(answers.current) {
                Err(refusal) => Err(refusal),
                Ok(current) => if step_fault(answers.entry_path) is Some {
                    Err(step_fault(answers.entry_path)->0)
                } else {
                    match answers.entry {
                        Err(text) => Err(conflict(text@)),
                        Ok(None) => Err(conflict("target entry does not exist"@)),
                        Ok(Some(entry)) => match tree_key(model, sids.field_length) {
                            Err(fault) => Err(conflict(fault.described())),
                            Ok(name) => match unsigned_member(entry@, name) {
                                None => Err(
                                    conflict("target entry has no numeric field-length"@),
                                ),
                                Some(field_length) => if !fits_field(
                                    current,
                                    field_length as nat,
                                ) {
                                    Err(
                                        conflict(
                                            "existing target value does not fit field length "@
                                                + decimal(field_length as nat),
                                        ),
                                    )
                                } else {
                                    Ok((current, field_length))
                                },
                            },
                        },
                    }
                },
            },
        }
    }
}

fn read_current(model: &SidModel, sids: &ModelSids, answers: &PatchAnswers) -> (result: Result<
    (Vec<u8>, u64),
    PatchFailure,
>)
    ensures
        match result {
            Ok((current, field_length)) => current_target(model@, *sids, *answers) == Ok::<
                (Seq<u8>, u64),
                Refusal,
            >((current@, field_length)),
            Err(failure) => current_target(model@, *sids, *answers) == Err::<
                (Seq<u8>, u64),
                Refusal,
            >(failure@),
        },
{
    if let Err(text) = &answers.datastore {
        return Err(
            PatchFailure::conflict(
                join("candidate datastore rejected the active tree: ", text.as_str()).as_str(),
            ),
        );
    }
    check_step(&answers.target_path)?;
    check_step(&answers.parsed_path)?;
    match &answers.exists {
        Err(text) => {
            return Err(PatchFailure::conflict(text.as_str()));
        },
        Ok(present) => {
            if !*present {
                return Err(PatchFailure::conflict("target-value leaf does not exist"));
            }
        },
    }
    let current = read_wire(&answers.current)?;
    check_step(&answers.entry_path)?;
    let entry = match &answers.entry {
        Err(text) => {
            return Err(PatchFailure::conflict(text.as_str()));
        },
        Ok(None) => {
            return Err(PatchFailure::conflict("target entry does not exist"));
        },
        Ok(Some(entry)) => entry,
    };
    let name = match tree_key_for_sid(model, sids.field_length) {
        Ok(name) => name,
        Err(error) => {
            return Err(PatchFailure::conflict(error.message().as_str()));
        },
    };
    let field_length: u64 = match entry.get_u64(name.as_str()) {
        Some(field_length) => field_length,
        None => {
            return Err(PatchFailure::conflict("target entry has no numeric field-length"));
        },
    };
    if !binary_fits_field_length(current.as_slice(), field_length) {
        return Err(
            PatchFailure::conflict(
                join(
                    "existing target value does not fit field length ",
                    decimal_string(field_length).as_str(),
                ).as_str(),
            ),
        );
    }
    Ok((current, field_length))
}

/// Why a replacement is refused for a current value and field length.
pub open spec fn replacement_fault(
    current: Seq<u8>,
    field_length: u64,
    answers: PatchAnswers,
) -> Option<Refusal> {
    if answers.accepted is Err {
        Some(conflict(answers.accepted->Err_0@))
    } else {
        match wire_bytes(answers.replacement) {
            Err(refusal) => Some(refusal),
            Ok(bytes) => if bytes.len() != current.len() {
                Some(
                    conflict(
                        "target-value replacement has "@ + decimal(bytes.len())
                            + " bytes, expected "@ + decimal(current.len()),
                    ),
                )
            } else if !fits_field(bytes, field_length as nat) {
                Some(
                    conflict(
                        "target-value replacement does not fit field length "@ + decimal(
                            field_length as nat,
                        ),
                    ),
                )
            } else {
                step_fault(answers.written)
            },
        }
    }
}

fn check_replacement(current: &[u8], field_length: u64, answers: &PatchAnswers) -> (result: Result<
    (),
    PatchFailure,
>)
    ensures
        match result {
            Ok(_) => replacement_fault(current@, field_length, *answers) is None,
            Err(failure) => replacement_fault(current@, field_length, *answers) == Some(failure@),
        },
{
    if let Err(text) = &answers.accepted {
        return Err(PatchFailure::conflict(text.as_str()));
    }
    let replacement = read_wire(&answers.replacement)?;
    if replacement.len() != current.len() {
        let head = join3(
            "target-value replacement has ",
            decimal_string(replacement.len() as u64).as_str(),
            " bytes, expected ",
        );
        return Err(
            PatchFailure::conflict(
                join(head.as_str(), decimal_string(current.len() as u64).as_str()).as_str(),
            ),
        );
    }
    if !binary_fits_field_length(replacement.as_slice(), field_length) {
        return Err(
            PatchFailure::conflict(
                join(
                    "target-value replacement does not fit field length ",
                    decimal_string(field_length).as_str(),
                ).as_str(),
            ),
        );
    }
    check_step(&answers.written)
}

/// The leaf that a change is about.
pub open spec fn patch_place(patch: PatchView) -> LeafPlace {
    LeafPlace {
        rule: patch.selector,
        entry_index: patch.entry_index as u64,
        leaf: DuplicateLeaf::Target,
        target_index: patch.target_value_index as u64,
    }
}

/// The active tree with the requested value at the requested leaf.
pub open spec fn requested_tree(
    tree: Json,
    model: ModelView,
    sids: ModelSids,
    patch: PatchView,
    answers: PatchAnswers,
) -> Result<Json, Refusal> {
    match leaf_names(model, sids) {
        Err(fault) => Err(conflict(fault.described())),
        Ok(names) => Ok(changed_tree(tree, names, patch_place(patch), answers.accepted->Ok_0@)),
    }
}

fn request_tree(
    tree: &JsonValue,
    model: &SidModel,
    sids: &ModelSids,
    patch: &TargetPatch,
    value: &JsonValue,
    Ghost(answers): Ghost<PatchAnswers>,
) -> (result: Result<JsonValue, PatchFailure>)
    requires
        answers.accepted matches Ok(accepted) && accepted@ == value@,
    ensures
        match result {
            Ok(changed) => requested_tree(tree@, model@, *sids, patch@, answers) == Ok::<
                Json,
                Refusal,
            >(changed@),
            Err(failure) => requested_tree(tree@, model@, *sids, patch@, answers) == Err::<
                Json,
                Refusal,
            >(failure@),
        },
{
    let names = match resolve_leaves(model, sids) {
        Ok(names) => names,
        Err(error) => {
            return Err(PatchFailure::conflict(error.message().as_str()));
        },
    };
    let place = LeafPlace {
        rule: patch.selector,
        entry_index: patch.entry_index as u64,
        leaf: DuplicateLeaf::Target,
        target_index: patch.target_value_index as u64,
    };
    Ok(change_tree(tree, &names, place, value))
}

/// Why a targeted change is refused.
pub open spec fn patch_refusal(
    recipe: RecipeView,
    snapshot: SnapshotView,
    model: ModelView,
    facts: PatchFacts,
    if_match: Option<Seq<u8>>,
    answers: PatchAnswers,
    prepared: Result<PreparedView, ContextFault>,
    canonical: Result<Seq<u8>, ContextFault>,
) -> Option<Refusal> {
    match requested_patch(facts, model, decoded_view(answers.instances)) {
        Err(refusal) => Some(refusal),
        Ok((sids, patch)) => match target_fault(snapshot, patch.selector, if_match) {
            Some(refusal) => Some(refusal),
            None => match current_target(model, sids, answers) {
                Err(refusal) => Some(refusal),
                Ok((current, field_length)) => match replacement_fault(
                    current,
                    field_length,
                    answers,
                ) {
                    Some(refusal) => Some(refusal),
                    None => match prepared {
                        Err(fault) => Some(conflict(fault.described())),
                        Ok(candidate) => match requested_tree(
                            snapshot.data.tree,
                            model,
                            sids,
                            patch,
                            answers,
                        ) {
                            Err(refusal) => Some(refusal),
                            Ok(tree) => if candidate.data.tree != tree {
                                Some(conflict(ContextFault::NonCanonicalCandidate.described()))
                            } else {
                                match candidate_fault(recipe, snapshot, candidate, canonical) {
                                    Some(fault) => Some(conflict(fault.described())),
                                    None => None,
                                }
                            },
                        },
                    },
                },
            },
        },
    }
}

/// Applies one targeted change: it is published only when the detached
/// candidate passes every check, and a refusal changes nothing.
///
/// `answers` are those of the model libraries, `prepared` is the candidate
/// that they led to, and `canonical` the canonical encoding of its tree. A
/// candidate whose tree is not the active one with the requested value at the
/// requested leaf is refused.
pub fn apply_target_ipatch(
    active: &mut ActiveContext,
    model: &SidModel,
    facts: &PatchFacts,
    if_match: Option<ContextTag>,
    answers: &PatchAnswers,
    prepared: Result<PreparedContext, ContextError>,
    canonical: Result<Vec<u8>, ContextError>,
) -> (result: Result<(), PatchFailure>)
    requires
        model@.well_formed(),
        old(active).snapshot@.generation < u64::MAX,
    ensures
        ({
            let refusal = patch_refusal(
                old(active).recipe@,
                old(active).snapshot@,
                model@,
                *facts,
                tag_view(if_match),
                *answers,
                prepared_view(prepared),
                bytes_view(canonical),
            );
            match result {
                Ok(_) => {
                    &&& refusal is None
                    &&& prepared matches Ok(candidate)
                    &&& final(active).snapshot@ == published(
                        candidate@,
                        (old(active).snapshot@.generation + 1) as u64,
                    )
                    &&& final(active).recipe@ == old(active).recipe@
                },
                Err(failure) => {
                    &&& refusal == Some(failure@)
                    &&& final(active).snapshot@ == old(active).snapshot@
                    &&& final(active).recipe@ == old(active).recipe@
                },
            }
        }),
{
    let (sids, patch) = read_target_patch(facts, model, &answers.instances)?;
    check_target(&active.snapshot, patch.selector, if_match)?;
    let (current, field_length) = read_current(model, &sids, answers)?;
    check_replacement(current.as_slice(), field_length, answers)?;
    let candidate = match prepared {
        Ok(candidate) => candidate,
        Err(error) => {
            return Err(PatchFailure::conflict(error.message().as_str()));
        },
    };
    if let Ok(value) = &answers.accepted {
        let tree = request_tree(
            &active.snapshot.data.tree,
            model,
            &sids,
            &patch,
            value,
            Ghost(*answers),
        )?;
        if !candidate.data.tree.same(&tree) {
            return Err(
                PatchFailure::conflict(ContextError::NonCanonicalCandidate.message().as_str()),
            );
        }
    }
    if let Err(error) = active.validate_candidate(&candidate, canonical) {
        return Err(PatchFailure::conflict(error.message().as_str()));
    }
    active.publish(candidate);
    Ok(())
}

/// An accepted change puts the requested value at the requested leaf of the
/// active tree and keeps every other rule.
pub proof fn accepted_change_is_the_requested_one(
    recipe: RecipeView,
    snapshot: SnapshotView,
    model: ModelView,
    facts: PatchFacts,
    if_match: Option<Seq<u8>>,
    answers: PatchAnswers,
    prepared: Result<PreparedView, ContextFault>,
    canonical: Result<Seq<u8>, ContextFault>,
)
    requires
        patch_refusal(
            recipe,
            snapshot,
            model,
            facts,
            if_match,
            answers,
            prepared,
            canonical,
        ) is None,
    ensures
        ({
            let (sids, patch) = requested_patch(
                facts,
                model,
                decoded_view(answers.instances),
            )->Ok_0;
            let names = leaf_names(model, sids)->Ok_0;
            let tree = prepared->Ok_0.data.tree;
            &&& prepared is Ok
            &&& tree == changed_tree(
                snapshot.data.tree,
                names,
                patch_place(patch),
                answers.accepted->Ok_0@,
            )
            &&& siblings(snapshot.data.tree, tree, names.rules, patch.selector)
        }),
{
    let (sids, patch) = requested_patch(facts, model, decoded_view(answers.instances))->Ok_0;
    changed_leaf_keeps_other_rules(
        snapshot.data.tree,
        leaf_names(model, sids)->Ok_0,
        patch_place(patch),
        answers.accepted->Ok_0@,
    );
}

/// Why a targeted iPATCH message is refused, on the active context.
pub open spec fn message_refusal(
    recipe: RecipeView,
    snapshot: SnapshotView,
    model: ModelView,
    message: Coap,
    facts: PatchFacts,
    answers: PatchAnswers,
    prepared: Result<PreparedView, ContextFault>,
    canonical: Result<Seq<u8>, ContextFault>,
) -> Option<Refusal> {
    match if_match_of(message) {
        Err(refusal) => Some(refusal),
        Ok(if_match) => patch_refusal(
            recipe,
            snapshot,
            model,
            facts,
            if_match,
            answers,
            prepared,
            canonical,
        ),
    }
}

/// Carries out one targeted iPATCH message: reads its precondition, checks the
/// change, and publishes the candidate or changes nothing.
pub fn handle_target_ipatch(
    active: &mut ActiveContext,
    model: &SidModel,
    message: &CoapMessage,
    facts: &PatchFacts,
    answers: &PatchAnswers,
    prepared: Result<PreparedContext, ContextError>,
    canonical: Result<Vec<u8>, ContextError>,
) -> (result: Result<(), PatchFailure>)
    requires
        model@.well_formed(),
        old(active).snapshot@.generation < u64::MAX,
    ensures
        ({
            let refusal = message_refusal(
                old(active).recipe@,
                old(active).snapshot@,
                model@,
                message@,
                *facts,
                *answers,
                prepared_view(prepared),
                bytes_view(canonical),
            );
            match result {
                Ok(_) => {
                    &&& refusal is None
                    &&& prepared matches Ok(candidate)
                    &&& final(active).snapshot@ == published(
                        candidate@,
                        (old(active).snapshot@.generation + 1) as u64,
                    )
                    &&& final(active).recipe@ == old(active).recipe@
                },
                Err(failure) => {
                    &&& refusal == Some(failure@)
                    &&& final(active).snapshot@ == old(active).snapshot@
                    &&& final(active).recipe@ == old(active).recipe@
                },
            }
        }),
{
    let if_match = parse_if_match_option(message)?;
    apply_target_ipatch(active, model, facts, if_match, answers, prepared, canonical)
}

/// What answers a context check: the payload of the reply, or why the request
/// is malformed.
pub open spec fn check_answer(payload: Seq<u8>, device_tag: Seq<u8>) -> Result<Seq<u8>, Refusal> {
    match check_reply(payload, device_tag) {
        Some(reply) => Ok(reply),
        None => Err(bad("context check payload must contain marker and eight-byte tag"@)),
    }
}

/// Answers a context check from the active snapshot.
pub fn handle_context_check(message: &CoapMessage, snapshot: &ContextSnapshot) -> (result: Result<
    Vec<u8>,
    PatchFailure,
>)
    ensures
        match result {
            Ok(reply) => check_answer(message@.payload, snapshot@.data.tag) == Ok::<
                Seq<u8>,
                Refusal,
            >(reply@),
            Err(failure) => check_answer(message@.payload, snapshot@.data.tag) == Err::<
                Seq<u8>,
                Refusal,
            >(failure@),
        },
{
    match context_check_response(message.payload.as_slice(), snapshot.data.tag) {
        Some(reply) => Ok(reply),
        None => Err(
            PatchFailure::bad("context check payload must contain marker and eight-byte tag"),
        ),
    }
}

/// A change that names another context's tag is refused, whatever else it
/// asks for, and a protected rule is never changed.
pub proof fn stale_or_protected_change_is_refused(
    recipe: RecipeView,
    snapshot: SnapshotView,
    model: ModelView,
    facts: PatchFacts,
    if_match: Option<Seq<u8>>,
    answers: PatchAnswers,
    prepared: Result<PreparedView, ContextFault>,
    canonical: Result<Seq<u8>, ContextFault>,
)
    requires
        requested_patch(facts, model, decoded_view(answers.instances)) matches Ok((_, patch)) ==> (
        protects(snapshot.data.protected, patch.selector.id()) || (if_match matches Some(tag)
            && tag != snapshot.data.tag)),
    ensures
        patch_refusal(
            recipe,
            snapshot,
            model,
            facts,
            if_match,
            answers,
            prepared,
            canonical,
        ) is Some,
{
}

/// What a datagram asks of the service.
#[derive(Debug, Clone, Copy, PartialEq, Eq, Structural)]
pub enum ServiceRoute {
    /// A one-way duplicate-rule operation.
    Duplicate,
    /// A targeted change.
    TargetPatch,
    /// A method that the service does not allow.
    NotAllowed,
    /// A resource that the service does not have.
    NotFound,
    /// A context check.
    ContextCheck,
    /// An ordinary inspection request.
    Inspect,
}

/// Whether a message addresses the management resource.
pub open spec fn addresses_schc(message: Coap) -> bool {
    let segments = option_values(message.options, URI_PATH);
    segments.len() > 0 && forall|i: int|
        0 <= i < segments.len() ==> #[trigger] segments[i] == schc_segment()
}

/// What a message asks of the service.
pub open spec fn route_of(message: Coap) -> ServiceRoute {
    if duplicate_shape(message) {
        ServiceRoute::Duplicate
    } else if message.code == COAP_IPATCH {
        if message.payload.len() == 0 && option_values(message.options, CONTENT_FORMAT).len() == 0
            && option_values(message.options, IF_MATCH).len() == 0 {
            ServiceRoute::NotAllowed
        } else {
            ServiceRoute::TargetPatch
        }
    } else if message.code != COAP_GET && message.code != COAP_FETCH {
        ServiceRoute::NotAllowed
    } else if !addresses_schc(message) {
        ServiceRoute::NotFound
    } else if message.code == COAP_FETCH && message.payload.len() > 0 && message.payload[0]
        == CONTEXT_CHECK_MARKER {
        ServiceRoute::ContextCheck
    } else {
        ServiceRoute::Inspect
    }
}

fn reaches_schc(message: &CoapMessage) -> (result: bool)
    ensures
        result == addresses_schc(message@),
{
    let segments = values_of(message, URI_PATH);
    let ghost view = option_values(message@.options, URI_PATH);
    assert(strings_of(segments@).len() == segments@.len());
    if segments.len() == 0 {
        return false;
    }
    let name = schc_bytes();
    let mut index: usize = 0;
    while index < segments.len()
        invariant
            index <= segments@.len(),
            strings_of(segments@) == view,
            name@ == schc_segment(),
            forall|i: int| 0 <= i < index ==> #[trigger] view[i] == schc_segment(),
            view == option_values(message@.options, URI_PATH),
            segments@.len() > 0,
        decreases segments.len() - index,
    {
        assert(view[index as int] == segments@[index as int]@);
        if !crate::cbor::same_bytes(segments[index].as_slice(), name.as_slice()) {
            return false;
        }
        index += 1;
    }
    true
}

/// Returns what a message asks of the service.
pub fn route_message(message: &CoapMessage) -> (result: ServiceRoute)
    ensures
        result == route_of(message@),
{
    if is_duplicate_rule_coap_shape(message) {
        return ServiceRoute::Duplicate;
    }
    if message.code == COAP_IPATCH {
        let formats = values_of(message, CONTENT_FORMAT);
        let preconditions = values_of(message, IF_MATCH);
        assert(strings_of(formats@).len() == formats@.len());
        assert(strings_of(preconditions@).len() == preconditions@.len());
        if message.payload.len() == 0 && formats.len() == 0 && preconditions.len() == 0 {
            return ServiceRoute::NotAllowed;
        }
        return ServiceRoute::TargetPatch;
    }
    if message.code != COAP_GET && message.code != COAP_FETCH {
        return ServiceRoute::NotAllowed;
    }
    if !reaches_schc(message) {
        return ServiceRoute::NotFound;
    }
    if message.code == COAP_FETCH && message.payload.len() > 0 && message.payload[0]
        == CONTEXT_CHECK_MARKER {
        return ServiceRoute::ContextCheck;
    }
    ServiceRoute::Inspect
}

/// How a datagram that expects a response is routed; what the codec's own
/// error says is left open.
pub open spec fn datagram_route(datagram: Seq<u8>, outcome: Result<ServiceRoute, Fault>) -> bool {
    match coap_read(datagram) {
        None => outcome matches Err(Fault::Coap(_)),
        Some(message) => if duplicate_shape(message) {
            outcome == Err::<ServiceRoute, Fault>(
                Fault::UnexpectedResponse(
                    "duplicate-rule NON POST must use handle_datagram_no_response"@,
                ),
            )
        } else {
            outcome == Ok::<ServiceRoute, Fault>(route_of(message))
        },
    }
}

/// Reads a datagram that expects a response and decides what it asks for.
pub fn route_datagram(datagram: &[u8]) -> (result: Result<
    (CoapMessage, ServiceRoute),
    InspectionError,
>)
    ensures
        match result {
            Ok((message, route)) => coap_read(datagram@) == Some(message@) && datagram_route(
                datagram@,
                Ok(route),
            ),
            Err(error) => datagram_route(datagram@, Err(error@)),
        },
{
    let message = match read_coap(datagram) {
        Ok(message) => message,
        Err(text) => {
            return Err(InspectionError::Coap(text));
        },
    };
    let route = route_message(&message);
    if is_duplicate_rule_coap_shape(&message) {
        return Err(unexpected("duplicate-rule NON POST must use handle_datagram_no_response"));
    }
    Ok((message, route))
}

/// Every mutation except the targeted change and the duplicate operation is
/// refused before anything else is looked at.
pub proof fn other_mutations_are_not_allowed(message: Coap)
    requires
        !duplicate_shape(message),
        message.code == COAP_PATCH || message.code == COAP_POST || message.code == COAP_DELETE,
    ensures
        route_of(message) == ServiceRoute::NotAllowed,
{
}

/// A context-check request is routed to the context check.
pub proof fn context_check_request_is_routed(tag: Seq<u8>, message_id: u16)
    ensures
        route_of(crate::request::check_message(tag, message_id)) == ServiceRoute::ContextCheck,
{
    let message = crate::request::check_message(tag, message_id);
    let options = message.options;
    assert(options =~= seq![(URI_PATH, schc_segment())]);
    assert(options.drop_last() =~= Seq::<(u16, Seq<u8>)>::empty());
    reveal_with_fuel(option_values, 2);
    assert(option_values(options, URI_PATH) =~= seq![schc_segment()]);
    assert(message.payload[0] == CONTEXT_CHECK_MARKER);
}

/// An update that the core sends is routed to the targeted change.
pub proof fn update_is_routed_to_the_targeted_change(
    message_id: u16,
    base_tag: Option<Seq<u8>>,
    payload: Seq<u8>,
)
    ensures
        route_of(ipatch_message(message_id, base_tag, payload)) == ServiceRoute::TargetPatch,
{
    let message = ipatch_message(message_id, base_tag, payload);
    let options = message.options;
    let last = options.len() - 1;
    assert(options[last] == (CONTENT_FORMAT, seq![142u8]));
    assert(options.last() == options[last]);
    assert(option_values(options, CONTENT_FORMAT).len() > 0);
}

/// A request for rules is routed to inspection, since no encoded path begins
/// with the marker of a context check.
pub proof fn rule_request_is_routed_to_inspection(message_id: u16, payload: Seq<u8>)
    requires
        payload.len() > 0 ==> payload[0] != CONTEXT_CHECK_MARKER,
    ensures
        route_of(content_message(COAP_FETCH, COAP_CONFIRMABLE, message_id, 141, payload))
            == ServiceRoute::Inspect,
{
    let message = content_message(COAP_FETCH, COAP_CONFIRMABLE, message_id, 141, payload);
    let options = message.options;
    assert(options =~= seq![(URI_PATH, schc_segment()), (CONTENT_FORMAT, seq![141u8])]);
    assert(options.drop_last() =~= seq![(URI_PATH, schc_segment())]);
    assert(options.drop_last().drop_last() =~= Seq::<(u16, Seq<u8>)>::empty());
    reveal_with_fuel(option_values, 3);
    assert(option_values(options, URI_PATH) =~= seq![schc_segment()]);
}

/// Options without those of a number.
pub open spec fn without_option(options: Seq<(u16, Seq<u8>)>, number: u16) -> Seq<(u16, Seq<u8>)>
    decreases options.len(),
{
    if options.len() == 0 {
        Seq::empty()
    } else if options.last().0 == number {
        without_option(options.drop_last(), number)
    } else {
        without_option(options.drop_last(), number).push(options.last())
    }
}

/// The response that is sent for a built response: without its content format,
/// and with another code when a precondition failed.
pub open spec fn sent_response(response: Coap, precondition_failed: bool) -> Coap {
    Coap {
        code: if precondition_failed {
            140
        } else {
            response.code
        },
        options: without_option(response.options, CONTENT_FORMAT),
        ..response
    }
}

/// Writes a built response without its content format, which the management
/// rules do not describe.
pub fn finish_response(response: CoapMessage, precondition_failed: bool) -> (result: Vec<u8>)
    requires
        fits_header(response@),
    ensures
        result@ == coap_written_unlimited(sent_response(response@, precondition_failed)),
{
    let ghost given = response@;
    let ghost view = crate::coap::options_view(response.options@);
    let mut options: Vec<CoapOption> = Vec::new();
    let mut index: usize = 0;
    proof {
        assert(crate::coap::options_view(options@) =~= without_option(
            view.take(0),
            CONTENT_FORMAT,
        ));
    }
    while index < response.options.len()
        invariant
            index <= response.options@.len(),
            view == crate::coap::options_view(response.options@),
            crate::coap::options_view(options@) == without_option(
                view.take(index as int),
                CONTENT_FORMAT,
            ),
        decreases response.options.len() - index,
    {
        proof {
            assert(view.take(index + 1).drop_last() =~= view.take(index as int));
            assert(view.take(index + 1).last() == view[index as int]);
        }
        if response.options[index].number != CONTENT_FORMAT {
            let ghost before = crate::coap::options_view(options@);
            let value = copy_bytes(response.options[index].value.as_slice());
            options.push(CoapOption::new(response.options[index].number, value));
            assert(crate::coap::options_view(options@) =~= before.push(view[index as int]));
        }
        index += 1;
    }
    assert(view.take(view.len() as int) =~= view);
    let code: u8 = if precondition_failed {
        140
    } else {
        response.code
    };
    let message = CoapMessage {
        version: response.version,
        message_type: response.message_type,
        code,
        message_id: response.message_id,
        token: response.token,
        options,
        payload: response.payload,
    };
    assert(message@ == sent_response(given, precondition_failed));
    write_coap_unlimited(&message)
}

/// One consistent active-context status view.
#[derive(Debug, Clone, Copy)]
pub struct ContextStatus {
    /// Publication generation.
    pub generation: u64,
    /// Compact context tag.
    pub tag: ContextTag,
    /// Number of loaded rules.
    pub rule_count: usize,
    /// Context-level management guard period, when configured.
    pub guard_period: Option<GuardPeriod>,
}

impl ContextStatus {
    /// Reads all fields from one immutable snapshot.
    pub fn from_snapshot(snapshot: &ContextSnapshot) -> (result: Self)
        ensures
            result.generation == snapshot@.generation,
            result.tag@ == snapshot@.data.tag,
            result.rule_count == snapshot@.data.rules.len(),
            result.guard_period == snapshot@.data.guard_period,
    {
        ContextStatus {
            generation: snapshot.generation,
            tag: snapshot.data.tag,
            rule_count: snapshot.data.rules.len(),
            guard_period: snapshot.data.guard_period,
        }
    }
}

/// How many rules have an identity.
pub open spec fn rules_matching(rules: Seq<RuleView>, id: RuleId) -> Seq<RuleView>
    decreases rules.len(),
{
    if rules.len() == 0 {
        Seq::empty()
    } else if rules.last().id == id {
        rules_matching(rules.drop_last(), id).push(rules.last())
    } else {
        rules_matching(rules.drop_last(), id)
    }
}

/// The one rule that a selector names in a context.
pub open spec fn selected_detail(rules: Seq<RuleView>, selector: RuleSelector) -> Result<
    DetailView,
    Fault,
> {
    let found = rules_matching(rules, selector.id());
    if found.len() == 0 {
        Err(Fault::MissingRule(selector.value, selector.bits))
    } else if found.len() > 1 {
        Err(Fault::AmbiguousRule(selector.value, selector.bits, 2))
    } else {
        Ok(detail_of(found[0]))
    }
}

/// Returns one complete rule from an immutable active snapshot.
pub fn detail_from_snapshot(snapshot: &ContextSnapshot, selector: RuleSelector) -> (result: Result<
    RuleDetail,
    InspectionError,
>)
    ensures
        match result {
            Ok(detail) => selected_detail(snapshot@.data.rules, selector) == Ok::<
                DetailView,
                Fault,
            >(detail@),
            Err(error) => selected_detail(snapshot@.data.rules, selector) == Err::<
                DetailView,
                Fault,
            >(error@),
        },
{
    let rules = &snapshot.data.rules;
    let ghost view = rules_view(rules@);
    let id = selector.rule_id();
    let mut count: usize = 0;
    let mut at: usize = 0;
    let mut index: usize = 0;
    while index < rules.len()
        invariant
            index <= rules@.len(),
            count <= index,
            view == rules_view(rules@),
            count == rules_matching(view.take(index as int), id).len(),
            count > 0 ==> at < index && rules_matching(view.take(index as int), id)[0]
                == rules@[at as int]@,
        decreases rules.len() - index,
    {
        proof {
            assert(view.take(index + 1).drop_last() =~= view.take(index as int));
            assert(view.take(index + 1).last() == view[index as int]);
        }
        if rules[index].id == id {
            if count == 0 {
                at = index;
            }
            count += 1;
        }
        index += 1;
    }
    assert(view.take(view.len() as int) =~= view);
    if count == 0 {
        return Err(InspectionError::MissingRule { value: selector.value, bits: selector.bits });
    }
    if count > 1 {
        return Err(
            InspectionError::AmbiguousRule {
                value: selector.value,
                bits: selector.bits,
                matches: 2,
            },
        );
    }
    Ok(detail_from_rule(&rules[at]))
}

/// Resolves a parsed update request against the rule of a snapshot.
pub fn resolve_update_entry(snapshot: &ContextSnapshot, request: &RuleUpdateRequest) -> (result:
    Result<usize, InspectionError>)
    ensures
        ({
            let outcome = match selected_detail(snapshot@.data.rules, request@.rule) {
                Err(fault) => Err::<usize, Fault>(fault),
                Ok(detail) => update_index(request@, detail),
            };
            match result {
                Ok(index) => outcome == Ok::<usize, Fault>(index),
                Err(error) => outcome == Err::<usize, Fault>(error@),
            }
        }),
{
    let detail = detail_from_snapshot(snapshot, request.rule)?;
    request.resolve_entry_index(&detail)
}

/// What each method asks of the service: a POST that is no duplicate
/// operation, a DELETE and a PATCH are not allowed; an iPATCH is a targeted
/// change unless it holds nothing at all; a GET or FETCH of another resource
/// finds nothing; a FETCH that begins with the byte 0xC6 is a context check;
/// and every other GET or FETCH is an inspection.
pub proof fn methods_are_routed_by_their_codes(message: Coap)
    requires
        !duplicate_shape(message),
    ensures
        ({
            let paths = option_values(message.options, 11);
            let resource = paths.len() > 0 && forall|i: int|
                0 <= i < paths.len() ==> #[trigger] paths[i] == seq![
                    115u8,
                    99u8,
                    104u8,
                    99u8,
                ];
            let bare = message.payload.len() == 0 && option_values(message.options, 12).len() == 0
                && option_values(message.options, 1).len() == 0;
            let check = message.payload.len() > 0 && message.payload[0] == 0xC6;
            let route = route_of(message);
            &&& message.code == 2 || message.code == 3 || message.code == 4 || message.code == 6
                ==> route == ServiceRoute::NotAllowed
            &&& message.code == 7 && bare ==> route == ServiceRoute::NotAllowed
            &&& message.code == 7 && !bare ==> route == ServiceRoute::TargetPatch
            &&& (message.code == 1 || message.code == 5) && !resource ==> route
                == ServiceRoute::NotFound
            &&& message.code == 5 && resource && check ==> route == ServiceRoute::ContextCheck
            &&& message.code == 5 && resource && !check ==> route == ServiceRoute::Inspect
            &&& message.code == 1 && resource ==> route == ServiceRoute::Inspect
            &&& route == ServiceRoute::ContextCheck || route == ServiceRoute::Inspect || route
                == ServiceRoute::NotFound ==> message.code == 1 || message.code == 5
        }),
        route_of(message) != ServiceRoute::Duplicate,
{
    assert(schc_segment() == seq![115u8, 99u8, 104u8, 99u8]);
}

/// Which change of a rule the active context lets pass: one whose precondition
/// is absent or the tag of the context, of a rule that is not protected and
/// that the context holds. A wrong tag is reported first and as a failed
/// precondition; the other refusals are conflicts.
pub proof fn change_needs_the_tag_and_an_unprotected_rule(
    snapshot: SnapshotView,
    selector: RuleSelector,
    if_match: Option<Seq<u8>>,
)
    ensures
        ({
            let id = RuleId { value: selector.value, bit_len: selector.bits };
            let current = if_match is None || if_match->0 == snapshot.data.tag;
            let fault = target_fault(snapshot, selector, if_match);
            &&& fault is None <==> current && !protects(snapshot.data.protected, id) && holds_id(
                rule_ids(snapshot.data.rules),
                id,
            )
            &&& !current ==> (fault->0).precondition_failed && (fault->0).code
                == PatchCode::Conflict
            &&& current && fault is Some ==> !(fault->0).precondition_failed && (fault->0).code
                == PatchCode::Conflict
        }),
{
}

/// The precondition of a message is its single If-Match option, number one, of
/// eight bytes; without one there is no precondition, and several or one of
/// another length are a bad request.
pub proof fn precondition_is_the_single_if_match_option(message: Coap)
    ensures
        ({
            let values = option_values(message.options, 1);
            let outcome = if_match_of(message);
            &&& values.len() == 0 ==> outcome == Ok::<Option<Seq<u8>>, Refusal>(None)
            &&& values.len() == 1 && values[0].len() == 8 ==> outcome == Ok::<
                Option<Seq<u8>>,
                Refusal,
            >(Some(values[0]))
            &&& values.len() > 1 || (values.len() == 1 && values[0].len() != 8) ==> (outcome
                matches Err(refusal) && refusal.code == PatchCode::BadRequest
                && !refusal.precondition_failed)
        }),
{
}

proof fn lemma_without_option(options: Seq<(u16, Seq<u8>)>, number: u16)
    ensures
        forall|i: int|
            #![trigger without_option(options, number)[i]]
            0 <= i < without_option(options, number).len() ==> without_option(
                options,
                number,
            )[i].0 != number,
        forall|other: u16|
            other != number ==> #[trigger] option_values(without_option(options, number), other)
                == option_values(options, other),
        option_values(without_option(options, number), number).len() == 0,
    decreases options.len(),
{
    if options.len() > 0 {
        let before = options.drop_last();
        lemma_without_option(before, number);
        let kept = without_option(before, number);
        assert forall|other: u16| other != number implies #[trigger] option_values(
            without_option(options, number),
            other,
        ) == option_values(options, other) by {
            assert(option_values(kept, other) == option_values(before, other));
            if options.last().0 != number {
                assert(kept.push(options.last()).drop_last() =~= kept);
            }
        }
        if options.last().0 != number {
            assert(kept.push(options.last()).drop_last() =~= kept);
            assert(without_option(options, number) == kept.push(options.last()));
            assert forall|i: int|
                #![trigger without_option(options, number)[i]]
                0 <= i < without_option(options, number).len() implies without_option(
                options,
                number,
            )[i].0 != number by {
                if i < kept.len() {
                    assert(without_option(options, number)[i] == kept[i]);
                }
            }
        }
    }
}

/// The response that is sent keeps everything of the built response but its
/// content format, option twelve; the values of every other option stay. Its
/// code becomes 140, precondition failed, exactly where a precondition failed.
pub proof fn sent_response_leaves_out_only_the_content_format(
    response: Coap,
    precondition_failed: bool,
    number: u16,
)
    ensures
        ({
            let sent = sent_response(response, precondition_failed);
            &&& precondition_failed ==> sent.code == 140
            &&& !precondition_failed ==> sent.code == response.code
            &&& sent.version == response.version
            &&& sent.message_type == response.message_type
            &&& sent.message_id == response.message_id
            &&& sent.token == response.token
            &&& sent.payload == response.payload
            &&& option_values(sent.options, 12).len() == 0
            &&& number != 12 ==> option_values(sent.options, number) == option_values(
                response.options,
                number,
            )
        }),
{
    lemma_without_option(response.options, CONTENT_FORMAT);
}

proof fn lemma_rules_matching(rules: Seq<RuleView>, id: RuleId) -> (places: Seq<int>)
    ensures
        places.len() == rules_matching(rules, id).len(),
        forall|k: int|
            #![trigger places[k]]
            0 <= k < places.len() ==> 0 <= places[k] < rules.len() && rules[places[k]].id == id
                && rules_matching(rules, id)[k] == rules[places[k]],
        forall|k: int, l: int|
            #![trigger places[k], places[l]]
            0 <= k < l < places.len() ==> places[k] < places[l],
        forall|i: int|
            #![trigger rules[i]]
            0 <= i < rules.len() && rules[i].id == id ==> exists|k: int|
                #![trigger places[k]]
                0 <= k < places.len() && places[k] == i,
    decreases rules.len(),
{
    if rules.len() == 0 {
        Seq::empty()
    } else {
        let before = rules.drop_last();
        let held = lemma_rules_matching(before, id);
        let last = rules.len() - 1;
        let places = if rules[last].id == id {
            held.push(last)
        } else {
            held
        };
        assert forall|i: int|
            #![trigger rules[i]]
            0 <= i < rules.len() && rules[i].id == id implies exists|k: int|
            #![trigger places[k]]
            0 <= k < places.len() && places[k] == i by {
            if i < last {
                assert(before[i] == rules[i]);
                let k = choose|k: int| #![trigger held[k]] 0 <= k < held.len() && held[k] == i;
                assert(places[k] == i);
            } else {
                assert(places[held.len() as int] == last);
            }
        }
        assert forall|k: int| #![trigger places[k]] 0 <= k < places.len() implies 0 <= places[k]
            < rules.len() && rules[places[k]].id == id && rules_matching(rules, id)[k]
            == rules[places[k]] by {
            if k < held.len() {
                assert(places[k] == held[k]);
                assert(before[held[k]] == rules[held[k]]);
            }
        }
        places
    }
}

/// The rule that a selector names is the only rule of the context with its
/// value and bit length; where no rule has them it is missing, and where two
/// have them it is ambiguous.
pub proof fn selected_rule_is_the_only_one(
    rules: Seq<RuleView>,
    selector: RuleSelector,
    first: int,
    second: int,
)
    requires
        0 <= first < rules.len(),
        0 <= second < rules.len(),
        first != second,
    ensures
        ({
            let outcome = selected_detail(rules, selector);
            let named = |rule: RuleView|
                rule.id.value == selector.value && rule.id.bit_len == selector.bits;
            &&& outcome matches Ok(detail) ==> exists|i: int|
                #![trigger rules[i]]
                0 <= i < rules.len() && named(rules[i]) && detail == detail_of(rules[i])
            &&& named(rules[first]) && named(rules[second]) ==> outcome == Err::<
                DetailView,
                Fault,
            >(Fault::AmbiguousRule(selector.value, selector.bits, 2))
            &&& named(rules[first]) && outcome is Ok ==> outcome->Ok_0 == detail_of(rules[first])
            &&& named(rules[first]) ==> !(outcome matches Err(Fault::MissingRule(_, _)))
            &&& outcome matches Err(Fault::MissingRule(value, bits)) ==> value == selector.value
                && bits == selector.bits && !named(rules[first])
        }),
{
    let id = selector.id();
    let places = lemma_rules_matching(rules, id);
    let found = rules_matching(rules, id);
    let named = |rule: RuleView|
        rule.id.value == selector.value && rule.id.bit_len == selector.bits;
    assert forall|rule: RuleView| #[trigger] named(rule) <==> rule.id == id by {}
    if named(rules[first]) {
        let k = choose|k: int| #![trigger places[k]] 0 <= k < places.len() && places[k] == first;
        assert(found.len() > 0);
        if named(rules[second]) {
            let l = choose|l: int|
                #![trigger places[l]]
                0 <= l < places.len() && places[l] == second;
            assert(k != l);
        }
    }
    if found.len() == 1 {
        assert(places[0] == places[0]);
        assert(named(rules[places[0]]));
    }
}

/// A targeted change has to address the root of the management interface with
/// instances of content format 142 and a payload, in that order of refusals.
pub proof fn targeted_change_has_its_form(facts: PatchFacts)
    ensures
        facts_fault(facts) is None <==> facts.management && facts.root && facts.instances_format
            && !facts.empty,
        facts_fault(facts) matches Some(refusal) ==> refusal.code == PatchCode::BadRequest
            && !refusal.precondition_failed,
{
}

/// A replacement is accepted only where it has as many bytes as the current
/// value and its number fits the length of the field in bits.
pub proof fn accepted_replacement_fits(current: Seq<u8>, field_length: u64, answers: PatchAnswers)
    requires
        replacement_fault(current, field_length, answers) is None,
    ensures
        answers.accepted is Ok,
        answers.replacement is Ok,
        binary_of(answers.replacement->Ok_0@) is Ok,
        ({
            let bytes = binary_of(answers.replacement->Ok_0@)->Ok_0;
            &&& bytes.len() == current.len()
            &&& 0 < field_length <= 8 * bytes.len()
            &&& bytes_value(bytes) < pow2(field_length as nat)
        }),
        answers.written is Ok,
{
}

/// A change is refused for its precondition option where that cannot be read,
/// and otherwise for what the precondition, the change and the prepared context
/// give.
pub proof fn change_is_refused_for_its_precondition_first(
    recipe: RecipeView,
    snapshot: SnapshotView,
    model: ModelView,
    message: Coap,
    facts: PatchFacts,
    answers: PatchAnswers,
    prepared: Result<PreparedView, ContextFault>,
    canonical: Result<Seq<u8>, ContextFault>,
)
    ensures
        if_match_of(message) is Err ==> message_refusal(
            recipe,
            snapshot,
            model,
            message,
            facts,
            answers,
            prepared,
            canonical,
        ) == Some(if_match_of(message)->Err_0),
        if_match_of(message) is Ok ==> message_refusal(
            recipe,
            snapshot,
            model,
            message,
            facts,
            answers,
            prepared,
            canonical,
        ) == patch_refusal(
            recipe,
            snapshot,
            model,
            facts,
            if_match_of(message)->Ok_0,
            answers,
            prepared,
            canonical,
        ),
{
}

/// A check is answered exactly when its payload has nine bytes: a marker and a
/// tag of eight.
pub proof fn check_is_answered_when_it_has_its_form(payload: Seq<u8>, device_tag: Seq<u8>)
    ensures
        check_answer(payload, device_tag) is Ok <==> payload.len() == 9,
        check_answer(payload, device_tag) is Ok ==> check_reply(payload, device_tag) == Some(
            check_answer(payload, device_tag)->Ok_0,
        ),
{
}

/// A datagram is routed where it is a message, and a message that expects no
/// answer is refused here.
pub proof fn one_way_datagram_is_not_answered(
    datagram: Seq<u8>,
    outcome: Result<ServiceRoute, Fault>,
)
    requires
        datagram_route(datagram, outcome),
    ensures
        outcome is Ok <==> coap_read(datagram) is Some && !duplicate_shape(coap_read(datagram)->0),
        outcome is Ok ==> outcome->Ok_0 == route_of(coap_read(datagram)->0),
{
}

/// A change is read exactly from a complete path with a value.
pub proof fn change_is_read_from_a_complete_path(instance: InstanceView, sids: ModelSids)
    ensures
        patch_of(instance, sids) is Ok <==> instance.path.len() == 9 && patched_rule(
            instance.path,
            sids,
        ) is Ok && patched_target(instance.path, sids) is Ok && instance.value is Some,
{
}

/// A rule that alone has the selected value and bit length is found.
pub proof fn single_rule_is_found(rules: Seq<RuleView>, selector: RuleSelector, at: int)
    requires
        0 <= at < rules.len(),
        rules[at].id.value == selector.value,
        rules[at].id.bit_len == selector.bits,
        forall|i: int|
            0 <= i < rules.len() && i != at ==> (#[trigger] rules[i]).id.value != selector.value
                || rules[i].id.bit_len != selector.bits,
    ensures
        selected_detail(rules, selector) == Ok::<DetailView, Fault>(detail_of(rules[at])),
{
    lemma_single_match(rules, selector.id(), at);
}

proof fn lemma_no_match(rules: Seq<RuleView>, id: RuleId)
    requires
        forall|i: int| 0 <= i < rules.len() ==> (#[trigger] rules[i]).id != id,
    ensures
        rules_matching(rules, id).len() == 0,
    decreases rules.len(),
{
    if rules.len() > 0 {
        assert(rules[rules.len() - 1].id != id);
        assert forall|i: int| 0 <= i < rules.drop_last().len() implies (
        #[trigger] rules.drop_last()[i]).id != id by {
            assert(rules.drop_last()[i] == rules[i]);
        }
        lemma_no_match(rules.drop_last(), id);
    }
}

proof fn lemma_single_match(rules: Seq<RuleView>, id: RuleId, at: int)
    requires
        0 <= at < rules.len(),
        rules[at].id == id,
        forall|i: int| 0 <= i < rules.len() && i != at ==> (#[trigger] rules[i]).id != id,
    ensures
        rules_matching(rules, id).len() == 1,
        rules_matching(rules, id)[0] == rules[at],
    decreases rules.len(),
{
    let front = rules.drop_last();
    assert forall|i: int| 0 <= i < front.len() && i != at implies (#[trigger] front[i]).id
        != id by {
        assert(front[i] == rules[i]);
    }
    if at == rules.len() - 1 {
        lemma_no_match(front, id);
    } else {
        assert(rules[rules.len() - 1].id != id);
        assert(front[at] == rules[at]);
        lemma_single_match(front, id, at);
    }
}

} // verus!
