//! Exact byte accounting of a duplicate operation.

use vstd::prelude::*;

use crate::cbor::{entries_view, lemma_cbor_view, Cbor, CborValue};
use crate::codec::{json_text, print_json};
use crate::duplicate_command::{OverrideView, RuleDuplicateRequest};
use crate::duplicate_operation::{
    answers_view, changed_entries, changed_entries_are_exact, decode_duplicate_operation,
    instance_leaves, lemma_place, lemma_place_bounds, members_seen, payload_operation, place,
    sequence_members, split_members, with_index, DecodedDuplicateOperation, DecodedView, Member,
    MemberView,
};
use crate::duplicate_payload::{encode_duplicate_rpc_payload, operation_outcome};
use crate::error::{duplicate_fault, invalid_duplicate, meets, Fault, InspectionError};
use crate::json::{Json, JsonValue};
use crate::number::{bytes_to_u64, bytes_value};
use crate::path::{
    changed_leaf, duplicate_leaf_from_path, instances_view, DuplicateLeaf, Instance, InstanceView,
};
use crate::request::datagram_view;
use crate::rule_text::option_view;
use crate::selector::RuleSelector;
use crate::service::decoded_view;
use crate::sid::{operation_sids, validate_duplicate_model_shape, ModelSids, ModelView, SidModel};
use crate::text::{decimal, decimal_string, join};

verus! {

/// One decoded override shown by a duplicate-rule packet report.
#[derive(Debug)]
pub struct DuplicateRpcOverride {
    /// Stable source entry index.
    pub entry_index: usize,
    /// Decoded target value, when the override carries one.
    pub target_value: Option<String>,
    /// Decoded matching-operator identity, when present.
    pub matching_operator: Option<String>,
    /// Decoded action identity, when present.
    pub cda: Option<String>,
}

impl View for DuplicateRpcOverride {
    type V = OverrideView;

    open spec fn view(&self) -> OverrideView {
        OverrideView {
            entry_index: self.entry_index,
            target_value: option_view(self.target_value),
            matching_operator: option_view(self.matching_operator),
            cda: option_view(self.cda),
        }
    }
}

/// The overrides of a list.
pub open spec fn described_view(list: Seq<DuplicateRpcOverride>) -> Seq<OverrideView> {
    Seq::new(list.len(), |i: int| list[i]@)
}

/// Read-only exact byte accounting for a modeled duplicate-rule operation.
#[derive(Debug)]
pub struct DuplicateRpcCost {
    /// Source selector.
    pub source: RuleSelector,
    /// Destination selector.
    pub destination: RuleSelector,
    /// Complete payload bytes.
    pub payload_bytes: usize,
    /// Fixed selector and operation bytes with no overrides.
    pub fixed_bytes: usize,
    /// Override framing and identity bytes, excluding target contents.
    pub variable_framing_bytes: usize,
    /// Raw target-value contents, excluding their headers.
    pub target_value_bytes: usize,
    /// Decoded override groups.
    pub overrides: Vec<DuplicateRpcOverride>,
}

/// Byte accounting as a mathematical value.
pub struct CostView {
    /// Source selector.
    pub source: RuleSelector,
    /// Destination selector.
    pub destination: RuleSelector,
    /// Complete payload bytes.
    pub payload_bytes: usize,
    /// Fixed bytes.
    pub fixed_bytes: usize,
    /// Framing bytes.
    pub variable_framing_bytes: usize,
    /// Target bytes.
    pub target_value_bytes: usize,
    /// Decoded override groups.
    pub overrides: Seq<OverrideView>,
}

impl View for DuplicateRpcCost {
    type V = CostView;

    open spec fn view(&self) -> CostView {
        CostView {
            source: self.source,
            destination: self.destination,
            payload_bytes: self.payload_bytes,
            fixed_bytes: self.fixed_bytes,
            variable_framing_bytes: self.variable_framing_bytes,
            target_value_bytes: self.target_value_bytes,
            overrides: described_view(self.overrides@),
        }
    }
}

/// How a value is shown.
pub open spec fn value_label(value: Json) -> Seq<char> {
    match value {
        Json::Text(text) => text,
        _ => json_text(value),
    }
}

fn json_value_label(value: &JsonValue) -> (result: String)
    ensures
        result@ == value_label(value@),
{
    match value {
        JsonValue::Text(text) => text.clone(),
        _ => print_json(value),
    }
}

/// How target bytes are shown: as a number, or by their length when they do
/// not fit one.
pub open spec fn target_label(bytes: Seq<u8>) -> Seq<char> {
    if bytes.len() <= 8 {
        decimal(bytes_value(bytes))
    } else {
        decimal(bytes.len()) + " B"@
    }
}

fn target_bytes_label(bytes: &[u8]) -> (result: String)
    ensures
        result@ == target_label(bytes@),
{
    match bytes_to_u64(bytes) {
        Some(number) => decimal_string(number),
        None => join(decimal_string(bytes.len() as u64).as_str(), " B"),
    }
}

/// The entries of a list of overrides.
pub open spec fn entries_of(list: Seq<OverrideView>) -> Seq<usize> {
    list.map_values(|described: OverrideView| described.entry_index)
}

/// An override that shows nothing yet.
pub open spec fn undescribed(entry_index: usize) -> OverrideView {
    OverrideView { entry_index, target_value: None, matching_operator: None, cda: None }
}

/// A list of overrides, ordered by entry, that has one for an entry.
pub open spec fn with_described(list: Seq<OverrideView>, entry_index: usize) -> Seq<OverrideView> {
    let at = place(entries_of(list), entry_index);
    if at < list.len() && list[at as int].entry_index == entry_index {
        list
    } else {
        list.insert(at as int, undescribed(entry_index))
    }
}

/// An override with one of its leaves shown.
pub open spec fn with_leaf(
    described: OverrideView,
    leaf: DuplicateLeaf,
    label: Option<Seq<char>>,
) -> OverrideView {
    match leaf {
        DuplicateLeaf::Target => OverrideView { target_value: label, ..described },
        DuplicateLeaf::MatchingOperator => OverrideView { matching_operator: label, ..described },
        DuplicateLeaf::Cda => OverrideView { cda: label, ..described },
    }
}

/// A list of overrides with one leaf of one entry shown.
pub open spec fn described_leaf(
    list: Seq<OverrideView>,
    entry_index: usize,
    leaf: DuplicateLeaf,
    label: Option<Seq<char>>,
) -> Seq<OverrideView> {
    let there = with_described(list, entry_index);
    let at = place(entries_of(list), entry_index) as int;
    there.update(at, with_leaf(there[at], leaf, label))
}

/// What has been counted so far.
pub struct Tally {
    /// Instances that have been counted.
    pub counted: nat,
    /// Target bytes.
    pub target_bytes: nat,
    /// Overrides shown, ordered by entry.
    pub described: Seq<OverrideView>,
}

/// The label of an instance's own value.
pub open spec fn own_label(value: Option<Json>) -> Option<Seq<char>> {
    match value {
        Some(held) => Some(value_label(held)),
        None => None,
    }
}

/// What has been counted once one more raw value is.
pub open spec fn count_value(
    tally: Tally,
    raw: Cbor,
    instances: Seq<InstanceView>,
    destination: RuleSelector,
    sids: ModelSids,
) -> Result<Tally, Fault> {
    if tally.counted >= instances.len() {
        Err(duplicate_fault("override framing and decoded instances disagree"@))
    } else {
        let instance = instances[tally.counted as int];
        match changed_leaf(instance.path, destination, sids) {
            Err(fault) => Err(fault),
            Ok((entry_index, leaf)) => match leaf {
                DuplicateLeaf::Target => match raw {
                    Cbor::Bytes(bytes) => if tally.target_bytes + bytes.len() > usize::MAX {
                        Err(duplicate_fault("target-value byte cost overflow"@))
                    } else {
                        Ok(
                            Tally {
                                counted: tally.counted + 1,
                                target_bytes: tally.target_bytes + bytes.len(),
                                described: described_leaf(
                                    tally.described,
                                    entry_index,
                                    leaf,
                                    Some(target_label(bytes)),
                                ),
                            },
                        )
                    },
                    _ => Err(duplicate_fault("target override is not a CBOR byte string"@)),
                },
                _ => Ok(
                    Tally {
                        counted: tally.counted + 1,
                        target_bytes: tally.target_bytes,
                        described: described_leaf(
                            tally.described,
                            entry_index,
                            leaf,
                            own_label(instance.value),
                        ),
                    },
                ),
            },
        }
    }
}

/// What has been counted once the first entries of a map are.
pub open spec fn count_entries(
    tally: Tally,
    entries: Seq<(Cbor, Cbor)>,
    count: nat,
    instances: Seq<InstanceView>,
    destination: RuleSelector,
    sids: ModelSids,
) -> Result<Tally, Fault>
    decreases count,
{
    if count == 0 {
        Ok(tally)
    } else {
        match count_entries(tally, entries, (count - 1) as nat, instances, destination, sids) {
            Err(fault) => Err(fault),
            Ok(before) => count_value(before, entries[count - 1].1, instances, destination, sids),
        }
    }
}

/// What has been counted once the first members of a sequence are.
pub open spec fn count_members(
    members: Seq<MemberView>,
    count: nat,
    instances: Seq<InstanceView>,
    destination: RuleSelector,
    sids: ModelSids,
) -> Result<Tally, Fault>
    decreases count,
{
    if count == 0 {
        Ok(Tally { counted: 0, target_bytes: 0, described: Seq::empty() })
    } else {
        match count_members(members, (count - 1) as nat, instances, destination, sids) {
            Err(fault) => Err(fault),
            Ok(before) => match members[count - 1].value {
                Cbor::Entries(entries) => count_entries(
                    before,
                    entries,
                    entries.len(),
                    instances,
                    destination,
                    sids,
                ),
                _ => Err(duplicate_fault("override framing member is not a map"@)),
            },
        }
    }
}

struct TallyState {
    counted: usize,
    target_bytes: usize,
    described: Vec<DuplicateRpcOverride>,
}

impl View for TallyState {
    type V = Tally;

    closed spec fn view(&self) -> Tally {
        Tally {
            counted: self.counted as nat,
            target_bytes: self.target_bytes as nat,
            described: described_view(self.described@),
        }
    }
}

fn describe(
    list: &mut Vec<DuplicateRpcOverride>,
    entry_index: usize,
    leaf: DuplicateLeaf,
    label: Option<String>,
)
    ensures
        described_view(final(list)@) == described_leaf(
            described_view(old(list)@),
            entry_index,
            leaf,
            option_view(label),
        ),
{
    let ghost before = described_view(list@);
    let ghost keys = entries_of(before);
    let mut at: usize = 0;
    while at < list.len() && list[at].entry_index < entry_index
        invariant
            at <= list@.len(),
            list@ == old(list)@,
            before == described_view(list@),
            keys == entries_of(before),
            forall|i: int| 0 <= i < at ==> keys[i] < entry_index,
        decreases list.len() - at,
    {
        assert(keys[at as int] == list@[at as int].entry_index);
        at += 1;
    }
    proof {
        if at < list@.len() {
            assert(keys[at as int] == list@[at as int].entry_index);
        }
        lemma_place(keys, entry_index, at as nat);
    }
    if !(at < list.len() && list[at].entry_index == entry_index) {
        let empty = DuplicateRpcOverride {
            entry_index,
            target_value: None,
            matching_operator: None,
            cda: None,
        };
        list.insert(at, empty);
        assert(described_view(list@) =~= before.insert(at as int, undescribed(entry_index)));
    }
    let ghost there = described_view(list@);
    assert(there == with_described(before, entry_index));
    assert(there[at as int] == list@[at as int]@);
    let held = &list[at];
    let target_value = match &held.target_value {
        Some(text) => Some(text.clone()),
        None => None,
    };
    let matching_operator = match &held.matching_operator {
        Some(text) => Some(text.clone()),
        None => None,
    };
    let cda = match &held.cda {
        Some(text) => Some(text.clone()),
        None => None,
    };
    let kept: usize = held.entry_index;
    let changed = match leaf {
        DuplicateLeaf::Target => DuplicateRpcOverride {
            entry_index: kept,
            target_value: label,
            matching_operator,
            cda,
        },
        DuplicateLeaf::MatchingOperator => DuplicateRpcOverride {
            entry_index: kept,
            target_value,
            matching_operator: label,
            cda,
        },
        DuplicateLeaf::Cda => DuplicateRpcOverride {
            entry_index: kept,
            target_value,
            matching_operator,
            cda: label,
        },
    };
    let ghost shown = changed@;
    list.set(at, changed);
    proof {
        assert(shown == with_leaf(there[at as int], leaf, option_view(label)));
        assert(described_view(list@) =~= there.update(at as int, shown));
    }
}

fn tally_value(
    state: &mut TallyState,
    raw: &CborValue,
    instances: &Vec<Instance>,
    destination: RuleSelector,
    sids: &ModelSids,
) -> (result: Result<(), InspectionError>)
    ensures
        ({
            let outcome = count_value(
                old(state)@,
                raw@,
                instances_view(instances@),
                destination,
                *sids,
            );
            match result {
                Ok(_) => outcome == Ok::<Tally, Fault>(final(state)@),
                Err(error) => outcome == Err::<Tally, Fault>(error@),
            }
        }),
{
    let ghost view = instances_view(instances@);
    if state.counted >= instances.len() {
        return Err(invalid_duplicate("override framing and decoded instances disagree"));
    }
    let instance = &instances[state.counted];
    assert(view[state.counted as int] == instance@);
    let (entry_index, leaf) = duplicate_leaf_from_path(&instance.path, destination, sids)?;
    let label = match leaf {
        DuplicateLeaf::Target => match raw {
            CborValue::Bytes(bytes) => {
                match state.target_bytes.checked_add(bytes.len()) {
                    None => {
                        return Err(invalid_duplicate("target-value byte cost overflow"));
                    },
                    Some(total) => {
                        state.target_bytes = total;
                    },
                }
                Some(target_bytes_label(bytes.as_slice()))
            },
            _ => {
                return Err(invalid_duplicate("target override is not a CBOR byte string"));
            },
        },
        _ => match &instance.value {
            Some(value) => Some(json_value_label(value)),
            None => None,
        },
    };
    state.counted = state.counted + 1;
    describe(&mut state.described, entry_index, leaf, label);
    Ok(())
}

proof fn lemma_entry_error_stays(
    tally: Tally,
    entries: Seq<(Cbor, Cbor)>,
    count: nat,
    more: nat,
    instances: Seq<InstanceView>,
    destination: RuleSelector,
    sids: ModelSids,
)
    requires
        count <= more,
        count_entries(tally, entries, count, instances, destination, sids) is Err,
    ensures
        count_entries(tally, entries, more, instances, destination, sids) == count_entries(
            tally,
            entries,
            count,
            instances,
            destination,
            sids,
        ),
    decreases more,
{
    if count < more {
        lemma_entry_error_stays(
            tally,
            entries,
            count,
            (more - 1) as nat,
            instances,
            destination,
            sids,
        );
    }
}

fn tally_entries(
    state: &mut TallyState,
    entries: &Vec<(CborValue, CborValue)>,
    instances: &Vec<Instance>,
    destination: RuleSelector,
    sids: &ModelSids,
) -> (result: Result<(), InspectionError>)
    ensures
        ({
            let outcome = count_entries(
                old(state)@,
                entries_view(entries@),
                entries@.len(),
                instances_view(instances@),
                destination,
                *sids,
            );
            match result {
                Ok(_) => outcome == Ok::<Tally, Fault>(final(state)@),
                Err(error) => outcome == Err::<Tally, Fault>(error@),
            }
        }),
{
    let ghost view = entries_view(entries@);
    let ghost start = state@;
    let ghost nodes = instances_view(instances@);
    let mut index: usize = 0;
    while index < entries.len()
        invariant
            index <= entries@.len(),
            view == entries_view(entries@),
            nodes == instances_view(instances@),
            start == old(state)@,
            count_entries(start, view, index as nat, nodes, destination, *sids) == Ok::<
                Tally,
                Fault,
            >(state@),
        decreases entries.len() - index,
    {
        proof {
            assert(view[index as int].1 == entries@[index as int].1@);
            if count_entries(start, view, (index + 1) as nat, nodes, destination, *sids) is Err {
                lemma_entry_error_stays(
                    start,
                    view,
                    (index + 1) as nat,
                    view.len(),
                    nodes,
                    destination,
                    *sids,
                );
            }
        }
        tally_value(state, &entries[index].1, instances, destination, sids)?;
        index += 1;
    }
    Ok(())
}

proof fn lemma_member_error_stays(
    members: Seq<MemberView>,
    count: nat,
    more: nat,
    instances: Seq<InstanceView>,
    destination: RuleSelector,
    sids: ModelSids,
)
    requires
        count <= more,
        count_members(members, count, instances, destination, sids) is Err,
    ensures
        count_members(members, more, instances, destination, sids) == count_members(
            members,
            count,
            instances,
            destination,
            sids,
        ),
    decreases more,
{
    if count < more {
        lemma_member_error_stays(members, count, (more - 1) as nat, instances, destination, sids);
    }
}

fn tally_members(
    members: &Vec<Member>,
    instances: &Vec<Instance>,
    destination: RuleSelector,
    sids: &ModelSids,
) -> (result: Result<TallyState, InspectionError>)
    ensures
        ({
            let outcome = count_members(
                members_seen(members@),
                members@.len(),
                instances_view(instances@),
                destination,
                *sids,
            );
            match result {
                Ok(state) => outcome == Ok::<Tally, Fault>(state@),
                Err(error) => outcome == Err::<Tally, Fault>(error@),
            }
        }),
{
    let ghost view = members_seen(members@);
    let ghost nodes = instances_view(instances@);
    let mut state = TallyState { counted: 0, target_bytes: 0, described: Vec::new() };
    assert(described_view(state.described@) =~= Seq::<OverrideView>::empty());
    let mut index: usize = 0;
    while index < members.len()
        invariant
            index <= members@.len(),
            view == members_seen(members@),
            nodes == instances_view(instances@),
            count_members(view, index as nat, nodes, destination, *sids) == Ok::<Tally, Fault>(
                state@,
            ),
        decreases members.len() - index,
    {
        proof {
            assert(view[index as int] == members@[index as int]@);
            lemma_cbor_view(members@[index as int].value);
            if count_members(view, (index + 1) as nat, nodes, destination, *sids) is Err {
                lemma_member_error_stays(
                    view,
                    (index + 1) as nat,
                    view.len(),
                    nodes,
                    destination,
                    *sids,
                );
            }
        }
        match &members[index].value {
            CborValue::Entries(entries) => {
                tally_entries(&mut state, entries, instances, destination, sids)?;
            },
            _ => {
                return Err(invalid_duplicate("override framing member is not a map"));
            },
        }
        index += 1;
    }
    Ok(state)
}

/// The accounting of a payload, given the length of the same operation without
/// overrides.
pub open spec fn cost_with(
    operation: DecodedView,
    members: Seq<MemberView>,
    payload: nat,
    fixed: nat,
    sids: ModelSids,
) -> Result<CostView, Fault> {
    match count_members(
        members,
        members.len(),
        operation.instances,
        operation.request.destination,
        sids,
    ) {
        Err(fault) => Err(fault),
        Ok(tally) => if tally.counted != operation.instances.len() {
            Err(duplicate_fault("decoded override instances were not fully accounted"@))
        } else if fixed + tally.target_bytes > usize::MAX {
            Err(duplicate_fault("duplicate RPC byte cost overflow"@))
        } else if payload < fixed + tally.target_bytes {
            Err(
                duplicate_fault(
                    "duplicate RPC payload is smaller than fixed and target costs"@,
                ),
            )
        } else {
            Ok(
                CostView {
                    source: operation.request.source,
                    destination: operation.request.destination,
                    payload_bytes: payload as usize,
                    fixed_bytes: fixed as usize,
                    variable_framing_bytes: (payload - fixed - tally.target_bytes) as usize,
                    target_value_bytes: tally.target_bytes as usize,
                    overrides: tally.described,
                },
            )
        },
    }
}

/// How a payload is accounted for; what the CBOR encoder's own error says is
/// left open.
pub open spec fn cost_outcome(
    model: ModelView,
    operation: DecodedView,
    members: Seq<MemberView>,
    payload: nat,
    outcome: Result<CostView, Fault>,
) -> bool {
    match operation_sids(model) {
        Err(fault) => outcome == Err::<CostView, Fault>(fault),
        Ok(sids) => exists|fixed: Result<Seq<u8>, Fault>|
            {
                &&& #[trigger] operation_outcome(
                    model,
                    operation.request.source,
                    operation.request.destination,
                    Seq::empty(),
                    fixed,
                )
                &&& outcome == match fixed {
                    Err(fault) => Err::<CostView, Fault>(fault),
                    Ok(bytes) => cost_with(operation, members, payload, bytes.len(), sids),
                }
            },
    }
}

/// The accounting or error of a result.
pub open spec fn cost_view(result: Result<DuplicateRpcCost, InspectionError>) -> Result<
    CostView,
    Fault,
> {
    match result {
        Ok(cost) => Ok(cost@),
        Err(error) => Err(error@),
    }
}

/// Accounts for every byte of a decoded duplicate operation. `members` are
/// those of its encoded changes.
fn account_operation(
    model: &SidModel,
    payload: &[u8],
    operation: &DecodedDuplicateOperation,
    members: &Vec<Member>,
) -> (result: Result<DuplicateRpcCost, InspectionError>)
    ensures
        cost_outcome(
            model@,
            operation@,
            members_seen(members@),
            payload@.len(),
            cost_view(result),
        ),
{
    let sids = validate_duplicate_model_shape(model)?;
    let request = RuleDuplicateRequest {
        source: operation.request.source,
        destination: operation.request.destination,
        overrides: Vec::new(),
    };
    let empty: Vec<u8> = Vec::new();
    assert(empty@ =~= Seq::<u8>::empty());
    let encoded = encode_duplicate_rpc_payload(model, &request, empty.as_slice());
    let ghost fixed = datagram_view(encoded);
    assert(operation_outcome(
        model@,
        operation@.request.source,
        operation@.request.destination,
        Seq::empty(),
        fixed,
    ));
    let fixed_bytes: usize = encoded?.len();
    let state = tally_members(members, &operation.instances, request.destination, &sids)?;
    if state.counted != operation.instances.len() {
        return Err(invalid_duplicate("decoded override instances were not fully accounted"));
    }
    let together: usize = match fixed_bytes.checked_add(state.target_bytes) {
        Some(together) => together,
        None => {
            return Err(invalid_duplicate("duplicate RPC byte cost overflow"));
        },
    };
    if payload.len() < together {
        return Err(
            invalid_duplicate("duplicate RPC payload is smaller than fixed and target costs"),
        );
    }
    Ok(
        DuplicateRpcCost {
            source: request.source,
            destination: request.destination,
            payload_bytes: payload.len(),
            fixed_bytes,
            variable_framing_bytes: payload.len() - together,
            target_value_bytes: state.target_bytes,
            overrides: state.described,
        },
    )
}

/// How the payload of a duplicate operation is accounted for: what it holds is
/// decoded, and the members of its encoded changes are accounted for.
pub open spec fn payload_cost(
    model: ModelView,
    payload: Seq<u8>,
    instances: Result<Seq<InstanceView>, Seq<char>>,
    decoded: Seq<Result<Seq<InstanceView>, Seq<char>>>,
    outcome: Result<CostView, Fault>,
) -> bool {
    match payload_operation(model, payload, instances, decoded) {
        Err(expected) => outcome matches Err(fault) && meets(expected, fault),
        Ok(operation) => cost_outcome(
            model,
            operation,
            sequence_members(operation.inner_payload),
            payload.len(),
            outcome,
        ),
    }
}

/// Decodes the payload of a duplicate operation and accounts for every byte of
/// it, without changing anything. `instances` and `decoded` are those of
/// `decode_duplicate_operation`.
pub fn duplicate_rpc_cost(
    model: &SidModel,
    payload: &[u8],
    instances: &Result<Vec<Instance>, String>,
    decoded: &Vec<Result<Vec<Instance>, String>>,
) -> (result: Result<DuplicateRpcCost, InspectionError>)
    ensures
        payload_cost(
            model@,
            payload@,
            decoded_view(*instances),
            answers_view(decoded@),
            cost_view(result),
        ),
{
    let operation = decode_duplicate_operation(model, payload, instances, decoded)?;
    let members = split_members(operation.inner_payload.as_slice());
    account_operation(model, payload, &operation, &members.list)
}

/// What the model library answers for one payload of a duplicate operation.
#[derive(Debug)]
pub struct RpcAnswers {
    /// The model that the SID source holds, or why it holds none.
    pub model: Result<SidModel, String>,
    /// The instances decoded from the payload.
    pub instances: Result<Vec<Instance>, String>,
    /// The instances decoded from each member of the encoded changes.
    pub decoded: Vec<Result<Vec<Instance>, String>>,
}

/// How a payload is accounted for with the answers of the model library.
pub open spec fn answered_cost(
    payload: Seq<u8>,
    answers: RpcAnswers,
    outcome: Result<CostView, Fault>,
) -> bool {
    match answers.model {
        Err(text) => outcome == Err::<CostView, Fault>(Fault::Datastore(text@)),
        Ok(model) => payload_cost(
            model@,
            payload,
            decoded_view(answers.instances),
            answers_view(answers.decoded@),
            outcome,
        ),
    }
}

/// Accounts for a payload with the answers of the model library.
pub(crate) fn account_payload(payload: &[u8], answers: &RpcAnswers) -> (result: Result<
    DuplicateRpcCost,
    InspectionError,
>)
    ensures
        answered_cost(payload@, *answers, cost_view(result)),
{
    match &answers.model {
        Err(text) => Err(InspectionError::Datastore(text.clone())),
        Ok(model) => duplicate_rpc_cost(model, payload, &answers.instances, &answers.decoded),
    }
}

proof fn lemma_described_entries(
    list: Seq<OverrideView>,
    entry_index: usize,
    leaf: DuplicateLeaf,
    label: Option<Seq<char>>,
)
    ensures
        entries_of(described_leaf(list, entry_index, leaf, label)) == with_index(
            entries_of(list),
            entry_index,
        ),
{
    lemma_place_bounds(entries_of(list), entry_index);
    let after = described_leaf(list, entry_index, leaf, label);
    assert(entries_of(after) =~= with_index(entries_of(list), entry_index));
}

/// Whether the overrides shown are those of the instances counted.
spec fn shows_counted(tally: Tally, leaves: Seq<(usize, DuplicateLeaf)>) -> bool {
    &&& tally.counted <= leaves.len()
    &&& entries_of(tally.described) == changed_entries(leaves.take(tally.counted as int))
}

proof fn lemma_value_shown(
    tally: Tally,
    raw: Cbor,
    instances: Seq<InstanceView>,
    destination: RuleSelector,
    sids: ModelSids,
)
    requires
        shows_counted(tally, instance_leaves(instances, destination, sids)),
        count_value(tally, raw, instances, destination, sids) is Ok,
    ensures
        shows_counted(
            count_value(tally, raw, instances, destination, sids)->Ok_0,
            instance_leaves(instances, destination, sids),
        ),
{
    let leaves = instance_leaves(instances, destination, sids);
    let counted = tally.counted as int;
    let (entry_index, leaf) = leaves[counted];
    let more = leaves.take(counted + 1);
    assert(more.drop_last() =~= leaves.take(counted));
    assert(more.last() == leaves[counted]);
    lemma_described_entries(tally.described, entry_index, leaf, own_label(
        instances[counted].value,
    ));
    if let Cbor::Bytes(bytes) = raw {
        lemma_described_entries(tally.described, entry_index, leaf, Some(target_label(bytes)));
    }
}

proof fn lemma_entries_shown(
    tally: Tally,
    entries: Seq<(Cbor, Cbor)>,
    count: nat,
    instances: Seq<InstanceView>,
    destination: RuleSelector,
    sids: ModelSids,
)
    requires
        shows_counted(tally, instance_leaves(instances, destination, sids)),
        count_entries(tally, entries, count, instances, destination, sids) is Ok,
    ensures
        shows_counted(
            count_entries(tally, entries, count, instances, destination, sids)->Ok_0,
            instance_leaves(instances, destination, sids),
        ),
    decreases count,
{
    if count > 0 {
        let fewer = (count - 1) as nat;
        lemma_entries_shown(tally, entries, fewer, instances, destination, sids);
        lemma_value_shown(
            count_entries(tally, entries, fewer, instances, destination, sids)->Ok_0,
            entries[count - 1].1,
            instances,
            destination,
            sids,
        );
    }
}

proof fn lemma_members_shown(
    members: Seq<MemberView>,
    count: nat,
    instances: Seq<InstanceView>,
    destination: RuleSelector,
    sids: ModelSids,
)
    requires
        count_members(members, count, instances, destination, sids) is Ok,
    ensures
        shows_counted(
            count_members(members, count, instances, destination, sids)->Ok_0,
            instance_leaves(instances, destination, sids),
        ),
    decreases count,
{
    if count == 0 {
        let leaves = instance_leaves(instances, destination, sids);
        assert(leaves.take(0) =~= Seq::empty());
        assert(entries_of(Seq::empty()) =~= Seq::empty());
    } else {
        let fewer = (count - 1) as nat;
        lemma_members_shown(members, fewer, instances, destination, sids);
        let entries = members[count - 1].value->Entries_0;
        lemma_entries_shown(
            count_members(members, fewer, instances, destination, sids)->Ok_0,
            entries,
            entries.len(),
            instances,
            destination,
            sids,
        );
    }
}

/// The three parts of an accepted accounting add up to the payload. The
/// overrides that it shows stand in the strict order of their entries, and
/// their entries are those that the operation changes, and no others.
pub proof fn cost_accounts_for_every_byte(
    model: ModelView,
    payload: Seq<u8>,
    instances: Result<Seq<InstanceView>, Seq<char>>,
    decoded: Seq<Result<Seq<InstanceView>, Seq<char>>>,
    outcome: Result<CostView, Fault>,
)
    requires
        payload_cost(model, payload, instances, decoded, outcome),
        outcome is Ok,
        payload.len() <= usize::MAX,
    ensures
        ({
            let cost = outcome->Ok_0;
            let operation = payload_operation(model, payload, instances, decoded)->Ok_0;
            let leaves = instance_leaves(
                operation.instances,
                operation.request.destination,
                operation_sids(model)->Ok_0,
            );
            &&& cost.payload_bytes == payload.len()
            &&& cost.fixed_bytes + cost.variable_framing_bytes + cost.target_value_bytes
                == payload.len()
            &&& forall|i: int, j: int|
                0 <= i < j < cost.overrides.len() ==> (#[trigger] cost.overrides[i]).entry_index < (
                #[trigger] cost.overrides[j]).entry_index
            &&& entries_of(cost.overrides) == changed_entries(leaves)
        }),
{
    let cost = outcome->Ok_0;
    let operation = payload_operation(model, payload, instances, decoded)->Ok_0;
    let destination = operation.request.destination;
    let sids = operation_sids(model)->Ok_0;
    let members = sequence_members(operation.inner_payload);
    let leaves = instance_leaves(operation.instances, destination, sids);
    lemma_members_shown(members, members.len(), operation.instances, destination, sids);
    assert(leaves.take(leaves.len() as int) =~= leaves);
    changed_entries_are_exact(leaves);
    assert forall|i: int, j: int| 0 <= i < j < cost.overrides.len() implies (
    #[trigger] cost.overrides[i]).entry_index < (#[trigger] cost.overrides[j]).entry_index by {
        let entries = entries_of(cost.overrides);
        assert(entries[i] == cost.overrides[i].entry_index);
        assert(entries[j] == cost.overrides[j].entry_index);
    }
}

/// What one more value adds to an accounting: the bytes of a target count and
/// are shown as the target of their entry, an operator and an action count no
/// target bytes and are shown as such; no other leaf of the override changes.
pub proof fn counted_value_is_shown_by_its_leaf(
    tally: Tally,
    raw: Cbor,
    instances: Seq<InstanceView>,
    destination: RuleSelector,
    sids: ModelSids,
)
    requires
        count_value(tally, raw, instances, destination, sids) is Ok,
    ensures
        ({
            let after = count_value(tally, raw, instances, destination, sids)->Ok_0;
            let instance = instances[tally.counted as int];
            let (entry_index, leaf) = changed_leaf(instance.path, destination, sids)->Ok_0;
            &&& after.counted == tally.counted + 1
            &&& leaf == DuplicateLeaf::Target ==> raw is Bytes && after.target_bytes
                == tally.target_bytes + raw->Bytes_0.len()
            &&& leaf != DuplicateLeaf::Target ==> after.target_bytes == tally.target_bytes
            &&& leaf == DuplicateLeaf::Target ==> after.described == described_leaf(
                tally.described,
                entry_index,
                leaf,
                Some(
                    if raw->Bytes_0.len() <= 8 {
                        decimal(bytes_value(raw->Bytes_0))
                    } else {
                        decimal(raw->Bytes_0.len()) + " B"@
                    },
                ),
            )
        }),
{
}

/// Showing a leaf of an override sets the label of that leaf alone.
pub proof fn shown_leaf_is_the_changed_one(described: OverrideView, label: Option<Seq<char>>)
    ensures
        with_leaf(described, DuplicateLeaf::Target, label).target_value == label,
        with_leaf(described, DuplicateLeaf::Target, label).matching_operator
            == described.matching_operator,
        with_leaf(described, DuplicateLeaf::Target, label).cda == described.cda,
        with_leaf(described, DuplicateLeaf::MatchingOperator, label).matching_operator == label,
        with_leaf(described, DuplicateLeaf::MatchingOperator, label).target_value
            == described.target_value,
        with_leaf(described, DuplicateLeaf::MatchingOperator, label).cda == described.cda,
        with_leaf(described, DuplicateLeaf::Cda, label).cda == label,
        with_leaf(described, DuplicateLeaf::Cda, label).target_value == described.target_value,
        with_leaf(described, DuplicateLeaf::Cda, label).matching_operator
            == described.matching_operator,
        with_leaf(described, DuplicateLeaf::Target, label).entry_index == described.entry_index,
        with_leaf(described, DuplicateLeaf::MatchingOperator, label).entry_index
            == described.entry_index,
        with_leaf(described, DuplicateLeaf::Cda, label).entry_index == described.entry_index,
{
}

/// An accounting names the source and the destination of its operation, its
/// fixed part is as long as the same operation without changes, and the rest
/// that is not target bytes is framing.
pub proof fn cost_names_its_operation(
    operation: DecodedView,
    members: Seq<MemberView>,
    payload: nat,
    fixed: nat,
    sids: ModelSids,
)
    requires
        payload <= usize::MAX,
        cost_with(operation, members, payload, fixed, sids) is Ok,
    ensures
        ({
            let cost = cost_with(operation, members, payload, fixed, sids)->Ok_0;
            &&& cost.source == operation.request.source
            &&& cost.destination == operation.request.destination
            &&& cost.payload_bytes == payload
            &&& cost.fixed_bytes == fixed
            &&& cost.variable_framing_bytes == payload - fixed - cost.target_value_bytes
        }),
{
}

/// A value is counted exactly when there is an instance left for it, whose path
/// names a leaf of the destination, and a target value is a byte string.
pub proof fn value_is_counted_when_it_has_an_instance(
    tally: Tally,
    raw: Cbor,
    instances: Seq<InstanceView>,
    destination: RuleSelector,
    sids: ModelSids,
)
    ensures
        count_value(tally, raw, instances, destination, sids) is Ok <==> {
            let found = changed_leaf(instances[tally.counted as int].path, destination, sids);
            &&& tally.counted < instances.len()
            &&& found is Ok
            &&& (found->Ok_0).1 is Target ==> raw is Bytes && tally.target_bytes
                + raw->Bytes_0.len() <= usize::MAX
        },
{
}

/// The cost of an operation is told exactly when every instance was counted and
/// the fixed part and the target values fit the payload.
pub proof fn cost_is_told_when_all_is_counted(
    operation: DecodedView,
    members: Seq<MemberView>,
    payload: nat,
    fixed: nat,
    sids: ModelSids,
)
    ensures
        cost_with(operation, members, payload, fixed, sids) is Ok <==> {
            let tally = count_members(
                members,
                members.len(),
                operation.instances,
                operation.request.destination,
                sids,
            );
            &&& tally is Ok
            &&& tally->Ok_0.counted == operation.instances.len()
            &&& fixed + tally->Ok_0.target_bytes <= usize::MAX
            &&& fixed + tally->Ok_0.target_bytes <= payload
        },
{
}

} // verus!
