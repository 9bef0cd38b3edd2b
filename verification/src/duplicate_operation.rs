//! Reading a duplicate operation.

use vstd::prelude::*;

use crate::base64::{base64_decode, decoded};
use crate::cbor::{
    cbor_bytes, cbor_item, decode_item, encode_item, keys_unique, lemma_cbor_view, same_bytes, Cbor,
    CborValue,
};
use crate::duplicate_command::{
    overrides_view, DuplicateView, OverrideView, RuleDuplicateOverride, RuleDuplicateRequest,
};
use crate::error::{
    duplicate_fault, invalid_duplicate, meets, prefixed_duplicate, Expected, Fault,
    InspectionError,
};
use crate::json::{lemma_json_view, member, members_view, unsigned_member, Json, JsonValue};
use crate::path::{
    changed_leaf, duplicate_leaf_from_path, instances_view, DuplicateLeaf, Instance, InstanceView,
    PathComponent, Step,
};
use crate::rule::copy_bytes;
use crate::selector::{selector_of, RuleSelector};
use crate::service::decoded_view;
use crate::sid::{operation_sids, validate_duplicate_model_shape, ModelSids, ModelView, SidModel};
use crate::target::{binary_bytes, binary_of};
use crate::text::{join, join3, same_text};

verus! {

/// The one map that a payload holds, or the error to expect.
pub open spec fn one_map(payload: Seq<u8>) -> Result<Cbor, Expected> {
    match cbor_item(payload) {
        None => Err(Expected::Prefixed("invalid RPC CBOR: "@)),
        Some((value, length)) => if length != payload.len() {
            Err(Expected::Named(duplicate_fault("trailing values after RPC instance"@)))
        } else if !(value is Entries) {
            Err(Expected::Named(duplicate_fault("RPC payload root must be a map"@)))
        } else {
            match cbor_bytes(value) {
                None => Err(Expected::Prefixed("RPC canonical encoding failed: "@)),
                Some(canonical) => if canonical != payload {
                    Err(Expected::Named(duplicate_fault("noncanonical RPC CBOR"@)))
                } else {
                    Ok(value)
                },
            }
        },
    }
}

fn strict_one_cbor_map(payload: &[u8]) -> (result: Result<CborValue, InspectionError>)
    ensures
        match result {
            Ok(value) => one_map(payload@) == Ok::<Cbor, Expected>(value@),
            Err(error) => one_map(payload@) is Err && meets(one_map(payload@)->Err_0, error@),
        },
{
    let (value, length) = match decode_item(payload) {
        Ok(read) => read,
        Err(text) => {
            return Err(prefixed_duplicate("invalid RPC CBOR: ", text.as_str()));
        },
    };
    if length != payload.len() {
        return Err(invalid_duplicate("trailing values after RPC instance"));
    }
    proof {
        lemma_cbor_view(value);
    }
    let is_map = match &value {
        CborValue::Entries(_) => true,
        _ => false,
    };
    if !is_map {
        return Err(invalid_duplicate("RPC payload root must be a map"));
    }
    match encode_item(&value) {
        Err(text) => Err(prefixed_duplicate("RPC canonical encoding failed: ", text.as_str())),
        Ok(canonical) => {
            if !same_bytes(canonical.as_slice(), payload) {
                return Err(invalid_duplicate("noncanonical RPC CBOR"));
            }
            Ok(value)
        },
    }
}

/// A rule selector in an operation.
pub open spec fn operation_selector(value: Json, label: Seq<char>) -> Result<RuleSelector, Fault> {
    if !(value is Object) || value->Object_0.len() != 2 || member(value, "rule-id-value"@) is None
        || member(value, "rule-id-length"@) is None {
        Err(duplicate_fault("RPC "@ + label + " selector has unsupported fields"@))
    } else {
        match (unsigned_member(value, "rule-id-value"@), unsigned_member(
            value,
            "rule-id-length"@,
        )) {
            (None, _) => Err(duplicate_fault("RPC "@ + label + " value is invalid"@)),
            (Some(_), None) => Err(duplicate_fault("RPC "@ + label + " length is invalid"@)),
            (Some(number), Some(bits)) => if bits > usize::MAX {
                Err(duplicate_fault("RPC "@ + label + " length is invalid"@))
            } else {
                match selector_of(number, bits as usize) {
                    Err(fault) => Err(duplicate_fault(fault.described())),
                    Ok(selector) => Ok(selector),
                }
            },
        }
    }
}

fn member_count(value: &JsonValue) -> (result: Option<usize>)
    ensures
        match result {
            Some(count) => value@ is Object && value@->Object_0.len() == count,
            None => !(value@ is Object),
        },
{
    proof {
        lemma_json_view(*value);
    }
    match value {
        JsonValue::Object(members) => Some(members.len()),
        _ => None,
    }
}

fn read_selector(value: &JsonValue, label: &str) -> (result: Result<RuleSelector, InspectionError>)
    ensures
        match result {
            Ok(selector) => operation_selector(value@, label@) == Ok::<RuleSelector, Fault>(
                selector,
            ),
            Err(error) => operation_selector(value@, label@) == Err::<RuleSelector, Fault>(error@),
        },
{
    let proper = match member_count(value) {
        Some(count) => count == 2 && value.get("rule-id-value").is_some() && value.get(
            "rule-id-length",
        ).is_some(),
        None => false,
    };
    if !proper {
        return Err(
            invalid_duplicate(join3("RPC ", label, " selector has unsupported fields").as_str()),
        );
    }
    let number: u64 = match value.get_u64("rule-id-value") {
        Some(number) => number,
        None => {
            return Err(invalid_duplicate(join3("RPC ", label, " value is invalid").as_str()));
        },
    };
    let bits: u64 = match value.get_u64("rule-id-length") {
        Some(bits) => bits,
        None => {
            return Err(invalid_duplicate(join3("RPC ", label, " length is invalid").as_str()));
        },
    };
    if bits > usize::MAX as u64 {
        return Err(invalid_duplicate(join3("RPC ", label, " length is invalid").as_str()));
    }
    match RuleSelector::new(number, bits as usize) {
        Ok(selector) => Ok(selector),
        Err(error) => Err(invalid_duplicate(error.message().as_str())),
    }
}

/// Whether an input container holds nothing but the parts of an operation.
pub open spec fn known_parts(members: Seq<(Seq<char>, Json)>) -> bool {
    forall|i: int|
        0 <= i < members.len() ==> {
            let name = (#[trigger] members[i]).0;
            name == "from"@ || name == "to"@ || name == "ipatch-sequence"@
        }
}

fn only_known_parts(members: &Vec<(String, JsonValue)>) -> (result: bool)
    ensures
        result == known_parts(members_view(members@)),
{
    let ghost view = members_view(members@);
    let mut index: usize = 0;
    while index < members.len()
        invariant
            index <= members@.len(),
            view == members_view(members@),
            forall|i: int|
                0 <= i < index ==> {
                    let name = (#[trigger] view[i]).0;
                    name == "from"@ || name == "to"@ || name == "ipatch-sequence"@
                },
        decreases members.len() - index,
    {
        let name = members[index].0.as_str();
        assert(view[index as int].0 == name@);
        if !(same_text(name, "from") || same_text(name, "to") || same_text(
            name,
            "ipatch-sequence",
        )) {
            return false;
        }
        index += 1;
    }
    true
}

/// The bytes that a text part stands for.
pub open spec fn binary_part(part: Option<Json>) -> Result<Seq<u8>, Fault> {
    match part {
        None => Ok(Seq::empty()),
        Some(Json::Text(text)) => decoded(vstd::utf8::encode_utf8(text)),
        Some(value) => binary_of(value),
    }
}

/// A duplicate operation as a mathematical value: its rules and its encoded
/// changes.
pub struct OperationView {
    /// SIDs of the model.
    pub sids: ModelSids,
    /// Source rule.
    pub source: RuleSelector,
    /// Destination rule.
    pub destination: RuleSelector,
    /// Encoded changes.
    pub inner: Seq<u8>,
}

/// A duplicate operation: its rules and its encoded changes.
#[derive(Debug)]
pub struct DuplicateOperation {
    /// SIDs of the model.
    pub sids: ModelSids,
    /// Source rule.
    pub source: RuleSelector,
    /// Destination rule.
    pub destination: RuleSelector,
    /// Encoded changes.
    pub inner: Vec<u8>,
}

impl View for DuplicateOperation {
    type V = OperationView;

    open spec fn view(&self) -> OperationView {
        OperationView {
            sids: self.sids,
            source: self.source,
            destination: self.destination,
            inner: self.inner@,
        }
    }
}

/// The parts of an input container.
pub open spec fn operation_parts(sids: ModelSids, input: Json) -> Result<OperationView, Fault> {
    match input {
        Json::Object(members) => if !known_parts(members) {
            Err(duplicate_fault("RPC input contains an unknown field"@))
        } else if !(member(input, "from"@) matches Some(Json::Object(_))) {
            Err(duplicate_fault("RPC source selector is missing"@))
        } else if !(member(input, "to"@) matches Some(Json::Object(_))) {
            Err(duplicate_fault("RPC destination selector is missing"@))
        } else {
            match operation_selector(member(input, "from"@)->0, "source"@) {
                Err(fault) => Err(fault),
                Ok(source) => match operation_selector(
                    member(input, "to"@)->0,
                    "destination"@,
                ) {
                    Err(fault) => Err(fault),
                    Ok(destination) => match binary_part(member(input, "ipatch-sequence"@)) {
                        Err(fault) => Err(fault),
                        Ok(inner) => Ok(OperationView { sids, source, destination, inner }),
                    },
                },
            }
        },
        _ => Err(duplicate_fault("RPC input container is missing"@)),
    }
}

/// The operation that decoded instances hold.
pub open spec fn operation_in(sids: ModelSids, instances: Seq<InstanceView>) -> Result<
    OperationView,
    Fault,
> {
    if instances.len() != 1 || instances[0].path != seq![
        Step::Delta(sids.duplicate_rule as int),
    ] {
        Err(
            duplicate_fault("RPC payload must contain exactly one duplicate-rule instance"@),
        )
    } else {
        match instances[0].value {
            None => Err(duplicate_fault("RPC input cannot be deleted"@)),
            Some(value) => match value {
                Json::Object(members) => if members.len() != 1 || member(value, "input"@) is None {
                    Err(
                        duplicate_fault("RPC operation must contain exactly the input container"@),
                    )
                } else {
                    operation_parts(sids, member(value, "input"@)->0)
                },
                _ => Err(duplicate_fault("RPC operation value is not an object"@)),
            },
        }
    }
}

/// The operation that a payload holds, or the error to expect.
pub open spec fn operation_of(
    model: ModelView,
    payload: Seq<u8>,
    instances: Result<Seq<InstanceView>, Seq<char>>,
) -> Result<OperationView, Expected> {
    match operation_sids(model) {
        Err(fault) => Err(Expected::Named(fault)),
        Ok(sids) => match one_map(payload) {
            Err(expected) => Err(expected),
            Ok(outer) => if !keys_unique(outer) {
                Err(Expected::Named(duplicate_fault("duplicate CBOR map key"@)))
            } else {
                match instances {
                    Err(text) => Err(
                        Expected::Named(duplicate_fault("RPC payload decode failed: "@ + text)),
                    ),
                    Ok(list) => match operation_in(sids, list) {
                        Err(fault) => Err(Expected::Named(fault)),
                        Ok(operation) => Ok(operation),
                    },
                }
            },
        },
    }
}

fn read_binary_part(part: Option<&JsonValue>, Ghost(view): Ghost<Option<Json>>) -> (result: Result<
    Vec<u8>,
    InspectionError,
>)
    requires
        match part {
            Some(value) => view == Some(value@),
            None => view is None,
        },
    ensures
        match result {
            Ok(bytes) => binary_part(view) == Ok::<Seq<u8>, Fault>(bytes@),
            Err(error) => binary_part(view) == Err::<Seq<u8>, Fault>(error@),
        },
{
    match part {
        None => Ok(Vec::new()),
        Some(value) => match value {
            JsonValue::Text(text) => base64_decode(text.as_str().as_bytes()),
            _ => binary_bytes(value),
        },
    }
}

fn read_parts(sids: ModelSids, input: &JsonValue) -> (result: Result<
    DuplicateOperation,
    InspectionError,
>)
    ensures
        match result {
            Ok(operation) => operation_parts(sids, input@) == Ok::<OperationView, Fault>(
                operation@,
            ),
            Err(error) => operation_parts(sids, input@) == Err::<OperationView, Fault>(error@),
        },
{
    proof {
        lemma_json_view(*input);
    }
    match input {
        JsonValue::Object(members) => {
            if !only_known_parts(members) {
                return Err(invalid_duplicate("RPC input contains an unknown field"));
            }
        },
        _ => {
            return Err(invalid_duplicate("RPC input container is missing"));
        },
    }
    let from = match input.get("from") {
        Some(from) if member_count(from).is_some() => from,
        _ => {
            return Err(invalid_duplicate("RPC source selector is missing"));
        },
    };
    let to = match input.get("to") {
        Some(to) if member_count(to).is_some() => to,
        _ => {
            return Err(invalid_duplicate("RPC destination selector is missing"));
        },
    };
    let source = read_selector(from, "source")?;
    let destination = read_selector(to, "destination")?;
    let part = input.get("ipatch-sequence");
    let inner = read_binary_part(part, Ghost(member(input@, "ipatch-sequence"@)))?;
    Ok(DuplicateOperation { sids, source, destination, inner })
}

fn is_operation_path(path: &Vec<PathComponent>, sid: i64) -> (result: bool)
    ensures
        result == (Seq::new(path@.len(), |i: int| path@[i]@) == seq![Step::Delta(sid as int)]),
{
    let ghost view = Seq::new(path@.len(), |i: int| path@[i]@);
    if path.len() != 1 {
        assert(view.len() != 1);
        return false;
    }
    assert(view[0] == path@[0]@);
    match &path[0] {
        PathComponent::SidDelta(delta) => {
            if *delta == sid {
                assert(view =~= seq![Step::Delta(sid as int)]);
                true
            } else {
                assert(seq![Step::Delta(sid as int)][0] == Step::Delta(sid as int));
                false
            }
        },
        PathComponent::KeyValue(_) => {
            assert(seq![Step::Delta(sid as int)][0] == Step::Delta(sid as int));
            false
        },
    }
}

fn read_instances(sids: ModelSids, instances: &Vec<Instance>) -> (result: Result<
    DuplicateOperation,
    InspectionError,
>)
    ensures
        ({
            let outcome = operation_in(sids, instances_view(instances@));
            match result {
                Ok(operation) => outcome == Ok::<OperationView, Fault>(operation@),
                Err(error) => outcome == Err::<OperationView, Fault>(error@),
            }
        }),
{
    if instances.len() != 1 {
        return Err(
            invalid_duplicate("RPC payload must contain exactly one duplicate-rule instance"),
        );
    }
    assert(instances_view(instances@)[0] == instances@[0]@);
    if !is_operation_path(&instances[0].path.components, sids.duplicate_rule) {
        return Err(
            invalid_duplicate("RPC payload must contain exactly one duplicate-rule instance"),
        );
    }
    let value = match &instances[0].value {
        Some(value) => value,
        None => {
            return Err(invalid_duplicate("RPC input cannot be deleted"));
        },
    };
    let count: usize = match member_count(value) {
        Some(count) => count,
        None => {
            return Err(invalid_duplicate("RPC operation value is not an object"));
        },
    };
    if count != 1 {
        return Err(invalid_duplicate("RPC operation must contain exactly the input container"));
    }
    match value.get("input") {
        None => Err(invalid_duplicate("RPC operation must contain exactly the input container")),
        Some(input) => read_parts(sids, input),
    }
}

/// Reads the operation that a payload holds. `instances` is what the model
/// library decoded from the same payload.
pub fn read_operation(
    model: &SidModel,
    payload: &[u8],
    instances: &Result<Vec<Instance>, String>,
) -> (result: Result<DuplicateOperation, InspectionError>)
    ensures
        ({
            let outcome = operation_of(model@, payload@, decoded_view(*instances));
            match result {
                Ok(operation) => outcome == Ok::<OperationView, Expected>(operation@),
                Err(error) => outcome is Err && meets(outcome->Err_0, error@),
            }
        }),
{
    let sids = validate_duplicate_model_shape(model)?;
    let outer = strict_one_cbor_map(payload)?;
    if !outer.unique_keys() {
        return Err(invalid_duplicate("duplicate CBOR map key"));
    }
    match instances {
        Err(text) => Err(
            invalid_duplicate(join("RPC payload decode failed: ", text.as_str()).as_str()),
        ),
        Ok(list) => read_instances(sids, list),
    }
}

/// One member of a CBOR sequence as a mathematical value.
pub struct MemberView {
    /// The value.
    pub value: Cbor,
    /// Its bytes.
    pub bytes: Seq<u8>,
}

/// One member of a CBOR sequence.
#[derive(Debug)]
pub struct Member {
    /// The value.
    pub value: CborValue,
    /// Its bytes.
    pub bytes: Vec<u8>,
}

impl View for Member {
    type V = MemberView;

    open spec fn view(&self) -> MemberView {
        MemberView { value: self.value@, bytes: self.bytes@ }
    }
}

/// The members of a list.
pub open spec fn members_seen(members: Seq<Member>) -> Seq<MemberView> {
    Seq::new(members.len(), |i: int| members[i]@)
}

/// The members of a CBOR sequence, and why reading stopped before its end.
#[derive(Debug)]
pub struct Members {
    /// The members.
    pub list: Vec<Member>,
    /// The reader's error after the last member.
    pub failure: Option<String>,
}

/// The members at the start of a CBOR sequence.
pub open spec fn sequence_members(bytes: Seq<u8>) -> Seq<MemberView>
    decreases bytes.len(),
{
    match cbor_item(bytes) {
        Some((value, length)) => if 1 <= length <= bytes.len() {
            seq![MemberView { value, bytes: bytes.take(length as int) }] + sequence_members(
                bytes.skip(length as int),
            )
        } else {
            Seq::empty()
        },
        None => Seq::empty(),
    }
}

/// Whether a CBOR sequence is read to its end.
pub open spec fn sequence_ends(bytes: Seq<u8>) -> bool
    decreases bytes.len(),
{
    bytes.len() == 0 || match cbor_item(bytes) {
        Some((_, length)) => 1 <= length <= bytes.len() && sequence_ends(
            bytes.skip(length as int),
        ),
        None => false,
    }
}

/// Splits a CBOR sequence into its members. What the reader's error says is
/// left open.
pub fn split_members(bytes: &[u8]) -> (result: Members)
    ensures
        members_seen(result.list@) == sequence_members(bytes@),
        result.failure is None <==> sequence_ends(bytes@),
{
    let mut list: Vec<Member> = Vec::new();
    let mut rest: Vec<u8> = copy_bytes(bytes);
    let ghost whole = sequence_members(bytes@);
    assert(members_seen(list@) =~= Seq::<MemberView>::empty());
    assert(Seq::<MemberView>::empty() + whole =~= whole);
    while rest.len() > 0
        invariant
            whole == sequence_members(bytes@),
            members_seen(list@) + sequence_members(rest@) == whole,
            sequence_ends(rest@) == sequence_ends(bytes@),
        decreases rest.len(),
    {
        let (value, length) = match decode_item(rest.as_slice()) {
            Ok(read) => read,
            Err(text) => {
                assert(members_seen(list@) + Seq::<MemberView>::empty() =~= members_seen(list@));
                return Members { list, failure: Some(text) };
            },
        };
        let ghost before = members_seen(list@);
        let ghost held = rest@;
        let (head, tail) = split_at(rest, length);
        list.push(Member { value, bytes: head });
        proof {
            let member = MemberView { value: value@, bytes: held.take(length as int) };
            assert(members_seen(list@) =~= before.push(member));
            assert(before + sequence_members(held) =~= before.push(member) + sequence_members(
                held.skip(length as int),
            ));
        }
        rest = tail;
    }
    proof {
        lemma_no_members_in_nothing(rest@);
        assert(members_seen(list@) + Seq::<MemberView>::empty() =~= members_seen(list@));
    }
    Members { list, failure: None }
}

proof fn lemma_no_members_in_nothing(bytes: Seq<u8>)
    requires
        bytes.len() == 0,
    ensures
        sequence_members(bytes) == Seq::<MemberView>::empty(),
{
    assert(sequence_members(bytes) =~= Seq::<MemberView>::empty());
}

fn split_at(bytes: Vec<u8>, at: usize) -> (result: (Vec<u8>, Vec<u8>))
    requires
        at <= bytes@.len(),
    ensures
        result.0@ == bytes@.take(at as int),
        result.1@ == bytes@.skip(at as int),
{
    let mut head: Vec<u8> = Vec::new();
    let mut tail: Vec<u8> = Vec::new();
    let mut index: usize = 0;
    while index < bytes.len()
        invariant
            index <= bytes@.len(),
            at <= bytes@.len(),
            head@ == bytes@.take(
                if index <= at {
                    index as int
                } else {
                    at as int
                },
            ),
            tail@ == bytes@.subrange(
                at as int,
                if index <= at {
                    at as int
                } else {
                    index as int
                },
            ),
        decreases bytes.len() - index,
    {
        if index < at {
            head.push(bytes[index]);
            assert(head@ =~= bytes@.take(index + 1));
        } else {
            tail.push(bytes[index]);
            assert(tail@ =~= bytes@.subrange(at as int, index + 1));
        }
        index += 1;
    }
    assert(tail@ =~= bytes@.skip(at as int));
    (head, tail)
}

/// Whether one of the first instances of a member changes an entry.
pub open spec fn entry_changed(
    instances: Seq<InstanceView>,
    count: int,
    destination: RuleSelector,
    sids: ModelSids,
    entry: usize,
) -> bool {
    exists|i: int|
        0 <= i < count && (changed_leaf((#[trigger] instances[i]).path, destination, sids) matches Ok(
            found,
        ) && found.0 == entry)
}

/// Why the first of some instances of a member is refused that is.
pub open spec fn instances_fault(
    instances: Seq<InstanceView>,
    count: nat,
    destination: RuleSelector,
    sids: ModelSids,
) -> Option<Fault>
    decreases count,
{
    if count == 0 {
        None
    } else {
        match instances_fault(instances, (count - 1) as nat, destination, sids) {
            Some(fault) => Some(fault),
            None => match changed_leaf(instances[count - 1].path, destination, sids) {
                Err(fault) => Some(fault),
                Ok(found) => if crate::duplicate_tree::leaf_taken(
                    instances,
                    count - 1,
                    destination,
                    sids,
                    found,
                ) {
                    Some(duplicate_fault("duplicate override leaf"@))
                } else {
                    None
                },
            },
        }
    }
}

/// Why a member is refused before its instances are looked at.
pub open spec fn member_fault(member: MemberView, decoded: Result<Seq<InstanceView>, Seq<char>>) -> Option<
    Expected,
> {
    match member.value {
        Cbor::Entries(entries) => if entries.len() == 0 || entries.len() > 3 {
            Some(
                Expected::Named(
                    duplicate_fault("each override map must contain one to three leaves"@),
                ),
            )
        } else if !keys_unique(member.value) {
            Some(Expected::Named(duplicate_fault("duplicate CBOR map key"@)))
        } else {
            match cbor_bytes(member.value) {
                None => Some(Expected::Prefixed(Seq::empty())),
                Some(canonical) => if canonical != member.bytes {
                    Some(Expected::Named(duplicate_fault("noncanonical ipatch-sequence map"@)))
                } else {
                    match decoded {
                        Err(text) => Some(
                            Expected::Named(duplicate_fault("invalid override value: "@ + text)),
                        ),
                        Ok(list) => if list.len() != entries.len() {
                            Some(
                                Expected::Named(
                                    duplicate_fault("override map did not decode completely"@),
                                ),
                            )
                        } else {
                            None
                        },
                    }
                },
            }
        },
        _ => Some(
            Expected::Named(duplicate_fault("ipatch-sequence members must be maps"@)),
        ),
    }
}

/// Whether two lists of instances change the same entry.
pub open spec fn entries_overlap(
    instances: Seq<InstanceView>,
    others: Seq<InstanceView>,
    destination: RuleSelector,
    sids: ModelSids,
) -> bool {
    exists|entry: usize| #[trigger]
        entry_changed(instances, instances.len() as int, destination, sids, entry) && entry_changed(
            others,
            others.len() as int,
            destination,
            sids,
            entry,
        )
}

/// The decoded answers of a list.
pub open spec fn answers_view(answers: Seq<Result<Vec<Instance>, String>>) -> Seq<
    Result<Seq<InstanceView>, Seq<char>>,
> {
    Seq::new(answers.len(), |i: int| decoded_view(answers[i]))
}

/// The instances of the first members, or the error to expect.
pub open spec fn inner_instances(
    members: Seq<MemberView>,
    decoded: Seq<Result<Seq<InstanceView>, Seq<char>>>,
    count: nat,
    destination: RuleSelector,
    sids: ModelSids,
) -> Result<Seq<InstanceView>, Expected>
    decreases count,
{
    if count == 0 {
        Ok(Seq::empty())
    } else {
        match inner_instances(members, decoded, (count - 1) as nat, destination, sids) {
            Err(expected) => Err(expected),
            Ok(before) => match member_fault(members[count - 1], decoded[count - 1]) {
                Some(expected) => Err(expected),
                None => {
                    let list = decoded[count - 1]->Ok_0;
                    match instances_fault(list, list.len(), destination, sids) {
                        Some(fault) => Err(Expected::Named(fault)),
                        None => if entries_overlap(list, before, destination, sids) {
                            Err(
                                Expected::Named(
                                    duplicate_fault("duplicate entry-index override group"@),
                                ),
                            )
                        } else {
                            Ok(before + list)
                        },
                    }
                },
            },
        }
    }
}

/// The instances of all members of a sequence, or the error to expect. `ends`
/// tells whether the sequence is read to its end.
pub open spec fn inner_outcome(
    members: Seq<MemberView>,
    ends: bool,
    decoded: Seq<Result<Seq<InstanceView>, Seq<char>>>,
    destination: RuleSelector,
    sids: ModelSids,
) -> Result<Seq<InstanceView>, Expected> {
    match inner_instances(members, decoded, members.len(), destination, sids) {
        Err(expected) => Err(expected),
        Ok(list) => if ends {
            Ok(list)
        } else {
            Err(Expected::Prefixed("invalid ipatch-sequence CBOR: "@))
        },
    }
}

proof fn lemma_instance_fault_stays(
    instances: Seq<InstanceView>,
    count: nat,
    more: nat,
    destination: RuleSelector,
    sids: ModelSids,
)
    requires
        count <= more,
        instances_fault(instances, count, destination, sids) is Some,
    ensures
        instances_fault(instances, more, destination, sids) == instances_fault(
            instances,
            count,
            destination,
            sids,
        ),
    decreases more,
{
    if count < more {
        lemma_instance_fault_stays(instances, count, (more - 1) as nat, destination, sids);
    }
}

/// The leaves that accepted instances change.
pub open spec fn leaves_of(
    instances: Seq<InstanceView>,
    leaves: Seq<(usize, DuplicateLeaf)>,
    destination: RuleSelector,
    sids: ModelSids,
) -> bool {
    &&& leaves.len() == instances.len()
    &&& forall|i: int|
        0 <= i < instances.len() ==> changed_leaf(
            (#[trigger] instances[i]).path,
            destination,
            sids,
        ) == Ok::<(usize, DuplicateLeaf), Fault>(leaves[i])
}

fn holds_leaf(seen: &Vec<(usize, DuplicateLeaf)>, found: (usize, DuplicateLeaf)) -> (result: bool)
    ensures
        result == seen@.contains(found),
{
    let mut index: usize = 0;
    while index < seen.len()
        invariant
            index <= seen@.len(),
            forall|i: int| 0 <= i < index ==> seen@[i] != found,
        decreases seen.len() - index,
    {
        if seen[index].0 == found.0 && seen[index].1 == found.1 {
            assert(seen@[index as int] == found);
            return true;
        }
        index += 1;
    }
    false
}

fn check_instances(instances: &Vec<Instance>, destination: RuleSelector, sids: &ModelSids) -> (result:
    Result<Vec<(usize, DuplicateLeaf)>, InspectionError>)
    ensures
        ({
            let view = instances_view(instances@);
            let fault = instances_fault(view, view.len(), destination, *sids);
            match result {
                Ok(leaves) => fault is None && leaves_of(view, leaves@, destination, *sids),
                Err(error) => fault == Some(error@),
            }
        }),
{
    let ghost view = instances_view(instances@);
    let mut seen: Vec<(usize, DuplicateLeaf)> = Vec::new();
    let mut index: usize = 0;
    while index < instances.len()
        invariant
            index <= instances@.len(),
            view == instances_view(instances@),
            seen@.len() == index,
            forall|i: int|
                0 <= i < index ==> changed_leaf((#[trigger] view[i]).path, destination, *sids)
                    == Ok::<(usize, DuplicateLeaf), Fault>(seen@[i]),
            instances_fault(view, index as nat, destination, *sids) is None,
        decreases instances.len() - index,
    {
        assert(view[index as int] == instances@[index as int]@);
        proof {
            if instances_fault(view, (index + 1) as nat, destination, *sids) is Some {
                lemma_instance_fault_stays(
                    view,
                    (index + 1) as nat,
                    view.len(),
                    destination,
                    *sids,
                );
            }
        }
        let found = duplicate_leaf_from_path(&instances[index].path, destination, sids)?;
        let taken = holds_leaf(&seen, found);
        proof {
            if taken {
                let at = choose|i: int| 0 <= i < seen@.len() && seen@[i] == found;
                assert(changed_leaf(view[at].path, destination, *sids) == Ok::<
                    (usize, DuplicateLeaf),
                    Fault,
                >(seen@[at]));
            }
            if crate::duplicate_tree::leaf_taken(
                view,
                index as int,
                destination,
                *sids,
                found,
            ) {
                let at = choose|i: int|
                    0 <= i < index && changed_leaf(
                        (#[trigger] view[i]).path,
                        destination,
                        *sids,
                    ) == Ok::<(usize, DuplicateLeaf), Fault>(found);
                assert(seen@[at] == found);
            }
        }
        if taken {
            return Err(invalid_duplicate("duplicate override leaf"));
        }
        seen.push(found);
        index += 1;
    }
    Ok(seen)
}

fn share_entry(
    leaves: &Vec<(usize, DuplicateLeaf)>,
    others: &Vec<(usize, DuplicateLeaf)>,
    Ghost(instances): Ghost<Seq<InstanceView>>,
    Ghost(before): Ghost<Seq<InstanceView>>,
    destination: RuleSelector,
    sids: &ModelSids,
) -> (result: bool)
    requires
        leaves_of(instances, leaves@, destination, *sids),
        leaves_of(before, others@, destination, *sids),
    ensures
        result == entries_overlap(instances, before, destination, *sids),
{
    let mut index: usize = 0;
    while index < leaves.len()
        invariant
            index <= leaves@.len(),
            leaves_of(instances, leaves@, destination, *sids),
            leaves_of(before, others@, destination, *sids),
            forall|i: int, j: int|
                #![trigger leaves@[i], others@[j]]
                0 <= i < index && 0 <= j < others@.len() ==> leaves@[i].0 != others@[j].0,
        decreases leaves.len() - index,
    {
        let mut other: usize = 0;
        while other < others.len()
            invariant
                other <= others@.len(),
                index < leaves@.len(),
                leaves_of(instances, leaves@, destination, *sids),
                leaves_of(before, others@, destination, *sids),
                forall|j: int|
                    0 <= j < other ==> leaves@[index as int].0 != (#[trigger] others@[j]).0,
            decreases others.len() - other,
        {
            if leaves[index].0 == others[other].0 {
                proof {
                    let entry = leaves@[index as int].0;
                    assert(changed_leaf(instances[index as int].path, destination, *sids) is Ok);
                    assert(changed_leaf(before[other as int].path, destination, *sids) is Ok);
                    assert(entry_changed(
                        instances,
                        instances.len() as int,
                        destination,
                        *sids,
                        entry,
                    ));
                    assert(entry_changed(
                        before,
                        before.len() as int,
                        destination,
                        *sids,
                        entry,
                    ));
                }
                return true;
            }
            other += 1;
        }
        index += 1;
    }
    proof {
        if entries_overlap(instances, before, destination, *sids) {
            let entry = choose|entry: usize| #[trigger]
                entry_changed(instances, instances.len() as int, destination, *sids, entry)
                    && entry_changed(before, before.len() as int, destination, *sids, entry);
            let i = choose|i: int|
                0 <= i < instances.len() && (changed_leaf(
                    (#[trigger] instances[i]).path,
                    destination,
                    *sids,
                ) matches Ok(found) && found.0 == entry);
            let j = choose|j: int|
                0 <= j < before.len() && (changed_leaf(
                    (#[trigger] before[j]).path,
                    destination,
                    *sids,
                ) matches Ok(found) && found.0 == entry);
            assert(leaves@[i].0 == entry);
            assert(others@[j].0 == entry);
        }
    }
    false
}

fn check_member(member: &Member, decoded: &Result<Vec<Instance>, String>) -> (result: Result<
    (),
    InspectionError,
>)
    ensures
        match result {
            Ok(_) => member_fault(member@, decoded_view(*decoded)) is None,
            Err(error) => member_fault(member@, decoded_view(*decoded)) matches Some(expected)
                && meets(expected, error@),
        },
{
    proof {
        lemma_cbor_view(member.value);
    }
    let count: usize = match &member.value {
        CborValue::Entries(entries) => entries.len(),
        _ => {
            return Err(invalid_duplicate("ipatch-sequence members must be maps"));
        },
    };
    if count == 0 || count > 3 {
        return Err(invalid_duplicate("each override map must contain one to three leaves"));
    }
    if !member.value.unique_keys() {
        return Err(invalid_duplicate("duplicate CBOR map key"));
    }
    match encode_item(&member.value) {
        Err(text) => {
            let error = prefixed_duplicate("", text.as_str());
            proof {
                reveal_strlit("");
                assert(""@ =~= Seq::<char>::empty());
            }
            return Err(error);
        },
        Ok(canonical) => {
            if !same_bytes(canonical.as_slice(), member.bytes.as_slice()) {
                return Err(invalid_duplicate("noncanonical ipatch-sequence map"));
            }
        },
    }
    match decoded {
        Err(text) => Err(
            invalid_duplicate(join("invalid override value: ", text.as_str()).as_str()),
        ),
        Ok(list) => {
            if list.len() != count {
                return Err(invalid_duplicate("override map did not decode completely"));
            }
            Ok(())
        },
    }
}

proof fn lemma_inner_error_stays(
    members: Seq<MemberView>,
    decoded: Seq<Result<Seq<InstanceView>, Seq<char>>>,
    count: nat,
    more: nat,
    destination: RuleSelector,
    sids: ModelSids,
)
    requires
        count <= more,
        inner_instances(members, decoded, count, destination, sids) is Err,
    ensures
        inner_instances(members, decoded, more, destination, sids) == inner_instances(
            members,
            decoded,
            count,
            destination,
            sids,
        ),
    decreases more,
{
    if count < more {
        lemma_inner_error_stays(members, decoded, count, (more - 1) as nat, destination, sids);
    }
}

/// Reads the changes of a sequence whose members the model library decoded,
/// with the leaf that each of them changes.
fn decode_duplicate_inner(
    members: &Members,
    decoded: &Vec<Result<Vec<Instance>, String>>,
    destination: RuleSelector,
    sids: &ModelSids,
) -> (result: Result<(Vec<Instance>, Vec<(usize, DuplicateLeaf)>), InspectionError>)
    requires
        decoded@.len() == members.list@.len(),
    ensures
        ({
            let outcome = inner_outcome(
                members_seen(members.list@),
                members.failure is None,
                answers_view(decoded@),
                destination,
                *sids,
            );
            match result {
                Ok((list, leaves)) => outcome == Ok::<Seq<InstanceView>, Expected>(
                    instances_view(list@),
                ) && leaves_of(instances_view(list@), leaves@, destination, *sids),
                Err(error) => outcome is Err && meets(outcome->Err_0, error@),
            }
        }),
{
    let ghost view = members_seen(members.list@);
    let ghost answers = answers_view(decoded@);
    let mut list: Vec<Instance> = Vec::new();
    let mut leaves: Vec<(usize, DuplicateLeaf)> = Vec::new();
    let mut index: usize = 0;
    assert(instances_view(list@) =~= Seq::<InstanceView>::empty());
    while index < members.list.len()
        invariant
            index <= members.list@.len(),
            decoded@.len() == members.list@.len(),
            view == members_seen(members.list@),
            answers == answers_view(decoded@),
            inner_instances(view, answers, index as nat, destination, *sids) == Ok::<
                Seq<InstanceView>,
                Expected,
            >(instances_view(list@)),
            leaves_of(instances_view(list@), leaves@, destination, *sids),
        decreases members.list.len() - index,
    {
        proof {
            assert(view[index as int] == members.list@[index as int]@);
            assert(answers[index as int] == decoded_view(decoded@[index as int]));
            if inner_instances(view, answers, (index + 1) as nat, destination, *sids) is Err {
                lemma_inner_error_stays(
                    view,
                    answers,
                    (index + 1) as nat,
                    view.len(),
                    destination,
                    *sids,
                );
            }
        }
        check_member(&members.list[index], &decoded[index])?;
        match &decoded[index] {
            Err(_) => {},
            Ok(found) => {
                let ghost before = instances_view(list@);
                let ghost fresh = instances_view(found@);
                let mut new_leaves = check_instances(found, destination, sids)?;
                if share_entry(
                    &new_leaves,
                    &leaves,
                    Ghost(fresh),
                    Ghost(before),
                    destination,
                    sids,
                ) {
                    return Err(invalid_duplicate("duplicate entry-index override group"));
                }
                let ghost old_leaves = leaves@;
                let ghost added = new_leaves@;
                extend_instances(&mut list, found);
                leaves.append(&mut new_leaves);
                proof {
                    assert(leaves@ =~= old_leaves + added);
                    assert forall|i: int| 0 <= i < instances_view(list@).len() implies changed_leaf(
                        (#[trigger] instances_view(list@)[i]).path,
                        destination,
                        *sids,
                    ) == Ok::<(usize, DuplicateLeaf), Fault>(leaves@[i]) by {
                        if i < before.len() {
                            assert(instances_view(list@)[i] == before[i]);
                        } else {
                            assert(instances_view(list@)[i] == fresh[i - before.len()]);
                        }
                    }
                }
            },
        }
        index += 1;
    }
    match &members.failure {
        Some(text) => {
            Err(prefixed_duplicate("invalid ipatch-sequence CBOR: ", text.as_str()))
        },
        None => Ok((list, leaves)),
    }
}

fn extend_instances(list: &mut Vec<Instance>, more: &Vec<Instance>)
    ensures
        instances_view(final(list)@) == instances_view(old(list)@) + instances_view(more@),
{
    let ghost before = instances_view(list@);
    let ghost added = instances_view(more@);
    let mut index: usize = 0;
    assert(before + added.take(0) =~= before);
    while index < more.len()
        invariant
            index <= more@.len(),
            added == instances_view(more@),
            instances_view(list@) == before + added.take(index as int),
        decreases more.len() - index,
    {
        let ghost held = instances_view(list@);
        let instance = more[index].copy();
        list.push(instance);
        proof {
            assert(instances_view(list@) =~= held.push(instance@));
            assert(before + added.take(index + 1) =~= (before + added.take(index as int)).push(
                added[index as int],
            ));
        }
        index += 1;
    }
    assert(added.take(added.len() as int) =~= added);
}

/// How many leading numbers of an ascending list are smaller than a number.
pub open spec fn place(list: Seq<usize>, item: usize) -> nat
    decreases list.len(),
{
    if list.len() == 0 || list[0] >= item {
        0
    } else {
        1 + place(list.drop_first(), item)
    }
}

/// An ascending list with a number added, unless it is there.
pub open spec fn with_index(list: Seq<usize>, item: usize) -> Seq<usize> {
    let at = place(list, item);
    if at < list.len() && list[at as int] == item {
        list
    } else {
        list.insert(at as int, item)
    }
}

/// The entries that the first of some leaves belong to, ascending and without
/// repetition.
pub open spec fn changed_entries(leaves: Seq<(usize, DuplicateLeaf)>) -> Seq<usize>
    decreases leaves.len(),
{
    if leaves.len() == 0 {
        Seq::empty()
    } else {
        with_index(changed_entries(leaves.drop_last()), leaves.last().0)
    }
}

/// Where a number stands in a list, or belongs.
pub proof fn lemma_place(list: Seq<usize>, item: usize, at: nat)
    requires
        at <= list.len(),
        forall|i: int| 0 <= i < at ==> list[i] < item,
        at < list.len() ==> list[at as int] >= item,
    ensures
        place(list, item) == at,
    decreases list.len(),
{
    if at > 0 {
        let rest = list.drop_first();
        assert forall|i: int| 0 <= i < at - 1 implies rest[i] < item by {
            assert(rest[i] == list[i + 1]);
        }
        lemma_place(rest, item, (at - 1) as nat);
    }
}

/// Where a number's place begins.
pub proof fn lemma_place_bounds(list: Seq<usize>, item: usize)
    ensures
        place(list, item) <= list.len(),
        forall|i: int| 0 <= i < place(list, item) ==> (#[trigger] list[i]) < item,
        place(list, item) < list.len() ==> list[place(list, item) as int] >= item,
    decreases list.len(),
{
    if list.len() > 0 && list[0] < item {
        let rest = list.drop_first();
        lemma_place_bounds(rest, item);
        assert forall|i: int| 0 <= i < place(list, item) implies (#[trigger] list[i]) < item by {
            if i > 0 {
                assert(list[i] == rest[i - 1]);
            }
        }
    }
}

/// The entries of some leaves are ascending, and they are the entries of the
/// leaves and no others.
pub proof fn changed_entries_are_exact(leaves: Seq<(usize, DuplicateLeaf)>)
    ensures
        forall|i: int, j: int|
            0 <= i < j < changed_entries(leaves).len() ==> changed_entries(leaves)[i]
                < changed_entries(leaves)[j],
        forall|entry: usize| #[trigger]
            changed_entries(leaves).contains(entry) <==> exists|i: int|
                0 <= i < leaves.len() && (#[trigger] leaves[i]).0 == entry,
    decreases leaves.len(),
{
    if leaves.len() > 0 {
        let list = changed_entries(leaves.drop_last());
        let item = leaves.last().0;
        let at = place(list, item);
        let after = changed_entries(leaves);
        changed_entries_are_exact(leaves.drop_last());
        lemma_place_bounds(list, item);
        if at < list.len() && list[at as int] == item {
        } else {
            assert(after == list.insert(at as int, item));
            assert(after[at as int] == item);
        }
        assert forall|entry: usize| #[trigger] after.contains(entry) implies exists|i: int|
            0 <= i < leaves.len() && (#[trigger] leaves[i]).0 == entry by {
            if entry == item {
                assert(leaves[leaves.len() - 1].0 == entry);
            } else {
                let k = choose|k: int| 0 <= k < after.len() && after[k] == entry;
                if after == list {
                    assert(list.contains(entry));
                } else if k < at {
                    assert(list[k] == entry);
                } else {
                    assert(list[k - 1] == entry);
                }
                assert(list.contains(entry));
                let i = choose|i: int|
                    0 <= i < leaves.drop_last().len() && (#[trigger] leaves.drop_last()[i]).0
                        == entry;
                assert(leaves[i].0 == entry);
            }
        }
        assert forall|entry: usize|
            (exists|i: int| 0 <= i < leaves.len() && (#[trigger] leaves[i]).0
                == entry) implies #[trigger] after.contains(entry) by {
            if entry == item {
                if after == list {
                    assert(after[at as int] == entry);
                } else {
                    assert(after[at as int] == entry);
                }
            } else {
                let i = choose|i: int| 0 <= i < leaves.len() && (#[trigger] leaves[i]).0 == entry;
                assert(leaves.drop_last()[i].0 == entry);
                assert(list.contains(entry));
                let k = choose|k: int| 0 <= k < list.len() && list[k] == entry;
                if after == list {
                } else if k < at {
                    assert(after[k] == entry);
                } else {
                    assert(after[k + 1] == entry);
                }
            }
        }
    }
}

fn add_index(list: &mut Vec<usize>, item: usize)
    ensures
        final(list)@ == with_index(old(list)@, item),
{
    let mut at: usize = 0;
    while at < list.len() && list[at] < item
        invariant
            at <= list@.len(),
            list@ == old(list)@,
            forall|i: int| 0 <= i < at ==> list@[i] < item,
        decreases list.len() - at,
    {
        at += 1;
    }
    proof {
        lemma_place(list@, item, at as nat);
    }
    if at < list.len() && list[at] == item {
        return;
    }
    list.insert(at, item);
}

fn list_entries(leaves: &Vec<(usize, DuplicateLeaf)>) -> (result: Vec<usize>)
    ensures
        result@ == changed_entries(leaves@),
{
    let mut list: Vec<usize> = Vec::new();
    let mut index: usize = 0;
    assert(list@ =~= changed_entries(leaves@.take(0)));
    while index < leaves.len()
        invariant
            index <= leaves@.len(),
            list@ == changed_entries(leaves@.take(index as int)),
        decreases leaves.len() - index,
    {
        proof {
            assert(leaves@.take(index + 1).drop_last() =~= leaves@.take(index as int));
            assert(leaves@.take(index + 1).last() == leaves@[index as int]);
        }
        add_index(&mut list, leaves[index].0);
        index += 1;
    }
    assert(leaves@.take(leaves@.len() as int) =~= leaves@);
    list
}

/// The leaf that each instance changes.
pub open spec fn instance_leaves(
    instances: Seq<InstanceView>,
    destination: RuleSelector,
    sids: ModelSids,
) -> Seq<(usize, DuplicateLeaf)> {
    Seq::new(
        instances.len(),
        |i: int| changed_leaf(instances[i].path, destination, sids)->Ok_0,
    )
}

/// Overrides that name entries and no leaves.
pub open spec fn bare_overrides(entries: Seq<usize>) -> Seq<OverrideView> {
    entries.map_values(
        |entry: usize|
            OverrideView {
                entry_index: entry,
                target_value: None,
                matching_operator: None,
                cda: None,
            },
    )
}

/// A decoded duplicate operation.
#[derive(Debug)]
pub struct DecodedDuplicateOperation {
    /// The rules and entries.
    pub request: RuleDuplicateRequest,
    /// The changes.
    pub instances: Vec<Instance>,
    /// The encoded changes.
    pub inner_payload: Vec<u8>,
}

/// A decoded duplicate operation as a mathematical value.
pub struct DecodedView {
    /// The rules and entries.
    pub request: DuplicateView,
    /// The changes.
    pub instances: Seq<InstanceView>,
    /// The encoded changes.
    pub inner_payload: Seq<u8>,
}

impl View for DecodedDuplicateOperation {
    type V = DecodedView;

    open spec fn view(&self) -> DecodedView {
        DecodedView {
            request: self.request@,
            instances: instances_view(self.instances@),
            inner_payload: self.inner_payload@,
        }
    }
}

/// The decoded operation, or the error to expect. `decoded` is what the model
/// library decoded from the bytes of each member of the encoded changes.
pub open spec fn decoded_operation(
    operation: OperationView,
    decoded: Seq<Result<Seq<InstanceView>, Seq<char>>>,
) -> Result<DecodedView, Expected> {
    let members = sequence_members(operation.inner);
    if decoded.len() != members.len() {
        Err(Expected::Named(duplicate_fault("override answers are incomplete"@)))
    } else {
        match inner_outcome(
            members,
            sequence_ends(operation.inner),
            decoded,
            operation.destination,
            operation.sids,
        ) {
            Err(expected) => Err(expected),
            Ok(instances) => Ok(
                DecodedView {
                    request: DuplicateView {
                        source: operation.source,
                        destination: operation.destination,
                        overrides: bare_overrides(
                            changed_entries(
                                instance_leaves(
                                    instances,
                                    operation.destination,
                                    operation.sids,
                                ),
                            ),
                        ),
                    },
                    instances,
                    inner_payload: operation.inner,
                },
            ),
        }
    }
}

fn bare_list(entries: &Vec<usize>) -> (result: Vec<RuleDuplicateOverride>)
    ensures
        overrides_view(result@) == bare_overrides(entries@),
{
    let mut list: Vec<RuleDuplicateOverride> = Vec::new();
    let mut index: usize = 0;
    while index < entries.len()
        invariant
            index <= entries@.len(),
            list@.len() == index,
            forall|i: int|
                0 <= i < index ==> (#[trigger] list@[i])@ == (OverrideView {
                    entry_index: entries@[i],
                    target_value: None,
                    matching_operator: None,
                    cda: None,
                }),
        decreases entries.len() - index,
    {
        list.push(
            RuleDuplicateOverride {
                entry_index: entries[index],
                target_value: None,
                matching_operator: None,
                cda: None,
            },
        );
        index += 1;
    }
    assert(overrides_view(list@) =~= bare_overrides(entries@));
    list
}

/// Decodes a duplicate operation that was read from its payload. `decoded` is
/// what the model library decoded from the bytes of each member of its encoded
/// changes, which `split_members` lists.
fn decode_operation(
    operation: DuplicateOperation,
    decoded: &Vec<Result<Vec<Instance>, String>>,
) -> (result: Result<DecodedDuplicateOperation, InspectionError>)
    ensures
        ({
            let outcome = decoded_operation(operation@, answers_view(decoded@));
            match result {
                Ok(value) => outcome == Ok::<DecodedView, Expected>(value@),
                Err(error) => outcome is Err && meets(outcome->Err_0, error@),
            }
        }),
{
    let split = split_members(operation.inner.as_slice());
    let members = &split;
    if decoded.len() != members.list.len() {
        return Err(invalid_duplicate("override answers are incomplete"));
    }
    let (instances, leaves) = decode_duplicate_inner(
        members,
        decoded,
        operation.destination,
        &operation.sids,
    )?;
    proof {
        let view = instances_view(instances@);
        assert forall|i: int| 0 <= i < view.len() implies instance_leaves(
            view,
            operation.destination,
            operation.sids,
        )[i] == leaves@[i] by {
            assert(changed_leaf(view[i].path, operation.destination, operation.sids) == Ok::<
                (usize, DuplicateLeaf),
                Fault,
            >(leaves@[i]));
        }
        assert(instance_leaves(view, operation.destination, operation.sids) =~= leaves@);
    }
    let entries = list_entries(&leaves);
    let overrides = bare_list(&entries);
    Ok(
        DecodedDuplicateOperation {
            request: RuleDuplicateRequest {
                source: operation.source,
                destination: operation.destination,
                overrides,
            },
            instances,
            inner_payload: operation.inner,
        },
    )
}

/// The operation that a payload holds, or the error to expect.
pub open spec fn payload_operation(
    model: ModelView,
    payload: Seq<u8>,
    instances: Result<Seq<InstanceView>, Seq<char>>,
    decoded: Seq<Result<Seq<InstanceView>, Seq<char>>>,
) -> Result<DecodedView, Expected> {
    match operation_of(model, payload, instances) {
        Err(expected) => Err(expected),
        Ok(operation) => decoded_operation(operation, decoded),
    }
}

/// Decodes the duplicate operation that a payload holds.
///
/// `instances` is what the model library decoded from the payload, and
/// `decoded` what it decoded from the bytes of each member of the encoded
/// changes: those that `split_members` lists for what `read_operation` reads.
pub fn decode_duplicate_operation(
    model: &SidModel,
    payload: &[u8],
    instances: &Result<Vec<Instance>, String>,
    decoded: &Vec<Result<Vec<Instance>, String>>,
) -> (result: Result<DecodedDuplicateOperation, InspectionError>)
    ensures
        ({
            let outcome = payload_operation(
                model@,
                payload@,
                decoded_view(*instances),
                answers_view(decoded@),
            );
            match result {
                Ok(value) => outcome == Ok::<DecodedView, Expected>(value@),
                Err(error) => outcome is Err && meets(outcome->Err_0, error@),
            }
        }),
{
    let operation = read_operation(model, payload, instances)?;
    decode_operation(operation, decoded)
}

/// An accepted operation has its source under `from`, its destination under
/// `to`, each by value and bit length, and its encoded changes under
/// `ipatch-sequence`, which may be left out.
pub proof fn operation_reads_source_and_destination(sids: ModelSids, input: Json)
    requires
        operation_parts(sids, input) is Ok,
    ensures
        ({
            let operation = operation_parts(sids, input)->Ok_0;
            let from = member(input, "from"@)->0;
            let to = member(input, "to"@)->0;
            &&& member(input, "from"@) is Some
            &&& member(input, "to"@) is Some
            &&& unsigned_member(from, "rule-id-value"@) == Some(operation.source.value)
            &&& unsigned_member(from, "rule-id-length"@) == Some(operation.source.bits as u64)
            &&& unsigned_member(to, "rule-id-value"@) == Some(operation.destination.value)
            &&& unsigned_member(to, "rule-id-length"@) == Some(operation.destination.bits as u64)
            &&& member(input, "ipatch-sequence"@) is None ==> operation.inner.len() == 0
            &&& member(input, "ipatch-sequence"@) matches Some(part) ==> (!(part is Text)
                ==> binary_of(part) == Ok::<Seq<u8>, Fault>(operation.inner))
            &&& operation.sids == sids
        }),
{
}

/// A payload holds an operation only where it is one canonical CBOR map and
/// nothing else, and decodes to the single instance of the duplicate operation
/// with an input container alone.
pub proof fn operation_payload_is_one_canonical_map(
    model: ModelView,
    payload: Seq<u8>,
    instances: Result<Seq<InstanceView>, Seq<char>>,
)
    requires
        operation_of(model, payload, instances) is Ok,
    ensures
        cbor_item(payload) is Some,
        (cbor_item(payload)->0).1 == payload.len(),
        (cbor_item(payload)->0).0 is Entries,
        cbor_bytes((cbor_item(payload)->0).0) == Some(payload),
        operation_sids(model) is Ok,
        instances is Ok,
        instances->Ok_0.len() == 1,
        instances->Ok_0[0].path == seq![
            Step::Delta(operation_sids(model)->Ok_0.duplicate_rule as int),
        ],
        instances->Ok_0[0].value is Some,
        member(instances->Ok_0[0].value->0, "input"@) is Some,
        operation_of(model, payload, instances)->Ok_0 == operation_parts(
            operation_sids(model)->Ok_0,
            member(instances->Ok_0[0].value->0, "input"@)->0,
        )->Ok_0,
{
}

/// A member of the encoded changes is accepted only as a canonical map of one
/// to three leaves with different keys, all of which are decoded.
pub proof fn accepted_member_is_a_canonical_map(
    member: MemberView,
    decoded: Result<Seq<InstanceView>, Seq<char>>,
)
    requires
        member_fault(member, decoded) is None,
    ensures
        member.value is Entries,
        1 <= member.value->Entries_0.len() <= 3,
        keys_unique(member.value),
        cbor_bytes(member.value) == Some(member.bytes),
        decoded is Ok,
        decoded->Ok_0.len() == member.value->Entries_0.len(),
{
}

/// A decoded operation keeps the source, the destination and the encoded
/// changes that were read, and names exactly the entries that its changes are
/// about, without any leaf of theirs.
pub proof fn decoded_operation_keeps_its_parts(
    operation: OperationView,
    decoded: Seq<Result<Seq<InstanceView>, Seq<char>>>,
    at: int,
)
    requires
        decoded_operation(operation, decoded) is Ok,
        0 <= at < decoded_operation(operation, decoded)->Ok_0.request.overrides.len(),
    ensures
        ({
            let result = decoded_operation(operation, decoded)->Ok_0;
            let leaves = instance_leaves(
                result.instances,
                operation.destination,
                operation.sids,
            );
            &&& result.request.source == operation.source
            &&& result.request.destination == operation.destination
            &&& result.inner_payload == operation.inner
            &&& result.request.overrides[at].target_value is None
            &&& result.request.overrides[at].matching_operator is None
            &&& result.request.overrides[at].cda is None
            &&& result.request.overrides[at].entry_index == changed_entries(leaves)[at]
            &&& sequence_ends(operation.inner)
        }),
{
}

/// A selector of an operation is read exactly from an object of two members,
/// the value and the length of an identity.
pub proof fn operation_selector_has_two_members(value: Json, label: Seq<char>)
    ensures
        operation_selector(value, label) is Ok <==> {
            let number = unsigned_member(value, "rule-id-value"@);
            let bits = unsigned_member(value, "rule-id-length"@);
            &&& value is Object
            &&& value->Object_0.len() == 2
            &&& number is Some
            &&& bits is Some
            &&& bits->0 <= usize::MAX
            &&& selector_of(number->0, bits->0 as usize) is Ok
        },
        operation_selector(value, label) matches Ok(selector) ==> unsigned_member(
            value,
            "rule-id-value"@,
        ) == Some(selector.value) && unsigned_member(value, "rule-id-length"@) == Some(
            selector.bits as u64,
        ),
{
}

/// An operation is read exactly from an object whose members are a source, a
/// destination and an optional sequence, all well formed.
pub proof fn operation_is_read_from_its_members(sids: ModelSids, input: Json)
    ensures
        operation_parts(sids, input) is Ok <==> {
            &&& input is Object
            &&& forall|i: int|
                0 <= i < input->Object_0.len() ==> (#[trigger] input->Object_0[i]).0 == "from"@
                    || input->Object_0[i].0 == "to"@ || input->Object_0[i].0 == "ipatch-sequence"@
            &&& member(input, "from"@) is Some
            &&& member(input, "to"@) is Some
            &&& operation_selector(member(input, "from"@)->0, "source"@) is Ok
            &&& operation_selector(member(input, "to"@)->0, "destination"@) is Ok
            &&& binary_part(member(input, "ipatch-sequence"@)) is Ok
        },
{
}

/// A sequence of changes is empty where it is left out, base64 where it is a
/// text, and a list of bytes otherwise.
pub proof fn sequence_is_text_or_bytes(part: Option<Json>)
    ensures
        part is None ==> binary_part(part) == Ok::<Seq<u8>, Fault>(Seq::empty()),
        part is Some && part->0 is Text ==> binary_part(part) == decoded(
            vstd::utf8::encode_utf8(part->0->Text_0),
        ),
        part is Some && !(part->0 is Text) ==> binary_part(part) == binary_of(part->0),
{
}

/// A sequence is read item by item: its first member is the first item with the
/// bytes that encode it, and the others are those of the rest. It ends where
/// every byte belongs to an item.
pub proof fn sequence_is_read_item_by_item(bytes: Seq<u8>)
    ensures
        cbor_item(bytes) matches Some((value, length)) ==> 1 <= length <= bytes.len()
            ==> sequence_members(bytes).len() == sequence_members(bytes.skip(length as int)).len()
            + 1 && sequence_members(bytes)[0].value == value && sequence_members(bytes)[0].bytes
            == bytes.take(length as int) && sequence_members(bytes).skip(1) == sequence_members(
            bytes.skip(length as int),
        ) && sequence_ends(bytes) == sequence_ends(bytes.skip(length as int)),
        cbor_item(bytes) is None ==> sequence_members(bytes).len() == 0,
        cbor_item(bytes) is None && bytes.len() > 0 ==> !sequence_ends(bytes),
        bytes.len() == 0 ==> sequence_ends(bytes),
{
    if cbor_item(bytes) is Some {
        let (value, length) = cbor_item(bytes)->0;
        if 1 <= length <= bytes.len() {
            assert(sequence_members(bytes).skip(1) =~= sequence_members(bytes.skip(length as int)));
        }
    }
}

/// A member of a sequence is accepted exactly when it is a canonical map of one
/// to three leaves without a repeated key, all of which were decoded.
pub proof fn canonical_member_is_accepted(
    member: MemberView,
    decoded: Result<Seq<InstanceView>, Seq<char>>,
)
    ensures
        member_fault(member, decoded) is None <==> member.value is Entries && 1
            <= member.value->Entries_0.len() <= 3 && keys_unique(member.value) && cbor_bytes(
            member.value,
        ) == Some(member.bytes) && decoded is Ok && decoded->Ok_0.len()
            == member.value->Entries_0.len(),
{
}

} // verus!
