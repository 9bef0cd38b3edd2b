//! The payload of a duplicate operation.

use vstd::prelude::*;

use crate::cbor::{
    cbor_bytes, encode_item, entries_view, lemma_cbor_view, Cbor, CborValue,
};
use crate::context::{ContextSnapshot, SnapshotView};
use crate::duplicate_command::{
    no_leaves, overrides_view, DuplicateView, OverrideView, RuleDuplicateOverride,
    RuleDuplicateRequest,
};
use crate::duplicate_tree::{duplicate_source, find_source};
use crate::error::{
    duplicate_fault, invalid_duplicate, meets, prefixed_duplicate, Expected, Fault,
    InspectionError,
};
use crate::json::{Json, JsonValue};
use crate::number::bytes_value;
use crate::request::datagram_view;
use crate::rule::{fields_view, FieldLength, FieldRule, FieldRuleView, TargetValue, TargetView};
use crate::selector::RuleSelector;
use crate::sid::{operation_sids, validate_duplicate_model_shape, ModelSids, ModelView, SidModel};
use crate::target::{accepted_target_value_is_exact, numeric_target_value, replacement_bytes};
use crate::text::{
    decimal, decimal_string, decimal_value, join, join3, same_text, strip_prefix,
};

verus! {

/// Whether a text names a matching operator that a change may set.
pub open spec fn operator_name(input: Seq<char>) -> bool {
    ||| input == "equal"@
    ||| input == "ignore"@
    ||| input == "match-mapping"@
    ||| input == "mo-equal"@
    ||| input == "mo-ignore"@
    ||| input == "mo-match-mapping"@
}

/// Whether a text names an action that a change may set.
pub open spec fn action_name(input: Seq<char>) -> bool {
    ||| input == "not-sent"@
    ||| input == "value-sent"@
    ||| input == "mapping-sent"@
    ||| input == "lsb"@
    ||| input == "compute"@
    ||| input == "deviid"@
    ||| input == "appiid"@
    ||| input == "cda-not-sent"@
    ||| input == "cda-value-sent"@
    ||| input == "cda-mapping-sent"@
    ||| input == "cda-lsb"@
    ||| input == "cda-compute"@
    ||| input == "cda-deviid"@
    ||| input == "cda-appiid"@
}

/// A text behind a prefix, which it may already have.
pub open spec fn prefixed(prefix: Seq<char>, input: Seq<char>) -> Seq<char> {
    if prefix.is_prefix_of(input) {
        input
    } else {
        prefix + input
    }
}

/// The full name of the identity that a change sets.
pub open spec fn identity_name(input: Seq<char>, matching: bool) -> Result<Seq<char>, Fault> {
    if matching {
        if operator_name(input) {
            Ok(prefixed("mo-"@, input))
        } else {
            Err(duplicate_fault("invalid matching operator identity '"@ + input + "'"@))
        }
    } else if action_name(input) {
        Ok(prefixed("cda-"@, input))
    } else {
        Err(duplicate_fault("invalid CDA identity '"@ + input + "'"@))
    }
}

fn add_prefix(prefix: &str, input: &str) -> (result: String)
    ensures
        result@ == prefixed(prefix@, input@),
{
    match strip_prefix(input, prefix) {
        Some(_) => input.to_owned(),
        None => join(prefix, input),
    }
}

fn known_operator(input: &str) -> (result: bool)
    ensures
        result == operator_name(input@),
{
    same_text(input, "equal") || same_text(input, "ignore") || same_text(input, "match-mapping")
        || same_text(input, "mo-equal") || same_text(input, "mo-ignore") || same_text(
        input,
        "mo-match-mapping",
    )
}

fn known_action(input: &str) -> (result: bool)
    ensures
        result == action_name(input@),
{
    same_text(input, "not-sent") || same_text(input, "value-sent") || same_text(
        input,
        "mapping-sent",
    ) || same_text(input, "lsb") || same_text(input, "compute") || same_text(input, "deviid")
        || same_text(input, "appiid") || same_text(input, "cda-not-sent") || same_text(
        input,
        "cda-value-sent",
    ) || same_text(input, "cda-mapping-sent") || same_text(input, "cda-lsb") || same_text(
        input,
        "cda-compute",
    ) || same_text(input, "cda-deviid") || same_text(input, "cda-appiid")
}

/// Returns the full name of the identity that a change sets.
pub fn canonical_identity(input: &str, matching: bool) -> (result: Result<String, InspectionError>)
    ensures
        match result {
            Ok(name) => identity_name(input@, matching) == Ok::<Seq<char>, Fault>(name@),
            Err(error) => identity_name(input@, matching) == Err::<Seq<char>, Fault>(error@),
        },
{
    if matching {
        if known_operator(input) {
            return Ok(add_prefix("mo-", input));
        }
        return Err(
            invalid_duplicate(join3("invalid matching operator identity '", input, "'").as_str()),
        );
    }
    if known_action(input) {
        return Ok(add_prefix("cda-", input));
    }
    Err(invalid_duplicate(join3("invalid CDA identity '", input, "'").as_str()))
}

/// The SID of the identity that a change sets, given the model's answer.
pub open spec fn identity_sid(input: Seq<char>, matching: bool, answer: Result<i64, String>) -> Result<
    i64,
    Fault,
> {
    match identity_name(input, matching) {
        Err(fault) => Err(fault),
        Ok(_) => match answer {
            Err(text) => Err(duplicate_fault(text@)),
            Ok(sid) => Ok(sid),
        },
    }
}

/// Returns the SID of the identity that a change sets. `answer` is what the
/// model knows under the full name of the identity.
pub fn duplicate_identity_sid(input: &str, matching: bool, answer: &Result<i64, String>) -> (result:
    Result<i64, InspectionError>)
    ensures
        match result {
            Ok(sid) => identity_sid(input@, matching, *answer) == Ok::<i64, Fault>(sid),
            Err(error) => identity_sid(input@, matching, *answer) == Err::<i64, Fault>(error@),
        },
{
    let _name = canonical_identity(input, matching)?;
    match answer {
        Ok(sid) => Ok(*sid),
        Err(text) => Err(invalid_duplicate(text.as_str())),
    }
}

/// What the model libraries answered for one override.
#[derive(Debug)]
pub struct OverrideAnswers {
    /// The SID of the matching operator's identity.
    pub matching: Result<i64, String>,
    /// The SID of the action's identity.
    pub cda: Result<i64, String>,
    /// The encoded path of the target value.
    pub target_key: Result<CborValue, String>,
    /// The encoded path of the matching operator.
    pub matching_key: Result<CborValue, String>,
    /// The encoded path of the action.
    pub cda_key: Result<CborValue, String>,
}

/// The first entry with an index.
pub open spec fn field_with_index(fields: Seq<FieldRuleView>, entry_index: usize) -> Option<
    FieldRuleView,
>
    decreases fields.len(),
{
    if fields.len() == 0 {
        None
    } else if fields[0].entry_index == entry_index {
        Some(fields[0])
    } else {
        field_with_index(fields.drop_first(), entry_index)
    }
}

fn find_field(fields: &Vec<FieldRule>, entry_index: usize) -> (result: Option<&FieldRule>)
    ensures
        match result {
            Some(field) => field_with_index(fields_view(fields@), entry_index) == Some(field@),
            None => field_with_index(fields_view(fields@), entry_index) is None,
        },
{
    let ghost view = fields_view(fields@);
    proof {
        assert(view.skip(0) =~= view);
    }
    let mut index: usize = 0;
    while index < fields.len()
        invariant
            index <= fields@.len(),
            view == fields_view(fields@),
            field_with_index(view, entry_index) == field_with_index(
                view.skip(index as int),
                entry_index,
            ),
        decreases fields.len() - index,
    {
        proof {
            assert(view.skip(index as int)[0] == view[index as int]);
            assert(view.skip(index as int).drop_first() =~= view.skip(index + 1));
        }
        if fields[index].entry_index == entry_index {
            return Some(&fields[index]);
        }
        index += 1;
    }
    None
}

/// The bytes of a target value that an override sets.
pub open spec fn override_target(field: FieldRuleView, input: Seq<char>) -> Result<Seq<u8>, Fault> {
    match field.target {
        TargetView::Bytes(current) => match field.length {
            FieldLength::FixedBits(bits) => replacement_bytes(
                input,
                current.len(),
                Json::Integer(bits as int),
            ),
            _ => Err(
                duplicate_fault("target override requires a fixed numeric field length"@),
            ),
        },
        _ => Err(duplicate_fault("target override requires one binary source target"@)),
    }
}

fn target_bytes(field: &FieldRule, input: &str) -> (result: Result<Vec<u8>, InspectionError>)
    ensures
        match result {
            Ok(bytes) => override_target(field@, input@) == Ok::<Seq<u8>, Fault>(bytes@),
            Err(error) => override_target(field@, input@) == Err::<Seq<u8>, Fault>(error@),
        },
{
    match &field.target {
        TargetValue::Bytes(current) => match field.length {
            FieldLength::FixedBits(bits) => {
                let length = JsonValue::Integer(bits as i128);
                numeric_target_value(input, current.as_slice(), &length)
            },
            _ => Err(
                invalid_duplicate("target override requires a fixed numeric field length"),
            ),
        },
        _ => Err(invalid_duplicate("target override requires one binary source target")),
    }
}

/// A change of one leaf: the answer for its path, and its value.
pub struct LeafChange {
    /// The encoded path.
    pub key: Result<Cbor, Seq<char>>,
    /// The value.
    pub value: Cbor,
}

/// The encoded path of an answer, or its error text.
pub open spec fn key_answer(answer: Result<CborValue, String>) -> Result<Cbor, Seq<char>> {
    match answer {
        Ok(key) => Ok(key@),
        Err(text) => Err(text@),
    }
}

/// The change of a target value, when an override has one.
pub open spec fn target_changes(
    field: FieldRuleView,
    input: Option<Seq<char>>,
    answers: OverrideAnswers,
) -> Result<Seq<LeafChange>, Fault> {
    match input {
        None => Ok(Seq::empty()),
        Some(text) => match override_target(field, text) {
            Err(fault) => Err(fault),
            Ok(bytes) => Ok(
                seq![LeafChange { key: key_answer(answers.target_key), value: Cbor::Bytes(bytes) }],
            ),
        },
    }
}

/// The change of an identity, when an override has one.
pub open spec fn identity_changes(
    input: Option<Seq<char>>,
    matching: bool,
    sid: Result<i64, String>,
    key: Result<CborValue, String>,
) -> Result<Seq<LeafChange>, Fault> {
    match input {
        None => Ok(Seq::empty()),
        Some(text) => match identity_sid(text, matching, sid) {
            Err(fault) => Err(fault),
            Ok(number) => Ok(
                seq![LeafChange { key: key_answer(key), value: Cbor::Integer(number as int) }],
            ),
        },
    }
}

/// The changes that one override makes, in their order.
pub open spec fn override_changes(
    fields: Seq<FieldRuleView>,
    change: OverrideView,
    answers: OverrideAnswers,
) -> Result<Seq<LeafChange>, Fault> {
    match field_with_index(fields, change.entry_index) {
        None => Err(
            duplicate_fault("unknown entry-index "@ + decimal(change.entry_index as nat)),
        ),
        Some(field) => if no_leaves(change) {
            Err(
                duplicate_fault(
                    "entry "@ + decimal(change.entry_index as nat) + " has no override leaves"@,
                ),
            )
        } else {
            match target_changes(field, change.target_value, answers) {
                Err(fault) => Err(fault),
                Ok(target) => match identity_changes(
                    change.matching_operator,
                    true,
                    answers.matching,
                    answers.matching_key,
                ) {
                    Err(fault) => Err(fault),
                    Ok(matching) => match identity_changes(
                        change.cda,
                        false,
                        answers.cda,
                        answers.cda_key,
                    ) {
                        Err(fault) => Err(fault),
                        Ok(action) => Ok(target + matching + action),
                    },
                },
            }
        },
    }
}

/// The members of an override's map, or the error of the first path that
/// could not be encoded.
pub open spec fn change_entries(changes: Seq<LeafChange>) -> Result<Seq<(Cbor, Cbor)>, Fault>
    decreases changes.len(),
{
    if changes.len() == 0 {
        Ok(Seq::empty())
    } else {
        match change_entries(changes.drop_last()) {
            Err(fault) => Err(fault),
            Ok(entries) => match changes.last().key {
                Err(text) => Err(duplicate_fault(text)),
                Ok(key) => Ok(entries.push((key, changes.last().value))),
            },
        }
    }
}

/// The map of one override.
pub open spec fn override_map(
    fields: Seq<FieldRuleView>,
    change: OverrideView,
    answers: OverrideAnswers,
) -> Result<Cbor, Fault> {
    match override_changes(fields, change, answers) {
        Err(fault) => Err(fault),
        Ok(changes) => match change_entries(changes) {
            Err(fault) => Err(fault),
            Ok(entries) => Ok(Cbor::Entries(entries)),
        },
    }
}

fn add_change(
    entries: &mut Vec<(CborValue, CborValue)>,
    answer: &Result<CborValue, String>,
    value: CborValue,
    Ghost(changes): Ghost<Seq<LeafChange>>,
) -> (result: Result<(), InspectionError>)
    requires
        change_entries(changes) == Ok::<Seq<(Cbor, Cbor)>, Fault>(entries_view(old(entries)@)),
    ensures
        ({
            let more = changes.push(LeafChange { key: key_answer(*answer), value: value@ });
            match result {
                Ok(_) => change_entries(more) == Ok::<Seq<(Cbor, Cbor)>, Fault>(
                    entries_view(final(entries)@),
                ),
                Err(error) => change_entries(more) == Err::<Seq<(Cbor, Cbor)>, Fault>(error@),
            }
        }),
{
    let ghost change = LeafChange { key: key_answer(*answer), value: value@ };
    let ghost before = entries_view(entries@);
    assert(changes.push(change).drop_last() =~= changes);
    match answer {
        Err(text) => Err(invalid_duplicate(text.as_str())),
        Ok(key) => {
            let held = key.copy();
            entries.push((held, value));
            assert(entries_view(entries@) =~= before.push((held@, value@)));
            Ok(())
        },
    }
}

proof fn lemma_first_error_counts(changes: Seq<LeafChange>, more: Seq<LeafChange>)
    requires
        change_entries(changes) is Err,
    ensures
        change_entries(changes + more) == change_entries(changes),
    decreases more.len(),
{
    if more.len() == 0 {
        assert(changes + more =~= changes);
    } else {
        lemma_first_error_counts(changes, more.drop_last());
        assert((changes + more).drop_last() =~= changes + more.drop_last());
    }
}

/// Builds the map of one override.
#[verifier::rlimit(40)]
fn build_override(fields: &Vec<FieldRule>, change: &RuleDuplicateOverride, answers: &OverrideAnswers) -> (result:
    Result<CborValue, InspectionError>)
    ensures
        ({
            let outcome = override_map(fields_view(fields@), change@, *answers);
            match result {
                Ok(value) => outcome == Ok::<Cbor, Fault>(value@),
                Err(error) => outcome == Err::<Cbor, Fault>(error@),
            }
        }),
{
    let field = match find_field(fields, change.entry_index) {
        Some(field) => field,
        None => {
            return Err(
                invalid_duplicate(
                    join(
                        "unknown entry-index ",
                        decimal_string(change.entry_index as u64).as_str(),
                    ).as_str(),
                ),
            );
        },
    };
    if change.target_value.is_none() && change.matching_operator.is_none()
        && change.cda.is_none() {
        return Err(
            invalid_duplicate(
                join3(
                    "entry ",
                    decimal_string(change.entry_index as u64).as_str(),
                    " has no override leaves",
                ).as_str(),
            ),
        );
    }
    let target = match &change.target_value {
        Some(text) => Some(target_bytes(field, text.as_str())?),
        None => None,
    };
    let matching = match &change.matching_operator {
        Some(text) => Some(duplicate_identity_sid(text.as_str(), true, &answers.matching)?),
        None => None,
    };
    let action = match &change.cda {
        Some(text) => Some(duplicate_identity_sid(text.as_str(), false, &answers.cda)?),
        None => None,
    };
    let ghost first = target_changes(field@, change@.target_value, *answers)->Ok_0;
    let ghost second = identity_changes(
        change@.matching_operator,
        true,
        answers.matching,
        answers.matching_key,
    )->Ok_0;
    let ghost third = identity_changes(
        change@.cda,
        false,
        answers.cda,
        answers.cda_key,
    )->Ok_0;
    let mut entries: Vec<(CborValue, CborValue)> = Vec::new();
    let ghost mut done = Seq::<LeafChange>::empty();
    assert(entries_view(entries@) =~= Seq::<(Cbor, Cbor)>::empty());
    if let Some(bytes) = target {
        let outcome = add_change(
            &mut entries,
            &answers.target_key,
            CborValue::Bytes(bytes),
            Ghost(done),
        );
        proof {
            done = done.push(first[0]);
            assert(done =~= first);
            if change_entries(done) is Err {
                lemma_first_error_counts(done, second + third);
                assert(done + (second + third) =~= first + second + third);
            }
        }
        outcome?;
    }
    assert(done =~= first);
    if let Some(sid) = matching {
        let outcome = add_change(
            &mut entries,
            &answers.matching_key,
            CborValue::Integer(sid as i128),
            Ghost(done),
        );
        proof {
            done = done.push(second[0]);
            assert(done =~= first + second);
            if change_entries(done) is Err {
                lemma_first_error_counts(done, third);
            }
        }
        outcome?;
    }
    assert(done =~= first + second);
    if let Some(sid) = action {
        let outcome = add_change(
            &mut entries,
            &answers.cda_key,
            CborValue::Integer(sid as i128),
            Ghost(done),
        );
        proof {
            done = done.push(third[0]);
            assert(done =~= first + second + third);
        }
        outcome?;
    }
    assert(done =~= first + second + third);
    let map = CborValue::Entries(entries);
    proof {
        lemma_cbor_view(map);
    }
    Ok(map)
}

/// An accepted override map holds one member for each leaf that the override
/// names, and no other. The identity of the matching operator stands under the
/// encoded path of the matching operator, that of the action under the path of
/// the action, and the target's bytes under the path of the target, in the
/// order of target, operator and action.
pub proof fn override_map_names_its_leaves(
    fields: Seq<FieldRuleView>,
    change: OverrideView,
    answers: OverrideAnswers,
)
    requires
        override_map(fields, change, answers) is Ok,
    ensures
        ({
            let map = override_map(fields, change, answers)->Ok_0;
            let members = map->Entries_0;
            let before_matching: int = if change.target_value is Some {
                1
            } else {
                0
            };
            let before_action: int = before_matching + if change.matching_operator is Some {
                1int
            } else {
                0int
            };
            let whole: int = before_action + if change.cda is Some {
                1int
            } else {
                0int
            };
            &&& map is Entries
            &&& members.len() == whole
            &&& whole > 0
            &&& change.target_value is Some ==> {
                &&& answers.target_key is Ok
                &&& members[0].0 == answers.target_key->Ok_0@
                &&& members[0].1 is Bytes
                &&& bytes_value(members[0].1->Bytes_0) == decimal_value(change.target_value->0)
                &&& exists|i: int|
                    #![trigger fields[i]]
                    0 <= i < fields.len() && fields[i].entry_index == change.entry_index
                        && fields[i].target is Bytes && fields[i].target->Bytes_0.len()
                        == members[0].1->Bytes_0.len()
            }
            &&& change.matching_operator is Some ==> {
                &&& answers.matching_key is Ok
                &&& answers.matching is Ok
                &&& members[before_matching] == (
                    answers.matching_key->Ok_0@,
                    Cbor::Integer(answers.matching->Ok_0 as int),
                )
            }
            &&& change.cda is Some ==> {
                &&& answers.cda_key is Ok
                &&& answers.cda is Ok
                &&& members[before_action] == (
                    answers.cda_key->Ok_0@,
                    Cbor::Integer(answers.cda->Ok_0 as int),
                )
            }
        }),
{
    let changes = override_changes(fields, change, answers)->Ok_0;
    lemma_change_entries(changes);
    lemma_field_with_index(fields, change.entry_index);
    let field = field_with_index(fields, change.entry_index)->0;
    let target = target_changes(field, change.target_value, answers)->Ok_0;
    let (operator, operator_key) = (answers.matching, answers.matching_key);
    let matching = identity_changes(change.matching_operator, true, operator, operator_key)->Ok_0;
    let (cda, cda_key) = (answers.cda, answers.cda_key);
    let action = identity_changes(change.cda, false, cda, cda_key)->Ok_0;
    assert(changes == target + matching + action);
    if change.matching_operator is Some {
        assert(changes[target.len() as int] == matching[0]);
    }
    if change.cda is Some {
        assert(changes[(target.len() + matching.len()) as int] == action[0]);
    }
    if change.target_value is Some {
        assert(changes[0] == target[0]);
        accepted_target_value_is_exact(
            change.target_value->0,
            field.target->Bytes_0.len(),
            Json::Integer(field.length->FixedBits_0 as int),
        );
    }
}

/// The field that an index finds is the first with that index, and none is
/// found only where there is none.
proof fn lemma_field_with_index(fields: Seq<FieldRuleView>, entry_index: usize)
    ensures
        match field_with_index(fields, entry_index) {
            Some(field) => exists|i: int|
                #![trigger fields[i]]
                0 <= i < fields.len() && fields[i] == field && field.entry_index == entry_index
                    && forall|j: int|
                    #![trigger fields[j]]
                    0 <= j < i ==> fields[j].entry_index != entry_index,
            None => forall|i: int|
                #![trigger fields[i]]
                0 <= i < fields.len() ==> fields[i].entry_index != entry_index,
        },
    decreases fields.len(),
{
    if fields.len() > 0 && fields[0].entry_index != entry_index {
        let rest = fields.drop_first();
        lemma_field_with_index(rest, entry_index);
        match field_with_index(fields, entry_index) {
            Some(field) => {
                let k = choose|k: int|
                    #![trigger rest[k]]
                    0 <= k < rest.len() && rest[k] == field && field.entry_index == entry_index
                        && forall|j: int|
                        #![trigger rest[j]]
                        0 <= j < k ==> rest[j].entry_index != entry_index;
                assert(fields[k + 1] == field);
                assert forall|j: int|
                    #![trigger fields[j]]
                    0 <= j < k + 1 implies fields[j].entry_index != entry_index by {
                    if j > 0 {
                        assert(rest[j - 1] == fields[j]);
                    }
                }
            },
            None => {
                assert forall|i: int|
                    #![trigger fields[i]]
                    0 <= i < fields.len() implies fields[i].entry_index != entry_index by {
                    if i > 0 {
                        assert(rest[i - 1] == fields[i]);
                    }
                }
            },
        }
    } else if fields.len() > 0 {
        assert(fields[0].entry_index == entry_index);
    }
}

proof fn lemma_change_entries(changes: Seq<LeafChange>)
    requires
        change_entries(changes) is Ok,
    ensures
        change_entries(changes)->Ok_0.len() == changes.len(),
        forall|i: int|
            #![trigger changes[i]]
            0 <= i < changes.len() ==> changes[i].key is Ok && change_entries(changes)->Ok_0[i].0
                == changes[i].key->Ok_0 && change_entries(changes)->Ok_0[i].1 == changes[i].value,
    decreases changes.len(),
{
    if changes.len() > 0 {
        let before = changes.drop_last();
        lemma_change_entries(before);
        let held = change_entries(before)->Ok_0;
        let entries = change_entries(changes)->Ok_0;
        assert(entries == held.push((changes.last().key->Ok_0, changes.last().value)));
        assert forall|i: int| #![trigger changes[i]] 0 <= i < changes.len() implies changes[i].key
            is Ok && entries[i].0 == changes[i].key->Ok_0 && entries[i].1 == changes[i].value by {
            if i < before.len() {
                assert(changes[i] == before[i]);
                assert(entries[i] == held[i]);
            }
        }
    }
}

/// The encoded maps of the first overrides, or the error to expect.
pub open spec fn encoded_overrides(
    fields: Seq<FieldRuleView>,
    overrides: Seq<OverrideView>,
    answers: Seq<OverrideAnswers>,
    count: nat,
) -> Result<Seq<u8>, Expected>
    decreases count,
{
    if count == 0 {
        Ok(Seq::empty())
    } else {
        match encoded_overrides(fields, overrides, answers, (count - 1) as nat) {
            Err(fault) => Err(fault),
            Ok(bytes) => match override_map(fields, overrides[count - 1], answers[count - 1]) {
                Err(fault) => Err(Expected::Named(fault)),
                Ok(map) => match cbor_bytes(map) {
                    None => Err(Expected::Prefixed("override encoding failed: "@)),
                    Some(more) => Ok(bytes + more),
                },
            },
        }
    }
}

/// How the changes of a duplicate operation are encoded; what the CBOR
/// encoder's own error says is left open.
pub open spec fn inner_outcome(
    model: ModelView,
    snapshot: SnapshotView,
    request: DuplicateView,
    answers: Seq<OverrideAnswers>,
    outcome: Result<Seq<u8>, Fault>,
) -> bool {
    match duplicate_source(
        model,
        snapshot,
        request.source,
        request.destination,
        "source rule is absent"@,
    ) {
        Err(fault) => outcome == Err::<Seq<u8>, Fault>(fault),
        Ok(found) => match encoded_overrides(
            found.typed.fields,
            request.overrides,
            answers,
            request.overrides.len(),
        ) {
            Ok(bytes) => outcome == Ok::<Seq<u8>, Fault>(bytes),
            Err(expected) => outcome matches Err(fault) && meets(expected, fault),
        },
    }
}

proof fn lemma_override_error_stays(
    fields: Seq<FieldRuleView>,
    overrides: Seq<OverrideView>,
    answers: Seq<OverrideAnswers>,
    count: nat,
    more: nat,
)
    requires
        count <= more,
        encoded_overrides(fields, overrides, answers, count) is Err,
    ensures
        encoded_overrides(fields, overrides, answers, more) == encoded_overrides(
            fields,
            overrides,
            answers,
            count,
        ),
    decreases more,
{
    if count < more {
        lemma_override_error_stays(fields, overrides, answers, count, (more - 1) as nat);
    }
}

/// Encodes the changes of a duplicate operation, one map for each override.
pub fn duplicate_inner_payload(
    model: &SidModel,
    snapshot: &ContextSnapshot,
    request: &RuleDuplicateRequest,
    answers: &Vec<OverrideAnswers>,
) -> (result: Result<Vec<u8>, InspectionError>)
    requires
        answers@.len() == request.overrides@.len(),
    ensures
        inner_outcome(model@, snapshot@, request@, answers@, datagram_view(result)),
{
    let found = find_source(
        model,
        snapshot,
        request.source,
        request.destination,
        "source rule is absent",
    )?;
    let fields = &found.typed.fields;
    let ghost typed = fields_view(fields@);
    let ghost view = overrides_view(request.overrides@);
    let ghost whole = view.len();
    let mut output: Vec<u8> = Vec::new();
    let mut index: usize = 0;
    assert(output@ =~= Seq::<u8>::empty());
    while index < request.overrides.len()
        invariant
            index <= request.overrides@.len(),
            answers@.len() == request.overrides@.len(),
            view == overrides_view(request.overrides@),
            view == request@.overrides,
            whole == view.len(),
            typed == fields_view(fields@),
            encoded_overrides(typed, view, answers@, index as nat) == Ok::<
                Seq<u8>,
                Expected,
            >(output@),
            duplicate_source(
                model@,
                snapshot@,
                request@.source,
                request@.destination,
                "source rule is absent"@,
            ) matches Ok(source) && source.typed.fields == typed,
        decreases request.overrides.len() - index,
    {
        assert(view[index as int] == request.overrides@[index as int]@);
        let built = build_override(fields, &request.overrides[index], &answers[index]);
        proof {
            if encoded_overrides(typed, view, answers@, (index + 1) as nat) is Err {
                lemma_override_error_stays(typed, view, answers@, (index + 1) as nat, whole);
            }
        }
        let map = built?;
        match encode_item(&map) {
            Err(text) => {
                return Err(prefixed_duplicate("override encoding failed: ", text.as_str()));
            },
            Ok(bytes) => {
                let mut bytes = bytes;
                output.append(&mut bytes);
            },
        }
        index += 1;
    }
    Ok(output)
}

/// The difference of a SID to its parent's, when it is a 64-bit integer.
pub open spec fn delta_of(child: i64, parent: i64, name: Seq<char>) -> Result<i64, Fault> {
    if i64::MIN <= child - parent <= i64::MAX {
        Ok((child - parent) as i64)
    } else {
        Err(duplicate_fault(name + " SID delta overflows"@))
    }
}

fn sid_delta(child: i64, parent: i64, name: &str) -> (result: Result<i64, InspectionError>)
    ensures
        match result {
            Ok(delta) => delta_of(child, parent, name@) == Ok::<i64, Fault>(delta),
            Err(error) => delta_of(child, parent, name@) == Err::<i64, Fault>(error@),
        },
{
    match child.checked_sub(parent) {
        Some(delta) => Ok(delta),
        None => Err(invalid_duplicate(join(name, " SID delta overflows").as_str())),
    }
}

/// The keys of the parts of a duplicate operation, each relative to its
/// parent.
#[derive(Debug, Clone, Copy)]
pub struct OperationKeys {
    /// The input container.
    pub input: i64,
    /// The source.
    pub from: i64,
    /// The source's length.
    pub from_length: i64,
    /// The source's value.
    pub from_value: i64,
    /// The changes.
    pub ipatch: i64,
    /// The destination.
    pub to: i64,
    /// The destination's length.
    pub to_length: i64,
    /// The destination's value.
    pub to_value: i64,
}

/// The keys of the source of a duplicate operation.
pub open spec fn source_keys(sids: ModelSids) -> Result<(i64, i64, i64, i64), Fault> {
    match delta_of(sids.duplicate_input, sids.duplicate_rule, "input"@) {
        Err(fault) => Err(fault),
        Ok(input) => match delta_of(sids.duplicate_from, sids.duplicate_input, "from"@) {
            Err(fault) => Err(fault),
            Ok(from) => match delta_of(
                sids.duplicate_from_length,
                sids.duplicate_from,
                "from/rule-id-length"@,
            ) {
                Err(fault) => Err(fault),
                Ok(length) => match delta_of(
                    sids.duplicate_from_value,
                    sids.duplicate_from,
                    "from/rule-id-value"@,
                ) {
                    Err(fault) => Err(fault),
                    Ok(value) => Ok((input, from, length, value)),
                },
            },
        },
    }
}

/// The keys of the changes and the destination of a duplicate operation.
pub open spec fn destination_keys(sids: ModelSids) -> Result<(i64, i64, i64, i64), Fault> {
    match delta_of(sids.duplicate_ipatch, sids.duplicate_input, "ipatch-sequence"@) {
        Err(fault) => Err(fault),
        Ok(ipatch) => match delta_of(sids.duplicate_to, sids.duplicate_input, "to"@) {
            Err(fault) => Err(fault),
            Ok(to) => match delta_of(
                sids.duplicate_to_length,
                sids.duplicate_to,
                "to/rule-id-length"@,
            ) {
                Err(fault) => Err(fault),
                Ok(length) => match delta_of(
                    sids.duplicate_to_value,
                    sids.duplicate_to,
                    "to/rule-id-value"@,
                ) {
                    Err(fault) => Err(fault),
                    Ok(value) => Ok((ipatch, to, length, value)),
                },
            },
        },
    }
}

/// The keys of the parts of a duplicate operation.
pub open spec fn operation_keys(sids: ModelSids) -> Result<OperationKeys, Fault> {
    match source_keys(sids) {
        Err(fault) => Err(fault),
        Ok((input, from, from_length, from_value)) => match destination_keys(sids) {
            Err(fault) => Err(fault),
            Ok((ipatch, to, to_length, to_value)) => Ok(
                OperationKeys {
                    input,
                    from,
                    from_length,
                    from_value,
                    ipatch,
                    to,
                    to_length,
                    to_value,
                },
            ),
        },
    }
}

fn resolve_keys(sids: &ModelSids) -> (result: Result<OperationKeys, InspectionError>)
    ensures
        match result {
            Ok(keys) => operation_keys(*sids) == Ok::<OperationKeys, Fault>(keys),
            Err(error) => operation_keys(*sids) == Err::<OperationKeys, Fault>(error@),
        },
{
    let input: i64 = sid_delta(sids.duplicate_input, sids.duplicate_rule, "input")?;
    let from: i64 = sid_delta(sids.duplicate_from, sids.duplicate_input, "from")?;
    let from_length: i64 = sid_delta(
        sids.duplicate_from_length,
        sids.duplicate_from,
        "from/rule-id-length",
    )?;
    let from_value: i64 = sid_delta(
        sids.duplicate_from_value,
        sids.duplicate_from,
        "from/rule-id-value",
    )?;
    let ipatch: i64 = sid_delta(sids.duplicate_ipatch, sids.duplicate_input, "ipatch-sequence")?;
    let to: i64 = sid_delta(sids.duplicate_to, sids.duplicate_input, "to")?;
    let to_length: i64 = sid_delta(
        sids.duplicate_to_length,
        sids.duplicate_to,
        "to/rule-id-length",
    )?;
    let to_value: i64 = sid_delta(sids.duplicate_to_value, sids.duplicate_to, "to/rule-id-value")?;
    Ok(OperationKeys { input, from, from_length, from_value, ipatch, to, to_length, to_value })
}

/// A rule selector under two keys.
pub open spec fn selector_cbor(length: i64, value: i64, selector: RuleSelector) -> Cbor {
    Cbor::Entries(
        seq![
            (Cbor::Integer(length as int), Cbor::Integer(selector.bits as int)),
            (Cbor::Integer(value as int), Cbor::Integer(selector.value as int)),
        ],
    )
}

/// The input container of a duplicate operation.
pub open spec fn input_cbor(
    keys: OperationKeys,
    source: RuleSelector,
    destination: RuleSelector,
    inner: Seq<u8>,
) -> Cbor {
    let from = (
        Cbor::Integer(keys.from as int),
        selector_cbor(keys.from_length, keys.from_value, source),
    );
    let to = (
        Cbor::Integer(keys.to as int),
        selector_cbor(keys.to_length, keys.to_value, destination),
    );
    Cbor::Entries(
        if inner.len() == 0 {
            seq![from, to]
        } else {
            seq![from, (Cbor::Integer(keys.ipatch as int), Cbor::Bytes(inner)), to]
        },
    )
}

/// A duplicate operation as a value.
pub open spec fn operation_cbor(
    sids: ModelSids,
    keys: OperationKeys,
    source: RuleSelector,
    destination: RuleSelector,
    inner: Seq<u8>,
) -> Cbor {
    Cbor::Entries(
        seq![
            (
                Cbor::Integer(sids.duplicate_rule as int),
                Cbor::Entries(
                    seq![
                        (
                            Cbor::Integer(keys.input as int),
                            input_cbor(keys, source, destination, inner),
                        ),
                    ],
                ),
            ),
        ],
    )
}

/// Different operations are different values.
pub proof fn operation_value_is_unambiguous(
    sids: ModelSids,
    keys: OperationKeys,
    source: RuleSelector,
    destination: RuleSelector,
    inner: Seq<u8>,
    other_source: RuleSelector,
    other_destination: RuleSelector,
    other_inner: Seq<u8>,
)
    requires
        operation_cbor(sids, keys, source, destination, inner) == operation_cbor(
            sids,
            keys,
            other_source,
            other_destination,
            other_inner,
        ),
    ensures
        source == other_source,
        destination == other_destination,
        inner == other_inner,
{
    let left = operation_cbor(sids, keys, source, destination, inner);
    let right = operation_cbor(sids, keys, other_source, other_destination, other_inner);
    assert(left->Entries_0[0] == right->Entries_0[0]);
    let left_value = left->Entries_0[0].1;
    let right_value = right->Entries_0[0].1;
    assert(left_value->Entries_0[0] == right_value->Entries_0[0]);
    let one = input_cbor(keys, source, destination, inner)->Entries_0;
    let two = input_cbor(keys, other_source, other_destination, other_inner)->Entries_0;
    assert(one == two);
    assert(one.len() == two.len());
    assert(one[0] == two[0]);
    assert(one.last() == two.last());
    let from = selector_cbor(keys.from_length, keys.from_value, source)->Entries_0;
    let other_from = selector_cbor(keys.from_length, keys.from_value, other_source)->Entries_0;
    assert(from[0] == other_from[0] && from[1] == other_from[1]);
    let to = selector_cbor(keys.to_length, keys.to_value, destination)->Entries_0;
    let other_to = selector_cbor(keys.to_length, keys.to_value, other_destination)->Entries_0;
    assert(to[0] == other_to[0] && to[1] == other_to[1]);
    if one.len() == 3 {
        assert(one[1] == two[1]);
    } else {
        assert(inner =~= other_inner);
    }
}

/// How a duplicate operation is encoded; what the CBOR encoder's own error
/// says is left open.
pub open spec fn operation_outcome(
    model: ModelView,
    source: RuleSelector,
    destination: RuleSelector,
    inner: Seq<u8>,
    outcome: Result<Seq<u8>, Fault>,
) -> bool {
    match operation_sids(model) {
        Err(fault) => outcome == Err::<Seq<u8>, Fault>(fault),
        Ok(sids) => if source.value > u32::MAX || destination.value > u32::MAX {
            outcome == Err::<Seq<u8>, Fault>(
                duplicate_fault(
                    "duplicate-rule RuleID values must fit the modeled uint32 selectors"@,
                ),
            )
        } else {
            match operation_keys(sids) {
                Err(fault) => outcome == Err::<Seq<u8>, Fault>(fault),
                Ok(keys) => match cbor_bytes(
                    operation_cbor(sids, keys, source, destination, inner),
                ) {
                    Some(bytes) => outcome == Ok::<Seq<u8>, Fault>(bytes),
                    None => outcome matches Err(fault) && meets(
                        Expected::Prefixed("modeled RPC encoding failed: "@),
                        fault,
                    ),
                },
            }
        },
    }
}

fn pair(key: i64, value: CborValue) -> (result: (CborValue, CborValue))
    ensures
        result.0@ == Cbor::Integer(key as int),
        result.1@ == value@,
{
    (CborValue::Integer(key as i128), value)
}

fn selector_value(length: i64, value: i64, selector: RuleSelector) -> (result: CborValue)
    ensures
        result@ == selector_cbor(length, value, selector),
{
    let entries: Vec<(CborValue, CborValue)> = vec![
        pair(length, CborValue::Integer(selector.bits as i128)),
        pair(value, CborValue::Integer(selector.value as i128)),
    ];
    let result = CborValue::Entries(entries);
    proof {
        lemma_cbor_view(result);
        assert(entries_view(entries@) =~= selector_cbor(length, value, selector)->Entries_0);
    }
    result
}

fn one_entry(key: i64, value: CborValue) -> (result: CborValue)
    ensures
        result@ == Cbor::Entries(seq![(Cbor::Integer(key as int), value@)]),
{
    let ghost held = value@;
    let entries: Vec<(CborValue, CborValue)> = vec![pair(key, value)];
    let result = CborValue::Entries(entries);
    proof {
        lemma_cbor_view(result);
        assert(entries_view(entries@) =~= seq![(Cbor::Integer(key as int), held)]);
    }
    result
}

fn input_value(
    keys: &OperationKeys,
    source: RuleSelector,
    destination: RuleSelector,
    inner: &[u8],
) -> (result: CborValue)
    ensures
        result@ == input_cbor(*keys, source, destination, inner@),
{
    let mut entries: Vec<(CborValue, CborValue)> = Vec::new();
    entries.push(pair(keys.from, selector_value(keys.from_length, keys.from_value, source)));
    if inner.len() > 0 {
        entries.push(pair(keys.ipatch, CborValue::Bytes(crate::rule::copy_bytes(inner))));
    }
    entries.push(pair(keys.to, selector_value(keys.to_length, keys.to_value, destination)));
    let result = CborValue::Entries(entries);
    proof {
        lemma_cbor_view(result);
        assert(entries_view(entries@) =~= input_cbor(
            *keys,
            source,
            destination,
            inner@,
        )->Entries_0);
    }
    result
}

/// Encodes a duplicate operation around its encoded changes.
pub fn encode_duplicate_rpc_payload(
    model: &SidModel,
    request: &RuleDuplicateRequest,
    inner: &[u8],
) -> (result: Result<Vec<u8>, InspectionError>)
    ensures
        operation_outcome(
            model@,
            request@.source,
            request@.destination,
            inner@,
            datagram_view(result),
        ),
{
    let source = request.source;
    let destination = request.destination;
    let sids = validate_duplicate_model_shape(model)?;
    if source.value > u32::MAX as u64 || destination.value > u32::MAX as u64 {
        return Err(
            invalid_duplicate(
                "duplicate-rule RuleID values must fit the modeled uint32 selectors",
            ),
        );
    }
    let keys = resolve_keys(&sids)?;
    let input = input_value(&keys, source, destination, inner);
    let operation = one_entry(sids.duplicate_rule, one_entry(keys.input, input));
    match encode_item(&operation) {
        Ok(bytes) => Ok(bytes),
        Err(text) => Err(prefixed_duplicate("modeled RPC encoding failed: ", text.as_str())),
    }
}

/// The name of an identity that a change sets, as it stands in the model: the
/// matching operators are those of equality, ignoring and mappings behind
/// `mo-`, and the actions those of nothing, value, mapping, trailing bits,
/// computation and the two interface identifiers behind `cda-`; the prefix may
/// be given or left out.
pub proof fn identities_stand_behind_their_prefix(short: Seq<char>)
    ensures
        short == "equal"@ || short == "ignore"@ || short == "match-mapping"@ ==> {
            &&& identity_name(short, true) == Ok::<Seq<char>, Fault>("mo-"@ + short)
            &&& identity_name("mo-"@ + short, true) == Ok::<Seq<char>, Fault>("mo-"@ + short)
            &&& identity_name(short, false) is Err
        },
        short == "not-sent"@ || short == "value-sent"@ || short == "mapping-sent"@ || short
            == "lsb"@ || short == "compute"@ || short == "deviid"@ || short == "appiid"@ ==> {
            &&& identity_name(short, false) == Ok::<Seq<char>, Fault>("cda-"@ + short)
            &&& identity_name("cda-"@ + short, false) == Ok::<Seq<char>, Fault>("cda-"@ + short)
            &&& identity_name(short, true) is Err
        },
{
    lemma_identity_texts();
    lemma_prefix_texts(short);
}

proof fn lemma_prefix_texts(short: Seq<char>)
    ensures
        "mo-"@.is_prefix_of("mo-"@ + short),
        "cda-"@.is_prefix_of("cda-"@ + short),
        short.len() > 0 && short[0] != 'm' ==> !"mo-"@.is_prefix_of(short),
        short.len() > 1 && short[1] != 'o' ==> !"mo-"@.is_prefix_of(short),
        short.len() > 1 && short[1] != 'd' ==> !"cda-"@.is_prefix_of(short),
{
    reveal_strlit("mo-");
    reveal_strlit("cda-");
    assert(("mo-"@ + short).subrange(0, 3) =~= "mo-"@);
    assert(("cda-"@ + short).subrange(0, 4) =~= "cda-"@);
    if "mo-"@.is_prefix_of(short) {
        assert(short.subrange(0, 3)[0] == "mo-"@[0]);
        assert(short.subrange(0, 3)[1] == "mo-"@[1]);
    }
    if "cda-"@.is_prefix_of(short) {
        assert(short.subrange(0, 4)[1] == "cda-"@[1]);
    }
}

proof fn lemma_identity_texts()
    ensures
        "mo-"@ + "equal"@ == "mo-equal"@,
        "mo-"@ + "ignore"@ == "mo-ignore"@,
        "mo-"@ + "match-mapping"@ == "mo-match-mapping"@,
        "cda-"@ + "not-sent"@ == "cda-not-sent"@,
        "cda-"@ + "value-sent"@ == "cda-value-sent"@,
        "cda-"@ + "mapping-sent"@ == "cda-mapping-sent"@,
        "cda-"@ + "lsb"@ == "cda-lsb"@,
        "cda-"@ + "compute"@ == "cda-compute"@,
        "cda-"@ + "deviid"@ == "cda-deviid"@,
        "cda-"@ + "appiid"@ == "cda-appiid"@,
        "equal"@[0] == 'e' && "equal"@[1] == 'q' && "equal"@.len() == 5,
        "ignore"@[0] == 'i' && "ignore"@[1] == 'g' && "ignore"@.len() == 6,
        "match-mapping"@[0] == 'm' && "match-mapping"@[1] == 'a' && "match-mapping"@.len() == 13,
        "not-sent"@[0] == 'n' && "not-sent"@[1] == 'o' && "not-sent"@.len() == 8,
        "value-sent"@[0] == 'v' && "value-sent"@[1] == 'a' && "value-sent"@.len() == 10,
        "mapping-sent"@[0] == 'm' && "mapping-sent"@[1] == 'a' && "mapping-sent"@.len() == 12,
        "lsb"@[0] == 'l' && "lsb"@[1] == 's' && "lsb"@.len() == 3,
        "compute"@[0] == 'c' && "compute"@[1] == 'o' && "compute"@.len() == 7,
        "deviid"@[0] == 'd' && "deviid"@[1] == 'e' && "deviid"@.len() == 6,
        "appiid"@[0] == 'a' && "appiid"@[1] == 'p' && "appiid"@.len() == 6,
        "mo-equal"@[0] == 'm' && "mo-equal"@[1] == 'o' && "mo-equal"@.len() == 8,
        "mo-ignore"@[0] == 'm' && "mo-ignore"@[1] == 'o' && "mo-ignore"@.len() == 9,
        "mo-match-mapping"@[0] == 'm' && "mo-match-mapping"@[1] == 'o' && "mo-match-mapping"@.len()
            == 16,
        "cda-not-sent"@[1] == 'd' && "cda-value-sent"@[1] == 'd' && "cda-mapping-sent"@[1] == 'd'
            && "cda-lsb"@[1] == 'd' && "cda-compute"@[1] == 'd' && "cda-deviid"@[1] == 'd'
            && "cda-appiid"@[1] == 'd',
{
    reveal_strlit("mo-");
    reveal_strlit("cda-");
    reveal_strlit("equal");
    reveal_strlit("ignore");
    reveal_strlit("match-mapping");
    reveal_strlit("mo-equal");
    reveal_strlit("mo-ignore");
    reveal_strlit("mo-match-mapping");
    reveal_strlit("not-sent");
    reveal_strlit("value-sent");
    reveal_strlit("mapping-sent");
    reveal_strlit("lsb");
    reveal_strlit("compute");
    reveal_strlit("deviid");
    reveal_strlit("appiid");
    reveal_strlit("cda-not-sent");
    reveal_strlit("cda-value-sent");
    reveal_strlit("cda-mapping-sent");
    reveal_strlit("cda-lsb");
    reveal_strlit("cda-compute");
    reveal_strlit("cda-deviid");
    reveal_strlit("cda-appiid");
    assert("mo-"@ + "equal"@ =~= "mo-equal"@);
    assert("mo-"@ + "ignore"@ =~= "mo-ignore"@);
    assert("mo-"@ + "match-mapping"@ =~= "mo-match-mapping"@);
    assert("cda-"@ + "not-sent"@ =~= "cda-not-sent"@);
    assert("cda-"@ + "value-sent"@ =~= "cda-value-sent"@);
    assert("cda-"@ + "mapping-sent"@ =~= "cda-mapping-sent"@);
    assert("cda-"@ + "lsb"@ =~= "cda-lsb"@);
    assert("cda-"@ + "compute"@ =~= "cda-compute"@);
    assert("cda-"@ + "deviid"@ =~= "cda-deviid"@);
    assert("cda-"@ + "appiid"@ =~= "cda-appiid"@);
}

/// The keys of an operation are the steps from each part's parent to the part:
/// added to the SID of the parent they give the SID of the part.
pub proof fn operation_keys_lead_to_their_parts(sids: ModelSids)
    requires
        operation_keys(sids) is Ok,
    ensures
        ({
            let keys = operation_keys(sids)->Ok_0;
            &&& sids.duplicate_rule + keys.input == sids.duplicate_input
            &&& sids.duplicate_input + keys.from == sids.duplicate_from
            &&& sids.duplicate_from + keys.from_length == sids.duplicate_from_length
            &&& sids.duplicate_from + keys.from_value == sids.duplicate_from_value
            &&& sids.duplicate_input + keys.ipatch == sids.duplicate_ipatch
            &&& sids.duplicate_input + keys.to == sids.duplicate_to
            &&& sids.duplicate_to + keys.to_length == sids.duplicate_to_length
            &&& sids.duplicate_to + keys.to_value == sids.duplicate_to_value
        }),
{
}

/// An operation names its source under `from` and its destination under `to`,
/// each by bit length and value, and carries its changes between them as one
/// byte string, which is left out where there are none.
pub proof fn operation_value_names_source_and_destination(
    sids: ModelSids,
    keys: OperationKeys,
    source: RuleSelector,
    destination: RuleSelector,
    inner: Seq<u8>,
)
    ensures
        ({
            let outer = operation_cbor(sids, keys, source, destination, inner)->Entries_0;
            let middle = outer[0].1->Entries_0;
            let parts = middle[0].1->Entries_0;
            let from = parts[0].1->Entries_0;
            let to = parts.last().1->Entries_0;
            &&& operation_cbor(sids, keys, source, destination, inner) is Entries
            &&& outer.len() == 1
            &&& outer[0].0 == Cbor::Integer(sids.duplicate_rule as int)
            &&& outer[0].1 is Entries
            &&& middle.len() == 1
            &&& middle[0].0 == Cbor::Integer(keys.input as int)
            &&& middle[0].1 is Entries
            &&& parts[0].0 == Cbor::Integer(keys.from as int)
            &&& from.len() == 2
            &&& from[0] == (
                Cbor::Integer(keys.from_length as int),
                Cbor::Integer(source.bits as int),
            )
            &&& from[1] == (
                Cbor::Integer(keys.from_value as int),
                Cbor::Integer(source.value as int),
            )
            &&& parts.last().0 == Cbor::Integer(keys.to as int)
            &&& to.len() == 2
            &&& to[0] == (
                Cbor::Integer(keys.to_length as int),
                Cbor::Integer(destination.bits as int),
            )
            &&& to[1] == (
                Cbor::Integer(keys.to_value as int),
                Cbor::Integer(destination.value as int),
            )
            &&& inner.len() == 0 ==> parts.len() == 2
            &&& inner.len() > 0 ==> parts.len() == 3 && parts[1] == (
                Cbor::Integer(keys.ipatch as int),
                Cbor::Bytes(inner),
            )
        }),
{
}

/// The encoded changes of a request are the encoded maps of its overrides, one
/// after the other in their order; without overrides there are none.
pub proof fn encoded_changes_follow_the_overrides(
    fields: Seq<FieldRuleView>,
    overrides: Seq<OverrideView>,
    answers: Seq<OverrideAnswers>,
    count: nat,
)
    requires
        count < overrides.len(),
        encoded_overrides(fields, overrides, answers, count + 1) is Ok,
    ensures
        encoded_overrides(fields, overrides, answers, 0) == Ok::<Seq<u8>, Expected>(Seq::empty()),
        encoded_overrides(fields, overrides, answers, count) is Ok,
        override_map(fields, overrides[count as int], answers[count as int]) is Ok,
        ({
            let map = override_map(fields, overrides[count as int], answers[count as int])->Ok_0;
            &&& cbor_bytes(map) is Some
            &&& encoded_overrides(fields, overrides, answers, count + 1)->Ok_0
                == encoded_overrides(fields, overrides, answers, count)->Ok_0 + cbor_bytes(map)->0
        }),
{
}

/// A target is overridden only in a field that holds one byte string of a fixed
/// length in bits: by the decimal value of the command, in the width of the
/// byte string.
pub proof fn overridden_target_keeps_its_width(field: FieldRuleView, input: Seq<char>)
    requires
        override_target(field, input) is Ok,
    ensures
        field.target is Bytes,
        field.length is FixedBits,
        override_target(field, input)->Ok_0.len() == field.target->Bytes_0.len(),
        crate::number::bytes_value(override_target(field, input)->Ok_0)
            == crate::text::decimal_value(input),
{
    let bits = field.length->FixedBits_0;
    crate::target::accepted_target_value_is_exact(
        input,
        field.target->Bytes_0.len(),
        Json::Integer(bits as int),
    );
}

/// An override is encoded exactly when its entry exists, it changes something,
/// and everything that it changes can be encoded.
pub proof fn override_is_encoded_when_its_entry_exists(
    fields: Seq<FieldRuleView>,
    change: OverrideView,
    answers: OverrideAnswers,
)
    ensures
        override_changes(fields, change, answers) is Ok <==> {
            let field = field_with_index(fields, change.entry_index);
            &&& field is Some
            &&& change.target_value is Some || change.matching_operator is Some || change.cda is Some
            &&& change.target_value is Some ==> override_target(
                field->0,
                change.target_value->0,
            ) is Ok
            &&& change.matching_operator is Some ==> identity_sid(
                change.matching_operator->0,
                true,
                answers.matching,
            ) is Ok
            &&& change.cda is Some ==> identity_sid(change.cda->0, false, answers.cda) is Ok
        },
{
}

} // verus!
