//! Target-value updates: from a command to one change of one leaf.

use vstd::arithmetic::power2::{lemma2_to64, lemma_pow2_strictly_increases, pow2};
use vstd::bits::lemma_u64_shl_is_mul;
use vstd::prelude::*;

use crate::cbor::{
    array_view, cbor_bytes, encode_item, entries_view, lemma_cbor_view, Cbor, CborValue,
};
use crate::coap::{Coap, CoapOption, COAP_CONFIRMABLE, CONTENT_FORMAT, IF_MATCH, URI_PATH};
use crate::codec::ContextTag;
use crate::error::{invalid_target, Fault, InspectionError};
use crate::json::{
    lemma_json_view, list_view, member, members_view, unsigned, unsigned_member, Json, JsonValue,
};
use crate::number::{number_in_width, width_bytes};
use crate::path::{target_path, target_value_path, Instance, InstancePath, InstanceView, Step};
use crate::request::{
    content_message, content_request, datagram_outcome, datagram_view, schc_segment, serialize,
    COAP_IPATCH,
};
use crate::rule_text::{update_index, RuleDetail, RuleEntrySelector};
use crate::selector::RuleSelector;
use crate::sid::{
    tree_key, tree_key_for_sid, update_sids, validate_update_model_shape, ModelSids,
    ModelView, SidModel,
};
use crate::text::{
    all_digits, chars_of, decimal, decimal_string, decimal_value, digits_only, join, join3,
    parse_decimal,
};
use crate::update_command::{RuleUpdateRequest, UpdateView};

verus! {

/// The bytes of the first of some numbers, or the error of the first that is
/// no byte.
pub open spec fn byte_prefix(items: Seq<Json>, count: nat) -> Result<Seq<u8>, Fault>
    decreases count,
{
    if count == 0 || count > items.len() {
        Ok(Seq::empty())
    } else {
        match byte_prefix(items, (count - 1) as nat) {
            Err(fault) => Err(fault),
            Ok(bytes) => match unsigned(items[count - 1]) {
                None => Err(Fault::InvalidTarget("target-value/value contains a non-byte"@)),
                Some(number) => if number > 255 {
                    Err(
                        Fault::InvalidTarget(
                            "target-value/value contains an out-of-range byte"@,
                        ),
                    )
                } else {
                    Ok(bytes.push(number as u8))
                },
            },
        }
    }
}

/// The bytes of a binary leaf.
pub open spec fn binary_of(value: Json) -> Result<Seq<u8>, Fault> {
    match value {
        Json::Array(items) => byte_prefix(items, items.len()),
        _ => Err(Fault::InvalidTarget("target-value/value is not a binary byte array"@)),
    }
}

proof fn lemma_byte_error_stays(items: Seq<Json>, count: nat, more: nat)
    requires
        count <= more <= items.len(),
        byte_prefix(items, count) is Err,
    ensures
        byte_prefix(items, more) is Err,
        byte_prefix(items, more)->Err_0 == byte_prefix(items, count)->Err_0,
    decreases more,
{
    if count < more {
        lemma_byte_error_stays(items, count, (more - 1) as nat);
    }
}

/// Returns the bytes of a binary leaf.
pub fn binary_bytes(value: &JsonValue) -> (result: Result<Vec<u8>, InspectionError>)
    ensures
        match result {
            Ok(bytes) => binary_of(value@) == Ok::<Seq<u8>, Fault>(bytes@),
            Err(error) => binary_of(value@) == Err::<Seq<u8>, Fault>(error@),
        },
{
    proof {
        lemma_json_view(*value);
    }
    match value {
        JsonValue::Array(items) => {
            let ghost view = list_view(items@);
            let mut bytes: Vec<u8> = Vec::new();
            let mut index: usize = 0;
            assert(bytes@ =~= Seq::<u8>::empty());
            while index < items.len()
                invariant
                    index <= items@.len(),
                    view == list_view(items@),
                    value@ == Json::Array(view),
                    byte_prefix(view, index as nat) == Ok::<Seq<u8>, Fault>(bytes@),
                decreases items.len() - index,
            {
                assert(view[index as int] == items@[index as int]@);
                match items[index].as_u64() {
                    None => {
                        proof {
                            lemma_byte_error_stays(view, (index + 1) as nat, view.len());
                        }
                        return Err(invalid_target("target-value/value contains a non-byte"));
                    },
                    Some(number) => {
                        if number > 255 {
                            proof {
                                lemma_byte_error_stays(view, (index + 1) as nat, view.len());
                            }
                            return Err(
                                invalid_target("target-value/value contains an out-of-range byte"),
                            );
                        }
                        bytes.push(number as u8);
                    },
                }
                index += 1;
            }
            Ok(bytes)
        },
        _ => Err(invalid_target("target-value/value is not a binary byte array")),
    }
}

/// Bytes as a list of numbers.
pub open spec fn byte_list(bytes: Seq<u8>) -> Json {
    Json::Array(Seq::new(bytes.len(), |i: int| Json::Integer(bytes[i] as int)))
}

/// Returns bytes as a list of numbers.
pub fn byte_array(bytes: &[u8]) -> (result: JsonValue)
    ensures
        result@ == byte_list(bytes@),
{
    let mut items: Vec<JsonValue> = Vec::new();
    let mut index: usize = 0;
    while index < bytes.len()
        invariant
            index <= bytes@.len(),
            items@.len() == index,
            forall|i: int|
                0 <= i < index ==> (#[trigger] items@[i])@ == Json::Integer(bytes@[i] as int),
        decreases bytes.len() - index,
    {
        items.push(JsonValue::Integer(bytes[index] as i128));
        index += 1;
    }
    let result = JsonValue::Array(items);
    proof {
        lemma_json_view(result);
        assert(list_view(items@) =~= Seq::new(
            bytes@.len(),
            |i: int| Json::Integer(bytes@[i] as int),
        ));
    }
    result
}

proof fn lemma_byte_list_prefix(bytes: Seq<u8>, count: nat)
    requires
        count <= bytes.len(),
    ensures
        byte_prefix(byte_list(bytes)->Array_0, count) == Ok::<Seq<u8>, Fault>(
            bytes.take(count as int),
        ),
    decreases count,
{
    if count == 0 {
        assert(bytes.take(0) =~= Seq::<u8>::empty());
    } else {
        lemma_byte_list_prefix(bytes, (count - 1) as nat);
        assert(bytes.take(count - 1).push(bytes[count - 1]) =~= bytes.take(count as int));
    }
}

/// Bytes written as a list of numbers read back as the same bytes.
pub proof fn byte_list_round_trip(bytes: Seq<u8>)
    ensures
        binary_of(byte_list(bytes)) == Ok::<Seq<u8>, Fault>(bytes),
{
    lemma_byte_list_prefix(bytes, bytes.len());
    assert(bytes.take(bytes.len() as int) =~= bytes);
}

/// Whether a number needs more bits than a width, where widths of 64 bits and
/// more hold every command value.
pub open spec fn exceeds(number: nat, bits: nat) -> bool {
    bits < 64 && number >= pow2(bits)
}

/// The bytes that replace a binary target: the decimal value of the command in
/// the width of the current value.
pub open spec fn replacement_bytes(
    input: Seq<char>,
    width: nat,
    field_length: Json,
) -> Result<Seq<u8>, Fault> {
    let number = decimal_value(input);
    if input.len() == 0 || !all_digits(input) {
        Err(Fault::InvalidTarget("tv must be an unsigned decimal value for a binary target"@))
    } else if number > u64::MAX {
        Err(Fault::InvalidTarget("tv is out of range for an unsigned target value"@))
    } else if width == 0 {
        Err(Fault::InvalidTarget("existing target value has no byte width to preserve"@))
    } else if width * 8 > usize::MAX {
        Err(Fault::InvalidTarget("existing target value byte width is too large"@))
    } else if exceeds(number, width * 8) {
        Err(
            Fault::InvalidTarget(
                "tv="@ + input + " does not fit existing target width of "@ + decimal(width * 8)
                    + " bits"@,
            ),
        )
    } else {
        match unsigned(field_length) {
            Some(bits) => if bits == 0 {
                Err(Fault::InvalidTarget("selected field has a zero-bit length"@))
            } else if exceeds(number, bits as nat) {
                Err(
                    Fault::InvalidTarget(
                        "tv="@ + input + " does not fit selected field length of "@ + decimal(
                            bits as nat,
                        ) + " bits"@,
                    ),
                )
            } else {
                Ok(width_bytes(number, width))
            },
            None => Ok(width_bytes(number, width)),
        }
    }
}

fn too_wide(number: u64, bits: u64) -> (result: bool)
    ensures
        result == exceeds(number as nat, bits as nat),
{
    if bits >= 64 {
        return false;
    }
    proof {
        lemma2_to64();
        if bits < 63 {
            lemma_pow2_strictly_increases(bits as nat, 63);
        }
        lemma_pow2_strictly_increases(63, 64);
        lemma_u64_shl_is_mul(1, bits);
    }
    number >= (1u64 << bits)
}

/// Converts the decimal value of a command to the width of the current binary
/// value, without truncation.
pub fn numeric_target_value(
    input: &str,
    current_bytes: &[u8],
    field_length: &JsonValue,
) -> (result: Result<Vec<u8>, InspectionError>)
    ensures
        match result {
            Ok(bytes) => replacement_bytes(input@, current_bytes@.len(), field_length@) == Ok::<
                Seq<u8>,
                Fault,
            >(bytes@),
            Err(error) => replacement_bytes(input@, current_bytes@.len(), field_length@) == Err::<
                Seq<u8>,
                Fault,
            >(error@),
        },
{
    let characters = chars_of(input);
    if characters.len() == 0 || !digits_only(characters.as_slice()) {
        return Err(invalid_target("tv must be an unsigned decimal value for a binary target"));
    }
    let number: u64 = match parse_decimal(characters.as_slice()) {
        Some(number) => number,
        None => {
            return Err(invalid_target("tv is out of range for an unsigned target value"));
        },
    };
    if current_bytes.len() == 0 {
        return Err(invalid_target("existing target value has no byte width to preserve"));
    }
    let storage_bits: usize = match current_bytes.len().checked_mul(8) {
        Some(bits) => bits,
        None => {
            return Err(invalid_target("existing target value byte width is too large"));
        },
    };
    if too_wide(number, storage_bits as u64) {
        let head = join3("tv=", input, " does not fit existing target width of ");
        return Err(
            invalid_target(
                join3(
                    head.as_str(),
                    decimal_string(storage_bits as u64).as_str(),
                    " bits",
                ).as_str(),
            ),
        );
    }
    if let Some(bits) = field_length.as_u64() {
        if bits == 0 {
            return Err(invalid_target("selected field has a zero-bit length"));
        }
        if too_wide(number, bits) {
            let head = join3("tv=", input, " does not fit selected field length of ");
            return Err(
                invalid_target(
                    join3(head.as_str(), decimal_string(bits).as_str(), " bits").as_str(),
                ),
            );
        }
    }
    Ok(number_in_width(number, current_bytes.len()))
}

/// An accepted command value keeps the width of the current target, is not
/// truncated, and fits the field when its length is a number.
pub proof fn accepted_target_value_is_exact(input: Seq<char>, width: nat, field_length: Json)
    requires
        replacement_bytes(input, width, field_length) is Ok,
    ensures
        replacement_bytes(input, width, field_length)->Ok_0.len() == width,
        crate::number::bytes_value(replacement_bytes(input, width, field_length)->Ok_0)
            == decimal_value(input),
        unsigned(field_length) matches Some(bits) ==> decimal_value(input) < pow2(bits as nat),
{
    let number = decimal_value(input);
    lemma2_to64();
    if width * 8 >= 64 {
        if width * 8 > 64 {
            lemma_pow2_strictly_increases(64, width * 8);
        }
    }
    assert(8 * width == width * 8);
    assert(number < pow2(8 * width));
    crate::number::width_bytes_round_trip(number, width);
    if let Some(bits) = unsigned(field_length) {
        if bits > 64 {
            lemma_pow2_strictly_increases(64, bits as nat);
        }
    }
}

/// How many items of a list are numbered twice over: the rules with an
/// identity.
pub open spec fn has_identity(
    rule: Json,
    value_key: Seq<char>,
    length_key: Seq<char>,
    selector: RuleSelector,
) -> bool {
    unsigned_member(rule, value_key) == Some(selector.value) && unsigned_member(rule, length_key)
        == Some(selector.bits as u64)
}

/// The rules with an identity, in their order.
pub open spec fn rules_with_identity(
    rules: Seq<Json>,
    value_key: Seq<char>,
    length_key: Seq<char>,
    selector: RuleSelector,
) -> Seq<Json>
    decreases rules.len(),
{
    if rules.len() == 0 {
        Seq::empty()
    } else if has_identity(rules.last(), value_key, length_key, selector) {
        rules_with_identity(rules.drop_last(), value_key, length_key, selector).push(rules.last())
    } else {
        rules_with_identity(rules.drop_last(), value_key, length_key, selector)
    }
}

/// The items of a list that hold a number under a name, in their order.
pub open spec fn items_with_number(items: Seq<Json>, name: Seq<char>, number: u64) -> Seq<Json>
    decreases items.len(),
{
    if items.len() == 0 {
        Seq::empty()
    } else if unsigned_member(items.last(), name) == Some(number) {
        items_with_number(items.drop_last(), name, number).push(items.last())
    } else {
        items_with_number(items.drop_last(), name, number)
    }
}

/// The references of a list as trees.
pub open spec fn refs_view(list: Seq<&JsonValue>) -> Seq<Json> {
    Seq::new(list.len(), |i: int| list[i]@)
}

fn find_rules<'a>(
    rules: &'a Vec<JsonValue>,
    value_key: &str,
    length_key: &str,
    selector: RuleSelector,
) -> (result: Vec<&'a JsonValue>)
    ensures
        refs_view(result@) == rules_with_identity(
            list_view(rules@),
            value_key@,
            length_key@,
            selector,
        ),
{
    let ghost view = list_view(rules@);
    let mut found: Vec<&'a JsonValue> = Vec::new();
    let mut index: usize = 0;
    proof {
        assert(refs_view(found@) =~= rules_with_identity(
            view.take(0),
            value_key@,
            length_key@,
            selector,
        ));
    }
    while index < rules.len()
        invariant
            index <= rules@.len(),
            view == list_view(rules@),
            refs_view(found@) == rules_with_identity(
                view.take(index as int),
                value_key@,
                length_key@,
                selector,
            ),
        decreases rules.len() - index,
    {
        proof {
            assert(view.take(index + 1).drop_last() =~= view.take(index as int));
            assert(view.take(index + 1).last() == rules@[index as int]@);
        }
        let rule = &rules[index];
        if rule.get_u64(value_key) == Some(selector.value) && rule.get_u64(length_key) == Some(
            selector.bits as u64,
        ) {
            let ghost before = refs_view(found@);
            found.push(rule);
            assert(refs_view(found@) =~= before.push(rule@));
        }
        index += 1;
    }
    assert(view.take(view.len() as int) =~= view);
    found
}

fn find_items<'a>(items: &'a Vec<JsonValue>, name: &str, number: u64) -> (result: Vec<
    &'a JsonValue,
>)
    ensures
        refs_view(result@) == items_with_number(list_view(items@), name@, number),
{
    let ghost view = list_view(items@);
    let mut found: Vec<&'a JsonValue> = Vec::new();
    let mut index: usize = 0;
    proof {
        assert(refs_view(found@) =~= items_with_number(view.take(0), name@, number));
    }
    while index < items.len()
        invariant
            index <= items@.len(),
            view == list_view(items@),
            refs_view(found@) == items_with_number(view.take(index as int), name@, number),
        decreases items.len() - index,
    {
        proof {
            assert(view.take(index + 1).drop_last() =~= view.take(index as int));
            assert(view.take(index + 1).last() == items@[index as int]@);
        }
        let item = &items[index];
        if item.get_u64(name) == Some(number) {
            let ghost before = refs_view(found@);
            found.push(item);
            assert(refs_view(found@) =~= before.push(item@));
        }
        index += 1;
    }
    assert(view.take(view.len() as int) =~= view);
    found
}

/// The names under which a tree holds what an update reads.
pub struct TreeNames {
    /// The root container.
    pub root: Seq<char>,
    /// The rule list.
    pub rule: Seq<char>,
    /// The entry list.
    pub entry: Seq<char>,
    /// The target list.
    pub target: Seq<char>,
    /// The value of a rule identity.
    pub rule_value: Seq<char>,
    /// The bit length of a rule identity.
    pub rule_length: Seq<char>,
    /// The index of an entry.
    pub entry_index: Seq<char>,
    /// The index of a target.
    pub target_index: Seq<char>,
    /// The value of a target.
    pub target_value: Seq<char>,
}

/// The names for some SIDs, or the first SID without a name.
pub open spec fn tree_names(model: ModelView, sids: ModelSids) -> Result<TreeNames, Fault> {
    match tree_key(model, sids.root) {
        Err(fault) => Err(fault),
        Ok(root) => match tree_key(model, sids.rule) {
            Err(fault) => Err(fault),
            Ok(rule) => match tree_key(model, sids.entry) {
                Err(fault) => Err(fault),
                Ok(entry) => match tree_key(model, sids.target) {
                    Err(fault) => Err(fault),
                    Ok(target) => match tree_key(model, sids.rule_id_value) {
                        Err(fault) => Err(fault),
                        Ok(rule_value) => match tree_key(model, sids.rule_id_length) {
                            Err(fault) => Err(fault),
                            Ok(rule_length) => match tree_key(model, sids.entry_index) {
                                Err(fault) => Err(fault),
                                Ok(entry_index) => match tree_key(model, sids.target_index) {
                                    Err(fault) => Err(fault),
                                    Ok(target_index) => match tree_key(model, sids.target_value) {
                                        Err(fault) => Err(fault),
                                        Ok(target_value) => Ok(
                                            TreeNames {
                                                root,
                                                rule,
                                                entry,
                                                target,
                                                rule_value,
                                                rule_length,
                                                entry_index,
                                                target_index,
                                                target_value,
                                            },
                                        ),
                                    },
                                },
                            },
                        },
                    },
                },
            },
        },
    }
}

/// The list that a named member holds.
pub open spec fn list_member(value: Json, name: Seq<char>) -> Option<Seq<Json>> {
    match member(value, name) {
        Some(Json::Array(items)) => Some(items),
        _ => None,
    }
}

/// The rules of a tree.
pub open spec fn rules_of_tree(tree: Json, names: TreeNames) -> Result<Seq<Json>, Fault> {
    match member(tree, names.root) {
        Some(Json::Object(root)) => match list_member(Json::Object(root), names.rule) {
            Some(rules) => Ok(rules),
            None => Err(Fault::InvalidTarget("complete tree is missing the rule list"@)),
        },
        _ => Err(Fault::InvalidTarget("complete tree is missing the SCHC root"@)),
    }
}

/// The one rule of a tree with an identity.
pub open spec fn selected_rule(tree: Json, names: TreeNames, selector: RuleSelector) -> Result<
    Json,
    Fault,
> {
    match rules_of_tree(tree, names) {
        Err(fault) => Err(fault),
        Ok(rules) => {
            let found = rules_with_identity(rules, names.rule_value, names.rule_length, selector);
            if found.len() == 0 {
                Err(Fault::MissingRule(selector.value, selector.bits))
            } else if found.len() == 1 {
                Ok(found[0])
            } else {
                Err(Fault::AmbiguousRule(selector.value, selector.bits, found.len() as usize))
            }
        },
    }
}

/// The one entry of a rule with an index.
pub open spec fn selected_entry(
    rule: Json,
    names: TreeNames,
    selector: RuleSelector,
    entry_index: usize,
) -> Result<Json, Fault> {
    match list_member(rule, names.entry) {
        None => Err(Fault::InvalidTarget("selected rule is missing the entry list"@)),
        Some(entries) => {
            let found = items_with_number(entries, names.entry_index, entry_index as u64);
            if found.len() == 0 {
                Err(Fault::MissingEntry(selector, "entry="@ + decimal(entry_index as nat)))
            } else if found.len() == 1 {
                Ok(found[0])
            } else {
                Err(
                    Fault::InvalidTarget(
                        "entry "@ + decimal(entry_index as nat)
                            + " occurs more than once in RuleID "@ + selector.spelled(),
                    ),
                )
            }
        },
    }
}

/// Where an update finds its target: the entry, the index of its one target,
/// and the current value.
pub struct Located {
    /// The entry.
    pub entry: Json,
    /// The index of the target.
    pub target_index: usize,
    /// The current value of the target.
    pub current: Json,
}

/// The one target of an entry.
pub open spec fn selected_target(entry: Json, names: TreeNames, entry_index: usize) -> Result<
    Located,
    Fault,
> {
    match list_member(entry, names.target) {
        None => Err(
            Fault::InvalidTarget(
                "entry "@ + decimal(entry_index as nat) + " is missing its target-value list"@,
            ),
        ),
        Some(targets) => if targets.len() != 1 {
            Err(
                Fault::InvalidTarget(
                    "entry "@ + decimal(entry_index as nat) + " target-value list has "@ + decimal(
                        targets.len(),
                    ) + " members; exactly one is required"@,
                ),
            )
        } else {
            match unsigned_member(targets[0], names.target_index) {
                Some(target_index) if target_index <= usize::MAX => match member(
                    targets[0],
                    names.target_value,
                ) {
                    None => Err(Fault::InvalidTarget("target-value member has no value"@)),
                    Some(current) => Ok(
                        Located { entry, target_index: target_index as usize, current },
                    ),
                },
                _ => Err(Fault::InvalidTarget("target-value member has no numeric index"@)),
            }
        },
    }
}

/// Where an update finds its target in a complete tree.
pub open spec fn located(
    rule: RuleSelector,
    entry_index: usize,
    tree: Json,
    names: TreeNames,
) -> Result<Located, Fault> {
    match selected_rule(tree, names, rule) {
        Err(fault) => Err(fault),
        Ok(found) => match selected_entry(found, names, rule, entry_index) {
            Err(fault) => Err(fault),
            Ok(entry) => selected_target(entry, names, entry_index),
        },
    }
}

struct TreeKeys {
    root: String,
    rule: String,
    entry: String,
    target: String,
    rule_value: String,
    rule_length: String,
    entry_index: String,
    target_index: String,
    target_value: String,
}

impl TreeKeys {
    spec fn names(self) -> TreeNames {
        TreeNames {
            root: self.root@,
            rule: self.rule@,
            entry: self.entry@,
            target: self.target@,
            rule_value: self.rule_value@,
            rule_length: self.rule_length@,
            entry_index: self.entry_index@,
            target_index: self.target_index@,
            target_value: self.target_value@,
        }
    }
}

fn resolve_tree_keys(model: &SidModel, sids: &ModelSids) -> (result: Result<
    TreeKeys,
    InspectionError,
>)
    ensures
        match result {
            Ok(keys) => tree_names(model@, *sids) == Ok::<TreeNames, Fault>(keys.names()),
            Err(error) => tree_names(model@, *sids) == Err::<TreeNames, Fault>(error@),
        },
{
    let root = tree_key_for_sid(model, sids.root)?;
    let rule = tree_key_for_sid(model, sids.rule)?;
    let entry = tree_key_for_sid(model, sids.entry)?;
    let target = tree_key_for_sid(model, sids.target)?;
    let rule_value = tree_key_for_sid(model, sids.rule_id_value)?;
    let rule_length = tree_key_for_sid(model, sids.rule_id_length)?;
    let entry_index = tree_key_for_sid(model, sids.entry_index)?;
    let target_index = tree_key_for_sid(model, sids.target_index)?;
    let target_value = tree_key_for_sid(model, sids.target_value)?;
    Ok(
        TreeKeys {
            root,
            rule,
            entry,
            target,
            rule_value,
            rule_length,
            entry_index,
            target_index,
            target_value,
        },
    )
}

/// Returns the list that a named member holds.
pub(crate) fn get_list<'a>(value: &'a JsonValue, name: &str) -> (result: Option<
    &'a Vec<JsonValue>,
>)
    ensures
        match result {
            Some(items) => list_member(value@, name@) == Some(list_view(items@)),
            None => list_member(value@, name@) is None,
        },
{
    match value.get(name) {
        None => None,
        Some(held) => {
            proof {
                lemma_json_view(*held);
            }
            match held {
                JsonValue::Array(items) => Some(items),
                _ => None,
            }
        },
    }
}

fn get_rules<'a>(tree: &'a JsonValue, keys: &TreeKeys) -> (result: Result<
    &'a Vec<JsonValue>,
    InspectionError,
>)
    ensures
        match result {
            Ok(rules) => rules_of_tree(tree@, keys.names()) == Ok::<Seq<Json>, Fault>(
                list_view(rules@),
            ),
            Err(error) => rules_of_tree(tree@, keys.names()) == Err::<Seq<Json>, Fault>(error@),
        },
{
    let root = match tree.get(keys.root.as_str()) {
        Some(root) => root,
        None => {
            return Err(invalid_target("complete tree is missing the SCHC root"));
        },
    };
    proof {
        lemma_json_view(*root);
    }
    let is_object = match root {
        JsonValue::Object(_) => true,
        _ => false,
    };
    if !is_object {
        return Err(invalid_target("complete tree is missing the SCHC root"));
    }
    match get_list(root, keys.rule.as_str()) {
        Some(rules) => Ok(rules),
        None => Err(invalid_target("complete tree is missing the rule list")),
    }
}

fn select_rule<'a>(tree: &'a JsonValue, keys: &TreeKeys, selector: RuleSelector) -> (result: Result<
    &'a JsonValue,
    InspectionError,
>)
    ensures
        match result {
            Ok(rule) => selected_rule(tree@, keys.names(), selector) == Ok::<Json, Fault>(rule@),
            Err(error) => selected_rule(tree@, keys.names(), selector) == Err::<Json, Fault>(
                error@,
            ),
        },
{
    let rules = get_rules(tree, keys)?;
    let found = find_rules(rules, keys.rule_value.as_str(), keys.rule_length.as_str(), selector);
    assert(refs_view(found@).len() == found@.len());
    if found.len() == 0 {
        return Err(InspectionError::MissingRule { value: selector.value, bits: selector.bits });
    }
    assert(refs_view(found@)[0] == found@[0]@);
    if found.len() == 1 {
        return Ok(found[0]);
    }
    Err(
        InspectionError::AmbiguousRule {
            value: selector.value,
            bits: selector.bits,
            matches: found.len(),
        },
    )
}

fn select_entry<'a>(
    rule: &'a JsonValue,
    keys: &TreeKeys,
    selector: RuleSelector,
    entry_index: usize,
) -> (result: Result<&'a JsonValue, InspectionError>)
    ensures
        match result {
            Ok(entry) => selected_entry(rule@, keys.names(), selector, entry_index) == Ok::<
                Json,
                Fault,
            >(entry@),
            Err(error) => selected_entry(rule@, keys.names(), selector, entry_index) == Err::<
                Json,
                Fault,
            >(error@),
        },
{
    let entries = match get_list(rule, keys.entry.as_str()) {
        Some(entries) => entries,
        None => {
            return Err(invalid_target("selected rule is missing the entry list"));
        },
    };
    let found = find_items(entries, keys.entry_index.as_str(), entry_index as u64);
    assert(refs_view(found@).len() == found@.len());
    let number = decimal_string(entry_index as u64);
    if found.len() == 0 {
        return Err(
            InspectionError::MissingEntry {
                rule: selector,
                selector: join("entry=", number.as_str()),
            },
        );
    }
    assert(refs_view(found@)[0] == found@[0]@);
    if found.len() == 1 {
        return Ok(found[0]);
    }
    let head = join3("entry ", number.as_str(), " occurs more than once in RuleID ");
    Err(invalid_target(join(head.as_str(), selector.to_text().as_str()).as_str()))
}

/// Where an update finds its target.
#[derive(Debug)]
pub struct TargetLocation {
    /// The SIDs of the model.
    pub sids: ModelSids,
    /// The selected entry.
    pub entry: JsonValue,
    /// The index of its one target.
    pub target_index: usize,
    /// The identifier-level value of that target.
    pub current: JsonValue,
}

impl TargetLocation {
    /// The place that was found.
    pub open spec fn place(self) -> Located {
        Located { entry: self.entry@, target_index: self.target_index, current: self.current@ }
    }
}

fn select_target(entry: &JsonValue, keys: &TreeKeys, entry_index: usize, sids: ModelSids) -> (result:
    Result<TargetLocation, InspectionError>)
    ensures
        match result {
            Ok(location) => selected_target(entry@, keys.names(), entry_index) == Ok::<
                Located,
                Fault,
            >(location.place()) && location.sids == sids,
            Err(error) => selected_target(entry@, keys.names(), entry_index) == Err::<
                Located,
                Fault,
            >(error@),
        },
{
    let number = decimal_string(entry_index as u64);
    let targets = match get_list(entry, keys.target.as_str()) {
        Some(targets) => targets,
        None => {
            return Err(
                invalid_target(
                    join3("entry ", number.as_str(), " is missing its target-value list").as_str(),
                ),
            );
        },
    };
    if targets.len() != 1 {
        let head = join3("entry ", number.as_str(), " target-value list has ");
        return Err(
            invalid_target(
                join3(
                    head.as_str(),
                    decimal_string(targets.len() as u64).as_str(),
                    " members; exactly one is required",
                ).as_str(),
            ),
        );
    }
    let target = &targets[0];
    assert(list_view(targets@)[0] == target@);
    let target_index: usize = match target.get_u64(keys.target_index.as_str()) {
        Some(index) if index <= usize::MAX as u64 => index as usize,
        _ => {
            return Err(invalid_target("target-value member has no numeric index"));
        },
    };
    match target.get(keys.target_value.as_str()) {
        None => Err(invalid_target("target-value member has no value")),
        Some(current) => Ok(
            TargetLocation { sids, entry: entry.copy(), target_index, current: current.copy() },
        ),
    }
}

/// Where an update finds its target, and the SIDs of the model.
pub open spec fn target_location(
    rule: RuleSelector,
    entry_index: usize,
    tree: Json,
    model: ModelView,
) -> Result<(ModelSids, Located), Fault> {
    match update_sids(model) {
        Err(fault) => Err(fault),
        Ok(sids) => match tree_names(model, sids) {
            Err(fault) => Err(fault),
            Ok(names) => match located(rule, entry_index, tree, names) {
                Err(fault) => Err(fault),
                Ok(place) => Ok((sids, place)),
            },
        },
    }
}

/// Finds the target of an update in a complete tree: exactly one rule, one
/// entry and one target.
pub fn locate_target(rule: RuleSelector, entry_index: usize, tree: &JsonValue, model: &SidModel) -> (
result: Result<TargetLocation, InspectionError>)
    ensures
        match result {
            Ok(location) => target_location(rule, entry_index, tree@, model@) == Ok::<
                (ModelSids, Located),
                Fault,
            >((location.sids, location.place())) && (model@.well_formed()
                ==> location.sids.well_formed()),
            Err(error) => target_location(rule, entry_index, tree@, model@) == Err::<
                (ModelSids, Located),
                Fault,
            >(error@),
        },
{
    let sids = validate_update_model_shape(model)?;
    let keys = resolve_tree_keys(model, &sids)?;
    let found = select_rule(tree, &keys, rule)?;
    let entry = select_entry(found, &keys, rule, entry_index)?;
    select_target(entry, &keys, entry_index, sids)
}

/// The tree of an answer, or its error text.
pub open spec fn answer_view(answer: Result<JsonValue, String>) -> Result<Json, Seq<char>> {
    match answer {
        Ok(value) => Ok(value@),
        Err(text) => Err(text@),
    }
}

/// The bytes that replace a located target. `wire` is its current value as the
/// model writes it.
pub open spec fn located_replacement(
    model: ModelView,
    sids: ModelSids,
    place: Located,
    input: Seq<char>,
    wire: Result<Json, Seq<char>>,
) -> Result<Seq<u8>, Fault> {
    match wire {
        Err(text) => Err(Fault::InvalidTarget("current target value is invalid: "@ + text)),
        Ok(value) => match binary_of(value) {
            Err(fault) => Err(fault),
            Ok(current) => match tree_key(model, sids.field_length) {
                Err(fault) => Err(fault),
                Ok(name) => match member(place.entry, name) {
                    None => Err(Fault::InvalidTarget("selected entry has no field-length"@)),
                    Some(field_length) => replacement_bytes(input, current.len(), field_length),
                },
            },
        },
    }
}

/// Returns the bytes that replace a located target. `wire` is its current
/// value as the model writes it.
pub fn target_replacement(
    location: &TargetLocation,
    model: &SidModel,
    input: &str,
    wire: &Result<JsonValue, String>,
) -> (result: Result<Vec<u8>, InspectionError>)
    ensures
        match result {
            Ok(bytes) => located_replacement(
                model@,
                location.sids,
                location.place(),
                input@,
                answer_view(*wire),
            ) == Ok::<Seq<u8>, Fault>(bytes@),
            Err(error) => located_replacement(
                model@,
                location.sids,
                location.place(),
                input@,
                answer_view(*wire),
            ) == Err::<Seq<u8>, Fault>(error@),
        },
{
    let value = match wire {
        Ok(value) => value,
        Err(text) => {
            return Err(
                invalid_target(join("current target value is invalid: ", text.as_str()).as_str()),
            );
        },
    };
    let current = binary_bytes(value)?;
    let name = tree_key_for_sid(model, location.sids.field_length)?;
    match location.entry.get(name.as_str()) {
        None => Err(invalid_target("selected entry has no field-length")),
        Some(field_length) => numeric_target_value(input, current.as_slice(), field_length),
    }
}

/// One resolved target-value update in instance form.
///
/// `value` is the wire value: a list of byte numbers. `path` contains every
/// list key: both keys of the rule, the entry index, and the target index.
#[derive(Debug)]
pub struct ResolvedRuleUpdate {
    /// The parsed request, including the optional precondition flag.
    pub request: RuleUpdateRequest,
    /// Canonical zero-based entry index selected by the request.
    pub entry_index: usize,
    /// Existing target index selected from the complete tree.
    pub target_value_index: usize,
    /// Exact path to the value of the target.
    pub path: InstancePath,
    /// Exactly one replacement value in wire representation.
    pub value: JsonValue,
}

/// A resolved update as a mathematical value.
pub struct ResolvedView {
    /// The parsed request.
    pub request: UpdateView,
    /// Canonical entry index.
    pub entry_index: usize,
    /// Existing target index.
    pub target_value_index: usize,
    /// Exact path to the value of the target.
    pub path: Seq<Step>,
    /// Replacement value in wire representation.
    pub value: Json,
}

impl View for ResolvedRuleUpdate {
    type V = ResolvedView;

    open spec fn view(&self) -> ResolvedView {
        ResolvedView {
            request: self.request@,
            entry_index: self.entry_index,
            target_value_index: self.target_value_index,
            path: self.path@,
            value: self.value@,
        }
    }
}

/// Whether a model accepts a value, or its error text.
pub open spec fn accepted_view(answer: Result<(), String>) -> Result<(), Seq<char>> {
    match answer {
        Ok(_) => Ok(()),
        Err(text) => Err(text@),
    }
}

/// The update that a request resolves to at an entry of a complete tree.
/// `wire` is the current value as the model writes it, and `accepted` tells
/// whether the model accepts the replacement.
pub open spec fn resolved_update(
    request: UpdateView,
    entry_index: usize,
    tree: Json,
    model: ModelView,
    wire: Result<Json, Seq<char>>,
    accepted: Result<(), Seq<char>>,
) -> Result<ResolvedView, Fault> {
    match target_location(request.rule, entry_index, tree, model) {
        Err(fault) => Err(fault),
        Ok((sids, place)) => match located_replacement(
            model,
            sids,
            place,
            request.target_value,
            wire,
        ) {
            Err(fault) => Err(fault),
            Ok(bytes) => match accepted {
                Err(text) => Err(
                    Fault::InvalidTarget("replacement target value is invalid: "@ + text),
                ),
                Ok(_) => Ok(
                    ResolvedView {
                        request,
                        entry_index,
                        target_value_index: place.target_index,
                        path: target_path(
                            sids,
                            request.rule,
                            entry_index as int,
                            place.target_index as int,
                        ),
                        value: byte_list(bytes),
                    },
                ),
            },
        },
    }
}

fn copy_update(request: &RuleUpdateRequest) -> (result: RuleUpdateRequest)
    ensures
        result@ == request@,
{
    let entry = match &request.entry {
        RuleEntrySelector::Entry { entry_index } => RuleEntrySelector::Entry {
            entry_index: *entry_index,
        },
        RuleEntrySelector::Field { fid, field_position, direction } => {
            let direction = match direction {
                Some(text) => Some(text.clone()),
                None => None,
            };
            RuleEntrySelector::Field {
                fid: fid.clone(),
                field_position: *field_position,
                direction,
            }
        },
    };
    RuleUpdateRequest {
        rule: request.rule,
        entry,
        target_value: request.target_value.clone(),
        if_match: request.if_match,
    }
}

impl ResolvedRuleUpdate {
    /// Builds one resolved update from an already resolved entry index.
    ///
    /// This validates the complete tree, requires one existing target, and
    /// converts the decimal value of the command to the existing binary width
    /// without truncation. `wire` is the current value as the model writes it,
    /// and `accepted` tells whether the model accepts the replacement.
    pub fn from_request(
        request: &RuleUpdateRequest,
        entry_index: usize,
        tree: &JsonValue,
        model: &SidModel,
        wire: &Result<JsonValue, String>,
        accepted: &Result<(), String>,
    ) -> (result: Result<Self, InspectionError>)
        requires
            model@.well_formed(),
        ensures
            match result {
                Ok(update) => resolved_update(
                    request@,
                    entry_index,
                    tree@,
                    model@,
                    answer_view(*wire),
                    accepted_view(*accepted),
                ) == Ok::<ResolvedView, Fault>(update@),
                Err(error) => resolved_update(
                    request@,
                    entry_index,
                    tree@,
                    model@,
                    answer_view(*wire),
                    accepted_view(*accepted),
                ) == Err::<ResolvedView, Fault>(error@),
            },
    {
        let location = locate_target(request.rule, entry_index, tree, model)?;
        let bytes = target_replacement(&location, model, request.target_value.as_str(), wire)?;
        if let Err(text) = accepted {
            return Err(
                invalid_target(
                    join("replacement target value is invalid: ", text.as_str()).as_str(),
                ),
            );
        }
        let path = target_value_path(
            location.sids,
            request.rule,
            entry_index,
            location.target_index,
        );
        Ok(
            ResolvedRuleUpdate {
                request: copy_update(request),
                entry_index,
                target_value_index: location.target_index,
                path,
                value: byte_array(bytes.as_slice()),
            },
        )
    }

    /// Returns the one instance operation represented by this update.
    pub fn instance(&self) -> (result: Instance)
        ensures
            result@ == (InstanceView { path: self@.path, value: Some(self@.value) }),
    {
        Instance { path: self.path.copy(), value: Some(self.value.copy()) }
    }
}

impl RuleUpdateRequest {
    /// Resolves and converts this request into one update.
    ///
    /// The operation remains detached and does not change the tree.
    pub fn resolve_target_value(
        &self,
        detail: &RuleDetail,
        tree: &JsonValue,
        model: &SidModel,
        wire: &Result<JsonValue, String>,
        accepted: &Result<(), String>,
    ) -> (result: Result<ResolvedRuleUpdate, InspectionError>)
        requires
            model@.well_formed(),
        ensures
            ({
                let outcome = match update_index(self@, detail@) {
                    Err(fault) => Err::<ResolvedView, Fault>(fault),
                    Ok(entry_index) => resolved_update(
                        self@,
                        entry_index,
                        tree@,
                        model@,
                        answer_view(*wire),
                        accepted_view(*accepted),
                    ),
                };
                match result {
                    Ok(update) => outcome == Ok::<ResolvedView, Fault>(update@),
                    Err(error) => outcome == Err::<ResolvedView, Fault>(error@),
                }
            }),
    {
        let entry_index: usize = self.resolve_entry_index(detail)?;
        ResolvedRuleUpdate::from_request(self, entry_index, tree, model, wire, accepted)
    }
}

/// A tree as a CBOR value, or that it holds a number that is none.
pub open spec fn tree_cbor(value: Json) -> Result<Cbor, Fault>
    decreases value, 1nat, 0nat,
{
    match value {
        Json::Null => Ok(Cbor::Null),
        Json::Bool(truth) => Ok(Cbor::Bool(truth)),
        Json::Integer(number) => if i64::MIN <= number <= u64::MAX {
            Ok(Cbor::Integer(number))
        } else {
            Err(Fault::InvalidTarget("path contains an invalid number"@))
        },
        Json::Decimal(spelling) => Ok(Cbor::Float(spelling)),
        Json::Text(text) => Ok(Cbor::Text(text)),
        Json::Array(items) => match items_cbor(items, items.len()) {
            Ok(list) => Ok(Cbor::Array(list)),
            Err(fault) => Err(fault),
        },
        Json::Object(members) => match members_cbor(members, members.len()) {
            Ok(list) => Ok(Cbor::Entries(list)),
            Err(fault) => Err(fault),
        },
    }
}

/// The first items of a list as CBOR values.
pub open spec fn items_cbor(items: Seq<Json>, count: nat) -> Result<Seq<Cbor>, Fault>
    decreases items, 0nat, count,
{
    if count == 0 || count > items.len() {
        Ok(Seq::empty())
    } else {
        match items_cbor(items, (count - 1) as nat) {
            Err(fault) => Err(fault),
            Ok(list) => match tree_cbor(items[count - 1]) {
                Err(fault) => Err(fault),
                Ok(value) => Ok(list.push(value)),
            },
        }
    }
}

/// The first members of an object as CBOR entries.
pub open spec fn members_cbor(members: Seq<(Seq<char>, Json)>, count: nat) -> Result<
    Seq<(Cbor, Cbor)>,
    Fault,
>
    decreases members, 0nat, count,
{
    if count == 0 || count > members.len() {
        Ok(Seq::empty())
    } else {
        match members_cbor(members, (count - 1) as nat) {
            Err(fault) => Err(fault),
            Ok(list) => match tree_cbor(members[count - 1].1) {
                Err(fault) => Err(fault),
                Ok(value) => Ok(list.push((Cbor::Text(members[count - 1].0), value))),
            },
        }
    }
}

proof fn lemma_items_cbor_error_stays(items: Seq<Json>, count: nat, more: nat)
    requires
        count <= more <= items.len(),
        items_cbor(items, count) is Err,
    ensures
        items_cbor(items, more) is Err,
        items_cbor(items, more)->Err_0 == items_cbor(items, count)->Err_0,
    decreases more,
{
    if count < more {
        lemma_items_cbor_error_stays(items, count, (more - 1) as nat);
    }
}

proof fn lemma_members_cbor_error_stays(members: Seq<(Seq<char>, Json)>, count: nat, more: nat)
    requires
        count <= more <= members.len(),
        members_cbor(members, count) is Err,
    ensures
        members_cbor(members, more) is Err,
        members_cbor(members, more)->Err_0 == members_cbor(members, count)->Err_0,
    decreases more,
{
    if count < more {
        lemma_members_cbor_error_stays(members, count, (more - 1) as nat);
    }
}

/// Converts a tree to a CBOR value.
pub fn serde_value_to_cbor(value: &JsonValue) -> (result: Result<CborValue, InspectionError>)
    ensures
        match result {
            Ok(cbor) => tree_cbor(value@) == Ok::<Cbor, Fault>(cbor@),
            Err(error) => tree_cbor(value@) == Err::<Cbor, Fault>(error@),
        },
    decreases value,
{
    proof {
        lemma_json_view(*value);
    }
    match value {
        JsonValue::Null => Ok(CborValue::Null),
        JsonValue::Bool(truth) => Ok(CborValue::Bool(*truth)),
        JsonValue::Integer(number) => {
            if -0x8000_0000_0000_0000 <= *number && *number <= 0xffff_ffff_ffff_ffff {
                Ok(CborValue::Integer(*number))
            } else {
                Err(invalid_target("path contains an invalid number"))
            }
        },
        JsonValue::Decimal(spelling) => Ok(CborValue::Float(spelling.clone())),
        JsonValue::Text(text) => Ok(CborValue::Text(text.clone())),
        JsonValue::Array(items) => {
            let ghost view = list_view(items@);
            let mut list: Vec<CborValue> = Vec::new();
            let mut index: usize = 0;
            assert(array_view(list@) =~= Seq::<Cbor>::empty());
            while index < items.len()
                invariant
                    index <= items@.len(),
                    view == list_view(items@),
                    value@ == Json::Array(view),
                    items_cbor(view, index as nat) == Ok::<Seq<Cbor>, Fault>(array_view(list@)),
                    decreases_to!(value => items@),
                decreases items.len() - index,
            {
                assert(view[index as int] == items@[index as int]@);
                match serde_value_to_cbor(&items[index]) {
                    Ok(item) => {
                        let ghost before = array_view(list@);
                        list.push(item);
                        assert(array_view(list@) =~= before.push(item@));
                    },
                    Err(error) => {
                        proof {
                            lemma_items_cbor_error_stays(view, (index + 1) as nat, view.len());
                        }
                        return Err(error);
                    },
                }
                index += 1;
            }
            let cbor = CborValue::Array(list);
            proof {
                lemma_cbor_view(cbor);
            }
            Ok(cbor)
        },
        JsonValue::Object(members) => {
            let ghost view = members_view(members@);
            let mut list: Vec<(CborValue, CborValue)> = Vec::new();
            let mut index: usize = 0;
            assert(entries_view(list@) =~= Seq::<(Cbor, Cbor)>::empty());
            while index < members.len()
                invariant
                    index <= members@.len(),
                    view == members_view(members@),
                    value@ == Json::Object(view),
                    members_cbor(view, index as nat) == Ok::<Seq<(Cbor, Cbor)>, Fault>(
                        entries_view(list@),
                    ),
                    decreases_to!(value => members@),
                decreases members.len() - index,
            {
                assert(view[index as int] == (members@[index as int].0@, members@[index as int].1@));
                match serde_value_to_cbor(&members[index].1) {
                    Ok(item) => {
                        let ghost before = entries_view(list@);
                        let key = CborValue::Text(members[index].0.clone());
                        list.push((key, item));
                        assert(entries_view(list@) =~= before.push((key@, item@)));
                    },
                    Err(error) => {
                        proof {
                            lemma_members_cbor_error_stays(view, (index + 1) as nat, view.len());
                        }
                        return Err(error);
                    },
                }
                index += 1;
            }
            let cbor = CborValue::Entries(list);
            proof {
                lemma_cbor_view(cbor);
            }
            Ok(cbor)
        },
    }
}

/// How one change is encoded: a map from its path to its bytes. `path` is the
/// path as the model writes it; what the codec's own errors say is left open.
pub open spec fn payload_outcome(value: Json, path: Json, outcome: Result<Seq<u8>, Fault>) -> bool {
    match tree_cbor(path) {
        Err(fault) => outcome == Err::<Seq<u8>, Fault>(fault),
        Ok(key) => match binary_of(value) {
            Err(fault) => outcome == Err::<Seq<u8>, Fault>(fault),
            Ok(bytes) => match cbor_bytes(Cbor::Entries(seq![(key, Cbor::Bytes(bytes))])) {
                None => outcome matches Err(Fault::InvalidTarget(_)),
                Some(payload) => outcome == Ok::<Seq<u8>, Fault>(payload),
            },
        },
    }
}

/// A generic root iPATCH request: its payload for the instance-sequence
/// handler of the management interface.
#[derive(Debug)]
pub struct PatchRequest {
    /// Payload bytes.
    pub payload: Vec<u8>,
}

/// The options of an iPATCH datagram: an optional precondition, the resource
/// and the content format of instances.
pub open spec fn ipatch_options(base_tag: Option<Seq<u8>>) -> Seq<(u16, Seq<u8>)> {
    let plain = seq![(URI_PATH, schc_segment()), (CONTENT_FORMAT, seq![142u8])];
    match base_tag {
        Some(tag) => seq![(IF_MATCH, tag)] + plain,
        None => plain,
    }
}

/// An iPATCH message.
pub open spec fn ipatch_message(message_id: u16, base_tag: Option<Seq<u8>>, payload: Seq<u8>) -> Coap {
    Coap {
        options: ipatch_options(base_tag),
        ..content_message(COAP_IPATCH, COAP_CONFIRMABLE, message_id, 142, payload)
    }
}

/// The bytes of an optional tag.
pub open spec fn tag_view(tag: Option<ContextTag>) -> Option<Seq<u8>> {
    match tag {
        Some(held) => Some(held@),
        None => None,
    }
}

/// How an iPATCH datagram is built; what the codec's own errors say is left
/// open.
pub open spec fn ipatch_outcome(
    update: ResolvedView,
    message_id: u16,
    base_tag: Option<Seq<u8>>,
    path: Json,
    outcome: Result<Seq<u8>, Fault>,
) -> bool {
    if update.request.if_match && base_tag is None {
        outcome == Err::<Seq<u8>, Fault>(
            Fault::InvalidTarget("--if-match requires a base context tag"@),
        )
    } else if !update.request.if_match && base_tag is Some {
        outcome == Err::<Seq<u8>, Fault>(
            Fault::InvalidTarget("a base context tag requires --if-match"@),
        )
    } else {
        exists|payload: Result<Seq<u8>, Fault>| #[trigger]
            payload_outcome(update.value, path, payload) && match payload {
                Err(fault) => outcome == Err::<Seq<u8>, Fault>(fault),
                Ok(bytes) => datagram_outcome(ipatch_message(message_id, base_tag, bytes), outcome),
            }
    }
}

impl ResolvedRuleUpdate {
    /// Encodes exactly one root iPATCH instance operation. `path` is the path
    /// of this update as the model writes it.
    pub fn ipatch_payload(&self, path: &JsonValue) -> (result: Result<Vec<u8>, InspectionError>)
        ensures
            payload_outcome(self@.value, path@, datagram_view(result)),
    {
        let key = serde_value_to_cbor(path)?;
        let bytes = binary_bytes(&self.value)?;
        let ghost held = bytes@;
        let ghost key_view = key@;
        let entries: Vec<(CborValue, CborValue)> = vec![(key, CborValue::Bytes(bytes))];
        let value = CborValue::Entries(entries);
        proof {
            lemma_cbor_view(value);
            assert(entries_view(entries@) =~= seq![(key_view, Cbor::Bytes(held))]);
        }
        match encode_item(&value) {
            Ok(payload) => Ok(payload),
            Err(text) => Err(
                invalid_target(join("iPATCH instance encoding failed: ", text.as_str()).as_str()),
            ),
        }
    }

    /// Constructs the generic root iPATCH request for this update.
    ///
    /// The request cannot carry CoAP options, so an update with a precondition
    /// is refused.
    pub fn ipatch_request(&self, path: &JsonValue) -> (result: Result<
        PatchRequest,
        InspectionError,
    >)
        ensures
            ({
                let outcome = match result {
                    Ok(request) => Ok::<Seq<u8>, Fault>(request.payload@),
                    Err(error) => Err(error@),
                };
                if self@.request.if_match {
                    outcome == Err::<Seq<u8>, Fault>(
                        Fault::InvalidTarget(
                            "--if-match requires the CoAP ipatch_datagram builder"@,
                        ),
                    )
                } else {
                    payload_outcome(self@.value, path@, outcome)
                }
            }),
    {
        if self.request.if_match {
            return Err(invalid_target("--if-match requires the CoAP ipatch_datagram builder"));
        }
        let payload = self.ipatch_payload(path)?;
        Ok(PatchRequest { payload })
    }

    /// Builds a complete datagram for this root iPATCH update.
    ///
    /// When the command asked for a precondition, `base_tag` is required and
    /// encoded as exactly one If-Match option. A tag supplied for a default
    /// update is rejected rather than ignored.
    pub fn ipatch_datagram(
        &self,
        message_id: u16,
        base_tag: Option<ContextTag>,
        path: &JsonValue,
    ) -> (result: Result<Vec<u8>, InspectionError>)
        ensures
            ipatch_outcome(self@, message_id, tag_view(base_tag), path@, datagram_view(result)),
    {
        if self.request.if_match && base_tag.is_none() {
            return Err(invalid_target("--if-match requires a base context tag"));
        }
        if !self.request.if_match && base_tag.is_some() {
            return Err(invalid_target("a base context tag requires --if-match"));
        }
        let encoded = self.ipatch_payload(path);
        let ghost outcome = datagram_view(encoded);
        assert(payload_outcome(self@.value, path@, outcome));
        let payload = encoded?;
        let ghost bytes = payload@;
        let mut message = content_request(
            COAP_IPATCH,
            COAP_CONFIRMABLE,
            message_id,
            142,
            payload,
        );
        if let Some(tag) = base_tag {
            let option = CoapOption::new(IF_MATCH, tag.to_vec());
            let ghost before = message@.options;
            message.options.insert(0, option);
            assert(message@.options =~= seq![(IF_MATCH, tag@)] + before);
        }
        assert(message@ == ipatch_message(message_id, tag_view(base_tag), bytes));
        serialize(&message)
    }
}

proof fn lemma_byte_prefix(items: Seq<Json>, count: nat)
    requires
        count <= items.len(),
        byte_prefix(items, count) is Ok,
    ensures
        byte_prefix(items, count)->Ok_0.len() == count,
        forall|i: int|
            0 <= i < count ==> #[trigger] items[i] == Json::Integer(
                byte_prefix(items, count)->Ok_0[i] as int,
            ),
    decreases count,
{
    if count > 0 {
        lemma_byte_prefix(items, (count - 1) as nat);
        let before = byte_prefix(items, (count - 1) as nat)->Ok_0;
        let bytes = byte_prefix(items, count)->Ok_0;
        let number = unsigned(items[count - 1])->0;
        assert(bytes == before.push(number as u8));
        assert forall|i: int| 0 <= i < count implies #[trigger] items[i] == Json::Integer(
            bytes[i] as int,
        ) by {
            if i < count - 1 {
                assert(bytes[i] == before[i]);
            }
        }
    }
}

/// The bytes of a binary leaf are the numbers of its list, one for each and in
/// their order.
pub proof fn binary_value_lists_its_bytes(value: Json)
    requires
        binary_of(value) is Ok,
    ensures
        value is Array,
        value->Array_0.len() == binary_of(value)->Ok_0.len(),
        forall|i: int|
            0 <= i < value->Array_0.len() ==> #[trigger] value->Array_0[i] == Json::Integer(
                binary_of(value)->Ok_0[i] as int,
            ),
{
    lemma_byte_prefix(value->Array_0, value->Array_0.len());
}

/// A command value is accepted only as decimal digits, for a target that has a
/// width, and for a field that is not empty; in a target of less than eight
/// bytes it stays below the next power of two.
pub proof fn accepted_target_value_is_decimal(input: Seq<char>, width: nat, field_length: Json)
    requires
        replacement_bytes(input, width, field_length) is Ok,
    ensures
        input.len() > 0,
        forall|i: int| 0 <= i < input.len() ==> '0' <= #[trigger] input[i] <= '9',
        decimal_value(input) <= 0xffff_ffff_ffff_ffff,
        width > 0,
        width < 8 ==> decimal_value(input) < pow2(8 * width),
        unsigned(field_length) != Some(0u64),
{
    assert(8 * width == width * 8);
}

proof fn lemma_rules_with_identity(
    rules: Seq<Json>,
    value_key: Seq<char>,
    length_key: Seq<char>,
    selector: RuleSelector,
) -> (places: Seq<int>)
    ensures
        places.len() == rules_with_identity(rules, value_key, length_key, selector).len(),
        forall|k: int|
            0 <= k < places.len() ==> 0 <= #[trigger] places[k] < rules.len()
                && rules_with_identity(rules, value_key, length_key, selector)[k]
                == rules[places[k]],
        forall|k: int|
            0 <= k < places.len() ==> unsigned_member(
                rules[#[trigger] places[k]],
                value_key,
            ) == Some(selector.value) && unsigned_member(rules[places[k]], length_key) == Some(
                selector.bits as u64,
            ),
        forall|i: int|
            0 <= i < rules.len() && unsigned_member(#[trigger] rules[i], value_key) == Some(
                selector.value,
            ) && unsigned_member(rules[i], length_key) == Some(selector.bits as u64)
                ==> places.contains(i),
        forall|k: int, l: int|
            0 <= k < l < places.len() ==> #[trigger] places[k] < #[trigger] places[l],
    decreases rules.len(),
{
    if rules.len() == 0 {
        Seq::empty()
    } else {
        let front = rules.drop_last();
        let before = lemma_rules_with_identity(front, value_key, length_key, selector);
        let found = rules_with_identity(front, value_key, length_key, selector);
        let places = if has_identity(rules.last(), value_key, length_key, selector) {
            before.push(rules.len() - 1)
        } else {
            before
        };
        assert forall|k: int| 0 <= k < places.len() implies 0 <= #[trigger] places[k] < rules.len()
            && rules_with_identity(rules, value_key, length_key, selector)[k] == rules[places[k]]
            && unsigned_member(rules[places[k]], value_key) == Some(selector.value)
            && unsigned_member(rules[places[k]], length_key) == Some(selector.bits as u64) by {
            if k < before.len() {
                assert(places[k] == before[k]);
                assert(found[k] == front[before[k]]);
            }
        }
        assert forall|i: int|
            0 <= i < rules.len() && unsigned_member(#[trigger] rules[i], value_key) == Some(
                selector.value,
            ) && unsigned_member(rules[i], length_key) == Some(
                selector.bits as u64,
            ) implies places.contains(i) by {
            if i < rules.len() - 1 {
                assert(front[i] == rules[i]);
                assert(before.contains(i));
                let k = choose|k: int| 0 <= k < before.len() && before[k] == i;
                assert(places[k] == i);
            } else {
                assert(places[before.len() as int] == i);
            }
        }
        assert forall|k: int, l: int| 0 <= k < l < places.len() implies #[trigger] places[k]
            < #[trigger] places[l] by {
            if l < before.len() {
                assert(places[k] == before[k] && places[l] == before[l]);
            } else {
                assert(places[k] == before[k]);
            }
        }
        places
    }
}

proof fn lemma_items_with_number(items: Seq<Json>, name: Seq<char>, number: u64) -> (places: Seq<
    int,
>)
    ensures
        places.len() == items_with_number(items, name, number).len(),
        forall|k: int|
            0 <= k < places.len() ==> 0 <= #[trigger] places[k] < items.len()
                && items_with_number(items, name, number)[k] == items[places[k]],
        forall|k: int|
            0 <= k < places.len() ==> unsigned_member(items[#[trigger] places[k]], name) == Some(
                number,
            ),
        forall|i: int|
            0 <= i < items.len() && unsigned_member(#[trigger] items[i], name) == Some(number)
                ==> places.contains(i),
        forall|k: int, l: int|
            0 <= k < l < places.len() ==> #[trigger] places[k] < #[trigger] places[l],
    decreases items.len(),
{
    if items.len() == 0 {
        Seq::empty()
    } else {
        let front = items.drop_last();
        let before = lemma_items_with_number(front, name, number);
        let found = items_with_number(front, name, number);
        let places = if unsigned_member(items.last(), name) == Some(number) {
            before.push(items.len() - 1)
        } else {
            before
        };
        assert forall|k: int| 0 <= k < places.len() implies 0 <= #[trigger] places[k] < items.len()
            && items_with_number(items, name, number)[k] == items[places[k]] && unsigned_member(
            items[places[k]],
            name,
        ) == Some(number) by {
            if k < before.len() {
                assert(places[k] == before[k]);
                assert(found[k] == front[before[k]]);
            }
        }
        assert forall|i: int|
            0 <= i < items.len() && unsigned_member(#[trigger] items[i], name) == Some(
                number,
            ) implies places.contains(i) by {
            if i < items.len() - 1 {
                assert(front[i] == items[i]);
                assert(before.contains(i));
                let k = choose|k: int| 0 <= k < before.len() && before[k] == i;
                assert(places[k] == i);
            } else {
                assert(places[before.len() as int] == i);
            }
        }
        assert forall|k: int, l: int| 0 <= k < l < places.len() implies #[trigger] places[k]
            < #[trigger] places[l] by {
            if l < before.len() {
                assert(places[k] == before[k] && places[l] == before[l]);
            } else {
                assert(places[k] == before[k]);
            }
        }
        places
    }
}

/// The rule that an update selects is the one rule of the tree that holds the
/// selected value and the selected bit length, each under its own name.
pub proof fn update_selects_the_rule_with_the_identity(
    tree: Json,
    names: TreeNames,
    selector: RuleSelector,
) -> (at: int)
    requires
        selected_rule(tree, names, selector) is Ok,
    ensures
        ({
            let rules = member(member(tree, names.root)->0, names.rule)->0->Array_0;
            &&& member(tree, names.root) is Some
            &&& member(member(tree, names.root)->0, names.rule) is Some
            &&& member(member(tree, names.root)->0, names.rule)->0 is Array
            &&& 0 <= at < rules.len()
            &&& selected_rule(tree, names, selector)->Ok_0 == rules[at]
            &&& unsigned_member(rules[at], names.rule_value) == Some(selector.value)
            &&& unsigned_member(rules[at], names.rule_length) == Some(selector.bits as u64)
            &&& forall|i: int|
                0 <= i < rules.len() && unsigned_member(#[trigger] rules[i], names.rule_value)
                    == Some(selector.value) && unsigned_member(rules[i], names.rule_length)
                    == Some(selector.bits as u64) ==> i == at
        }),
{
    let rules = rules_of_tree(tree, names)->Ok_0;
    let places = lemma_rules_with_identity(
        rules,
        names.rule_value,
        names.rule_length,
        selector,
    );
    assert(rules[places[0]] == selected_rule(tree, names, selector)->Ok_0);
    places[0]
}

/// The entry that an update selects is the one entry of its rule with the
/// selected index.
pub proof fn update_selects_the_entry_with_the_index(
    rule: Json,
    names: TreeNames,
    selector: RuleSelector,
    entry_index: usize,
) -> (at: int)
    requires
        selected_entry(rule, names, selector, entry_index) is Ok,
    ensures
        ({
            let entries = member(rule, names.entry)->0->Array_0;
            &&& member(rule, names.entry) is Some
            &&& member(rule, names.entry)->0 is Array
            &&& 0 <= at < entries.len()
            &&& selected_entry(rule, names, selector, entry_index)->Ok_0 == entries[at]
            &&& unsigned_member(entries[at], names.entry_index) == Some(entry_index as u64)
            &&& forall|i: int|
                0 <= i < entries.len() && unsigned_member(#[trigger] entries[i], names.entry_index)
                    == Some(entry_index as u64) ==> i == at
        }),
{
    let entries = list_member(rule, names.entry)->0;
    let places = lemma_items_with_number(entries, names.entry_index, entry_index as u64);
    assert(entries[places[0]] == selected_entry(rule, names, selector, entry_index)->Ok_0);
    places[0]
}

/// The place of an update is the only target of its entry: its index and its
/// current value are those that the target holds.
pub proof fn update_changes_the_only_target(entry: Json, names: TreeNames, entry_index: usize)
    ensures
        selected_target(entry, names, entry_index) is Ok <==> (member(entry, names.target) is Some
            && member(entry, names.target)->0 is Array && member(
            entry,
            names.target,
        )->0->Array_0.len() == 1 && unsigned_member(
            member(entry, names.target)->0->Array_0[0],
            names.target_index,
        ) is Some && unsigned_member(
            member(entry, names.target)->0->Array_0[0],
            names.target_index,
        )->0 <= usize::MAX && member(
            member(entry, names.target)->0->Array_0[0],
            names.target_value,
        ) is Some),
        selected_target(entry, names, entry_index) matches Ok(place) ==> place.entry == entry
            && unsigned_member(
            member(entry, names.target)->0->Array_0[0],
            names.target_index,
        ) == Some(place.target_index as u64) && member(
            member(entry, names.target)->0->Array_0[0],
            names.target_value,
        ) == Some(place.current),
{
}

/// The names under which a tree is searched are those of the nodes that they
/// are used for.
pub proof fn tree_is_searched_by_the_names_of_its_nodes(model: ModelView, sids: ModelSids)
    requires
        tree_names(model, sids) is Ok,
    ensures
        tree_key(model, sids.root) == Ok::<Seq<char>, Fault>(tree_names(model, sids)->Ok_0.root),
        tree_key(model, sids.rule) == Ok::<Seq<char>, Fault>(tree_names(model, sids)->Ok_0.rule),
        tree_key(model, sids.entry) == Ok::<Seq<char>, Fault>(tree_names(model, sids)->Ok_0.entry),
        tree_key(model, sids.target) == Ok::<Seq<char>, Fault>(
            tree_names(model, sids)->Ok_0.target,
        ),
        tree_key(model, sids.rule_id_value) == Ok::<Seq<char>, Fault>(
            tree_names(model, sids)->Ok_0.rule_value,
        ),
        tree_key(model, sids.rule_id_length) == Ok::<Seq<char>, Fault>(
            tree_names(model, sids)->Ok_0.rule_length,
        ),
        tree_key(model, sids.entry_index) == Ok::<Seq<char>, Fault>(
            tree_names(model, sids)->Ok_0.entry_index,
        ),
        tree_key(model, sids.target_index) == Ok::<Seq<char>, Fault>(
            tree_names(model, sids)->Ok_0.target_index,
        ),
        tree_key(model, sids.target_value) == Ok::<Seq<char>, Fault>(
            tree_names(model, sids)->Ok_0.target_value,
        ),
{
}

/// A resolved update changes the target that was found, at its own path, to
/// the number of the command in the width of the current value, and only when
/// the model accepts that.
pub proof fn resolved_update_changes_the_found_target(
    request: UpdateView,
    entry_index: usize,
    tree: Json,
    model: ModelView,
    wire: Result<Json, Seq<char>>,
    accepted: Result<(), Seq<char>>,
)
    requires
        resolved_update(request, entry_index, tree, model, wire, accepted) is Ok,
    ensures
        ({
            let update = resolved_update(request, entry_index, tree, model, wire, accepted)->Ok_0;
            let sids = update_sids(model)->Ok_0;
            let names = tree_names(model, sids)->Ok_0;
            let rule = selected_rule(tree, names, request.rule)->Ok_0;
            let entry = selected_entry(rule, names, request.rule, entry_index)->Ok_0;
            let place = selected_target(entry, names, entry_index)->Ok_0;
            &&& accepted is Ok
            &&& wire is Ok
            &&& update.request == request
            &&& update.entry_index == entry_index
            &&& update.target_value_index == place.target_index
            &&& update.path == target_path(
                sids,
                request.rule,
                entry_index as int,
                place.target_index as int,
            )
            &&& binary_of(wire->Ok_0) is Ok
            &&& binary_of(update.value) is Ok
            &&& binary_of(update.value)->Ok_0.len() == binary_of(wire->Ok_0)->Ok_0.len()
            &&& crate::number::bytes_value(binary_of(update.value)->Ok_0) == decimal_value(
                request.target_value,
            )
        }),
{
    let sids = update_sids(model)->Ok_0;
    let names = tree_names(model, sids)->Ok_0;
    let place = located(request.rule, entry_index, tree, names)->Ok_0;
    let current = binary_of(wire->Ok_0)->Ok_0;
    let name = tree_key(model, sids.field_length)->Ok_0;
    let field_length = member(place.entry, name)->0;
    let bytes = replacement_bytes(request.target_value, current.len(), field_length)->Ok_0;
    accepted_target_value_is_exact(request.target_value, current.len(), field_length);
    byte_list_round_trip(bytes);
}

proof fn lemma_items_cbor(items: Seq<Json>, count: nat)
    requires
        count <= items.len(),
        items_cbor(items, count) is Ok,
    ensures
        items_cbor(items, count)->Ok_0.len() == count,
        forall|i: int|
            0 <= i < count ==> tree_cbor(#[trigger] items[i]) == Ok::<Cbor, Fault>(
                items_cbor(items, count)->Ok_0[i],
            ),
    decreases count,
{
    if count > 0 {
        lemma_items_cbor(items, (count - 1) as nat);
        let before = items_cbor(items, (count - 1) as nat)->Ok_0;
        let list = items_cbor(items, count)->Ok_0;
        assert(list == before.push(tree_cbor(items[count - 1])->Ok_0));
        assert forall|i: int| 0 <= i < count implies tree_cbor(#[trigger] items[i]) == Ok::<
            Cbor,
            Fault,
        >(list[i]) by {
            if i < count - 1 {
                assert(list[i] == before[i]);
            }
        }
    }
}

proof fn lemma_members_cbor(members: Seq<(Seq<char>, Json)>, count: nat)
    requires
        count <= members.len(),
        members_cbor(members, count) is Ok,
    ensures
        members_cbor(members, count)->Ok_0.len() == count,
        forall|i: int|
            0 <= i < count ==> members_cbor(members, count)->Ok_0[i].0 == Cbor::Text(
                (#[trigger] members[i]).0,
            ) && tree_cbor(members[i].1) == Ok::<Cbor, Fault>(
                members_cbor(members, count)->Ok_0[i].1,
            ),
    decreases count,
{
    if count > 0 {
        lemma_members_cbor(members, (count - 1) as nat);
        let before = members_cbor(members, (count - 1) as nat)->Ok_0;
        let list = members_cbor(members, count)->Ok_0;
        assert forall|i: int| 0 <= i < count implies list[i].0 == Cbor::Text(
            (#[trigger] members[i]).0,
        ) && tree_cbor(members[i].1) == Ok::<Cbor, Fault>(list[i].1) by {
            if i < count - 1 {
                assert(list[i] == before[i]);
            }
        }
    }
}

/// A tree as a CBOR value keeps its shape: scalars stay what they are, a list
/// holds its items in their order, and an object its members under their
/// names.
pub proof fn cbor_of_a_tree_keeps_its_shape(value: Json)
    requires
        tree_cbor(value) is Ok,
    ensures
        match value {
            Json::Null => tree_cbor(value)->Ok_0 is Null,
            Json::Bool(truth) => tree_cbor(value)->Ok_0 == Cbor::Bool(truth),
            Json::Integer(number) => tree_cbor(value)->Ok_0 == Cbor::Integer(number),
            Json::Decimal(spelling) => tree_cbor(value)->Ok_0 == Cbor::Float(spelling),
            Json::Text(text) => tree_cbor(value)->Ok_0 == Cbor::Text(text),
            Json::Array(items) => tree_cbor(value)->Ok_0 is Array && tree_cbor(
                value,
            )->Ok_0->Array_0.len() == items.len() && forall|i: int|
                0 <= i < items.len() ==> tree_cbor(#[trigger] items[i]) == Ok::<Cbor, Fault>(
                    tree_cbor(value)->Ok_0->Array_0[i],
                ),
            Json::Object(members) => tree_cbor(value)->Ok_0 is Entries && tree_cbor(
                value,
            )->Ok_0->Entries_0.len() == members.len() && forall|i: int|
                0 <= i < members.len() ==> tree_cbor(value)->Ok_0->Entries_0[i].0 == Cbor::Text(
                    (#[trigger] members[i]).0,
                ) && tree_cbor(members[i].1) == Ok::<Cbor, Fault>(
                    tree_cbor(value)->Ok_0->Entries_0[i].1,
                ),
        },
{
    match value {
        Json::Array(items) => {
            lemma_items_cbor(items, items.len());
        },
        Json::Object(members) => {
            lemma_members_cbor(members, members.len());
        },
        _ => {},
    }
}

/// An encoded change is a map with one entry, from the path to the bytes.
pub proof fn encoded_change_maps_its_path_to_its_bytes(
    value: Json,
    path: Json,
    outcome: Result<Seq<u8>, Fault>,
)
    requires
        payload_outcome(value, path, outcome),
        outcome is Ok,
    ensures
        tree_cbor(path) is Ok,
        binary_of(value) is Ok,
        cbor_bytes(
            Cbor::Entries(
                seq![(tree_cbor(path)->Ok_0, Cbor::Bytes(binary_of(value)->Ok_0))],
            ),
        ) == Some(outcome->Ok_0),
{
}

/// An iPATCH datagram is a confirmable message to the management resource in
/// the format of instances, and it carries the tag as its only precondition
/// when there is one.
pub proof fn ipatch_has_its_form(message_id: u16, base_tag: Option<Seq<u8>>, payload: Seq<u8>)
    ensures
        ({
            let message = ipatch_message(message_id, base_tag, payload);
            &&& message.version == 1
            &&& message.message_type == 0
            &&& message.code == 7
            &&& message.message_id == message_id
            &&& message.payload == payload
            &&& message.token.len() == 0
            &&& base_tag is None ==> message.options == seq![
                (11u16, seq![115u8, 99, 104, 99]),
                (12u16, seq![142u8]),
            ]
            &&& base_tag is Some ==> message.options == seq![
                (1u16, base_tag->0),
                (11u16, seq![115u8, 99, 104, 99]),
                (12u16, seq![142u8]),
            ]
        }),
{
}

/// An update is sent with a precondition exactly when its request asks for
/// one.
pub proof fn precondition_is_sent_as_requested(
    update: ResolvedView,
    message_id: u16,
    base_tag: Option<Seq<u8>>,
    path: Json,
    outcome: Result<Seq<u8>, Fault>,
)
    requires
        ipatch_outcome(update, message_id, base_tag, path, outcome),
    ensures
        outcome is Ok ==> (base_tag is Some <==> update.request.if_match),
        update.request.if_match && base_tag is None ==> outcome is Err,
        !update.request.if_match && base_tag is Some ==> outcome is Err,
        outcome matches Ok(datagram) ==> exists|payload: Seq<u8>| #[trigger]
            payload_outcome(update.value, path, Ok(payload)) && datagram_outcome(
                ipatch_message(message_id, base_tag, payload),
                Ok(datagram),
            ),
{
    if outcome is Ok {
        let payload = choose|payload: Result<Seq<u8>, Fault>| #[trigger]
            payload_outcome(update.value, path, payload) && match payload {
                Err(fault) => outcome == Err::<Seq<u8>, Fault>(fault),
                Ok(bytes) => datagram_outcome(ipatch_message(message_id, base_tag, bytes), outcome),
            };
        let bytes = payload->Ok_0;
        assert(payload_outcome(update.value, path, Ok(bytes)));
    }
}

/// A command value is accepted exactly when it is a decimal number of at most
/// sixty-four bits that fits the width of the current value, which may not be
/// empty, and the length of its field where that is a number.
pub proof fn fitting_target_value_is_accepted(input: Seq<char>, width: nat, field_length: Json)
    ensures
        replacement_bytes(input, width, field_length) is Ok <==> {
            let number = decimal_value(input);
            let bits = unsigned(field_length);
            &&& input.len() > 0
            &&& forall|i: int| 0 <= i < input.len() ==> '0' <= #[trigger] input[i] <= '9'
            &&& number <= u64::MAX
            &&& 0 < width
            &&& width * 8 <= usize::MAX
            &&& width * 8 >= 64 || number < pow2(width * 8)
            &&& bits is None || (bits->0 > 0 && (bits->0 >= 64 || number < pow2(bits->0 as nat)))
        },
{
    if replacement_bytes(input, width, field_length) is Ok {
        accepted_target_value_is_decimal(input, width, field_length);
    }
}

/// A tree is searched exactly where the model names every node on the way.
pub proof fn tree_is_searched_when_its_nodes_are_named(model: ModelView, sids: ModelSids)
    ensures
        tree_names(model, sids) is Ok <==> {
            &&& tree_key(model, sids.root) is Ok
            &&& tree_key(model, sids.rule) is Ok
            &&& tree_key(model, sids.entry) is Ok
            &&& tree_key(model, sids.target) is Ok
            &&& tree_key(model, sids.rule_id_value) is Ok
            &&& tree_key(model, sids.rule_id_length) is Ok
            &&& tree_key(model, sids.entry_index) is Ok
            &&& tree_key(model, sids.target_index) is Ok
            &&& tree_key(model, sids.target_value) is Ok
        },
{
}

/// A rule that alone has the selected value and bit length is selected, and so
/// is the entry that alone has the selected index.
pub proof fn single_match_is_selected(
    tree: Json,
    rule: Json,
    names: TreeNames,
    selector: RuleSelector,
    entry_index: usize,
    at: int,
)
    ensures
        ({
            let rules = list_member(member(tree, names.root)->0, names.rule)->0;
            let named = |item: Json|
                unsigned_member(item, names.rule_value) == Some(selector.value) && unsigned_member(
                    item,
                    names.rule_length,
                ) == Some(selector.bits as u64);
            member(tree, names.root) is Some && member(tree, names.root)->0 is Object
                && list_member(member(tree, names.root)->0, names.rule) is Some && 0 <= at
                < rules.len() && named(rules[at]) && (forall|i: int|
                0 <= i < rules.len() && i != at ==> !named(#[trigger] rules[i]))
                ==> selected_rule(tree, names, selector) == Ok::<Json, Fault>(rules[at])
        }),
        ({
            let entries = list_member(rule, names.entry)->0;
            list_member(rule, names.entry) is Some && 0 <= at < entries.len() && unsigned_member(
                entries[at],
                names.entry_index,
            ) == Some(entry_index as u64) && (forall|i: int|
                0 <= i < entries.len() && i != at ==> unsigned_member(
                    #[trigger] entries[i],
                    names.entry_index,
                ) != Some(entry_index as u64)) ==> selected_entry(
                rule,
                names,
                selector,
                entry_index,
            ) == Ok::<Json, Fault>(entries[at])
        }),
{
    let rules = list_member(member(tree, names.root)->0, names.rule)->0;
    let named = |item: Json|
        unsigned_member(item, names.rule_value) == Some(selector.value) && unsigned_member(
            item,
            names.rule_length,
        ) == Some(selector.bits as u64);
    if 0 <= at < rules.len() && named(rules[at]) && (forall|i: int|
        0 <= i < rules.len() && i != at ==> !named(#[trigger] rules[i])) {
        let places = lemma_rules_with_identity(
            rules,
            names.rule_value,
            names.rule_length,
            selector,
        );
        assert(places.contains(at));
        assert forall|k: int| 0 <= k < places.len() implies #[trigger] places[k] == at by {
            assert(named(rules[places[k]]));
        }
        lemma_places_of_one(places, at);
        assert(places[0] == at);
    }
    let entries = list_member(rule, names.entry)->0;
    if 0 <= at < entries.len() && unsigned_member(entries[at], names.entry_index) == Some(
        entry_index as u64,
    ) && (forall|i: int|
        0 <= i < entries.len() && i != at ==> unsigned_member(
            #[trigger] entries[i],
            names.entry_index,
        ) != Some(entry_index as u64)) {
        let places = lemma_items_with_number(entries, names.entry_index, entry_index as u64);
        assert(places.contains(at));
        assert forall|k: int| 0 <= k < places.len() implies #[trigger] places[k] == at by {
            assert(unsigned_member(entries[places[k]], names.entry_index) == Some(
                entry_index as u64,
            ));
        }
        lemma_places_of_one(places, at);
        assert(places[0] == at);
    }
}

proof fn lemma_places_of_one(places: Seq<int>, at: int)
    requires
        places.contains(at),
        forall|k: int| 0 <= k < places.len() ==> #[trigger] places[k] == at,
        forall|k: int, l: int|
            0 <= k < l < places.len() ==> #[trigger] places[k] < #[trigger] places[l],
    ensures
        places.len() == 1,
{
    if places.len() > 1 {
        assert(places[0] < places[1]);
    }
}

} // verus!
