//! Canonical forms of a context: strict CBOR, ordered trees, and the digest
//! that identifies both.

use sha2::{Digest, Sha256};
use serde_json::{Number, Value};
use vstd::prelude::*;

use crate::cbor::{
    cbor_bytes, cbor_item, decode_item, encode_item, entries_view, keys_unique, lemma_cbor_view,
    Cbor, CborValue,
};
use crate::context_error::{cbor_error, model_error, ContextError, ContextFault};
use crate::json::{
    lemma_json_view, list_view, members_view, unsigned_member, Json, JsonValue,
};
use crate::normal_form::{
    has_normal_form, in_normal_order, is_rearranged, normalizing_orders_every_list,
};
use crate::number::bytes_value;
use crate::sort::{
    lemma_sort_by_picks, order_view, pair_key, picked, sort_by, sort_order,
    sorting_is_idempotent, sorting_orders_and_keeps_items,
};
use crate::text::{decimal, decimal_string, join, join3, same_text, signed_decimal, signed_string};

verus! {

/// The error of bytes that are not one complete value without repeated map
/// keys. What a reader's error says is left open.
pub open spec fn strict_fault(bytes: Seq<u8>, fault: ContextFault) -> bool {
    match cbor_item(bytes) {
        None => fault is Cbor,
        Some((value, length)) => if length != bytes.len() {
            fault == ContextFault::Cbor(
                "trailing bytes after root value at offset "@ + decimal(length) + " of "@ + decimal(
                    bytes.len(),
                ),
            )
        } else {
            !keys_unique(value) && fault == ContextFault::Cbor("duplicate CBOR map key"@)
        },
    }
}

/// Whether bytes are one complete value without repeated map keys.
pub open spec fn strict_bytes(bytes: Seq<u8>, value: Cbor) -> bool {
    cbor_item(bytes) == Some((value, bytes.len())) && keys_unique(value)
}

/// Reads one complete value without repeated map keys.
pub fn strict_cbor_value(bytes: &[u8]) -> (result: Result<CborValue, ContextError>)
    ensures
        match result {
            Ok(value) => strict_bytes(bytes@, value@),
            Err(error) => strict_fault(bytes@, error@),
        },
{
    let (value, length) = match decode_item(bytes) {
        Ok(item) => item,
        Err(text) => {
            return Err(ContextError::Cbor(text));
        },
    };
    if length != bytes.len() {
        let head = join3(
            "trailing bytes after root value at offset ",
            decimal_string(length as u64).as_str(),
            " of ",
        );
        return Err(
            ContextError::Cbor(join(head.as_str(), decimal_string(bytes.len() as u64).as_str())),
        );
    }
    if !value.unique_keys() {
        return Err(cbor_error("duplicate CBOR map key"));
    }
    Ok(value)
}

/// Whether a map holds an integer key.
pub open spec fn holds_key(entries: Seq<(Cbor, Cbor)>, key: int) -> bool {
    exists|i: int| 0 <= i < entries.len() && (#[trigger] entries[i]).0 == Cbor::Integer(key)
}

/// The error of a complete value that is no map with the root key.
pub open spec fn root_fault(value: Cbor, root_sid: i64) -> Option<ContextFault> {
    match value {
        Cbor::Entries(entries) => if holds_key(entries, root_sid as int) {
            None
        } else {
            Some(
                ContextFault::Cbor(
                    "SoR root is missing SCHC SID "@ + signed_decimal(root_sid as int),
                ),
            )
        },
        _ => Some(ContextFault::Cbor("SoR root must be a CBOR map"@)),
    }
}

/// Checks that a complete value is a map with the root key.
pub fn ensure_schc_root(value: &CborValue, root_sid: i64) -> (result: Result<(), ContextError>)
    ensures
        match result {
            Ok(_) => root_fault(value@, root_sid) is None,
            Err(error) => root_fault(value@, root_sid) == Some(error@),
        },
{
    proof {
        lemma_cbor_view(*value);
    }
    match value {
        CborValue::Entries(entries) => {
            let ghost view = entries_view(entries@);
            let mut index: usize = 0;
            while index < entries.len()
                invariant
                    index <= entries@.len(),
                    view == entries_view(entries@),
                    value@ == Cbor::Entries(view),
                    forall|i: int|
                        0 <= i < index ==> (#[trigger] view[i]).0 != Cbor::Integer(root_sid as int),
                decreases entries.len() - index,
            {
                assert(view[index as int].0 == entries@[index as int].0@);
                if let CborValue::Integer(number) = &entries[index].0 {
                    if *number == root_sid as i128 {
                        return Ok(());
                    }
                }
                index += 1;
            }
            Err(
                ContextError::Cbor(
                    join("SoR root is missing SCHC SID ", signed_string(root_sid).as_str()),
                ),
            )
        },
        _ => Err(cbor_error("SoR root must be a CBOR map")),
    }
}

/// The error of a tree whose encoding cannot be written or read back strictly.
/// What a writer's error says is left open.
pub open spec fn encoding_fault(encoded: Cbor, fault: ContextFault) -> bool {
    match cbor_bytes(encoded) {
        None => fault is Cbor,
        Some(bytes) => strict_fault(bytes, fault),
    }
}

/// Whether bytes are the encoding of a value and read back strictly.
pub open spec fn encoded_strictly(encoded: Cbor, bytes: Seq<u8>) -> bool {
    cbor_bytes(encoded) == Some(bytes) && exists|value: Cbor| #[trigger] strict_bytes(bytes, value)
}

/// Writes the encoding of a tree and checks that it reads back strictly.
pub fn encode_tree(encoded: &CborValue) -> (result: Result<Vec<u8>, ContextError>)
    ensures
        match result {
            Ok(bytes) => encoded_strictly(encoded@, bytes@),
            Err(error) => encoding_fault(encoded@, error@),
        },
{
    let bytes = match encode_item(encoded) {
        Ok(bytes) => bytes,
        Err(text) => {
            return Err(ContextError::Cbor(text));
        },
    };
    let value = strict_cbor_value(bytes.as_slice())?;
    assert(strict_bytes(bytes@, value@));
    Ok(bytes)
}

/// The number of a named unsigned integer; zero when there is none.
pub open spec fn number_or_zero(value: Json, name: Seq<char>) -> int {
    match unsigned_member(value, name) {
        Some(number) => number as int,
        None => 0,
    }
}

/// The order of rules in a tree: by bit length, then by value.
pub open spec fn rule_order() -> spec_fn(Json) -> (int, int) {
    |rule: Json|
        (number_or_zero(rule, "rule-id-length"@), number_or_zero(rule, "rule-id-value"@))
}

/// The order of entries in a tree: by index.
pub open spec fn entry_order() -> spec_fn(Json) -> (int, int) {
    |entry: Json| (number_or_zero(entry, "entry-index"@), 0)
}

/// Whether one of the first entries has an index.
pub open spec fn index_taken(entries: Seq<Json>, count: int, index: u64) -> bool {
    exists|i: int|
        0 <= i < count && unsigned_member(#[trigger] entries[i], "entry-index"@) == Some(index)
}

/// The error of the first of some entries without an index of its own.
pub open spec fn entries_fault(entries: Seq<Json>, count: nat) -> Option<ContextFault>
    decreases count,
{
    if count == 0 || count > entries.len() {
        None
    } else {
        match entries_fault(entries, (count - 1) as nat) {
            Some(fault) => Some(fault),
            None => match unsigned_member(entries[count - 1], "entry-index"@) {
                None => Some(
                    ContextFault::Model("SCHC entry is missing numeric entry-index"@),
                ),
                Some(index) => if index_taken(entries, count - 1, index) {
                    Some(
                        ContextFault::Model("duplicate SCHC entry-index "@ + decimal(index as nat)),
                    )
                } else {
                    None
                },
            },
        }
    }
}

/// A list in the order that its name asks for.
pub open spec fn arranged(items: Seq<Json>, key: Option<Seq<char>>) -> Result<
    Seq<Json>,
    ContextFault,
> {
    if key == Some("rule"@) {
        Ok(sort_by(items, rule_order()))
    } else if key == Some("entry-universal"@) {
        let ordered = sort_by(items, entry_order());
        match entries_fault(ordered, ordered.len()) {
            Some(fault) => Err(fault),
            None => Ok(ordered),
        }
    } else {
        Ok(items)
    }
}

/// A tree with every rule and entry list in its order, or the first error
/// inside it. `key` is the name under which the tree stands in an object.
pub open spec fn normalized(value: Json, key: Option<Seq<char>>) -> Result<Json, ContextFault>
    decreases value, 1nat, 0nat,
{
    match value {
        Json::Object(members) => match normalized_members(members, members.len()) {
            Ok(list) => Ok(Json::Object(list)),
            Err(fault) => Err(fault),
        },
        Json::Array(items) => match normalized_items(items, items.len()) {
            Ok(list) => match arranged(list, key) {
                Ok(ordered) => Ok(Json::Array(ordered)),
                Err(fault) => Err(fault),
            },
            Err(fault) => Err(fault),
        },
        _ => Ok(value),
    }
}

/// The first members of an object, each normalized.
pub open spec fn normalized_members(members: Seq<(Seq<char>, Json)>, count: nat) -> Result<
    Seq<(Seq<char>, Json)>,
    ContextFault,
>
    decreases members, 0nat, count,
{
    if count == 0 || count > members.len() {
        Ok(Seq::empty())
    } else {
        match normalized_members(members, (count - 1) as nat) {
            Err(fault) => Err(fault),
            Ok(list) => match normalized(members[count - 1].1, Some(members[count - 1].0)) {
                Err(fault) => Err(fault),
                Ok(value) => Ok(list.push((members[count - 1].0, value))),
            },
        }
    }
}

/// The first items of a list, each normalized.
pub open spec fn normalized_items(items: Seq<Json>, count: nat) -> Result<Seq<Json>, ContextFault>
    decreases items, 0nat, count,
{
    if count == 0 || count > items.len() {
        Ok(Seq::empty())
    } else {
        match normalized_items(items, (count - 1) as nat) {
            Err(fault) => Err(fault),
            Ok(list) => match normalized(items[count - 1], None) {
                Err(fault) => Err(fault),
                Ok(value) => Ok(list.push(value)),
            },
        }
    }
}

proof fn lemma_members_error_stays(members: Seq<(Seq<char>, Json)>, count: nat, more: nat)
    requires
        count <= more <= members.len(),
        normalized_members(members, count) is Err,
    ensures
        normalized_members(members, more) is Err,
        normalized_members(members, more)->Err_0 == normalized_members(members, count)->Err_0,
    decreases more,
{
    if count < more {
        lemma_members_error_stays(members, count, (more - 1) as nat);
    }
}

proof fn lemma_items_error_stays(items: Seq<Json>, count: nat, more: nat)
    requires
        count <= more <= items.len(),
        normalized_items(items, count) is Err,
    ensures
        normalized_items(items, more) is Err,
        normalized_items(items, more)->Err_0 == normalized_items(items, count)->Err_0,
    decreases more,
{
    if count < more {
        lemma_items_error_stays(items, count, (more - 1) as nat);
    }
}

proof fn lemma_entries_fault_stays(entries: Seq<Json>, count: nat, more: nat)
    requires
        count <= more <= entries.len(),
        entries_fault(entries, count) is Some,
    ensures
        entries_fault(entries, more) == entries_fault(entries, count),
    decreases more,
{
    if count < more {
        lemma_entries_fault_stays(entries, count, (more - 1) as nat);
    }
}

fn number_of(value: &JsonValue, name: &str) -> (result: u64)
    ensures
        result == number_or_zero(value@, name@),
{
    match value.get_u64(name) {
        Some(number) => number,
        None => 0,
    }
}

/// Puts a list in the order of its keys.
fn reorder(items: &Vec<JsonValue>, keys: &Vec<(u64, u64)>, Ghost(key): Ghost<
    spec_fn(Json) -> (int, int),
>) -> (result: Vec<JsonValue>)
    requires
        keys@.len() == items@.len(),
        forall|i: int|
            0 <= i < items@.len() ==> key((#[trigger] items@[i])@) == (
                keys@[i].0 as int,
                keys@[i].1 as int,
            ),
    ensures
        list_view(result@) == sort_by(list_view(items@), key),
{
    let order = sort_order(keys);
    let ghost view = list_view(items@);
    proof {
        assert forall|i: int| 0 <= i < view.len() implies key(#[trigger] view[i]) == pair_key(
            keys@,
        )(i) by {
            assert(view[i] == items@[i]@);
        }
        lemma_sort_by_picks(view, key, pair_key(keys@));
    }
    let mut result: Vec<JsonValue> = Vec::new();
    let mut index: usize = 0;
    while index < order.len()
        invariant
            index <= order@.len(),
            order@.len() == items@.len(),
            result@.len() == index,
            view == list_view(items@),
            forall|i: int| 0 <= i < order@.len() ==> (#[trigger] order@[i]) < items@.len(),
            forall|i: int|
                0 <= i < index ==> (#[trigger] result@[i])@ == view[order_view(order@)[i]],
        decreases order.len() - index,
    {
        result.push(items[order[index]].copy());
        index += 1;
    }
    assert(list_view(result@) =~= picked(view, order_view(order@)));
    result
}

/// Puts rules in their order in a tree.
pub(crate) fn order_rules(
    items: &Vec<JsonValue>,
    length_name: &str,
    value_name: &str,
    Ghost(key): Ghost<spec_fn(Json) -> (int, int)>,
) -> (result: Vec<JsonValue>)
    requires
        forall|rule: Json|
            #[trigger] key(rule) == (
                number_or_zero(rule, length_name@),
                number_or_zero(rule, value_name@),
            ),
    ensures
        list_view(result@) == sort_by(list_view(items@), key),
{
    let mut keys: Vec<(u64, u64)> = Vec::new();
    let mut index: usize = 0;
    while index < items.len()
        invariant
            index <= items@.len(),
            keys@.len() == index,
            forall|i: int|
                0 <= i < index ==> number_or_zero((#[trigger] items@[i])@, length_name@)
                    == keys@[i].0 && number_or_zero(items@[i]@, value_name@) == keys@[i].1,
        decreases items.len() - index,
    {
        keys.push((number_of(&items[index], length_name), number_of(&items[index], value_name)));
        index += 1;
    }
    reorder(items, &keys, Ghost(key))
}

fn order_entries(items: &Vec<JsonValue>) -> (result: Vec<JsonValue>)
    ensures
        list_view(result@) == sort_by(list_view(items@), entry_order()),
{
    let mut keys: Vec<(u64, u64)> = Vec::new();
    let mut index: usize = 0;
    while index < items.len()
        invariant
            index <= items@.len(),
            keys@.len() == index,
            forall|i: int|
                0 <= i < index ==> number_or_zero((#[trigger] items@[i])@, "entry-index"@)
                    == keys@[i].0 && keys@[i].1 == 0,
        decreases items.len() - index,
    {
        keys.push((number_of(&items[index], "entry-index"), 0));
        index += 1;
    }
    reorder(items, &keys, Ghost(entry_order()))
}

fn check_entries(items: &Vec<JsonValue>) -> (result: Result<(), ContextError>)
    ensures
        match result {
            Ok(_) => entries_fault(list_view(items@), items@.len()) is None,
            Err(error) => entries_fault(list_view(items@), items@.len()) == Some(error@),
        },
{
    let ghost view = list_view(items@);
    let mut seen: Vec<u64> = Vec::new();
    let mut index: usize = 0;
    while index < items.len()
        invariant
            index <= items@.len(),
            view == list_view(items@),
            entries_fault(view, index as nat) is None,
            seen@.len() == index,
            forall|i: int|
                0 <= i < index ==> unsigned_member(#[trigger] view[i], "entry-index"@) == Some(
                    seen@[i],
                ),
        decreases items.len() - index,
    {
        assert(view[index as int] == items@[index as int]@);
        let number: u64 = match items[index].get_u64("entry-index") {
            Some(number) => number,
            None => {
                proof {
                    lemma_entries_fault_stays(view, (index + 1) as nat, view.len());
                }
                return Err(model_error("SCHC entry is missing numeric entry-index"));
            },
        };
        let mut at: usize = 0;
        while at < seen.len()
            invariant
                at <= seen@.len(),
                index < items@.len(),
                view == list_view(items@),
                entries_fault(view, index as nat) is None,
                seen@.len() == index,
                unsigned_member(view[index as int], "entry-index"@) == Some(number),
                forall|i: int|
                    0 <= i < index ==> unsigned_member(#[trigger] view[i], "entry-index"@)
                        == Some(seen@[i]),
                forall|i: int| 0 <= i < at ==> seen@[i] != number,
            decreases seen.len() - at,
        {
            if seen[at] == number {
                proof {
                    assert(unsigned_member(view[at as int], "entry-index"@) == Some(number));
                    assert(index_taken(view, index as int, number));
                    lemma_entries_fault_stays(view, (index + 1) as nat, view.len());
                }
                return Err(
                    ContextError::Model(
                        join("duplicate SCHC entry-index ", decimal_string(number).as_str()),
                    ),
                );
            }
            at += 1;
        }
        assert(!index_taken(view, index as int, number));
        seen.push(number);
        index += 1;
    }
    Ok(())
}

fn arrange(items: Vec<JsonValue>, key: Option<&str>) -> (result: Result<
    Vec<JsonValue>,
    ContextError,
>)
    ensures
        match result {
            Ok(list) => arranged(list_view(items@), text_view(key)) == Ok::<
                Seq<Json>,
                ContextFault,
            >(list_view(list@)),
            Err(error) => arranged(list_view(items@), text_view(key)) == Err::<
                Seq<Json>,
                ContextFault,
            >(error@),
        },
{
    match key {
        None => Ok(items),
        Some(name) => {
            proof {
                reveal_strlit("rule");
                reveal_strlit("entry-universal");
                assert("rule"@.len() != "entry-universal"@.len());
            }
            if same_text(name, "rule") {
                return Ok(
                    order_rules(&items, "rule-id-length", "rule-id-value", Ghost(rule_order())),
                );
            }
            if same_text(name, "entry-universal") {
                let ordered = order_entries(&items);
                check_entries(&ordered)?;
                return Ok(ordered);
            }
            Ok(items)
        },
    }
}

/// The text of an optional name.
pub open spec fn text_view(name: Option<&str>) -> Option<Seq<char>> {
    match name {
        Some(text) => Some(text@),
        None => None,
    }
}

fn normalize_value(value: &JsonValue, key: Option<&str>) -> (result: Result<
    JsonValue,
    ContextError,
>)
    ensures
        match result {
            Ok(tree) => normalized(value@, text_view(key)) == Ok::<Json, ContextFault>(tree@),
            Err(error) => normalized(value@, text_view(key)) == Err::<Json, ContextFault>(error@),
        },
    decreases value,
{
    proof {
        lemma_json_view(*value);
    }
    match value {
        JsonValue::Object(members) => {
            let ghost view = members_view(members@);
            let mut list: Vec<(String, JsonValue)> = Vec::new();
            let mut index: usize = 0;
            assert(members_view(list@) =~= Seq::<(Seq<char>, Json)>::empty());
            while index < members.len()
                invariant
                    index <= members@.len(),
                    view == members_view(members@),
                    value@ == Json::Object(view),
                    normalized_members(view, index as nat) == Ok::<
                        Seq<(Seq<char>, Json)>,
                        ContextFault,
                    >(members_view(list@)),
                    decreases_to!(value => members@),
                decreases members.len() - index,
            {
                assert(view[index as int] == (members@[index as int].0@, members@[index as int].1@));
                match normalize_value(&members[index].1, Some(members[index].0.as_str())) {
                    Ok(child) => {
                        let ghost before = members_view(list@);
                        list.push((members[index].0.clone(), child));
                        assert(members_view(list@) =~= before.push((view[index as int].0, child@)));
                    },
                    Err(error) => {
                        proof {
                            lemma_members_error_stays(view, (index + 1) as nat, view.len());
                        }
                        return Err(error);
                    },
                }
                index += 1;
            }
            let tree = JsonValue::Object(list);
            proof {
                lemma_json_view(tree);
            }
            Ok(tree)
        },
        JsonValue::Array(items) => {
            let ghost view = list_view(items@);
            let mut list: Vec<JsonValue> = Vec::new();
            let mut index: usize = 0;
            assert(list_view(list@) =~= Seq::<Json>::empty());
            while index < items.len()
                invariant
                    index <= items@.len(),
                    view == list_view(items@),
                    value@ == Json::Array(view),
                    normalized_items(view, index as nat) == Ok::<Seq<Json>, ContextFault>(
                        list_view(list@),
                    ),
                    decreases_to!(value => items@),
                decreases items.len() - index,
            {
                assert(view[index as int] == items@[index as int]@);
                match normalize_value(&items[index], None) {
                    Ok(child) => {
                        let ghost before = list_view(list@);
                        list.push(child);
                        assert(list_view(list@) =~= before.push(child@));
                    },
                    Err(error) => {
                        proof {
                            lemma_items_error_stays(view, (index + 1) as nat, view.len());
                        }
                        return Err(error);
                    },
                }
                index += 1;
            }
            let ordered = arrange(list, key)?;
            let tree = JsonValue::Array(ordered);
            proof {
                lemma_json_view(tree);
            }
            Ok(tree)
        },
        _ => Ok(value.copy()),
    }
}

/// Puts every rule and entry list of a tree in its order. A tree in which an
/// entry has no index of its own is refused.
pub fn normalize_tree(tree: &JsonValue) -> (result: Result<JsonValue, ContextError>)
    ensures
        match result {
            Ok(ordered) => {
                &&& normalized(tree@, None) == Ok::<Json, ContextFault>(ordered@)
                &&& has_normal_form(tree@, None)
                &&& in_normal_order(ordered@, None)
                &&& is_rearranged(tree@, ordered@, None)
            },
            Err(error) => {
                &&& normalized(tree@, None) == Err::<Json, ContextFault>(error@)
                &&& !has_normal_form(tree@, None)
                &&& error is Model
            },
        },
{
    proof {
        normalizing_orders_every_list(tree@);
    }
    normalize_value(tree, None)
}

proof fn lemma_items_fixed(items: Seq<Json>, count: nat)
    requires
        count <= items.len(),
        forall|i: int|
            0 <= i < items.len() ==> normalized(#[trigger] items[i], None) == Ok::<
                Json,
                ContextFault,
            >(items[i]),
    ensures
        normalized_items(items, count) == Ok::<Seq<Json>, ContextFault>(items.take(count as int)),
    decreases count,
{
    if count == 0 {
        assert(items.take(0) =~= Seq::<Json>::empty());
    } else {
        lemma_items_fixed(items, (count - 1) as nat);
        assert(items.take(count - 1).push(items[count - 1]) =~= items.take(count as int));
    }
}

proof fn lemma_members_fixed(members: Seq<(Seq<char>, Json)>, count: nat)
    requires
        count <= members.len(),
        forall|i: int|
            0 <= i < members.len() ==> normalized(
                (#[trigger] members[i]).1,
                Some(members[i].0),
            ) == Ok::<Json, ContextFault>(members[i].1),
    ensures
        normalized_members(members, count) == Ok::<Seq<(Seq<char>, Json)>, ContextFault>(
            members.take(count as int),
        ),
    decreases count,
{
    if count == 0 {
        assert(members.take(0) =~= Seq::<(Seq<char>, Json)>::empty());
    } else {
        lemma_members_fixed(members, (count - 1) as nat);
        assert(members.take(count - 1).push(members[count - 1]) =~= members.take(count as int));
    }
}

proof fn lemma_items_settle(items: Seq<Json>, count: nat)
    requires
        count <= items.len(),
        normalized_items(items, count) is Ok,
    ensures
        forall|i: int|
            0 <= i < normalized_items(items, count)->Ok_0.len() ==> normalized(
                #[trigger] normalized_items(items, count)->Ok_0[i],
                None,
            ) == Ok::<Json, ContextFault>(normalized_items(items, count)->Ok_0[i]),
    decreases items, 0nat, count,
{
    if count > 0 {
        lemma_items_settle(items, (count - 1) as nat);
        lemma_normalized_settles(items[count - 1], None);
    }
}

proof fn lemma_members_settle(members: Seq<(Seq<char>, Json)>, count: nat)
    requires
        count <= members.len(),
        normalized_members(members, count) is Ok,
    ensures
        forall|i: int|
            0 <= i < normalized_members(members, count)->Ok_0.len() ==> normalized(
                (#[trigger] normalized_members(members, count)->Ok_0[i]).1,
                Some(normalized_members(members, count)->Ok_0[i].0),
            ) == Ok::<Json, ContextFault>(normalized_members(members, count)->Ok_0[i].1),
    decreases members, 0nat, count,
{
    if count > 0 {
        lemma_members_settle(members, (count - 1) as nat);
        lemma_normalized_settles(members[count - 1].1, Some(members[count - 1].0));
    }
}

/// Sorting keeps what holds of every item.
proof fn lemma_sorted_items_settled(items: Seq<Json>, key: spec_fn(Json) -> (int, int))
    requires
        forall|i: int|
            0 <= i < items.len() ==> normalized(#[trigger] items[i], None) == Ok::<
                Json,
                ContextFault,
            >(items[i]),
    ensures
        forall|i: int|
            0 <= i < sort_by(items, key).len() ==> normalized(
                #[trigger] sort_by(items, key)[i],
                None,
            ) == Ok::<Json, ContextFault>(sort_by(items, key)[i]),
{
    sorting_orders_and_keeps_items(items, key);
    let ordered = sort_by(items, key);
    assert forall|i: int| 0 <= i < ordered.len() implies normalized(#[trigger] ordered[i], None)
        == Ok::<Json, ContextFault>(ordered[i]) by {
        broadcast use vstd::seq_lib::group_to_multiset_ensures;

        assert(ordered.contains(ordered[i]));
        assert(ordered.to_multiset().count(ordered[i]) > 0);
        assert(items.to_multiset().count(ordered[i]) > 0);
        assert(items.contains(ordered[i]));
        let at = choose|j: int| 0 <= j < items.len() && items[j] == ordered[i];
        assert(normalized(items[at], None) == Ok::<Json, ContextFault>(items[at]));
    }
}

proof fn lemma_normalized_settles(value: Json, key: Option<Seq<char>>)
    requires
        normalized(value, key) is Ok,
    ensures
        normalized(normalized(value, key)->Ok_0, key) == normalized(value, key),
    decreases value, 1nat, 0nat,
{
    match value {
        Json::Object(members) => {
            lemma_members_settle(members, members.len());
            let list = normalized_members(members, members.len())->Ok_0;
            lemma_members_fixed(list, list.len());
            assert(list.take(list.len() as int) =~= list);
        },
        Json::Array(items) => {
            lemma_items_settle(items, items.len());
            let list = normalized_items(items, items.len())->Ok_0;
            let ordered = arranged(list, key)->Ok_0;
            if key == Some("rule"@) {
                lemma_sorted_items_settled(list, rule_order());
                sorting_is_idempotent(list, rule_order());
            } else if key == Some("entry-universal"@) {
                lemma_sorted_items_settled(list, entry_order());
                sorting_is_idempotent(list, entry_order());
            }
            lemma_items_fixed(ordered, ordered.len());
            assert(ordered.take(ordered.len() as int) =~= ordered);
        },
        _ => {},
    }
}

/// A normalized tree is already canonical: to normalize it again changes
/// nothing.
pub proof fn normalizing_is_idempotent(tree: Json)
    requires
        normalized(tree, None) is Ok,
    ensures
        normalized(normalized(tree, None)->Ok_0, None) == normalized(tree, None),
{
    lemma_normalized_settles(tree, None);
}

/// The dynamic value of the JSON codec.
#[verifier::external_type_specification]
#[verifier::external_body]
pub struct ExJsonCodecValue(Value);

/// The bytes that `serde_json::to_vec` writes for a tree.
pub uninterp spec fn json_bytes(tree: Json) -> Option<Seq<u8>>;

/// The text that `serde_json::Value::to_string` writes for a tree.
pub uninterp spec fn json_text(tree: Json) -> Seq<char>;

/// The SHA-256 digest that `sha2::Sha256::digest` computes.
pub uninterp spec fn sha256_of(message: Seq<u8>) -> Seq<u8>;

/// Moves a tree into the JSON codec's type, variant by variant.
#[verifier::external_body]
fn json_out(tree: &JsonValue) -> Value {
    match tree {
        JsonValue::Null => Value::Null,
        JsonValue::Bool(truth) => Value::Bool(*truth),
        JsonValue::Integer(number) => number.to_string().parse::<Number>().map(Value::Number).unwrap_or_default(),
        JsonValue::Decimal(spelling) => spelling.parse::<Number>().map(Value::Number).unwrap_or_default(),
        JsonValue::Text(text) => Value::String(text.clone()),
        JsonValue::Array(items) => Value::Array(items.iter().map(json_out).collect()),
        JsonValue::Object(members) => Value::Object(
            members.iter().map(|(name, held)| (name.clone(), json_out(held))).collect(),
        ),
    }
}

/// Calls `serde_json::to_vec` and returns the bytes, or the text of its error.
/// What an error says is left open.
#[verifier::external_body]
fn encode_json(tree: &JsonValue) -> (result: Result<Vec<u8>, String>)
    ensures
        match result {
            Ok(bytes) => json_bytes(tree@) == Some(bytes@),
            Err(_) => json_bytes(tree@) is None,
        },
{
    serde_json::to_vec(&json_out(tree)).map_err(|error| error.to_string())
}

/// Calls `serde_json::Value::to_string` and returns the text.
#[verifier::external_body]
pub(crate) fn print_json(tree: &JsonValue) -> (result: String)
    ensures
        result@ == json_text(tree@),
{
    json_out(tree).to_string()
}

/// The tree that `serde_json::from_str` reads from a text.
pub uninterp spec fn json_read(text: Seq<char>) -> Option<Json>;

/// The text that `serde_json::to_string_pretty` writes for a tree.
pub uninterp spec fn json_pretty(tree: Json) -> Option<Seq<char>>;

/// Moves a value of the JSON codec into a tree, variant by variant.
#[verifier::external_body]
fn json_in(value: Value) -> JsonValue {
    match value {
        Value::Null => JsonValue::Null,
        Value::Bool(truth) => JsonValue::Bool(truth),
        Value::Number(number) => match number.as_i128() {
            Some(integer) => JsonValue::Integer(integer),
            None => JsonValue::Decimal(number.to_string()),
        },
        Value::String(text) => JsonValue::Text(text),
        Value::Array(items) => JsonValue::Array(items.into_iter().map(json_in).collect()),
        Value::Object(members) => JsonValue::Object(members.into_iter().map(|(name, held)| (name, json_in(held))).collect()),
    }
}

/// Calls `serde_json::from_str` for a dynamic value and returns the tree, or
/// the text of its error. What an error says is left open.
#[verifier::external_body]
pub(crate) fn read_json(text: &str) -> (result: Result<JsonValue, String>)
    ensures
        match result {
            Ok(tree) => json_read(text@) == Some(tree@),
            Err(_) => json_read(text@) is None,
        },
{
    serde_json::from_str::<Value>(text).map(json_in).map_err(|error| error.to_string())
}

/// Calls `serde_json::to_string_pretty` and returns the text, or the text of
/// its error. What an error says is left open.
#[verifier::external_body]
pub(crate) fn print_json_pretty(tree: &JsonValue) -> (result: Result<String, String>)
    ensures
        match result {
            Ok(text) => json_pretty(tree@) == Some(text@),
            Err(_) => json_pretty(tree@) is None,
        },
{
    serde_json::to_string_pretty(&json_out(tree)).map_err(|error| error.to_string())
}

/// Calls `sha2::Sha256::digest` and returns the thirty-two bytes.
#[verifier::external_body]
fn sha256(message: &[u8]) -> (result: Vec<u8>)
    ensures
        result@ == sha256_of(message@),
        result@.len() == 32,
{
    Sha256::digest(message).to_vec()
}

/// The eight bytes of a number, the most significant first.
pub open spec fn number_bytes(number: nat) -> Seq<u8> {
    seq![
        (number / 0x100_0000_0000_0000 % 256) as u8,
        (number / 0x1_0000_0000_0000 % 256) as u8,
        (number / 0x100_0000_0000 % 256) as u8,
        (number / 0x1_0000_0000 % 256) as u8,
        (number / 0x100_0000 % 256) as u8,
        (number / 0x1_0000 % 256) as u8,
        (number / 0x100 % 256) as u8,
        (number % 256) as u8,
    ]
}

/// Writes a number as eight bytes, the most significant first.
pub fn big_endian(number: u64) -> (result: Vec<u8>)
    ensures
        result@ == number_bytes(number as nat),
{
    let bytes: Vec<u8> = vec![
        (number / 0x100_0000_0000_0000 % 256) as u8,
        (number / 0x1_0000_0000_0000 % 256) as u8,
        (number / 0x100_0000_0000 % 256) as u8,
        (number / 0x1_0000_0000 % 256) as u8,
        (number / 0x100_0000 % 256) as u8,
        (number / 0x1_0000 % 256) as u8,
        (number / 0x100 % 256) as u8,
        (number % 256) as u8,
    ];
    assert(bytes@ =~= number_bytes(number as nat));
    bytes
}

/// The number that eight bytes stand for.
pub open spec fn bytes_number(bytes: Seq<u8>) -> nat {
    (bytes[0] * 0x100_0000_0000_0000 + bytes[1] * 0x1_0000_0000_0000 + bytes[2] * 0x100_0000_0000
        + bytes[3] * 0x1_0000_0000 + bytes[4] * 0x100_0000 + bytes[5] * 0x1_0000 + bytes[6] * 0x100
        + bytes[7]) as nat
}

/// Eight bytes give back the number that they were written for.
pub proof fn number_bytes_round_trip(number: nat)
    requires
        number <= u64::MAX,
    ensures
        bytes_number(number_bytes(number)) == number,
{
    let n1 = number / 256;
    let n2 = n1 / 256;
    let n3 = n2 / 256;
    let n4 = n3 / 256;
    let n5 = n4 / 256;
    let n6 = n5 / 256;
    let n7 = n6 / 256;
    assert(number / 0x1_0000 == n2);
    assert(number / 0x100_0000 == n3);
    assert(number / 0x1_0000_0000 == n4);
    assert(number / 0x100_0000_0000 == n5);
    assert(number / 0x1_0000_0000_0000 == n6);
    assert(number / 0x100_0000_0000_0000 == n7);
    assert(n7 < 256);
}

/// The eight bytes of a number are its bytes in order, the most significant
/// first.
pub proof fn number_bytes_are_big_endian(number: nat)
    requires
        number <= u64::MAX,
    ensures
        number_bytes(number).len() == 8,
        bytes_value(number_bytes(number)) == number,
        number < 256 ==> number_bytes(number)[7] == number && number_bytes(number)[0] == 0,
{
    number_bytes_round_trip(number);
    let bytes = number_bytes(number);
    reveal_with_fuel(bytes_value, 9);
    let b7 = bytes.drop_last();
    let b6 = b7.drop_last();
    let b5 = b6.drop_last();
    let b4 = b5.drop_last();
    let b3 = b4.drop_last();
    let b2 = b3.drop_last();
    let b1 = b2.drop_last();
    assert(bytes_value(b1) == bytes[0]);
    assert(bytes_value(b2) == bytes[0] * 0x100 + bytes[1]);
    assert(bytes_value(b3) == bytes[0] * 0x1_0000 + bytes[1] * 0x100 + bytes[2]);
    assert(bytes_value(b4) == bytes[0] * 0x100_0000 + bytes[1] * 0x1_0000 + bytes[2] * 0x100
        + bytes[3]);
    assert(bytes_value(b5) == bytes[0] * 0x1_0000_0000 + bytes[1] * 0x100_0000 + bytes[2] * 0x1_0000
        + bytes[3] * 0x100 + bytes[4]);
    assert(bytes_value(b6) == bytes[0] * 0x100_0000_0000 + bytes[1] * 0x1_0000_0000 + bytes[2]
        * 0x100_0000 + bytes[3] * 0x1_0000 + bytes[4] * 0x100 + bytes[5]);
    assert(bytes_value(b7) == bytes[0] * 0x1_0000_0000_0000 + bytes[1] * 0x100_0000_0000 + bytes[2]
        * 0x1_0000_0000 + bytes[3] * 0x100_0000 + bytes[4] * 0x1_0000 + bytes[5] * 0x100
        + bytes[6]);
}

/// The text that separates context digests from other digests.
pub open spec fn digest_domain() -> Seq<u8> {
    seq![
        115u8, 99, 104, 99, 45, 99, 111, 114, 101, 99, 111, 110, 102, 47, 109, 97, 110, 97, 103,
        101, 100, 45, 99, 111, 110, 116, 101, 120, 116, 47, 118, 49, 0,
    ]
}

fn domain_bytes() -> (result: Vec<u8>)
    ensures
        result@ == digest_domain(),
{
    let bytes: Vec<u8> = vec![
        115, 99, 104, 99, 45, 99, 111, 114, 101, 99, 111, 110, 102, 47, 109, 97, 110, 97, 103, 101,
        100, 45, 99, 111, 110, 116, 101, 120, 116, 47, 118, 49, 0,
    ];
    assert(bytes@ =~= digest_domain());
    bytes
}

/// What is digested for a context: a domain, then the tree and the complete
/// encoding, each behind its length.
pub open spec fn digest_input(tree: Seq<u8>, sor: Seq<u8>) -> Seq<u8> {
    digest_domain() + number_bytes(tree.len()) + tree + number_bytes(sor.len()) + sor
}

/// Computes the digest of a context.
pub fn digest_context(tree: &JsonValue, sor: &[u8]) -> (result: Result<Vec<u8>, ContextError>)
    ensures
        match result {
            Ok(digest) => json_bytes(tree@) is Some && digest@ == sha256_of(
                digest_input(json_bytes(tree@)->0, sor@),
            ) && digest@.len() == 32,
            Err(error) => json_bytes(tree@) is None && error@ is Model,
        },
{
    let mut tree_bytes = match encode_json(tree) {
        Ok(bytes) => bytes,
        Err(text) => {
            return Err(ContextError::Model(join("tree serialization: ", text.as_str())));
        },
    };
    let ghost held = tree_bytes@;
    let mut message = domain_bytes();
    let mut tree_length = big_endian(tree_bytes.len() as u64);
    message.append(&mut tree_length);
    message.append(&mut tree_bytes);
    let mut sor_length = big_endian(sor.len() as u64);
    message.append(&mut sor_length);
    message.extend_from_slice(sor);
    assert(message@ =~= digest_input(held, sor@));
    Ok(sha256(message.as_slice()))
}

/// The parts of a framed message are found again at their places.
proof fn lemma_framed(
    domain: Seq<u8>,
    left: (Seq<u8>, Seq<u8>, Seq<u8>, Seq<u8>),
    right: (Seq<u8>, Seq<u8>, Seq<u8>, Seq<u8>),
)
    requires
        left.0.len() == 8,
        left.2.len() == 8,
        right.0.len() == 8,
        right.2.len() == 8,
        left.0 == right.0 ==> left.1.len() == right.1.len(),
        domain + left.0 + left.1 + left.2 + left.3 == domain + right.0 + right.1 + right.2
            + right.3,
    ensures
        left.1 == right.1,
        left.3 == right.3,
{
    let one = domain + left.0 + left.1 + left.2 + left.3;
    let other = domain + right.0 + right.1 + right.2 + right.3;
    let start = domain.len() as int;
    assert(one.subrange(start, start + 8) =~= left.0);
    assert(other.subrange(start, start + 8) =~= right.0);
    let middle = start + 8 + left.1.len() as int;
    assert(one.subrange(start + 8, middle) =~= left.1);
    assert(other.subrange(start + 8, middle) =~= right.1);
    assert(one.skip(middle + 8) =~= left.3);
    assert(other.skip(middle + 8) =~= right.3);
}

proof fn lemma_number_bytes(number: nat, other: nat)
    requires
        number <= u64::MAX,
        other <= u64::MAX,
    ensures
        number_bytes(number).len() == 8,
        number_bytes(number) == number_bytes(other) ==> number == other,
{
    number_bytes_round_trip(number);
    number_bytes_round_trip(other);
}

/// Contexts that differ in their tree or encoding are digested as different
/// messages.
pub proof fn digest_input_tells_contexts_apart(
    tree: Seq<u8>,
    sor: Seq<u8>,
    other_tree: Seq<u8>,
    other_sor: Seq<u8>,
)
    requires
        tree.len() <= u64::MAX,
        sor.len() <= u64::MAX,
        other_tree.len() <= u64::MAX,
        other_sor.len() <= u64::MAX,
        digest_input(tree, sor) == digest_input(other_tree, other_sor),
    ensures
        tree == other_tree,
        sor == other_sor,
{
    lemma_number_bytes(tree.len(), other_tree.len());
    lemma_number_bytes(other_tree.len(), tree.len());
    lemma_number_bytes(sor.len(), other_sor.len());
    lemma_number_bytes(other_sor.len(), sor.len());
    lemma_framed(
        digest_domain(),
        (number_bytes(tree.len()), tree, number_bytes(sor.len()), sor),
        (
            number_bytes(other_tree.len()),
            other_tree,
            number_bytes(other_sor.len()),
            other_sor,
        ),
    );
}

/// What is digested for a context are, one after the other: the text
/// `schc-coreconf/managed-context/v1` with a zero byte, the length of the tree
/// in eight bytes, the tree, the length of the encoding in eight bytes, and
/// the encoding.
pub proof fn digest_input_frames_tree_and_encoding(tree: Seq<u8>, sor: Seq<u8>)
    requires
        tree.len() <= u64::MAX,
        sor.len() <= u64::MAX,
    ensures
        ({
            let message = digest_input(tree, sor);
            let text = "schc-coreconf/managed-context/v1"@;
            let start = 33 + 8 + tree.len() as int;
            &&& message.len() == 33 + 8 + tree.len() + 8 + sor.len()
            &&& text.len() == 32
            &&& forall|i: int| 0 <= i < 32 ==> #[trigger] message[i] as u32 == text[i] as u32
            &&& message[32] == 0
            &&& bytes_value(message.subrange(33, 41)) == tree.len()
            &&& message.subrange(41, start) == tree
            &&& bytes_value(message.subrange(start, start + 8)) == sor.len()
            &&& message.subrange(start + 8, message.len() as int) == sor
        }),
{
    let message = digest_input(tree, sor);
    let start = 33 + 8 + tree.len() as int;
    reveal_strlit("schc-coreconf/managed-context/v1");
    number_bytes_are_big_endian(tree.len());
    number_bytes_are_big_endian(sor.len());
    assert(digest_domain().len() == 33);
    assert forall|i: int| 0 <= i < 33 implies #[trigger] message[i] == digest_domain()[i] by {}
    assert(message.subrange(33, 41) =~= number_bytes(tree.len()));
    assert(message.subrange(41, start) =~= tree);
    assert(message.subrange(start, start + 8) =~= number_bytes(sor.len()));
    assert(message.subrange(start + 8, message.len() as int) =~= sor);
}

/// Number of bytes in a compact context tag.
pub const CONTEXT_TAG_LEN: usize = 8;

/// A compact stable identifier for one canonical context.
#[derive(Debug, Clone, Copy)]
pub struct ContextTag {
    /// The bytes of the tag.
    pub bytes: [u8; 8],
}

impl View for ContextTag {
    type V = Seq<u8>;

    open spec fn view(&self) -> Seq<u8> {
        self.bytes@
    }
}

impl ContextTag {
    /// Creates a tag from its exact eight-byte representation.
    pub fn new(bytes: [u8; 8]) -> (result: Self)
        ensures
            result@ == bytes@,
    {
        ContextTag { bytes }
    }

    /// Creates a tag from a byte string of its length.
    pub fn from_slice(bytes: &[u8]) -> (result: Option<Self>)
        ensures
            match result {
                Some(tag) => bytes@.len() == 8 && tag@ == bytes@,
                None => bytes@.len() != 8,
            },
    {
        if bytes.len() != CONTEXT_TAG_LEN {
            return None;
        }
        let tag = ContextTag {
            bytes: [
                bytes[0],
                bytes[1],
                bytes[2],
                bytes[3],
                bytes[4],
                bytes[5],
                bytes[6],
                bytes[7],
            ],
        };
        assert(tag@ =~= bytes@);
        Some(tag)
    }

    /// Returns the exact bytes of this tag.
    pub fn bytes(self) -> (result: [u8; 8])
        ensures
            result@ == self@,
    {
        self.bytes
    }

    /// Returns the bytes of this tag as a byte string.
    pub fn to_vec(self) -> (result: Vec<u8>)
        ensures
            result@ == self@,
    {
        let mut result: Vec<u8> = Vec::new();
        let mut index: usize = 0;
        while index < 8
            invariant
                index <= 8,
                result@ =~= self@.take(index as int),
            decreases 8 - index,
        {
            result.push(self.bytes[index]);
            index += 1;
        }
        result
    }

    /// Returns whether two tags are equal.
    pub fn same(self, other: Self) -> (result: bool)
        ensures
            result == (self@ == other@),
    {
        let mut index: usize = 0;
        while index < 8
            invariant
                index <= 8,
                forall|i: int| 0 <= i < index ==> self@[i] == other@[i],
            decreases 8 - index,
        {
            if self.bytes[index] != other.bytes[index] {
                assert(self@[index as int] != other@[index as int]);
                return false;
            }
            index += 1;
        }
        assert(self@ =~= other@);
        true
    }

    /// Returns the lowercase hexadecimal representation.
    pub fn to_hex(self) -> (result: String)
        ensures
            result@ == crate::text::hex_digits(self@),
    {
        crate::text::hex_string(self.to_vec().as_slice())
    }
}

/// Returns the tag of a digest: its first eight bytes.
pub fn context_tag(digest: &[u8]) -> (result: ContextTag)
    requires
        digest@.len() == 32,
    ensures
        result@ == digest@.take(8),
{
    let tag = ContextTag {
        bytes: [
            digest[0],
            digest[1],
            digest[2],
            digest[3],
            digest[4],
            digest[5],
            digest[6],
            digest[7],
        ],
    };
    assert(tag@ =~= digest@.take(8));
    tag
}

/// A complete value is accepted as the encoding of a context exactly when it is
/// a map with an entry under the SID of the root.
pub proof fn context_encoding_has_the_root(value: Cbor, root_sid: i64)
    ensures
        root_fault(value, root_sid) is None <==> (value is Entries && exists|i: int|
            0 <= i < value->Entries_0.len() && (#[trigger] value->Entries_0[i]).0 == Cbor::Integer(
                root_sid as int,
            )),
{
}

/// Bytes are strict exactly where they are one value, to their last byte, that
/// repeats no map key; any other bytes have an error, and strict ones have none.
pub proof fn strict_bytes_are_one_whole_value(bytes: Seq<u8>, value: Cbor, fault: ContextFault)
    ensures
        strict_bytes(bytes, value) <==> (cbor_item(bytes) is Some && (cbor_item(bytes)->0).0
            == value && (cbor_item(bytes)->0).1 == bytes.len() && keys_unique(value)),
        strict_bytes(bytes, value) ==> !strict_fault(bytes, fault),
        strict_fault(bytes, fault) ==> fault is Cbor,
{
}

} // verus!
