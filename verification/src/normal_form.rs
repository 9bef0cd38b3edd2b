//! What normalizing does to a tree: the order of its lists, what they keep,
//! and which trees have a normal form.

use vstd::prelude::*;

use crate::codec::{
    arranged, entries_fault, entry_order, index_taken, normalized, normalized_items,
    normalized_members, normalizing_is_idempotent, rule_order,
};
use crate::context_error::ContextFault;
use crate::json::{lemma_member_at_is_first, member_at, unsigned_member, Json};
use crate::sort::{ordered_by, sort_by, sorting_orders_and_keeps_items};

verus! {

/// The index of an entry.
pub open spec fn entry_number(entry: Json) -> Option<u64> {
    unsigned_member(entry, "entry-index"@)
}

/// Whether every entry has an index that no other entry has.
pub open spec fn numbered_apart(entries: Seq<Json>) -> bool {
    &&& forall|i: int| 0 <= i < entries.len() ==> entry_number(#[trigger] entries[i]) is Some
    &&& forall|i: int, j: int|
        0 <= i < j < entries.len() ==> entry_number(#[trigger] entries[i]) != entry_number(
            #[trigger] entries[j],
        )
}

/// Whether the indices of the entries increase from each entry to the next.
pub open spec fn numbers_increase(entries: Seq<Json>) -> bool {
    &&& forall|i: int| 0 <= i < entries.len() ==> entry_number(#[trigger] entries[i]) is Some
    &&& forall|i: int, j: int|
        0 <= i < j < entries.len() ==> entry_number(#[trigger] entries[i])->0 < entry_number(
            #[trigger] entries[j],
        )->0
}

/// Whether every entry list inside a tree has entries with indices of their
/// own. `key` is the name under which the tree stands in an object.
pub open spec fn has_normal_form(value: Json, key: Option<Seq<char>>) -> bool
    decreases value,
{
    match value {
        Json::Object(members) => forall|i: int|
            0 <= i < members.len() ==> has_normal_form(
                (#[trigger] members[i]).1,
                Some(members[i].0),
            ),
        Json::Array(items) => {
            &&& forall|i: int| 0 <= i < items.len() ==> has_normal_form(#[trigger] items[i], None)
            &&& key == Some("entry-universal"@) ==> numbered_apart(items)
        },
        _ => true,
    }
}

/// Whether every rule list inside a tree is in the order of its identities,
/// and every entry list in the strict order of its indices.
pub open spec fn in_normal_order(value: Json, key: Option<Seq<char>>) -> bool
    decreases value,
{
    match value {
        Json::Object(members) => forall|i: int|
            0 <= i < members.len() ==> in_normal_order(
                (#[trigger] members[i]).1,
                Some(members[i].0),
            ),
        Json::Array(items) => {
            &&& forall|i: int| 0 <= i < items.len() ==> in_normal_order(#[trigger] items[i], None)
            &&& key == Some("rule"@) ==> ordered_by(items, rule_order())
            &&& key == Some("entry-universal"@) ==> numbers_increase(items)
        },
        _ => true,
    }
}

/// Whether a list is ordered by what stands in it.
pub open spec fn is_ordered_list(key: Option<Seq<char>>) -> bool {
    key == Some("rule"@) || key == Some("entry-universal"@)
}

/// Whether a tree is another one whose rule and entry lists, at every depth,
/// may stand in another order, and nothing else is changed: a list holds the
/// normal forms of the items that it held.
pub open spec fn is_rearranged(before: Json, after: Json, key: Option<Seq<char>>) -> bool
    decreases before,
{
    match (before, after) {
        (Json::Object(members), Json::Object(others)) => {
            &&& others.len() == members.len()
            &&& forall|i: int|
                0 <= i < members.len() ==> (#[trigger] members[i]).0 == others[i].0
                    && is_rearranged(members[i].1, others[i].1, Some(members[i].0))
        },
        (Json::Array(items), Json::Array(others)) => exists|list: Seq<Json>|
            {
                &&& #[trigger] list.len() == items.len()
                &&& forall|i: int|
                    0 <= i < items.len() ==> normalized(#[trigger] items[i], None) == Ok::<
                        Json,
                        ContextFault,
                    >(list[i]) && is_rearranged(items[i], list[i], None)
                &&& if is_ordered_list(key) {
                    others.to_multiset() == list.to_multiset()
                } else {
                    others == list
                }
            },
        _ => before == after,
    }
}

proof fn lemma_numbers_checked(entries: Seq<Json>, count: nat)
    requires
        count <= entries.len(),
    ensures
        entries_fault(entries, count) is None <==> numbered_apart(entries.take(count as int)),
        entries_fault(entries, count) matches Some(fault) ==> fault is Model,
    decreases count,
{
    let some = entries.take(count as int);
    if count > 0 {
        let fewer = entries.take(count - 1);
        let last = entries[count - 1];
        lemma_numbers_checked(entries, (count - 1) as nat);
        assert forall|i: int| 0 <= i < count - 1 implies #[trigger] fewer[i] == some[i] by {}
        assert(some[count - 1] == last);
        if entries_fault(entries, (count - 1) as nat) is Some {
            if numbered_apart(some) {
                assert forall|i: int| 0 <= i < fewer.len() implies entry_number(
                    #[trigger] fewer[i],
                ) is Some by {
                    assert(fewer[i] == some[i]);
                }
                assert forall|i: int, j: int| 0 <= i < j < fewer.len() implies entry_number(
                    #[trigger] fewer[i],
                ) != entry_number(#[trigger] fewer[j]) by {
                    assert(fewer[i] == some[i] && fewer[j] == some[j]);
                }
                assert(numbered_apart(fewer));
            }
        } else if let Some(index) = entry_number(last) {
            if index_taken(entries, count - 1, index) {
                let at = choose|i: int|
                    0 <= i < count - 1 && unsigned_member(#[trigger] entries[i], "entry-index"@)
                        == Some(index);
                assert(entry_number(some[at]) == entry_number(some[count - 1]));
                assert(!numbered_apart(some));
            } else {
                assert forall|i: int| 0 <= i < some.len() implies entry_number(
                    #[trigger] some[i],
                ) is Some by {
                    if i < count - 1 {
                        assert(entry_number(fewer[i]) is Some);
                    }
                }
                assert forall|i: int, j: int| 0 <= i < j < some.len() implies entry_number(
                    #[trigger] some[i],
                ) != entry_number(#[trigger] some[j]) by {
                    if j < count - 1 {
                        assert(entry_number(fewer[i]) != entry_number(fewer[j]));
                    } else {
                        assert(some[i] == entries[i]);
                    }
                }
            }
        } else {
            assert(entry_number(some[count - 1]) is None);
        }
    }
}

proof fn lemma_apart_in_any_order(entries: Seq<Json>, others: Seq<Json>)
    requires
        entries.to_multiset() == others.to_multiset(),
        numbered_apart(entries),
    ensures
        numbered_apart(others),
{
    broadcast use vstd::seq_lib::group_to_multiset_ensures;

    assert(entries.no_duplicates());
    entries.lemma_multiset_has_no_duplicates();
    others.lemma_multiset_has_no_duplicates_conv();
    assert forall|i: int| 0 <= i < others.len() implies entries.contains(#[trigger] others[i]) by {
        assert(others.contains(others[i]));
        assert(others.to_multiset().count(others[i]) > 0);
        assert(entries.to_multiset().count(others[i]) > 0);
    }
    assert forall|i: int, j: int| 0 <= i < j < others.len() implies entry_number(
        #[trigger] others[i],
    ) != entry_number(#[trigger] others[j]) by {
        assert(others[i] != others[j]);
        let first = choose|k: int| 0 <= k < entries.len() && entries[k] == others[i];
        let second = choose|k: int| 0 <= k < entries.len() && entries[k] == others[j];
        if first < second {
            assert(entry_number(entries[first]) != entry_number(entries[second]));
        } else {
            assert(entry_number(entries[second]) != entry_number(entries[first]));
        }
    }
}

proof fn lemma_list_arranged(items: Seq<Json>, key: Option<Seq<char>>)
    ensures
        arranged(items, key) is Ok <==> (key == Some("entry-universal"@) ==> numbered_apart(items)),
        arranged(items, key) matches Err(fault) ==> fault is Model,
        arranged(items, key) matches Ok(list) ==> {
            &&& list.to_multiset() == items.to_multiset()
            &&& !is_ordered_list(key) ==> list == items
            &&& key == Some("rule"@) ==> ordered_by(list, rule_order())
            &&& key == Some("entry-universal"@) ==> numbers_increase(list)
        },
{
    reveal_strlit("rule");
    reveal_strlit("entry-universal");
    assert("rule"@.len() != "entry-universal"@.len());
    if key == Some("rule"@) {
        sorting_orders_and_keeps_items(items, rule_order());
    } else if key == Some("entry-universal"@) {
        let list = sort_by(items, entry_order());
        sorting_orders_and_keeps_items(items, entry_order());
        lemma_numbers_checked(list, list.len());
        assert(list.take(list.len() as int) =~= list);
        if numbered_apart(items) {
            lemma_apart_in_any_order(items, list);
        }
        if numbered_apart(list) {
            lemma_apart_in_any_order(list, items);
            assert forall|i: int, j: int| 0 <= i < j < list.len() implies entry_number(
                #[trigger] list[i],
            )->0 < entry_number(#[trigger] list[j])->0 by {
                assert(entry_number(list[i]) != entry_number(list[j]));
                assert(entry_number(list[i]) is Some && entry_number(list[j]) is Some);
                let key = entry_order();
                assert(crate::sort::key_le(key(list[i]), key(list[j])));
            }
        }
    }
}

/// What holds of a value and its normal form.
spec fn is_normal_form_of(value: Json, normal: Json, key: Option<Seq<char>>) -> bool {
    &&& normalized(value, key) == Ok::<Json, ContextFault>(normal)
    &&& in_normal_order(normal, key)
    &&& is_rearranged(value, normal, key)
    &&& forall|name: Seq<char>| #[trigger]
        unsigned_member(normal, name) == unsigned_member(value, name)
    &&& !(value is Array || value is Object) ==> normal == value
    &&& value is Array ==> normal is Array
    &&& value is Object ==> normal is Object
}

proof fn lemma_items_normal(items: Seq<Json>, count: nat)
    requires
        count <= items.len(),
    ensures
        normalized_items(items, count) is Ok <==> forall|i: int|
            0 <= i < count ==> has_normal_form(#[trigger] items[i], None),
        normalized_items(items, count) matches Err(fault) ==> fault is Model,
        normalized_items(items, count) matches Ok(list) ==> {
            &&& list.len() == count
            &&& forall|i: int|
                0 <= i < count ==> is_normal_form_of(#[trigger] items[i], list[i], None)
        },
    decreases items, 0nat, count,
{
    if count > 0 {
        lemma_items_normal(items, (count - 1) as nat);
        lemma_normal_form(items[count - 1], None);
        if normalized_items(items, count) is Ok {
            let fewer = normalized_items(items, (count - 1) as nat)->Ok_0;
            let list = normalized_items(items, count)->Ok_0;
            assert forall|i: int| 0 <= i < count implies is_normal_form_of(
                #[trigger] items[i],
                list[i],
                None,
            ) by {
                if i < count - 1 {
                    assert(list[i] == fewer[i]);
                }
            }
            assert forall|i: int| 0 <= i < count implies has_normal_form(
                #[trigger] items[i],
                None,
            ) by {}
        } else if forall|i: int| 0 <= i < count ==> has_normal_form(#[trigger] items[i], None) {
            assert(has_normal_form(items[count - 1], None));
            assert forall|i: int| 0 <= i < count - 1 implies has_normal_form(
                #[trigger] items[i],
                None,
            ) by {}
        }
    }
}

proof fn lemma_members_normal(members: Seq<(Seq<char>, Json)>, count: nat)
    requires
        count <= members.len(),
    ensures
        normalized_members(members, count) is Ok <==> forall|i: int|
            0 <= i < count ==> has_normal_form((#[trigger] members[i]).1, Some(members[i].0)),
        normalized_members(members, count) matches Err(fault) ==> fault is Model,
        normalized_members(members, count) matches Ok(list) ==> {
            &&& list.len() == count
            &&& forall|i: int|
                0 <= i < count ==> (#[trigger] members[i]).0 == list[i].0 && is_normal_form_of(
                    members[i].1,
                    list[i].1,
                    Some(members[i].0),
                )
        },
    decreases members, 0nat, count,
{
    if count > 0 {
        lemma_members_normal(members, (count - 1) as nat);
        lemma_normal_form(members[count - 1].1, Some(members[count - 1].0));
        if normalized_members(members, count) is Ok {
            let fewer = normalized_members(members, (count - 1) as nat)->Ok_0;
            let list = normalized_members(members, count)->Ok_0;
            assert forall|i: int| 0 <= i < count implies (#[trigger] members[i]).0 == list[i].0
                && is_normal_form_of(members[i].1, list[i].1, Some(members[i].0)) by {
                if i < count - 1 {
                    assert(list[i] == fewer[i]);
                }
            }
            assert forall|i: int| 0 <= i < count implies has_normal_form(
                (#[trigger] members[i]).1,
                Some(members[i].0),
            ) by {}
        } else if forall|i: int|
            0 <= i < count ==> has_normal_form((#[trigger] members[i]).1, Some(members[i].0)) {
            assert(has_normal_form(members[count - 1].1, Some(members[count - 1].0)));
            assert forall|i: int| 0 <= i < count - 1 implies has_normal_form(
                (#[trigger] members[i]).1,
                Some(members[i].0),
            ) by {}
        }
    }
}

proof fn lemma_same_names(
    members: Seq<(Seq<char>, Json)>,
    others: Seq<(Seq<char>, Json)>,
    name: Seq<char>,
)
    requires
        members.len() == others.len(),
        forall|i: int| 0 <= i < members.len() ==> (#[trigger] members[i]).0 == others[i].0,
    ensures
        member_at(members, name) == member_at(others, name),
    decreases members.len(),
{
    if members.len() > 0 {
        assert(members[0].0 == others[0].0);
        let (rest, other_rest) = (members.drop_first(), others.drop_first());
        assert forall|i: int| 0 <= i < rest.len() implies (#[trigger] rest[i]).0
            == other_rest[i].0 by {
            assert(rest[i] == members[i + 1] && other_rest[i] == others[i + 1]);
        }
        lemma_same_names(rest, other_rest, name);
    }
}

proof fn lemma_normal_form(value: Json, key: Option<Seq<char>>)
    ensures
        normalized(value, key) is Ok <==> has_normal_form(value, key),
        normalized(value, key) matches Err(fault) ==> fault is Model,
        normalized(value, key) matches Ok(normal) ==> is_normal_form_of(value, normal, key),
    decreases value, 1nat, 0nat,
{
    match value {
        Json::Object(members) => {
            lemma_members_normal(members, members.len());
            if let Ok(list) = normalized_members(members, members.len()) {
                let normal = Json::Object(list);
                assert forall|i: int| 0 <= i < list.len() implies in_normal_order(
                    (#[trigger] list[i]).1,
                    Some(list[i].0),
                ) by {
                    assert(members[i].0 == list[i].0);
                }
                assert forall|name: Seq<char>| #[trigger]
                    unsigned_member(normal, name) == unsigned_member(value, name) by {
                    lemma_same_names(members, list, name);
                    let at = member_at(members, name) as int;
                    if at < members.len() {
                        lemma_member_at_is_first(members, name);
                        assert(members[at].0 == list[at].0);
                        assert(is_normal_form_of(members[at].1, list[at].1, Some(members[at].0)));
                    }
                }
            }
        },
        Json::Array(items) => {
            lemma_items_normal(items, items.len());
            if let Ok(list) = normalized_items(items, items.len()) {
                lemma_list_arranged(list, key);
                if numbered_apart(items) {
                    lemma_same_numbers(items, list);
                }
                if numbered_apart(list) {
                    lemma_same_numbers(list, items);
                }
                if let Ok(ordered) = arranged(list, key) {
                    assert(list.len() == items.len());
                    assert forall|i: int| 0 <= i < ordered.len() implies in_normal_order(
                        #[trigger] ordered[i],
                        None,
                    ) by {
                        broadcast use vstd::seq_lib::group_to_multiset_ensures;

                        assert(ordered.contains(ordered[i]));
                        assert(ordered.to_multiset().count(ordered[i]) > 0);
                        assert(list.to_multiset().count(ordered[i]) > 0);
                        assert(list.contains(ordered[i]));
                        let at = choose|k: int| 0 <= k < list.len() && list[k] == ordered[i];
                        assert(is_normal_form_of(items[at], list[at], None));
                    }
                    assert forall|i: int| 0 <= i < items.len() implies normalized(
                        #[trigger] items[i],
                        None,
                    ) == Ok::<Json, ContextFault>(list[i]) && is_rearranged(
                        items[i],
                        list[i],
                        None,
                    ) by {
                        assert(is_normal_form_of(items[i], list[i], None));
                    }
                    assert(is_rearranged(value, Json::Array(ordered), key));
                }
            }
        },
        _ => {},
    }
}

proof fn lemma_same_numbers(entries: Seq<Json>, others: Seq<Json>)
    requires
        entries.len() == others.len(),
        forall|i: int|
            0 <= i < entries.len() ==> entry_number(#[trigger] entries[i]) == entry_number(
                others[i],
            ),
        numbered_apart(entries),
    ensures
        numbered_apart(others),
{
    assert forall|i: int| 0 <= i < others.len() implies entry_number(#[trigger] others[i]) is Some by {
        assert(entry_number(entries[i]) is Some);
    }
    assert forall|i: int, j: int| 0 <= i < j < others.len() implies entry_number(
        #[trigger] others[i],
    ) != entry_number(#[trigger] others[j]) by {
        assert(entry_number(entries[i]) != entry_number(entries[j]));
    }
}

/// A tree has a normal form exactly when every entry in it has an index of its
/// own; otherwise the error is one of the model. The normal form holds what the
/// tree holds, with every rule list in the order of its identities and every
/// entry list in the strict order of its indices, and is its own normal form.
pub proof fn normalizing_orders_every_list(tree: Json)
    ensures
        normalized(tree, None) is Ok <==> has_normal_form(tree, None),
        normalized(tree, None) matches Err(fault) ==> fault is Model,
        normalized(tree, None) matches Ok(normal) ==> {
            &&& in_normal_order(normal, None)
            &&& is_rearranged(tree, normal, None)
            &&& normalized(normal, None) == Ok::<Json, ContextFault>(normal)
        },
{
    lemma_normal_form(tree, None);
    if normalized(tree, None) is Ok {
        normalizing_is_idempotent(tree);
    }
}

/// In normal order, the rules of a rule list stand by ascending length and,
/// among those of one length, by ascending value, where a missing number counts
/// as zero; the entries of an entry list stand by strictly ascending index.
pub proof fn normal_order_is_that_of_the_identities(
    items: Seq<Json>,
    key: Option<Seq<char>>,
    first: int,
    second: int,
)
    requires
        in_normal_order(Json::Array(items), key),
        0 <= first < second < items.len(),
    ensures
        key == Some("rule"@) ==> ({
            let one = unsigned_member(items[first], "rule-id-length"@);
            let other = unsigned_member(items[second], "rule-id-length"@);
            let low = unsigned_member(items[first], "rule-id-value"@);
            let high = unsigned_member(items[second], "rule-id-value"@);
            one is Some && other is Some && low is Some && high is Some ==> one->0 < other->0 || (
            one->0 == other->0 && low->0 <= high->0)
        }),
        key == Some("entry-universal"@) ==> unsigned_member(items[first], "entry-index"@) is Some
            && unsigned_member(items[second], "entry-index"@) is Some && unsigned_member(
            items[first],
            "entry-index"@,
        )->0 < unsigned_member(items[second], "entry-index"@)->0,
{
    reveal_strlit("rule");
    reveal_strlit("entry-universal");
    if key == Some("rule"@) {
        let order = rule_order();
        assert(ordered_by(items, order));
        assert(crate::sort::key_le(order(items[first]), order(items[second])));
    }
    if key == Some("entry-universal"@) {
        assert(entry_number(items[first])->0 < entry_number(items[second])->0);
    }
}

} // verus!
