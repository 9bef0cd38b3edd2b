//! Changing one leaf of one rule in a tree.

use vstd::prelude::*;

use crate::duplicate_tree::{
    lemma_with_member, listed_rules, replace_member, rule_names, with_member, with_named,
    with_rules, RuleNames,
};
use crate::error::{Fault, InspectionError};
use crate::json::{
    lemma_json_view, lemma_member_at_is_first, list_view, member, member_at, unsigned_member, Json,
    JsonValue,
};
use crate::path::DuplicateLeaf;
use crate::selector::RuleSelector;
use crate::sid::{rule_key, rule_key_of, ModelSids, ModelView, SidModel};
use crate::target::{get_list, has_identity, list_member};

verus! {

/// The names of the parts of a rule list, its entries and their leaves.
pub struct LeafNames {
    /// The parts of the rule list.
    pub rules: RuleNames,
    /// The entry list of a rule.
    pub entry: Seq<char>,
    /// The index of an entry.
    pub entry_index: Seq<char>,
    /// The target list of an entry.
    pub target: Seq<char>,
    /// The index of a target.
    pub target_index: Seq<char>,
    /// The value of a target.
    pub target_value: Seq<char>,
    /// The matching operator of an entry.
    pub matching_operator: Seq<char>,
    /// The action of an entry.
    pub cda: Seq<char>,
}

/// The names that a model gives to the leaves of an entry.
pub open spec fn leaf_names(model: ModelView, sids: ModelSids) -> Result<LeafNames, Fault> {
    match rule_names(model, sids) {
        Err(fault) => Err(fault),
        Ok(rules) => match rule_key_of(model, sids.entry) {
            Err(fault) => Err(fault),
            Ok(entry) => match rule_key_of(model, sids.entry_index) {
                Err(fault) => Err(fault),
                Ok(entry_index) => match rule_key_of(model, sids.target) {
                    Err(fault) => Err(fault),
                    Ok(target) => match rule_key_of(model, sids.target_index) {
                        Err(fault) => Err(fault),
                        Ok(target_index) => match rule_key_of(model, sids.target_value) {
                            Err(fault) => Err(fault),
                            Ok(target_value) => match rule_key_of(model, sids.matching_operator) {
                                Err(fault) => Err(fault),
                                Ok(matching_operator) => match rule_key_of(model, sids.cda) {
                                    Err(fault) => Err(fault),
                                    Ok(cda) => Ok(
                                        LeafNames {
                                            rules,
                                            entry,
                                            entry_index,
                                            target,
                                            target_index,
                                            target_value,
                                            matching_operator,
                                            cda,
                                        },
                                    ),
                                },
                            },
                        },
                    },
                },
            },
        },
    }
}

/// The names of the parts of a rule list, its entries and their leaves.
pub(crate) struct LeafKeys {
    root: String,
    list: String,
    value: String,
    length: String,
    entry: String,
    entry_index: String,
    target: String,
    target_index: String,
    target_value: String,
    matching_operator: String,
    cda: String,
}

impl View for LeafKeys {
    type V = LeafNames;

    closed spec fn view(&self) -> LeafNames {
        LeafNames {
            rules: RuleNames {
                root: self.root@,
                list: self.list@,
                value: self.value@,
                length: self.length@,
            },
            entry: self.entry@,
            entry_index: self.entry_index@,
            target: self.target@,
            target_index: self.target_index@,
            target_value: self.target_value@,
            matching_operator: self.matching_operator@,
            cda: self.cda@,
        }
    }
}

/// Returns the names that a model gives to the leaves of an entry.
pub(crate) fn resolve_leaves(model: &SidModel, sids: &ModelSids) -> (result: Result<
    LeafKeys,
    InspectionError,
>)
    ensures
        match result {
            Ok(names) => leaf_names(model@, *sids) == Ok::<LeafNames, Fault>(names@),
            Err(error) => leaf_names(model@, *sids) == Err::<LeafNames, Fault>(error@),
        },
{
    let root = rule_key(model, sids.root)?;
    let list = rule_key(model, sids.rule)?;
    let value = rule_key(model, sids.rule_id_value)?;
    let length = rule_key(model, sids.rule_id_length)?;
    let entry = rule_key(model, sids.entry)?;
    let entry_index = rule_key(model, sids.entry_index)?;
    let target = rule_key(model, sids.target)?;
    let target_index = rule_key(model, sids.target_index)?;
    let target_value = rule_key(model, sids.target_value)?;
    let matching_operator = rule_key(model, sids.matching_operator)?;
    let cda = rule_key(model, sids.cda)?;
    Ok(
        LeafKeys {
            root,
            list,
            value,
            length,
            entry,
            entry_index,
            target,
            target_index,
            target_value,
            matching_operator,
            cda,
        },
    )
}

/// One leaf of one rule.
#[derive(Debug, Clone, Copy)]
pub struct LeafPlace {
    /// The rule.
    pub rule: RuleSelector,
    /// Index of the entry.
    pub entry_index: u64,
    /// The leaf of the entry.
    pub leaf: DuplicateLeaf,
    /// Index of the target, where the leaf is a target value.
    pub target_index: u64,
}

/// A target with its value changed, where it is the one of a place.
pub open spec fn changed_target(target: Json, names: LeafNames, place: LeafPlace, value: Json) -> Json {
    if unsigned_member(target, names.target_index) == Some(place.target_index) {
        with_named(target, names.target_value, value)
    } else {
        target
    }
}

/// An entry with a leaf changed, where it is the one of a place.
pub open spec fn changed_entry(entry: Json, names: LeafNames, place: LeafPlace, value: Json) -> Json {
    if unsigned_member(entry, names.entry_index) != Some(place.entry_index) {
        entry
    } else {
        match place.leaf {
            DuplicateLeaf::MatchingOperator => with_named(entry, names.matching_operator, value),
            DuplicateLeaf::Cda => with_named(entry, names.cda, value),
            DuplicateLeaf::Target => match list_member(entry, names.target) {
                None => entry,
                Some(targets) => with_named(
                    entry,
                    names.target,
                    Json::Array(
                        Seq::new(
                            targets.len(),
                            |i: int| changed_target(targets[i], names, place, value),
                        ),
                    ),
                ),
            },
        }
    }
}

/// A rule with a leaf changed, where it is the one of a place.
pub open spec fn changed_rule(rule: Json, names: LeafNames, place: LeafPlace, value: Json) -> Json {
    if !has_identity(rule, names.rules.value, names.rules.length, place.rule) {
        rule
    } else {
        match list_member(rule, names.entry) {
            None => rule,
            Some(entries) => with_named(
                rule,
                names.entry,
                Json::Array(
                    Seq::new(
                        entries.len(),
                        |i: int| changed_entry(entries[i], names, place, value),
                    ),
                ),
            ),
        }
    }
}

/// The rules of a list with a leaf changed.
pub open spec fn changed_rules(
    rules: Seq<Json>,
    names: LeafNames,
    place: LeafPlace,
    value: Json,
) -> Seq<Json> {
    Seq::new(rules.len(), |i: int| changed_rule(rules[i], names, place, value))
}

/// A tree with one leaf changed.
pub open spec fn changed_tree(tree: Json, names: LeafNames, place: LeafPlace, value: Json) -> Json {
    match listed_rules(tree, names.rules) {
        None => tree,
        Some(rules) => with_rules(tree, names.rules, changed_rules(rules, names, place, value)),
    }
}

fn change_targets(targets: &Vec<JsonValue>, names: &LeafKeys, place: LeafPlace, value: &JsonValue) -> (result:
    Vec<JsonValue>)
    ensures
        list_view(result@) == Seq::new(
            targets@.len(),
            |i: int| changed_target(list_view(targets@)[i], names@, place, value@),
        ),
{
    let ghost view = list_view(targets@);
    let mut changed: Vec<JsonValue> = Vec::new();
    let mut index: usize = 0;
    while index < targets.len()
        invariant
            index <= targets@.len(),
            view == list_view(targets@),
            changed@.len() == index,
            forall|i: int|
                0 <= i < index ==> (#[trigger] changed@[i])@ == changed_target(
                    view[i],
                    names@,
                    place,
                    value@,
                ),
        decreases targets.len() - index,
    {
        let target = &targets[index];
        assert(view[index as int] == target@);
        let next = if target.get_u64(names.target_index.as_str()) == Some(place.target_index) {
            replace_member(target.copy(), names.target_value.as_str(), value.copy())
        } else {
            target.copy()
        };
        changed.push(next);
        index += 1;
    }
    assert(list_view(changed@) =~= Seq::new(
        targets@.len(),
        |i: int| changed_target(view[i], names@, place, value@),
    ));
    changed
}

fn change_entry(entry: &JsonValue, names: &LeafKeys, place: LeafPlace, value: &JsonValue) -> (result:
    JsonValue)
    ensures
        result@ == changed_entry(entry@, names@, place, value@),
{
    if entry.get_u64(names.entry_index.as_str()) != Some(place.entry_index) {
        return entry.copy();
    }
    match place.leaf {
        DuplicateLeaf::MatchingOperator => replace_member(
            entry.copy(),
            names.matching_operator.as_str(),
            value.copy(),
        ),
        DuplicateLeaf::Cda => replace_member(entry.copy(), names.cda.as_str(), value.copy()),
        DuplicateLeaf::Target => match get_list(entry, names.target.as_str()) {
            None => entry.copy(),
            Some(targets) => {
                let changed = JsonValue::Array(change_targets(targets, names, place, value));
                proof {
                    lemma_json_view(changed);
                }
                replace_member(entry.copy(), names.target.as_str(), changed)
            },
        },
    }
}

fn change_rule(rule: &JsonValue, names: &LeafKeys, place: LeafPlace, value: &JsonValue) -> (result:
    JsonValue)
    ensures
        result@ == changed_rule(rule@, names@, place, value@),
{
    let identified = rule.get_u64(names.value.as_str()) == Some(place.rule.value) && rule.get_u64(
        names.length.as_str(),
    ) == Some(place.rule.bits as u64);
    if !identified {
        return rule.copy();
    }
    let entries = match get_list(rule, names.entry.as_str()) {
        Some(entries) => entries,
        None => {
            return rule.copy();
        },
    };
    let ghost view = list_view(entries@);
    let mut changed: Vec<JsonValue> = Vec::new();
    let mut index: usize = 0;
    while index < entries.len()
        invariant
            index <= entries@.len(),
            view == list_view(entries@),
            changed@.len() == index,
            forall|i: int|
                0 <= i < index ==> (#[trigger] changed@[i])@ == changed_entry(
                    view[i],
                    names@,
                    place,
                    value@,
                ),
        decreases entries.len() - index,
    {
        assert(view[index as int] == entries@[index as int]@);
        changed.push(change_entry(&entries[index], names, place, value));
        index += 1;
    }
    assert(list_view(changed@) =~= Seq::new(
        view.len(),
        |i: int| changed_entry(view[i], names@, place, value@),
    ));
    let list = JsonValue::Array(changed);
    proof {
        lemma_json_view(list);
    }
    replace_member(rule.copy(), names.entry.as_str(), list)
}

/// Returns a tree with one leaf changed.
pub(crate) fn change_tree(tree: &JsonValue, names: &LeafKeys, place: LeafPlace, value: &JsonValue) -> (result:
    JsonValue)
    ensures
        result@ == changed_tree(tree@, names@, place, value@),
{
    let root = match tree.get(names.root.as_str()) {
        Some(root) => root,
        None => {
            return tree.copy();
        },
    };
    let rules = match get_list(root, names.list.as_str()) {
        Some(rules) => rules,
        None => {
            return tree.copy();
        },
    };
    let ghost view = list_view(rules@);
    let mut changed: Vec<JsonValue> = Vec::new();
    let mut index: usize = 0;
    while index < rules.len()
        invariant
            index <= rules@.len(),
            view == list_view(rules@),
            changed@.len() == index,
            forall|i: int|
                0 <= i < index ==> (#[trigger] changed@[i])@ == changed_rule(
                    view[i],
                    names@,
                    place,
                    value@,
                ),
        decreases rules.len() - index,
    {
        assert(view[index as int] == rules@[index as int]@);
        changed.push(change_rule(&rules[index], names, place, value));
        index += 1;
    }
    assert(list_view(changed@) =~= changed_rules(view, names@, place, value@));
    let list = JsonValue::Array(changed);
    proof {
        lemma_json_view(list);
    }
    let changed_root = replace_member(root.copy(), names.list.as_str(), list);
    replace_member(tree.copy(), names.root.as_str(), changed_root)
}

/// The values that were stored for some changes.
pub open spec fn stored_values(answers: Seq<Result<JsonValue, String>>) -> Seq<Json> {
    Seq::new(answers.len(), |i: int| answers[i]->Ok_0@)
}

/// A tree with some leaves of a rule set, each to its value.
pub open spec fn overridden_tree(
    tree: Json,
    names: LeafNames,
    rule: RuleSelector,
    leaves: Seq<(usize, DuplicateLeaf)>,
    values: Seq<Json>,
) -> Json
    decreases leaves.len(),
{
    if leaves.len() == 0 {
        tree
    } else {
        changed_tree(
            overridden_tree(tree, names, rule, leaves.drop_last(), values),
            names,
            leaf_place(rule, leaves.last()),
            values[leaves.len() - 1],
        )
    }
}

/// The place of a leaf that a duplicate operation changes: the value of the
/// first target, the matching operator or the action of an entry.
pub open spec fn leaf_place(rule: RuleSelector, leaf: (usize, DuplicateLeaf)) -> LeafPlace {
    LeafPlace { rule, entry_index: leaf.0 as u64, leaf: leaf.1, target_index: 0 }
}

/// Returns a tree with some leaves of a rule set, each to the value that was
/// stored for it.
pub(crate) fn override_tree(
    tree: &JsonValue,
    names: &LeafKeys,
    rule: RuleSelector,
    leaves: &Vec<(usize, DuplicateLeaf)>,
    answers: &Vec<Result<JsonValue, String>>,
) -> (result: JsonValue)
    requires
        answers@.len() == leaves@.len(),
        forall|i: int| 0 <= i < answers@.len() ==> (#[trigger] answers@[i]) is Ok,
    ensures
        result@ == overridden_tree(tree@, names@, rule, leaves@, stored_values(answers@)),
{
    let ghost values = stored_values(answers@);
    let mut changed = tree.copy();
    let mut index: usize = 0;
    assert(leaves@.take(0) =~= Seq::<(usize, DuplicateLeaf)>::empty());
    while index < leaves.len()
        invariant
            index <= leaves@.len(),
            answers@.len() == leaves@.len(),
            values == stored_values(answers@),
            forall|i: int| 0 <= i < answers@.len() ==> (#[trigger] answers@[i]) is Ok,
            changed@ == overridden_tree(
                tree@,
                names@,
                rule,
                leaves@.take(index as int),
                values,
            ),
        decreases leaves.len() - index,
    {
        let (entry_index, leaf) = leaves[index];
        let place = LeafPlace { rule, entry_index: entry_index as u64, leaf, target_index: 0 };
        proof {
            assert(leaves@.take(index + 1).drop_last() =~= leaves@.take(index as int));
            assert(leaves@.take(index + 1).last() == leaves@[index as int]);
            assert(answers@[index as int] is Ok);
        }
        if let Ok(value) = &answers[index] {
            changed = change_tree(&changed, names, place, value);
        }
        index += 1;
    }
    assert(leaves@.take(leaves@.len() as int) =~= leaves@);
    changed
}

/// Whether a rule has an identity.
pub open spec fn identified(rule: Json, names: RuleNames, selector: RuleSelector) -> bool {
    has_identity(rule, names.value, names.length, selector)
}

proof fn lemma_with_member_twice(
    members: Seq<(Seq<char>, Json)>,
    name: Seq<char>,
    first: Json,
    second: Json,
)
    ensures
        with_member(with_member(members, name, first), name, second) == with_member(
            members,
            name,
            second,
        ),
{
    let once = with_member(members, name, first);
    let at = member_at(members, name);
    let there = member_at(once, name);
    lemma_member_at_is_first(members, name);
    lemma_member_at_is_first(once, name);
    if at < members.len() {
        assert(once[at as int].0 == name);
        if there < at {
            assert(once[there as int] == members[there as int]);
        }
        assert(there == at);
    } else {
        assert(once[members.len() as int].0 == name);
        if there < members.len() {
            assert(once[there as int] == members[there as int]);
        }
        assert(there == members.len());
    }
    assert(with_member(once, name, second) =~= with_member(members, name, second));
}

pub proof fn lemma_with_rules(tree: Json, names: RuleNames, first: Seq<Json>, second: Seq<Json>)
    requires
        listed_rules(tree, names) is Some,
    ensures
        listed_rules(with_rules(tree, names, first), names) == Some(first),
        with_rules(with_rules(tree, names, first), names, second) == with_rules(
            tree,
            names,
            second,
        ),
{
    let root = member(tree, names.root)->0;
    let members = tree->Object_0;
    let held = root->Object_0;
    lemma_with_member(held, names.list, Json::Array(first), names.list);
    lemma_with_member_twice(held, names.list, Json::Array(first), Json::Array(second));
    let once = Json::Object(with_member(held, names.list, Json::Array(first)));
    let twice = Json::Object(with_member(held, names.list, Json::Array(second)));
    lemma_with_member(members, names.root, once, names.root);
    lemma_with_member_twice(members, names.root, once, twice);
}

/// Whether two trees hold the same rules but for what the rules with one
/// identity hold beside it.
pub open spec fn siblings(left: Json, right: Json, names: RuleNames, rule: RuleSelector) -> bool {
    match (listed_rules(left, names), listed_rules(right, names)) {
        (Some(some), Some(others)) => {
            &&& some.len() == others.len()
            &&& forall|i: int|
                0 <= i < some.len() ==> {
                    &&& identified(#[trigger] some[i], names, rule) == identified(
                        others[i],
                        names,
                        rule,
                    )
                    &&& !identified(some[i], names, rule) ==> some[i] == others[i]
                }
            &&& forall|rules: Seq<Json>| #[trigger]
                with_rules(left, names, rules) == with_rules(right, names, rules)
        },
        (None, None) => left == right,
        _ => false,
    }
}

proof fn lemma_siblings_chain(
    first: Json,
    second: Json,
    third: Json,
    names: RuleNames,
    rule: RuleSelector,
)
    requires
        siblings(first, second, names, rule),
        siblings(second, third, names, rule),
    ensures
        siblings(first, third, names, rule),
{
    if let (Some(some), Some(others)) = (listed_rules(first, names), listed_rules(second, names)) {
        let last = listed_rules(third, names)->0;
        assert forall|i: int| 0 <= i < some.len() implies {
            &&& identified(#[trigger] some[i], names, rule) == identified(last[i], names, rule)
            &&& !identified(some[i], names, rule) ==> some[i] == last[i]
        } by {
            assert(identified(others[i], names, rule) == identified(last[i], names, rule));
        }
        assert forall|rules: Seq<Json>| #[trigger]
            with_rules(first, names, rules) == with_rules(third, names, rules) by {
            assert(with_rules(second, names, rules) == with_rules(third, names, rules));
        }
    }
}

proof fn lemma_changed_rule_keeps_identity(
    rule: Json,
    names: LeafNames,
    place: LeafPlace,
    value: Json,
)
    ensures
        identified(changed_rule(rule, names, place, value), names.rules, place.rule) == identified(
            rule,
            names.rules,
            place.rule,
        ),
{
    if identified(rule, names.rules, place.rule) && list_member(rule, names.entry) is Some {
        let entries = list_member(rule, names.entry)->0;
        let list = Json::Array(
            Seq::new(entries.len(), |i: int| changed_entry(entries[i], names, place, value)),
        );
        lemma_with_member(rule->Object_0, names.entry, list, names.rules.value);
        lemma_with_member(rule->Object_0, names.entry, list, names.rules.length);
    }
}

/// Changing a leaf of a rule changes nothing else: every other rule stays, and
/// so does all that stands beside the rules.
pub proof fn changed_leaf_keeps_other_rules(tree: Json, names: LeafNames, place: LeafPlace, value: Json)
    ensures
        siblings(tree, changed_tree(tree, names, place, value), names.rules, place.rule),
{
    if let Some(rules) = listed_rules(tree, names.rules) {
        let next = changed_rules(rules, names, place, value);
        let after = changed_tree(tree, names, place, value);
        lemma_with_rules(tree, names.rules, next, next);
        assert forall|i: int| 0 <= i < rules.len() implies {
            &&& identified(#[trigger] rules[i], names.rules, place.rule) == identified(
                next[i],
                names.rules,
                place.rule,
            )
            &&& !identified(rules[i], names.rules, place.rule) ==> rules[i] == next[i]
        } by {
            lemma_changed_rule_keeps_identity(rules[i], names, place, value);
        }
        assert forall|list: Seq<Json>| #[trigger]
            with_rules(tree, names.rules, list) == with_rules(after, names.rules, list) by {
            lemma_with_rules(tree, names.rules, next, list);
        }
    }
}

proof fn lemma_self_siblings(tree: Json, names: RuleNames, rule: RuleSelector)
    ensures
        siblings(tree, tree, names, rule),
{
}

/// Setting leaves of a rule changes nothing else: every other rule stays, and
/// so does all that stands beside the rules.
pub proof fn overrides_keep_other_rules(
    tree: Json,
    names: LeafNames,
    rule: RuleSelector,
    leaves: Seq<(usize, DuplicateLeaf)>,
    values: Seq<Json>,
)
    ensures
        siblings(tree, overridden_tree(tree, names, rule, leaves, values), names.rules, rule),
    decreases leaves.len(),
{
    lemma_self_siblings(tree, names.rules, rule);
    if leaves.len() > 0 {
        let inner = overridden_tree(tree, names, rule, leaves.drop_last(), values);
        overrides_keep_other_rules(tree, names, rule, leaves.drop_last(), values);
        changed_leaf_keeps_other_rules(
            inner,
            names,
            leaf_place(rule, leaves.last()),
            values[leaves.len() - 1],
        );
        lemma_siblings_chain(
            tree,
            inner,
            overridden_tree(tree, names, rule, leaves, values),
            names.rules,
            rule,
        );
    }
}

/// The names of the leaves are those that the model gives to their own SIDs.
pub proof fn leaf_names_are_those_of_their_sids(model: ModelView, sids: ModelSids)
    requires
        leaf_names(model, sids) is Ok,
    ensures
        ({
            let names = leaf_names(model, sids)->Ok_0;
            &&& rule_key_of(model, sids.root) == Ok::<Seq<char>, Fault>(names.rules.root)
            &&& rule_key_of(model, sids.rule) == Ok::<Seq<char>, Fault>(names.rules.list)
            &&& rule_key_of(model, sids.rule_id_value) == Ok::<Seq<char>, Fault>(names.rules.value)
            &&& rule_key_of(model, sids.rule_id_length) == Ok::<Seq<char>, Fault>(
                names.rules.length,
            )
            &&& rule_key_of(model, sids.entry) == Ok::<Seq<char>, Fault>(names.entry)
            &&& rule_key_of(model, sids.entry_index) == Ok::<Seq<char>, Fault>(names.entry_index)
            &&& rule_key_of(model, sids.target) == Ok::<Seq<char>, Fault>(names.target)
            &&& rule_key_of(model, sids.target_index) == Ok::<Seq<char>, Fault>(names.target_index)
            &&& rule_key_of(model, sids.target_value) == Ok::<Seq<char>, Fault>(names.target_value)
            &&& rule_key_of(model, sids.matching_operator) == Ok::<Seq<char>, Fault>(
                names.matching_operator,
            )
            &&& rule_key_of(model, sids.cda) == Ok::<Seq<char>, Fault>(names.cda)
        }),
{
}

/// Changing a leaf of an entry sets the member of that leaf to the value: the
/// matching operator, the action, or the value of the target with the given
/// index. Every other member of the entry stays, as do its other targets, and
/// an entry with another index stays whole.
pub proof fn changed_entry_holds_the_value(
    entry: Json,
    names: LeafNames,
    place: LeafPlace,
    value: Json,
    other: Seq<char>,
)
    requires
        entry is Object,
    ensures
        ({
            let after = changed_entry(entry, names, place, value);
            let meant = unsigned_member(entry, names.entry_index) == Some(place.entry_index);
            &&& !meant ==> after == entry
            &&& meant && place.leaf == DuplicateLeaf::MatchingOperator ==> {
                &&& member(after, names.matching_operator) == Some(value)
                &&& other != names.matching_operator ==> member(after, other) == member(
                    entry,
                    other,
                )
            }
            &&& meant && place.leaf == DuplicateLeaf::Cda ==> {
                &&& member(after, names.cda) == Some(value)
                &&& other != names.cda ==> member(after, other) == member(entry, other)
            }
            &&& meant && place.leaf == DuplicateLeaf::Target && list_member(entry, names.target)
                is Some ==> {
                let before = list_member(entry, names.target)->0;
                &&& list_member(after, names.target) is Some
                &&& list_member(after, names.target)->0.len() == before.len()
                &&& other != names.target ==> member(after, other) == member(entry, other)
                &&& forall|i: int|
                    #![trigger before[i]]
                    0 <= i < before.len() ==> {
                        let target = list_member(after, names.target)->0[i];
                        if unsigned_member(before[i], names.target_index) == Some(
                            place.target_index,
                        ) {
                            before[i] is Object ==> member(target, names.target_value) == Some(
                                value,
                            )
                        } else {
                            target == before[i]
                        }
                    }
            }
        }),
{
    let members = entry->Object_0;
    lemma_with_member(members, names.matching_operator, value, other);
    lemma_with_member(members, names.cda, value, other);
    if list_member(entry, names.target) is Some {
        let before = list_member(entry, names.target)->0;
        let targets = Seq::new(
            before.len(),
            |i: int| changed_target(before[i], names, place, value),
        );
        lemma_with_member(members, names.target, Json::Array(targets), other);
        lemma_with_member(members, names.target, Json::Array(targets), names.target);
        assert forall|i: int| #![trigger before[i]] 0 <= i < before.len() implies (if unsigned_member(
            before[i],
            names.target_index,
        ) == Some(place.target_index) {
            before[i] is Object ==> member(targets[i], names.target_value) == Some(value)
        } else {
            targets[i] == before[i]
        }) by {
            if before[i] is Object {
                lemma_with_member(
                    before[i]->Object_0,
                    names.target_value,
                    value,
                    names.target_value,
                );
            }
        }
    }
}

/// Changing a leaf changes the entries of the rule with the given value and
/// bit length, each by itself, and leaves every other rule whole. A duplicate
/// operation changes the first target of an entry.
pub proof fn changed_rule_is_the_named_one(
    rule: Json,
    names: LeafNames,
    place: LeafPlace,
    value: Json,
    selector: RuleSelector,
    leaf: (usize, DuplicateLeaf),
)
    requires
        rule is Object,
    ensures
        ({
            let after = changed_rule(rule, names, place, value);
            let named = unsigned_member(rule, names.rules.value) == Some(place.rule.value)
                && unsigned_member(rule, names.rules.length) == Some(place.rule.bits as u64);
            &&& !named ==> after == rule
            &&& named && list_member(rule, names.entry) is Some ==> {
                let before = list_member(rule, names.entry)->0;
                &&& list_member(after, names.entry) is Some
                &&& list_member(after, names.entry)->0.len() == before.len()
                &&& forall|i: int|
                    #![trigger before[i]]
                    0 <= i < before.len() ==> list_member(after, names.entry)->0[i]
                        == changed_entry(before[i], names, place, value)
            }
        }),
        leaf_place(selector, leaf).rule == selector,
        leaf_place(selector, leaf).entry_index == leaf.0,
        leaf_place(selector, leaf).leaf == leaf.1,
        leaf_place(selector, leaf).target_index == 0,
{
    if list_member(rule, names.entry) is Some {
        let before = list_member(rule, names.entry)->0;
        let entries = Seq::new(
            before.len(),
            |i: int| changed_entry(before[i], names, place, value),
        );
        lemma_with_member(rule->Object_0, names.entry, Json::Array(entries), names.entry);
    }
}

/// The names of leaves are found exactly when the model names their nodes.
pub proof fn leaf_names_are_found_when_the_model_has_them(model: ModelView, sids: ModelSids)
    ensures
        leaf_names(model, sids) is Ok <==> {
            &&& rule_names(model, sids) is Ok
            &&& rule_key_of(model, sids.entry) is Ok
            &&& rule_key_of(model, sids.entry_index) is Ok
            &&& rule_key_of(model, sids.target) is Ok
            &&& rule_key_of(model, sids.target_index) is Ok
            &&& rule_key_of(model, sids.target_value) is Ok
            &&& rule_key_of(model, sids.matching_operator) is Ok
            &&& rule_key_of(model, sids.cda) is Ok
        },
{
}

} // verus!
