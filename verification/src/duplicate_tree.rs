//! The tree that a duplicate operation leads to.

use vstd::multiset::Multiset;
use vstd::prelude::*;

use crate::codec::{number_or_zero, order_rules};
use crate::context::{ContextSnapshot, SnapshotView};
use crate::duplicate_command::RuleDuplicateRequest;
use crate::duplicate_operation::instance_leaves;
use crate::error::{duplicate_fault, invalid_duplicate, Fault, InspectionError};
use crate::json::{
    find_member, lemma_json_view, lemma_member_at_is_first, list_view, member, member_at,
    members_view, unsigned_member, Json, JsonValue,
};
use crate::leaf::{leaf_names, overridden_tree, override_tree, resolve_leaves, stored_values};
use crate::path::{
    changed_leaf, duplicate_leaf_from_path, instances_view, DuplicateLeaf, Instance, InstanceView,
};
use crate::policy::protects;
use crate::rule::{find_rule, rule_with_id, Rule, RuleNature, RuleView};
use crate::rule_id::RuleId;
use crate::selector::RuleSelector;
use crate::sid::{
    operation_sids, resolved_sids, rule_key, rule_key_of, validate_duplicate_model_shape,
    ModelSids, ModelView, SidModel,
};
use crate::sort::{ordered_by, sort_by, sorting_orders_and_keeps_items};
use crate::target::{get_list, has_identity, list_member, rules_with_identity};
use crate::text::{decimal, decimal_string, join, join3};

verus! {

/// The names of the parts of a rule list.
pub struct RuleNames {
    /// The root container.
    pub root: Seq<char>,
    /// The rule list.
    pub list: Seq<char>,
    /// The identity value.
    pub value: Seq<char>,
    /// The identity length.
    pub length: Seq<char>,
}

/// The names that a model gives to the parts of a rule list.
pub open spec fn rule_names(model: ModelView, sids: ModelSids) -> Result<RuleNames, Fault> {
    match rule_key_of(model, sids.root) {
        Err(fault) => Err(fault),
        Ok(root) => match rule_key_of(model, sids.rule) {
            Err(fault) => Err(fault),
            Ok(list) => match rule_key_of(model, sids.rule_id_value) {
                Err(fault) => Err(fault),
                Ok(value) => match rule_key_of(model, sids.rule_id_length) {
                    Err(fault) => Err(fault),
                    Ok(length) => Ok(RuleNames { root, list, value, length }),
                },
            },
        },
    }
}

struct RuleKeyNames {
    root: String,
    list: String,
    value: String,
    length: String,
}

impl View for RuleKeyNames {
    type V = RuleNames;

    closed spec fn view(&self) -> RuleNames {
        RuleNames {
            root: self.root@,
            list: self.list@,
            value: self.value@,
            length: self.length@,
        }
    }
}

fn resolve_names(model: &SidModel, sids: &ModelSids) -> (result: Result<
    RuleKeyNames,
    InspectionError,
>)
    ensures
        match result {
            Ok(names) => rule_names(model@, *sids) == Ok::<RuleNames, Fault>(names@),
            Err(error) => rule_names(model@, *sids) == Err::<RuleNames, Fault>(error@),
        },
{
    let root = rule_key(model, sids.root)?;
    let list = rule_key(model, sids.rule)?;
    let value = rule_key(model, sids.rule_id_value)?;
    let length = rule_key(model, sids.rule_id_length)?;
    Ok(RuleKeyNames { root, list, value, length })
}

/// The rules of a tree.
pub open spec fn listed_rules(tree: Json, names: RuleNames) -> Option<Seq<Json>> {
    match member(tree, names.root) {
        Some(root) => list_member(root, names.list),
        None => None,
    }
}

/// The first rule of a tree with an identity.
pub open spec fn named_rule(tree: Json, names: RuleNames, selector: RuleSelector) -> Option<Json> {
    match listed_rules(tree, names) {
        None => None,
        Some(rules) => {
            let found = rules_with_identity(rules, names.value, names.length, selector);
            if found.len() > 0 {
                Some(found[0])
            } else {
                None
            }
        },
    }
}

/// The first rule of a tree with an identity, found by the names of a model.
pub open spec fn tree_rule(tree: Json, model: ModelView, selector: RuleSelector) -> Result<
    Option<Json>,
    Fault,
> {
    match resolved_sids(model) {
        Err(fault) => Err(fault),
        Ok(sids) => match rule_names(model, sids) {
            Err(fault) => Err(fault),
            Ok(names) => Ok(named_rule(tree, names, selector)),
        },
    }
}

fn get_rules<'a>(tree: &'a JsonValue, names: &RuleKeyNames) -> (result: Option<&'a Vec<JsonValue>>)
    ensures
        match result {
            Some(rules) => listed_rules(tree@, names@) == Some(list_view(rules@)),
            None => listed_rules(tree@, names@) is None,
        },
{
    match tree.get(names.root.as_str()) {
        Some(root) => get_list(root, names.list.as_str()),
        None => None,
    }
}

fn identified(rule: &JsonValue, names: &RuleKeyNames, selector: RuleSelector) -> (result: bool)
    ensures
        result == has_identity(rule@, names@.value, names@.length, selector),
{
    rule.get_u64(names.value.as_str()) == Some(selector.value) && rule.get_u64(
        names.length.as_str(),
    ) == Some(selector.bits as u64)
}

proof fn lemma_none_identified(
    rules: Seq<Json>,
    value: Seq<char>,
    length: Seq<char>,
    selector: RuleSelector,
)
    requires
        forall|i: int|
            0 <= i < rules.len() ==> !has_identity(#[trigger] rules[i], value, length, selector),
    ensures
        rules_with_identity(rules, value, length, selector).len() == 0,
    decreases rules.len(),
{
    if rules.len() > 0 {
        lemma_none_identified(rules.drop_last(), value, length, selector);
    }
}

proof fn lemma_first_identified(
    rules: Seq<Json>,
    value: Seq<char>,
    length: Seq<char>,
    selector: RuleSelector,
    at: int,
)
    requires
        0 <= at < rules.len(),
        has_identity(rules[at], value, length, selector),
        forall|i: int|
            0 <= i < at ==> !has_identity(#[trigger] rules[i], value, length, selector),
    ensures
        rules_with_identity(rules, value, length, selector).len() > 0,
        rules_with_identity(rules, value, length, selector)[0] == rules[at],
    decreases rules.len(),
{
    if at == rules.len() - 1 {
        lemma_none_identified(rules.drop_last(), value, length, selector);
    } else {
        lemma_first_identified(rules.drop_last(), value, length, selector, at);
    }
}

fn find_named_rule<'a>(tree: &'a JsonValue, names: &RuleKeyNames, selector: RuleSelector) -> (result:
    Option<&'a JsonValue>)
    ensures
        match result {
            Some(rule) => named_rule(tree@, names@, selector) == Some(rule@),
            None => named_rule(tree@, names@, selector) is None,
        },
{
    let rules = match get_rules(tree, names) {
        Some(rules) => rules,
        None => {
            return None;
        },
    };
    let ghost view = list_view(rules@);
    let mut index: usize = 0;
    while index < rules.len()
        invariant
            index <= rules@.len(),
            view == list_view(rules@),
            listed_rules(tree@, names@) == Some(view),
            forall|i: int|
                0 <= i < index ==> !has_identity(
                    #[trigger] view[i],
                    names@.value,
                    names@.length,
                    selector,
                ),
        decreases rules.len() - index,
    {
        assert(view[index as int] == rules@[index as int]@);
        if identified(&rules[index], names, selector) {
            proof {
                lemma_first_identified(
                    view,
                    names@.value,
                    names@.length,
                    selector,
                    index as int,
                );
            }
            return Some(&rules[index]);
        }
        index += 1;
    }
    proof {
        lemma_none_identified(view, names@.value, names@.length, selector);
    }
    None
}

/// Finds the first rule of a tree with an identity.
pub fn find_tree_rule<'a>(tree: &'a JsonValue, model: &SidModel, selector: RuleSelector) -> (result:
    Result<Option<&'a JsonValue>, InspectionError>)
    ensures
        match result {
            Ok(Some(rule)) => tree_rule(tree@, model@, selector) == Ok::<Option<Json>, Fault>(
                Some(rule@),
            ),
            Ok(None) => tree_rule(tree@, model@, selector) == Ok::<Option<Json>, Fault>(None),
            Err(error) => tree_rule(tree@, model@, selector) == Err::<Option<Json>, Fault>(error@),
        },
{
    let sids = ModelSids::resolve(model)?;
    let names = resolve_names(model, &sids)?;
    Ok(find_named_rule(tree, &names, selector))
}

/// Members with one of them replaced, or added where it is missing.
pub open spec fn with_member(
    members: Seq<(Seq<char>, Json)>,
    name: Seq<char>,
    value: Json,
) -> Seq<(Seq<char>, Json)> {
    let at = member_at(members, name);
    if at < members.len() {
        members.update(at as int, (name, value))
    } else {
        members.push((name, value))
    }
}

/// An object with a member replaced, or added where it is missing.
pub open spec fn with_named(value: Json, name: Seq<char>, held: Json) -> Json {
    match value {
        Json::Object(members) => Json::Object(with_member(members, name, held)),
        _ => value,
    }
}

pub proof fn lemma_with_member(
    members: Seq<(Seq<char>, Json)>,
    name: Seq<char>,
    value: Json,
    other: Seq<char>,
)
    ensures
        member(Json::Object(with_member(members, name, value)), name) == Some(value),
        other != name ==> member(Json::Object(with_member(members, name, value)), other) == member(
            Json::Object(members),
            other,
        ),
{
    let changed = with_member(members, name, value);
    let at = member_at(members, name);
    lemma_member_at_is_first(members, name);
    lemma_member_at_is_first(members, other);
    lemma_member_at_is_first(changed, name);
    lemma_member_at_is_first(changed, other);
    let there = member_at(changed, name);
    if at < members.len() {
        assert(changed[at as int].0 == name);
        if there < at {
            assert(changed[there as int] == members[there as int]);
        }
        assert(there == at);
        if other != name {
            let before = member_at(members, other);
            let after = member_at(changed, other);
            if before < members.len() {
                assert(changed[before as int] == members[before as int]);
                if after < before {
                    assert(changed[after as int] == members[after as int]);
                }
                assert(after == before);
            } else if after < changed.len() {
                assert(changed[after as int] == members[after as int]);
            }
        }
    } else {
        assert(changed[members.len() as int] == (name, value));
        if there < members.len() {
            assert(changed[there as int] == members[there as int]);
        }
        if other != name {
            let before = member_at(members, other);
            let after = member_at(changed, other);
            if before < members.len() {
                assert(changed[before as int] == members[before as int]);
                if after < before {
                    assert(changed[after as int] == members[after as int]);
                }
            } else if after < members.len() {
                assert(changed[after as int] == members[after as int]);
            }
        }
    }
}

/// Replaces a member of an object, or adds it where it is missing.
pub(crate) fn replace_member(value: JsonValue, name: &str, held: JsonValue) -> (result: JsonValue)
    ensures
        result@ == with_named(value@, name@, held@),
{
    proof {
        lemma_json_view(value);
    }
    match value {
        JsonValue::Object(members) => {
            let mut members = members;
            let ghost before = members_view(members@);
            let at: usize = find_member(&members, name);
            proof {
                lemma_member_at_is_first(before, name@);
            }
            if at < members.len() {
                members.set(at, (name.to_owned(), held));
                assert(members_view(members@) =~= before.update(at as int, (name@, held@)));
            } else {
                members.push((name.to_owned(), held));
                assert(members_view(members@) =~= before.push((name@, held@)));
            }
            let changed = JsonValue::Object(members);
            proof {
                lemma_json_view(changed);
            }
            changed
        },
        other => other,
    }
}

/// A rule with another identity.
pub open spec fn renamed_rule(rule: Json, names: RuleNames, destination: RuleSelector) -> Json {
    with_named(
        with_named(rule, names.value, Json::Integer(destination.value as int)),
        names.length,
        Json::Integer(destination.bits as int),
    )
}

/// The rules that do not have an identity, in their order.
pub open spec fn rules_without_identity(
    rules: Seq<Json>,
    names: RuleNames,
    selector: RuleSelector,
) -> Seq<Json>
    decreases rules.len(),
{
    if rules.len() == 0 {
        Seq::empty()
    } else if has_identity(rules.last(), names.value, names.length, selector) {
        rules_without_identity(rules.drop_last(), names, selector)
    } else {
        rules_without_identity(rules.drop_last(), names, selector).push(rules.last())
    }
}

/// The order of rules in a tree: length first, then value.
pub open spec fn identity_order(names: RuleNames) -> spec_fn(Json) -> (int, int) {
    |rule: Json| (number_or_zero(rule, names.length), number_or_zero(rule, names.value))
}

/// The rules of a tree once a copy of a rule stands at a destination.
pub open spec fn rules_with_copy(
    rules: Seq<Json>,
    names: RuleNames,
    source: Json,
    destination: RuleSelector,
) -> Seq<Json> {
    sort_by(
        rules_without_identity(rules, names, destination).push(
            renamed_rule(source, names, destination),
        ),
        identity_order(names),
    )
}

/// A tree with another rule list.
pub open spec fn with_rules(tree: Json, names: RuleNames, rules: Seq<Json>) -> Json {
    with_named(
        tree,
        names.root,
        with_named(member(tree, names.root)->0, names.list, Json::Array(rules)),
    )
}

proof fn lemma_without_identity(rules: Seq<Json>, names: RuleNames, selector: RuleSelector)
    ensures
        forall|rule: Json| #[trigger]
            rules_without_identity(rules, names, selector).to_multiset().count(rule) == if has_identity(
                rule,
                names.value,
                names.length,
                selector,
            ) {
                0
            } else {
                rules.to_multiset().count(rule)
            },
    decreases rules.len(),
{
    broadcast use vstd::seq_lib::group_to_multiset_ensures;

    let left = rules_without_identity(rules, names, selector);
    if rules.len() == 0 {
        assert(rules.to_multiset() =~= Multiset::empty());
        assert(left.to_multiset() =~= Multiset::empty());
    } else {
        lemma_without_identity(rules.drop_last(), names, selector);
        let before = rules_without_identity(rules.drop_last(), names, selector);
        assert(rules.drop_last().push(rules.last()) =~= rules);
        assert(rules.to_multiset() =~= rules.drop_last().to_multiset().insert(rules.last()));
        assert forall|rule: Json| #[trigger]
            left.to_multiset().count(rule) == if has_identity(
                rule,
                names.value,
                names.length,
                selector,
            ) {
                0
            } else {
                rules.to_multiset().count(rule)
            } by {
            assert(before.to_multiset().count(rule) == if has_identity(
                rule,
                names.value,
                names.length,
                selector,
            ) {
                0
            } else {
                rules.drop_last().to_multiset().count(rule)
            });
            if !has_identity(rules.last(), names.value, names.length, selector) {
                assert(left.to_multiset() =~= before.to_multiset().insert(rules.last()));
            }
        }
    }
}

/// A duplicate operation puts exactly one rule at its destination, a copy of
/// the source that differs from it in its identity alone, and keeps every
/// other rule. The rules stand in the order of their identities.
pub proof fn duplicating_keeps_other_rules(
    rules: Seq<Json>,
    names: RuleNames,
    source: Json,
    destination: RuleSelector,
)
    requires
        source is Object,
        names.value != names.length,
    ensures
        ({
            let copy = renamed_rule(source, names, destination);
            let after = rules_with_copy(rules, names, source, destination);
            &&& has_identity(copy, names.value, names.length, destination)
            &&& ordered_by(after, identity_order(names))
            &&& forall|name: Seq<char>|
                name != names.value && name != names.length ==> #[trigger] member(copy, name)
                    == member(source, name)
            &&& forall|rule: Json|
                #![trigger after.to_multiset().count(rule)]
                if has_identity(rule, names.value, names.length, destination) {
                    after.to_multiset().count(rule) == if rule == copy {
                        1nat
                    } else {
                        0nat
                    }
                } else {
                    after.to_multiset().count(rule) == rules.to_multiset().count(rule)
                }
        }),
{
    broadcast use vstd::seq_lib::group_to_multiset_ensures;

    let copy = renamed_rule(source, names, destination);
    let after = rules_with_copy(rules, names, source, destination);
    let kept = rules_without_identity(rules, names, destination);
    let members = source->Object_0;
    let number = Json::Integer(destination.value as int);
    let length = Json::Integer(destination.bits as int);
    let first = with_member(members, names.value, number);
    lemma_with_member(members, names.value, number, names.length);
    lemma_with_member(first, names.length, length, names.value);
    assert forall|name: Seq<char>|
        name != names.value && name != names.length implies #[trigger] member(copy, name) == member(
        source,
        name,
    ) by {
        lemma_with_member(members, names.value, number, name);
        lemma_with_member(first, names.length, length, name);
    }
    lemma_without_identity(rules, names, destination);
    sorting_orders_and_keeps_items(kept.push(copy), identity_order(names));
    assert(after.to_multiset() == kept.push(copy).to_multiset());
    assert(kept.push(copy).to_multiset() =~= kept.to_multiset().insert(copy));
    assert forall|rule: Json|
        #![trigger after.to_multiset().count(rule)]
        if has_identity(rule, names.value, names.length, destination) {
            after.to_multiset().count(rule) == if rule == copy {
                1nat
            } else {
                0nat
            }
        } else {
            after.to_multiset().count(rule) == rules.to_multiset().count(rule)
        } by {
        assert(kept.to_multiset().count(rule) == if has_identity(
            rule,
            names.value,
            names.length,
            destination,
        ) {
            0
        } else {
            rules.to_multiset().count(rule)
        });
    }
}

/// The source of a duplicate operation in tree and snapshot, and the SIDs of
/// the model.
pub struct SourceView {
    /// SIDs of the model.
    pub sids: ModelSids,
    /// The rule in the tree.
    pub rule: Json,
    /// The typed rule.
    pub typed: RuleView,
}

/// The source of a duplicate operation, or why the operation is refused.
pub open spec fn duplicate_source(
    model: ModelView,
    snapshot: SnapshotView,
    source: RuleSelector,
    destination: RuleSelector,
    absent: Seq<char>,
) -> Result<SourceView, Fault> {
    match operation_sids(model) {
        Err(fault) => Err(fault),
        Ok(sids) => match tree_rule(snapshot.data.tree, model, source) {
            Err(fault) => Err(fault),
            Ok(None) => Err(Fault::MissingRule(source.value, source.bits)),
            Ok(Some(rule)) => match rule_with_id(snapshot.data.rules, source.id()) {
                None => Err(duplicate_fault(absent)),
                Some(typed) => if typed.nature == RuleNature::Management || protects(
                    snapshot.data.protected,
                    source.id(),
                ) {
                    Err(duplicate_fault("source RuleID is protected or management"@))
                } else if protects(snapshot.data.protected, destination.id()) {
                    Err(duplicate_fault("destination RuleID is protected"@))
                } else {
                    Ok(SourceView { sids, rule, typed })
                },
            },
        },
    }
}

/// The source of a duplicate operation.
pub(crate) struct Source<'a> {
    pub(crate) sids: ModelSids,
    pub(crate) rule: &'a JsonValue,
    pub(crate) typed: &'a Rule,
}

impl<'a> View for Source<'a> {
    type V = SourceView;

    open(crate) spec fn view(&self) -> SourceView {
        SourceView { sids: self.sids, rule: self.rule@, typed: self.typed@ }
    }
}

/// Finds the source of a duplicate operation.
pub(crate) fn find_source<'a>(
    model: &SidModel,
    snapshot: &'a ContextSnapshot,
    source: RuleSelector,
    destination: RuleSelector,
    absent: &str,
) -> (result: Result<Source<'a>, InspectionError>)
    ensures
        match result {
            Ok(found) => {
                &&& duplicate_source(model@, snapshot@, source, destination, absent@) == Ok::<
                    SourceView,
                    Fault,
                >(found@)
                &&& resolved_sids(model@) == Ok::<ModelSids, Fault>(found.sids)
                &&& model@.well_formed() ==> found.sids.well_formed()
            },
            Err(error) => duplicate_source(model@, snapshot@, source, destination, absent@)
                == Err::<SourceView, Fault>(error@),
        },
{
    let sids = validate_duplicate_model_shape(model)?;
    let rule = match find_tree_rule(&snapshot.data.tree, model, source)? {
        Some(rule) => rule,
        None => {
            return Err(InspectionError::MissingRule { value: source.value, bits: source.bits });
        },
    };
    let typed = match find_rule(&snapshot.data.rules, source.rule_id()) {
        Some(typed) => typed,
        None => {
            return Err(invalid_duplicate(absent));
        },
    };
    if typed.nature == RuleNature::Management || snapshot.data.protected.contains(
        source.rule_id(),
    ) {
        return Err(invalid_duplicate("source RuleID is protected or management"));
    }
    if snapshot.data.protected.contains(destination.rule_id()) {
        return Err(invalid_duplicate("destination RuleID is protected"));
    }
    Ok(Source { sids, rule, typed })
}

/// The tree with the copied rule, before any of its leaves is changed.
pub open spec fn candidate_of(
    model: ModelView,
    snapshot: SnapshotView,
    source: RuleSelector,
    destination: RuleSelector,
) -> Result<(ModelSids, Json), Fault> {
    match duplicate_source(
        model,
        snapshot,
        source,
        destination,
        "source rule is absent from the typed snapshot"@,
    ) {
        Err(fault) => Err(fault),
        Ok(found) => if source == destination {
            Err(duplicate_fault("source and destination RuleIDs must differ"@))
        } else {
            match rule_names(model, found.sids) {
                Err(fault) => Err(fault),
                Ok(names) => match listed_rules(snapshot.data.tree, names) {
                    None => Err(duplicate_fault("active tree is missing the rule list"@)),
                    Some(rules) => Ok(
                        (
                            found.sids,
                            with_rules(
                                snapshot.data.tree,
                                names,
                                rules_with_copy(rules, names, found.rule, destination),
                            ),
                        ),
                    ),
                },
            }
        },
    }
}

fn copy_rules(rules: &Vec<JsonValue>, names: &RuleKeyNames, source: &JsonValue, destination: RuleSelector) -> (result:
    Vec<JsonValue>)
    ensures
        list_view(result@) == rules_with_copy(list_view(rules@), names@, source@, destination),
{
    let ghost view = list_view(rules@);
    let mut kept: Vec<JsonValue> = Vec::new();
    let mut index: usize = 0;
    proof {
        assert(list_view(kept@) =~= rules_without_identity(view.take(0), names@, destination));
    }
    while index < rules.len()
        invariant
            index <= rules@.len(),
            view == list_view(rules@),
            list_view(kept@) == rules_without_identity(
                view.take(index as int),
                names@,
                destination,
            ),
        decreases rules.len() - index,
    {
        proof {
            assert(view.take(index + 1).drop_last() =~= view.take(index as int));
            assert(view.take(index + 1).last() == rules@[index as int]@);
        }
        if !identified(&rules[index], names, destination) {
            let ghost before = list_view(kept@);
            let rule = rules[index].copy();
            kept.push(rule);
            assert(list_view(kept@) =~= before.push(rule@));
        }
        index += 1;
    }
    assert(view.take(view.len() as int) =~= view);
    let renamed = replace_member(
        replace_member(
            source.copy(),
            names.value.as_str(),
            JsonValue::Integer(destination.value as i128),
        ),
        names.length.as_str(),
        JsonValue::Integer(destination.bits as i128),
    );
    let ghost before = list_view(kept@);
    kept.push(renamed);
    assert(list_view(kept@) =~= before.push(renamed@));
    order_rules(
        &kept,
        names.length.as_str(),
        names.value.as_str(),
        Ghost(identity_order(names@)),
    )
}

/// Builds the tree with the copied rule, before any of its leaves is changed.
pub fn candidate_tree(
    model: &SidModel,
    snapshot: &ContextSnapshot,
    source: RuleSelector,
    destination: RuleSelector,
) -> (result: Result<(ModelSids, JsonValue), InspectionError>)
    ensures
        match result {
            Ok((sids, tree)) => candidate_of(model@, snapshot@, source, destination) == Ok::<
                (ModelSids, Json),
                Fault,
            >((sids, tree@)),
            Err(error) => candidate_of(model@, snapshot@, source, destination) == Err::<
                (ModelSids, Json),
                Fault,
            >(error@),
        },
{
    let found = find_source(
        model,
        snapshot,
        source,
        destination,
        "source rule is absent from the typed snapshot",
    )?;
    if source == destination {
        return Err(invalid_duplicate("source and destination RuleIDs must differ"));
    }
    let names = resolve_names(model, &found.sids)?;
    let tree = &snapshot.data.tree;
    let root = match tree.get(names.root.as_str()) {
        Some(root) => root,
        None => {
            return Err(invalid_duplicate("active tree is missing the rule list"));
        },
    };
    let rules = match get_list(root, names.list.as_str()) {
        Some(rules) => rules,
        None => {
            return Err(invalid_duplicate("active tree is missing the rule list"));
        },
    };
    let copied = JsonValue::Array(copy_rules(rules, &names, found.rule, destination));
    proof {
        lemma_json_view(copied);
    }
    let changed_root = replace_member(root.copy(), names.list.as_str(), copied);
    let changed = replace_member(tree.copy(), names.root.as_str(), changed_root);
    Ok((found.sids, changed))
}

/// What the model libraries answered while a duplicate was built.
#[derive(Debug)]
pub struct TreeAnswers {
    /// Whether a datastore accepts the tree with the copied rule.
    pub datastore: Result<(), String>,
    /// What the datastore holds at the leaf of each change once it accepted it.
    pub changes: Vec<Result<JsonValue, String>>,
    /// The tree that the datastore held after the last change.
    pub tree: JsonValue,
}

/// Whether an earlier change is about the same leaf.
pub open spec fn leaf_taken(
    instances: Seq<InstanceView>,
    count: int,
    destination: RuleSelector,
    sids: ModelSids,
    found: (usize, DuplicateLeaf),
) -> bool {
    exists|i: int|
        0 <= i < count && changed_leaf((#[trigger] instances[i]).path, destination, sids) == Ok::<
            (usize, DuplicateLeaf),
            Fault,
        >(found)
}

/// Why one change is refused.
pub open spec fn change_fault(
    instances: Seq<InstanceView>,
    at: int,
    destination: RuleSelector,
    sids: ModelSids,
    answer: Result<JsonValue, String>,
) -> Option<Fault> {
    match changed_leaf(instances[at].path, destination, sids) {
        Err(fault) => Some(fault),
        Ok(found) => if leaf_taken(instances, at, destination, sids, found) {
            Some(
                duplicate_fault(
                    "duplicate override for entry "@ + decimal(found.0 as nat) + " leaf "@
                        + found.1.named(),
                ),
            )
        } else if instances[at].value is None {
            Some(duplicate_fault("override values cannot delete leaves"@))
        } else {
            match answer {
                Err(text) => Some(duplicate_fault(text@)),
                Ok(_) => None,
            }
        },
    }
}

/// Why the first of some changes is refused that is.
pub open spec fn changes_fault(
    instances: Seq<InstanceView>,
    count: nat,
    destination: RuleSelector,
    sids: ModelSids,
    answers: Seq<Result<JsonValue, String>>,
) -> Option<Fault>
    decreases count,
{
    if count == 0 {
        None
    } else {
        match changes_fault(instances, (count - 1) as nat, destination, sids, answers) {
            Some(fault) => Some(fault),
            None => change_fault(instances, count - 1, destination, sids, answers[count - 1]),
        }
    }
}

proof fn lemma_change_fault_stays(
    instances: Seq<InstanceView>,
    count: nat,
    more: nat,
    destination: RuleSelector,
    sids: ModelSids,
    answers: Seq<Result<JsonValue, String>>,
)
    requires
        count <= more,
        changes_fault(instances, count, destination, sids, answers) is Some,
    ensures
        changes_fault(instances, more, destination, sids, answers) == changes_fault(
            instances,
            count,
            destination,
            sids,
            answers,
        ),
    decreases more,
{
    if count < more {
        lemma_change_fault_stays(instances, count, (more - 1) as nat, destination, sids, answers);
    }
}

fn already_changed(seen: &Vec<(usize, DuplicateLeaf)>, found: (usize, DuplicateLeaf)) -> (result:
    bool)
    ensures
        result == seen@.contains(found),
{
    let mut index: usize = 0;
    while index < seen.len()
        invariant
            index <= seen@.len(),
            forall|i: int| 0 <= i < index ==> seen@[i] != found,
        decreases seen.len() - index,
    {
        if seen[index].0 == found.0 && seen[index].1 == found.1 {
            assert(seen@[index as int] == found);
            return true;
        }
        index += 1;
    }
    false
}

fn check_changes(
    instances: &Vec<Instance>,
    destination: RuleSelector,
    sids: &ModelSids,
    answers: &Vec<Result<JsonValue, String>>,
) -> (result: Result<Vec<(usize, DuplicateLeaf)>, InspectionError>)
    requires
        answers@.len() == instances@.len(),
    ensures
        ({
            let view = instances_view(instances@);
            let fault = changes_fault(view, view.len(), destination, *sids, answers@);
            match result {
                Ok(leaves) => {
                    &&& fault is None
                    &&& leaves@ == instance_leaves(view, destination, *sids)
                    &&& forall|i: int| 0 <= i < answers@.len() ==> (#[trigger] answers@[i]) is Ok
                },
                Err(error) => fault == Some(error@),
            }
        }),
{
    let ghost view = instances_view(instances@);
    let mut seen: Vec<(usize, DuplicateLeaf)> = Vec::new();
    let mut index: usize = 0;
    while index < instances.len()
        invariant
            index <= instances@.len(),
            answers@.len() == instances@.len(),
            view == instances_view(instances@),
            seen@.len() == index,
            forall|i: int| 0 <= i < index ==> (#[trigger] answers@[i]) is Ok,
            forall|i: int|
                0 <= i < index ==> changed_leaf((#[trigger] view[i]).path, destination, *sids)
                    == Ok::<(usize, DuplicateLeaf), Fault>(seen@[i]),
            changes_fault(view, index as nat, destination, *sids, answers@) is None,
        decreases instances.len() - index,
    {
        assert(view[index as int] == instances@[index as int]@);
        let ghost step = change_fault(
            view,
            index as int,
            destination,
            *sids,
            answers@[index as int],
        );
        proof {
            assert(changes_fault(view, (index + 1) as nat, destination, *sids, answers@) == step);
            if step is Some {
                lemma_change_fault_stays(
                    view,
                    (index + 1) as nat,
                    view.len(),
                    destination,
                    *sids,
                    answers@,
                );
            }
        }
        let found = duplicate_leaf_from_path(&instances[index].path, destination, sids)?;
        let taken = already_changed(&seen, found);
        proof {
            assert(taken == leaf_taken(view, index as int, destination, *sids, found)) by {
                if taken {
                    let at = choose|i: int| 0 <= i < seen@.len() && seen@[i] == found;
                    assert(changed_leaf(view[at].path, destination, *sids) == Ok::<
                        (usize, DuplicateLeaf),
                        Fault,
                    >(seen@[at]));
                }
                if leaf_taken(view, index as int, destination, *sids, found) {
                    let at = choose|i: int|
                        0 <= i < index && changed_leaf(
                            (#[trigger] view[i]).path,
                            destination,
                            *sids,
                        ) == Ok::<(usize, DuplicateLeaf), Fault>(found);
                    assert(seen@[at] == found);
                }
            }
        }
        if taken {
            let head = join3(
                "duplicate override for entry ",
                decimal_string(found.0 as u64).as_str(),
                " leaf ",
            );
            return Err(invalid_duplicate(join(head.as_str(), found.1.name()).as_str()));
        }
        if instances[index].value.is_none() {
            return Err(invalid_duplicate("override values cannot delete leaves"));
        }
        match &answers[index] {
            Err(text) => {
                return Err(invalid_duplicate(text.as_str()));
            },
            Ok(_) => {},
        }
        seen.push(found);
        index += 1;
    }
    assert(seen@ =~= instance_leaves(view, destination, *sids));
    Ok(seen)
}

/// The tree that a duplicate operation leads to, or why it is refused.
pub open spec fn expected_tree(
    model: ModelView,
    snapshot: SnapshotView,
    source: RuleSelector,
    destination: RuleSelector,
    instances: Seq<InstanceView>,
    answers: TreeAnswers,
) -> Result<Json, Fault> {
    match candidate_of(model, snapshot, source, destination) {
        Err(fault) => Err(fault),
        Ok((sids, candidate)) => match answers.datastore {
            Err(text) => Err(duplicate_fault("candidate tree is invalid: "@ + text@)),
            Ok(_) => match changes_fault(
                instances,
                instances.len(),
                destination,
                sids,
                answers.changes@,
            ) {
                Some(fault) => Err(fault),
                None => match leaf_names(model, sids) {
                    Err(fault) => Err(fault),
                    Ok(names) => if answers.tree@ == overridden_tree(
                        candidate,
                        names,
                        destination,
                        instance_leaves(instances, destination, sids),
                        stored_values(answers.changes@),
                    ) {
                        Ok(answers.tree@)
                    } else {
                        Err(duplicate_fault("candidate tree differs beyond its overrides"@))
                    },
                },
            },
        },
    }
}

/// Builds the tree that a duplicate operation leads to.
///
/// `answers` are those of the datastore that holds the tree of
/// `candidate_tree` and is given each change in turn. What it holds in the end
/// is accepted only when it is that tree with the leaf of each change set to
/// the value that the datastore stored for it.
pub fn expected_duplicate_tree(
    model: &SidModel,
    snapshot: &ContextSnapshot,
    request: &RuleDuplicateRequest,
    instances: &Vec<Instance>,
    answers: &TreeAnswers,
) -> (result: Result<JsonValue, InspectionError>)
    requires
        answers.changes@.len() == instances@.len(),
    ensures
        ({
            let outcome = expected_tree(
                model@,
                snapshot@,
                request@.source,
                request@.destination,
                instances_view(instances@),
                *answers,
            );
            match result {
                Ok(tree) => outcome == Ok::<Json, Fault>(tree@),
                Err(error) => outcome == Err::<Json, Fault>(error@),
            }
        }),
{
    let (sids, candidate) = candidate_tree(model, snapshot, request.source, request.destination)?;
    if let Err(text) = &answers.datastore {
        return Err(
            invalid_duplicate(join("candidate tree is invalid: ", text.as_str()).as_str()),
        );
    }
    let leaves = check_changes(instances, request.destination, &sids, &answers.changes)?;
    let names = resolve_leaves(model, &sids)?;
    let expected = override_tree(
        &candidate,
        &names,
        request.destination,
        &leaves,
        &answers.changes,
    );
    if !answers.tree.same(&expected) {
        return Err(invalid_duplicate("candidate tree differs beyond its overrides"));
    }
    Ok(answers.tree.copy())
}

/// The copy of a rule has the value of the destination under the name of
/// values and its bit length under the name of lengths. The rules of a tree
/// with a copy stand by length first and by value second.
pub proof fn copies_are_named_and_ordered(
    rules: Seq<Json>,
    names: RuleNames,
    source: Json,
    destination: RuleSelector,
    i: int,
    j: int,
)
    requires
        source is Object,
        names.value != names.length,
        0 <= i <= j < rules_with_copy(rules, names, source, destination).len(),
    ensures
        member(renamed_rule(source, names, destination), names.value) == Some(
            Json::Integer(destination.value as int),
        ),
        member(renamed_rule(source, names, destination), names.length) == Some(
            Json::Integer(destination.bits as int),
        ),
        ({
            let after = rules_with_copy(rules, names, source, destination);
            let left = (
                number_or_zero(after[i], names.length),
                number_or_zero(after[i], names.value),
            );
            let right = (
                number_or_zero(after[j], names.length),
                number_or_zero(after[j], names.value),
            );
            left.0 < right.0 || (left.0 == right.0 && left.1 <= right.1)
        }),
{
    let members = source->Object_0;
    let number = Json::Integer(destination.value as int);
    let length = Json::Integer(destination.bits as int);
    let first = with_member(members, names.value, number);
    lemma_with_member(members, names.value, number, names.length);
    lemma_with_member(first, names.length, length, names.value);
    let kept = rules_without_identity(rules, names, destination);
    let all = kept.push(renamed_rule(source, names, destination));
    sorting_orders_and_keeps_items(all, identity_order(names));
    let after = rules_with_copy(rules, names, source, destination);
    assert(identity_order(names)(after[i]) == (
        number_or_zero(after[i], names.length),
        number_or_zero(after[i], names.value),
    ));
    assert(identity_order(names)(after[j]) == (
        number_or_zero(after[j], names.length),
        number_or_zero(after[j], names.value),
    ));
}

/// Only an ordinary rule that tree and typed rules hold is the source of an
/// operation; neither it nor the destination is protected, and the two differ.
pub proof fn accepted_source_is_an_ordinary_rule(
    model: ModelView,
    snapshot: SnapshotView,
    source: RuleSelector,
    destination: RuleSelector,
)
    requires
        candidate_of(model, snapshot, source, destination) is Ok,
    ensures
        ({
            let from = RuleId { value: source.value, bit_len: source.bits };
            let to = RuleId { value: destination.value, bit_len: destination.bits };
            &&& source != destination
            &&& rule_with_id(snapshot.data.rules, from) is Some
            &&& rule_with_id(snapshot.data.rules, from)->0.nature != RuleNature::Management
            &&& !protects(snapshot.data.protected, from)
            &&& !protects(snapshot.data.protected, to)
            &&& tree_rule(snapshot.data.tree, model, source) matches Ok(Some(_))
        }),
{
}

/// Accepted changes name a leaf of the destination each, no leaf twice, and
/// delete none.
pub proof fn accepted_changes_are_distinct(
    instances: Seq<InstanceView>,
    count: nat,
    destination: RuleSelector,
    sids: ModelSids,
    answers: Seq<Result<JsonValue, String>>,
    first: int,
    second: int,
)
    requires
        changes_fault(instances, count, destination, sids, answers) is None,
        0 <= first < second < count,
    ensures
        changed_leaf(instances[first].path, destination, sids) is Ok,
        changed_leaf(instances[second].path, destination, sids) is Ok,
        changed_leaf(instances[first].path, destination, sids)->Ok_0 != changed_leaf(
            instances[second].path,
            destination,
            sids,
        )->Ok_0,
        instances[first].value is Some,
        instances[second].value is Some,
        answers[first] is Ok,
        answers[second] is Ok,
    decreases count,
{
    if second < count - 1 {
        accepted_changes_are_distinct(
            instances,
            (count - 1) as nat,
            destination,
            sids,
            answers,
            first,
            second,
        );
    } else {
        lemma_accepted_change(instances, second as nat, destination, sids, answers, first);
        let found = changed_leaf(instances[second].path, destination, sids)->Ok_0;
        if changed_leaf(instances[first].path, destination, sids)->Ok_0 == found {
            assert(leaf_taken(instances, second, destination, sids, found));
        }
    }
}

proof fn lemma_accepted_change(
    instances: Seq<InstanceView>,
    count: nat,
    destination: RuleSelector,
    sids: ModelSids,
    answers: Seq<Result<JsonValue, String>>,
    at: int,
)
    requires
        changes_fault(instances, count, destination, sids, answers) is None,
        0 <= at < count,
    ensures
        changed_leaf(instances[at].path, destination, sids) is Ok,
        instances[at].value is Some,
        answers[at] is Ok,
    decreases count,
{
    if at < count - 1 {
        lemma_accepted_change(instances, (count - 1) as nat, destination, sids, answers, at);
    }
}

/// A candidate is built exactly for two different identities, from a source
/// that may be copied, in a tree with a rule list.
pub proof fn candidate_is_built_for_another_identity(
    model: ModelView,
    snapshot: SnapshotView,
    source: RuleSelector,
    destination: RuleSelector,
)
    ensures
        candidate_of(model, snapshot, source, destination) is Ok <==> {
            let found = duplicate_source(
                model,
                snapshot,
                source,
                destination,
                "source rule is absent from the typed snapshot"@,
            );
            let names = rule_names(model, found->Ok_0.sids);
            &&& found is Ok
            &&& source != destination
            &&& names is Ok
            &&& listed_rules(snapshot.data.tree, names->Ok_0) is Some
        },
{
}

/// The names under which a tree holds its rules are those of the root, the
/// rule list, and the value and the length of an identity, and they are found
/// where the model names all four.
pub proof fn rule_names_are_those_of_their_nodes(model: ModelView, sids: ModelSids)
    ensures
        rule_names(model, sids) is Ok <==> rule_key_of(model, sids.root) is Ok && rule_key_of(
            model,
            sids.rule,
        ) is Ok && rule_key_of(model, sids.rule_id_value) is Ok && rule_key_of(
            model,
            sids.rule_id_length,
        ) is Ok,
        rule_names(model, sids) matches Ok(names) ==> rule_key_of(model, sids.root) == Ok::<
            Seq<char>,
            Fault,
        >(names.root) && rule_key_of(model, sids.rule) == Ok::<Seq<char>, Fault>(names.list)
            && rule_key_of(model, sids.rule_id_value) == Ok::<Seq<char>, Fault>(names.value)
            && rule_key_of(model, sids.rule_id_length) == Ok::<Seq<char>, Fault>(names.length),
{
}

/// The tree of a duplicate operation is its candidate with the requested leaves
/// changed; any other tree is refused, and so is one without a candidate, a
/// valid datastore or valid changes.
pub proof fn expected_tree_is_the_changed_candidate(
    model: ModelView,
    snapshot: SnapshotView,
    source: RuleSelector,
    destination: RuleSelector,
    instances: Seq<InstanceView>,
    answers: TreeAnswers,
)
    ensures
        expected_tree(model, snapshot, source, destination, instances, answers) is Ok <==> {
            let found = candidate_of(model, snapshot, source, destination);
            let sids = (found->Ok_0).0;
            let names = leaf_names(model, sids);
            &&& found is Ok
            &&& answers.datastore is Ok
            &&& changes_fault(
                instances,
                instances.len(),
                destination,
                sids,
                answers.changes@,
            ) is None
            &&& names is Ok
            &&& answers.tree@ == overridden_tree(
                (found->Ok_0).1,
                names->Ok_0,
                destination,
                instance_leaves(instances, destination, sids),
                stored_values(answers.changes@),
            )
        },
        expected_tree(model, snapshot, source, destination, instances, answers) matches Ok(tree)
            ==> tree == answers.tree@,
{
}

/// A selector names a rule exactly where some rule of the tree has its value and
/// its bit length, and the rule that it names has them.
pub proof fn named_rule_has_the_identity(
    tree: Json,
    names: RuleNames,
    selector: RuleSelector,
    at: int,
)
    ensures
        ({
            let rules = listed_rules(tree, names)->0;
            let same = |rule: Json|
                unsigned_member(rule, names.value) == Some(selector.value) && unsigned_member(
                    rule,
                    names.length,
                ) == Some(selector.bits as u64);
            &&& named_rule(tree, names, selector) matches Some(rule) ==> listed_rules(tree, names)
                is Some && rules.contains(rule) && same(rule)
            &&& listed_rules(tree, names) is Some && 0 <= at < rules.len() && same(rules[at])
                ==> named_rule(tree, names, selector) is Some
        }),
{
    let rules = listed_rules(tree, names)->0;
    if listed_rules(tree, names) is Some {
        lemma_named_among(rules, names, selector, at);
    }
}

proof fn lemma_named_among(rules: Seq<Json>, names: RuleNames, selector: RuleSelector, at: int)
    ensures
        ({
            let found = rules_with_identity(rules, names.value, names.length, selector);
            let same = |rule: Json|
                unsigned_member(rule, names.value) == Some(selector.value) && unsigned_member(
                    rule,
                    names.length,
                ) == Some(selector.bits as u64);
            &&& forall|k: int|
                0 <= k < found.len() ==> rules.contains(#[trigger] found[k]) && same(found[k])
            &&& 0 <= at < rules.len() && same(rules[at]) ==> found.len() > 0
        }),
    decreases rules.len(),
{
    if rules.len() > 0 {
        let front = rules.drop_last();
        lemma_named_among(front, names, selector, at);
        let before = rules_with_identity(front, names.value, names.length, selector);
        let found = rules_with_identity(rules, names.value, names.length, selector);
        assert forall|k: int| 0 <= k < found.len() implies rules.contains(#[trigger] found[k]) by {
            if k < before.len() {
                assert(found[k] == before[k]);
                assert(front.contains(before[k]));
                let i = choose|i: int| 0 <= i < front.len() && front[i] == before[k];
                assert(rules[i] == found[k]);
            } else {
                assert(rules[rules.len() - 1] == found[k]);
            }
        }
        assert forall|k: int| 0 <= k < found.len() implies unsigned_member(
            #[trigger] found[k],
            names.value,
        ) == Some(selector.value) && unsigned_member(found[k], names.length) == Some(
            selector.bits as u64,
        ) by {
            if k < before.len() {
                assert(found[k] == before[k]);
            }
        }
        if at < rules.len() - 1 {
            assert(0 <= at ==> front[at] == rules[at]);
        }
    }
}

/// A rule may be copied exactly when it stands in the tree and among the rules
/// of the context, is neither protected nor one of management, and the
/// destination is not protected.
pub proof fn ordinary_rule_may_be_copied(
    model: ModelView,
    snapshot: SnapshotView,
    source: RuleSelector,
    destination: RuleSelector,
    absent: Seq<char>,
)
    ensures
        duplicate_source(model, snapshot, source, destination, absent) is Ok <==> {
            let rule = tree_rule(snapshot.data.tree, model, source);
            let typed = rule_with_id(snapshot.data.rules, source.id());
            &&& operation_sids(model) is Ok
            &&& rule is Ok
            &&& rule->Ok_0 is Some
            &&& typed is Some
            &&& !(typed->0.nature is Management)
            &&& !protects(snapshot.data.protected, source.id())
            &&& !protects(snapshot.data.protected, destination.id())
        },
{
}

} // verus!
