//! What a duplicate operation leads to: one rule at its destination, and
//! nothing more when it is applied again.

use vstd::prelude::*;

use crate::allocation::DynamicRuleIdNamespace;
use crate::context::{
    accepted_candidate_keeps_protected_rules, published, PreparedView, RecipeView, SnapshotView,
};
use crate::context_error::ContextFault;
use crate::duplicate_operation::{instance_leaves, DecodedView};
use crate::duplicate_service::{duplicate_outcome, DuplicateResultView};
use crate::duplicate_tree::{
    candidate_of, changes_fault, duplicating_keeps_other_rules, expected_tree,
    identity_order, listed_rules, renamed_rule, rule_names, rules_with_copy,
    rules_without_identity, with_rules, RuleNames, TreeAnswers,
};
use crate::error::Fault;
use crate::json::{Json, JsonValue};
use crate::leaf::{
    identified, leaf_names, lemma_with_rules, overrides_keep_other_rules, stored_values,
};
use crate::path::InstanceView;
use crate::policy::{ids_of, increasing};
use crate::selector::RuleSelector;
use crate::sid::{operation_sids, ModelSids, ModelView};
use crate::sort::{
    insert_by, key_le, ordered_by, sort_by, sorting_is_idempotent, sorting_orders_and_keeps_items,
};
use crate::target::{has_identity, rules_with_identity};

verus! {

proof fn lemma_one_identity(rule: Json, names: RuleNames, left: RuleSelector, right: RuleSelector)
    requires
        identified(rule, names, left),
        identified(rule, names, right),
    ensures
        left == right,
{
}

proof fn lemma_without_pointwise(
    some: Seq<Json>,
    others: Seq<Json>,
    names: RuleNames,
    source: RuleSelector,
    destination: RuleSelector,
)
    requires
        source != destination,
        some.len() == others.len(),
        forall|i: int|
            0 <= i < some.len() ==> {
                &&& identified(#[trigger] some[i], names, destination) == identified(
                    others[i],
                    names,
                    destination,
                )
                &&& !identified(some[i], names, destination) ==> some[i] == others[i]
            },
    ensures
        rules_without_identity(some, names, destination) == rules_without_identity(
            others,
            names,
            destination,
        ),
        rules_with_identity(some, names.value, names.length, source) == rules_with_identity(
            others,
            names.value,
            names.length,
            source,
        ),
    decreases some.len(),
{
    if some.len() > 0 {
        let last = some.len() - 1;
        let short = some.drop_last();
        let other_short = others.drop_last();
        assert forall|i: int| 0 <= i < short.len() implies {
            &&& identified(#[trigger] short[i], names, destination) == identified(
                other_short[i],
                names,
                destination,
            )
            &&& !identified(short[i], names, destination) ==> short[i] == other_short[i]
        } by {
            assert(short[i] == some[i] && other_short[i] == others[i]);
        }
        lemma_without_pointwise(short, other_short, names, source, destination);
        assert(identified(some[last], names, destination) == identified(
            others[last],
            names,
            destination,
        ));
        if identified(some[last], names, destination) {
            if identified(some[last], names, source) {
                lemma_one_identity(some[last], names, source, destination);
            }
            if identified(others[last], names, source) {
                lemma_one_identity(others[last], names, source, destination);
            }
        }
    }
}

proof fn lemma_none_left(rules: Seq<Json>, names: RuleNames, selector: RuleSelector)
    ensures
        forall|i: int|
            0 <= i < rules_without_identity(rules, names, selector).len() ==> !identified(
                #[trigger] rules_without_identity(rules, names, selector)[i],
                names,
                selector,
            ),
    decreases rules.len(),
{
    if rules.len() > 0 {
        lemma_none_left(rules.drop_last(), names, selector);
        let kept = rules_without_identity(rules.drop_last(), names, selector);
        let all = rules_without_identity(rules, names, selector);
        assert forall|i: int| 0 <= i < all.len() implies !identified(
            #[trigger] all[i],
            names,
            selector,
        ) by {
            if i < kept.len() {
                assert(all[i] == kept[i]);
            }
        }
    }
}

proof fn lemma_nothing_to_leave_out(rules: Seq<Json>, names: RuleNames, selector: RuleSelector)
    requires
        forall|i: int|
            0 <= i < rules.len() ==> !identified(#[trigger] rules[i], names, selector),
    ensures
        rules_without_identity(rules, names, selector) == rules,
    decreases rules.len(),
{
    if rules.len() > 0 {
        let short = rules.drop_last();
        assert forall|i: int| 0 <= i < short.len() implies !identified(
            #[trigger] short[i],
            names,
            selector,
        ) by {
            assert(short[i] == rules[i]);
        }
        lemma_nothing_to_leave_out(short, names, selector);
        assert(!identified(rules[rules.len() - 1], names, selector));
        assert(short.push(rules.last()) =~= rules);
    } else {
        assert(rules =~= Seq::<Json>::empty());
    }
}

proof fn lemma_source_stays(
    rules: Seq<Json>,
    names: RuleNames,
    source: RuleSelector,
    destination: RuleSelector,
)
    requires
        source != destination,
    ensures
        rules_with_identity(
            rules_without_identity(rules, names, destination),
            names.value,
            names.length,
            source,
        ) == rules_with_identity(rules, names.value, names.length, source),
    decreases rules.len(),
{
    if rules.len() > 0 {
        lemma_source_stays(rules.drop_last(), names, source, destination);
        let kept = rules_without_identity(rules.drop_last(), names, destination);
        assert(kept.push(rules.last()).drop_last() =~= kept);
        if identified(rules.last(), names, destination) && identified(rules.last(), names, source) {
            lemma_one_identity(rules.last(), names, source, destination);
        }
    }
}

proof fn lemma_inserted_left_out(
    ordered: Seq<Json>,
    item: Json,
    names: RuleNames,
    destination: RuleSelector,
)
    requires
        identified(item, names, destination),
    ensures
        rules_without_identity(
            insert_by(ordered, item, identity_order(names)),
            names,
            destination,
        ) == rules_without_identity(ordered, names, destination),
    decreases ordered.len(),
{
    let key = identity_order(names);
    let result = insert_by(ordered, item, key);
    if ordered.len() == 0 || key_le(key(ordered.last()), key(item)) {
        assert(result.drop_last() =~= ordered);
    } else {
        lemma_inserted_left_out(ordered.drop_last(), item, names, destination);
        assert(result.drop_last() =~= insert_by(ordered.drop_last(), item, key));
    }
}

proof fn lemma_inserted_found(
    ordered: Seq<Json>,
    item: Json,
    names: RuleNames,
    source: RuleSelector,
)
    ensures
        rules_with_identity(
            insert_by(ordered, item, identity_order(names)),
            names.value,
            names.length,
            source,
        ) == if identified(item, names, source) {
            rules_with_identity(ordered, names.value, names.length, source).push(item)
        } else {
            rules_with_identity(ordered, names.value, names.length, source)
        },
    decreases ordered.len(),
{
    let key = identity_order(names);
    let result = insert_by(ordered, item, key);
    if ordered.len() == 0 || key_le(key(ordered.last()), key(item)) {
        assert(result.drop_last() =~= ordered);
    } else {
        lemma_inserted_found(ordered.drop_last(), item, names, source);
        assert(result.drop_last() =~= insert_by(ordered.drop_last(), item, key));
        assert(!(identified(ordered.last(), names, source) && identified(item, names, source)));
    }
}

proof fn lemma_sorted_found(rules: Seq<Json>, names: RuleNames, source: RuleSelector)
    ensures
        rules_with_identity(
            sort_by(rules, identity_order(names)),
            names.value,
            names.length,
            source,
        ) == rules_with_identity(rules, names.value, names.length, source),
    decreases rules.len(),
{
    if rules.len() > 0 {
        lemma_sorted_found(rules.drop_last(), names, source);
        lemma_inserted_found(
            sort_by(rules.drop_last(), identity_order(names)),
            rules.last(),
            names,
            source,
        );
    } else {
        assert(sort_by(rules, identity_order(names)) =~= rules);
    }
}

proof fn lemma_sorted_holds(rules: Seq<Json>, names: RuleNames, at: int)
    requires
        0 <= at < rules.len(),
    ensures
        rules.contains(sort_by(rules, identity_order(names))[at]),
{
    broadcast use vstd::seq_lib::group_to_multiset_ensures;

    let sorted = sort_by(rules, identity_order(names));
    sorting_orders_and_keeps_items(rules, identity_order(names));
    assert(sorted.contains(sorted[at]));
    assert(sorted.to_multiset().count(sorted[at]) > 0);
    assert(rules.to_multiset().count(sorted[at]) > 0);
}

/// The rules that a copy led to lead to the same rules again.
proof fn lemma_copied_again(
    rules: Seq<Json>,
    after: Seq<Json>,
    names: RuleNames,
    source: RuleSelector,
    destination: RuleSelector,
)
    requires
        source != destination,
        rules_with_identity(rules, names.value, names.length, source).len() > 0,
        ({
            let rule = rules_with_identity(rules, names.value, names.length, source)[0];
            let copied = rules_with_copy(rules, names, rule, destination);
            &&& copied.len() == after.len()
            &&& forall|i: int|
                0 <= i < copied.len() ==> {
                    &&& identified(#[trigger] copied[i], names, destination) == identified(
                        after[i],
                        names,
                        destination,
                    )
                    &&& !identified(copied[i], names, destination) ==> copied[i] == after[i]
                }
        }),
        rules_with_identity(after, names.value, names.length, destination).len() > 0,
    ensures
        ({
            let rule = rules_with_identity(rules, names.value, names.length, source)[0];
            let again = rules_with_identity(after, names.value, names.length, source);
            &&& again.len() > 0
            &&& again[0] == rule
            &&& rules_with_copy(after, names, rule, destination) == rules_with_copy(
                rules,
                names,
                rule,
                destination,
            )
        }),
{
    let order = identity_order(names);
    let rule = rules_with_identity(rules, names.value, names.length, source)[0];
    let copy = renamed_rule(rule, names, destination);
    let kept = rules_without_identity(rules, names, destination);
    let copied = rules_with_copy(rules, names, rule, destination);
    let wider = kept.push(copy);
    let ordered = sort_by(kept, order);
    assert(wider.drop_last() =~= kept);
    assert(copied == insert_by(ordered, copy, order));
    lemma_none_left(rules, names, destination);
    if !identified(copy, names, destination) {
        sorting_orders_and_keeps_items(wider, order);
        assert forall|i: int| 0 <= i < after.len() implies !has_identity(
            #[trigger] after[i],
            names.value,
            names.length,
            destination,
        ) by {
            lemma_sorted_holds(wider, names, i);
            let at = choose|at: int| 0 <= at < wider.len() && wider[at] == copied[i];
            if at < kept.len() {
                assert(wider[at] == kept[at]);
            }
            assert(!identified(copied[i], names, destination));
        }
        lemma_found_is_there(after, names, destination);
    }
    lemma_without_pointwise(copied, after, names, source, destination);
    lemma_inserted_left_out(ordered, copy, names, destination);
    sorting_orders_and_keeps_items(kept, order);
    assert forall|i: int| 0 <= i < ordered.len() implies !identified(
        #[trigger] ordered[i],
        names,
        destination,
    ) by {
        lemma_sorted_holds(kept, names, i);
        let at = choose|at: int| 0 <= at < kept.len() && kept[at] == ordered[i];
        assert(!identified(kept[at], names, destination));
    }
    lemma_nothing_to_leave_out(ordered, names, destination);
    assert(rules_without_identity(after, names, destination) == ordered);
    sorting_is_idempotent(kept, order);
    assert(ordered.push(copy).drop_last() =~= ordered);
    lemma_inserted_found(ordered, copy, names, source);
    if identified(copy, names, source) {
        lemma_one_identity(copy, names, source, destination);
    }
    lemma_sorted_found(kept, names, source);
    lemma_source_stays(rules, names, source, destination);
}

proof fn lemma_found_is_there(rules: Seq<Json>, names: RuleNames, selector: RuleSelector)
    requires
        rules_with_identity(rules, names.value, names.length, selector).len() > 0,
    ensures
        exists|i: int|
            0 <= i < rules.len() && has_identity(
                #[trigger] rules[i],
                names.value,
                names.length,
                selector,
            ),
    decreases rules.len(),
{
    if has_identity(rules.last(), names.value, names.length, selector) {
        assert(rules[rules.len() - 1] == rules.last());
    } else {
        lemma_found_is_there(rules.drop_last(), names, selector);
        let i = choose|i: int|
            0 <= i < rules.drop_last().len() && has_identity(
                #[trigger] rules.drop_last()[i],
                names.value,
                names.length,
                selector,
            );
        assert(rules[i] == rules.drop_last()[i]);
    }
}

proof fn lemma_nothing_found(rules: Seq<Json>, names: RuleNames, selector: RuleSelector)
    requires
        forall|i: int|
            0 <= i < rules.len() ==> !identified(#[trigger] rules[i], names, selector),
    ensures
        rules_with_identity(rules, names.value, names.length, selector).len() == 0,
{
    if rules_with_identity(rules, names.value, names.length, selector).len() > 0 {
        lemma_found_is_there(rules, names, selector);
        let at = choose|i: int|
            0 <= i < rules.len() && has_identity(
                #[trigger] rules[i],
                names.value,
                names.length,
                selector,
            );
        assert(!identified(rules[at], names, selector));
    }
}

proof fn lemma_one_copy(
    rules: Seq<Json>,
    names: RuleNames,
    source: Json,
    destination: RuleSelector,
)
    requires
        source is Object,
        names.value != names.length,
    ensures
        rules_with_identity(
            rules_with_copy(rules, names, source, destination),
            names.value,
            names.length,
            destination,
        ).len() == 1,
{
    let order = identity_order(names);
    let kept = rules_without_identity(rules, names, destination);
    let copy = renamed_rule(source, names, destination);
    duplicating_keeps_other_rules(rules, names, source, destination);
    assert(kept.push(copy).drop_last() =~= kept);
    lemma_inserted_found(sort_by(kept, order), copy, names, destination);
    lemma_sorted_found(kept, names, destination);
    lemma_none_left(rules, names, destination);
    lemma_nothing_found(kept, names, destination);
}

proof fn lemma_as_many_found(
    some: Seq<Json>,
    others: Seq<Json>,
    names: RuleNames,
    rule: RuleSelector,
)
    requires
        some.len() == others.len(),
        forall|i: int|
            0 <= i < some.len() ==> identified(#[trigger] some[i], names, rule) == identified(
                others[i],
                names,
                rule,
            ),
    ensures
        rules_with_identity(some, names.value, names.length, rule).len() == rules_with_identity(
            others,
            names.value,
            names.length,
            rule,
        ).len(),
    decreases some.len(),
{
    if some.len() > 0 {
        let (short, other_short) = (some.drop_last(), others.drop_last());
        assert forall|i: int| 0 <= i < short.len() implies identified(
            #[trigger] short[i],
            names,
            rule,
        ) == identified(other_short[i], names, rule) by {
            assert(short[i] == some[i] && other_short[i] == others[i]);
        }
        lemma_as_many_found(short, other_short, names, rule);
        assert(identified(some[some.len() - 1], names, rule) == identified(
            others[some.len() - 1],
            names,
            rule,
        ));
    }
}

proof fn lemma_first_with_identity(rules: Seq<Json>, names: RuleNames, selector: RuleSelector)
    ensures
        forall|i: int|
            0 <= i < rules_with_identity(rules, names.value, names.length, selector).len()
                ==> identified(
                #[trigger] rules_with_identity(rules, names.value, names.length, selector)[i],
                names,
                selector,
            ),
    decreases rules.len(),
{
    if rules.len() > 0 {
        lemma_first_with_identity(rules.drop_last(), names, selector);
        let fewer = rules_with_identity(
            rules.drop_last(),
            names.value,
            names.length,
            selector,
        );
        let all = rules_with_identity(rules, names.value, names.length, selector);
        assert forall|i: int| 0 <= i < all.len() implies identified(
            #[trigger] all[i],
            names,
            selector,
        ) by {
            if i < fewer.len() {
                assert(all[i] == fewer[i]);
            }
        }
    }
}

/// The tree that a duplicate operation leads to, its overrides set, has exactly
/// one rule with the identity of the destination. The rules stand in the order
/// of their identities, and those with another identity are the ones of the
/// copied list, in their places.
pub proof fn duplicate_tree_has_one_destination(
    model: ModelView,
    snapshot: SnapshotView,
    source: RuleSelector,
    destination: RuleSelector,
    instances: Seq<InstanceView>,
    answers: TreeAnswers,
    names: RuleNames,
)
    requires
        expected_tree(model, snapshot, source, destination, instances, answers) is Ok,
        operation_sids(model) matches Ok(sids) && rule_names(model, sids) == Ok::<RuleNames, Fault>(
            names,
        ),
        names.value != names.length,
    ensures
        ({
            let tree = expected_tree(
                model,
                snapshot,
                source,
                destination,
                instances,
                answers,
            )->Ok_0;
            let copied = candidate_of(model, snapshot, source, destination)->Ok_0.1;
            &&& listed_rules(copied, names) matches Some(before)
            &&& listed_rules(tree, names) matches Some(after)
            &&& rules_with_identity(after, names.value, names.length, destination).len() == 1
            &&& ordered_by(after, identity_order(names))
            &&& after.len() == before.len()
            &&& forall|i: int|
                0 <= i < after.len() && !identified(#[trigger] after[i], names, destination)
                    ==> after[i] == before[i]
        }),
{
    let (sids, copied) = candidate_of(model, snapshot, source, destination)->Ok_0;
    let leaves = leaf_names(model, sids)->Ok_0;
    let tree = answers.tree@;
    overrides_keep_other_rules(
        copied,
        leaves,
        destination,
        instance_leaves(instances, destination, sids),
        stored_values(answers.changes@),
    );
    let rules = listed_rules(snapshot.data.tree, names)->0;
    let found = rules_with_identity(rules, names.value, names.length, source);
    lemma_first_with_identity(rules, names, source);
    let list = rules_with_copy(rules, names, found[0], destination);
    lemma_with_rules(snapshot.data.tree, names, list, list);
    assert(found[0] is Object);
    duplicating_keeps_other_rules(rules, names, found[0], destination);
    lemma_one_copy(rules, names, found[0], destination);
    let after = listed_rules(tree, names)->0;
    lemma_as_many_found(list, after, names, destination);
    let order = identity_order(names);
    assert forall|i: int| 0 <= i < after.len() implies order(#[trigger] after[i]) == order(
        list[i],
    ) by {
        assert(identified(list[i], names, destination) == identified(after[i], names, destination));
    }
    assert forall|i: int, j: int| 0 <= i <= j < after.len() implies key_le(
        order(#[trigger] after[i]),
        order(#[trigger] after[j]),
    ) by {
        assert(key_le(order(list[i]), order(list[j])));
    }
    assert forall|i: int|
        0 <= i < after.len() && !identified(#[trigger] after[i], names, destination) implies after[i]
        == list[i] by {
        assert(identified(list[i], names, destination) == identified(after[i], names, destination));
    }
}

/// Whether two lists of answers say the same: what a datastore that is asked
/// the same again answers.
pub open spec fn same_answers(left: TreeAnswers, right: TreeAnswers) -> bool {
    &&& left.datastore is Ok <==> right.datastore is Ok
    &&& left.tree@ == right.tree@
    &&& left.changes@.len() == right.changes@.len()
    &&& forall|i: int|
        #![trigger left.changes@[i]]
        #![trigger right.changes@[i]]
        0 <= i < left.changes@.len() ==> match (left.changes@[i], right.changes@[i]) {
            (Ok(one), Ok(other)) => one@ == other@,
            (Err(_), Err(_)) => true,
            _ => false,
        }
}

proof fn lemma_same_changes(
    instances: Seq<InstanceView>,
    count: nat,
    destination: RuleSelector,
    sids: ModelSids,
    answers: TreeAnswers,
    later: TreeAnswers,
)
    requires
        same_answers(answers, later),
        count <= answers.changes@.len(),
        changes_fault(instances, count, destination, sids, answers.changes@) is None,
    ensures
        changes_fault(instances, count, destination, sids, later.changes@) is None,
    decreases count,
{
    if count > 0 {
        lemma_same_changes(
            instances,
            (count - 1) as nat,
            destination,
            sids,
            answers,
            later,
        );
        let at = count - 1;
        assert(answers.changes@[at] is Ok <==> later.changes@[at] is Ok);
    }
}

proof fn lemma_changes_accepted(
    instances: Seq<InstanceView>,
    count: nat,
    destination: RuleSelector,
    sids: ModelSids,
    answers: Seq<Result<JsonValue, String>>,
)
    requires
        changes_fault(instances, count, destination, sids, answers) is None,
    ensures
        forall|i: int| 0 <= i < count ==> (#[trigger] answers[i]) is Ok,
    decreases count,
{
    if count > 0 {
        lemma_changes_accepted(instances, (count - 1) as nat, destination, sids, answers);
    }
}

/// A duplicate operation that was applied is idempotent from then on. The first
/// call reports the next generation and the tag of the context that it
/// published. From then on no call of the operation publishes anything,
/// whatever it is answered: it leaves generation, tree and tag as they are. It
/// hands the datastore the tree that it handed it the first time, and where
/// that answers the same again, the call succeeds with the same generation and
/// tag.
///
/// Protected rules are listed in the order of their identities.
pub proof fn duplicating_twice_publishes_once(
    recipe: RecipeView,
    before: SnapshotView,
    namespace: Option<DynamicRuleIdNamespace>,
    later_namespace: Option<DynamicRuleIdNamespace>,
    model: ModelView,
    operation: DecodedView,
    answers: TreeAnswers,
    later: TreeAnswers,
    prepared: Result<PreparedView, ContextFault>,
    later_prepared: Result<PreparedView, ContextFault>,
    canonical: Result<Seq<u8>, ContextFault>,
    later_canonical: Result<Seq<u8>, ContextFault>,
)
    requires
        duplicate_outcome(
            recipe,
            before,
            namespace,
            model,
            operation,
            answers,
            prepared,
            canonical,
        ).1 matches Ok(DuplicateResultView::Applied(_, _)),
        before.generation < u64::MAX,
        answers.changes@.len() == operation.instances.len(),
        increasing(ids_of(before.data.protected)),
        prepared matches Ok(candidate) ==> increasing(ids_of(candidate.data.protected)),
    ensures
        ({
            let (after, first) = duplicate_outcome(
                recipe,
                before,
                namespace,
                model,
                operation,
                answers,
                prepared,
                canonical,
            );
            let (last, second) = duplicate_outcome(
                recipe,
                after,
                later_namespace,
                model,
                operation,
                later,
                later_prepared,
                later_canonical,
            );
            let again = DuplicateResultView::Idempotent(after.generation, after.data.tag);
            &&& first == Ok::<DuplicateResultView, Fault>(
                DuplicateResultView::Applied(after.generation, after.data.tag),
            )
            &&& after.generation == before.generation + 1
            &&& last == after
            &&& second is Ok ==> second == Ok::<DuplicateResultView, Fault>(again)
            &&& candidate_of(
                model,
                after,
                operation.request.source,
                operation.request.destination,
            ) == candidate_of(
                model,
                before,
                operation.request.source,
                operation.request.destination,
            )
            &&& same_answers(answers, later) && later_prepared == prepared && later_canonical
                == canonical ==> second == Ok::<DuplicateResultView, Fault>(again)
        }),
{
    let source = operation.request.source;
    let destination = operation.request.destination;
    let candidate = prepared->Ok_0;
    let after = published(candidate, (before.generation + 1) as u64);
    let (sids, copied) = candidate_of(model, before, source, destination)->Ok_0;
    let names = rule_names(model, sids)->Ok_0;
    let leaves = leaf_names(model, sids)->Ok_0;
    assert(leaves.rules == names);
    let tree = candidate.data.tree;
    accepted_candidate_keeps_protected_rules(recipe, before, candidate, canonical);
    overrides_keep_other_rules(
        copied,
        leaves,
        destination,
        instance_leaves(operation.instances, destination, sids),
        stored_values(answers.changes@),
    );
    let rules = listed_rules(before.data.tree, names)->0;
    let found = rules_with_identity(rules, names.value, names.length, source);
    let list = rules_with_copy(rules, names, found[0], destination);
    lemma_with_rules(before.data.tree, names, list, list);
    let held = listed_rules(tree, names)->0;
    lemma_copied_again(rules, held, names, source, destination);
    assert(with_rules(copied, names, list) == with_rules(tree, names, list));
    crate::policy::enforcement_admits_only_the_same_rules(
        candidate.data.protected,
        candidate.data.protected,
    );
    if same_answers(answers, later) {
        let count = operation.instances.len();
        lemma_same_changes(operation.instances, count, destination, sids, answers, later);
        lemma_changes_accepted(operation.instances, count, destination, sids, answers.changes@);
        assert forall|i: int| 0 <= i < count implies (#[trigger] stored_values(
            answers.changes@,
        )[i]) == stored_values(later.changes@)[i] by {
            assert(answers.changes@[i] is Ok);
            assert(later.changes@[i] is Ok);
        }
        assert(stored_values(answers.changes@) =~= stored_values(later.changes@));
    }
}

} // verus!
