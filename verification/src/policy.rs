//! Rules that management never changes.

use vstd::prelude::*;

use crate::context_error::{ContextError, ContextFault};
use crate::rule::{find_rule, rule_with_id, rules_view, Rule, RuleNature, RuleView};
use crate::rule_id::RuleId;
use crate::sort::{
    key_le, lemma_sort_by_picks, order_view, ordered_by, pair_key, picked, sort_by, sort_order,
    sorting_orders_and_keeps_items,
};
use crate::text::{
    decimal, decimal_string, join, join3, join_list, joined, strings_view,
};

verus! {

/// The order of rule identities: by bit length, then by value.
pub open spec fn id_key() -> spec_fn(RuleId) -> (int, int) {
    |id: RuleId| (id.bit_len as int, id.value as int)
}

/// A list without the items that equal the one before them.
pub open spec fn without_repeats(ids: Seq<RuleId>) -> Seq<RuleId>
    decreases ids.len(),
{
    if ids.len() == 0 {
        Seq::empty()
    } else if ids.len() > 1 && ids[ids.len() - 2] == ids.last() {
        without_repeats(ids.drop_last())
    } else {
        without_repeats(ids.drop_last()).push(ids.last())
    }
}

/// The identities of a list, each once and in their order.
pub open spec fn distinct_ids(ids: Seq<RuleId>) -> Seq<RuleId> {
    without_repeats(sort_by(ids, id_key()))
}

/// Whether identities come in strictly increasing order.
pub open spec fn increasing(ids: Seq<RuleId>) -> bool {
    forall|i: int, j: int|
        0 <= i < j < ids.len() ==> #[trigger] id_before(ids[i], ids[j])
}

/// Whether an identity comes before another.
pub open spec fn id_before(left: RuleId, right: RuleId) -> bool {
    left.bit_len < right.bit_len || (left.bit_len == right.bit_len && left.value < right.value)
}

proof fn lemma_without_repeats(ids: Seq<RuleId>)
    requires
        ordered_by(ids, id_key()),
    ensures
        increasing(without_repeats(ids)),
        forall|id: RuleId| #[trigger] without_repeats(ids).contains(id) == ids.contains(id),
        ids.len() > 0 ==> without_repeats(ids).len() > 0 && without_repeats(ids).last()
            == ids.last(),
    decreases ids.len(),
{
    let result = without_repeats(ids);
    if ids.len() > 0 {
        let before = ids.drop_last();
        let shorter = without_repeats(before);
        assert(ordered_by(before, id_key())) by {
            assert forall|i: int, j: int| 0 <= i <= j < before.len() implies key_le(
                id_key()(#[trigger] before[i]),
                id_key()(#[trigger] before[j]),
            ) by {
                assert(before[i] == ids[i] && before[j] == ids[j]);
            }
        }
        lemma_without_repeats(before);
        if ids.len() > 1 && ids[ids.len() - 2] == ids.last() {
            assert(before.last() == ids.last());
            assert forall|id: RuleId| #[trigger] result.contains(id) == ids.contains(id) by {
                assert(shorter.contains(id) == before.contains(id));
                if ids.contains(id) {
                    let at = choose|i: int| 0 <= i < ids.len() && ids[i] == id;
                    if at == ids.len() - 1 {
                        assert(before[at - 1] == id);
                    } else {
                        assert(before[at] == id);
                    }
                }
                if before.contains(id) {
                    let at = choose|i: int| 0 <= i < before.len() && before[i] == id;
                    assert(ids[at] == id);
                }
            }
        } else {
            assert forall|i: int, j: int| 0 <= i < j < result.len() implies #[trigger] id_before(
                result[i],
                result[j],
            ) by {
                if j < shorter.len() {
                    assert(id_before(shorter[i], shorter[j]));
                } else {
                    assert(shorter.contains(shorter[i]));
                    assert(before.contains(shorter[i]));
                    let at = choose|k: int| 0 <= k < before.len() && before[k] == shorter[i];
                    assert(key_le(id_key()(ids[at]), id_key()(ids[ids.len() - 2])));
                    assert(key_le(id_key()(ids[ids.len() - 2]), id_key()(ids[ids.len() - 1])));
                    assert(before.last() == ids[ids.len() - 2]);
                }
            }
            assert forall|id: RuleId| #[trigger] result.contains(id) == ids.contains(id) by {
                assert(shorter.contains(id) == before.contains(id));
                if result.contains(id) {
                    let at = choose|i: int| 0 <= i < result.len() && result[i] == id;
                    if at < shorter.len() {
                        assert(shorter[at] == id);
                        let from = choose|i: int| 0 <= i < before.len() && before[i] == id;
                        assert(ids[from] == id);
                    } else {
                        assert(ids[ids.len() - 1] == id);
                    }
                }
                if ids.contains(id) {
                    let at = choose|i: int| 0 <= i < ids.len() && ids[i] == id;
                    if at == ids.len() - 1 {
                        assert(result[result.len() - 1] == id);
                    } else {
                        assert(before[at] == id);
                        let from = choose|i: int| 0 <= i < shorter.len() && shorter[i] == id;
                        assert(result[from] == id);
                    }
                }
            }
        }
    }
}

/// The distinct identities of a list are those of the list, each once, by
/// length and value.
pub proof fn distinct_ids_are_ordered_and_complete(ids: Seq<RuleId>)
    ensures
        increasing(distinct_ids(ids)),
        forall|id: RuleId| #[trigger] distinct_ids(ids).contains(id) == ids.contains(id),
{
    sorting_orders_and_keeps_items(ids, id_key());
    let ordered = sort_by(ids, id_key());
    lemma_without_repeats(ordered);
    assert forall|id: RuleId| #[trigger] distinct_ids(ids).contains(id) == ids.contains(id) by {
        broadcast use vstd::seq_lib::group_to_multiset_ensures;

        assert(without_repeats(ordered).contains(id) == ordered.contains(id));
        assert(ordered.contains(id) == (ordered.to_multiset().count(id) > 0));
        assert(ids.contains(id) == (ids.to_multiset().count(id) > 0));
    }
}

fn sorted_distinct(ids: &Vec<RuleId>) -> (result: Vec<RuleId>)
    ensures
        result@ == distinct_ids(ids@),
{
    let mut keys: Vec<(u64, u64)> = Vec::new();
    let mut index: usize = 0;
    while index < ids.len()
        invariant
            index <= ids@.len(),
            keys@.len() == index,
            forall|i: int|
                0 <= i < index ==> (#[trigger] keys@[i]) == (
                    ids@[i].bit_len as u64,
                    ids@[i].value,
                ),
        decreases ids.len() - index,
    {
        keys.push((ids[index].bit_len as u64, ids[index].value));
        index += 1;
    }
    let order = sort_order(&keys);
    let ghost ordered = sort_by(ids@, id_key());
    proof {
        assert forall|i: int| 0 <= i < ids@.len() implies id_key()(#[trigger] ids@[i]) == pair_key(
            keys@,
        )(i) by {
            assert(keys@[i] == (ids@[i].bit_len as u64, ids@[i].value));
        }
        lemma_sort_by_picks(ids@, id_key(), pair_key(keys@));
        assert(ordered == picked(ids@, order_view(order@)));
    }
    let mut result: Vec<RuleId> = Vec::new();
    index = 0;
    proof {
        assert(ordered.take(0) =~= Seq::<RuleId>::empty());
    }
    while index < order.len()
        invariant
            index <= order@.len(),
            order@.len() == ids@.len(),
            ordered == picked(ids@, order_view(order@)),
            ordered.len() == order@.len(),
            forall|i: int| 0 <= i < order@.len() ==> (#[trigger] order@[i]) < ids@.len(),
            result@ == without_repeats(ordered.take(index as int)),
            index > 0 ==> result@.len() > 0 && result@.last() == ordered[index - 1],
            index == 0 ==> result@.len() == 0,
        decreases order.len() - index,
    {
        let id = ids[order[index]];
        proof {
            assert(ordered[index as int] == id);
            assert(ordered.take(index + 1).drop_last() =~= ordered.take(index as int));
            assert(ordered.take(index + 1).last() == id);
            if index > 0 {
                assert(ordered.take(index + 1)[index - 1] == ordered[index - 1]);
            }
        }
        if index == 0 || result[result.len() - 1] != id {
            result.push(id);
        }
        index += 1;
    }
    assert(ordered.take(index as int) =~= ordered);
    result
}

/// Explicit protected identities in addition to rules whose nature is
/// management.
#[derive(Debug)]
pub struct ProtectionPolicy {
    /// Explicit identities in their order.
    pub ids: Vec<RuleId>,
}

impl ProtectionPolicy {
    /// Creates a policy from explicit identities.
    pub fn from_rule_ids(ids: &Vec<RuleId>) -> (result: Self)
        ensures
            result.ids@ == distinct_ids(ids@),
    {
        ProtectionPolicy { ids: sorted_distinct(ids) }
    }

    /// Returns explicit protected identities in deterministic order.
    pub fn rule_ids(&self) -> (result: &[RuleId])
        ensures
            result@ == self.ids@,
    {
        self.ids.as_slice()
    }
}

/// One immutable protected rule and its complete definition.
#[derive(Debug)]
pub struct ProtectedRule {
    /// The protected identity.
    pub id: RuleId,
    /// The protected definition.
    pub rule: Rule,
}

impl ProtectedRule {
    /// Returns the protected identity.
    pub fn id(&self) -> (result: RuleId)
        ensures
            result == self.id,
    {
        self.id
    }

    /// Returns the protected rule definition.
    pub fn rule(&self) -> (result: &Rule)
        ensures
            result@ == self.rule@,
    {
        &self.rule
    }
}

/// The protected-rule set derived from one complete context.
#[derive(Debug)]
pub struct ProtectedRules {
    /// Protected rules in the order of their identities.
    pub rules: Vec<ProtectedRule>,
}

impl View for ProtectedRules {
    type V = Seq<(RuleId, RuleView)>;

    open spec fn view(&self) -> Seq<(RuleId, RuleView)> {
        Seq::new(self.rules@.len(), |i: int| (self.rules@[i].id, self.rules@[i].rule@))
    }
}

/// The identities of protected rules.
pub open spec fn ids_of(protected: Seq<(RuleId, RuleView)>) -> Seq<RuleId> {
    protected.map_values(|held: (RuleId, RuleView)| held.0)
}

/// Whether an identity is protected.
pub open spec fn protects(protected: Seq<(RuleId, RuleView)>, id: RuleId) -> bool {
    exists|i: int| 0 <= i < protected.len() && (#[trigger] protected[i]).0 == id
}

/// The identities of the management rules of a context.
pub open spec fn management_ids(rules: Seq<RuleView>) -> Seq<RuleId>
    decreases rules.len(),
{
    if rules.len() == 0 {
        Seq::empty()
    } else if rules.last().nature == RuleNature::Management {
        management_ids(rules.drop_last()).push(rules.last().id)
    } else {
        management_ids(rules.drop_last())
    }
}

/// The protected rules for the first of some identities, or the first of them
/// that the context lacks.
pub open spec fn protected_for(rules: Seq<RuleView>, ids: Seq<RuleId>, count: nat) -> Result<
    Seq<(RuleId, RuleView)>,
    ContextFault,
>
    decreases count,
{
    if count == 0 || count > ids.len() {
        Ok(Seq::empty())
    } else {
        match protected_for(rules, ids, (count - 1) as nat) {
            Err(fault) => Err(fault),
            Ok(list) => match rule_with_id(rules, ids[count - 1]) {
                None => Err(
                    ContextFault::MissingProtectedRule(
                        ids[count - 1].value,
                        ids[count - 1].bit_len,
                    ),
                ),
                Some(rule) => Ok(list.push((ids[count - 1], rule))),
            },
        }
    }
}

/// The protected rules of a context under a policy.
pub open spec fn derived(rules: Seq<RuleView>, policy: Seq<RuleId>) -> Result<
    Seq<(RuleId, RuleView)>,
    ContextFault,
> {
    let ids = distinct_ids(policy + management_ids(rules));
    protected_for(rules, ids, ids.len())
}

proof fn lemma_protected_error_stays(rules: Seq<RuleView>, ids: Seq<RuleId>, count: nat, more: nat)
    requires
        count <= more <= ids.len(),
        protected_for(rules, ids, count) is Err,
    ensures
        protected_for(rules, ids, more) is Err,
        protected_for(rules, ids, more)->Err_0 == protected_for(rules, ids, count)->Err_0,
    decreases more,
{
    if count < more {
        lemma_protected_error_stays(rules, ids, count, (more - 1) as nat);
    }
}

/// A list of identities as text.
pub open spec fn ids_text(ids: Seq<RuleId>) -> Seq<char> {
    "["@ + joined(ids.map_values(|id: RuleId| id_text(id)), ", "@) + "]"@
}

/// An identity as text.
pub open spec fn id_text(id: RuleId) -> Seq<char> {
    "RuleId { value: "@ + decimal(id.value as nat) + ", bit_len: "@ + decimal(id.bit_len as nat)
        + " }"@
}

fn format_ids(ids: &Vec<RuleId>) -> (result: String)
    ensures
        result@ == ids_text(ids@),
{
    let mut texts: Vec<String> = Vec::new();
    let mut index: usize = 0;
    while index < ids.len()
        invariant
            index <= ids@.len(),
            texts@.len() == index,
            forall|i: int| 0 <= i < index ==> (#[trigger] texts@[i])@ == id_text(ids@[i]),
        decreases ids.len() - index,
    {
        let head = join3("RuleId { value: ", decimal_string(ids[index].value).as_str(), ", bit_len: ");
        texts.push(
            join3(head.as_str(), decimal_string(ids[index].bit_len as u64).as_str(), " }"),
        );
        index += 1;
    }
    assert(strings_view(texts@) =~= ids@.map_values(|id: RuleId| id_text(id)));
    join3("[", join_list(&texts, ", ").as_str(), "]")
}

/// An identity as value and bit length.
pub open spec fn short_text(id: RuleId) -> Seq<char> {
    "RuleID "@ + decimal(id.value as nat) + "/"@ + decimal(id.bit_len as nat)
}

fn format_id(id: RuleId) -> (result: String)
    ensures
        result@ == short_text(id),
{
    join(
        join3("RuleID ", decimal_string(id.value).as_str(), "/").as_str(),
        decimal_string(id.bit_len as u64).as_str(),
    )
}

/// The first protected definition for an identity.
pub open spec fn definition_of(protected: Seq<(RuleId, RuleView)>, id: RuleId) -> Option<RuleView>
    decreases protected.len(),
{
    if protected.len() == 0 {
        None
    } else if protected[0].0 == id {
        Some(protected[0].1)
    } else {
        definition_of(protected.drop_first(), id)
    }
}

/// The error of the first of some protected rules that a candidate changes.
pub open spec fn changed_rule(
    expected: Seq<(RuleId, RuleView)>,
    candidate: Seq<(RuleId, RuleView)>,
    count: nat,
) -> Option<ContextFault>
    decreases count,
{
    if count == 0 || count > expected.len() {
        None
    } else {
        match changed_rule(expected, candidate, (count - 1) as nat) {
            Some(fault) => Some(fault),
            None => match definition_of(candidate, expected[count - 1].0) {
                None => Some(
                    ContextFault::ProtectedRuleChanged(
                        short_text(expected[count - 1].0) + " was deleted or re-identified"@,
                    ),
                ),
                Some(rule) => if rule != expected[count - 1].1 {
                    Some(
                        ContextFault::ProtectedRuleChanged(
                            short_text(expected[count - 1].0) + " content or nature differs"@,
                        ),
                    )
                } else {
                    None
                },
            },
        }
    }
}

/// The error of a candidate whose protected rules differ.
pub open spec fn enforcement_fault(
    expected: Seq<(RuleId, RuleView)>,
    candidate: Seq<(RuleId, RuleView)>,
) -> Option<ContextFault> {
    if expected.len() != candidate.len() {
        Some(
            ContextFault::ProtectedRuleChanged(
                "protected RuleID set changed from "@ + ids_text(ids_of(expected)) + " to "@
                    + ids_text(ids_of(candidate)),
            ),
        )
    } else {
        changed_rule(expected, candidate, expected.len())
    }
}

proof fn lemma_changed_rule_stays(
    expected: Seq<(RuleId, RuleView)>,
    candidate: Seq<(RuleId, RuleView)>,
    count: nat,
    more: nat,
)
    requires
        count <= more <= expected.len(),
        changed_rule(expected, candidate, count) is Some,
    ensures
        changed_rule(expected, candidate, more) == changed_rule(expected, candidate, count),
    decreases more,
{
    if count < more {
        lemma_changed_rule_stays(expected, candidate, count, (more - 1) as nat);
    }
}

impl ProtectedRules {
    /// Derives the protected rules from management-nature rules and explicit
    /// identities.
    pub fn derive(rules: &Vec<Rule>, policy: &ProtectionPolicy) -> (result: Result<
        Self,
        ContextError,
    >)
        ensures
            match result {
                Ok(protected) => derived(rules_view(rules@), policy.ids@) == Ok::<
                    Seq<(RuleId, RuleView)>,
                    ContextFault,
                >(protected@),
                Err(error) => derived(rules_view(rules@), policy.ids@) == Err::<
                    Seq<(RuleId, RuleView)>,
                    ContextFault,
                >(error@),
            },
    {
        let ghost view = rules_view(rules@);
        let mut all: Vec<RuleId> = Vec::new();
        all.extend_from_slice(policy.ids.as_slice());
        assert(all@ =~= policy.ids@);
        let mut index: usize = 0;
        proof {
            assert(all@ =~= policy.ids@ + management_ids(view.take(0)));
        }
        while index < rules.len()
            invariant
                index <= rules@.len(),
                view == rules_view(rules@),
                all@ == policy.ids@ + management_ids(view.take(index as int)),
            decreases rules.len() - index,
        {
            proof {
                assert(view.take(index + 1).drop_last() =~= view.take(index as int));
                assert(view.take(index + 1).last() == view[index as int]);
            }
            if rules[index].nature == RuleNature::Management {
                all.push(rules[index].id);
                assert(all@ =~= policy.ids@ + management_ids(view.take(index + 1)));
            }
            index += 1;
        }
        assert(view.take(view.len() as int) =~= view);
        let ids = sorted_distinct(&all);
        let mut list: Vec<ProtectedRule> = Vec::new();
        let ghost mut held: Seq<(RuleId, RuleView)> = Seq::empty();
        index = 0;
        while index < ids.len()
            invariant
                index <= ids@.len(),
                view == rules_view(rules@),
                ids@ == distinct_ids(policy.ids@ + management_ids(view)),
                protected_for(view, ids@, index as nat) == Ok::<
                    Seq<(RuleId, RuleView)>,
                    ContextFault,
                >(held),
                held.len() == list@.len(),
                forall|i: int|
                    0 <= i < list@.len() ==> (#[trigger] held[i]) == (list@[i].id, list@[i].rule@),
            decreases ids.len() - index,
        {
            let id = ids[index];
            match find_rule(rules, id) {
                None => {
                    proof {
                        lemma_protected_error_stays(view, ids@, (index + 1) as nat, ids@.len());
                    }
                    return Err(
                        ContextError::MissingProtectedRule { value: id.value, bit_len: id.bit_len },
                    );
                },
                Some(rule) => {
                    proof {
                        held = held.push((id, rule@));
                    }
                    list.push(ProtectedRule { id, rule: rule.copy() });
                },
            }
            index += 1;
        }
        let protected = ProtectedRules { rules: list };
        assert(protected@ =~= held);
        Ok(protected)
    }

    /// Returns protected rules in deterministic order.
    pub fn rules(&self) -> (result: &[ProtectedRule])
        ensures
            result@ == self.rules@,
    {
        self.rules.as_slice()
    }

    /// Returns protected identities in deterministic order.
    pub fn ids(&self) -> (result: Vec<RuleId>)
        ensures
            result@ == ids_of(self@),
    {
        let mut result: Vec<RuleId> = Vec::new();
        let mut index: usize = 0;
        while index < self.rules.len()
            invariant
                index <= self.rules@.len(),
                result@.len() == index,
                forall|i: int| 0 <= i < index ==> (#[trigger] result@[i]) == self.rules@[i].id,
            decreases self.rules.len() - index,
        {
            result.push(self.rules[index].id);
            index += 1;
        }
        assert(result@ =~= ids_of(self@));
        result
    }

    /// Returns whether the exact identity, including its bit length, is
    /// protected.
    pub fn contains(&self, id: RuleId) -> (result: bool)
        ensures
            result == protects(self@, id),
    {
        let mut index: usize = 0;
        while index < self.rules.len()
            invariant
                index <= self.rules@.len(),
                forall|i: int| 0 <= i < index ==> (#[trigger] self@[i]).0 != id,
            decreases self.rules.len() - index,
        {
            assert(self@[index as int].0 == self.rules@[index as int].id);
            if self.rules[index].id == id {
                return true;
            }
            index += 1;
        }
        false
    }

    /// Returns a copy of these rules.
    pub fn copy(&self) -> (result: Self)
        ensures
            result@ == self@,
    {
        let mut list: Vec<ProtectedRule> = Vec::new();
        let mut index: usize = 0;
        while index < self.rules.len()
            invariant
                index <= self.rules@.len(),
                list@.len() == index,
                forall|i: int|
                    0 <= i < index ==> (#[trigger] list@[i]).id == self.rules@[i].id
                        && list@[i].rule@ == self.rules@[i].rule@,
            decreases self.rules.len() - index,
        {
            list.push(
                ProtectedRule { id: self.rules[index].id, rule: self.rules[index].rule.copy() },
            );
            index += 1;
        }
        let result = ProtectedRules { rules: list };
        assert(result@ =~= self@);
        result
    }

    fn find(&self, id: RuleId) -> (result: Option<&Rule>)
        ensures
            match result {
                Some(rule) => definition_of(self@, id) == Some(rule@),
                None => definition_of(self@, id) is None,
            },
    {
        let ghost view = self@;
        proof {
            assert(view.skip(0) =~= view);
        }
        let mut index: usize = 0;
        while index < self.rules.len()
            invariant
                index <= self.rules@.len(),
                view == self@,
                definition_of(view, id) == definition_of(view.skip(index as int), id),
            decreases self.rules.len() - index,
        {
            proof {
                assert(view.skip(index as int)[0] == view[index as int]);
                assert(view.skip(index as int).drop_first() =~= view.skip(index + 1));
            }
            if self.rules[index].id == id {
                return Some(&self.rules[index].rule);
            }
            index += 1;
        }
        None
    }

    /// Checks that a candidate keeps every protected rule unchanged.
    pub fn enforce(&self, candidate: &Self) -> (result: Result<(), ContextError>)
        ensures
            match result {
                Ok(_) => enforcement_fault(self@, candidate@) is None,
                Err(error) => enforcement_fault(self@, candidate@) == Some(error@),
            },
    {
        if self.rules.len() != candidate.rules.len() {
            let head = join3(
                "protected RuleID set changed from ",
                format_ids(&self.ids()).as_str(),
                " to ",
            );
            return Err(
                ContextError::ProtectedRuleChanged(
                    join(head.as_str(), format_ids(&candidate.ids()).as_str()),
                ),
            );
        }
        let mut index: usize = 0;
        while index < self.rules.len()
            invariant
                index <= self.rules@.len(),
                self@.len() == candidate@.len(),
                changed_rule(self@, candidate@, index as nat) is None,
            decreases self.rules.len() - index,
        {
            let expected = &self.rules[index];
            assert(self@[index as int] == (expected.id, expected.rule@));
            match candidate.find(expected.id) {
                None => {
                    proof {
                        lemma_changed_rule_stays(
                            self@,
                            candidate@,
                            (index + 1) as nat,
                            self@.len(),
                        );
                    }
                    return Err(
                        ContextError::ProtectedRuleChanged(
                            join(
                                format_id(expected.id).as_str(),
                                " was deleted or re-identified",
                            ),
                        ),
                    );
                },
                Some(actual) => {
                    if !actual.same(&expected.rule) {
                        proof {
                            lemma_changed_rule_stays(
                                self@,
                                candidate@,
                                (index + 1) as nat,
                                self@.len(),
                            );
                        }
                        return Err(
                            ContextError::ProtectedRuleChanged(
                                join(
                                    format_id(expected.id).as_str(),
                                    " content or nature differs",
                                ),
                            ),
                        );
                    }
                },
            }
            index += 1;
        }
        Ok(())
    }
}

proof fn lemma_definition_found(protected: Seq<(RuleId, RuleView)>, at: int)
    requires
        0 <= at < protected.len(),
        increasing(ids_of(protected)),
    ensures
        definition_of(protected, protected[at].0) == Some(protected[at].1),
    decreases protected.len(),
{
    if at > 0 {
        let ids = ids_of(protected);
        assert(id_before(ids[0], ids[at]));
        assert(protected[0].0 == ids[0] && protected[at].0 == ids[at]);
        let rest = protected.drop_first();
        assert(increasing(ids_of(rest))) by {
            assert forall|i: int, j: int| 0 <= i < j < ids_of(rest).len() implies #[trigger] id_before(
                ids_of(rest)[i],
                ids_of(rest)[j],
            ) by {
                assert(ids_of(rest)[i] == ids[i + 1] && ids_of(rest)[j] == ids[j + 1]);
                assert(id_before(ids[i + 1], ids[j + 1]));
            }
        }
        lemma_definition_found(rest, at - 1);
        assert(rest[at - 1] == protected[at]);
    }
}

proof fn lemma_definition_is_held(protected: Seq<(RuleId, RuleView)>, id: RuleId)
    requires
        definition_of(protected, id) is Some,
    ensures
        exists|i: int|
            0 <= i < protected.len() && (#[trigger] protected[i]) == (
                id,
                definition_of(protected, id)->0,
            ),
    decreases protected.len(),
{
    if protected[0].0 == id {
        assert(protected[0] == (id, definition_of(protected, id)->0));
    } else {
        lemma_definition_is_held(protected.drop_first(), id);
        let at = choose|i: int|
            0 <= i < protected.drop_first().len() && (#[trigger] protected.drop_first()[i]) == (
                id,
                definition_of(protected, id)->0,
            );
        assert(protected[at + 1] == (id, definition_of(protected, id)->0));
    }
}

proof fn lemma_unchanged_prefix(
    expected: Seq<(RuleId, RuleView)>,
    candidate: Seq<(RuleId, RuleView)>,
    count: nat,
    at: int,
)
    requires
        0 <= at < count <= expected.len(),
        changed_rule(expected, candidate, count) is None,
    ensures
        definition_of(candidate, expected[at].0) == Some(expected[at].1),
    decreases count,
{
    if at < count - 1 {
        lemma_unchanged_prefix(expected, candidate, (count - 1) as nat, at);
    }
}

/// Where an expected rule stands in a candidate that keeps it: not before its
/// own place.
proof fn lemma_place(
    expected: Seq<(RuleId, RuleView)>,
    candidate: Seq<(RuleId, RuleView)>,
    at: int,
) -> (place: int)
    requires
        increasing(ids_of(expected)),
        increasing(ids_of(candidate)),
        expected.len() == candidate.len(),
        changed_rule(expected, candidate, expected.len()) is None,
        0 <= at < expected.len(),
    ensures
        at <= place < candidate.len(),
        candidate[place] == expected[at],
    decreases at,
{
    lemma_unchanged_prefix(expected, candidate, expected.len(), at);
    lemma_definition_is_held(candidate, expected[at].0);
    let place = choose|i: int|
        0 <= i < candidate.len() && (#[trigger] candidate[i]) == (
            expected[at].0,
            definition_of(candidate, expected[at].0)->0,
        );
    if at > 0 {
        let before = lemma_place(expected, candidate, at - 1);
        let ids = ids_of(expected);
        let others = ids_of(candidate);
        assert(id_before(ids[at - 1], ids[at]));
        assert(others[before] == ids[at - 1]);
        assert(others[place] == ids[at]);
        if place <= before {
            if place < before {
                assert(id_before(others[place], others[before]));
            }
        }
    }
    place
}

proof fn lemma_same_place(
    expected: Seq<(RuleId, RuleView)>,
    candidate: Seq<(RuleId, RuleView)>,
    at: int,
)
    requires
        increasing(ids_of(expected)),
        increasing(ids_of(candidate)),
        expected.len() == candidate.len(),
        changed_rule(expected, candidate, expected.len()) is None,
        0 <= at < expected.len(),
    ensures
        candidate[at] == expected[at],
    decreases expected.len() - at,
{
    let place = lemma_place(expected, candidate, at);
    if at + 1 < expected.len() {
        lemma_same_place(expected, candidate, at + 1);
        let ids = ids_of(expected);
        let others = ids_of(candidate);
        assert(id_before(ids[at], ids[at + 1]));
        assert(others[at + 1] == ids[at + 1]);
        assert(others[place] == ids[at]);
        if place > at {
            if place > at + 1 {
                assert(id_before(others[at + 1], others[place]));
            }
        }
    }
}

/// A candidate is accepted exactly when its protected rules are the same
/// rules: none is added, removed, re-identified, re-natured or changed.
pub proof fn enforcement_admits_only_the_same_rules(
    expected: Seq<(RuleId, RuleView)>,
    candidate: Seq<(RuleId, RuleView)>,
)
    requires
        increasing(ids_of(expected)),
        increasing(ids_of(candidate)),
    ensures
        enforcement_fault(expected, candidate) is None <==> expected == candidate,
{
    if enforcement_fault(expected, candidate) is None {
        assert forall|i: int| 0 <= i < expected.len() implies expected[i] == candidate[i] by {
            lemma_same_place(expected, candidate, i);
        }
        assert(expected =~= candidate);
    }
    if expected == candidate {
        lemma_nothing_changed(expected, expected.len());
    }
}

proof fn lemma_nothing_changed(expected: Seq<(RuleId, RuleView)>, count: nat)
    requires
        increasing(ids_of(expected)),
        count <= expected.len(),
    ensures
        changed_rule(expected, expected, count) is None,
    decreases count,
{
    if count > 0 {
        lemma_nothing_changed(expected, (count - 1) as nat);
        lemma_definition_found(expected, count - 1);
    }
}

proof fn lemma_protected_ids(rules: Seq<RuleView>, ids: Seq<RuleId>, count: nat)
    requires
        count <= ids.len(),
        protected_for(rules, ids, count) is Ok,
    ensures
        ids_of(protected_for(rules, ids, count)->Ok_0) == ids.take(count as int),
    decreases count,
{
    if count == 0 {
        assert(ids_of(protected_for(rules, ids, count)->Ok_0) =~= ids.take(0));
    } else {
        lemma_protected_ids(rules, ids, (count - 1) as nat);
        let before = protected_for(rules, ids, (count - 1) as nat)->Ok_0;
        let held = protected_for(rules, ids, count)->Ok_0;
        assert(held == before.push((ids[count - 1], rule_with_id(rules, ids[count - 1])->0)));
        assert(ids_of(held) =~= ids_of(before).push(ids[count - 1]));
        assert(ids.take(count as int) =~= ids.take(count - 1).push(ids[count - 1]));
    }
}

/// The protected rules of a context are those of the policy and those whose
/// nature is management, each once and in order.
pub proof fn derived_rules_are_those_of_policy_and_nature(
    rules: Seq<RuleView>,
    policy: Seq<RuleId>,
)
    requires
        derived(rules, policy) is Ok,
    ensures
        increasing(ids_of(derived(rules, policy)->Ok_0)),
        forall|id: RuleId|
            #![trigger ids_of(derived(rules, policy)->Ok_0).contains(id)]
            ids_of(derived(rules, policy)->Ok_0).contains(id) == (policy.contains(id)
                || management_ids(rules).contains(id)),
{
    let all = policy + management_ids(rules);
    let ids = distinct_ids(all);
    distinct_ids_are_ordered_and_complete(all);
    lemma_protected_ids(rules, ids, ids.len());
    assert(ids.take(ids.len() as int) =~= ids);
    assert forall|id: RuleId| #[trigger] ids_of(derived(rules, policy)->Ok_0).contains(id) == (
    policy.contains(id) || management_ids(rules).contains(id)) by {
        assert(ids.contains(id) == all.contains(id));
        if policy.contains(id) {
            let at = choose|i: int| 0 <= i < policy.len() && policy[i] == id;
            assert(all[at] == id);
        }
        if management_ids(rules).contains(id) {
            let at = choose|i: int|
                0 <= i < management_ids(rules).len() && management_ids(rules)[i] == id;
            assert(all[policy.len() + at] == id);
        }
    }
}

/// The identities of the management rules that the mechanism keeps immutable.
pub open spec fn management_rule_ids() -> Seq<RuleId> {
    seq![
        RuleId { value: 16, bit_len: 8 },
        RuleId { value: 17, bit_len: 8 },
        RuleId { value: 26, bit_len: 8 },
        RuleId { value: 27, bit_len: 8 },
        RuleId { value: 28, bit_len: 8 },
        RuleId { value: 29, bit_len: 8 },
    ]
}

/// Returns the identities of the management rules that the mechanism keeps
/// immutable.
pub fn protected_management_rule_ids() -> (result: [RuleId; 6])
    ensures
        result@ == management_rule_ids(),
{
    let ids = [
        RuleId::new(16, 8),
        RuleId::new(17, 8),
        RuleId::new(26, 8),
        RuleId::new(27, 8),
        RuleId::new(28, 8),
        RuleId::new(29, 8),
    ];
    assert(ids@ =~= management_rule_ids());
    ids
}

/// The distinct identities of a list stand by ascending length and, among
/// those of one length, by ascending value.
pub proof fn distinct_ids_ascend(ids: Seq<RuleId>)
    ensures
        forall|i: int, j: int|
            0 <= i < j < distinct_ids(ids).len() ==> (#[trigger] distinct_ids(ids)[i]).bit_len < (
            #[trigger] distinct_ids(ids)[j]).bit_len || (distinct_ids(ids)[i].bit_len
                == distinct_ids(ids)[j].bit_len && distinct_ids(ids)[i].value
                < distinct_ids(ids)[j].value),
{
    distinct_ids_are_ordered_and_complete(ids);
    assert forall|i: int, j: int| 0 <= i < j < distinct_ids(ids).len() implies (
    #[trigger] distinct_ids(ids)[i]).bit_len < (#[trigger] distinct_ids(ids)[j]).bit_len || (
    distinct_ids(ids)[i].bit_len == distinct_ids(ids)[j].bit_len && distinct_ids(ids)[i].value
        < distinct_ids(ids)[j].value) by {
        assert(id_before(distinct_ids(ids)[i], distinct_ids(ids)[j]));
    }
}

/// The management identities of a context are those of its rules whose nature
/// is management.
pub proof fn management_ids_are_those_of_the_nature(rules: Seq<RuleView>, id: RuleId)
    ensures
        management_ids(rules).contains(id) <==> exists|i: int|
            0 <= i < rules.len() && (#[trigger] rules[i]).nature is Management && rules[i].id == id,
    decreases rules.len(),
{
    let ids = management_ids(rules);
    if rules.len() == 0 {
        assert(!ids.contains(id));
    } else {
        let front = rules.drop_last();
        let before = management_ids(front);
        management_ids_are_those_of_the_nature(front, id);
        if before.contains(id) {
            let at = choose|i: int| 0 <= i < before.len() && before[i] == id;
            assert(ids[at] == id);
            let i = choose|i: int|
                0 <= i < front.len() && (#[trigger] front[i]).nature is Management && front[i].id
                    == id;
            assert(rules[i] == front[i]);
        } else if ids.contains(id) {
            let at = choose|i: int| 0 <= i < ids.len() && ids[i] == id;
            if at < before.len() {
                assert(before[at] == id);
            }
            assert(rules[rules.len() - 1].nature is Management);
        } else if exists|i: int|
            0 <= i < rules.len() && (#[trigger] rules[i]).nature is Management && rules[i].id
                == id {
            let i = choose|i: int|
                0 <= i < rules.len() && (#[trigger] rules[i]).nature is Management && rules[i].id
                    == id;
            if i < front.len() {
                assert(front[i].nature is Management && front[i].id == id);
            } else {
                assert(ids[ids.len() - 1] == id);
            }
        }
    }
}

proof fn lemma_protected_definitions(rules: Seq<RuleView>, ids: Seq<RuleId>, count: nat)
    requires
        count <= ids.len(),
        protected_for(rules, ids, count) is Ok,
    ensures
        protected_for(rules, ids, count)->Ok_0.len() == count,
        forall|i: int|
            0 <= i < count ==> rule_with_id(rules, #[trigger] ids[i]) == Some(
                protected_for(rules, ids, count)->Ok_0[i].1,
            ) && protected_for(rules, ids, count)->Ok_0[i].0 == ids[i],
    decreases count,
{
    if count > 0 {
        lemma_protected_definitions(rules, ids, (count - 1) as nat);
        let before = protected_for(rules, ids, (count - 1) as nat)->Ok_0;
        let held = protected_for(rules, ids, count)->Ok_0;
        assert forall|i: int| 0 <= i < count implies rule_with_id(rules, #[trigger] ids[i])
            == Some(held[i].1) && held[i].0 == ids[i] by {
            if i < count - 1 {
                assert(held[i] == before[i]);
            }
        }
    }
}

/// Every protected rule is held with the definition that the context gives to
/// its identity.
pub proof fn protected_rules_have_their_definitions(
    rules: Seq<RuleView>,
    policy: Seq<RuleId>,
    at: int,
)
    requires
        derived(rules, policy) is Ok,
        0 <= at < derived(rules, policy)->Ok_0.len(),
    ensures
        rule_with_id(rules, derived(rules, policy)->Ok_0[at].0) == Some(
            derived(rules, policy)->Ok_0[at].1,
        ),
{
    let ids = distinct_ids(policy + management_ids(rules));
    lemma_protected_definitions(rules, ids, ids.len());
    assert(derived(rules, policy)->Ok_0[at].0 == ids[at]);
}

/// The management rules that stay immutable are sixteen, seventeen and
/// twenty-six to twenty-nine, all of eight bits.
pub proof fn immutable_management_rules_are_six(id: RuleId)
    ensures
        management_rule_ids().contains(id) <==> id.bit_len == 8 && (16 <= id.value <= 17 || 26
            <= id.value <= 29),
{
    let ids = management_rule_ids();
    if id.bit_len == 8 {
        if id.value == 16 {
            assert(ids[0] == id);
        }
        if id.value == 17 {
            assert(ids[1] == id);
        }
        if 26 <= id.value <= 29 {
            assert(ids[id.value - 24] == id);
        }
    }
}

/// A changed protected rule is reported by its value and its bit length.
pub proof fn protected_rule_is_reported_by_its_identity(id: RuleId)
    ensures
        short_text(id) == "RuleID "@ + decimal(id.value as nat) + "/"@ + decimal(id.bit_len as nat),
        id_text(id) == "RuleId { value: "@ + decimal(id.value as nat) + ", bit_len: "@ + decimal(
            id.bit_len as nat,
        ) + " }"@,
{
}

/// An identity is protected exactly when it is that of a protected rule.
pub proof fn protected_ids_are_those_of_the_protected_rules(
    protected: Seq<(RuleId, RuleView)>,
    id: RuleId,
)
    ensures
        protects(protected, id) <==> ids_of(protected).contains(id),
        protected.len() == 0 ==> !protects(protected, id),
{
    if protects(protected, id) {
        let i = choose|i: int| 0 <= i < protected.len() && (#[trigger] protected[i]).0 == id;
        assert(ids_of(protected)[i] == id);
    }
    if ids_of(protected).contains(id) {
        let i = choose|i: int| 0 <= i < ids_of(protected).len() && ids_of(protected)[i] == id;
        assert(protected[i].0 == id);
    }
}

} // verus!
