//! Instance paths: SID steps and list keys that lead to one node of a tree.

use vstd::prelude::*;

use crate::error::{duplicate_fault, invalid_duplicate, unexpected, Fault, InspectionError};
use crate::json::{unsigned, Json, JsonValue};
use crate::selector::RuleSelector;
use crate::sid::ModelSids;

verus! {

/// One step of an instance path as a mathematical value.
pub enum Step {
    /// The difference of a SID to the one before.
    Delta(int),
    /// The value of a list key.
    Key(Json),
}

/// One step of an instance path.
#[derive(Debug)]
pub enum PathComponent {
    /// The difference of a SID to the one before.
    SidDelta(i64),
    /// The value of a list key.
    KeyValue(JsonValue),
}

impl View for PathComponent {
    type V = Step;

    open spec fn view(&self) -> Step {
        match self {
            PathComponent::SidDelta(delta) => Step::Delta(*delta as int),
            PathComponent::KeyValue(value) => Step::Key(value@),
        }
    }
}

/// A path to one node of a tree.
#[derive(Debug)]
pub struct InstancePath {
    /// Steps from the root.
    pub components: Vec<PathComponent>,
}

impl View for InstancePath {
    type V = Seq<Step>;

    open spec fn view(&self) -> Seq<Step> {
        Seq::new(self.components@.len(), |i: int| self.components@[i]@)
    }
}

/// One node of a tree: its path and its value, or no value for a deletion.
#[derive(Debug)]
pub struct Instance {
    /// Path of the node.
    pub path: InstancePath,
    /// Value of the node.
    pub value: Option<JsonValue>,
}

/// A node of a tree as a mathematical value.
pub struct InstanceView {
    /// Path of the node.
    pub path: Seq<Step>,
    /// Value of the node.
    pub value: Option<Json>,
}

/// The tree of an optional value.
pub open spec fn value_view(value: Option<JsonValue>) -> Option<Json> {
    match value {
        Some(held) => Some(held@),
        None => None,
    }
}

impl View for Instance {
    type V = InstanceView;

    open spec fn view(&self) -> InstanceView {
        InstanceView { path: self.path@, value: value_view(self.value) }
    }
}

/// The nodes of a list.
pub open spec fn instances_view(instances: Seq<Instance>) -> Seq<InstanceView> {
    Seq::new(instances.len(), |i: int| instances[i]@)
}

impl InstancePath {
    /// Creates an empty path.
    pub fn new() -> (result: Self)
        ensures
            result@ == Seq::<Step>::empty(),
    {
        let result = InstancePath { components: Vec::new() };
        assert(result@ =~= Seq::<Step>::empty());
        result
    }

    /// Returns the steps of this path.
    pub fn components(&self) -> (result: &Vec<PathComponent>)
        ensures
            self@ == Seq::new(result@.len(), |i: int| result@[i]@),
    {
        &self.components
    }

    /// Adds a SID step.
    pub fn push_delta(&mut self, delta: i64)
        ensures
            final(self)@ == old(self)@.push(Step::Delta(delta as int)),
    {
        self.components.push(PathComponent::SidDelta(delta));
        assert(self@ =~= old(self)@.push(Step::Delta(delta as int)));
    }

    /// Adds a list key.
    pub fn push_key(&mut self, key: JsonValue)
        ensures
            final(self)@ == old(self)@.push(Step::Key(key@)),
    {
        self.components.push(PathComponent::KeyValue(key));
        assert(self@ =~= old(self)@.push(Step::Key(key@)));
    }

    /// Returns a copy of this path.
    pub fn copy(&self) -> (result: Self)
        ensures
            result@ == self@,
    {
        let mut result = InstancePath::new();
        let mut index: usize = 0;
        while index < self.components.len()
            invariant
                index <= self.components@.len(),
                result@ == self@.take(index as int),
            decreases self.components.len() - index,
        {
            match &self.components[index] {
                PathComponent::SidDelta(delta) => result.push_delta(*delta),
                PathComponent::KeyValue(value) => result.push_key(value.copy()),
            }
            assert(result@ =~= self@.take(index + 1));
            index += 1;
        }
        assert(self@.take(index as int) =~= self@);
        result
    }
}

impl Instance {
    /// Returns a copy of this node.
    pub fn copy(&self) -> (result: Self)
        ensures
            result@ == self@,
    {
        let value = match &self.value {
            Some(value) => Some(value.copy()),
            None => None,
        };
        Instance { path: self.path.copy(), value }
    }
}

/// The SID that the steps of a path add up to.
pub open spec fn absolute(path: Seq<Step>) -> int
    decreases path.len(),
{
    if path.len() == 0 {
        0
    } else {
        absolute(path.drop_last()) + match path.last() {
            Step::Delta(delta) => delta,
            Step::Key(_) => 0,
        }
    }
}

/// The SIDs that a path visits.
pub open spec fn path_sids(path: Seq<Step>) -> Seq<int>
    decreases path.len(),
{
    if path.len() == 0 {
        Seq::empty()
    } else {
        match path.last() {
            Step::Delta(_) => path_sids(path.drop_last()).push(absolute(path)),
            Step::Key(_) => path_sids(path.drop_last()),
        }
    }
}

/// The list keys of a path.
pub open spec fn path_keys(path: Seq<Step>) -> Seq<Json>
    decreases path.len(),
{
    if path.len() == 0 {
        Seq::empty()
    } else {
        match path.last() {
            Step::Delta(_) => path_keys(path.drop_last()),
            Step::Key(value) => path_keys(path.drop_last()).push(value),
        }
    }
}

/// The number of a list key, when there is such a key and it is an unsigned
/// integer.
pub open spec fn key_number(keys: Seq<Json>, at: int) -> Option<u64> {
    if 0 <= at < keys.len() {
        unsigned(keys[at])
    } else {
        None
    }
}

/// The numbers of list keys.
pub open spec fn key_numbers(keys: Seq<Json>) -> Seq<Option<u64>> {
    keys.map_values(|key: Json| unsigned(key))
}

/// Integers as mathematical integers.
pub open spec fn widened(sids: Seq<i128>) -> Seq<int> {
    sids.map_values(|sid: i128| sid as int)
}

/// Collects the SIDs that a path visits and the numbers of its keys.
fn walk(path: &InstancePath) -> (result: (Vec<i128>, Vec<Option<u64>>))
    ensures
        widened(result.0@) == path_sids(path@),
        result.1@ == key_numbers(path_keys(path@)),
{
    let mut sids: Vec<i128> = Vec::new();
    let mut keys: Vec<Option<u64>> = Vec::new();
    let mut total: i128 = 0;
    let mut index: usize = 0;
    let ghost steps = path@;
    proof {
        assert(widened(sids@) =~= path_sids(steps.take(0)));
        assert(keys@ =~= key_numbers(path_keys(steps.take(0))));
    }
    while index < path.components.len()
        invariant
            index <= path.components@.len(),
            steps == path@,
            total == absolute(steps.take(index as int)),
            -(0x8000_0000_0000_0000 * index) <= total <= 0x8000_0000_0000_0000 * index,
            widened(sids@) == path_sids(steps.take(index as int)),
            keys@ == key_numbers(path_keys(steps.take(index as int))),
        decreases path.components.len() - index,
    {
        proof {
            assert(steps.take(index + 1).drop_last() =~= steps.take(index as int));
            assert(steps.take(index + 1).last() == steps[index as int]);
        }
        match &path.components[index] {
            PathComponent::SidDelta(delta) => {
                total = total + *delta as i128;
                let ghost before = sids@;
                sids.push(total);
                assert(widened(sids@) =~= widened(before).push(total as int));
            },
            PathComponent::KeyValue(value) => {
                keys.push(value.as_u64());
                assert(keys@ =~= key_numbers(path_keys(steps.take(index + 1))));
            },
        }
        index += 1;
    }
    assert(steps.take(index as int) =~= steps);
    (sids, keys)
}

/// A number as a list key.
pub open spec fn number_key(number: int) -> Step {
    Step::Key(Json::Integer(number))
}

/// The path of one target value.
pub open spec fn target_path(
    sids: ModelSids,
    rule: RuleSelector,
    entry_index: int,
    target_index: int,
) -> Seq<Step> {
    seq![
        Step::Delta(sids.root as int),
        Step::Delta(sids.rule - sids.root),
        number_key(rule.value as int),
        number_key(rule.bits as int),
        Step::Delta(sids.entry - sids.rule),
        number_key(entry_index),
        Step::Delta(sids.target - sids.entry),
        number_key(target_index),
        Step::Delta(sids.target_value - sids.target),
    ]
}

/// Adds the step from one SID to the next.
fn push_sid(path: &mut InstancePath, previous: i64, sid: i64)
    requires
        previous >= 0,
        sid >= 0,
    ensures
        final(path)@ == old(path)@.push(Step::Delta(sid - previous)),
{
    path.push_delta(sid - previous);
}

fn push_number(path: &mut InstancePath, number: u64)
    ensures
        final(path)@ == old(path)@.push(number_key(number as int)),
{
    path.push_key(JsonValue::Integer(number as i128));
}

/// Builds the path of one target value.
pub fn target_value_path(
    sids: ModelSids,
    rule: RuleSelector,
    entry_index: usize,
    target_value_index: usize,
) -> (result: InstancePath)
    requires
        sids.well_formed(),
    ensures
        result@ == target_path(sids, rule, entry_index as int, target_value_index as int),
{
    let mut path = InstancePath::new();
    push_sid(&mut path, 0, sids.root);
    push_sid(&mut path, sids.root, sids.rule);
    push_number(&mut path, rule.value);
    push_number(&mut path, rule.bits as u64);
    push_sid(&mut path, sids.rule, sids.entry);
    push_number(&mut path, entry_index as u64);
    push_sid(&mut path, sids.entry, sids.target);
    push_number(&mut path, target_value_index as u64);
    push_sid(&mut path, sids.target, sids.target_value);
    assert(path@ =~= target_path(sids, rule, entry_index as int, target_value_index as int));
    path
}

/// The path of the root container, or of one rule inside it.
pub open spec fn request_path(root: int, rule: int, selector: Option<RuleSelector>) -> Seq<Step> {
    match selector {
        None => seq![Step::Delta(root)],
        Some(selected) => seq![
            Step::Delta(root),
            Step::Delta(rule - root),
            number_key(selected.value as int),
            number_key(selected.bits as int),
        ],
    }
}

/// Builds the path of the root container, or of one rule inside it.
pub fn management_instance_path(
    root_sid: i64,
    rule_sid: i64,
    selector: Option<RuleSelector>,
) -> (result: Result<InstancePath, InspectionError>)
    ensures
        match result {
            Ok(path) => {
                &&& path@ == request_path(root_sid as int, rule_sid as int, selector)
                &&& selector is Some ==> i64::MIN <= rule_sid - root_sid <= i64::MAX
            },
            Err(error) => {
                &&& selector is Some
                &&& !(i64::MIN <= rule_sid - root_sid <= i64::MAX)
                &&& error@ == Fault::Datastore("rule-list SID delta overflows"@)
            },
        },
{
    let mut path = InstancePath::new();
    path.push_delta(root_sid);
    match selector {
        None => {},
        Some(selected) => {
            match rule_sid.checked_sub(root_sid) {
                None => {
                    return Err(
                        InspectionError::Datastore("rule-list SID delta overflows".to_owned()),
                    );
                },
                Some(delta) => path.push_delta(delta),
            }
            push_number(&mut path, selected.value);
            push_number(&mut path, selected.bits as u64);
        },
    }
    assert(path@ =~= request_path(root_sid as int, rule_sid as int, selector));
    Ok(path)
}

/// Checks that a path is that of the root container.
pub fn validate_root_instance_path(path: &InstancePath, root_sid: i64) -> (result: Result<
    (),
    InspectionError,
>)
    ensures
        match result {
            Ok(_) => path@ == seq![Step::Delta(root_sid as int)],
            Err(error) => {
                &&& path@ != seq![Step::Delta(root_sid as int)]
                &&& error@ == Fault::UnexpectedResponse(
                    "rule-list response did not contain the canonical SCHC root instance"@,
                )
            },
        },
{
    if path.components.len() == 1 {
        if let PathComponent::SidDelta(delta) = &path.components[0] {
            if *delta == root_sid {
                assert(path@ =~= seq![Step::Delta(root_sid as int)]);
                return Ok(());
            }
        }
        assert(path@[0] == path.components@[0]@);
    }
    proof {
        if path@ == seq![Step::Delta(root_sid as int)] {
            assert(path@.len() == 1);
            assert(path@[0] == Step::Delta(root_sid as int));
        }
    }
    Err(unexpected("rule-list response did not contain the canonical SCHC root instance"))
}

/// The numbers of those list keys that are unsigned integers.
pub open spec fn numeric_keys(keys: Seq<Json>) -> Seq<u64>
    decreases keys.len(),
{
    if keys.len() == 0 {
        Seq::empty()
    } else {
        match unsigned(keys.last()) {
            Some(number) => numeric_keys(keys.drop_last()).push(number),
            None => numeric_keys(keys.drop_last()),
        }
    }
}

/// The error of a path that is not that of the selected rule.
pub open spec fn rule_path_fault(
    path: Seq<Step>,
    root: int,
    rule: int,
    selector: RuleSelector,
) -> Option<Fault> {
    if path_sids(path) != seq![root, rule] || path_keys(path).len() != 2 {
        Some(
            Fault::UnexpectedResponse(
                "rule response contained an unexpected projected or full path"@,
            ),
        )
    } else if numeric_keys(path_keys(path)).len() != 2 {
        Some(
            Fault::UnexpectedResponse("rule response did not contain exactly two RuleID keys"@),
        )
    } else if numeric_keys(path_keys(path)) != seq![selector.value, selector.bits as u64] {
        Some(
            Fault::UnexpectedResponse("rule-get response did not carry the requested list keys"@),
        )
    } else {
        None
    }
}

proof fn lemma_two_numeric_keys(keys: Seq<Json>)
    requires
        keys.len() == 2,
    ensures
        (numeric_keys(keys).len() == 2) == (unsigned(keys[0]) is Some && unsigned(keys[1]) is Some),
        unsigned(keys[0]) is Some && unsigned(keys[1]) is Some ==> numeric_keys(keys) == seq![
            unsigned(keys[0])->0,
            unsigned(keys[1])->0,
        ],
{
    assert(keys.drop_last().len() == 1);
    assert(keys.drop_last().last() == keys[0]);
    assert(keys.drop_last().drop_last() =~= Seq::<Json>::empty());
    reveal_with_fuel(numeric_keys, 3);
    if unsigned(keys[0]) is Some && unsigned(keys[1]) is Some {
        assert(numeric_keys(keys) =~= seq![unsigned(keys[0])->0, unsigned(keys[1])->0]);
    }
}

/// Checks that a path is that of the selected rule.
pub fn validate_rule_instance_path(
    path: &InstancePath,
    root_sid: i64,
    rule_sid: i64,
    selector: RuleSelector,
) -> (result: Result<(), InspectionError>)
    ensures
        match result {
            Ok(_) => rule_path_fault(path@, root_sid as int, rule_sid as int, selector) is None,
            Err(error) => rule_path_fault(path@, root_sid as int, rule_sid as int, selector)
                == Some(error@),
        },
{
    let (sids, keys) = walk(path);
    proof {
        assert(widened(sids@).len() == sids@.len());
        assert(keys@.len() == path_keys(path@).len());
        assert(forall|i: int|
            0 <= i < sids@.len() ==> (#[trigger] path_sids(path@)[i]) == sids@[i] as int) by {
            assert forall|i: int| 0 <= i < sids@.len() implies (#[trigger] path_sids(path@)[i])
                == sids@[i] as int by {
                assert(widened(sids@)[i] == sids@[i] as int);
            }
        }
    }
    let expected = sids.len() == 2 && sids[0] == root_sid as i128 && sids[1] == rule_sid as i128;
    proof {
        let wanted = seq![root_sid as int, rule_sid as int];
        if expected {
            assert(path_sids(path@) =~= wanted);
        } else if path_sids(path@) == wanted {
            assert(path_sids(path@).len() == 2);
            assert(path_sids(path@)[0] == root_sid as int);
            assert(path_sids(path@)[1] == rule_sid as int);
        }
    }
    if !expected || keys.len() != 2 {
        return Err(unexpected("rule response contained an unexpected projected or full path"));
    }
    proof {
        lemma_two_numeric_keys(path_keys(path@));
        assert(keys@[0] == unsigned(path_keys(path@)[0]));
        assert(keys@[1] == unsigned(path_keys(path@)[1]));
    }
    match (keys[0], keys[1]) {
        (Some(value), Some(bits)) => {
            proof {
                let found = seq![value, bits];
                let wanted = seq![selector.value, selector.bits as u64];
                if found == wanted {
                    assert(found[0] == wanted[0] && found[1] == wanted[1]);
                }
            }
            if value == selector.value && bits == selector.bits as u64 {
                Ok(())
            } else {
                Err(unexpected("rule-get response did not carry the requested list keys"))
            }
        },
        _ => Err(unexpected("rule response did not contain exactly two RuleID keys")),
    }
}

/// The leaf of an entry that a duplicate operation changes.
#[derive(Debug, Clone, Copy, PartialEq, Eq, Structural)]
pub enum DuplicateLeaf {
    /// The target value.
    Target,
    /// The matching operator.
    MatchingOperator,
    /// The action.
    Cda,
}

impl DuplicateLeaf {
    /// The name of this leaf.
    pub open spec fn named(self) -> Seq<char> {
        match self {
            DuplicateLeaf::Target => "Target"@,
            DuplicateLeaf::MatchingOperator => "MatchingOperator"@,
            DuplicateLeaf::Cda => "Cda"@,
        }
    }

    /// Returns the name of this leaf.
    pub fn name(self) -> (result: &'static str)
        ensures
            result@ == self.named(),
    {
        match self {
            DuplicateLeaf::Target => "Target",
            DuplicateLeaf::MatchingOperator => "MatchingOperator",
            DuplicateLeaf::Cda => "Cda",
        }
    }

    /// The SID of this leaf.
    pub open spec fn sid(self, sids: ModelSids) -> i64 {
        match self {
            DuplicateLeaf::Target => sids.target_value,
            DuplicateLeaf::MatchingOperator => sids.matching_operator,
            DuplicateLeaf::Cda => sids.cda,
        }
    }
}

/// The SIDs on the way to an entry leaf.
pub open spec fn leaf_sids(sids: ModelSids, leaf: DuplicateLeaf) -> Seq<int> {
    let entry = seq![sids.root as int, sids.rule as int, sids.entry as int];
    match leaf {
        DuplicateLeaf::Target => entry.push(sids.target as int).push(sids.target_value as int),
        DuplicateLeaf::MatchingOperator => entry.push(sids.matching_operator as int),
        DuplicateLeaf::Cda => entry.push(sids.cda as int),
    }
}

/// The leaf that the SIDs of a path lead to.
pub open spec fn leaf_at(visited: Seq<int>, keys: nat, sids: ModelSids) -> Option<DuplicateLeaf> {
    if visited == leaf_sids(sids, DuplicateLeaf::MatchingOperator) {
        Some(DuplicateLeaf::MatchingOperator)
    } else if visited == leaf_sids(sids, DuplicateLeaf::Cda) {
        Some(DuplicateLeaf::Cda)
    } else if visited == leaf_sids(sids, DuplicateLeaf::Target) && keys == 4 {
        Some(DuplicateLeaf::Target)
    } else {
        None
    }
}

/// The entry and leaf that the path of a change leads to.
pub open spec fn changed_leaf(path: Seq<Step>, destination: RuleSelector, sids: ModelSids) -> Result<
    (usize, DuplicateLeaf),
    Fault,
> {
    let keys = path_keys(path);
    match (key_number(keys, 0), key_number(keys, 1), key_number(keys, 2)) {
        (None, _, _) => Err(duplicate_fault("override path is missing destination value"@)),
        (_, None, _) => Err(duplicate_fault("override path is missing destination length"@)),
        (Some(value), Some(bits), entry) => if value != destination.value || bits
            != destination.bits as u64 {
            Err(duplicate_fault("override path destination does not match RPC destination"@))
        } else {
            match entry {
                None => Err(duplicate_fault("override path is missing entry-index"@)),
                Some(entry_index) => if entry_index > usize::MAX {
                    Err(duplicate_fault("entry-index is too large"@))
                } else {
                    match leaf_at(path_sids(path), keys.len(), sids) {
                        None => Err(duplicate_fault("override path names an unsupported field"@)),
                        Some(leaf) => if leaf == DuplicateLeaf::Target && key_number(keys, 3)
                            != Some(0u64) {
                            Err(duplicate_fault("target-value index must be zero"@))
                        } else {
                            Ok((entry_index as usize, leaf))
                        },
                    }
                },
            }
        },
    }
}

fn same_sids(visited: &Vec<i128>, expected: &Vec<i128>) -> (result: bool)
    ensures
        result == (widened(visited@) == widened(expected@)),
{
    if visited.len() != expected.len() {
        assert(widened(visited@).len() != widened(expected@).len());
        return false;
    }
    let mut index: usize = 0;
    while index < visited.len()
        invariant
            index <= visited@.len(),
            visited@.len() == expected@.len(),
            forall|i: int| 0 <= i < index ==> visited@[i] == expected@[i],
        decreases visited.len() - index,
    {
        if visited[index] != expected[index] {
            assert(widened(visited@)[index as int] != widened(expected@)[index as int]);
            return false;
        }
        index += 1;
    }
    assert(widened(visited@) =~= widened(expected@));
    true
}

fn find_leaf(visited: &Vec<i128>, keys: usize, sids: &ModelSids) -> (result: Option<DuplicateLeaf>)
    ensures
        result == leaf_at(widened(visited@), keys as nat, *sids),
{
    let matching: Vec<i128> = vec![
        sids.root as i128,
        sids.rule as i128,
        sids.entry as i128,
        sids.matching_operator as i128,
    ];
    assert(widened(matching@) =~= leaf_sids(*sids, DuplicateLeaf::MatchingOperator));
    if same_sids(visited, &matching) {
        return Some(DuplicateLeaf::MatchingOperator);
    }
    let action: Vec<i128> = vec![
        sids.root as i128,
        sids.rule as i128,
        sids.entry as i128,
        sids.cda as i128,
    ];
    assert(widened(action@) =~= leaf_sids(*sids, DuplicateLeaf::Cda));
    if same_sids(visited, &action) {
        return Some(DuplicateLeaf::Cda);
    }
    let target: Vec<i128> = vec![
        sids.root as i128,
        sids.rule as i128,
        sids.entry as i128,
        sids.target as i128,
        sids.target_value as i128,
    ];
    assert(widened(target@) =~= leaf_sids(*sids, DuplicateLeaf::Target));
    if same_sids(visited, &target) && keys == 4 {
        return Some(DuplicateLeaf::Target);
    }
    None
}

fn number_at(keys: &Vec<Option<u64>>, at: usize, Ghost(held): Ghost<Seq<Json>>) -> (result: Option<
    u64,
>)
    requires
        keys@ == key_numbers(held),
    ensures
        result == key_number(held, at as int),
{
    assert(keys@.len() == held.len());
    if at < keys.len() {
        assert(keys@[at as int] == unsigned(held[at as int]));
        keys[at]
    } else {
        None
    }
}

/// Finds the entry and leaf that the path of a change leads to.
pub fn duplicate_leaf_from_path(
    path: &InstancePath,
    destination: RuleSelector,
    sids: &ModelSids,
) -> (result: Result<(usize, DuplicateLeaf), InspectionError>)
    ensures
        match result {
            Ok(found) => changed_leaf(path@, destination, *sids) == Ok::<
                (usize, DuplicateLeaf),
                Fault,
            >(found),
            Err(error) => changed_leaf(path@, destination, *sids) == Err::<
                (usize, DuplicateLeaf),
                Fault,
            >(error@),
        },
{
    let (visited, keys) = walk(path);
    let ghost held = path_keys(path@);
    assert(keys@.len() == held.len());
    let value: u64 = match number_at(&keys, 0, Ghost(held)) {
        Some(value) => value,
        None => {
            return Err(invalid_duplicate("override path is missing destination value"));
        },
    };
    let bits: u64 = match number_at(&keys, 1, Ghost(held)) {
        Some(bits) => bits,
        None => {
            return Err(invalid_duplicate("override path is missing destination length"));
        },
    };
    if value != destination.value || bits != destination.bits as u64 {
        return Err(
            invalid_duplicate("override path destination does not match RPC destination"),
        );
    }
    let entry: u64 = match number_at(&keys, 2, Ghost(held)) {
        Some(entry) => entry,
        None => {
            return Err(invalid_duplicate("override path is missing entry-index"));
        },
    };
    if entry > usize::MAX as u64 {
        return Err(invalid_duplicate("entry-index is too large"));
    }
    let leaf = match find_leaf(&visited, keys.len(), sids) {
        Some(leaf) => leaf,
        None => {
            return Err(invalid_duplicate("override path names an unsupported field"));
        },
    };
    if leaf == DuplicateLeaf::Target {
        let index = number_at(&keys, 3, Ghost(held));
        let zero = match index {
            Some(number) => number == 0,
            None => false,
        };
        if !zero {
            return Err(invalid_duplicate("target-value index must be zero"));
        }
    }
    Ok((entry as usize, leaf))
}

/// The path of one changed leaf of a destination rule.
pub open spec fn override_path(
    destination: RuleSelector,
    entry_index: int,
    leaf: DuplicateLeaf,
    sids: ModelSids,
) -> Seq<Step> {
    let entry = seq![
        Step::Delta(sids.root as int),
        Step::Delta(sids.rule - sids.root),
        number_key(destination.value as int),
        number_key(destination.bits as int),
        Step::Delta(sids.entry - sids.rule),
        number_key(entry_index),
    ];
    match leaf {
        DuplicateLeaf::Target => target_path(sids, destination, entry_index, 0),
        DuplicateLeaf::MatchingOperator => entry.push(
            Step::Delta(sids.matching_operator - sids.entry),
        ),
        DuplicateLeaf::Cda => entry.push(Step::Delta(sids.cda - sids.entry)),
    }
}

/// Builds the path of one changed leaf of a destination rule.
pub fn duplicate_override_path(
    destination: RuleSelector,
    entry_index: usize,
    leaf: DuplicateLeaf,
    sids: &ModelSids,
) -> (result: InstancePath)
    requires
        sids.well_formed(),
    ensures
        result@ == override_path(destination, entry_index as int, leaf, *sids),
{
    if leaf == DuplicateLeaf::Target {
        return target_value_path(*sids, destination, entry_index, 0);
    }
    let mut path = InstancePath::new();
    push_sid(&mut path, 0, sids.root);
    push_sid(&mut path, sids.root, sids.rule);
    push_number(&mut path, destination.value);
    push_number(&mut path, destination.bits as u64);
    push_sid(&mut path, sids.rule, sids.entry);
    push_number(&mut path, entry_index as u64);
    match leaf {
        DuplicateLeaf::MatchingOperator => push_sid(&mut path, sids.entry, sids.matching_operator),
        _ => push_sid(&mut path, sids.entry, sids.cda),
    }
    assert(path@ =~= override_path(destination, entry_index as int, leaf, *sids));
    path
}

proof fn lemma_step(path: Seq<Step>, step: Step)
    ensures
        absolute(path.push(step)) == absolute(path) + match step {
            Step::Delta(delta) => delta,
            Step::Key(_) => 0,
        },
        path_sids(path.push(step)) == match step {
            Step::Delta(delta) => path_sids(path).push(absolute(path) + delta),
            Step::Key(_) => path_sids(path),
        },
        path_keys(path.push(step)) == match step {
            Step::Delta(_) => path_keys(path),
            Step::Key(value) => path_keys(path).push(value),
        },
{
    assert(path.push(step).drop_last() =~= path);
}

/// The path built for a change leads back to its entry and leaf, when the
/// model gives operators and actions different SIDs.
pub proof fn override_path_leads_to_its_leaf(
    destination: RuleSelector,
    entry_index: usize,
    leaf: DuplicateLeaf,
    sids: ModelSids,
)
    requires
        sids.matching_operator != sids.cda,
    ensures
        changed_leaf(
            override_path(destination, entry_index as int, leaf, sids),
            destination,
            sids,
        ) == Ok::<(usize, DuplicateLeaf), Fault>((entry_index, leaf)),
{
    let empty = Seq::<Step>::empty();
    let s0 = empty.push(Step::Delta(sids.root as int));
    let s1 = s0.push(Step::Delta(sids.rule - sids.root));
    let s2 = s1.push(number_key(destination.value as int));
    let s3 = s2.push(number_key(destination.bits as int));
    let s4 = s3.push(Step::Delta(sids.entry - sids.rule));
    let s5 = s4.push(number_key(entry_index as int));
    lemma_step(empty, Step::Delta(sids.root as int));
    lemma_step(s0, Step::Delta(sids.rule - sids.root));
    lemma_step(s1, number_key(destination.value as int));
    lemma_step(s2, number_key(destination.bits as int));
    lemma_step(s3, Step::Delta(sids.entry - sids.rule));
    lemma_step(s4, number_key(entry_index as int));
    let path = override_path(destination, entry_index as int, leaf, sids);
    match leaf {
        DuplicateLeaf::Target => {
            let s6 = s5.push(Step::Delta(sids.target - sids.entry));
            let s7 = s6.push(number_key(0));
            let s8 = s7.push(Step::Delta(sids.target_value - sids.target));
            lemma_step(s5, Step::Delta(sids.target - sids.entry));
            lemma_step(s6, number_key(0));
            lemma_step(s7, Step::Delta(sids.target_value - sids.target));
            assert(path =~= s8);
            assert(leaf_sids(sids, DuplicateLeaf::Cda).len() == 4);
            assert(leaf_sids(sids, DuplicateLeaf::MatchingOperator).len() == 4);
        },
        DuplicateLeaf::MatchingOperator => {
            lemma_step(s5, Step::Delta(sids.matching_operator - sids.entry));
            assert(path =~= s5.push(Step::Delta(sids.matching_operator - sids.entry)));
        },
        DuplicateLeaf::Cda => {
            lemma_step(s5, Step::Delta(sids.cda - sids.entry));
            assert(path =~= s5.push(Step::Delta(sids.cda - sids.entry)));
            assert(path_sids(path)[3] == sids.cda);
            assert(leaf_sids(sids, DuplicateLeaf::MatchingOperator)[3] == sids.matching_operator);
        },
    }
    assert(path_sids(path) =~= leaf_sids(sids, leaf));
    let keys = path_keys(path);
    assert(keys[0] == Json::Integer(destination.value as int));
    assert(keys[1] == Json::Integer(destination.bits as int));
    assert(keys[2] == Json::Integer(entry_index as int));
    if leaf == DuplicateLeaf::Target {
        assert(keys.len() == 4);
        assert(keys[3] == Json::Integer(0));
    }
}

/// The path of a changed leaf visits the root, the rule list, its entry list
/// and the leaf, by their own SIDs, and its keys are the value and the bit
/// length of the destination and the index of the entry.
pub proof fn override_path_visits_its_leaf(
    destination: RuleSelector,
    entry_index: usize,
    leaf: DuplicateLeaf,
    sids: ModelSids,
)
    ensures
        ({
            let path = override_path(destination, entry_index as int, leaf, sids);
            let visited = path_sids(path);
            let keys = path_keys(path);
            &&& visited[0] == sids.root
            &&& visited[1] == sids.rule
            &&& visited[2] == sids.entry
            &&& keys[0] == Json::Integer(destination.value as int)
            &&& keys[1] == Json::Integer(destination.bits as int)
            &&& keys[2] == Json::Integer(entry_index as int)
            &&& leaf == DuplicateLeaf::MatchingOperator ==> visited.len() == 4 && visited[3]
                == sids.matching_operator && keys.len() == 3
            &&& leaf == DuplicateLeaf::Cda ==> visited.len() == 4 && visited[3] == sids.cda
                && keys.len() == 3
            &&& leaf == DuplicateLeaf::Target ==> visited.len() == 5 && visited[3] == sids.target
                && visited[4] == sids.target_value && keys.len() == 4 && keys[3] == Json::Integer(0)
        }),
{
    let empty = Seq::<Step>::empty();
    let s0 = empty.push(Step::Delta(sids.root as int));
    let s1 = s0.push(Step::Delta(sids.rule - sids.root));
    let s2 = s1.push(number_key(destination.value as int));
    let s3 = s2.push(number_key(destination.bits as int));
    let s4 = s3.push(Step::Delta(sids.entry - sids.rule));
    let s5 = s4.push(number_key(entry_index as int));
    lemma_step(empty, Step::Delta(sids.root as int));
    lemma_step(s0, Step::Delta(sids.rule - sids.root));
    lemma_step(s1, number_key(destination.value as int));
    lemma_step(s2, number_key(destination.bits as int));
    lemma_step(s3, Step::Delta(sids.entry - sids.rule));
    lemma_step(s4, number_key(entry_index as int));
    let path = override_path(destination, entry_index as int, leaf, sids);
    match leaf {
        DuplicateLeaf::Target => {
            let s6 = s5.push(Step::Delta(sids.target - sids.entry));
            let s7 = s6.push(number_key(0));
            lemma_step(s5, Step::Delta(sids.target - sids.entry));
            lemma_step(s6, number_key(0));
            lemma_step(s7, Step::Delta(sids.target_value - sids.target));
            assert(path =~= s7.push(Step::Delta(sids.target_value - sids.target)));
        },
        DuplicateLeaf::MatchingOperator => {
            lemma_step(s5, Step::Delta(sids.matching_operator - sids.entry));
            assert(path =~= s5.push(Step::Delta(sids.matching_operator - sids.entry)));
        },
        DuplicateLeaf::Cda => {
            lemma_step(s5, Step::Delta(sids.cda - sids.entry));
            assert(path =~= s5.push(Step::Delta(sids.cda - sids.entry)));
        },
    }
}

/// The path of a target value visits the root, the rule list, its entry list,
/// the target list and its value, by their own SIDs, and its keys are the
/// value and the bit length of the rule, the index of the entry and the index
/// of the target. The path of a rule visits the root and the rule list, with
/// the value and the bit length of the rule as its keys.
pub proof fn instance_paths_visit_their_nodes(
    rule: RuleSelector,
    entry_index: usize,
    target_index: usize,
    sids: ModelSids,
)
    ensures
        path_sids(target_path(sids, rule, entry_index as int, target_index as int)) == seq![
            sids.root as int,
            sids.rule as int,
            sids.entry as int,
            sids.target as int,
            sids.target_value as int,
        ],
        path_keys(target_path(sids, rule, entry_index as int, target_index as int)) == seq![
            Json::Integer(rule.value as int),
            Json::Integer(rule.bits as int),
            Json::Integer(entry_index as int),
            Json::Integer(target_index as int),
        ],
        path_sids(request_path(sids.root as int, sids.rule as int, Some(rule))) == seq![
            sids.root as int,
            sids.rule as int,
        ],
        path_keys(request_path(sids.root as int, sids.rule as int, Some(rule))) == seq![
            Json::Integer(rule.value as int),
            Json::Integer(rule.bits as int),
        ],
        path_sids(request_path(sids.root as int, sids.rule as int, None)) == seq![
            sids.root as int,
        ],
        path_keys(request_path(sids.root as int, sids.rule as int, None)).len() == 0,
        rule_path_fault(
            request_path(sids.root as int, sids.rule as int, Some(rule)),
            sids.root as int,
            sids.rule as int,
            rule,
        ) is None,
{
    let empty = Seq::<Step>::empty();
    let s0 = empty.push(Step::Delta(sids.root as int));
    let s1 = s0.push(Step::Delta(sids.rule - sids.root));
    let s2 = s1.push(number_key(rule.value as int));
    let s3 = s2.push(number_key(rule.bits as int));
    let s4 = s3.push(Step::Delta(sids.entry - sids.rule));
    let s5 = s4.push(number_key(entry_index as int));
    let s6 = s5.push(Step::Delta(sids.target - sids.entry));
    let s7 = s6.push(number_key(target_index as int));
    lemma_step(empty, Step::Delta(sids.root as int));
    lemma_step(s0, Step::Delta(sids.rule - sids.root));
    lemma_step(s1, number_key(rule.value as int));
    lemma_step(s2, number_key(rule.bits as int));
    lemma_step(s3, Step::Delta(sids.entry - sids.rule));
    lemma_step(s4, number_key(entry_index as int));
    lemma_step(s5, Step::Delta(sids.target - sids.entry));
    lemma_step(s6, number_key(target_index as int));
    lemma_step(s7, Step::Delta(sids.target_value - sids.target));
    assert(target_path(sids, rule, entry_index as int, target_index as int) =~= s7.push(
        Step::Delta(sids.target_value - sids.target),
    ));
    assert(request_path(sids.root as int, sids.rule as int, Some(rule)) =~= s3);
    assert(request_path(sids.root as int, sids.rule as int, None) =~= s0);
    lemma_two_numeric_keys(path_keys(s3));
    assert(path_sids(s3) =~= seq![sids.root as int, sids.rule as int]);
    assert(path_keys(s3)[0] == Json::Integer(rule.value as int));
    assert(path_keys(s3)[1] == Json::Integer(rule.bits as int));
    assert(numeric_keys(path_keys(s3)) =~= seq![rule.value, rule.bits as u64]);
}

/// A response path is accepted for a rule only where it visits the root and
/// the rule list and its two keys are the value and the bit length of that
/// rule.
pub proof fn accepted_rule_path_is_that_of_the_rule(
    path: Seq<Step>,
    root: int,
    rule: int,
    selector: RuleSelector,
)
    requires
        rule_path_fault(path, root, rule, selector) is None,
    ensures
        path_sids(path).len() == 2,
        path_sids(path)[0] == root,
        path_sids(path)[1] == rule,
        path_keys(path).len() == 2,
        unsigned(path_keys(path)[0]) == Some(selector.value),
        unsigned(path_keys(path)[1]) == Some(selector.bits as u64),
{
    lemma_two_numeric_keys(path_keys(path));
    let found = numeric_keys(path_keys(path));
    assert(found[0] == selector.value && found[1] == selector.bits as u64);
}

/// A change path is accepted only where its first keys are the value and the
/// bit length of the destination and the index of the changed entry, and it
/// visits the leaf that it is said to change.
pub proof fn accepted_change_path_names_destination_and_leaf(
    path: Seq<Step>,
    destination: RuleSelector,
    sids: ModelSids,
)
    requires
        changed_leaf(path, destination, sids) is Ok,
    ensures
        ({
            let (entry_index, leaf) = changed_leaf(path, destination, sids)->Ok_0;
            let visited = path_sids(path);
            let keys = path_keys(path);
            &&& keys.len() >= 3
            &&& unsigned(keys[0]) == Some(destination.value)
            &&& unsigned(keys[1]) == Some(destination.bits as u64)
            &&& unsigned(keys[2]) == Some(entry_index as u64)
            &&& visited[0] == sids.root
            &&& visited[1] == sids.rule
            &&& visited[2] == sids.entry
            &&& leaf == DuplicateLeaf::MatchingOperator ==> visited.len() == 4 && visited[3]
                == sids.matching_operator
            &&& leaf == DuplicateLeaf::Cda ==> visited.len() == 4 && visited[3] == sids.cda
            &&& leaf == DuplicateLeaf::Target ==> visited.len() == 5 && visited[3] == sids.target
                && visited[4] == sids.target_value && keys.len() == 4 && unsigned(keys[3]) == Some(
                0u64,
            )
        }),
{
}

} // verus!
