//! The `rule duplicate` console command.

use vstd::prelude::*;

use crate::duplicate_payload::{action_name, canonical_identity, identity_name, operator_name};
use crate::error::{invalid_update, Fault, InspectionError};
use crate::rule_text::option_view;
use crate::selector::{parse_selector_chars, selector_in, RuleSelector};
use crate::text::{
    all_digits, chars_of, chars_view, decimal, decimal_string, decimal_value, find_char, join,
    join3, lemma_key_and_value, position_of, same_text, slice_chars, split_words, string_of, words,
};
use crate::update_command::{parse_unsigned_argument, unsigned_argument};

verus! {

/// One entry-index-based override in a duplicate-rule request.
#[derive(Debug)]
pub struct RuleDuplicateOverride {
    /// Stable zero-based source entry index.
    pub entry_index: usize,
    /// Optional decimal target value replacement.
    pub target_value: Option<String>,
    /// Optional matching-operator identity.
    pub matching_operator: Option<String>,
    /// Optional compression/decompression action identity.
    pub cda: Option<String>,
}

/// An override as a mathematical value.
pub struct OverrideView {
    /// Stable zero-based source entry index.
    pub entry_index: usize,
    /// Optional target value replacement.
    pub target_value: Option<Seq<char>>,
    /// Optional matching-operator identity.
    pub matching_operator: Option<Seq<char>>,
    /// Optional compression/decompression action identity.
    pub cda: Option<Seq<char>>,
}

impl View for RuleDuplicateOverride {
    type V = OverrideView;

    open spec fn view(&self) -> OverrideView {
        OverrideView {
            entry_index: self.entry_index,
            target_value: option_view(self.target_value),
            matching_operator: option_view(self.matching_operator),
            cda: option_view(self.cda),
        }
    }
}

/// The overrides of a list.
pub open spec fn overrides_view(overrides: Seq<RuleDuplicateOverride>) -> Seq<OverrideView> {
    Seq::new(overrides.len(), |i: int| overrides[i]@)
}

/// A parsed atomic duplicate-rule request.
#[derive(Debug)]
pub struct RuleDuplicateRequest {
    /// Existing ordinary source rule.
    pub source: RuleSelector,
    /// New destination rule.
    pub destination: RuleSelector,
    /// Zero or more entry-index overrides.
    pub overrides: Vec<RuleDuplicateOverride>,
}

/// A duplicate request as a mathematical value.
pub struct DuplicateView {
    /// Existing ordinary source rule.
    pub source: RuleSelector,
    /// New destination rule.
    pub destination: RuleSelector,
    /// Zero or more entry-index overrides.
    pub overrides: Seq<OverrideView>,
}

impl View for RuleDuplicateRequest {
    type V = DuplicateView;

    open spec fn view(&self) -> DuplicateView {
        DuplicateView {
            source: self.source,
            destination: self.destination,
            overrides: overrides_view(self.overrides@),
        }
    }
}

/// The override groups that have been read so far.
pub struct GroupsView {
    /// Complete groups.
    pub done: Seq<OverrideView>,
    /// The group that is being read.
    pub current: Option<OverrideView>,
}

struct GroupsState {
    done: Vec<RuleDuplicateOverride>,
    current: Option<RuleDuplicateOverride>,
}

impl View for GroupsState {
    type V = GroupsView;

    closed spec fn view(&self) -> GroupsView {
        GroupsView {
            done: overrides_view(self.done@),
            current: match self.current {
                Some(group) => Some(group@),
                None => None,
            },
        }
    }
}

/// Whether a group changes no leaf.
pub open spec fn no_leaves(group: OverrideView) -> bool {
    group.target_value is None && group.matching_operator is None && group.cda is None
}

/// Whether some group is about an entry.
pub open spec fn has_entry(groups: Seq<OverrideView>, entry_index: usize) -> bool {
    exists|i: int| 0 <= i < groups.len() && (#[trigger] groups[i]).entry_index == entry_index
}

/// The complete groups once the group that is being read ends.
pub open spec fn closed_groups(groups: GroupsView) -> Result<Seq<OverrideView>, Fault> {
    match groups.current {
        None => Ok(groups.done),
        Some(group) => if no_leaves(group) {
            Err(
                Fault::InvalidUpdate(
                    "entry "@ + decimal(group.entry_index as nat) + " has no override leaves"@,
                ),
            )
        } else {
            Ok(groups.done.push(group))
        },
    }
}

/// The groups after an `entry=INDEX` argument.
pub open spec fn open_group(groups: GroupsView, value: Seq<char>) -> Result<GroupsView, Fault> {
    match closed_groups(groups) {
        Err(fault) => Err(fault),
        Ok(done) => match unsigned_argument(value, "entry"@) {
            Err(fault) => Err(fault),
            Ok(entry_index) => if has_entry(done, entry_index) {
                Err(
                    Fault::InvalidUpdate(
                        "duplicate override entry="@ + decimal(entry_index as nat),
                    ),
                )
            } else {
                Ok(
                    GroupsView {
                        done,
                        current: Some(
                            OverrideView {
                                entry_index,
                                target_value: None,
                                matching_operator: None,
                                cda: None,
                            },
                        ),
                    },
                )
            },
        },
    }
}

/// The groups after one leaf argument.
pub open spec fn add_leaf(groups: GroupsView, kind: Seq<char>, value: Seq<char>) -> Result<
    GroupsView,
    Fault,
> {
    match groups.current {
        None => Err(Fault::InvalidUpdate("'"@ + kind + "' must follow an entry=INDEX"@)),
        Some(group) => if kind == "tv"@ {
            if group.target_value is Some {
                Err(Fault::InvalidUpdate("duplicate tv in one override"@))
            } else {
                Ok(
                    GroupsView {
                        current: Some(OverrideView { target_value: Some(value), ..group }),
                        ..groups
                    },
                )
            }
        } else if kind == "mo"@ {
            if group.matching_operator is Some {
                Err(Fault::InvalidUpdate("duplicate mo in one override"@))
            } else if identity_name(value, true) is Err {
                Err(identity_name(value, true)->Err_0)
            } else {
                Ok(
                    GroupsView {
                        current: Some(OverrideView { matching_operator: Some(value), ..group }),
                        ..groups
                    },
                )
            }
        } else {
            if group.cda is Some {
                Err(Fault::InvalidUpdate("duplicate cda in one override"@))
            } else if identity_name(value, false) is Err {
                Err(identity_name(value, false)->Err_0)
            } else {
                Ok(
                    GroupsView {
                        current: Some(OverrideView { cda: Some(value), ..group }),
                        ..groups
                    },
                )
            }
        },
    }
}

/// The groups after one more word.
pub open spec fn duplicate_word(groups: GroupsView, word: Seq<char>) -> Result<GroupsView, Fault> {
    let equals = find_char(word, '=') as int;
    let kind = word.take(equals);
    let value = word.skip(equals + 1);
    if equals == word.len() {
        Err(
            Fault::InvalidUpdate(
                "malformed duplicate argument '"@ + word + "'; expected key=value"@,
            ),
        )
    } else if value.len() == 0 {
        Err(
            Fault::InvalidUpdate("duplicate argument '"@ + kind + "' has an empty value"@),
        )
    } else if kind == "entry"@ {
        open_group(groups, value)
    } else if kind == "tv"@ || kind == "mo"@ || kind == "cda"@ {
        add_leaf(groups, kind, value)
    } else {
        Err(Fault::InvalidUpdate("unknown duplicate argument '"@ + kind + "'"@))
    }
}

/// The groups after a list of words.
pub open spec fn duplicate_words(groups: GroupsView, list: Seq<Seq<char>>) -> Result<
    GroupsView,
    Fault,
>
    decreases list.len(),
{
    if list.len() == 0 {
        Ok(groups)
    } else {
        match duplicate_word(groups, list[0]) {
            Ok(next) => duplicate_words(next, list.drop_first()),
            Err(fault) => Err(fault),
        }
    }
}

/// The rule named by one word of a command.
pub open spec fn named_rule(
    list: Seq<Seq<char>>,
    at: int,
    missing: Seq<char>,
    label: Seq<char>,
) -> Result<RuleSelector, Fault> {
    if at >= list.len() {
        Err(Fault::InvalidUpdate(label + Fault::InvalidUpdate(missing).described()))
    } else {
        match selector_in(list[at]) {
            Ok(rule) => Ok(rule),
            Err(fault) => Err(Fault::InvalidUpdate(label + fault.described())),
        }
    }
}

/// The duplicate operation that a command line requests.
pub open spec fn duplicate_command(input: Seq<char>) -> Result<DuplicateView, Fault> {
    let list = words(input);
    if list.len() < 2 || list[0] != "rule"@ || list[1] != "duplicate"@ {
        Err(
            Fault::InvalidUpdate(
                "expected 'rule duplicate <source>/<bits> <destination>/<bits> ...'"@,
            ),
        )
    } else {
        match named_rule(
            list,
            2,
            "missing duplicate source RuleID"@,
            "invalid source RuleID: "@,
        ) {
            Err(fault) => Err(fault),
            Ok(source) => match named_rule(
                list,
                3,
                "missing duplicate destination RuleID"@,
                "invalid destination RuleID: "@,
            ) {
                Err(fault) => Err(fault),
                Ok(destination) => match duplicate_words(
                    GroupsView { done: Seq::empty(), current: None },
                    list.skip(4),
                ) {
                    Err(fault) => Err(fault),
                    Ok(groups) => match closed_groups(groups) {
                        Err(fault) => Err(fault),
                        Ok(overrides) => Ok(DuplicateView { source, destination, overrides }),
                    },
                },
            },
        }
    }
}

fn close_group(state: &mut GroupsState) -> (result: Result<(), InspectionError>)
    ensures
        match result {
            Ok(()) => closed_groups(old(state)@) == Ok::<Seq<OverrideView>, Fault>(
                final(state)@.done,
            ) && final(state)@.current is None,
            Err(error) => closed_groups(old(state)@) == Err::<Seq<OverrideView>, Fault>(error@),
        },
{
    match state.current.take() {
        None => {},
        Some(group) => {
            if group.target_value.is_none() && group.matching_operator.is_none()
                && group.cda.is_none() {
                return Err(
                    invalid_update(
                        join3(
                            "entry ",
                            decimal_string(group.entry_index as u64).as_str(),
                            " has no override leaves",
                        ).as_str(),
                    ),
                );
            }
            state.done.push(group);
            assert(state@.done =~= old(state)@.done.push(group@));
        },
    }
    Ok(())
}

fn read_entry(state: &mut GroupsState, value: &[char]) -> (result: Result<(), InspectionError>)
    ensures
        match result {
            Ok(()) => open_group(old(state)@, value@) == Ok::<GroupsView, Fault>(final(state)@),
            Err(error) => open_group(old(state)@, value@) == Err::<GroupsView, Fault>(error@),
        },
{
    match close_group(state) {
        Ok(()) => {},
        Err(error) => {
            return Err(error);
        },
    }
    let entry_index: usize = match parse_unsigned_argument(value, "entry") {
        Ok(entry_index) => entry_index,
        Err(error) => {
            return Err(error);
        },
    };
    let ghost done = overrides_view(state.done@);
    let mut index: usize = 0;
    while index < state.done.len()
        invariant
            index <= state.done@.len(),
            done == overrides_view(state.done@),
            done == state@.done,
            closed_groups(old(state)@) == Ok::<Seq<OverrideView>, Fault>(done),
            unsigned_argument(value@, "entry"@) == Ok::<usize, Fault>(entry_index),
            forall|i: int| 0 <= i < index ==> (#[trigger] done[i]).entry_index != entry_index,
        decreases state.done.len() - index,
    {
        if state.done[index].entry_index == entry_index {
            assert(done[index as int].entry_index == entry_index);
            return Err(
                invalid_update(
                    join(
                        "duplicate override entry=",
                        decimal_string(entry_index as u64).as_str(),
                    ).as_str(),
                ),
            );
        }
        index += 1;
    }
    state.current =
    Some(
        RuleDuplicateOverride {
            entry_index,
            target_value: None,
            matching_operator: None,
            cda: None,
        },
    );
    Ok(())
}

fn read_leaf(state: &mut GroupsState, kind: &str, value: &[char]) -> (result: Result<
    (),
    InspectionError,
>)
    requires
        kind@ == "tv"@ || kind@ == "mo"@ || kind@ == "cda"@,
    ensures
        match result {
            Ok(()) => add_leaf(old(state)@, kind@, value@) == Ok::<GroupsView, Fault>(
                final(state)@,
            ),
            Err(error) => add_leaf(old(state)@, kind@, value@) == Err::<GroupsView, Fault>(error@),
        },
{
    match state.current.take() {
        None => Err(invalid_update(join3("'", kind, "' must follow an entry=INDEX").as_str())),
        Some(group) => {
            let mut group = group;
            if same_text(kind, "tv") {
                if group.target_value.is_some() {
                    return Err(invalid_update("duplicate tv in one override"));
                }
                group.target_value = Some(string_of(value));
            } else if same_text(kind, "mo") {
                if group.matching_operator.is_some() {
                    return Err(invalid_update("duplicate mo in one override"));
                }
                let name = string_of(value);
                if let Err(error) = canonical_identity(name.as_str(), true) {
                    return Err(error);
                }
                group.matching_operator = Some(name);
            } else {
                if group.cda.is_some() {
                    return Err(invalid_update("duplicate cda in one override"));
                }
                let name = string_of(value);
                if let Err(error) = canonical_identity(name.as_str(), false) {
                    return Err(error);
                }
                group.cda = Some(name);
            }
            state.current = Some(group);
            Ok(())
        },
    }
}

fn read_duplicate_word(state: &mut GroupsState, word: &[char]) -> (result: Result<
    (),
    InspectionError,
>)
    ensures
        match result {
            Ok(()) => duplicate_word(old(state)@, word@) == Ok::<GroupsView, Fault>(final(state)@),
            Err(error) => duplicate_word(old(state)@, word@) == Err::<GroupsView, Fault>(error@),
        },
{
    let equals: usize = position_of(word, '=');
    if equals == word.len() {
        return Err(
            invalid_update(
                join3(
                    "malformed duplicate argument '",
                    string_of(word).as_str(),
                    "'; expected key=value",
                ).as_str(),
            ),
        );
    }
    let key = slice_chars(word, 0, equals);
    let value = slice_chars(word, equals + 1, word.len());
    proof {
        assert(word@.take(equals as int) =~= word@.subrange(0, equals as int));
        assert(word@.skip(equals + 1) =~= word@.subrange(equals + 1, word@.len() as int));
    }
    let kind = string_of(key.as_slice());
    if value.len() == 0 {
        return Err(
            invalid_update(
                join3("duplicate argument '", kind.as_str(), "' has an empty value").as_str(),
            ),
        );
    }
    if same_text(kind.as_str(), "entry") {
        read_entry(state, value.as_slice())
    } else if same_text(kind.as_str(), "tv") || same_text(kind.as_str(), "mo") || same_text(
        kind.as_str(),
        "cda",
    ) {
        read_leaf(state, kind.as_str(), value.as_slice())
    } else {
        Err(invalid_update(join3("unknown duplicate argument '", kind.as_str(), "'").as_str()))
    }
}

fn read_named_rule(list: &Vec<Vec<char>>, at: usize, missing: &str, label: &str) -> (result: Result<
    RuleSelector,
    InspectionError,
>)
    ensures
        match result {
            Ok(rule) => named_rule(chars_view(list@), at as int, missing@, label@) == Ok::<
                RuleSelector,
                Fault,
            >(rule),
            Err(error) => named_rule(chars_view(list@), at as int, missing@, label@) == Err::<
                RuleSelector,
                Fault,
            >(error@),
        },
{
    if at >= list.len() {
        return Err(invalid_update(join(label, invalid_update(missing).message().as_str()).as_str()));
    }
    match parse_selector_chars(list[at].as_slice()) {
        Ok(rule) => Ok(rule),
        Err(error) => Err(invalid_update(join(label, error.message().as_str()).as_str())),
    }
}

/// Parses the compact duplicate-rule console syntax.
///
/// The syntax is `rule duplicate <source>/<bits> <destination>/<bits>` followed
/// by zero or more groups of `entry=INDEX`, `tv=VALUE`, `mo=ID`, and `cda=ID`.
/// Each `entry=INDEX` starts one group, each group must contain at least one
/// leaf, and each leaf occurs at most once per group. A target value replaces
/// an existing fixed-width binary target, which the payload builder checks.
/// `mo=` and `cda=` accept only the currently supported identity names.
pub fn parse_rule_duplicate_command(input: &str) -> (result: Result<
    RuleDuplicateRequest,
    InspectionError,
>)
    ensures
        match result {
            Ok(request) => duplicate_command(input@) == Ok::<DuplicateView, Fault>(request@),
            Err(error) => duplicate_command(input@) == Err::<DuplicateView, Fault>(error@),
        },
{
    let characters = chars_of(input);
    let list = split_words(characters.as_slice());
    let ghost view = chars_view(list@);
    if list.len() < 2 || !same_text(string_of(list[0].as_slice()).as_str(), "rule") || !same_text(
        string_of(list[1].as_slice()).as_str(),
        "duplicate",
    ) {
        return Err(
            invalid_update("expected 'rule duplicate <source>/<bits> <destination>/<bits> ...'"),
        );
    }
    let source = match read_named_rule(
        &list,
        2,
        "missing duplicate source RuleID",
        "invalid source RuleID: ",
    ) {
        Ok(source) => source,
        Err(error) => {
            return Err(error);
        },
    };
    let destination = match read_named_rule(
        &list,
        3,
        "missing duplicate destination RuleID",
        "invalid destination RuleID: ",
    ) {
        Ok(destination) => destination,
        Err(error) => {
            return Err(error);
        },
    };
    let mut state = GroupsState { done: Vec::new(), current: None };
    let ghost start = GroupsView { done: Seq::empty(), current: None };
    proof {
        assert(state@.done =~= start.done);
    }
    let mut index: usize = 4;
    while index < list.len()
        invariant
            4 <= index <= list@.len(),
            view == chars_view(list@),
            duplicate_command(input@) == match duplicate_words(start, view.skip(4)) {
                Err(fault) => Err::<DuplicateView, Fault>(fault),
                Ok(groups) => match closed_groups(groups) {
                    Err(fault) => Err(fault),
                    Ok(overrides) => Ok(DuplicateView { source, destination, overrides }),
                },
            },
            duplicate_words(start, view.skip(4)) == duplicate_words(state@, view.skip(index as int)),
        decreases list.len() - index,
    {
        proof {
            assert(view.skip(index as int)[0] == list@[index as int]@);
            assert(view.skip(index as int).drop_first() =~= view.skip(index + 1));
        }
        match read_duplicate_word(&mut state, list[index].as_slice()) {
            Ok(()) => {},
            Err(error) => {
                return Err(error);
            },
        }
        index += 1;
    }
    match close_group(&mut state) {
        Ok(()) => {},
        Err(error) => {
            return Err(error);
        },
    }
    Ok(RuleDuplicateRequest { source, destination, overrides: state.done })
}

/// Whether a group sets only supported identities.
pub open spec fn known_identities(group: OverrideView) -> bool {
    &&& group.matching_operator matches Some(name) ==> operator_name(name)
    &&& group.cda matches Some(name) ==> action_name(name)
}

/// Whether every group changes a leaf and sets only supported identities, and
/// no two groups are about one entry.
pub open spec fn proper_groups(groups: Seq<OverrideView>) -> bool {
    &&& forall|i: int|
        0 <= i < groups.len() ==> !no_leaves(#[trigger] groups[i]) && known_identities(groups[i])
    &&& forall|i: int, j: int|
        0 <= i < j < groups.len() ==> (#[trigger] groups[i]).entry_index != (
        #[trigger] groups[j]).entry_index
}

spec fn proper_state(groups: GroupsView) -> bool {
    proper_groups(groups.done) && (groups.current matches Some(group) ==> known_identities(group)
        && !has_entry(groups.done, group.entry_index))
}

proof fn lemma_closed_groups_proper(groups: GroupsView)
    requires
        proper_state(groups),
        closed_groups(groups) is Ok,
    ensures
        proper_groups(closed_groups(groups)->Ok_0),
{
    if let Some(group) = groups.current {
        let wider = groups.done.push(group);
        assert forall|i: int, j: int| 0 <= i < j < wider.len() implies (
        #[trigger] wider[i]).entry_index != (#[trigger] wider[j]).entry_index by {
            if j == groups.done.len() {
                assert(wider[i] == groups.done[i]);
            }
        }
    }
}

proof fn lemma_words_keep_groups_proper(groups: GroupsView, list: Seq<Seq<char>>)
    requires
        proper_state(groups),
        duplicate_words(groups, list) is Ok,
    ensures
        proper_state(duplicate_words(groups, list)->Ok_0),
    decreases list.len(),
{
    if list.len() > 0 {
        let equals = find_char(list[0], '=') as int;
        if list[0].take(equals) == "entry"@ {
            lemma_closed_groups_proper(groups);
        }
        let next = duplicate_word(groups, list[0])->Ok_0;
        assert(proper_state(next));
        lemma_words_keep_groups_proper(next, list.drop_first());
    }
}

/// Every accepted duplicate command changes at least one leaf of each entry
/// that it names, sets only supported identities, and names no entry twice.
pub proof fn accepted_overrides_are_proper(input: Seq<char>)
    requires
        duplicate_command(input) is Ok,
    ensures
        proper_groups(duplicate_command(input)->Ok_0.overrides),
{
    let start = GroupsView { done: Seq::empty(), current: None };
    let list = words(input);
    lemma_words_keep_groups_proper(start, list.skip(4));
    lemma_closed_groups_proper(duplicate_words(start, list.skip(4))->Ok_0);
}

proof fn lemma_duplicate_keys()
    ensures
        !"entry"@.contains('=') && "entry"@.len() == 5,
        !"tv"@.contains('=') && "tv"@.len() == 2,
        !"mo"@.contains('=') && "mo"@.len() == 2,
        !"cda"@.contains('=') && "cda"@.len() == 3,
        "mo"@ != "tv"@,
{
    reveal_strlit("entry");
    reveal_strlit("tv");
    reveal_strlit("mo");
    reveal_strlit("cda");
    assert("mo"@[0] == 'm' && "tv"@[0] == 't');
}

/// What each argument of a duplicate command means: `entry=` ends the group
/// before it and begins one for the entry of that index; `tv=`, `mo=` and
/// `cda=` set the target value, the matching operator and the action of the
/// group that was begun last, and nothing else.
pub proof fn duplicate_arguments_mean_what_they_name(
    done: Seq<OverrideView>,
    group: OverrideView,
    value: Seq<char>,
)
    requires
        value.len() > 0,
    ensures
        ({
            let groups = GroupsView { done, current: Some(group) };
            let entry = duplicate_word(groups, "entry"@ + seq!['='] + value);
            &&& duplicate_word(groups, "tv"@ + seq!['='] + value) is Ok <==> group.target_value
                is None
            &&& group.target_value is None ==> duplicate_word(groups, "tv"@ + seq!['='] + value)
                == Ok::<GroupsView, Fault>(
                GroupsView {
                    done,
                    current: Some(OverrideView { target_value: Some(value), ..group }),
                },
            )
            &&& duplicate_word(groups, "mo"@ + seq!['='] + value) is Ok <==> group.matching_operator
                is None && operator_name(value)
            &&& group.matching_operator is None && operator_name(value) ==> duplicate_word(
                groups,
                "mo"@ + seq!['='] + value,
            ) == Ok::<GroupsView, Fault>(
                GroupsView {
                    done,
                    current: Some(OverrideView { matching_operator: Some(value), ..group }),
                },
            )
            &&& duplicate_word(groups, "cda"@ + seq!['='] + value) is Ok <==> group.cda is None
                && action_name(value)
            &&& group.cda is None && action_name(value) ==> duplicate_word(
                groups,
                "cda"@ + seq!['='] + value,
            ) == Ok::<GroupsView, Fault>(
                GroupsView { done, current: Some(OverrideView { cda: Some(value), ..group }) },
            )
            &&& entry matches Ok(next) ==> {
                &&& group.target_value is Some || group.matching_operator is Some || group.cda
                    is Some
                &&& next.done == done.push(group)
                &&& next.current is Some
                &&& all_digits(value)
                &&& next.current->0.entry_index == decimal_value(value)
                &&& next.current->0.target_value is None
                &&& next.current->0.matching_operator is None
                &&& next.current->0.cda is None
            }
        }),
        ({
            let none = GroupsView { done, current: None };
            &&& duplicate_word(none, "tv"@ + seq!['='] + value) is Err
            &&& duplicate_word(none, "mo"@ + seq!['='] + value) is Err
            &&& duplicate_word(none, "cda"@ + seq!['='] + value) is Err
            &&& duplicate_word(none, "entry"@ + seq!['='] + value) matches Ok(next) ==> next.done
                == done && next.current is Some && next.current->0.entry_index == decimal_value(
                value,
            )
        }),
{
    lemma_duplicate_keys();
    lemma_key_and_value("entry"@, value);
    lemma_key_and_value("tv"@, value);
    lemma_key_and_value("mo"@, value);
    lemma_key_and_value("cda"@, value);
}

/// An accepted duplicate command begins with the words `rule duplicate`; its
/// third word is the selector of the source and its fourth that of the
/// destination, and the words behind them make the overrides.
pub proof fn duplicate_command_names_source_and_destination(input: Seq<char>)
    requires
        duplicate_command(input) is Ok,
    ensures
        ({
            let list = words(input);
            let request = duplicate_command(input)->Ok_0;
            let start = GroupsView { done: Seq::empty(), current: None };
            &&& list.len() >= 4
            &&& list[0] == "rule"@
            &&& list[1] == "duplicate"@
            &&& selector_in(list[2]) == Ok::<RuleSelector, Fault>(request.source)
            &&& selector_in(list[3]) == Ok::<RuleSelector, Fault>(request.destination)
            &&& list.len() == 4 ==> request.overrides.len() == 0
            &&& duplicate_words(start, list.skip(4)) matches Ok(groups) && match groups.current {
                Some(group) => request.overrides == groups.done.push(group),
                None => request.overrides == groups.done,
            }
        }),
{
    let list = words(input);
    if list.len() == 4 {
        assert(list.skip(4) =~= Seq::<Seq<char>>::empty());
    }
}

} // verus!
