//! Names and numbers of the data model: which SID stands for which node.

use vstd::prelude::*;

use crate::error::{
    duplicate_fault, invalid_duplicate, invalid_target, unexpected, Fault, InspectionError,
};
use crate::json::{lemma_json_view, list_view, members_view, Json, JsonValue};
use crate::text::{
    chars_of, join, join3, join_list, joined, same_text, signed_decimal, signed_string, string_of,
    strings_view,
};

verus! {

/// One node of the data model with its SID.
#[derive(Debug)]
pub struct SidItem {
    /// Slash-separated identifier of the node.
    pub identifier: String,
    /// SID of the node.
    pub sid: i64,
}

/// The key leaves of one list of the data model.
#[derive(Debug)]
pub struct ListKeys {
    /// SID of the list.
    pub sid: i64,
    /// SIDs of its keys in their order.
    pub keys: Vec<i64>,
}

/// The nodes and lists of the data model.
#[derive(Debug)]
pub struct SidModel {
    /// Nodes with their SIDs.
    pub items: Vec<SidItem>,
    /// Lists with their keys.
    pub lists: Vec<ListKeys>,
}

/// The data model as a mathematical value.
pub struct ModelView {
    /// Identifiers with their SIDs.
    pub items: Seq<(Seq<char>, i64)>,
    /// List SIDs with the SIDs of their keys.
    pub lists: Seq<(i64, Seq<i64>)>,
}

impl View for SidModel {
    type V = ModelView;

    open spec fn view(&self) -> ModelView {
        ModelView {
            items: Seq::new(
                self.items@.len(),
                |i: int| (self.items@[i].identifier@, self.items@[i].sid),
            ),
            lists: Seq::new(
                self.lists@.len(),
                |i: int| (self.lists@[i].sid, self.lists@[i].keys@),
            ),
        }
    }
}

impl ModelView {
    /// SIDs are unsigned.
    pub open spec fn well_formed(self) -> bool {
        forall|i: int| 0 <= i < self.items.len() ==> (#[trigger] self.items[i]).1 >= 0
    }
}

/// The SID of the first node with an identifier.
pub open spec fn sid_among(items: Seq<(Seq<char>, i64)>, identifier: Seq<char>) -> Option<i64>
    decreases items.len(),
{
    if items.len() == 0 {
        None
    } else if items[0].0 == identifier {
        Some(items[0].1)
    } else {
        sid_among(items.drop_first(), identifier)
    }
}

/// The identifier of the first node with a SID.
pub open spec fn identifier_among(items: Seq<(Seq<char>, i64)>, sid: i64) -> Option<Seq<char>>
    decreases items.len(),
{
    if items.len() == 0 {
        None
    } else if items[0].1 == sid {
        Some(items[0].0)
    } else {
        identifier_among(items.drop_first(), sid)
    }
}

/// The keys of the first list with a SID.
pub open spec fn keys_among(lists: Seq<(i64, Seq<i64>)>, sid: i64) -> Option<Seq<i64>>
    decreases lists.len(),
{
    if lists.len() == 0 {
        None
    } else if lists[0].0 == sid {
        Some(lists[0].1)
    } else {
        keys_among(lists.drop_first(), sid)
    }
}

/// The SID of a node.
pub open spec fn sid_of(model: ModelView, identifier: Seq<char>) -> Option<i64> {
    sid_among(model.items, identifier)
}

/// The identifier of a SID.
pub open spec fn identifier_of(model: ModelView, sid: i64) -> Option<Seq<char>> {
    identifier_among(model.items, sid)
}

/// The keys of a list.
pub open spec fn keys_of(model: ModelView, sid: i64) -> Option<Seq<i64>> {
    keys_among(model.lists, sid)
}

proof fn lemma_sid_is_unsigned(items: Seq<(Seq<char>, i64)>, identifier: Seq<char>)
    requires
        forall|i: int| 0 <= i < items.len() ==> (#[trigger] items[i]).1 >= 0,
    ensures
        sid_among(items, identifier) matches Some(sid) ==> sid >= 0,
    decreases items.len(),
{
    if items.len() > 0 && items[0].0 != identifier {
        assert forall|i: int| 0 <= i < items.len() - 1 implies (#[trigger] items.drop_first()[i]).1
            >= 0 by {
            assert(items.drop_first()[i] == items[i + 1]);
        }
        lemma_sid_is_unsigned(items.drop_first(), identifier);
    }
}

impl SidModel {
    /// Returns the SID of a node.
    pub fn get_sid(&self, identifier: &str) -> (result: Option<i64>)
        ensures
            result == sid_of(self@, identifier@),
            self@.well_formed() ==> (result matches Some(sid) ==> sid >= 0),
    {
        let ghost items = self@.items;
        proof {
            if self@.well_formed() {
                lemma_sid_is_unsigned(items, identifier@);
            }
            assert(items.skip(0) =~= items);
        }
        let mut index: usize = 0;
        while index < self.items.len()
            invariant
                index <= self.items@.len(),
                items == self@.items,
                sid_among(items, identifier@) == sid_among(items.skip(index as int), identifier@),
            decreases self.items.len() - index,
        {
            proof {
                assert(items.skip(index as int)[0] == items[index as int]);
                assert(items.skip(index as int).drop_first() =~= items.skip(index + 1));
            }
            if same_text(self.items[index].identifier.as_str(), identifier) {
                return Some(self.items[index].sid);
            }
            index += 1;
        }
        None
    }

    /// Returns the identifier of a SID.
    pub fn get_identifier(&self, sid: i64) -> (result: Option<&String>)
        ensures
            match result {
                Some(identifier) => identifier_of(self@, sid) == Some(identifier@),
                None => identifier_of(self@, sid) is None,
            },
    {
        let ghost items = self@.items;
        proof {
            assert(items.skip(0) =~= items);
        }
        let mut index: usize = 0;
        while index < self.items.len()
            invariant
                index <= self.items@.len(),
                items == self@.items,
                identifier_among(items, sid) == identifier_among(items.skip(index as int), sid),
            decreases self.items.len() - index,
        {
            proof {
                assert(items.skip(index as int)[0] == items[index as int]);
                assert(items.skip(index as int).drop_first() =~= items.skip(index + 1));
            }
            if self.items[index].sid == sid {
                return Some(&self.items[index].identifier);
            }
            index += 1;
        }
        None
    }

    /// Returns the keys of a list.
    pub fn get_keys(&self, sid: i64) -> (result: Option<&Vec<i64>>)
        ensures
            match result {
                Some(keys) => keys_of(self@, sid) == Some(keys@),
                None => keys_of(self@, sid) is None,
            },
    {
        let ghost lists = self@.lists;
        proof {
            assert(lists.skip(0) =~= lists);
        }
        let mut index: usize = 0;
        while index < self.lists.len()
            invariant
                index <= self.lists@.len(),
                lists == self@.lists,
                keys_among(lists, sid) == keys_among(lists.skip(index as int), sid),
            decreases self.lists.len() - index,
        {
            proof {
                assert(lists.skip(index as int)[0] == lists[index as int]);
                assert(lists.skip(index as int).drop_first() =~= lists.skip(index + 1));
            }
            if self.lists[index].sid == sid {
                return Some(&self.lists[index].keys);
            }
            index += 1;
        }
        None
    }
}

/// The SIDs that management uses.
#[derive(Debug, Clone, Copy, PartialEq, Eq, Structural)]
pub struct ModelSids {
    /// The root container.
    pub root: i64,
    /// The rule list.
    pub rule: i64,
    /// The bit length of a rule identity.
    pub rule_id_length: i64,
    /// The value of a rule identity.
    pub rule_id_value: i64,
    /// The entry list of a rule.
    pub entry: i64,
    /// The index of an entry.
    pub entry_index: i64,
    /// The field length of an entry.
    pub field_length: i64,
    /// The target list of an entry.
    pub target: i64,
    /// The index of a target.
    pub target_index: i64,
    /// The value of a target.
    pub target_value: i64,
    /// The duplicate operation.
    pub duplicate_rule: i64,
    /// Its input container.
    pub duplicate_input: i64,
    /// Its source selector.
    pub duplicate_from: i64,
    /// The bit length of its source selector.
    pub duplicate_from_length: i64,
    /// The value of its source selector.
    pub duplicate_from_value: i64,
    /// Its sequence of changes.
    pub duplicate_ipatch: i64,
    /// Its destination selector.
    pub duplicate_to: i64,
    /// The bit length of its destination selector.
    pub duplicate_to_length: i64,
    /// The value of its destination selector.
    pub duplicate_to_value: i64,
    /// The matching operator of an entry.
    pub matching_operator: i64,
    /// The action of an entry.
    pub cda: i64,
}

impl ModelSids {
    /// SIDs are unsigned.
    pub open spec fn well_formed(self) -> bool {
        &&& self.root >= 0 && self.rule >= 0 && self.rule_id_length >= 0 && self.rule_id_value >= 0
        &&& self.entry >= 0 && self.entry_index >= 0 && self.field_length >= 0 && self.target >= 0
        &&& self.target_index >= 0 && self.target_value >= 0 && self.duplicate_rule >= 0
        &&& self.duplicate_input >= 0 && self.duplicate_from >= 0 && self.duplicate_from_length >= 0
        &&& self.duplicate_from_value >= 0 && self.duplicate_ipatch >= 0 && self.duplicate_to >= 0
        &&& self.duplicate_to_length >= 0 && self.duplicate_to_value >= 0 && self.matching_operator
            >= 0 && self.cda >= 0
    }
}

/// The identifiers that management needs, in the order of their lookup.
pub open spec fn needed_identifiers() -> Seq<Seq<char>> {
    seq![
        "/ietf-schc:schc"@,
        "/ietf-schc:schc/rule"@,
        "/ietf-schc:schc/rule/rule-id-length"@,
        "/ietf-schc:schc/rule/rule-id-value"@,
        "/ietf-schc:schc/rule/entry-universal"@,
        "/ietf-schc:schc/rule/entry-universal/entry-index"@,
        "/ietf-schc:schc/rule/entry-universal/field-length"@,
        "/ietf-schc:schc/rule/entry-universal/target-value"@,
        "/ietf-schc:schc/rule/entry-universal/target-value/index"@,
        "/ietf-schc:schc/rule/entry-universal/target-value/value"@,
        "/ietf-schc:duplicate-rule"@,
        "/ietf-schc:duplicate-rule/input"@,
        "/ietf-schc:duplicate-rule/input/from"@,
        "/ietf-schc:duplicate-rule/input/from/rule-id-length"@,
        "/ietf-schc:duplicate-rule/input/from/rule-id-value"@,
        "/ietf-schc:duplicate-rule/input/ipatch-sequence"@,
        "/ietf-schc:duplicate-rule/input/to"@,
        "/ietf-schc:duplicate-rule/input/to/rule-id-length"@,
        "/ietf-schc:duplicate-rule/input/to/rule-id-value"@,
        "/ietf-schc:schc/rule/entry-universal/matching-operator"@,
        "/ietf-schc:schc/rule/entry-universal/comp-decomp-action"@,
    ]
}

/// How many identifiers at the start of a list the model knows.
pub open spec fn known_identifiers(model: ModelView, identifiers: Seq<Seq<char>>) -> nat
    decreases identifiers.len(),
{
    if identifiers.len() == 0 || sid_of(model, identifiers[0]) is None {
        0
    } else {
        1 + known_identifiers(model, identifiers.drop_first())
    }
}

/// The error for an identifier that the model lacks.
pub open spec fn missing_identifier(identifier: Seq<char>) -> Fault {
    Fault::InvalidTarget("SID model is missing identifier "@ + identifier)
}

/// The SIDs that the model gives to the identifiers of management.
pub open spec fn model_sids(model: ModelView) -> ModelSids {
    let needed = needed_identifiers();
    ModelSids {
        root: sid_of(model, needed[0])->0,
        rule: sid_of(model, needed[1])->0,
        rule_id_length: sid_of(model, needed[2])->0,
        rule_id_value: sid_of(model, needed[3])->0,
        entry: sid_of(model, needed[4])->0,
        entry_index: sid_of(model, needed[5])->0,
        field_length: sid_of(model, needed[6])->0,
        target: sid_of(model, needed[7])->0,
        target_index: sid_of(model, needed[8])->0,
        target_value: sid_of(model, needed[9])->0,
        duplicate_rule: sid_of(model, needed[10])->0,
        duplicate_input: sid_of(model, needed[11])->0,
        duplicate_from: sid_of(model, needed[12])->0,
        duplicate_from_length: sid_of(model, needed[13])->0,
        duplicate_from_value: sid_of(model, needed[14])->0,
        duplicate_ipatch: sid_of(model, needed[15])->0,
        duplicate_to: sid_of(model, needed[16])->0,
        duplicate_to_length: sid_of(model, needed[17])->0,
        duplicate_to_value: sid_of(model, needed[18])->0,
        matching_operator: sid_of(model, needed[19])->0,
        cda: sid_of(model, needed[20])->0,
    }
}

/// The SIDs of management, or the first identifier that the model lacks.
pub open spec fn resolved_sids(model: ModelView) -> Result<ModelSids, Fault> {
    let known = known_identifiers(model, needed_identifiers());
    if known < needed_identifiers().len() {
        Err(missing_identifier(needed_identifiers()[known as int]))
    } else {
        Ok(model_sids(model))
    }
}

/// Where the known identifiers of a list end.
proof fn lemma_known_identifiers(model: ModelView, identifiers: Seq<Seq<char>>, known: int)
    requires
        0 <= known <= identifiers.len(),
        forall|i: int| 0 <= i < known ==> sid_of(model, #[trigger] identifiers[i]) is Some,
        known < identifiers.len() ==> sid_of(model, identifiers[known]) is None,
    ensures
        known_identifiers(model, identifiers) == known,
    decreases identifiers.len(),
{
    if known > 0 {
        assert(sid_of(model, identifiers[0]) is Some);
        assert forall|i: int| 0 <= i < known - 1 implies sid_of(
            model,
            #[trigger] identifiers.drop_first()[i],
        ) is Some by {
            assert(identifiers.drop_first()[i] == identifiers[i + 1]);
        }
        lemma_known_identifiers(model, identifiers.drop_first(), known - 1);
    }
}

fn lookup(model: &SidModel, identifier: &str, Ghost(position): Ghost<int>) -> (result: Result<
    i64,
    InspectionError,
>)
    requires
        0 <= position < needed_identifiers().len(),
        needed_identifiers()[position] == identifier@,
        forall|i: int|
            0 <= i < position ==> sid_of(model@, #[trigger] needed_identifiers()[i]) is Some,
    ensures
        match result {
            Ok(sid) => sid_of(model@, needed_identifiers()[position]) == Some(sid) && (
            model@.well_formed() ==> sid >= 0),
            Err(error) => resolved_sids(model@) == Err::<ModelSids, Fault>(error@),
        },
{
    match model.get_sid(identifier) {
        Some(sid) => Ok(sid),
        None => {
            proof {
                lemma_known_identifiers(model@, needed_identifiers(), position);
            }
            Err(invalid_target(join("SID model is missing identifier ", identifier).as_str()))
        },
    }
}

impl ModelSids {
    /// Looks up every SID that management uses.
    #[verifier::rlimit(60)]
    pub fn resolve(model: &SidModel) -> (result: Result<Self, InspectionError>)
        ensures
            match result {
                Ok(sids) => resolved_sids(model@) == Ok::<ModelSids, Fault>(sids) && (
                model@.well_formed() ==> sids.well_formed()),
                Err(error) => resolved_sids(model@) == Err::<ModelSids, Fault>(error@),
            },
    {
        let root: i64 = lookup(model, "/ietf-schc:schc", Ghost(0))?;
        let rule: i64 = lookup(model, "/ietf-schc:schc/rule", Ghost(1))?;
        let rule_id_length: i64 = lookup(
            model,
            "/ietf-schc:schc/rule/rule-id-length",
            Ghost(2),
        )?;
        let rule_id_value: i64 = lookup(model, "/ietf-schc:schc/rule/rule-id-value", Ghost(3))?;
        let entry: i64 = lookup(model, "/ietf-schc:schc/rule/entry-universal", Ghost(4))?;
        let entry_index: i64 = lookup(
            model,
            "/ietf-schc:schc/rule/entry-universal/entry-index",
            Ghost(5),
        )?;
        let field_length: i64 = lookup(
            model,
            "/ietf-schc:schc/rule/entry-universal/field-length",
            Ghost(6),
        )?;
        let target: i64 = lookup(
            model,
            "/ietf-schc:schc/rule/entry-universal/target-value",
            Ghost(7),
        )?;
        let target_index: i64 = lookup(
            model,
            "/ietf-schc:schc/rule/entry-universal/target-value/index",
            Ghost(8),
        )?;
        let target_value: i64 = lookup(
            model,
            "/ietf-schc:schc/rule/entry-universal/target-value/value",
            Ghost(9),
        )?;
        let duplicate_rule: i64 = lookup(model, "/ietf-schc:duplicate-rule", Ghost(10))?;
        let duplicate_input: i64 = lookup(model, "/ietf-schc:duplicate-rule/input", Ghost(11))?;
        let duplicate_from: i64 = lookup(
            model,
            "/ietf-schc:duplicate-rule/input/from",
            Ghost(12),
        )?;
        let duplicate_from_length: i64 = lookup(
            model,
            "/ietf-schc:duplicate-rule/input/from/rule-id-length",
            Ghost(13),
        )?;
        let duplicate_from_value: i64 = lookup(
            model,
            "/ietf-schc:duplicate-rule/input/from/rule-id-value",
            Ghost(14),
        )?;
        let duplicate_ipatch: i64 = lookup(
            model,
            "/ietf-schc:duplicate-rule/input/ipatch-sequence",
            Ghost(15),
        )?;
        let duplicate_to: i64 = lookup(model, "/ietf-schc:duplicate-rule/input/to", Ghost(16))?;
        let duplicate_to_length: i64 = lookup(
            model,
            "/ietf-schc:duplicate-rule/input/to/rule-id-length",
            Ghost(17),
        )?;
        let duplicate_to_value: i64 = lookup(
            model,
            "/ietf-schc:duplicate-rule/input/to/rule-id-value",
            Ghost(18),
        )?;
        let matching_operator: i64 = lookup(
            model,
            "/ietf-schc:schc/rule/entry-universal/matching-operator",
            Ghost(19),
        )?;
        let cda: i64 = lookup(
            model,
            "/ietf-schc:schc/rule/entry-universal/comp-decomp-action",
            Ghost(20),
        )?;
        proof {
            lemma_known_identifiers(model@, needed_identifiers(), 21);
        }
        Ok(
            ModelSids {
                root,
                rule,
                rule_id_length,
                rule_id_value,
                entry,
                entry_index,
                field_length,
                target,
                target_index,
                target_value,
                duplicate_rule,
                duplicate_input,
                duplicate_from,
                duplicate_from_length,
                duplicate_from_value,
                duplicate_ipatch,
                duplicate_to,
                duplicate_to_length,
                duplicate_to_value,
                matching_operator,
                cda,
            },
        )
    }
}

/// The root and rule-list SIDs that a rule request needs.
pub open spec fn request_sids(model: ModelView) -> Result<(i64, i64), Fault> {
    match sid_of(model, "/ietf-schc:schc"@) {
        None => Err(missing_identifier("/ietf-schc:schc"@)),
        Some(root) => match sid_of(model, "/ietf-schc:schc/rule"@) {
            None => Err(missing_identifier("/ietf-schc:schc/rule"@)),
            Some(rule) => Ok((root, rule)),
        },
    }
}

/// Looks up the root and rule-list SIDs.
pub fn model_request_sids(model: &SidModel) -> (result: Result<(i64, i64), InspectionError>)
    ensures
        match result {
            Ok(sids) => request_sids(model@) == Ok::<(i64, i64), Fault>(sids) && (
            model@.well_formed() ==> sids.0 >= 0 && sids.1 >= 0),
            Err(error) => request_sids(model@) == Err::<(i64, i64), Fault>(error@),
        },
{
    let root: i64 = match model.get_sid("/ietf-schc:schc") {
        Some(root) => root,
        None => {
            return Err(
                invalid_target(
                    join("SID model is missing identifier ", "/ietf-schc:schc").as_str(),
                ),
            );
        },
    };
    let rule: i64 = match model.get_sid("/ietf-schc:schc/rule") {
        Some(rule) => rule,
        None => {
            return Err(
                invalid_target(
                    join("SID model is missing identifier ", "/ietf-schc:schc/rule").as_str(),
                ),
            );
        },
    };
    Ok((root, rule))
}

/// Numbers as a bracketed list.
pub open spec fn bracketed(numbers: Seq<i64>) -> Seq<char> {
    "["@ + joined(numbers.map_values(|number: i64| signed_decimal(number as int)), ", "@) + "]"@
}

fn bracketed_list(numbers: &Vec<i64>) -> (result: String)
    ensures
        result@ == bracketed(numbers@),
{
    let mut texts: Vec<String> = Vec::new();
    let mut index: usize = 0;
    while index < numbers.len()
        invariant
            index <= numbers@.len(),
            texts@.len() == index,
            forall|i: int|
                0 <= i < index ==> (#[trigger] texts@[i])@ == signed_decimal(numbers@[i] as int),
        decreases numbers.len() - index,
    {
        texts.push(signed_string(numbers[index]));
        index += 1;
    }
    assert(strings_view(texts@) =~= numbers@.map_values(
        |number: i64| signed_decimal(number as int),
    ));
    join3("[", join_list(&texts, ", ").as_str(), "]")
}

/// The error of a list whose keys are not the expected ones.
pub open spec fn list_keys_fault(model: ModelView, list: i64, expected: Seq<i64>) -> Option<Fault> {
    match keys_of(model, list) {
        None => Some(
            Fault::InvalidTarget(
                "SID "@ + signed_decimal(list as int) + " has no list key mapping"@,
            ),
        ),
        Some(keys) => if keys == expected {
            None
        } else {
            Some(
                Fault::InvalidTarget(
                    "SID "@ + signed_decimal(list as int) + " list keys are "@ + bracketed(keys)
                        + ", expected "@ + bracketed(expected),
                ),
            )
        },
    }
}

fn require_list_keys(model: &SidModel, list: i64, expected: &Vec<i64>) -> (result: Result<
    (),
    InspectionError,
>)
    ensures
        match result {
            Ok(_) => list_keys_fault(model@, list, expected@) is None,
            Err(error) => list_keys_fault(model@, list, expected@) == Some(error@),
        },
{
    let name = join("SID ", signed_string(list).as_str());
    match model.get_keys(list) {
        None => Err(invalid_target(join(name.as_str(), " has no list key mapping").as_str())),
        Some(keys) => {
            let mut equal = keys.len() == expected.len();
            let mut index: usize = 0;
            while index < keys.len() && equal
                invariant
                    index <= keys@.len(),
                    equal ==> keys@.len() == expected@.len(),
                    equal ==> forall|i: int| 0 <= i < index ==> keys@[i] == expected@[i],
                    !equal ==> keys@ != expected@,
                decreases keys.len() - index,
            {
                if keys[index] != expected[index] {
                    assert(keys@[index as int] != expected@[index as int]);
                    equal = false;
                }
                index += 1;
            }
            if equal {
                assert(keys@ =~= expected@);
                return Ok(());
            }
            let head = join3(name.as_str(), " list keys are ", bracketed_list(keys).as_str());
            Err(
                invalid_target(
                    join3(head.as_str(), ", expected ", bracketed_list(expected).as_str()).as_str(),
                ),
            )
        },
    }
}

/// The SIDs of management in a model whose lists have the keys that updates
/// use.
pub open spec fn update_sids(model: ModelView) -> Result<ModelSids, Fault> {
    match resolved_sids(model) {
        Err(fault) => Err(fault),
        Ok(sids) => match list_keys_fault(
            model,
            sids.rule,
            seq![sids.rule_id_value, sids.rule_id_length],
        ) {
            Some(fault) => Err(fault),
            None => match list_keys_fault(model, sids.entry, seq![sids.entry_index]) {
                Some(fault) => Err(fault),
                None => match list_keys_fault(model, sids.target, seq![sids.target_index]) {
                    Some(fault) => Err(fault),
                    None => Ok(sids),
                },
            },
        },
    }
}

/// Looks up the SIDs of management and checks the keys of the lists that
/// updates address.
pub fn validate_update_model_shape(model: &SidModel) -> (result: Result<
    ModelSids,
    InspectionError,
>)
    ensures
        match result {
            Ok(sids) => update_sids(model@) == Ok::<ModelSids, Fault>(sids) && resolved_sids(model@)
                == Ok::<ModelSids, Fault>(sids) && (model@.well_formed() ==> sids.well_formed()),
            Err(error) => update_sids(model@) == Err::<ModelSids, Fault>(error@),
        },
{
    let sids = ModelSids::resolve(model)?;
    let rule_keys: Vec<i64> = vec![sids.rule_id_value, sids.rule_id_length];
    assert(rule_keys@ =~= seq![sids.rule_id_value, sids.rule_id_length]);
    require_list_keys(model, sids.rule, &rule_keys)?;
    let entry_keys: Vec<i64> = vec![sids.entry_index];
    assert(entry_keys@ =~= seq![sids.entry_index]);
    require_list_keys(model, sids.entry, &entry_keys)?;
    let target_keys: Vec<i64> = vec![sids.target_index];
    assert(target_keys@ =~= seq![sids.target_index]);
    require_list_keys(model, sids.target, &target_keys)?;
    Ok(sids)
}

/// The SIDs that a duplicate operation uses, in the order of their check.
pub open spec fn duplicate_sids(sids: ModelSids) -> Seq<i64> {
    seq![
        sids.duplicate_rule,
        sids.duplicate_input,
        sids.duplicate_from,
        sids.duplicate_from_length,
        sids.duplicate_from_value,
        sids.duplicate_ipatch,
        sids.duplicate_to,
        sids.duplicate_to_length,
        sids.duplicate_to_value,
        sids.matching_operator,
        sids.cda,
    ]
}

/// How many SIDs at the start of a list have an identifier.
pub open spec fn identified(model: ModelView, sids: Seq<i64>) -> nat
    decreases sids.len(),
{
    if sids.len() == 0 || identifier_of(model, sids[0]) is None {
        0
    } else {
        1 + identified(model, sids.drop_first())
    }
}

/// The SIDs of management in a model that identifies every SID of the
/// duplicate operation.
pub open spec fn operation_sids(model: ModelView) -> Result<ModelSids, Fault> {
    match resolved_sids(model) {
        Err(fault) => Err(fault),
        Ok(sids) => {
            let known = identified(model, duplicate_sids(sids));
            if known < duplicate_sids(sids).len() {
                Err(
                    duplicate_fault(
                        "SID model is missing identifier "@ + signed_decimal(
                            duplicate_sids(sids)[known as int] as int,
                        ),
                    ),
                )
            } else {
                Ok(sids)
            }
        },
    }
}

/// Looks up the SIDs of management and checks that every SID of the duplicate
/// operation has an identifier.
pub fn validate_duplicate_model_shape(model: &SidModel) -> (result: Result<
    ModelSids,
    InspectionError,
>)
    ensures
        match result {
            Ok(sids) => operation_sids(model@) == Ok::<ModelSids, Fault>(sids) && resolved_sids(
                model@,
            ) == Ok::<ModelSids, Fault>(sids) && (model@.well_formed() ==> sids.well_formed()),
            Err(error) => operation_sids(model@) == Err::<ModelSids, Fault>(error@),
        },
{
    let sids = ModelSids::resolve(model)?;
    let list: Vec<i64> = vec![
        sids.duplicate_rule,
        sids.duplicate_input,
        sids.duplicate_from,
        sids.duplicate_from_length,
        sids.duplicate_from_value,
        sids.duplicate_ipatch,
        sids.duplicate_to,
        sids.duplicate_to_length,
        sids.duplicate_to_value,
        sids.matching_operator,
        sids.cda,
    ];
    assert(list@ =~= duplicate_sids(sids));
    let mut index: usize = 0;
    proof {
        assert(list@.skip(0) =~= list@);
    }
    while index < list.len()
        invariant
            index <= list@.len(),
            list@ == duplicate_sids(sids),
            resolved_sids(model@) == Ok::<ModelSids, Fault>(sids),
            identified(model@, list@) == index + identified(model@, list@.skip(index as int)),
        decreases list.len() - index,
    {
        proof {
            assert(list@.skip(index as int)[0] == list@[index as int]);
            assert(list@.skip(index as int).drop_first() =~= list@.skip(index + 1));
        }
        if model.get_identifier(list[index]).is_none() {
            return Err(
                invalid_duplicate(
                    join(
                        "SID model is missing identifier ",
                        signed_string(list[index]).as_str(),
                    ).as_str(),
                ),
            );
        }
        index += 1;
    }
    Ok(sids)
}

/// The part of a text behind the last occurrence of a character; the whole
/// text when there is none.
pub open spec fn after_last(text: Seq<char>, separator: char) -> Seq<char>
    decreases text.len(),
{
    if text.len() == 0 || text.last() == separator {
        Seq::empty()
    } else {
        after_last(text.drop_last(), separator).push(text.last())
    }
}

/// Returns the part of a text behind the last occurrence of a character.
pub fn last_segment(text: &str, separator: char) -> (result: String)
    ensures
        result@ == after_last(text@, separator),
{
    let characters = chars_of(text);
    let mut start: usize = characters.len();
    proof {
        assert(text@.skip(text@.len() as int) =~= Seq::<char>::empty());
        assert(text@.take(text@.len() as int) =~= text@);
        assert(after_last(text@, separator) + Seq::<char>::empty() =~= after_last(text@, separator));
    }
    while start > 0 && characters[start - 1] != separator
        invariant
            start <= characters@.len(),
            characters@ == text@,
            after_last(text@, separator) == after_last(text@.take(start as int), separator)
                + text@.skip(start as int),
        decreases start,
    {
        proof {
            let whole = text@.take(start as int);
            assert(whole.drop_last() =~= text@.take(start - 1));
            assert(whole.last() == text@[start - 1]);
            assert(after_last(whole.drop_last(), separator).push(whole.last()) + text@.skip(
                start as int,
            ) =~= after_last(whole.drop_last(), separator) + text@.skip(start - 1));
        }
        start -= 1;
    }
    let mut tail: Vec<char> = Vec::new();
    let mut index: usize = start;
    while index < characters.len()
        invariant
            start <= index <= characters@.len(),
            tail@ =~= characters@.subrange(start as int, index as int),
        decreases characters.len() - index,
    {
        tail.push(characters[index]);
        index += 1;
    }
    proof {
        let whole = text@.take(start as int);
        if start > 0 {
            assert(whole.last() == separator);
        }
        assert(after_last(whole, separator) =~= Seq::<char>::empty());
        assert(tail@ =~= text@.skip(start as int));
        assert(after_last(text@, separator) =~= text@.skip(start as int));
    }
    string_of(tail.as_slice())
}

/// The name under which a tree holds a node: the last segment of its
/// identifier.
pub open spec fn tree_key(model: ModelView, sid: i64) -> Result<Seq<char>, Fault> {
    match identifier_of(model, sid) {
        None => Err(
            Fault::InvalidTarget("SID model is missing identifier "@ + signed_decimal(sid as int)),
        ),
        Some(identifier) => if after_last(identifier, '/').len() == 0 {
            Err(
                Fault::InvalidTarget(
                    "SID "@ + signed_decimal(sid as int) + " has an empty tree key"@,
                ),
            )
        } else {
            Ok(after_last(identifier, '/'))
        },
    }
}

/// Returns the name under which a tree holds a node.
pub fn tree_key_for_sid(model: &SidModel, sid: i64) -> (result: Result<String, InspectionError>)
    ensures
        match result {
            Ok(key) => tree_key(model@, sid) == Ok::<Seq<char>, Fault>(key@),
            Err(error) => tree_key(model@, sid) == Err::<Seq<char>, Fault>(error@),
        },
{
    match model.get_identifier(sid) {
        None => Err(
            invalid_target(
                join("SID model is missing identifier ", signed_string(sid).as_str()).as_str(),
            ),
        ),
        Some(identifier) => {
            let key = last_segment(identifier.as_str(), '/');
            if key.as_str().unicode_len() == 0 {
                return Err(
                    invalid_target(
                        join3(
                            "SID ",
                            signed_string(sid).as_str(),
                            " has an empty tree key",
                        ).as_str(),
                    ),
                );
            }
            Ok(key)
        },
    }
}

/// The name under which a duplicate operation finds a node in a tree.
pub open spec fn rule_key_of(model: ModelView, sid: i64) -> Result<Seq<char>, Fault> {
    match tree_key(model, sid) {
        Ok(key) => Ok(key),
        Err(_) => Err(
            duplicate_fault("SID model is missing rule key "@ + signed_decimal(sid as int)),
        ),
    }
}

/// Returns the name under which a duplicate operation finds a node in a tree.
pub fn rule_key(model: &SidModel, sid: i64) -> (result: Result<String, InspectionError>)
    ensures
        match result {
            Ok(key) => rule_key_of(model@, sid) == Ok::<Seq<char>, Fault>(key@),
            Err(error) => rule_key_of(model@, sid) == Err::<Seq<char>, Fault>(error@),
        },
{
    match tree_key_for_sid(model, sid) {
        Ok(key) => Ok(key),
        Err(_) => Err(
            invalid_duplicate(
                join("SID model is missing rule key ", signed_string(sid).as_str()).as_str(),
            ),
        ),
    }
}

/// The path of the first node inside a value that the model does not know,
/// when the value stands at a path.
pub open spec fn unknown_field(model: ModelView, value: Json, path: Seq<char>) -> Option<Seq<char>>
    decreases value, 1nat, 0nat,
{
    match value {
        Json::Object(members) => unknown_member(model, members, members.len(), path),
        Json::Array(items) => unknown_item(model, items, items.len(), path),
        _ => None,
    }
}

/// The path of the first unknown node among the first members of an object.
pub open spec fn unknown_member(
    model: ModelView,
    members: Seq<(Seq<char>, Json)>,
    count: nat,
    path: Seq<char>,
) -> Option<Seq<char>>
    decreases members, 0nat, count,
{
    if count == 0 || count > members.len() {
        None
    } else {
        match unknown_member(model, members, (count - 1) as nat, path) {
            Some(found) => Some(found),
            None => {
                let child = path + "/"@ + members[count - 1].0;
                if sid_of(model, child) is None {
                    Some(child)
                } else {
                    unknown_field(model, members[count - 1].1, child)
                }
            },
        }
    }
}

/// The path of the first unknown node among the first items of a list.
pub open spec fn unknown_item(
    model: ModelView,
    items: Seq<Json>,
    count: nat,
    path: Seq<char>,
) -> Option<Seq<char>>
    decreases items, 0nat, count,
{
    if count == 0 || count > items.len() {
        None
    } else {
        match unknown_item(model, items, (count - 1) as nat, path) {
            Some(found) => Some(found),
            None => unknown_field(model, items[count - 1], path),
        }
    }
}

/// The first unknown node decides, whatever follows it.
proof fn lemma_unknown_member_stays(
    model: ModelView,
    members: Seq<(Seq<char>, Json)>,
    count: nat,
    more: nat,
    path: Seq<char>,
)
    requires
        count <= more <= members.len(),
        unknown_member(model, members, count, path) is Some,
    ensures
        unknown_member(model, members, more, path) == unknown_member(model, members, count, path),
    decreases more,
{
    if count < more {
        lemma_unknown_member_stays(model, members, count, (more - 1) as nat, path);
    }
}

proof fn lemma_unknown_item_stays(
    model: ModelView,
    items: Seq<Json>,
    count: nat,
    more: nat,
    path: Seq<char>,
)
    requires
        count <= more <= items.len(),
        unknown_item(model, items, count, path) is Some,
    ensures
        unknown_item(model, items, more, path) == unknown_item(model, items, count, path),
    decreases more,
{
    if count < more {
        lemma_unknown_item_stays(model, items, count, (more - 1) as nat, path);
    }
}

/// Finds the first node inside a value that the model does not know.
fn find_unknown(model: &SidModel, value: &JsonValue, path: &str) -> (result: Option<String>)
    ensures
        match result {
            Some(found) => unknown_field(model@, value@, path@) == Some(found@),
            None => unknown_field(model@, value@, path@) is None,
        },
    decreases value,
{
    proof {
        lemma_json_view(*value);
    }
    match value {
        JsonValue::Object(members) => {
            let ghost view = members_view(members@);
            let mut index: usize = 0;
            while index < members.len()
                invariant
                    index <= members@.len(),
                    view == members_view(members@),
                    value@ == Json::Object(view),
                    unknown_member(model@, view, index as nat, path@) is None,
                    decreases_to!(value => members@),
                decreases members.len() - index,
            {
                let child = join3(path, "/", members[index].0.as_str());
                assert(view[index as int] == (members@[index as int].0@, members@[index as int].1@));
                if model.get_sid(child.as_str()).is_none() {
                    proof {
                        lemma_unknown_member_stays(
                            model@,
                            view,
                            (index + 1) as nat,
                            view.len(),
                            path@,
                        );
                    }
                    return Some(child);
                }
                if let Some(found) = find_unknown(model, &members[index].1, child.as_str()) {
                    proof {
                        lemma_unknown_member_stays(
                            model@,
                            view,
                            (index + 1) as nat,
                            view.len(),
                            path@,
                        );
                    }
                    return Some(found);
                }
                index += 1;
            }
            None
        },
        JsonValue::Array(items) => {
            let ghost view = list_view(items@);
            let mut index: usize = 0;
            while index < items.len()
                invariant
                    index <= items@.len(),
                    view == list_view(items@),
                    value@ == Json::Array(view),
                    unknown_item(model@, view, index as nat, path@) is None,
                    decreases_to!(value => items@),
                decreases items.len() - index,
            {
                assert(view[index as int] == items@[index as int]@);
                if let Some(found) = find_unknown(model, &items[index], path) {
                    proof {
                        lemma_unknown_item_stays(
                            model@,
                            view,
                            (index + 1) as nat,
                            view.len(),
                            path@,
                        );
                    }
                    return Some(found);
                }
                index += 1;
            }
            None
        },
        _ => None,
    }
}

/// The error of a value that holds a node unknown to the model.
pub open spec fn shape_fault(model: ModelView, value: Json, path: Seq<char>) -> Option<Fault> {
    match unknown_field(model, value, path) {
        Some(found) => Some(
            Fault::UnexpectedResponse(
                "rule-get response contained unexpected field '"@ + found + "'"@,
            ),
        ),
        None => None,
    }
}

/// Checks that the model knows every node inside a value.
pub fn validate_model_shape(model: &SidModel, value: &JsonValue, path: &str) -> (result: Result<
    (),
    InspectionError,
>)
    ensures
        match result {
            Ok(_) => shape_fault(model@, value@, path@) is None,
            Err(error) => shape_fault(model@, value@, path@) == Some(error@),
        },
{
    match find_unknown(model, value, path) {
        None => Ok(()),
        Some(found) => Err(
            unexpected(
                join3(
                    "rule-get response contained unexpected field '",
                    found.as_str(),
                    "'",
                ).as_str(),
            ),
        ),
    }
}

/// The SID of a node is that of the first item with its identifier, and a node
/// without such an item has none.
pub proof fn sid_is_that_of_the_first_item(items: Seq<(Seq<char>, i64)>, identifier: Seq<char>)
    ensures
        match sid_among(items, identifier) {
            Some(sid) => exists|at: int|
                0 <= at < items.len() && #[trigger] items[at] == (identifier, sid) && forall|i: int|
                    0 <= i < at ==> (#[trigger] items[i]).0 != identifier,
            None => forall|i: int| 0 <= i < items.len() ==> (#[trigger] items[i]).0 != identifier,
        },
    decreases items.len(),
{
    if items.len() > 0 {
        let rest = items.drop_first();
        sid_is_that_of_the_first_item(rest, identifier);
        if items[0].0 != identifier {
            match sid_among(rest, identifier) {
                Some(sid) => {
                    let at = choose|at: int|
                        0 <= at < rest.len() && #[trigger] rest[at] == (identifier, sid) && forall|
                            i: int,
                        |
                            0 <= i < at ==> (#[trigger] rest[i]).0 != identifier;
                    assert(items[at + 1] == (identifier, sid));
                    assert forall|i: int| 0 <= i < at + 1 implies (#[trigger] items[i]).0
                        != identifier by {
                        if i > 0 {
                            assert(rest[i - 1] == items[i]);
                        }
                    }
                },
                None => {
                    assert forall|i: int| 0 <= i < items.len() implies (#[trigger] items[i]).0
                        != identifier by {
                        if i > 0 {
                            assert(rest[i - 1] == items[i]);
                        }
                    }
                },
            }
        } else {
            assert(items[0] == (identifier, items[0].1));
        }
    }
}

/// The identifier of a SID is that of the first item with that SID, and a SID
/// without such an item has none.
pub proof fn identifier_is_that_of_the_first_item(items: Seq<(Seq<char>, i64)>, sid: i64)
    ensures
        match identifier_among(items, sid) {
            Some(identifier) => exists|at: int|
                0 <= at < items.len() && #[trigger] items[at] == (identifier, sid) && forall|i: int|
                    0 <= i < at ==> (#[trigger] items[i]).1 != sid,
            None => forall|i: int| 0 <= i < items.len() ==> (#[trigger] items[i]).1 != sid,
        },
    decreases items.len(),
{
    if items.len() > 0 {
        let rest = items.drop_first();
        identifier_is_that_of_the_first_item(rest, sid);
        if items[0].1 != sid {
            match identifier_among(rest, sid) {
                Some(identifier) => {
                    let at = choose|at: int|
                        0 <= at < rest.len() && #[trigger] rest[at] == (identifier, sid) && forall|
                            i: int,
                        |
                            0 <= i < at ==> (#[trigger] rest[i]).1 != sid;
                    assert(items[at + 1] == (identifier, sid));
                    assert forall|i: int| 0 <= i < at + 1 implies (#[trigger] items[i]).1
                        != sid by {
                        if i > 0 {
                            assert(rest[i - 1] == items[i]);
                        }
                    }
                },
                None => {
                    assert forall|i: int| 0 <= i < items.len() implies (#[trigger] items[i]).1
                        != sid by {
                        if i > 0 {
                            assert(rest[i - 1] == items[i]);
                        }
                    }
                },
            }
        } else {
            assert(items[0] == (items[0].0, sid));
        }
    }
}

/// The keys of a list are those of the first list with its SID, and a SID
/// without such a list has none.
pub proof fn keys_are_those_of_the_first_list(lists: Seq<(i64, Seq<i64>)>, sid: i64)
    ensures
        match keys_among(lists, sid) {
            Some(keys) => exists|at: int|
                0 <= at < lists.len() && #[trigger] lists[at] == (sid, keys) && forall|i: int|
                    0 <= i < at ==> (#[trigger] lists[i]).0 != sid,
            None => forall|i: int| 0 <= i < lists.len() ==> (#[trigger] lists[i]).0 != sid,
        },
    decreases lists.len(),
{
    if lists.len() > 0 {
        let rest = lists.drop_first();
        keys_are_those_of_the_first_list(rest, sid);
        if lists[0].0 != sid {
            match keys_among(rest, sid) {
                Some(keys) => {
                    let at = choose|at: int|
                        0 <= at < rest.len() && #[trigger] rest[at] == (sid, keys) && forall|
                            i: int,
                        |
                            0 <= i < at ==> (#[trigger] rest[i]).0 != sid;
                    assert(lists[at + 1] == (sid, keys));
                    assert forall|i: int| 0 <= i < at + 1 implies (#[trigger] lists[i]).0
                        != sid by {
                        if i > 0 {
                            assert(rest[i - 1] == lists[i]);
                        }
                    }
                },
                None => {
                    assert forall|i: int| 0 <= i < lists.len() implies (#[trigger] lists[i]).0
                        != sid by {
                        if i > 0 {
                            assert(rest[i - 1] == lists[i]);
                        }
                    }
                },
            }
        } else {
            assert(lists[0] == (sid, lists[0].1));
        }
    }
}

proof fn lemma_all_identifiers_known(model: ModelView, identifiers: Seq<Seq<char>>)
    ensures
        known_identifiers(model, identifiers) <= identifiers.len(),
        forall|i: int|
            0 <= i < known_identifiers(model, identifiers) ==> sid_of(
                model,
                #[trigger] identifiers[i],
            ) is Some,
        known_identifiers(model, identifiers) < identifiers.len() ==> sid_of(
            model,
            identifiers[known_identifiers(model, identifiers) as int],
        ) is None,
    decreases identifiers.len(),
{
    if identifiers.len() > 0 && sid_of(model, identifiers[0]) is Some {
        let rest = identifiers.drop_first();
        lemma_all_identifiers_known(model, rest);
        assert forall|i: int| 0 <= i < known_identifiers(model, identifiers) implies sid_of(
            model,
            #[trigger] identifiers[i],
        ) is Some by {
            if i > 0 {
                assert(rest[i - 1] == identifiers[i]);
            }
        }
        let known = known_identifiers(model, rest);
        if known < rest.len() {
            assert(rest[known as int] == identifiers[known as int + 1]);
        }
    }
}

/// The SIDs of management are those that the model gives to their own nodes.
pub proof fn management_sids_are_those_of_their_nodes(model: ModelView)
    requires
        resolved_sids(model) is Ok,
    ensures
        ({
            let sids = resolved_sids(model)->Ok_0;
            &&& sid_of(model, "/ietf-schc:schc"@) == Some(sids.root)
            &&& sid_of(model, "/ietf-schc:schc/rule"@) == Some(sids.rule)
            &&& sid_of(model, "/ietf-schc:schc/rule/rule-id-length"@) == Some(sids.rule_id_length)
            &&& sid_of(model, "/ietf-schc:schc/rule/rule-id-value"@) == Some(sids.rule_id_value)
            &&& sid_of(model, "/ietf-schc:schc/rule/entry-universal"@) == Some(sids.entry)
            &&& sid_of(model, "/ietf-schc:schc/rule/entry-universal/entry-index"@) == Some(sids.entry_index)
            &&& sid_of(model, "/ietf-schc:schc/rule/entry-universal/field-length"@) == Some(sids.field_length)
            &&& sid_of(model, "/ietf-schc:schc/rule/entry-universal/target-value"@) == Some(sids.target)
            &&& sid_of(model, "/ietf-schc:schc/rule/entry-universal/target-value/index"@) == Some(sids.target_index)
            &&& sid_of(model, "/ietf-schc:schc/rule/entry-universal/target-value/value"@) == Some(sids.target_value)
            &&& sid_of(model, "/ietf-schc:duplicate-rule"@) == Some(sids.duplicate_rule)
            &&& sid_of(model, "/ietf-schc:duplicate-rule/input"@) == Some(sids.duplicate_input)
            &&& sid_of(model, "/ietf-schc:duplicate-rule/input/from"@) == Some(sids.duplicate_from)
            &&& sid_of(model, "/ietf-schc:duplicate-rule/input/from/rule-id-length"@) == Some(sids.duplicate_from_length)
            &&& sid_of(model, "/ietf-schc:duplicate-rule/input/from/rule-id-value"@) == Some(sids.duplicate_from_value)
            &&& sid_of(model, "/ietf-schc:duplicate-rule/input/ipatch-sequence"@) == Some(sids.duplicate_ipatch)
            &&& sid_of(model, "/ietf-schc:duplicate-rule/input/to"@) == Some(sids.duplicate_to)
            &&& sid_of(model, "/ietf-schc:duplicate-rule/input/to/rule-id-length"@) == Some(sids.duplicate_to_length)
            &&& sid_of(model, "/ietf-schc:duplicate-rule/input/to/rule-id-value"@) == Some(sids.duplicate_to_value)
            &&& sid_of(model, "/ietf-schc:schc/rule/entry-universal/matching-operator"@) == Some(sids.matching_operator)
            &&& sid_of(model, "/ietf-schc:schc/rule/entry-universal/comp-decomp-action"@) == Some(sids.cda)
        }),
{
    let needed = needed_identifiers();
    lemma_all_identifiers_known(model, needed);
    assert forall|i: int| 0 <= i < 21 implies sid_of(model, #[trigger] needed[i]) is Some by {}
    assert(sid_of(model, needed[0]) is Some && sid_of(model, needed[1]) is Some && sid_of(
        model,
        needed[2],
    ) is Some && sid_of(model, needed[3]) is Some && sid_of(model, needed[4]) is Some && sid_of(
        model,
        needed[5],
    ) is Some && sid_of(model, needed[6]) is Some && sid_of(model, needed[7]) is Some && sid_of(
        model,
        needed[8],
    ) is Some && sid_of(model, needed[9]) is Some && sid_of(model, needed[10]) is Some);
    assert(sid_of(model, needed[11]) is Some && sid_of(model, needed[12]) is Some && sid_of(
        model,
        needed[13],
    ) is Some && sid_of(model, needed[14]) is Some && sid_of(model, needed[15]) is Some && sid_of(
        model,
        needed[16],
    ) is Some && sid_of(model, needed[17]) is Some && sid_of(model, needed[18]) is Some && sid_of(
        model,
        needed[19],
    ) is Some && sid_of(model, needed[20]) is Some);
}

/// A model without one of the nodes of management is refused, with the name of
/// such a node; a model with all of them is not.
pub proof fn incomplete_model_is_refused(model: ModelView)
    ensures
        match resolved_sids(model) {
            Ok(_) => forall|i: int|
                0 <= i < 21 ==> sid_of(model, #[trigger] needed_identifiers()[i]) is Some,
            Err(fault) => exists|i: int|
                0 <= i < 21 && sid_of(model, #[trigger] needed_identifiers()[i]) is None && fault
                    == Fault::InvalidTarget(
                    "SID model is missing identifier "@ + needed_identifiers()[i],
                ),
        },
{
    let needed = needed_identifiers();
    assert(needed.len() == 21);
    lemma_all_identifiers_known(model, needed);
    let known = known_identifiers(model, needed);
    if known < 21 {
        assert(sid_of(model, needed[known as int]) is None);
    }
}

/// A rule request uses the SIDs of the root and of the rule list.
pub proof fn rule_requests_use_root_and_rule_list(model: ModelView)
    ensures
        request_sids(model) is Ok <==> (sid_of(model, "/ietf-schc:schc"@) is Some && sid_of(
            model,
            "/ietf-schc:schc/rule"@,
        ) is Some),
        request_sids(model) matches Ok(pair) ==> sid_of(model, "/ietf-schc:schc"@) == Some(pair.0)
            && sid_of(model, "/ietf-schc:schc/rule"@) == Some(pair.1),
{
}

/// Updates are accepted on a model whose rules are keyed by value and length,
/// and whose entries and targets are keyed by their index.
pub proof fn update_model_has_its_keys(model: ModelView)
    ensures
        update_sids(model) is Ok <==> (resolved_sids(model) is Ok && keys_of(
            model,
            resolved_sids(model)->Ok_0.rule,
        ) == Some(
            seq![
                resolved_sids(model)->Ok_0.rule_id_value,
                resolved_sids(model)->Ok_0.rule_id_length,
            ],
        ) && keys_of(model, resolved_sids(model)->Ok_0.entry) == Some(
            seq![resolved_sids(model)->Ok_0.entry_index],
        ) && keys_of(model, resolved_sids(model)->Ok_0.target) == Some(
            seq![resolved_sids(model)->Ok_0.target_index],
        )),
        update_sids(model) is Ok ==> update_sids(model) == resolved_sids(model),
{
}

proof fn lemma_all_identified(model: ModelView, sids: Seq<i64>)
    requires
        identified(model, sids) >= sids.len(),
    ensures
        forall|i: int| 0 <= i < sids.len() ==> identifier_of(model, #[trigger] sids[i]) is Some,
    decreases sids.len(),
{
    if sids.len() > 0 {
        let rest = sids.drop_first();
        lemma_all_identified(model, rest);
        assert forall|i: int| 0 <= i < sids.len() implies identifier_of(
            model,
            #[trigger] sids[i],
        ) is Some by {
            if i > 0 {
                assert(rest[i - 1] == sids[i]);
            }
        }
    }
}

/// The duplicate operation is offered by a model that names every node which
/// the operation uses.
pub proof fn operation_model_names_its_nodes(model: ModelView)
    requires
        operation_sids(model) is Ok,
    ensures
        operation_sids(model) == resolved_sids(model),
        ({
            let sids = operation_sids(model)->Ok_0;
            &&& identifier_of(model, sids.duplicate_rule) is Some
            &&& identifier_of(model, sids.duplicate_input) is Some
            &&& identifier_of(model, sids.duplicate_from) is Some
            &&& identifier_of(model, sids.duplicate_from_length) is Some
            &&& identifier_of(model, sids.duplicate_from_value) is Some
            &&& identifier_of(model, sids.duplicate_ipatch) is Some
            &&& identifier_of(model, sids.duplicate_to) is Some
            &&& identifier_of(model, sids.duplicate_to_length) is Some
            &&& identifier_of(model, sids.duplicate_to_value) is Some
            &&& identifier_of(model, sids.matching_operator) is Some
            &&& identifier_of(model, sids.cda) is Some
        }),
{
    let sids = resolved_sids(model)->Ok_0;
    let used = duplicate_sids(sids);
    lemma_all_identified(model, used);
    assert(identifier_of(model, used[0]) is Some && identifier_of(model, used[1]) is Some
        && identifier_of(model, used[2]) is Some && identifier_of(model, used[3]) is Some
        && identifier_of(model, used[4]) is Some && identifier_of(model, used[5]) is Some
        && identifier_of(model, used[6]) is Some && identifier_of(model, used[7]) is Some
        && identifier_of(model, used[8]) is Some && identifier_of(model, used[9]) is Some
        && identifier_of(model, used[10]) is Some);
}

/// What follows the last separator holds no separator, ends the text, and
/// stands behind a separator or is the whole text.
pub proof fn last_segment_ends_the_text(text: Seq<char>, separator: char)
    ensures
        after_last(text, separator).len() <= text.len(),
        !after_last(text, separator).contains(separator),
        text.skip(text.len() - after_last(text, separator).len()) == after_last(text, separator),
        after_last(text, separator).len() < text.len() ==> text[text.len() - after_last(
            text,
            separator,
        ).len() - 1] == separator,
    decreases text.len(),
{
    if text.len() > 0 && text.last() != separator {
        let front = text.drop_last();
        last_segment_ends_the_text(front, separator);
        let inner = after_last(front, separator);
        let segment = after_last(text, separator);
        assert(segment == inner.push(text.last()));
        assert(!segment.contains(separator)) by {
            if segment.contains(separator) {
                let i = choose|i: int| 0 <= i < segment.len() && segment[i] == separator;
                if i < inner.len() {
                    assert(inner[i] == separator);
                }
            }
        }
        assert(text.skip(text.len() - segment.len()) =~= segment) by {
            assert forall|i: int| 0 <= i < segment.len() implies text[text.len() - segment.len()
                + i] == segment[i] by {
                if i < inner.len() {
                    assert(front.skip(front.len() - inner.len())[i] == inner[i]);
                }
            }
        }
    }
}

/// A tree holds a node under the last segment of its identifier.
pub proof fn tree_key_is_the_last_segment(model: ModelView, sid: i64)
    requires
        tree_key(model, sid) is Ok,
    ensures
        ({
            let key = tree_key(model, sid)->Ok_0;
            let identifier = identifier_of(model, sid)->0;
            &&& identifier_of(model, sid) is Some
            &&& 0 < key.len() <= identifier.len()
            &&& !key.contains('/')
            &&& identifier.skip(identifier.len() - key.len()) == key
            &&& key.len() < identifier.len() ==> identifier[identifier.len() - key.len() - 1] == '/'
        }),
        rule_key_of(model, sid) == tree_key(model, sid),
{
    last_segment_ends_the_text(identifier_of(model, sid)->0, '/');
}

proof fn lemma_known_members(
    model: ModelView,
    members: Seq<(Seq<char>, Json)>,
    count: nat,
    path: Seq<char>,
    at: int,
)
    requires
        0 <= at < count <= members.len(),
        unknown_member(model, members, count, path) is None,
    ensures
        sid_of(model, path + "/"@ + members[at].0) is Some,
        unknown_field(model, members[at].1, path + "/"@ + members[at].0) is None,
    decreases count,
{
    if at < count - 1 {
        lemma_known_members(model, members, (count - 1) as nat, path, at);
    }
}

proof fn lemma_known_items(
    model: ModelView,
    items: Seq<Json>,
    count: nat,
    path: Seq<char>,
    at: int,
)
    requires
        0 <= at < count <= items.len(),
        unknown_item(model, items, count, path) is None,
    ensures
        unknown_field(model, items[at], path) is None,
    decreases count,
{
    if at < count - 1 {
        lemma_known_items(model, items, (count - 1) as nat, path, at);
    }
}

/// In a value of known shape, every member of an object is a node of the model
/// at the path of the object, a slash and its name, and what it holds has a
/// known shape there; every item of a list has a known shape at the path of
/// the list.
pub proof fn known_shape_is_that_of_the_model(
    model: ModelView,
    value: Json,
    path: Seq<char>,
    at: int,
)
    requires
        shape_fault(model, value, path) is None,
    ensures
        value matches Json::Object(members) ==> 0 <= at < members.len() ==> sid_of(
            model,
            path + "/"@ + members[at].0,
        ) is Some && shape_fault(model, members[at].1, path + "/"@ + members[at].0) is None,
        value matches Json::Array(items) ==> 0 <= at < items.len() ==> shape_fault(
            model,
            items[at],
            path,
        ) is None,
{
    match value {
        Json::Object(members) => {
            if 0 <= at < members.len() {
                lemma_known_members(model, members, members.len(), path, at);
            }
        },
        Json::Array(items) => {
            if 0 <= at < items.len() {
                lemma_known_items(model, items, items.len(), path, at);
            }
        },
        _ => {},
    }
}

proof fn lemma_identified_to_the_end(model: ModelView, sids: Seq<i64>)
    requires
        forall|i: int| 0 <= i < sids.len() ==> identifier_of(model, #[trigger] sids[i]) is Some,
    ensures
        identified(model, sids) == sids.len(),
    decreases sids.len(),
{
    if sids.len() > 0 {
        assert(identifier_of(model, sids[0]) is Some);
        let rest = sids.drop_first();
        assert forall|i: int| 0 <= i < rest.len() implies identifier_of(
            model,
            #[trigger] rest[i],
        ) is Some by {
            assert(rest[i] == sids[i + 1]);
        }
        lemma_identified_to_the_end(model, rest);
    }
}

/// A complete model that names every node of the duplicate operation offers the
/// operation.
pub proof fn complete_model_offers_the_operation(model: ModelView)
    requires
        resolved_sids(model) is Ok,
        forall|i: int|
            0 <= i < 11 ==> identifier_of(
                model,
                #[trigger] duplicate_sids(resolved_sids(model)->Ok_0)[i],
            ) is Some,
    ensures
        operation_sids(model) == resolved_sids(model),
{
    let used = duplicate_sids(resolved_sids(model)->Ok_0);
    assert(used.len() == 11);
    lemma_identified_to_the_end(model, used);
}

} // verus!
