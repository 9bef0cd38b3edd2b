//! The rules that application traffic may use: a context without its
//! protected rules.

use vstd::prelude::*;

use crate::cbor::{
    array_view, cbor_bytes, cbor_item, decode_item, encode_item, entries_view, lemma_cbor_view,
    Cbor, CborValue,
};
use crate::context_error::{cbor_error, model_error, ContextError, ContextFault};
use crate::policy::{protects, ProtectedRules};
use crate::rule::RuleView;
use crate::rule_id::RuleId;
use crate::sid::{sid_of, ModelView, SidModel};

verus! {

/// The position of the first entry of a map under an integer key; the length
/// when there is none.
pub open spec fn entry_at(entries: Seq<(Cbor, Cbor)>, key: int) -> nat
    decreases entries.len(),
{
    if entries.len() == 0 || entries[0].0 == Cbor::Integer(key) {
        0
    } else {
        1 + entry_at(entries.drop_first(), key)
    }
}

/// The value of a map under an integer key.
pub open spec fn entry_value(value: Cbor, key: int) -> Option<Cbor> {
    match value {
        Cbor::Entries(entries) => if entry_at(entries, key) < entries.len() {
            Some(entries[entry_at(entries, key) as int].1)
        } else {
            None
        },
        _ => None,
    }
}

/// The number that a map holds under an integer key, when it is a 64-bit
/// unsigned integer.
pub open spec fn entry_number(value: Cbor, key: int) -> Option<u64> {
    match entry_value(value, key) {
        Some(Cbor::Integer(number)) => if 0 <= number <= u64::MAX {
            Some(number as u64)
        } else {
            None
        },
        _ => None,
    }
}

proof fn lemma_entry_at(entries: Seq<(Cbor, Cbor)>, key: int, at: int)
    requires
        0 <= at <= entries.len(),
        forall|i: int| 0 <= i < at ==> (#[trigger] entries[i]).0 != Cbor::Integer(key),
        at < entries.len() ==> entries[at].0 == Cbor::Integer(key),
    ensures
        entry_at(entries, key) == at,
    decreases entries.len(),
{
    if at > 0 {
        assert(entries[0].0 != Cbor::Integer(key));
        assert forall|i: int| 0 <= i < at - 1 implies (#[trigger] entries.drop_first()[i]).0
            != Cbor::Integer(key) by {
            assert(entries.drop_first()[i] == entries[i + 1]);
        }
        lemma_entry_at(entries.drop_first(), key, at - 1);
    }
}

fn find_entry(entries: &Vec<(CborValue, CborValue)>, key: i64) -> (result: usize)
    ensures
        result == entry_at(entries_view(entries@), key as int),
        result <= entries@.len(),
{
    let ghost view = entries_view(entries@);
    let mut index: usize = 0;
    while index < entries.len()
        invariant
            index <= entries@.len(),
            view == entries_view(entries@),
            forall|i: int| 0 <= i < index ==> (#[trigger] view[i]).0 != Cbor::Integer(key as int),
        decreases entries.len() - index,
    {
        assert(view[index as int].0 == entries@[index as int].0@);
        if let CborValue::Integer(number) = &entries[index].0 {
            if *number == key as i128 {
                proof {
                    lemma_entry_at(view, key as int, index as int);
                }
                return index;
            }
        }
        index += 1;
    }
    proof {
        lemma_entry_at(view, key as int, index as int);
    }
    index
}

fn map_number(value: &CborValue, key: i64) -> (result: Option<u64>)
    ensures
        result == entry_number(value@, key as int),
{
    proof {
        lemma_cbor_view(*value);
    }
    match value {
        CborValue::Entries(entries) => {
            let at: usize = find_entry(entries, key);
            if at < entries.len() {
                match &entries[at].1 {
                    CborValue::Integer(number) => if 0 <= *number && *number
                        <= 0xffff_ffff_ffff_ffff {
                        Some(*number as u64)
                    } else {
                        None
                    },
                    _ => None,
                }
            } else {
                None
            }
        },
        _ => None,
    }
}

/// The keys under which a complete encoding holds rules and their identities.
pub struct RuleKeys {
    /// The root container.
    pub root: i64,
    /// The rule list inside the root.
    pub rules: i64,
    /// The identity length inside a rule.
    pub length: i64,
    /// The identity value inside a rule.
    pub value: i64,
}

/// The difference of two SIDs, when it is representable.
pub open spec fn sid_difference(child: i64, parent: i64) -> Option<i64> {
    if i64::MIN <= child - parent <= i64::MAX {
        Some((child - parent) as i64)
    } else {
        None
    }
}

/// The keys under which an encoding of the model holds rules and identities.
pub open spec fn rule_keys(model: ModelView) -> Result<RuleKeys, ContextFault> {
    match (
        sid_of(model, "/ietf-schc:schc"@),
        sid_of(model, "/ietf-schc:schc/rule"@),
        sid_of(model, "/ietf-schc:schc/rule/rule-id-length"@),
        sid_of(model, "/ietf-schc:schc/rule/rule-id-value"@),
    ) {
        (None, _, _, _) => Err(ContextFault::Model("SID model is missing /ietf-schc:schc"@)),
        (_, None, _, _) => Err(ContextFault::Model("SID model is missing /ietf-schc:schc/rule"@)),
        (_, _, None, _) => Err(ContextFault::Model("SID model is missing rule-id-length"@)),
        (_, _, _, None) => Err(ContextFault::Model("SID model is missing rule-id-value"@)),
        (Some(root), Some(rule), Some(length), Some(value)) => match (
            sid_difference(rule, root),
            sid_difference(length, rule),
            sid_difference(value, rule),
        ) {
            (None, _, _) => Err(ContextFault::Model("rule SID precedes the SCHC root SID"@)),
            (_, None, _) => Err(ContextFault::Model("rule-id-length SID precedes the rule SID"@)),
            (_, _, None) => Err(ContextFault::Model("rule-id-value SID precedes the rule SID"@)),
            (Some(rules), Some(length), Some(value)) => Ok(RuleKeys { root, rules, length, value }),
        },
    }
}

fn resolve_rule_keys(model: &SidModel) -> (result: Result<RuleKeys, ContextError>)
    ensures
        match result {
            Ok(keys) => rule_keys(model@) == Ok::<RuleKeys, ContextFault>(keys),
            Err(error) => rule_keys(model@) == Err::<RuleKeys, ContextFault>(error@),
        },
{
    let root: i64 = match model.get_sid("/ietf-schc:schc") {
        Some(sid) => sid,
        None => {
            return Err(model_error("SID model is missing /ietf-schc:schc"));
        },
    };
    let rule: i64 = match model.get_sid("/ietf-schc:schc/rule") {
        Some(sid) => sid,
        None => {
            return Err(model_error("SID model is missing /ietf-schc:schc/rule"));
        },
    };
    let length_sid: i64 = match model.get_sid("/ietf-schc:schc/rule/rule-id-length") {
        Some(sid) => sid,
        None => {
            return Err(model_error("SID model is missing rule-id-length"));
        },
    };
    let value_sid: i64 = match model.get_sid("/ietf-schc:schc/rule/rule-id-value") {
        Some(sid) => sid,
        None => {
            return Err(model_error("SID model is missing rule-id-value"));
        },
    };
    let rules: i64 = match rule.checked_sub(root) {
        Some(difference) => difference,
        None => {
            return Err(model_error("rule SID precedes the SCHC root SID"));
        },
    };
    let length: i64 = match length_sid.checked_sub(rule) {
        Some(difference) => difference,
        None => {
            return Err(model_error("rule-id-length SID precedes the rule SID"));
        },
    };
    let value: i64 = match value_sid.checked_sub(rule) {
        Some(difference) => difference,
        None => {
            return Err(model_error("rule-id-value SID precedes the rule SID"));
        },
    };
    Ok(RuleKeys { root, rules, length, value })
}

/// Whether an encoded rule has a protected identity.
pub open spec fn encoded_rule_protected(
    rule: Cbor,
    keys: RuleKeys,
    protected: Seq<(RuleId, RuleView)>,
) -> bool {
    match (entry_number(rule, keys.value as int), entry_number(rule, keys.length as int)) {
        (Some(value), Some(bits)) => bits <= usize::MAX && protects(
            protected,
            RuleId { value, bit_len: bits as usize },
        ),
        _ => false,
    }
}

/// Encoded rules without the protected ones.
pub open spec fn unprotected(
    rules: Seq<Cbor>,
    keys: RuleKeys,
    protected: Seq<(RuleId, RuleView)>,
) -> Seq<Cbor>
    decreases rules.len(),
{
    if rules.len() == 0 {
        Seq::empty()
    } else if encoded_rule_protected(rules.last(), keys, protected) {
        unprotected(rules.drop_last(), keys, protected)
    } else {
        unprotected(rules.drop_last(), keys, protected).push(rules.last())
    }
}

/// A map with one value replaced.
pub open spec fn with_entry(entries: Seq<(Cbor, Cbor)>, at: int, value: Cbor) -> Cbor {
    Cbor::Entries(entries.update(at, (entries[at].0, value)))
}

/// A complete value without its protected rules.
pub open spec fn application_value(
    value: Cbor,
    keys: RuleKeys,
    protected: Seq<(RuleId, RuleView)>,
) -> Result<Cbor, ContextFault> {
    match entry_value(value, keys.root as int) {
        None => Err(ContextFault::Cbor("missing SCHC root in canonical SoR"@)),
        Some(root) => match entry_value(root, keys.rules as int) {
            Some(Cbor::Array(rules)) => {
                let root_entries = root->Entries_0;
                let entries = value->Entries_0;
                let kept = with_entry(
                    root_entries,
                    entry_at(root_entries, keys.rules as int) as int,
                    Cbor::Array(unprotected(rules, keys, protected)),
                );
                Ok(with_entry(entries, entry_at(entries, keys.root as int) as int, kept))
            },
            _ => Err(ContextFault::Cbor("missing rule list in canonical SoR"@)),
        },
    }
}

fn keep_unprotected(rules: &Vec<CborValue>, keys: &RuleKeys, protected: &ProtectedRules) -> (result:
    Vec<CborValue>)
    ensures
        array_view(result@) == unprotected(array_view(rules@), *keys, protected@),
{
    let ghost view = array_view(rules@);
    let mut result: Vec<CborValue> = Vec::new();
    let mut index: usize = 0;
    proof {
        assert(array_view(result@) =~= unprotected(view.take(0), *keys, protected@));
    }
    while index < rules.len()
        invariant
            index <= rules@.len(),
            view == array_view(rules@),
            array_view(result@) == unprotected(view.take(index as int), *keys, protected@),
        decreases rules.len() - index,
    {
        proof {
            assert(view.take(index + 1).drop_last() =~= view.take(index as int));
            assert(view.take(index + 1).last() == rules@[index as int]@);
        }
        let rule = &rules[index];
        let refused = match (map_number(rule, keys.value), map_number(rule, keys.length)) {
            (Some(value), Some(bits)) => if bits <= usize::MAX as u64 {
                protected.contains(RuleId::new(value, bits as usize))
            } else {
                false
            },
            _ => false,
        };
        if !refused {
            let ghost before = array_view(result@);
            result.push(rule.copy());
            assert(array_view(result@) =~= before.push(rule@));
        }
        index += 1;
    }
    assert(view.take(view.len() as int) =~= view);
    result
}

/// Copies a map with one value replaced.
fn replace_entry(entries: &Vec<(CborValue, CborValue)>, at: usize, value: CborValue) -> (result:
    CborValue)
    requires
        at < entries@.len(),
    ensures
        result@ == with_entry(entries_view(entries@), at as int, value@),
{
    let mut list: Vec<(CborValue, CborValue)> = Vec::new();
    let mut index: usize = 0;
    while index < at
        invariant
            index <= at < entries@.len(),
            list@.len() == index,
            forall|i: int|
                0 <= i < index ==> (#[trigger] list@[i]).0@ == entries@[i].0@ && list@[i].1@
                    == entries@[i].1@,
        decreases at - index,
    {
        list.push((entries[index].0.copy(), entries[index].1.copy()));
        index += 1;
    }
    list.push((entries[at].0.copy(), value));
    let count: usize = entries.len();
    index = at + 1;
    while index < count
        invariant
            at < index <= entries@.len(),
            count == entries@.len(),
            list@.len() == index,
            list@[at as int].0@ == entries@[at as int].0@,
            list@[at as int].1@ == value@,
            forall|i: int|
                0 <= i < index && i != at ==> (#[trigger] list@[i]).0@ == entries@[i].0@
                    && list@[i].1@ == entries@[i].1@,
        decreases count - index,
    {
        list.push((entries[index].0.copy(), entries[index].1.copy()));
        index += 1;
    }
    let result = CborValue::Entries(list);
    proof {
        lemma_cbor_view(result);
        let view = entries_view(entries@);
        assert(entries_view(list@) =~= view.update(at as int, (view[at as int].0, value@)));
    }
    result
}

fn filter_value(value: &CborValue, keys: &RuleKeys, protected: &ProtectedRules) -> (result: Result<
    CborValue,
    ContextError,
>)
    ensures
        match result {
            Ok(filtered) => application_value(value@, *keys, protected@) == Ok::<Cbor, ContextFault>(
                filtered@,
            ),
            Err(error) => application_value(value@, *keys, protected@) == Err::<Cbor, ContextFault>(
                error@,
            ),
        },
{
    proof {
        lemma_cbor_view(*value);
    }
    let entries = match value {
        CborValue::Entries(entries) => entries,
        _ => {
            return Err(cbor_error("missing SCHC root in canonical SoR"));
        },
    };
    let at: usize = find_entry(entries, keys.root);
    if at >= entries.len() {
        return Err(cbor_error("missing SCHC root in canonical SoR"));
    }
    let root = &entries[at].1;
    proof {
        lemma_cbor_view(*root);
        assert(entries_view(entries@)[at as int].1 == root@);
    }
    let root_entries = match root {
        CborValue::Entries(root_entries) => root_entries,
        _ => {
            return Err(cbor_error("missing rule list in canonical SoR"));
        },
    };
    let list_at: usize = find_entry(root_entries, keys.rules);
    if list_at >= root_entries.len() {
        return Err(cbor_error("missing rule list in canonical SoR"));
    }
    let list = &root_entries[list_at].1;
    proof {
        lemma_cbor_view(*list);
        assert(entries_view(root_entries@)[list_at as int].1 == list@);
    }
    match list {
        CborValue::Array(rules) => {
            let kept = CborValue::Array(keep_unprotected(rules, keys, protected));
            proof {
                lemma_cbor_view(kept);
            }
            Ok(replace_entry(entries, at, replace_entry(root_entries, list_at, kept)))
        },
        _ => Err(cbor_error("missing rule list in canonical SoR")),
    }
}

/// How a complete encoding loses its protected rules. What the codec's own
/// errors say is left open.
pub open spec fn application_encoding(
    sor: Seq<u8>,
    model: ModelView,
    protected: Seq<(RuleId, RuleView)>,
    outcome: Result<Seq<u8>, ContextFault>,
) -> bool {
    match cbor_item(sor) {
        None => outcome matches Err(ContextFault::Cbor(_)),
        Some((value, _)) => match rule_keys(model) {
            Err(fault) => outcome == Err::<Seq<u8>, ContextFault>(fault),
            Ok(keys) => match application_value(value, keys, protected) {
                Err(fault) => outcome == Err::<Seq<u8>, ContextFault>(fault),
                Ok(filtered) => match cbor_bytes(filtered) {
                    None => outcome matches Err(ContextFault::Cbor(_)),
                    Some(bytes) => outcome == Ok::<Seq<u8>, ContextFault>(bytes),
                },
            },
        },
    }
}

/// The bytes of a result.
pub open spec fn bytes_view(result: Result<Vec<u8>, ContextError>) -> Result<
    Seq<u8>,
    ContextFault,
> {
    match result {
        Ok(bytes) => Ok(bytes@),
        Err(error) => Err(error@),
    }
}

/// Encodes a context without its protected rules.
pub fn application_sor(sor: &[u8], model: &SidModel, protected: &ProtectedRules) -> (result: Result<
    Vec<u8>,
    ContextError,
>)
    ensures
        application_encoding(sor@, model@, protected@, bytes_view(result)),
{
    let (value, _) = match decode_item(sor) {
        Ok(item) => item,
        Err(text) => {
            return Err(ContextError::Cbor(text));
        },
    };
    let keys = resolve_rule_keys(model)?;
    let filtered = filter_value(&value, &keys, protected)?;
    match encode_item(&filtered) {
        Ok(bytes) => Ok(bytes),
        Err(text) => Err(ContextError::Cbor(text)),
    }
}

proof fn lemma_unprotected(
    rules: Seq<Cbor>,
    keys: RuleKeys,
    protected: Seq<(RuleId, RuleView)>,
)
    ensures
        forall|rule: Cbor|
            #![trigger unprotected(rules, keys, protected).contains(rule)]
            unprotected(rules, keys, protected).contains(rule) == (rules.contains(rule)
                && !encoded_rule_protected(rule, keys, protected)),
    decreases rules.len(),
{
    let kept = unprotected(rules, keys, protected);
    if rules.len() > 0 {
        let before = rules.drop_last();
        let shorter = unprotected(before, keys, protected);
        lemma_unprotected(before, keys, protected);
        assert forall|rule: Cbor| #[trigger] kept.contains(rule) == (rules.contains(rule)
            && !encoded_rule_protected(rule, keys, protected)) by {
            assert(shorter.contains(rule) == (before.contains(rule) && !encoded_rule_protected(
                rule,
                keys,
                protected,
            )));
            assert(rules =~= before.push(rules.last()));
            if rules.contains(rule) && !before.contains(rule) {
                let at = choose|i: int| 0 <= i < rules.len() && rules[i] == rule;
                if at < before.len() {
                    assert(before[at] == rule);
                }
                assert(rule == rules.last());
            }
            if before.contains(rule) {
                let at = choose|i: int| 0 <= i < before.len() && before[i] == rule;
                assert(rules[at] == rule);
            }
            if shorter.contains(rule) && kept.len() > shorter.len() {
                let at = choose|i: int| 0 <= i < shorter.len() && shorter[i] == rule;
                assert(kept[at] == rule);
            }
            if kept.contains(rule) && !shorter.contains(rule) {
                let at = choose|i: int| 0 <= i < kept.len() && kept[i] == rule;
                if at < shorter.len() {
                    assert(shorter[at] == rule);
                }
                assert(rule == rules.last());
                assert(rules[rules.len() - 1] == rule);
            }
            if rule == rules.last() && !encoded_rule_protected(rule, keys, protected) {
                assert(kept[kept.len() - 1] == rule);
            }
        }
    }
}

/// What application traffic may use is every rule of the context except the
/// protected ones.
pub proof fn application_rules_leave_out_protected_rules(
    rules: Seq<Cbor>,
    keys: RuleKeys,
    protected: Seq<(RuleId, RuleView)>,
)
    ensures
        forall|rule: Cbor|
            #![trigger unprotected(rules, keys, protected).contains(rule)]
            unprotected(rules, keys, protected).contains(rule) == (rules.contains(rule)
                && !encoded_rule_protected(rule, keys, protected)),
{
    lemma_unprotected(rules, keys, protected);
}

/// The entry of a map under an integer key is the first one with that key, and
/// a map without such an entry has no value there.
pub proof fn entry_is_the_first_with_its_key(entries: Seq<(Cbor, Cbor)>, key: int)
    ensures
        match entry_value(Cbor::Entries(entries), key) {
            Some(value) => exists|at: int|
                0 <= at < entries.len() && #[trigger] entries[at] == (Cbor::Integer(key), value)
                    && forall|i: int|
                    0 <= i < at ==> (#[trigger] entries[i]).0 != Cbor::Integer(key),
            None => forall|i: int|
                0 <= i < entries.len() ==> (#[trigger] entries[i]).0 != Cbor::Integer(key),
        },
{
    lemma_first_entry(entries, key);
    let at = entry_at(entries, key);
    if at < entries.len() {
        assert(entries[at as int] == (Cbor::Integer(key), entries[at as int].1));
    }
}

proof fn lemma_first_entry(entries: Seq<(Cbor, Cbor)>, key: int)
    ensures
        entry_at(entries, key) <= entries.len(),
        forall|i: int|
            0 <= i < entry_at(entries, key) ==> (#[trigger] entries[i]).0 != Cbor::Integer(key),
        entry_at(entries, key) < entries.len() ==> entries[entry_at(entries, key) as int].0
            == Cbor::Integer(key),
    decreases entries.len(),
{
    if entries.len() > 0 && entries[0].0 != Cbor::Integer(key) {
        let rest = entries.drop_first();
        lemma_first_entry(rest, key);
        assert forall|i: int| 0 <= i < entry_at(entries, key) implies (#[trigger] entries[i]).0
            != Cbor::Integer(key) by {
            if i > 0 {
                assert(rest[i - 1] == entries[i]);
            }
        }
    }
}

/// An encoding holds the rules under the distance of their list from the root,
/// and the identity of a rule under the distances of its value and its length
/// from the list.
pub proof fn rule_keys_are_distances(model: ModelView)
    requires
        rule_keys(model) is Ok,
    ensures
        ({
            let keys = rule_keys(model)->Ok_0;
            &&& sid_of(model, "/ietf-schc:schc"@) == Some(keys.root)
            &&& sid_of(model, "/ietf-schc:schc/rule"@) is Some
            &&& sid_of(model, "/ietf-schc:schc/rule"@)->0 == keys.root + keys.rules
            &&& sid_of(model, "/ietf-schc:schc/rule/rule-id-length"@) is Some
            &&& sid_of(model, "/ietf-schc:schc/rule/rule-id-length"@)->0 == keys.root + keys.rules
                + keys.length
            &&& sid_of(model, "/ietf-schc:schc/rule/rule-id-value"@) is Some
            &&& sid_of(model, "/ietf-schc:schc/rule/rule-id-value"@)->0 == keys.root + keys.rules
                + keys.value
        }),
{
}

/// An encoded rule is protected exactly when some protected rule has the value
/// and the bit length that it holds.
pub proof fn encoded_rule_is_protected_by_its_identity(
    rule: Cbor,
    keys: RuleKeys,
    protected: Seq<(RuleId, RuleView)>,
)
    ensures
        encoded_rule_protected(rule, keys, protected) <==> exists|i: int|
            0 <= i < protected.len() && entry_value(rule, keys.value as int) == Some(
                Cbor::Integer((#[trigger] protected[i]).0.value as int),
            ) && entry_value(rule, keys.length as int) == Some(
                Cbor::Integer(protected[i].0.bit_len as int),
            ),
{
    if encoded_rule_protected(rule, keys, protected) {
        let id = RuleId {
            value: entry_number(rule, keys.value as int)->0,
            bit_len: entry_number(rule, keys.length as int)->0 as usize,
        };
        let i = choose|i: int| 0 <= i < protected.len() && (#[trigger] protected[i]).0 == id;
        assert(protected[i].0 == id);
    }
    if exists|i: int|
        0 <= i < protected.len() && entry_value(rule, keys.value as int) == Some(
            Cbor::Integer((#[trigger] protected[i]).0.value as int),
        ) && entry_value(rule, keys.length as int) == Some(
            Cbor::Integer(protected[i].0.bit_len as int),
        ) {
        let i = choose|i: int|
            0 <= i < protected.len() && entry_value(rule, keys.value as int) == Some(
                Cbor::Integer((#[trigger] protected[i]).0.value as int),
            ) && entry_value(rule, keys.length as int) == Some(
                Cbor::Integer(protected[i].0.bit_len as int),
            );
        assert(protected[i].0.bit_len <= u64::MAX);
        assert(protected[i].0 == (RuleId {
            value: entry_number(rule, keys.value as int)->0,
            bit_len: entry_number(rule, keys.length as int)->0 as usize,
        }));
    }
}

/// A value without its protected rules differs from the complete value only in
/// its rule list: every other entry of the value and of its root stays, and
/// the list holds the rules that are not protected.
pub proof fn only_the_rule_list_is_filtered(
    value: Cbor,
    keys: RuleKeys,
    protected: Seq<(RuleId, RuleView)>,
)
    requires
        application_value(value, keys, protected) is Ok,
    ensures
        ({
            let filtered = application_value(value, keys, protected)->Ok_0;
            let root = entry_value(value, keys.root as int)->0;
            let kept = entry_value(filtered, keys.root as int)->0;
            &&& entry_value(value, keys.root as int) is Some
            &&& entry_value(filtered, keys.root as int) is Some
            &&& entry_value(root, keys.rules as int) is Some
            &&& entry_value(root, keys.rules as int)->0 is Array
            &&& entry_value(kept, keys.rules as int) == Some(
                Cbor::Array(
                    unprotected(
                        entry_value(root, keys.rules as int)->0->Array_0,
                        keys,
                        protected,
                    ),
                ),
            )
            &&& forall|key: int|
                key != keys.root ==> #[trigger] entry_value(filtered, key) == entry_value(
                    value,
                    key,
                )
            &&& forall|key: int|
                key != keys.rules ==> #[trigger] entry_value(kept, key) == entry_value(root, key)
        }),
{
    let root = entry_value(value, keys.root as int)->0;
    let rules = entry_value(root, keys.rules as int)->0->Array_0;
    let list = Cbor::Array(unprotected(rules, keys, protected));
    let kept = with_entry(
        root->Entries_0,
        entry_at(root->Entries_0, keys.rules as int) as int,
        list,
    );
    lemma_replaced_entry(root->Entries_0, keys.rules as int, list);
    lemma_replaced_entry(value->Entries_0, keys.root as int, kept);
}

proof fn lemma_replaced_entry(entries: Seq<(Cbor, Cbor)>, key: int, value: Cbor)
    requires
        entry_at(entries, key) < entries.len(),
    ensures
        entry_value(with_entry(entries, entry_at(entries, key) as int, value), key) == Some(value),
        forall|other: int|
            other != key ==> #[trigger] entry_value(
                with_entry(entries, entry_at(entries, key) as int, value),
                other,
            ) == entry_value(Cbor::Entries(entries), other),
{
    let at = entry_at(entries, key) as int;
    let changed = with_entry(entries, at, value)->Entries_0;
    lemma_first_entry(entries, key);
    assert(forall|i: int| 0 <= i < entries.len() ==> (#[trigger] changed[i]).0 == entries[i].0);
    lemma_same_places(entries, changed, key);
    assert forall|other: int| other != key implies #[trigger] entry_value(
        with_entry(entries, at, value),
        other,
    ) == entry_value(Cbor::Entries(entries), other) by {
        lemma_same_places(entries, changed, other);
        lemma_first_entry(entries, other);
        let place = entry_at(entries, other) as int;
        if place < entries.len() {
            assert(entries[place].0 == Cbor::Integer(other));
            assert(place != at);
            assert(changed[place] == entries[place]);
        }
    }
}

proof fn lemma_same_places(left: Seq<(Cbor, Cbor)>, right: Seq<(Cbor, Cbor)>, key: int)
    requires
        left.len() == right.len(),
        forall|i: int| 0 <= i < left.len() ==> (#[trigger] right[i]).0 == left[i].0,
    ensures
        entry_at(left, key) == entry_at(right, key),
    decreases left.len(),
{
    if left.len() > 0 {
        assert(right[0].0 == left[0].0);
        let l = left.drop_first();
        let r = right.drop_first();
        assert forall|i: int| 0 <= i < l.len() implies (#[trigger] r[i]).0 == l[i].0 by {
            assert(right[i + 1].0 == left[i + 1].0);
        }
        lemma_same_places(l, r, key);
    }
}

/// An encoding without its protected rules is that of the filtered value.
pub proof fn application_encoding_is_that_of_the_filtered_value(
    sor: Seq<u8>,
    model: ModelView,
    protected: Seq<(RuleId, RuleView)>,
    outcome: Result<Seq<u8>, ContextFault>,
)
    requires
        application_encoding(sor, model, protected, outcome),
        outcome is Ok,
    ensures
        cbor_item(sor) is Some,
        rule_keys(model) is Ok,
        application_value((cbor_item(sor)->0).0, rule_keys(model)->Ok_0, protected) is Ok,
        cbor_bytes(
            application_value((cbor_item(sor)->0).0, rule_keys(model)->Ok_0, protected)->Ok_0,
        ) == Some(outcome->Ok_0),
{
}

/// The keys of rules are found in a model that knows the four nodes and whose
/// SIDs lie close enough for their distances.
pub proof fn rule_keys_are_found_in_a_complete_model(model: ModelView)
    ensures
        ({
            let root = sid_of(model, "/ietf-schc:schc"@);
            let rule = sid_of(model, "/ietf-schc:schc/rule"@);
            let length = sid_of(model, "/ietf-schc:schc/rule/rule-id-length"@);
            let value = sid_of(model, "/ietf-schc:schc/rule/rule-id-value"@);
            rule_keys(model) is Ok <==> root is Some && rule is Some && length is Some
                && value is Some && i64::MIN <= rule->0 - root->0 <= i64::MAX && i64::MIN
                <= length->0 - rule->0 <= i64::MAX && i64::MIN <= value->0 - rule->0 <= i64::MAX
        }),
{
}

/// Rules are filtered in every value that has a root with a rule list.
pub proof fn value_with_a_rule_list_is_filtered(
    value: Cbor,
    keys: RuleKeys,
    protected: Seq<(RuleId, RuleView)>,
)
    ensures
        application_value(value, keys, protected) is Ok <==> entry_value(value, keys.root as int)
            is Some && entry_value(entry_value(value, keys.root as int)->0, keys.rules as int)
            is Some && entry_value(
            entry_value(value, keys.root as int)->0,
            keys.rules as int,
        )->0 is Array,
{
}

} // verus!
