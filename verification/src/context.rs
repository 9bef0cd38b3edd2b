//! Managed contexts: loading, preparation and publication of one immutable
//! context at a time.

use vstd::prelude::*;

use crate::allocation::{
    explicit_id, ContextProfile, DynamicRuleIdNamespace, RuleIdSpec, RuleIdTreeError,
};
use crate::application_rules::{application_encoding, application_sor, bytes_view};
use crate::cbor::{cbor_bytes, cbor_item, keys_unique, same_bytes, Cbor, CborValue};
use crate::codec::{
    context_tag, digest_context, digest_input, encode_tree, encoded_strictly, encoding_fault,
    ensure_schc_root, json_bytes, normalize_tree, normalized, root_fault, sha256_of,
    strict_cbor_value, strict_fault, ContextTag,
};
use crate::context_error::{model_error, ContextError, ContextFault};
use crate::json::{member, unsigned, Json, JsonValue};
use crate::policy::{derived, enforcement_fault, ids_of, ProtectedRules, ProtectionPolicy};
use crate::rule::{copy_bytes, rules_view, Rule, RuleView};
use crate::rule_id::{ambiguous, overlaps, RuleId};
use crate::sid::{sid_of, ModelView, SidModel};
use crate::text::{join, same_text};

verus! {

/// The context-level management guard period.
#[derive(Debug, Clone, Copy, PartialEq, Eq, Structural)]
pub struct GuardPeriod {
    /// Duration of one guard-period tick.
    pub ticks_duration: u8,
    /// Number of ticks in the guard period.
    pub ticks_numbers: u16,
}

/// The context container of a tree.
pub open spec fn context_of(tree: Json) -> Option<Json> {
    match member(tree, "ietf-schc:context"@) {
        Some(context) => Some(context),
        None => member(tree, "context"@),
    }
}

/// A number that a period may hold under a name.
pub open spec fn period_number(period: Json, name: Seq<char>, limit: int) -> Option<int> {
    match member(period, name) {
        Some(value) => match unsigned(value) {
            Some(number) => if number <= limit {
                Some(number as int)
            } else {
                None
            },
            None => None,
        },
        None => None,
    }
}

/// The guard period of a tree: absent without a tick count, and with a tick
/// of twenty when its duration is omitted.
pub open spec fn guard_period_of(tree: Json) -> Result<Option<GuardPeriod>, ContextFault> {
    match context_of(tree) {
        None => Ok(None),
        Some(context) => match member(context, "guard-period"@) {
            None => Ok(None),
            Some(period) => if !(period is Object) {
                Err(ContextFault::Model("guard-period is not an object"@))
            } else if member(period, "ticks-duration"@) is Some && period_number(
                period,
                "ticks-duration"@,
                255,
            ) is None {
                Err(ContextFault::Model("guard-period/ticks-duration is not uint8"@))
            } else if member(period, "ticks-numbers"@) is None {
                Ok(None)
            } else {
                match period_number(period, "ticks-numbers"@, 65535) {
                    None => Err(ContextFault::Model("guard-period/ticks-numbers is not uint16"@)),
                    Some(numbers) => Ok(
                        Some(
                            GuardPeriod {
                                ticks_duration: match period_number(
                                    period,
                                    "ticks-duration"@,
                                    255,
                                ) {
                                    Some(duration) => duration as u8,
                                    None => 20,
                                },
                                ticks_numbers: numbers as u16,
                            },
                        ),
                    ),
                }
            },
        },
    }
}

/// Reads the guard period of a tree.
pub fn guard_period_from_tree(tree: &JsonValue) -> (result: Result<
    Option<GuardPeriod>,
    ContextError,
>)
    ensures
        match result {
            Ok(period) => guard_period_of(tree@) == Ok::<Option<GuardPeriod>, ContextFault>(period),
            Err(error) => guard_period_of(tree@) == Err::<Option<GuardPeriod>, ContextFault>(
                error@,
            ),
        },
{
    let context = match tree.get("ietf-schc:context") {
        Some(context) => context,
        None => match tree.get("context") {
            Some(context) => context,
            None => {
                return Ok(None);
            },
        },
    };
    let period = match context.get("guard-period") {
        Some(period) => period,
        None => {
            return Ok(None);
        },
    };
    let is_object = match period {
        JsonValue::Object(_) => true,
        _ => false,
    };
    if !is_object {
        return Err(model_error("guard-period is not an object"));
    }
    let ticks_duration: u8 = match period.get("ticks-duration") {
        None => 20,
        Some(value) => match value.as_u64() {
            Some(number) if number <= 255 => number as u8,
            _ => {
                return Err(model_error("guard-period/ticks-duration is not uint8"));
            },
        },
    };
    let numbers = match period.get("ticks-numbers") {
        None => {
            return Ok(None);
        },
        Some(value) => value.as_u64(),
    };
    match numbers {
        Some(number) if number <= 65535 => Ok(
            Some(GuardPeriod { ticks_duration, ticks_numbers: number as u16 }),
        ),
        _ => Err(model_error("guard-period/ticks-numbers is not uint16")),
    }
}

/// A complete canonical context before it is bound to a runtime.
#[derive(Debug)]
pub struct LoadedContext {
    /// Typed rules in canonical order.
    pub rules: Vec<Rule>,
    /// Canonical identifier-keyed tree.
    pub tree: JsonValue,
    /// Canonical complete encoding.
    pub sor: Vec<u8>,
    /// Protected rules.
    pub protected: ProtectedRules,
    /// Guard period, when configured.
    pub guard_period: Option<GuardPeriod>,
}

/// A loaded context as a mathematical value.
pub struct LoadedView {
    /// Typed rules in canonical order.
    pub rules: Seq<RuleView>,
    /// Canonical identifier-keyed tree.
    pub tree: Json,
    /// Canonical complete encoding.
    pub sor: Seq<u8>,
    /// Protected rules.
    pub protected: Seq<(RuleId, RuleView)>,
    /// Guard period, when configured.
    pub guard_period: Option<GuardPeriod>,
}

impl View for LoadedContext {
    type V = LoadedView;

    open spec fn view(&self) -> LoadedView {
        LoadedView {
            rules: rules_view(self.rules@),
            tree: self.tree@,
            sor: self.sor@,
            protected: self.protected@,
            guard_period: self.guard_period,
        }
    }
}

/// What the two model libraries answered while a context was loaded.
#[derive(Debug)]
pub struct ModelAnswers {
    /// The tree of the input encoding.
    pub initial_tree: Result<JsonValue, String>,
    /// The value that encodes the ordered tree.
    pub encoded: Result<CborValue, String>,
    /// The tree of the canonical encoding.
    pub canonical_tree: Result<JsonValue, String>,
    /// The typed rules of the canonical encoding.
    pub rules: Result<Vec<Rule>, String>,
}

/// The answers of the model libraries as mathematical values.
pub struct AnswersView {
    /// The tree of the input encoding.
    pub initial_tree: Result<Json, Seq<char>>,
    /// The value that encodes the ordered tree.
    pub encoded: Result<Cbor, Seq<char>>,
    /// The tree of the canonical encoding.
    pub canonical_tree: Result<Json, Seq<char>>,
    /// The typed rules of the canonical encoding.
    pub rules: Result<Seq<RuleView>, Seq<char>>,
}

/// The tree of an answer.
pub open spec fn tree_view(answer: Result<JsonValue, String>) -> Result<Json, Seq<char>> {
    match answer {
        Ok(tree) => Ok(tree@),
        Err(text) => Err(text@),
    }
}

/// The value of an answer.
pub open spec fn cbor_view(answer: Result<CborValue, String>) -> Result<Cbor, Seq<char>> {
    match answer {
        Ok(value) => Ok(value@),
        Err(text) => Err(text@),
    }
}

impl View for ModelAnswers {
    type V = AnswersView;

    open spec fn view(&self) -> AnswersView {
        AnswersView {
            initial_tree: tree_view(self.initial_tree),
            encoded: cbor_view(self.encoded),
            canonical_tree: tree_view(self.canonical_tree),
            rules: match self.rules {
                Ok(rules) => Ok(rules_view(rules@)),
                Err(text) => Err(text@),
            },
        }
    }
}

/// The context that canonical parts make up.
pub open spec fn assembled(rules: Seq<RuleView>, tree: Json, sor: Seq<u8>) -> Result<
    LoadedView,
    ContextFault,
> {
    match derived(rules, Seq::empty()) {
        Err(fault) => Err(fault),
        Ok(protected) => match guard_period_of(tree) {
            Err(fault) => Err(fault),
            Ok(guard_period) => Ok(LoadedView { rules, tree, sor, protected, guard_period }),
        },
    }
}

/// How the canonical parts of a context are checked, once its encoding is
/// known to be strict.
pub open spec fn canonical_outcome(ordered: Json, sor: Seq<u8>, answers: AnswersView) -> Result<
    LoadedView,
    ContextFault,
> {
    match answers.canonical_tree {
        Err(text) => Err(ContextFault::Model(text)),
        Ok(tree) => match normalized(tree, None) {
            Err(fault) => Err(fault),
            Ok(again) => if again != ordered {
                Err(
                    ContextFault::Model("canonical tree does not round-trip through rustconf"@),
                )
            } else {
                match answers.rules {
                    Err(text) => Err(ContextFault::Schc(text)),
                    Ok(rules) => assembled(rules, again, sor),
                }
            },
        },
    }
}

/// How the tree of an input encoding becomes a canonical context. What the
/// codec's own errors say is left open.
pub open spec fn tree_outcome(answers: AnswersView, outcome: Result<LoadedView, ContextFault>) -> bool {
    match answers.initial_tree {
        Err(text) => outcome == Err::<LoadedView, ContextFault>(ContextFault::Model(text)),
        Ok(tree) => match normalized(tree, None) {
            Err(fault) => outcome == Err::<LoadedView, ContextFault>(fault),
            Ok(ordered) => match answers.encoded {
                Err(text) => outcome == Err::<LoadedView, ContextFault>(
                    ContextFault::Rustconf(text),
                ),
                Ok(value) => {
                    ||| outcome matches Err(fault) && encoding_fault(value, fault)
                    ||| encoded_strictly(value, cbor_bytes(value)->0) && outcome
                        == canonical_outcome(ordered, cbor_bytes(value)->0, answers)
                },
            },
        },
    }
}

/// How an input encoding becomes a canonical context. What the codec's own
/// errors say is left open.
pub open spec fn load_outcome(
    model: ModelView,
    sor: Seq<u8>,
    answers: AnswersView,
    outcome: Result<LoadedView, ContextFault>,
) -> bool {
    if !(cbor_item(sor) matches Some((value, length)) && length == sor.len() && keys_unique(
        value,
    )) {
        outcome matches Err(fault) && strict_fault(sor, fault)
    } else {
        match sid_of(model, "/ietf-schc:schc"@) {
            None => outcome == Err::<LoadedView, ContextFault>(
                ContextFault::Model("SID model is missing /ietf-schc:schc"@),
            ),
            Some(root) => match root_fault((cbor_item(sor)->0).0, root) {
                Some(fault) => outcome == Err::<LoadedView, ContextFault>(fault),
                None => tree_outcome(answers, outcome),
            },
        }
    }
}

/// The context or error of a result.
pub open spec fn loaded_view(result: Result<LoadedContext, ContextError>) -> Result<
    LoadedView,
    ContextFault,
> {
    match result {
        Ok(loaded) => Ok(loaded@),
        Err(error) => Err(error@),
    }
}

/// Checks that an input is one strict map with the root container.
pub fn check_sor(model: &SidModel, sor: &[u8]) -> (result: Result<(), ContextError>)
    ensures
        match result {
            Ok(_) => {
                &&& cbor_item(sor@) matches Some((value, length))
                &&& length == sor@.len() && keys_unique(value)
                &&& sid_of(model@, "/ietf-schc:schc"@) matches Some(root)
                &&& root_fault(value, root) is None
            },
            Err(error) => {
                let strict = cbor_item(sor@) matches Some((value, length)) && length == sor@.len()
                    && keys_unique(value);
                if !strict {
                    strict_fault(sor@, error@)
                } else {
                    match sid_of(model@, "/ietf-schc:schc"@) {
                        None => error@ == ContextFault::Model(
                            "SID model is missing /ietf-schc:schc"@,
                        ),
                        Some(root) => root_fault((cbor_item(sor@)->0).0, root) == Some(error@),
                    }
                }
            },
        },
{
    let value = strict_cbor_value(sor)?;
    let root: i64 = match model.get_sid("/ietf-schc:schc") {
        Some(root) => root,
        None => {
            return Err(model_error("SID model is missing /ietf-schc:schc"));
        },
    };
    ensure_schc_root(&value, root)
}

impl LoadedContext {
    /// Loads a complete context from its encoding and the answers of the two
    /// model libraries, with automatic protection of management rules.
    pub fn from_sor(model: &SidModel, sor: &[u8], answers: ModelAnswers) -> (result: Result<
        Self,
        ContextError,
    >)
        ensures
            load_outcome(model@, sor@, answers@, loaded_view(result)),
    {
        check_sor(model, sor)?;
        let initial_tree = match answers.initial_tree {
            Ok(tree) => tree,
            Err(text) => {
                return Err(ContextError::Model(text));
            },
        };
        let ordered = normalize_tree(&initial_tree)?;
        let encoded = match answers.encoded {
            Ok(value) => value,
            Err(text) => {
                return Err(ContextError::Rustconf(text));
            },
        };
        let canonical_sor = encode_tree(&encoded)?;
        let canonical_tree = match answers.canonical_tree {
            Ok(tree) => tree,
            Err(text) => {
                return Err(ContextError::Model(text));
            },
        };
        let tree = normalize_tree(&canonical_tree)?;
        if !tree.same(&ordered) {
            return Err(model_error("canonical tree does not round-trip through rustconf"));
        }
        let rules = match answers.rules {
            Ok(rules) => rules,
            Err(text) => {
                return Err(ContextError::Schc(text));
            },
        };
        let policy = ProtectionPolicy { ids: Vec::new() };
        assert(policy.ids@ =~= Seq::<RuleId>::empty());
        let protected = ProtectedRules::derive(&rules, &policy)?;
        let guard_period = guard_period_from_tree(&tree)?;
        Ok(LoadedContext { rules, tree, sor: canonical_sor, protected, guard_period })
    }

    /// Returns the canonical identifier-keyed tree.
    pub fn tree(&self) -> (result: &JsonValue)
        ensures
            result@ == self@.tree,
    {
        &self.tree
    }

    /// Returns canonical complete encoding bytes.
    pub fn sor(&self) -> (result: &[u8])
        ensures
            result@ == self@.sor,
    {
        self.sor.as_slice()
    }

    /// Returns the derived immutable protected rules.
    pub fn protected_rules(&self) -> (result: &ProtectedRules)
        ensures
            result@ == self@.protected,
    {
        &self.protected
    }

    /// Returns the configured guard period when its optional tick count is
    /// present. An omitted tick duration is twenty.
    pub fn guard_period(&self) -> (result: Option<GuardPeriod>)
        ensures
            result == self@.guard_period,
    {
        self.guard_period
    }
}

/// What is taken from a loaded context, or the error of loading it.
pub open spec fn from_loading<T>(
    loaded: Result<LoadedView, ContextFault>,
    part: spec_fn(LoadedView) -> T,
) -> Result<T, ContextFault> {
    match loaded {
        Ok(context) => Ok(part(context)),
        Err(fault) => Err(fault),
    }
}

/// Canonicalizes a complete encoding and returns its identifier-keyed tree and
/// canonical bytes.
pub fn canonicalize_sor(model: &SidModel, sor: &[u8], answers: ModelAnswers) -> (result: Result<
    (JsonValue, Vec<u8>),
    ContextError,
>)
    ensures
        exists|loaded: Result<LoadedView, ContextFault>| #[trigger]
            load_outcome(model@, sor@, answers@, loaded) && from_loading(
                loaded,
                |context: LoadedView| (context.tree, context.sor),
            ) == match result {
                Ok((tree, bytes)) => Ok::<(Json, Seq<u8>), ContextFault>((tree@, bytes@)),
                Err(error) => Err(error@),
            },
{
    let loaded = LoadedContext::from_sor(model, sor, answers);
    assert(load_outcome(model@, sor@, answers@, loaded_view(loaded)));
    match loaded {
        Ok(context) => Ok((context.tree, context.sor)),
        Err(error) => Err(error),
    }
}

/// Converts a strict complete encoding to the canonical identifier tree.
pub fn tree_from_sor(model: &SidModel, sor: &[u8], answers: ModelAnswers) -> (result: Result<
    JsonValue,
    ContextError,
>)
    ensures
        exists|loaded: Result<LoadedView, ContextFault>| #[trigger]
            load_outcome(model@, sor@, answers@, loaded) && from_loading(
                loaded,
                |context: LoadedView| context.tree,
            ) == match result {
                Ok(tree) => Ok::<Json, ContextFault>(tree@),
                Err(error) => Err(error@),
            },
{
    let loaded = LoadedContext::from_sor(model, sor, answers);
    assert(load_outcome(model@, sor@, answers@, loaded_view(loaded)));
    match loaded {
        Ok(context) => Ok(context.tree),
        Err(error) => Err(error),
    }
}

/// Returns the identities of the rules whose nature is management in a
/// complete encoding.
pub fn derive_protected_management_rule_ids(
    model: &SidModel,
    sor: &[u8],
    answers: ModelAnswers,
) -> (result: Result<Vec<RuleId>, ContextError>)
    ensures
        exists|loaded: Result<LoadedView, ContextFault>| #[trigger]
            load_outcome(model@, sor@, answers@, loaded) && from_loading(
                loaded,
                |context: LoadedView| crate::policy::ids_of(context.protected),
            ) == match result {
                Ok(ids) => Ok::<Seq<RuleId>, ContextFault>(ids@),
                Err(error) => Err(error@),
            },
{
    let loaded = LoadedContext::from_sor(model, sor, answers);
    assert(load_outcome(model@, sor@, answers@, loaded_view(loaded)));
    match loaded {
        Ok(context) => Ok(context.protected.ids()),
        Err(error) => Err(error),
    }
}

/// How a tree becomes a canonical encoding: it has to be ordered, encodable,
/// a complete valid context, and what that context holds. What the codec's own
/// errors say is left open.
pub open spec fn canonical_sor_outcome(
    model: ModelView,
    tree: Json,
    encoded: Result<Cbor, Seq<char>>,
    answers: AnswersView,
    outcome: Result<LoadedView, ContextFault>,
) -> bool {
    match normalized(tree, None) {
        Err(fault) => outcome == Err::<LoadedView, ContextFault>(fault),
        Ok(ordered) => if ordered != tree {
            outcome == Err::<LoadedView, ContextFault>(ContextFault::NonCanonicalCandidate)
        } else {
            match encoded {
                Err(text) => outcome == Err::<LoadedView, ContextFault>(
                    ContextFault::Rustconf(text),
                ),
                Ok(value) => {
                    ||| outcome matches Err(fault) && encoding_fault(value, fault)
                    ||| encoded_strictly(value, cbor_bytes(value)->0) && exists|
                        loaded: Result<LoadedView, ContextFault>,
                    | #[trigger]
                        load_outcome(model, cbor_bytes(value)->0, answers, loaded) && outcome
                            == match loaded {
                            Err(fault) => Err::<LoadedView, ContextFault>(fault),
                            Ok(context) => if context.tree != tree {
                                Err(ContextFault::NonCanonicalCandidate)
                            } else {
                                Ok(context)
                            },
                        }
                },
            }
        },
    }
}

/// Loads a context from a tree that is already canonical. `encoded` is the
/// value that encodes the tree.
pub fn load_tree(
    model: &SidModel,
    tree: &JsonValue,
    encoded: Result<CborValue, String>,
    answers: ModelAnswers,
) -> (result: Result<LoadedContext, ContextError>)
    ensures
        canonical_sor_outcome(
            model@,
            tree@,
            cbor_view(encoded),
            answers@,
            loaded_view(result),
        ),
{
    let ordered = normalize_tree(tree)?;
    if !ordered.same(tree) {
        return Err(ContextError::NonCanonicalCandidate);
    }
    let value = match encoded {
        Ok(value) => value,
        Err(text) => {
            return Err(ContextError::Rustconf(text));
        },
    };
    let sor = encode_tree(&value)?;
    let loaded = LoadedContext::from_sor(model, sor.as_slice(), answers);
    assert(load_outcome(model@, cbor_bytes(value@)->0, answers@, loaded_view(loaded)));
    match loaded {
        Err(error) => Err(error),
        Ok(context) => if context.tree.same(tree) {
            Ok(context)
        } else {
            Err(ContextError::NonCanonicalCandidate)
        },
    }
}

/// Converts a tree to its strict complete canonical encoding.
pub fn canonical_sor_from_tree(
    model: &SidModel,
    tree: &JsonValue,
    encoded: Result<CborValue, String>,
    answers: ModelAnswers,
) -> (result: Result<Vec<u8>, ContextError>)
    ensures
        exists|outcome: Result<LoadedView, ContextFault>| #[trigger]
            canonical_sor_outcome(
                model@,
                tree@,
                cbor_view(encoded),
                answers@,
                outcome,
            ) && bytes_view(result) == match outcome {
                Ok(context) => Ok::<Seq<u8>, ContextFault>(context.sor),
                Err(fault) => Err(fault),
            },
{
    let loaded = load_tree(model, tree, encoded, answers);
    let ghost outcome = loaded_view(loaded);
    match loaded {
        Ok(context) => Ok(context.sor),
        Err(error) => Err(error),
    }
}

/// A namespace as a mathematical value.
pub struct NamespaceView {
    /// Reserved prefix of the dynamic subtree.
    pub prefix: RuleIdSpec,
    /// Valid leaf depths.
    pub lengths: Seq<usize>,
}

/// The value of a namespace.
pub open spec fn namespace_of(namespace: DynamicRuleIdNamespace) -> NamespaceView {
    NamespaceView { prefix: namespace.prefix, lengths: namespace.allowed_lengths@ }
}

/// The value of an optional namespace.
pub open spec fn namespace_view(namespace: Option<DynamicRuleIdNamespace>) -> Option<
    NamespaceView,
> {
    match namespace {
        Some(held) => Some(namespace_of(held)),
        None => None,
    }
}

/// The value of an optional profile.
pub open spec fn profile_view(profile: Option<ContextProfile>) -> Option<Option<NamespaceView>> {
    match profile {
        Some(held) => Some(namespace_view(held.dynamic_rule_ids)),
        None => None,
    }
}

/// Construction parameters shared by initial and candidate contexts.
#[derive(Debug)]
pub struct ContextRecipe {
    /// The SID document.
    pub sid_json: String,
    /// The device identity.
    pub device_id: String,
    /// The device profile.
    pub profile: String,
    /// The dynamic identity tree, when configured.
    pub dynamic_rule_ids: Option<DynamicRuleIdNamespace>,
    /// The mechanism-owned profile, when supplied.
    pub context_profile: Option<ContextProfile>,
}

/// Construction parameters as a mathematical value.
pub struct RecipeView {
    /// The SID document.
    pub sid_json: Seq<char>,
    /// The device identity.
    pub device_id: Seq<char>,
    /// The device profile.
    pub profile: Seq<char>,
    /// The dynamic identity tree, when configured.
    pub dynamic_rule_ids: Option<NamespaceView>,
    /// The mechanism-owned profile, when supplied.
    pub context_profile: Option<Option<NamespaceView>>,
}

impl View for ContextRecipe {
    type V = RecipeView;

    open spec fn view(&self) -> RecipeView {
        RecipeView {
            sid_json: self.sid_json@,
            device_id: self.device_id@,
            profile: self.profile@,
            dynamic_rule_ids: namespace_view(self.dynamic_rule_ids),
            context_profile: profile_view(self.context_profile),
        }
    }
}

fn copy_namespace(namespace: &DynamicRuleIdNamespace) -> (result: DynamicRuleIdNamespace)
    ensures
        namespace_of(result) == namespace_of(*namespace),
{
    let mut allowed_lengths: Vec<usize> = Vec::new();
    allowed_lengths.extend_from_slice(namespace.allowed_lengths.as_slice());
    assert(allowed_lengths@ =~= namespace.allowed_lengths@);
    DynamicRuleIdNamespace { prefix: namespace.prefix, allowed_lengths }
}

fn copy_optional_namespace(namespace: &Option<DynamicRuleIdNamespace>) -> (result: Option<
    DynamicRuleIdNamespace,
>)
    ensures
        namespace_view(result) == namespace_view(*namespace),
{
    match namespace {
        Some(held) => Some(copy_namespace(held)),
        None => None,
    }
}

fn copy_profile(profile: &Option<ContextProfile>) -> (result: Option<ContextProfile>)
    ensures
        profile_view(result) == profile_view(*profile),
{
    match profile {
        Some(held) => Some(
            ContextProfile { dynamic_rule_ids: copy_optional_namespace(&held.dynamic_rule_ids) },
        ),
        None => None,
    }
}

fn same_list(left: &Vec<usize>, right: &Vec<usize>) -> (result: bool)
    ensures
        result == (left@ == right@),
{
    if left.len() != right.len() {
        return false;
    }
    let mut index: usize = 0;
    while index < left.len()
        invariant
            index <= left@.len(),
            left@.len() == right@.len(),
            forall|i: int| 0 <= i < index ==> left@[i] == right@[i],
        decreases left.len() - index,
    {
        if left[index] != right[index] {
            assert(left@[index as int] != right@[index as int]);
            return false;
        }
        index += 1;
    }
    assert(left@ =~= right@);
    true
}

fn same_namespace(left: &Option<DynamicRuleIdNamespace>, right: &Option<DynamicRuleIdNamespace>) -> (
result: bool)
    ensures
        result == (namespace_view(*left) == namespace_view(*right)),
{
    match (left, right) {
        (None, None) => true,
        (Some(one), Some(other)) => one.prefix == other.prefix && same_list(
            &one.allowed_lengths,
            &other.allowed_lengths,
        ),
        _ => false,
    }
}

/// Whether two optional namespaces are the same tree, the second one with its
/// lengths in order.
pub open spec fn namespace_normalized(
    given: Option<DynamicRuleIdNamespace>,
    kept: Option<NamespaceView>,
) -> bool {
    match (given, kept) {
        (None, None) => true,
        (Some(namespace), Some(normal)) => {
            &&& normal.prefix == namespace.prefix
            &&& crate::allocation::ascending(normal.lengths)
            &&& crate::allocation::same_lengths(normal.lengths, namespace.allowed_lengths@)
        },
        _ => false,
    }
}

impl ContextRecipe {
    /// Creates the parameters of a context without a profile.
    pub fn new(sid_json: &str, device_id: &str, profile: &str) -> (result: Self)
        ensures
            result@ == (RecipeView {
                sid_json: sid_json@,
                device_id: device_id@,
                profile: profile@,
                dynamic_rule_ids: None,
                context_profile: None,
            }),
    {
        ContextRecipe {
            sid_json: sid_json.to_owned(),
            device_id: device_id.to_owned(),
            profile: profile.to_owned(),
            dynamic_rule_ids: None,
            context_profile: None,
        }
    }

    /// Creates the parameters of a context whose dynamic identities a profile
    /// owns. The profile is kept in its normalized form.
    pub fn with_context_profile(
        sid_json: &str,
        device_id: &str,
        profile: &str,
        context_profile: &ContextProfile,
    ) -> (result: Result<Self, ContextError>)
        ensures
            match result {
                Ok(recipe) => {
                    &&& context_profile.dynamic_rule_ids matches Some(namespace)
                        ==> namespace.well_formed()
                    &&& namespace_normalized(
                        context_profile.dynamic_rule_ids,
                        recipe@.dynamic_rule_ids,
                    )
                    &&& recipe@ == (RecipeView {
                        sid_json: sid_json@,
                        device_id: device_id@,
                        profile: profile@,
                        dynamic_rule_ids: recipe@.dynamic_rule_ids,
                        context_profile: Some(recipe@.dynamic_rule_ids),
                    })
                },
                Err(error) => {
                    &&& context_profile.dynamic_rule_ids matches Some(namespace)
                    &&& !namespace.well_formed()
                    &&& error@ == ContextFault::RuleIdTree(
                        "invalid RuleID tree configuration: "@ + namespace.fault(),
                    )
                },
            },
    {
        let normal = match context_profile.validate() {
            Ok(normal) => normal,
            Err(error) => {
                return Err(ContextError::RuleIdTree(error));
            },
        };
        let dynamic_rule_ids = copy_optional_namespace(&normal.dynamic_rule_ids);
        Ok(
            ContextRecipe {
                sid_json: sid_json.to_owned(),
                device_id: device_id.to_owned(),
                profile: profile.to_owned(),
                dynamic_rule_ids,
                context_profile: Some(normal),
            },
        )
    }

    /// Returns a copy of these parameters.
    pub fn copy(&self) -> (result: Self)
        ensures
            result@ == self@,
    {
        ContextRecipe {
            sid_json: self.sid_json.clone(),
            device_id: self.device_id.clone(),
            profile: self.profile.clone(),
            dynamic_rule_ids: copy_optional_namespace(&self.dynamic_rule_ids),
            context_profile: copy_profile(&self.context_profile),
        }
    }

    /// Returns whether two sets of parameters are equal.
    pub fn same(&self, other: &Self) -> (result: bool)
        ensures
            result == (self@ == other@),
    {
        let profiles = match (&self.context_profile, &other.context_profile) {
            (None, None) => true,
            (Some(one), Some(another)) => same_namespace(
                &one.dynamic_rule_ids,
                &another.dynamic_rule_ids,
            ),
            _ => false,
        };
        same_text(self.sid_json.as_str(), other.sid_json.as_str()) && same_text(
            self.device_id.as_str(),
            other.device_id.as_str(),
        ) && same_text(self.profile.as_str(), other.profile.as_str()) && same_namespace(
            &self.dynamic_rule_ids,
            &other.dynamic_rule_ids,
        ) && profiles
    }
}

/// What one prepared context holds.
#[derive(Debug)]
pub struct ContextData {
    /// Canonical identifier-keyed tree.
    pub tree: JsonValue,
    /// Canonical complete encoding.
    pub sor: Vec<u8>,
    /// Typed rules in canonical order.
    pub rules: Vec<Rule>,
    /// Identities of the rules that application traffic may use.
    pub application_rule_ids: Vec<RuleId>,
    /// Protected rules.
    pub protected: ProtectedRules,
    /// Guard period, when configured.
    pub guard_period: Option<GuardPeriod>,
    /// Digest of tree and encoding.
    pub digest: Vec<u8>,
    /// Compact tag of the digest.
    pub tag: ContextTag,
}

/// What one prepared context holds, as a mathematical value.
pub struct DataView {
    /// Canonical identifier-keyed tree.
    pub tree: Json,
    /// Canonical complete encoding.
    pub sor: Seq<u8>,
    /// Typed rules in canonical order.
    pub rules: Seq<RuleView>,
    /// Identities of the rules that application traffic may use.
    pub application_rule_ids: Seq<RuleId>,
    /// Protected rules.
    pub protected: Seq<(RuleId, RuleView)>,
    /// Guard period, when configured.
    pub guard_period: Option<GuardPeriod>,
    /// Digest of tree and encoding.
    pub digest: Seq<u8>,
    /// Compact tag of the digest.
    pub tag: Seq<u8>,
}

impl View for ContextData {
    type V = DataView;

    open spec fn view(&self) -> DataView {
        DataView {
            tree: self.tree@,
            sor: self.sor@,
            rules: rules_view(self.rules@),
            application_rule_ids: self.application_rule_ids@,
            protected: self.protected@,
            guard_period: self.guard_period,
            digest: self.digest@,
            tag: self.tag@,
        }
    }
}

impl DataView {
    /// Whether digest and tag are those of the tree and the encoding.
    pub open spec fn identified(self) -> bool {
        &&& json_bytes(self.tree) matches Some(bytes)
        &&& self.digest == sha256_of(digest_input(bytes, self.sor))
        &&& self.digest.len() == 32
        &&& self.tag == self.digest.take(8)
    }
}

/// A prepared context bound to one canonical tree, encoding and identity.
#[derive(Debug)]
pub struct PreparedContext {
    /// Construction parameters.
    pub recipe: ContextRecipe,
    /// What the context holds.
    pub data: ContextData,
}

/// The identities of rules.
pub open spec fn rule_ids(rules: Seq<RuleView>) -> Seq<RuleId> {
    rules.map_values(|rule: RuleView| rule.id)
}

/// Whether every identity is short enough to be compared with a namespace.
pub open spec fn ids_bounded(rules: Seq<RuleView>) -> bool {
    forall|i: int| 0 <= i < rules.len() ==> (#[trigger] rules[i]).id.bit_len <= 64
}

/// Whether a rule lies in a namespace without being one of its leaves.
pub open spec fn intrudes(namespace: DynamicRuleIdNamespace, rule: RuleView) -> bool {
    ambiguous(rule.id, namespace.prefix.id()) && !namespace.has_leaf(rule.id)
}

/// The first of some rules that intrudes into a namespace.
pub open spec fn first_intruder(
    namespace: DynamicRuleIdNamespace,
    rules: Seq<RuleView>,
    count: nat,
) -> Option<RuleId>
    decreases count,
{
    if count == 0 || count > rules.len() {
        None
    } else {
        match first_intruder(namespace, rules, (count - 1) as nat) {
            Some(id) => Some(id),
            None => if intrudes(namespace, rules[count - 1]) {
                Some(rules[count - 1].id)
            } else {
                None
            },
        }
    }
}

proof fn lemma_intruder_stays(
    namespace: DynamicRuleIdNamespace,
    rules: Seq<RuleView>,
    count: nat,
    more: nat,
)
    requires
        count <= more <= rules.len(),
        first_intruder(namespace, rules, count) is Some,
    ensures
        first_intruder(namespace, rules, more) == first_intruder(namespace, rules, count),
    decreases more,
{
    if count < more {
        lemma_intruder_stays(namespace, rules, count, (more - 1) as nat);
    }
}

/// The error of a namespace for the rules of a context.
pub open spec fn namespace_fault(
    namespace: Option<DynamicRuleIdNamespace>,
    rules: Seq<RuleView>,
) -> Option<ContextFault> {
    match namespace {
        None => None,
        Some(held) => if !held.well_formed() {
            Some(
                ContextFault::RuleIdTree("invalid RuleID tree configuration: "@ + held.fault()),
            )
        } else {
            match first_intruder(held, rules, rules.len()) {
                Some(id) => Some(
                    ContextFault::RuleIdTree(
                        RuleIdTreeError::Collision {
                            value: id.value,
                            length: id.bit_len,
                        }.described(),
                    ),
                ),
                None => None,
            }
        },
    }
}

fn check_namespace(namespace: &DynamicRuleIdNamespace, rules: &Vec<Rule>) -> (result: Result<
    DynamicRuleIdNamespace,
    ContextError,
>)
    requires
        ids_bounded(rules_view(rules@)),
    ensures
        match result {
            Ok(normal) => {
                &&& namespace_fault(Some(*namespace), rules_view(rules@)) is None
                &&& normal.prefix == namespace.prefix
                &&& crate::allocation::ascending(normal.allowed_lengths@)
                &&& crate::allocation::same_lengths(
                    normal.allowed_lengths@,
                    namespace.allowed_lengths@,
                )
            },
            Err(error) => namespace_fault(Some(*namespace), rules_view(rules@)) == Some(error@),
        },
{
    let normal = match namespace.validate() {
        Ok(normal) => normal,
        Err(error) => {
            return Err(ContextError::RuleIdTree(error));
        },
    };
    let ghost view = rules_view(rules@);
    let prefix = normal.prefix.rule_id();
    let mut index: usize = 0;
    while index < rules.len()
        invariant
            index <= rules@.len(),
            view == rules_view(rules@),
            ids_bounded(view),
            namespace.well_formed(),
            normal.well_formed(),
            normal.prefix == namespace.prefix,
            prefix == namespace.prefix.id(),
            crate::allocation::same_lengths(
                normal.allowed_lengths@,
                namespace.allowed_lengths@,
            ),
            first_intruder(*namespace, view, index as nat) is None,
        decreases rules.len() - index,
    {
        let id = rules[index].id;
        assert(view[index as int].id == id);
        assert(explicit_id(namespace.prefix.value as nat, namespace.prefix.length as nat));
        if overlaps(id, prefix) && !normal.accepts(id) {
            proof {
                assert(intrudes(*namespace, view[index as int]));
                lemma_intruder_stays(*namespace, view, (index + 1) as nat, view.len());
            }
            return Err(
                ContextError::RuleIdTree(
                    RuleIdTreeError::Collision { value: id.value, length: id.bit_len },
                ),
            );
        }
        index += 1;
    }
    Ok(normal)
}

/// What the runtime library answered while a context was prepared.
#[derive(Debug)]
pub struct RuntimeAnswers {
    /// Whether the full runtime could be built.
    pub runtime: Result<(), String>,
    /// The identities of the rules in the encoding for application traffic.
    pub application_rules: Result<Vec<RuleId>, String>,
    /// Whether the application runtime could be built.
    pub application_runtime: Result<(), String>,
}

/// The identities that application traffic may use: all when nothing is
/// protected, otherwise those of the encoding without protected rules.
pub open spec fn application_ids(
    loaded: LoadedView,
    model: ModelView,
    answers: RuntimeAnswers,
    outcome: Result<Seq<RuleId>, ContextFault>,
) -> bool {
    if loaded.protected.len() == 0 {
        outcome == match answers.application_runtime {
            Ok(_) => Ok::<Seq<RuleId>, ContextFault>(rule_ids(loaded.rules)),
            Err(text) => Err(ContextFault::Runtime(text@)),
        }
    } else {
        exists|filtered: Result<Seq<u8>, ContextFault>| #[trigger]
            application_encoding(loaded.sor, model, loaded.protected, filtered) && outcome
                == match filtered {
                Err(fault) => Err::<Seq<RuleId>, ContextFault>(fault),
                Ok(_) => match answers.application_rules {
                    Err(text) => Err(ContextFault::Schc(text@)),
                    Ok(ids) => match answers.application_runtime {
                        Err(text) => Err(ContextFault::Runtime(text@)),
                        Ok(_) => Ok(ids@),
                    },
                },
            }
    }
}

pub(crate) fn rule_id_list(rules: &Vec<Rule>) -> (result: Vec<RuleId>)
    ensures
        result@ == rule_ids(rules_view(rules@)),
{
    let mut result: Vec<RuleId> = Vec::new();
    let mut index: usize = 0;
    while index < rules.len()
        invariant
            index <= rules@.len(),
            result@.len() == index,
            forall|i: int| 0 <= i < index ==> (#[trigger] result@[i]) == rules@[i].id,
        decreases rules.len() - index,
    {
        result.push(rules[index].id);
        index += 1;
    }
    assert(result@ =~= rule_ids(rules_view(rules@)));
    result
}

/// The identities of a result.
pub open spec fn ids_view(result: Result<Vec<RuleId>, ContextError>) -> Result<
    Seq<RuleId>,
    ContextFault,
> {
    match result {
        Ok(ids) => Ok(ids@),
        Err(error) => Err(error@),
    }
}

/// Returns the identities that application traffic may use.
fn application_rule_ids(
    loaded: &LoadedContext,
    model: &SidModel,
    application_rules: Result<Vec<RuleId>, String>,
    application_runtime: Result<(), String>,
    Ghost(answers): Ghost<RuntimeAnswers>,
) -> (result: Result<Vec<RuleId>, ContextError>)
    requires
        answers.application_rules == application_rules,
        answers.application_runtime == application_runtime,
    ensures
        application_ids(loaded@, model@, answers, ids_view(result)),
{
    if loaded.protected.rules.len() == 0 {
        return match application_runtime {
            Ok(_) => Ok(rule_id_list(&loaded.rules)),
            Err(text) => Err(ContextError::Runtime(text)),
        };
    }
    assert(loaded@.protected.len() != 0);
    let filtered = application_sor(loaded.sor.as_slice(), model, &loaded.protected);
    assert(application_encoding(loaded@.sor, model@, loaded@.protected, bytes_view(filtered)));
    match filtered {
        Err(error) => Err(error),
        Ok(_) => match application_rules {
            Err(text) => Err(ContextError::Schc(text)),
            Ok(ids) => match application_runtime {
                Err(text) => Err(ContextError::Runtime(text)),
                Ok(_) => Ok(ids),
            },
        },
    }
}

/// A prepared context as a mathematical value.
pub struct PreparedView {
    /// Construction parameters.
    pub recipe: RecipeView,
    /// What the context holds.
    pub data: DataView,
}

impl View for PreparedContext {
    type V = PreparedView;

    open spec fn view(&self) -> PreparedView {
        PreparedView { recipe: self.recipe@, data: self.data@ }
    }
}

/// Whether a prepared context holds what was loaded.
pub open spec fn holds_loaded(data: DataView, loaded: LoadedView) -> bool {
    &&& data.tree == loaded.tree
    &&& data.sor == loaded.sor
    &&& data.rules == loaded.rules
    &&& data.protected == loaded.protected
    &&& data.guard_period == loaded.guard_period
    &&& data.identified()
}

impl PreparedContext {
    /// Binds a loaded context to its construction parameters and identity,
    /// given what the runtime library answered.
    pub fn from_loaded(
        recipe: ContextRecipe,
        loaded: LoadedContext,
        model: &SidModel,
        answers: RuntimeAnswers,
    ) -> (result: Result<Self, ContextError>)
        requires
            ids_bounded(loaded@.rules),
        ensures
            match result {
                Ok(prepared) => {
                    &&& namespace_fault(recipe.dynamic_rule_ids, loaded@.rules) is None
                    &&& answers.runtime is Ok
                    &&& application_ids(
                        loaded@,
                        model@,
                        answers,
                        Ok(prepared@.data.application_rule_ids),
                    )
                    &&& holds_loaded(prepared@.data, loaded@)
                    &&& namespace_normalized(
                        recipe.dynamic_rule_ids,
                        prepared@.recipe.dynamic_rule_ids,
                    )
                    &&& prepared@.recipe == (RecipeView {
                        dynamic_rule_ids: prepared@.recipe.dynamic_rule_ids,
                        ..recipe@
                    })
                },
                Err(error) => {
                    if namespace_fault(recipe.dynamic_rule_ids, loaded@.rules) is Some {
                        namespace_fault(recipe.dynamic_rule_ids, loaded@.rules) == Some(error@)
                    } else {
                        match answers.runtime {
                            Err(text) => error@ == ContextFault::Runtime(text@),
                            Ok(_) => {
                                ||| application_ids(loaded@, model@, answers, Err(error@))
                                ||| json_bytes(loaded@.tree) is None && error@ is Model
                            },
                        }
                    }
                },
            },
    {
        let dynamic_rule_ids = match &recipe.dynamic_rule_ids {
            None => None,
            Some(namespace) => {
                match check_namespace(namespace, &loaded.rules) {
                    Ok(normal) => Some(normal),
                    Err(error) => {
                        return Err(error);
                    },
                }
            },
        };
        if let Err(text) = answers.runtime {
            return Err(ContextError::Runtime(text));
        }
        let ghost given = answers;
        let application_rule_ids = application_rule_ids(
            &loaded,
            model,
            answers.application_rules,
            answers.application_runtime,
            Ghost(given),
        )?;
        let digest = digest_context(&loaded.tree, loaded.sor.as_slice())?;
        let tag = context_tag(digest.as_slice());
        let data = ContextData {
            tree: loaded.tree,
            sor: loaded.sor,
            rules: loaded.rules,
            application_rule_ids,
            protected: loaded.protected,
            guard_period: loaded.guard_period,
            digest,
            tag,
        };
        Ok(
            PreparedContext {
                recipe: ContextRecipe {
                    sid_json: recipe.sid_json,
                    device_id: recipe.device_id,
                    profile: recipe.profile,
                    dynamic_rule_ids,
                    context_profile: recipe.context_profile,
                },
                data,
            },
        )
    }

    /// Returns the canonical tree.
    pub fn tree(&self) -> (result: &JsonValue)
        ensures
            result@ == self@.data.tree,
    {
        &self.data.tree
    }

    /// Returns canonical complete encoding bytes.
    pub fn sor(&self) -> (result: &[u8])
        ensures
            result@ == self@.data.sor,
    {
        self.data.sor.as_slice()
    }

    /// Returns the compact eight-byte context tag.
    pub fn tag(&self) -> (result: ContextTag)
        ensures
            result@ == self@.data.tag,
    {
        self.data.tag
    }

    /// Returns protected rules captured by this preparation.
    pub fn protected_rules(&self) -> (result: &ProtectedRules)
        ensures
            result@ == self@.data.protected,
    {
        &self.data.protected
    }

    /// Returns the configured guard period when its optional tick count is
    /// present. An omitted tick duration is twenty.
    pub fn guard_period(&self) -> (result: Option<GuardPeriod>)
        ensures
            result == self@.data.guard_period,
    {
        self.data.guard_period
    }

    /// Returns protected identities captured by this preparation.
    pub fn protected_rule_ids(&self) -> (result: Vec<RuleId>)
        ensures
            result@ == ids_of(self@.data.protected),
    {
        self.data.protected.ids()
    }

    /// Returns the explicit dynamic namespace, when configured.
    pub fn dynamic_rule_ids(&self) -> (result: Option<&DynamicRuleIdNamespace>)
        ensures
            match result {
                Some(namespace) => self@.recipe.dynamic_rule_ids == Some(namespace_of(*namespace)),
                None => self@.recipe.dynamic_rule_ids is None,
            },
    {
        self.recipe.dynamic_rule_ids.as_ref()
    }

    /// Returns the mechanism-owned context profile, when one was supplied.
    pub fn context_profile(&self) -> (result: Option<&ContextProfile>)
        ensures
            match result {
                Some(profile) => self@.recipe.context_profile == Some(
                    namespace_view(profile.dynamic_rule_ids),
                ),
                None => self@.recipe.context_profile is None,
            },
    {
        self.recipe.context_profile.as_ref()
    }
}

/// The immutable context published by [`ActiveContext`].
#[derive(Debug)]
pub struct ContextSnapshot {
    /// What the context holds.
    pub data: ContextData,
    /// Monotonic publication generation.
    pub generation: u64,
    /// The dynamic identity tree, when configured.
    pub dynamic_rule_ids: Option<DynamicRuleIdNamespace>,
    /// The mechanism-owned profile, when supplied.
    pub context_profile: Option<ContextProfile>,
}

/// A published context as a mathematical value.
pub struct SnapshotView {
    /// What the context holds.
    pub data: DataView,
    /// Monotonic publication generation.
    pub generation: u64,
    /// The dynamic identity tree, when configured.
    pub dynamic_rule_ids: Option<NamespaceView>,
    /// The mechanism-owned profile, when supplied.
    pub context_profile: Option<Option<NamespaceView>>,
}

impl View for ContextSnapshot {
    type V = SnapshotView;

    open spec fn view(&self) -> SnapshotView {
        SnapshotView {
            data: self.data@,
            generation: self.generation,
            dynamic_rule_ids: namespace_view(self.dynamic_rule_ids),
            context_profile: profile_view(self.context_profile),
        }
    }
}

/// What is published for a prepared context.
pub open spec fn published(prepared: PreparedView, generation: u64) -> SnapshotView {
    SnapshotView {
        data: prepared.data,
        generation,
        dynamic_rule_ids: prepared.recipe.dynamic_rule_ids,
        context_profile: prepared.recipe.context_profile,
    }
}

/// Whether an identity is one of a list.
pub open spec fn holds_id(ids: Seq<RuleId>, id: RuleId) -> bool {
    exists|i: int| 0 <= i < ids.len() && ids[i] == id
}

fn contains_id(ids: &Vec<RuleId>, id: RuleId) -> (result: bool)
    ensures
        result == holds_id(ids@, id),
{
    let mut index: usize = 0;
    while index < ids.len()
        invariant
            index <= ids@.len(),
            forall|i: int| 0 <= i < index ==> ids@[i] != id,
        decreases ids.len() - index,
    {
        if ids[index] == id {
            return true;
        }
        index += 1;
    }
    false
}

impl ContextSnapshot {
    /// Publishes a prepared context under a generation.
    pub fn from_prepared(prepared: PreparedContext, generation: u64) -> (result: Self)
        ensures
            result@ == published(prepared@, generation),
    {
        ContextSnapshot {
            data: prepared.data,
            generation,
            dynamic_rule_ids: prepared.recipe.dynamic_rule_ids,
            context_profile: prepared.recipe.context_profile,
        }
    }

    /// Returns the canonical tree.
    pub fn tree(&self) -> (result: &JsonValue)
        ensures
            result@ == self@.data.tree,
    {
        &self.data.tree
    }

    /// Returns canonical complete encoding bytes.
    pub fn sor(&self) -> (result: &[u8])
        ensures
            result@ == self@.data.sor,
    {
        self.data.sor.as_slice()
    }

    /// Returns whether application traffic may use the exact identity.
    pub fn contains_application_rule_id(&self, id: RuleId) -> (result: bool)
        ensures
            result == holds_id(self@.data.application_rule_ids, id),
    {
        contains_id(&self.data.application_rule_ids, id)
    }

    /// Returns the monotonic publication generation.
    pub fn generation(&self) -> (result: u64)
        ensures
            result == self@.generation,
    {
        self.generation
    }

    /// Returns the compact eight-byte context tag.
    pub fn tag(&self) -> (result: ContextTag)
        ensures
            result@ == self@.data.tag,
    {
        self.data.tag
    }

    /// Returns all rules in deterministic canonical order.
    pub fn rules(&self) -> (result: &Vec<Rule>)
        ensures
            rules_view(result@) == self@.data.rules,
    {
        &self.data.rules
    }

    /// Returns protected rules in this snapshot.
    pub fn protected_rules(&self) -> (result: &ProtectedRules)
        ensures
            result@ == self@.data.protected,
    {
        &self.data.protected
    }

    /// Returns the configured guard period when its optional tick count is
    /// present. An omitted tick duration is twenty.
    pub fn guard_period(&self) -> (result: Option<GuardPeriod>)
        ensures
            result == self@.data.guard_period,
    {
        self.data.guard_period
    }

    /// Returns whether this snapshot contains the exact identity.
    pub fn contains_rule_id(&self, id: RuleId) -> (result: bool)
        ensures
            result == holds_id(rule_ids(self@.data.rules), id),
    {
        contains_id(&rule_id_list(&self.data.rules), id)
    }

    /// Returns the explicit dynamic namespace, when configured.
    pub fn dynamic_rule_ids(&self) -> (result: Option<&DynamicRuleIdNamespace>)
        ensures
            match result {
                Some(namespace) => self@.dynamic_rule_ids == Some(namespace_of(*namespace)),
                None => self@.dynamic_rule_ids is None,
            },
    {
        self.dynamic_rule_ids.as_ref()
    }

    /// Returns the mechanism-owned context profile, when one was supplied.
    pub fn context_profile(&self) -> (result: Option<&ContextProfile>)
        ensures
            match result {
                Some(profile) => self@.context_profile == Some(
                    namespace_view(profile.dynamic_rule_ids),
                ),
                None => self@.context_profile is None,
            },
    {
        self.context_profile.as_ref()
    }
}

/// The active context: one published snapshot and the parameters that every
/// candidate has to share.
#[derive(Debug)]
pub struct ActiveContext {
    /// The published context.
    pub snapshot: ContextSnapshot,
    /// Immutable construction parameters.
    pub recipe: ContextRecipe,
}

/// The error of a candidate for the active context. `canonical` is the
/// canonical encoding of the candidate's tree.
pub open spec fn candidate_fault(
    recipe: RecipeView,
    current: SnapshotView,
    prepared: PreparedView,
    canonical: Result<Seq<u8>, ContextFault>,
) -> Option<ContextFault> {
    if prepared.recipe != recipe {
        Some(ContextFault::CandidateRecipeMismatch)
    } else {
        match canonical {
            Err(fault) => Some(fault),
            Ok(sor) => if sor != prepared.data.sor {
                Some(ContextFault::NonCanonicalCandidate)
            } else {
                enforcement_fault(current.data.protected, prepared.data.protected)
            },
        }
    }
}

impl ActiveContext {
    /// Creates an active context with generation one.
    pub fn new(prepared: PreparedContext) -> (result: Self)
        ensures
            result.snapshot@ == published(prepared@, 1),
            result.recipe@ == prepared@.recipe,
    {
        let recipe = prepared.recipe.copy();
        ActiveContext { snapshot: ContextSnapshot::from_prepared(prepared, 1), recipe }
    }

    /// Returns the published context.
    pub fn snapshot(&self) -> (result: &ContextSnapshot)
        ensures
            result@ == self.snapshot@,
    {
        &self.snapshot
    }

    /// Returns the current generation.
    pub fn generation(&self) -> (result: u64)
        ensures
            result == self.snapshot@.generation,
    {
        self.snapshot.generation
    }

    /// Returns the current compact eight-byte context tag.
    pub fn tag(&self) -> (result: ContextTag)
        ensures
            result@ == self.snapshot@.data.tag,
    {
        self.snapshot.data.tag
    }

    /// Returns the current guard period when its optional tick count is
    /// present. An omitted tick duration is twenty.
    pub fn guard_period(&self) -> (result: Option<GuardPeriod>)
        ensures
            result == self.snapshot@.data.guard_period,
    {
        self.snapshot.data.guard_period
    }

    /// Returns the current canonical tree as a detached value.
    pub fn tree(&self) -> (result: JsonValue)
        ensures
            result@ == self.snapshot@.data.tree,
    {
        self.snapshot.data.tree.copy()
    }

    /// Returns current canonical complete encoding bytes as a detached value.
    pub fn sor(&self) -> (result: Vec<u8>)
        ensures
            result@ == self.snapshot@.data.sor,
    {
        copy_bytes(self.snapshot.data.sor.as_slice())
    }

    /// Publishes a prepared context under the next generation. Callers have
    /// validated it as a candidate for this context.
    pub(crate) fn publish(&mut self, prepared: PreparedContext)
        requires
            old(self).snapshot@.generation < u64::MAX,
        ensures
            final(self).snapshot@ == published(
                prepared@,
                (old(self).snapshot@.generation + 1) as u64,
            ),
            final(self).recipe@ == old(self).recipe@,
    {
        let generation: u64 = self.snapshot.generation + 1;
        self.snapshot = ContextSnapshot::from_prepared(prepared, generation);
    }

    /// Checks that a candidate shares the parameters of this context, is
    /// canonical, and keeps every protected rule.
    pub fn validate_candidate(
        &self,
        prepared: &PreparedContext,
        canonical: Result<Vec<u8>, ContextError>,
    ) -> (result: Result<(), ContextError>)
        ensures
            match result {
                Ok(_) => candidate_fault(
                    self.recipe@,
                    self.snapshot@,
                    prepared@,
                    bytes_view(canonical),
                ) is None,
                Err(error) => candidate_fault(
                    self.recipe@,
                    self.snapshot@,
                    prepared@,
                    bytes_view(canonical),
                ) == Some(error@),
            },
    {
        if !prepared.recipe.same(&self.recipe) {
            return Err(ContextError::CandidateRecipeMismatch);
        }
        match canonical {
            Err(error) => Err(error),
            Ok(sor) => if same_bytes(sor.as_slice(), prepared.data.sor.as_slice()) {
                self.snapshot.data.protected.enforce(&prepared.data.protected)
            } else {
                Err(ContextError::NonCanonicalCandidate)
            },
        }
    }
}

/// A tree backend over the active context: it remembers the digest that it
/// last read and refuses a replacement of anything else.
#[derive(Debug)]
pub struct ActiveContextBackend {
    /// Digest of the last read.
    pub observed: Vec<u8>,
}

/// What becomes of a replacement: the error text, or nothing.
pub open spec fn replacement_fault(
    observed: Seq<u8>,
    recipe: RecipeView,
    current: SnapshotView,
    prepared: Result<PreparedView, ContextFault>,
    canonical: Result<Seq<u8>, ContextFault>,
) -> Option<Seq<char>> {
    if observed != current.data.digest {
        Some("active context changed while candidate was being built"@)
    } else {
        match prepared {
            Err(fault) => Some(
                "schc-coreconf backend rejected candidate: "@ + fault.described(),
            ),
            Ok(candidate) => match candidate_fault(recipe, current, candidate, canonical) {
                Some(fault) => Some(
                    "schc-coreconf backend rejected candidate: "@ + fault.described(),
                ),
                None => None,
            },
        }
    }
}

/// The context or error of a preparation.
pub open spec fn prepared_view(result: Result<PreparedContext, ContextError>) -> Result<
    PreparedView,
    ContextFault,
> {
    match result {
        Ok(prepared) => Ok(prepared@),
        Err(error) => Err(error@),
    }
}

impl ActiveContextBackend {
    /// Creates a backend that has observed the current context.
    pub fn new(active: &ActiveContext) -> (result: Self)
        ensures
            result.observed@ == active.snapshot@.data.digest,
    {
        ActiveContextBackend { observed: copy_bytes(active.snapshot.data.digest.as_slice()) }
    }

    /// Returns the active tree and remembers its digest.
    pub fn read_tree(&mut self, active: &ActiveContext) -> (result: JsonValue)
        ensures
            result@ == active.snapshot@.data.tree,
            final(self).observed@ == active.snapshot@.data.digest,
    {
        self.observed = copy_bytes(active.snapshot.data.digest.as_slice());
        active.snapshot.data.tree.copy()
    }

    /// Publishes a candidate unless the active context changed since the last
    /// read or the candidate is refused; a refusal changes nothing.
    pub fn replace_tree(
        &mut self,
        active: &mut ActiveContext,
        prepared: Result<PreparedContext, ContextError>,
        canonical: Result<Vec<u8>, ContextError>,
    ) -> (result: Result<(), String>)
        requires
            old(active).snapshot@.generation < u64::MAX,
        ensures
            ({
                let fault = replacement_fault(
                    old(self).observed@,
                    old(active).recipe@,
                    old(active).snapshot@,
                    prepared_view(prepared),
                    bytes_view(canonical),
                );
                match result {
                    Ok(_) => {
                        &&& fault is None
                        &&& prepared matches Ok(candidate)
                        &&& final(active).snapshot@ == published(
                            candidate@,
                            (old(active).snapshot@.generation + 1) as u64,
                        )
                        &&& final(active).recipe@ == old(active).recipe@
                        &&& final(self).observed@ == candidate@.data.digest
                    },
                    Err(text) => {
                        &&& fault == Some(text@)
                        &&& final(active).snapshot@ == old(active).snapshot@
                        &&& final(active).recipe@ == old(active).recipe@
                        &&& final(self).observed@ == old(self).observed@
                    },
                }
            }),
    {
        if !same_bytes(self.observed.as_slice(), active.snapshot.data.digest.as_slice()) {
            return Err("active context changed while candidate was being built".to_owned());
        }
        let candidate = match prepared {
            Ok(candidate) => candidate,
            Err(error) => {
                return Err(
                    join("schc-coreconf backend rejected candidate: ", error.message().as_str()),
                );
            },
        };
        if let Err(error) = active.validate_candidate(&candidate, canonical) {
            return Err(
                join("schc-coreconf backend rejected candidate: ", error.message().as_str()),
            );
        }
        self.observed = copy_bytes(candidate.data.digest.as_slice());
        active.publish(candidate);
        Ok(())
    }
}

/// A backend that read before another publication cannot overwrite it, when
/// the two contexts have different digests.
pub proof fn stale_backend_cannot_publish(
    observed: SnapshotView,
    current: SnapshotView,
    recipe: RecipeView,
    prepared: Result<PreparedView, ContextFault>,
    canonical: Result<Seq<u8>, ContextFault>,
)
    requires
        observed.data.digest != current.data.digest,
    ensures
        replacement_fault(observed.data.digest, recipe, current, prepared, canonical) == Some(
            "active context changed while candidate was being built"@,
        ),
{
}

/// An accepted candidate has the protected rules of the active context, each
/// with the same definition.
pub proof fn accepted_candidate_keeps_protected_rules(
    recipe: RecipeView,
    current: SnapshotView,
    prepared: PreparedView,
    canonical: Result<Seq<u8>, ContextFault>,
)
    requires
        crate::policy::increasing(ids_of(current.data.protected)),
        crate::policy::increasing(ids_of(prepared.data.protected)),
        candidate_fault(recipe, current, prepared, canonical) is None,
    ensures
        prepared.data.protected == current.data.protected,
        prepared.recipe == recipe,
        canonical == Ok::<Seq<u8>, ContextFault>(prepared.data.sor),
{
    crate::policy::enforcement_admits_only_the_same_rules(
        current.data.protected,
        prepared.data.protected,
    );
}

/// The guard period of a context: there is one exactly when the context gives
/// a number of ticks; its tick lasts as long as given, and twenty where the
/// duration is left out.
pub proof fn guard_period_is_that_of_the_context(tree: Json)
    requires
        guard_period_of(tree) is Ok,
    ensures
        ({
            let context = if member(tree, "ietf-schc:context"@) is Some {
                member(tree, "ietf-schc:context"@)
            } else {
                member(tree, "context"@)
            };
            let period = member(context->0, "guard-period"@);
            match guard_period_of(tree)->Ok_0 {
                None => context is None || period is None || member(
                    period->0,
                    "ticks-numbers"@,
                ) is None,
                Some(guard) => {
                    &&& context is Some
                    &&& period is Some
                    &&& member(period->0, "ticks-numbers"@) is Some
                    &&& unsigned(member(period->0, "ticks-numbers"@)->0) == Some(
                        guard.ticks_numbers as u64,
                    )
                    &&& member(period->0, "ticks-duration"@) is None ==> guard.ticks_duration == 20
                    &&& member(period->0, "ticks-duration"@) is Some ==> unsigned(
                        member(period->0, "ticks-duration"@)->0,
                    ) == Some(guard.ticks_duration as u64)
                },
            }
        }),
{
}

/// A context assembled from canonical parts consists of those parts; the rules
/// that it protects are those whose nature is management.
pub proof fn assembled_context_consists_of_its_parts(
    rules: Seq<RuleView>,
    tree: Json,
    sor: Seq<u8>,
)
    requires
        assembled(rules, tree, sor) is Ok,
    ensures
        assembled(rules, tree, sor)->Ok_0.rules == rules,
        assembled(rules, tree, sor)->Ok_0.tree == tree,
        assembled(rules, tree, sor)->Ok_0.sor == sor,
        guard_period_of(tree) == Ok::<Option<GuardPeriod>, ContextFault>(
            assembled(rules, tree, sor)->Ok_0.guard_period,
        ),
        derived(rules, Seq::empty()) == Ok::<Seq<(RuleId, RuleView)>, ContextFault>(
            assembled(rules, tree, sor)->Ok_0.protected,
        ),
{
}

/// A canonical context holds the ordered tree that was encoded, and the
/// encoding and rules that belong to it.
pub proof fn canonical_context_round_trips(ordered: Json, sor: Seq<u8>, answers: AnswersView)
    requires
        canonical_outcome(ordered, sor, answers) is Ok,
    ensures
        answers.canonical_tree is Ok,
        normalized(answers.canonical_tree->Ok_0, None) == Ok::<Json, ContextFault>(ordered),
        canonical_outcome(ordered, sor, answers)->Ok_0.tree == ordered,
        canonical_outcome(ordered, sor, answers)->Ok_0.sor == sor,
        answers.rules == Ok::<Seq<RuleView>, Seq<char>>(
            canonical_outcome(ordered, sor, answers)->Ok_0.rules,
        ),
{
}

/// A loaded context is the ordered form of the tree that its input encodes,
/// with its canonical encoding.
pub proof fn loaded_context_is_the_ordered_input(
    model: ModelView,
    sor: Seq<u8>,
    answers: AnswersView,
    outcome: Result<LoadedView, ContextFault>,
)
    requires
        load_outcome(model, sor, answers, outcome),
        outcome is Ok,
    ensures
        cbor_item(sor) is Some,
        (cbor_item(sor)->0).1 == sor.len(),
        keys_unique((cbor_item(sor)->0).0),
        sid_of(model, "/ietf-schc:schc"@) is Some,
        root_fault((cbor_item(sor)->0).0, sid_of(model, "/ietf-schc:schc"@)->0) is None,
        answers.initial_tree is Ok,
        normalized(answers.initial_tree->Ok_0, None) == Ok::<Json, ContextFault>(
            outcome->Ok_0.tree,
        ),
        answers.encoded is Ok,
        cbor_bytes(answers.encoded->Ok_0)->0 == outcome->Ok_0.sor,
        encoded_strictly(answers.encoded->Ok_0, outcome->Ok_0.sor),
        answers.rules == Ok::<Seq<RuleView>, Seq<char>>(outcome->Ok_0.rules),
{
    canonical_context_round_trips(
        normalized(answers.initial_tree->Ok_0, None)->Ok_0,
        cbor_bytes(answers.encoded->Ok_0)->0,
        answers,
    );
}

/// An encoded tree is ordered already, and the context that its encoding loads
/// as holds that tree.
pub proof fn canonical_encoding_is_that_of_the_tree(
    model: ModelView,
    tree: Json,
    encoded: Result<Cbor, Seq<char>>,
    answers: AnswersView,
    outcome: Result<LoadedView, ContextFault>,
)
    requires
        canonical_sor_outcome(model, tree, encoded, answers, outcome),
        outcome is Ok,
    ensures
        normalized(tree, None) == Ok::<Json, ContextFault>(tree),
        encoded is Ok,
        outcome->Ok_0.tree == tree,
        load_outcome(model, cbor_bytes(encoded->Ok_0)->0, answers, outcome),
{
}

/// The digest of an identified context is that of its tree and its encoding,
/// and its tag is the first eight bytes of the digest.
pub proof fn tag_is_the_start_of_the_digest(data: DataView)
    requires
        data.identified(),
    ensures
        json_bytes(data.tree) is Some,
        data.digest == sha256_of(digest_input(json_bytes(data.tree)->0, data.sor)),
        data.tag.len() == 8,
        forall|i: int| 0 <= i < 8 ==> #[trigger] data.tag[i] == data.digest[i],
{
}

/// A prepared context holds the parts of the loaded one, and what is published
/// for it is the same data, under the given generation and with the
/// namespace and the profile of its recipe.
pub proof fn published_context_is_the_prepared_one(
    prepared: PreparedView,
    loaded: LoadedView,
    generation: u64,
)
    requires
        holds_loaded(prepared.data, loaded),
    ensures
        published(prepared, generation).data.tree == loaded.tree,
        published(prepared, generation).data.sor == loaded.sor,
        published(prepared, generation).data.rules == loaded.rules,
        published(prepared, generation).data.protected == loaded.protected,
        published(prepared, generation).data.guard_period == loaded.guard_period,
        published(prepared, generation).data.application_rule_ids
            == prepared.data.application_rule_ids,
        published(prepared, generation).data.digest == prepared.data.digest,
        published(prepared, generation).data.tag == prepared.data.tag,
        published(prepared, generation).generation == generation,
        published(prepared, generation).dynamic_rule_ids == prepared.recipe.dynamic_rule_ids,
        published(prepared, generation).context_profile == prepared.recipe.context_profile,
{
}

/// A normalized namespace keeps its prefix and its lengths, and lists the
/// lengths in ascending order.
pub proof fn normalized_namespace_lists_its_lengths(
    given: Option<DynamicRuleIdNamespace>,
    kept: Option<NamespaceView>,
)
    requires
        namespace_normalized(given, kept),
    ensures
        given is Some <==> kept is Some,
        given is Some ==> kept->0.prefix == given->0.prefix,
        given is Some ==> forall|i: int, j: int|
            0 <= i < j < kept->0.lengths.len() ==> kept->0.lengths[i] < kept->0.lengths[j],
        given is Some ==> forall|length: usize|
            kept->0.lengths.contains(length) == given->0.allowed_lengths@.contains(length),
{
}

proof fn lemma_first_intruder(
    namespace: DynamicRuleIdNamespace,
    rules: Seq<RuleView>,
    count: nat,
)
    requires
        count <= rules.len(),
    ensures
        first_intruder(namespace, rules, count) is None <==> forall|i: int|
            0 <= i < count ==> !intrudes(namespace, #[trigger] rules[i]),
        first_intruder(namespace, rules, count) matches Some(id) ==> exists|at: int|
            0 <= at < count && intrudes(namespace, #[trigger] rules[at]) && rules[at].id == id
                && forall|i: int| 0 <= i < at ==> !intrudes(namespace, #[trigger] rules[i]),
    decreases count,
{
    if count > 0 {
        lemma_first_intruder(namespace, rules, (count - 1) as nat);
        if first_intruder(namespace, rules, (count - 1) as nat) is Some {
            let at = choose|at: int|
                0 <= at < count - 1 && intrudes(namespace, #[trigger] rules[at]) && rules[at].id
                    == first_intruder(namespace, rules, (count - 1) as nat)->0 && forall|i: int|
                    0 <= i < at ==> !intrudes(namespace, #[trigger] rules[i]);
            assert(intrudes(namespace, rules[at]));
        } else if intrudes(namespace, rules[count - 1]) {
            assert(rules[count - 1].id == first_intruder(namespace, rules, count)->0);
        }
    }
}

/// A namespace is accepted beside the rules of a context exactly when its tree
/// is well formed and every rule that overlaps its prefix is one of its
/// leaves: as long as an allowed length and starting with the prefix.
pub proof fn accepted_namespace_holds_only_its_leaves(
    namespace: DynamicRuleIdNamespace,
    rules: Seq<RuleView>,
)
    ensures
        namespace_fault(Some(namespace), rules) is None <==> (namespace.well_formed() && forall|
            i: int,
        |
            0 <= i < rules.len() && ambiguous((#[trigger] rules[i]).id, namespace.prefix.id())
                ==> namespace.allowed_lengths@.contains(rules[i].id.bit_len)
                && crate::rule_id::starts_with(namespace.prefix.id(), rules[i].id)),
{
    lemma_first_intruder(namespace, rules, rules.len());
    if first_intruder(namespace, rules, rules.len()) is None {
        assert forall|i: int|
            0 <= i < rules.len() && ambiguous(
                (#[trigger] rules[i]).id,
                namespace.prefix.id(),
            ) implies namespace.allowed_lengths@.contains(rules[i].id.bit_len)
            && crate::rule_id::starts_with(namespace.prefix.id(), rules[i].id) by {
            assert(!intrudes(namespace, rules[i]));
        }
    } else {
        let at = choose|at: int|
            0 <= at < rules.len() && intrudes(namespace, #[trigger] rules[at]) && rules[at].id
                == first_intruder(namespace, rules, rules.len())->0 && forall|i: int|
                0 <= i < at ==> !intrudes(namespace, #[trigger] rules[i]);
        assert(intrudes(namespace, rules[at]));
    }
}

/// Without protected rules, application traffic may use every rule of the
/// context; with protected ones, the rules of the encoding without them.
pub proof fn application_ids_leave_out_what_is_protected(
    loaded: LoadedView,
    model: ModelView,
    answers: RuntimeAnswers,
    outcome: Result<Seq<RuleId>, ContextFault>,
)
    requires
        application_ids(loaded, model, answers, outcome),
        outcome is Ok,
    ensures
        answers.application_runtime is Ok,
        loaded.protected.len() == 0 ==> outcome->Ok_0.len() == loaded.rules.len() && forall|i: int|
            0 <= i < loaded.rules.len() ==> outcome->Ok_0[i] == (#[trigger] loaded.rules[i]).id,
        loaded.protected.len() > 0 ==> answers.application_rules is Ok && outcome->Ok_0
            == answers.application_rules->Ok_0@ && exists|filtered: Seq<u8>| #[trigger]
            application_encoding(loaded.sor, model, loaded.protected, Ok(filtered)),
{
    if loaded.protected.len() > 0 {
        let filtered = choose|filtered: Result<Seq<u8>, ContextFault>| #[trigger]
            application_encoding(loaded.sor, model, loaded.protected, filtered) && outcome
                == match filtered {
                Err(fault) => Err::<Seq<RuleId>, ContextFault>(fault),
                Ok(_) => match answers.application_rules {
                    Err(text) => Err(ContextFault::Schc(text@)),
                    Ok(ids) => match answers.application_runtime {
                        Err(text) => Err(ContextFault::Runtime(text@)),
                        Ok(_) => Ok(ids@),
                    },
                },
            };
        let bytes = filtered->Ok_0;
        assert(application_encoding(loaded.sor, model, loaded.protected, Ok(bytes)));
    }
}

/// A candidate is accepted exactly when it was built by the recipe of the
/// active context, is its own canonical encoding, and leaves the protected
/// rules as they are.
pub proof fn candidate_is_accepted_when_it_fits(
    recipe: RecipeView,
    current: SnapshotView,
    prepared: PreparedView,
    canonical: Result<Seq<u8>, ContextFault>,
)
    ensures
        candidate_fault(recipe, current, prepared, canonical) is None <==> (prepared.recipe
            == recipe && canonical == Ok::<Seq<u8>, ContextFault>(prepared.data.sor)
            && enforcement_fault(current.data.protected, prepared.data.protected) is None),
{
}

/// A replacement is made exactly when the active context is the observed one
/// and the candidate was prepared and fits.
pub proof fn replacement_needs_the_observed_context(
    observed: Seq<u8>,
    recipe: RecipeView,
    current: SnapshotView,
    prepared: Result<PreparedView, ContextFault>,
    canonical: Result<Seq<u8>, ContextFault>,
)
    ensures
        replacement_fault(observed, recipe, current, prepared, canonical) is None <==> (observed
            == current.data.digest && prepared is Ok && candidate_fault(
            recipe,
            current,
            prepared->Ok_0,
            canonical,
        ) is None),
{
}

/// What is taken from a loaded context is its part, and a context that was not
/// loaded gives its error.
pub proof fn part_is_taken_from_the_loaded_context<T>(
    loaded: Result<LoadedView, ContextFault>,
    part: spec_fn(LoadedView) -> T,
)
    ensures
        loaded matches Ok(context) ==> from_loading(loaded, part) == Ok::<T, ContextFault>(
            part(context),
        ),
        loaded matches Err(fault) ==> from_loading(loaded, part) == Err::<T, ContextFault>(fault),
{
}

/// Canonical parts make up a context exactly when its protected rules are found
/// and its guard period is well formed; a canonical context is accepted exactly
/// when its tree reads back as it was written and its rules are known.
pub proof fn canonical_parts_are_accepted_when_they_fit(
    ordered: Json,
    sor: Seq<u8>,
    answers: AnswersView,
    rules: Seq<RuleView>,
    tree: Json,
)
    ensures
        assembled(rules, tree, sor) is Ok <==> derived(rules, Seq::empty()) is Ok
            && guard_period_of(tree) is Ok,
        canonical_outcome(ordered, sor, answers) is Ok <==> answers.canonical_tree is Ok
            && normalized(answers.canonical_tree->Ok_0, None) == Ok::<Json, ContextFault>(ordered)
            && answers.rules is Ok && assembled(answers.rules->Ok_0, ordered, sor) is Ok,
{
}

/// A guard period is malformed only where it is no object, or where a number
/// that it gives does not fit: eight bits for the duration and sixteen for the
/// number of ticks.
pub proof fn guard_period_is_malformed_only_in_its_numbers(tree: Json)
    ensures
        guard_period_of(tree) is Err <==> {
            let context = if member(tree, "ietf-schc:context"@) is Some {
                member(tree, "ietf-schc:context"@)
            } else {
                member(tree, "context"@)
            };
            let period = member(context->0, "guard-period"@);
            let duration = member(period->0, "ticks-duration"@);
            let numbers = member(period->0, "ticks-numbers"@);
            &&& context is Some
            &&& period is Some
            &&& !(period->0 is Object) || (duration is Some && (unsigned(duration->0) is None
                || unsigned(duration->0)->0 > 255)) || (numbers is Some && (unsigned(numbers->0)
                is None || unsigned(numbers->0)->0 > 65535))
        },
{
}

} // verus!
