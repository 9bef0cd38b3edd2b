//! Building and applying duplicate operations on an active context.

use vstd::prelude::*;

use crate::allocation::DynamicRuleIdNamespace;
use crate::application_rules::bytes_view;
use crate::codec::ContextTag;
use crate::coap::{Coap, COAP_NON_CONFIRMABLE};
use crate::context::{
    candidate_fault, prepared_view, published, ActiveContext, ContextSnapshot, PreparedContext,
    PreparedView, RecipeView, SnapshotView,
};
use crate::context_error::{ContextError, ContextFault};
use crate::duplicate_command::{DuplicateView, RuleDuplicateRequest};
use crate::duplicate_operation::{DecodedDuplicateOperation, DecodedView};
use crate::duplicate_payload::{
    duplicate_inner_payload, encode_duplicate_rpc_payload, inner_outcome, operation_outcome,
    OverrideAnswers,
};
use crate::duplicate_tree::{
    expected_duplicate_tree, expected_tree, find_tree_rule, tree_rule, TreeAnswers,
};
use crate::error::{duplicate_fault, invalid_duplicate, Fault, InspectionError};
use crate::json::{Json, JsonValue};
use crate::request::{
    content_message, datagram_outcome, datagram_view, duplicate_rule_message, serialize, COAP_POST,
};
use crate::rule::{find_rule, rule_with_id, rules_view, Rule, RuleView};
use crate::rule_id::RuleId;
use crate::selector::RuleSelector;
use crate::sid::{ModelView, SidModel};
use crate::text::join3;

verus! {

/// How the payload of a duplicate operation is built.
pub open spec fn rule_payload_outcome(
    model: ModelView,
    snapshot: SnapshotView,
    request: DuplicateView,
    answers: Seq<OverrideAnswers>,
    outcome: Result<Seq<u8>, Fault>,
) -> bool {
    exists|inner: Result<Seq<u8>, Fault>|
        {
            &&& #[trigger] inner_outcome(model, snapshot, request, answers, inner)
            &&& match inner {
                Err(fault) => outcome == Err::<Seq<u8>, Fault>(fault),
                Ok(bytes) => operation_outcome(
                    model,
                    request.source,
                    request.destination,
                    bytes,
                    outcome,
                ),
            }
        }
}

/// Builds one deterministic modeled duplicate-rule payload.
///
/// Its binary change sequence contains one instance map per override, using
/// the stable entry-index key and SID paths for the changed leaves.
pub fn duplicate_rule_payload(
    model: &SidModel,
    snapshot: &ContextSnapshot,
    request: &RuleDuplicateRequest,
    answers: &Vec<OverrideAnswers>,
) -> (result: Result<Vec<u8>, InspectionError>)
    requires
        answers@.len() == request.overrides@.len(),
    ensures
        rule_payload_outcome(model@, snapshot@, request@, answers@, datagram_view(result)),
{
    let inner = duplicate_inner_payload(model, snapshot, request, answers);
    let ghost held = datagram_view(inner);
    assert(inner_outcome(model@, snapshot@, request@, answers@, held));
    let bytes = inner?;
    encode_duplicate_rpc_payload(model, request, bytes.as_slice())
}

/// How the datagram of a duplicate operation is built.
pub open spec fn rule_datagram_outcome(
    model: ModelView,
    snapshot: SnapshotView,
    request: DuplicateView,
    message_id: u16,
    answers: Seq<OverrideAnswers>,
    outcome: Result<Seq<u8>, Fault>,
) -> bool {
    exists|payload: Result<Seq<u8>, Fault>|
        {
            &&& #[trigger] rule_payload_outcome(model, snapshot, request, answers, payload)
            &&& match payload {
                Err(fault) => outcome == Err::<Seq<u8>, Fault>(fault),
                Ok(bytes) => datagram_outcome(
                    content_message(COAP_POST, COAP_NON_CONFIRMABLE, message_id, 142, bytes),
                    outcome,
                ),
            }
        }
}

/// Builds a complete non-confirmable duplicate-rule management datagram.
pub fn duplicate_rule_datagram(
    model: &SidModel,
    snapshot: &ContextSnapshot,
    request: &RuleDuplicateRequest,
    message_id: u16,
    answers: &Vec<OverrideAnswers>,
) -> (result: Result<Vec<u8>, InspectionError>)
    requires
        answers@.len() == request.overrides@.len(),
    ensures
        rule_datagram_outcome(
            model@,
            snapshot@,
            request@,
            message_id,
            answers@,
            datagram_view(result),
        ),
{
    let payload = duplicate_rule_payload(model, snapshot, request, answers);
    let ghost held = datagram_view(payload);
    assert(rule_payload_outcome(model@, snapshot@, request@, answers@, held));
    let message = duplicate_rule_message(payload?, message_id);
    serialize(&message)
}

/// Result of processing a duplicate-rule operation.
#[derive(Debug, Clone, Copy)]
pub enum DuplicateRuleResult {
    /// A new destination was validated and published.
    Applied {
        /// New active-context generation.
        generation: u64,
        /// New active-context tag.
        tag: ContextTag,
    },
    /// The requested deterministic destination was already installed.
    Idempotent {
        /// Existing active-context generation.
        generation: u64,
        /// Existing active-context tag.
        tag: ContextTag,
    },
}

/// The result of a duplicate-rule operation as a mathematical value.
pub enum DuplicateResultView {
    /// A new destination was published, with the generation and tag since.
    Applied(u64, Seq<u8>),
    /// The destination was already installed, with generation and tag as they
    /// are.
    Idempotent(u64, Seq<u8>),
}

impl View for DuplicateRuleResult {
    type V = DuplicateResultView;

    open spec fn view(&self) -> DuplicateResultView {
        match self {
            DuplicateRuleResult::Applied { generation, tag } => DuplicateResultView::Applied(
                *generation,
                tag@,
            ),
            DuplicateRuleResult::Idempotent { generation, tag } => DuplicateResultView::Idempotent(
                *generation,
                tag@,
            ),
        }
    }
}

/// The result of an operation, or its error.
pub open spec fn duplicate_view(result: Result<DuplicateRuleResult, InspectionError>) -> Result<
    DuplicateResultView,
    Fault,
> {
    match result {
        Ok(applied) => Ok(applied@),
        Err(error) => Err(error@),
    }
}

/// Whether a namespace, if there is one, keeps a new rule out.
pub open spec fn outside_namespace(namespace: Option<DynamicRuleIdNamespace>, id: RuleId) -> bool {
    namespace matches Some(held) && !(held.well_formed() && held.has_leaf(id))
}

/// The tree that an operation leads to and the copied rule in it.
pub open spec fn constructed(
    model: ModelView,
    snapshot: SnapshotView,
    namespace: Option<DynamicRuleIdNamespace>,
    operation: DecodedView,
    answers: TreeAnswers,
) -> Result<(Json, Json), Fault> {
    let destination = operation.request.destination;
    match expected_tree(
        model,
        snapshot,
        operation.request.source,
        destination,
        operation.instances,
        answers,
    ) {
        Err(fault) => Err(fault),
        Ok(tree) => if rule_with_id(snapshot.data.rules, destination.id()) is None
            && outside_namespace(namespace, destination.id()) {
            Err(
                duplicate_fault(
                    "new duplicate destination "@ + destination.spelled()
                        + " is outside the configured dynamic RuleID namespace"@,
                ),
            )
        } else {
            match tree_rule(tree, model, destination) {
                Err(fault) => Err(fault),
                Ok(None) => Err(duplicate_fault("constructed destination rule is missing"@)),
                Ok(Some(rule)) => Ok((tree, rule)),
            }
        },
    }
}

/// Why an existing destination refuses an operation, unless it already is what
/// the operation would make of it.
pub open spec fn existing_fault(
    model: ModelView,
    snapshot: SnapshotView,
    destination: RuleSelector,
    constructed: Json,
) -> Option<Fault> {
    match tree_rule(snapshot.data.tree, model, destination) {
        Err(fault) => Some(fault),
        Ok(None) => Some(duplicate_fault("existing destination rule is missing"@)),
        Ok(Some(rule)) => if rule != constructed {
            Some(
                Fault::InvalidUpdate(
                    "duplicate destination "@ + destination.spelled()
                        + " already exists with different contents"@,
                ),
            )
        } else {
            None
        },
    }
}

/// Whether the typed rules of a candidate hold the source as it was and a rule
/// at the destination.
pub open spec fn holds_copy(
    before: Seq<RuleView>,
    after: Seq<RuleView>,
    source: RuleId,
    destination: RuleId,
) -> bool {
    rule_with_id(after, source) == rule_with_id(before, source) && rule_with_id(
        after,
        destination,
    ) is Some
}

fn check_copy(before: &Vec<Rule>, after: &Vec<Rule>, source: RuleId, destination: RuleId) -> (result:
    bool)
    ensures
        result == holds_copy(rules_view(before@), rules_view(after@), source, destination),
{
    let kept = match (find_rule(before, source), find_rule(after, source)) {
        (Some(one), Some(other)) => one.same(other),
        (None, None) => true,
        _ => false,
    };
    kept && find_rule(after, destination).is_some()
}

/// Whether an operation publishes its candidate (`true`), leaves everything as
/// it is because the destination is already installed (`false`), or is
/// refused.
pub open spec fn apply_outcome(
    recipe: RecipeView,
    snapshot: SnapshotView,
    namespace: Option<DynamicRuleIdNamespace>,
    model: ModelView,
    operation: DecodedView,
    answers: TreeAnswers,
    prepared: Result<PreparedView, ContextFault>,
    canonical: Result<Seq<u8>, ContextFault>,
) -> Result<bool, Fault> {
    let destination = operation.request.destination;
    match constructed(model, snapshot, namespace, operation, answers) {
        Err(fault) => Err(fault),
        Ok((tree, rule)) => match prepared {
            Err(fault) => Err(Fault::InvalidUpdate(fault.described())),
            Ok(candidate) => if candidate.data.tree != tree || !holds_copy(
                snapshot.data.rules,
                candidate.data.rules,
                operation.request.source.id(),
                destination.id(),
            ) {
                Err(Fault::InvalidUpdate(ContextFault::NonCanonicalCandidate.described()))
            } else {
                match candidate_fault(recipe, snapshot, candidate, canonical) {
                    Some(fault) => Err(Fault::InvalidUpdate(fault.described())),
                    None => if rule_with_id(snapshot.data.rules, destination.id()) is Some {
                        match existing_fault(model, snapshot, destination, rule) {
                            Some(fault) => Err(fault),
                            None => Ok(false),
                        }
                    } else {
                        Ok(true)
                    },
                }
            },
        },
    }
}

/// The context that is active after an operation, and the result of it.
pub open spec fn duplicate_outcome(
    recipe: RecipeView,
    snapshot: SnapshotView,
    namespace: Option<DynamicRuleIdNamespace>,
    model: ModelView,
    operation: DecodedView,
    answers: TreeAnswers,
    prepared: Result<PreparedView, ContextFault>,
    canonical: Result<Seq<u8>, ContextFault>,
) -> (SnapshotView, Result<DuplicateResultView, Fault>) {
    match apply_outcome(
        recipe,
        snapshot,
        namespace,
        model,
        operation,
        answers,
        prepared,
        canonical,
    ) {
        Err(fault) => (snapshot, Err(fault)),
        Ok(false) => (
            snapshot,
            Ok(DuplicateResultView::Idempotent(snapshot.generation, snapshot.data.tag)),
        ),
        Ok(true) => {
            let after = published(prepared->Ok_0, (snapshot.generation + 1) as u64);
            (after, Ok(DuplicateResultView::Applied(after.generation, after.data.tag)))
        },
    }
}

fn construct(
    model: &SidModel,
    snapshot: &ContextSnapshot,
    operation: &DecodedDuplicateOperation,
    answers: &TreeAnswers,
) -> (result: Result<(JsonValue, JsonValue), InspectionError>)
    requires
        answers.changes@.len() == operation.instances@.len(),
    ensures
        ({
            let outcome = constructed(
                model@,
                snapshot@,
                snapshot.dynamic_rule_ids,
                operation@,
                *answers,
            );
            match result {
                Ok((tree, rule)) => outcome == Ok::<(Json, Json), Fault>((tree@, rule@)),
                Err(error) => outcome == Err::<(Json, Json), Fault>(error@),
            }
        }),
{
    let destination = operation.request.destination;
    let expected = expected_duplicate_tree(
        model,
        snapshot,
        &operation.request,
        &operation.instances,
        answers,
    )?;
    if find_rule(&snapshot.data.rules, destination.rule_id()).is_none() {
        if let Some(namespace) = &snapshot.dynamic_rule_ids {
            if !namespace.accepts(destination.rule_id()) {
                return Err(
                    invalid_duplicate(
                        join3(
                            "new duplicate destination ",
                            destination.to_text().as_str(),
                            " is outside the configured dynamic RuleID namespace",
                        ).as_str(),
                    ),
                );
            }
        }
    }
    let rule = match find_tree_rule(&expected, model, destination)? {
        Some(rule) => rule.copy(),
        None => {
            return Err(invalid_duplicate("constructed destination rule is missing"));
        },
    };
    Ok((expected, rule))
}

fn check_existing(
    model: &SidModel,
    snapshot: &ContextSnapshot,
    destination: RuleSelector,
    constructed: &JsonValue,
) -> (result: Result<(), InspectionError>)
    ensures
        match result {
            Ok(_) => existing_fault(model@, snapshot@, destination, constructed@) is None,
            Err(error) => existing_fault(model@, snapshot@, destination, constructed@) == Some(
                error@,
            ),
        },
{
    match find_tree_rule(&snapshot.data.tree, model, destination)? {
        None => Err(invalid_duplicate("existing destination rule is missing")),
        Some(rule) => {
            if !rule.same(constructed) {
                return Err(
                    InspectionError::InvalidUpdate(
                        join3(
                            "duplicate destination ",
                            destination.to_text().as_str(),
                            " already exists with different contents",
                        ),
                    ),
                );
            }
            Ok(())
        },
    }
}

/// Applies a decoded duplicate operation: a new destination is published after
/// every check, an installed one is left as it is, and a refusal changes
/// nothing.
///
/// `answers` are those of the datastore that built the tree, `prepared` is the
/// candidate that the tree led to, and `canonical` the canonical encoding of
/// its tree. A candidate is refused when it has another tree, another source
/// or no rule at the destination.
pub fn apply_duplicate_operation(
    active: &mut ActiveContext,
    model: &SidModel,
    operation: &DecodedDuplicateOperation,
    answers: &TreeAnswers,
    prepared: Result<PreparedContext, ContextError>,
    canonical: Result<Vec<u8>, ContextError>,
) -> (result: Result<DuplicateRuleResult, InspectionError>)
    requires
        answers.changes@.len() == operation.instances@.len(),
        old(active).snapshot@.generation < u64::MAX || rule_with_id(
            old(active).snapshot@.data.rules,
            operation@.request.destination.id(),
        ) is Some,
    ensures
        (final(active).snapshot@, duplicate_view(result)) == duplicate_outcome(
            old(active).recipe@,
            old(active).snapshot@,
            old(active).snapshot.dynamic_rule_ids,
            model@,
            operation@,
            *answers,
            prepared_view(prepared),
            bytes_view(canonical),
        ),
        final(active).recipe@ == old(active).recipe@,
{
    let destination = operation.request.destination;
    let (tree, rule) = construct(model, &active.snapshot, operation, answers)?;
    let candidate = match prepared {
        Ok(candidate) => candidate,
        Err(error) => {
            return Err(InspectionError::InvalidUpdate(error.message()));
        },
    };
    if !candidate.data.tree.same(&tree) || !check_copy(
        &active.snapshot.data.rules,
        &candidate.data.rules,
        operation.request.source.rule_id(),
        destination.rule_id(),
    ) {
        return Err(
            InspectionError::InvalidUpdate(ContextError::NonCanonicalCandidate.message()),
        );
    }
    if let Err(error) = active.validate_candidate(&candidate, canonical) {
        return Err(InspectionError::InvalidUpdate(error.message()));
    }
    if find_rule(&active.snapshot.data.rules, destination.rule_id()).is_some() {
        check_existing(model, &active.snapshot, destination, &rule)?;
        return Ok(
            DuplicateRuleResult::Idempotent {
                generation: active.snapshot.generation,
                tag: active.snapshot.data.tag,
            },
        );
    }
    active.publish(candidate);
    Ok(
        DuplicateRuleResult::Applied {
            generation: active.snapshot.generation,
            tag: active.snapshot.data.tag,
        },
    )
}

/// Only an operation that reports a new destination publishes anything: a
/// refused one and one whose destination is already an active rule leave
/// generation, tree and tag as they are.
pub proof fn installed_destination_is_kept(
    recipe: RecipeView,
    snapshot: SnapshotView,
    namespace: Option<DynamicRuleIdNamespace>,
    model: ModelView,
    operation: DecodedView,
    answers: TreeAnswers,
    prepared: Result<PreparedView, ContextFault>,
    canonical: Result<Seq<u8>, ContextFault>,
)
    ensures
        ({
            let (after, result) = duplicate_outcome(
                recipe,
                snapshot,
                namespace,
                model,
                operation,
                answers,
                prepared,
                canonical,
            );
            &&& rule_with_id(snapshot.data.rules, operation.request.destination.id()) is Some
                ==> !(result matches Ok(DuplicateResultView::Applied(_, _)))
            &&& !(result matches Ok(DuplicateResultView::Applied(_, _))) ==> after == snapshot
        }),
{
}

/// No operation copies a protected or management rule, or writes over a
/// protected one.
pub proof fn duplicate_keeps_protected_rules(
    recipe: RecipeView,
    snapshot: SnapshotView,
    namespace: Option<DynamicRuleIdNamespace>,
    model: ModelView,
    operation: DecodedView,
    answers: TreeAnswers,
    prepared: Result<PreparedView, ContextFault>,
    canonical: Result<Seq<u8>, ContextFault>,
)
    requires
        ({
            let request = operation.request;
            ||| crate::policy::protects(snapshot.data.protected, request.source.id())
            ||| crate::policy::protects(snapshot.data.protected, request.destination.id())
            ||| rule_with_id(snapshot.data.rules, request.source.id()) matches Some(rule)
                && rule.nature == crate::rule::RuleNature::Management
        }),
    ensures
        apply_outcome(
            recipe,
            snapshot,
            namespace,
            model,
            operation,
            answers,
            prepared,
            canonical,
        ) is Err,
{
}

/// A duplicate operation reports a new destination with the next generation
/// and the tag of the published candidate, and an installed one with the
/// generation and tag of the active context. A new destination was no active
/// rule, and with a namespace it is a leaf of it; what is published is the
/// prepared candidate.
pub proof fn duplicate_reports_the_active_context(
    recipe: RecipeView,
    snapshot: SnapshotView,
    namespace: Option<DynamicRuleIdNamespace>,
    model: ModelView,
    operation: DecodedView,
    answers: TreeAnswers,
    prepared: Result<PreparedView, ContextFault>,
    canonical: Result<Seq<u8>, ContextFault>,
)
    requires
        snapshot.generation < u64::MAX,
    ensures
        ({
            let (after, result) = duplicate_outcome(
                recipe,
                snapshot,
                namespace,
                model,
                operation,
                answers,
                prepared,
                canonical,
            );
            let destination = RuleId {
                value: operation.request.destination.value,
                bit_len: operation.request.destination.bits,
            };
            &&& result matches Ok(DuplicateResultView::Applied(generation, tag)) ==> {
                &&& generation == snapshot.generation + 1
                &&& after.generation == generation
                &&& after.data.tag == tag
                &&& prepared is Ok
                &&& after == published(prepared->Ok_0, generation)
                &&& rule_with_id(snapshot.data.rules, destination) is None
                &&& namespace matches Some(held) ==> held.has_leaf(destination)
                &&& rule_with_id(prepared->Ok_0.data.rules, destination) is Some
            }
            &&& result matches Ok(DuplicateResultView::Idempotent(generation, tag)) ==> {
                &&& generation == snapshot.generation
                &&& tag == snapshot.data.tag
                &&& after == snapshot
                &&& rule_with_id(snapshot.data.rules, destination) is Some
            }
        }),
{
}

/// An operation is refused where its destination is an active rule with other
/// contents, and where the candidate's tree is not the constructed one or does
/// not keep the source.
pub proof fn different_destination_is_refused(
    recipe: RecipeView,
    snapshot: SnapshotView,
    namespace: Option<DynamicRuleIdNamespace>,
    model: ModelView,
    operation: DecodedView,
    answers: TreeAnswers,
    prepared: Result<PreparedView, ContextFault>,
    canonical: Result<Seq<u8>, ContextFault>,
)
    requires
        constructed(model, snapshot, namespace, operation, answers) is Ok,
    ensures
        ({
            let (tree, rule) = constructed(model, snapshot, namespace, operation, answers)->Ok_0;
            let outcome = apply_outcome(
                recipe,
                snapshot,
                namespace,
                model,
                operation,
                answers,
                prepared,
                canonical,
            );
            let destination = operation.request.destination;
            &&& rule_with_id(snapshot.data.rules, destination.id()) is Some && tree_rule(
                snapshot.data.tree,
                model,
                destination,
            ) != Ok::<Option<Json>, Fault>(Some(rule)) ==> outcome is Err
            &&& outcome is Ok ==> prepared is Ok && prepared->Ok_0.data.tree == tree
                && rule_with_id(
                prepared->Ok_0.data.rules,
                operation.request.source.id(),
            ) == rule_with_id(snapshot.data.rules, operation.request.source.id())
        }),
{
}

/// A copy is constructed exactly when its tree can be built, its destination is
/// a rule of the context or lies in the namespace, and the tree holds it.
pub proof fn copy_is_constructed_when_it_may_be(
    model: ModelView,
    snapshot: SnapshotView,
    namespace: Option<DynamicRuleIdNamespace>,
    operation: DecodedView,
    answers: TreeAnswers,
)
    ensures
        constructed(model, snapshot, namespace, operation, answers) is Ok <==> {
            let destination = operation.request.destination;
            let tree = expected_tree(
                model,
                snapshot,
                operation.request.source,
                destination,
                operation.instances,
                answers,
            );
            let rule = tree_rule(tree->Ok_0, model, destination);
            &&& tree is Ok
            &&& rule_with_id(snapshot.data.rules, destination.id()) is Some || !outside_namespace(
                namespace,
                destination.id(),
            )
            &&& rule is Ok
            &&& rule->Ok_0 is Some
        },
{
}

/// The datagram of a duplicate operation is a non-confirmable POST to the
/// management resource, in the format of instances and without a token, and it
/// carries the payload of the operation.
pub proof fn duplicate_datagram_has_its_form(
    model: ModelView,
    snapshot: SnapshotView,
    request: DuplicateView,
    message_id: u16,
    answers: Seq<OverrideAnswers>,
    outcome: Result<Seq<u8>, Fault>,
) -> (message: Coap)
    requires
        rule_datagram_outcome(model, snapshot, request, message_id, answers, outcome),
        outcome is Ok,
    ensures
        message.version == 1,
        message.message_type == 1,
        message.code == 2,
        message.message_id == message_id,
        message.token.len() == 0,
        message.options == seq![(11u16, seq![115u8, 99, 104, 99]), (12u16, seq![142u8])],
        rule_payload_outcome(model, snapshot, request, answers, Ok(message.payload)),
        datagram_outcome(message, outcome),
{
    let payload = choose|payload: Result<Seq<u8>, Fault>|
        {
            &&& #[trigger] rule_payload_outcome(model, snapshot, request, answers, payload)
            &&& match payload {
                Err(fault) => outcome == Err::<Seq<u8>, Fault>(fault),
                Ok(bytes) => datagram_outcome(
                    content_message(COAP_POST, COAP_NON_CONFIRMABLE, message_id, 142, bytes),
                    outcome,
                ),
            }
        };
    let bytes = payload->Ok_0;
    assert(rule_payload_outcome(model, snapshot, request, answers, Ok(bytes)));
    content_message(COAP_POST, COAP_NON_CONFIRMABLE, message_id, 142, bytes)
}

/// The payload of a duplicate operation leads from the source to the
/// destination of its request, with the changes that the request asks for.
pub proof fn duplicate_payload_is_that_of_the_request(
    model: ModelView,
    snapshot: SnapshotView,
    request: DuplicateView,
    answers: Seq<OverrideAnswers>,
    outcome: Result<Seq<u8>, Fault>,
) -> (inner: Seq<u8>)
    requires
        rule_payload_outcome(model, snapshot, request, answers, outcome),
        outcome is Ok,
    ensures
        inner_outcome(model, snapshot, request, answers, Ok(inner)),
        operation_outcome(model, request.source, request.destination, inner, outcome),
{
    let inner = choose|inner: Result<Seq<u8>, Fault>|
        {
            &&& #[trigger] inner_outcome(model, snapshot, request, answers, inner)
            &&& match inner {
                Err(fault) => outcome == Err::<Seq<u8>, Fault>(fault),
                Ok(bytes) => operation_outcome(
                    model,
                    request.source,
                    request.destination,
                    bytes,
                    outcome,
                ),
            }
        };
    let bytes = inner->Ok_0;
    assert(inner_outcome(model, snapshot, request, answers, Ok(bytes)));
    bytes
}

} // verus!
