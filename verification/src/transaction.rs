//! One reservation at a time: from a prepared context over a committed
//! transaction to its publication.

use vstd::prelude::*;

use crate::application_rules::bytes_view;
use crate::context::{
    accepted_candidate_keeps_protected_rules, candidate_fault, prepared_view, published,
    ActiveContext, PreparedContext, PreparedView, RecipeView, SnapshotView,
};
use crate::context_error::{ContextError, ContextFault};
use crate::json::{Json, JsonValue};
use crate::policy::{ids_of, increasing};
use crate::rule::copy_bytes;
use crate::text::join;

verus! {

/// A prepared context that waits for its transaction.
#[derive(Debug)]
pub struct Reservation {
    /// The prepared context.
    pub prepared: PreparedContext,
    /// Digest of the context that was active at preparation. It is kept for
    /// inspection: no commit depends on it.
    pub base_digest: Vec<u8>,
}

/// A reservation as a mathematical value.
pub struct ReservationView {
    /// The prepared context.
    pub prepared: PreparedView,
    /// Digest of the context that was active at preparation.
    pub base_digest: Seq<u8>,
}

impl View for Reservation {
    type V = ReservationView;

    open spec fn view(&self) -> ReservationView {
        ReservationView { prepared: self.prepared@, base_digest: self.base_digest@ }
    }
}

/// Shared transaction reservation state of one context.
///
/// Transactions have no abort callback. A pending reservation therefore
/// remains until it is published or explicitly reset.
#[derive(Debug)]
pub enum TransactionState {
    /// Nothing is reserved.
    Idle,
    /// A context waits for its transaction.
    Prepared(Reservation),
    /// A transaction committed its candidate but did not deliver its callback.
    Pending(Reservation),
}

/// A reservation state as a mathematical value.
pub enum StateView {
    /// Nothing is reserved.
    Idle,
    /// A context waits for its transaction.
    Prepared(ReservationView),
    /// A transaction committed its candidate but did not deliver its callback.
    Pending(ReservationView),
}

impl View for TransactionState {
    type V = StateView;

    open spec fn view(&self) -> StateView {
        match self {
            TransactionState::Idle => StateView::Idle,
            TransactionState::Prepared(reservation) => StateView::Prepared(reservation@),
            TransactionState::Pending(reservation) => StateView::Pending(reservation@),
        }
    }
}

/// What a transaction asks for.
#[derive(Debug, Clone, Copy, PartialEq, Eq, Structural)]
pub struct TransactionRequest {
    /// Whether the method is iPATCH.
    pub ipatch: bool,
    /// Whether the path is the root.
    pub root: bool,
    /// Whether the interface is the streaming interface.
    pub streaming: bool,
}

/// Whether a request is a local root management iPATCH.
pub open spec fn supported(request: TransactionRequest) -> bool {
    request.ipatch && request.root && !request.streaming
}

/// The text of a refused transaction.
pub open spec fn rejection(fault: ContextFault) -> Seq<char> {
    "schc-coreconf transaction rejected: "@ + fault.described()
}

/// What becomes of a reservation before a commit: the next state, and the
/// error when the commit is refused. The reserved context has to be a valid
/// candidate for the active one; `canonical` is the canonical encoding of its
/// tree.
pub open spec fn before_commit(
    state: StateView,
    recipe: RecipeView,
    current: SnapshotView,
    candidate: Json,
    request: TransactionRequest,
    canonical: Result<Seq<u8>, ContextFault>,
) -> (StateView, Option<ContextFault>) {
    match state {
        StateView::Idle => (
            state,
            Some(ContextFault::UnsupportedTransaction("no prepared context for root iPATCH"@)),
        ),
        StateView::Pending(_) => (state, Some(ContextFault::PreparationBusy)),
        StateView::Prepared(reservation) => if reservation.prepared.data.tree != candidate {
            (state, Some(ContextFault::PreparationBusy))
        } else if !supported(request) {
            (
                StateView::Idle,
                Some(
                    ContextFault::UnsupportedTransaction(
                        "participant accepts only a local root management iPATCH"@,
                    ),
                ),
            )
        } else {
            match candidate_fault(recipe, current, reservation.prepared, canonical) {
                Some(fault) => (StateView::Idle, Some(fault)),
                None => (StateView::Pending(reservation), None),
            }
        },
    }
}

/// The prepared context that a commit publishes, when it is the pending one.
pub open spec fn committed(state: StateView, candidate: Json) -> Option<PreparedView> {
    match state {
        StateView::Pending(reservation) => if reservation.prepared.data.tree == candidate {
            Some(reservation.prepared)
        } else {
            None
        },
        _ => None,
    }
}

/// The reservation and the active context after a commit: the pending context
/// is published under the next generation, and any other candidate changes
/// nothing.
pub open spec fn after_commit(state: StateView, snapshot: SnapshotView, candidate: Json) -> (
    StateView,
    SnapshotView,
) {
    match committed(state, candidate) {
        Some(prepared) => (
            StateView::Idle,
            published(prepared, (snapshot.generation + 1) as u64),
        ),
        None => (state, snapshot),
    }
}

/// Participant of root management transactions over one active context.
#[derive(Debug)]
pub struct ContextParticipant {
    /// The reservation state.
    pub state: TransactionState,
}

fn rejected(error: &ContextError) -> (result: String)
    ensures
        result@ == rejection(error@),
{
    join("schc-coreconf transaction rejected: ", error.message().as_str())
}

/// How the candidate of a construction is reserved: only beside no other
/// reservation, and a refusal keeps what is reserved.
pub open spec fn reserved(
    before: StateView,
    after: StateView,
    digest: Seq<u8>,
    candidate: Result<PreparedView, ContextFault>,
    result: Result<(), ContextError>,
) -> bool {
    match candidate {
        Err(fault) => after == before && (result matches Err(error) && error@ == fault),
        Ok(prepared) => if before == StateView::Idle {
            result is Ok && after == StateView::Prepared(
                ReservationView { prepared, base_digest: digest },
            )
        } else {
            after == before && (result matches Err(error) && error@
                == ContextFault::PreparationBusy)
        },
    }
}

impl ContextParticipant {
    /// Creates a participant without a reservation.
    pub fn new() -> (result: Self)
        ensures
            result.state@ == StateView::Idle,
    {
        ContextParticipant { state: TransactionState::Idle }
    }

    /// Reserves a context for the next matching root iPATCH.
    pub fn prepare(&mut self, active: &ActiveContext, prepared: PreparedContext) -> (result: Result<
        (),
        ContextError,
    >)
        ensures
            match result {
                Ok(_) => {
                    &&& old(self).state@ == StateView::Idle
                    &&& final(self).state@ == StateView::Prepared(
                        (ReservationView {
                            prepared: prepared@,
                            base_digest: active.snapshot@.data.digest,
                        }),
                    )
                },
                Err(error) => {
                    &&& old(self).state@ != StateView::Idle
                    &&& error@ == ContextFault::PreparationBusy
                    &&& final(self).state@ == old(self).state@
                },
            },
    {
        let idle = match &self.state {
            TransactionState::Idle => true,
            _ => false,
        };
        if !idle {
            return Err(ContextError::PreparationBusy);
        }
        let base_digest = copy_bytes(active.snapshot.data.digest.as_slice());
        self.state = TransactionState::Prepared(Reservation { prepared, base_digest });
        Ok(())
    }

    /// Prepares the candidate that a canonical tree makes, for the next root
    /// change.
    pub fn prepare_tree(
        &mut self,
        active: &ActiveContext,
        candidate: Result<PreparedContext, ContextError>,
    ) -> (result: Result<(), ContextError>)
        ensures
            reserved(
                old(self).state@,
                final(self).state@,
                active.snapshot@.data.digest,
                prepared_view(candidate),
                result,
            ),
    {
        match candidate {
            Ok(prepared) => self.prepare(active, prepared),
            Err(error) => Err(error),
        }
    }

    /// Prepares the candidate that a complete encoding makes, for the next
    /// root change.
    pub fn prepare_sor(
        &mut self,
        active: &ActiveContext,
        candidate: Result<PreparedContext, ContextError>,
    ) -> (result: Result<(), ContextError>)
        ensures
            reserved(
                old(self).state@,
                final(self).state@,
                active.snapshot@.data.digest,
                prepared_view(candidate),
                result,
            ),
    {
        match candidate {
            Ok(prepared) => self.prepare(active, prepared),
            Err(error) => Err(error),
        }
    }

    /// Clears a reservation that has not entered a commit. A pending one is
    /// left untouched.
    pub fn clear_prepared(&mut self)
        ensures
            final(self).state@ == match old(self).state@ {
                StateView::Prepared(_) => StateView::Idle,
                other => other,
            },
    {
        let prepared = self.has_prepared();
        if prepared {
            self.state = TransactionState::Idle;
        }
    }

    /// Resets any reservation.
    pub fn reset_transaction(&mut self)
        ensures
            final(self).state@ == StateView::Idle,
    {
        self.state = TransactionState::Idle;
    }

    /// Returns whether one preparation is waiting for a transaction.
    pub fn has_prepared(&self) -> (result: bool)
        ensures
            result == (self.state@ is Prepared),
    {
        match &self.state {
            TransactionState::Prepared(_) => true,
            _ => false,
        }
    }

    /// Returns whether a transaction has committed its candidate but has not
    /// yet delivered its callback.
    pub fn has_pending(&self) -> (result: bool)
        ensures
            result == (self.state@ is Pending),
    {
        match &self.state {
            TransactionState::Pending(_) => true,
            _ => false,
        }
    }

    /// Decides before a commit whether the candidate is the reserved one, and
    /// whether the reserved context may follow the active one. `canonical` is
    /// the canonical encoding of its tree.
    pub fn pre_commit(
        &mut self,
        active: &ActiveContext,
        candidate: &JsonValue,
        request: TransactionRequest,
        canonical: Result<Vec<u8>, ContextError>,
    ) -> (result: Result<(), String>)
        ensures
            ({
                let next = before_commit(
                    old(self).state@,
                    active.recipe@,
                    active.snapshot@,
                    candidate@,
                    request,
                    bytes_view(canonical),
                );
                &&& final(self).state@ == next.0
                &&& match result {
                    Ok(_) => next.1 is None,
                    Err(text) => next.1 matches Some(fault) && text@ == rejection(fault),
                }
            }),
    {
        let mut state = TransactionState::Idle;
        std::mem::swap(&mut state, &mut self.state);
        match state {
            TransactionState::Idle => Err(
                rejected(
                    &ContextError::UnsupportedTransaction(
                        "no prepared context for root iPATCH".to_owned(),
                    ),
                ),
            ),
            TransactionState::Pending(reservation) => {
                self.state = TransactionState::Pending(reservation);
                Err(rejected(&ContextError::PreparationBusy))
            },
            TransactionState::Prepared(reservation) => {
                if !reservation.prepared.data.tree.same(candidate) {
                    self.state = TransactionState::Prepared(reservation);
                    return Err(rejected(&ContextError::PreparationBusy));
                }
                if !request.ipatch || !request.root || request.streaming {
                    return Err(
                        rejected(
                            &ContextError::UnsupportedTransaction(
                                "participant accepts only a local root management iPATCH".to_owned(),
                            ),
                        ),
                    );
                }
                if let Err(error) = active.validate_candidate(&reservation.prepared, canonical) {
                    return Err(rejected(&error));
                }
                self.state = TransactionState::Pending(reservation);
                Ok(())
            },
        }
    }

    /// Publishes the pending context after its commit; any other candidate
    /// changes nothing.
    pub fn post_commit(&mut self, active: &mut ActiveContext, candidate: &JsonValue)
        requires
            committed(old(self).state@, candidate@) is Some ==> old(active).snapshot@.generation
                < u64::MAX,
        ensures
            (final(self).state@, final(active).snapshot@) == after_commit(
                old(self).state@,
                old(active).snapshot@,
                candidate@,
            ),
            final(active).recipe@ == old(active).recipe@,
    {
        let mut state = TransactionState::Idle;
        std::mem::swap(&mut state, &mut self.state);
        match state {
            TransactionState::Pending(reservation) => {
                if reservation.prepared.data.tree.same(candidate) {
                    active.publish(reservation.prepared);
                } else {
                    self.state = TransactionState::Pending(reservation);
                }
            },
            other => {
                self.state = other;
            },
        }
    }
}

/// A commit publishes at most once: after a commit that published its
/// candidate under the next generation, neither the same candidate nor any
/// other publishes anything until another context is reserved.
pub proof fn commit_publishes_once(
    state: StateView,
    snapshot: SnapshotView,
    candidate: Json,
    later: Json,
)
    requires
        committed(state, candidate) is Some,
        snapshot.generation < u64::MAX,
    ensures
        ({
            let (after, published) = after_commit(state, snapshot, candidate);
            &&& published.generation == snapshot.generation + 1
            &&& published.data.tree == candidate
            &&& after_commit(after, published, candidate) == (after, published)
            &&& after_commit(after, published, later) == (after, published)
        }),
{
}

/// Only a reserved candidate is ever published: what a commit publishes after
/// a successful check is the context that was reserved, for its own tree, and
/// it has the protected rules of the context that it was checked against.
pub proof fn only_the_reserved_candidate_is_published(
    state: StateView,
    recipe: RecipeView,
    current: SnapshotView,
    candidate: Json,
    request: TransactionRequest,
    canonical: Result<Seq<u8>, ContextFault>,
    committed_tree: Json,
)
    requires
        before_commit(state, recipe, current, candidate, request, canonical).1 is None,
        increasing(ids_of(current.data.protected)),
        state matches StateView::Prepared(reservation) ==> increasing(
            ids_of(reservation.prepared.data.protected),
        ),
    ensures
        state is Prepared,
        supported(request),
        match committed(
            before_commit(state, recipe, current, candidate, request, canonical).0,
            committed_tree,
        ) {
            Some(prepared) => committed_tree == candidate && prepared == state->Prepared_0.prepared
                && prepared.data.tree == candidate && prepared.data.protected
                == current.data.protected,
            None => committed_tree != candidate,
        },
{
    accepted_candidate_keeps_protected_rules(
        recipe,
        current,
        state->Prepared_0.prepared,
        canonical,
    );
}

/// A candidate that is not the reserved one leaves the reservation in place.
pub proof fn foreign_candidate_keeps_the_reservation(
    reservation: ReservationView,
    recipe: RecipeView,
    current: SnapshotView,
    candidate: Json,
    request: TransactionRequest,
    canonical: Result<Seq<u8>, ContextFault>,
)
    requires
        reservation.prepared.data.tree != candidate,
    ensures
        before_commit(
            StateView::Prepared(reservation),
            recipe,
            current,
            candidate,
            request,
            canonical,
        ) == (StateView::Prepared(reservation), Some(ContextFault::PreparationBusy)),
{
}

/// A commit is let through exactly when the candidate is the reserved one, the
/// request is a local iPATCH of the root that is no stream, and the reserved
/// context fits the active one; the reservation is then pending.
pub proof fn commit_is_let_through_when_it_fits(
    state: StateView,
    recipe: RecipeView,
    current: SnapshotView,
    candidate: Json,
    request: TransactionRequest,
    canonical: Result<Seq<u8>, ContextFault>,
)
    ensures
        ({
            let (after, fault) = before_commit(
                state,
                recipe,
                current,
                candidate,
                request,
                canonical,
            );
            &&& fault is None <==> (state is Prepared && state->Prepared_0.prepared.data.tree
                == candidate && request.ipatch && request.root && !request.streaming
                && candidate_fault(recipe, current, state->Prepared_0.prepared, canonical) is None)
            &&& fault is None ==> after == StateView::Pending(state->Prepared_0)
            &&& fault is Some && state is Prepared && state->Prepared_0.prepared.data.tree
                == candidate ==> after is Idle
            &&& fault is Some && !(state is Prepared && state->Prepared_0.prepared.data.tree
                == candidate) ==> after == state
            &&& state is Pending ==> fault == Some(ContextFault::PreparationBusy)
            &&& state is Idle ==> fault is Some && fault->0 is UnsupportedTransaction
        }),
{
}

/// A commit publishes the pending context under the next generation and frees
/// the reservation; any other state or tree changes nothing.
pub proof fn commit_publishes_the_pending_context(
    state: StateView,
    snapshot: SnapshotView,
    candidate: Json,
)
    requires
        snapshot.generation < u64::MAX,
    ensures
        ({
            let (after, current) = after_commit(state, snapshot, candidate);
            let ready = state is Pending && state->Pending_0.prepared.data.tree == candidate;
            &&& ready ==> after is Idle && current.generation == snapshot.generation + 1
                && current.data == state->Pending_0.prepared.data && current.dynamic_rule_ids
                == state->Pending_0.prepared.recipe.dynamic_rule_ids && current.context_profile
                == state->Pending_0.prepared.recipe.context_profile
            &&& !ready ==> after == state && current == snapshot
        }),
{
}

/// A candidate is reserved only beside no other reservation, together with the
/// digest of the context that it was built on.
pub proof fn candidate_is_reserved_alone(
    before: StateView,
    after: StateView,
    digest: Seq<u8>,
    candidate: Result<PreparedView, ContextFault>,
    result: Result<(), ContextError>,
)
    requires
        reserved(before, after, digest, candidate, result),
    ensures
        result is Ok <==> before is Idle && candidate is Ok,
        result is Ok ==> after is Prepared && after->Prepared_0.prepared == candidate->Ok_0
            && after->Prepared_0.base_digest == digest,
        result is Err ==> after == before,
        candidate is Ok && !(before is Idle) ==> result is Err && result->Err_0@
            == ContextFault::PreparationBusy,
        candidate is Err ==> result is Err && result->Err_0@ == candidate->Err_0,
{
}

/// A refused transaction says why it was refused.
pub proof fn rejection_tells_its_reason(fault: ContextFault)
    ensures
        rejection(fault) == "schc-coreconf transaction rejected: "@ + fault.described(),
{
}

} // verus!
