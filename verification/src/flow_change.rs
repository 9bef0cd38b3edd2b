//! Planning the smallest change that makes a context describe a flow.

use vstd::prelude::*;

use crate::allocation::RuleIdTreeError;
use crate::context::{rule_id_list, rule_ids, ContextSnapshot, SnapshotView};
use crate::duplicate_command::{overrides_view, DuplicateView, RuleDuplicateRequest};
use crate::error::{Fault, InspectionError};
use crate::flow::{
    complete_flow, describes_payload, flow_overrides, has_application_payload,
    has_complete_flow_fields, planned_overrides, FlowDirection,
};
use crate::packet::{Ipv6UdpPacket, PacketView};
use crate::policy::protects;
use crate::rule::{rules_view, Rule, RuleNature, RuleView};
use crate::rule_id::RuleId;
use crate::selector::{selector_of, RuleSelector};

verus! {

/// Result of planning one logical flow change against the active context.
#[derive(Debug)]
pub enum FlowChange {
    /// The current application context already contains a matching rule.
    AlreadyMatches {
        /// Existing matching rule.
        rule: RuleSelector,
    },
    /// A duplicate operation is required to install a matching rule.
    Duplicate {
        /// Existing application parent selected by the planner.
        parent: RuleSelector,
        /// Complete operation with an automatically allocated destination.
        request: RuleDuplicateRequest,
    },
}

/// A planned flow change as a mathematical value.
pub enum ChangeView {
    /// A rule already matches.
    AlreadyMatches(RuleSelector),
    /// A duplicate operation of a parent is required.
    Duplicate(RuleSelector, DuplicateView),
}

impl View for FlowChange {
    type V = ChangeView;

    open spec fn view(&self) -> ChangeView {
        match self {
            FlowChange::AlreadyMatches { rule } => ChangeView::AlreadyMatches(*rule),
            FlowChange::Duplicate { parent, request } => ChangeView::Duplicate(*parent, request@),
        }
    }
}

/// Whether a rule can be the parent of a flow.
pub open spec fn eligible(snapshot: SnapshotView, rule: RuleView) -> bool {
    rule.nature == RuleNature::Compression && !protects(snapshot.data.protected, rule.id)
        && describes_payload(rule.fields) && complete_flow(rule.fields)
}

fn is_eligible(snapshot: &ContextSnapshot, rule: &Rule) -> (result: bool)
    ensures
        result == eligible(snapshot@, rule@),
{
    rule.nature == RuleNature::Compression && !snapshot.data.protected.contains(rule.id)
        && has_application_payload(rule) && has_complete_flow_fields(rule)
}

/// The selector of a rule.
pub open spec fn own_selector(id: RuleId) -> Result<RuleSelector, Fault> {
    selector_of(id.value, id.bit_len)
}

/// Whether a rule describes a packet without any change.
pub open spec fn describes_packet(
    snapshot: SnapshotView,
    rule: RuleView,
    packet: PacketView,
    direction: FlowDirection,
) -> bool {
    eligible(snapshot, rule) && (planned_overrides(rule.fields, packet, direction) matches Some(
        list,
    ) && list.len() == 0)
}

/// The first of some rules that describes a packet and that the packet was
/// encoded with.
pub open spec fn existing_match(
    snapshot: SnapshotView,
    count: nat,
    packet: PacketView,
    direction: FlowDirection,
    encoded: Option<RuleId>,
) -> Result<Option<RuleSelector>, Fault>
    decreases count,
{
    if count == 0 {
        Ok(None)
    } else {
        match existing_match(snapshot, (count - 1) as nat, packet, direction, encoded) {
            Err(fault) => Err(fault),
            Ok(Some(found)) => Ok(Some(found)),
            Ok(None) => {
                let rule = snapshot.data.rules[count - 1];
                if !describes_packet(snapshot, rule, packet, direction) {
                    Ok(None)
                } else {
                    match own_selector(rule.id) {
                        Err(fault) => Err(fault),
                        Ok(selector) => if encoded == Some(selector.id()) {
                            Ok(Some(selector))
                        } else {
                            Ok(None)
                        },
                    }
                }
            },
        }
    }
}

proof fn lemma_match_stays(
    snapshot: SnapshotView,
    count: nat,
    more: nat,
    packet: PacketView,
    direction: FlowDirection,
    encoded: Option<RuleId>,
)
    requires
        count <= more,
        existing_match(snapshot, count, packet, direction, encoded) != Ok::<
            Option<RuleSelector>,
            Fault,
        >(None),
    ensures
        existing_match(snapshot, more, packet, direction, encoded) == existing_match(
            snapshot,
            count,
            packet,
            direction,
            encoded,
        ),
    decreases more,
{
    if count < more {
        lemma_match_stays(snapshot, count, (more - 1) as nat, packet, direction, encoded);
    }
}

fn existing_application_match(
    snapshot: &ContextSnapshot,
    packet: &Ipv6UdpPacket,
    direction: FlowDirection,
    encoded: Option<RuleId>,
) -> (result: Result<Option<RuleSelector>, InspectionError>)
    ensures
        ({
            let outcome = existing_match(
                snapshot@,
                snapshot@.data.rules.len(),
                packet@,
                direction,
                encoded,
            );
            match result {
                Ok(found) => outcome == Ok::<Option<RuleSelector>, Fault>(found),
                Err(error) => outcome == Err::<Option<RuleSelector>, Fault>(error@),
            }
        }),
{
    let rules = &snapshot.data.rules;
    let ghost view = snapshot@;
    let mut index: usize = 0;
    while index < rules.len()
        invariant
            index <= rules@.len(),
            view == snapshot@,
            view.data.rules == rules_view(rules@),
            existing_match(view, index as nat, packet@, direction, encoded) == Ok::<
                Option<RuleSelector>,
                Fault,
            >(None),
        decreases rules.len() - index,
    {
        let rule = &rules[index];
        proof {
            assert(view.data.rules[index as int] == rule@);
            let next = existing_match(view, (index + 1) as nat, packet@, direction, encoded);
            if next != Ok::<Option<RuleSelector>, Fault>(None) {
                lemma_match_stays(
                    view,
                    (index + 1) as nat,
                    rules@.len(),
                    packet@,
                    direction,
                    encoded,
                );
            }
        }
        if is_eligible(snapshot, rule) {
            if let Some(overrides) = flow_overrides(rule, packet, direction) {
                assert(overrides_view(overrides@).len() == overrides@.len());
                if overrides.len() == 0 {
                    let selector = RuleSelector::new(rule.id.value, rule.id.bit_len)?;
                    if let Some(id) = encoded {
                        if id == selector.rule_id() {
                            return Ok(Some(selector));
                        }
                    }
                }
            }
        }
        index += 1;
    }
    Ok(None)
}

/// The operation that would make a copy of a rule describe a packet.
pub open spec fn parent_request(
    snapshot: SnapshotView,
    rule: RuleView,
    packet: PacketView,
    direction: FlowDirection,
    destination: RuleId,
) -> Result<Option<DuplicateView>, Fault> {
    if !eligible(snapshot, rule) {
        Ok(None)
    } else {
        match planned_overrides(rule.fields, packet, direction) {
            None => Ok(None),
            Some(overrides) => match own_selector(rule.id) {
                Err(fault) => Err(fault),
                Ok(source) => if overrides.len() == 0 {
                    Ok(None)
                } else {
                    match own_selector(destination) {
                        Err(fault) => Err(fault),
                        Ok(target) => Ok(
                            Some(DuplicateView { source, destination: target, overrides }),
                        ),
                    }
                },
            },
        }
    }
}

/// Returns the operation that would make a copy of a rule describe a packet.
pub fn flow_request(
    snapshot: &ContextSnapshot,
    rule: &Rule,
    packet: &Ipv6UdpPacket,
    direction: FlowDirection,
    destination: RuleId,
) -> (result: Result<Option<RuleDuplicateRequest>, InspectionError>)
    ensures
        ({
            let outcome = parent_request(snapshot@, rule@, packet@, direction, destination);
            match result {
                Ok(None) => outcome == Ok::<Option<DuplicateView>, Fault>(None),
                Ok(Some(request)) => outcome == Ok::<Option<DuplicateView>, Fault>(Some(request@)),
                Err(error) => outcome == Err::<Option<DuplicateView>, Fault>(error@),
            }
        }),
{
    if !is_eligible(snapshot, rule) {
        return Ok(None);
    }
    let overrides = match flow_overrides(rule, packet, direction) {
        Some(overrides) => overrides,
        None => {
            return Ok(None);
        },
    };
    assert(overrides_view(overrides@).len() == overrides@.len());
    let source = RuleSelector::new(rule.id.value, rule.id.bit_len)?;
    if overrides.len() == 0 {
        return Ok(None);
    }
    let target = RuleSelector::new(destination.value, destination.bit_len)?;
    Ok(Some(RuleDuplicateRequest { source, destination: target, overrides }))
}

/// How the trial of one parent ended: the length of its request on the
/// management link, and whether each step behind it succeeded.
#[derive(Debug, Clone, Copy)]
pub struct FlowTrial {
    /// Length of the request's protected frame, when it could be encoded.
    pub wire_bytes: Option<usize>,
    /// Whether the request's payload could be built.
    pub payload: bool,
    /// Whether that payload could be decoded.
    pub operation: bool,
    /// Whether the resulting tree could be built.
    pub tree: bool,
    /// Whether that tree makes a context.
    pub prepared: bool,
    /// Whether that context encodes the packet.
    pub encoded: bool,
}

impl FlowTrial {
    /// The length of the request when every step succeeded.
    pub open spec fn cost(self) -> Option<usize> {
        if self.payload && self.operation && self.tree && self.prepared && self.encoded {
            self.wire_bytes
        } else {
            None
        }
    }

    /// Returns the length of the request when every step succeeded.
    pub fn accepted_cost(self) -> (result: Option<usize>)
        ensures
            result == self.cost(),
    {
        if self.payload && self.operation && self.tree && self.prepared && self.encoded {
            self.wire_bytes
        } else {
            None
        }
    }
}

/// A parent that was tried with success.
pub struct Candidate {
    /// Length of its request on the management link.
    pub wire_bytes: usize,
    /// Its request.
    pub request: DuplicateView,
}

/// Whether a candidate ranks before another: by length on the link, then by
/// the number of changed entries, then by source identity.
pub open spec fn ranks_before(left: Candidate, right: Candidate) -> bool {
    let one = left.request.overrides.len();
    let two = right.request.overrides.len();
    let first = left.request.source;
    let second = right.request.source;
    ||| left.wire_bytes < right.wire_bytes
    ||| left.wire_bytes == right.wire_bytes && one < two
    ||| left.wire_bytes == right.wire_bytes && one == two && first.value < second.value
    ||| left.wire_bytes == right.wire_bytes && one == two && first.value == second.value
        && first.bits < second.bits
}

/// The best candidate among the first rules.
pub open spec fn best_candidate(
    snapshot: SnapshotView,
    count: nat,
    packet: PacketView,
    direction: FlowDirection,
    destination: RuleId,
    trials: Seq<FlowTrial>,
) -> Result<Option<Candidate>, Fault>
    decreases count,
{
    if count == 0 {
        Ok(None)
    } else {
        match best_candidate(
            snapshot,
            (count - 1) as nat,
            packet,
            direction,
            destination,
            trials,
        ) {
            Err(fault) => Err(fault),
            Ok(best) => match parent_request(
                snapshot,
                snapshot.data.rules[count - 1],
                packet,
                direction,
                destination,
            ) {
                Err(fault) => Err(fault),
                Ok(None) => Ok(best),
                Ok(Some(request)) => match trials[count - 1].cost() {
                    None => Ok(best),
                    Some(wire_bytes) => {
                        let candidate = Candidate { wire_bytes, request };
                        match best {
                            Some(held) => if ranks_before(candidate, held) {
                                Ok(Some(candidate))
                            } else {
                                Ok(Some(held))
                            },
                            None => Ok(Some(candidate)),
                        }
                    },
                },
            },
        }
    }
}

/// The change that a flow needs once a destination is allocated.
pub open spec fn planned_change(
    snapshot: SnapshotView,
    packet: PacketView,
    direction: FlowDirection,
    destination: RuleId,
    trials: Seq<FlowTrial>,
) -> Result<ChangeView, Fault> {
    match best_candidate(
        snapshot,
        snapshot.data.rules.len(),
        packet,
        direction,
        destination,
        trials,
    ) {
        Err(fault) => Err(fault),
        Ok(None) => Err(
            Fault::UnrepresentableFlow(
                "no application parent can represent the IPv6/UDP fields"@,
            ),
        ),
        Ok(Some(best)) => Ok(ChangeView::Duplicate(best.request.source, best.request)),
    }
}

proof fn lemma_candidate_error_stays(
    snapshot: SnapshotView,
    count: nat,
    more: nat,
    packet: PacketView,
    direction: FlowDirection,
    destination: RuleId,
    trials: Seq<FlowTrial>,
)
    requires
        count <= more,
        best_candidate(snapshot, count, packet, direction, destination, trials) is Err,
    ensures
        best_candidate(snapshot, more, packet, direction, destination, trials) == best_candidate(
            snapshot,
            count,
            packet,
            direction,
            destination,
            trials,
        ),
    decreases more,
{
    if count < more {
        lemma_candidate_error_stays(
            snapshot,
            count,
            (more - 1) as nat,
            packet,
            direction,
            destination,
            trials,
        );
    }
}

/// The candidate that a rule and its trial make.
pub open spec fn candidate_at(
    snapshot: SnapshotView,
    at: int,
    packet: PacketView,
    direction: FlowDirection,
    destination: RuleId,
    trials: Seq<FlowTrial>,
) -> Option<Candidate> {
    match parent_request(snapshot, snapshot.data.rules[at], packet, direction, destination) {
        Ok(Some(request)) => match trials[at].cost() {
            Some(wire_bytes) => Some(Candidate { wire_bytes, request }),
            None => None,
        },
        _ => None,
    }
}

/// No candidate ranks before the one that is chosen.
pub proof fn chosen_candidate_is_best(
    snapshot: SnapshotView,
    count: nat,
    packet: PacketView,
    direction: FlowDirection,
    destination: RuleId,
    trials: Seq<FlowTrial>,
)
    requires
        best_candidate(snapshot, count, packet, direction, destination, trials) is Ok,
    ensures
        match best_candidate(snapshot, count, packet, direction, destination, trials)->Ok_0 {
            Some(best) => {
                &&& exists|at: int|
                    0 <= at < count && #[trigger] candidate_at(
                        snapshot,
                        at,
                        packet,
                        direction,
                        destination,
                        trials,
                    ) == Some(best)
                &&& forall|at: int|
                    0 <= at < count ==> (#[trigger] candidate_at(
                        snapshot,
                        at,
                        packet,
                        direction,
                        destination,
                        trials,
                    ) matches Some(other) ==> !ranks_before(other, best))
            },
            None => forall|at: int|
                0 <= at < count ==> #[trigger] candidate_at(
                    snapshot,
                    at,
                    packet,
                    direction,
                    destination,
                    trials,
                ) is None,
        },
    decreases count,
{
    if count > 0 {
        chosen_candidate_is_best(
            snapshot,
            (count - 1) as nat,
            packet,
            direction,
            destination,
            trials,
        );
        let last = candidate_at(snapshot, count - 1, packet, direction, destination, trials);
        let before = best_candidate(
            snapshot,
            (count - 1) as nat,
            packet,
            direction,
            destination,
            trials,
        )->Ok_0;
        match before {
            Some(held) => {
                let at = choose|at: int|
                    0 <= at < count - 1 && #[trigger] candidate_at(
                        snapshot,
                        at,
                        packet,
                        direction,
                        destination,
                        trials,
                    ) == Some(held);
                assert(candidate_at(
                    snapshot,
                    at,
                    packet,
                    direction,
                    destination,
                    trials,
                ) == Some(held));
            },
            None => {},
        }
    }
}

struct Ranked {
    wire_bytes: usize,
    request: RuleDuplicateRequest,
}

impl View for Ranked {
    type V = Candidate;

    closed spec fn view(&self) -> Candidate {
        Candidate { wire_bytes: self.wire_bytes, request: self.request@ }
    }
}

fn comes_before(left: &Ranked, right: &Ranked) -> (result: bool)
    ensures
        result == ranks_before(left@, right@),
{
    let one: usize = left.request.overrides.len();
    let two: usize = right.request.overrides.len();
    let first = left.request.source;
    let second = right.request.source;
    assert(left@.request.overrides.len() == one);
    assert(right@.request.overrides.len() == two);
    if left.wire_bytes != right.wire_bytes {
        return left.wire_bytes < right.wire_bytes;
    }
    if one != two {
        return one < two;
    }
    if first.value != second.value {
        return first.value < second.value;
    }
    first.bits < second.bits
}

spec fn ranked_view(best: Option<Ranked>) -> Option<Candidate> {
    match best {
        Some(held) => Some(held@),
        None => None,
    }
}

fn choose_parent(
    snapshot: &ContextSnapshot,
    packet: &Ipv6UdpPacket,
    direction: FlowDirection,
    destination: RuleId,
    trials: &Vec<FlowTrial>,
) -> (result: Result<FlowChange, InspectionError>)
    requires
        trials@.len() == snapshot.data.rules@.len(),
    ensures
        ({
            let outcome = planned_change(snapshot@, packet@, direction, destination, trials@);
            match result {
                Ok(change) => outcome == Ok::<ChangeView, Fault>(change@),
                Err(error) => outcome == Err::<ChangeView, Fault>(error@),
            }
        }),
{
    let rules = &snapshot.data.rules;
    let ghost view = snapshot@;
    let mut best: Option<Ranked> = None;
    let mut index: usize = 0;
    while index < rules.len()
        invariant
            index <= rules@.len(),
            trials@.len() == rules@.len(),
            view == snapshot@,
            view.data.rules == rules_view(rules@),
            best_candidate(view, index as nat, packet@, direction, destination, trials@) == Ok::<
                Option<Candidate>,
                Fault,
            >(ranked_view(best)),
        decreases rules.len() - index,
    {
        let rule = &rules[index];
        proof {
            assert(view.data.rules[index as int] == rule@);
            if best_candidate(
                view,
                (index + 1) as nat,
                packet@,
                direction,
                destination,
                trials@,
            ) is Err {
                lemma_candidate_error_stays(
                    view,
                    (index + 1) as nat,
                    rules@.len(),
                    packet@,
                    direction,
                    destination,
                    trials@,
                );
            }
        }
        let planned = flow_request(snapshot, rule, packet, direction, destination)?;
        if let Some(request) = planned {
            if let Some(wire_bytes) = trials[index].accepted_cost() {
                let ranked = Ranked { wire_bytes, request };
                let better = match &best {
                    Some(held) => comes_before(&ranked, held),
                    None => true,
                };
                if better {
                    best = Some(ranked);
                }
            }
        }
        index += 1;
    }
    match best {
        None => Err(
            InspectionError::UnrepresentableFlow(
                "no application parent can represent the IPv6/UDP fields".to_owned(),
            ),
        ),
        Some(ranked) => Ok(
            FlowChange::Duplicate { parent: ranked.request.source, request: ranked.request },
        ),
    }
}

/// The allocation error or identity of a result.
pub open spec fn allocated_fault(result: Result<RuleId, RuleIdTreeError>) -> Result<RuleId, Fault> {
    match result {
        Ok(id) => Ok(id),
        Err(error) => Err(Fault::RuleIdTree(error.described())),
    }
}

/// Allocates the destination of a new flow rule beside the active rules.
pub fn flow_destination(snapshot: &ContextSnapshot) -> (result: Result<RuleId, InspectionError>)
    ensures
        match snapshot.dynamic_rule_ids {
            None => result matches Err(error) && error@ == Fault::MissingDynamicRuleIdNamespace,
            Some(namespace) => exists|allocated: Result<RuleId, RuleIdTreeError>|
                {
                    &&& #[trigger] namespace.allocates(rule_ids(snapshot@.data.rules), allocated)
                    &&& match result {
                        Ok(id) => allocated_fault(allocated) == Ok::<RuleId, Fault>(id),
                        Err(error) => allocated_fault(allocated) == Err::<RuleId, Fault>(error@),
                    }
                },
        },
{
    match &snapshot.dynamic_rule_ids {
        None => Err(InspectionError::MissingDynamicRuleIdNamespace),
        Some(namespace) => {
            let occupied = rule_id_list(&snapshot.data.rules);
            let allocated = namespace.allocate(occupied.as_slice());
            assert(namespace.allocates(rule_ids(snapshot@.data.rules), allocated));
            match allocated {
                Ok(id) => Ok(id),
                Err(error) => Err(InspectionError::RuleIdTree(error)),
            }
        },
    }
}

/// The change that a flow needs, given what allocation gives.
pub open spec fn flow_outcome(
    snapshot: SnapshotView,
    packet: PacketView,
    direction: FlowDirection,
    encoded: Option<RuleId>,
    allocated: Result<RuleId, Fault>,
    trials: Seq<FlowTrial>,
) -> Result<ChangeView, Fault> {
    match existing_match(snapshot, snapshot.data.rules.len(), packet, direction, encoded) {
        Err(fault) => Err(fault),
        Ok(Some(rule)) => Ok(ChangeView::AlreadyMatches(rule)),
        Ok(None) => match allocated {
            Err(fault) => Err(fault),
            Ok(destination) => planned_change(snapshot, packet, direction, destination, trials),
        },
    }
}

/// The change or error of a result.
pub open spec fn change_result(result: Result<FlowChange, InspectionError>) -> Result<
    ChangeView,
    Fault,
> {
    match result {
        Ok(change) => Ok(change@),
        Err(error) => Err(error@),
    }
}

/// Plans the smallest duplicate operation for one logical flow.
///
/// `encoded` is the rule that the active context encodes the packet with, when
/// it does. `trials` tells of each rule how its request fared, as far as it is
/// a parent of the flow; `flow_destination` and `flow_request` give the
/// requests to try.
pub fn flow_change(
    snapshot: &ContextSnapshot,
    packet: &Ipv6UdpPacket,
    direction: FlowDirection,
    encoded: Option<RuleId>,
    trials: &Vec<FlowTrial>,
) -> (result: Result<FlowChange, InspectionError>)
    requires
        trials@.len() == snapshot.data.rules@.len(),
    ensures
        match snapshot.dynamic_rule_ids {
            None => change_result(result) == Err::<ChangeView, Fault>(
                Fault::MissingDynamicRuleIdNamespace,
            ),
            Some(namespace) => exists|allocated: Result<RuleId, RuleIdTreeError>|
                {
                    &&& #[trigger] namespace.allocates(rule_ids(snapshot@.data.rules), allocated)
                    &&& change_result(result) == flow_outcome(
                        snapshot@,
                        packet@,
                        direction,
                        encoded,
                        allocated_fault(allocated),
                        trials@,
                    )
                },
        },
{
    let namespace = match &snapshot.dynamic_rule_ids {
        None => {
            return Err(InspectionError::MissingDynamicRuleIdNamespace);
        },
        Some(namespace) => namespace,
    };
    let occupied = rule_id_list(&snapshot.data.rules);
    let allocated = namespace.allocate(occupied.as_slice());
    assert(namespace.allocates(rule_ids(snapshot@.data.rules), allocated));
    let found = existing_application_match(snapshot, packet, direction, encoded)?;
    if let Some(rule) = found {
        return Ok(FlowChange::AlreadyMatches { rule });
    }
    let destination = match allocated {
        Ok(id) => id,
        Err(error) => {
            return Err(InspectionError::RuleIdTree(error));
        },
    };
    choose_parent(snapshot, packet, direction, destination, trials)
}

/// A candidate ranks before another by the shorter request on the link, then
/// by fewer changed entries, then by the smaller source identity; of two
/// different ranks exactly one comes first.
pub proof fn shorter_requests_rank_first(left: Candidate, right: Candidate)
    ensures
        left.wire_bytes < right.wire_bytes ==> ranks_before(left, right) && !ranks_before(
            right,
            left,
        ),
        left.wire_bytes == right.wire_bytes && left.request.overrides.len()
            < right.request.overrides.len() ==> ranks_before(left, right) && !ranks_before(
            right,
            left,
        ),
        left.wire_bytes == right.wire_bytes && left.request.overrides.len()
            == right.request.overrides.len() && left.request.source.value
            < right.request.source.value ==> ranks_before(left, right) && !ranks_before(
            right,
            left,
        ),
        left.wire_bytes == right.wire_bytes && left.request.overrides.len()
            == right.request.overrides.len() && left.request.source.value
            == right.request.source.value && left.request.source.bits < right.request.source.bits
            ==> ranks_before(left, right) && !ranks_before(right, left),
        !ranks_before(left, left),
{
}

/// A parent of a flow is an application compression rule: it is not protected,
/// carries a payload and compares the whole flow. Its request duplicates it
/// under the allocated identity with exactly the planned overrides, of which
/// there is at least one.
pub proof fn parent_request_duplicates_an_application_rule(
    snapshot: SnapshotView,
    rule: RuleView,
    packet: PacketView,
    direction: FlowDirection,
    destination: RuleId,
)
    requires
        parent_request(snapshot, rule, packet, direction, destination) matches Ok(Some(_)),
    ensures
        ({
            let request = parent_request(
                snapshot,
                rule,
                packet,
                direction,
                destination,
            )->Ok_0->0;
            &&& rule.nature == RuleNature::Compression
            &&& !protects(snapshot.data.protected, rule.id)
            &&& describes_payload(rule.fields)
            &&& complete_flow(rule.fields)
            &&& request.source.value == rule.id.value
            &&& request.source.bits == rule.id.bit_len
            &&& request.destination.value == destination.value
            &&& request.destination.bits == destination.bit_len
            &&& planned_overrides(rule.fields, packet, direction) == Some(request.overrides)
            &&& request.overrides.len() > 0
        }),
{
}

/// A trial counts only where every step of it succeeded, and then with the
/// length of its request on the link.
pub proof fn trial_counts_when_every_step_succeeded(trial: FlowTrial)
    ensures
        trial.payload && trial.operation && trial.tree && trial.prepared && trial.encoded
            ==> trial.cost() == trial.wire_bytes,
        trial.cost() is Some ==> trial.payload && trial.operation && trial.tree && trial.prepared
            && trial.encoded,
{
}

proof fn lemma_existing_match(
    snapshot: SnapshotView,
    count: nat,
    packet: PacketView,
    direction: FlowDirection,
    encoded: Option<RuleId>,
)
    ensures
        existing_match(snapshot, count, packet, direction, encoded) matches Ok(Some(selector))
            ==> exists|i: int|
            #![trigger snapshot.data.rules[i]]
            0 <= i < count && describes_packet(snapshot, snapshot.data.rules[i], packet, direction)
                && snapshot.data.rules[i].id.value == selector.value
                && snapshot.data.rules[i].id.bit_len == selector.bits && encoded == Some(
                snapshot.data.rules[i].id,
            ),
    decreases count,
{
    if count > 0 {
        lemma_existing_match(snapshot, (count - 1) as nat, packet, direction, encoded);
        let rule = snapshot.data.rules[count - 1];
        assert(rule.id == RuleId { value: rule.id.value, bit_len: rule.id.bit_len });
    }
}

/// A flow is said to match already only where the context holds a rule that
/// needs no change for the packet, which is the rule that the context encodes
/// the packet with; otherwise the planned operation duplicates the parent that
/// is told, under the allocated identity.
pub proof fn planned_change_is_needed_and_complete(
    snapshot: SnapshotView,
    packet: PacketView,
    direction: FlowDirection,
    encoded: Option<RuleId>,
    allocated: Result<RuleId, Fault>,
    trials: Seq<FlowTrial>,
)
    ensures
        match flow_outcome(snapshot, packet, direction, encoded, allocated, trials) {
            Ok(ChangeView::AlreadyMatches(selector)) => exists|i: int|
                #![trigger snapshot.data.rules[i]]
                0 <= i < snapshot.data.rules.len() && {
                    let rule = snapshot.data.rules[i];
                    &&& rule.id.value == selector.value
                    &&& rule.id.bit_len == selector.bits
                    &&& encoded == Some(rule.id)
                    &&& rule.nature == RuleNature::Compression
                    &&& !protects(snapshot.data.protected, rule.id)
                    &&& planned_overrides(rule.fields, packet, direction) matches Some(list)
                        && list.len() == 0
                },
            Ok(ChangeView::Duplicate(parent, request)) => {
                &&& allocated is Ok
                &&& parent == request.source
                &&& request.destination.value == allocated->Ok_0.value
                &&& request.destination.bits == allocated->Ok_0.bit_len
                &&& request.overrides.len() > 0
            },
            Err(_) => true,
        },
{
    let count = snapshot.data.rules.len();
    lemma_existing_match(snapshot, count, packet, direction, encoded);
    match flow_outcome(snapshot, packet, direction, encoded, allocated, trials) {
        Ok(ChangeView::Duplicate(_, request)) => {
            let destination = allocated->Ok_0;
            chosen_candidate_is_best(snapshot, count, packet, direction, destination, trials);
            let best = best_candidate(
                snapshot,
                count,
                packet,
                direction,
                destination,
                trials,
            )->Ok_0->0;
            let at = choose|at: int|
                0 <= at < count && #[trigger] candidate_at(
                    snapshot,
                    at,
                    packet,
                    direction,
                    destination,
                    trials,
                ) == Some(best);
            parent_request_duplicates_an_application_rule(
                snapshot,
                snapshot.data.rules[at],
                packet,
                direction,
                destination,
            );
        },
        _ => {},
    }
}

/// An allocated identity is kept, and an error of the tree is told as such.
pub proof fn allocation_is_handed_on(result: Result<RuleId, RuleIdTreeError>)
    ensures
        result matches Ok(id) ==> allocated_fault(result) == Ok::<RuleId, Fault>(id),
        result matches Err(error) ==> allocated_fault(result) == Err::<RuleId, Fault>(
            Fault::RuleIdTree(error.described()),
        ),
{
}

} // verus!
