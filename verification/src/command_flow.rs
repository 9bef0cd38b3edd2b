//! The order of the commands that change both sides: the local context follows
//! only once the device accepted an update, or a duplicate operation left for
//! it.

use vstd::prelude::*;

use crate::codec::ContextTag;
use crate::command_outcome::{
    applied_view, change_outcome, check_device_verdict, check_duplicate_sent, code_view,
    copy_report, copy_route, device_verdict, entry_label, finish_duplicate, finish_update,
    lines_view, not_sent, plan_duplicate, plan_update, precondition,
};
use crate::context::{ContextSnapshot, SnapshotView};
use crate::duplicate_command::{DuplicateView, RuleDuplicateRequest};
use crate::duplicate_payload::OverrideAnswers;
use crate::duplicate_service::rule_datagram_outcome;
use crate::error::Fault;
use crate::exchange::allocated_id;
use crate::json::{Json, JsonValue};
use crate::request::payload_view;
use crate::rule::copy_bytes;
use crate::selector::RuleSelector;
use crate::sid::{ModelView, SidModel};
use crate::target::{accepted_view, ipatch_outcome, ResolvedRuleUpdate, ResolvedView};

verus! {

/// An update whose datagram is built.
#[derive(Debug)]
pub struct PlannedUpdate {
    /// Rule that it changes.
    pub rule: RuleSelector,
    /// Entry that it changes.
    pub entry_index: usize,
    /// Datagram for the device and, afterwards, for the local side.
    pub datagram: Vec<u8>,
    /// Generation of the context that it was resolved on.
    pub generation: u64,
}

/// A planned update as a mathematical value.
pub struct PlannedView {
    /// Rule that it changes.
    pub rule: RuleSelector,
    /// Entry that it changes.
    pub entry_index: usize,
    /// Datagram for both sides.
    pub datagram: Seq<u8>,
    /// Generation that it was resolved on.
    pub generation: u64,
}

impl View for PlannedUpdate {
    type V = PlannedView;

    open spec fn view(&self) -> PlannedView {
        PlannedView {
            rule: self.rule,
            entry_index: self.entry_index,
            datagram: self.datagram@,
            generation: self.generation,
        }
    }
}

/// How far an update came.
#[derive(Debug)]
pub enum UpdateStage {
    /// The device is asked.
    AtDevice(PlannedUpdate),
    /// The device accepted, and the local side is asked.
    AtLocal(PlannedUpdate),
    /// The command is over.
    Ended,
}

/// A stage as a mathematical value.
pub enum StageView {
    /// The device is asked.
    AtDevice(PlannedView),
    /// The local side is asked.
    AtLocal(PlannedView),
    /// The command is over.
    Ended,
}

impl View for UpdateStage {
    type V = StageView;

    open spec fn view(&self) -> StageView {
        match self {
            UpdateStage::AtDevice(planned) => StageView::AtDevice(planned@),
            UpdateStage::AtLocal(planned) => StageView::AtLocal(planned@),
            UpdateStage::Ended => StageView::Ended,
        }
    }
}

/// What happened since the last action of an update.
#[derive(Debug)]
pub enum UpdateEvent<'a> {
    /// The exchange with the device ended, with the code of its response.
    Device(Result<u8, String>),
    /// The local side answered; the context is the active one after that.
    Local(Result<Vec<u8>, String>, &'a ContextSnapshot),
}

/// An event as a mathematical value.
pub enum EventView {
    /// The exchange with the device ended.
    Device(Result<u8, Seq<char>>),
    /// The local side answered.
    Local(Result<Seq<u8>, Seq<char>>, SnapshotView),
}

impl<'a> View for UpdateEvent<'a> {
    type V = EventView;

    open spec fn view(&self) -> EventView {
        match self {
            UpdateEvent::Device(sent) => EventView::Device(code_view(*sent)),
            UpdateEvent::Local(applied, after) => EventView::Local(payload_view(*applied), after@),
        }
    }
}

/// What a command asks for next.
#[derive(Debug)]
pub enum CommandAction {
    /// Send this datagram to the device.
    Send(Vec<u8>),
    /// Apply this datagram to the local context.
    Apply(Vec<u8>),
    /// Report these lines, or this failure.
    Report(Result<Vec<String>, String>),
}

/// An action as a mathematical value.
pub enum ActionView {
    /// Send a datagram to the device.
    Send(Seq<u8>),
    /// Apply a datagram to the local context.
    Apply(Seq<u8>),
    /// Report lines, or a failure.
    Report(Result<Seq<Seq<char>>, Seq<char>>),
}

impl View for CommandAction {
    type V = ActionView;

    open spec fn view(&self) -> ActionView {
        match self {
            CommandAction::Send(datagram) => ActionView::Send(datagram@),
            CommandAction::Apply(datagram) => ActionView::Apply(datagram@),
            CommandAction::Report(result) => ActionView::Report(lines_view(*result)),
        }
    }
}

/// An update that was resolved, or the text that rejects it.
pub open spec fn resolution_view(resolved: Result<ResolvedRuleUpdate, String>) -> Result<
    ResolvedView,
    Seq<char>,
> {
    match resolved {
        Ok(update) => Ok(update@),
        Err(text) => Err(text@),
    }
}

/// How an update begins: a rejected one is reported at once, and any other is
/// sent to the device.
pub open spec fn begun(
    resolved: Result<ResolvedView, Seq<char>>,
    snapshot: SnapshotView,
    message_id: u16,
    path: Json,
    stage: StageView,
    action: ActionView,
) -> bool {
    match resolved {
        Err(text) => stage is Ended && action == ActionView::Report(Err(text)),
        Ok(update) => exists|outcome: Result<Seq<u8>, Fault>|
            {
                &&& #[trigger] ipatch_outcome(
                    update,
                    message_id,
                    precondition(update, snapshot),
                    path,
                    outcome,
                )
                &&& match outcome {
                    Ok(datagram) => {
                        &&& stage == StageView::AtDevice(
                            PlannedView {
                                rule: update.request.rule,
                                entry_index: update.entry_index,
                                datagram,
                                generation: snapshot.generation,
                            },
                        )
                        &&& action == ActionView::Send(datagram)
                    },
                    Err(fault) => {
                        &&& stage is Ended
                        &&& action == ActionView::Report(
                            Err(
                                "rule update "@ + entry_label(
                                    update.request.rule,
                                    update.entry_index,
                                ) + " rejected: "@ + fault.described() + not_sent(),
                            ),
                        )
                    },
                }
            },
    }
}

/// Begins an update. `resolved` is what `resolve_change` gave on the snapshot,
/// and `path` is the path of the resolved update as the model writes it. A
/// rejected update takes no message ID.
pub fn begin_update(
    resolved: &Result<ResolvedRuleUpdate, String>,
    snapshot: &ContextSnapshot,
    next_message_id: &mut u16,
    path: &JsonValue,
) -> (result: (UpdateStage, CommandAction))
    ensures
        begun(
            resolution_view(*resolved),
            snapshot@,
            allocated_id(*old(next_message_id)),
            path@,
            result.0@,
            result.1@,
        ),
        *final(next_message_id) == (if resolved is Ok {
            ((allocated_id(*old(next_message_id)) + 1) % 128) as u16
        } else {
            *old(next_message_id)
        }),
{
    let update = match resolved {
        Ok(update) => update,
        Err(text) => {
            return (UpdateStage::Ended, CommandAction::Report(Err(text.clone())));
        },
    };
    match plan_update(update, snapshot, next_message_id, path) {
        Ok(datagram) => {
            let copy = copy_bytes(datagram.as_slice());
            let planned = PlannedUpdate {
                rule: update.request.rule,
                entry_index: update.entry_index,
                datagram,
                generation: snapshot.generation,
            };
            (UpdateStage::AtDevice(planned), CommandAction::Send(copy))
        },
        Err(text) => (UpdateStage::Ended, CommandAction::Report(Err(text))),
    }
}

/// The report on an event that the stage does not expect.
pub open spec fn out_of_order() -> ActionView {
    ActionView::Report(Err("rule update is out of order"@))
}

/// How an update goes on after an event.
pub open spec fn stepped(
    stage: StageView,
    event: EventView,
    debug: bool,
    next: StageView,
    action: ActionView,
) -> bool {
    match (stage, event) {
        (StageView::AtDevice(planned), EventView::Device(sent)) => match device_verdict(
            planned.rule,
            planned.entry_index,
            sent,
        ) {
            Ok(_) => next == StageView::AtLocal(planned) && action == ActionView::Apply(
                planned.datagram,
            ),
            Err(text) => next is Ended && action == ActionView::Report(Err(text)),
        },
        (StageView::AtLocal(planned), EventView::Local(applied, after)) => {
            &&& next is Ended
            &&& action matches ActionView::Report(outcome) && change_outcome(
                planned.rule,
                planned.entry_index,
                planned.datagram,
                applied,
                planned.generation,
                after,
                debug,
                outcome,
            )
        },
        _ => next is Ended && action == out_of_order(),
    }
}

/// Decides how an update goes on after an event.
pub fn update_step(stage: UpdateStage, event: UpdateEvent<'_>, debug: bool) -> (result: (
    UpdateStage,
    CommandAction,
))
    ensures
        stepped(stage@, event@, debug, result.0@, result.1@),
{
    match (stage, event) {
        (UpdateStage::AtDevice(planned), UpdateEvent::Device(sent)) => {
            match check_device_verdict(planned.rule, planned.entry_index, &sent) {
                Ok(()) => {
                    let datagram = copy_bytes(planned.datagram.as_slice());
                    (UpdateStage::AtLocal(planned), CommandAction::Apply(datagram))
                },
                Err(text) => (UpdateStage::Ended, CommandAction::Report(Err(text))),
            }
        },
        (UpdateStage::AtLocal(planned), UpdateEvent::Local(applied, after)) => {
            let result = finish_update(
                planned.rule,
                planned.entry_index,
                planned.datagram.as_slice(),
                &applied,
                planned.generation,
                after,
                debug,
            );
            (UpdateStage::Ended, CommandAction::Report(result))
        },
        _ => (
            UpdateStage::Ended,
            CommandAction::Report(Err("rule update is out of order".to_owned())),
        ),
    }
}

/// Whether stages and actions are those of one update with these events.
pub open spec fn is_update(
    resolved: Result<ResolvedView, Seq<char>>,
    snapshot: SnapshotView,
    message_id: u16,
    path: Json,
    debug: bool,
    stages: Seq<StageView>,
    events: Seq<EventView>,
    actions: Seq<ActionView>,
) -> bool {
    &&& stages.len() == events.len() + 1
    &&& actions.len() == events.len() + 1
    &&& begun(resolved, snapshot, message_id, path, stages[0], actions[0])
    &&& forall|i: int|
        #![trigger events[i]]
        0 <= i < events.len() ==> stepped(
            stages[i],
            events[i],
            debug,
            stages[i + 1],
            actions[i + 1],
        )
}

proof fn lemma_late_stages_are_over(
    resolved: Result<ResolvedView, Seq<char>>,
    snapshot: SnapshotView,
    message_id: u16,
    path: Json,
    debug: bool,
    stages: Seq<StageView>,
    events: Seq<EventView>,
    actions: Seq<ActionView>,
    at: int,
)
    requires
        is_update(resolved, snapshot, message_id, path, debug, stages, events, actions),
        2 <= at < actions.len(),
    ensures
        stages[at] is Ended,
        actions[at] is Report,
    decreases at,
{
    assert(stepped(stages[0], events[0], debug, stages[1], actions[1]));
    assert(stepped(stages[at - 1], events[at - 1], debug, stages[at], actions[at]));
    if at > 2 {
        lemma_late_stages_are_over(
            resolved,
            snapshot,
            message_id,
            path,
            debug,
            stages,
            events,
            actions,
            at - 1,
        );
    }
}

/// An update asks the device before anything else and at most once. The local
/// context is changed at most once, with the datagram that the device was sent,
/// and only after the device answered `2.04`. An update that was rejected
/// reaches neither side.
pub proof fn device_accepts_before_the_local_change(
    resolved: Result<ResolvedView, Seq<char>>,
    snapshot: SnapshotView,
    message_id: u16,
    path: Json,
    debug: bool,
    stages: Seq<StageView>,
    events: Seq<EventView>,
    actions: Seq<ActionView>,
    at: int,
)
    requires
        is_update(resolved, snapshot, message_id, path, debug, stages, events, actions),
        0 <= at < actions.len(),
    ensures
        actions[at] is Send ==> at == 0 && resolved is Ok,
        actions[at] matches ActionView::Apply(datagram) ==> at == 1 && resolved is Ok && actions[0]
            == ActionView::Send(datagram) && events[0] == EventView::Device(Ok(68u8)),
{
    if at >= 2 {
        lemma_late_stages_are_over(
            resolved,
            snapshot,
            message_id,
            path,
            debug,
            stages,
            events,
            actions,
            at,
        );
    } else if at == 1 {
        assert(stepped(stages[0], events[0], debug, stages[1], actions[1]));
    }
}

/// How far a duplicate operation came.
#[derive(Debug)]
pub enum DuplicateStage {
    /// The operation is sent.
    Sending(RuleDuplicateRequest, Vec<u8>),
    /// The operation left, and the local side is asked; the generation is that
    /// of the context before.
    AtLocal(RuleDuplicateRequest, u64),
    /// The command is over.
    Ended,
}

/// A stage as a mathematical value.
pub enum DuplicateStageView {
    /// The operation is sent.
    Sending(DuplicateView, Seq<u8>),
    /// The local side is asked.
    AtLocal(DuplicateView, u64),
    /// The command is over.
    Ended,
}

impl View for DuplicateStage {
    type V = DuplicateStageView;

    open spec fn view(&self) -> DuplicateStageView {
        match self {
            DuplicateStage::Sending(request, datagram) => DuplicateStageView::Sending(
                request@,
                datagram@,
            ),
            DuplicateStage::AtLocal(request, before) => DuplicateStageView::AtLocal(
                request@,
                *before,
            ),
            DuplicateStage::Ended => DuplicateStageView::Ended,
        }
    }
}

impl DuplicateStageView {
    /// Whether the context can still advance.
    pub open spec fn well_formed(self) -> bool {
        self matches DuplicateStageView::AtLocal(_, before) ==> before < u64::MAX
    }
}

/// What happened since the last action of a duplicate operation.
#[derive(Debug)]
pub enum DuplicateEvent {
    /// The operation was sent or not; the generation is that of the context
    /// now.
    Sent(Result<(), String>, u64),
    /// The local side handled the operation, with the response that it gave,
    /// and the generation and tag of the context after that.
    Local(Result<Option<Vec<u8>>, String>, u64, ContextTag),
}

/// An event as a mathematical value.
pub enum DuplicateEventView {
    /// The operation was sent or not.
    Sent(Result<(), Seq<char>>, u64),
    /// The local side handled the operation.
    Local(Result<bool, Seq<char>>, u64, Seq<u8>),
}

impl View for DuplicateEvent {
    type V = DuplicateEventView;

    open spec fn view(&self) -> DuplicateEventView {
        match self {
            DuplicateEvent::Sent(sent, generation) => DuplicateEventView::Sent(
                accepted_view(*sent),
                *generation,
            ),
            DuplicateEvent::Local(applied, generation, tag) => DuplicateEventView::Local(
                applied_view(*applied),
                *generation,
                tag@,
            ),
        }
    }
}

/// How a duplicate operation begins: a rejected one is reported at once, and
/// any other is sent.
pub open spec fn duplicate_begun(
    model: ModelView,
    snapshot: SnapshotView,
    request: DuplicateView,
    message_id: u16,
    answers: Seq<OverrideAnswers>,
    stage: DuplicateStageView,
    action: ActionView,
) -> bool {
    exists|outcome: Result<Seq<u8>, Fault>|
        {
            &&& #[trigger] rule_datagram_outcome(
                model,
                snapshot,
                request,
                message_id,
                answers,
                outcome,
            )
            &&& match outcome {
                Ok(datagram) => stage == DuplicateStageView::Sending(request, datagram) && action
                    == ActionView::Send(datagram),
                Err(fault) => stage is Ended && action == ActionView::Report(
                    Err(
                        "duplicate "@ + copy_route(request) + " rejected: "@ + fault.described()
                            + not_sent(),
                    ),
                ),
            }
        }
}

/// Begins a duplicate operation.
pub fn begin_duplicate(
    model: &SidModel,
    snapshot: &ContextSnapshot,
    request: RuleDuplicateRequest,
    next_message_id: &mut u16,
    answers: &Vec<OverrideAnswers>,
) -> (result: (DuplicateStage, CommandAction))
    requires
        answers@.len() == request.overrides@.len(),
    ensures
        duplicate_begun(
            model@,
            snapshot@,
            request@,
            allocated_id(*old(next_message_id)),
            answers@,
            result.0@,
            result.1@,
        ),
        *final(next_message_id) == (allocated_id(*old(next_message_id)) + 1) % 128,
        result.0@.well_formed(),
{
    match plan_duplicate(model, snapshot, &request, next_message_id, answers) {
        Ok(datagram) => {
            let copy = copy_bytes(datagram.as_slice());
            (DuplicateStage::Sending(request, datagram), CommandAction::Send(copy))
        },
        Err(text) => (DuplicateStage::Ended, CommandAction::Report(Err(text))),
    }
}

/// How a duplicate operation goes on after an event.
pub open spec fn duplicate_stepped(
    stage: DuplicateStageView,
    event: DuplicateEventView,
    debug: bool,
    next: DuplicateStageView,
    action: ActionView,
) -> bool {
    match (stage, event) {
        (
            DuplicateStageView::Sending(request, datagram),
            DuplicateEventView::Sent(sent, generation),
        ) => match sent {
            Ok(_) => next == DuplicateStageView::AtLocal(request, generation) && action
                == ActionView::Apply(datagram),
            Err(text) => next is Ended && action == ActionView::Report(
                Err(
                    "duplicate "@ + copy_route(request) + "  remote=not-sent  local=unchanged: "@
                        + text,
                ),
            ),
        },
        (
            DuplicateStageView::AtLocal(request, before),
            DuplicateEventView::Local(applied, after, tag),
        ) => next is Ended && action == ActionView::Report(
            copy_report(request, applied, before, after, tag, debug),
        ),
        _ => next is Ended && action == ActionView::Report(Err("duplicate is out of order"@)),
    }
}

/// Decides how a duplicate operation goes on after an event.
pub fn duplicate_step(stage: DuplicateStage, event: DuplicateEvent, debug: bool) -> (result: (
    DuplicateStage,
    CommandAction,
))
    requires
        stage@.well_formed(),
        event matches DuplicateEvent::Sent(_, generation) ==> generation < u64::MAX,
    ensures
        duplicate_stepped(stage@, event@, debug, result.0@, result.1@),
        result.0@.well_formed(),
{
    match (stage, event) {
        (DuplicateStage::Sending(request, datagram), DuplicateEvent::Sent(sent, generation)) => {
            match check_duplicate_sent(&request, &sent) {
                Ok(()) => (
                    DuplicateStage::AtLocal(request, generation),
                    CommandAction::Apply(datagram),
                ),
                Err(text) => (DuplicateStage::Ended, CommandAction::Report(Err(text))),
            }
        },
        (DuplicateStage::AtLocal(request, before), DuplicateEvent::Local(applied, after, tag)) => {
            let result = finish_duplicate(&request, &applied, before, after, tag, debug);
            (DuplicateStage::Ended, CommandAction::Report(result))
        },
        _ => (
            DuplicateStage::Ended,
            CommandAction::Report(Err("duplicate is out of order".to_owned())),
        ),
    }
}

/// Whether stages and actions are those of one duplicate operation with these
/// events.
pub open spec fn is_duplicate(
    model: ModelView,
    snapshot: SnapshotView,
    request: DuplicateView,
    message_id: u16,
    answers: Seq<OverrideAnswers>,
    debug: bool,
    stages: Seq<DuplicateStageView>,
    events: Seq<DuplicateEventView>,
    actions: Seq<ActionView>,
) -> bool {
    &&& stages.len() == events.len() + 1
    &&& actions.len() == events.len() + 1
    &&& duplicate_begun(model, snapshot, request, message_id, answers, stages[0], actions[0])
    &&& forall|i: int|
        #![trigger events[i]]
        0 <= i < events.len() ==> duplicate_stepped(
            stages[i],
            events[i],
            debug,
            stages[i + 1],
            actions[i + 1],
        )
}

proof fn lemma_late_copies_are_over(
    model: ModelView,
    snapshot: SnapshotView,
    request: DuplicateView,
    message_id: u16,
    answers: Seq<OverrideAnswers>,
    debug: bool,
    stages: Seq<DuplicateStageView>,
    events: Seq<DuplicateEventView>,
    actions: Seq<ActionView>,
    at: int,
)
    requires
        is_duplicate(
            model,
            snapshot,
            request,
            message_id,
            answers,
            debug,
            stages,
            events,
            actions,
        ),
        2 <= at < actions.len(),
    ensures
        stages[at] is Ended,
        actions[at] is Report,
    decreases at,
{
    assert(duplicate_stepped(stages[0], events[0], debug, stages[1], actions[1]));
    assert(duplicate_stepped(stages[at - 1], events[at - 1], debug, stages[at], actions[at]));
    if at > 2 {
        lemma_late_copies_are_over(
            model,
            snapshot,
            request,
            message_id,
            answers,
            debug,
            stages,
            events,
            actions,
            at - 1,
        );
    }
}

/// A duplicate operation is sent before anything else and at most once. The
/// local context is changed at most once, with the datagram that was sent, and
/// only after it left.
pub proof fn duplicate_is_sent_before_the_local_change(
    model: ModelView,
    snapshot: SnapshotView,
    request: DuplicateView,
    message_id: u16,
    answers: Seq<OverrideAnswers>,
    debug: bool,
    stages: Seq<DuplicateStageView>,
    events: Seq<DuplicateEventView>,
    actions: Seq<ActionView>,
    at: int,
)
    requires
        is_duplicate(
            model,
            snapshot,
            request,
            message_id,
            answers,
            debug,
            stages,
            events,
            actions,
        ),
        0 <= at < actions.len(),
    ensures
        actions[at] is Send ==> at == 0,
        actions[at] matches ActionView::Apply(datagram) ==> at == 1 && actions[0]
            == ActionView::Send(datagram) && (events[0] matches DuplicateEventView::Sent(sent, _)
            && sent is Ok),
{
    if at >= 2 {
        lemma_late_copies_are_over(
            model,
            snapshot,
            request,
            message_id,
            answers,
            debug,
            stages,
            events,
            actions,
            at,
        );
    } else if at == 1 {
        assert(duplicate_stepped(stages[0], events[0], debug, stages[1], actions[1]));
    }
}

/// An update that begins at the device sends the datagram that it will apply,
/// and remembers the rule and the entry of its request and the generation that
/// it starts from; an update that does not begin is reported as refused.
pub proof fn update_begins_at_the_device(
    resolved: Result<ResolvedView, Seq<char>>,
    snapshot: SnapshotView,
    message_id: u16,
    path: Json,
    stage: StageView,
    action: ActionView,
)
    requires
        begun(resolved, snapshot, message_id, path, stage, action),
    ensures
        stage is AtDevice || stage is Ended,
        stage is AtDevice <==> action is Send,
        stage is Ended ==> action is Report && action->Report_0 is Err,
        resolved is Err ==> stage is Ended && action->Report_0->Err_0 == resolved->Err_0,
        stage is AtDevice ==> resolved is Ok && action->Send_0 == stage->AtDevice_0.datagram
            && stage->AtDevice_0.rule == resolved->Ok_0.request.rule
            && stage->AtDevice_0.entry_index == resolved->Ok_0.entry_index
            && stage->AtDevice_0.generation == snapshot.generation && ipatch_outcome(
            resolved->Ok_0,
            message_id,
            if resolved->Ok_0.request.if_match {
                Some(snapshot.data.tag)
            } else {
                None
            },
            path,
            Ok(stage->AtDevice_0.datagram),
        ),
{
}

/// An update goes on to the local context, with the same datagram, exactly when
/// the device answered with code 68; any other answer of the device ends it
/// with a refusal. What the local context answers ends it with a report, and
/// an answer that was not asked for ends it with a refusal.
pub proof fn update_steps_in_order(
    stage: StageView,
    event: EventView,
    debug: bool,
    next: StageView,
    action: ActionView,
)
    requires
        stepped(stage, event, debug, next, action),
    ensures
        next is AtLocal <==> stage is AtDevice && event == EventView::Device(Ok(68)),
        next is AtLocal ==> next->AtLocal_0 == stage->AtDevice_0 && action == ActionView::Apply(
            stage->AtDevice_0.datagram,
        ),
        !(next is AtLocal) ==> next is Ended && action is Report,
        stage is AtDevice && next is Ended ==> action->Report_0 is Err,
        stage is AtLocal && event is Local ==> change_outcome(
            stage->AtLocal_0.rule,
            stage->AtLocal_0.entry_index,
            stage->AtLocal_0.datagram,
            event->Local_0,
            stage->AtLocal_0.generation,
            event->Local_1,
            debug,
            action->Report_0,
        ),
        stage is AtLocal && !(event is Local) ==> action->Report_0 is Err,
        stage is Ended ==> action->Report_0 is Err,
{
}

/// A duplicate operation that begins sends its datagram and remembers its
/// request; one that does not begin is reported as refused.
pub proof fn duplicate_begins_with_its_datagram(
    model: ModelView,
    snapshot: SnapshotView,
    request: DuplicateView,
    message_id: u16,
    answers: Seq<OverrideAnswers>,
    stage: DuplicateStageView,
    action: ActionView,
)
    requires
        duplicate_begun(model, snapshot, request, message_id, answers, stage, action),
    ensures
        stage is Sending || stage is Ended,
        stage is Sending <==> action is Send,
        stage is Sending ==> stage->Sending_0 == request && action->Send_0 == stage->Sending_1
            && rule_datagram_outcome(
            model,
            snapshot,
            request,
            message_id,
            answers,
            Ok(stage->Sending_1),
        ),
        stage is Ended ==> action is Report && action->Report_0 is Err,
{
}

/// A duplicate operation goes on to the local context, with the same datagram
/// and request, exactly when it was sent. What the local context answers is
/// reported over the generation that was remembered.
pub proof fn duplicate_steps_in_order(
    stage: DuplicateStageView,
    event: DuplicateEventView,
    debug: bool,
    next: DuplicateStageView,
    action: ActionView,
)
    requires
        duplicate_stepped(stage, event, debug, next, action),
    ensures
        next is AtLocal <==> stage is Sending && event is Sent && event->Sent_0 is Ok,
        next is AtLocal ==> next->AtLocal_0 == stage->Sending_0 && next->AtLocal_1 == event->Sent_1
            && action == ActionView::Apply(stage->Sending_1),
        !(next is AtLocal) ==> next is Ended && action is Report,
        stage is Sending && next is Ended ==> action->Report_0 is Err,
        stage is AtLocal && event is Local ==> action->Report_0 == copy_report(
            stage->AtLocal_0,
            event->Local_0,
            stage->AtLocal_1,
            event->Local_1,
            event->Local_2,
            debug,
        ),
        stage is AtLocal && !(event is Local) ==> action->Report_0 is Err,
        stage is Ended ==> action->Report_0 is Err,
{
}

} // verus!
