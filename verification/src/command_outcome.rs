//! Outcomes of the console commands that involve the device: the lines that
//! report success, and the texts that tell what each side did.

use vstd::prelude::*;

use coap_lite::MessageClass;

use crate::cbor::same_bytes;
use crate::coap::{coap_read, read_coap};
use crate::codec::ContextTag;
use crate::console::{detail_text, list_text};
use crate::context::{ContextSnapshot, SnapshotView};
use crate::duplicate_command::{
    duplicate_command, parse_rule_duplicate_command, DuplicateView, RuleDuplicateRequest,
};
use crate::duplicate_payload::OverrideAnswers;
use crate::duplicate_service::{
    duplicate_rule_datagram, rule_datagram_outcome, DuplicateRuleResult,
};
use crate::error::{Fault, InspectionError};
use crate::exchange::{allocated_id, next_management_message_id};
use crate::json::{Json, JsonValue};
use crate::link::duplicate_rule_id;
use crate::policy::protects;
use crate::request::{check_result, datagram_view, decode_context_check_payload, payload_view};
use crate::rule_id::RuleId;
use crate::rule_text::{
    format_rule_detail, format_rule_list, summaries_view, update_index, RuleDetail, RuleSummary,
};
use crate::selector::RuleSelector;
use crate::service::{detail_from_snapshot, selected_detail};
use crate::sid::{ModelView, SidModel};
use crate::target::{
    accepted_view, answer_view, ipatch_outcome, resolved_update, tag_view, ResolvedRuleUpdate,
    ResolvedView,
};
use crate::text::{decimal, decimal_string, hex_digits, join, join3, strings_view};
use crate::update_command::{
    parse_rule_update_command, update_command, RuleUpdateRequest, UpdateView,
};

verus! {

/// How far a question to the device came.
#[derive(Debug)]
pub enum DeviceReply<T> {
    /// The request could not be built.
    Request(InspectionError),
    /// The exchange with the device failed.
    Exchange(String),
    /// The response could not be read.
    Response(InspectionError),
    /// The device answered.
    Received(T),
}

/// The text that tells how far a question about rules came, for the command
/// that asked it.
pub open spec fn reply_failure<T>(reply: DeviceReply<T>, command: Seq<char>) -> Option<Seq<char>> {
    match reply {
        DeviceReply::Request(error) => Some(
            "device "@ + command + " request failed: "@ + error@.described(),
        ),
        DeviceReply::Exchange(text) => Some("device "@ + command + " failed: "@ + text@),
        DeviceReply::Response(error) => Some(
            "device "@ + command + " response failed: "@ + error@.described(),
        ),
        DeviceReply::Received(_) => None,
    }
}

fn failure_text(command: &str, stage: &str, cause: &str) -> (result: String)
    ensures
        result@ == "device "@ + command@ + stage@ + cause@,
{
    join(join3("device ", command, stage).as_str(), cause)
}

/// Lines, or the text of a failure, as a mathematical value.
pub open spec fn lines_view(result: Result<Vec<String>, String>) -> Result<
    Seq<Seq<char>>,
    Seq<char>,
> {
    match result {
        Ok(lines) => Ok(strings_view(lines@)),
        Err(text) => Err(text@),
    }
}

/// Answers `rule list device`.
pub fn device_list_answer(reply: &DeviceReply<Vec<RuleSummary>>) -> (result: Result<
    Vec<String>,
    String,
>)
    ensures
        lines_view(result) == (match reply {
            DeviceReply::Received(summaries) => Ok(list_text(summaries_view(summaries@))),
            _ => Err(reply_failure(*reply, "rule list"@)->0),
        }),
{
    match reply {
        DeviceReply::Request(error) => Err(
            failure_text("rule list", " request failed: ", error.message().as_str()),
        ),
        DeviceReply::Exchange(text) => Err(failure_text("rule list", " failed: ", text.as_str())),
        DeviceReply::Response(error) => Err(
            failure_text("rule list", " response failed: ", error.message().as_str()),
        ),
        DeviceReply::Received(summaries) => Ok(format_rule_list(summaries.as_slice())),
    }
}

/// Answers `rule get device`.
pub fn device_get_answer(reply: &DeviceReply<RuleDetail>) -> (result: Result<Vec<String>, String>)
    ensures
        lines_view(result) == (match reply {
            DeviceReply::Received(detail) => Ok(detail_text(detail@)),
            _ => Err(reply_failure(*reply, "rule get"@)->0),
        }),
{
    match reply {
        DeviceReply::Request(error) => Err(
            failure_text("rule get", " request failed: ", error.message().as_str()),
        ),
        DeviceReply::Exchange(text) => Err(failure_text("rule get", " failed: ", text.as_str())),
        DeviceReply::Response(error) => Err(
            failure_text("rule get", " response failed: ", error.message().as_str()),
        ),
        DeviceReply::Received(detail) => Ok(format_rule_detail(detail)),
    }
}

/// What `context check` reports: `payload` is what the device answered.
pub open spec fn check_report(
    payload: Result<Seq<u8>, Seq<char>>,
    core_tag: Seq<u8>,
    debug: bool,
) -> Result<Seq<Seq<char>>, Seq<char>> {
    match payload {
        Err(text) => Err("context check failed: "@ + text),
        Ok(bytes) => match check_result(bytes, core_tag) {
            Err(fault) => Err("context check response failed: "@ + fault.described()),
            Ok((device_tag, equal)) => {
                let line = if equal {
                    "OK context check  equal"@
                } else {
                    "ERROR context check  mismatch"@
                };
                if debug {
                    Ok(
                        seq![
                            line,
                            "  core tag="@ + hex_digits(core_tag) + "  device tag="@ + hex_digits(
                                device_tag,
                            ),
                        ],
                    )
                } else {
                    Ok(seq![line])
                }
            },
        },
    }
}

/// Answers `context check` from the payload of the device's response.
pub fn context_check_answer(
    payload: &Result<Vec<u8>, String>,
    core_tag: ContextTag,
    debug: bool,
) -> (result: Result<Vec<String>, String>)
    ensures
        lines_view(result) == check_report(payload_view(*payload), core_tag@, debug),
{
    let bytes = match payload {
        Ok(bytes) => bytes,
        Err(text) => {
            return Err(join("context check failed: ", text.as_str()));
        },
    };
    let check = match decode_context_check_payload(bytes.as_slice(), core_tag) {
        Ok(check) => check,
        Err(error) => {
            return Err(join("context check response failed: ", error.message().as_str()));
        },
    };
    let mut lines: Vec<String> = Vec::new();
    if check.equal {
        lines.push("OK context check  equal".to_owned());
    } else {
        lines.push("ERROR context check  mismatch".to_owned());
    }
    if debug {
        let head = join3("  core tag=", check.core_tag.to_hex().as_str(), "  device tag=");
        lines.push(join(head.as_str(), check.device_tag.to_hex().as_str()));
    }
    proof {
        let expected = check_report(payload_view(*payload), core_tag@, debug)->Ok_0;
        assert(strings_view(lines@) =~= expected);
    }
    Ok(lines)
}

/// The text of a CoAP code, such as `2.04`.
pub open spec fn code_text(code: u8) -> Seq<char> {
    let detail = (code % 32) as nat;
    decimal((code / 32) as nat) + "."@ + (if detail < 10 {
        "0"@
    } else {
        ""@
    }) + decimal(detail)
}

/// Writes a CoAP code, such as `2.04`.
pub fn format_coap_code(code: u8) -> (result: String)
    ensures
        result@ == code_text(code),
{
    let head = join(decimal_string((code / 32) as u64).as_str(), ".");
    let detail: u8 = code % 32;
    let zero = if detail < 10 {
        "0"
    } else {
        ""
    };
    join3(head.as_str(), zero, decimal_string(detail as u64).as_str())
}

/// The text that `{:?}` gives for the `coap_lite::MessageClass` of a code.
pub uninterp spec fn class_text(code: u8) -> Seq<char>;

/// Writes the `coap_lite::MessageClass` of a code in its debug form. Claims
/// that this text depends on the code alone.
#[verifier::external_body]
fn debug_class(code: u8) -> (result: String)
    ensures
        result@ == class_text(code),
{
    format!("{:?}", MessageClass::from(code))
}

/// Whether a text refuses a local response: the rest of a text about a
/// malformed datagram is the codec's.
pub open spec fn changed_refusal(request: Seq<u8>, response: Seq<u8>, text: Seq<char>) -> bool {
    match (coap_read(request), coap_read(response)) {
        (None, _) => "malformed local request correlation: "@.is_prefix_of(text),
        (Some(_), None) => "malformed local CoAP response: "@.is_prefix_of(text),
        (Some(_), Some(reply)) => if reply.code != 68 {
            text == "expected local CoAP 2.04 Changed, got "@ + class_text(reply.code)
        } else {
            text == "local CoAP response did not correlate"@
        },
    }
}

/// Whether a datagram is the `2.04` response to a request.
pub open spec fn answers_changed(request: Seq<u8>, response: Seq<u8>) -> bool {
    &&& coap_read(request) matches Some(asked)
    &&& coap_read(response) matches Some(reply)
    &&& reply.code == 68
    &&& reply.message_id == asked.message_id
    &&& reply.token == asked.token
}

/// Requires a local response to be the `2.04` response to its request.
pub fn validate_changed_response(request_datagram: &[u8], response_datagram: &[u8]) -> (result:
    Result<(), String>)
    ensures
        match result {
            Ok(()) => answers_changed(request_datagram@, response_datagram@),
            Err(text) => !answers_changed(request_datagram@, response_datagram@)
                && changed_refusal(request_datagram@, response_datagram@, text@),
        },
{
    let request = match read_coap(request_datagram) {
        Ok(request) => request,
        Err(error) => {
            let text = join("malformed local request correlation: ", error.as_str());
            assert("malformed local request correlation: "@ =~= text@.subrange(
                0,
                "malformed local request correlation: "@.len() as int,
            ));
            return Err(text);
        },
    };
    let response = match read_coap(response_datagram) {
        Ok(response) => response,
        Err(error) => {
            let text = join("malformed local CoAP response: ", error.as_str());
            assert("malformed local CoAP response: "@ =~= text@.subrange(
                0,
                "malformed local CoAP response: "@.len() as int,
            ));
            return Err(text);
        },
    };
    if response.code != 68 {
        return Err(
            join("expected local CoAP 2.04 Changed, got ", debug_class(response.code).as_str()),
        );
    }
    if response.message_id != request.message_id || !same_bytes(
        response.token.as_slice(),
        request.token.as_slice(),
    ) {
        return Err("local CoAP response did not correlate".to_owned());
    }
    Ok(())
}

/// The end of a text about a command that neither side carried out.
pub open spec fn not_sent() -> Seq<char> {
    "; device=not-sent; local=unchanged"@
}

/// The end of a text about a command that may have changed one side only.
pub open spec fn divergence() -> Seq<char> {
    "; possible divergence - run context check"@
}

/// The duplicate operation that a command line requests.
pub open spec fn requested_copy(command: Seq<char>) -> Result<DuplicateView, Seq<char>> {
    match duplicate_command(command) {
        Ok(request) => Ok(request),
        Err(fault) => Err("duplicate rejected: "@ + fault.described() + not_sent()),
    }
}

/// Reads the duplicate operation that a command line requests.
pub fn read_duplicate(command: &str) -> (result: Result<RuleDuplicateRequest, String>)
    ensures
        match result {
            Ok(request) => requested_copy(command@) == Ok::<DuplicateView, Seq<char>>(request@),
            Err(text) => requested_copy(command@) == Err::<DuplicateView, Seq<char>>(text@),
        },
{
    match parse_rule_duplicate_command(command) {
        Ok(request) => Ok(request),
        Err(error) => Err(
            join3(
                "duplicate rejected: ",
                error.message().as_str(),
                "; device=not-sent; local=unchanged",
            ),
        ),
    }
}

/// The source and the destination of a duplicate operation.
pub open spec fn copy_route(request: DuplicateView) -> Seq<char> {
    request.source.spelled() + " -> "@ + request.destination.spelled()
}

fn write_route(request: &RuleDuplicateRequest) -> (result: String)
    ensures
        result@ == copy_route(request@),
{
    join3(
        request.source.to_text().as_str(),
        " -> ",
        request.destination.to_text().as_str(),
    )
}

/// Builds the datagram of a duplicate operation under the next message ID.
pub fn plan_duplicate(
    model: &SidModel,
    snapshot: &ContextSnapshot,
    request: &RuleDuplicateRequest,
    next_message_id: &mut u16,
    answers: &Vec<OverrideAnswers>,
) -> (result: Result<Vec<u8>, String>)
    requires
        answers@.len() == request.overrides@.len(),
    ensures
        *final(next_message_id) == (allocated_id(*old(next_message_id)) + 1) % 128,
        exists|outcome: Result<Seq<u8>, Fault>|
            {
                &&& #[trigger] rule_datagram_outcome(
                    model@,
                    snapshot@,
                    request@,
                    allocated_id(*old(next_message_id)),
                    answers@,
                    outcome,
                )
                &&& payload_view(result) == (match outcome {
                    Ok(datagram) => Ok(datagram),
                    Err(fault) => Err(
                        "duplicate "@ + copy_route(request@) + " rejected: "@ + fault.described()
                            + not_sent(),
                    ),
                })
            },
{
    let message_id: u16 = next_management_message_id(next_message_id);
    let built = duplicate_rule_datagram(model, snapshot, request, message_id, answers);
    let ghost outcome = datagram_view(built);
    assert(rule_datagram_outcome(
        model@,
        snapshot@,
        request@,
        allocated_id(*old(next_message_id)),
        answers@,
        outcome,
    ));
    match built {
        Ok(datagram) => Ok(datagram),
        Err(error) => {
            let head = join3("duplicate ", write_route(request).as_str(), " rejected: ");
            Err(
                join3(
                    head.as_str(),
                    error.message().as_str(),
                    "; device=not-sent; local=unchanged",
                ),
            )
        },
    }
}

/// Requires a duplicate operation to travel under its own rule.
pub fn check_duplicate_rule(rule_id: RuleId) -> (result: Result<(), String>)
    ensures
        match result {
            Ok(()) => rule_id == duplicate_rule_id(),
            Err(text) => rule_id != duplicate_rule_id() && text@ == "duplicate-rule selected "@
                + decimal(rule_id.value as nat) + "/"@ + decimal(rule_id.bit_len as nat)
                + " instead of 29/8"@,
        },
{
    if rule_id == RuleId::new(29, 8) {
        return Ok(());
    }
    let head = join3("duplicate-rule selected ", decimal_string(rule_id.value).as_str(), "/");
    Err(
        join3(
            head.as_str(),
            decimal_string(rule_id.bit_len as u64).as_str(),
            " instead of 29/8",
        ),
    )
}

/// Goes on with a duplicate operation only when it was sent.
pub fn check_duplicate_sent(request: &RuleDuplicateRequest, sent: &Result<(), String>) -> (result:
    Result<(), String>)
    ensures
        accepted_view(result) == (match accepted_view(*sent) {
            Ok(_) => Ok(()),
            Err(text) => Err(
                "duplicate "@ + copy_route(request@) + "  remote=not-sent  local=unchanged: "@
                    + text,
            ),
        }),
{
    match sent {
        Ok(()) => Ok(()),
        Err(text) => {
            let head = join3(
                "duplicate ",
                write_route(request).as_str(),
                "  remote=not-sent  local=unchanged: ",
            );
            Err(join(head.as_str(), text.as_str()))
        },
    }
}

/// Tells from the generations before and after an operation whether it
/// published a new context.
pub fn duplicate_result(before: u64, after: u64, tag: ContextTag) -> (result: DuplicateRuleResult)
    requires
        before < u64::MAX,
    ensures
        result == (if after == before + 1 {
            DuplicateRuleResult::Applied { generation: after, tag }
        } else {
            DuplicateRuleResult::Idempotent { generation: after, tag }
        }),
{
    if after == before + 1 {
        DuplicateRuleResult::Applied { generation: after, tag }
    } else {
        DuplicateRuleResult::Idempotent { generation: after, tag }
    }
}

/// What the local side of a duplicate operation reports. `applied` tells
/// whether the local handler produced a response, which it must not.
pub open spec fn copy_report(
    request: DuplicateView,
    applied: Result<bool, Seq<char>>,
    before: u64,
    after: u64,
    tag: Seq<u8>,
    debug: bool,
) -> Result<Seq<Seq<char>>, Seq<char>> {
    let failed = "duplicate "@ + copy_route(request) + "  remote=unacknowledged  local=failed: "@;
    match applied {
        Err(text) => Err(failed + text + divergence()),
        Ok(true) => Err(
            failed + "local handler unexpectedly produced a response"@ + divergence(),
        ),
        Ok(false) => {
            let state = if after == before + 1 {
                "  local=installed  remote=unacknowledged"@
            } else {
                "  local=idempotent  remote=unacknowledged"@
            };
            let line = "OK duplicate "@ + copy_route(request) + state;
            if debug {
                Ok(
                    seq![
                        line,
                        "  generation="@ + decimal(after as nat) + "  tag="@ + hex_digits(tag),
                    ],
                )
            } else {
                Ok(seq![line])
            }
        },
    }
}

/// Whether a local handler produced a response, or the text of its failure.
pub open spec fn applied_view(applied: Result<Option<Vec<u8>>, String>) -> Result<
    bool,
    Seq<char>,
> {
    match applied {
        Ok(response) => Ok(response is Some),
        Err(text) => Err(text@),
    }
}

/// Reports the local side of a duplicate operation.
pub fn finish_duplicate(
    request: &RuleDuplicateRequest,
    applied: &Result<Option<Vec<u8>>, String>,
    before: u64,
    after: u64,
    tag: ContextTag,
    debug: bool,
) -> (result: Result<Vec<String>, String>)
    requires
        before < u64::MAX,
    ensures
        lines_view(result) == copy_report(
            request@,
            applied_view(*applied),
            before,
            after,
            tag@,
            debug,
        ),
{
    let route = write_route(request);
    let failed = join3(
        "duplicate ",
        route.as_str(),
        "  remote=unacknowledged  local=failed: ",
    );
    match applied {
        Err(text) => {
            return Err(
                join3(
                    failed.as_str(),
                    text.as_str(),
                    "; possible divergence - run context check",
                ),
            );
        },
        Ok(Some(_)) => {
            return Err(
                join3(
                    failed.as_str(),
                    "local handler unexpectedly produced a response",
                    "; possible divergence - run context check",
                ),
            );
        },
        Ok(None) => {},
    }
    let (state, generation, tag) = match duplicate_result(before, after, tag) {
        DuplicateRuleResult::Applied { generation, tag } => (
            "  local=installed  remote=unacknowledged",
            generation,
            tag,
        ),
        DuplicateRuleResult::Idempotent { generation, tag } => (
            "  local=idempotent  remote=unacknowledged",
            generation,
            tag,
        ),
    };
    let mut lines: Vec<String> = Vec::new();
    lines.push(join3("OK duplicate ", route.as_str(), state));
    if debug {
        let head = join3("  generation=", decimal_string(generation).as_str(), "  tag=");
        lines.push(join(head.as_str(), tag.to_hex().as_str()));
    }
    proof {
        let expected = copy_report(request@, applied_view(*applied), before, after, tag@, debug);
        assert(strings_view(lines@) =~= expected->Ok_0);
    }
    Ok(lines)
}

/// The targeted update that a command line requests.
pub open spec fn requested_change(command: Seq<char>) -> Result<UpdateView, Seq<char>> {
    match update_command(command) {
        Ok(request) => Ok(request),
        Err(fault) => Err("rule update rejected: "@ + fault.described() + not_sent()),
    }
}

/// Reads the targeted update that a command line requests.
pub fn read_update(command: &str) -> (result: Result<RuleUpdateRequest, String>)
    ensures
        match result {
            Ok(request) => requested_change(command@) == Ok::<UpdateView, Seq<char>>(request@),
            Err(text) => requested_change(command@) == Err::<UpdateView, Seq<char>>(text@),
        },
{
    match parse_rule_update_command(command) {
        Ok(request) => Ok(request),
        Err(error) => Err(
            join3(
                "rule update rejected: ",
                error.message().as_str(),
                "; device=not-sent; local=unchanged",
            ),
        ),
    }
}

/// A rejection before anything is sent, with its cause.
pub open spec fn update_rejected(rule: RuleSelector, cause: Seq<char>) -> Seq<char> {
    "rule update "@ + rule.spelled() + " rejected: "@ + cause + not_sent()
}

fn reject_update(rule: RuleSelector, cause: &str) -> (result: String)
    ensures
        result@ == update_rejected(rule, cause@),
{
    let head = join3("rule update ", rule.to_text().as_str(), " rejected: ");
    join3(head.as_str(), cause, "; device=not-sent; local=unchanged")
}

/// The update that a request resolves to on the active context, or why it is
/// rejected before anything is sent.
pub open spec fn resolved_change(
    request: UpdateView,
    snapshot: SnapshotView,
    model: ModelView,
    wire: Result<Json, Seq<char>>,
    accepted: Result<(), Seq<char>>,
) -> Result<ResolvedView, Seq<char>> {
    if protects(snapshot.data.protected, request.rule.id()) {
        Err(update_rejected(request.rule, "protected RuleID"@))
    } else {
        match selected_detail(snapshot.data.rules, request.rule) {
            Err(fault) => Err(update_rejected(request.rule, fault.described())),
            Ok(detail) => match update_index(request, detail) {
                Err(fault) => Err(update_rejected(request.rule, fault.described())),
                Ok(entry_index) => match resolved_update(
                    request,
                    entry_index,
                    snapshot.data.tree,
                    model,
                    wire,
                    accepted,
                ) {
                    Err(fault) => Err(update_rejected(request.rule, fault.described())),
                    Ok(update) => Ok(update),
                },
            },
        }
    }
}

/// Resolves a requested update on the active context. `wire` is the current
/// value as the model writes it, and `accepted` tells whether the model accepts
/// the replacement.
pub fn resolve_change(
    request: &RuleUpdateRequest,
    snapshot: &ContextSnapshot,
    model: &SidModel,
    wire: &Result<JsonValue, String>,
    accepted: &Result<(), String>,
) -> (result: Result<ResolvedRuleUpdate, String>)
    requires
        model@.well_formed(),
    ensures
        ({
            let outcome = resolved_change(
                request@,
                snapshot@,
                model@,
                answer_view(*wire),
                accepted_view(*accepted),
            );
            match result {
                Ok(update) => outcome == Ok::<ResolvedView, Seq<char>>(update@),
                Err(text) => outcome == Err::<ResolvedView, Seq<char>>(text@),
            }
        }),
{
    if snapshot.data.protected.contains(request.rule.rule_id()) {
        return Err(reject_update(request.rule, "protected RuleID"));
    }
    let detail = match detail_from_snapshot(snapshot, request.rule) {
        Ok(detail) => detail,
        Err(error) => {
            return Err(reject_update(request.rule, error.message().as_str()));
        },
    };
    match request.resolve_target_value(&detail, &snapshot.data.tree, model, wire, accepted) {
        Ok(update) => Ok(update),
        Err(error) => Err(reject_update(request.rule, error.message().as_str())),
    }
}

/// The rule and the entry of an update.
pub open spec fn entry_label(rule: RuleSelector, entry_index: usize) -> Seq<char> {
    rule.spelled() + " entry="@ + decimal(entry_index as nat)
}

fn write_label(rule: RuleSelector, entry_index: usize) -> (result: String)
    ensures
        result@ == entry_label(rule, entry_index),
{
    join3(rule.to_text().as_str(), " entry=", decimal_string(entry_index as u64).as_str())
}

/// The tag that an update requires the device to have.
pub open spec fn precondition(update: ResolvedView, snapshot: SnapshotView) -> Option<Seq<u8>> {
    if update.request.if_match {
        Some(snapshot.data.tag)
    } else {
        None
    }
}

/// Builds the datagram of a resolved update under the next message ID. Its
/// precondition, where one was asked for, is the tag of the active context.
/// `path` is the path of the update as the model writes it.
pub fn plan_update(
    update: &ResolvedRuleUpdate,
    snapshot: &ContextSnapshot,
    next_message_id: &mut u16,
    path: &JsonValue,
) -> (result: Result<Vec<u8>, String>)
    ensures
        *final(next_message_id) == (allocated_id(*old(next_message_id)) + 1) % 128,
        exists|outcome: Result<Seq<u8>, Fault>|
            {
                &&& #[trigger] ipatch_outcome(
                    update@,
                    allocated_id(*old(next_message_id)),
                    precondition(update@, snapshot@),
                    path@,
                    outcome,
                )
                &&& payload_view(result) == (match outcome {
                    Ok(datagram) => Ok(datagram),
                    Err(fault) => Err(
                        "rule update "@ + entry_label(update@.request.rule, update@.entry_index)
                            + " rejected: "@ + fault.described() + not_sent(),
                    ),
                })
            },
{
    let base_tag: Option<ContextTag> = if update.request.if_match {
        Some(snapshot.data.tag)
    } else {
        None
    };
    let message_id: u16 = next_management_message_id(next_message_id);
    let built = update.ipatch_datagram(message_id, base_tag, path);
    let ghost outcome = datagram_view(built);
    assert(tag_view(base_tag) == precondition(update@, snapshot@));
    assert(ipatch_outcome(
        update@,
        allocated_id(*old(next_message_id)),
        precondition(update@, snapshot@),
        path@,
        outcome,
    ));
    match built {
        Ok(datagram) => Ok(datagram),
        Err(error) => {
            let label = write_label(update.request.rule, update.entry_index);
            let head = join3("rule update ", label.as_str(), " rejected: ");
            Err(
                join3(
                    head.as_str(),
                    error.message().as_str(),
                    "; device=not-sent; local=unchanged",
                ),
            )
        },
    }
}

/// The code of a device's response, or the text of a failed exchange.
pub open spec fn code_view(sent: Result<u8, String>) -> Result<u8, Seq<char>> {
    match sent {
        Ok(code) => Ok(code),
        Err(text) => Err(text@),
    }
}

/// Whether the device accepted an update; only then is it applied locally.
pub open spec fn device_verdict(
    rule: RuleSelector,
    entry_index: usize,
    sent: Result<u8, Seq<char>>,
) -> Result<(), Seq<char>> {
    let head = "rule update "@ + entry_label(rule, entry_index);
    match sent {
        Err(text) => Err(head + " device exchange failed: "@ + text + "; local=unchanged"@),
        Ok(code) => if code != 68 {
            Err(
                head + " device="@ + code_text(code)
                    + " rejected; local=not-attempted; local=unchanged"@,
            )
        } else {
            Ok(())
        },
    }
}

/// Goes on with an update only when the device answered `2.04`.
pub fn check_device_verdict(
    rule: RuleSelector,
    entry_index: usize,
    sent: &Result<u8, String>,
) -> (result: Result<(), String>)
    ensures
        accepted_view(result) == device_verdict(rule, entry_index, code_view(*sent)),
{
    let head = join("rule update ", write_label(rule, entry_index).as_str());
    match sent {
        Err(text) => {
            let failed = join3(head.as_str(), " device exchange failed: ", text.as_str());
            Err(join(failed.as_str(), "; local=unchanged"))
        },
        Ok(code) => {
            if *code != 68 {
                let device = join3(
                    head.as_str(),
                    " device=",
                    format_coap_code(*code).as_str(),
                );
                return Err(
                    join(device.as_str(), " rejected; local=not-attempted; local=unchanged"),
                );
            }
            Ok(())
        },
    }
}

/// What the local side of an update reports, once the device accepted it.
/// `applied` is the local response to the same datagram.
pub open spec fn change_outcome(
    rule: RuleSelector,
    entry_index: usize,
    datagram: Seq<u8>,
    applied: Result<Seq<u8>, Seq<char>>,
    before: u64,
    after: SnapshotView,
    debug: bool,
    outcome: Result<Seq<Seq<char>>, Seq<char>>,
) -> bool {
    let head = "rule update "@ + entry_label(rule, entry_index) + " device=2.04; local "@;
    match applied {
        Err(text) => outcome == Err::<Seq<Seq<char>>, Seq<char>>(
            head + "application failed: "@ + text + divergence(),
        ),
        Ok(response) => if !answers_changed(datagram, response) {
            exists|text: Seq<char>| #[trigger]
                changed_refusal(datagram, response, text) && outcome == Err::<
                    Seq<Seq<char>>,
                    Seq<char>,
                >(head + "response failed: "@ + text + divergence())
        } else if before == u64::MAX {
            outcome == Err::<Seq<Seq<char>>, Seq<char>>(
                head + "generation overflow"@ + divergence(),
            )
        } else if after.generation != before + 1 {
            outcome == Err::<Seq<Seq<char>>, Seq<char>>(
                head + "acknowledgement did not publish exactly once (generation="@ + decimal(
                    after.generation as nat,
                ) + ")"@ + divergence(),
            )
        } else {
            let line = "OK update "@ + entry_label(rule, entry_index)
                + "  device=changed  local=changed"@;
            outcome == Ok::<Seq<Seq<char>>, Seq<char>>(
                if debug {
                    seq![
                        line,
                        "  response=2.04  generation="@ + decimal(after.generation as nat)
                            + "  tag="@ + hex_digits(after.data.tag),
                    ]
                } else {
                    seq![line]
                },
            )
        },
    }
}

/// Reports the local side of an update that the device accepted. `before` is
/// the generation that the update was resolved on, and `after` is the context
/// that is active once the local response came.
pub fn finish_update(
    rule: RuleSelector,
    entry_index: usize,
    datagram: &[u8],
    applied: &Result<Vec<u8>, String>,
    before: u64,
    after: &ContextSnapshot,
    debug: bool,
) -> (result: Result<Vec<String>, String>)
    ensures
        change_outcome(
            rule,
            entry_index,
            datagram@,
            payload_view(*applied),
            before,
            after@,
            debug,
            lines_view(result),
        ),
{
    let label = write_label(rule, entry_index);
    let head = join3("rule update ", label.as_str(), " device=2.04; local ");
    let response = match applied {
        Ok(response) => response,
        Err(text) => {
            let failed = join3(head.as_str(), "application failed: ", text.as_str());
            return Err(join(failed.as_str(), "; possible divergence - run context check"));
        },
    };
    if let Err(text) = validate_changed_response(datagram, response.as_slice()) {
        assert(changed_refusal(datagram@, response@, text@));
        let failed = join3(head.as_str(), "response failed: ", text.as_str());
        return Err(join(failed.as_str(), "; possible divergence - run context check"));
    }
    if before == u64::MAX {
        return Err(
            join3(
                head.as_str(),
                "generation overflow",
                "; possible divergence - run context check",
            ),
        );
    }
    if after.generation != before + 1 {
        let failed = join3(
            head.as_str(),
            "acknowledgement did not publish exactly once (generation=",
            decimal_string(after.generation).as_str(),
        );
        return Err(
            join3(failed.as_str(), ")", "; possible divergence - run context check"),
        );
    }
    let mut lines: Vec<String> = Vec::new();
    lines.push(join3("OK update ", label.as_str(), "  device=changed  local=changed"));
    if debug {
        let line = join3(
            "  response=2.04  generation=",
            decimal_string(after.generation).as_str(),
            "  tag=",
        );
        lines.push(join(line.as_str(), after.data.tag.to_hex().as_str()));
    }
    proof {
        let line = "OK update "@ + entry_label(rule, entry_index)
            + "  device=changed  local=changed"@;
        if debug {
            assert(strings_view(lines@) =~= seq![
                line,
                "  response=2.04  generation="@ + decimal(after@.generation as nat) + "  tag="@
                    + hex_digits(after@.data.tag),
            ]);
        } else {
            assert(strings_view(lines@) =~= seq![line]);
        }
    }
    Ok(lines)
}

/// An update of a protected rule never reaches the device.
pub proof fn protected_update_is_not_sent(
    request: UpdateView,
    snapshot: SnapshotView,
    model: ModelView,
    wire: Result<Json, Seq<char>>,
    accepted: Result<(), Seq<char>>,
)
    requires
        protects(snapshot.data.protected, request.rule.id()),
    ensures
        resolved_change(request, snapshot, model, wire, accepted) == Err::<
            ResolvedView,
            Seq<char>,
        >(update_rejected(request.rule, "protected RuleID"@)),
{
}

/// An update is reported as done only when the device answered `2.04`, the
/// local response answers the same datagram with `2.04`, and the local context
/// advanced by exactly one generation.
pub proof fn reported_update_changed_both_sides(
    rule: RuleSelector,
    entry_index: usize,
    sent: Result<u8, Seq<char>>,
    datagram: Seq<u8>,
    applied: Result<Seq<u8>, Seq<char>>,
    before: u64,
    after: SnapshotView,
    debug: bool,
    lines: Seq<Seq<char>>,
)
    requires
        device_verdict(rule, entry_index, sent) is Ok,
        change_outcome(
            rule,
            entry_index,
            datagram,
            applied,
            before,
            after,
            debug,
            Ok(lines),
        ),
    ensures
        sent == Ok::<u8, Seq<char>>(68),
        applied matches Ok(response) && answers_changed(datagram, response),
        after.generation == before + 1,
{
}

/// A CoAP code is written as its class, a dot and its detail in two digits.
pub proof fn coap_code_is_class_and_detail(class: u8, detail: u8)
    requires
        class < 8,
        detail < 32,
    ensures
        detail < 10 ==> code_text((32 * class + detail) as u8) == decimal(class as nat) + "."@
            + "0"@ + decimal(detail as nat),
        detail >= 10 ==> code_text((32 * class + detail) as u8) == decimal(class as nat) + "."@
            + decimal(detail as nat),
{
    let code = (32 * class + detail) as u8;
    assert(code / 32 == class);
    assert(code % 32 == detail);
    reveal_strlit("");
    assert(decimal(class as nat) + "."@ + ""@ =~= decimal(class as nat) + "."@);
}

/// A context check reports equal tags as such and different ones as a
/// mismatch; with details it shows the core's tag and then the device's.
pub proof fn check_report_tells_both_tags(
    payload: Seq<u8>,
    core_tag: Seq<u8>,
    device_tag: Seq<u8>,
    equal: bool,
)
    requires
        check_result(payload, core_tag) == Ok::<(Seq<u8>, bool), Fault>((device_tag, equal)),
    ensures
        check_report(Ok(payload), core_tag, false) == Ok::<Seq<Seq<char>>, Seq<char>>(
            seq![
                if equal {
                    "OK context check  equal"@
                } else {
                    "ERROR context check  mismatch"@
                },
            ],
        ),
        ({
            let shown = check_report(Ok(payload), core_tag, true);
            &&& shown is Ok
            &&& shown->Ok_0.len() == 2
            &&& equal ==> shown->Ok_0[0] == "OK context check  equal"@
            &&& !equal ==> shown->Ok_0[0] == "ERROR context check  mismatch"@
            &&& shown->Ok_0[1] == "  core tag="@ + hex_digits(core_tag) + "  device tag="@
                + hex_digits(device_tag)
        }),
{
}

/// The local side of a duplicate operation is reported as installed exactly
/// where the generation rose by one, and as idempotent where it did not; the
/// line names the source first and the destination behind the arrow. A failed
/// handler, or one that answered, is reported as a possible divergence.
pub proof fn copy_report_tells_what_was_installed(
    request: DuplicateView,
    applied: Result<bool, Seq<char>>,
    before: u64,
    after: u64,
    tag: Seq<u8>,
)
    requires
        before < u64::MAX,
    ensures
        ({
            let route = request.source.spelled() + " -> "@ + request.destination.spelled();
            let shown = copy_report(request, applied, before, after, tag, true);
            let short = copy_report(request, applied, before, after, tag, false);
            &&& shown is Ok <==> applied == Ok::<bool, Seq<char>>(false)
            &&& shown is Ok && after == before + 1 ==> shown->Ok_0[0] == "OK duplicate "@ + route
                + "  local=installed  remote=unacknowledged"@
            &&& shown is Ok && after != before + 1 ==> shown->Ok_0[0] == "OK duplicate "@ + route
                + "  local=idempotent  remote=unacknowledged"@
            &&& shown is Ok ==> shown->Ok_0.len() == 2 && shown->Ok_0[1] == "  generation="@
                + decimal(after as nat) + "  tag="@ + hex_digits(tag)
            &&& shown is Ok ==> short == Ok::<Seq<Seq<char>>, Seq<char>>(seq![shown->Ok_0[0]])
            &&& applied matches Err(text) ==> shown == Err::<Seq<Seq<char>>, Seq<char>>(
                "duplicate "@ + route + "  remote=unacknowledged  local=failed: "@ + text
                    + "; possible divergence - run context check"@,
            )
        }),
{
}

/// The precondition of an update is the tag of the active context exactly
/// where one was asked for.
pub proof fn update_precondition_is_the_active_tag(update: ResolvedView, snapshot: SnapshotView)
    ensures
        update.request.if_match ==> precondition(update, snapshot) == Some(snapshot.data.tag),
        !update.request.if_match ==> precondition(update, snapshot) is None,
{
}

/// An update goes on exactly where the device answered 2.04, which is code
/// 68, and an accepted local response has that code and the message ID and
/// token of the request.
pub proof fn device_accepts_with_changed(
    rule: RuleSelector,
    entry_index: usize,
    sent: Result<u8, Seq<char>>,
    request: Seq<u8>,
    response: Seq<u8>,
)
    ensures
        device_verdict(rule, entry_index, sent) is Ok <==> sent == Ok::<u8, Seq<char>>(68),
        answers_changed(request, response) <==> coap_read(request) is Some && coap_read(response)
            is Some && coap_read(response)->0.code == 68 && coap_read(response)->0.message_id
            == coap_read(request)->0.message_id && coap_read(response)->0.token == coap_read(
            request,
        )->0.token,
{
}

/// A resolved update is one of an unprotected rule of the context: its entry
/// is the one that the request selects in the only rule with the request's
/// identity.
pub proof fn resolved_change_is_the_requested_entry(
    request: UpdateView,
    snapshot: SnapshotView,
    model: ModelView,
    wire: Result<Json, Seq<char>>,
    accepted: Result<(), Seq<char>>,
)
    requires
        resolved_change(request, snapshot, model, wire, accepted) is Ok,
    ensures
        !protects(
            snapshot.data.protected,
            RuleId { value: request.rule.value, bit_len: request.rule.bits },
        ),
        selected_detail(snapshot.data.rules, request.rule) is Ok,
        ({
            let detail = selected_detail(snapshot.data.rules, request.rule)->Ok_0;
            &&& update_index(request, detail) is Ok
            &&& resolved_update(
                request,
                update_index(request, detail)->Ok_0,
                snapshot.data.tree,
                model,
                wire,
                accepted,
            ) == Ok::<ResolvedView, Fault>(
                resolved_change(request, snapshot, model, wire, accepted)->Ok_0,
            )
        }),
{
}

/// A command that is refused is not sent, and says so; any other is the request
/// that its words spell.
pub proof fn accepted_command_is_the_spelled_request(command: Seq<char>)
    ensures
        requested_copy(command) is Ok <==> duplicate_command(command) is Ok,
        duplicate_command(command) matches Ok(request) ==> requested_copy(command) == Ok::<
            DuplicateView,
            Seq<char>,
        >(request),
        requested_change(command) is Ok <==> update_command(command) is Ok,
        update_command(command) matches Ok(request) ==> requested_change(command) == Ok::<
            UpdateView,
            Seq<char>,
        >(request),
{
}

/// Only a reply that was received has no failure; every failure names the
/// command.
pub proof fn received_reply_has_no_failure<T>(reply: DeviceReply<T>, command: Seq<char>)
    ensures
        reply_failure(reply, command) is None <==> reply is Received,
        reply matches DeviceReply::Exchange(text) ==> reply_failure(reply, command) == Some(
            "device "@ + command + " failed: "@ + text@,
        ),
        reply matches DeviceReply::Request(error) ==> reply_failure(reply, command) == Some(
            "device "@ + command + " request failed: "@ + error@.described(),
        ),
        reply matches DeviceReply::Response(error) ==> reply_failure(reply, command) == Some(
            "device "@ + command + " response failed: "@ + error@.described(),
        ),
{
}

/// An update is resolved exactly when its rule is not protected and is the only
/// one with its identity, its entry is found, and the tree holds its target.
pub proof fn change_is_resolved_when_all_is_found(
    request: UpdateView,
    snapshot: SnapshotView,
    model: ModelView,
    wire: Result<Json, Seq<char>>,
    accepted: Result<(), Seq<char>>,
)
    ensures
        resolved_change(request, snapshot, model, wire, accepted) is Ok <==> {
            let detail = selected_detail(snapshot.data.rules, request.rule);
            let entry_index = update_index(request, detail->Ok_0);
            &&& !protects(snapshot.data.protected, request.rule.id())
            &&& detail is Ok
            &&& entry_index is Ok
            &&& resolved_update(
                request,
                entry_index->Ok_0,
                snapshot.data.tree,
                model,
                wire,
                accepted,
            ) is Ok
        },
{
}

} // verus!
