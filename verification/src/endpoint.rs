//! Decisions of the endpoint loops: what core and device do with the packets
//! of their TUN device, with the frames of their link and with failures.

use vstd::prelude::*;

use crate::coap::{coap_read, read_coap};
use crate::command_outcome::applied_view;
use crate::console::CommandResult;
use crate::exchange::{
    response_fault, validate_management_response, ManagementExchange, PreparedManagementRequest,
};
use crate::link::LinkDecoded;
use crate::link_types::{LinkRole, TrafficRoute};
use crate::packet::{
    CoapPacketView, Ipv6UdpCoapPacket, APPLICATION_PORT, CORE_LOGICAL_ADDRESS,
    DEVICE_LOGICAL_ADDRESS, MANAGEMENT_PORT,
};
use crate::request::{duplicate_shape, is_duplicate_rule_coap_shape};
use crate::rule_id::RuleId;
use crate::text::{decimal, decimal_string, join, join3};

verus! {

/// Why a packet or a frame was not passed on.
#[derive(Debug)]
pub enum EndpointError {
    /// This one is dropped, and the endpoint goes on.
    Drop(String),
    /// The endpoint cannot go on.
    Fatal(String),
}

/// An endpoint error as a mathematical value.
pub enum EndpointFault {
    /// This one is dropped, and the endpoint goes on.
    Drop(Seq<char>),
    /// The endpoint cannot go on.
    Fatal(Seq<char>),
}

impl View for EndpointError {
    type V = EndpointFault;

    open spec fn view(&self) -> EndpointFault {
        match self {
            EndpointError::Drop(text) => EndpointFault::Drop(text@),
            EndpointError::Fatal(text) => EndpointFault::Fatal(text@),
        }
    }
}

/// The step at which an endpoint failed, with the text of the failure.
#[derive(Debug)]
pub enum EndpointStage {
    /// A packet of the TUN device could not be read.
    ParsePacket(String),
    /// A packet of the TUN device could not be compressed.
    EncodePacket(String),
    /// A frame could not be sent.
    SendPacket(String),
    /// A frame could not be decompressed.
    DecodeFrame(String),
    /// A packet could not be written to the TUN device.
    WritePacket(String),
    /// A report could not be printed.
    Report(String),
    /// The management service failed on a request.
    HandleRequest(String),
    /// A management response could not be put into a packet.
    BuildResponse(String),
    /// A management response could not be compressed.
    EncodeResponse(String),
    /// A management response could not be sent.
    SendResponse(String),
}

/// What a failed step means at an endpoint.
pub open spec fn stage_fault(role: LinkRole, stage: EndpointStage) -> EndpointFault {
    match stage {
        EndpointStage::ParsePacket(text) => EndpointFault::Drop(
            "drop malformed TUN packet: "@ + text@,
        ),
        EndpointStage::EncodePacket(text) => EndpointFault::Drop(
            match role {
                LinkRole::Core => "encode TUN application packet: "@,
                LinkRole::Device => "encode TUN application response: "@,
            } + text@,
        ),
        EndpointStage::SendPacket(text) => EndpointFault::Fatal(
            "send application SCHC frame: "@ + text@,
        ),
        EndpointStage::DecodeFrame(text) => EndpointFault::Drop(
            "drop malformed SCHC frame: "@ + text@,
        ),
        EndpointStage::WritePacket(text) => EndpointFault::Fatal(
            "write application packet to TUN: "@ + text@,
        ),
        EndpointStage::Report(text) => EndpointFault::Fatal(text@),
        EndpointStage::HandleRequest(text) => EndpointFault::Drop(
            "handle management request: "@ + text@,
        ),
        EndpointStage::BuildResponse(text) => EndpointFault::Drop(
            "construct management response: "@ + text@,
        ),
        EndpointStage::EncodeResponse(text) => EndpointFault::Drop(
            "encode management response: "@ + text@,
        ),
        EndpointStage::SendResponse(text) => EndpointFault::Fatal(
            "send management response: "@ + text@,
        ),
    }
}

/// Returns what a failed step means at an endpoint.
pub fn stage_error(role: LinkRole, stage: &EndpointStage) -> (result: EndpointError)
    ensures
        result@ == stage_fault(role, *stage),
{
    match stage {
        EndpointStage::ParsePacket(text) => EndpointError::Drop(
            join("drop malformed TUN packet: ", text.as_str()),
        ),
        EndpointStage::EncodePacket(text) => {
            let head = match role {
                LinkRole::Core => "encode TUN application packet: ",
                LinkRole::Device => "encode TUN application response: ",
            };
            EndpointError::Drop(join(head, text.as_str()))
        },
        EndpointStage::SendPacket(text) => EndpointError::Fatal(
            join("send application SCHC frame: ", text.as_str()),
        ),
        EndpointStage::DecodeFrame(text) => EndpointError::Drop(
            join("drop malformed SCHC frame: ", text.as_str()),
        ),
        EndpointStage::WritePacket(text) => EndpointError::Fatal(
            join("write application packet to TUN: ", text.as_str()),
        ),
        EndpointStage::Report(text) => EndpointError::Fatal(text.clone()),
        EndpointStage::HandleRequest(text) => EndpointError::Drop(
            join("handle management request: ", text.as_str()),
        ),
        EndpointStage::BuildResponse(text) => EndpointError::Drop(
            join("construct management response: ", text.as_str()),
        ),
        EndpointStage::EncodeResponse(text) => EndpointError::Drop(
            join("encode management response: ", text.as_str()),
        ),
        EndpointStage::SendResponse(text) => EndpointError::Fatal(
            join("send management response: ", text.as_str()),
        ),
    }
}

/// Whether a packet goes from one endpoint to the other, with both ports the
/// same.
pub open spec fn oriented(packet: CoapPacketView, sender: LinkRole, port: u16) -> bool {
    &&& packet.packet.source == (match sender {
        LinkRole::Core => CORE_LOGICAL_ADDRESS,
        LinkRole::Device => DEVICE_LOGICAL_ADDRESS,
    })
    &&& packet.packet.destination == (match sender {
        LinkRole::Core => DEVICE_LOGICAL_ADDRESS,
        LinkRole::Device => CORE_LOGICAL_ADDRESS,
    })
    &&& packet.packet.source_port == port
    &&& packet.packet.destination_port == port
}

pub(crate) fn goes_from(packet: &Ipv6UdpCoapPacket, sender: LinkRole, port: u16) -> (result: bool)
    ensures
        result == oriented(packet@, sender, port),
{
    let (source, destination): (u128, u128) = match sender {
        LinkRole::Core => (CORE_LOGICAL_ADDRESS, DEVICE_LOGICAL_ADDRESS),
        LinkRole::Device => (DEVICE_LOGICAL_ADDRESS, CORE_LOGICAL_ADDRESS),
    };
    packet.packet.source == source && packet.packet.destination == destination
        && packet.packet.source_port == port && packet.packet.destination_port == port
}

/// Requires a packet of an endpoint's TUN device to be application traffic
/// from this endpoint to the other.
pub fn check_tun_packet(role: LinkRole, packet: &Ipv6UdpCoapPacket) -> (result: Result<
    (),
    EndpointError,
>)
    ensures
        match result {
            Ok(()) => oriented(packet@, role, APPLICATION_PORT),
            Err(error) => !oriented(packet@, role, APPLICATION_PORT) && error@
                == EndpointFault::Drop(
                match role {
                    LinkRole::Core => "drop unsupported TUN application orientation"@,
                    LinkRole::Device => "drop unsupported TUN response orientation"@,
                },
            ),
        },
{
    if goes_from(packet, role, APPLICATION_PORT) {
        return Ok(());
    }
    match role {
        LinkRole::Core => Err(
            EndpointError::Drop("drop unsupported TUN application orientation".to_owned()),
        ),
        LinkRole::Device => Err(
            EndpointError::Drop("drop unsupported TUN response orientation".to_owned()),
        ),
    }
}

/// What the core does with a decompressed frame.
#[derive(Debug)]
pub enum CoreFrameStep {
    /// The frame answers the outstanding management request, with the code of
    /// the response.
    Management(u8, ManagementExchange),
    /// The packet of the frame goes to the TUN device.
    Write,
}

/// Whether the core treats a frame as a management response.
pub open spec fn awaited(route: TrafficRoute, waiting: bool) -> bool {
    waiting && route == TrafficRoute::ProtectedManagement
}

/// Why the core drops a frame that is no awaited management response.
pub open spec fn core_frame_fault(route: TrafficRoute, packet: CoapPacketView) -> Option<
    EndpointFault,
> {
    if route != TrafficRoute::Application {
        Some(EndpointFault::Drop("drop unrelated protected SCHC frame"@))
    } else if !oriented(packet, LinkRole::Device, APPLICATION_PORT) {
        Some(EndpointFault::Drop("drop unsupported SCHC application orientation"@))
    } else {
        None
    }
}

/// Decides what the core does with a decompressed frame, while it waits for
/// the response to a management request or not.
pub fn core_frame_step(
    decoded: &LinkDecoded,
    prepared: Option<&PreparedManagementRequest>,
) -> (result: Result<CoreFrameStep, EndpointError>)
    ensures
        if awaited(decoded.route, prepared is Some) {
            let request = prepared->0;
            let fault = response_fault(
                request.exchange_id.identity(),
                decoded.route,
                decoded.rule_id,
                decoded.packet@,
            );
            match result {
                Ok(CoreFrameStep::Management(code, exchange)) => {
                    &&& fault is None
                    &&& code == decoded.packet@.message.code
                    &&& exchange.payload@ == decoded.packet@.message.payload
                    &&& exchange.request_report@ == request.report@
                    &&& exchange.response_report@ == decoded.report@
                },
                Ok(CoreFrameStep::Write) => false,
                Err(error) => fault is Some && error@ == EndpointFault::Drop(
                    "ignore unrelated management response: "@ + fault->0.described(),
                ),
            }
        } else {
            match result {
                Ok(step) => step is Write && core_frame_fault(decoded.route, decoded.packet@)
                    is None,
                Err(error) => core_frame_fault(decoded.route, decoded.packet@) == Some(error@),
            }
        },
{
    if let Some(request) = prepared {
        if decoded.route == TrafficRoute::ProtectedManagement {
            return match validate_management_response(request, decoded) {
                Ok((code, exchange)) => Ok(CoreFrameStep::Management(code, exchange)),
                Err(error) => Err(
                    EndpointError::Drop(
                        join(
                            "ignore unrelated management response: ",
                            error.message().as_str(),
                        ),
                    ),
                ),
            };
        }
    }
    if decoded.route != TrafficRoute::Application {
        return Err(EndpointError::Drop("drop unrelated protected SCHC frame".to_owned()));
    }
    if !goes_from(&decoded.packet, LinkRole::Device, APPLICATION_PORT) {
        return Err(
            EndpointError::Drop("drop unsupported SCHC application orientation".to_owned()),
        );
    }
    Ok(CoreFrameStep::Write)
}

/// What the device does with a decompressed frame.
#[derive(Debug, Clone, Copy, PartialEq, Eq, Structural)]
pub enum DeviceFrameStep {
    /// The management service applies a one-way duplicate operation.
    Duplicate,
    /// The management service answers a request.
    Request,
    /// The packet of the frame goes to the TUN device.
    Write,
}

/// Whether a text refuses a management request whose datagram cannot be read;
/// the rest of the text is the codec's.
pub open spec fn unreadable_request(fault: EndpointFault) -> bool {
    fault matches EndpointFault::Drop(text) && "drop malformed management request: "@.is_prefix_of(
        text,
    )
}

/// How the device decides about a frame.
pub open spec fn device_frame_outcome(
    route: TrafficRoute,
    packet: CoapPacketView,
    outcome: Result<DeviceFrameStep, EndpointFault>,
) -> bool {
    match route {
        TrafficRoute::ProtectedManagement => if !oriented(
            packet,
            LinkRole::Core,
            MANAGEMENT_PORT,
        ) {
            outcome == Err::<DeviceFrameStep, EndpointFault>(
                EndpointFault::Drop("drop unsupported management orientation"@),
            )
        } else {
            match coap_read(packet.datagram) {
                None => outcome matches Err(fault) && unreadable_request(fault),
                Some(message) => outcome == Ok::<DeviceFrameStep, EndpointFault>(
                    if duplicate_shape(message) {
                        DeviceFrameStep::Duplicate
                    } else {
                        DeviceFrameStep::Request
                    },
                ),
            }
        },
        TrafficRoute::Application => if !oriented(packet, LinkRole::Core, APPLICATION_PORT) {
            outcome == Err::<DeviceFrameStep, EndpointFault>(
                EndpointFault::Drop("drop unsupported application orientation"@),
            )
        } else {
            outcome == Ok::<DeviceFrameStep, EndpointFault>(DeviceFrameStep::Write)
        },
    }
}

/// A device step or the reason of a drop, as a mathematical value.
pub open spec fn device_step_view(result: Result<DeviceFrameStep, EndpointError>) -> Result<
    DeviceFrameStep,
    EndpointFault,
> {
    match result {
        Ok(step) => Ok(step),
        Err(error) => Err(error@),
    }
}

/// Decides what the device does with a decompressed frame.
pub fn device_frame_step(decoded: &LinkDecoded) -> (result: Result<DeviceFrameStep, EndpointError>)
    ensures
        device_frame_outcome(decoded.route, decoded.packet@, device_step_view(result)),
{
    match decoded.route {
        TrafficRoute::ProtectedManagement => {
            if !goes_from(&decoded.packet, LinkRole::Core, MANAGEMENT_PORT) {
                return Err(
                    EndpointError::Drop("drop unsupported management orientation".to_owned()),
                );
            }
            match read_coap(decoded.packet.datagram.as_slice()) {
                Err(error) => {
                    let text = join("drop malformed management request: ", error.as_str());
                    assert("drop malformed management request: "@ =~= text@.subrange(
                        0,
                        "drop malformed management request: "@.len() as int,
                    ));
                    Err(EndpointError::Drop(text))
                },
                Ok(message) => if is_duplicate_rule_coap_shape(&message) {
                    Ok(DeviceFrameStep::Duplicate)
                } else {
                    Ok(DeviceFrameStep::Request)
                },
            }
        },
        TrafficRoute::Application => {
            if !goes_from(&decoded.packet, LinkRole::Core, APPLICATION_PORT) {
                return Err(
                    EndpointError::Drop("drop unsupported application orientation".to_owned()),
                );
            }
            Ok(DeviceFrameStep::Write)
        },
    }
}

/// Requires a management response to travel under its own rule.
pub fn check_response_rule(rule_id: RuleId) -> (result: Result<(), EndpointError>)
    ensures
        match result {
            Ok(()) => rule_id == (RuleId { value: 17, bit_len: 8 }),
            Err(error) => rule_id != (RuleId { value: 17, bit_len: 8 }) && error@
                == EndpointFault::Drop("management response did not select RuleID 17/8"@),
        },
{
    if rule_id != RuleId::new(17, 8) {
        return Err(
            EndpointError::Drop("management response did not select RuleID 17/8".to_owned()),
        );
    }
    Ok(())
}

/// The line that tells what the device did with a duplicate operation.
/// `applied` tells whether its handler produced a response, which it must not.
pub open spec fn device_copy_line(
    applied: Result<bool, Seq<char>>,
    before: u64,
    after: u64,
) -> Seq<char> {
    match applied {
        Ok(false) => if after == before + 1 {
            "OK duplicate  local=installed  response=none"@
        } else {
            "OK duplicate  local=idempotent  response=none"@
        },
        Ok(true) => "ERROR duplicate  local=failed  response=unexpected"@,
        Err(text) => "ERROR duplicate  local=failed  response=none  cause="@ + text,
    }
}

/// Returns the line that tells what the device did with a duplicate operation,
/// from the generations before and after it.
pub fn device_duplicate_line(
    applied: &Result<Option<Vec<u8>>, String>,
    before: u64,
    after: u64,
) -> (result: String)
    requires
        before < u64::MAX,
    ensures
        result@ == device_copy_line(applied_view(*applied), before, after),
{
    match applied {
        Ok(None) => if after == before + 1 {
            "OK duplicate  local=installed  response=none".to_owned()
        } else {
            "OK duplicate  local=idempotent  response=none".to_owned()
        },
        Ok(Some(_)) => "ERROR duplicate  local=failed  response=unexpected".to_owned(),
        Err(text) => join(
            "ERROR duplicate  local=failed  response=none  cause=",
            text.as_str(),
        ),
    }
}

/// How an endpoint loop goes on.
#[derive(Debug)]
pub enum LoopStep {
    /// With the next event.
    Next,
    /// With the next event, after this line is printed.
    Print(String),
    /// The loop is done.
    Finish,
    /// The loop fails.
    Fail(String),
}

/// A loop step as a mathematical value.
pub enum LoopView {
    /// With the next event.
    Next,
    /// With the next event, after this line is printed.
    Print(Seq<char>),
    /// The loop is done.
    Finish,
    /// The loop fails.
    Fail(Seq<char>),
}

impl View for LoopStep {
    type V = LoopView;

    open spec fn view(&self) -> LoopView {
        match self {
            LoopStep::Next => LoopView::Next,
            LoopStep::Print(text) => LoopView::Print(text@),
            LoopStep::Finish => LoopView::Finish,
            LoopStep::Fail(text) => LoopView::Fail(text@),
        }
    }
}

/// How the console loop goes on after a command. With `once`, the first
/// command that is carried out ends it.
pub fn after_command(result: &Result<CommandResult, String>, once: bool) -> (step: LoopStep)
    ensures
        step@ == (match result {
            Ok(CommandResult::Quit) => LoopView::Finish,
            Ok(CommandResult::Successful) => if once {
                LoopView::Finish
            } else {
                LoopView::Next
            },
            Ok(_) => LoopView::Next,
            Err(text) => LoopView::Print("ERROR "@ + text@),
        }),
{
    match result {
        Ok(CommandResult::Quit) => LoopStep::Finish,
        Ok(CommandResult::Successful) => if once {
            LoopStep::Finish
        } else {
            LoopStep::Next
        },
        Ok(CommandResult::Continue) => LoopStep::Next,
        Ok(CommandResult::Unavailable) => LoopStep::Next,
        Err(text) => LoopStep::Print(join("ERROR ", text.as_str())),
    }
}

/// How a loop goes on after an error.
pub open spec fn error_step(fault: EndpointFault) -> LoopView {
    match fault {
        EndpointFault::Drop(text) => LoopView::Print("ERROR "@ + text),
        EndpointFault::Fatal(text) => LoopView::Fail(text),
    }
}

/// Returns how a loop goes on after an error.
pub fn after_error(error: &EndpointError) -> (step: LoopStep)
    ensures
        step@ == error_step(error@),
{
    match error {
        EndpointError::Drop(text) => LoopStep::Print(join("ERROR ", text.as_str())),
        EndpointError::Fatal(text) => LoopStep::Fail(text.clone()),
    }
}

/// How a loop goes on after a packet or a frame. With `once`, the first one
/// that was passed on ends it.
pub fn after_traffic(result: &Result<(), EndpointError>, once: bool) -> (step: LoopStep)
    ensures
        step@ == (match result {
            Ok(_) => if once {
                LoopView::Finish
            } else {
                LoopView::Next
            },
            Err(error) => error_step(error@),
        }),
{
    match result {
        Ok(()) => if once {
            LoopStep::Finish
        } else {
            LoopStep::Next
        },
        Err(error) => after_error(error),
    }
}

/// How a loop goes on when no frame was received: `idle` tells that the link
/// only had none in time.
pub fn after_missing_frame(role: LinkRole, idle: bool, error: &str) -> (step: LoopStep)
    ensures
        step@ == (if idle {
            LoopView::Next
        } else {
            LoopView::Print(
                match role {
                    LinkRole::Core => "ERROR receive SCHC frame: "@,
                    LinkRole::Device => "ERROR receive request SCHC frame: "@,
                } + error@,
            )
        }),
{
    if idle {
        return LoopStep::Next;
    }
    match role {
        LinkRole::Core => LoopStep::Print(join("ERROR receive SCHC frame: ", error)),
        LinkRole::Device => LoopStep::Print(join("ERROR receive request SCHC frame: ", error)),
    }
}

/// What happens while the core waits for a management response.
#[derive(Debug)]
pub enum WaitEvent {
    /// The request is prepared.
    Prepared,
    /// The request could not be sent.
    SendFailed(String),
    /// The time for the response is over, in milliseconds.
    Expired(u64),
    /// The TUN device failed.
    PollFailed(String),
    /// A packet of the TUN device was handled.
    Packet(Result<(), EndpointError>),
    /// A frame was handled.
    Frame(Result<CoreFrameStep, EndpointError>),
    /// No frame came in time.
    NoFrame,
    /// The link failed.
    ReceiveFailed(String),
}

/// How far a management exchange of the core came.
#[derive(Debug, Clone, Copy, PartialEq, Eq, Structural)]
pub enum WaitStage {
    /// Nothing was sent.
    Ready,
    /// The request was sent, and its response is awaited.
    Sent,
    /// The response came, or the core gave up.
    Ended,
}

/// How the core goes on waiting for a management response.
#[derive(Debug)]
pub enum WaitStep {
    /// It sends the request, and waits.
    Send,
    /// It waits on.
    Wait,
    /// It prints a line and waits on.
    Print(String),
    /// The response came, with its code.
    Done(u8, ManagementExchange),
    /// It gives up.
    Fail(String),
}

/// How the core goes on after an error while it waits.
pub open spec fn waits_on(error: EndpointError, step: WaitStep) -> bool {
    match error {
        EndpointError::Drop(text) => step matches WaitStep::Print(line) && line@ == "ERROR "@
            + text@,
        EndpointError::Fatal(text) => step matches WaitStep::Fail(line) && line@ == text@,
    }
}

/// How the core goes on waiting for the response to a sent request.
pub open spec fn sent_outcome(event: WaitEvent, step: WaitStep) -> bool {
    match event {
        WaitEvent::Prepared => is_out_of_order(step),
        WaitEvent::SendFailed(text) => step matches WaitStep::Fail(line) && line@
            == "send management SCHC frame: "@ + text@,
        WaitEvent::Expired(milliseconds) => step matches WaitStep::Fail(line) && line@
            == "management response timeout after "@ + decimal(milliseconds as nat) + " ms"@,
        WaitEvent::PollFailed(text) => step matches WaitStep::Fail(line) && line@ == text@,
        WaitEvent::Packet(Ok(_)) => step is Wait,
        WaitEvent::Packet(Err(error)) => waits_on(error, step),
        WaitEvent::Frame(Ok(CoreFrameStep::Management(code, exchange))) => step == WaitStep::Done(
            code,
            exchange,
        ),
        WaitEvent::Frame(Ok(CoreFrameStep::Write)) => step is Wait,
        WaitEvent::Frame(Err(error)) => waits_on(error, step),
        WaitEvent::NoFrame => step is Wait,
        WaitEvent::ReceiveFailed(text) => step matches WaitStep::Fail(line) && line@
            == "receive management SCHC frame: "@ + text@,
    }
}

/// Whether a step refuses an event that the stage does not expect.
pub open spec fn is_out_of_order(step: WaitStep) -> bool {
    step matches WaitStep::Fail(line) && line@ == "management exchange is out of order"@
}

/// Whether a step ends the exchange.
pub open spec fn is_end(step: WaitStep) -> bool {
    step is Done || step is Fail
}

/// How a management exchange goes on after an event.
pub open spec fn wait_outcome(
    stage: WaitStage,
    event: WaitEvent,
    next: WaitStage,
    step: WaitStep,
) -> bool {
    match stage {
        WaitStage::Ready => if event is Prepared {
            next == WaitStage::Sent && step is Send
        } else {
            next == WaitStage::Ended && is_out_of_order(step)
        },
        WaitStage::Sent => sent_outcome(event, step) && next == (if is_end(step) {
            WaitStage::Ended
        } else {
            WaitStage::Sent
        }),
        WaitStage::Ended => next == WaitStage::Ended && is_out_of_order(step),
    }
}

fn wait_after_error(error: EndpointError) -> (step: WaitStep)
    ensures
        waits_on(error, step),
{
    match error {
        EndpointError::Drop(text) => WaitStep::Print(join("ERROR ", text.as_str())),
        EndpointError::Fatal(text) => WaitStep::Fail(text),
    }
}

fn await_response(event: WaitEvent) -> (step: WaitStep)
    ensures
        sent_outcome(event, step),
{
    match event {
        WaitEvent::Prepared => {
            WaitStep::Fail("management exchange is out of order".to_owned())
        },
        WaitEvent::SendFailed(text) => WaitStep::Fail(
            join("send management SCHC frame: ", text.as_str()),
        ),
        WaitEvent::Expired(milliseconds) => WaitStep::Fail(
            join3(
                "management response timeout after ",
                decimal_string(milliseconds).as_str(),
                " ms",
            ),
        ),
        WaitEvent::PollFailed(text) => WaitStep::Fail(text),
        WaitEvent::Packet(Ok(_)) => WaitStep::Wait,
        WaitEvent::Packet(Err(error)) => wait_after_error(error),
        WaitEvent::Frame(Ok(CoreFrameStep::Management(code, exchange))) => WaitStep::Done(
            code,
            exchange,
        ),
        WaitEvent::Frame(Ok(CoreFrameStep::Write)) => WaitStep::Wait,
        WaitEvent::Frame(Err(error)) => wait_after_error(error),
        WaitEvent::NoFrame => WaitStep::Wait,
        WaitEvent::ReceiveFailed(text) => WaitStep::Fail(
            join("receive management SCHC frame: ", text.as_str()),
        ),
    }
}

/// Decides how a management exchange of the core goes on after an event.
pub fn wait_step(stage: WaitStage, event: WaitEvent) -> (result: (WaitStage, WaitStep))
    ensures
        wait_outcome(stage, event, result.0, result.1),
{
    match (stage, event) {
        (WaitStage::Ready, WaitEvent::Prepared) => (WaitStage::Sent, WaitStep::Send),
        (WaitStage::Sent, event) => {
            let step = await_response(event);
            let next = match &step {
                WaitStep::Done(_, _) | WaitStep::Fail(_) => WaitStage::Ended,
                _ => WaitStage::Sent,
            };
            (next, step)
        },
        _ => (
            WaitStage::Ended,
            WaitStep::Fail("management exchange is out of order".to_owned()),
        ),
    }
}

/// Whether stages and steps are those of one management exchange with these
/// events.
pub open spec fn is_exchange(
    stages: Seq<WaitStage>,
    events: Seq<WaitEvent>,
    steps: Seq<WaitStep>,
) -> bool {
    &&& stages.len() == events.len() + 1
    &&& steps.len() == events.len()
    &&& stages[0] == WaitStage::Ready
    &&& forall|i: int|
        #![trigger steps[i]]
        0 <= i < events.len() ==> wait_outcome(stages[i], events[i], stages[i + 1], steps[i])
}

/// A management exchange sends its request at most once, before anything else,
/// and never again while it waits.
pub proof fn request_is_sent_once(
    stages: Seq<WaitStage>,
    events: Seq<WaitEvent>,
    steps: Seq<WaitStep>,
    at: int,
)
    requires
        is_exchange(stages, events, steps),
        0 <= at < steps.len(),
    ensures
        steps[at] is Send ==> at == 0,
        at > 0 ==> stages[at] != WaitStage::Ready,
    decreases at,
{
    assert(wait_outcome(stages[at], events[at], stages[at + 1], steps[at]));
    if at > 0 {
        request_is_sent_once(stages, events, steps, at - 1);
        assert(wait_outcome(stages[at - 1], events[at - 1], stages[at], steps[at - 1]));
    }
}

/// Protected management traffic never reaches the device's TUN device: what is
/// written there is application traffic from the core.
pub proof fn device_management_stays_off_the_tun(
    route: TrafficRoute,
    packet: CoapPacketView,
    outcome: Result<DeviceFrameStep, EndpointFault>,
)
    requires
        device_frame_outcome(route, packet, outcome),
        outcome == Ok::<DeviceFrameStep, EndpointFault>(DeviceFrameStep::Write),
    ensures
        route == TrafficRoute::Application,
        oriented(packet, LinkRole::Core, APPLICATION_PORT),
{
}

/// Protected management traffic never reaches the core's TUN device: a frame
/// that is not dropped and answers no request is application traffic from the
/// device.
pub proof fn core_management_stays_off_the_tun(route: TrafficRoute, packet: CoapPacketView)
    requires
        core_frame_fault(route, packet) is None,
    ensures
        route == TrafficRoute::Application,
        oriented(packet, LinkRole::Device, APPLICATION_PORT),
{
}

/// A dropped frame never ends the wait: neither an unrelated protected
/// response nor a malformed frame hides the right response that follows.
pub proof fn dropped_frame_keeps_waiting(text: String, next: WaitStage, step: WaitStep)
    requires
        wait_outcome(
            WaitStage::Sent,
            WaitEvent::Frame(Err(EndpointError::Drop(text))),
            next,
            step,
        ),
    ensures
        next == WaitStage::Sent,
        step is Print,
{
}

/// A packet goes from the core to the device exactly when its source is
/// 2001:db8::2, its destination 2001:db8::1 and both ports the given one; it
/// goes from the device with the addresses the other way round.
pub proof fn orientation_is_that_of_the_addresses(packet: CoapPacketView, port: u16)
    ensures
        oriented(packet, LinkRole::Core, port) <==> packet.packet.source
            == 0x2001_0db8_0000_0000_0000_0000_0000_0002 && packet.packet.destination
            == 0x2001_0db8_0000_0000_0000_0000_0000_0001 && packet.packet.source_port == port
            && packet.packet.destination_port == port,
        oriented(packet, LinkRole::Device, port) <==> packet.packet.source
            == 0x2001_0db8_0000_0000_0000_0000_0000_0001 && packet.packet.destination
            == 0x2001_0db8_0000_0000_0000_0000_0000_0002 && packet.packet.source_port == port
            && packet.packet.destination_port == port,
{
}

/// What the device does with a frame from the core: protected management on
/// port 8724 that is a duplicate operation is applied, any other request there
/// is answered, application traffic on port 5683 goes to the TUN device, and
/// whatever came another way is dropped.
pub proof fn device_frames_go_by_route_and_port(
    route: TrafficRoute,
    packet: CoapPacketView,
    outcome: Result<DeviceFrameStep, EndpointFault>,
)
    requires
        device_frame_outcome(route, packet, outcome),
    ensures
        ({
            let from_core = packet.packet.source == 0x2001_0db8_0000_0000_0000_0000_0000_0002
                && packet.packet.destination == 0x2001_0db8_0000_0000_0000_0000_0000_0001
                && packet.packet.source_port == packet.packet.destination_port;
            let port = packet.packet.source_port;
            &&& route == TrafficRoute::ProtectedManagement && from_core && port == 8724 ==> match coap_read(
                packet.datagram,
            ) {
                Some(message) => outcome == Ok::<DeviceFrameStep, EndpointFault>(
                    if duplicate_shape(message) {
                        DeviceFrameStep::Duplicate
                    } else {
                        DeviceFrameStep::Request
                    },
                ),
                None => outcome is Err,
            }
            &&& route == TrafficRoute::ProtectedManagement && !(from_core && port == 8724)
                ==> outcome is Err
            &&& route == TrafficRoute::Application && from_core && port == 5683 ==> outcome == Ok::<
                DeviceFrameStep,
                EndpointFault,
            >(DeviceFrameStep::Write)
            &&& route == TrafficRoute::Application && !(from_core && port == 5683) ==> outcome
                is Err
            &&& outcome matches Err(fault) ==> fault is Drop
        }),
{
}

/// What the core does with a frame that answers no request: application
/// traffic from the device on port 5683 goes to the TUN device, everything
/// else is dropped. A frame is taken for a response only under protected
/// management and while a response is awaited.
pub proof fn core_frames_go_by_route_and_port(route: TrafficRoute, packet: CoapPacketView)
    ensures
        core_frame_fault(route, packet) is None <==> route == TrafficRoute::Application
            && packet.packet.source == 0x2001_0db8_0000_0000_0000_0000_0000_0001
            && packet.packet.destination == 0x2001_0db8_0000_0000_0000_0000_0000_0002
            && packet.packet.source_port == 5683 && packet.packet.destination_port == 5683,
        core_frame_fault(route, packet) matches Some(fault) ==> fault is Drop,
        awaited(TrafficRoute::ProtectedManagement, true),
        !awaited(TrafficRoute::ProtectedManagement, false),
        !awaited(TrafficRoute::Application, true),
{
}

/// A failure to send or to write ends an endpoint, as does a report that
/// cannot be printed; a packet, frame, request or response that cannot be
/// handled is dropped, and the endpoint goes on.
pub proof fn only_input_and_output_failures_are_fatal(role: LinkRole, text: String)
    ensures
        stage_fault(role, EndpointStage::ParsePacket(text)) is Drop,
        stage_fault(role, EndpointStage::EncodePacket(text)) is Drop,
        stage_fault(role, EndpointStage::SendPacket(text)) is Fatal,
        stage_fault(role, EndpointStage::DecodeFrame(text)) is Drop,
        stage_fault(role, EndpointStage::WritePacket(text)) is Fatal,
        stage_fault(role, EndpointStage::Report(text)) == EndpointFault::Fatal(text@),
        stage_fault(role, EndpointStage::HandleRequest(text)) is Drop,
        stage_fault(role, EndpointStage::BuildResponse(text)) is Drop,
        stage_fault(role, EndpointStage::EncodeResponse(text)) is Drop,
        stage_fault(role, EndpointStage::SendResponse(text)) is Fatal,
        error_step(EndpointFault::Drop(text@)) == LoopView::Print("ERROR "@ + text@),
        error_step(EndpointFault::Fatal(text@)) == LoopView::Fail(text@),
{
}

/// While the core waits, its right response ends the exchange with the code
/// and content of that response; the end of time, a failed device or link and
/// a fatal error end it without one; and everything else leaves it waiting.
pub proof fn exchange_ends_with_its_response(
    event: WaitEvent,
    next: WaitStage,
    step: WaitStep,
)
    requires
        wait_outcome(WaitStage::Sent, event, next, step),
    ensures
        step is Done <==> event matches WaitEvent::Frame(Ok(CoreFrameStep::Management(_, _))),
        event matches WaitEvent::Frame(Ok(CoreFrameStep::Management(code, exchange))) ==> step
            == WaitStep::Done(code, exchange),
        event is Expired ==> step is Fail && next == WaitStage::Ended,
        event is SendFailed || event is PollFailed || event is ReceiveFailed ==> step is Fail
            && next == WaitStage::Ended,
        event is NoFrame ==> step is Wait && next == WaitStage::Sent,
        event matches WaitEvent::Packet(Ok(_)) ==> step is Wait && next == WaitStage::Sent,
        event matches WaitEvent::Frame(Ok(CoreFrameStep::Write)) ==> step is Wait && next
            == WaitStage::Sent,
        event matches WaitEvent::Packet(Err(EndpointError::Drop(_))) ==> step is Print && next
            == WaitStage::Sent,
        event matches WaitEvent::Packet(Err(EndpointError::Fatal(_))) ==> step is Fail && next
            == WaitStage::Ended,
        event matches WaitEvent::Frame(Err(EndpointError::Fatal(_))) ==> step is Fail && next
            == WaitStage::Ended,
        !(step is Send),
{
}

/// The device reports a duplicate operation as installed exactly where its
/// handler answered nothing and the generation rose by one, as idempotent
/// where it answered nothing and the generation did not, and as an error
/// otherwise.
pub proof fn device_reports_what_it_installed(before: u64, after: u64, text: Seq<char>)
    requires
        before < u64::MAX,
    ensures
        after == before + 1 ==> device_copy_line(Ok(false), before, after)
            == "OK duplicate  local=installed  response=none"@,
        after != before + 1 ==> device_copy_line(Ok(false), before, after)
            == "OK duplicate  local=idempotent  response=none"@,
        device_copy_line(Ok(true), before, after)
            == "ERROR duplicate  local=failed  response=unexpected"@,
        device_copy_line(Err(text), before, after)
            == "ERROR duplicate  local=failed  response=none  cause="@ + text,
{
}

} // verus!
