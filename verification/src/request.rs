//! Management requests: their methods, options and payloads.

use vstd::prelude::*;

use crate::cbor::same_bytes;
use crate::coap::{
    coap_read, coap_written, options_size, options_view, read_coap, reads_back, write_coap, Coap,
    CoapMessage, CoapOption, COAP_CONFIRMABLE, COAP_NON_CONFIRMABLE, CONTENT_FORMAT, URI_PATH,
};
use crate::codec::{ContextTag, CONTEXT_TAG_LEN};
use crate::error::{unexpected, Fault, InspectionError};
use crate::path::{management_instance_path, request_path, InstancePath, Step};
use crate::rule::copy_bytes;
use crate::selector::RuleSelector;
use crate::sid::{model_request_sids, request_sids, ModelView, SidModel};

verus! {

/// Code of a GET request.
pub const COAP_GET: u8 = 1;

/// Code of a POST request.
pub const COAP_POST: u8 = 2;

/// Code of a DELETE request.
pub const COAP_DELETE: u8 = 4;

/// Code of a FETCH request.
pub const COAP_FETCH: u8 = 5;

/// Code of a PATCH request.
pub const COAP_PATCH: u8 = 6;

/// Code of an iPATCH request.
pub const COAP_IPATCH: u8 = 7;

/// Marker used as the first byte of the compact context-check payload.
pub const CONTEXT_CHECK_MARKER: u8 = 0xC6;

/// Result byte of a context check with equal tags.
pub const CONTEXT_CHECK_EQUAL: u8 = 0;

/// Result byte of a context check with different tags.
pub const CONTEXT_CHECK_MISMATCH: u8 = 1;

/// The path segment of the management resource.
pub open spec fn schc_segment() -> Seq<u8> {
    seq![115u8, 99, 104, 99]
}

/// Returns the path segment of the management resource.
pub(crate) fn schc_bytes() -> (result: Vec<u8>)
    ensures
        result@ == schc_segment(),
{
    let bytes: Vec<u8> = vec![115, 99, 104, 99];
    assert(bytes@ =~= schc_segment());
    bytes
}

/// The values of the options with a number, in their order.
pub open spec fn option_values(options: Seq<(u16, Seq<u8>)>, number: u16) -> Seq<Seq<u8>>
    decreases options.len(),
{
    if options.len() == 0 {
        Seq::empty()
    } else if options.last().0 == number {
        option_values(options.drop_last(), number).push(options.last().1)
    } else {
        option_values(options.drop_last(), number)
    }
}

/// The byte strings of a list.
pub open spec fn strings_of(list: Seq<Vec<u8>>) -> Seq<Seq<u8>> {
    Seq::new(list.len(), |i: int| list[i]@)
}

/// Returns the values of the options with a number.
pub fn values_of(message: &CoapMessage, number: u16) -> (result: Vec<Vec<u8>>)
    ensures
        strings_of(result@) == option_values(message@.options, number),
{
    let ghost view = options_view(message.options@);
    let mut result: Vec<Vec<u8>> = Vec::new();
    let mut index: usize = 0;
    proof {
        assert(strings_of(result@) =~= option_values(view.take(0), number));
    }
    while index < message.options.len()
        invariant
            index <= message.options@.len(),
            view == options_view(message.options@),
            strings_of(result@) == option_values(view.take(index as int), number),
        decreases message.options.len() - index,
    {
        proof {
            assert(view.take(index + 1).drop_last() =~= view.take(index as int));
            assert(view.take(index + 1).last() == view[index as int]);
        }
        if message.options[index].number == number {
            let ghost before = strings_of(result@);
            result.push(copy_bytes(message.options[index].value.as_slice()));
            assert(strings_of(result@) =~= before.push(view[index as int].1));
        }
        index += 1;
    }
    assert(view.take(view.len() as int) =~= view);
    result
}

/// Whether a message is a duplicate-rule request: a non-confirmable POST of
/// instances to the management resource without a token.
pub open spec fn duplicate_shape(message: Coap) -> bool {
    &&& message.code == COAP_POST
    &&& message.message_type == COAP_NON_CONFIRMABLE
    &&& message.token.len() == 0
    &&& option_values(message.options, URI_PATH) == seq![schc_segment()]
    &&& option_values(message.options, CONTENT_FORMAT) == seq![seq![142u8]]
}

fn single_value(values: &Vec<Vec<u8>>, expected: &[u8]) -> (result: bool)
    ensures
        result == (strings_of(values@) == seq![expected@]),
{
    if values.len() != 1 {
        assert(strings_of(values@).len() != 1);
        return false;
    }
    let equal = same_bytes(values[0].as_slice(), expected);
    proof {
        assert(strings_of(values@)[0] == values@[0]@);
        if equal {
            assert(strings_of(values@) =~= seq![expected@]);
        } else if strings_of(values@) == seq![expected@] {
            assert(seq![expected@][0] == expected@);
        }
    }
    equal
}

/// Returns whether a message is a duplicate-rule request.
pub fn is_duplicate_rule_coap_shape(message: &CoapMessage) -> (result: bool)
    ensures
        result == duplicate_shape(message@),
{
    let format: Vec<u8> = vec![142];
    assert(format@ =~= seq![142u8]);
    message.code == COAP_POST && message.message_type == COAP_NON_CONFIRMABLE
        && message.token.len() == 0 && single_value(
        &values_of(message, URI_PATH),
        schc_bytes().as_slice(),
    ) && single_value(&values_of(message, CONTENT_FORMAT), format.as_slice())
}

/// Returns whether a raw datagram is a duplicate-rule request.
///
/// This does not assume a particular rule; the protected rule is selected by
/// the classification of the active context.
pub fn is_duplicate_rule_datagram(datagram: &[u8]) -> (result: bool)
    ensures
        result == (coap_read(datagram@) matches Some(message) && duplicate_shape(message)),
{
    match read_coap(datagram) {
        Ok(message) => is_duplicate_rule_coap_shape(&message),
        Err(_) => false,
    }
}

/// A request to the management resource without payload.
pub open spec fn base_message(method: u8, message_id: u16) -> Coap {
    Coap {
        version: 1,
        message_type: COAP_CONFIRMABLE,
        code: method,
        message_id,
        token: Seq::empty(),
        options: seq![(URI_PATH, schc_segment())],
        payload: Seq::empty(),
    }
}

/// Builds a request to the management resource without payload.
pub fn base_request(method: u8, message_id: u16) -> (result: CoapMessage)
    ensures
        result@ == base_message(method, message_id),
{
    let options: Vec<CoapOption> = vec![CoapOption::new(URI_PATH, schc_bytes())];
    assert(options_view(options@) =~= seq![(URI_PATH, schc_segment())]);
    let message = CoapMessage {
        version: 1,
        message_type: COAP_CONFIRMABLE,
        code: method,
        message_id,
        token: Vec::new(),
        options,
        payload: Vec::new(),
    };
    assert(message@.token =~= Seq::<u8>::empty());
    assert(message@.payload =~= Seq::<u8>::empty());
    message
}

/// A request to the management resource with a content format and a payload.
pub open spec fn content_message(
    method: u8,
    message_type: u8,
    message_id: u16,
    format: u8,
    payload: Seq<u8>,
) -> Coap {
    Coap {
        message_type,
        options: seq![(URI_PATH, schc_segment()), (CONTENT_FORMAT, seq![format])],
        payload,
        ..base_message(method, message_id)
    }
}

/// Builds a request with a content format and a payload.
pub(crate) fn content_request(
    method: u8,
    message_type: u8,
    message_id: u16,
    format: u8,
    payload: Vec<u8>,
) -> (result: CoapMessage)
    ensures
        result@ == content_message(method, message_type, message_id, format, payload@),
{
    let mut message = base_request(method, message_id);
    message.message_type = message_type;
    let value: Vec<u8> = vec![format];
    assert(value@ =~= seq![format]);
    let ghost before = message@.options;
    let option = CoapOption::new(CONTENT_FORMAT, value);
    assert((option.number, option.value@) == (CONTENT_FORMAT, seq![format]));
    message.options.push(option);
    message.payload = payload;
    assert(message@.options =~= before.push((CONTENT_FORMAT, seq![format])));
    assert(message@.options =~= seq![(URI_PATH, schc_segment()), (CONTENT_FORMAT, seq![format])]);
    message
}

/// The datagram of a message, or an error whose text is left open.
pub open spec fn datagram_outcome(message: Coap, outcome: Result<Seq<u8>, Fault>) -> bool {
    match coap_written(message) {
        Some(datagram) => outcome == Ok::<Seq<u8>, Fault>(datagram) && (reads_back(message)
            ==> coap_read(datagram) == Some(message)),
        None => outcome matches Err(Fault::Coap(_)),
    }
}

/// The bytes or error of a result.
pub open spec fn datagram_view(result: Result<Vec<u8>, InspectionError>) -> Result<
    Seq<u8>,
    Fault,
> {
    match result {
        Ok(bytes) => Ok(bytes@),
        Err(error) => Err(error@),
    }
}

pub(crate) fn serialize(message: &CoapMessage) -> (result: Result<Vec<u8>, InspectionError>)
    requires
        crate::coap::fits_header(message@),
    ensures
        datagram_outcome(message@, datagram_view(result)),
{
    match write_coap(message) {
        Ok(datagram) => Ok(datagram),
        Err(text) => Err(InspectionError::Coap(text)),
    }
}

/// Builds a non-confirmable duplicate-rule request around its payload.
pub fn duplicate_rule_message(payload: Vec<u8>, message_id: u16) -> (result: CoapMessage)
    ensures
        result@ == content_message(
            COAP_POST,
            COAP_NON_CONFIRMABLE,
            message_id,
            142,
            payload@,
        ),
{
    content_request(COAP_POST, COAP_NON_CONFIRMABLE, message_id, 142, payload)
}

proof fn lemma_content_options(format: u8)
    ensures
        ({
            let options = seq![(URI_PATH, schc_segment()), (CONTENT_FORMAT, seq![format])];
            &&& option_values(options, URI_PATH) == seq![schc_segment()]
            &&& option_values(options, CONTENT_FORMAT) == seq![seq![format]]
        }),
{
    let options = seq![(URI_PATH, schc_segment()), (CONTENT_FORMAT, seq![format])];
    let one = options.drop_last();
    assert(one =~= seq![(URI_PATH, schc_segment())]);
    assert(one.drop_last() =~= Seq::<(u16, Seq<u8>)>::empty());
    reveal_with_fuel(option_values, 3);
    assert(option_values(options, URI_PATH) =~= seq![schc_segment()]);
    assert(option_values(options, CONTENT_FORMAT) =~= seq![seq![format]]);
}

/// Every duplicate-rule request that is written is recognised as one, whatever
/// its payload and message ID.
pub proof fn duplicate_request_is_recognised(payload: Seq<u8>, message_id: u16, datagram: Seq<u8>)
    requires
        datagram_outcome(
            content_message(COAP_POST, COAP_NON_CONFIRMABLE, message_id, 142, payload),
            Ok::<Seq<u8>, Fault>(datagram),
        ),
    ensures
        coap_read(datagram) matches Some(message) && duplicate_shape(message) && message.payload
            == payload && message.message_id == message_id,
{
    let message = content_message(COAP_POST, COAP_NON_CONFIRMABLE, message_id, 142, payload);
    lemma_content_options(142);
    assert(message.options[0].1.len() == 4);
    assert(message.options[1].1.len() == 1);
    assert(reads_back(message));
}

/// No request for rules or tags is taken for a duplicate-rule request.
pub proof fn inspection_request_is_no_duplicate(method: u8, message_id: u16, payload: Seq<u8>)
    ensures
        !duplicate_shape((Coap { payload, ..base_message(method, message_id) })),
        !duplicate_shape(content_message(method, COAP_CONFIRMABLE, message_id, 141, payload)),
        !duplicate_shape(content_message(method, COAP_CONFIRMABLE, message_id, 142, payload)),
{
}

/// The payload of a context check.
pub open spec fn check_payload(tag: Seq<u8>) -> Seq<u8> {
    seq![CONTEXT_CHECK_MARKER] + tag
}

/// A context-check request.
pub open spec fn check_message(tag: Seq<u8>, message_id: u16) -> Coap {
    Coap { payload: check_payload(tag), ..base_message(COAP_FETCH, message_id) }
}

/// Builds a compact context-check request.
pub fn context_check_request(tag: ContextTag, message_id: u16) -> (result: Vec<u8>)
    ensures
        coap_written(check_message(tag@, message_id)) == Some(result@),
        coap_read(result@) == Some(check_message(tag@, message_id)),
{
    let mut message = base_request(COAP_FETCH, message_id);
    message.payload.push(CONTEXT_CHECK_MARKER);
    let mut bytes = tag.to_vec();
    message.payload.append(&mut bytes);
    assert(message.payload@ =~= check_payload(tag@));
    assert(message@ == check_message(tag@, message_id));
    proof {
        let options = message@.options;
        assert(options =~= seq![(URI_PATH, schc_segment())]);
        assert(options.drop_last() =~= Seq::<(u16, Seq<u8>)>::empty());
        assert(options[0].1.len() == 4);
        reveal_with_fuel(options_size, 2);
        assert(options_size(options) == 9);
        assert(tag@.len() == 8);
        assert(message@.payload.len() == 9);
        assert(reads_back(message@));
    }
    match write_coap(&message) {
        Ok(datagram) => datagram,
        Err(_) => Vec::new(),
    }
}

/// What a device answers to a context check: the payload, or nothing for a
/// malformed check.
pub open spec fn check_reply(payload: Seq<u8>, device_tag: Seq<u8>) -> Option<Seq<u8>> {
    if payload.len() != 9 {
        None
    } else if payload.skip(1) == device_tag {
        Some(seq![CONTEXT_CHECK_MARKER, CONTEXT_CHECK_EQUAL])
    } else {
        Some(seq![CONTEXT_CHECK_MARKER, CONTEXT_CHECK_MISMATCH] + device_tag)
    }
}

/// Answers a context check.
pub fn context_check_response(payload: &[u8], device_tag: ContextTag) -> (result: Option<Vec<u8>>)
    ensures
        match result {
            Some(reply) => check_reply(payload@, device_tag@) == Some(reply@),
            None => check_reply(payload@, device_tag@) is None,
        },
{
    if payload.len() != 1 + CONTEXT_TAG_LEN {
        return None;
    }
    let mut core: Vec<u8> = Vec::new();
    let mut index: usize = 1;
    while index < payload.len()
        invariant
            1 <= index <= payload@.len(),
            core@ =~= payload@.subrange(1, index as int),
        decreases payload.len() - index,
    {
        core.push(payload[index]);
        index += 1;
    }
    assert(core@ =~= payload@.skip(1));
    let mut device = device_tag.to_vec();
    if same_bytes(core.as_slice(), device.as_slice()) {
        let reply: Vec<u8> = vec![CONTEXT_CHECK_MARKER, CONTEXT_CHECK_EQUAL];
        assert(reply@ =~= seq![CONTEXT_CHECK_MARKER, CONTEXT_CHECK_EQUAL]);
        return Some(reply);
    }
    let mut reply: Vec<u8> = vec![CONTEXT_CHECK_MARKER, CONTEXT_CHECK_MISMATCH];
    reply.append(&mut device);
    assert(reply@ =~= seq![CONTEXT_CHECK_MARKER, CONTEXT_CHECK_MISMATCH] + device_tag@);
    Some(reply)
}

/// Result of a compact core-to-device context check.
#[derive(Debug, Clone, Copy)]
pub struct ContextCheckResult {
    /// Core's locally held tag.
    pub core_tag: ContextTag,
    /// Device's returned tag.
    pub device_tag: ContextTag,
    /// Whether the two tags are equal.
    pub equal: bool,
}

/// What a context-check reply says: the device's tag and whether it equals the
/// core's.
pub open spec fn check_result(payload: Seq<u8>, core_tag: Seq<u8>) -> Result<
    (Seq<u8>, bool),
    Fault,
> {
    if payload.len() != 2 && payload.len() != 10 {
        Err(Fault::UnexpectedResponse("context-check response has invalid length"@))
    } else if payload[0] != CONTEXT_CHECK_MARKER {
        Err(Fault::UnexpectedResponse("context-check marker mismatch"@))
    } else if payload[1] == CONTEXT_CHECK_EQUAL && payload.len() == 2 {
        Ok((core_tag, true))
    } else if payload[1] == CONTEXT_CHECK_MISMATCH && payload.len() == 10 {
        Ok((payload.skip(2), payload.skip(2) == core_tag))
    } else {
        Err(Fault::UnexpectedResponse("invalid context-check result marker"@))
    }
}

/// Parses the compact context-check payload of a validated exchange.
pub fn decode_context_check_payload(payload: &[u8], core_tag: ContextTag) -> (result: Result<
    ContextCheckResult,
    InspectionError,
>)
    ensures
        match result {
            Ok(check) => check_result(payload@, core_tag@) == Ok::<(Seq<u8>, bool), Fault>(
                (check.device_tag@, check.equal),
            ) && check.core_tag@ == core_tag@ && check.equal == (check.core_tag@
                == check.device_tag@),
            Err(error) => check_result(payload@, core_tag@) == Err::<(Seq<u8>, bool), Fault>(
                error@,
            ),
        },
{
    if payload.len() != 2 && payload.len() != 2 + CONTEXT_TAG_LEN {
        return Err(unexpected("context-check response has invalid length"));
    }
    if payload[0] != CONTEXT_CHECK_MARKER {
        return Err(unexpected("context-check marker mismatch"));
    }
    if payload[1] == CONTEXT_CHECK_EQUAL && payload.len() == 2 {
        return Ok(ContextCheckResult { core_tag, device_tag: core_tag, equal: true });
    }
    if payload[1] == CONTEXT_CHECK_MISMATCH && payload.len() == 2 + CONTEXT_TAG_LEN {
        let device_tag = ContextTag::new(
            [
                payload[2],
                payload[3],
                payload[4],
                payload[5],
                payload[6],
                payload[7],
                payload[8],
                payload[9],
            ],
        );
        assert(device_tag@ =~= payload@.skip(2));
        let equal = device_tag.same(core_tag);
        return Ok(ContextCheckResult { core_tag, device_tag, equal });
    }
    Err(unexpected("invalid context-check result marker"))
}

/// A context check tells the truth: what the core decodes from the device's
/// reply is the device's tag, and equality of the two tags.
pub proof fn context_check_tells_the_device_tag(core_tag: Seq<u8>, device_tag: Seq<u8>)
    requires
        core_tag.len() == 8,
        device_tag.len() == 8,
    ensures
        check_reply(check_payload(core_tag), device_tag) is Some,
        check_result(check_reply(check_payload(core_tag), device_tag)->0, core_tag) == Ok::<
            (Seq<u8>, bool),
            Fault,
        >((device_tag, core_tag == device_tag)),
{
    let payload = check_payload(core_tag);
    assert(payload.skip(1) =~= core_tag);
    let reply = check_reply(payload, device_tag)->0;
    if core_tag != device_tag {
        assert(reply.len() == 10);
        assert(reply.skip(2) =~= device_tag);
        assert(reply[0] == CONTEXT_CHECK_MARKER);
        assert(reply[1] == CONTEXT_CHECK_MISMATCH);
    }
}

/// How a rule request is built around its encoded path.
pub open spec fn rule_request_outcome(
    encoded: Result<Seq<u8>, Seq<char>>,
    message_id: u16,
    outcome: Result<Seq<u8>, Fault>,
) -> bool {
    match encoded {
        Err(text) => outcome == Err::<Seq<u8>, Fault>(Fault::Datastore(text)),
        Ok(payload) => datagram_outcome(
            content_message(COAP_FETCH, COAP_CONFIRMABLE, message_id, 141, payload),
            outcome,
        ),
    }
}

/// The bytes or error text of an answer.
pub open spec fn payload_view(answer: Result<Vec<u8>, String>) -> Result<Seq<u8>, Seq<char>> {
    match answer {
        Ok(bytes) => Ok(bytes@),
        Err(text) => Err(text@),
    }
}

/// Builds a FETCH around the encoding of an instance path.
fn rule_request(encoded: Result<Vec<u8>, String>, message_id: u16) -> (result: Result<
    Vec<u8>,
    InspectionError,
>)
    ensures
        rule_request_outcome(payload_view(encoded), message_id, datagram_view(result)),
{
    match encoded {
        Err(text) => Err(InspectionError::Datastore(text)),
        Ok(payload) => serialize(
            &content_request(COAP_FETCH, COAP_CONFIRMABLE, message_id, 141, payload),
        ),
    }
}

/// The path that a rule request selects.
pub open spec fn selected_path(model: ModelView, selector: Option<RuleSelector>) -> Result<
    Seq<Step>,
    Fault,
> {
    match request_sids(model) {
        Err(fault) => Err(fault),
        Ok((root, rule)) => if selector is Some && !(i64::MIN <= rule - root <= i64::MAX) {
            Err(Fault::Datastore("rule-list SID delta overflows"@))
        } else {
            Ok(request_path(root as int, rule as int, selector))
        },
    }
}

/// Returns the path that a rule request selects: the root container for all
/// rules, or one rule by both keys.
pub fn rule_request_path(model: &SidModel, selector: Option<RuleSelector>) -> (result: Result<
    InstancePath,
    InspectionError,
>)
    ensures
        match result {
            Ok(path) => selected_path(model@, selector) == Ok::<Seq<Step>, Fault>(path@),
            Err(error) => selected_path(model@, selector) == Err::<Seq<Step>, Fault>(error@),
        },
{
    let (root, rule) = model_request_sids(model)?;
    management_instance_path(root, rule, selector)
}

/// Builds a FETCH for the root container. `encoded` is the encoding of the
/// path that [`rule_request_path`] returns without a selector.
pub fn rule_list_request(
    model: &SidModel,
    encoded: Result<Vec<u8>, String>,
    message_id: u16,
) -> (result: Result<Vec<u8>, InspectionError>)
    ensures
        match selected_path(model@, None) {
            Err(fault) => datagram_view(result) == Err::<Seq<u8>, Fault>(fault),
            Ok(_) => rule_request_outcome(
                payload_view(encoded),
                message_id,
                datagram_view(result),
            ),
        },
{
    let _ = rule_request_path(model, None)?;
    rule_request(encoded, message_id)
}

/// Builds a FETCH for one rule. `encoded` is the encoding of the path that
/// [`rule_request_path`] returns for the selector.
pub fn rule_get_request(
    model: &SidModel,
    selector: RuleSelector,
    encoded: Result<Vec<u8>, String>,
    message_id: u16,
) -> (result: Result<Vec<u8>, InspectionError>)
    ensures
        match selected_path(model@, Some(selector)) {
            Err(fault) => datagram_view(result) == Err::<Seq<u8>, Fault>(fault),
            Ok(_) => rule_request_outcome(
                payload_view(encoded),
                message_id,
                datagram_view(result),
            ),
        },
{
    let _ = rule_request_path(model, Some(selector))?;
    rule_request(encoded, message_id)
}

/// The values of an option are those of the options with its number, in their
/// order: a single option gives its own value, lists of options give theirs
/// one after the other, and other options give none.
pub proof fn option_values_are_those_of_the_number(
    front: Seq<(u16, Seq<u8>)>,
    back: Seq<(u16, Seq<u8>)>,
    number: u16,
    value: Seq<u8>,
    other: u16,
)
    ensures
        option_values(seq![(number, value)], number) == seq![value],
        other != number ==> option_values(seq![(number, value)], other).len() == 0,
        option_values(front + back, other) == option_values(front, other) + option_values(
            back,
            other,
        ),
    decreases back.len(),
{
    let single = seq![(number, value)];
    assert(single.drop_last() =~= Seq::<(u16, Seq<u8>)>::empty());
    assert(option_values(single.drop_last(), number) =~= Seq::<Seq<u8>>::empty());
    assert(option_values(single.drop_last(), other) =~= Seq::<Seq<u8>>::empty());
    assert(option_values(single, number) =~= seq![value]);
    if back.len() == 0 {
        assert(front + back =~= front);
        assert(option_values(front, other) + option_values(back, other) =~= option_values(
            front,
            other,
        ));
    } else {
        option_values_are_those_of_the_number(front, back.drop_last(), number, value, other);
        assert((front + back).drop_last() =~= front + back.drop_last());
        assert((front + back).last() == back.last());
        assert(option_values(front + back, other) =~= option_values(front, other) + option_values(
            back,
            other,
        ));
    }
}

/// Every management request is a CoAP message of version one without a token
/// to the path `schc`, which is a Uri-Path option of number eleven. A request
/// with content tells its format in a Content-Format option of number twelve.
pub proof fn requests_go_to_the_management_resource(
    method: u8,
    message_type: u8,
    message_id: u16,
    format: u8,
    payload: Seq<u8>,
)
    ensures
        ({
            let plain = base_message(method, message_id);
            &&& plain.version == 1
            &&& plain.message_type == 0
            &&& plain.code == method
            &&& plain.message_id == message_id
            &&& plain.token.len() == 0
            &&& plain.options.len() == 1
            &&& plain.options[0].0 == 11
            &&& plain.options[0].1 == seq![115u8, 99u8, 104u8, 99u8]
            &&& plain.payload.len() == 0
        }),
        ({
            let message = content_message(method, message_type, message_id, format, payload);
            &&& message.version == 1
            &&& message.message_type == message_type
            &&& message.code == method
            &&& message.message_id == message_id
            &&& message.token.len() == 0
            &&& message.options.len() == 2
            &&& message.options[0] == (11u16, seq![115u8, 99u8, 104u8, 99u8])
            &&& message.options[1] == (12u16, seq![format])
            &&& message.payload == payload
        }),
{
}

/// A context check is a confirmable FETCH, code five, whose payload is the
/// marker byte 0xC6 followed by the tag.
pub proof fn context_check_carries_the_tag(tag: Seq<u8>, message_id: u16)
    ensures
        ({
            let message = check_message(tag, message_id);
            &&& message.code == 5
            &&& message.message_type == 0
            &&& message.message_id == message_id
            &&& message.options.len() == 1
            &&& message.payload.len() == 1 + tag.len()
            &&& message.payload[0] == 0xC6
            &&& message.payload.skip(1) == tag
        }),
{
    assert(check_message(tag, message_id).payload.skip(1) =~= tag);
}

/// A device answers a context check of nine bytes with the marker and a zero
/// where the tag is its own, and with the marker, a one and its own tag where
/// it is not. It does not answer a check of another length.
pub proof fn context_check_reply_has_its_form(payload: Seq<u8>, device_tag: Seq<u8>)
    requires
        device_tag.len() == 8,
    ensures
        check_reply(payload, device_tag) is Some <==> payload.len() == 9,
        payload.len() == 9 && payload.skip(1) == device_tag ==> check_reply(payload, device_tag)
            == Some(seq![0xC6u8, 0u8]),
        payload.len() == 9 && payload.skip(1) != device_tag ==> ({
            let reply = check_reply(payload, device_tag)->0;
            &&& reply.len() == 10
            &&& reply[0] == 0xC6
            &&& reply[1] == 1
            &&& reply.skip(2) == device_tag
        }),
{
    let reply = seq![CONTEXT_CHECK_MARKER, CONTEXT_CHECK_MISMATCH] + device_tag;
    assert(reply.skip(2) =~= device_tag);
}

/// A request for rules that is written reads back as a confirmable FETCH, code
/// five, of content format 141 around the encoded path.
pub proof fn rule_request_carries_its_path(
    payload: Seq<u8>,
    message_id: u16,
    datagram: Seq<u8>,
)
    requires
        rule_request_outcome(Ok(payload), message_id, Ok(datagram)),
    ensures
        ({
            let message = coap_read(datagram)->0;
            &&& coap_read(datagram) is Some
            &&& message.code == 5
            &&& message.message_type == 0
            &&& message.message_id == message_id
            &&& message.token.len() == 0
            &&& message.options.len() == 2
            &&& message.options[0] == (11u16, seq![115u8, 99u8, 104u8, 99u8])
            &&& message.options[1] == (12u16, seq![141u8])
            &&& message.payload == payload
        }),
{
    let message = content_message(COAP_FETCH, COAP_CONFIRMABLE, message_id, 141, payload);
    assert(message.options[0].1.len() == 4);
    assert(message.options[1].1.len() == 1);
    assert(reads_back(message));
}

/// A duplicate-rule request has code two and is not confirmed; its content
/// format is 142 and its payload the operation. Nothing else has that shape:
/// not another code, not a confirmable message, and none with a token.
pub proof fn duplicate_request_has_its_form(payload: Seq<u8>, message_id: u16, message: Coap)
    ensures
        ({
            let request = content_message(
                COAP_POST,
                COAP_NON_CONFIRMABLE,
                message_id,
                142,
                payload,
            );
            &&& request.code == 2
            &&& request.message_type == 1
            &&& request.options[1].1[0] == 142
            &&& request.payload == payload
            &&& duplicate_shape(request)
        }),
        duplicate_shape(message) ==> {
            &&& message.code == 2
            &&& message.message_type == 1
            &&& message.token.len() == 0
            &&& option_values(message.options, 11).len() == 1
            &&& option_values(message.options, 11)[0] == seq![115u8, 99u8, 104u8, 99u8]
            &&& option_values(message.options, 12).len() == 1
            &&& option_values(message.options, 12)[0] == seq![142u8]
        },
{
    lemma_content_options(142);
}

/// What the core takes from the reply to a context check: a reply of two bytes
/// with a zero says that both tags are the same, a reply of ten bytes with a
/// one tells the device's tag, and no other reply is accepted.
pub proof fn accepted_check_reply_has_its_form(payload: Seq<u8>, core_tag: Seq<u8>)
    ensures
        check_result(payload, core_tag) is Ok <==> (payload.len() == 2 && payload[0] == 0xC6
            && payload[1] == 0) || (payload.len() == 10 && payload[0] == 0xC6 && payload[1] == 1),
        payload.len() == 2 && payload[0] == 0xC6 && payload[1] == 0 ==> check_result(
            payload,
            core_tag,
        ) == Ok::<(Seq<u8>, bool), Fault>((core_tag, true)),
        payload.len() == 10 && payload[0] == 0xC6 && payload[1] == 1 ==> check_result(
            payload,
            core_tag,
        ) == Ok::<(Seq<u8>, bool), Fault>(
            (payload.subrange(2, 10), payload.subrange(2, 10) == core_tag),
        ),
{
    if payload.len() == 10 {
        assert(payload.skip(2) =~= payload.subrange(2, 10));
    }
}

/// The path of a rule request is that of the root and the rule list of the
/// model, and of the selected rule where one is selected.
pub proof fn requested_path_is_that_of_the_model(
    model: ModelView,
    selector: Option<RuleSelector>,
)
    ensures
        selected_path(model, selector) is Ok <==> request_sids(model) is Ok && (selector is None
            || i64::MIN <= (request_sids(model)->Ok_0).1 - (request_sids(model)->Ok_0).0
            <= i64::MAX),
        selected_path(model, selector) is Ok ==> selected_path(model, selector)->Ok_0
            == request_path(
            (request_sids(model)->Ok_0).0 as int,
            (request_sids(model)->Ok_0).1 as int,
            selector,
        ),
{
}

} // verus!
