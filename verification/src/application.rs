//! The generic data service: its paths, its discovery, and the listing of its
//! schema.

use vstd::multiset::Multiset;
use vstd::prelude::*;
use vstd::utf8::{decode_utf8, encode_utf8, valid_utf8};

use crate::coap::{
    coap_read, coap_written, fits_header, read_coap, reads_back, write_coap, Coap, CoapMessage,
    CoapOption, COAP_ACKNOWLEDGEMENT, COAP_CONFIRMABLE, COAP_NON_CONFIRMABLE, CONTENT_FORMAT,
    URI_PATH,
};
use crate::request::{option_values, strings_of, values_of, COAP_GET};
use crate::rule::copy_bytes;
use crate::sid::SidModel;
use crate::text::{
    chars_of, join, join3, join_list, joined, same_text, signed_decimal, signed_string,
    slice_chars, string_of, strings_view, trim_chars, trimmed,
};

verus! {

/// Errors returned by the application service and client.
#[derive(Debug)]
pub enum ApplicationError {
    /// A file containing a SID model or datastore could not be read.
    Io(String),
    /// The model or datastore rejected input.
    Model(String),
    /// A CoAP datagram could not be parsed or serialized.
    Coap(String),
    /// A remote server returned a non-success response.
    Remote {
        /// The CoAP response code.
        code: String,
        /// The optional response payload rendered as text.
        message: String,
    },
    /// A command value was not valid JSON.
    Json(String),
}

impl ApplicationError {
    /// The text that describes this error.
    pub open spec fn described(self) -> Seq<char> {
        match self {
            ApplicationError::Io(text) => "application file operation failed: "@ + text@,
            ApplicationError::Model(text) => "application model operation failed: "@ + text@,
            ApplicationError::Coap(text) => "CoAP datagram operation failed: "@ + text@,
            ApplicationError::Remote { code, message } => "remote CORECONF response was "@ + code@
                + ": "@ + message@,
            ApplicationError::Json(text) => "invalid JSON value: "@ + text@,
        }
    }

    /// Returns the text that describes this error.
    pub fn message(&self) -> (result: String)
        ensures
            result@ == self.described(),
    {
        match self {
            ApplicationError::Io(text) => join(
                "application file operation failed: ",
                text.as_str(),
            ),
            ApplicationError::Model(text) => join(
                "application model operation failed: ",
                text.as_str(),
            ),
            ApplicationError::Coap(text) => join("CoAP datagram operation failed: ", text.as_str()),
            ApplicationError::Remote { code, message } => join3(
                join("remote CORECONF response was ", code.as_str()).as_str(),
                ": ",
                message.as_str(),
            ),
            ApplicationError::Json(text) => join("invalid JSON value: ", text.as_str()),
        }
    }
}

/// A text without the slashes at its start.
pub open spec fn without_leading(text: Seq<char>) -> Seq<char>
    decreases text.len(),
{
    if text.len() > 0 && text[0] == '/' {
        without_leading(text.drop_first())
    } else {
        text
    }
}

/// A text without the slashes at its end.
pub open spec fn without_trailing(text: Seq<char>) -> Seq<char>
    decreases text.len(),
{
    if text.len() > 0 && text.last() == '/' {
        without_trailing(text.drop_last())
    } else {
        text
    }
}

/// A text without the slashes at both its ends.
pub open spec fn without_slashes(text: Seq<char>) -> Seq<char> {
    without_trailing(without_leading(text))
}

fn trim_slashes(text: &str) -> (result: Vec<char>)
    ensures
        result@ == without_slashes(text@),
{
    let characters = chars_of(text);
    let mut from: usize = 0;
    assert(characters@.skip(0) =~= characters@);
    while from < characters.len() && characters[from] == '/'
        invariant
            from <= characters@.len(),
            without_leading(characters@.skip(from as int)) == without_leading(characters@),
        decreases characters.len() - from,
    {
        assert(characters@.skip(from as int).drop_first() =~= characters@.skip(from + 1));
        from += 1;
    }
    let ghost middle = characters@.skip(from as int);
    assert(without_leading(middle) == middle);
    let mut to: usize = characters.len();
    assert(characters@.subrange(from as int, to as int) =~= middle);
    while to > from && characters[to - 1] == '/'
        invariant
            from <= to <= characters@.len(),
            without_trailing(characters@.subrange(from as int, to as int)) == without_trailing(
                middle,
            ),
        decreases to,
    {
        assert(characters@.subrange(from as int, to as int).drop_last()
            =~= characters@.subrange(from as int, to - 1));
        to -= 1;
    }
    slice_chars(characters.as_slice(), from, to)
}

/// The name of a resource: its path without outer slashes, or the default.
pub open spec fn resource_name(path: Seq<char>) -> Seq<char> {
    if without_slashes(path).len() == 0 {
        "c"@
    } else {
        without_slashes(path)
    }
}

/// Returns the name of a resource.
pub fn normalize_resource_path(path: &str) -> (result: String)
    ensures
        result@ == resource_name(path@),
{
    let characters = trim_slashes(path);
    if characters.len() == 0 {
        "c".to_owned()
    } else {
        string_of(characters.as_slice())
    }
}

/// A data path with its leading slash.
pub open spec fn rooted_path(path: Seq<char>) -> Seq<char> {
    let inner = trimmed(path);
    if inner.len() == 0 || inner == "/"@ {
        "/"@
    } else if inner[0] == '/' {
        inner
    } else {
        "/"@ + inner
    }
}

/// Returns a data path with its leading slash.
pub fn canonical_path(path: &str) -> (result: String)
    ensures
        result@ == rooted_path(path@),
{
    let characters = trim_chars(chars_of(path).as_slice());
    if characters.len() == 0 {
        return "/".to_owned();
    }
    let inner = string_of(characters.as_slice());
    if same_text(inner.as_str(), "/") {
        return "/".to_owned();
    }
    if characters[0] == '/' {
        return inner;
    }
    join("/", inner.as_str())
}

/// Calls `std::str::from_utf8` and returns the text of bytes that are valid
/// UTF-8, and nothing for others.
#[verifier::external_body]
fn read_text(bytes: &[u8]) -> (result: Option<String>)
    ensures
        match result {
            Some(text) => valid_utf8(bytes@) && text@ == decode_utf8(bytes@),
            None => !valid_utf8(bytes@),
        },
{
    std::str::from_utf8(bytes).ok().map(|text| text.to_owned())
}

/// The texts among some byte strings.
pub open spec fn valid_texts(values: Seq<Seq<u8>>) -> Seq<Seq<char>>
    decreases values.len(),
{
    if values.len() == 0 {
        Seq::empty()
    } else if valid_utf8(values.last()) {
        valid_texts(values.drop_last()).push(decode_utf8(values.last()))
    } else {
        valid_texts(values.drop_last())
    }
}

/// The path that a message addresses.
pub open spec fn addressed_path(message: Coap) -> Seq<char> {
    "/"@ + joined(valid_texts(option_values(message.options, URI_PATH)), "/"@)
}

/// Returns the path that a message addresses.
pub fn uri_path(message: &CoapMessage) -> (result: String)
    ensures
        result@ == addressed_path(message@),
{
    let values = values_of(message, URI_PATH);
    let ghost view = option_values(message@.options, URI_PATH);
    let mut texts: Vec<String> = Vec::new();
    let mut index: usize = 0;
    assert(strings_of(values@).len() == values@.len());
    assert(strings_view(texts@) =~= valid_texts(view.take(0)));
    while index < values.len()
        invariant
            index <= values@.len(),
            strings_of(values@) == view,
            view.len() == values@.len(),
            strings_view(texts@) == valid_texts(view.take(index as int)),
        decreases values.len() - index,
    {
        proof {
            assert(view.take(index + 1).drop_last() =~= view.take(index as int));
            assert(view.take(index + 1).last() == values@[index as int]@);
        }
        if let Some(text) = read_text(values[index].as_slice()) {
            let ghost before = strings_view(texts@);
            let ghost shown = text@;
            texts.push(text);
            assert(strings_view(texts@) =~= before.push(shown));
        }
        index += 1;
    }
    assert(view.take(index as int) =~= view);
    join("/", join_list(&texts, "/").as_str())
}

/// The type of a response to a request of some type.
pub open spec fn reply_type(request: u8) -> u8 {
    if request == COAP_CONFIRMABLE {
        COAP_ACKNOWLEDGEMENT
    } else if request == COAP_NON_CONFIRMABLE {
        COAP_NON_CONFIRMABLE
    } else {
        COAP_CONFIRMABLE
    }
}

/// Returns the type of a response to a request of some type.
pub fn response_type_for(request: u8) -> (result: u8)
    ensures
        result == reply_type(request),
{
    if request == COAP_CONFIRMABLE {
        COAP_ACKNOWLEDGEMENT
    } else if request == COAP_NON_CONFIRMABLE {
        COAP_NON_CONFIRMABLE
    } else {
        COAP_CONFIRMABLE
    }
}

/// The links that a service offers.
pub open spec fn service_links(resource: Seq<char>) -> Seq<char> {
    let management = without_slashes(resource);
    let streaming = if management == "c"@ {
        "s"@
    } else {
        management + "/s"@
    };
    "</"@ + management + ">;rt=\"core.c.ds\";ct=140;ds=1029,</"@ + streaming
        + ">;rt=\"core.c.ev\";ct=142;obs"@
}

/// The response code of content.
pub const CODE_CONTENT: u8 = 69;

/// The response code of a method that is not allowed.
pub const CODE_METHOD_NOT_ALLOWED: u8 = 133;

/// The content format of links.
pub const LINK_FORMAT: u8 = 40;

/// The response to a discovery request.
pub open spec fn discovery_message(resource: Seq<char>, request: Coap) -> Coap {
    let get = request.code == COAP_GET;
    Coap {
        version: 1,
        message_type: reply_type(request.message_type),
        code: if get {
            CODE_CONTENT
        } else {
            CODE_METHOD_NOT_ALLOWED
        },
        message_id: request.message_id,
        token: request.token,
        options: if get {
            seq![(CONTENT_FORMAT, seq![LINK_FORMAT])]
        } else {
            Seq::empty()
        },
        payload: if get {
            encode_utf8(service_links(resource))
        } else {
            Seq::empty()
        },
    }
}

fn list_links(resource: &str) -> (result: String)
    ensures
        result@ == service_links(resource@),
{
    let trimmed_path = trim_slashes(resource);
    let management = string_of(trimmed_path.as_slice());
    let streaming = if same_text(management.as_str(), "c") {
        "s".to_owned()
    } else {
        join(management.as_str(), "/s")
    };
    let first = join3("</", management.as_str(), ">;rt=\"core.c.ds\";ct=140;ds=1029,</");
    join3(first.as_str(), streaming.as_str(), ">;rt=\"core.c.ev\";ct=142;obs")
}

/// Builds the response to a discovery request.
pub fn discovery_response(resource: &str, request: &CoapMessage) -> (result: CoapMessage)
    ensures
        result@ == discovery_message(resource@, request@),
{
    let message_type: u8 = response_type_for(request.message_type);
    let token = copy_bytes(request.token.as_slice());
    let mut options: Vec<CoapOption> = Vec::new();
    let mut payload: Vec<u8> = Vec::new();
    let mut code: u8 = CODE_METHOD_NOT_ALLOWED;
    if request.code == COAP_GET {
        code = CODE_CONTENT;
        payload = copy_bytes(list_links(resource).as_str().as_bytes());
        let format: Vec<u8> = vec![LINK_FORMAT];
        assert(format@ =~= seq![LINK_FORMAT]);
        options.push(CoapOption::new(CONTENT_FORMAT, format));
    }
    let response = CoapMessage {
        version: 1,
        message_type,
        code,
        message_id: request.message_id,
        token,
        options,
        payload,
    };
    proof {
        let wanted = discovery_message(resource@, request@);
        assert(response@.options =~= wanted.options);
        assert(response@.payload =~= wanted.payload);
    }
    response
}

/// What a datagram asks of the application service.
#[derive(Debug)]
pub enum ApplicationStep {
    /// The service answers discovery itself.
    Respond(CoapMessage),
    /// The datastore has to answer.
    Forward(CoapMessage),
}

/// Whether a message asks for discovery.
pub open spec fn asks_discovery(message: Coap) -> bool {
    addressed_path(message) == "/.well-known/core"@
}

/// Reads one datagram and decides who answers it. What the codec's own error
/// says is left open.
pub fn route_application(resource: &str, datagram: &[u8]) -> (result: Result<
    ApplicationStep,
    ApplicationError,
>)
    ensures
        match coap_read(datagram@) {
            None => result matches Err(ApplicationError::Coap(_)),
            Some(message) => if asks_discovery(message) {
                result matches Ok(ApplicationStep::Respond(response)) && response@
                    == discovery_message(resource@, message)
            } else {
                result matches Ok(ApplicationStep::Forward(request)) && request@ == message
            },
        },
{
    let message = match read_coap(datagram) {
        Ok(message) => message,
        Err(text) => {
            return Err(ApplicationError::Coap(text));
        },
    };
    if same_text(uri_path(&message).as_str(), "/.well-known/core") {
        return Ok(ApplicationStep::Respond(discovery_response(resource, &message)));
    }
    Ok(ApplicationStep::Forward(message))
}

/// Writes a response. What the codec's own error says is left open.
pub fn write_response(response: &CoapMessage) -> (result: Result<Vec<u8>, ApplicationError>)
    requires
        fits_header(response@),
    ensures
        match result {
            Ok(datagram) => coap_written(response@) == Some(datagram@) && (reads_back(response@)
                ==> coap_read(datagram@) == Some(response@)),
            Err(error) => coap_written(response@) is None && error is Coap,
        },
{
    match write_coap(response) {
        Ok(datagram) => Ok(datagram),
        Err(text) => Err(ApplicationError::Coap(text)),
    }
}

/// A discovery response that is written reads back as the response to its
/// request: the same message ID and token, and links only for a GET.
pub proof fn discovery_response_reads_back(resource: Seq<char>, request: Coap)
    requires
        fits_header(request),
    ensures
        reads_back(discovery_message(resource, request)),
{
    let response = discovery_message(resource, request);
    if request.code == COAP_GET {
        assert(response.options[0] == (CONTENT_FORMAT, seq![LINK_FORMAT]));
        assert(response.options[0].1.len() == 1);
    }
}

/// Whether a text comes before another in the order of their characters.
pub open spec fn text_before(left: Seq<char>, right: Seq<char>) -> bool
    decreases left.len(),
{
    if right.len() == 0 {
        false
    } else if left.len() == 0 {
        true
    } else if left[0] != right[0] {
        left[0] < right[0]
    } else {
        text_before(left.drop_first(), right.drop_first())
    }
}

fn comes_before(left: &Vec<char>, right: &Vec<char>) -> (result: bool)
    ensures
        result == text_before(left@, right@),
{
    let mut index: usize = 0;
    assert(left@.skip(0) =~= left@);
    assert(right@.skip(0) =~= right@);
    while index < left.len() && index < right.len()
        invariant
            index <= left@.len(),
            index <= right@.len(),
            text_before(left@, right@) == text_before(
                left@.skip(index as int),
                right@.skip(index as int),
            ),
        decreases left.len() - index,
    {
        proof {
            assert(left@.skip(index as int).drop_first() =~= left@.skip(index + 1));
            assert(right@.skip(index as int).drop_first() =~= right@.skip(index + 1));
            assert(left@.skip(index as int)[0] == left@[index as int]);
            assert(right@.skip(index as int)[0] == right@[index as int]);
        }
        if left[index] != right[index] {
            return left[index] < right[index];
        }
        index += 1;
    }
    index < right.len()
}

/// Whether a text occurs inside another.
pub open spec fn occurs_in(part: Seq<char>, text: Seq<char>) -> bool {
    exists|at: int|
        0 <= at <= text.len() - part.len() && #[trigger] text.subrange(at, at + part.len()) == part
}

fn part_at(part: &Vec<char>, text: &Vec<char>, at: usize) -> (result: bool)
    requires
        at + part@.len() <= text@.len(),
    ensures
        result == (text@.subrange(at as int, at + part@.len()) == part@),
{
    let total: usize = text.len();
    let mut index: usize = 0;
    while index < part.len()
        invariant
            index <= part@.len(),
            total == text@.len(),
            at + part@.len() <= total,
            forall|i: int| 0 <= i < index ==> text@[at + i] == part@[i],
        decreases part.len() - index,
    {
        if text[at + index] != part[index] {
            proof {
                let window = text@.subrange(at as int, at + part@.len());
                assert(window[index as int] == text@[at + index]);
            }
            return false;
        }
        index += 1;
    }
    assert(text@.subrange(at as int, at + part@.len()) =~= part@);
    true
}

fn holds_part(part: &Vec<char>, text: &Vec<char>) -> (result: bool)
    ensures
        result == occurs_in(part@, text@),
{
    if part.len() > text.len() {
        return false;
    }
    let last: usize = text.len() - part.len();
    let mut at: usize = 0;
    loop
        invariant
            at <= last,
            last == text@.len() - part@.len(),
            forall|i: int|
                0 <= i < at ==> #[trigger] text@.subrange(i, i + part@.len()) != part@,
        decreases last - at,
    {
        if part_at(part, text, at) {
            return true;
        }
        if at == last {
            return false;
        }
        at += 1;
    }
}

/// Whether a schema listing shows an identifier.
pub open spec fn listed_identifier(identifier: Seq<char>, filter: Option<Seq<char>>) -> bool {
    identifier.len() > 0 && identifier[0] == '/' && (filter matches Some(part) ==> occurs_in(
        part,
        identifier,
    ))
}

/// Listed items in the order of their identifiers.
pub open spec fn place_item(ordered: Seq<(Seq<char>, i64)>, item: (Seq<char>, i64)) -> Seq<
    (Seq<char>, i64),
>
    decreases ordered.len(),
{
    if ordered.len() > 0 && text_before(item.0, ordered.last().0) {
        place_item(ordered.drop_last(), item).push(ordered.last())
    } else {
        ordered.push(item)
    }
}

/// The listed items of a model, ordered by identifier.
pub open spec fn schema_items(items: Seq<(Seq<char>, i64)>, filter: Option<Seq<char>>) -> Seq<
    (Seq<char>, i64),
>
    decreases items.len(),
{
    if items.len() == 0 {
        Seq::empty()
    } else if listed_identifier(items.last().0, filter) {
        place_item(schema_items(items.drop_last(), filter), items.last())
    } else {
        schema_items(items.drop_last(), filter)
    }
}

/// The line of one schema item.
pub open spec fn schema_line(item: (Seq<char>, i64)) -> Seq<char> {
    item.0 + " (sid "@ + signed_decimal(item.1 as int) + ")"@
}

/// The filter of an optional text.
pub open spec fn filter_view(filter: Option<&str>) -> Option<Seq<char>> {
    match filter {
        Some(text) => Some(text@),
        None => None,
    }
}

struct SchemaItem {
    name: Vec<char>,
    sid: i64,
}

spec fn schema_view(list: Seq<SchemaItem>) -> Seq<(Seq<char>, i64)> {
    Seq::new(list.len(), |i: int| (list[i].name@, list[i].sid))
}

proof fn lemma_place_item(ordered: Seq<(Seq<char>, i64)>, item: (Seq<char>, i64), at: int)
    requires
        0 <= at <= ordered.len(),
        forall|i: int| at <= i < ordered.len() ==> text_before(item.0, (#[trigger] ordered[i]).0),
        at > 0 ==> !text_before(item.0, ordered[at - 1].0),
    ensures
        place_item(ordered, item) == ordered.insert(at, item),
    decreases ordered.len(),
{
    if at == ordered.len() {
        assert(ordered.insert(at, item) =~= ordered.push(item));
    } else {
        assert(text_before(item.0, ordered[ordered.len() - 1].0));
        lemma_place_item(ordered.drop_last(), item, at);
        assert(ordered.drop_last().insert(at, item).push(ordered.last()) =~= ordered.insert(
            at,
            item,
        ));
    }
}

fn insert_item(list: &mut Vec<SchemaItem>, item: SchemaItem)
    ensures
        schema_view(final(list)@) == place_item(schema_view(old(list)@), (item.name@, item.sid)),
{
    let ghost view = schema_view(list@);
    let ghost added = (item.name@, item.sid);
    let mut at: usize = list.len();
    while at > 0 && comes_before(&item.name, &list[at - 1].name)
        invariant
            at <= list@.len(),
            list@ == old(list)@,
            view == schema_view(list@),
            added == (item.name@, item.sid),
            forall|i: int|
                at <= i < view.len() ==> text_before(added.0, (#[trigger] view[i]).0),
        decreases at,
    {
        assert(view[at - 1].0 == list@[at - 1].name@);
        at -= 1;
    }
    proof {
        if at > 0 {
            assert(view[at - 1].0 == list@[at - 1].name@);
        }
        lemma_place_item(view, added, at as int);
    }
    list.insert(at, item);
    assert(schema_view(list@) =~= view.insert(at as int, added));
}

/// Returns sorted, human-readable schema entries of a model, optionally
/// filtered by a part of their identifiers.
pub fn schema_lines(model: &SidModel, filter: Option<&str>) -> (result: Vec<String>)
    ensures
        strings_view(result@) == schema_items(model@.items, filter_view(filter)).map_values(
            |item: (Seq<char>, i64)| schema_line(item),
        ),
{
    let ghost items = model@.items;
    let wanted = match filter {
        Some(text) => Some(chars_of(text)),
        None => None,
    };
    let mut list: Vec<SchemaItem> = Vec::new();
    let mut index: usize = 0;
    assert(schema_view(list@) =~= schema_items(items.take(0), filter_view(filter)));
    while index < model.items.len()
        invariant
            index <= model.items@.len(),
            items == model@.items,
            items.len() == model.items@.len(),
            match wanted {
                Some(part) => filter_view(filter) == Some(part@),
                None => filter_view(filter) is None,
            },
            schema_view(list@) == schema_items(items.take(index as int), filter_view(filter)),
        decreases model.items.len() - index,
    {
        let item = &model.items[index];
        proof {
            assert(items.take(index + 1).drop_last() =~= items.take(index as int));
            assert(items.take(index + 1).last() == items[index as int]);
            assert(items[index as int] == (item.identifier@, item.sid));
        }
        let name = chars_of(item.identifier.as_str());
        let shown = name.len() > 0 && name[0] == '/' && match &wanted {
            Some(part) => holds_part(part, &name),
            None => true,
        };
        if shown {
            insert_item(&mut list, SchemaItem { name, sid: item.sid });
        }
        index += 1;
    }
    assert(items.take(index as int) =~= items);
    let ghost view = schema_view(list@);
    let mut lines: Vec<String> = Vec::new();
    index = 0;
    while index < list.len()
        invariant
            index <= list@.len(),
            view == schema_view(list@),
            lines@.len() == index,
            forall|i: int| 0 <= i < index ==> (#[trigger] lines@[i])@ == schema_line(view[i]),
        decreases list.len() - index,
    {
        let item = &list[index];
        let head = join3(
            string_of(item.name.as_slice()).as_str(),
            " (sid ",
            signed_string(item.sid).as_str(),
        );
        lines.push(join(head.as_str(), ")"));
        index += 1;
    }
    proof {
        assert(strings_view(lines@) =~= view.map_values(
            |item: (Seq<char>, i64)| schema_line(item),
        ));
    }
    lines
}

proof fn lemma_before_is_transitive(left: Seq<char>, middle: Seq<char>, right: Seq<char>)
    requires
        !text_before(middle, left),
        !text_before(right, middle),
    ensures
        !text_before(right, left),
    decreases left.len(),
{
    if left.len() > 0 && middle.len() > 0 && right.len() > 0 {
        if left[0] == right[0] {
            assert(left[0] == middle[0]);
            lemma_before_is_transitive(
                left.drop_first(),
                middle.drop_first(),
                right.drop_first(),
            );
        }
    }
}

proof fn lemma_before_is_one_way(left: Seq<char>, right: Seq<char>)
    requires
        text_before(left, right),
    ensures
        !text_before(right, left),
    decreases left.len(),
{
    if left.len() > 0 && left[0] == right[0] {
        lemma_before_is_one_way(left.drop_first(), right.drop_first());
    }
}

/// Whether items are ordered by identifier.
pub open spec fn items_ordered(items: Seq<(Seq<char>, i64)>) -> bool {
    forall|i: int, j: int|
        0 <= i < j < items.len() ==> !text_before((#[trigger] items[j]).0, (#[trigger] items[i]).0)
}

proof fn lemma_placing_orders(ordered: Seq<(Seq<char>, i64)>, item: (Seq<char>, i64))
    requires
        items_ordered(ordered),
    ensures
        items_ordered(place_item(ordered, item)),
        place_item(ordered, item).to_multiset() == ordered.to_multiset().insert(item),
        forall|i: int|
            0 <= i < place_item(ordered, item).len() ==> #[trigger] place_item(ordered, item)[i]
                == item || ordered.contains(place_item(ordered, item)[i]),
    decreases ordered.len(),
{
    broadcast use vstd::seq_lib::group_to_multiset_ensures;

    let placed = place_item(ordered, item);
    if ordered.len() > 0 && text_before(item.0, ordered.last().0) {
        let front = ordered.drop_last();
        lemma_placing_orders(front, item);
        let inner = place_item(front, item);
        assert(placed == inner.push(ordered.last()));
        assert forall|i: int| 0 <= i < placed.len() implies #[trigger] placed[i] == item
            || ordered.contains(placed[i]) by {
            if i < inner.len() {
                assert(placed[i] == inner[i]);
                if inner[i] != item {
                    let k = choose|k: int| 0 <= k < front.len() && front[k] == inner[i];
                    assert(ordered[k] == placed[i]);
                }
            } else {
                assert(ordered[ordered.len() - 1] == placed[i]);
            }
        }
        assert forall|i: int, j: int| 0 <= i < j < placed.len() implies !text_before(
            (#[trigger] placed[j]).0,
            (#[trigger] placed[i]).0,
        ) by {
            if j < inner.len() {
                assert(placed[i] == inner[i] && placed[j] == inner[j]);
            } else {
                assert(placed[j] == ordered.last());
                if inner[i] == item {
                    lemma_before_is_one_way(item.0, ordered.last().0);
                } else {
                    let k = choose|k: int| 0 <= k < front.len() && front[k] == inner[i];
                    assert(ordered[k] == placed[i]);
                }
            }
        }
        assert(ordered =~= front.push(ordered.last()));
        assert(placed.to_multiset() =~= ordered.to_multiset().insert(item));
    } else {
        assert(placed == ordered.push(item));
        assert forall|i: int, j: int| 0 <= i < j < placed.len() implies !text_before(
            (#[trigger] placed[j]).0,
            (#[trigger] placed[i]).0,
        ) by {
            if j < ordered.len() {
                assert(placed[i] == ordered[i] && placed[j] == ordered[j]);
            } else {
                let last = ordered.len() - 1;
                if i < last {
                    assert(placed[i] == ordered[i]);
                    lemma_before_is_transitive(ordered[i].0, ordered[last].0, item.0);
                }
            }
        }
        assert forall|i: int| 0 <= i < placed.len() implies #[trigger] placed[i] == item
            || ordered.contains(placed[i]) by {
            if i < ordered.len() {
                assert(ordered[i] == placed[i]);
            }
        }
    }
}

/// A schema listing is ordered by identifier, and it shows the items that the
/// filter lets through, each as often as the model has it.
pub proof fn schema_is_sorted_and_complete(
    items: Seq<(Seq<char>, i64)>,
    filter: Option<Seq<char>>,
)
    ensures
        items_ordered(schema_items(items, filter)),
        forall|item: (Seq<char>, i64)| #[trigger]
            schema_items(items, filter).to_multiset().count(item) == if listed_identifier(
                item.0,
                filter,
            ) {
                items.to_multiset().count(item)
            } else {
                0
            },
    decreases items.len(),
{
    broadcast use vstd::seq_lib::group_to_multiset_ensures;

    let listed = schema_items(items, filter);
    if items.len() == 0 {
        assert(items.to_multiset() =~= Multiset::empty());
        assert(listed.to_multiset() =~= Multiset::empty());
    } else {
        let front = schema_items(items.drop_last(), filter);
        schema_is_sorted_and_complete(items.drop_last(), filter);
        assert(items =~= items.drop_last().push(items.last()));
        lemma_placing_orders(front, items.last());
        assert forall|item: (Seq<char>, i64)| #[trigger]
            listed.to_multiset().count(item) == if listed_identifier(item.0, filter) {
                items.to_multiset().count(item)
            } else {
                0
            } by {
            assert(front.to_multiset().count(item) == if listed_identifier(item.0, filter) {
                items.drop_last().to_multiset().count(item)
            } else {
                0
            });
        }
    }
}

proof fn lemma_without_leading(text: Seq<char>) -> (count: int)
    ensures
        0 <= count <= text.len(),
        without_leading(text) == text.skip(count),
        forall|i: int| 0 <= i < count ==> #[trigger] text[i] == '/',
        count < text.len() ==> text[count] != '/',
    decreases text.len(),
{
    if text.len() > 0 && text[0] == '/' {
        let rest = text.drop_first();
        let inner = lemma_without_leading(rest);
        assert(rest.skip(inner) =~= text.skip(inner + 1));
        assert forall|i: int| 0 <= i < inner + 1 implies #[trigger] text[i] == '/' by {
            if i > 0 {
                assert(rest[i - 1] == text[i]);
            }
        }
        inner + 1
    } else {
        assert(text.skip(0) =~= text);
        0
    }
}

proof fn lemma_without_trailing(text: Seq<char>) -> (count: int)
    ensures
        0 <= count <= text.len(),
        without_trailing(text) == text.take(count),
        forall|i: int| count <= i < text.len() ==> #[trigger] text[i] == '/',
        count > 0 ==> text[count - 1] != '/',
    decreases text.len(),
{
    if text.len() > 0 && text.last() == '/' {
        let front = text.drop_last();
        let count = lemma_without_trailing(front);
        assert(front.take(count) =~= text.take(count));
        assert forall|i: int| count <= i < text.len() implies #[trigger] text[i] == '/' by {
            if i < front.len() {
                assert(front[i] == text[i]);
            }
        }
        count
    } else {
        assert(text.take(text.len() as int) =~= text);
        text.len() as int
    }
}

/// A text without its outer slashes is the part of the text that neither
/// begins nor ends with a slash and has only slashes around it.
pub proof fn outer_slashes_are_left_out(text: Seq<char>) -> (range: (int, int))
    ensures
        0 <= range.0 <= range.1 <= text.len(),
        without_slashes(text) == text.subrange(range.0, range.1),
        forall|i: int|
            0 <= i < range.0 || range.1 <= i < text.len() ==> #[trigger] text[i] == '/',
        range.0 < range.1 ==> text[range.0] != '/' && text[range.1 - 1] != '/',
{
    let start = lemma_without_leading(text);
    let inner = text.skip(start);
    let count = lemma_without_trailing(inner);
    assert(inner.take(count) =~= text.subrange(start, start + count));
    assert forall|i: int|
        0 <= i < start || start + count <= i < text.len() implies #[trigger] text[i] == '/' by {
        if i >= start {
            assert(inner[i - start] == text[i]);
        }
    }
    if count > 0 {
        assert(inner[0] == text[start]);
        assert(inner[count - 1] == text[start + count - 1]);
        if inner[0] == '/' {
            assert(start < text.len());
        }
    }
    (start, start + count)
}

/// A resource has the name `c` where its path has none.
pub proof fn resource_is_named_by_its_path(path: Seq<char>)
    ensures
        resource_name(path).len() > 0,
        without_slashes(path).len() == 0 ==> resource_name(path) == "c"@,
        without_slashes(path).len() > 0 ==> resource_name(path) == without_slashes(path),
{
    reveal_strlit("c");
}

/// A data path begins with a slash, which is added where it is missing; an
/// empty path is the root.
pub proof fn rooted_path_begins_with_a_slash(path: Seq<char>)
    ensures
        rooted_path(path).len() > 0,
        rooted_path(path)[0] == '/',
        trimmed(path).len() == 0 ==> rooted_path(path) == seq!['/'],
        trimmed(path).len() > 0 && trimmed(path)[0] == '/' ==> rooted_path(path) == trimmed(path),
        trimmed(path).len() > 0 && trimmed(path)[0] != '/' ==> rooted_path(path) == seq!['/']
            + trimmed(path),
{
    reveal_strlit("/");
    assert("/"@ =~= seq!['/']);
}

proof fn lemma_valid_texts(values: Seq<Seq<u8>>) -> (places: Seq<int>)
    ensures
        places.len() == valid_texts(values).len(),
        forall|k: int|
            0 <= k < places.len() ==> 0 <= #[trigger] places[k] < values.len() && valid_utf8(
                values[places[k]],
            ) && valid_texts(values)[k] == decode_utf8(values[places[k]]),
        forall|k: int, l: int|
            0 <= k < l < places.len() ==> #[trigger] places[k] < #[trigger] places[l],
        forall|i: int|
            0 <= i < values.len() && valid_utf8(#[trigger] values[i]) ==> places.contains(i),
    decreases values.len(),
{
    if values.len() == 0 {
        Seq::empty()
    } else {
        let front = values.drop_last();
        let before = lemma_valid_texts(front);
        let texts = valid_texts(front);
        let places = if valid_utf8(values.last()) {
            before.push(values.len() - 1)
        } else {
            before
        };
        assert forall|k: int| 0 <= k < places.len() implies 0 <= #[trigger] places[k] < values.len()
            && valid_utf8(values[places[k]]) && valid_texts(values)[k] == decode_utf8(
            values[places[k]],
        ) by {
            if k < before.len() {
                assert(places[k] == before[k]);
                assert(front[before[k]] == values[before[k]]);
            }
        }
        assert forall|k: int, l: int| 0 <= k < l < places.len() implies #[trigger] places[k]
            < #[trigger] places[l] by {
            if l < before.len() {
                assert(places[k] == before[k] && places[l] == before[l]);
            } else {
                assert(places[k] == before[k]);
            }
        }
        assert forall|i: int|
            0 <= i < values.len() && valid_utf8(#[trigger] values[i]) implies places.contains(
            i,
        ) by {
            if i < front.len() {
                assert(front[i] == values[i]);
                assert(before.contains(i));
                let k = choose|k: int| 0 <= k < before.len() && before[k] == i;
                assert(places[k] == i);
            } else {
                assert(places[before.len() as int] == i);
            }
        }
        places
    }
}

/// A message addresses the path that its path options spell, each behind a
/// slash and in their order, without those that are no text.
pub proof fn addressed_path_is_that_of_the_options(message: Coap) -> (spelled: (
    Seq<Seq<char>>,
    Seq<int>,
))
    ensures
        addressed_path(message) == seq!['/'] + joined(spelled.0, seq!['/']),
        spelled.0.len() == spelled.1.len(),
        forall|k: int|
            0 <= k < spelled.1.len() ==> 0 <= #[trigger] spelled.1[k] < option_values(
                message.options,
                11,
            ).len() && valid_utf8(option_values(message.options, 11)[spelled.1[k]])
                && spelled.0[k] == decode_utf8(option_values(message.options, 11)[spelled.1[k]]),
        forall|k: int, l: int|
            0 <= k < l < spelled.1.len() ==> #[trigger] spelled.1[k] < #[trigger] spelled.1[l],
        forall|i: int|
            0 <= i < option_values(message.options, 11).len() && valid_utf8(
                #[trigger] option_values(message.options, 11)[i],
            ) ==> spelled.1.contains(i),
{
    reveal_strlit("/");
    assert("/"@ =~= seq!['/']);
    let values = option_values(message.options, 11);
    (valid_texts(values), lemma_valid_texts(values))
}

/// A response acknowledges a confirmable request, answers a non-confirmable
/// one in kind, and is confirmable otherwise.
pub proof fn reply_type_follows_the_request(request: u8)
    ensures
        request == 0 ==> reply_type(request) == 2,
        request == 1 ==> reply_type(request) == 1,
        request > 1 ==> reply_type(request) == 0,
{
}

/// Discovery answers a GET with the links of the service and any other method
/// with `4.05`; either answer has the message ID and the token of the request.
pub proof fn discovery_answers_its_request(resource: Seq<char>, request: Coap)
    ensures
        ({
            let response = discovery_message(resource, request);
            &&& response.version == 1
            &&& response.message_id == request.message_id
            &&& response.token == request.token
            &&& request.message_type == 0 ==> response.message_type == 2
            &&& request.message_type == 1 ==> response.message_type == 1
            &&& request.code == 1 ==> response.code == 69 && response.options == seq![
                (12u16, seq![40u8]),
            ] && response.payload == encode_utf8(service_links(resource))
            &&& request.code != 1 ==> response.code == 133 && response.options.len() == 0
                && response.payload.len() == 0
        }),
{
}

/// A service links its management resource and a stream: the stream of `c` is
/// `s`, that of any other resource lies below it.
pub proof fn service_links_name_both_resources(resource: Seq<char>)
    ensures
        without_slashes(resource) == "c"@ ==> service_links(resource) == "</"@ + without_slashes(
            resource,
        ) + ">;rt=\"core.c.ds\";ct=140;ds=1029,</"@ + "s"@ + ">;rt=\"core.c.ev\";ct=142;obs"@,
        without_slashes(resource) != "c"@ ==> service_links(resource) == "</"@ + without_slashes(
            resource,
        ) + ">;rt=\"core.c.ds\";ct=140;ds=1029,</"@ + (without_slashes(resource) + "/s"@)
            + ">;rt=\"core.c.ev\";ct=142;obs"@,
{
}

/// A text comes before another where it is a proper beginning of the other or
/// has the smaller character at their first difference, and nowhere else.
pub proof fn texts_are_ordered_by_their_first_difference(
    left: Seq<char>,
    right: Seq<char>,
    at: int,
)
    requires
        0 <= at <= left.len(),
        at <= right.len(),
        forall|i: int| 0 <= i < at ==> #[trigger] left[i] == right[i],
        at < left.len() && at < right.len() ==> left[at] != right[at],
    ensures
        at == right.len() ==> !text_before(left, right),
        at == left.len() && at < right.len() ==> text_before(left, right),
        at < left.len() && at < right.len() ==> (text_before(left, right) <==> left[at]
            < right[at]),
    decreases left.len(),
{
    if at > 0 {
        let a = left.drop_first();
        let b = right.drop_first();
        assert(left[0] == right[0]);
        assert forall|i: int| 0 <= i < at - 1 implies #[trigger] a[i] == b[i] by {
            assert(left[i + 1] == right[i + 1]);
        }
        texts_are_ordered_by_their_first_difference(a, b, at - 1);
    }
}

/// A schema line shows an identifier and its SID, and a listing shows only
/// absolute identifiers that hold the text of the filter.
pub proof fn schema_shows_identifiers_and_sids(
    item: (Seq<char>, i64),
    filter: Option<Seq<char>>,
)
    ensures
        schema_line(item) == item.0 + " (sid "@ + signed_decimal(item.1 as int) + ")"@,
        listed_identifier(item.0, filter) ==> item.0.len() > 0 && item.0[0] == '/',
        item.0.len() > 0 && item.0[0] == '/' && filter is None ==> listed_identifier(
            item.0,
            filter,
        ),
        filter matches Some(part) ==> listed_identifier(item.0, filter) ==> exists|at: int|
            0 <= at <= item.0.len() - part.len() && #[trigger] item.0.subrange(
                at,
                at + part.len(),
            ) == part,
{
}

/// A message asks for discovery where its path is `.well-known` and `core`.
pub proof fn discovery_is_asked_by_its_path(message: Coap)
    ensures
        asks_discovery(message) <==> addressed_path(message) == "/.well-known/core"@,
{
}

/// An absolute identifier that holds the text of the filter anywhere is shown.
pub proof fn matching_identifier_is_shown(identifier: Seq<char>, part: Seq<char>, at: int)
    requires
        identifier.len() > 0,
        identifier[0] == '/',
        0 <= at,
        at + part.len() <= identifier.len(),
        identifier.subrange(at, at + part.len()) == part,
    ensures
        listed_identifier(identifier, Some(part)),
{
    assert(occurs_in(part, identifier));
}

} // verus!
