//! Commands of the data client and reports of the data server.

use vstd::prelude::*;

use crate::application::ApplicationError;
use crate::codec::{json_pretty, json_read, print_json_pretty, read_json};
use crate::json::{Json, JsonValue};
use crate::options::optional_view;
use crate::text::{
    chars_of, decimal, decimal_string, is_white, join, join3, lemma_word_len, same_text,
    slice_chars, string_of, strings_view, trim_chars, trimmed, white, word_len,
};

verus! {

/// What a line asks the data client for.
#[derive(Debug)]
pub enum DataCommand {
    /// Discovery, with a query.
    Discover(Option<String>),
    /// The schema, with a filter.
    Schema(Option<String>),
    /// One value by GET.
    Get(String),
    /// One value by FETCH.
    Fetch(String),
    /// A new value at a path.
    Assign(String, JsonValue),
    /// The deletion of a path.
    Delete(String),
    /// A reload of the datastore.
    Reload,
    /// The list of commands.
    Help,
    /// The end of the session.
    Quit,
    /// No known command.
    Unknown(String),
}

/// A data command as a mathematical value.
pub enum CommandView {
    /// Discovery, with a query.
    Discover(Option<Seq<char>>),
    /// The schema, with a filter.
    Schema(Option<Seq<char>>),
    /// One value by GET.
    Get(Seq<char>),
    /// One value by FETCH.
    Fetch(Seq<char>),
    /// A new value at a path.
    Assign(Seq<char>, Json),
    /// The deletion of a path.
    Delete(Seq<char>),
    /// A reload of the datastore.
    Reload,
    /// The list of commands.
    Help,
    /// The end of the session.
    Quit,
    /// No known command.
    Unknown(Seq<char>),
}

impl View for DataCommand {
    type V = CommandView;

    open spec fn view(&self) -> CommandView {
        match self {
            DataCommand::Discover(query) => CommandView::Discover(optional_view(*query)),
            DataCommand::Schema(filter) => CommandView::Schema(optional_view(*filter)),
            DataCommand::Get(path) => CommandView::Get(path@),
            DataCommand::Fetch(path) => CommandView::Fetch(path@),
            DataCommand::Assign(path, value) => CommandView::Assign(path@, value@),
            DataCommand::Delete(path) => CommandView::Delete(path@),
            DataCommand::Reload => CommandView::Reload,
            DataCommand::Help => CommandView::Help,
            DataCommand::Quit => CommandView::Quit,
            DataCommand::Unknown(word) => CommandView::Unknown(word@),
        }
    }
}

/// What stands in front of the first white space of a text.
pub open spec fn first_part(text: Seq<char>) -> Seq<char> {
    text.take(word_len(text) as int)
}

/// What stands behind the first white space of a text, trimmed.
pub open spec fn second_part(text: Seq<char>) -> Seq<char> {
    if word_len(text) < text.len() {
        trimmed(text.skip(word_len(text) as int + 1))
    } else {
        Seq::empty()
    }
}

fn split_parts(text: &str) -> (result: (String, String))
    ensures
        result.0@ == first_part(text@),
        result.1@ == second_part(text@),
{
    let characters = chars_of(text);
    proof {
        lemma_word_len(text@);
    }
    let mut at: usize = 0;
    while at < characters.len() && !white(characters[at])
        invariant
            at <= characters@.len(),
            characters@ == text@,
            word_len(text@) <= text@.len(),
            word_len(text@) < text@.len() ==> is_white(text@[word_len(text@) as int]),
            forall|i: int| 0 <= i < word_len(text@) ==> !is_white(#[trigger] text@[i]),
            forall|i: int| 0 <= i < at ==> !is_white(#[trigger] text@[i]),
            at <= word_len(text@),
        decreases characters.len() - at,
    {
        at += 1;
    }
    assert(at == word_len(text@));
    let first = slice_chars(characters.as_slice(), 0, at);
    assert(first@ =~= first_part(text@));
    if at == characters.len() {
        let second = String::new();
        assert(second@ =~= Seq::<char>::empty());
        return (string_of(first.as_slice()), second);
    }
    let rest = slice_chars(characters.as_slice(), at + 1, characters.len());
    assert(rest@ =~= text@.skip(at + 1));
    let second = trim_chars(rest.as_slice());
    (string_of(first.as_slice()), string_of(second.as_slice()))
}

/// A text that may be left out.
pub open spec fn given(text: Seq<char>) -> Option<Seq<char>> {
    if text.len() == 0 {
        None
    } else {
        Some(text)
    }
}

/// A text that must be there.
pub open spec fn required(text: Seq<char>, usage: Seq<char>) -> Result<Seq<char>, Seq<char>> {
    if text.len() == 0 {
        Err("usage: "@ + usage)
    } else {
        Ok(text)
    }
}

/// How a line is read; what the JSON reader's error says is left open.
pub open spec fn data_command(line: Seq<char>, outcome: Result<CommandView, Seq<char>>) -> bool {
    let command = first_part(line);
    let rest = second_part(line);
    if command == "discover"@ {
        outcome == Ok::<CommandView, Seq<char>>(CommandView::Discover(given(rest)))
    } else if command == "schema"@ {
        outcome == Ok::<CommandView, Seq<char>>(CommandView::Schema(given(rest)))
    } else if command == "get"@ {
        outcome == (match required(rest, "get <path>"@) {
            Ok(path) => Ok(CommandView::Get(path)),
            Err(text) => Err(text),
        })
    } else if command == "fetch"@ {
        outcome == (match required(rest, "fetch <path>"@) {
            Ok(path) => Ok(CommandView::Fetch(path)),
            Err(text) => Err(text),
        })
    } else if command == "set"@ {
        let path = first_part(rest);
        let json = second_part(rest);
        if path.len() == 0 || json.len() == 0 {
            outcome == Err::<CommandView, Seq<char>>("usage: set <path> <json-value>"@)
        } else {
            match json_read(json) {
                Some(value) => outcome == Ok::<CommandView, Seq<char>>(
                    CommandView::Assign(path, value),
                ),
                None => outcome matches Err(text) && "invalid JSON value: "@.is_prefix_of(text),
            }
        }
    } else if command == "delete"@ {
        outcome == (match required(rest, "delete <path>"@) {
            Ok(path) => Ok(CommandView::Delete(path)),
            Err(text) => Err(text),
        })
    } else if command == "reload"@ {
        outcome == Ok::<CommandView, Seq<char>>(CommandView::Reload)
    } else if command == "help"@ {
        outcome == Ok::<CommandView, Seq<char>>(CommandView::Help)
    } else if command == "quit"@ {
        outcome == Ok::<CommandView, Seq<char>>(CommandView::Quit)
    } else {
        outcome == Ok::<CommandView, Seq<char>>(CommandView::Unknown(command))
    }
}

/// A command or the text of its refusal, as a mathematical value.
pub open spec fn command_view(result: Result<DataCommand, String>) -> Result<
    CommandView,
    Seq<char>,
> {
    match result {
        Ok(command) => Ok(command@),
        Err(text) => Err(text@),
    }
}

fn optional_text(text: String) -> (result: Option<String>)
    ensures
        optional_view(result) == given(text@),
{
    if text.as_str().unicode_len() == 0 {
        None
    } else {
        Some(text)
    }
}

fn required_argument(value: String, usage: &str) -> (result: Result<String, String>)
    ensures
        match result {
            Ok(text) => required(value@, usage@) == Ok::<Seq<char>, Seq<char>>(text@),
            Err(text) => required(value@, usage@) == Err::<Seq<char>, Seq<char>>(text@),
        },
{
    if value.as_str().unicode_len() == 0 {
        Err(join("usage: ", usage))
    } else {
        Ok(value)
    }
}

fn read_set(rest: &str) -> (result: Result<DataCommand, String>)
    ensures
        ({
            let outcome = command_view(result);
            let path = first_part(rest@);
            let json = second_part(rest@);
            if path.len() == 0 || json.len() == 0 {
                outcome == Err::<CommandView, Seq<char>>("usage: set <path> <json-value>"@)
            } else {
                match json_read(json) {
                    Some(value) => outcome == Ok::<CommandView, Seq<char>>(
                        CommandView::Assign(path, value),
                    ),
                    None => outcome matches Err(text) && "invalid JSON value: "@.is_prefix_of(
                        text,
                    ),
                }
            }
        }),
{
    let (path, json) = split_parts(rest);
    if path.as_str().unicode_len() == 0 || json.as_str().unicode_len() == 0 {
        return Err("usage: set <path> <json-value>".to_owned());
    }
    match read_json(json.as_str()) {
        Ok(value) => Ok(DataCommand::Assign(path, value)),
        Err(error) => {
            let text = join("invalid JSON value: ", error.as_str());
            assert("invalid JSON value: "@ =~= text@.subrange(
                0,
                "invalid JSON value: "@.len() as int,
            ));
            Err(text)
        },
    }
}

/// Reads one line of the data client.
pub fn parse_data_command(line: &str) -> (result: Result<DataCommand, String>)
    ensures
        data_command(line@, command_view(result)),
{
    let (command, rest) = split_parts(line);
    let name = command.as_str();
    if same_text(name, "discover") {
        Ok(DataCommand::Discover(optional_text(rest)))
    } else if same_text(name, "schema") {
        Ok(DataCommand::Schema(optional_text(rest)))
    } else if same_text(name, "get") {
        match required_argument(rest, "get <path>") {
            Ok(path) => Ok(DataCommand::Get(path)),
            Err(text) => Err(text),
        }
    } else if same_text(name, "fetch") {
        match required_argument(rest, "fetch <path>") {
            Ok(path) => Ok(DataCommand::Fetch(path)),
            Err(text) => Err(text),
        }
    } else if same_text(name, "set") {
        read_set(rest.as_str())
    } else if same_text(name, "delete") {
        match required_argument(rest, "delete <path>") {
            Ok(path) => Ok(DataCommand::Delete(path)),
            Err(text) => Err(text),
        }
    } else if same_text(name, "reload") {
        Ok(DataCommand::Reload)
    } else if same_text(name, "help") {
        Ok(DataCommand::Help)
    } else if same_text(name, "quit") {
        Ok(DataCommand::Quit)
    } else {
        Ok(DataCommand::Unknown(command))
    }
}

/// The query of a discovery: the one that was given, or the usual one.
pub fn discovery_query(query: &Option<String>) -> (result: String)
    ensures
        result@ == (match query {
            Some(text) => text@,
            None => "d=0"@,
        }),
{
    match query {
        Some(text) => text.clone(),
        None => "d=0".to_owned(),
    }
}

/// Returns the line that answers an unknown command.
pub fn unknown_command_line(command: &str) -> (result: String)
    ensures
        result@ == "ERROR unknown command '"@ + command@ + "'; use help"@,
{
    join3("ERROR unknown command '", command, "'; use help")
}

/// Returns the line that answers a command with a text as its result.
pub fn text_line(result: &Result<String, ApplicationError>) -> (line: String)
    ensures
        line@ == (match result {
            Ok(text) => text@,
            Err(error) => "ERROR "@ + error.described(),
        }),
{
    match result {
        Ok(text) => text.clone(),
        Err(error) => join("ERROR ", error.message().as_str()),
    }
}

/// Returns the line that answers a command that changes the datastore.
pub fn mutation_line(action: &str, result: &Result<(), ApplicationError>) -> (line: String)
    ensures
        line@ == (match result {
            Ok(_) => "OK "@ + action@,
            Err(error) => "ERROR "@ + error.described(),
        }),
{
    match result {
        Ok(()) => join("OK ", action),
        Err(error) => join("ERROR ", error.message().as_str()),
    }
}

/// Returns the line that answers a deletion; a path that is not there counts
/// as deleted.
pub fn delete_line(result: &Result<(), ApplicationError>) -> (line: String)
    ensures
        line@ == (match result {
            Ok(_) => "OK delete"@,
            Err(ApplicationError::Remote { code, .. }) => if code@ == "4.04"@ {
                "OK delete  not-found"@
            } else {
                "ERROR "@ + result->Err_0.described()
            },
            Err(error) => "ERROR "@ + error.described(),
        }),
{
    match result {
        Ok(()) => "OK delete".to_owned(),
        Err(error) => {
            if let ApplicationError::Remote { code, .. } = error {
                if same_text(code.as_str(), "4.04") {
                    return "OK delete  not-found".to_owned();
                }
            }
            join("ERROR ", error.message().as_str())
        },
    }
}

/// How a value is shown; what the JSON writer's error says is left open.
pub open spec fn value_outcome(
    result: Result<Option<JsonValue>, ApplicationError>,
    line: Seq<char>,
) -> bool {
    match result {
        Ok(Some(value)) => match json_pretty(value@) {
            Some(text) => line == text,
            None => "ERROR render JSON value: "@.is_prefix_of(line),
        },
        Ok(None) => line == "not found"@,
        Err(error) => line == "ERROR "@ + error.described(),
    }
}

/// Returns what answers a command that reads a value.
pub fn value_line(result: &Result<Option<JsonValue>, ApplicationError>) -> (line: String)
    ensures
        value_outcome(*result, line@),
{
    match result {
        Ok(Some(value)) => match print_json_pretty(value) {
            Ok(text) => text,
            Err(error) => {
                let line = join("ERROR render JSON value: ", error.as_str());
                assert("ERROR render JSON value: "@ =~= line@.subrange(
                    0,
                    "ERROR render JSON value: "@.len() as int,
                ));
                line
            },
        },
        Ok(None) => "not found".to_owned(),
        Err(error) => join("ERROR ", error.message().as_str()),
    }
}

/// The lines of the data client's commands.
pub open spec fn data_help_text() -> Seq<Seq<char>> {
    seq![
        "Data client commands:"@,
        "  discover [query]"@,
        "  schema [filter]"@,
        "  get <path>"@,
        "  fetch <path>"@,
        "  set <path> <json-value>"@,
        "  delete <path>"@,
        "  reload"@,
        "  help"@,
        "  quit"@,
    ]
}

/// Returns the lines of the data client's commands.
pub fn data_help() -> (result: Vec<String>)
    ensures
        strings_view(result@) == data_help_text(),
{
    let result: Vec<String> = vec![
        "Data client commands:".to_owned(),
        "  discover [query]".to_owned(),
        "  schema [filter]".to_owned(),
        "  get <path>".to_owned(),
        "  fetch <path>".to_owned(),
        "  set <path> <json-value>".to_owned(),
        "  delete <path>".to_owned(),
        "  reload".to_owned(),
        "  help".to_owned(),
        "  quit".to_owned(),
    ];
    assert(strings_view(result@) =~= data_help_text());
    result
}

/// What the data server does after it sent a response.
#[derive(Debug)]
pub enum ServeReport {
    /// It prints a line.
    Sent(String),
    /// It reports a failure and serves on.
    Failed(String),
}

/// How far the data server came with a datagram.
#[derive(Debug)]
pub enum ServeProgress {
    /// The service failed on the datagram.
    Unhandled(String),
    /// The response could not be sent.
    Unsent(String),
    /// Some of the bytes of the response were sent.
    Sent {
        /// Number of bytes sent.
        sent: usize,
        /// Number of bytes of the response.
        length: usize,
    },
}

/// What the data server reports of a datagram from a peer.
pub open spec fn serve_outcome(
    progress: ServeProgress,
    peer: Seq<char>,
    report: ServeReport,
) -> bool {
    match progress {
        ServeProgress::Unhandled(text) => report matches ServeReport::Failed(line) && line@
            == "handle datagram from "@ + peer + ": "@ + text@,
        ServeProgress::Unsent(text) => report matches ServeReport::Failed(line) && line@
            == "send response to "@ + peer + ": "@ + text@,
        ServeProgress::Sent { sent, length } => if sent == length {
            report matches ServeReport::Sent(line) && line@ == "TX APP   "@ + decimal(sent as nat)
                + " B"@
        } else {
            report matches ServeReport::Failed(line) && line@ == "short UDP send to "@ + peer
                + ": "@ + decimal(sent as nat) + "/"@ + decimal(length as nat) + " bytes"@
        },
    }
}

/// Returns what the data server reports of a datagram from a peer.
pub fn serve_report(progress: &ServeProgress, peer: &str) -> (report: ServeReport)
    ensures
        serve_outcome(*progress, peer@, report),
{
    match progress {
        ServeProgress::Unhandled(text) => ServeReport::Failed(
            join(join3("handle datagram from ", peer, ": ").as_str(), text.as_str()),
        ),
        ServeProgress::Unsent(text) => ServeReport::Failed(
            join(join3("send response to ", peer, ": ").as_str(), text.as_str()),
        ),
        ServeProgress::Sent { sent, length } => {
            if *sent == *length {
                return ServeReport::Sent(
                    join3("TX APP   ", decimal_string(*sent as u64).as_str(), " B"),
                );
            }
            let head = join3("short UDP send to ", peer, ": ");
            let counts = join3(
                head.as_str(),
                decimal_string(*sent as u64).as_str(),
                "/",
            );
            ServeReport::Failed(
                join3(counts.as_str(), decimal_string(*length as u64).as_str(), " bytes"),
            )
        },
    }
}

/// A line begins with its first part, which holds no white space; what follows
/// the white space behind it, trimmed, is its second part.
pub proof fn line_is_split_at_its_first_white_space(text: Seq<char>)
    ensures
        first_part(text).len() <= text.len(),
        text.take(first_part(text).len() as int) == first_part(text),
        forall|i: int| 0 <= i < first_part(text).len() ==> !is_white(#[trigger] first_part(text)[i]),
        first_part(text).len() < text.len() ==> is_white(text[first_part(text).len() as int])
            && second_part(text) == trimmed(text.skip(first_part(text).len() as int + 1)),
        first_part(text).len() == text.len() ==> second_part(text).len() == 0,
{
    lemma_word_len(text);
    let count = word_len(text) as int;
    assert(first_part(text) == text.take(count));
    assert forall|i: int| 0 <= i < first_part(text).len() implies !is_white(
        #[trigger] first_part(text)[i],
    ) by {
        assert(first_part(text)[i] == text[i]);
    }
}

proof fn lemma_data_words()
    ensures
        "discover"@.len() == 8,
        "schema"@.len() == 6,
        "schema"@[0] == 's',
        "get"@.len() == 3,
        "get"@[0] == 'g',
        "fetch"@.len() == 5,
        "set"@.len() == 3,
        "set"@[0] == 's',
        "delete"@.len() == 6,
        "delete"@[0] == 'd',
        "reload"@.len() == 6,
        "reload"@[0] == 'r',
        "help"@.len() == 4,
        "help"@[0] == 'h',
        "quit"@.len() == 4,
        "quit"@[0] == 'q',
{
    reveal_strlit("discover");
    reveal_strlit("schema");
    reveal_strlit("get");
    reveal_strlit("fetch");
    reveal_strlit("set");
    reveal_strlit("delete");
    reveal_strlit("reload");
    reveal_strlit("help");
    reveal_strlit("quit");
}

/// A line is read by its first part: each command has its own meaning, and the
/// second part is its path, filter or query. A path may not be left out.
pub proof fn data_commands_mean_what_they_name(
    line: Seq<char>,
    outcome: Result<CommandView, Seq<char>>,
)
    requires
        data_command(line, outcome),
    ensures
        ({
            let word = first_part(line);
            let rest = second_part(line);
            &&& word == "discover"@ && rest.len() > 0 ==> outcome == Ok::<CommandView, Seq<char>>(
                CommandView::Discover(Some(rest)),
            )
            &&& word == "discover"@ && rest.len() == 0 ==> outcome == Ok::<CommandView, Seq<char>>(
                CommandView::Discover(None),
            )
            &&& word == "schema"@ && rest.len() > 0 ==> outcome == Ok::<CommandView, Seq<char>>(
                CommandView::Schema(Some(rest)),
            )
            &&& word == "schema"@ && rest.len() == 0 ==> outcome == Ok::<CommandView, Seq<char>>(
                CommandView::Schema(None),
            )
            &&& word == "get"@ && rest.len() > 0 ==> outcome == Ok::<CommandView, Seq<char>>(
                CommandView::Get(rest),
            )
            &&& word == "fetch"@ && rest.len() > 0 ==> outcome == Ok::<CommandView, Seq<char>>(
                CommandView::Fetch(rest),
            )
            &&& word == "delete"@ && rest.len() > 0 ==> outcome == Ok::<CommandView, Seq<char>>(
                CommandView::Delete(rest),
            )
            &&& (word == "get"@ || word == "fetch"@ || word == "delete"@) && rest.len() == 0
                ==> outcome is Err
            &&& word == "reload"@ ==> outcome == Ok::<CommandView, Seq<char>>(CommandView::Reload)
            &&& word == "help"@ ==> outcome == Ok::<CommandView, Seq<char>>(CommandView::Help)
            &&& word == "quit"@ ==> outcome == Ok::<CommandView, Seq<char>>(CommandView::Quit)
        }),
{
    lemma_data_words();
}

/// `set` assigns the JSON value behind its path, and is refused without a path,
/// without a value or with a value that is no JSON.
pub proof fn assignment_takes_a_path_and_a_value(
    line: Seq<char>,
    outcome: Result<CommandView, Seq<char>>,
)
    requires
        data_command(line, outcome),
        first_part(line) == "set"@,
    ensures
        ({
            let path = first_part(second_part(line));
            let json = second_part(second_part(line));
            &&& path.len() == 0 || json.len() == 0 || json_read(json) is None ==> outcome is Err
            &&& path.len() > 0 && json.len() > 0 && json_read(json) is Some ==> outcome == Ok::<
                CommandView,
                Seq<char>,
            >(CommandView::Assign(path, json_read(json)->0))
        }),
{
    lemma_data_words();
}

/// A line with another first part names an unknown command.
pub proof fn unknown_command_is_told_by_its_word(
    line: Seq<char>,
    outcome: Result<CommandView, Seq<char>>,
)
    requires
        data_command(line, outcome),
        first_part(line) != "discover"@,
        first_part(line) != "schema"@,
        first_part(line) != "get"@,
        first_part(line) != "fetch"@,
        first_part(line) != "set"@,
        first_part(line) != "delete"@,
        first_part(line) != "reload"@,
        first_part(line) != "help"@,
        first_part(line) != "quit"@,
    ensures
        outcome == Ok::<CommandView, Seq<char>>(CommandView::Unknown(first_part(line))),
{
}

/// A server reports a datagram as sent exactly when the whole response left.
pub proof fn serving_is_reported_when_all_was_sent(
    progress: ServeProgress,
    peer: Seq<char>,
    report: ServeReport,
)
    requires
        serve_outcome(progress, peer, report),
    ensures
        report is Sent <==> progress is Sent && progress->sent == progress->length,
        report is Sent ==> report->Sent_0@ == "TX APP   "@ + decimal(progress->sent as nat)
            + " B"@,
        progress is Sent && progress->sent != progress->length ==> report is Failed
            && report->Failed_0@ == "short UDP send to "@ + peer + ": "@ + decimal(
            progress->sent as nat,
        ) + "/"@ + decimal(progress->length as nat) + " bytes"@,
        progress is Unhandled ==> report is Failed && report->Failed_0@ == "handle datagram from "@
            + peer + ": "@ + progress->Unhandled_0@,
        progress is Unsent ==> report is Failed && report->Failed_0@ == "send response to "@ + peer
            + ": "@ + progress->Unsent_0@,
{
}

/// A value is shown as its text, a missing one as not found, and an error as
/// such.
pub proof fn values_are_shown_as_their_text(
    result: Result<Option<JsonValue>, ApplicationError>,
    line: Seq<char>,
)
    requires
        value_outcome(result, line),
    ensures
        result is Ok && result->Ok_0 is Some && json_pretty(result->Ok_0->0@) is Some ==> line
            == json_pretty(result->Ok_0->0@)->0,
        result is Ok && result->Ok_0 is None ==> line == "not found"@,
        result is Err ==> line == "ERROR "@ + result->Err_0.described(),
        result is Ok && result->Ok_0 is Some && json_pretty(result->Ok_0->0@) is None
            ==> "ERROR render JSON value: "@.is_prefix_of(line),
{
}

} // verus!
