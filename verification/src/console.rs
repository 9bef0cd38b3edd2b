//! Commands of the core's console: what a command line asks for, and the
//! lines that answer it.

use vstd::prelude::*;

use crate::context::{ContextSnapshot, SnapshotView};
use crate::rule::{summaries_from_rules, summary_of, RuleView};
use crate::rule_text::{
    entry_key, entry_lines, format_rule_detail, format_rule_list, summaries_view, summary_key,
    summary_line, DetailView, SummaryView,
};
use crate::selector::{parse_selector_chars, selector_in, RuleSelector};
use crate::service::{detail_from_snapshot, selected_detail};
use crate::sort::sort_by;
use crate::text::{
    after_prefix, chars_of, chars_view, decimal, decimal_string, hex_digits, hex_string, join,
    join3, same_text, split_words, string_of, strings_view, strip_prefix, words,
};

verus! {

/// What a completed command means for the console loop.
#[derive(Debug, Clone, Copy, PartialEq, Eq, Structural)]
pub enum CommandResult {
    /// Nothing was done; the loop goes on.
    Continue,
    /// The command was carried out.
    Successful,
    /// The command names an operation that is not offered.
    Unavailable,
    /// The loop ends.
    Quit,
}

/// What the console does for a command line.
#[derive(Debug)]
pub enum ConsoleStep {
    /// Prints lines, and the command is complete.
    Print {
        /// The lines.
        lines: Vec<String>,
        /// What the command means for the loop.
        result: CommandResult,
    },
    /// Duplicates a rule on both sides.
    Duplicate,
    /// Updates one target value on both sides.
    Update,
    /// Compares the context tags of core and device.
    CheckDevice,
    /// Lists the device's rules.
    ListDevice,
    /// Shows one rule of the device.
    GetDevice(RuleSelector),
}

/// A console step as a mathematical value.
pub enum StepView {
    /// Prints lines, and the command is complete.
    Print(Seq<Seq<char>>, CommandResult),
    /// Duplicates a rule on both sides.
    Duplicate,
    /// Updates one target value on both sides.
    Update,
    /// Compares the context tags of core and device.
    CheckDevice,
    /// Lists the device's rules.
    ListDevice,
    /// Shows one rule of the device.
    GetDevice(RuleSelector),
}

impl View for ConsoleStep {
    type V = StepView;

    open spec fn view(&self) -> StepView {
        match self {
            ConsoleStep::Print { lines, result } => StepView::Print(strings_view(lines@), *result),
            ConsoleStep::Duplicate => StepView::Duplicate,
            ConsoleStep::Update => StepView::Update,
            ConsoleStep::CheckDevice => StepView::CheckDevice,
            ConsoleStep::ListDevice => StepView::ListDevice,
            ConsoleStep::GetDevice(selector) => StepView::GetDevice(*selector),
        }
    }
}

/// The lines of the console's help.
pub open spec fn help_text() -> Seq<Seq<char>> {
    seq![
        "Core commands:"@,
        "  context status"@,
        "  context check"@,
        "  rule list <core|device>"@,
        "  rule get <core|device> <value>/<bits>"@,
        "  rule duplicate <source>/<bits> <destination>/<bits> [entry=<index> tv=<value> mo=<identity> cda=<identity> ...]"@,
        "  rule update <value>/<bits> entry=<index> tv=<value> [--if-match]"@,
        "  rule update <value>/<bits> fid=<field> [fp=<position>] [di=<direction>] tv=<value> [--if-match]"@,
        "  help"@,
        "  quit"@,
    ]
}

/// Returns the lines of the console's help.
pub fn console_help() -> (result: Vec<String>)
    ensures
        strings_view(result@) == help_text(),
{
    let result: Vec<String> = vec![
        "Core commands:".to_owned(),
        "  context status".to_owned(),
        "  context check".to_owned(),
        "  rule list <core|device>".to_owned(),
        "  rule get <core|device> <value>/<bits>".to_owned(),
        "  rule duplicate <source>/<bits> <destination>/<bits> [entry=<index> tv=<value> mo=<identity> cda=<identity> ...]".to_owned(),
        "  rule update <value>/<bits> entry=<index> tv=<value> [--if-match]".to_owned(),
        "  rule update <value>/<bits> fid=<field> [fp=<position>] [di=<direction>] tv=<value> [--if-match]".to_owned(),
        "  help".to_owned(),
        "  quit".to_owned(),
    ];
    assert(strings_view(result@) =~= help_text());
    result
}

/// The lines that list rules.
pub open spec fn list_text(summaries: Seq<SummaryView>) -> Seq<Seq<char>> {
    sort_by(summaries, summary_key()).map_values(|summary: SummaryView| summary_line(summary))
}

/// The lines that show one rule.
pub open spec fn detail_text(detail: DetailView) -> Seq<Seq<char>> {
    seq![summary_line(SummaryView { id: detail.id, nature: detail.nature })] + entry_lines(
        sort_by(detail.entries, entry_key()),
    )
}

/// The summaries of rules, in their order.
pub open spec fn rule_summaries(rules: Seq<RuleView>) -> Seq<SummaryView> {
    Seq::new(rules.len(), |i: int| summary_of(rules[i]))
}

/// The lines that show the status of a context.
pub open spec fn status_text(snapshot: SnapshotView, debug: bool) -> Seq<Seq<char>> {
    let line = "CONTEXT generation="@ + decimal(snapshot.generation as nat) + "  rules="@ + decimal(
        snapshot.data.rules.len(),
    );
    if debug {
        seq![
            line,
            "  tag="@ + hex_digits(snapshot.data.tag) + "  digest="@ + hex_digits(
                snapshot.data.digest,
            ),
        ]
    } else {
        seq![line]
    }
}

/// Returns the lines that show the status of a context.
pub fn status_lines(snapshot: &ContextSnapshot, debug: bool) -> (result: Vec<String>)
    ensures
        strings_view(result@) == status_text(snapshot@, debug),
{
    let head = join3(
        "CONTEXT generation=",
        decimal_string(snapshot.generation).as_str(),
        "  rules=",
    );
    let mut result: Vec<String> = Vec::new();
    result.push(join(head.as_str(), decimal_string(snapshot.data.rules.len() as u64).as_str()));
    if debug {
        let tag = join3("  tag=", snapshot.data.tag.to_hex().as_str(), "  digest=");
        result.push(join(tag.as_str(), hex_string(snapshot.data.digest.as_slice()).as_str()));
    }
    assert(strings_view(result@) =~= status_text(snapshot@, debug));
    result
}

/// What `rule get` asks for in its words.
pub open spec fn get_step(list: Seq<Seq<char>>, snapshot: SnapshotView) -> Result<
    StepView,
    Seq<char>,
> {
    if list.len() == 0 {
        Err("rule get requires core or device"@)
    } else if list.len() == 1 {
        Err("rule get requires selector"@)
    } else {
        match selector_in(list[1]) {
            Err(fault) => Err(fault.described()),
            Ok(selector) => if list.len() > 2 {
                Err("rule get accepts exactly one selector"@)
            } else if list[0] == "device"@ {
                Ok(StepView::GetDevice(selector))
            } else if list[0] != "core"@ {
                Err("rule get target must be core or device"@)
            } else {
                match selected_detail(snapshot.data.rules, selector) {
                    Err(fault) => Err(fault.described()),
                    Ok(detail) => Ok(
                        StepView::Print(detail_text(detail), CommandResult::Successful),
                    ),
                }
            },
        }
    }
}

/// What the console does for a command line, on the active context.
pub open spec fn command_step(command: Seq<char>, snapshot: SnapshotView, debug: bool) -> Result<
    StepView,
    Seq<char>,
> {
    if command.len() == 0 {
        Ok(StepView::Print(Seq::empty(), CommandResult::Continue))
    } else if command == "quit"@ {
        Ok(StepView::Print(Seq::empty(), CommandResult::Quit))
    } else if command == "help"@ {
        Ok(StepView::Print(help_text(), CommandResult::Continue))
    } else if "rule duplicate"@.is_prefix_of(command) {
        Ok(StepView::Duplicate)
    } else if "rule update"@.is_prefix_of(command) {
        Ok(StepView::Update)
    } else if "context set"@.is_prefix_of(command) {
        Ok(
            StepView::Print(
                seq![
                    "ERROR context-wide mutation is unsupported; use rule update for targeted changes"@,
                ],
                CommandResult::Unavailable,
            ),
        )
    } else if command == "context status"@ {
        Ok(StepView::Print(status_text(snapshot, debug), CommandResult::Successful))
    } else if command == "context check"@ {
        Ok(StepView::CheckDevice)
    } else if let Some(target) = after_prefix(command, "rule list "@) {
        if target == "core"@ {
            Ok(
                StepView::Print(
                    list_text(rule_summaries(snapshot.data.rules)),
                    CommandResult::Successful,
                ),
            )
        } else if target == "device"@ {
            Ok(StepView::ListDevice)
        } else {
            Err("rule list target must be core or device"@)
        }
    } else if let Some(rest) = after_prefix(command, "rule get "@) {
        get_step(words(rest), snapshot)
    } else {
        Ok(StepView::Print(seq!["ERROR unknown command; use help"@], CommandResult::Continue))
    }
}

/// A step or the text of its refusal, as a mathematical value.
pub open spec fn step_view(result: Result<ConsoleStep, String>) -> Result<StepView, Seq<char>> {
    match result {
        Ok(step) => Ok(step@),
        Err(text) => Err(text@),
    }
}

fn printed(lines: Vec<String>, result: CommandResult) -> (step: Result<ConsoleStep, String>)
    ensures
        step_view(step) == Ok::<StepView, Seq<char>>(
            StepView::Print(strings_view(lines@), result),
        ),
{
    Ok(ConsoleStep::Print { lines, result })
}

fn one_line(text: &str) -> (result: Vec<String>)
    ensures
        strings_view(result@) == seq![text@],
{
    let result: Vec<String> = vec![text.to_owned()];
    assert(strings_view(result@) =~= seq![text@]);
    result
}

fn no_lines() -> (result: Vec<String>)
    ensures
        strings_view(result@) == Seq::<Seq<char>>::empty(),
{
    let result: Vec<String> = Vec::new();
    assert(strings_view(result@) =~= Seq::<Seq<char>>::empty());
    result
}

fn read_get(rest: &str, snapshot: &ContextSnapshot) -> (result: Result<ConsoleStep, String>)
    ensures
        step_view(result) == get_step(words(rest@), snapshot@),
{
    let characters = chars_of(rest);
    let list = split_words(characters.as_slice());
    let ghost view = chars_view(list@);
    proof {
        assert(view == words(rest@));
        assert(forall|i: int| 0 <= i < list@.len() ==> view[i] == (#[trigger] list@[i])@);
    }
    if list.len() == 0 {
        return Err("rule get requires core or device".to_owned());
    }
    if list.len() == 1 {
        return Err("rule get requires selector".to_owned());
    }
    let selector = match parse_selector_chars(list[1].as_slice()) {
        Ok(selector) => selector,
        Err(error) => {
            return Err(error.message());
        },
    };
    if list.len() > 2 {
        return Err("rule get accepts exactly one selector".to_owned());
    }
    let side = string_of(list[0].as_slice());
    if same_text(side.as_str(), "device") {
        return Ok(ConsoleStep::GetDevice(selector));
    }
    if !same_text(side.as_str(), "core") {
        return Err("rule get target must be core or device".to_owned());
    }
    match detail_from_snapshot(snapshot, selector) {
        Ok(detail) => printed(format_rule_detail(&detail), CommandResult::Successful),
        Err(error) => Err(error.message()),
    }
}

/// Decides what a trimmed command line asks for. Commands about the core alone
/// are answered from the active snapshot; the others name the exchange with
/// the device that they need.
pub fn handle_command(command: &str, snapshot: &ContextSnapshot, debug: bool) -> (result: Result<
    ConsoleStep,
    String,
>)
    ensures
        step_view(result) == command_step(command@, snapshot@, debug),
{
    if command.unicode_len() == 0 {
        return printed(no_lines(), CommandResult::Continue);
    }
    if same_text(command, "quit") {
        return printed(no_lines(), CommandResult::Quit);
    }
    if same_text(command, "help") {
        return printed(console_help(), CommandResult::Continue);
    }
    if strip_prefix(command, "rule duplicate").is_some() {
        return Ok(ConsoleStep::Duplicate);
    }
    if strip_prefix(command, "rule update").is_some() {
        return Ok(ConsoleStep::Update);
    }
    if strip_prefix(command, "context set").is_some() {
        return printed(
            one_line(
                "ERROR context-wide mutation is unsupported; use rule update for targeted changes",
            ),
            CommandResult::Unavailable,
        );
    }
    if same_text(command, "context status") {
        return printed(status_lines(snapshot, debug), CommandResult::Successful);
    }
    if same_text(command, "context check") {
        return Ok(ConsoleStep::CheckDevice);
    }
    if let Some(target) = strip_prefix(command, "rule list ") {
        if same_text(target.as_str(), "core") {
            let summaries = summaries_from_rules(snapshot.data.rules.as_slice());
            assert(summaries_view(summaries@) =~= rule_summaries(snapshot@.data.rules));
            return printed(
                format_rule_list(summaries.as_slice()),
                CommandResult::Successful,
            );
        }
        if same_text(target.as_str(), "device") {
            return Ok(ConsoleStep::ListDevice);
        }
        return Err("rule list target must be core or device".to_owned());
    }
    if let Some(rest) = strip_prefix(command, "rule get ") {
        return read_get(rest.as_str(), snapshot);
    }
    printed(one_line("ERROR unknown command; use help"), CommandResult::Continue)
}

/// What a command line does, by its words: the fixed commands have their own
/// answer, and the commands on rules go to the core or to the device that they
/// name.
pub proof fn commands_do_what_they_name(
    command: Seq<char>,
    snapshot: SnapshotView,
    debug: bool,
)
    ensures
        command.len() == 0 ==> command_step(command, snapshot, debug) == Ok::<
            StepView,
            Seq<char>,
        >(StepView::Print(Seq::empty(), CommandResult::Continue)),
        command == "quit"@ ==> command_step(command, snapshot, debug) == Ok::<StepView, Seq<char>>(
            StepView::Print(Seq::empty(), CommandResult::Quit),
        ),
        command == "help"@ ==> command_step(command, snapshot, debug) == Ok::<StepView, Seq<char>>(
            StepView::Print(help_text(), CommandResult::Continue),
        ),
        command == "context status"@ ==> command_step(command, snapshot, debug) == Ok::<
            StepView,
            Seq<char>,
        >(StepView::Print(status_text(snapshot, debug), CommandResult::Successful)),
        command == "context check"@ ==> command_step(command, snapshot, debug) == Ok::<
            StepView,
            Seq<char>,
        >(StepView::CheckDevice),
        command == "rule list device"@ ==> command_step(command, snapshot, debug) == Ok::<
            StepView,
            Seq<char>,
        >(StepView::ListDevice),
        command == "rule list core"@ ==> command_step(command, snapshot, debug) == Ok::<
            StepView,
            Seq<char>,
        >(
            StepView::Print(
                list_text(rule_summaries(snapshot.data.rules)),
                CommandResult::Successful,
            ),
        ),
{
    lemma_command_texts();
    if command == "rule list device"@ {
        assert(command.skip(10) =~= "device"@);
    }
    if command == "rule list core"@ {
        assert(command.skip(10) =~= "core"@);
    }
}

proof fn lemma_command_texts()
    ensures
        "quit"@.len() == 4,
        "help"@.len() == 4,
        "quit"@[0] == 'q',
        "help"@[0] == 'h',
        "rule duplicate"@.len() == 14,
        "rule duplicate"@[0] == 'r',
        "rule duplicate"@[5] == 'd',
        "rule update"@.len() == 11,
        "rule update"@[0] == 'r',
        "rule update"@[5] == 'u',
        "context set"@.len() == 11,
        "context set"@[0] == 'c',
        "context set"@[9] == 'e',
        "context status"@.len() == 14,
        "context status"@[0] == 'c',
        "context status"@[9] == 't',
        "context check"@.len() == 13,
        "context check"@[0] == 'c',
        "context check"@[9] == 'h',
        "rule list "@.len() == 10,
        "rule list "@ =~= seq!['r', 'u', 'l', 'e', ' ', 'l', 'i', 's', 't', ' '],
        "rule list core"@ =~= "rule list "@ + seq!['c', 'o', 'r', 'e'],
        "rule list device"@ =~= "rule list "@ + seq!['d', 'e', 'v', 'i', 'c', 'e'],
        "core"@ =~= seq!['c', 'o', 'r', 'e'],
        "device"@ =~= seq!['d', 'e', 'v', 'i', 'c', 'e'],
{
    reveal_strlit("quit");
    reveal_strlit("help");
    reveal_strlit("rule duplicate");
    reveal_strlit("rule update");
    reveal_strlit("context set");
    reveal_strlit("context status");
    reveal_strlit("context check");
    reveal_strlit("rule list ");
    reveal_strlit("rule list core");
    reveal_strlit("rule list device");
    reveal_strlit("core");
    reveal_strlit("device");
}

/// Commands that change rules are handed on by their first words, whatever
/// follows.
pub proof fn changing_commands_are_handed_on(
    rest: Seq<char>,
    snapshot: SnapshotView,
    debug: bool,
)
    ensures
        command_step("rule duplicate"@ + rest, snapshot, debug) == Ok::<StepView, Seq<char>>(
            StepView::Duplicate,
        ),
        command_step("rule update"@ + rest, snapshot, debug) == Ok::<StepView, Seq<char>>(
            StepView::Update,
        ),
        command_step("context set"@ + rest, snapshot, debug) is Ok,
        command_step("context set"@ + rest, snapshot, debug)->Ok_0 is Print,
        command_step("context set"@ + rest, snapshot, debug)->Ok_0->Print_1 is Unavailable,
{
    lemma_command_texts();
    let duplicate = "rule duplicate"@ + rest;
    let update = "rule update"@ + rest;
    let set = "context set"@ + rest;
    assert(duplicate[0] == 'r' && update[0] == 'r' && set[0] == 'c');
    assert(duplicate[5] == 'd' && update[5] == 'u');
    assert("rule duplicate"@.is_prefix_of(duplicate)) by {
        assert(duplicate.subrange(0, 14) =~= "rule duplicate"@);
    }
    assert("rule update"@.is_prefix_of(update)) by {
        assert(update.subrange(0, 11) =~= "rule update"@);
    }
    assert(!"rule duplicate"@.is_prefix_of(update)) by {
        if "rule duplicate"@.is_prefix_of(update) {
            assert("rule duplicate"@[5] == update[5]);
        }
    }
    assert("context set"@.is_prefix_of(set)) by {
        assert(set.subrange(0, 11) =~= "context set"@);
    }
    assert(!"rule duplicate"@.is_prefix_of(set)) by {
        if "rule duplicate"@.is_prefix_of(set) {
            assert("rule duplicate"@[0] == set[0]);
        }
    }
    assert(!"rule update"@.is_prefix_of(set)) by {
        if "rule update"@.is_prefix_of(set) {
            assert("rule update"@[0] == set[0]);
        }
    }
}

/// `rule get` takes a place and one selector: the device is asked for the
/// selected rule, and the core shows its own.
pub proof fn rule_get_goes_to_the_named_place(list: Seq<Seq<char>>, snapshot: SnapshotView)
    ensures
        list.len() != 2 ==> get_step(list, snapshot) is Err,
        list.len() == 2 && selector_in(list[1]) is Err ==> get_step(list, snapshot) is Err,
        list.len() == 2 && selector_in(list[1]) is Ok && list[0] == "device"@ ==> get_step(
            list,
            snapshot,
        ) == Ok::<StepView, Seq<char>>(StepView::GetDevice(selector_in(list[1])->Ok_0)),
        list.len() == 2 && selector_in(list[1]) is Ok && list[0] == "core"@ && selected_detail(
            snapshot.data.rules,
            selector_in(list[1])->Ok_0,
        ) is Ok ==> get_step(list, snapshot) == Ok::<StepView, Seq<char>>(
            StepView::Print(
                detail_text(
                    selected_detail(snapshot.data.rules, selector_in(list[1])->Ok_0)->Ok_0,
                ),
                CommandResult::Successful,
            ),
        ),
        list.len() == 2 && list[0] != "device"@ && list[0] != "core"@ ==> get_step(
            list,
            snapshot,
        ) is Err,
{
    lemma_command_texts();
    assert("core"@.len() == 4 && "device"@.len() == 6);
}

/// The status of a context shows its generation and the number of its rules;
/// the details add its tag and its digest.
pub proof fn status_shows_the_context(snapshot: SnapshotView)
    ensures
        status_text(snapshot, false) == seq![
            "CONTEXT generation="@ + decimal(snapshot.generation as nat) + "  rules="@ + decimal(
                snapshot.data.rules.len(),
            ),
        ],
        status_text(snapshot, true).len() == 2,
        status_text(snapshot, true)[0] == status_text(snapshot, false)[0],
        status_text(snapshot, true)[1] == "  tag="@ + hex_digits(snapshot.data.tag) + "  digest="@
            + hex_digits(snapshot.data.digest),
{
}

/// A rule is shown by its summary line, followed by its entries.
pub proof fn rule_is_shown_with_its_entries(detail: DetailView)
    ensures
        detail_text(detail).len() > 0,
        detail_text(detail)[0] == summary_line(
            SummaryView { id: detail.id, nature: detail.nature },
        ),
        detail_text(detail).skip(1) == entry_lines(sort_by(detail.entries, entry_key())),
{
}

} // verus!
