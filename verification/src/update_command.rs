//! The `rule update` console command.

use vstd::prelude::*;

use crate::error::{invalid_update, Fault, InspectionError};
use crate::rule_text::{option_view, EntryChoice, RuleEntrySelector};
use crate::selector::{parse_selector_chars, selector_in, RuleSelector};
use crate::text::{
    all_digits, chars_of, chars_view, control, decimal_value, digits_only, find_char, is_control,
    is_spacing, is_white, join, join3, lemma_find_char, lemma_key_and_value, parse_decimal,
    position_of, same_text, slice_chars, spaced, spacing_keeps_the_words, split_words, string_of, white, words,
};

verus! {

/// A parsed, not-yet-applied targeted rule update command.
#[derive(Debug)]
pub struct RuleUpdateRequest {
    /// Exact rule identity containing both numeric value and bit length.
    pub rule: RuleSelector,
    /// Exact or human entry selector.
    pub entry: RuleEntrySelector,
    /// The one target-value change requested by `tv=`.
    pub target_value: String,
    /// Whether the later exchange must use the current context tag as a
    /// precondition.
    pub if_match: bool,
}

/// A rule update as a mathematical value.
pub struct UpdateView {
    /// Exact rule identity.
    pub rule: RuleSelector,
    /// Exact or human entry selector.
    pub entry: EntryChoice,
    /// The requested target value.
    pub target_value: Seq<char>,
    /// Whether the context tag is a precondition.
    pub if_match: bool,
}

impl View for RuleUpdateRequest {
    type V = UpdateView;

    open spec fn view(&self) -> UpdateView {
        UpdateView {
            rule: self.rule,
            entry: self.entry@,
            target_value: self.target_value@,
            if_match: self.if_match,
        }
    }
}

/// The arguments of an update command that have been read so far.
pub struct UpdateArguments {
    /// Value of `entry`.
    pub entry_index: Option<usize>,
    /// Value of `fid`.
    pub fid: Option<Seq<char>>,
    /// Value of `fp`.
    pub field_position: Option<usize>,
    /// Value of `di`.
    pub direction: Option<Seq<char>>,
    /// Value of `tv`.
    pub target_value: Option<Seq<char>>,
    /// Whether `--if-match` was given.
    pub if_match: bool,
}

struct UpdateState {
    entry_index: Option<usize>,
    fid: Option<String>,
    field_position: Option<usize>,
    direction: Option<String>,
    target_value: Option<String>,
    if_match: bool,
}

impl View for UpdateState {
    type V = UpdateArguments;

    closed spec fn view(&self) -> UpdateArguments {
        UpdateArguments {
            entry_index: self.entry_index,
            fid: option_view(self.fid),
            field_position: self.field_position,
            direction: option_view(self.direction),
            target_value: option_view(self.target_value),
            if_match: self.if_match,
        }
    }
}

/// What the unsigned decimal value of an argument denotes.
pub open spec fn unsigned_argument(value: Seq<char>, key: Seq<char>) -> Result<usize, Fault> {
    if !all_digits(value) {
        Err(Fault::InvalidUpdate(key + " must be an unsigned decimal number"@))
    } else if decimal_value(value) > usize::MAX {
        Err(
            Fault::InvalidUpdate(key + " is out of range for a canonical entry position"@),
        )
    } else {
        Ok(decimal_value(value) as usize)
    }
}

pub(crate) fn parse_unsigned_argument(value: &[char], key: &str) -> (result: Result<
    usize,
    InspectionError,
>)
    ensures
        match result {
            Ok(number) => unsigned_argument(value@, key@) == Ok::<usize, Fault>(number),
            Err(error) => unsigned_argument(value@, key@) == Err::<usize, Fault>(error@),
        },
{
    if !digits_only(value) {
        return Err(invalid_update(join(key, " must be an unsigned decimal number").as_str()));
    }
    match parse_decimal(value) {
        Some(number) => {
            if number > usize::MAX as u64 {
                Err(
                    invalid_update(
                        join(key, " is out of range for a canonical entry position").as_str(),
                    ),
                )
            } else {
                Ok(number as usize)
            }
        },
        None => Err(
            invalid_update(join(key, " is out of range for a canonical entry position").as_str()),
        ),
    }
}

/// Whether a text is a readable field name.
pub open spec fn readable_fid(value: Seq<char>) -> bool {
    value.len() > 0 && forall|i: int|
        0 <= i < value.len() ==> !is_white(#[trigger] value[i]) && !is_control(value[i])
}

/// Whether a text holds a control character.
pub open spec fn has_control(value: Seq<char>) -> bool {
    exists|i: int| 0 <= i < value.len() && is_control(#[trigger] value[i])
}

fn valid_fid_token(value: &[char]) -> (result: bool)
    ensures
        result == readable_fid(value@),
{
    let mut index: usize = 0;
    while index < value.len()
        invariant
            index <= value.len(),
            forall|i: int|
                0 <= i < index ==> !is_white(#[trigger] value@[i]) && !is_control(value@[i]),
        decreases value.len() - index,
    {
        if white(value[index]) || control(value[index]) {
            assert(is_white(value@[index as int]) || is_control(value@[index as int]));
            return false;
        }
        index += 1;
    }
    value.len() > 0
}

fn contains_control(value: &[char]) -> (result: bool)
    ensures
        result == has_control(value@),
{
    let mut index: usize = 0;
    while index < value.len()
        invariant
            index <= value.len(),
            forall|i: int| 0 <= i < index ==> !is_control(#[trigger] value@[i]),
        decreases value.len() - index,
    {
        if control(value[index]) {
            assert(is_control(value@[index as int]));
            return true;
        }
        index += 1;
    }
    false
}

/// Whether a text names a direction.
pub open spec fn is_direction(value: Seq<char>) -> bool {
    value == "bi"@ || value == "up"@ || value == "down"@
}

/// What one more `key=value` pair adds to the arguments.
pub open spec fn update_pair(
    arguments: UpdateArguments,
    key: Seq<char>,
    value: Seq<char>,
) -> Result<UpdateArguments, Fault> {
    if key == "entry"@ {
        if arguments.entry_index is Some {
            Err(Fault::InvalidUpdate("duplicate 'entry' argument"@))
        } else {
            match unsigned_argument(value, "entry"@) {
                Ok(number) => Ok(UpdateArguments { entry_index: Some(number), ..arguments }),
                Err(fault) => Err(fault),
            }
        }
    } else if key == "fid"@ {
        if arguments.fid is Some {
            Err(Fault::InvalidUpdate("duplicate 'fid' argument"@))
        } else if !readable_fid(value) {
            Err(Fault::InvalidUpdate("fid must be a readable non-empty field name"@))
        } else {
            Ok(UpdateArguments { fid: Some(value), ..arguments })
        }
    } else if key == "fp"@ {
        if arguments.field_position is Some {
            Err(Fault::InvalidUpdate("duplicate 'fp' argument"@))
        } else {
            match unsigned_argument(value, "fp"@) {
                Ok(number) => if number == 0 {
                    Err(Fault::InvalidUpdate("fp must be a one-based field position"@))
                } else {
                    Ok(UpdateArguments { field_position: Some(number), ..arguments })
                },
                Err(fault) => Err(fault),
            }
        }
    } else if key == "di"@ {
        if arguments.direction is Some {
            Err(Fault::InvalidUpdate("duplicate 'di' argument"@))
        } else if !is_direction(value) {
            Err(Fault::InvalidUpdate("di must be one of 'bi', 'up', or 'down'"@))
        } else {
            Ok(UpdateArguments { direction: Some(value), ..arguments })
        }
    } else if key == "tv"@ {
        if arguments.target_value is Some {
            Err(Fault::InvalidUpdate("duplicate 'tv' argument"@))
        } else if has_control(value) {
            Err(Fault::InvalidUpdate("tv must not contain control characters"@))
        } else {
            Ok(UpdateArguments { target_value: Some(value), ..arguments })
        }
    } else {
        Err(Fault::InvalidUpdate("unknown update argument '"@ + key + "'"@))
    }
}

/// What one more word adds to the arguments.
pub open spec fn update_word(arguments: UpdateArguments, word: Seq<char>) -> Result<
    UpdateArguments,
    Fault,
> {
    let equals = find_char(word, '=') as int;
    if word == "--if-match"@ {
        if arguments.if_match {
            Err(Fault::InvalidUpdate("duplicate '--if-match' flag"@))
        } else {
            Ok(UpdateArguments { if_match: true, ..arguments })
        }
    } else if equals == word.len() {
        Err(
            Fault::InvalidUpdate("malformed argument '"@ + word + "'; expected key=value"@),
        )
    } else if equals == 0 || equals + 1 == word.len() || word.skip(equals + 1).contains('=') {
        Err(
            Fault::InvalidUpdate(
                "malformed argument '"@ + word + "'; expected one non-empty key and value"@,
            ),
        )
    } else {
        update_pair(arguments, word.take(equals), word.skip(equals + 1))
    }
}

/// What a list of words adds to the arguments.
pub open spec fn update_words(arguments: UpdateArguments, list: Seq<Seq<char>>) -> Result<
    UpdateArguments,
    Fault,
>
    decreases list.len(),
{
    if list.len() == 0 {
        Ok(arguments)
    } else {
        match update_word(arguments, list[0]) {
            Ok(next) => update_words(next, list.drop_first()),
            Err(fault) => Err(fault),
        }
    }
}

/// The arguments before any word.
pub open spec fn no_arguments() -> UpdateArguments {
    UpdateArguments {
        entry_index: None,
        fid: None,
        field_position: None,
        direction: None,
        target_value: None,
        if_match: false,
    }
}

/// The update that complete arguments request for a rule.
pub open spec fn requested_update(rule: RuleSelector, arguments: UpdateArguments) -> Result<
    UpdateView,
    Fault,
> {
    match arguments.target_value {
        None => Err(Fault::InvalidUpdate("exactly one 'tv' is required"@)),
        Some(target_value) => {
            let narrowed = arguments.field_position is Some || arguments.direction is Some;
            match (arguments.entry_index, arguments.fid) {
                (Some(entry_index), None) => if narrowed {
                    Err(
                        Fault::InvalidUpdate(
                            "exact 'entry' cannot be combined with 'fp' or 'di'"@,
                        ),
                    )
                } else {
                    Ok(
                        UpdateView {
                            rule,
                            entry: EntryChoice::Entry(entry_index),
                            target_value,
                            if_match: arguments.if_match,
                        },
                    )
                },
                (None, Some(fid)) => Ok(
                    UpdateView {
                        rule,
                        entry: EntryChoice::Field(
                            fid,
                            arguments.field_position,
                            arguments.direction,
                        ),
                        target_value,
                        if_match: arguments.if_match,
                    },
                ),
                (Some(_), Some(_)) => Err(
                    Fault::InvalidUpdate("entry and fid selectors cannot be combined"@),
                ),
                (None, None) => if narrowed {
                    Err(Fault::InvalidUpdate("fp and di require a fid selector"@))
                } else {
                    Err(Fault::InvalidUpdate("exactly one of 'entry' or 'fid' is required"@))
                },
            }
        },
    }
}

/// The update that a command line requests.
pub open spec fn update_command(input: Seq<char>) -> Result<UpdateView, Fault> {
    let list = words(input);
    if list.len() < 2 || list[0] != "rule"@ || list[1] != "update"@ {
        Err(Fault::InvalidUpdate("expected 'rule update <value>/<bits> ...'"@))
    } else if list.len() < 3 {
        Err(Fault::InvalidUpdate("missing RuleID; expected <value>/<bits>"@))
    } else {
        match selector_in(list[2]) {
            Err(fault) => Err(Fault::InvalidUpdate("invalid RuleID: "@ + fault.described())),
            Ok(rule) => match update_words(no_arguments(), list.skip(3)) {
                Err(fault) => Err(fault),
                Ok(arguments) => requested_update(rule, arguments),
            },
        }
    }
}

fn read_update_pair(state: &mut UpdateState, key: &str, value: &[char]) -> (result: Result<
    (),
    InspectionError,
>)
    ensures
        match result {
            Ok(()) => update_pair(old(state)@, key@, value@) == Ok::<UpdateArguments, Fault>(
                final(state)@,
            ),
            Err(error) => update_pair(old(state)@, key@, value@) == Err::<UpdateArguments, Fault>(
                error@,
            ),
        },
{
    if same_text(key, "entry") {
        if state.entry_index.is_some() {
            return Err(invalid_update("duplicate 'entry' argument"));
        }
        match parse_unsigned_argument(value, "entry") {
            Ok(number) => {
                state.entry_index = Some(number);
            },
            Err(error) => {
                return Err(error);
            },
        }
    } else if same_text(key, "fid") {
        if state.fid.is_some() {
            return Err(invalid_update("duplicate 'fid' argument"));
        }
        if !valid_fid_token(value) {
            return Err(invalid_update("fid must be a readable non-empty field name"));
        }
        state.fid = Some(string_of(value));
    } else if same_text(key, "fp") {
        if state.field_position.is_some() {
            return Err(invalid_update("duplicate 'fp' argument"));
        }
        match parse_unsigned_argument(value, "fp") {
            Ok(number) => {
                if number == 0 {
                    return Err(invalid_update("fp must be a one-based field position"));
                }
                state.field_position = Some(number);
            },
            Err(error) => {
                return Err(error);
            },
        }
    } else if same_text(key, "di") {
        if state.direction.is_some() {
            return Err(invalid_update("duplicate 'di' argument"));
        }
        let direction = string_of(value);
        if !same_text(direction.as_str(), "bi") && !same_text(direction.as_str(), "up")
            && !same_text(direction.as_str(), "down") {
            return Err(invalid_update("di must be one of 'bi', 'up', or 'down'"));
        }
        state.direction = Some(direction);
    } else if same_text(key, "tv") {
        if state.target_value.is_some() {
            return Err(invalid_update("duplicate 'tv' argument"));
        }
        if contains_control(value) {
            return Err(invalid_update("tv must not contain control characters"));
        }
        state.target_value = Some(string_of(value));
    } else {
        return Err(invalid_update(join3("unknown update argument '", key, "'").as_str()));
    }
    Ok(())
}

fn read_update_word(state: &mut UpdateState, word: &[char]) -> (result: Result<
    (),
    InspectionError,
>)
    ensures
        match result {
            Ok(()) => update_word(old(state)@, word@) == Ok::<UpdateArguments, Fault>(
                final(state)@,
            ),
            Err(error) => update_word(old(state)@, word@) == Err::<UpdateArguments, Fault>(error@),
        },
{
    let text = string_of(word);
    if same_text(text.as_str(), "--if-match") {
        if state.if_match {
            return Err(invalid_update("duplicate '--if-match' flag"));
        }
        state.if_match = true;
        return Ok(());
    }
    let equals: usize = position_of(word, '=');
    if equals == word.len() {
        return Err(
            invalid_update(
                join3("malformed argument '", text.as_str(), "'; expected key=value").as_str(),
            ),
        );
    }
    let key = slice_chars(word, 0, equals);
    let value = slice_chars(word, equals + 1, word.len());
    proof {
        assert(word@.take(equals as int) =~= word@.subrange(0, equals as int));
        assert(word@.skip(equals + 1) =~= word@.subrange(equals + 1, word@.len() as int));
        lemma_find_char(value@, '=');
    }
    if key.len() == 0 || value.len() == 0 || position_of(value.as_slice(), '=') < value.len() {
        return Err(
            invalid_update(
                join3(
                    "malformed argument '",
                    text.as_str(),
                    "'; expected one non-empty key and value",
                ).as_str(),
            ),
        );
    }
    read_update_pair(state, string_of(key.as_slice()).as_str(), value.as_slice())
}

/// Parses a complete targeted rule-update command.
///
/// The accepted syntax is `rule update <value>/<bits>` followed by exactly
/// one selector (`entry=<index>` or `fid=<name>` with optional `fp=<position>`
/// and `di=<direction>`), exactly one `tv=<value>`, and optional `--if-match`.
pub fn parse_rule_update_command(input: &str) -> (result: Result<
    RuleUpdateRequest,
    InspectionError,
>)
    ensures
        match result {
            Ok(request) => update_command(input@) == Ok::<UpdateView, Fault>(request@),
            Err(error) => update_command(input@) == Err::<UpdateView, Fault>(error@),
        },
{
    let characters = chars_of(input);
    let list = split_words(characters.as_slice());
    let ghost view = chars_view(list@);
    proof {
        assert(view == words(input@));
        assert(forall|i: int| 0 <= i < list@.len() ==> view[i] == (#[trigger] list@[i])@);
    }
    if list.len() < 2 || !same_text(string_of(list[0].as_slice()).as_str(), "rule") || !same_text(
        string_of(list[1].as_slice()).as_str(),
        "update",
    ) {
        return Err(invalid_update("expected 'rule update <value>/<bits> ...'"));
    }
    if list.len() < 3 {
        return Err(invalid_update("missing RuleID; expected <value>/<bits>"));
    }
    let rule = match parse_selector_chars(list[2].as_slice()) {
        Ok(rule) => rule,
        Err(error) => {
            return Err(invalid_update(join("invalid RuleID: ", error.message().as_str()).as_str()));
        },
    };
    let mut state = UpdateState {
        entry_index: None,
        fid: None,
        field_position: None,
        direction: None,
        target_value: None,
        if_match: false,
    };
    let mut index: usize = 3;
    while index < list.len()
        invariant
            3 <= index <= list@.len(),
            view == words(input@),
            view.len() == list@.len(),
            forall|i: int| 0 <= i < list@.len() ==> view[i] == (#[trigger] list@[i])@,
            view[0] == "rule"@,
            view[1] == "update"@,
            selector_in(view[2]) == Ok::<RuleSelector, Fault>(rule),
            update_words(no_arguments(), view.skip(3)) == update_words(
                state@,
                view.skip(index as int),
            ),
        decreases list.len() - index,
    {
        proof {
            assert(view.skip(index as int)[0] == view[index as int]);
            assert(view.skip(index as int).drop_first() =~= view.skip(index + 1));
        }
        match read_update_word(&mut state, list[index].as_slice()) {
            Ok(()) => {},
            Err(error) => {
                return Err(error);
            },
        }
        index += 1;
    }
    let target_value = match state.target_value {
        Some(value) => value,
        None => {
            return Err(invalid_update("exactly one 'tv' is required"));
        },
    };
    let narrowed = state.field_position.is_some() || state.direction.is_some();
    let entry = match (state.entry_index, state.fid) {
        (Some(entry_index), None) => {
            if narrowed {
                return Err(invalid_update("exact 'entry' cannot be combined with 'fp' or 'di'"));
            }
            RuleEntrySelector::Entry { entry_index }
        },
        (None, Some(fid)) => RuleEntrySelector::Field {
            fid,
            field_position: state.field_position,
            direction: state.direction,
        },
        (Some(_), Some(_)) => {
            return Err(invalid_update("entry and fid selectors cannot be combined"));
        },
        (None, None) => {
            if narrowed {
                return Err(invalid_update("fp and di require a fid selector"));
            }
            return Err(invalid_update("exactly one of 'entry' or 'fid' is required"));
        },
    };
    Ok(RuleUpdateRequest { rule, entry, target_value, if_match: state.if_match })
}

proof fn lemma_words_commute(
    arguments: UpdateArguments,
    first: Seq<char>,
    second: Seq<char>,
)
    requires
        update_word(arguments, first) is Ok,
        update_word(update_word(arguments, first)->Ok_0, second) is Ok,
    ensures
        update_word(arguments, second) is Ok,
        update_word(update_word(arguments, second)->Ok_0, first) == update_word(
            update_word(arguments, first)->Ok_0,
            second,
        ),
{
}

proof fn lemma_any_word_first(arguments: UpdateArguments, list: Seq<Seq<char>>, at: int)
    requires
        0 <= at < list.len(),
        update_words(arguments, list) is Ok,
    ensures
        update_word(arguments, list[at]) is Ok,
        update_words(update_word(arguments, list[at])->Ok_0, list.remove(at)) == update_words(
            arguments,
            list,
        ),
    decreases list.len(),
{
    let rest = list.drop_first();
    if at == 0 {
        assert(list.remove(0) =~= rest);
    } else {
        let next = update_word(arguments, list[0])->Ok_0;
        lemma_any_word_first(next, rest, at - 1);
        lemma_words_commute(arguments, list[0], list[at]);
        assert(list.remove(at).drop_first() =~= rest.remove(at - 1));
    }
}

proof fn lemma_reordered_words(
    arguments: UpdateArguments,
    list: Seq<Seq<char>>,
    reordered: Seq<Seq<char>>,
)
    requires
        list.to_multiset() == reordered.to_multiset(),
        update_words(arguments, list) is Ok,
    ensures
        update_words(arguments, reordered) == update_words(arguments, list),
    decreases list.len(),
{
    list.to_multiset_ensures();
    reordered.to_multiset_ensures();
    if reordered.len() > 0 {
        let word = reordered[0];
        assert(reordered.contains(word));
        assert(list.to_multiset().count(word) > 0);
        let at = choose|at: int| 0 <= at < list.len() && list[at] == word;
        lemma_any_word_first(arguments, list, at);
        assert(reordered.remove(0) =~= reordered.drop_first());
        lemma_reordered_words(
            update_word(arguments, word)->Ok_0,
            list.remove(at),
            reordered.drop_first(),
        );
    }
}

/// An accepted update does not depend on the order of its arguments, nor on
/// the white space around the words of the command.
pub proof fn argument_order_and_spacing_do_not_matter(
    list: Seq<Seq<char>>,
    gaps: Seq<Seq<char>>,
    reordered: Seq<Seq<char>>,
    other_gaps: Seq<Seq<char>>,
)
    requires
        is_spacing(list, gaps),
        is_spacing(reordered, other_gaps),
        list.len() >= 3,
        reordered.len() == list.len(),
        reordered.take(3) == list.take(3),
        reordered.skip(3).to_multiset() == list.skip(3).to_multiset(),
    ensures
        update_command(spaced(list, gaps)) is Ok ==> update_command(spaced(reordered, other_gaps))
            == update_command(spaced(list, gaps)),
{
    spacing_keeps_the_words(list, gaps);
    spacing_keeps_the_words(reordered, other_gaps);
    assert forall|i: int| 0 <= i < 3 implies list[i] == #[trigger] reordered[i] by {
        assert(list.take(3)[i] == reordered.take(3)[i]);
    }
    if update_command(spaced(list, gaps)) is Ok {
        lemma_reordered_words(no_arguments(), list.skip(3), reordered.skip(3));
    }
}

proof fn lemma_update_keys()
    ensures
        !"entry"@.contains('=') && "entry"@.len() == 5,
        !"fid"@.contains('=') && "fid"@.len() == 3,
        !"fp"@.contains('=') && "fp"@.len() == 2,
        !"di"@.contains('=') && "di"@.len() == 2,
        !"tv"@.contains('=') && "tv"@.len() == 2,
        "fp"@ != "di"@,
        "fp"@ != "tv"@,
        "di"@ != "tv"@,
        "--if-match"@[0] == '-',
        "entry"@[0] != '-' && "fid"@[0] != '-' && "fp"@[0] != '-' && "di"@[0] != '-' && "tv"@[0]
            != '-',
{
    reveal_strlit("entry");
    reveal_strlit("fid");
    reveal_strlit("fp");
    reveal_strlit("di");
    reveal_strlit("tv");
    reveal_strlit("--if-match");
    assert("fp"@[0] == 'f' && "di"@[0] == 'd' && "tv"@[0] == 't');
}

/// What each argument of an update means: `entry=` sets the index of the
/// entry, `fid=` its field, `fp=` its position, which counts from one, `di=`
/// its direction, `tv=` the target value, and `--if-match` the precondition.
/// Each sets nothing else.
pub proof fn update_arguments_mean_what_they_name(
    before: UpdateArguments,
    value: Seq<char>,
    number: usize,
)
    requires
        before.entry_index is None,
        before.fid is None,
        before.field_position is None,
        before.direction is None,
        before.target_value is None,
        !before.if_match,
        value.len() > 0,
        !value.contains('='),
        all_digits(value) ==> decimal_value(value) == number,
    ensures
        all_digits(value) ==> update_word(before, "entry"@ + seq!['='] + value) == Ok::<
            UpdateArguments,
            Fault,
        >(UpdateArguments { entry_index: Some(number), ..before }),
        readable_fid(value) ==> update_word(before, "fid"@ + seq!['='] + value) == Ok::<
            UpdateArguments,
            Fault,
        >(UpdateArguments { fid: Some(value), ..before }),
        all_digits(value) && number > 0 ==> update_word(before, "fp"@ + seq!['='] + value) == Ok::<
            UpdateArguments,
            Fault,
        >(UpdateArguments { field_position: Some(number), ..before }),
        all_digits(value) && number == 0 ==> update_word(before, "fp"@ + seq!['='] + value) is Err,
        value == "up"@ || value == "down"@ || value == "bi"@ ==> update_word(
            before,
            "di"@ + seq!['='] + value,
        ) == Ok::<UpdateArguments, Fault>(UpdateArguments { direction: Some(value), ..before }),
        value != "up"@ && value != "down"@ && value != "bi"@ ==> update_word(
            before,
            "di"@ + seq!['='] + value,
        ) is Err,
        !has_control(value) ==> update_word(before, "tv"@ + seq!['='] + value) == Ok::<
            UpdateArguments,
            Fault,
        >(UpdateArguments { target_value: Some(value), ..before }),
        update_word(before, "--if-match"@) == Ok::<UpdateArguments, Fault>(
            UpdateArguments { if_match: true, ..before },
        ),
        !all_digits(value) ==> update_word(before, "entry"@ + seq!['='] + value) is Err
            && update_word(before, "fp"@ + seq!['='] + value) is Err,
{
    lemma_update_keys();
    lemma_key_and_value("entry"@, value);
    lemma_key_and_value("fid"@, value);
    lemma_key_and_value("fp"@, value);
    lemma_key_and_value("di"@, value);
    lemma_key_and_value("tv"@, value);
    assert(("entry"@ + seq!['='] + value)[0] == "entry"@[0]);
    assert(("fid"@ + seq!['='] + value)[0] == "fid"@[0]);
    assert(("fp"@ + seq!['='] + value)[0] == "fp"@[0]);
    assert(("di"@ + seq!['='] + value)[0] == "di"@[0]);
    assert(("tv"@ + seq!['='] + value)[0] == "tv"@[0]);
}

/// An argument that was given may not be given again, and an argument of
/// another name is refused.
pub proof fn update_arguments_are_given_once(before: UpdateArguments, value: Seq<char>)
    requires
        value.len() > 0,
        !value.contains('='),
    ensures
        before.entry_index is Some ==> update_word(before, "entry"@ + seq!['='] + value) is Err,
        before.fid is Some ==> update_word(before, "fid"@ + seq!['='] + value) is Err,
        before.field_position is Some ==> update_word(before, "fp"@ + seq!['='] + value) is Err,
        before.direction is Some ==> update_word(before, "di"@ + seq!['='] + value) is Err,
        before.target_value is Some ==> update_word(before, "tv"@ + seq!['='] + value) is Err,
        before.if_match ==> update_word(before, "--if-match"@) is Err,
        update_word(before, value) is Ok ==> value == "--if-match"@,
        update_word(before, seq!['='] + value) is Err,
{
    lemma_update_keys();
    lemma_key_and_value("entry"@, value);
    lemma_key_and_value("fid"@, value);
    lemma_key_and_value("fp"@, value);
    lemma_key_and_value("di"@, value);
    lemma_key_and_value("tv"@, value);
    assert(("entry"@ + seq!['='] + value)[0] == "entry"@[0]);
    assert(("fid"@ + seq!['='] + value)[0] == "fid"@[0]);
    assert(("fp"@ + seq!['='] + value)[0] == "fp"@[0]);
    assert(("di"@ + seq!['='] + value)[0] == "di"@[0]);
    assert(("tv"@ + seq!['='] + value)[0] == "tv"@[0]);
    lemma_find_char(value, '=');
    assert((seq!['='] + value)[0] == '=');
}

/// The update that complete arguments request: the target value, the
/// precondition, and the entry by its index or by its field with the given
/// position and direction. It needs a target value and exactly one of entry
/// and field, and an entry by index takes neither position nor direction.
pub proof fn update_requests_what_its_arguments_say(
    rule: RuleSelector,
    arguments: UpdateArguments,
)
    ensures
        ({
            let outcome = requested_update(rule, arguments);
            let update = outcome->Ok_0;
            &&& outcome is Ok <==> arguments.target_value is Some && (arguments.entry_index is Some
                != arguments.fid is Some) && (arguments.entry_index is Some
                ==> arguments.field_position is None && arguments.direction is None)
            &&& outcome is Ok ==> {
                &&& update.rule == rule
                &&& Some(update.target_value) == arguments.target_value
                &&& update.if_match == arguments.if_match
                &&& arguments.entry_index matches Some(index) ==> update.entry
                    == EntryChoice::Entry(index)
                &&& arguments.fid matches Some(fid) ==> update.entry == EntryChoice::Field(
                    fid,
                    arguments.field_position,
                    arguments.direction,
                )
            }
        }),
{
}

/// An accepted update command begins with the words `rule update`, its third
/// word is the selector of the rule that it updates, and the words behind it
/// are the arguments.
pub proof fn update_command_names_its_rule(input: Seq<char>)
    requires
        update_command(input) is Ok,
    ensures
        ({
            let list = words(input);
            &&& list.len() >= 3
            &&& list[0] == "rule"@
            &&& list[1] == "update"@
            &&& selector_in(list[2]) == Ok::<RuleSelector, Fault>(update_command(input)->Ok_0.rule)
            &&& update_words(no_arguments(), list.skip(3)) is Ok
            &&& requested_update(
                update_command(input)->Ok_0.rule,
                update_words(no_arguments(), list.skip(3))->Ok_0,
            ) == update_command(input)
        }),
        no_arguments().entry_index is None,
        no_arguments().fid is None,
        no_arguments().field_position is None,
        no_arguments().direction is None,
        no_arguments().target_value is None,
        !no_arguments().if_match,
{
}

/// A word is refused without an equals sign, unless it is the flag, and with
/// one where the key or the value is empty or the value holds another one.
pub proof fn malformed_update_words_are_refused(
    arguments: UpdateArguments,
    key: Seq<char>,
    value: Seq<char>,
)
    requires
        !key.contains('='),
    ensures
        key != "--if-match"@ ==> update_word(arguments, key) is Err,
        key.len() == 0 || value.len() == 0 || value.contains('=') ==> update_word(
            arguments,
            key + seq!['='] + value,
        ) is Err,
        arguments.if_match ==> update_word(arguments, "--if-match"@) is Err,
{
    reveal_strlit("--if-match");
    let word = key + seq!['='] + value;
    crate::text::lemma_find_char_after(key, '=', value);
    crate::text::lemma_find_char(key, '=');
    assert(word.skip(key.len() as int + 1) =~= value);
    assert(word != "--if-match"@) by {
        if word == "--if-match"@ {
            assert(word[key.len() as int] == '=');
            assert("--if-match"@.contains('='));
        }
    }
}

/// A field name is readable where it is not empty and holds neither white space
/// nor control characters; a value holds a control character where one of its
/// characters is below the space or from the delete to the last such code.
pub proof fn readable_names_hold_no_white_space(value: Seq<char>, at: int)
    ensures
        readable_fid(value) ==> value.len() > 0,
        readable_fid(value) && 0 <= at < value.len() ==> !is_white(value[at]) && !is_control(
            value[at],
        ),
        0 <= at < value.len() && (0 <= value[at] as int <= 31 || 127 <= value[at] as int <= 159)
            ==> has_control(value) && !readable_fid(value),
        0 <= at < value.len() && is_white(value[at]) ==> !readable_fid(value),
        (forall|i: int|
            0 <= i < value.len() ==> #[trigger] value[i] as int > 32 && (value[i] as int) < 127)
            ==> !has_control(value) && (value.len() > 0 ==> readable_fid(value)),
{
    if 0 <= at < value.len() {
        let character = value[at];
        assert(is_control(character) ==> has_control(value));
    }
}

} // verus!
