//! Readable rules: summaries, details and the entries they list.

use vstd::prelude::*;

use crate::error::{invalid_update, Fault, InspectionError};
use crate::rule::order_entries;
use crate::selector::RuleSelector;
use crate::sort::{
    lemma_sort_by_picks, order_view, pair_key, picked, sort_by, sort_order,
    sorting_keeps_an_ordered_list, sorting_orders_and_keeps_items,
};
use crate::text::{
    chars_of, decimal, decimal_string, is_white, join, join3, join_list, joined,
    lemma_trimmed_solid, same_text, strings_view, trim_chars, trimmed,
};
use crate::update_command::{RuleUpdateRequest, UpdateView};

verus! {

/// One readable complete rule entry.
#[derive(Debug)]
pub struct RuleEntry {
    /// Canonical entry index.
    pub entry_index: usize,
    /// Module-qualified or numeric fallback field identity.
    pub fid: String,
    /// Repeated field position.
    pub field_position: usize,
    /// Stable direction identifier.
    pub direction: String,
    /// Stable field length representation.
    pub length: String,
    /// Stable target value representation.
    pub target: String,
    /// Stable matching operator representation.
    pub matching: String,
    /// Stable compression/decompression action representation.
    pub cda: String,
}

/// A rule entry as a mathematical value.
pub struct EntryView {
    /// Canonical entry index.
    pub entry_index: usize,
    /// Module-qualified or numeric fallback field identity.
    pub fid: Seq<char>,
    /// Repeated field position.
    pub field_position: usize,
    /// Stable direction identifier.
    pub direction: Seq<char>,
    /// Stable field length representation.
    pub length: Seq<char>,
    /// Stable target value representation.
    pub target: Seq<char>,
    /// Stable matching operator representation.
    pub matching: Seq<char>,
    /// Stable compression/decompression action representation.
    pub cda: Seq<char>,
}

impl View for RuleEntry {
    type V = EntryView;

    open spec fn view(&self) -> EntryView {
        EntryView {
            entry_index: self.entry_index,
            fid: self.fid@,
            field_position: self.field_position,
            direction: self.direction@,
            length: self.length@,
            target: self.target@,
            matching: self.matching@,
            cda: self.cda@,
        }
    }
}

/// The entries of a list.
pub open spec fn entries_view(entries: Seq<RuleEntry>) -> Seq<EntryView> {
    Seq::new(entries.len(), |i: int| entries[i]@)
}

/// The text that an optional string holds.
pub open spec fn option_view(text: Option<String>) -> Option<Seq<char>> {
    match text {
        Some(text) => Some(text@),
        None => None,
    }
}

/// A selector for one entry in a complete rule.
///
/// `Entry` addresses the canonical zero-based entry index directly. `Field`
/// addresses the readable field and optionally narrows repeated fields by
/// field position and direction.
#[derive(Debug)]
pub enum RuleEntrySelector {
    /// Selects exactly one canonical zero-based entry index.
    Entry {
        /// Canonical zero-based entry index.
        entry_index: usize,
    },
    /// Selects an entry by readable field and optional discriminators.
    Field {
        /// Readable field identifier as entered by the operator.
        fid: String,
        /// Optional one-based field position.
        field_position: Option<usize>,
        /// Optional stable direction identifier (`bi`, `up`, or `down`).
        direction: Option<String>,
    },
}

/// An entry selector as a mathematical value.
pub enum EntryChoice {
    /// The entry with an index.
    Entry(usize),
    /// The entries of a field, with optional position and direction.
    Field(Seq<char>, Option<usize>, Option<Seq<char>>),
}

impl View for RuleEntrySelector {
    type V = EntryChoice;

    open spec fn view(&self) -> EntryChoice {
        match self {
            RuleEntrySelector::Entry { entry_index } => EntryChoice::Entry(*entry_index),
            RuleEntrySelector::Field { fid, field_position, direction } => EntryChoice::Field(
                fid@,
                *field_position,
                option_view(*direction),
            ),
        }
    }
}

/// A rule summary that omits all field entries and target values.
#[derive(Debug)]
pub struct RuleSummary {
    /// Exact rule identity.
    pub id: RuleSelector,
    /// Stable lowercase rule nature.
    pub nature: String,
}

/// A rule summary as a mathematical value.
pub struct SummaryView {
    /// Exact rule identity.
    pub id: RuleSelector,
    /// Stable lowercase rule nature.
    pub nature: Seq<char>,
}

impl View for RuleSummary {
    type V = SummaryView;

    open spec fn view(&self) -> SummaryView {
        SummaryView { id: self.id, nature: self.nature@ }
    }
}

/// The summaries of a list.
pub open spec fn summaries_view(summaries: Seq<RuleSummary>) -> Seq<SummaryView> {
    Seq::new(summaries.len(), |i: int| summaries[i]@)
}

/// A complete readable rule selected by both identity keys.
#[derive(Debug)]
pub struct RuleDetail {
    /// Exact rule identity.
    pub id: RuleSelector,
    /// Stable lowercase rule nature.
    pub nature: String,
    /// Entries sorted by entry index.
    pub entries: Vec<RuleEntry>,
}

/// A readable rule as a mathematical value.
pub struct DetailView {
    /// Exact rule identity.
    pub id: RuleSelector,
    /// Stable lowercase rule nature.
    pub nature: Seq<char>,
    /// Entries of the rule.
    pub entries: Seq<EntryView>,
}

impl View for RuleDetail {
    type V = DetailView;

    open spec fn view(&self) -> DetailView {
        DetailView { id: self.id, nature: self.nature@, entries: entries_view(self.entries@) }
    }
}

/// The order of entries: by their indices.
pub open spec fn entry_key() -> spec_fn(EntryView) -> (int, int) {
    |entry: EntryView| (entry.entry_index as int, 0)
}

/// The order of summaries: by value, then by bit length.
pub open spec fn summary_key() -> spec_fn(SummaryView) -> (int, int) {
    |summary: SummaryView| (summary.id.value as int, summary.id.bits as int)
}

pub(crate) fn copy_entry(entry: &RuleEntry) -> (result: RuleEntry)
    ensures
        result@ == entry@,
{
    RuleEntry {
        entry_index: entry.entry_index,
        fid: entry.fid.clone(),
        field_position: entry.field_position,
        direction: entry.direction.clone(),
        length: entry.length.clone(),
        target: entry.target.clone(),
        matching: entry.matching.clone(),
        cda: entry.cda.clone(),
    }
}

/// The line that shows a rule summary.
pub open spec fn summary_line(summary: SummaryView) -> Seq<char> {
    "RULE "@ + summary.id.spelled() + " nature="@ + summary.nature
}

/// The line that shows an entry.
pub open spec fn entry_line(entry: EntryView) -> Seq<char> {
    "ENTRY "@ + decimal(entry.entry_index as nat) + " fid="@ + entry.fid + " fp="@ + decimal(
        entry.field_position as nat,
    ) + " di="@ + entry.direction + " length="@ + entry.length + " tv="@ + entry.target + " mo="@
        + entry.matching + " cda="@ + entry.cda
}

fn format_summary(id: RuleSelector, nature: &str) -> (result: String)
    ensures
        result@ == summary_line(SummaryView { id, nature: nature@ }),
{
    join(join3("RULE ", id.to_text().as_str(), " nature=").as_str(), nature)
}

fn format_rule_entry(entry: &RuleEntry) -> (result: String)
    ensures
        result@ == entry_line(entry@),
{
    let line = join3("ENTRY ", decimal_string(entry.entry_index as u64).as_str(), " fid=");
    let line = join3(line.as_str(), entry.fid.as_str(), " fp=");
    let line = join3(
        line.as_str(),
        decimal_string(entry.field_position as u64).as_str(),
        " di=",
    );
    let line = join3(line.as_str(), entry.direction.as_str(), " length=");
    let line = join3(line.as_str(), entry.length.as_str(), " tv=");
    let line = join3(line.as_str(), entry.target.as_str(), " mo=");
    let line = join3(line.as_str(), entry.matching.as_str(), " cda=");
    join(line.as_str(), entry.cda.as_str())
}

/// Formats summaries as stable scriptable lines.
pub fn format_rule_list(summaries: &[RuleSummary]) -> (result: Vec<String>)
    ensures
        strings_view(result@) == sort_by(
            summaries_view(summaries@),
            summary_key(),
        ).map_values(|summary: SummaryView| summary_line(summary)),
{
    let ghost view = summaries_view(summaries@);
    let mut keys: Vec<(u64, u64)> = Vec::new();
    let mut index: usize = 0;
    while index < summaries.len()
        invariant
            index <= summaries@.len(),
            keys@.len() == index,
            forall|i: int|
                0 <= i < index ==> (#[trigger] keys@[i]) == (
                    summaries@[i].id.value,
                    summaries@[i].id.bits as u64,
                ),
        decreases summaries.len() - index,
    {
        keys.push((summaries[index].id.value, summaries[index].id.bits as u64));
        index += 1;
    }
    let order = sort_order(&keys);
    proof {
        assert forall|i: int| 0 <= i < view.len() implies summary_key()(#[trigger] view[i])
            == pair_key(keys@)(i) by {
            assert(keys@[i].0 == view[i].id.value);
        }
        lemma_sort_by_picks(view, summary_key(), pair_key(keys@));
    }
    let mut result: Vec<String> = Vec::new();
    index = 0;
    while index < order.len()
        invariant
            index <= order@.len(),
            order@.len() == summaries@.len(),
            result@.len() == index,
            view == summaries_view(summaries@),
            forall|i: int| 0 <= i < order@.len() ==> (#[trigger] order@[i]) < summaries@.len(),
            forall|i: int|
                0 <= i < index ==> (#[trigger] result@[i])@ == summary_line(
                    view[order_view(order@)[i]],
                ),
        decreases order.len() - index,
    {
        let summary = &summaries[order[index]];
        result.push(format_summary(summary.id, summary.nature.as_str()));
        index += 1;
    }
    assert(strings_view(result@) =~= picked(view, order_view(order@)).map_values(
        |summary: SummaryView| summary_line(summary),
    ));
    result
}

/// The lines that show entries.
pub open spec fn entry_lines(entries: Seq<EntryView>) -> Seq<Seq<char>> {
    entries.map_values(|entry: EntryView| entry_line(entry))
}

fn ordered_entries(entries: &Vec<RuleEntry>) -> (result: Vec<RuleEntry>)
    ensures
        entries_view(result@) == sort_by(entries_view(entries@), entry_key()),
{
    let mut keys: Vec<(u64, u64)> = Vec::new();
    let mut index: usize = 0;
    while index < entries.len()
        invariant
            index <= entries@.len(),
            keys@.len() == index,
            forall|i: int|
                0 <= i < index ==> (#[trigger] keys@[i]) == (
                    entries@[i].entry_index as u64,
                    0u64,
                ),
        decreases entries.len() - index,
    {
        keys.push((entries[index].entry_index as u64, 0));
        index += 1;
    }
    order_entries(entries, &keys)
}

fn format_entries(entries: &Vec<RuleEntry>) -> (result: Vec<String>)
    ensures
        strings_view(result@) == entry_lines(entries_view(entries@)),
{
    let mut result: Vec<String> = Vec::new();
    let mut index: usize = 0;
    while index < entries.len()
        invariant
            index <= entries@.len(),
            result@.len() == index,
            forall|i: int| 0 <= i < index ==> (#[trigger] result@[i])@ == entry_line(entries@[i]@),
        decreases entries.len() - index,
    {
        result.push(format_rule_entry(&entries[index]));
        index += 1;
    }
    assert(strings_view(result@) =~= entry_lines(entries_view(entries@)));
    result
}

/// Formats one rule with entries ordered by entry index.
pub fn format_rule_detail(detail: &RuleDetail) -> (result: Vec<String>)
    ensures
        strings_view(result@) == seq![
            summary_line(SummaryView { id: detail@.id, nature: detail@.nature }),
        ] + entry_lines(sort_by(detail@.entries, entry_key())),
{
    let mut result: Vec<String> = Vec::new();
    result.push(format_summary(detail.id, detail.nature.as_str()));
    let ordered = ordered_entries(&detail.entries);
    let mut lines = format_entries(&ordered);
    let ghost tail = strings_view(lines@);
    let ghost head = strings_view(result@);
    let ghost tail_strings = lines@;
    let ghost head_strings = result@;
    result.append(&mut lines);
    assert(strings_view(result@) =~= head + tail);
    assert(head =~= seq![
        summary_line(SummaryView { id: detail@.id, nature: detail@.nature }),
    ]);
    result
}

/// A listing shows one line for each rule, in the order of value and then of
/// bit length. Each line names the rule by its selector and tells its nature.
pub proof fn listed_rules_are_in_order(summaries: Seq<SummaryView>, i: int, j: int)
    requires
        0 <= i <= j < summaries.len(),
    ensures
        ({
            let ordered = sort_by(summaries, summary_key());
            let left = ordered[i].id;
            let right = ordered[j].id;
            &&& ordered.len() == summaries.len()
            &&& ordered.to_multiset() == summaries.to_multiset()
            &&& left.value < right.value || (left.value == right.value && left.bits <= right.bits)
            &&& summary_line(ordered[i]) == "RULE "@ + (decimal(left.value as nat) + "/"@
                + decimal(left.bits as nat)) + " nature="@ + ordered[i].nature
        }),
{
    let ordered = sort_by(summaries, summary_key());
    sorting_orders_and_keeps_items(summaries, summary_key());
    assert(summary_key()(ordered[i]) == (ordered[i].id.value as int, ordered[i].id.bits as int));
    assert(summary_key()(ordered[j]) == (ordered[j].id.value as int, ordered[j].id.bits as int));
}

/// A detail shows one line for each entry of the rule, in the order of their
/// indices, which names every part behind its label.
pub proof fn shown_entries_are_in_order(entries: Seq<EntryView>, i: int, j: int)
    requires
        0 <= i <= j < entries.len(),
    ensures
        ({
            let ordered = sort_by(entries, entry_key());
            let entry = ordered[i];
            &&& ordered.len() == entries.len()
            &&& ordered.to_multiset() == entries.to_multiset()
            &&& entry.entry_index <= ordered[j].entry_index
            &&& entry_lines(ordered)[i] == "ENTRY "@ + decimal(entry.entry_index as nat)
                + " fid="@ + entry.fid + " fp="@ + decimal(entry.field_position as nat) + " di="@
                + entry.direction + " length="@ + entry.length + " tv="@ + entry.target + " mo="@
                + entry.matching + " cda="@ + entry.cda
        }),
{
    let ordered = sort_by(entries, entry_key());
    sorting_orders_and_keeps_items(entries, entry_key());
    assert(entry_key()(ordered[i]).0 == ordered[i].entry_index);
    assert(entry_key()(ordered[j]).0 == ordered[j].entry_index);
}

/// The lowercase form of an ASCII letter; any other character unchanged.
pub open spec fn lower_char(character: char) -> char {
    if 'A' <= character && character <= 'Z' {
        (character as u32 + 32) as char
    } else {
        character
    }
}

/// Whether a character is an ASCII letter or digit.
pub open spec fn is_alphanumeric(character: char) -> bool {
    ('0' <= character && character <= '9') || ('a' <= character && character <= 'z') || ('A'
        <= character && character <= 'Z')
}

/// The ASCII letters and digits of a text.
pub open spec fn alphanumerics(text: Seq<char>) -> Seq<char>
    decreases text.len(),
{
    if text.len() == 0 {
        Seq::empty()
    } else if is_alphanumeric(text.last()) {
        alphanumerics(text.drop_last()).push(text.last())
    } else {
        alphanumerics(text.drop_last())
    }
}

/// A text without a prefix that it may have.
pub open spec fn without_prefix(text: Seq<char>, prefix: Seq<char>) -> Seq<char> {
    if prefix.is_prefix_of(text) {
        text.skip(prefix.len() as int)
    } else {
        text
    }
}

/// What identifies a field name: its letters and digits in lower case, after
/// an optional `fid-`.
pub open spec fn fid_identity(fid: Seq<char>) -> Seq<char> {
    alphanumerics(
        without_prefix(
            trimmed(fid).map_values(|character: char| lower_char(character)),
            seq!['f', 'i', 'd', '-'],
        ),
    )
}

fn normalize_fid(fid: &str) -> (result: String)
    ensures
        result@ == fid_identity(fid@),
{
    let characters = chars_of(fid);
    let text = trim_chars(characters.as_slice());
    let mut lowered: Vec<char> = Vec::new();
    let mut index: usize = 0;
    while index < text.len()
        invariant
            index <= text@.len(),
            lowered@.len() == index,
            forall|i: int| 0 <= i < index ==> (#[trigger] lowered@[i]) == lower_char(text@[i]),
        decreases text.len() - index,
    {
        let character: char = text[index];
        if 'A' <= character && character <= 'Z' {
            lowered.push((character as u8 + 32) as char);
        } else {
            lowered.push(character);
        }
        index += 1;
    }
    let ghost low = trimmed(fid@).map_values(|character: char| lower_char(character));
    assert(lowered@ =~= low);
    let ghost prefix = seq!['f', 'i', 'd', '-'];
    let start: usize = if lowered.len() >= 4 && lowered[0] == 'f' && lowered[1] == 'i'
        && lowered[2] == 'd' && lowered[3] == '-' {
        assert(low.subrange(0, 4) =~= prefix);
        assert(prefix.is_prefix_of(low));
        4
    } else {
        proof {
            if prefix.is_prefix_of(low) {
                assert(low[0] == prefix[0] && low[1] == prefix[1] && low[2] == prefix[2] && low[3]
                    == prefix[3]);
            }
        }
        0
    };
    let ghost rest = without_prefix(low, prefix);
    assert(rest =~= low.skip(start as int));
    let mut result = String::new();
    index = start;
    proof {
        assert(rest.take(0) =~= Seq::<char>::empty());
    }
    while index < lowered.len()
        invariant
            start <= index <= lowered@.len(),
            lowered@ == low,
            rest == low.skip(start as int),
            result@ == alphanumerics(rest.take(index - start)),
        decreases lowered.len() - index,
    {
        let character: char = lowered[index];
        proof {
            assert(rest[index - start] == character);
            assert(rest.take(index - start + 1).drop_last() =~= rest.take(index - start));
        }
        if ('0' <= character && character <= '9') || ('a' <= character && character <= 'z') || ('A'
            <= character && character <= 'Z') {
            result.push(character);
        }
        index += 1;
    }
    assert(rest.take(rest.len() as int) =~= rest);
    result
}

/// Whether an entry is one that a selector chooses.
pub open spec fn chosen(entry: EntryView, choice: EntryChoice) -> bool {
    match choice {
        EntryChoice::Entry(entry_index) => entry.entry_index == entry_index,
        EntryChoice::Field(fid, field_position, direction) => {
            &&& fid_identity(entry.fid) == fid_identity(fid)
            &&& field_position matches Some(position) ==> position == entry.field_position
            &&& direction matches Some(selected) ==> selected == entry.direction
        },
    }
}

fn entry_matches_selector(entry: &RuleEntry, selector: &RuleEntrySelector) -> (result: bool)
    ensures
        result == chosen(entry@, selector@),
{
    match selector {
        RuleEntrySelector::Entry { entry_index } => entry.entry_index == *entry_index,
        RuleEntrySelector::Field { fid, field_position, direction } => {
            if !same_text(
                normalize_fid(entry.fid.as_str()).as_str(),
                normalize_fid(fid.as_str()).as_str(),
            ) {
                return false;
            }
            if let Some(position) = field_position {
                if *position != entry.field_position {
                    return false;
                }
            }
            match direction {
                Some(selected) => same_text(selected.as_str(), entry.direction.as_str()),
                None => true,
            }
        },
    }
}

proof fn lemma_identity_text(text: Seq<char>)
    requires
        forall|i: int|
            #![trigger text[i]]
            0 <= i < text.len() ==> ('0' <= text[i] && text[i] <= '9') || ('a' <= text[i]
                && text[i] <= 'z'),
    ensures
        alphanumerics(text) == text,
        text.map_values(|character: char| lower_char(character)) == text,
        trimmed(text) == text,
    decreases text.len(),
{
    assert(text.map_values(|character: char| lower_char(character)) =~= text);
    if text.len() > 0 {
        assert(!is_white(text[0]) && !is_white(text.last()));
        assert forall|i: int| #![trigger text.drop_last()[i]] 0 <= i < text.drop_last().len() implies (
        '0' <= text.drop_last()[i] && text.drop_last()[i] <= '9') || ('a' <= text.drop_last()[i]
            && text.drop_last()[i] <= 'z') by {
            assert(text.drop_last()[i] == text[i]);
        }
        lemma_identity_text(text.drop_last());
        assert(is_alphanumeric(text.last()));
        assert(text.drop_last().push(text.last()) =~= text);
    }
}

proof fn lemma_alphanumerics_add(left: Seq<char>, right: Seq<char>)
    ensures
        alphanumerics(left + right) == alphanumerics(left) + alphanumerics(right),
    decreases right.len(),
{
    if right.len() == 0 {
        assert(left + right =~= left);
        assert(alphanumerics(left) + alphanumerics(right) =~= alphanumerics(left));
    } else {
        lemma_alphanumerics_add(left, right.drop_last());
        assert((left + right).drop_last() =~= left + right.drop_last());
        assert((left + right).last() == right.last());
        assert(alphanumerics(left + right) =~= alphanumerics(left) + alphanumerics(right));
    }
}

/// What identifies a field: a name of lower-case letters and digits is its own
/// identity, also behind `fid-` and with a hyphen inside it, and the case of
/// letters does not count.
pub proof fn field_names_are_told_by_letters_and_digits(
    name: Seq<char>,
    more: Seq<char>,
    spelled: Seq<char>,
)
    requires
        name.len() > 0,
        more.len() > 0,
        name != seq!['f', 'i', 'd'],
        forall|i: int|
            #![trigger name[i]]
            0 <= i < name.len() ==> ('0' <= name[i] && name[i] <= '9') || ('a' <= name[i]
                && name[i] <= 'z'),
        forall|i: int|
            #![trigger more[i]]
            0 <= i < more.len() ==> ('0' <= more[i] && more[i] <= '9') || ('a' <= more[i]
                && more[i] <= 'z'),
        spelled.len() == name.len(),
        forall|i: int|
            #![trigger spelled[i]]
            0 <= i < name.len() ==> spelled[i] == name[i] || ('A' <= spelled[i] && spelled[i]
                <= 'Z' && spelled[i] as u32 + 32 == name[i] as u32),
    ensures
        fid_identity(name) == name,
        fid_identity(spelled) == name,
        fid_identity(seq!['f', 'i', 'd', '-'] + name) == name,
        fid_identity(name + seq!['-'] + more) == name + more,
        fid_identity(seq!['f', 'i', 'd', '-'] + name + seq!['-'] + more) == name + more,
{
    let lower = |character: char| lower_char(character);
    let prefix = seq!['f', 'i', 'd', '-'];
    lemma_identity_text(name);
    lemma_identity_text(more);
    assert(!prefix.is_prefix_of(name)) by {
        if prefix.is_prefix_of(name) {
            assert(name[3] == prefix[3]);
        }
    }
    assert(!is_white(spelled[0]) && !is_white(spelled.last())) by {
        assert(spelled[0] == spelled[0] && spelled[spelled.len() - 1] == spelled.last());
        assert(name[0] == name[0] && name[name.len() - 1] == name.last());
    }
    lemma_trimmed_solid(spelled);
    assert(spelled.map_values(lower) =~= name) by {
        assert forall|i: int| 0 <= i < name.len() implies spelled.map_values(lower)[i]
            == name[i] by {
            assert(spelled[i] == spelled[i] && name[i] == name[i]);
        }
    }
    let first = prefix + name;
    lemma_trimmed_solid(first);
    assert(first.map_values(lower) =~= first) by {
        assert forall|i: int| 0 <= i < first.len() implies first.map_values(lower)[i]
            == first[i] by {
            if i >= 4 {
                assert(first[i] == name[i - 4]);
            }
        }
    }
    assert(first.subrange(0, 4) =~= prefix);
    assert(prefix.is_prefix_of(first));
    assert(first.skip(4) =~= name);
    let hyphen = seq!['-'];
    assert(hyphen.drop_last() =~= Seq::<char>::empty());
    assert(alphanumerics(hyphen) =~= Seq::<char>::empty()) by {
        assert(alphanumerics(hyphen.drop_last()) =~= Seq::<char>::empty());
    }
    let second = name + hyphen + more;
    assert(second.last() == more.last() && second[0] == name[0]);
    lemma_trimmed_solid(second);
    assert(second.map_values(lower) =~= second) by {
        assert forall|i: int| 0 <= i < second.len() implies second.map_values(lower)[i]
            == second[i] by {
            if i < name.len() {
                assert(second[i] == name[i]);
            } else if i > name.len() {
                assert(second[i] == more[i - name.len() - 1]);
            }
        }
    }
    assert(!prefix.is_prefix_of(second)) by {
        if prefix.is_prefix_of(second) {
            assert(second.subrange(0, 4) =~= prefix);
            assert(second[3] == prefix[3] && second[0] == prefix[0] && second[1] == prefix[1]
                && second[2] == prefix[2]);
            if name.len() > 3 {
                assert(second[3] == name[3]);
            } else if name.len() == 3 {
                assert(name =~= seq!['f', 'i', 'd']);
            } else if name.len() == 2 {
                assert(second[2] == '-');
            } else {
                assert(second[1] == '-');
            }
        }
    }
    lemma_alphanumerics_add(name, hyphen);
    lemma_alphanumerics_add(name + hyphen, more);
    assert(name + Seq::<char>::empty() =~= name);
    let third = prefix + name + hyphen + more;
    assert(third.last() == more.last());
    lemma_trimmed_solid(third);
    assert(third.map_values(lower) =~= third) by {
        assert forall|i: int| 0 <= i < third.len() implies third.map_values(lower)[i]
            == third[i] by {
            if i >= 4 {
                assert(third[i] == second[i - 4]);
                assert(second.map_values(lower)[i - 4] == second[i - 4]);
            }
        }
    }
    assert(third.subrange(0, 4) =~= prefix);
    assert(third.skip(4) =~= second);
}

/// The readable form of a selector.
pub open spec fn choice_text(choice: EntryChoice) -> Seq<char> {
    match choice {
        EntryChoice::Entry(entry_index) => "entry="@ + decimal(entry_index as nat),
        EntryChoice::Field(fid, field_position, direction) => {
            let named = "fid="@ + fid;
            let placed = match field_position {
                Some(position) => named + " fp="@ + decimal(position as nat),
                None => named,
            };
            match direction {
                Some(selected) => placed + " di="@ + selected,
                None => placed,
            }
        },
    }
}

impl RuleEntrySelector {
    /// Constructs an exact canonical entry selector.
    pub fn entry(entry_index: usize) -> (result: Self)
        ensures
            result@ == EntryChoice::Entry(entry_index),
    {
        RuleEntrySelector::Entry { entry_index }
    }

    /// Constructs a human field selector.
    pub fn field(fid: String, field_position: Option<usize>, direction: Option<String>) -> (result:
        Self)
        ensures
            result@ == EntryChoice::Field(fid@, field_position, option_view(direction)),
    {
        RuleEntrySelector::Field { fid, field_position, direction }
    }

    /// Returns a stable readable representation suitable for errors and logs.
    pub fn description(&self) -> (result: String)
        ensures
            result@ == choice_text(self@),
    {
        match self {
            RuleEntrySelector::Entry { entry_index } => join(
                "entry=",
                decimal_string(*entry_index as u64).as_str(),
            ),
            RuleEntrySelector::Field { fid, field_position, direction } => {
                let mut result = join("fid=", fid.as_str());
                if let Some(position) = field_position {
                    result = join3(
                        result.as_str(),
                        " fp=",
                        decimal_string(*position as u64).as_str(),
                    );
                }
                if let Some(selected) = direction {
                    result = join3(result.as_str(), " di=", selected.as_str());
                }
                result
            },
        }
    }
}

/// The entries that a selector chooses, in their order.
pub open spec fn chosen_entries(entries: Seq<EntryView>, choice: EntryChoice) -> Seq<EntryView>
    decreases entries.len(),
{
    if entries.len() == 0 {
        Seq::empty()
    } else if chosen(entries.last(), choice) {
        chosen_entries(entries.drop_last(), choice).push(entries.last())
    } else {
        chosen_entries(entries.drop_last(), choice)
    }
}

/// The index of the one entry that a selector chooses in a rule.
pub open spec fn resolved_index(detail: DetailView, choice: EntryChoice) -> Result<usize, Fault> {
    let found = sort_by(chosen_entries(detail.entries, choice), entry_key());
    if found.len() == 0 {
        Err(Fault::MissingEntry(detail.id, choice_text(choice)))
    } else if found.len() == 1 {
        Ok(found[0].entry_index)
    } else {
        Err(
            Fault::AmbiguousEntry(
                detail.id,
                choice_text(choice),
                found,
                joined(entry_lines(found), "\n"@),
            ),
        )
    }
}

impl RuleDetail {
    /// Resolves an exact or human selector to one canonical entry index.
    ///
    /// Field comparisons ignore case, punctuation and an optional `fid-`
    /// prefix. Missing field-position or direction discriminators are
    /// accepted only when the remaining selector is unique.
    pub fn resolve_entry_index(&self, selector: &RuleEntrySelector) -> (result: Result<
        usize,
        InspectionError,
    >)
        ensures
            match result {
                Ok(index) => resolved_index(self@, selector@) == Ok::<usize, Fault>(index),
                Err(error) => resolved_index(self@, selector@) == Err::<usize, Fault>(error@),
            },
    {
        let mut found: Vec<RuleEntry> = Vec::new();
        let ghost view = entries_view(self.entries@);
        let mut index: usize = 0;
        proof {
            assert(entries_view(found@) =~= chosen_entries(view.take(0), selector@));
        }
        while index < self.entries.len()
            invariant
                index <= self.entries@.len(),
                view == entries_view(self.entries@),
                entries_view(found@) == chosen_entries(view.take(index as int), selector@),
            decreases self.entries.len() - index,
        {
            proof {
                assert(view.take(index + 1).drop_last() =~= view.take(index as int));
            }
            if entry_matches_selector(&self.entries[index], selector) {
                let ghost before = entries_view(found@);
                found.push(copy_entry(&self.entries[index]));
                assert(entries_view(found@) =~= before.push(view[index as int]));
            }
            index += 1;
        }
        assert(view.take(view.len() as int) =~= view);
        let matches = ordered_entries(&found);
        if matches.len() == 0 {
            return Err(
                InspectionError::MissingEntry { rule: self.id, selector: selector.description() },
            );
        }
        if matches.len() == 1 {
            assert(entries_view(matches@)[0] == matches@[0]@);
            return Ok(matches[0].entry_index);
        }
        let readable_matches = join_list(&format_entries(&matches), "\n");
        Err(
            InspectionError::AmbiguousEntry {
                rule: self.id,
                selector: selector.description(),
                matches,
                readable_matches,
            },
        )
    }
}

proof fn lemma_chosen_entries(entries: Seq<EntryView>, choice: EntryChoice) -> (places: Seq<int>)
    ensures
        places.len() == chosen_entries(entries, choice).len(),
        forall|k: int|
            #![trigger places[k]]
            0 <= k < places.len() ==> 0 <= places[k] < entries.len() && chosen(
                entries[places[k]],
                choice,
            ) && chosen_entries(entries, choice)[k] == entries[places[k]],
        forall|k: int, l: int|
            #![trigger places[k], places[l]]
            0 <= k < l < places.len() ==> places[k] < places[l],
        forall|i: int|
            #![trigger entries[i]]
            0 <= i < entries.len() && chosen(entries[i], choice) ==> exists|k: int|
                #![trigger places[k]]
                0 <= k < places.len() && places[k] == i,
    decreases entries.len(),
{
    if entries.len() == 0 {
        Seq::empty()
    } else {
        let before = entries.drop_last();
        let held = lemma_chosen_entries(before, choice);
        let last = entries.len() - 1;
        let places = if chosen(entries[last], choice) {
            held.push(last)
        } else {
            held
        };
        assert forall|i: int|
            #![trigger entries[i]]
            0 <= i < entries.len() && chosen(entries[i], choice) implies exists|k: int|
            #![trigger places[k]]
            0 <= k < places.len() && places[k] == i by {
            if i < last {
                assert(before[i] == entries[i]);
                let k = choose|k: int| #![trigger held[k]] 0 <= k < held.len() && held[k] == i;
                assert(places[k] == i);
            } else {
                assert(places[held.len() as int] == last);
            }
        }
        assert forall|k: int| #![trigger places[k]] 0 <= k < places.len() implies 0 <= places[k]
            < entries.len() && chosen(entries[places[k]], choice) && chosen_entries(
            entries,
            choice,
        )[k] == entries[places[k]] by {
            if k < held.len() {
                assert(places[k] == held[k]);
                assert(before[held[k]] == entries[held[k]]);
            }
        }
        places
    }
}

proof fn lemma_single_entry(entries: Seq<EntryView>, choice: EntryChoice) -> (place: int)
    requires
        chosen_entries(entries, choice).len() == 1,
    ensures
        0 <= place < entries.len(),
        chosen(entries[place], choice),
        sort_by(chosen_entries(entries, choice), entry_key()) == seq![entries[place]],
        forall|j: int|
            #![trigger entries[j]]
            0 <= j < entries.len() && j != place ==> !chosen(entries[j], choice),
{
    let found = chosen_entries(entries, choice);
    let places = lemma_chosen_entries(entries, choice);
    let place = places[0];
    assert(found =~= seq![entries[place]]);
    sorting_keeps_an_ordered_list(found, entry_key());
    assert forall|j: int| #![trigger entries[j]] 0 <= j < entries.len() && j != place implies !chosen(
        entries[j],
        choice,
    ) by {
        if chosen(entries[j], choice) {
            let k = choose|k: int| #![trigger places[k]] 0 <= k < places.len() && places[k] == j;
            assert(k == 0);
        }
    }
    place
}

/// An entry that a field selector finds has the given direction and the given
/// position, where these are given, and the given field name up to what
/// identifies a field; an entry that an index finds has that index. It is the
/// only entry of the rule of which that holds.
pub proof fn found_entry_is_the_selected_one(detail: DetailView, choice: EntryChoice)
    requires
        resolved_index(detail, choice) is Ok,
    ensures
        exists|i: int|
            #![trigger detail.entries[i]]
            0 <= i < detail.entries.len() && {
                let found = detail.entries[i];
                &&& found.entry_index == resolved_index(detail, choice)->Ok_0
                &&& match choice {
                    EntryChoice::Entry(entry_index) => {
                        &&& found.entry_index == entry_index
                        &&& forall|j: int|
                            #![trigger detail.entries[j]]
                            0 <= j < detail.entries.len() && j != i
                                ==> detail.entries[j].entry_index != entry_index
                    },
                    EntryChoice::Field(fid, field_position, direction) => {
                        &&& fid_identity(found.fid) == fid_identity(fid)
                        &&& field_position is Some ==> found.field_position == field_position->0
                        &&& direction is Some ==> found.direction == direction->0
                        &&& forall|j: int|
                            #![trigger detail.entries[j]]
                            0 <= j < detail.entries.len() && j != i ==> !(fid_identity(
                                detail.entries[j].fid,
                            ) == fid_identity(fid) && (field_position is None
                                || detail.entries[j].field_position == field_position->0) && (
                            direction is None || detail.entries[j].direction == direction->0))
                    },
                }
            },
{
    let found = chosen_entries(detail.entries, choice);
    sorting_orders_and_keeps_items(found, entry_key());
    let i = lemma_single_entry(detail.entries, choice);
    assert(detail.entries[i].entry_index == resolved_index(detail, choice)->Ok_0);
}

/// A selector fails only where its rule has no entry that it selects, or more
/// than one.
pub proof fn selector_fails_without_a_single_entry(
    detail: DetailView,
    choice: EntryChoice,
    first: int,
    second: int,
)
    requires
        choice is Field,
        0 <= first < detail.entries.len(),
        0 <= second < detail.entries.len(),
        first != second,
        fid_identity(detail.entries[first].fid) == fid_identity(choice->Field_0),
        choice->Field_1 is Some ==> detail.entries[first].field_position == choice->Field_1->0,
        choice->Field_2 is Some ==> detail.entries[first].direction == choice->Field_2->0,
    ensures
        resolved_index(detail, choice) matches Err(fault) ==> fault is AmbiguousEntry,
        fid_identity(detail.entries[second].fid) == fid_identity(choice->Field_0) && (
        choice->Field_1 is None || detail.entries[second].field_position == choice->Field_1->0)
            && (choice->Field_2 is None || detail.entries[second].direction
            == choice->Field_2->0) ==> resolved_index(detail, choice) is Err,
        resolved_index(detail, choice) is Ok ==> resolved_index(detail, choice)->Ok_0
            == detail.entries[first].entry_index,
{
    let found = chosen_entries(detail.entries, choice);
    let places = lemma_chosen_entries(detail.entries, choice);
    sorting_orders_and_keeps_items(found, entry_key());
    assert(chosen(detail.entries[first], choice));
    let k = choose|k: int| #![trigger places[k]] 0 <= k < places.len() && places[k] == first;
    if found.len() == 1 {
        let i = lemma_single_entry(detail.entries, choice);
        assert(i == first);
    }
}

/// The index that an update resolves to in a rule.
pub open spec fn update_index(update: UpdateView, detail: DetailView) -> Result<usize, Fault> {
    if detail.id != update.rule {
        Err(
            Fault::InvalidUpdate(
                "rule detail is "@ + detail.id.spelled() + " but update targets "@
                    + update.rule.spelled(),
            ),
        )
    } else {
        resolved_index(detail, update.entry)
    }
}

impl RuleUpdateRequest {
    /// Resolves this request against one complete inspected rule.
    pub fn resolve_entry_index(&self, detail: &RuleDetail) -> (result: Result<
        usize,
        InspectionError,
    >)
        ensures
            match result {
                Ok(index) => update_index(self@, detail@) == Ok::<usize, Fault>(index),
                Err(error) => update_index(self@, detail@) == Err::<usize, Fault>(error@),
            },
    {
        if detail.id != self.rule {
            let head = join3(
                "rule detail is ",
                detail.id.to_text().as_str(),
                " but update targets ",
            );
            return Err(invalid_update(join(head.as_str(), self.rule.to_text().as_str()).as_str()));
        }
        detail.resolve_entry_index(&self.entry)
    }
}

/// Letters and digits are those of ASCII, and a capital letter becomes the small
/// letter at the same place of the alphabet.
pub proof fn letters_and_digits_are_those_of_ascii(character: char)
    ensures
        is_alphanumeric(character) <==> (48 <= character as int <= 57 || 65 <= character as int
            <= 90 || 97 <= character as int <= 122),
        65 <= character as int <= 90 ==> lower_char(character) as int == character as int - 65
            + 97,
        !(65 <= character as int <= 90) ==> lower_char(character) == character,
{
}

} // verus!
