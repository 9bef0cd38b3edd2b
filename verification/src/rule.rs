//! Typed SCHC rules and the readable names of their parts.

use vstd::prelude::*;

use crate::cbor::same_bytes;
use crate::rule_id::RuleId;
use crate::rule_text::{
    copy_entry, entries_view, entry_key, summaries_view, DetailView, EntryView, RuleDetail, RuleEntry,
    RuleSummary, SummaryView,
};
use crate::selector::RuleSelector;
use crate::sort::{
    lemma_sort_by_picks, order_view, pair_key, picked, sort_by, sort_order,
    sorting_orders_and_keeps_items,
};
use crate::text::{
    decimal, decimal_string, hex_digits, hex_string, join, join3, join_list, joined,
    same_text, signed_decimal, signed_string, strings_view,
};

verus! {

/// What a rule is for.
#[derive(Debug, Clone, Copy, PartialEq, Eq, Structural)]
pub enum RuleNature {
    /// A compression rule.
    Compression,
    /// A rule that sends a packet uncompressed.
    NoCompression,
    /// A fragmentation rule.
    Fragmentation,
    /// A context-management rule.
    Management,
}

/// The packet field that an entry describes.
#[derive(Debug)]
pub enum FieldRef {
    /// An IPv6 header field.
    Ipv6(String),
    /// A UDP header field.
    Udp(String),
    /// A CoAP header field.
    Coap(String),
    /// An ICMPv6 header field.
    Icmpv6(String),
    /// A CoAP option.
    CoapOption {
        /// Option number.
        number: u64,
    },
    /// No field.
    Unused,
    /// The packet payload.
    Payload,
    /// The marker in front of a CoAP payload.
    SyntheticCoapMarker,
    /// A field known only by its SID.
    UnknownSid(i64),
}

/// A packet field as a mathematical value.
pub enum FieldView {
    /// An IPv6 header field.
    Ipv6(Seq<char>),
    /// A UDP header field.
    Udp(Seq<char>),
    /// A CoAP header field.
    Coap(Seq<char>),
    /// An ICMPv6 header field.
    Icmpv6(Seq<char>),
    /// A CoAP option by its number.
    CoapOption(u64),
    /// No field.
    Unused,
    /// The packet payload.
    Payload,
    /// The marker in front of a CoAP payload.
    SyntheticCoapMarker,
    /// A field known only by its SID.
    UnknownSid(i64),
}

impl View for FieldRef {
    type V = FieldView;

    open spec fn view(&self) -> FieldView {
        match self {
            FieldRef::Ipv6(name) => FieldView::Ipv6(name@),
            FieldRef::Udp(name) => FieldView::Udp(name@),
            FieldRef::Coap(name) => FieldView::Coap(name@),
            FieldRef::Icmpv6(name) => FieldView::Icmpv6(name@),
            FieldRef::CoapOption { number } => FieldView::CoapOption(*number),
            FieldRef::Unused => FieldView::Unused,
            FieldRef::Payload => FieldView::Payload,
            FieldRef::SyntheticCoapMarker => FieldView::SyntheticCoapMarker,
            FieldRef::UnknownSid(sid) => FieldView::UnknownSid(*sid),
        }
    }
}

/// The unit of a length that another field gives.
#[derive(Debug, Clone, Copy, PartialEq, Eq, Structural)]
pub enum LengthUnit {
    /// Bytes.
    Bytes,
    /// Bits.
    Bits,
}

/// The length of a field.
#[derive(Debug, Clone, Copy, PartialEq, Eq, Structural)]
pub enum FieldLength {
    /// A fixed number of bits.
    FixedBits(usize),
    /// A variable number of bytes.
    VariableBytes,
    /// A variable number of bits.
    VariableBits,
    /// What remains of the packet.
    Remaining,
    /// The CoAP token length.
    TokenLength,
    /// A length that an earlier field gives.
    FromPreviousField {
        /// Index of that entry.
        entry_index: usize,
        /// Unit of the length.
        unit: LengthUnit,
    },
    /// A length function known only by its SID.
    FunctionSid(i64),
}

/// The directions that an entry applies to.
#[derive(Debug, Clone, Copy, PartialEq, Eq, Structural)]
pub enum DirectionSelector {
    /// Both directions.
    Bidirectional,
    /// Uplink only.
    Up,
    /// Downlink only.
    Down,
}

/// The direction of a packet.
#[derive(Debug, Clone, Copy, PartialEq, Eq, Structural)]
pub enum Direction {
    /// From the device.
    Up,
    /// Toward the device.
    Down,
}

/// How a field is compared with its target.
#[derive(Debug, Clone, Copy, PartialEq, Eq, Structural)]
pub enum MatchingOperator {
    /// The whole values are equal.
    Equal,
    /// Any value matches.
    Ignore,
    /// A number of leading bits are equal.
    Msb(usize),
    /// The value is one of a list.
    MatchMapping,
}

/// How a field is sent.
#[derive(Debug, Clone, Copy, PartialEq, Eq, Structural)]
pub enum Cda {
    /// Nothing is sent.
    NotSent,
    /// The value is sent.
    ValueSent,
    /// The position in the target list is sent.
    MappingSent,
    /// The trailing bits are sent.
    Lsb,
    /// The value is computed again.
    Compute,
    /// The value is the device interface identifier.
    DeviceIid,
    /// The value is the application interface identifier.
    AppIid,
}

/// What a field is compared with.
#[derive(Debug)]
pub enum TargetValue {
    /// Nothing.
    Absent,
    /// One value.
    Bytes(Vec<u8>),
    /// A list of values.
    Mapping(Vec<Vec<u8>>),
}

/// A target as a mathematical value.
pub enum TargetView {
    /// Nothing.
    Absent,
    /// One value.
    Bytes(Seq<u8>),
    /// A list of values.
    Mapping(Seq<Seq<u8>>),
}

/// The byte strings of a list.
pub open spec fn mapping_view(values: Seq<Vec<u8>>) -> Seq<Seq<u8>> {
    Seq::new(values.len(), |i: int| values[i]@)
}

impl View for TargetValue {
    type V = TargetView;

    open spec fn view(&self) -> TargetView {
        match self {
            TargetValue::Absent => TargetView::Absent,
            TargetValue::Bytes(bytes) => TargetView::Bytes(bytes@),
            TargetValue::Mapping(values) => TargetView::Mapping(mapping_view(values@)),
        }
    }
}

/// One entry of a rule.
#[derive(Debug)]
pub struct FieldRule {
    /// Canonical entry index.
    pub entry_index: usize,
    /// The field described.
    pub field: FieldRef,
    /// Position among repeated fields.
    pub field_position: usize,
    /// Directions that the entry applies to.
    pub direction: DirectionSelector,
    /// Length of the field.
    pub length: FieldLength,
    /// What the field is compared with.
    pub target: TargetValue,
    /// How the field is compared.
    pub matching: MatchingOperator,
    /// How the field is sent.
    pub action: Cda,
}

/// A rule entry as a mathematical value.
pub struct FieldRuleView {
    /// Canonical entry index.
    pub entry_index: usize,
    /// The field described.
    pub field: FieldView,
    /// Position among repeated fields.
    pub field_position: usize,
    /// Directions that the entry applies to.
    pub direction: DirectionSelector,
    /// Length of the field.
    pub length: FieldLength,
    /// What the field is compared with.
    pub target: TargetView,
    /// How the field is compared.
    pub matching: MatchingOperator,
    /// How the field is sent.
    pub action: Cda,
}

impl View for FieldRule {
    type V = FieldRuleView;

    open spec fn view(&self) -> FieldRuleView {
        FieldRuleView {
            entry_index: self.entry_index,
            field: self.field@,
            field_position: self.field_position,
            direction: self.direction,
            length: self.length,
            target: self.target@,
            matching: self.matching,
            action: self.action,
        }
    }
}

/// The entries of a list.
pub open spec fn fields_view(fields: Seq<FieldRule>) -> Seq<FieldRuleView> {
    Seq::new(fields.len(), |i: int| fields[i]@)
}

/// One SCHC rule.
#[derive(Debug)]
pub struct Rule {
    /// Rule identity.
    pub id: RuleId,
    /// What the rule is for.
    pub nature: RuleNature,
    /// Entries of the rule.
    pub fields: Vec<FieldRule>,
}

/// A rule as a mathematical value.
pub struct RuleView {
    /// Rule identity.
    pub id: RuleId,
    /// What the rule is for.
    pub nature: RuleNature,
    /// Entries of the rule.
    pub fields: Seq<FieldRuleView>,
}

impl View for Rule {
    type V = RuleView;

    open spec fn view(&self) -> RuleView {
        RuleView { id: self.id, nature: self.nature, fields: fields_view(self.fields@) }
    }
}

/// The rules of a list.
pub open spec fn rules_view(rules: Seq<Rule>) -> Seq<RuleView> {
    Seq::new(rules.len(), |i: int| rules[i]@)
}

/// The stable name of a nature.
pub open spec fn nature_text(nature: RuleNature) -> Seq<char> {
    match nature {
        RuleNature::Compression => "compression"@,
        RuleNature::NoCompression => "no-compression"@,
        RuleNature::Fragmentation => "fragmentation"@,
        RuleNature::Management => "management"@,
    }
}

impl RuleNature {
    /// Returns the stable name of this nature.
    pub fn as_str(self) -> (result: &'static str)
        ensures
            result@ == nature_text(self),
    {
        match self {
            RuleNature::Compression => "compression",
            RuleNature::NoCompression => "no-compression",
            RuleNature::Fragmentation => "fragmentation",
            RuleNature::Management => "management",
        }
    }
}

impl DirectionSelector {
    /// Whether an entry applies to a direction.
    pub open spec fn applies(self, direction: Direction) -> bool {
        match self {
            DirectionSelector::Bidirectional => true,
            DirectionSelector::Up => direction == Direction::Up,
            DirectionSelector::Down => direction == Direction::Down,
        }
    }

    /// Returns whether an entry applies to a direction.
    pub fn accepts(self, direction: Direction) -> (result: bool)
        ensures
            result == self.applies(direction),
    {
        match self {
            DirectionSelector::Bidirectional => true,
            DirectionSelector::Up => direction == Direction::Up,
            DirectionSelector::Down => direction == Direction::Down,
        }
    }
}

/// The readable name of a CoAP option.
pub open spec fn option_text(number: u64) -> Seq<char> {
    "coap-option("@ + decimal(number as nat) + ")"@
}

/// The readable form of a SID.
pub open spec fn sid_text(sid: i64) -> Seq<char> {
    "sid:"@ + signed_decimal(sid as int)
}

/// The readable name of a field.
pub open spec fn field_text(field: FieldView) -> Seq<char> {
    match field {
        FieldView::Ipv6(name) | FieldView::Udp(name) | FieldView::Coap(name) | FieldView::Icmpv6(
            name,
        ) => name,
        FieldView::CoapOption(number) => option_text(number),
        FieldView::Unused => "fid-unused"@,
        FieldView::Payload => "fid-payload"@,
        FieldView::SyntheticCoapMarker => "fid-coap-payload-marker"@,
        FieldView::UnknownSid(sid) => sid_text(sid),
    }
}

/// Returns the readable name of a field.
pub fn field_name(field: &FieldRef) -> (result: String)
    ensures
        result@ == field_text(field@),
{
    match field {
        FieldRef::Ipv6(name) => name.clone(),
        FieldRef::Udp(name) => name.clone(),
        FieldRef::Coap(name) => name.clone(),
        FieldRef::Icmpv6(name) => name.clone(),
        FieldRef::CoapOption { number } => join3(
            "coap-option(",
            decimal_string(*number).as_str(),
            ")",
        ),
        FieldRef::Unused => "fid-unused".to_owned(),
        FieldRef::Payload => "fid-payload".to_owned(),
        FieldRef::SyntheticCoapMarker => "fid-coap-payload-marker".to_owned(),
        FieldRef::UnknownSid(sid) => join("sid:", signed_string(*sid).as_str()),
    }
}

/// The readable name of a direction.
pub open spec fn direction_text(direction: DirectionSelector) -> Seq<char> {
    match direction {
        DirectionSelector::Bidirectional => "bi"@,
        DirectionSelector::Up => "up"@,
        DirectionSelector::Down => "down"@,
    }
}

fn direction_name(direction: DirectionSelector) -> (result: String)
    ensures
        result@ == direction_text(direction),
{
    match direction {
        DirectionSelector::Bidirectional => "bi".to_owned(),
        DirectionSelector::Up => "up".to_owned(),
        DirectionSelector::Down => "down".to_owned(),
    }
}

/// The readable form of a length.
pub open spec fn length_text(length: FieldLength) -> Seq<char> {
    match length {
        FieldLength::FixedBits(bits) => decimal(bits as nat),
        FieldLength::VariableBytes => "variable-bytes"@,
        FieldLength::VariableBits => "variable-bits"@,
        FieldLength::Remaining => "remaining"@,
        FieldLength::TokenLength => "token-length"@,
        FieldLength::FromPreviousField { entry_index, unit } => "from-entry-"@ + decimal(
            entry_index as nat,
        ) + "/"@ + match unit {
            LengthUnit::Bytes => "bytes"@,
            LengthUnit::Bits => "bits"@,
        },
        FieldLength::FunctionSid(sid) => sid_text(sid),
    }
}

fn length_name(length: FieldLength) -> (result: String)
    ensures
        result@ == length_text(length),
{
    match length {
        FieldLength::FixedBits(bits) => decimal_string(bits as u64),
        FieldLength::VariableBytes => "variable-bytes".to_owned(),
        FieldLength::VariableBits => "variable-bits".to_owned(),
        FieldLength::Remaining => "remaining".to_owned(),
        FieldLength::TokenLength => "token-length".to_owned(),
        FieldLength::FromPreviousField { entry_index, unit } => {
            let head = join3("from-entry-", decimal_string(entry_index as u64).as_str(), "/");
            match unit {
                LengthUnit::Bytes => join(head.as_str(), "bytes"),
                LengthUnit::Bits => join(head.as_str(), "bits"),
            }
        },
        FieldLength::FunctionSid(sid) => join("sid:", signed_string(sid).as_str()),
    }
}

/// Bytes in their readable form.
pub open spec fn hex_text(bytes: Seq<u8>) -> Seq<char> {
    "0x"@ + hex_digits(bytes)
}

/// Writes bytes in their readable form.
pub fn hex_bytes(bytes: &[u8]) -> (result: String)
    ensures
        result@ == hex_text(bytes@),
{
    join("0x", hex_string(bytes).as_str())
}

/// The readable form of a target.
pub open spec fn target_text(target: TargetView) -> Seq<char> {
    match target {
        TargetView::Absent => "-"@,
        TargetView::Bytes(bytes) => hex_text(bytes),
        TargetView::Mapping(values) => "["@ + joined(
            Seq::new(values.len(), |i: int| hex_text(values[i])),
            ","@,
        ) + "]"@,
    }
}

fn target_name(target: &TargetValue) -> (result: String)
    ensures
        result@ == target_text(target@),
{
    match target {
        TargetValue::Absent => "-".to_owned(),
        TargetValue::Bytes(bytes) => hex_bytes(bytes.as_slice()),
        TargetValue::Mapping(values) => {
            let mut list: Vec<String> = Vec::new();
            let mut index: usize = 0;
            while index < values.len()
                invariant
                    index <= values.len(),
                    list@.len() == index,
                    forall|i: int| 0 <= i < index ==> (#[trigger] list@[i])@ == hex_text(values@[i]@),
                decreases values.len() - index,
            {
                list.push(hex_bytes(values[index].as_slice()));
                index += 1;
            }
            proof {
                let held = mapping_view(values@);
                assert(strings_view(list@) =~= Seq::new(held.len(), |i: int| hex_text(held[i])));
            }
            join3("[", join_list(&list, ",").as_str(), "]")
        },
    }
}

/// The readable form of a matching operator.
pub open spec fn matching_text(matching: MatchingOperator) -> Seq<char> {
    match matching {
        MatchingOperator::Equal => "equal"@,
        MatchingOperator::Ignore => "ignore"@,
        MatchingOperator::Msb(bits) => "msb("@ + decimal(bits as nat) + ")"@,
        MatchingOperator::MatchMapping => "match-mapping"@,
    }
}

fn matching_name(matching: MatchingOperator) -> (result: String)
    ensures
        result@ == matching_text(matching),
{
    match matching {
        MatchingOperator::Equal => "equal".to_owned(),
        MatchingOperator::Ignore => "ignore".to_owned(),
        MatchingOperator::Msb(bits) => join3("msb(", decimal_string(bits as u64).as_str(), ")"),
        MatchingOperator::MatchMapping => "match-mapping".to_owned(),
    }
}

/// The readable form of an action.
pub open spec fn cda_text(cda: Cda) -> Seq<char> {
    match cda {
        Cda::NotSent => "not-sent"@,
        Cda::ValueSent => "value-sent"@,
        Cda::MappingSent => "mapping-sent"@,
        Cda::Lsb => "lsb"@,
        Cda::Compute => "compute"@,
        Cda::DeviceIid => "deviid"@,
        Cda::AppIid => "appiid"@,
    }
}

fn cda_name(cda: Cda) -> (result: String)
    ensures
        result@ == cda_text(cda),
{
    match cda {
        Cda::NotSent => "not-sent".to_owned(),
        Cda::ValueSent => "value-sent".to_owned(),
        Cda::MappingSent => "mapping-sent".to_owned(),
        Cda::Lsb => "lsb".to_owned(),
        Cda::Compute => "compute".to_owned(),
        Cda::DeviceIid => "deviid".to_owned(),
        Cda::AppIid => "appiid".to_owned(),
    }
}

/// The readable form of a rule entry.
pub open spec fn entry_of(field: FieldRuleView) -> EntryView {
    EntryView {
        entry_index: field.entry_index,
        fid: field_text(field.field),
        field_position: field.field_position,
        direction: direction_text(field.direction),
        length: length_text(field.length),
        target: target_text(field.target),
        matching: matching_text(field.matching),
        cda: cda_text(field.action),
    }
}

fn entry_from_rule(field: &FieldRule) -> (result: RuleEntry)
    ensures
        result@ == entry_of(field@),
{
    RuleEntry {
        entry_index: field.entry_index,
        fid: field_name(&field.field),
        field_position: field.field_position,
        direction: direction_name(field.direction),
        length: length_name(field.length),
        target: target_name(&field.target),
        matching: matching_name(field.matching),
        cda: cda_name(field.action),
    }
}

/// The selector of a rule identity.
pub open spec fn selector_for(id: RuleId) -> RuleSelector {
    RuleSelector { value: id.value, bits: id.bit_len }
}

/// The readable form of a rule, with its entries in the order of their
/// indices.
pub open spec fn detail_of(rule: RuleView) -> DetailView {
    DetailView {
        id: selector_for(rule.id),
        nature: nature_text(rule.nature),
        entries: sort_by(
            Seq::new(rule.fields.len(), |i: int| entry_of(rule.fields[i])),
            entry_key(),
        ),
    }
}

/// Returns the readable form of a rule.
pub fn detail_from_rule(rule: &Rule) -> (result: RuleDetail)
    ensures
        result@ == detail_of(rule@),
{
    let mut keys: Vec<(u64, u64)> = Vec::new();
    let mut listed: Vec<RuleEntry> = Vec::new();
    let mut index: usize = 0;
    while index < rule.fields.len()
        invariant
            index <= rule.fields@.len(),
            keys@.len() == index,
            listed@.len() == index,
            forall|i: int|
                0 <= i < index ==> (#[trigger] listed@[i])@ == entry_of(rule.fields@[i]@)
                    && keys@[i] == (rule.fields@[i].entry_index as u64, 0u64),
        decreases rule.fields.len() - index,
    {
        listed.push(entry_from_rule(&rule.fields[index]));
        keys.push((rule.fields[index].entry_index as u64, 0));
        index += 1;
    }
    let entries = order_entries(&listed, &keys);
    proof {
        let fields = fields_view(rule.fields@);
        assert(entries_view(listed@) =~= Seq::new(fields.len(), |i: int| entry_of(fields[i])));
    }
    RuleDetail {
        id: RuleSelector { value: rule.id.value, bits: rule.id.bit_len },
        nature: rule.nature.as_str().to_owned(),
        entries,
    }
}

/// Puts entries in the order of their indices.
pub(crate) fn order_entries(listed: &Vec<RuleEntry>, keys: &Vec<(u64, u64)>) -> (result: Vec<
    RuleEntry,
>)
    requires
        keys@.len() == listed@.len(),
        forall|i: int|
            0 <= i < listed@.len() ==> (#[trigger] keys@[i]) == (
                listed@[i].entry_index as u64,
                0u64,
            ),
    ensures
        entries_view(result@) == sort_by(entries_view(listed@), entry_key()),
{
    let order = sort_order(keys);
    let ghost view = entries_view(listed@);
    proof {
        assert forall|i: int| 0 <= i < view.len() implies entry_key()(#[trigger] view[i])
            == pair_key(keys@)(i) by {
            assert(keys@[i] == (listed@[i].entry_index as u64, 0u64));
        }
        lemma_sort_by_picks(view, entry_key(), pair_key(keys@));
    }
    let mut result: Vec<RuleEntry> = Vec::new();
    let mut index: usize = 0;
    while index < order.len()
        invariant
            index <= order@.len(),
            order@.len() == listed@.len(),
            result@.len() == index,
            view == entries_view(listed@),
            forall|i: int| 0 <= i < order@.len() ==> (#[trigger] order@[i]) < listed@.len(),
            forall|i: int|
                0 <= i < index ==> (#[trigger] result@[i])@ == view[order_view(order@)[i]],
        decreases order.len() - index,
    {
        result.push(copy_entry(&listed[order[index]]));
        index += 1;
    }
    assert(entries_view(result@) =~= picked(view, order_view(order@)));
    result
}

/// The summary of a rule.
pub open spec fn summary_of(rule: RuleView) -> SummaryView {
    SummaryView { id: selector_for(rule.id), nature: nature_text(rule.nature) }
}

/// Returns the summaries of rules in their order.
pub fn summaries_from_rules(rules: &[Rule]) -> (result: Vec<RuleSummary>)
    ensures
        summaries_view(result@) == Seq::new(rules@.len(), |i: int| summary_of(rules@[i]@)),
{
    let mut result: Vec<RuleSummary> = Vec::new();
    let mut index: usize = 0;
    while index < rules.len()
        invariant
            index <= rules@.len(),
            result@.len() == index,
            forall|i: int| 0 <= i < index ==> (#[trigger] result@[i])@ == summary_of(rules@[i]@),
        decreases rules.len() - index,
    {
        result.push(
            RuleSummary {
                id: RuleSelector { value: rules[index].id.value, bits: rules[index].id.bit_len },
                nature: rules[index].nature.as_str().to_owned(),
            },
        );
        index += 1;
    }
    assert(summaries_view(result@) =~= Seq::new(rules@.len(), |i: int| summary_of(rules@[i]@)));
    result
}

impl FieldRef {
    /// Returns a copy of this field.
    pub fn copy(&self) -> (result: Self)
        ensures
            result@ == self@,
    {
        match self {
            FieldRef::Ipv6(name) => FieldRef::Ipv6(name.clone()),
            FieldRef::Udp(name) => FieldRef::Udp(name.clone()),
            FieldRef::Coap(name) => FieldRef::Coap(name.clone()),
            FieldRef::Icmpv6(name) => FieldRef::Icmpv6(name.clone()),
            FieldRef::CoapOption { number } => FieldRef::CoapOption { number: *number },
            FieldRef::Unused => FieldRef::Unused,
            FieldRef::Payload => FieldRef::Payload,
            FieldRef::SyntheticCoapMarker => FieldRef::SyntheticCoapMarker,
            FieldRef::UnknownSid(sid) => FieldRef::UnknownSid(*sid),
        }
    }

    /// Returns whether two fields are equal.
    pub fn same(&self, other: &Self) -> (result: bool)
        ensures
            result == (self@ == other@),
    {
        match (self, other) {
            (FieldRef::Ipv6(left), FieldRef::Ipv6(right)) => same_text(
                left.as_str(),
                right.as_str(),
            ),
            (FieldRef::Udp(left), FieldRef::Udp(right)) => same_text(
                left.as_str(),
                right.as_str(),
            ),
            (FieldRef::Coap(left), FieldRef::Coap(right)) => same_text(
                left.as_str(),
                right.as_str(),
            ),
            (FieldRef::Icmpv6(left), FieldRef::Icmpv6(right)) => same_text(
                left.as_str(),
                right.as_str(),
            ),
            (
                FieldRef::CoapOption { number: left },
                FieldRef::CoapOption { number: right },
            ) => *left == *right,
            (FieldRef::Unused, FieldRef::Unused) => true,
            (FieldRef::Payload, FieldRef::Payload) => true,
            (FieldRef::SyntheticCoapMarker, FieldRef::SyntheticCoapMarker) => true,
            (FieldRef::UnknownSid(left), FieldRef::UnknownSid(right)) => *left == *right,
            _ => false,
        }
    }
}

/// Returns a copy of a byte string.
pub(crate) fn copy_bytes(bytes: &[u8]) -> (result: Vec<u8>)
    ensures
        result@ == bytes@,
{
    let mut result: Vec<u8> = Vec::new();
    result.extend_from_slice(bytes);
    assert(result@ =~= bytes@);
    result
}

impl TargetValue {
    /// Returns a copy of this target.
    pub fn copy(&self) -> (result: Self)
        ensures
            result@ == self@,
    {
        match self {
            TargetValue::Absent => TargetValue::Absent,
            TargetValue::Bytes(bytes) => TargetValue::Bytes(copy_bytes(bytes.as_slice())),
            TargetValue::Mapping(values) => {
                let mut list: Vec<Vec<u8>> = Vec::new();
                let mut index: usize = 0;
                while index < values.len()
                    invariant
                        index <= values@.len(),
                        list@.len() == index,
                        forall|i: int| 0 <= i < index ==> (#[trigger] list@[i])@ == values@[i]@,
                    decreases values.len() - index,
                {
                    list.push(copy_bytes(values[index].as_slice()));
                    index += 1;
                }
                assert(mapping_view(list@) =~= mapping_view(values@));
                TargetValue::Mapping(list)
            },
        }
    }

    /// Returns whether two targets are equal.
    pub fn same(&self, other: &Self) -> (result: bool)
        ensures
            result == (self@ == other@),
    {
        match (self, other) {
            (TargetValue::Absent, TargetValue::Absent) => true,
            (TargetValue::Bytes(left), TargetValue::Bytes(right)) => same_bytes(
                left.as_slice(),
                right.as_slice(),
            ),
            (TargetValue::Mapping(left), TargetValue::Mapping(right)) => {
                if left.len() != right.len() {
                    assert(mapping_view(left@).len() != mapping_view(right@).len());
                    return false;
                }
                let mut index: usize = 0;
                while index < left.len()
                    invariant
                        index <= left@.len(),
                        left@.len() == right@.len(),
                        self@ == TargetView::Mapping(mapping_view(left@)),
                        other@ == TargetView::Mapping(mapping_view(right@)),
                        forall|i: int| 0 <= i < index ==> (#[trigger] left@[i])@ == right@[i]@,
                    decreases left.len() - index,
                {
                    if !same_bytes(left[index].as_slice(), right[index].as_slice()) {
                        assert(mapping_view(left@)[index as int] != mapping_view(
                            right@,
                        )[index as int]);
                        return false;
                    }
                    index += 1;
                }
                assert(mapping_view(left@) =~= mapping_view(right@));
                true
            },
            _ => false,
        }
    }
}

impl FieldRule {
    /// Returns a copy of this entry.
    pub fn copy(&self) -> (result: Self)
        ensures
            result@ == self@,
    {
        FieldRule {
            entry_index: self.entry_index,
            field: self.field.copy(),
            field_position: self.field_position,
            direction: self.direction,
            length: self.length,
            target: self.target.copy(),
            matching: self.matching,
            action: self.action,
        }
    }

    /// Returns whether two entries are equal.
    pub fn same(&self, other: &Self) -> (result: bool)
        ensures
            result == (self@ == other@),
    {
        self.entry_index == other.entry_index && self.field.same(&other.field)
            && self.field_position == other.field_position && self.direction == other.direction
            && self.length == other.length && self.target.same(&other.target) && self.matching
            == other.matching && self.action == other.action
    }
}

impl Rule {
    /// Returns the rule identity.
    pub fn id(&self) -> (result: RuleId)
        ensures
            result == self@.id,
    {
        self.id
    }

    /// Returns what the rule is for.
    pub fn nature(&self) -> (result: RuleNature)
        ensures
            result == self@.nature,
    {
        self.nature
    }

    /// Returns a copy of this rule.
    pub fn copy(&self) -> (result: Self)
        ensures
            result@ == self@,
    {
        let mut fields: Vec<FieldRule> = Vec::new();
        let mut index: usize = 0;
        while index < self.fields.len()
            invariant
                index <= self.fields@.len(),
                fields@.len() == index,
                forall|i: int| 0 <= i < index ==> (#[trigger] fields@[i])@ == self.fields@[i]@,
            decreases self.fields.len() - index,
        {
            fields.push(self.fields[index].copy());
            index += 1;
        }
        assert(fields_view(fields@) =~= fields_view(self.fields@));
        Rule { id: self.id, nature: self.nature, fields }
    }

    /// Returns whether two rules are equal.
    pub fn same(&self, other: &Self) -> (result: bool)
        ensures
            result == (self@ == other@),
    {
        if self.id != other.id || self.nature != other.nature || self.fields.len()
            != other.fields.len() {
            proof {
                if self.fields@.len() != other.fields@.len() {
                    assert(self@.fields.len() != other@.fields.len());
                }
            }
            return false;
        }
        let mut index: usize = 0;
        while index < self.fields.len()
            invariant
                index <= self.fields@.len(),
                self.fields@.len() == other.fields@.len(),
                forall|i: int|
                    0 <= i < index ==> (#[trigger] self.fields@[i])@ == other.fields@[i]@,
            decreases self.fields.len() - index,
        {
            if !self.fields[index].same(&other.fields[index]) {
                assert(self@.fields[index as int] != other@.fields[index as int]);
                return false;
            }
            index += 1;
        }
        assert(self@.fields =~= other@.fields);
        true
    }
}

/// The first rule with an identity.
pub open spec fn rule_with_id(rules: Seq<RuleView>, id: RuleId) -> Option<RuleView>
    decreases rules.len(),
{
    if rules.len() == 0 {
        None
    } else if rules[0].id == id {
        Some(rules[0])
    } else {
        rule_with_id(rules.drop_first(), id)
    }
}

/// Finds the first rule with an identity.
pub fn find_rule(rules: &Vec<Rule>, id: RuleId) -> (result: Option<&Rule>)
    ensures
        match result {
            Some(rule) => rule_with_id(rules_view(rules@), id) == Some(rule@),
            None => rule_with_id(rules_view(rules@), id) is None,
        },
{
    let ghost view = rules_view(rules@);
    proof {
        assert(view.skip(0) =~= view);
    }
    let mut index: usize = 0;
    while index < rules.len()
        invariant
            index <= rules@.len(),
            view == rules_view(rules@),
            rule_with_id(view, id) == rule_with_id(view.skip(index as int), id),
        decreases rules.len() - index,
    {
        proof {
            assert(view.skip(index as int)[0] == view[index as int]);
            assert(view.skip(index as int).drop_first() =~= view.skip(index + 1));
        }
        if rules[index].id == id {
            return Some(&rules[index]);
        }
        index += 1;
    }
    None
}

/// A readable entry tells each part of the rule's entry by its stable name.
pub proof fn readable_entry_names_its_parts(field: FieldRuleView)
    ensures
        ({
            let entry = entry_of(field);
            &&& entry.entry_index == field.entry_index
            &&& entry.field_position == field.field_position
            &&& field.direction == DirectionSelector::Up ==> entry.direction == "up"@
            &&& field.direction == DirectionSelector::Down ==> entry.direction == "down"@
            &&& field.direction == DirectionSelector::Bidirectional ==> entry.direction == "bi"@
            &&& field.field matches FieldView::Ipv6(name) ==> entry.fid == name
            &&& field.field matches FieldView::Udp(name) ==> entry.fid == name
            &&& field.field matches FieldView::Coap(name) ==> entry.fid == name
            &&& field.field matches FieldView::CoapOption(number) ==> entry.fid
                == "coap-option("@ + decimal(number as nat) + ")"@
            &&& field.field is Payload ==> entry.fid == "fid-payload"@
            &&& field.field is Unused ==> entry.fid == "fid-unused"@
            &&& field.field is SyntheticCoapMarker ==> entry.fid == "fid-coap-payload-marker"@
            &&& field.field matches FieldView::UnknownSid(sid) ==> entry.fid == "sid:"@
                + signed_decimal(sid as int)
            &&& field.length matches FieldLength::FixedBits(bits) ==> entry.length == decimal(
                bits as nat,
            )
            &&& field.length is VariableBytes ==> entry.length == "variable-bytes"@
            &&& field.length is VariableBits ==> entry.length == "variable-bits"@
            &&& field.length is Remaining ==> entry.length == "remaining"@
            &&& field.length is TokenLength ==> entry.length == "token-length"@
            &&& field.length matches FieldLength::FunctionSid(sid) ==> entry.length == "sid:"@
                + signed_decimal(sid as int)
            &&& field.matching is Equal ==> entry.matching == "equal"@
            &&& field.matching is Ignore ==> entry.matching == "ignore"@
            &&& field.matching is MatchMapping ==> entry.matching == "match-mapping"@
            &&& field.matching matches MatchingOperator::Msb(bits) ==> entry.matching == "msb("@
                + decimal(bits as nat) + ")"@
            &&& field.action == Cda::NotSent ==> entry.cda == "not-sent"@
            &&& field.action == Cda::ValueSent ==> entry.cda == "value-sent"@
            &&& field.action == Cda::MappingSent ==> entry.cda == "mapping-sent"@
            &&& field.action == Cda::Lsb ==> entry.cda == "lsb"@
            &&& field.action == Cda::Compute ==> entry.cda == "compute"@
            &&& field.action == Cda::DeviceIid ==> entry.cda == "deviid"@
            &&& field.action == Cda::AppIid ==> entry.cda == "appiid"@
            &&& field.target is Absent ==> entry.target == "-"@
            &&& field.target matches TargetView::Bytes(bytes) ==> entry.target == "0x"@
                + hex_digits(bytes)
            &&& field.target matches TargetView::Mapping(values) ==> (values.len() == 1
                ==> entry.target == "["@ + ("0x"@ + hex_digits(values[0])) + "]"@)
        }),
{
}

/// A header field that has a name is shown by that name.
pub proof fn named_field_is_shown_by_its_name(name: Seq<char>)
    ensures
        field_text(FieldView::Ipv6(name)) == name,
        field_text(FieldView::Udp(name)) == name,
        field_text(FieldView::Coap(name)) == name,
        field_text(FieldView::Icmpv6(name)) == name,
{
}

/// A readable rule has the rule's identity and nature, and one readable entry
/// for each entry of the rule, in the order of their indices.
pub proof fn readable_rule_lists_every_entry(rule: RuleView)
    ensures
        detail_of(rule).id.value == rule.id.value,
        detail_of(rule).id.bits == rule.id.bit_len,
        rule.nature == RuleNature::Compression ==> detail_of(rule).nature == "compression"@,
        rule.nature == RuleNature::NoCompression ==> detail_of(rule).nature == "no-compression"@,
        rule.nature == RuleNature::Fragmentation ==> detail_of(rule).nature == "fragmentation"@,
        rule.nature == RuleNature::Management ==> detail_of(rule).nature == "management"@,
        summary_of(rule).id == detail_of(rule).id,
        summary_of(rule).nature == detail_of(rule).nature,
        detail_of(rule).entries.len() == rule.fields.len(),
        forall|i: int, j: int|
            0 <= i <= j < rule.fields.len() ==> (#[trigger] detail_of(
                rule,
            ).entries[i]).entry_index <= (#[trigger] detail_of(rule).entries[j]).entry_index,
        forall|i: int|
            0 <= i < rule.fields.len() ==> detail_of(rule).entries.contains(
                entry_of(#[trigger] rule.fields[i]),
            ),
{
    broadcast use vstd::seq_lib::group_to_multiset_ensures;

    let listed = Seq::new(rule.fields.len(), |i: int| entry_of(rule.fields[i]));
    sorting_orders_and_keeps_items(listed, entry_key());
    let entries = detail_of(rule).entries;
    assert forall|i: int, j: int| 0 <= i <= j < rule.fields.len() implies (
    #[trigger] entries[i]).entry_index <= (#[trigger] entries[j]).entry_index by {
        assert(entry_key()(entries[i]).0 == entries[i].entry_index);
        assert(entry_key()(entries[j]).0 == entries[j].entry_index);
    }
    assert forall|i: int| 0 <= i < rule.fields.len() implies entries.contains(
        entry_of(#[trigger] rule.fields[i]),
    ) by {
        assert(listed[i] == entry_of(rule.fields[i]));
        assert(listed.contains(listed[i]));
        assert(listed.to_multiset().count(listed[i]) > 0);
        assert(entries.to_multiset().count(listed[i]) > 0);
    }
}

/// An entry applies to a packet of its own direction, one for both directions
/// to every packet, and none to a packet of the other direction.
pub proof fn entries_apply_to_their_direction(direction: Direction)
    ensures
        DirectionSelector::Bidirectional.applies(direction),
        DirectionSelector::Up.applies(direction) <==> direction == Direction::Up,
        DirectionSelector::Down.applies(direction) <==> direction == Direction::Down,
{
}

/// The rule that an identity finds is the first with that identity, and none
/// is found only where no rule has it.
pub proof fn found_rule_is_the_first_with_its_identity(rules: Seq<RuleView>, id: RuleId)
    ensures
        match rule_with_id(rules, id) {
            Some(rule) => exists|i: int|
                #![trigger rules[i]]
                0 <= i < rules.len() && rules[i] == rule && rule.id == id && forall|j: int|
                    #![trigger rules[j]]
                    0 <= j < i ==> rules[j].id != id,
            None => forall|i: int|
                #![trigger rules[i]]
                0 <= i < rules.len() ==> rules[i].id != id,
        },
    decreases rules.len(),
{
    if rules.len() > 0 && rules[0].id != id {
        let rest = rules.drop_first();
        found_rule_is_the_first_with_its_identity(rest, id);
        match rule_with_id(rules, id) {
            Some(rule) => {
                let k = choose|k: int|
                    #![trigger rest[k]]
                    0 <= k < rest.len() && rest[k] == rule && rule.id == id && forall|j: int|
                        #![trigger rest[j]]
                        0 <= j < k ==> rest[j].id != id;
                assert(rules[k + 1] == rule);
                assert forall|j: int| #![trigger rules[j]] 0 <= j < k + 1 implies rules[j].id
                    != id by {
                    if j > 0 {
                        assert(rest[j - 1] == rules[j]);
                    }
                }
            },
            None => {
                assert forall|i: int| #![trigger rules[i]] 0 <= i < rules.len() implies rules[i].id
                    != id by {
                    if i > 0 {
                        assert(rest[i - 1] == rules[i]);
                    }
                }
            },
        }
    } else if rules.len() > 0 {
        assert(rules[0].id == id);
    }
}

} // verus!
