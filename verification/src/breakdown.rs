//! Bit-level accounting of protected management traffic.

use vstd::arithmetic::power2::{lemma2_to64, lemma_pow2_unfold, pow2};
use vstd::prelude::*;

use crate::coap::{options_view, Coap, CoapMessage};
use crate::error::{unexpected, Fault, InspectionError};
use crate::link::{LinkReport, ReportView};
use crate::link_types::TrafficClass;
use crate::packet::{CoapPacketView, Ipv6UdpCoapPacket};
use crate::rule::{
    fields_view, mapping_view, Cda, FieldLength, FieldRef, FieldRule, FieldRuleView, FieldView,
    MatchingOperator, TargetValue, TargetView,
};
use crate::text::{decimal, decimal_string, join, join3, same_text};

verus! {

/// Bit-level accounting for one protected management report.
#[derive(Debug, Clone, Copy, PartialEq, Eq, Structural)]
pub struct ManagementBitBreakdown {
    /// Bits used by the selected rule identity.
    pub rule_id_bits: usize,
    /// Bits used by the CoAP response-code mapping, when present.
    pub method_or_response_mapping_bits: usize,
    /// CoAP message-ID residue bits.
    pub mid_residue_bits: usize,
    /// Exact CoAP payload bits, excluding their length prefix.
    pub payload_bits: usize,
    /// Bits used by the variable payload length prefix.
    pub payload_length_bits: usize,
    /// Bits used by dynamic management option values such as If-Match.
    pub option_residue_bits: usize,
    /// Zero padding bits in the sent frame's final byte.
    pub byte_padding_bits: usize,
    /// Residue bits not accounted for by the fields above; must be zero.
    pub unaccounted_residue_bits: usize,
}

impl ManagementBitBreakdown {
    /// Returns the protected management transport overhead: identity,
    /// method/response mapping, and message-ID residue.
    pub fn transport_residue_bits(self) -> (result: usize)
        requires
            self.rule_id_bits + self.method_or_response_mapping_bits + self.mid_residue_bits
                <= usize::MAX,
        ensures
            result == self.rule_id_bits + self.method_or_response_mapping_bits
                + self.mid_residue_bits,
    {
        self.rule_id_bits + self.method_or_response_mapping_bits + self.mid_residue_bits
    }
}

/// The number of binary digits of a number.
pub open spec fn digits(number: nat) -> nat
    decreases number,
{
    if number == 0 {
        0
    } else {
        1 + digits(number / 2)
    }
}

/// The bits that tell the values of a list apart.
pub open spec fn index_bits(count: nat) -> nat {
    if count <= 1 {
        0
    } else {
        digits((count - 1) as nat)
    }
}

proof fn lemma_digits_bound(number: nat)
    ensures
        number < pow2(digits(number)),
        number > 0 ==> pow2((digits(number) - 1) as nat) <= number,
    decreases number,
{
    lemma2_to64();
    if number > 0 {
        lemma_digits_bound(number / 2);
        lemma_pow2_unfold(digits(number));
        if number / 2 > 0 {
            lemma_pow2_unfold((digits(number) - 1) as nat);
        }
    }
}

/// The index bits of a list are enough for each of its values, and one bit
/// less would not be.
pub proof fn index_bits_are_tight(count: nat)
    ensures
        count <= pow2(index_bits(count)),
        index_bits(count) > 0 ==> pow2((index_bits(count) - 1) as nat) < count,
{
    lemma2_to64();
    if count > 1 {
        lemma_digits_bound((count - 1) as nat);
    }
}

/// Returns the bits that tell the values of a list apart.
pub fn mapping_index_bits(mapping_len: usize) -> (result: usize)
    ensures
        result == index_bits(mapping_len as nat),
        result <= 64,
{
    if mapping_len <= 1 {
        return 0;
    }
    let mut rest: usize = mapping_len - 1;
    let mut bits: usize = 0;
    let ghost limit = usize::MAX as nat;
    proof {
        lemma_digits_limit(rest as nat);
    }
    while rest > 0
        invariant
            bits + digits(rest as nat) == digits((mapping_len - 1) as nat),
            digits((mapping_len - 1) as nat) <= 64,
            mapping_len > 1,
        decreases rest,
    {
        bits += 1;
        rest = rest / 2;
    }
    bits
}

proof fn lemma_digits_limit(number: nat)
    requires
        number <= u64::MAX,
    ensures
        digits(number) <= 64,
{
    lemma2_to64();
    lemma_digits_bound(number);
    if digits(number) > 64 {
        vstd::arithmetic::power2::lemma_pow2_strictly_increases(
            63,
            (digits(number) - 1) as nat,
        );
        lemma_pow2_unfold(64);
        if digits(number) - 1 > 64 {
            vstd::arithmetic::power2::lemma_pow2_strictly_increases(
                64,
                (digits(number) - 1) as nat,
            );
        }
    }
}

/// The bits of a variable length in front of a value.
pub open spec fn length_prefix(value: nat) -> nat {
    if value <= 14 {
        4
    } else if value <= 254 {
        12
    } else {
        28
    }
}

/// Returns the bits of a variable length in front of a value.
pub fn variable_length_prefix_bits(value: usize) -> (result: usize)
    ensures
        result == length_prefix(value as nat),
{
    if value <= 14 {
        4
    } else if value <= 254 {
        12
    } else {
        28
    }
}

/// The bits of the length in front of a payload.
pub open spec fn payload_prefix(length: FieldLength, payload: nat) -> nat {
    match length {
        FieldLength::VariableBytes | FieldLength::VariableBits => length_prefix(payload),
        _ => 0,
    }
}

/// Returns the bits of the length in front of a payload.
pub fn payload_prefix_bits(length: FieldLength, payload_len: usize) -> (result: usize)
    ensures
        result == payload_prefix(length, payload_len as nat),
{
    match length {
        FieldLength::VariableBytes | FieldLength::VariableBits => variable_length_prefix_bits(
            payload_len,
        ),
        _ => 0,
    }
}

/// The bits of all values of an option.
pub open spec fn option_bits(options: Seq<(u16, Seq<u8>)>, number: u64) -> nat
    decreases options.len(),
{
    if options.len() == 0 {
        0
    } else {
        option_bits(options.drop_last(), number) + if options.last().0 == number {
            options.last().1.len() * 8
        } else {
            0
        }
    }
}

/// The residue of an option is eight bits for each byte of its values: those
/// of several lists of options add up, a single value counts eight times its
/// length, and the values of other options do not count.
pub proof fn option_bits_count_every_value_byte(
    front: Seq<(u16, Seq<u8>)>,
    back: Seq<(u16, Seq<u8>)>,
    value: Seq<u8>,
    number: u16,
    other: u64,
)
    ensures
        option_bits(seq![(number, value)], number as u64) == 8 * value.len(),
        other != number ==> option_bits(seq![(number, value)], other) == 0,
        option_bits(front + back, other) == option_bits(front, other) + option_bits(back, other),
    decreases back.len(),
{
    let single = seq![(number, value)];
    assert(single.drop_last() =~= Seq::<(u16, Seq<u8>)>::empty());
    assert(option_bits(single.drop_last(), number as u64) == 0);
    assert(option_bits(single.drop_last(), other) == 0);
    if back.len() == 0 {
        assert(front + back =~= front);
    } else {
        option_bits_count_every_value_byte(front, back.drop_last(), value, number, other);
        assert((front + back).drop_last() =~= front + back.drop_last());
        assert((front + back).last() == back.last());
    }
}

/// The residue bits of the parts of a message.
pub struct Residue {
    /// Bits of the response-code mapping.
    pub mapping: nat,
    /// Bits of the message ID.
    pub mid: nat,
    /// Bits of the payload length.
    pub payload_length: nat,
    /// Bits of option values.
    pub options: nat,
}

/// The residue once one more entry of a rule is counted.
pub open spec fn entry_residue(before: Residue, entry: FieldRuleView, message: Coap) -> Result<
    Residue,
    Fault,
> {
    match entry.field {
        FieldView::Coap(name) => if name == "fid-coap-code"@ && entry.action == Cda::MappingSent {
            match entry.target {
                TargetView::Mapping(values) => Ok(
                    Residue { mapping: index_bits(values.len()), ..before },
                ),
                _ => Err(
                    Fault::UnexpectedResponse("management code mapping has no mapping target"@),
                ),
            }
        } else if name == "fid-coap-mid"@ {
            match entry.length {
                FieldLength::FixedBits(bits) => match (entry.matching, entry.action) {
                    (MatchingOperator::Msb(prefix), Cda::Lsb) => if prefix > bits {
                        Err(
                            Fault::UnexpectedResponse(
                                "management MID MSB exceeds its field width"@,
                            ),
                        )
                    } else {
                        Ok(Residue { mid: (bits - prefix) as nat, ..before })
                    },
                    (_, Cda::ValueSent) => Ok(Residue { mid: bits as nat, ..before }),
                    _ => Ok(Residue { mid: 0, ..before }),
                },
                _ => Err(
                    Fault::UnexpectedResponse("management MID rule entry is not fixed-width"@),
                ),
            }
        } else {
            Ok(before)
        },
        FieldView::Payload => if entry.action == Cda::ValueSent {
            Ok(
                Residue {
                    payload_length: payload_prefix(entry.length, message.payload.len()),
                    ..before
                },
            )
        } else {
            Ok(before)
        },
        FieldView::CoapOption(number) => if entry.action == Cda::ValueSent {
            Ok(
                Residue {
                    options: before.options + option_bits(message.options, number),
                    ..before
                },
            )
        } else {
            Ok(before)
        },
        _ => Ok(before),
    }
}

/// The residue of the first entries of a rule.
pub open spec fn rule_residue(fields: Seq<FieldRuleView>, count: nat, message: Coap) -> Result<
    Residue,
    Fault,
>
    decreases count,
{
    if count == 0 {
        Ok(Residue { mapping: 0, mid: 0, payload_length: 0, options: 0 })
    } else {
        match rule_residue(fields, (count - 1) as nat, message) {
            Err(fault) => Err(fault),
            Ok(before) => entry_residue(before, fields[count - 1], message),
        }
    }
}

/// All bits that are accounted for.
pub open spec fn accounted_bits(rule_id_bits: nat, residue: Residue, payload: nat) -> nat {
    rule_id_bits + residue.mapping + residue.mid + payload * 8 + residue.payload_length
        + residue.options
}

/// Whether the accounting of a message stays within machine integers.
pub open spec fn accounting_fits(
    fields: Seq<FieldRuleView>,
    rule_id_bits: nat,
    message: Coap,
) -> bool {
    &&& forall|count: nat|
        count <= fields.len() ==> (#[trigger] rule_residue(fields, count, message) matches Ok(
            residue,
        ) ==> residue.options <= usize::MAX)
    &&& rule_residue(fields, fields.len(), message) matches Ok(residue) ==> accounted_bits(
        rule_id_bits,
        residue,
        message.payload.len(),
    ) <= usize::MAX
}

/// The accounting of a message that a rule compressed.
pub open spec fn rule_breakdown(
    fields: Seq<FieldRuleView>,
    rule_id_bits: nat,
    message: Coap,
    meaningful: Option<usize>,
    padded: nat,
) -> Result<ManagementBitBreakdown, Fault> {
    match rule_residue(fields, fields.len(), message) {
        Err(fault) => Err(fault),
        Ok(residue) => match meaningful {
            None => Err(
                Fault::UnexpectedResponse("management report has no meaningful bit length"@),
            ),
            Some(bits) => {
                let accounted = accounted_bits(rule_id_bits, residue, message.payload.len());
                if bits != accounted {
                    Err(
                        Fault::UnexpectedResponse(
                            "management report has "@ + decimal(bits as nat)
                                + " meaningful bits but accounted fields total "@ + decimal(
                                accounted,
                            ),
                        ),
                    )
                } else if padded * 8 > usize::MAX || padded * 8 < bits {
                    Err(Fault::UnexpectedResponse("management report padding is invalid"@))
                } else {
                    Ok(
                        ManagementBitBreakdown {
                            rule_id_bits: rule_id_bits as usize,
                            method_or_response_mapping_bits: residue.mapping as usize,
                            mid_residue_bits: residue.mid as usize,
                            payload_bits: (message.payload.len() * 8) as usize,
                            payload_length_bits: residue.payload_length as usize,
                            option_residue_bits: residue.options as usize,
                            byte_padding_bits: (padded * 8 - bits) as usize,
                            unaccounted_residue_bits: 0,
                        },
                    )
                }
            },
        },
    }
}

/// The packet of a parse, or its error text.
pub open spec fn parsed_view(parsed: Result<Ipv6UdpCoapPacket, String>) -> Result<
    CoapPacketView,
    Seq<char>,
> {
    match parsed {
        Ok(packet) => Ok(packet@),
        Err(text) => Err(text@),
    }
}

/// The accounting of a report.
pub open spec fn breakdown_of(
    report: ReportView,
    parsed: Result<CoapPacketView, Seq<char>>,
) -> Result<ManagementBitBreakdown, Fault> {
    if report.traffic_class != TrafficClass::ProtectedManagement {
        Err(
            Fault::UnexpectedResponse("bit breakdown requires a protected management report"@),
        )
    } else {
        match parsed {
            Err(text) => Err(Fault::Coap(text)),
            Ok(packet) => if packet.message.message_id >= 128 {
                Err(
                    Fault::UnexpectedResponse(
                        "management MID is outside the 7-bit compressed range"@,
                    ),
                )
            } else {
                match report.management_rule {
                    None => Err(
                        Fault::UnexpectedResponse(
                            "management report has no selected rule structure"@,
                        ),
                    ),
                    Some(rule) => rule_breakdown(
                        rule.fields,
                        report.rule_id.bit_len as nat,
                        packet.message,
                        report.schc_bit_len,
                        report.padded_byte_len as nat,
                    ),
                }
            },
        }
    }
}

/// Every bit of an accepted accounting is named, and nothing is left over.
pub proof fn breakdown_is_complete(report: ReportView, parsed: Result<CoapPacketView, Seq<char>>)
    requires
        breakdown_of(report, parsed) is Ok,
    ensures
        ({
            let parts = breakdown_of(report, parsed)->Ok_0;
            &&& parts.unaccounted_residue_bits == 0
            &&& report.schc_bit_len == Some(
                (parts.rule_id_bits + parts.method_or_response_mapping_bits
                    + parts.mid_residue_bits + parts.payload_bits + parts.payload_length_bits
                    + parts.option_residue_bits) as usize,
            )
            &&& parts.byte_padding_bits + report.schc_bit_len->0 == report.padded_byte_len * 8
        }),
{
    let message = parsed->Ok_0.message;
    let rule = report.management_rule->0;
    let residue = rule_residue(rule.fields, rule.fields.len(), message)->Ok_0;
    let bits = report.schc_bit_len->0;
    assert(bits == accounted_bits(
        report.rule_id.bit_len as nat,
        residue,
        message.payload.len(),
    ));
}

/// What one more entry of a rule adds to the residue of a message: a code that
/// is sent by its place in a mapping counts the bits of that place, a message
/// ID the bits that its entry leaves to be sent, a sent payload its length of
/// four, twelve or twenty-eight bits, and a sent option eight bits for each
/// byte of its values. An entry that sends nothing adds nothing.
pub proof fn each_entry_adds_its_residue(
    fields: Seq<FieldRuleView>,
    entry: FieldRuleView,
    message: Coap,
)
    requires
        rule_residue(fields, fields.len(), message) is Ok,
    ensures
        ({
            let before = rule_residue(fields, fields.len(), message)->Ok_0;
            let outcome = rule_residue(fields.push(entry), fields.len() + 1, message);
            let after = outcome->Ok_0;
            &&& entry.field matches FieldView::CoapOption(number) ==> {
                &&& outcome is Ok
                &&& after.options == before.options + if entry.action == Cda::ValueSent {
                    option_bits(message.options, number)
                } else {
                    0
                }
                &&& after.mapping == before.mapping
                &&& after.mid == before.mid
                &&& after.payload_length == before.payload_length
            }
            &&& entry.field is Payload && entry.action == Cda::ValueSent && (entry.length
                == FieldLength::VariableBytes || entry.length == FieldLength::VariableBits) ==> {
                &&& outcome is Ok
                &&& message.payload.len() <= 14 ==> after.payload_length == 4
                &&& 15 <= message.payload.len() <= 254 ==> after.payload_length == 12
                &&& 255 <= message.payload.len() ==> after.payload_length == 28
                &&& after.options == before.options
                &&& after.mapping == before.mapping
                &&& after.mid == before.mid
            }
            &&& entry.field is Payload && entry.length is FixedBits && entry.action
                == Cda::ValueSent ==> outcome is Ok && after.payload_length == 0
            &&& entry.field == FieldView::Coap("fid-coap-code"@) && entry.action
                == Cda::MappingSent ==> {
                &&& outcome is Ok <==> entry.target is Mapping
                &&& entry.target matches TargetView::Mapping(values) ==> after.mapping
                    == index_bits(values.len()) && after.mid == before.mid && after.options
                    == before.options && after.payload_length == before.payload_length
            }
            &&& entry.field == FieldView::Coap("fid-coap-mid"@) ==> match entry.length {
                FieldLength::FixedBits(bits) => match (entry.matching, entry.action) {
                    (MatchingOperator::Msb(prefix), Cda::Lsb) => {
                        &&& outcome is Ok <==> prefix <= bits
                        &&& prefix <= bits ==> after.mid + prefix == bits && after.mapping
                            == before.mapping
                    },
                    (_, Cda::ValueSent) => outcome is Ok && after.mid == bits,
                    _ => outcome is Ok && after.mid == 0,
                },
                _ => outcome is Err,
            }
            &&& entry.field is Ipv6 || entry.field is Udp ==> outcome == Ok::<Residue, Fault>(
                before,
            )
        }),
{
    lemma_names_differ();
    let longer = fields.push(entry);
    lemma_residue_prefix(fields, entry, fields.len(), message);
    assert(longer[longer.len() - 1] == entry);
}

proof fn lemma_residue_prefix(
    fields: Seq<FieldRuleView>,
    entry: FieldRuleView,
    count: nat,
    message: Coap,
)
    requires
        count <= fields.len(),
    ensures
        rule_residue(fields.push(entry), count, message) == rule_residue(fields, count, message),
    decreases count,
{
    if count > 0 {
        lemma_residue_prefix(fields, entry, (count - 1) as nat, message);
        assert(fields.push(entry)[count - 1] == fields[count - 1]);
    }
}

/// The bits of an accepted accounting are those of the report and its message:
/// the length of the rule's identity, eight times the bytes of the payload,
/// and the residue of the rule's entries; whenever the meaningful bits are
/// their sum and fit the padded frame, the accounting is accepted.
pub proof fn accepted_accounting_is_the_sum_of_its_parts(
    report: ReportView,
    packet: CoapPacketView,
)
    requires
        report.traffic_class == TrafficClass::ProtectedManagement,
        packet.message.message_id < 128,
        report.management_rule is Some,
        rule_residue(
            report.management_rule->0.fields,
            report.management_rule->0.fields.len(),
            packet.message,
        ) is Ok,
        report.padded_byte_len * 8 <= usize::MAX,
    ensures
        ({
            let rule = report.management_rule->0;
            let residue = rule_residue(rule.fields, rule.fields.len(), packet.message)->Ok_0;
            let sum = report.rule_id.bit_len + residue.mapping + residue.mid + 8
                * packet.message.payload.len() + residue.payload_length + residue.options;
            let outcome = breakdown_of(report, Ok(packet));
            let parts = outcome->Ok_0;
            &&& outcome is Ok <==> report.schc_bit_len is Some && report.schc_bit_len->0 == sum
                && sum <= report.padded_byte_len * 8
            &&& outcome is Ok ==> {
                &&& parts.rule_id_bits == report.rule_id.bit_len
                &&& parts.method_or_response_mapping_bits == residue.mapping
                &&& parts.mid_residue_bits == residue.mid
                &&& parts.payload_bits == 8 * packet.message.payload.len()
                &&& parts.payload_length_bits == residue.payload_length
                &&& parts.option_residue_bits == residue.options
                &&& parts.byte_padding_bits == report.padded_byte_len * 8 - sum
            }
        }),
{
}

struct ResidueState {
    mapping: usize,
    mid: usize,
    payload_length: usize,
    options: usize,
}

impl View for ResidueState {
    type V = Residue;

    closed spec fn view(&self) -> Residue {
        Residue {
            mapping: self.mapping as nat,
            mid: self.mid as nat,
            payload_length: self.payload_length as nat,
            options: self.options as nat,
        }
    }
}

proof fn lemma_option_bits_grow(options: Seq<(u16, Seq<u8>)>, count: nat, number: u64)
    requires
        count <= options.len(),
    ensures
        option_bits(options.take(count as int), number) <= option_bits(options, number),
    decreases options.len(),
{
    if count == options.len() {
        assert(options.take(count as int) =~= options);
    } else {
        lemma_option_bits_grow(options.drop_last(), count, number);
        assert(options.drop_last().take(count as int) =~= options.take(count as int));
    }
}

fn sum_option_bits(message: &CoapMessage, number: u64) -> (result: usize)
    requires
        option_bits(message@.options, number) <= usize::MAX,
    ensures
        result == option_bits(message@.options, number),
{
    let ghost view = options_view(message.options@);
    let mut total: usize = 0;
    let mut index: usize = 0;
    while index < message.options.len()
        invariant
            index <= message.options@.len(),
            view == options_view(message.options@),
            view == message@.options,
            option_bits(view, number) <= usize::MAX,
            total == option_bits(view.take(index as int), number),
        decreases message.options.len() - index,
    {
        proof {
            assert(view.take(index + 1).drop_last() =~= view.take(index as int));
            assert(view.take(index + 1).last() == view[index as int]);
            lemma_option_bits_grow(view, (index + 1) as nat, number);
        }
        if message.options[index].number as u64 == number {
            total = total + message.options[index].value.len() * 8;
        }
        index += 1;
    }
    assert(view.take(index as int) =~= view);
    total
}

fn count_code(state: &mut ResidueState, entry: &FieldRule) -> (result: Result<(), InspectionError>)
    requires
        entry.action == Cda::MappingSent,
    ensures
        match entry@.target {
            TargetView::Mapping(values) => result is Ok && final(state)@ == (Residue {
                mapping: index_bits(values.len()),
                ..old(state)@
            }),
            _ => result matches Err(error) && error@ == Fault::UnexpectedResponse(
                "management code mapping has no mapping target"@,
            ),
        },
{
    match &entry.target {
        TargetValue::Mapping(values) => {
            assert(mapping_view(values@).len() == values@.len());
            state.mapping = mapping_index_bits(values.len());
            Ok(())
        },
        _ => Err(unexpected("management code mapping has no mapping target")),
    }
}

fn count_mid(state: &mut ResidueState, entry: &FieldRule, Ghost(message): Ghost<Coap>) -> (result:
    Result<(), InspectionError>)
    requires
        entry@.field == FieldView::Coap("fid-coap-mid"@),
        "fid-coap-mid"@ != "fid-coap-code"@,
    ensures
        match result {
            Ok(_) => entry_residue(old(state)@, entry@, message) == Ok::<Residue, Fault>(
                final(state)@,
            ),
            Err(error) => entry_residue(old(state)@, entry@, message) == Err::<Residue, Fault>(
                error@,
            ),
        },
{
    match entry.length {
        FieldLength::FixedBits(bits) => {
            match (entry.matching, entry.action) {
                (MatchingOperator::Msb(prefix), Cda::Lsb) => {
                    if prefix > bits {
                        return Err(unexpected("management MID MSB exceeds its field width"));
                    }
                    state.mid = bits - prefix;
                },
                (_, Cda::ValueSent) => {
                    state.mid = bits;
                },
                _ => {
                    state.mid = 0;
                },
            }
            Ok(())
        },
        _ => Err(unexpected("management MID rule entry is not fixed-width")),
    }
}

proof fn lemma_names_differ()
    ensures
        "fid-coap-mid"@ != "fid-coap-code"@,
{
    reveal_strlit("fid-coap-mid");
    reveal_strlit("fid-coap-code");
    assert("fid-coap-mid"@.len() != "fid-coap-code"@.len());
}

fn count_entry(state: &mut ResidueState, entry: &FieldRule, message: &CoapMessage) -> (result: Result<
    (),
    InspectionError,
>)
    requires
        entry_residue(old(state)@, entry@, message@) matches Ok(after) ==> after.options
            <= usize::MAX,
    ensures
        match result {
            Ok(_) => entry_residue(old(state)@, entry@, message@) == Ok::<Residue, Fault>(
                final(state)@,
            ),
            Err(error) => entry_residue(old(state)@, entry@, message@) == Err::<Residue, Fault>(
                error@,
            ),
        },
{
    proof {
        lemma_names_differ();
    }
    match &entry.field {
        FieldRef::Coap(name) => {
            if same_text(name.as_str(), "fid-coap-code") && entry.action == Cda::MappingSent {
                return count_code(state, entry);
            }
            if same_text(name.as_str(), "fid-coap-mid") {
                return count_mid(state, entry, Ghost(message@));
            }
            Ok(())
        },
        FieldRef::Payload => {
            if entry.action == Cda::ValueSent {
                state.payload_length = payload_prefix_bits(entry.length, message.payload.len());
            }
            Ok(())
        },
        FieldRef::CoapOption { number } => {
            if entry.action == Cda::ValueSent {
                state.options = state.options + sum_option_bits(message, *number);
            }
            Ok(())
        },
        _ => Ok(()),
    }
}

proof fn lemma_residue_error_stays(
    fields: Seq<FieldRuleView>,
    count: nat,
    more: nat,
    message: Coap,
)
    requires
        count <= more,
        rule_residue(fields, count, message) is Err,
    ensures
        rule_residue(fields, more, message) == rule_residue(fields, count, message),
    decreases more,
{
    if count < more {
        lemma_residue_error_stays(fields, count, (more - 1) as nat, message);
    }
}

fn count_rule(fields: &Vec<FieldRule>, rule_id_bits: usize, message: &CoapMessage) -> (result: Result<
    ResidueState,
    InspectionError,
>)
    requires
        accounting_fits(fields_view(fields@), rule_id_bits as nat, message@),
    ensures
        ({
            let outcome = rule_residue(fields_view(fields@), fields@.len(), message@);
            match result {
                Ok(state) => outcome == Ok::<Residue, Fault>(state@),
                Err(error) => outcome == Err::<Residue, Fault>(error@),
            }
        }),
{
    let ghost view = fields_view(fields@);
    let mut state = ResidueState { mapping: 0, mid: 0, payload_length: 0, options: 0 };
    let mut index: usize = 0;
    while index < fields.len()
        invariant
            index <= fields@.len(),
            view == fields_view(fields@),
            accounting_fits(view, rule_id_bits as nat, message@),
            rule_residue(view, index as nat, message@) == Ok::<Residue, Fault>(state@),
        decreases fields.len() - index,
    {
        proof {
            assert(view[index as int] == fields@[index as int]@);
            let next = rule_residue(view, (index + 1) as nat, message@);
            if next is Err {
                lemma_residue_error_stays(view, (index + 1) as nat, view.len(), message@);
            }
        }
        count_entry(&mut state, &fields[index], message)?;
        index += 1;
    }
    Ok(state)
}

fn account(
    fields: &Vec<FieldRule>,
    rule_id_bits: usize,
    message: &CoapMessage,
    meaningful: Option<usize>,
    padded: usize,
) -> (result: Result<ManagementBitBreakdown, InspectionError>)
    requires
        accounting_fits(fields_view(fields@), rule_id_bits as nat, message@),
    ensures
        ({
            let outcome = rule_breakdown(
                fields_view(fields@),
                rule_id_bits as nat,
                message@,
                meaningful,
                padded as nat,
            );
            match result {
                Ok(parts) => outcome == Ok::<ManagementBitBreakdown, Fault>(parts),
                Err(error) => outcome == Err::<ManagementBitBreakdown, Fault>(error@),
            }
        }),
{
    let state = count_rule(fields, rule_id_bits, message)?;
    assert(fields_view(fields@).len() == fields@.len());
    let bits: usize = match meaningful {
        Some(bits) => bits,
        None => {
            return Err(unexpected("management report has no meaningful bit length"));
        },
    };
    let payload_bits: usize = message.payload.len() * 8;
    let accounted: usize = rule_id_bits + state.mapping + state.mid + payload_bits
        + state.payload_length + state.options;
    if bits != accounted {
        let head = join3(
            "management report has ",
            decimal_string(bits as u64).as_str(),
            " meaningful bits but accounted fields total ",
        );
        return Err(
            unexpected(join(head.as_str(), decimal_string(accounted as u64).as_str()).as_str()),
        );
    }
    let space: usize = match padded.checked_mul(8) {
        Some(space) => space,
        None => {
            return Err(unexpected("management report padding is invalid"));
        },
    };
    if space < bits {
        return Err(unexpected("management report padding is invalid"));
    }
    Ok(
        ManagementBitBreakdown {
            rule_id_bits,
            method_or_response_mapping_bits: state.mapping,
            mid_residue_bits: state.mid,
            payload_bits,
            payload_length_bits: state.payload_length,
            option_residue_bits: state.options,
            byte_padding_bits: space - bits,
            unaccounted_residue_bits: bits - accounted,
        },
    )
}

/// Computes and validates the bit accounting of one protected management
/// report. `parsed` is the packet that its bytes hold.
///
/// Fixed IPv6, UDP, CoAP, URI, and content-format fields are reconstructed by
/// the selected rule and therefore do not appear as residue.
pub fn management_bit_breakdown(
    report: &LinkReport,
    parsed: &Result<Ipv6UdpCoapPacket, String>,
) -> (result: Result<ManagementBitBreakdown, InspectionError>)
    requires
        parsed matches Ok(packet) ==> (report@.management_rule matches Some(rule)
            ==> accounting_fits(
            rule.fields,
            report.rule_id.bit_len as nat,
            packet@.message,
        )),
    ensures
        ({
            let outcome = breakdown_of(report@, parsed_view(*parsed));
            match result {
                Ok(parts) => outcome == Ok::<ManagementBitBreakdown, Fault>(parts),
                Err(error) => outcome == Err::<ManagementBitBreakdown, Fault>(error@),
            }
        }),
{
    if report.traffic_class != TrafficClass::ProtectedManagement {
        return Err(unexpected("bit breakdown requires a protected management report"));
    }
    let packet = match parsed {
        Ok(packet) => packet,
        Err(text) => {
            return Err(InspectionError::Coap(text.clone()));
        },
    };
    if packet.message.message_id >= 128 {
        return Err(unexpected("management MID is outside the 7-bit compressed range"));
    }
    let rule = match &report.management_rule {
        Some(rule) => rule,
        None => {
            return Err(unexpected("management report has no selected rule structure"));
        },
    };
    account(
        &rule.fields,
        report.rule_id.bit_len,
        &packet.message,
        report.schc_bit_len,
        report.padded_byte_len,
    )
}

/// An entry is accounted for unless it maps the code without a mapping, or
/// holds a message ID that is not of fixed width or is matched by more bits
/// than it has.
pub proof fn entry_is_accounted_for_unless_it_is_malformed(
    before: Residue,
    entry: FieldRuleView,
    message: Coap,
)
    ensures
        entry_residue(before, entry, message) is Err <==> (entry.field matches FieldView::Coap(name)
            && ((name == "fid-coap-code"@ && entry.action == Cda::MappingSent && !(
        entry.target is Mapping)) || (name == "fid-coap-mid"@ && !(entry.length is FixedBits)) || (
        name == "fid-coap-mid"@ && entry.length is FixedBits && entry.matching is Msb
            && entry.action == Cda::Lsb && entry.matching->Msb_0 > entry.length->FixedBits_0))),
{
    reveal_strlit("fid-coap-code");
    reveal_strlit("fid-coap-mid");
    assert("fid-coap-code"@.len() != "fid-coap-mid"@.len());
}

/// A report is broken down exactly when it is one of protected management with
/// a seven-bit message ID and a rule, whose accounted bits are its meaningful
/// bits and fit its frame.
pub proof fn management_report_is_broken_down_when_it_adds_up(
    report: ReportView,
    parsed: Result<CoapPacketView, Seq<char>>,
)
    ensures
        breakdown_of(report, parsed) is Ok <==> {
            let message = parsed->Ok_0.message;
            let fields = report.management_rule->0.fields;
            let residue = rule_residue(fields, fields.len(), message);
            &&& report.traffic_class is ProtectedManagement
            &&& parsed is Ok
            &&& message.message_id < 128
            &&& report.management_rule is Some
            &&& residue is Ok
            &&& report.schc_bit_len is Some
            &&& report.schc_bit_len->0 == report.rule_id.bit_len + residue->Ok_0.mapping
                + residue->Ok_0.mid + message.payload.len() * 8 + residue->Ok_0.payload_length
                + residue->Ok_0.options
            &&& report.schc_bit_len->0 <= report.padded_byte_len * 8
            &&& report.padded_byte_len * 8 <= usize::MAX
        },
{
}

} // verus!
