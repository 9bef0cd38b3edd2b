//! Rule selectors and their textual form.

use vstd::arithmetic::power2::{lemma2_to64, lemma2_to64_rest, lemma_pow2_pos, pow2};
use vstd::bits::lemma_u64_shl_is_mul;
use vstd::prelude::*;

use crate::error::{Fault, InspectionError};
use crate::rule_id::RuleId;
use crate::text::{
    all_digits, chars_of, decimal, decimal_string, decimal_value, digits_only, find_char,
    is_digit, join, join3, lemma_decimal_round_trip, lemma_find_char, lemma_find_char_after,
    lemma_trimmed_solid, parse_decimal, position_of, slice_chars, trim_chars, trimmed,
};

verus! {

/// A strict numeric rule selector containing both value and bit length.
#[derive(Debug, Clone, Copy, PartialEq, Eq, Structural, Hash, PartialOrd, Ord)]
pub struct RuleSelector {
    /// Numeric rule identity value.
    pub value: u64,
    /// Number of bits in the encoded identity.
    pub bits: usize,
}

/// Whether a value fits a number of bits between 1 and 64.
pub open spec fn selectable(value: nat, bits: nat) -> bool {
    1 <= bits <= 64 && value < pow2(bits)
}

/// Why a value and a bit length form no selector.
pub open spec fn selector_fault(value: nat, bits: nat) -> Seq<char> {
    if !(1 <= bits <= 64) {
        "bit length must be between 1 and 64, got "@ + decimal(bits)
    } else {
        "value "@ + decimal(value) + " does not fit in "@ + decimal(bits) + " bits"@
    }
}

/// What a selector made of a value and a bit length is.
pub open spec fn selector_of(value: u64, bits: usize) -> Result<RuleSelector, Fault> {
    if selectable(value as nat, bits as nat) {
        Ok(RuleSelector { value, bits })
    } else {
        Err(Fault::InvalidSelector(selector_fault(value as nat, bits as nat)))
    }
}

/// The result of making a selector, over mathematical values.
pub open spec fn selector_view(result: Result<RuleSelector, InspectionError>) -> Result<
    RuleSelector,
    Fault,
> {
    match result {
        Ok(selector) => Ok(selector),
        Err(error) => Err(error@),
    }
}

impl RuleSelector {
    /// The text of a selector, `<value>/<bits>`.
    pub open spec fn spelled(self) -> Seq<char> {
        decimal(self.value as nat) + "/"@ + decimal(self.bits as nat)
    }

    /// The rule identity that a selector names.
    pub open spec fn id(self) -> RuleId {
        RuleId { value: self.value, bit_len: self.bits }
    }

    /// Creates a selector after validating its value and length.
    pub fn new(value: u64, bits: usize) -> (result: Result<Self, InspectionError>)
        ensures
            selector_view(result) == selector_of(value, bits),
    {
        if bits < 1 || bits > 64 {
            return Err(
                InspectionError::InvalidSelector(
                    join(
                        "bit length must be between 1 and 64, got ",
                        decimal_string(bits as u64).as_str(),
                    ),
                ),
            );
        }
        proof {
            lemma2_to64();
            lemma2_to64_rest();
        }
        if bits < 64 {
            proof {
                lemma_pow2_fits(bits as nat);
                lemma_u64_shl_is_mul(1, bits as u64);
            }
            if value >= (1u64 << (bits as u64)) {
                let head = join3("value ", decimal_string(value).as_str(), " does not fit in ");
                return Err(
                    InspectionError::InvalidSelector(
                        join3(head.as_str(), decimal_string(bits as u64).as_str(), " bits"),
                    ),
                );
            }
        }
        Ok(RuleSelector { value, bits })
    }

    /// Converts this selector to the rule identity it names.
    pub fn rule_id(self) -> (result: RuleId)
        ensures
            result == self.id(),
    {
        RuleId::new(self.value, self.bits)
    }

    /// Writes this selector as `<value>/<bits>`.
    pub fn to_text(self) -> (result: String)
        ensures
            result@ == self.spelled(),
    {
        join3(decimal_string(self.value).as_str(), "/", decimal_string(self.bits as u64).as_str())
    }
}

proof fn lemma_pow2_fits(bits: nat)
    requires
        bits < 64,
    ensures
        1 <= pow2(bits) <= u64::MAX,
{
    lemma2_to64();
    lemma2_to64_rest();
    lemma_pow2_pos(bits);
    vstd::arithmetic::power2::lemma_pow2_strictly_increases(bits, 64);
}

/// What the text of a selector denotes.
///
/// The text is a decimal value, a slash and a decimal bit length, with white
/// space allowed around the whole.
pub open spec fn selector_in(input: Seq<char>) -> Result<RuleSelector, Fault> {
    let text = trimmed(input);
    let slash = find_char(text, '/') as int;
    if slash == text.len() {
        Err(Fault::InvalidSelector("expected <value>/<bit-length>"@))
    } else {
        let value = text.take(slash);
        let bits = text.skip(slash + 1);
        if value.len() == 0 || bits.len() == 0 || bits.contains('/') {
            Err(
                Fault::InvalidSelector("expected one numeric value and one numeric bit length"@),
            )
        } else if !all_digits(value) || !all_digits(bits) {
            Err(
                Fault::InvalidSelector("value and bit length must be unsigned decimal numbers"@),
            )
        } else if decimal_value(value) > u64::MAX {
            Err(Fault::InvalidSelector("RuleID value is out of range"@))
        } else if decimal_value(bits) > usize::MAX {
            Err(Fault::InvalidSelector("bit length is out of range"@))
        } else {
            selector_of(decimal_value(value) as u64, decimal_value(bits) as usize)
        }
    }
}

fn invalid_selector(message: &str) -> (result: Result<RuleSelector, InspectionError>)
    ensures
        selector_view(result) == Err::<RuleSelector, Fault>(Fault::InvalidSelector(message@)),
{
    Err(InspectionError::InvalidSelector(message.to_owned()))
}

pub(crate) fn parse_selector_chars(input: &[char]) -> (result: Result<
    RuleSelector,
    InspectionError,
>)
    ensures
        selector_view(result) == selector_in(input@),
{
    let text = trim_chars(input);
    let slash: usize = position_of(text.as_slice(), '/');
    if slash == text.len() {
        return invalid_selector("expected <value>/<bit-length>");
    }
    let value = slice_chars(text.as_slice(), 0, slash);
    let bits = slice_chars(text.as_slice(), slash + 1, text.len());
    proof {
        assert(text@.take(slash as int) =~= text@.subrange(0, slash as int));
        assert(text@.skip(slash + 1) =~= text@.subrange(slash + 1, text@.len() as int));
        lemma_find_char(bits@, '/');
    }
    if value.len() == 0 || bits.len() == 0 || position_of(bits.as_slice(), '/') < bits.len() {
        return invalid_selector("expected one numeric value and one numeric bit length");
    }
    if !digits_only(value.as_slice()) || !digits_only(bits.as_slice()) {
        return invalid_selector("value and bit length must be unsigned decimal numbers");
    }
    let value: u64 = match parse_decimal(value.as_slice()) {
        Some(value) => value,
        None => {
            return invalid_selector("RuleID value is out of range");
        },
    };
    let bits: usize = match parse_decimal(bits.as_slice()) {
        Some(bits) => {
            if bits > usize::MAX as u64 {
                return invalid_selector("bit length is out of range");
            }
            bits as usize
        },
        None => {
            return invalid_selector("bit length is out of range");
        },
    };
    RuleSelector::new(value, bits)
}

/// Parses the exact `<value>/<bit-length>` syntax used by the console.
pub fn parse_rule_selector(input: &str) -> (result: Result<RuleSelector, InspectionError>)
    ensures
        selector_view(result) == selector_in(input@),
{
    let characters = chars_of(input);
    parse_selector_chars(characters.as_slice())
}

/// Reading the text of a selector gives the selector back.
pub proof fn selector_text_round_trip(selector: RuleSelector)
    requires
        selectable(selector.value as nat, selector.bits as nat),
    ensures
        selector_in(selector.spelled()) == Ok::<RuleSelector, Fault>(selector),
{
    let value = decimal(selector.value as nat);
    let bits = decimal(selector.bits as nat);
    let text = selector.spelled();
    lemma_decimal_round_trip(selector.value as nat);
    lemma_decimal_round_trip(selector.bits as nat);
    reveal_strlit("/");
    assert(text =~= value + seq!['/'] + bits);
    assert(is_digit(value[0]));
    assert(is_digit(bits[bits.len() - 1]));
    assert(text[0] == value[0]);
    assert(text.last() == bits.last());
    lemma_trimmed_solid(text);
    assert(!value.contains('/')) by {
        if value.contains('/') {
            let i = choose|i: int| 0 <= i < value.len() && value[i] == '/';
            assert(is_digit(value[i]));
        }
    }
    assert(!bits.contains('/')) by {
        if bits.contains('/') {
            let i = choose|i: int| 0 <= i < bits.len() && bits[i] == '/';
            assert(is_digit(bits[i]));
        }
    }
    lemma_find_char_after(value, '/', bits);
    assert(text.take(value.len() as int) =~= value);
    assert(text.skip(value.len() as int + 1) =~= bits);
}

/// Every accepted selector text names a value that fits its bit length.
pub proof fn accepted_selector_fits(input: Seq<char>)
    requires
        selector_in(input) is Ok,
    ensures
        selectable(
            selector_in(input)->Ok_0.value as nat,
            selector_in(input)->Ok_0.bits as nat,
        ),
        1 <= selector_in(input)->Ok_0.bits <= 64,
        selector_in(input)->Ok_0.value < pow2(selector_in(input)->Ok_0.bits as nat),
{
}

/// A value and a bit length make a selector of just these exactly when the
/// length is between one and sixty-four bits and the value fits it.
pub proof fn selector_holds_its_value_and_length(value: u64, bits: usize)
    ensures
        selector_of(value, bits) is Ok <==> 1 <= bits <= 64 && value < pow2(bits as nat),
        selector_of(value, bits) matches Ok(selector) ==> selector.value == value && selector.bits
            == bits && selector.id().value == value && selector.id().bit_len == bits,
        selector_of(value, bits) matches Err(fault) ==> fault is InvalidSelector,
{
}

/// The text of a selector is its value, a slash and its bit length; read in
/// that order it gives the value and the length back, also with white space
/// around it.
pub proof fn selector_text_is_value_slash_length(value: u64, bits: usize)
    requires
        1 <= bits <= 64,
        value < pow2(bits as nat),
    ensures
        selector_in(decimal(value as nat) + "/"@ + decimal(bits as nat)) == Ok::<
            RuleSelector,
            Fault,
        >(RuleSelector { value, bits }),
        (RuleSelector { value, bits }).spelled() == decimal(value as nat) + "/"@ + decimal(
            bits as nat,
        ),
{
    selector_text_round_trip(RuleSelector { value, bits });
}

/// A refused selector is refused for its bit length where that is not one to
/// sixty-four, and otherwise for its value.
pub proof fn selector_is_refused_for_its_reason(value: nat, bits: nat)
    ensures
        bits == 0 || bits > 64 ==> selector_fault(value, bits)
            == "bit length must be between 1 and 64, got "@ + decimal(bits),
        0 < bits && bits <= 64 ==> selector_fault(value, bits) == "value "@ + decimal(value)
            + " does not fit in "@ + decimal(bits) + " bits"@,
{
}

} // verus!
