//! Rule identities: a value together with its encoded bit length, ordered as
//! the leaves and branches of one binary tree.

use vstd::arithmetic::power2::{lemma_pow2_pos, pow2};
use vstd::bits::lemma_u64_shr_is_div;
use vstd::prelude::*;

verus! {

/// One encoded SCHC rule identity.
#[derive(Debug, Clone, Copy, PartialEq, Eq, Structural, Hash)]
pub struct RuleId {
    /// Numeric value of the identity bits.
    pub value: u64,
    /// Number of encoded identity bits.
    pub bit_len: usize,
}

impl RuleId {
    /// Creates an identity from its value and bit length.
    pub fn new(value: u64, bit_len: usize) -> (result: Self)
        ensures
            result == (RuleId { value, bit_len }),
    {
        RuleId { value, bit_len }
    }

    /// Returns the numeric value.
    pub fn value(&self) -> (result: u64)
        ensures
            result == self.value,
    {
        self.value
    }

    /// Returns the number of encoded bits.
    pub fn bit_len(&self) -> (result: usize)
        ensures
            result == self.bit_len,
    {
        self.bit_len
    }
}

/// Whether the bits of `prefix` start the bits of `id`.
pub open spec fn starts_with(prefix: RuleId, id: RuleId) -> bool {
    &&& prefix.bit_len <= id.bit_len
    &&& id.value as nat / pow2((id.bit_len - prefix.bit_len) as nat) == prefix.value
}

/// Whether one of two identities starts the other, so that a decoder could
/// not tell them apart.
pub open spec fn ambiguous(left: RuleId, right: RuleId) -> bool {
    starts_with(left, right) || starts_with(right, left)
}

/// Whether two lengths are close enough for a 64-bit shift between them.
pub open spec fn comparable(left: RuleId, right: RuleId) -> bool {
    -64 < left.bit_len - right.bit_len < 64
}

pub(crate) fn is_prefix(prefix: RuleId, value: RuleId) -> (result: bool)
    requires
        comparable(prefix, value),
    ensures
        result == starts_with(prefix, value),
{
    if prefix.bit_len > value.bit_len {
        return false;
    }
    let suffix: u64 = (value.bit_len - prefix.bit_len) as u64;
    proof {
        lemma_u64_shr_is_div(value.value, suffix);
    }
    (value.value >> suffix) == prefix.value
}

/// Returns true when either identity is a prefix of the other.
pub fn overlaps(left: RuleId, right: RuleId) -> (result: bool)
    requires
        comparable(left, right),
    ensures
        result == ambiguous(left, right),
{
    is_prefix(left, right) || is_prefix(right, left)
}

/// An identity overlaps itself, and overlap does not depend on the order of
/// the two identities.
pub proof fn overlap_is_reflexive_and_symmetric(left: RuleId, right: RuleId)
    ensures
        ambiguous(left, left),
        ambiguous(left, right) == ambiguous(right, left),
{
    vstd::arithmetic::power2::lemma2_to64();
    assert(left.value as nat / 1 == left.value);
}

/// A prefix of a prefix is a prefix.
pub proof fn prefix_is_transitive(first: RuleId, second: RuleId, third: RuleId)
    requires
        starts_with(first, second),
        starts_with(second, third),
    ensures
        starts_with(first, third),
{
    let outer = (third.bit_len - second.bit_len) as nat;
    let inner = (second.bit_len - first.bit_len) as nat;
    lemma_pow2_pos(outer);
    lemma_pow2_pos(inner);
    vstd::arithmetic::power2::lemma_pow2_adds(outer, inner);
    vstd::arithmetic::div_mod::lemma_div_denominator(
        third.value as int,
        pow2(outer) as int,
        pow2(inner) as int,
    );
}

/// Two identities overlap exactly when the longer one is made of the bits of
/// the shorter one followed by some more bits.
pub proof fn overlapping_identities_share_their_leading_bits(short: RuleId, long: RuleId)
    requires
        short.bit_len <= long.bit_len,
    ensures
        ambiguous(short, long) <==> ({
            let more = pow2((long.bit_len - short.bit_len) as nat) as int;
            short.value * more <= long.value < short.value * more + more
        }),
{
    let more = pow2((long.bit_len - short.bit_len) as nat) as int;
    lemma_pow2_pos((long.bit_len - short.bit_len) as nat);
    vstd::arithmetic::div_mod::lemma_fundamental_div_mod(long.value as int, more);
    let quotient = long.value as int / more;
    let rest = long.value as int % more;
    assert(0 <= rest < more);
    assert(long.value == more * quotient + rest);
    if quotient == short.value {
        assert(more * quotient == short.value * more) by (nonlinear_arith)
            requires
                quotient == short.value,
        ;
    } else if quotient > short.value {
        assert(more * quotient >= short.value * more + more) by (nonlinear_arith)
            requires
                quotient >= short.value + 1,
                more > 0,
        ;
    } else {
        assert(more * quotient + more <= short.value * more) by (nonlinear_arith)
            requires
                quotient + 1 <= short.value,
                more > 0,
        ;
    }
    if short.bit_len == long.bit_len {
        vstd::arithmetic::power2::lemma2_to64();
        assert(short.value as nat / 1 == short.value);
        assert(long.value as nat / 1 == long.value);
    }
}

} // verus!
