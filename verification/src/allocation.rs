//! Deterministic allocation of variable-length SCHC rule identities.

use vstd::arithmetic::power2::{
    lemma2_to64, lemma_pow2_adds, lemma_pow2_pos, lemma_pow2_strictly_increases, pow2,
};
use vstd::bits::{lemma_u64_shl_is_mul, lemma_u64_shr_is_div};
use vstd::prelude::*;

use crate::rule_id::{ambiguous, is_prefix, overlaps, starts_with, RuleId};
use crate::text::{decimal, decimal_string, join, join3};

verus! {

/// Errors raised while validating or allocating a rule identity tree.
#[derive(Debug)]
pub enum RuleIdTreeError {
    /// The profile contains an invalid tree shape.
    Invalid(String),
    /// The reserved namespace overlaps a configured identity.
    Collision {
        /// Overlapping value.
        value: u64,
        /// Overlapping length.
        length: usize,
    },
    /// No configured leaf remains available.
    Exhausted,
}

/// Whether an error is an invalid tree shape with the given explanation.
pub open spec fn is_invalid(error: RuleIdTreeError, text: Seq<char>) -> bool {
    error matches RuleIdTreeError::Invalid(message) && message@ == text
}

impl RuleIdTreeError {
    /// The text that describes this error.
    pub open spec fn described(self) -> Seq<char> {
        match self {
            RuleIdTreeError::Invalid(message) => "invalid RuleID tree configuration: "@ + message@,
            RuleIdTreeError::Collision { value, length } => (
            "RuleID tree namespace overlaps existing RuleID "@ + decimal(value as nat) + "/"@
                + decimal(length as nat)),
            RuleIdTreeError::Exhausted => "dynamic RuleID namespace is exhausted"@,
        }
    }

    /// Describes this error.
    pub fn message(&self) -> (result: String)
        ensures
            result@ == self.described(),
    {
        match self {
            RuleIdTreeError::Invalid(message) => join(
                "invalid RuleID tree configuration: ",
                message.as_str(),
            ),
            RuleIdTreeError::Collision { value, length } => join(
                join3(
                    "RuleID tree namespace overlaps existing RuleID ",
                    decimal_string(*value).as_str(),
                    "/",
                ).as_str(),
                decimal_string(*length as u64).as_str(),
            ),
            RuleIdTreeError::Exhausted => "dynamic RuleID namespace is exhausted".to_owned(),
        }
    }
}

/// Whether a value and a length form an explicit rule identity.
pub open spec fn explicit_id(value: nat, length: nat) -> bool {
    1 <= length <= 32 && value < pow2(length)
}

/// Why a value and a length form no explicit rule identity.
pub open spec fn explicit_fault(value: nat, length: nat) -> Seq<char> {
    if !(1 <= length <= 32) {
        "explicit RuleID length must be 1..=32; length "@ + decimal(length)
            + " is unsupported by this codec"@
    } else if value > u32::MAX {
        "RuleID value "@ + decimal(value) + " exceeds the uint32 range"@
    } else {
        "RuleID value "@ + decimal(value) + " does not fit in "@ + decimal(length) + " bits"@
    }
}

/// A rule identity value and its encoded bit length.
#[derive(Debug, Clone, Copy, PartialEq, Eq, Structural)]
pub struct RuleIdSpec {
    /// Numeric value of the identity bits.
    pub value: u32,
    /// Number of encoded identity bits.
    pub length: usize,
}

impl RuleIdSpec {
    /// The identity that this specification denotes.
    pub open spec fn id(self) -> RuleId {
        RuleId { value: self.value as u64, bit_len: self.length }
    }

    /// Creates a validated explicit identity specification.
    pub fn new(value: u64, length: usize) -> (result: Result<Self, RuleIdTreeError>)
        ensures
            result is Ok <==> explicit_id(value as nat, length as nat),
            result matches Ok(spec) ==> spec.value == value && spec.length == length,
            result matches Err(error) ==> is_invalid(
                error,
                explicit_fault(value as nat, length as nat),
            ),
    {
        if length < 1 || length > 32 {
            return Err(
                RuleIdTreeError::Invalid(
                    join3(
                        "explicit RuleID length must be 1..=32; length ",
                        decimal_string(length as u64).as_str(),
                        " is unsupported by this codec",
                    ),
                ),
            );
        }
        proof {
            lemma2_to64();
            lemma_u64_shl_is_mul(1, length as u64);
            if length < 32 {
                lemma_pow2_strictly_increases(length as nat, 32);
            }
        }
        if value > 0xffff_ffff {
            return Err(
                RuleIdTreeError::Invalid(
                    join3(
                        "RuleID value ",
                        decimal_string(value).as_str(),
                        " exceeds the uint32 range",
                    ),
                ),
            );
        }
        if value >= (1u64 << (length as u64)) {
            let head = join3("RuleID value ", decimal_string(value).as_str(), " does not fit in ");
            return Err(
                RuleIdTreeError::Invalid(
                    join3(head.as_str(), decimal_string(length as u64).as_str(), " bits"),
                ),
            );
        }
        Ok(RuleIdSpec { value: value as u32, length })
    }

    /// Converts this specification to the codec's identity type.
    pub fn rule_id(self) -> (result: RuleId)
        ensures
            result == self.id(),
    {
        RuleId::new(self.value as u64, self.length)
    }
}

/// Explicit dynamic portion of a profile-defined rule identity tree.
///
/// `prefix` is a reserved internal branch, not an allocated identity. New
/// rules are leaves at one of `allowed_lengths`.
#[derive(Debug)]
pub struct DynamicRuleIdNamespace {
    /// Reserved prefix of the dynamic subtree.
    pub prefix: RuleIdSpec,
    /// Valid leaf depths for dynamically allocated identities.
    pub allowed_lengths: Vec<usize>,
}

/// Whether a leaf depth lies below a prefix of the given depth.
pub open spec fn depth_allowed(depth: nat, length: usize) -> bool {
    depth < length <= 32
}

/// Whether a length is the smallest one of a list that is no leaf depth.
pub open spec fn least_bad_depth(depth: nat, lengths: Seq<usize>, length: usize) -> bool {
    &&& lengths.contains(length)
    &&& !depth_allowed(depth, length)
    &&& forall|i: int|
        0 <= i < lengths.len() && !depth_allowed(depth, #[trigger] lengths[i]) ==> length
            <= lengths[i]
}

/// Whether a list ascends without repetition.
pub open spec fn ascending(lengths: Seq<usize>) -> bool {
    forall|i: int, j: int| 0 <= i < j < lengths.len() ==> lengths[i] < lengths[j]
}

/// Whether two lists hold the same lengths.
pub open spec fn same_lengths(left: Seq<usize>, right: Seq<usize>) -> bool {
    forall|length: usize| left.contains(length) <==> right.contains(length)
}

impl DynamicRuleIdNamespace {
    /// Whether the prefix is an explicit identity and every leaf depth lies
    /// strictly below it.
    pub open spec fn well_formed(&self) -> bool {
        &&& explicit_id(self.prefix.value as nat, self.prefix.length as nat)
        &&& self.allowed_lengths@.len() > 0
        &&& forall|i: int|
            0 <= i < self.allowed_lengths@.len() ==> depth_allowed(
                self.prefix.length as nat,
                #[trigger] self.allowed_lengths@[i],
            )
    }

    /// Why the namespace is not well formed.
    pub open spec fn fault(&self) -> Seq<char> {
        let depth = self.prefix.length as nat;
        if !explicit_id(self.prefix.value as nat, depth) {
            explicit_fault(self.prefix.value as nat, depth)
        } else if self.allowed_lengths@.len() == 0 {
            "dynamic RuleID namespace requires at least one allowed length"@
        } else {
            let bad = choose|length: usize|
                least_bad_depth(depth, self.allowed_lengths@, length);
            "dynamic RuleID length "@ + decimal(bad as nat) + " is outside prefix depth "@
                + decimal(depth) + "..=32"@
        }
    }

    /// Whether an identity is a leaf of this namespace.
    pub open spec fn has_leaf(&self, id: RuleId) -> bool {
        self.allowed_lengths@.contains(id.bit_len) && starts_with(self.prefix.id(), id)
    }

    /// Whether a leaf of this namespace is apart from every occupied identity.
    pub open spec fn free_leaf(&self, occupied: Seq<RuleId>, id: RuleId) -> bool {
        self.has_leaf(id) && forall|i: int|
            0 <= i < occupied.len() ==> !ambiguous(#[trigger] occupied[i], id)
    }

    /// Whether some occupied identity overlaps the reserved prefix without
    /// being one of its leaves.
    pub open spec fn collides(&self, occupied: Seq<RuleId>) -> bool {
        exists|i: int|
            0 <= i < occupied.len() && ambiguous(#[trigger] occupied[i], self.prefix.id())
                && !self.has_leaf(occupied[i])
    }

    /// Returns the reserved prefix.
    pub fn prefix(&self) -> (result: RuleIdSpec)
        ensures
            result == self.prefix,
    {
        self.prefix
    }
}

/// The tree order of leaves: shorter ones first, then by value.
pub open spec fn leaf_before(left: RuleId, right: RuleId) -> bool {
    left.bit_len < right.bit_len || (left.bit_len == right.bit_len && left.value <= right.value)
}

fn insert_length(lengths: &mut Vec<usize>, length: usize)
    requires
        ascending(old(lengths)@),
    ensures
        ascending(final(lengths)@),
        forall|other: usize|
            #[trigger] final(lengths)@.contains(other) <==> other == length || old(lengths)@.contains(other),
{
    let mut index: usize = 0;
    while index < lengths.len() && lengths[index] < length
        invariant
            index <= lengths.len(),
            lengths@ == old(lengths)@,
            forall|i: int| 0 <= i < index ==> lengths@[i] < length,
        decreases lengths.len() - index,
    {
        index += 1;
    }
    let ghost before = lengths@;
    if index < lengths.len() && lengths[index] == length {
        assert(before[index as int] == length);
        return ;
    }
    lengths.insert(index, length);
    proof {
        assert(before == old(lengths)@);
        assert(lengths@ == before.insert(index as int, length));
        assert forall|other: usize|
            #[trigger] lengths@.contains(other) <==> other == length || before.contains(other) by {
            if before.contains(other) {
                let i = choose|i: int| 0 <= i < before.len() && before[i] == other;
                if i < index {
                    assert(lengths@[i] == other);
                } else {
                    assert(lengths@[i + 1] == other);
                }
            }
            if other == length {
                assert(lengths@[index as int] == length);
            }
            if lengths@.contains(other) && other != length {
                let i = choose|i: int| 0 <= i < lengths@.len() && lengths@[i] == other;
                if i < index {
                    assert(before[i] == other);
                } else {
                    assert(before[i - 1] == other);
                }
            }
        }
    }
}

fn sorted_lengths(lengths: &Vec<usize>) -> (result: Vec<usize>)
    ensures
        ascending(result@),
        same_lengths(result@, lengths@),
{
    let mut result: Vec<usize> = Vec::new();
    let mut index: usize = 0;
    while index < lengths.len()
        invariant
            index <= lengths.len(),
            ascending(result@),
            same_lengths(result@, lengths@.take(index as int)),
        decreases lengths.len() - index,
    {
        let ghost before = result@;
        insert_length(&mut result, lengths[index]);
        proof {
            let ahead = lengths@.take(index + 1);
            let behind = lengths@.take(index as int);
            assert(ahead =~= behind.push(lengths@[index as int]));
            assert forall|length: usize| result@.contains(length) <==> ahead.contains(length) by {
                if behind.contains(length) {
                    let i = choose|i: int| 0 <= i < behind.len() && behind[i] == length;
                    assert(ahead[i] == length);
                }
                if ahead.contains(length) {
                    let i = choose|i: int| 0 <= i < ahead.len() && ahead[i] == length;
                    if i < index {
                        assert(behind[i] == length);
                    }
                }
                assert(ahead[index as int] == lengths@[index as int]);
            }
        }
        index += 1;
    }
    assert(lengths@.take(lengths@.len() as int) =~= lengths@);
    result
}

impl DynamicRuleIdNamespace {
    /// Validates the namespace shape and returns a normalized copy.
    pub fn validate(&self) -> (result: Result<Self, RuleIdTreeError>)
        ensures
            result is Ok <==> self.well_formed(),
            result matches Ok(normal) ==> {
                &&& normal.prefix == self.prefix
                &&& ascending(normal.allowed_lengths@)
                &&& same_lengths(normal.allowed_lengths@, self.allowed_lengths@)
                &&& normal.well_formed()
            },
            result matches Err(error) ==> is_invalid(error, self.fault()),
    {
        let prefix = match RuleIdSpec::new(self.prefix.value as u64, self.prefix.length) {
            Ok(prefix) => prefix,
            Err(error) => {
                return Err(error);
            },
        };
        let allowed_lengths = sorted_lengths(&self.allowed_lengths);
        if allowed_lengths.len() == 0 {
            proof {
                if self.allowed_lengths@.len() > 0 {
                    assert(allowed_lengths@.contains(self.allowed_lengths@[0]));
                }
            }
            return Err(
                RuleIdTreeError::Invalid(
                    "dynamic RuleID namespace requires at least one allowed length".to_owned(),
                ),
            );
        }
        proof {
            assert(self.allowed_lengths@.contains(allowed_lengths@[0]));
        }
        let depth: usize = prefix.length;
        let mut index: usize = 0;
        while index < allowed_lengths.len()
            invariant
                index <= allowed_lengths.len(),
                depth == self.prefix.length,
                depth <= 32,
                explicit_id(self.prefix.value as nat, self.prefix.length as nat),
                self.allowed_lengths@.len() > 0,
                ascending(allowed_lengths@),
                same_lengths(allowed_lengths@, self.allowed_lengths@),
                forall|i: int|
                    0 <= i < index ==> depth_allowed(depth as nat, #[trigger] allowed_lengths@[i]),
            decreases allowed_lengths.len() - index,
        {
            let length: usize = allowed_lengths[index];
            if length <= depth || length > 32 {
                proof {
                    let lengths = self.allowed_lengths@;
                    assert(lengths.contains(length)) by {
                        assert(allowed_lengths@.contains(allowed_lengths@[index as int]));
                    }
                    assert forall|i: int|
                        0 <= i < lengths.len() && !depth_allowed(
                            depth as nat,
                            #[trigger] lengths[i],
                        ) implies length <= lengths[i] by {
                        assert(allowed_lengths@.contains(lengths[i]));
                        let at = choose|at: int|
                            0 <= at < allowed_lengths@.len() && allowed_lengths@[at] == lengths[i];
                        if at < index {
                            assert(depth_allowed(depth as nat, allowed_lengths@[at]));
                        }
                    }
                    assert(least_bad_depth(depth as nat, lengths, length));
                    let bad = choose|bad: usize| least_bad_depth(depth as nat, lengths, bad);
                    let at_bad = choose|i: int| 0 <= i < lengths.len() && lengths[i] == bad;
                    let at_length = choose|i: int| 0 <= i < lengths.len() && lengths[i] == length;
                    assert(!depth_allowed(depth as nat, lengths[at_bad]));
                    assert(!depth_allowed(depth as nat, lengths[at_length]));
                    assert(bad == length);
                }
                let head = join3(
                    "dynamic RuleID length ",
                    decimal_string(length as u64).as_str(),
                    " is outside prefix depth ",
                );
                return Err(
                    RuleIdTreeError::Invalid(
                        join3(head.as_str(), decimal_string(depth as u64).as_str(), "..=32"),
                    ),
                );
            }
            index += 1;
        }
        proof {
            assert forall|i: int| 0 <= i < self.allowed_lengths@.len() implies depth_allowed(
                depth as nat,
                #[trigger] self.allowed_lengths@[i],
            ) by {
                assert(allowed_lengths@.contains(self.allowed_lengths@[i]));
                let at = choose|at: int|
                    0 <= at < allowed_lengths@.len() && allowed_lengths@[at]
                        == self.allowed_lengths@[i];
                assert(depth_allowed(depth as nat, allowed_lengths@[at]));
            }
        }
        Ok(DynamicRuleIdNamespace { prefix, allowed_lengths })
    }
}

/// Whether some interval of a list holds a value; the ends are exclusive.
pub open spec fn covered(intervals: Seq<(u64, u64)>, value: int) -> bool {
    exists|i: int| #![trigger intervals[i]]
        0 <= i < intervals.len() && intervals[i].0 <= value < intervals[i].1
}

/// Whether intervals come in the order of their starts.
pub open spec fn by_start(intervals: Seq<(u64, u64)>) -> bool {
    forall|i: int, j: int|
        0 <= i <= j < intervals.len() ==> (#[trigger] intervals[i]).0 <= (
        #[trigger] intervals[j]).0
}

/// Whether intervals ascend with a gap between each two.
pub open spec fn separated(intervals: Seq<(u64, u64)>) -> bool {
    &&& forall|i: int|
        0 <= i < intervals.len() ==> (#[trigger] intervals[i]).0 < intervals[i].1
    &&& forall|i: int, j: int|
        0 <= i < j < intervals.len() ==> (#[trigger] intervals[i]).1 < (#[trigger] intervals[j]).0
}

/// Whether intervals lie inside a range.
pub open spec fn within(intervals: Seq<(u64, u64)>, range: (u64, u64)) -> bool {
    forall|i: int|
        0 <= i < intervals.len() ==> range.0 <= (#[trigger] intervals[i]).0 && intervals[i].1
            <= range.1
}

/// Whether an occupied identity excludes a leaf value at a length.
pub open spec fn excludes(occupied: Seq<RuleId>, length: usize, value: u64) -> bool {
    exists|i: int|
        0 <= i < occupied.len() && ambiguous(
            #[trigger] occupied[i],
            RuleId { value, bit_len: length },
        )
}

proof fn lemma_quotient(value: nat, divisor: nat, quotient: nat)
    requires
        divisor > 0,
    ensures
        (value / divisor == quotient) <==> (quotient * divisor <= value < (quotient + 1)
            * divisor),
{
    vstd::arithmetic::div_mod::lemma_fundamental_div_mod(value as int, divisor as int);
    let found = value / divisor;
    let rest = value % divisor;
    assert(value == divisor * found + rest);
    assert(found * divisor <= value < (found + 1) * divisor) by (nonlinear_arith)
        requires
            value == divisor * found + rest,
            0 <= rest < divisor,
    ;
    if quotient * divisor <= value < (quotient + 1) * divisor {
        assert(found == quotient) by (nonlinear_arith)
            requires
                quotient * divisor <= value < (quotient + 1) * divisor,
                found * divisor <= value < (found + 1) * divisor,
        ;
    }
}

proof fn lemma_powers_to_32(exponent: nat)
    requires
        exponent <= 32,
    ensures
        1 <= pow2(exponent) <= 0x1_0000_0000,
{
    lemma2_to64();
    lemma_pow2_pos(exponent);
    if exponent < 32 {
        lemma_pow2_strictly_increases(exponent, 32);
    }
}

/// Returns the values of the leaves that a prefix has at a length.
pub fn candidate_range(prefix: RuleIdSpec, length: usize) -> (result: (u64, u64))
    requires
        explicit_id(prefix.value as nat, prefix.length as nat),
        prefix.length <= length <= 32,
    ensures
        result.0 < result.1 <= 0x1_0000_0000,
        forall|value: u64|
            result.0 <= value < result.1 <==> #[trigger] starts_with(
                prefix.id(),
                RuleId { value, bit_len: length },
            ),
{
    let suffix_bits: u64 = (length - prefix.length) as u64;
    let value: u64 = prefix.value as u64;
    let ghost divisor = pow2(suffix_bits as nat);
    proof {
        lemma_powers_to_32(suffix_bits as nat);
        lemma_powers_to_32(length as nat);
        lemma_pow2_adds(prefix.length as nat, suffix_bits as nat);
        assert((value + 1) * divisor <= pow2(length as nat)) by (nonlinear_arith)
            requires
                value + 1 <= pow2(prefix.length as nat),
                pow2(prefix.length as nat) * divisor == pow2(length as nat),
        ;
        assert(value * divisor + divisor == (value + 1) * divisor) by (nonlinear_arith);
        assert(value * divisor >= 0) by (nonlinear_arith);
        lemma_u64_shl_is_mul(value, suffix_bits);
        lemma_u64_shl_is_mul(1, suffix_bits);
    }
    let start: u64 = value << suffix_bits;
    let end: u64 = start + (1u64 << suffix_bits);
    proof {
        assert forall|leaf: u64| start <= leaf < end <==> #[trigger] starts_with(
            prefix.id(),
            RuleId { value: leaf, bit_len: length },
        ) by {
            lemma_quotient(leaf as nat, divisor, value as nat);
        }
    }
    (start, end)
}

fn blocked_interval(id: RuleId, length: usize) -> (result: (u64, u64))
    requires
        explicit_id(id.value as nat, id.bit_len as nat),
        1 <= length <= 32,
    ensures
        result.0 < result.1,
        forall|value: u64|
            result.0 <= value < result.1 <==> #[trigger] ambiguous(
                id,
                RuleId { value, bit_len: length },
            ),
{
    if id.bit_len <= length {
        let shift: u64 = (length - id.bit_len) as u64;
        let ghost divisor = pow2(shift as nat);
        proof {
            lemma_powers_to_32(shift as nat);
            lemma_powers_to_32(length as nat);
            lemma_pow2_adds(id.bit_len as nat, shift as nat);
            assert((id.value + 1) * divisor <= pow2(length as nat)) by (nonlinear_arith)
                requires
                    id.value + 1 <= pow2(id.bit_len as nat),
                    pow2(id.bit_len as nat) * divisor == pow2(length as nat),
            ;
            assert(id.value * divisor + divisor == (id.value + 1) * divisor) by (nonlinear_arith);
            assert(id.value * divisor >= 0) by (nonlinear_arith);
            lemma_u64_shl_is_mul(id.value, shift);
            lemma_u64_shl_is_mul(1, shift);
        }
        let start: u64 = id.value << shift;
        let end: u64 = start + (1u64 << shift);
        proof {
            assert forall|value: u64| start <= value < end <==> #[trigger] ambiguous(
                id,
                RuleId { value, bit_len: length },
            ) by {
                lemma_quotient(value as nat, divisor, id.value as nat);
                lemma2_to64();
                if id.bit_len == length {
                    assert(value as nat / 1 == value);
                    assert(id.value as nat / 1 == id.value);
                }
            }
        }
        (start, end)
    } else {
        let shift: u64 = (id.bit_len - length) as u64;
        proof {
            lemma_powers_to_32(shift as nat);
            lemma_powers_to_32(id.bit_len as nat);
            lemma_u64_shr_is_div(id.value, shift);
            vstd::arithmetic::div_mod::lemma_div_is_ordered_by_denominator(
                id.value as int,
                1,
                pow2(shift as nat) as int,
            );
            assert(id.value as nat / 1 == id.value);
        }
        let start: u64 = id.value >> shift;
        (start, start + 1)
    }
}

fn insert_interval(intervals: &mut Vec<(u64, u64)>, interval: (u64, u64))
    requires
        by_start(old(intervals)@),
    ensures
        by_start(final(intervals)@),
        exists|at: int|
            0 <= at <= old(intervals)@.len() && final(intervals)@ == old(intervals)@.insert(
                at,
                interval,
            ),
{
    let mut index: usize = 0;
    while index < intervals.len() && intervals[index].0 <= interval.0
        invariant
            index <= intervals.len(),
            intervals@ == old(intervals)@,
            forall|i: int| 0 <= i < index ==> (#[trigger] intervals@[i]).0 <= interval.0,
        decreases intervals.len() - index,
    {
        index += 1;
    }
    intervals.insert(index, interval);
    assert(intervals@ == old(intervals)@.insert(index as int, interval));
}

proof fn lemma_insert_covers(intervals: Seq<(u64, u64)>, at: int, interval: (u64, u64), value: int)
    requires
        0 <= at <= intervals.len(),
    ensures
        covered(intervals.insert(at, interval), value) <==> (covered(intervals, value)
            || interval.0 <= value < interval.1),
{
    let wider = intervals.insert(at, interval);
    if covered(intervals, value) {
        let i = choose|i: int|
            #![trigger intervals[i]]
            0 <= i < intervals.len() && intervals[i].0 <= value < intervals[i].1;
        if i < at {
            assert(wider[i] == intervals[i]);
        } else {
            assert(wider[i + 1] == intervals[i]);
        }
    }
    if interval.0 <= value < interval.1 {
        assert(wider[at] == interval);
    }
    if covered(wider, value) {
        let i = choose|i: int|
            #![trigger wider[i]]
            0 <= i < wider.len() && wider[i].0 <= value < wider[i].1;
        if i < at {
            assert(wider[i] == intervals[i]);
        } else if i > at {
            assert(wider[i] == intervals[i - 1]);
        }
    }
}

/// Returns the occupied parts of a range at a length, merged and in order.
pub fn blocked_intervals(range: (u64, u64), occupied: &[RuleId], length: usize) -> (result: Vec<
    (u64, u64),
>)
    requires
        range.0 < range.1,
        1 <= length <= 32,
        forall|i: int|
            0 <= i < occupied@.len() ==> explicit_id(
                (#[trigger] occupied@[i]).value as nat,
                occupied@[i].bit_len as nat,
            ),
    ensures
        separated(result@),
        within(result@, range),
        forall|value: u64|
            range.0 <= value < range.1 ==> (#[trigger] covered(result@, value as int) <==> excludes(
                occupied@,
                length,
                value,
            )),
{
    let mut intervals: Vec<(u64, u64)> = Vec::new();
    let mut index: usize = 0;
    while index < occupied.len()
        invariant
            index <= occupied.len(),
            range.0 < range.1,
            1 <= length <= 32,
            forall|i: int|
                0 <= i < occupied@.len() ==> explicit_id(
                    (#[trigger] occupied@[i]).value as nat,
                    occupied@[i].bit_len as nat,
                ),
            by_start(intervals@),
            within(intervals@, range),
            forall|i: int|
                0 <= i < intervals@.len() ==> (#[trigger] intervals@[i]).0 < intervals@[i].1,
            forall|value: u64|
                range.0 <= value < range.1 ==> (#[trigger] covered(intervals@, value as int)
                    <==> excludes(occupied@.take(index as int), length, value)),
        decreases occupied.len() - index,
    {
        let id = occupied[index];
        let (start, end) = blocked_interval(id, length);
        let ghost before = intervals@;
        let ghost behind = occupied@.take(index as int);
        let ghost ahead = occupied@.take(index + 1);
        if end > range.0 && start < range.1 {
            let low: u64 = if start < range.0 { range.0 } else { start };
            let high: u64 = if end > range.1 { range.1 } else { end };
            insert_interval(&mut intervals, (low, high));
            proof {
                let at = choose|at: int|
                    0 <= at <= before.len() && intervals@ == before.insert(at, (low, high));
                assert forall|value: u64| range.0 <= value < range.1 implies (#[trigger] covered(
                    intervals@,
                    value as int,
                ) <==> excludes(ahead, length, value)) by {
                    lemma_insert_covers(before, at, (low, high), value as int);
                    lemma_excludes_push(occupied@, index as int, length, value);
                    assert(covered(before, value as int) <==> excludes(behind, length, value));
                }
                assert forall|i: int| 0 <= i < intervals@.len() implies range.0 <= (
                #[trigger] intervals@[i]).0 < intervals@[i].1 <= range.1 by {
                    if i < at {
                        assert(intervals@[i] == before[i]);
                    } else if i > at {
                        assert(intervals@[i] == before[i - 1]);
                    }
                }
            }
        } else {
            proof {
                assert forall|value: u64| range.0 <= value < range.1 implies (#[trigger] covered(
                    intervals@,
                    value as int,
                ) <==> excludes(ahead, length, value)) by {
                    lemma_excludes_push(occupied@, index as int, length, value);
                    assert(covered(before, value as int) <==> excludes(behind, length, value));
                    assert(!(start <= value < end));
                    assert(!ambiguous(id, RuleId { value, bit_len: length }));
                }
            }
        }
        index += 1;
    }
    assert(occupied@.take(occupied@.len() as int) =~= occupied@);
    merge_intervals(&intervals, Ghost(range))
}

proof fn lemma_excludes_push(occupied: Seq<RuleId>, index: int, length: usize, value: u64)
    requires
        0 <= index < occupied.len(),
    ensures
        excludes(occupied.take(index + 1), length, value) <==> (excludes(
            occupied.take(index),
            length,
            value,
        ) || ambiguous(occupied[index], RuleId { value, bit_len: length })),
{
    let leaf = RuleId { value, bit_len: length };
    let ahead = occupied.take(index + 1);
    let behind = occupied.take(index);
    if excludes(behind, length, value) {
        let i = choose|i: int| 0 <= i < behind.len() && ambiguous(#[trigger] behind[i], leaf);
        assert(ambiguous(ahead[i], leaf));
    }
    if ambiguous(occupied[index], leaf) {
        assert(ambiguous(ahead[index], leaf));
    }
    if excludes(ahead, length, value) {
        let i = choose|i: int| 0 <= i < ahead.len() && ambiguous(#[trigger] ahead[i], leaf);
        if i < index {
            assert(ambiguous(behind[i], leaf));
        }
    }
}

fn merge_intervals(intervals: &Vec<(u64, u64)>, Ghost(range): Ghost<(u64, u64)>) -> (result: Vec<
    (u64, u64),
>)
    requires
        by_start(intervals@),
        within(intervals@, range),
        forall|i: int|
            0 <= i < intervals@.len() ==> (#[trigger] intervals@[i]).0 < intervals@[i].1,
    ensures
        separated(result@),
        within(result@, range),
        forall|value: int| #[trigger]
            covered(result@, value) <==> covered(intervals@, value),
{
    let mut merged: Vec<(u64, u64)> = Vec::new();
    let mut index: usize = 0;
    while index < intervals.len()
        invariant
            index <= intervals.len(),
            by_start(intervals@),
            forall|i: int|
                0 <= i < intervals@.len() ==> (#[trigger] intervals@[i]).0 < intervals@[i].1,
            within(intervals@, range),
            separated(merged@),
            within(merged@, range),
            merged@.len() > 0 ==> index > 0 && merged@.last().0 <= intervals@[index - 1].0,
            forall|value: int| #[trigger]
                covered(merged@, value) <==> covered(intervals@.take(index as int), value),
        decreases intervals.len() - index,
    {
        let (start, end) = intervals[index];
        let ghost before = merged@;
        let ghost ahead = intervals@.take(index + 1);
        let ghost behind = intervals@.take(index as int);
        let count: usize = merged.len();
        if count > 0 && start <= merged[count - 1].1 {
            let last = merged[count - 1];
            let high: u64 = if last.1 < end { end } else { last.1 };
            assert(intervals@[index - 1].0 <= intervals@[index as int].0);
            merged.set(count - 1, (last.0, high));
            proof {
                assert forall|value: int| #[trigger] covered(merged@, value) <==> covered(
                    ahead,
                    value,
                ) by {
                    assert(ahead =~= behind.insert(index as int, (start, end)));
                    lemma_insert_covers(behind, index as int, (start, end), value);
                    assert(covered(before, value) <==> covered(behind, value));
                    if covered(before, value) {
                        let i = choose|i: int|
                            #![trigger before[i]]
                            0 <= i < before.len() && before[i].0 <= value < before[i].1;
                        assert(merged@[i].0 <= value < merged@[i].1);
                    }
                    if start <= value < end {
                        assert(merged@[count - 1].0 <= value < merged@[count - 1].1);
                    }
                    if covered(merged@, value) {
                        let i = choose|i: int|
                            #![trigger merged@[i]]
                            0 <= i < merged@.len() && merged@[i].0 <= value < merged@[i].1;
                        if i < count - 1 {
                            assert(before[i] == merged@[i]);
                        } else if value < last.1 {
                            assert(before[i].0 <= value < before[i].1);
                        }
                    }
                }
            }
        } else {
            merged.push((start, end));
            proof {
                assert forall|value: int| #[trigger] covered(merged@, value) <==> covered(
                    ahead,
                    value,
                ) by {
                    assert(ahead =~= behind.insert(index as int, (start, end)));
                    lemma_insert_covers(behind, index as int, (start, end), value);
                    assert(merged@ =~= before.insert(count as int, (start, end)));
                    lemma_insert_covers(before, count as int, (start, end), value);
                    assert(covered(before, value) <==> covered(behind, value));
                }
                assert forall|i: int, j: int| 0 <= i < j < merged@.len() implies (
                #[trigger] merged@[i]).1 < (#[trigger] merged@[j]).0 by {
                    if j == count {
                        if i < count - 1 {
                            assert(before[i].1 < before[count - 1].0);
                        }
                        assert(before[count - 1].1 < start);
                    }
                }
            }
        }
        index += 1;
    }
    assert(intervals@.take(intervals@.len() as int) =~= intervals@);
    merged
}

/// Returns the lowest value of a range outside the blocked intervals.
pub fn first_free(range: (u64, u64), blocked: &[(u64, u64)]) -> (result: Option<u64>)
    requires
        by_start(blocked@),
    ensures
        result matches Some(value) ==> {
            &&& range.0 <= value < range.1
            &&& !covered(blocked@, value as int)
            &&& forall|other: int|
                range.0 <= other < value ==> #[trigger] covered(blocked@, other)
        },
        result is None ==> forall|other: int|
            range.0 <= other < range.1 ==> #[trigger] covered(blocked@, other),
{
    let mut candidate: u64 = range.0;
    let mut index: usize = 0;
    while index < blocked.len()
        invariant_except_break
            forall|i: int| 0 <= i < index ==> (#[trigger] blocked@[i]).1 <= candidate,
        invariant
            index <= blocked.len(),
            by_start(blocked@),
            range.0 <= candidate,
            forall|other: int|
                range.0 <= other < candidate ==> #[trigger] covered(blocked@, other),
        ensures
            !covered(blocked@, candidate as int),
        decreases blocked.len() - index,
    {
        let (start, end) = blocked[index];
        if end > candidate {
            if start > candidate {
                proof {
                    if covered(blocked@, candidate as int) {
                        let i = choose|i: int|
                            #![trigger blocked@[i]]
                            0 <= i < blocked@.len() && blocked@[i].0 <= candidate
                                < blocked@[i].1;
                        if i > index {
                            assert(blocked@[index as int].0 <= blocked@[i].0);
                        }
                    }
                }
                break;
            }
            proof {
                assert forall|other: int| range.0 <= other < end implies #[trigger] covered(
                    blocked@,
                    other,
                ) by {
                    if other >= candidate {
                        assert(blocked@[index as int].0 <= other < blocked@[index as int].1);
                    }
                }
                assert forall|i: int| 0 <= i < index + 1 implies (#[trigger] blocked@[i]).1
                    <= end by {
                    if i < index {
                        assert(blocked@[i].1 <= candidate);
                    }
                }
            }
            candidate = end;
            if candidate >= range.1 {
                return None;
            }
        }
        index += 1;
    }
    if candidate < range.1 {
        Some(candidate)
    } else {
        None
    }
}

/// Whether every identity of a list is an explicit one.
pub open spec fn all_explicit(occupied: Seq<RuleId>) -> bool {
    forall|i: int|
        0 <= i < occupied.len() ==> explicit_id(
            (#[trigger] occupied[i]).value as nat,
            occupied[i].bit_len as nat,
        )
}

/// Whether `at` is the first identity of a list that is no explicit one.
pub open spec fn first_inexplicit(occupied: Seq<RuleId>, at: int) -> bool {
    &&& 0 <= at < occupied.len()
    &&& !explicit_id(occupied[at].value as nat, occupied[at].bit_len as nat)
    &&& all_explicit(occupied.take(at))
}

fn accepts_normalized(namespace: &DynamicRuleIdNamespace, id: RuleId) -> (result: bool)
    requires
        namespace.well_formed(),
    ensures
        result == namespace.has_leaf(id),
{
    let mut index: usize = 0;
    while index < namespace.allowed_lengths.len()
        invariant
            index <= namespace.allowed_lengths@.len(),
            namespace.well_formed(),
            forall|i: int| 0 <= i < index ==> namespace.allowed_lengths@[i] != id.bit_len,
        decreases namespace.allowed_lengths.len() - index,
    {
        if namespace.allowed_lengths[index] == id.bit_len {
            assert(namespace.allowed_lengths@.contains(id.bit_len));
            assert(depth_allowed(
                namespace.prefix.length as nat,
                namespace.allowed_lengths@[index as int],
            ));
            return is_prefix(namespace.prefix.rule_id(), id);
        }
        index += 1;
    }
    false
}

impl DynamicRuleIdNamespace {
    /// Returns whether an identity belongs to this namespace at a permitted
    /// leaf depth.
    pub fn accepts(&self, id: RuleId) -> (result: bool)
        ensures
            result == (self.well_formed() && self.has_leaf(id)),
    {
        match self.validate() {
            Ok(namespace) => accepts_normalized(&namespace, id),
            Err(_) => false,
        }
    }

    /// Whether `at` is the first identity of a list that overlaps this
    /// namespace without being one of its leaves.
    pub open spec fn first_collision(&self, occupied: Seq<RuleId>, at: int) -> bool {
        &&& 0 <= at < occupied.len()
        &&& ambiguous(occupied[at], self.prefix.id()) && !self.has_leaf(occupied[at])
        &&& forall|i: int|
            0 <= i < at ==> !ambiguous(#[trigger] occupied[i], self.prefix.id()) || self.has_leaf(
                occupied[i],
            )
    }

    /// What allocation gives beside some identities: the first free leaf, or
    /// the error of a tree that has none to give.
    pub open spec fn allocates(
        &self,
        occupied: Seq<RuleId>,
        result: Result<RuleId, RuleIdTreeError>,
    ) -> bool {
        &&& !self.well_formed() ==> (result matches Err(error) && is_invalid(error, self.fault()))
        &&& self.well_formed() && !all_explicit(occupied) ==> (result matches Err(error)
            && exists|at: int| #[trigger]
            first_inexplicit(occupied, at) && is_invalid(
                error,
                explicit_fault(occupied[at].value as nat, occupied[at].bit_len as nat),
            ))
        &&& self.well_formed() && all_explicit(occupied) && self.collides(occupied) ==> (
        result matches Err(RuleIdTreeError::Collision { value, length }) && exists|at: int|
            #[trigger] self.first_collision(occupied, at) && value == occupied[at].value && length
                == occupied[at].bit_len)
        &&& self.well_formed() && all_explicit(occupied) && !self.collides(occupied) ==> (
        match result {
            Ok(id) => self.free_leaf(occupied, id) && forall|other: RuleId| #[trigger]
                self.free_leaf(occupied, other) ==> leaf_before(id, other),
            Err(error) => error is Exhausted && forall|other: RuleId|
                !#[trigger] self.free_leaf(occupied, other),
        })
    }

    /// Returns the first free valid leaf in tree order.
    pub fn allocate(&self, occupied: &[RuleId]) -> (result: Result<RuleId, RuleIdTreeError>)
        ensures
            self.allocates(occupied@, result),
    {
        let namespace = match self.validate() {
            Ok(namespace) => namespace,
            Err(error) => {
                return Err(error);
            },
        };
        let mut index: usize = 0;
        while index < occupied.len()
            invariant
                index <= occupied.len(),
                self.well_formed(),
                all_explicit(occupied@.take(index as int)),
            decreases occupied.len() - index,
        {
            match RuleIdSpec::new(occupied[index].value, occupied[index].bit_len) {
                Ok(_) => {},
                Err(error) => {
                    assert(first_inexplicit(occupied@, index as int));
                    return Err(error);
                },
            }
            proof {
                let ahead = occupied@.take(index + 1);
                assert forall|i: int| 0 <= i < ahead.len() implies explicit_id(
                    (#[trigger] ahead[i]).value as nat,
                    ahead[i].bit_len as nat,
                ) by {
                    if i < index {
                        assert(ahead[i] == occupied@.take(index as int)[i]);
                    }
                }
            }
            index += 1;
        }
        assert(occupied@.take(occupied@.len() as int) =~= occupied@);
        let prefix = namespace.prefix.rule_id();
        index = 0;
        while index < occupied.len()
            invariant
                index <= occupied.len(),
                self.well_formed(),
                namespace.well_formed(),
                namespace.prefix == self.prefix,
                prefix == self.prefix.id(),
                same_lengths(namespace.allowed_lengths@, self.allowed_lengths@),
                all_explicit(occupied@),
                forall|i: int|
                    0 <= i < index ==> !ambiguous(#[trigger] occupied@[i], prefix)
                        || self.has_leaf(occupied@[i]),
            decreases occupied.len() - index,
        {
            let id = occupied[index];
            assert(explicit_id(occupied@[index as int].value as nat, id.bit_len as nat));
            if overlaps(id, prefix) && !accepts_normalized(&namespace, id) {
                assert(ambiguous(occupied@[index as int], self.prefix.id()));
                assert(!self.has_leaf(occupied@[index as int]));
                assert(self.first_collision(occupied@, index as int));
                return Err(
                    RuleIdTreeError::Collision { value: id.value, length: id.bit_len },
                );
            }
            index += 1;
        }
        assert(!self.collides(occupied@));
        index = 0;
        while index < namespace.allowed_lengths.len()
            invariant
                index <= namespace.allowed_lengths@.len(),
                self.well_formed(),
                namespace.well_formed(),
                namespace.prefix == self.prefix,
                ascending(namespace.allowed_lengths@),
                same_lengths(namespace.allowed_lengths@, self.allowed_lengths@),
                all_explicit(occupied@),
                !self.collides(occupied@),
                forall|id: RuleId, i: int|
                    #![trigger self.free_leaf(occupied@, id), namespace.allowed_lengths@[i]]
                    0 <= i < index && self.free_leaf(occupied@, id)
                        ==> namespace.allowed_lengths@[i] != id.bit_len,
            decreases namespace.allowed_lengths.len() - index,
        {
            let length: usize = namespace.allowed_lengths[index];
            assert(depth_allowed(
                namespace.prefix.length as nat,
                namespace.allowed_lengths@[index as int],
            ));
            let range = candidate_range(namespace.prefix, length);
            let blocked = blocked_intervals(range, occupied, length);
            assert(by_start(blocked@)) by {
                assert forall|i: int, j: int| 0 <= i <= j < blocked@.len() implies (
                #[trigger] blocked@[i]).0 <= (#[trigger] blocked@[j]).0 by {
                    if i < j {
                        assert(blocked@[i].1 < blocked@[j].0);
                    }
                }
            }
            let found = first_free(range, blocked.as_slice());
            proof {
                assert(namespace.allowed_lengths@.contains(length));
                assert forall|value: u64| #[trigger]
                    self.free_leaf(occupied@, RuleId { value, bit_len: length }) <==> (range.0
                        <= value < range.1 && !covered(blocked@, value as int)) by {
                    let leaf = RuleId { value, bit_len: length };
                    assert(starts_with(self.prefix.id(), leaf) <==> range.0 <= value < range.1);
                    if range.0 <= value < range.1 {
                        assert(covered(blocked@, value as int) <==> excludes(
                            occupied@,
                            length,
                            value,
                        ));
                    }
                }
            }
            if let Some(value) = found {
                let id = RuleId::new(value, length);
                proof {
                    assert(self.free_leaf(occupied@, RuleId { value, bit_len: length }));
                    assert forall|other: RuleId| #[trigger]
                        self.free_leaf(occupied@, other) implies leaf_before(id, other) by {
                        assert(namespace.allowed_lengths@.contains(other.bit_len));
                        let at = choose|at: int|
                            0 <= at < namespace.allowed_lengths@.len()
                                && namespace.allowed_lengths@[at] == other.bit_len;
                        if at == index {
                            assert(other == RuleId { value: other.value, bit_len: length });
                            assert(self.free_leaf(
                                occupied@,
                                RuleId { value: other.value, bit_len: length },
                            ));
                            if other.value < value {
                                assert(covered(blocked@, other.value as int));
                            }
                        }
                    }
                }
                return Ok(id);
            }
            proof {
                assert forall|id: RuleId, i: int|
                    #![trigger self.free_leaf(occupied@, id), namespace.allowed_lengths@[i]]
                    0 <= i < index + 1 && self.free_leaf(
                        occupied@,
                        id,
                    ) implies namespace.allowed_lengths@[i] != id.bit_len by {
                    if i == index && id.bit_len == length {
                        assert(id == RuleId { value: id.value, bit_len: length });
                        assert(self.free_leaf(
                            occupied@,
                            RuleId { value: id.value, bit_len: length },
                        ));
                        assert(covered(blocked@, id.value as int));
                    }
                }
            }
            index += 1;
        }
        proof {
            assert forall|other: RuleId| !#[trigger] self.free_leaf(occupied@, other) by {
                if self.free_leaf(occupied@, other) {
                    assert(namespace.allowed_lengths@.contains(other.bit_len));
                    let at = choose|at: int|
                        0 <= at < namespace.allowed_lengths@.len() && namespace.allowed_lengths@[at]
                            == other.bit_len;
                    assert(namespace.allowed_lengths@[at] == other.bit_len);
                }
            }
        }
        Err(RuleIdTreeError::Exhausted)
    }
}

/// A freshly allocated leaf joins the occupied ones without ambiguity, stays
/// inside the namespace and makes the next allocation collide with nothing.
pub proof fn allocated_leaf_extends_the_tree(
    namespace: DynamicRuleIdNamespace,
    occupied: Seq<RuleId>,
    id: RuleId,
)
    requires
        namespace.well_formed(),
        !namespace.collides(occupied),
        namespace.free_leaf(occupied, id),
    ensures
        !namespace.collides(occupied.push(id)),
        forall|i: int| 0 <= i < occupied.len() ==> !ambiguous(#[trigger] occupied[i], id),
        !namespace.free_leaf(occupied.push(id), id),
{
    let wider = occupied.push(id);
    if namespace.collides(wider) {
        let i = choose|i: int|
            0 <= i < wider.len() && ambiguous(#[trigger] wider[i], namespace.prefix.id())
                && !namespace.has_leaf(wider[i]);
        if i < occupied.len() {
            assert(wider[i] == occupied[i]);
        }
    }
    crate::rule_id::overlap_is_reflexive_and_symmetric(id, id);
    assert(ambiguous(wider[occupied.len() as int], id));
}

/// The leaf that is first in tree order does not depend on the order in
/// which the occupied identities are listed.
pub proof fn first_leaf_is_order_independent(
    namespace: DynamicRuleIdNamespace,
    left: Seq<RuleId>,
    right: Seq<RuleId>,
    from_left: RuleId,
    from_right: RuleId,
)
    requires
        forall|id: RuleId| #[trigger] left.contains(id) <==> right.contains(id),
        namespace.free_leaf(left, from_left),
        forall|other: RuleId| #[trigger]
            namespace.free_leaf(left, other) ==> leaf_before(from_left, other),
        namespace.free_leaf(right, from_right),
        forall|other: RuleId| #[trigger]
            namespace.free_leaf(right, other) ==> leaf_before(from_right, other),
    ensures
        from_left == from_right,
{
    assert forall|id: RuleId| namespace.free_leaf(left, id) == namespace.free_leaf(right, id) by {
        assert forall|i: int| 0 <= i < left.len() implies right.contains(#[trigger] left[i]) by {
            assert(left.contains(left[i]));
        }
        assert forall|i: int| 0 <= i < right.len() implies left.contains(#[trigger] right[i]) by {
            assert(right.contains(right[i]));
        }
        if namespace.free_leaf(left, id) {
            assert forall|i: int| 0 <= i < right.len() implies !ambiguous(
                #[trigger] right[i],
                id,
            ) by {
                let j = choose|j: int| 0 <= j < left.len() && left[j] == right[i];
                assert(!ambiguous(left[j], id));
            }
        }
        if namespace.free_leaf(right, id) {
            assert forall|i: int| 0 <= i < left.len() implies !ambiguous(
                #[trigger] left[i],
                id,
            ) by {
                let j = choose|j: int| 0 <= j < right.len() && right[j] == left[i];
                assert(!ambiguous(right[j], id));
            }
        }
    }
    assert(namespace.free_leaf(left, from_right));
    assert(namespace.free_leaf(right, from_left));
}

/// The mechanism profile that owns dynamically allocated identities for a
/// managed context.
#[derive(Debug)]
pub struct ContextProfile {
    /// Explicit dynamic namespace, when automatic rule creation is enabled.
    pub dynamic_rule_ids: Option<DynamicRuleIdNamespace>,
}

impl ContextProfile {
    /// Validates the profile and returns a normalized copy.
    pub fn validate(&self) -> (result: Result<Self, RuleIdTreeError>)
        ensures
            result is Ok <==> (self.dynamic_rule_ids matches Some(namespace)
                ==> namespace.well_formed()),
            result matches Ok(normal) ==> match (self.dynamic_rule_ids, normal.dynamic_rule_ids) {
                (Some(namespace), Some(kept)) => {
                    &&& kept.prefix == namespace.prefix
                    &&& ascending(kept.allowed_lengths@)
                    &&& same_lengths(kept.allowed_lengths@, namespace.allowed_lengths@)
                },
                (None, None) => true,
                _ => false,
            },
            result matches Err(error) ==> (self.dynamic_rule_ids matches Some(namespace)
                && is_invalid(error, namespace.fault())),
    {
        match &self.dynamic_rule_ids {
            None => Ok(ContextProfile { dynamic_rule_ids: None }),
            Some(namespace) => match namespace.validate() {
                Ok(normal) => Ok(ContextProfile { dynamic_rule_ids: Some(normal) }),
                Err(error) => Err(error),
            },
        }
    }
}

/// An explicit identity has one to thirty-two bits, and its value fits them.
/// Leaves lie strictly below their prefix, at most thirty-two bits deep.
pub proof fn explicit_identities_fit_their_bits(value: nat, length: nat, depth: nat, leaf: usize)
    ensures
        explicit_id(value, length) <==> (1 <= length && length <= 32 && value < pow2(length)),
        depth_allowed(depth, leaf) <==> (depth < leaf && leaf <= 32),
{
}

/// A leaf of a namespace has an allowed length, and its leading bits are the
/// bits of the prefix.
pub proof fn leaf_starts_with_the_prefix(namespace: DynamicRuleIdNamespace, id: RuleId)
    requires
        namespace.well_formed(),
        namespace.has_leaf(id),
    ensures
        namespace.allowed_lengths@.contains(id.bit_len),
        namespace.prefix.length < id.bit_len <= 32,
        id.value as nat / pow2((id.bit_len - namespace.prefix.length) as nat)
            == namespace.prefix.value,
{
    let lengths = namespace.allowed_lengths@;
    let i = choose|i: int| 0 <= i < lengths.len() && lengths[i] == id.bit_len;
    assert(depth_allowed(namespace.prefix.length as nat, lengths[i]));
}

/// The leaf that is allocated is a free one, and no free leaf is shorter, nor
/// of the same length with a smaller value. Allocation fails on a well-formed
/// tree of explicit identities without a collision only where no leaf is free.
pub proof fn allocation_gives_the_first_free_leaf(
    namespace: DynamicRuleIdNamespace,
    occupied: Seq<RuleId>,
    result: Result<RuleId, RuleIdTreeError>,
)
    requires
        namespace.allocates(occupied, result),
    ensures
        result matches Ok(id) ==> namespace.well_formed() && !namespace.collides(occupied)
            && namespace.has_leaf(id) && (forall|i: int|
            0 <= i < occupied.len() ==> !ambiguous(#[trigger] occupied[i], id)) && (forall|
            other: RuleId,
        | #[trigger]
            namespace.free_leaf(occupied, other) ==> id.bit_len < other.bit_len || (id.bit_len
                == other.bit_len && id.value <= other.value)),
        namespace.well_formed() && all_explicit(occupied) && !namespace.collides(occupied) && (
        exists|other: RuleId| #[trigger] namespace.free_leaf(occupied, other)) ==> result is Ok,
        !namespace.well_formed() ==> result is Err,
        namespace.well_formed() && all_explicit(occupied) && namespace.collides(occupied) ==> (
        result matches Err(RuleIdTreeError::Collision { value, length }) && exists|i: int|
            0 <= i < occupied.len() && (#[trigger] occupied[i]).value == value
                && occupied[i].bit_len == length && ambiguous(occupied[i], namespace.prefix.id())
                && !namespace.has_leaf(occupied[i])),
{
    if namespace.well_formed() && all_explicit(occupied) && namespace.collides(occupied) {
        let error = result->Err_0;
        let at = choose|at: int| #[trigger]
            namespace.first_collision(occupied, at) && error->value == occupied[at].value
                && error->length == occupied[at].bit_len;
        assert(namespace.first_collision(occupied, at));
        assert(occupied[at].value == error->value);
    }
}

/// A malformed namespace is refused for its prefix first, for having no length
/// at all, or for the smallest of its lengths that lies outside the tree.
pub proof fn malformed_namespace_is_refused_for_its_reason(namespace: DynamicRuleIdNamespace)
    ensures
        !explicit_id(namespace.prefix.value as nat, namespace.prefix.length as nat)
            ==> namespace.fault() == explicit_fault(
            namespace.prefix.value as nat,
            namespace.prefix.length as nat,
        ),
        explicit_id(namespace.prefix.value as nat, namespace.prefix.length as nat)
            && namespace.allowed_lengths@.len() == 0 ==> namespace.fault()
            == "dynamic RuleID namespace requires at least one allowed length"@,
{
}

} // verus!
