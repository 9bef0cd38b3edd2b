//! Numbers as byte strings, the most significant byte first.

use vstd::arithmetic::power2::{
    lemma2_to64, lemma_pow2_adds, lemma_pow2_strictly_increases, pow2,
};
use vstd::prelude::*;

verus! {

/// The number that a byte string stands for.
pub open spec fn bytes_value(bytes: Seq<u8>) -> nat
    decreases bytes.len(),
{
    if bytes.len() == 0 {
        0
    } else {
        bytes_value(bytes.drop_last()) * 256 + bytes.last() as nat
    }
}

/// The bytes of a number in a given width.
pub open spec fn width_bytes(number: nat, width: nat) -> Seq<u8>
    decreases width,
{
    if width == 0 {
        Seq::empty()
    } else {
        width_bytes(number / 256, (width - 1) as nat).push((number % 256) as u8)
    }
}

/// A byte string of some width holds a number below a power of two.
pub proof fn lemma_bytes_value_bound(bytes: Seq<u8>)
    ensures
        bytes_value(bytes) < pow2(8 * bytes.len()),
    decreases bytes.len(),
{
    lemma2_to64();
    if bytes.len() > 0 {
        lemma_bytes_value_bound(bytes.drop_last());
        lemma_pow2_adds(8 * bytes.drop_last().len(), 8);
        assert(8 * bytes.drop_last().len() + 8 == 8 * bytes.len());
        let before = bytes_value(bytes.drop_last());
        let bound = pow2(8 * bytes.drop_last().len());
        assert(bytes_value(bytes) < bound * 256) by (nonlinear_arith)
            requires
                bytes_value(bytes) == before * 256 + bytes.last() as nat,
                before < bound,
                bytes.last() < 256,
        ;
    }
}

/// The width of a number's bytes.
pub proof fn lemma_width(number: nat, width: nat)
    ensures
        width_bytes(number, width).len() == width,
    decreases width,
{
    if width > 0 {
        lemma_width(number / 256, (width - 1) as nat);
    }
}

/// A number that fits a width is what its bytes stand for.
pub proof fn width_bytes_round_trip(number: nat, width: nat)
    requires
        number < pow2(8 * width),
    ensures
        width_bytes(number, width).len() == width,
        bytes_value(width_bytes(number, width)) == number,
    decreases width,
{
    lemma2_to64();
    lemma_width(number, width);
    if width > 0 {
        let bound = pow2((8 * (width - 1)) as nat);
        lemma_pow2_adds((8 * (width - 1)) as nat, 8);
        assert(8 * (width - 1) + 8 == 8 * width);
        assert(number / 256 < bound) by (nonlinear_arith)
            requires
                number < bound * 256,
        ;
        width_bytes_round_trip(number / 256, (width - 1) as nat);
        let bytes = width_bytes(number, width);
        assert(bytes.drop_last() =~= width_bytes(number / 256, (width - 1) as nat));
    }
}

/// The first byte of a byte string counts most.
pub proof fn lemma_first_byte(bytes: Seq<u8>)
    requires
        bytes.len() > 0,
    ensures
        bytes_value(bytes) == bytes[0] as nat * pow2((8 * (bytes.len() - 1)) as nat) + bytes_value(
            bytes.drop_first(),
        ),
    decreases bytes.len(),
{
    lemma2_to64();
    if bytes.len() == 1 {
        assert(bytes.drop_last() =~= Seq::<u8>::empty());
        assert(bytes.drop_first() =~= Seq::<u8>::empty());
        assert(bytes[0] as nat * 1 == bytes[0] as nat);
        assert(bytes_value(bytes.drop_last()) == 0);
    } else {
        lemma_first_byte(bytes.drop_last());
        assert(bytes.drop_first().drop_last() =~= bytes.drop_last().drop_first());
        assert(bytes.drop_first().last() == bytes.last());
        let power = pow2((8 * (bytes.len() - 2)) as nat);
        lemma_pow2_adds((8 * (bytes.len() - 2)) as nat, 8);
        assert(8 * (bytes.len() - 2) + 8 == 8 * (bytes.len() - 1));
        let first = bytes[0] as nat;
        let middle = bytes_value(bytes.drop_first().drop_last());
        let last = bytes.last() as nat;
        assert((first * power + middle) * 256 + last == first * (power * 256) + (middle * 256
            + last)) by (nonlinear_arith);
    }
}

/// Leading zero bytes do not count.
proof fn lemma_leading_zeros(bytes: Seq<u8>, count: nat)
    requires
        count <= bytes.len(),
        forall|i: int| 0 <= i < count ==> bytes[i] == 0,
    ensures
        bytes_value(bytes) == bytes_value(bytes.skip(count as int)),
    decreases count,
{
    if count == 0 {
        assert(bytes.skip(0) =~= bytes);
    } else {
        lemma_first_byte(bytes);
        let rest = bytes.drop_first();
        assert forall|i: int| 0 <= i < count - 1 implies rest[i] == 0 by {
            assert(rest[i] == bytes[i + 1]);
        }
        lemma_leading_zeros(rest, (count - 1) as nat);
        assert(rest.skip(count - 1) =~= bytes.skip(count as int));
        assert(bytes[0] as nat * pow2((8 * (bytes.len() - 1)) as nat) == 0) by (nonlinear_arith)
            requires
                bytes[0] == 0,
        ;
    }
}

/// A leading byte that is not zero makes a number large.
proof fn lemma_leading_byte_counts(bytes: Seq<u8>, at: int)
    requires
        0 <= at < bytes.len(),
        bytes[at] != 0,
    ensures
        bytes_value(bytes) >= pow2((8 * (bytes.len() - 1 - at)) as nat),
    decreases at,
{
    lemma_first_byte(bytes);
    if at == 0 {
        let power = pow2((8 * (bytes.len() - 1)) as nat);
        assert(bytes[0] as nat * power >= power) by (nonlinear_arith)
            requires
                bytes[0] >= 1,
        ;
    } else {
        lemma_leading_byte_counts(bytes.drop_first(), at - 1);
    }
}

proof fn lemma_pow2_monotonic(low: nat, high: nat)
    requires
        low <= high,
    ensures
        pow2(low) <= pow2(high),
{
    if low < high {
        lemma_pow2_strictly_increases(low, high);
    }
}

/// Whether a byte string of a fixed width holds a number of a field's length.
pub open spec fn fits_field(bytes: Seq<u8>, field_length: nat) -> bool {
    0 < field_length <= 8 * bytes.len() && bytes_value(bytes) < pow2(field_length)
}

/// Returns whether a byte string of a fixed width holds a number of a field's
/// length.
pub fn binary_fits_field_length(bytes: &[u8], field_length: u64) -> (result: bool)
    ensures
        result == fits_field(bytes@, field_length as nat),
{
    let storage: u128 = bytes.len() as u128 * 8;
    if field_length == 0 || field_length as u128 > storage {
        return false;
    }
    let excess: u128 = storage - field_length as u128;
    let whole: usize = (excess / 8) as usize;
    let remaining: u8 = (excess % 8) as u8;
    let ghost count = bytes@.len();
    assert(whole <= count);
    let mut index: usize = 0;
    while index < whole
        invariant
            index <= whole <= bytes@.len(),
            count == bytes@.len(),
            excess == 8 * count - field_length,
            8 * whole <= excess,
            forall|i: int| 0 <= i < index ==> bytes@[i] == 0,
        decreases whole - index,
    {
        if bytes[index] != 0 {
            proof {
                lemma_leading_byte_counts(bytes@, index as int);
                lemma_pow2_monotonic(field_length as nat, (8 * (count - 1 - index)) as nat);
            }
            return false;
        }
        index += 1;
    }
    let ghost rest = bytes@.skip(whole as int);
    proof {
        lemma_leading_zeros(bytes@, whole as nat);
    }
    if remaining == 0 {
        proof {
            lemma_bytes_value_bound(rest);
            assert(8 * rest.len() == field_length);
        }
        return true;
    }
    let first: u8 = bytes[whole];
    let keep: u8 = 8 - remaining;
    let limit: u8 = 1u8 << keep;
    proof {
        assert(limit == 1u8 << keep && 1 <= keep <= 7 ==> limit >= 2 && limit <= 128) by (bit_vector)
            requires
                limit == 1u8 << keep,
        ;
        lemma2_to64();
        lemma_pow2_monotonic(keep as nat, 7);
        vstd::bits::lemma_u8_shl_is_mul(1, keep);
        assert(limit == pow2(keep as nat));
        lemma_first_byte(rest);
        assert(rest[0] == first);
        let power = pow2((8 * (rest.len() - 1)) as nat);
        lemma_bytes_value_bound(rest.drop_first());
        lemma_pow2_adds((8 * (rest.len() - 1)) as nat, keep as nat);
        assert(8 * (rest.len() - 1) + keep == field_length);
        let below = bytes_value(rest.drop_first());
        if first < limit {
            assert(first as nat * power + below < power * limit as nat) by (nonlinear_arith)
                requires
                    first + 1 <= limit,
                    below < power,
            ;
        } else {
            assert(first as nat * power + below >= power * limit as nat) by (nonlinear_arith)
                requires
                    first >= limit,
                    below >= 0,
            ;
        }
    }
    first < limit
}

/// Writes a number in the width of a byte string; what does not fit is cut.
pub fn number_in_width(number: u64, width: usize) -> (result: Vec<u8>)
    ensures
        result@ == width_bytes(number as nat, width as nat),
    decreases width,
{
    if width == 0 {
        let empty: Vec<u8> = Vec::new();
        assert(empty@ =~= width_bytes(number as nat, 0));
        return empty;
    }
    let mut bytes = number_in_width(number / 256, width - 1);
    bytes.push((number % 256) as u8);
    bytes
}

/// Returns the number that a short byte string stands for.
pub fn bytes_to_u64(bytes: &[u8]) -> (result: Option<u64>)
    ensures
        match result {
            Some(value) => bytes@.len() <= 8 && value == bytes_value(bytes@),
            None => bytes@.len() > 8,
        },
{
    if bytes.len() > 8 {
        return None;
    }
    let mut value: u64 = 0;
    let mut index: usize = 0;
    proof {
        assert(bytes@.take(0) =~= Seq::<u8>::empty());
    }
    while index < bytes.len()
        invariant
            index <= bytes@.len() <= 8,
            value == bytes_value(bytes@.take(index as int)),
        decreases bytes.len() - index,
    {
        proof {
            lemma2_to64();
            lemma_bytes_value_bound(bytes@.take(index as int));
            lemma_pow2_adds(32, 24);
            lemma_pow2_monotonic((8 * index) as nat, 56);
            assert(8 * bytes@.take(index as int).len() == 8 * index);
            assert(bytes@.take(index + 1).drop_last() =~= bytes@.take(index as int));
        }
        value = value * 256 + bytes[index] as u64;
        index += 1;
    }
    assert(bytes@.take(index as int) =~= bytes@);
    Some(value)
}

/// A byte string fits a field exactly when the field has at least one bit and
/// no more bits than the bytes, and the number of the bytes needs no more bits
/// than the field has.
pub proof fn bytes_fit_a_field_that_holds_their_number(bytes: Seq<u8>, field_length: nat)
    ensures
        field_length == 0 ==> !fits_field(bytes, field_length),
        field_length > 8 * bytes.len() ==> !fits_field(bytes, field_length),
        0 < field_length && field_length <= 8 * bytes.len() ==> (fits_field(bytes, field_length)
            <==> bytes_value(bytes) < pow2(field_length)),
{
}

} // verus!
