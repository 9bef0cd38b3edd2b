//! Canonical base64.

use vstd::prelude::*;

use crate::cbor::same_bytes;
use crate::error::{duplicate_fault, invalid_duplicate, Fault, InspectionError};

verus! {

/// The character of a six-bit digit.
pub open spec fn digit_byte(digit: nat) -> u8 {
    if digit < 26 {
        (65 + digit) as u8
    } else if digit < 52 {
        (71 + digit) as u8
    } else if digit < 62 {
        (digit - 4) as u8
    } else if digit == 62 {
        43
    } else {
        47
    }
}

/// The six-bit digit of a character.
pub open spec fn byte_digit(byte: u8) -> Option<nat> {
    if 65 <= byte <= 90 {
        Some((byte - 65) as nat)
    } else if 97 <= byte <= 122 {
        Some((byte - 71) as nat)
    } else if 48 <= byte <= 57 {
        Some((byte + 4) as nat)
    } else if byte == 43 {
        Some(62)
    } else if byte == 47 {
        Some(63)
    } else {
        None
    }
}

/// The padding character.
pub const PADDING: u8 = 61;

/// Four characters for up to three bytes.
pub open spec fn encoded_group(group: Seq<u8>) -> Seq<u8> {
    let first = group[0] as nat;
    let second = if group.len() > 1 {
        group[1] as nat
    } else {
        0
    };
    let third = if group.len() > 2 {
        group[2] as nat
    } else {
        0
    };
    seq![
        digit_byte(first / 4),
        digit_byte((first % 4) * 16 + second / 16),
        if group.len() > 1 {
            digit_byte((second % 16) * 4 + third / 64)
        } else {
            PADDING
        },
        if group.len() > 2 {
            digit_byte(third % 64)
        } else {
            PADDING
        },
    ]
}

/// The base64 text of some bytes.
pub open spec fn encoded(bytes: Seq<u8>) -> Seq<u8>
    decreases bytes.len(),
{
    if bytes.len() == 0 {
        Seq::empty()
    } else if bytes.len() <= 3 {
        encoded_group(bytes)
    } else {
        encoded_group(bytes.take(3)) + encoded(bytes.skip(3))
    }
}

/// Why four characters are refused.
pub open spec fn group_fault(group: Seq<u8>) -> Option<Fault> {
    if byte_digit(group[0]) is None || byte_digit(group[1]) is None {
        Some(duplicate_fault("ipatch-sequence contains invalid base64"@))
    } else if (group[2] != PADDING && byte_digit(group[2]) is None) || (group[3] != PADDING
        && byte_digit(group[3]) is None) || (group[2] == PADDING && group[3] != PADDING) {
        Some(duplicate_fault("ipatch-sequence contains invalid base64 padding"@))
    } else {
        None
    }
}

/// The digit of a character, where padding counts as nothing.
pub open spec fn padded_digit(byte: u8) -> nat {
    if byte == PADDING {
        0
    } else {
        byte_digit(byte)->0
    }
}

/// The bytes of four characters.
pub open spec fn decoded_group(group: Seq<u8>) -> Seq<u8> {
    let a = byte_digit(group[0])->0;
    let b = byte_digit(group[1])->0;
    let c = padded_digit(group[2]);
    let d = padded_digit(group[3]);
    let first = (a * 4 + b / 16) as u8;
    let second = ((b % 16) * 16 + c / 4) as u8;
    let third = ((c % 4) * 64 + d) as u8;
    if group[2] == PADDING {
        seq![first]
    } else if group[3] == PADDING {
        seq![first, second]
    } else {
        seq![first, second, third]
    }
}

/// The bytes of some text, group by group.
pub open spec fn decoded_groups(text: Seq<u8>) -> Result<Seq<u8>, Fault>
    decreases text.len(),
{
    if text.len() < 4 {
        Ok(Seq::empty())
    } else {
        let group = text.take(4);
        match group_fault(group) {
            Some(fault) => Err(fault),
            None => match decoded_groups(text.skip(4)) {
                Err(fault) => Err(fault),
                Ok(rest) => Ok(decoded_group(group) + rest),
            },
        }
    }
}

/// The bytes of a canonical base64 text.
pub open spec fn decoded(text: Seq<u8>) -> Result<Seq<u8>, Fault> {
    if text.len() % 4 != 0 {
        Err(duplicate_fault("ipatch-sequence is not canonical base64"@))
    } else {
        match decoded_groups(text) {
            Err(fault) => Err(fault),
            Ok(bytes) => if encoded(bytes) != text {
                Err(duplicate_fault("ipatch-sequence is not canonical base64"@))
            } else {
                Ok(bytes)
            },
        }
    }
}

fn to_character(digit: u8) -> (result: u8)
    requires
        digit < 64,
    ensures
        result == digit_byte(digit as nat),
{
    if digit < 26 {
        65 + digit
    } else if digit < 52 {
        71 + digit
    } else if digit < 62 {
        digit - 4
    } else if digit == 62 {
        43
    } else {
        47
    }
}

fn to_digit(byte: u8) -> (result: Option<u8>)
    ensures
        match result {
            Some(digit) => digit < 64 && byte_digit(byte) == Some(digit as nat),
            None => byte_digit(byte) is None,
        },
{
    if 65 <= byte && byte <= 90 {
        Some(byte - 65)
    } else if 97 <= byte && byte <= 122 {
        Some(byte - 71)
    } else if 48 <= byte && byte <= 57 {
        Some(byte + 4)
    } else if byte == 43 {
        Some(62)
    } else if byte == 47 {
        Some(63)
    } else {
        None
    }
}

proof fn lemma_encoded_step(bytes: Seq<u8>, done: int, group: Seq<u8>)
    requires
        0 <= done < bytes.len(),
        group == bytes.subrange(
            done,
            if done + 3 <= bytes.len() {
                done + 3
            } else {
                bytes.len() as int
            },
        ),
    ensures
        encoded(bytes.skip(done)) == encoded_group(group) + encoded(bytes.skip(done + group.len())),
{
    let rest = bytes.skip(done);
    if rest.len() <= 3 {
        assert(group =~= rest);
        assert(bytes.skip(done + group.len()) =~= Seq::<u8>::empty());
        assert(encoded_group(group) + Seq::<u8>::empty() =~= encoded_group(group));
    } else {
        assert(rest.take(3) =~= group);
        assert(rest.skip(3) =~= bytes.skip(done + 3));
    }
}

/// Returns the base64 text of some bytes.
pub fn base64_encode(bytes: &[u8]) -> (result: Vec<u8>)
    ensures
        result@ == encoded(bytes@),
{
    let mut output: Vec<u8> = Vec::new();
    let mut done: usize = 0;
    let count: usize = bytes.len();
    assert(bytes@.skip(0) =~= bytes@);
    assert(output@ + encoded(bytes@) =~= encoded(bytes@));
    while done < count
        invariant
            done <= count,
            count == bytes@.len(),
            output@ + encoded(bytes@.skip(done as int)) == encoded(bytes@),
        decreases count - done,
    {
        let size: usize = if count - done >= 3 {
            3
        } else {
            count - done
        };
        let ghost group = bytes@.subrange(done as int, done + size);
        let first: u8 = bytes[done];
        let second: u8 = if size > 1 {
            bytes[done + 1]
        } else {
            0
        };
        let third: u8 = if size > 2 {
            bytes[done + 2]
        } else {
            0
        };
        let ghost before = output@;
        output.push(to_character(first / 4));
        output.push(to_character((first % 4) * 16 + second / 16));
        output.push(
            if size > 1 {
                to_character((second % 16) * 4 + third / 64)
            } else {
                PADDING
            },
        );
        output.push(
            if size > 2 {
                to_character(third % 64)
            } else {
                PADDING
            },
        );
        proof {
            lemma_encoded_step(bytes@, done as int, group);
            assert(output@ =~= before + encoded_group(group));
            assert(output@ + encoded(bytes@.skip(done + size)) =~= before + (encoded_group(group)
                + encoded(bytes@.skip(done + size))));
        }
        done += size;
    }
    assert(bytes@.skip(done as int) =~= Seq::<u8>::empty());
    assert(output@ + Seq::<u8>::empty() =~= output@);
    output
}

fn padded(byte: u8) -> (result: Option<u8>)
    ensures
        match result {
            Some(digit) => digit < 64 && padded_digit(byte) == digit && (byte == PADDING
                || byte_digit(byte) is Some),
            None => byte != PADDING && byte_digit(byte) is None,
        },
{
    if byte == PADDING {
        Some(0)
    } else {
        to_digit(byte)
    }
}

fn decode_group(group: &[u8], output: &mut Vec<u8>) -> (result: Result<(), InspectionError>)
    requires
        group@.len() == 4,
    ensures
        match result {
            Ok(_) => group_fault(group@) is None && final(output)@ == old(output)@ + decoded_group(
                group@,
            ),
            Err(error) => group_fault(group@) == Some(error@),
        },
{
    let ghost before = output@;
    let (a, b) = match (to_digit(group[0]), to_digit(group[1])) {
        (Some(a), Some(b)) => (a, b),
        _ => {
            return Err(invalid_duplicate("ipatch-sequence contains invalid base64"));
        },
    };
    let (c, d) = match (padded(group[2]), padded(group[3])) {
        (Some(c), Some(d)) => (c, d),
        _ => {
            return Err(invalid_duplicate("ipatch-sequence contains invalid base64 padding"));
        },
    };
    if group[2] == PADDING && group[3] != PADDING {
        return Err(invalid_duplicate("ipatch-sequence contains invalid base64 padding"));
    }
    output.push(a * 4 + b / 16);
    if group[2] != PADDING {
        output.push((b % 16) * 16 + c / 4);
    }
    if group[3] != PADDING {
        output.push((c % 4) * 64 + d);
    }
    assert(output@ =~= before + decoded_group(group@));
    Ok(())
}

/// Returns the bytes of a canonical base64 text.
pub fn base64_decode(text: &[u8]) -> (result: Result<Vec<u8>, InspectionError>)
    ensures
        match result {
            Ok(bytes) => decoded(text@) == Ok::<Seq<u8>, Fault>(bytes@),
            Err(error) => decoded(text@) == Err::<Seq<u8>, Fault>(error@),
        },
{
    if text.len() % 4 != 0 {
        return Err(invalid_duplicate("ipatch-sequence is not canonical base64"));
    }
    let mut output: Vec<u8> = Vec::new();
    let mut done: usize = 0;
    let count: usize = text.len();
    let ghost whole = decoded_groups(text@);
    assert(text@.skip(0) =~= text@);
    proof {
        match whole {
            Ok(bytes) => {
                assert(output@ + bytes =~= bytes);
            },
            Err(_) => {},
        }
    }
    while done < count
        invariant
            done <= count,
            count == text@.len(),
            count % 4 == 0,
            done % 4 == 0,
            whole == decoded_groups(text@),
            match decoded_groups(text@.skip(done as int)) {
                Ok(rest) => whole == Ok::<Seq<u8>, Fault>(output@ + rest),
                Err(fault) => whole == Err::<Seq<u8>, Fault>(fault),
            },
        decreases count - done,
    {
        let ghost rest = text@.skip(done as int);
        let ghost before = output@;
        let group: Vec<u8> = vec![text[done], text[done + 1], text[done + 2], text[done + 3]];
        proof {
            assert(rest.take(4) =~= group@);
            assert(rest.skip(4) =~= text@.skip(done + 4));
        }
        decode_group(group.as_slice(), &mut output)?;
        proof {
            match decoded_groups(text@.skip(done + 4)) {
                Ok(more) => {
                    assert(output@ + more =~= before + (decoded_group(group@) + more));
                },
                Err(_) => {},
            }
        }
        done += 4;
    }
    assert(text@.skip(done as int) =~= Seq::<u8>::empty());
    assert(output@ + Seq::<u8>::empty() =~= output@);
    let again = base64_encode(output.as_slice());
    if !same_bytes(again.as_slice(), text) {
        return Err(invalid_duplicate("ipatch-sequence is not canonical base64"));
    }
    Ok(output)
}

proof fn lemma_digit_round_trip(digit: nat)
    requires
        digit < 64,
    ensures
        byte_digit(digit_byte(digit)) == Some(digit),
        digit_byte(digit) != PADDING,
{
}

proof fn lemma_group_round_trip(group: Seq<u8>)
    requires
        1 <= group.len() <= 3,
    ensures
        encoded_group(group).len() == 4,
        group_fault(encoded_group(group)) is None,
        decoded_group(encoded_group(group)) == group,
{
    let first = group[0] as nat;
    let second = if group.len() > 1 {
        group[1] as nat
    } else {
        0
    };
    let third = if group.len() > 2 {
        group[2] as nat
    } else {
        0
    };
    lemma_digit_round_trip(first / 4);
    lemma_digit_round_trip((first % 4) * 16 + second / 16);
    lemma_digit_round_trip((second % 16) * 4 + third / 64);
    lemma_digit_round_trip(third % 64);
    assert(((first % 4) * 16 + second / 16) / 16 == first % 4);
    assert(((first % 4) * 16 + second / 16) % 16 == second / 16);
    assert(((second % 16) * 4 + third / 64) / 4 == second % 16);
    assert(((second % 16) * 4 + third / 64) % 4 == third / 64);
    assert(decoded_group(encoded_group(group)) =~= group);
}

proof fn lemma_groups_round_trip(bytes: Seq<u8>)
    ensures
        encoded(bytes).len() % 4 == 0,
        decoded_groups(encoded(bytes)) == Ok::<Seq<u8>, Fault>(bytes),
    decreases bytes.len(),
{
    if bytes.len() == 0 {
        assert(bytes =~= Seq::<u8>::empty());
    } else if bytes.len() <= 3 {
        lemma_group_round_trip(bytes);
        let text = encoded(bytes);
        assert(text.take(4) =~= text);
        assert(text.skip(4) =~= Seq::<u8>::empty());
        assert(decoded_groups(text.skip(4)) == Ok::<Seq<u8>, Fault>(Seq::<u8>::empty()));
        assert(bytes + Seq::<u8>::empty() =~= bytes);
    } else {
        let group = bytes.take(3);
        lemma_group_round_trip(group);
        lemma_groups_round_trip(bytes.skip(3));
        let text = encoded(bytes);
        assert(text.take(4) =~= encoded_group(group));
        assert(text.skip(4) =~= encoded(bytes.skip(3)));
        assert(group + bytes.skip(3) =~= bytes);
    }
}

/// Decoding gives back what was encoded, and accepts no text but the one that
/// encoding gives.
pub proof fn base64_round_trip(bytes: Seq<u8>, text: Seq<u8>)
    ensures
        decoded(text) == Ok::<Seq<u8>, Fault>(bytes) <==> text == encoded(bytes),
{
    lemma_groups_round_trip(bytes);
}

/// The digits of base64 are the capital letters, the small letters, the figures,
/// plus and slash, in this order, and a character stands for its own digit.
pub proof fn digits_are_letters_figures_plus_and_slash(digit: nat)
    requires
        digit < 64,
    ensures
        digit < 26 ==> digit_byte(digit) as int == 'A' as int + digit,
        26 <= digit < 52 ==> digit_byte(digit) as int == 'a' as int + digit - 26,
        52 <= digit < 62 ==> digit_byte(digit) as int == '0' as int + digit - 52,
        digit == 62 ==> digit_byte(digit) as int == '+' as int,
        digit == 63 ==> digit_byte(digit) as int == '/' as int,
        byte_digit(digit_byte(digit)) == Some(digit),
        PADDING as int == '=' as int,
        byte_digit(PADDING) is None,
{
}

/// Four characters hold the twenty-four bits of three bytes, six bits each with
/// the highest first; a shorter group is padded at its end.
pub proof fn four_characters_hold_three_bytes(group: Seq<u8>)
    requires
        0 < group.len() <= 3,
    ensures
        ({
            let text = encoded_group(group);
            let a = byte_digit(text[0])->0;
            let b = byte_digit(text[1])->0;
            let c = byte_digit(text[2])->0;
            let d = byte_digit(text[3])->0;
            &&& text.len() == 4
            &&& byte_digit(text[0]) is Some && byte_digit(text[1]) is Some
            &&& group.len() == 3 ==> byte_digit(text[2]) is Some && byte_digit(text[3]) is Some && a
                * 262144 + b * 4096 + c * 64 + d == group[0] * 65536 + group[1] * 256 + group[2]
            &&& group.len() == 2 ==> byte_digit(text[2]) is Some && text[3] == 61 && a * 4096 + b
                * 64 + c == (group[0] * 256 + group[1]) * 4
            &&& group.len() == 1 ==> text[2] == 61 && text[3] == 61 && a * 64 + b == group[0] * 16
        }),
{
    let first = group[0] as nat;
    let second = if group.len() > 1 {
        group[1] as nat
    } else {
        0
    };
    let third = if group.len() > 2 {
        group[2] as nat
    } else {
        0
    };
    digits_are_letters_figures_plus_and_slash(first / 4);
    digits_are_letters_figures_plus_and_slash((first % 4) * 16 + second / 16);
    digits_are_letters_figures_plus_and_slash((second % 16) * 4 + third / 64);
    digits_are_letters_figures_plus_and_slash(third % 64);
}

/// The text of some bytes is that of their first three, followed by the text of
/// the rest.
pub proof fn text_is_built_from_groups_of_three(bytes: Seq<u8>)
    ensures
        bytes.len() == 0 ==> encoded(bytes).len() == 0,
        0 < bytes.len() <= 3 ==> encoded(bytes) == encoded_group(bytes),
        bytes.len() > 3 ==> encoded(bytes) == encoded_group(bytes.take(3)) + encoded(bytes.skip(3)),
{
}

} // verus!
