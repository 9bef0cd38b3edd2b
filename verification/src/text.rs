//! Text as sequences of characters: decimal numerals, words, trimming and
//! searching, each stated over the characters that a string holds.

use vstd::prelude::*;
use vstd::string::*;

verus! {

/// `String::push` appends one character to the end of the string.
pub assume_specification[ String::push ](text: &mut String, character: char)
    ensures
        final(text)@ == old(text)@.push(character),
;

/// The decimal digit for a value below ten.
pub open spec fn digit_char(value: nat) -> char {
    (48 + value) as char
}

/// Whether a character is an ASCII decimal digit.
pub open spec fn is_digit(character: char) -> bool {
    '0' <= character && character <= '9'
}

/// The decimal numeral of a number, without leading zeros.
pub open spec fn decimal(value: nat) -> Seq<char>
    decreases value,
{
    if value < 10 {
        seq![digit_char(value)]
    } else {
        decimal(value / 10).push(digit_char(value % 10))
    }
}

/// Whether every character is an ASCII decimal digit.
pub open spec fn all_digits(text: Seq<char>) -> bool {
    forall|i: int| 0 <= i < text.len() ==> is_digit(#[trigger] text[i])
}

/// The number that a sequence of decimal digits denotes.
pub open spec fn decimal_value(text: Seq<char>) -> nat
    decreases text.len(),
{
    if text.len() == 0 {
        0
    } else {
        decimal_value(text.drop_last()) * 10 + (text.last() as nat - 48) as nat
    }
}

/// The Unicode `White_Space` characters.
pub open spec fn is_white(character: char) -> bool {
    let code = character as u32;
    ||| 0x9 <= code <= 0xd
    ||| code == 0x20
    ||| code == 0x85
    ||| code == 0xa0
    ||| code == 0x1680
    ||| 0x2000 <= code <= 0x200a
    ||| code == 0x2028
    ||| code == 0x2029
    ||| code == 0x202f
    ||| code == 0x205f
    ||| code == 0x3000
}

/// The control characters of the Unicode general category `Cc`.
pub open spec fn is_control(character: char) -> bool {
    let code = character as u32;
    code <= 0x1f || 0x7f <= code <= 0x9f
}

/// Returns whether a character is an ASCII decimal digit.
pub fn digit(character: char) -> (result: bool)
    ensures
        result == is_digit(character),
{
    '0' <= character && character <= '9'
}

/// Returns whether a character is Unicode white space.
pub fn white(character: char) -> (result: bool)
    ensures
        result == is_white(character),
{
    let code: u32 = character as u32;
    (0x9 <= code && code <= 0xd) || code == 0x20 || code == 0x85 || code == 0xa0 || code == 0x1680
        || (0x2000 <= code && code <= 0x200a) || code == 0x2028 || code == 0x2029 || code == 0x202f
        || code == 0x205f || code == 0x3000
}

/// Returns whether a character is a control character.
pub fn control(character: char) -> (result: bool)
    ensures
        result == is_control(character),
{
    let code: u32 = character as u32;
    code <= 0x1f || (0x7f <= code && code <= 0x9f)
}

/// Writes a number as its decimal numeral.
pub fn decimal_string(value: u64) -> (result: String)
    ensures
        result@ == decimal(value as nat),
    decreases value,
{
    let mut result = if value < 10 {
        String::new()
    } else {
        decimal_string(value / 10)
    };
    let low: u8 = (value % 10) as u8;
    result.push((48u8 + low) as char);
    assert(decimal(value as nat) =~= result@);
    result
}

/// Returns the characters of a string.
pub fn chars_of(text: &str) -> (result: Vec<char>)
    ensures
        result@ == text@,
{
    let mut result: Vec<char> = Vec::new();
    for character in walk: text.chars()
        invariant
            result@ == walk.seq().take(walk.index() as int),
            walk.seq() == text@,
    {
        result.push(character);
        assert(result@ =~= walk.seq().take(walk.index() + 1));
    }
    assert(text@.take(text@.len() as int) =~= text@);
    result
}

/// Returns the string made of some characters.
pub fn string_of(characters: &[char]) -> (result: String)
    ensures
        result@ == characters@,
{
    let mut result = String::new();
    let mut index: usize = 0;
    while index < characters.len()
        invariant
            index <= characters.len(),
            result@ == characters@.take(index as int),
        decreases characters.len() - index,
    {
        result.push(characters[index]);
        assert(characters@.take(index + 1) =~= characters@.take(index as int).push(characters@[index as int]));
        index += 1;
    }
    assert(characters@.take(characters@.len() as int) =~= characters@);
    result
}

/// Returns whether two texts hold the same characters.
pub fn same_text(left: &str, right: &str) -> (result: bool)
    ensures
        result == (left@ == right@),
{
    left.to_owned() == right.to_owned()
}

/// A text without its leading white space.
pub open spec fn skip_white(text: Seq<char>) -> Seq<char>
    decreases text.len(),
{
    if text.len() > 0 && is_white(text[0]) {
        skip_white(text.drop_first())
    } else {
        text
    }
}

/// A text without its trailing white space.
pub open spec fn drop_white(text: Seq<char>) -> Seq<char>
    decreases text.len(),
{
    if text.len() > 0 && is_white(text.last()) {
        drop_white(text.drop_last())
    } else {
        text
    }
}

/// A text without its leading and trailing white space.
pub open spec fn trimmed(text: Seq<char>) -> Seq<char> {
    drop_white(skip_white(text))
}

/// The number of characters in front of the first white space.
pub open spec fn word_len(text: Seq<char>) -> nat
    decreases text.len(),
{
    if text.len() == 0 || is_white(text[0]) {
        0
    } else {
        1 + word_len(text.drop_first())
    }
}

/// The maximal runs of characters that are not white space, in order.
pub open spec fn words(text: Seq<char>) -> Seq<Seq<char>>
    decreases text.len(),
{
    let rest = skip_white(text);
    if rest.len() == 0 {
        Seq::empty()
    } else {
        proof {
            lemma_skip_white(text);
            lemma_word_len(rest);
            assert(word_len(rest) >= 1);
        }
        seq![rest.take(word_len(rest) as int)] + words(rest.skip(word_len(rest) as int))
    }
}

/// `skip_white` removes exactly the leading white space.
pub proof fn lemma_skip_white(text: Seq<char>)
    ensures
        skip_white(text).len() <= text.len(),
        skip_white(text).len() > 0 ==> !is_white(skip_white(text)[0]),
        skip_white(text) == text.skip(text.len() - skip_white(text).len()),
    decreases text.len(),
{
    if text.len() > 0 && is_white(text[0]) {
        lemma_skip_white(text.drop_first());
        let rest = skip_white(text);
        assert(text.drop_first().skip(text.len() - 1 - rest.len()) =~= text.skip(
            text.len() - rest.len(),
        ));
    } else {
        assert(text.skip(0) =~= text);
    }
}

/// `word_len` counts exactly the characters in front of the first white space.
pub proof fn lemma_word_len(text: Seq<char>)
    ensures
        word_len(text) <= text.len(),
        word_len(text) < text.len() ==> is_white(text[word_len(text) as int]),
        forall|i: int| 0 <= i < word_len(text) ==> !is_white(#[trigger] text[i]),
    decreases text.len(),
{
    if text.len() > 0 && !is_white(text[0]) {
        lemma_word_len(text.drop_first());
        assert forall|i: int| 0 <= i < word_len(text) implies !is_white(#[trigger] text[i]) by {
            if i > 0 {
                assert(text[i] == text.drop_first()[i - 1]);
            }
        }
    }
}

/// Every word is non-empty and holds no white space.
pub proof fn words_are_solid(text: Seq<char>)
    ensures
        forall|i: int| #![trigger words(text)[i]]
            0 <= i < words(text).len() ==> words(text)[i].len() > 0 && (forall|j: int|
                0 <= j < words(text)[i].len() ==> !is_white(#[trigger] words(text)[i][j])),
    decreases text.len(),
{
    let rest = skip_white(text);
    lemma_skip_white(text);
    lemma_word_len(rest);
    if rest.len() > 0 {
        let count = word_len(rest) as int;
        words_are_solid(rest.skip(count));
        assert forall|i: int| #![trigger words(text)[i]]
            0 <= i < words(text).len() implies words(text)[i].len() > 0 && (forall|j: int|
            0 <= j < words(text)[i].len() ==> !is_white(#[trigger] words(text)[i][j])) by {
            if i == 0 {
                assert(words(text)[0] == rest.take(count));
                assert forall|j: int| 0 <= j < count implies !is_white(
                    #[trigger] rest.take(count)[j],
                ) by {
                    assert(rest.take(count)[j] == rest[j]);
                }
            } else {
                assert(words(text)[i] == words(rest.skip(count))[i - 1]);
            }
        }
    }
}

proof fn lemma_word_len_at(text: Seq<char>, count: int)
    requires
        0 <= count <= text.len(),
        forall|i: int| 0 <= i < count ==> !is_white(#[trigger] text[i]),
        count < text.len() ==> is_white(text[count]),
    ensures
        word_len(text) == count,
    decreases text.len(),
{
    if count > 0 {
        assert(!is_white(text[0]));
        assert forall|i: int| 0 <= i < count - 1 implies !is_white(
            #[trigger] text.drop_first()[i],
        ) by {
            assert(text.drop_first()[i] == text[i + 1]);
        }
        lemma_word_len_at(text.drop_first(), count - 1);
    }
}

proof fn lemma_skip_white_at(text: Seq<char>, count: int)
    requires
        0 <= count <= text.len(),
        forall|i: int| 0 <= i < count ==> is_white(#[trigger] text[i]),
        count < text.len() ==> !is_white(text[count]),
    ensures
        skip_white(text) == text.skip(count),
    decreases text.len(),
{
    if count > 0 {
        assert(is_white(text[0]));
        assert forall|i: int| 0 <= i < count - 1 implies is_white(
            #[trigger] text.drop_first()[i],
        ) by {
            assert(text.drop_first()[i] == text[i + 1]);
        }
        lemma_skip_white_at(text.drop_first(), count - 1);
        assert(text.drop_first().skip(count - 1) =~= text.skip(count));
    } else {
        assert(text.skip(0) =~= text);
    }
}

/// Whether a text is not empty and holds no white space.
pub open spec fn is_word(text: Seq<char>) -> bool {
    text.len() > 0 && forall|i: int| 0 <= i < text.len() ==> !is_white(#[trigger] text[i])
}

/// Whether a text holds nothing but white space.
pub open spec fn is_gap(text: Seq<char>) -> bool {
    forall|i: int| 0 <= i < text.len() ==> is_white(#[trigger] text[i])
}

/// Whether words can be written with these gaps: one in front of each word and
/// one at the end, with white space between two words.
pub open spec fn is_spacing(list: Seq<Seq<char>>, gaps: Seq<Seq<char>>) -> bool {
    &&& gaps.len() == list.len() + 1
    &&& forall|i: int| 0 <= i < list.len() ==> is_word(#[trigger] list[i])
    &&& forall|i: int| 0 <= i < gaps.len() ==> is_gap(#[trigger] gaps[i])
    &&& forall|i: int| 0 < i < list.len() ==> (#[trigger] gaps[i]).len() > 0
}

/// The text that writes words with gaps around them.
pub open spec fn spaced(list: Seq<Seq<char>>, gaps: Seq<Seq<char>>) -> Seq<char>
    decreases list.len(),
{
    if list.len() == 0 {
        gaps[0]
    } else {
        gaps[0] + list[0] + spaced(list.drop_first(), gaps.drop_first())
    }
}

/// The words of a text are those it was written with, whatever white space
/// stands around them.
pub proof fn spacing_keeps_the_words(list: Seq<Seq<char>>, gaps: Seq<Seq<char>>)
    requires
        is_spacing(list, gaps),
    ensures
        words(spaced(list, gaps)) == list,
    decreases list.len(),
{
    let text = spaced(list, gaps);
    assert(is_gap(gaps[0]));
    if list.len() == 0 {
        lemma_skip_white_at(text, text.len() as int);
        assert(list =~= Seq::empty());
    } else {
        let (rest, others) = (list.drop_first(), gaps.drop_first());
        assert forall|i: int| 0 <= i < rest.len() implies is_word(#[trigger] rest[i]) by {
            assert(rest[i] == list[i + 1]);
        }
        assert forall|i: int| 0 <= i < others.len() implies is_gap(#[trigger] others[i]) by {
            assert(others[i] == gaps[i + 1]);
        }
        assert forall|i: int| 0 < i < rest.len() implies (#[trigger] others[i]).len() > 0 by {
            assert(others[i] == gaps[i + 1]);
        }
        spacing_keeps_the_words(rest, others);
        let tail = spaced(rest, others);
        let (gap, word) = (gaps[0].len() as int, list[0].len() as int);
        assert(is_word(list[0]));
        assert forall|i: int| 0 <= i < gap implies is_white(#[trigger] text[i]) by {
            assert(text[i] == gaps[0][i]);
        }
        assert(text[gap] == list[0][0]);
        lemma_skip_white_at(text, gap);
        let shown = text.skip(gap);
        assert(shown =~= list[0] + tail);
        assert forall|i: int| 0 <= i < word implies !is_white(#[trigger] shown[i]) by {
            assert(shown[i] == list[0][i]);
        }
        if word < shown.len() {
            assert(shown[word] == tail[0]);
            assert(others[0] == gaps[1]);
            assert(is_gap(others[0]));
            assert(others[0].len() > 0);
            assert(tail[0] == others[0][0]);
        }
        lemma_word_len_at(shown, word);
        assert(shown.take(word) =~= list[0]);
        assert(shown.skip(word) =~= tail);
        assert(seq![list[0]] + rest =~= list);
    }
}

/// Copies the characters from one position up to another.
pub fn slice_chars(text: &[char], from: usize, to: usize) -> (result: Vec<char>)
    requires
        from <= to <= text.len(),
    ensures
        result@ == text@.subrange(from as int, to as int),
{
    let mut result: Vec<char> = Vec::new();
    let mut index: usize = from;
    while index < to
        invariant
            from <= index <= to <= text.len(),
            result@ == text@.subrange(from as int, index as int),
        decreases to - index,
    {
        result.push(text[index]);
        assert(text@.subrange(from as int, index + 1) =~= text@.subrange(
            from as int,
            index as int,
        ).push(text@[index as int]));
        index += 1;
    }
    result
}

/// The characters of every string in a list.
pub open spec fn chars_view(list: Seq<Vec<char>>) -> Seq<Seq<char>> {
    Seq::new(list.len(), |i: int| list[i]@)
}

/// Splits a text at its white space.
pub fn split_words(text: &[char]) -> (result: Vec<Vec<char>>)
    ensures
        chars_view(result@) == words(text@),
{
    let mut result: Vec<Vec<char>> = Vec::new();
    let mut index: usize = 0;
    proof {
        assert(text@.skip(0) =~= text@);
        assert(chars_view(result@) + words(text@) =~= words(text@));
    }
    while index < text.len()
        invariant
            index <= text.len(),
            chars_view(result@) + words(text@.skip(index as int)) == words(text@),
        decreases text.len() - index,
    {
        let ghost start = index as int;
        let ghost tail = text@.skip(start);
        while index < text.len() && white(text[index])
            invariant
                0 <= start <= index <= text.len(),
                tail == text@.skip(start),
                forall|i: int| 0 <= i < index - start ==> is_white(#[trigger] tail[i]),
            decreases text.len() - index,
        {
            assert(tail[index - start] == text@[index as int]);
            index += 1;
        }
        proof {
            if index < text.len() {
                assert(tail[index - start] == text@[index as int]);
            }
            lemma_skip_white_at(tail, index - start);
            assert(tail.skip(index - start) =~= text@.skip(index as int));
        }
        let begin: usize = index;
        let ghost rest = text@.skip(begin as int);
        while index < text.len() && !white(text[index])
            invariant
                begin <= index <= text.len(),
                rest == text@.skip(begin as int),
                forall|i: int| 0 <= i < index - begin ==> !is_white(#[trigger] rest[i]),
            decreases text.len() - index,
        {
            assert(rest[index - begin] == text@[index as int]);
            index += 1;
        }
        proof {
            if index < text.len() {
                assert(rest[index - begin] == text@[index as int]);
            }
            lemma_word_len_at(rest, index - begin);
            lemma_skip_white(tail);
        }
        if index > begin {
            let ghost before = result@;
            result.push(slice_chars(text, begin, index));
            proof {
                assert(rest.take(index - begin) =~= text@.subrange(begin as int, index as int));
                assert(rest.skip(index - begin) =~= text@.skip(index as int));
                assert(chars_view(result@) =~= chars_view(before).push(
                    text@.subrange(begin as int, index as int),
                ));
                assert(words(tail) == seq![rest.take(index - begin)] + words(
                    text@.skip(index as int),
                ));
                assert(chars_view(before) + words(tail) =~= chars_view(result@) + words(
                    text@.skip(index as int),
                ));
            }
        } else {
            assert(rest.len() == 0);
            assert(words(tail) =~= words(text@.skip(index as int)));
        }
    }
    assert(words(text@.skip(text@.len() as int)) =~= Seq::<Seq<char>>::empty());
    assert(chars_view(result@) =~= words(text@));
    result
}

proof fn lemma_drop_white_at(text: Seq<char>, count: int)
    requires
        0 <= count <= text.len(),
        forall|i: int| count <= i < text.len() ==> is_white(#[trigger] text[i]),
        count > 0 ==> !is_white(text[count - 1]),
    ensures
        drop_white(text) == text.take(count),
    decreases text.len(),
{
    if count < text.len() {
        assert(is_white(text[text.len() - 1]));
        lemma_drop_white_at(text.drop_last(), count);
        assert(text.drop_last().take(count) =~= text.take(count));
    } else {
        assert(text.take(count) =~= text);
    }
}

/// Removes leading and trailing white space.
pub fn trim_chars(text: &[char]) -> (result: Vec<char>)
    ensures
        result@ == trimmed(text@),
{
    let mut begin: usize = 0;
    while begin < text.len() && white(text[begin])
        invariant
            begin <= text.len(),
            forall|i: int| 0 <= i < begin ==> is_white(#[trigger] text@[i]),
        decreases text.len() - begin,
    {
        begin += 1;
    }
    let mut end: usize = text.len();
    while end > begin && white(text[end - 1])
        invariant
            begin <= end <= text.len(),
            forall|i: int| end <= i < text.len() ==> is_white(#[trigger] text@[i]),
        decreases end,
    {
        end -= 1;
    }
    proof {
        lemma_skip_white_at(text@, begin as int);
        let rest = text@.skip(begin as int);
        assert forall|i: int| end - begin <= i < rest.len() implies is_white(
            #[trigger] rest[i],
        ) by {
            assert(rest[i] == text@[i + begin]);
        }
        if end > begin {
            assert(rest[end - begin - 1] == text@[end - 1]);
        }
        lemma_drop_white_at(rest, end - begin);
        assert(rest.take(end - begin) =~= text@.subrange(begin as int, end as int));
    }
    slice_chars(text, begin, end)
}

/// The number of characters in front of the first occurrence of a character.
pub open spec fn find_char(text: Seq<char>, wanted: char) -> nat
    decreases text.len(),
{
    if text.len() == 0 || text[0] == wanted {
        0
    } else {
        1 + find_char(text.drop_first(), wanted)
    }
}

proof fn lemma_find_char_at(text: Seq<char>, wanted: char, count: int)
    requires
        0 <= count <= text.len(),
        forall|i: int| 0 <= i < count ==> #[trigger] text[i] != wanted,
        count < text.len() ==> text[count] == wanted,
    ensures
        find_char(text, wanted) == count,
    decreases text.len(),
{
    if count > 0 {
        assert(text[0] != wanted);
        assert forall|i: int| 0 <= i < count - 1 implies #[trigger] text.drop_first()[i]
            != wanted by {
            assert(text.drop_first()[i] == text[i + 1]);
        }
        lemma_find_char_at(text.drop_first(), wanted, count - 1);
    }
}

/// `find_char` stops at the first occurrence and not before it.
pub proof fn lemma_find_char(text: Seq<char>, wanted: char)
    ensures
        find_char(text, wanted) <= text.len(),
        find_char(text, wanted) < text.len() ==> text[find_char(text, wanted) as int] == wanted,
        forall|i: int| 0 <= i < find_char(text, wanted) ==> #[trigger] text[i] != wanted,
        find_char(text, wanted) < text.len() <==> text.contains(wanted),
    decreases text.len(),
{
    if text.len() > 0 && text[0] != wanted {
        lemma_find_char(text.drop_first(), wanted);
        let at = find_char(text, wanted);
        assert forall|i: int| 0 <= i < at implies #[trigger] text[i] != wanted by {
            if i > 0 {
                assert(text[i] == text.drop_first()[i - 1]);
            }
        }
        if text.contains(wanted) {
            let i = choose|i: int| 0 <= i < text.len() && text[i] == wanted;
            assert(text.drop_first()[i - 1] == wanted);
        }
        if at < text.len() {
            assert(text[at as int] == text.drop_first()[at - 1]);
        }
    } else if text.len() > 0 {
        assert(text[0] == wanted);
    }
}

/// Finds the first occurrence of a character; the length when there is none.
pub fn position_of(text: &[char], wanted: char) -> (result: usize)
    ensures
        result == find_char(text@, wanted),
        result <= text.len(),
{
    let mut index: usize = 0;
    while index < text.len() && text[index] != wanted
        invariant
            index <= text.len(),
            forall|i: int| 0 <= i < index ==> #[trigger] text@[i] != wanted,
        decreases text.len() - index,
    {
        index += 1;
    }
    proof {
        lemma_find_char_at(text@, wanted, index as int);
    }
    index
}

/// Returns whether every character is a decimal digit.
pub fn digits_only(text: &[char]) -> (result: bool)
    ensures
        result == all_digits(text@),
{
    let mut index: usize = 0;
    while index < text.len()
        invariant
            index <= text.len(),
            forall|i: int| 0 <= i < index ==> is_digit(#[trigger] text@[i]),
        decreases text.len() - index,
    {
        if !digit(text[index]) {
            assert(!is_digit(text@[index as int]));
            return false;
        }
        index += 1;
    }
    true
}

proof fn lemma_decimal_value_grows(text: Seq<char>, count: int)
    requires
        0 <= count <= text.len(),
        all_digits(text),
    ensures
        decimal_value(text.take(count)) <= decimal_value(text),
    decreases text.len(),
{
    if count < text.len() {
        assert(text.drop_last().take(count) =~= text.take(count));
        assert(is_digit(text[text.len() - 1]));
        assert forall|i: int| 0 <= i < text.drop_last().len() implies is_digit(
            #[trigger] text.drop_last()[i],
        ) by {
            assert(text.drop_last()[i] == text[i]);
        }
        lemma_decimal_value_grows(text.drop_last(), count);
    } else {
        assert(text.take(count) =~= text);
    }
}

/// Reads a decimal numeral, unless its value exceeds 64 bits.
pub fn parse_decimal(text: &[char]) -> (result: Option<u64>)
    requires
        all_digits(text@),
    ensures
        result is Some <==> decimal_value(text@) <= u64::MAX,
        result matches Some(value) ==> value == decimal_value(text@),
{
    let mut value: u64 = 0;
    let mut index: usize = 0;
    while index < text.len()
        invariant
            index <= text.len(),
            all_digits(text@),
            value == decimal_value(text@.take(index as int)),
        decreases text.len() - index,
    {
        assert(is_digit(text@[index as int]));
        let low: u64 = (text[index] as u32 - 48) as u64;
        proof {
            assert(text@.take(index + 1).drop_last() =~= text@.take(index as int));
            lemma_decimal_value_grows(text@, index + 1);
        }
        if value > (u64::MAX - low) / 10 {
            return None;
        }
        value = value * 10 + low;
        index += 1;
    }
    assert(text@.take(text@.len() as int) =~= text@);
    Some(value)
}

/// Reading back a decimal numeral gives the number that was written.
pub proof fn lemma_decimal_round_trip(value: nat)
    ensures
        all_digits(decimal(value)),
        decimal(value).len() > 0,
        decimal_value(decimal(value)) == value,
    decreases value,
{
    if value < 10 {
        assert(decimal(value).drop_last() =~= Seq::<char>::empty());
        assert(decimal_value(Seq::<char>::empty()) == 0);
    } else {
        lemma_decimal_round_trip(value / 10);
        assert(decimal(value).drop_last() =~= decimal(value / 10));
        assert forall|i: int| 0 <= i < decimal(value).len() implies is_digit(
            #[trigger] decimal(value)[i],
        ) by {
            if i < decimal(value / 10).len() {
                assert(decimal(value)[i] == decimal(value / 10)[i]);
            }
        }
    }
}

/// Two texts, one after the other.
pub fn join(left: &str, right: &str) -> (result: String)
    ensures
        result@ == left@ + right@,
{
    let mut result = left.to_owned();
    result.append(right);
    result
}

/// Three texts, one after the other.
pub fn join3(first: &str, second: &str, third: &str) -> (result: String)
    ensures
        result@ == first@ + second@ + third@,
{
    let mut result = join(first, second);
    result.append(third);
    result
}

/// A text that neither starts nor ends with white space is left unchanged.
pub proof fn lemma_trimmed_solid(text: Seq<char>)
    requires
        text.len() > 0,
        !is_white(text[0]),
        !is_white(text.last()),
    ensures
        trimmed(text) == text,
{
}

/// The first occurrence of a character that follows a part without it.
pub proof fn lemma_find_char_after(left: Seq<char>, wanted: char, right: Seq<char>)
    requires
        !left.contains(wanted),
    ensures
        find_char(left + seq![wanted] + right, wanted) == left.len(),
{
    let whole = left + seq![wanted] + right;
    assert forall|i: int| 0 <= i < left.len() implies #[trigger] whole[i] != wanted by {
        assert(whole[i] == left[i]);
    }
    lemma_find_char_at(whole, wanted, left.len() as int);
}

/// The decimal numeral of a signed number.
pub open spec fn signed_decimal(value: int) -> Seq<char> {
    if value < 0 {
        "-"@ + decimal((-value) as nat)
    } else {
        decimal(value as nat)
    }
}

/// Writes a signed number as its decimal numeral.
pub fn signed_string(value: i64) -> (result: String)
    ensures
        result@ == signed_decimal(value as int),
{
    if value < 0 {
        let magnitude: u64 = (-(value as i128)) as u64;
        join("-", decimal_string(magnitude).as_str())
    } else {
        decimal_string(value as u64)
    }
}

/// The lowercase hexadecimal digit for a value below sixteen.
pub open spec fn hex_char(value: nat) -> char {
    if value < 10 {
        (48 + value) as char
    } else {
        (87 + value) as char
    }
}

/// The two lowercase hexadecimal digits of every byte.
pub open spec fn hex_digits(bytes: Seq<u8>) -> Seq<char>
    decreases bytes.len(),
{
    if bytes.len() == 0 {
        Seq::empty()
    } else {
        hex_digits(bytes.drop_last()).push(hex_char(bytes.last() as nat / 16)).push(
            hex_char(bytes.last() as nat % 16),
        )
    }
}

fn hex_digit(value: u8) -> (result: char)
    requires
        value < 16,
    ensures
        result == hex_char(value as nat),
{
    if value < 10 {
        (48u8 + value) as char
    } else {
        (87u8 + value) as char
    }
}

/// Writes bytes as lowercase hexadecimal digits.
pub fn hex_string(bytes: &[u8]) -> (result: String)
    ensures
        result@ == hex_digits(bytes@),
{
    let mut result = String::new();
    let mut index: usize = 0;
    proof {
        assert(bytes@.take(0) =~= Seq::<u8>::empty());
    }
    while index < bytes.len()
        invariant
            index <= bytes.len(),
            result@ == hex_digits(bytes@.take(index as int)),
        decreases bytes.len() - index,
    {
        let byte: u8 = bytes[index];
        proof {
            assert(bytes@.take(index + 1).drop_last() =~= bytes@.take(index as int));
        }
        result.push(hex_digit(byte / 16));
        result.push(hex_digit(byte % 16));
        index += 1;
    }
    assert(bytes@.take(bytes@.len() as int) =~= bytes@);
    result
}

/// Texts with a separator between each two.
pub open spec fn joined(list: Seq<Seq<char>>, separator: Seq<char>) -> Seq<char>
    decreases list.len(),
{
    if list.len() == 0 {
        Seq::empty()
    } else if list.len() == 1 {
        list[0]
    } else {
        joined(list.drop_last(), separator) + separator + list.last()
    }
}

/// The texts of every string in a list.
pub open spec fn strings_view(list: Seq<String>) -> Seq<Seq<char>> {
    Seq::new(list.len(), |i: int| list[i]@)
}

/// Puts a separator between each two strings.
pub fn join_list(list: &Vec<String>, separator: &str) -> (result: String)
    ensures
        result@ == joined(strings_view(list@), separator@),
{
    let ghost view = strings_view(list@);
    if list.len() == 0 {
        return String::new();
    }
    let mut result = list[0].clone();
    let mut index: usize = 1;
    proof {
        assert(view.take(1) =~= seq![view[0]]);
    }
    while index < list.len()
        invariant
            1 <= index <= list@.len(),
            view == strings_view(list@),
            result@ == joined(view.take(index as int), separator@),
        decreases list.len() - index,
    {
        proof {
            assert(view.take(index + 1).drop_last() =~= view.take(index as int));
        }
        result.append(separator);
        result.append(list[index].as_str());
        index += 1;
    }
    assert(view.take(list@.len() as int) =~= view);
    result
}

/// What follows a prefix in a text that begins with it.
pub open spec fn after_prefix(text: Seq<char>, prefix: Seq<char>) -> Option<Seq<char>> {
    if prefix.is_prefix_of(text) {
        Some(text.skip(prefix.len() as int))
    } else {
        None
    }
}

/// Returns what follows a prefix in a text that begins with it.
pub fn strip_prefix(text: &str, prefix: &str) -> (result: Option<String>)
    ensures
        match result {
            Some(rest) => after_prefix(text@, prefix@) == Some(rest@),
            None => after_prefix(text@, prefix@) is None,
        },
{
    let characters = chars_of(text);
    let wanted = chars_of(prefix);
    if wanted.len() > characters.len() {
        return None;
    }
    let mut index: usize = 0;
    while index < wanted.len()
        invariant
            index <= wanted@.len() <= characters@.len(),
            wanted@ == prefix@,
            characters@ == text@,
            forall|i: int| 0 <= i < index ==> wanted@[i] == characters@[i],
        decreases wanted.len() - index,
    {
        if wanted[index] != characters[index] {
            proof {
                if prefix@.is_prefix_of(text@) {
                    assert(prefix@ =~= text@.subrange(0, prefix@.len() as int));
                    assert(text@.subrange(0, prefix@.len() as int)[index as int]
                        == text@[index as int]);
                }
            }
            return None;
        }
        index += 1;
    }
    let rest = slice_chars(characters.as_slice(), wanted.len(), characters.len());
    proof {
        assert(prefix@ =~= text@.subrange(0, prefix@.len() as int));
        assert(rest@ =~= text@.skip(prefix@.len() as int));
    }
    Some(string_of(rest.as_slice()))
}

/// The numeral of a number is made of its decimal digits, the last of them
/// the remainder by ten, and has no leading zero but that of zero itself.
pub proof fn decimal_digits_are_those_of_the_number(value: nat)
    ensures
        decimal(value).last() as u32 == 48 + value % 10,
        value >= 10 ==> decimal(value).drop_last() == decimal(value / 10),
        value < 10 ==> decimal(value).len() == 1,
        value > 0 ==> decimal(value)[0] != '0',
    decreases value,
{
    if value >= 10 {
        decimal_digits_are_those_of_the_number(value / 10);
        lemma_decimal_round_trip(value / 10);
        assert(decimal(value).drop_last() =~= decimal(value / 10));
        assert(decimal(value)[0] == decimal(value / 10)[0]);
    }
}

proof fn lemma_hex_digits(bytes: Seq<u8>)
    ensures
        hex_digits(bytes).len() == 2 * bytes.len(),
        forall|i: int|
            #![trigger bytes[i]]
            0 <= i < bytes.len() ==> hex_digits(bytes)[2 * i] == hex_char(bytes[i] as nat / 16)
                && hex_digits(bytes)[2 * i + 1] == hex_char(bytes[i] as nat % 16),
    decreases bytes.len(),
{
    if bytes.len() > 0 {
        lemma_hex_digits(bytes.drop_last());
        assert forall|i: int| #![trigger bytes[i]] 0 <= i < bytes.len() implies hex_digits(
            bytes,
        )[2 * i] == hex_char(bytes[i] as nat / 16) && hex_digits(bytes)[2 * i + 1] == hex_char(
            bytes[i] as nat % 16,
        ) by {
            if i < bytes.len() - 1 {
                assert(bytes.drop_last()[i] == bytes[i]);
            }
        }
    }
}

/// Hexadecimal text has two digits for each byte, the high half first; the
/// digits below ten are `0` to `9` and those above `a` to `f`.
pub proof fn hex_text_spells_every_byte(bytes: Seq<u8>, at: int)
    requires
        0 <= at < bytes.len(),
    ensures
        hex_digits(bytes).len() == 2 * bytes.len(),
        ({
            let high = hex_digits(bytes)[2 * at] as u32;
            let low = hex_digits(bytes)[2 * at + 1] as u32;
            let high_value = if high <= 57 {
                high - 48
            } else {
                high - 97 + 10
            };
            let low_value = if low <= 57 {
                low - 48
            } else {
                low - 97 + 10
            };
            &&& 48 <= high <= 57 || 97 <= high <= 102
            &&& 48 <= low <= 57 || 97 <= low <= 102
            &&& bytes[at] == 16 * high_value + low_value
        }),
{
    lemma_hex_digits(bytes);
    let byte = bytes[at];
}

/// A list of texts is joined by putting the separator in front of each text
/// but the first.
pub proof fn joining_separates_each_two(list: Seq<Seq<char>>, last: Seq<char>, separator: Seq<char>)
    ensures
        joined(Seq::empty(), separator) == Seq::<char>::empty(),
        joined(seq![last], separator) == last,
        list.len() > 0 ==> joined(list.push(last), separator) == joined(list, separator)
            + separator + last,
{
    assert(list.push(last).drop_last() =~= list);
}

/// A word of a key, an equals sign and a value is taken apart at the first
/// equals sign.
pub proof fn lemma_key_and_value(key: Seq<char>, value: Seq<char>)
    requires
        !key.contains('='),
    ensures
        find_char(key + seq!['='] + value, '=') == key.len(),
        (key + seq!['='] + value).take(key.len() as int) == key,
        (key + seq!['='] + value).skip(key.len() as int + 1) == value,
        (key + seq!['='] + value).len() == key.len() + 1 + value.len(),
{
    let word = key + seq!['='] + value;
    lemma_find_char_after(key, '=', value);
    assert(word.take(key.len() as int) =~= key);
    assert(word.skip(key.len() as int + 1) =~= value);
}

proof fn lemma_leading_white(text: Seq<char>) -> (count: int)
    ensures
        0 <= count <= text.len(),
        skip_white(text) == text.skip(count),
        forall|i: int| 0 <= i < count ==> is_white(#[trigger] text[i]),
        count < text.len() ==> !is_white(text[count]),
    decreases text.len(),
{
    if text.len() > 0 && is_white(text[0]) {
        let rest = text.drop_first();
        let inner = lemma_leading_white(rest);
        assert(rest.skip(inner) =~= text.skip(inner + 1));
        assert forall|i: int| 0 <= i < inner + 1 implies is_white(#[trigger] text[i]) by {
            if i > 0 {
                assert(rest[i - 1] == text[i]);
            }
        }
        inner + 1
    } else {
        assert(text.skip(0) =~= text);
        0
    }
}

proof fn lemma_trailing_white(text: Seq<char>) -> (count: int)
    ensures
        0 <= count <= text.len(),
        drop_white(text) == text.take(count),
        forall|i: int| count <= i < text.len() ==> is_white(#[trigger] text[i]),
        count > 0 ==> !is_white(text[count - 1]),
    decreases text.len(),
{
    if text.len() > 0 && is_white(text.last()) {
        let front = text.drop_last();
        let count = lemma_trailing_white(front);
        assert(front.take(count) =~= text.take(count));
        assert forall|i: int| count <= i < text.len() implies is_white(#[trigger] text[i]) by {
            if i < front.len() {
                assert(front[i] == text[i]);
            }
        }
        count
    } else {
        assert(text.take(text.len() as int) =~= text);
        text.len() as int
    }
}

/// A trimmed text is the part of the text that neither begins nor ends with
/// white space and has only white space around it.
pub proof fn trimming_leaves_out_outer_white_space(text: Seq<char>) -> (range: (int, int))
    ensures
        0 <= range.0 <= range.1 <= text.len(),
        trimmed(text) == text.subrange(range.0, range.1),
        forall|i: int|
            0 <= i < range.0 || range.1 <= i < text.len() ==> is_white(#[trigger] text[i]),
        range.0 < range.1 ==> !is_white(text[range.0]) && !is_white(text[range.1 - 1]),
{
    let start = lemma_leading_white(text);
    let inner = text.skip(start);
    let count = lemma_trailing_white(inner);
    assert(inner.take(count) =~= text.subrange(start, start + count));
    assert forall|i: int|
        0 <= i < start || start + count <= i < text.len() implies is_white(#[trigger] text[i]) by {
        if i >= start {
            assert(inner[i - start] == text[i]);
        }
    }
    if count > 0 {
        assert(inner[0] == text[start]);
        assert(inner[count - 1] == text[start + count - 1]);
    }
    (start, start + count)
}

/// The white space of a text is the tabulator to the carriage return, the
/// space, the next line, and the wider spaces and separators of Unicode; its
/// control characters are those below the space and from the delete on.
pub proof fn white_space_is_that_of_unicode(character: char)
    ensures
        is_white(character) <==> (9 <= character as int <= 13 || character as int == 32
            || character as int == 133 || character as int == 160 || character as int == 5760
            || 8192 <= character as int <= 8202 || character as int == 8232 || character as int
            == 8233 || character as int == 8239 || character as int == 8287 || character as int
            == 12288),
        is_control(character) <==> (0 <= character as int <= 31 || 127 <= character as int <= 159),
        is_digit(character) <==> 48 <= character as int <= 57,
{
}

/// What follows a prefix is what the text holds behind it, and a text that does
/// not begin with the prefix has nothing behind it.
pub proof fn prefix_and_rest_make_up_the_text(text: Seq<char>, prefix: Seq<char>)
    ensures
        match after_prefix(text, prefix) {
            Some(rest) => text == prefix + rest,
            None => forall|rest: Seq<char>| text != #[trigger] (prefix + rest),
        },
{
    if after_prefix(text, prefix) is Some {
        assert(text =~= prefix + text.skip(prefix.len() as int));
    } else {
        assert forall|rest: Seq<char>| text != #[trigger] (prefix + rest) by {
            if text == prefix + rest {
                assert(text.subrange(0, prefix.len() as int) =~= prefix);
                assert(prefix.is_prefix_of(text));
            }
        }
    }
}

/// A signed number is its magnitude, behind a minus sign where it is negative.
pub proof fn signed_numbers_have_a_sign_and_a_magnitude(value: int)
    ensures
        value >= 0 ==> signed_decimal(value) == decimal(value as nat),
        value < 0 ==> signed_decimal(value) == seq!['-'] + decimal((-value) as nat),
{
    reveal_strlit("-");
    assert("-"@ =~= seq!['-']);
}

} // verus!
