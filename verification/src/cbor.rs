//! Concise binary values: what a decoder reads and an encoder writes.

use ciborium::value::Value;
use vstd::prelude::*;

use crate::text::same_text;

verus! {

/// A CBOR value as a mathematical value.
pub enum Cbor {
    /// An integer.
    Integer(int),
    /// A byte string.
    Bytes(Seq<u8>),
    /// A floating-point number, by its decimal spelling.
    Float(Seq<char>),
    /// A text string.
    Text(Seq<char>),
    /// A truth value.
    Bool(bool),
    /// The null value.
    Null,
    /// A tagged value.
    Tag(u64, Box<Cbor>),
    /// An array.
    Array(Seq<Cbor>),
    /// A map, in the order of its encoding.
    Entries(Seq<(Cbor, Cbor)>),
}

/// A CBOR value.
#[derive(Debug)]
pub enum CborValue {
    /// An integer.
    Integer(i128),
    /// A byte string.
    Bytes(Vec<u8>),
    /// A floating-point number, by its decimal spelling.
    Float(String),
    /// A text string.
    Text(String),
    /// A truth value.
    Bool(bool),
    /// The null value.
    Null,
    /// A tagged value.
    Tag(u64, Box<CborValue>),
    /// An array.
    Array(Vec<CborValue>),
    /// A map, in the order of its encoding.
    Entries(Vec<(CborValue, CborValue)>),
}

/// The mathematical value of a CBOR value.
pub open spec fn cbor_of(value: CborValue) -> Cbor
    decreases value,
{
    match value {
        CborValue::Integer(number) => Cbor::Integer(number as int),
        CborValue::Bytes(bytes) => Cbor::Bytes(bytes@),
        CborValue::Float(spelling) => Cbor::Float(spelling@),
        CborValue::Text(text) => Cbor::Text(text@),
        CborValue::Bool(truth) => Cbor::Bool(truth),
        CborValue::Null => Cbor::Null,
        CborValue::Tag(tag, inner) => Cbor::Tag(tag, Box::new(cbor_of(*inner))),
        CborValue::Array(items) => Cbor::Array(
            Seq::new(
                items@.len(),
                |i: int|
                    if 0 <= i < items@.len() {
                        cbor_of(items@[i])
                    } else {
                        Cbor::Null
                    },
            ),
        ),
        CborValue::Entries(entries) => Cbor::Entries(
            Seq::new(
                entries@.len(),
                |i: int|
                    if 0 <= i < entries@.len() {
                        (cbor_of(entries@[i].0), cbor_of(entries@[i].1))
                    } else {
                        (Cbor::Null, Cbor::Null)
                    },
            ),
        ),
    }
}

impl View for CborValue {
    type V = Cbor;

    open spec fn view(&self) -> Cbor {
        cbor_of(*self)
    }
}

/// The values of an array.
pub open spec fn array_view(items: Seq<CborValue>) -> Seq<Cbor> {
    Seq::new(items.len(), |i: int| items[i]@)
}

/// The keys and values of a map.
pub open spec fn entries_view(entries: Seq<(CborValue, CborValue)>) -> Seq<(Cbor, Cbor)> {
    Seq::new(entries.len(), |i: int| (entries[i].0@, entries[i].1@))
}

/// What an array and a map hold.
pub proof fn lemma_cbor_view(value: CborValue)
    ensures
        value matches CborValue::Array(items) ==> value@ == Cbor::Array(array_view(items@)),
        value matches CborValue::Entries(entries) ==> value@ == Cbor::Entries(entries_view(entries@)),
{
    match value {
        CborValue::Array(items) => {
            assert(value@->Array_0 =~= array_view(items@));
        },
        CborValue::Entries(entries) => {
            let held = value@->Entries_0;
            assert forall|i: int| 0 <= i < entries@.len() implies held[i] == entries_view(
                entries@,
            )[i] by {
                assert(held[i].0 == entries@[i].0@);
                assert(held[i].1 == entries@[i].1@);
            }
            assert(held =~= entries_view(entries@));
        },
        _ => {},
    }
}

/// The dynamic value of the CBOR codec.
#[verifier::external_type_specification]
#[verifier::external_body]
pub struct ExCodecValue(Value);

/// What `ciborium::de::from_reader` reads at the start of some bytes: the
/// value and the number of bytes that it took.
pub uninterp spec fn cbor_item(bytes: Seq<u8>) -> Option<(Cbor, nat)>;

/// What `ciborium::ser::into_writer` writes for a value.
pub uninterp spec fn cbor_bytes(value: Cbor) -> Option<Seq<u8>>;

/// Moves a value of the codec into the library's own type, variant by variant.
#[verifier::external_body]
fn value_in(value: Value) -> CborValue {
    match value {
        Value::Integer(number) => CborValue::Integer(number.into()),
        Value::Bytes(bytes) => CborValue::Bytes(bytes),
        Value::Float(number) => CborValue::Float(number.to_string()),
        Value::Text(text) => CborValue::Text(text),
        Value::Bool(truth) => CborValue::Bool(truth),
        Value::Tag(tag, inner) => CborValue::Tag(tag, Box::new(value_in(*inner))),
        Value::Array(items) => CborValue::Array(items.into_iter().map(value_in).collect()),
        Value::Map(entries) => CborValue::Entries(
            entries.into_iter().map(|(key, held)| (value_in(key), value_in(held))).collect(),
        ),
        _ => CborValue::Null,
    }
}

/// Moves a value of the library into the codec's type, variant by variant.
#[verifier::external_body]
fn value_out(value: &CborValue) -> Value {
    match value {
        CborValue::Integer(number) => Value::from(*number),
        CborValue::Bytes(bytes) => Value::Bytes(bytes.clone()),
        CborValue::Float(spelling) => Value::Float(spelling.parse().unwrap_or_default()),
        CborValue::Text(text) => Value::Text(text.clone()),
        CborValue::Bool(truth) => Value::Bool(*truth),
        CborValue::Null => Value::Null,
        CborValue::Tag(tag, inner) => Value::Tag(*tag, Box::new(value_out(inner))),
        CborValue::Array(items) => Value::Array(items.iter().map(value_out).collect()),
        CborValue::Entries(entries) => Value::Map(
            entries.iter().map(|(key, held)| (value_out(key), value_out(held))).collect(),
        ),
    }
}

/// Calls `ciborium::de::from_reader` on a cursor over the bytes and returns
/// the value with the cursor's position, or the text of the reader's error.
/// An item takes at least one byte and no more than there are. What an error
/// says is left open.
#[verifier::external_body]
pub(crate) fn decode_item(bytes: &[u8]) -> (result: Result<(CborValue, usize), String>)
    ensures
        match result {
            Ok((value, length)) => cbor_item(bytes@) == Some((value@, length as nat)) && 1 <= length
                <= bytes@.len(),
            Err(_) => cbor_item(bytes@) is None,
        },
{
    let mut cursor = std::io::Cursor::new(bytes);
    match ciborium::de::from_reader(&mut cursor) {
        Ok(value) => Ok((value_in(value), cursor.position() as usize)),
        Err(error) => Err(error.to_string()),
    }
}

/// Calls `ciborium::ser::into_writer` on an empty buffer and returns what was
/// written, or the text of the writer's error. What an error says is left open.
#[verifier::external_body]
pub(crate) fn encode_item(value: &CborValue) -> (result: Result<Vec<u8>, String>)
    ensures
        match result {
            Ok(bytes) => cbor_bytes(value@) == Some(bytes@),
            Err(_) => cbor_bytes(value@) is None,
        },
{
    let mut bytes = Vec::new();
    match ciborium::ser::into_writer(&value_out(value), &mut bytes) {
        Ok(()) => Ok(bytes),
        Err(error) => Err(error.to_string()),
    }
}

/// Whether two spellings denote equal numbers: no number equals one that is
/// not a number, and the two zeros are equal.
pub open spec fn same_float(left: Seq<char>, right: Seq<char>) -> bool {
    ||| left == right && left != "NaN"@
    ||| (left == "0"@ || left == "-0"@) && (right == "0"@ || right == "-0"@)
}

/// Whether two values are equal as values.
pub open spec fn same_value(left: Cbor, right: Cbor) -> bool
    decreases left,
{
    match (left, right) {
        (Cbor::Float(one), Cbor::Float(other)) => same_float(one, other),
        (Cbor::Tag(tag, inner), Cbor::Tag(other_tag, other_inner)) => tag == other_tag
            && same_value(*inner, *other_inner),
        (Cbor::Array(items), Cbor::Array(others)) => items.len() == others.len() && forall|i: int|
            0 <= i < items.len() ==> same_value(#[trigger] items[i], others[i]),
        (Cbor::Entries(entries), Cbor::Entries(others)) => entries.len() == others.len() && forall|i: int|
            #![trigger entries[i]]
            0 <= i < entries.len() ==> same_value(entries[i].0, others[i].0) && same_value(
                entries[i].1,
                others[i].1,
            ),
        _ => left == right,
    }
}

/// Whether no map inside a value holds a key twice.
pub open spec fn keys_unique(value: Cbor) -> bool
    decreases value,
{
    match value {
        Cbor::Array(items) => forall|i: int|
            0 <= i < items.len() ==> keys_unique(#[trigger] items[i]),
        Cbor::Entries(entries) => {
            &&& forall|i: int, j: int|
                #![trigger entries[i], entries[j]]
                0 <= i < j < entries.len() ==> !same_value(entries[i].0, entries[j].0)
            &&& forall|i: int|
                #![trigger entries[i]]
                0 <= i < entries.len() ==> keys_unique(entries[i].0) && keys_unique(entries[i].1)
        },
        Cbor::Tag(_, inner) => keys_unique(*inner),
        _ => true,
    }
}

fn same_spelling(left: &str, right: &str) -> (result: bool)
    ensures
        result == same_float(left@, right@),
{
    let left_zero = same_text(left, "0") || same_text(left, "-0");
    let right_zero = same_text(right, "0") || same_text(right, "-0");
    (same_text(left, right) && !same_text(left, "NaN")) || (left_zero && right_zero)
}

/// Returns whether two byte strings are equal.
pub fn same_bytes(left: &[u8], right: &[u8]) -> (result: bool)
    ensures
        result == (left@ == right@),
{
    if left.len() != right.len() {
        return false;
    }
    let mut index: usize = 0;
    while index < left.len()
        invariant
            index <= left.len(),
            left@.len() == right@.len(),
            forall|i: int| 0 <= i < index ==> left@[i] == right@[i],
        decreases left.len() - index,
    {
        if left[index] != right[index] {
            assert(left@[index as int] != right@[index as int]);
            return false;
        }
        index += 1;
    }
    assert(left@ =~= right@);
    true
}

impl CborValue {
    /// Returns whether two values are equal as values.
    pub fn equals(&self, other: &CborValue) -> (result: bool)
        ensures
            result == same_value(self@, other@),
        decreases self,
    {
        proof {
            lemma_cbor_view(*self);
            lemma_cbor_view(*other);
        }
        match (self, other) {
            (CborValue::Integer(left), CborValue::Integer(right)) => *left == *right,
            (CborValue::Bytes(left), CborValue::Bytes(right)) => same_bytes(
                left.as_slice(),
                right.as_slice(),
            ),
            (CborValue::Float(left), CborValue::Float(right)) => same_spelling(
                left.as_str(),
                right.as_str(),
            ),
            (CborValue::Text(left), CborValue::Text(right)) => same_text(
                left.as_str(),
                right.as_str(),
            ),
            (CborValue::Bool(left), CborValue::Bool(right)) => *left == *right,
            (CborValue::Null, CborValue::Null) => true,
            (CborValue::Tag(left_tag, left), CborValue::Tag(right_tag, right)) => {
                *left_tag == *right_tag && left.equals(right)
            },
            (CborValue::Array(left), CborValue::Array(right)) => {
                if left.len() != right.len() {
                    return false;
                }
                let mut index: usize = 0;
                while index < left.len()
                    invariant
                        index <= left.len(),
                        left@.len() == right@.len(),
                        self@ == Cbor::Array(array_view(left@)),
                        other@ == Cbor::Array(array_view(right@)),
                        forall|i: int|
                            0 <= i < index ==> same_value(
                                #[trigger] array_view(left@)[i],
                                array_view(right@)[i],
                            ),
                        decreases_to!(self => left@),
                    decreases left.len() - index,
                {
                    if !left[index].equals(&right[index]) {
                        assert(!same_value(
                            array_view(left@)[index as int],
                            array_view(right@)[index as int],
                        ));
                        return false;
                    }
                    index += 1;
                }
                true
            },
            (CborValue::Entries(left), CborValue::Entries(right)) => {
                if left.len() != right.len() {
                    return false;
                }
                let mut index: usize = 0;
                while index < left.len()
                    invariant
                        index <= left.len(),
                        left@.len() == right@.len(),
                        self@ == Cbor::Entries(entries_view(left@)),
                        other@ == Cbor::Entries(entries_view(right@)),
                        forall|i: int|
                            #![trigger entries_view(left@)[i]]
                            0 <= i < index ==> same_value(
                                entries_view(left@)[i].0,
                                entries_view(right@)[i].0,
                            ) && same_value(
                                entries_view(left@)[i].1,
                                entries_view(right@)[i].1,
                            ),
                        decreases_to!(self => left@),
                    decreases left.len() - index,
                {
                    if !left[index].0.equals(&right[index].0) || !left[index].1.equals(
                        &right[index].1,
                    ) {
                        assert(entries_view(left@)[index as int] == (
                            left@[index as int].0@,
                            left@[index as int].1@,
                        ));
                        return false;
                    }
                    index += 1;
                }
                true
            },
            _ => {
                proof {
                    lemma_other_variants_differ(*self, *other);
                }
                false
            },
        }
    }

    /// Returns whether no map inside this value holds a key twice.
    pub fn unique_keys(&self) -> (result: bool)
        ensures
            result == keys_unique(self@),
        decreases self,
    {
        proof {
            lemma_cbor_view(*self);
        }
        match self {
            CborValue::Array(items) => {
                let mut index: usize = 0;
                while index < items.len()
                    invariant
                        index <= items.len(),
                        self@ == Cbor::Array(array_view(items@)),
                        forall|i: int|
                            0 <= i < index ==> keys_unique(#[trigger] array_view(items@)[i]),
                        decreases_to!(self => items@),
                    decreases items.len() - index,
                {
                    if !items[index].unique_keys() {
                        proof {
                            lemma_repeated_in_item(array_view(items@), index as int);
                        }
                        return false;
                    }
                    index += 1;
                }
                true
            },
            CborValue::Entries(entries) => {
                let ghost view = entries_view(entries@);
                let mut index: usize = 0;
                while index < entries.len()
                    invariant
                        index <= entries.len(),
                        view == entries_view(entries@),
                        self@ == Cbor::Entries(view),
                        forall|i: int, j: int|
                            #![trigger view[i], view[j]]
                            0 <= i < j < index ==> !same_value(view[i].0, view[j].0),
                        forall|i: int|
                            #![trigger view[i]]
                            0 <= i < index ==> keys_unique(view[i].0) && keys_unique(view[i].1),
                        decreases_to!(self => entries@),
                    decreases entries.len() - index,
                {
                    let mut earlier: usize = 0;
                    while earlier < index
                        invariant
                            earlier <= index < entries.len(),
                            view == entries_view(entries@),
                            self@ == Cbor::Entries(view),
                            forall|i: int|
                                #![trigger view[i]]
                                0 <= i < earlier ==> !same_value(view[i].0, view[index as int].0),
                        decreases index - earlier,
                    {
                        if entries[earlier].0.equals(&entries[index].0) {
                            proof {
                                lemma_repeated_key(view, earlier as int, index as int);
                            }
                            return false;
                        }
                        earlier += 1;
                    }
                    if !entries[index].0.unique_keys() || !entries[index].1.unique_keys() {
                        proof {
                            lemma_repeated_in_entry(view, index as int);
                        }
                        return false;
                    }
                    index += 1;
                }
                true
            },
            CborValue::Tag(_, inner) => inner.unique_keys(),
            _ => true,
        }
    }
}

proof fn lemma_repeated_in_item(items: Seq<Cbor>, at: int)
    requires
        0 <= at < items.len(),
        !keys_unique(items[at]),
    ensures
        !keys_unique(Cbor::Array(items)),
{
    let whole = Cbor::Array(items);
    if keys_unique(whole) {
        assert(whole->Array_0 == items);
        assert(keys_unique(items[at]));
    }
}

proof fn lemma_repeated_in_entry(entries: Seq<(Cbor, Cbor)>, at: int)
    requires
        0 <= at < entries.len(),
        !keys_unique(entries[at].0) || !keys_unique(entries[at].1),
    ensures
        !keys_unique(Cbor::Entries(entries)),
{
    let whole = Cbor::Entries(entries);
    if keys_unique(whole) {
        assert(whole->Entries_0 == entries);
        assert(keys_unique(entries[at].0) && keys_unique(entries[at].1));
    }
}

proof fn lemma_repeated_key(entries: Seq<(Cbor, Cbor)>, first: int, second: int)
    requires
        0 <= first < second < entries.len(),
        same_value(entries[first].0, entries[second].0),
    ensures
        !keys_unique(Cbor::Entries(entries)),
{
    let whole = Cbor::Entries(entries);
    if keys_unique(whole) {
        assert(whole->Entries_0 == entries);
        assert(!same_value(entries[first].0, entries[second].0));
    }
}

proof fn lemma_other_variants_differ(left: CborValue, right: CborValue)
    requires
        !(left is Integer && right is Integer),
        !(left is Bytes && right is Bytes),
        !(left is Float && right is Float),
        !(left is Text && right is Text),
        !(left is Bool && right is Bool),
        !(left is Null && right is Null),
        !(left is Tag && right is Tag),
        !(left is Array && right is Array),
        !(left is Entries && right is Entries),
    ensures
        !same_value(left@, right@),
{
}

impl CborValue {
    /// Returns a copy of this value.
    pub fn copy(&self) -> (result: CborValue)
        ensures
            result@ == self@,
        decreases self,
    {
        match self {
            CborValue::Integer(number) => CborValue::Integer(*number),
            CborValue::Bytes(bytes) => {
                let mut copied: Vec<u8> = Vec::new();
                copied.extend_from_slice(bytes.as_slice());
                assert(copied@ =~= bytes@);
                CborValue::Bytes(copied)
            },
            CborValue::Float(spelling) => CborValue::Float(spelling.clone()),
            CborValue::Text(text) => CborValue::Text(text.clone()),
            CborValue::Bool(truth) => CborValue::Bool(*truth),
            CborValue::Null => CborValue::Null,
            CborValue::Tag(tag, inner) => CborValue::Tag(*tag, Box::new(inner.copy())),
            CborValue::Array(items) => {
                let mut list: Vec<CborValue> = Vec::new();
                let mut index: usize = 0;
                while index < items.len()
                    invariant
                        index <= items.len(),
                        list@.len() == index,
                        forall|i: int| 0 <= i < index ==> (#[trigger] list@[i])@ == items@[i]@,
                        decreases_to!(self => items@),
                    decreases items.len() - index,
                {
                    let item = items[index].copy();
                    list.push(item);
                    index += 1;
                }
                let copied = CborValue::Array(list);
                proof {
                    lemma_cbor_view(copied);
                    lemma_cbor_view(*self);
                    assert(array_view(list@) =~= array_view(items@));
                }
                copied
            },
            CborValue::Entries(entries) => {
                let mut list: Vec<(CborValue, CborValue)> = Vec::new();
                let mut index: usize = 0;
                while index < entries.len()
                    invariant
                        index <= entries.len(),
                        list@.len() == index,
                        forall|i: int|
                            0 <= i < index ==> (#[trigger] list@[i]).0@ == entries@[i].0@
                                && list@[i].1@ == entries@[i].1@,
                        decreases_to!(self => entries@),
                    decreases entries.len() - index,
                {
                    let key = entries[index].0.copy();
                    let value = entries[index].1.copy();
                    list.push((key, value));
                    index += 1;
                }
                let copied = CborValue::Entries(list);
                proof {
                    lemma_cbor_view(copied);
                    lemma_cbor_view(*self);
                    assert(entries_view(list@) =~= entries_view(entries@));
                }
                copied
            },
        }
    }
}

/// Values of different kinds are different, and scalars are equal where they
/// hold the same.
pub proof fn scalars_are_compared_by_what_they_hold(left: Cbor, right: Cbor)
    ensures
        left is Integer && right is Integer ==> (same_value(left, right) <==> left->Integer_0
            == right->Integer_0),
        left is Text && right is Text ==> (same_value(left, right) <==> left->Text_0
            == right->Text_0),
        left is Bytes && right is Bytes ==> (same_value(left, right) <==> left->Bytes_0
            == right->Bytes_0),
        left is Bool && right is Bool ==> (same_value(left, right) <==> left->Bool_0
            == right->Bool_0),
        left is Null && right is Null ==> same_value(left, right),
        left is Integer != right is Integer ==> !same_value(left, right),
        left is Text != right is Text ==> !same_value(left, right),
        left is Bytes != right is Bytes ==> !same_value(left, right),
        left is Bool != right is Bool ==> !same_value(left, right),
        left is Null != right is Null ==> !same_value(left, right),
        left is Float != right is Float ==> !same_value(left, right),
        left is Array != right is Array ==> !same_value(left, right),
        left is Entries != right is Entries ==> !same_value(left, right),
        left is Tag != right is Tag ==> !same_value(left, right),
{
}

/// A floating-point value equals itself unless it is not a number, and the two
/// zeros are equal.
pub proof fn zeros_are_equal_and_no_number_equals_none(spelling: Seq<char>)
    ensures
        spelling != "NaN"@ ==> same_float(spelling, spelling),
        !same_float("NaN"@, "NaN"@),
        same_float("0"@, "-0"@),
        same_float("-0"@, "0"@),
        spelling != "0"@ && spelling != "-0"@ ==> !same_float(spelling, "0"@) && !same_float(
            "0"@,
            spelling,
        ),
{
    reveal_strlit("NaN");
    reveal_strlit("0");
    reveal_strlit("-0");
    assert("NaN"@.len() == 3 && "0"@.len() == 1 && "-0"@.len() == 2);
}

/// A list equals another of the same length with equal items, and a map equals
/// another of the same length with equal keys and values, place by place.
pub proof fn containers_are_compared_place_by_place(left: Cbor, right: Cbor, at: int)
    requires
        same_value(left, right),
    ensures
        left is Array ==> right is Array && left->Array_0.len() == right->Array_0.len() && (0 <= at
            < left->Array_0.len() ==> same_value(left->Array_0[at], right->Array_0[at])),
        left is Entries ==> right is Entries && left->Entries_0.len() == right->Entries_0.len() && (
        0 <= at < left->Entries_0.len() ==> same_value(
            left->Entries_0[at].0,
            right->Entries_0[at].0,
        ) && same_value(left->Entries_0[at].1, right->Entries_0[at].1)),
        left is Tag ==> right is Tag && left->Tag_0 == right->Tag_0 && same_value(
            *left->Tag_1,
            *right->Tag_1,
        ),
{
    if left is Array && 0 <= at < left->Array_0.len() {
        let item = left->Array_0[at];
        assert(same_value(item, right->Array_0[at]));
    }
    if left is Entries && 0 <= at < left->Entries_0.len() {
        let entry = left->Entries_0[at];
        assert(same_value(entry.0, right->Entries_0[at].0));
    }
}

/// A map with a key that stands in it twice has no unique keys, nor has any
/// value that holds such a map.
pub proof fn repeated_keys_are_never_unique(value: Cbor, first: int, second: int)
    requires
        keys_unique(value),
    ensures
        value is Entries && 0 <= first < second < value->Entries_0.len() ==> !same_value(
            value->Entries_0[first].0,
            value->Entries_0[second].0,
        ),
        value is Entries && 0 <= first < value->Entries_0.len() ==> keys_unique(
            value->Entries_0[first].0,
        ) && keys_unique(value->Entries_0[first].1),
        value is Array && 0 <= first < value->Array_0.len() ==> keys_unique(value->Array_0[first]),
        value is Tag ==> keys_unique(*value->Tag_1),
{
    if value is Entries && 0 <= first < value->Entries_0.len() {
        let entry = value->Entries_0[first];
        assert(keys_unique(entry.0));
        if first < second < value->Entries_0.len() {
            let other = value->Entries_0[second];
            assert(!same_value(entry.0, other.0));
        }
    }
    if value is Array && 0 <= first < value->Array_0.len() {
        let item = value->Array_0[first];
        assert(keys_unique(item));
    }
}

/// Keys are unique in every value without maps, in a list of such values, and
/// in a map of them whose keys differ from each other.
pub proof fn keys_are_unique_where_none_repeats(value: Cbor)
    ensures
        value is Integer || value is Bytes || value is Float || value is Text || value is Bool
            || value is Null ==> keys_unique(value),
        value matches Cbor::Array(items) ==> (forall|i: int|
            0 <= i < items.len() ==> keys_unique(#[trigger] items[i])) ==> keys_unique(value),
        value matches Cbor::Entries(entries) ==> (forall|i: int|
            0 <= i < entries.len() ==> keys_unique((#[trigger] entries[i]).0) && keys_unique(
                entries[i].1,
            )) && (forall|i: int, j: int|
            0 <= i < j < entries.len() ==> !same_value(
                (#[trigger] entries[i]).0,
                (#[trigger] entries[j]).0,
            )) ==> keys_unique(value),
        value matches Cbor::Tag(_, inner) ==> keys_unique(*inner) ==> keys_unique(value),
{
}

} // verus!
