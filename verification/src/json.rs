//! Identifier-keyed data trees.

use vstd::prelude::*;

use crate::text::same_text;

verus! {

/// A data tree as a mathematical value.
pub enum Json {
    /// The null value.
    Null,
    /// A truth value.
    Bool(bool),
    /// An integer.
    Integer(int),
    /// A number that is no integer, by its decimal spelling.
    Decimal(Seq<char>),
    /// A text.
    Text(Seq<char>),
    /// A list of values.
    Array(Seq<Json>),
    /// Named members in the order of their names.
    Object(Seq<(Seq<char>, Json)>),
}

/// A data tree.
#[derive(Debug)]
pub enum JsonValue {
    /// The null value.
    Null,
    /// A truth value.
    Bool(bool),
    /// An integer.
    Integer(i128),
    /// A number that is no integer, by its decimal spelling.
    Decimal(String),
    /// A text.
    Text(String),
    /// A list of values.
    Array(Vec<JsonValue>),
    /// Named members in the order of their names.
    Object(Vec<(String, JsonValue)>),
}

/// The mathematical value of a data tree.
pub open spec fn json_of(value: JsonValue) -> Json
    decreases value,
{
    match value {
        JsonValue::Null => Json::Null,
        JsonValue::Bool(value) => Json::Bool(value),
        JsonValue::Integer(value) => Json::Integer(value as int),
        JsonValue::Decimal(value) => Json::Decimal(value@),
        JsonValue::Text(value) => Json::Text(value@),
        JsonValue::Array(items) => Json::Array(
            Seq::new(
                items@.len(),
                |i: int|
                    if 0 <= i < items@.len() {
                        json_of(items@[i])
                    } else {
                        Json::Null
                    },
            ),
        ),
        JsonValue::Object(members) => Json::Object(
            Seq::new(
                members@.len(),
                |i: int|
                    if 0 <= i < members@.len() {
                        (members@[i].0@, json_of(members@[i].1))
                    } else {
                        (Seq::empty(), Json::Null)
                    },
            ),
        ),
    }
}

impl View for JsonValue {
    type V = Json;

    open spec fn view(&self) -> Json {
        json_of(*self)
    }
}

/// The values of a list.
pub open spec fn list_view(items: Seq<JsonValue>) -> Seq<Json> {
    Seq::new(items.len(), |i: int| items[i]@)
}

/// The names and values of an object.
pub open spec fn members_view(members: Seq<(String, JsonValue)>) -> Seq<(Seq<char>, Json)> {
    Seq::new(members.len(), |i: int| (members[i].0@, members[i].1@))
}

/// What an array and an object hold.
pub broadcast proof fn lemma_json_view(value: JsonValue)
    ensures
        value matches JsonValue::Array(items) ==> #[trigger] value@ == Json::Array(
            list_view(items@),
        ),
        value matches JsonValue::Object(members) ==> value@ == Json::Object(
            members_view(members@),
        ),
{
    match value {
        JsonValue::Array(items) => {
            assert(value@->Array_0 =~= list_view(items@));
        },
        JsonValue::Object(members) => {
            let held = value@->Object_0;
            assert forall|i: int| 0 <= i < members@.len() implies held[i] == members_view(
                members@,
            )[i] by {
                assert(held[i].0 == members@[i].0@);
                assert(held[i].1 == members@[i].1@);
            }
            assert(held =~= members_view(members@));
        },
        _ => {},
    }
}

impl JsonValue {
    /// Returns a copy of this tree.
    pub fn copy(&self) -> (result: JsonValue)
        ensures
            result@ == self@,
        decreases self,
    {
        match self {
            JsonValue::Null => JsonValue::Null,
            JsonValue::Bool(value) => JsonValue::Bool(*value),
            JsonValue::Integer(value) => JsonValue::Integer(*value),
            JsonValue::Decimal(value) => JsonValue::Decimal(value.clone()),
            JsonValue::Text(value) => JsonValue::Text(value.clone()),
            JsonValue::Array(items) => {
                let mut result: Vec<JsonValue> = Vec::new();
                let mut index: usize = 0;
                while index < items.len()
                    invariant
                        index <= items.len(),
                        result@.len() == index,
                        forall|i: int| 0 <= i < index ==> (#[trigger] result@[i])@ == items@[i]@,
                        decreases_to!(self => items@),
                    decreases items.len() - index,
                {
                    let item = items[index].copy();
                    result.push(item);
                    index += 1;
                }
                let copied = JsonValue::Array(result);
                proof {
                    lemma_json_view(copied);
                    lemma_json_view(*self);
                    assert(list_view(result@) =~= list_view(items@));
                }
                copied
            },
            JsonValue::Object(members) => {
                let mut result: Vec<(String, JsonValue)> = Vec::new();
                let mut index: usize = 0;
                while index < members.len()
                    invariant
                        index <= members.len(),
                        result@.len() == index,
                        forall|i: int|
                            0 <= i < index ==> (#[trigger] result@[i]).0@ == members@[i].0@
                                && result@[i].1@ == members@[i].1@,
                        decreases_to!(self => members@),
                    decreases members.len() - index,
                {
                    let value = members[index].1.copy();
                    result.push((members[index].0.clone(), value));
                    index += 1;
                }
                let copied = JsonValue::Object(result);
                proof {
                    lemma_json_view(copied);
                    lemma_json_view(*self);
                    assert(members_view(result@) =~= members_view(members@));
                }
                copied
            },
        }
    }
}

/// The position of the first member with a name; the length when there is
/// none.
pub open spec fn member_at(members: Seq<(Seq<char>, Json)>, name: Seq<char>) -> nat
    decreases members.len(),
{
    if members.len() == 0 || members[0].0 == name {
        0
    } else {
        1 + member_at(members.drop_first(), name)
    }
}

/// The value of a named member of an object.
pub open spec fn member(value: Json, name: Seq<char>) -> Option<Json> {
    match value {
        Json::Object(members) => if member_at(members, name) < members.len() {
            Some(members[member_at(members, name) as int].1)
        } else {
            None
        },
        _ => None,
    }
}

/// The number that a value holds, when it is a 64-bit unsigned integer.
pub open spec fn unsigned(value: Json) -> Option<u64> {
    match value {
        Json::Integer(number) => if 0 <= number <= u64::MAX {
            Some(number as u64)
        } else {
            None
        },
        _ => None,
    }
}

/// The number that a named member holds, when it is a 64-bit unsigned integer.
pub open spec fn unsigned_member(value: Json, name: Seq<char>) -> Option<u64> {
    match member(value, name) {
        Some(held) => unsigned(held),
        None => None,
    }
}

proof fn lemma_member_at(members: Seq<(Seq<char>, Json)>, name: Seq<char>, at: int)
    requires
        0 <= at <= members.len(),
        forall|i: int| 0 <= i < at ==> (#[trigger] members[i]).0 != name,
        at < members.len() ==> members[at].0 == name,
    ensures
        member_at(members, name) == at,
    decreases members.len(),
{
    if at > 0 {
        assert(members[0].0 != name);
        assert forall|i: int| 0 <= i < at - 1 implies (#[trigger] members.drop_first()[i]).0
            != name by {
            assert(members.drop_first()[i] == members[i + 1]);
        }
        lemma_member_at(members.drop_first(), name, at - 1);
    }
}

/// `member_at` stops at the first member with the name.
pub proof fn lemma_member_at_is_first(members: Seq<(Seq<char>, Json)>, name: Seq<char>)
    ensures
        member_at(members, name) <= members.len(),
        member_at(members, name) < members.len() ==> members[member_at(members, name) as int].0
            == name,
        forall|i: int| 0 <= i < member_at(members, name) ==> (#[trigger] members[i]).0 != name,
    decreases members.len(),
{
    if members.len() > 0 && members[0].0 != name {
        lemma_member_at_is_first(members.drop_first(), name);
        let at = member_at(members, name);
        assert forall|i: int| 0 <= i < at implies (#[trigger] members[i]).0 != name by {
            if i > 0 {
                assert(members[i] == members.drop_first()[i - 1]);
            }
        }
        if at < members.len() {
            assert(members[at as int] == members.drop_first()[at - 1]);
        }
    }
}

/// Finds the position of the first member with a name.
pub fn find_member(members: &Vec<(String, JsonValue)>, name: &str) -> (result: usize)
    ensures
        result == member_at(members_view(members@), name@),
        result <= members@.len(),
{
    let mut index: usize = 0;
    while index < members.len() && !same_text(members[index].0.as_str(), name)
        invariant
            index <= members.len(),
            forall|i: int|
                0 <= i < index ==> (#[trigger] members_view(members@)[i]).0 != name@,
        decreases members.len() - index,
    {
        assert(members_view(members@)[index as int].0 == members@[index as int].0@);
        index += 1;
    }
    proof {
        if index < members.len() {
            assert(members_view(members@)[index as int].0 == members@[index as int].0@);
        }
        lemma_member_at(members_view(members@), name@, index as int);
    }
    index
}

impl JsonValue {
    /// Returns a named member of an object.
    pub fn get(&self, name: &str) -> (result: Option<&JsonValue>)
        ensures
            match result {
                Some(value) => member(self@, name@) == Some(value@),
                None => member(self@, name@) is None,
            },
    {
        proof {
            lemma_json_view(*self);
        }
        match self {
            JsonValue::Object(members) => {
                let at: usize = find_member(members, name);
                if at < members.len() {
                    Some(&members[at].1)
                } else {
                    None
                }
            },
            _ => None,
        }
    }

    /// Returns the number of an unsigned integer.
    pub fn as_u64(&self) -> (result: Option<u64>)
        ensures
            result == unsigned(self@),
    {
        match self {
            JsonValue::Integer(number) => if 0 <= *number && *number <= 0xffff_ffff_ffff_ffff {
                Some(*number as u64)
            } else {
                None
            },
            _ => None,
        }
    }

    /// Returns the number of a named unsigned integer.
    pub fn get_u64(&self, name: &str) -> (result: Option<u64>)
        ensures
            result == unsigned_member(self@, name@),
    {
        match self.get(name) {
            Some(value) => value.as_u64(),
            None => None,
        }
    }

    /// Returns whether two trees are equal.
    pub fn same(&self, other: &JsonValue) -> (result: bool)
        ensures
            result == (self@ == other@),
        decreases self,
    {
        proof {
            lemma_json_view(*self);
            lemma_json_view(*other);
        }
        match (self, other) {
            (JsonValue::Null, JsonValue::Null) => true,
            (JsonValue::Bool(left), JsonValue::Bool(right)) => *left == *right,
            (JsonValue::Integer(left), JsonValue::Integer(right)) => *left == *right,
            (JsonValue::Decimal(left), JsonValue::Decimal(right)) => same_text(
                left.as_str(),
                right.as_str(),
            ),
            (JsonValue::Text(left), JsonValue::Text(right)) => same_text(
                left.as_str(),
                right.as_str(),
            ),
            (JsonValue::Array(left), JsonValue::Array(right)) => {
                if left.len() != right.len() {
                    assert(list_view(left@).len() != list_view(right@).len());
                    return false;
                }
                let mut index: usize = 0;
                while index < left.len()
                    invariant
                        index <= left.len(),
                        left@.len() == right@.len(),
                        self@ == Json::Array(list_view(left@)),
                        other@ == Json::Array(list_view(right@)),
                        forall|i: int|
                            0 <= i < index ==> (#[trigger] left@[i])@ == right@[i]@,
                        decreases_to!(self => left@),
                    decreases left.len() - index,
                {
                    if !left[index].same(&right[index]) {
                        assert(list_view(left@)[index as int] != list_view(right@)[index as int]);
                        return false;
                    }
                    index += 1;
                }
                assert(list_view(left@) =~= list_view(right@));
                true
            },
            (JsonValue::Object(left), JsonValue::Object(right)) => {
                if left.len() != right.len() {
                    assert(members_view(left@).len() != members_view(right@).len());
                    return false;
                }
                let mut index: usize = 0;
                while index < left.len()
                    invariant
                        index <= left.len(),
                        left@.len() == right@.len(),
                        self@ == Json::Object(members_view(left@)),
                        other@ == Json::Object(members_view(right@)),
                        forall|i: int|
                            0 <= i < index ==> (#[trigger] left@[i]).0@ == right@[i].0@
                                && left@[i].1@ == right@[i].1@,
                        decreases_to!(self => left@),
                    decreases left.len() - index,
                {
                    if !same_text(left[index].0.as_str(), right[index].0.as_str())
                        || !left[index].1.same(&right[index].1) {
                        assert(members_view(left@)[index as int] != members_view(
                            right@,
                        )[index as int]);
                        return false;
                    }
                    index += 1;
                }
                assert(members_view(left@) =~= members_view(right@));
                true
            },
            _ => false,
        }
    }
}

/// A member of an object is the value of the first member with its name, and
/// an object without such a member has none there.
pub proof fn member_is_the_first_with_its_name(members: Seq<(Seq<char>, Json)>, name: Seq<char>)
    ensures
        match member(Json::Object(members), name) {
            Some(value) => exists|at: int|
                0 <= at < members.len() && #[trigger] members[at] == (name, value) && forall|i: int|
                    0 <= i < at ==> (#[trigger] members[i]).0 != name,
            None => forall|i: int| 0 <= i < members.len() ==> (#[trigger] members[i]).0 != name,
        },
{
    lemma_member_at_is_first(members, name);
    let at = member_at(members, name);
    if at < members.len() {
        assert(members[at as int] == (name, members[at as int].1));
    }
}

/// A number is read from an integer of at most sixty-four bits without a sign,
/// and from nothing else.
pub proof fn unsigned_numbers_are_read_as_they_are(value: Json, number: u64)
    ensures
        unsigned(value) == Some(number) <==> value == Json::Integer(number as int),
        unsigned(value) is None <==> !(value is Integer) || value->Integer_0 < 0
            || value->Integer_0 > 0xffff_ffff_ffff_ffff,
{
}

} // verus!
