//! JSON values.

use vstd::prelude::*;

use crate::json_number::JsonNumber;
use crate::text::{chars_of, same_chars};

verus! {

/// A JSON value (the six kinds of RFC 8259).
///
/// An object is a `Vec` of members in the order they were written, not a map:
/// GraphQL returns its aliases (`r0`, `r1`, ...) in the order they were sent,
/// and that order means something. Duplicate keys are all kept
/// ([`JsonValue::get`] returns the last).
#[derive(Debug, PartialEq, Eq)]
pub enum JsonValue {
    /// `null`.
    Null,
    /// `true` / `false`.
    Bool(bool),
    /// A number, kept as its lexeme.
    Number(JsonNumber),
    /// A string, with its escapes resolved.
    String(String),
    /// An array.
    Array(Vec<JsonValue>),
    /// An object: `(key, value)` members in the order written.
    Object(Vec<(String, JsonValue)>),
}

/// The mathematical meaning of a JSON value: text as character sequences.
pub enum JsonModel {
    Null,
    Bool(bool),
    Number(Seq<char>),
    String(Seq<char>),
    Array(Seq<JsonModel>),
    Object(Seq<(Seq<char>, JsonModel)>),
}

impl JsonValue {
    /// The meaning of this value.
    pub open spec fn model(self) -> JsonModel
        decreases self,
    {
        match self {
            JsonValue::Null => JsonModel::Null,
            JsonValue::Bool(flag) => JsonModel::Bool(flag),
            JsonValue::Number(number) => JsonModel::Number(number@),
            JsonValue::String(text) => JsonModel::String(text@),
            JsonValue::Array(items) => JsonModel::Array(Self::models(items@)),
            JsonValue::Object(members) => JsonModel::Object(Self::member_models(members@)),
        }
    }

    /// The meanings of a run of values.
    pub open spec fn models(items: Seq<JsonValue>) -> Seq<JsonModel>
        decreases items,
    {
        if items.len() == 0 {
            Seq::empty()
        } else {
            Self::models(items.drop_last()).push(items.last().model())
        }
    }

    /// The meanings of a run of members.
    pub open spec fn member_models(members: Seq<(String, JsonValue)>) -> Seq<(Seq<char>, JsonModel)>
        decreases members,
    {
        if members.len() == 0 {
            Seq::empty()
        } else {
            Self::member_models(members.drop_last()).push(
                (members.last().0@, members.last().1.model()),
            )
        }
    }

    /// The index of the last member whose key is `key`.
    pub open spec fn last_index_of(members: Seq<(String, JsonValue)>, key: Seq<char>) -> Option<int>
        decreases members.len(),
    {
        if members.len() == 0 {
            None
        } else if members.last().0@ == key {
            Some(members.len() - 1)
        } else {
            Self::last_index_of(members.drop_last(), key)
        }
    }

    /// The member named `key` (the last one when the key repeats); `None` when
    /// this is not an object or has no such member.
    pub open spec fn member(self, key: Seq<char>) -> Option<JsonValue> {
        match self {
            JsonValue::Object(members) => match Self::last_index_of(members@, key) {
                Some(i) => Some(members@[i].1),
                None => None,
            },
            _ => None,
        }
    }

    /// The text of a string value.
    pub open spec fn text(self) -> Option<Seq<char>> {
        match self {
            JsonValue::String(t) => Some(t@),
            _ => None,
        }
    }

    /// The items of an array value.
    pub open spec fn items(self) -> Option<Seq<JsonValue>> {
        match self {
            JsonValue::Array(items) => Some(items@),
            _ => None,
        }
    }

    /// The unsigned integer of a number value (as [`JsonNumber::as_u64`] reads it).
    pub open spec fn u64_value(self) -> Option<nat> {
        match self {
            JsonValue::Number(n) => n.u64_value(),
            _ => None,
        }
    }

    /// Looks up an object member. `None` when this is not an object.
    ///
    /// With duplicate keys the last one wins (the value written later).
    pub fn get(&self, key: &str) -> (found: Option<&Self>)
        ensures
            found matches Some(v) ==> self.member(key@) == Some(*v),
            found is None ==> self.member(key@) is None,
    {
        match self {
            JsonValue::Object(members) => {
                let wanted = chars_of(key);
                let mut i = members.len();
                assert(members@.take(i as int) =~= members@);
                while i > 0
                    invariant
                        i <= members@.len(),
                        wanted@ == key@,
                        *self == JsonValue::Object(*members),
                        Self::last_index_of(members@, key@) == Self::last_index_of(
                            members@.take(i as int),
                            key@,
                        ),
                    decreases i,
                {
                    let name = chars_of(members[i - 1].0.as_str());
                    proof {
                        assert(members@.take(i as int).drop_last() =~= members@.take(i - 1));
                    }
                    if same_chars(&name, &wanted) {
                        assert(members@.take(i as int).last() == members@[i - 1]);
                        assert(name@ == members@[i - 1].0@);
                        assert(Self::last_index_of(members@.take(i as int), key@) == Some(i - 1));
                        return Some(&members[i - 1].1);
                    }
                    i = i - 1;
                }
                assert(members@.take(0) =~= Seq::<(String, JsonValue)>::empty());
                None
            },
            _ => None,
        }
    }

    /// The text of a string. `None` for any other kind.
    pub fn as_str(&self) -> (text: Option<&str>)
        ensures
            self matches JsonValue::String(t) ==> text matches Some(x) && x@ == t@,
            !(self is String) ==> text is None,
    {
        match self {
            JsonValue::String(text) => Some(text.as_str()),
            _ => None,
        }
    }

    /// The value of a boolean. `None` for any other kind.
    pub fn as_bool(&self) -> (flag: Option<bool>)
        ensures
            self matches JsonValue::Bool(b) ==> flag == Some(*b),
            !(self is Bool) ==> flag is None,
    {
        match self {
            JsonValue::Bool(flag) => Some(*flag),
            _ => None,
        }
    }

    /// The items of an array. `None` for any other kind.
    pub fn as_array(&self) -> (items: Option<&[Self]>)
        ensures
            self matches JsonValue::Array(v) ==> items matches Some(x) && x@ == v@,
            !(self is Array) ==> items is None,
    {
        match self {
            JsonValue::Array(items) => Some(items.as_slice()),
            _ => None,
        }
    }

    /// The members of an object. `None` for any other kind.
    pub fn as_object(&self) -> (members: Option<&[(String, Self)]>)
        ensures
            self matches JsonValue::Object(v) ==> members matches Some(x) && x@ == v@,
            !(self is Object) ==> members is None,
    {
        match self {
            JsonValue::Object(members) => Some(members.as_slice()),
            _ => None,
        }
    }

    /// The number. `None` for any other kind.
    pub fn as_number(&self) -> (number: Option<&JsonNumber>)
        ensures
            self matches JsonValue::Number(n) ==> number == Some(n),
            !(self is Number) ==> number is None,
    {
        match self {
            JsonValue::Number(number) => Some(number),
            _ => None,
        }
    }

    /// Whether this is `null`.
    ///
    /// GraphQL answers `null` for a repository it could not get. `null` is kept
    /// as a value so that "present but null" and "no such key" stay apart.
    pub fn is_null(&self) -> (null: bool)
        ensures
            null == (self is Null),
    {
        match self {
            JsonValue::Null => true,
            _ => false,
        }
    }
}

} // verus!
