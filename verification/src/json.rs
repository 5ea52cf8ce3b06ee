//! The members of JSON objects that replies are judged by.

use serde_json::Value;
use vstd::prelude::*;
use vstd::string::*;

use crate::digest::hex_digit;
use crate::text::{decimal, push_decimal, same};

verus! {

/// One member of a JSON object.
#[derive(Debug, PartialEq, Eq)]
pub enum Member {
    Null,
    Bool(bool),
    /// A number, with its value where it is an unsigned integer.
    Number(Option<u64>),
    Text(String),
    Array,
    Object,
}

/// A parsed JSON text, as far as replies are judged by it.
#[derive(Debug, PartialEq, Eq)]
pub enum Json {
    /// It is not JSON.
    Invalid,
    /// It is JSON, but no object.
    Other,
    /// It is an object with these members.
    Object(Vec<(String, Member)>),
}

/// What a [`Member`] holds.
#[verifier::ext_equal]
pub enum MemberValue {
    Null,
    Bool(bool),
    Number(Option<u64>),
    Text(Seq<char>),
    Array,
    Object,
}

/// What a [`Json`] holds.
#[verifier::ext_equal]
pub enum JsonValue {
    Invalid,
    Other,
    Object(Seq<(Seq<char>, MemberValue)>),
}

impl View for Member {
    type V = MemberValue;

    open spec fn view(&self) -> MemberValue {
        match self {
            Member::Null => MemberValue::Null,
            Member::Bool(value) => MemberValue::Bool(*value),
            Member::Number(value) => MemberValue::Number(*value),
            Member::Text(value) => MemberValue::Text(value@),
            Member::Array => MemberValue::Array,
            Member::Object => MemberValue::Object,
        }
    }
}

impl View for Json {
    type V = JsonValue;

    open spec fn view(&self) -> JsonValue {
        match self {
            Json::Invalid => JsonValue::Invalid,
            Json::Other => JsonValue::Other,
            Json::Object(members) => JsonValue::Object(
                Seq::new(members@.len(), |i: int| (members@[i].0@, members@[i].1@)),
            ),
        }
    }
}

/// How one character stands in a JSON string literal: quotes, backslashes and
/// ASCII control characters are escaped, all others stand for themselves.
pub open spec fn json_char(c: char) -> Seq<char> {
    let code = c as int;
    if c == '"' || c == '\\' {
        seq!['\\', c]
    } else if code >= 32 {
        seq![c]
    } else if code == 8 {
        seq!['\\', 'b']
    } else if code == 9 {
        seq!['\\', 't']
    } else if code == 10 {
        seq!['\\', 'n']
    } else if code == 12 {
        seq!['\\', 'f']
    } else if code == 13 {
        seq!['\\', 'r']
    } else {
        seq!['\\', 'u', '0', '0', hex_digit(code / 16), hex_digit(code % 16)]
    }
}

/// The characters of a JSON string literal between its quotes.
pub open spec fn json_chars(text: Seq<char>) -> Seq<char>
    decreases text.len(),
{
    if text.len() == 0 {
        text
    } else {
        json_chars(text.drop_last()) + json_char(text.last())
    }
}

/// The JSON string literal for a text.
pub open spec fn json_string(text: Seq<char>) -> Seq<char> {
    seq!['"'] + json_chars(text) + seq!['"']
}

/// How a truth value, a text or an unsigned number is written as a member.
pub open spec fn json_value(value: MemberValue) -> Seq<char> {
    match value {
        MemberValue::Bool(true) => "true"@,
        MemberValue::Bool(false) => "false"@,
        MemberValue::Text(text) => json_string(text),
        MemberValue::Number(Some(number)) => decimal(number as nat),
        _ => Seq::empty(),
    }
}

/// How members are written, with commas between them.
pub open spec fn json_members(members: Seq<(Seq<char>, MemberValue)>) -> Seq<char>
    decreases members.len(),
{
    if members.len() == 0 {
        Seq::empty()
    } else {
        let before = if members.len() == 1 {
            Seq::empty()
        } else {
            json_members(members.drop_last()) + seq![',']
        };
        before + json_string(members.last().0) + seq![':'] + json_value(members.last().1)
    }
}

/// How an object with these members is written.
pub open spec fn json_object(members: Seq<(Seq<char>, MemberValue)>) -> Seq<char> {
    seq!['{'] + json_members(members) + seq!['}']
}

/// Whether a member is a truth value, a text or an unsigned number.
pub open spec fn is_flat(value: MemberValue) -> bool {
    match value {
        MemberValue::Bool(_) => true,
        MemberValue::Text(_) => true,
        MemberValue::Number(number) => number is Some,
        _ => false,
    }
}

/// Whether members are truth values, texts or unsigned numbers, each of its
/// own name.
pub open spec fn flat_members(members: Seq<(Seq<char>, MemberValue)>) -> bool {
    &&& forall|i: int| 0 <= i < members.len() ==> is_flat((#[trigger] members[i]).1)
    &&& forall|i: int, j: int|
        0 <= i < j < members.len() ==> (#[trigger] members[i]).0 != (#[trigger] members[j]).0
}

/// Whether an object has all of these members.
pub open spec fn has_members(json: JsonValue, members: Seq<(Seq<char>, MemberValue)>) -> bool {
    json is Object && forall|i: int|
        0 <= i < members.len() ==> member(json, (#[trigger] members[i]).0) == Some(members[i].1)
}

/// What `serde_json::from_str` makes of a text.
pub uninterp spec fn json_text(text: Seq<char>) -> JsonValue;

/// Calls `serde_json::from_str` for a `serde_json::Value` and copies the kind
/// of the value and, of an object, its members. They depend on the text alone;
/// the JSON grammar is left to the crate. An object of truth
/// values, texts and unsigned numbers that was written out is read back with
/// the members it was given, also where a newline ends the line.
#[verifier::external_body]
pub(crate) fn parse_json(text: &str) -> (json: Json)
    ensures
        json@ == json_text(text@),
        forall|members: Seq<(Seq<char>, MemberValue)>|
            flat_members(members) && (text@ == #[trigger] json_object(members) || text@
                == json_object(members) + seq!['\n']) ==> has_members(json@, members),
{
    let member = |value: Value| match value {
        Value::Null => Member::Null,
        Value::Bool(value) => Member::Bool(value),
        Value::Number(value) => Member::Number(value.as_u64()),
        Value::String(value) => Member::Text(value),
        Value::Array(_) => Member::Array,
        Value::Object(_) => Member::Object,
    };
    match serde_json::from_str::<Value>(text) {
        Ok(Value::Object(map)) => Json::Object(map.into_iter().map(|(k, v)| (k, member(v))).collect()),
        Ok(_) => Json::Other,
        Err(_) => Json::Invalid,
    }
}

/// The first member of that name from index `i` on.
pub open spec fn member_from(
    members: Seq<(Seq<char>, MemberValue)>,
    name: Seq<char>,
    i: int,
) -> Option<MemberValue>
    decreases members.len() - i,
{
    if i < 0 || i >= members.len() {
        None
    } else if members[i].0 == name {
        Some(members[i].1)
    } else {
        member_from(members, name, i + 1)
    }
}

/// The member of that name, where the value is an object that has one.
pub open spec fn member(json: JsonValue, name: Seq<char>) -> Option<MemberValue> {
    match json {
        JsonValue::Object(members) => member_from(members, name, 0),
        _ => None,
    }
}

/// The member of that name.
pub fn member_of<'a>(json: &'a Json, name: &str) -> (found: Option<&'a Member>)
    ensures
        match found {
            Some(value) => member(json@, name@) == Some(value@),
            None => member(json@, name@) is None,
        },
{
    match json {
        Json::Object(members) => {
            let ghost all = Seq::new(members@.len(), |i: int| (members@[i].0@, members@[i].1@));
            let mut i: usize = 0;
            while i < members.len()
                invariant
                    i <= members.len(),
                    json@ == JsonValue::Object(all),
                    all == Seq::new(members@.len(), |i: int| (members@[i].0@, members@[i].1@)),
                    member(json@, name@) == member_from(all, name@, i as int),
                decreases members.len() - i,
            {
                if same(members[i].0.as_str(), name) {
                    return Some(&members[i].1);
                }
                i = i + 1;
            }
            None
        },
        _ => None,
    }
}

/// The text of the member of that name, where it is text.
pub open spec fn text_member(json: JsonValue, name: Seq<char>) -> Option<Seq<char>> {
    match member(json, name) {
        Some(MemberValue::Text(text)) => Some(text),
        _ => None,
    }
}

/// The text of the member of that name, where it is text.
pub fn text_of<'a>(json: &'a Json, name: &str) -> (found: Option<&'a str>)
    ensures
        match found {
            Some(text) => text_member(json@, name@) == Some(text@),
            None => text_member(json@, name@) is None,
        },
{
    match member_of(json, name) {
        Some(Member::Text(text)) => Some(text.as_str()),
        _ => None,
    }
}

/// Calls `serde_json::to_string` for a string, which cannot fail. Of its
/// compact formatter the contract says which characters it escapes, and how.
#[verifier::external_body]
pub(crate) fn quote_json(text: &str) -> (literal: String)
    ensures
        literal@ == json_string(text@),
{
    serde_json::to_string(text).expect("a string has a JSON form")
}


/// What a list of members holds.
pub open spec fn member_values(members: Seq<(&str, Member)>) -> Seq<(Seq<char>, MemberValue)> {
    Seq::new(members.len(), |i: int| (members[i].0@, members[i].1@))
}

/// Write an object of truth values, texts and unsigned numbers.
pub fn write_object(members: &Vec<(&str, Member)>) -> (text: String)
    requires
        forall|i: int| 0 <= i < members@.len() ==> is_flat((#[trigger] members@[i]).1@),
    ensures
        text@ == json_object(member_values(members@)),
{
    let ghost all = member_values(members@);
    let mut text = String::from_str("{");
    proof {
        reveal_strlit("{");
        reveal_strlit("}");
        reveal_strlit(",");
        reveal_strlit(":");
        assert("{"@ =~= seq!['{']);
        assert("}"@ =~= seq!['}']);
        assert(","@ =~= seq![',']);
        assert(":"@ =~= seq![':']);
        assert(all.take(0) =~= Seq::empty());
        assert(text@ =~= seq!['{'] + json_members(all.take(0)));
    }
    let mut i: usize = 0;
    while i < members.len()
        invariant
            i <= members.len(),
            all == member_values(members@),
            forall|i: int| 0 <= i < members@.len() ==> is_flat((#[trigger] members@[i]).1@),
            text@ == seq!['{'] + json_members(all.take(i as int)),
            ","@ == seq![','],
            ":"@ == seq![':'],
            "}"@ == seq!['}'],
        decreases members.len() - i,
    {
        let ghost before = text@;
        if i > 0 {
            text.append(",");
        }
        text.append(quote_json(members[i].0).as_str());
        text.append(":");
        assert(is_flat(members@[i as int].1@));
        match &members[i].1 {
            Member::Bool(true) => {
                text.append("true");
            },
            Member::Bool(false) => {
                text.append("false");
            },
            Member::Number(Some(number)) => {
                push_decimal(&mut text, *number);
            },
            Member::Text(value) => {
                text.append(quote_json(value.as_str()).as_str());
            },
            _ => {},
        }
        proof {
            let next = all.take(i + 1);
            assert(next.drop_last() =~= all.take(i as int));
            assert(next.last() == all[i as int]);
            assert(text@ =~= seq!['{'] + json_members(next));
        }
        i = i + 1;
    }
    assert(all.take(i as int) =~= all);
    text.append("}");
    text
}

} // verus!
