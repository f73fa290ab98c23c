//! JSON documents: the model that contracts speak of, and the calls into `serde_json`.

use crate::table::distinct;
use vstd::prelude::*;

verus! {

/// A JSON number: a non-negative integer, a negative integer, or the bits of any other number.
pub enum JsonNumber {
    Whole(u64),
    Negative(i64),
    Real(u64),
}

/// What a JSON document is.
pub enum Json {
    Null,
    Bool(bool),
    Number(JsonNumber),
    Text(Seq<char>),
    Array(Seq<Json>),
    Object(Map<Seq<char>, Json>),
}

/// How deeply a document that is read may nest: `serde_json` refuses a deeper one.
pub const MAX_DEPTH: u8 = 127;

/// How deeply a document that is written may nest: writing recurses into it, and has to do with the
/// stack of a thread.
pub const MAX_WRITE_DEPTH: u16 = 1000;

impl Json {
    /// The member of an object under `key`; `Null` where there is none.
    pub open spec fn member(self, key: Seq<char>) -> Json {
        match self {
            Json::Object(members) => if members.contains_key(key) {
                members[key]
            } else {
                Json::Null
            },
            _ => Json::Null,
        }
    }

    /// The characters of a string.
    pub open spec fn text(self) -> Option<Seq<char>> {
        match self {
            Json::Text(s) => Some(s),
            _ => None,
        }
    }

    /// The value of a non-negative integer.
    pub open spec fn whole(self) -> Option<u64> {
        match self {
            Json::Number(JsonNumber::Whole(n)) => Some(n),
            _ => None,
        }
    }

    /// The document nests at most `depth` arrays and objects in one another.
    pub open spec fn within(self, depth: nat) -> bool
        decreases depth,
    {
        match self {
            Json::Array(items) => depth > 0 && forall|i: int|
                0 <= i < items.len() ==> (#[trigger] items[i]).within((depth - 1) as nat),
            Json::Object(members) => depth > 0 && forall|key: Seq<char>|
                members.contains_key(key) ==> (#[trigger] members[key]).within(
                    (depth - 1) as nat,
                ),
            _ => true,
        }
    }

    /// The document nests at most `depth` arrays and objects in one another, and has no numbers but
    /// integers.
    pub open spec fn plain(self, depth: nat) -> bool
        decreases depth,
    {
        match self {
            Json::Number(JsonNumber::Real(_)) => false,
            Json::Array(items) => depth > 0 && forall|i: int|
                0 <= i < items.len() ==> (#[trigger] items[i]).plain((depth - 1) as nat),
            Json::Object(members) => depth > 0 && forall|key: Seq<char>|
                members.contains_key(key) ==> (#[trigger] members[key]).plain((depth - 1) as nat),
            _ => true,
        }
    }
}

/// Reading the text as which the document is written gives the document.
pub open spec fn reads_back(document: Json) -> bool {
    json_parsed(json_text(document)) == Some(document)
}

/// A JSON value of `serde_json`.
#[verifier::external_type_specification]
#[verifier::external_body]
pub struct ExValue(serde_json::Value);

/// The reason why `serde_json` refused a text.
#[verifier::external_type_specification]
#[verifier::external_body]
pub struct ExError(serde_json::Error);

/// The document that a `serde_json::Value` holds.
pub uninterp spec fn json_model(value: serde_json::Value) -> Json;

/// The document that `serde_json::from_str` reads from a text, or `None` where it refuses it.
pub uninterp spec fn json_parsed(text: Seq<char>) -> Option<Json>;

/// The text as which `serde_json` writes a document.
pub uninterp spec fn json_text(document: Json) -> Seq<char>;

/// The members of an object written as a list without repeated keys.
pub open spec fn members_of(fields: Seq<(String, serde_json::Value)>) -> Map<Seq<char>, Json>
    decreases fields.len(),
{
    if fields.len() == 0 {
        Map::empty()
    } else {
        members_of(fields.drop_last()).insert(fields.last().0@, json_model(fields.last().1))
    }
}

/// Calls `serde_json::from_str` for a `Value`: whether it reads the text, and what it reads,
/// depend on the text alone.
#[verifier::external_body]
pub(crate) fn parse(text: &str) -> (r: Result<serde_json::Value, serde_json::Error>)
    ensures
        r is Ok <==> json_parsed(text@) is Some,
        r is Ok ==> json_model(r->Ok_0) == json_parsed(text@)->0,
{
    serde_json::from_str(text)
}

/// Calls the index operator of `serde_json::Value` with a key: the member under the key, or null
/// where the value is no object or has no such member.
#[verifier::external_body]
pub(crate) fn member<'a>(value: &'a serde_json::Value, key: &str) -> (r: &'a serde_json::Value)
    ensures
        json_model(*r) == json_model(*value).member(key@),
{
    &value[key]
}

/// Calls `serde_json::Value::as_str`: the characters of a string, nothing for any other value.
#[verifier::external_body]
pub(crate) fn as_str(value: &serde_json::Value) -> (r: Option<&str>)
    ensures
        r is Some <==> json_model(*value).text() is Some,
        r is Some ==> r->0@ == json_model(*value).text()->0,
{
    value.as_str()
}

/// Calls `serde_json::Value::as_u64`: the value of an integer that is not negative and fits in 64
/// bits, nothing for any other value.
#[verifier::external_body]
pub(crate) fn as_u64(value: &serde_json::Value) -> (r: Option<u64>)
    ensures
        r == json_model(*value).whole(),
{
    value.as_u64()
}

/// Calls `serde_json::Value::from` on a text: the JSON string with these characters.
#[verifier::external_body]
pub(crate) fn text_value(text: &str) -> (r: serde_json::Value)
    ensures
        json_model(r) == Json::Text(text@),
{
    serde_json::Value::from(text)
}

/// Calls `serde_json::Value::from` on a truth value.
#[verifier::external_body]
pub(crate) fn bool_value(b: bool) -> (r: serde_json::Value)
    ensures
        json_model(r) == Json::Bool(b),
{
    serde_json::Value::from(b)
}

/// Calls `serde_json::Value::from` on an unsigned integer.
#[verifier::external_body]
pub(crate) fn number_value(n: u64) -> (r: serde_json::Value)
    ensures
        json_model(r) == Json::Number(JsonNumber::Whole(n)),
{
    serde_json::Value::from(n)
}

/// Calls `serde_json::Value::from` on a list of values: the array of these, in order.
#[verifier::external_body]
pub(crate) fn array_value(items: Vec<serde_json::Value>) -> (r: serde_json::Value)
    ensures
        json_model(r) == Json::Array(Seq::new(items@.len(), |i: int| json_model(items@[i]))),
{
    serde_json::Value::from(items)
}

/// Calls `serde_json::Map::from_iter` and makes an object of the map: it has the listed members and
/// no others. No key may be listed twice: which of two values would stay is left open.
#[verifier::external_body]
pub(crate) fn object_value(fields: Vec<(String, serde_json::Value)>) -> (r: serde_json::Value)
    requires
        distinct(fields@),
    ensures
        json_model(r) == Json::Object(members_of(fields@)),
{
    serde_json::Value::Object(serde_json::Map::from_iter(fields))
}

/// Calls `to_string` on a `serde_json::Value`: the text depends on the document alone, and
/// `serde_json::from_str` reads it as that document again where it nests no deeper than what may be
/// read and has no numbers but integers. Writing recurses into arrays and objects, one call in
/// another for each level, so the nesting is bounded by what the stack of a thread has room for.
#[verifier::external_body]
pub(crate) fn render(value: &serde_json::Value) -> (r: String)
    requires
        json_model(*value).within(MAX_WRITE_DEPTH as nat),
    ensures
        r@ == json_text(json_model(*value)),
        json_model(*value).plain(MAX_DEPTH as nat) ==> json_parsed(r@) == Some(json_model(*value)),
{
    value.to_string()
}

proof fn plain_more(document: Json, depth: nat, more: nat)
    requires
        document.plain(depth),
        depth <= more,
    ensures
        document.plain(more),
        document.within(more),
    decreases depth,
{
    match document {
        Json::Array(items) => {
            assert forall|i: int| 0 <= i < items.len() implies (#[trigger] items[i]).plain(
                (more - 1) as nat,
            ) && items[i].within((more - 1) as nat) by {
                plain_more(items[i], (depth - 1) as nat, (more - 1) as nat);
            }
        },
        Json::Object(members) => {
            assert forall|key: Seq<char>| members.contains_key(key) implies (
            #[trigger] members[key]).plain((more - 1) as nat) && members[key].within(
                (more - 1) as nat,
            ) by {
                plain_more(members[key], (depth - 1) as nat, (more - 1) as nat);
            }
        },
        _ => {},
    }
}

/// The documents that the server writes nest two deep at most: they may be written, and read back.
pub proof fn small_is_writable(document: Json)
    requires
        document.plain(2),
    ensures
        document.within(MAX_WRITE_DEPTH as nat),
        document.plain(MAX_DEPTH as nat),
{
    plain_more(document, 2, MAX_WRITE_DEPTH as nat);
    plain_more(document, 2, MAX_DEPTH as nat);
}

proof fn insert_plain(members: Map<Seq<char>, Json>, key: Seq<char>, value: Json, depth: nat)
    requires
        depth > 0,
        Json::Object(members).plain(depth),
        value.plain((depth - 1) as nat),
    ensures
        Json::Object(members.insert(key, value)).plain(depth),
{
    let more = members.insert(key, value);
    assert forall|k: Seq<char>| more.contains_key(k) implies (#[trigger] more[k]).plain(
        (depth - 1) as nat,
    ) by {
        if k != key {
            assert(members.contains_key(k));
            match Json::Object(members) {
                Json::Object(m) => {
                    assert(m == members);
                    assert(m[k].plain((depth - 1) as nat));
                },
                _ => {},
            }
            assert(more[k] == members[k]);
        } else {
            assert(more[k] == value);
        }
    }
}

proof fn listed_are_members(fields: Seq<(String, serde_json::Value)>, i: int)
    requires
        0 <= i < fields.len(),
    ensures
        members_of(fields).contains_key(fields[i].0@),
    decreases fields.len(),
{
    if i < fields.len() - 1 {
        listed_are_members(fields.drop_last(), i);
    }
}

/// Adds a member to the list of members of an object.
pub fn put(fields: &mut Vec<(String, serde_json::Value)>, key: &str, value: serde_json::Value)
    ensures
        members_of(final(fields)@) == members_of(old(fields)@).insert(key@, json_model(value)),
        distinct(old(fields)@) && !members_of(old(fields)@).contains_key(key@) ==> distinct(
            final(fields)@,
        ),
        Json::Object(members_of(old(fields)@)).plain(1) && json_model(value).plain(0)
            ==> Json::Object(members_of(final(fields)@)).plain(1),
        Json::Object(members_of(old(fields)@)).plain(2) && json_model(value).plain(1)
            ==> Json::Object(members_of(final(fields)@)).plain(2),
{
    let ghost before = fields@;
    fields.push((key.to_owned(), value));
    proof {
        assert(fields@.drop_last() =~= before);
        if distinct(before) && !members_of(before).contains_key(key@) {
            assert forall|i: int, j: int| 0 <= i < j < fields@.len() implies (
            #[trigger] fields@[i]).0@ != (#[trigger] fields@[j]).0@ by {
                assert(fields@[i] == before[i]);
                if j < before.len() {
                    assert(fields@[j] == before[j]);
                } else {
                    listed_are_members(before, i);
                }
            }
        }
        let members = members_of(before);
        let member = json_model(value);
        if Json::Object(members).plain(1) && member.plain(0) {
            insert_plain(members, key@, member, 1);
        }
        if Json::Object(members).plain(2) && member.plain(1) {
            insert_plain(members, key@, member, 2);
        }
    }
}

/// The list of members of an object without members.
pub fn no_fields() -> (r: Vec<(String, serde_json::Value)>)
    ensures
        members_of(r@) == Map::<Seq<char>, Json>::empty(),
        distinct(r@),
        Json::Object(members_of(r@)).plain(1),
        Json::Object(members_of(r@)).plain(2),
{
    Vec::new()
}

} // verus!
