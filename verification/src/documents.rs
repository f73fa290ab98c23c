//! The JSON documents that the server answers with.

use crate::json::{
    array_value, bool_value, json_model, no_fields, number_value, object_value, put, text_value,
    Json, JsonNumber,
};
use crate::rooms::{summaries, RoomSummary};
use vstd::prelude::*;

verus! {

/// The version that the server reports.
pub const VERSION: &'static str = "1.0.0";

/// The document with which a request is refused.
pub open spec fn error_json(message: Seq<char>) -> Json {
    Json::Object(map!["error"@ => Json::Text(message)])
}

/// The document that says that all is well.
pub open spec fn ok_json() -> Json {
    Json::Object(map!["ok"@ => Json::Bool(true)])
}

/// The document that tells a client where to connect.
pub open spec fn config_json(livekit_url: Seq<char>) -> Json {
    Json::Object(
        map!["livekit_url"@ => Json::Text(livekit_url), "version"@ => Json::Text(VERSION@)],
    )
}

/// The document that says whether a name is free.
pub open spec fn available_json(available: bool) -> Json {
    Json::Object(map!["available"@ => Json::Bool(available)])
}

/// The document with a token.
pub open spec fn token_json(token: Seq<char>) -> Json {
    Json::Object(map!["token"@ => Json::Text(token)])
}

/// The document with a room.
pub open spec fn room_json(room: (Seq<char>, u32)) -> Json {
    Json::Object(
        map![
            "name"@ => Json::Text(room.0),
            "count"@ => Json::Number(JsonNumber::Whole(room.1 as u64)),
        ],
    )
}

/// The document with a list of rooms.
pub open spec fn rooms_json(list: Seq<(Seq<char>, u32)>) -> Json {
    Json::Array(Seq::new(list.len(), |i: int| room_json(list[i])))
}

/// The document has these members and no others.
pub open spec fn has_just(document: Json, keys: Set<Seq<char>>) -> bool {
    match document {
        Json::Object(members) => members.dom() == keys,
        _ => false,
    }
}

/// What can be read off the documents with one member: the message, that all is well, whether the
/// name is free, and the token.
pub proof fn single_members(message: Seq<char>, available: bool, token: Seq<char>)
    ensures
        has_just(error_json(message), set!["error"@]),
        error_json(message).member("error"@) == Json::Text(message),
        has_just(ok_json(), set!["ok"@]),
        ok_json().member("ok"@) == Json::Bool(true),
        has_just(available_json(available), set!["available"@]),
        available_json(available).member("available"@) == Json::Bool(available),
        has_just(token_json(token), set!["token"@]),
        token_json(token).member("token"@) == Json::Text(token),
{
    assert(error_json(message)->Object_0.dom() =~= set!["error"@]);
    assert(ok_json()->Object_0.dom() =~= set!["ok"@]);
    assert(available_json(available)->Object_0.dom() =~= set!["available"@]);
    assert(token_json(token)->Object_0.dom() =~= set!["token"@]);
}

/// Clients are told to connect where the server was set up to send them, and the version.
pub proof fn config_members(livekit_url: Seq<char>)
    ensures
        has_just(config_json(livekit_url), set!["livekit_url"@, "version"@]),
        config_json(livekit_url).member("livekit_url"@) == Json::Text(livekit_url),
        config_json(livekit_url).member("version"@) == Json::Text(VERSION@),
{
    config_keys_differ();
    assert(config_json(livekit_url)->Object_0.dom() =~= set!["livekit_url"@, "version"@]);
}

/// A listed room is shown by its name and by how many people are in it.
pub proof fn room_members(room: (Seq<char>, u32))
    ensures
        has_just(room_json(room), set!["name"@, "count"@]),
        room_json(room).member("name"@) == Json::Text(room.0),
        room_json(room).member("count"@).whole() == Some(room.1 as u64),
{
    room_keys_differ();
    assert(room_json(room)->Object_0.dom() =~= set!["name"@, "count"@]);
}

/// The document with a list of rooms has one element for each room, in the same order, which shows
/// its name and how many people are in it.
pub proof fn rooms_elements(list: Seq<(Seq<char>, u32)>)
    ensures
        match rooms_json(list) {
            Json::Array(items) => {
                &&& items.len() == list.len()
                &&& forall|i: int|
                    0 <= i < list.len() ==> (#[trigger] items[i]).member("name"@) == Json::Text(
                        list[i].0,
                    ) && items[i].member("count"@).whole() == Some(list[i].1 as u64) && has_just(
                        items[i],
                        set!["name"@, "count"@],
                    )
            },
            _ => false,
        },
{
    let items = rooms_json(list)->Array_0;
    assert forall|i: int| 0 <= i < list.len() implies (#[trigger] items[i]).member("name"@)
        == Json::Text(list[i].0) && items[i].member("count"@).whole() == Some(list[i].1 as u64)
        && has_just(items[i], set!["name"@, "count"@]) by {
        room_members(list[i]);
    }
}

proof fn config_keys_differ()
    ensures
        "livekit_url"@.len() == 11,
        "version"@.len() == 7,
{
    reveal_strlit("livekit_url");
    reveal_strlit("version");
}

proof fn room_keys_differ()
    ensures
        "name"@.len() == 4,
        "count"@.len() == 5,
{
    reveal_strlit("name");
    reveal_strlit("count");
}

/// The document with which a request is refused.
pub fn error_value(message: &str) -> (r: serde_json::Value)
    ensures
        json_model(r) == error_json(message@),
        json_model(r).plain(2),
{
    let mut fields = no_fields();
    put(&mut fields, "error", text_value(message));
    object_value(fields)
}

/// The document that says that all is well.
pub fn ok_value() -> (r: serde_json::Value)
    ensures
        json_model(r) == ok_json(),
        json_model(r).plain(2),
{
    let mut fields = no_fields();
    put(&mut fields, "ok", bool_value(true));
    object_value(fields)
}

/// The document that tells a client where to connect.
pub fn config_value(livekit_url: &str) -> (r: serde_json::Value)
    ensures
        json_model(r) == config_json(livekit_url@),
        json_model(r).plain(2),
{
    proof {
        config_keys_differ();
    }
    let mut fields = no_fields();
    put(&mut fields, "livekit_url", text_value(livekit_url));
    put(&mut fields, "version", text_value(VERSION));
    object_value(fields)
}

/// The document that says whether a name is free.
pub fn available_value(available: bool) -> (r: serde_json::Value)
    ensures
        json_model(r) == available_json(available),
        json_model(r).plain(2),
{
    let mut fields = no_fields();
    put(&mut fields, "available", bool_value(available));
    object_value(fields)
}

/// The document with a token.
pub fn token_value(token: &str) -> (r: serde_json::Value)
    ensures
        json_model(r) == token_json(token@),
        json_model(r).plain(2),
{
    let mut fields = no_fields();
    put(&mut fields, "token", text_value(token));
    object_value(fields)
}

/// The document with a room.
pub fn room_value(name: &str, count: u32) -> (r: serde_json::Value)
    ensures
        json_model(r) == room_json((name@, count)),
        json_model(r).plain(1),
{
    proof {
        room_keys_differ();
    }
    let mut fields = no_fields();
    put(&mut fields, "name", text_value(name));
    put(&mut fields, "count", number_value(count as u64));
    object_value(fields)
}

/// The document with a list of rooms.
pub fn rooms_value(list: &Vec<RoomSummary>) -> (r: serde_json::Value)
    ensures
        json_model(r) == rooms_json(summaries(list@)),
        json_model(r).plain(2),
{
    let mut items: Vec<serde_json::Value> = Vec::new();
    let mut i: usize = 0;
    while i < list.len()
        invariant
            i <= list@.len(),
            items@.len() == i,
            forall|j: int|
                0 <= j < i ==> json_model(#[trigger] items@[j]) == room_json(summaries(list@)[j])
                    && json_model(items@[j]).plain(1),
        decreases list@.len() - i,
    {
        items.push(room_value(list[i].name.as_str(), list[i].count));
        i = i + 1;
    }
    let ghost documents = Seq::new(items@.len(), |j: int| json_model(items@[j]));
    assert(documents =~= Seq::new(
        summaries(list@).len(),
        |j: int| room_json(summaries(list@)[j]),
    ));
    let r = array_value(items);
    assert(json_model(r).plain(2)) by {
        match json_model(r) {
            Json::Array(all) => {
                assert forall|j: int| 0 <= j < all.len() implies (#[trigger] all[j]).plain(1) by {
                    assert(all[j] == json_model(items@[j]));
                }
            },
            _ => {},
        }
    }
    r
}

} // verus!
