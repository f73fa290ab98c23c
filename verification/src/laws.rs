//! What holds of the server as a whole, over every request and every state.

use crate::config::Config;
use crate::documents::{
    available_json, config_json, config_members, error_json, has_just, ok_json, rooms_elements,
    rooms_json, token_json, VERSION,
};
use crate::http::{
    body_text, documents_are_protected, empty_reply, html_reply, json_reply, options_reply,
    protected, MAX_BODY,
};
use crate::json::{json_parsed, json_text, reads_back, Json};
use crate::jwt::{claims_read_back, room_token, token_determines_claims};
use crate::names::{nick_name, room_name};
use crate::nicks::{
    expired, free_names_are_these, given_up_is_available, people_in, taken_until_expiry, with_nick,
    without_nick, Nick, NICK_TTL,
};
use crate::rate::{
    after_run, asked, at_most, first_requests_pass, idle, in_order, limit_holds, passed,
    passed_since, seldom_is_never_refused, with_request, within_one_window, WindowMap,
};
use crate::rooms::{
    added_room_is_new, exit_undoes_entry, fresh_rooms_are_kept, listing, listing_is_complete,
    listing_is_in_byte_order, live_rooms, people_are_counted, rooms_full, rooms_stay_bounded,
    with_entry, with_exit, with_room, RoomInfo, MAX_ROOMS, ROOM_TTL,
};
use crate::routes::{Route, Task};
use crate::server::{
    answered, avatar_member, finished, finished_document, handled, handled_document, index_reply,
    nick_checked, no_memory, refusal, room_created, room_left, text_member, token_granted,
    token_issued, Memory, Next, Times, CHECK_LIMIT, MAX_AVATAR, RATE_WINDOW, ROOM_LIMIT,
    TOKEN_LIMIT,
};
use crate::table::keep_if;
use crate::text::{bytes_before, trimmed};
use vstd::prelude::*;
use vstd::utf8::*;

verus! {

/// There are no more rooms than there may be.
pub open spec fn bounded(memory: Memory) -> bool {
    memory.rooms.dom().finite() && memory.rooms.len() <= MAX_ROOMS
}

/// A server starts with no more rooms than there may be, and nothing that it does makes more.
pub proof fn rooms_are_bounded(
    cfg: Config,
    memory: Memory,
    route: Route,
    ip: Seq<char>,
    now: u64,
    task: Task,
    body: Option<Seq<char>>,
    times: Times,
    jti: Seq<char>,
)
    requires
        bounded(memory),
    ensures
        bounded(no_memory()),
        bounded(handled(cfg, memory, route, ip, now).0),
        bounded(finished(cfg, memory, task, body, times, jti).0),
{
    rooms_stay_bounded(memory.rooms, Seq::empty(), now);
    if body is Some && json_parsed(body->0) is Some {
        document_keeps_bounds(cfg, memory, task, json_parsed(body->0)->0, times, jti);
    }
}

proof fn document_keeps_bounds(
    cfg: Config,
    memory: Memory,
    task: Task,
    document: Json,
    times: Times,
    jti: Seq<char>,
)
    requires
        bounded(memory),
    ensures
        bounded(answered(cfg, memory, task, document, times, jti).0),
{
    let room = text_member(document, "room"@);
    let name = text_member(document, "name"@);
    rooms_stay_bounded(memory.rooms, name, times.added);
    rooms_stay_bounded(memory.rooms, room, times.added);
    rooms_stay_bounded(with_room(memory.rooms, room, times.added), room, times.added);
}

/// A request that is refused changes nothing: neither rooms nor names.
pub proof fn refusal_changes_nothing(
    cfg: Config,
    memory: Memory,
    task: Task,
    body: Option<Seq<char>>,
    times: Times,
    jti: Seq<char>,
)
    ensures
        ({
            let (next, reply) = finished(cfg, memory, task, body, times, jti);
            task != Task::Leave && reply.status != 200 ==> next == memory
        }),
{
}

/// Dealing with a body does not count as another request, and taking a request in does not touch
/// the names.
pub proof fn parts_of_memory_are_separate(
    cfg: Config,
    memory: Memory,
    route: Route,
    ip: Seq<char>,
    now: u64,
    task: Task,
    body: Option<Seq<char>>,
    times: Times,
    jti: Seq<char>,
)
    ensures
        ({
            let next = finished(cfg, memory, task, body, times, jti).0;
            &&& next.rate_tok == memory.rate_tok
            &&& next.rate_room == memory.rate_room
            &&& next.rate_check == memory.rate_check
        }),
        handled(cfg, memory, route, ip, now).0.nicks == memory.nicks,
        route != Route::ListRooms ==> handled(cfg, memory, route, ip, now).0.rooms
            == memory.rooms,
{
}

/// Of two people who ask for the same name in the same room the second is told that it is taken, as
/// long as the time limit of the first has not passed; nothing changes for the first.
pub proof fn second_claim_is_refused(
    cfg: Config,
    memory: Memory,
    room: Seq<char>,
    username: Seq<char>,
    avatar: u8,
    times: Times,
    jti: Seq<char>,
    other_avatar: u8,
    later: Times,
    other_jti: Seq<char>,
)
    requires
        token_granted(memory, room, username, times),
        later.checked - times.taken <= NICK_TTL,
    ensures
        ({
            let first = token_issued(cfg, memory, room, username, avatar, times, jti);
            let second = token_issued(
                cfg,
                first.0,
                room,
                username,
                other_avatar,
                later,
                other_jti,
            );
            &&& first.1.status == 200
            &&& second == (first.0, refusal(cfg, 409, "ник занят"@))
        }),
{
    taken_until_expiry(memory.nicks, room, username, avatar, times.taken, later.checked);
}

/// Once the time limit has passed, the name can be had again.
pub proof fn expired_claim_is_open(
    cfg: Config,
    memory: Memory,
    room: Seq<char>,
    username: Seq<char>,
    avatar: u8,
    times: Times,
    jti: Seq<char>,
    later: Times,
)
    requires
        token_granted(memory, room, username, times),
        later.checked - times.taken > NICK_TTL,
    ensures
        token_granted(
            token_issued(cfg, memory, room, username, avatar, times, jti).0,
            room,
            username,
            later,
        ),
{
    taken_until_expiry(memory.nicks, room, username, avatar, times.taken, later.checked);
}

/// Whoever leaves a room frees their name there at once, at any time later than the time limit after
/// zero.
pub proof fn leaving_frees_the_name(
    memory: Memory,
    room: Seq<char>,
    nick: Seq<char>,
    times: Times,
)
    requires
        room_name(room),
        nick_name(nick),
        times.checked > NICK_TTL,
    ensures
        token_granted(room_left(memory, room, nick), room, nick, times),
{
    given_up_is_available(memory.nicks, room, nick, times.checked);
}

/// A room that was just made is in the list of rooms, with nobody in it, until its time limit has
/// passed.
pub proof fn new_room_is_listed(cfg: Config, memory: Memory, name: Seq<char>, now: u64, later: u64)
    requires
        bounded(memory),
        room_name(name),
        !rooms_full(memory.rooms),
        !memory.rooms.contains_key(name),
        0 < now,
        later - now < ROOM_TTL,
    ensures
        ({
            let (next, reply) = room_created(cfg, memory, name, now);
            &&& reply.status == 200
            &&& listing(live_rooms(next.rooms, later)).contains((name, 0u32))
        }),
{
    let rooms = with_room(memory.rooms, name, now);
    rooms_stay_bounded(memory.rooms, name, now);
    rooms_stay_bounded(rooms, name, later);
    room_is_listed(rooms, name, later);
}

proof fn room_is_listed(rooms: Map<Seq<char>, RoomInfo>, name: Seq<char>, now: u64)
    requires
        live_rooms(rooms, now).dom().finite(),
        rooms.contains_key(name),
        rooms[name].created_at > 0,
        now - rooms[name].created_at < ROOM_TTL,
    ensures
        listing(live_rooms(rooms, now)).contains((name, rooms[name].count)),
{
    let live = live_rooms(rooms, now);
    listing_is_complete(live);
    assert(live.contains_key(name));
    let list = listing(live);
    let i = choose|i: int| 0 <= i < list.len() && (#[trigger] list[i]).0 == name;
    assert(list[i] == (name, rooms[name].count));
}

/// Whoever enters a listed room is counted there: the list shows one more person.
pub proof fn entry_is_listed(
    cfg: Config,
    memory: Memory,
    room: Seq<char>,
    username: Seq<char>,
    avatar: u8,
    times: Times,
    jti: Seq<char>,
    later: u64,
)
    requires
        bounded(memory),
        token_granted(memory, room, username, times),
        memory.rooms.contains_key(room),
        memory.rooms[room].count < u32::MAX,
        memory.rooms[room].created_at > 0,
        later - memory.rooms[room].created_at < ROOM_TTL,
    ensures
        listing(
            live_rooms(
                token_issued(cfg, memory, room, username, avatar, times, jti).0.rooms,
                later,
            ),
        ).contains((room, (memory.rooms[room].count + 1) as u32)),
{
    let rooms = token_issued(cfg, memory, room, username, avatar, times, jti).0.rooms;
    rooms_stay_bounded(memory.rooms, room, times.added);
    assert(rooms == with_entry(memory.rooms, room));
    rooms_stay_bounded(rooms, room, later);
    room_is_listed(rooms, room, later);
}

/// Entering a room and leaving it leaves the rooms as they were, but that the room now exists.
pub proof fn visit_restores_the_count(
    cfg: Config,
    memory: Memory,
    room: Seq<char>,
    username: Seq<char>,
    avatar: u8,
    times: Times,
    jti: Seq<char>,
)
    requires
        token_granted(memory, room, username, times),
        memory.rooms.contains_key(room) ==> memory.rooms[room].count < u32::MAX,
    ensures
        room_left(
            token_issued(cfg, memory, room, username, avatar, times, jti).0,
            room,
            username,
        ).rooms == with_room(memory.rooms, room, times.added),
{
    exit_undoes_entry(with_room(memory.rooms, room, times.added), room);
}

/// Who asks whether a name is free is told whether a request for a token would be granted at that
/// moment.
pub proof fn check_agrees_with_token(
    cfg: Config,
    memory: Memory,
    room: Seq<char>,
    nick: Seq<char>,
    times: Times,
)
    requires
        room_name(room),
        nick_name(nick),
    ensures
        nick_checked(cfg, memory, room, nick, times.checked) == json_reply(
            200,
            available_json(token_granted(memory, room, nick, times)),
            cfg.allowed_origin@,
        ),
{
}

/// Neither the API key nor the secret shows in any answer but a token: set-ups that differ in
/// nothing else answer alike.
pub proof fn secrets_stay_secret(
    a: Config,
    b: Config,
    memory: Memory,
    route: Route,
    ip: Seq<char>,
    now: u64,
    task: Task,
    body: Option<Seq<char>>,
    times: Times,
    jti: Seq<char>,
)
    requires
        a.allowed_origin@ == b.allowed_origin@,
        a.livekit_url@ == b.livekit_url@,
    ensures
        handled(a, memory, route, ip, now) == handled(b, memory, route, ip, now),
        finished(a, memory, task, body, times, jti).0 == finished(
            b,
            memory,
            task,
            body,
            times,
            jti,
        ).0,
        task != Task::IssueToken || finished(a, memory, task, body, times, jti).1.status != 200
            ==> finished(a, memory, task, body, times, jti).1 == finished(
            b,
            memory,
            task,
            body,
            times,
            jti,
        ).1,
{
}

/// Every answer of the interface, a refusal too, carries the headers that protect it; only the
/// answers without content do not.
pub proof fn answers_are_protected(
    cfg: Config,
    memory: Memory,
    route: Route,
    ip: Seq<char>,
    now: u64,
    task: Task,
    body: Option<Seq<char>>,
    times: Times,
    jti: Seq<char>,
)
    ensures
        match handled(cfg, memory, route, ip, now).1 {
            Next::Reply(reply) => reply == empty_reply(204) || protected(
                reply,
                cfg.allowed_origin@,
            ),
            _ => true,
        },
        ({
            let reply = finished(cfg, memory, task, body, times, jti).1;
            reply == empty_reply(204) || protected(reply, cfg.allowed_origin@)
        }),
{
    assert forall|status: u16, document: Json| protected(
        #[trigger] json_reply(status, document, cfg.allowed_origin@),
        cfg.allowed_origin@,
    ) by {
        documents_are_protected(status, document, cfg.allowed_origin@);
    }
    documents_are_protected(200, Json::Null, cfg.allowed_origin@);
}

/// An answer that has a document has the text of that document and nothing else.
pub proof fn documents_are_in_the_answers(
    cfg: Config,
    memory: Memory,
    route: Route,
    ip: Seq<char>,
    now: u64,
    task: Task,
    body: Option<Seq<char>>,
    times: Times,
    jti: Seq<char>,
)
    ensures
        match handled_document(cfg, memory, route, ip, now) {
            Some(document) => match handled(cfg, memory, route, ip, now).1 {
                Next::Reply(reply) => reply.body == encode_utf8(json_text(document)),
                _ => false,
            },
            None => true,
        },
        match finished_document(cfg, memory, task, body, times, jti) {
            Some(document) => finished(cfg, memory, task, body, times, jti).1.body == encode_utf8(
                json_text(document),
            ),
            None => finished(cfg, memory, task, body, times, jti).1 == empty_reply(204),
        },
{
}

/// Two people who are granted a token get different answers: where the documents and the claims read
/// back, as those of every answer do, equal answers are for the same room, name, avatar and time,
/// under the same identifier.
pub proof fn token_answers_differ(
    cfg: Config,
    memory: Memory,
    room: Seq<char>,
    username: Seq<char>,
    avatar: u8,
    times: Times,
    jti: Seq<char>,
    other_memory: Memory,
    other_room: Seq<char>,
    other_username: Seq<char>,
    other_avatar: u8,
    other_times: Times,
    other_jti: Seq<char>,
)
    requires
        token_granted(memory, room, username, times),
        token_granted(other_memory, other_room, other_username, other_times),
    ensures
        ({
            let (issuer, now, other_now) = (cfg.api_key@, times.issued, other_times.issued);
            let token = room_token(cfg, room, username, avatar, now, jti);
            let other = room_token(
                cfg,
                other_room,
                other_username,
                other_avatar,
                other_now,
                other_jti,
            );
            &&& token_issued(cfg, memory, room, username, avatar, times, jti).1 == token_issued(
                cfg,
                other_memory,
                other_room,
                other_username,
                other_avatar,
                other_times,
                other_jti,
            ).1
            &&& reads_back(token_json(token))
            &&& reads_back(token_json(other))
            &&& claims_read_back(issuer, room, username, avatar, now, jti)
            &&& claims_read_back(
                issuer,
                other_room,
                other_username,
                other_avatar,
                other_now,
                other_jti,
            )
        }) ==> {
            &&& room == other_room
            &&& username == other_username
            &&& avatar == other_avatar
            &&& times.issued == other_times.issued
            &&& jti == other_jti
        },
{
    let token = room_token(cfg, room, username, avatar, times.issued, jti);
    let other = room_token(
        cfg,
        other_room,
        other_username,
        other_avatar,
        other_times.issued,
        other_jti,
    );
    encode_utf8_decode_utf8(json_text(token_json(token)));
    encode_utf8_decode_utf8(json_text(token_json(other)));
    assert(token_json(token).member("token"@) == Json::Text(token));
    assert(token_json(other).member("token"@) == Json::Text(other));
    token_determines_claims(
        cfg,
        cfg,
        room,
        username,
        avatar,
        times.issued,
        jti,
        other_room,
        other_username,
        other_avatar,
        other_times.issued,
        other_jti,
    );
}

/// A body that is announced as too long is refused as such and changes nothing.
pub proof fn oversized_body_is_refused(
    cfg: Config,
    memory: Memory,
    task: Task,
    declared: usize,
    read: Option<Seq<u8>>,
    times: Times,
    jti: Seq<char>,
)
    requires
        declared > MAX_BODY,
        task != Task::Leave,
    ensures
        finished(cfg, memory, task, body_text(Some(declared), read), times, jti) == (
            memory,
            refusal(cfg, 413, "too large"@),
        ),
{
}

/// An avatar is one of those that there are, whatever a document asks for.
pub proof fn avatar_is_bounded(document: Json)
    ensures
        avatar_member(document) <= MAX_AVATAR,
{
}

/// What is answered at once, and that it changes nothing: all is well, where to connect, the page,
/// the icon, what is allowed, and that nothing is there.
pub proof fn plain_answers_are_these(cfg: Config, memory: Memory, ip: Seq<char>, now: u64)
    ensures
        ({
            let origin = cfg.allowed_origin@;
            let health = handled(cfg, memory, Route::Health, ip, now);
            let config = handled(cfg, memory, Route::Config, ip, now);
            let missing = handled(cfg, memory, Route::NotFound, ip, now);
            &&& health == (memory, Next::Reply(json_reply(200, ok_json(), origin)))
            &&& config == (
                memory,
                Next::Reply(json_reply(200, config_json(cfg.livekit_url@), origin)),
            )
            &&& missing == (memory, Next::Reply(json_reply(404, error_json("not found"@), origin)))
            &&& handled(cfg, memory, Route::Index, ip, now) == (memory, Next::Index)
            &&& handled(cfg, memory, Route::Favicon, ip, now) == (
                memory,
                Next::Reply(empty_reply(204)),
            )
            &&& handled(cfg, memory, Route::Options, ip, now) == (
                memory,
                Next::Reply(options_reply(origin)),
            )
        }),
{
}

/// Clients who ask for the set-up are told to connect where the server was set up to send them.
pub proof fn clients_are_sent_to_the_set_up_address(
    cfg: Config,
    memory: Memory,
    ip: Seq<char>,
    now: u64,
)
    ensures
        match handled_document(cfg, memory, Route::Config, ip, now) {
            Some(document) => {
                &&& document.member("livekit_url"@) == Json::Text(cfg.livekit_url@)
                &&& document.member("version"@) == Json::Text(VERSION@)
                &&& has_just(document, set!["livekit_url"@, "version"@])
            },
            None => false,
        },
{
    config_members(cfg.livekit_url@);
}

/// The list of rooms that is answered has one element for each room that is fresh at `now`, and no
/// others, in the order of the bytes of their names; each shows the name of the room and how many
/// people are in it. The rooms that are not fresh are forgotten, and nothing else.
pub proof fn answered_list_shows_the_rooms(cfg: Config, memory: Memory, ip: Seq<char>, now: u64)
    requires
        memory.rooms.dom().finite(),
    ensures
        match handled_document(cfg, memory, Route::ListRooms, ip, now) {
            Some(Json::Array(items)) => {
                &&& forall|i: int|
                    0 <= i < items.len() ==> {
                        let name = (#[trigger] items[i]).member("name"@)->Text_0;
                        &&& items[i].member("name"@) is Text
                        &&& is_fresh(memory, name, now)
                        &&& items[i].member("count"@).whole() == Some(
                            memory.rooms[name].count as u64,
                        )
                        &&& has_just(items[i], set!["name"@, "count"@])
                    }
                &&& forall|i: int, j: int|
                    0 <= i < j < items.len() ==> bytes_before(
                        encode_utf8((#[trigger] items[i]).member("name"@)->Text_0),
                        encode_utf8((#[trigger] items[j]).member("name"@)->Text_0),
                    )
                &&& forall|name: Seq<char>| #[trigger]
                    is_fresh(memory, name, now) ==> exists|i: int|
                        0 <= i < items.len() && (#[trigger] items[i]).member("name"@) == Json::Text(
                            name,
                        )
            },
            _ => false,
        },
        match handled(cfg, memory, Route::ListRooms, ip, now).1 {
            Next::Reply(reply) => reply.status == 200,
            _ => false,
        },
        forall|name: Seq<char>|
            {
                let next = handled(cfg, memory, Route::ListRooms, ip, now).0.rooms;
                &&& next.contains_key(name) <==> #[trigger] is_fresh(memory, name, now)
                &&& next.contains_key(name) ==> next[name] == memory.rooms[name]
            },
        ({
            let next = handled(cfg, memory, Route::ListRooms, ip, now).0;
            &&& next.nicks == memory.nicks
            &&& next.rate_tok == memory.rate_tok
            &&& next.rate_room == memory.rate_room
            &&& next.rate_check == memory.rate_check
        }),
{
    let rooms = live_rooms(memory.rooms, now);
    let list = listing(rooms);
    assert(rooms.dom().subset_of(memory.rooms.dom()));
    vstd::set_lib::lemma_len_subset(rooms.dom(), memory.rooms.dom());
    listing_is_complete(rooms);
    rooms_elements(list);
    assert forall|name: Seq<char>| #[trigger] rooms.contains_key(name) implies is_fresh(
        memory,
        name,
        now,
    ) && rooms[name] == memory.rooms[name] by {
        fresh_rooms_are_kept(memory.rooms, name, now);
    }
    assert forall|name: Seq<char>| #[trigger] is_fresh(memory, name, now) implies rooms.contains_key(
        name,
    ) by {
        fresh_rooms_are_kept(memory.rooms, name, now);
    }
    let items = rooms_json(list)->Array_0;
    assert forall|i: int| 0 <= i < items.len() implies {
        let name = (#[trigger] items[i]).member("name"@)->Text_0;
        &&& items[i].member("name"@) is Text
        &&& is_fresh(memory, name, now)
        &&& items[i].member("count"@).whole() == Some(memory.rooms[name].count as u64)
        &&& has_just(items[i], set!["name"@, "count"@])
    } by {
        assert(rooms.contains_key(list[i].0));
    }
    assert forall|i: int, j: int| 0 <= i < j < items.len() implies bytes_before(
        encode_utf8((#[trigger] items[i]).member("name"@)->Text_0),
        encode_utf8((#[trigger] items[j]).member("name"@)->Text_0),
    ) by {
        listing_is_in_byte_order(list, rooms, i, j);
    }
    assert forall|name: Seq<char>| #[trigger] is_fresh(memory, name, now) implies exists|i: int|
        0 <= i < items.len() && (#[trigger] items[i]).member("name"@) == Json::Text(name) by {
        assert(rooms.contains_key(name));
        let i = choose|i: int| 0 <= i < list.len() && (#[trigger] list[i]).0 == name;
        assert(items[i].member("name"@) == Json::Text(name));
    }
}

/// The room exists and was made less than the time limit before `now`, leaving out time zero.
pub open spec fn is_fresh(memory: Memory, name: Seq<char>, now: u64) -> bool {
    memory.rooms.contains_key(name) && memory.rooms[name].created_at > 0 && now
        - memory.rooms[name].created_at < ROOM_TTL
}

/// The page is answered as it was read; where it could not be read, that is answered.
pub proof fn page_is_answered(cfg: Config, page: Seq<u8>)
    ensures
        index_reply(cfg, Some(page)) == html_reply(page),
        index_reply(cfg, None) == json_reply(500, error_json("not found"@), cfg.allowed_origin@),
{
}

/// Requests for different tasks are counted apart: one for a task is only counted for that task, and
/// what its address may ask for otherwise stays the same. One that is refused is told so; to leave
/// is never refused and never counted.
pub proof fn tasks_are_counted_apart(
    cfg: Config,
    memory: Memory,
    task: Task,
    other: Task,
    ip: Seq<char>,
    now: u64,
)
    ensures
        ({
            let (next, step) = handled(cfg, memory, Route::Body(task), ip, now);
            &&& other != task ==> windows_for(next, other) == windows_for(memory, other)
            &&& task != Task::Leave ==> windows_for(next, task) == with_request(
                windows_for(memory, task),
                ip,
                limit_for(task),
                RATE_WINDOW,
                now,
            )
            &&& task == Task::Leave ==> next == memory && step == Next::Body(task)
            &&& next.rooms == memory.rooms && next.nicks == memory.nicks
            &&& step == Next::Body(task) || step == Next::Reply(
                json_reply(429, error_json("rate limit"@), cfg.allowed_origin@),
            )
        }),
{
}

/// A body that is missing, or no JSON, changes nothing. It is refused as too large or as no JSON, but
/// for somebody who leaves.
pub proof fn unreadable_bodies_are_refused(
    cfg: Config,
    memory: Memory,
    task: Task,
    text: Seq<char>,
    times: Times,
    jti: Seq<char>,
)
    ensures
        ({
            let origin = cfg.allowed_origin@;
            let missing = finished(cfg, memory, task, None, times, jti);
            let given = finished(cfg, memory, task, Some(text), times, jti);
            &&& missing.0 == memory
            &&& json_parsed(text) is None ==> given.0 == memory
            &&& task == Task::Leave ==> missing.1 == empty_reply(204) && given.1 == empty_reply(204)
            &&& task != Task::Leave ==> missing.1 == json_reply(
                413,
                error_json("too large"@),
                origin,
            )
            &&& task != Task::Leave && json_parsed(text) is None ==> given.1 == json_reply(
                400,
                error_json("invalid JSON"@),
                origin,
            )
            &&& json_parsed(text) is Some ==> given == answered(
                cfg,
                memory,
                task,
                json_parsed(text)->0,
                times,
                jti,
            )
        }),
{
}

/// The text that a document gives under a key counts without the white space at its ends, and as
/// empty where it is no text.
pub proof fn given_text_is_trimmed(document: Json, key: Seq<char>, text: Seq<char>)
    ensures
        document.member(key) == Json::Text(text) ==> text_member(document, key) == trimmed(text),
        !(document.member(key) is Text) ==> text_member(document, key).len() == 0,
{
}

/// Whoever asks for an avatar that there is gets that one; who asks for a larger number gets the
/// largest one, and who asks for none gets the one with number zero.
pub proof fn asked_avatar_is_given(document: Json, n: u64)
    ensures
        document.member("avatar"@).whole() == Some(n) && n <= MAX_AVATAR ==> avatar_member(document)
            == n,
        document.member("avatar"@).whole() == Some(n) && n > MAX_AVATAR ==> avatar_member(document)
            == MAX_AVATAR,
        document.member("avatar"@).whole() is None ==> avatar_member(document) == 0,
{
}

/// Whoever asks to make a room is answered that all is well where the name, without white space at
/// its ends, is that of a room and there is a place for a room. The room then exists, with those who
/// are in it if it existed, else made just then and with nobody in it. Otherwise they are told why,
/// and nothing changes.
pub proof fn making_a_room(
    cfg: Config,
    memory: Memory,
    document: Json,
    given: Seq<char>,
    times: Times,
    jti: Seq<char>,
)
    requires
        document.member("name"@) == Json::Text(given),
    ensures
        ({
            let origin = cfg.allowed_origin@;
            let name = trimmed(given);
            let (next, reply) = answered(cfg, memory, Task::CreateRoom, document, times, jti);
            &&& !room_name(name) ==> next == memory && reply == json_reply(
                400,
                error_json("некорректное название"@),
                origin,
            )
            &&& room_name(name) && memory.rooms.len() >= MAX_ROOMS ==> next == memory && reply
                == json_reply(429, error_json("слишком много комнат"@), origin)
            &&& room_name(name) && memory.rooms.len() < MAX_ROOMS ==> {
                &&& reply == json_reply(200, ok_json(), origin)
                &&& next.rooms.contains_key(name)
                &&& next.rooms.remove(name) == memory.rooms.remove(name)
                &&& memory.rooms.contains_key(name) ==> next == memory
                &&& !memory.rooms.contains_key(name) ==> next.rooms[name].created_at == times.added
                    && next.rooms[name].count == 0
                &&& next == (Memory { rooms: next.rooms, ..memory })
            }
        }),
{
    let name = trimmed(given);
    added_room_is_new(memory.rooms, name, times.added);
    let next = answered(cfg, memory, Task::CreateRoom, document, times, jti).0;
    assert(with_room(memory.rooms, name, times.added).remove(name) =~= memory.rooms.remove(name));
    assert(next.rooms == memory.rooms ==> next == memory);
}

/// Whoever asks about a name is told that it is free where nobody has it in the room, or more than
/// the time limit has passed since they took it, and that it is taken otherwise; nothing changes.
pub proof fn asking_about_a_name(
    cfg: Config,
    memory: Memory,
    document: Json,
    given_room: Seq<char>,
    given_name: Seq<char>,
    times: Times,
    jti: Seq<char>,
)
    requires
        document.member("room"@) == Json::Text(given_room),
        document.member("username"@) == Json::Text(given_name),
    ensures
        ({
            let origin = cfg.allowed_origin@;
            let (room, nick) = (trimmed(given_room), trimmed(given_name));
            let (next, reply) = answered(cfg, memory, Task::CheckNick, document, times, jti);
            let taken = memory.nicks.contains_key(room) && memory.nicks[room].contains_key(nick)
                && times.checked - memory.nicks[room][nick].registered_at <= NICK_TTL;
            &&& next == memory
            &&& !room_name(room) || !nick_name(nick) ==> reply == json_reply(
                400,
                error_json("invalid"@),
                origin,
            )
            &&& room_name(room) && nick_name(nick) ==> reply == json_reply(
                200,
                available_json(!taken),
                origin,
            )
        }),
{
    free_names_are_these(memory.nicks, trimmed(given_room), trimmed(given_name), times.checked);
}

/// Whoever asks for a token gets one for the room and the name that they gave, without white space
/// at the ends, and for the avatar that they asked for, where both names may be had and nobody has
/// the name in the room, or more than the time limit has passed since they took it. They then have
/// the name and are one more in the room, which is made if it does not exist and there is a place for
/// it. Otherwise they are told why, and nothing changes.
pub proof fn asking_for_a_token(
    cfg: Config,
    memory: Memory,
    document: Json,
    given_room: Seq<char>,
    given_name: Seq<char>,
    times: Times,
    jti: Seq<char>,
)
    requires
        document.member("room"@) == Json::Text(given_room),
        document.member("username"@) == Json::Text(given_name),
    ensures
        ({
            let origin = cfg.allowed_origin@;
            let (room, name) = (trimmed(given_room), trimmed(given_name));
            let avatar: u8 = match document.member("avatar"@).whole() {
                Some(n) => if n <= MAX_AVATAR {
                    n as u8
                } else {
                    MAX_AVATAR as u8
                },
                None => 0,
            };
            let (next, reply) = answered(cfg, memory, Task::IssueToken, document, times, jti);
            let taken = memory.nicks.contains_key(room) && memory.nicks[room].contains_key(name)
                && times.checked - memory.nicks[room][name].registered_at <= NICK_TTL;
            &&& !room_name(room) ==> next == memory && reply == json_reply(
                400,
                error_json("некорректная комната"@),
                origin,
            )
            &&& room_name(room) && !nick_name(name) ==> next == memory && reply == json_reply(
                400,
                error_json("некорректное имя"@),
                origin,
            )
            &&& room_name(room) && nick_name(name) && taken ==> next == memory && reply
                == json_reply(409, error_json("ник занят"@), origin)
            &&& room_name(room) && nick_name(name) && !taken ==> {
                &&& reply == json_reply(
                    200,
                    token_json(room_token(cfg, room, name, avatar, times.issued, jti)),
                    origin,
                )
                &&& next.nicks == with_nick(memory.nicks, room, name, avatar, times.taken)
                &&& next.rooms.remove(room) == memory.rooms.remove(room)
                &&& memory.rooms.contains_key(room) ==> next.rooms.contains_key(room)
                    && next.rooms[room].created_at == memory.rooms[room].created_at && (
                memory.rooms[room].count < u32::MAX ==> next.rooms[room].count
                    == memory.rooms[room].count + 1) && (memory.rooms[room].count == u32::MAX
                    ==> next.rooms[room].count == u32::MAX)
                &&& !memory.rooms.contains_key(room) && memory.rooms.len() < MAX_ROOMS
                    ==> next.rooms.contains_key(room) && next.rooms[room].created_at == times.added
                    && next.rooms[room].count == 1
                &&& !memory.rooms.contains_key(room) && memory.rooms.len() >= MAX_ROOMS
                    ==> next.rooms == memory.rooms
                &&& next == (Memory { rooms: next.rooms, nicks: next.nicks, ..memory })
            }
        }),
{
    let (room, name) = (trimmed(given_room), trimmed(given_name));
    free_names_are_these(memory.nicks, room, name, times.checked);
    added_room_is_new(memory.rooms, room, times.added);
    let added = with_room(memory.rooms, room, times.added);
    people_are_counted(added, room);
    assert(with_entry(added, room).remove(room) =~= memory.rooms.remove(room));
}

/// Whoever leaves a room under a name gives the name up there, and is one less in the room; where
/// one of the names cannot be had nothing changes. There is never anything to answer.
pub proof fn leaving_a_room(
    cfg: Config,
    memory: Memory,
    document: Json,
    given_room: Seq<char>,
    given_name: Seq<char>,
    times: Times,
    jti: Seq<char>,
)
    requires
        document.member("room"@) == Json::Text(given_room),
        document.member("username"@) == Json::Text(given_name),
    ensures
        ({
            let (room, name) = (trimmed(given_room), trimmed(given_name));
            let (next, reply) = answered(cfg, memory, Task::Leave, document, times, jti);
            &&& reply == empty_reply(204)
            &&& !room_name(room) || !nick_name(name) ==> next == memory
            &&& room_name(room) && nick_name(name) ==> {
                &&& next.nicks == without_nick(memory.nicks, room, name)
                &&& next.rooms.remove(room) == memory.rooms.remove(room)
                &&& !memory.rooms.contains_key(room) ==> next.rooms == memory.rooms
                &&& memory.rooms.contains_key(room) ==> next.rooms.contains_key(room)
                    && next.rooms[room].created_at == memory.rooms[room].created_at && (
                memory.rooms[room].count > 0 ==> next.rooms[room].count == memory.rooms[room].count
                    - 1) && (memory.rooms[room].count == 0 ==> next.rooms[room].count == 0)
                &&& next == (Memory { rooms: next.rooms, nicks: next.nicks, ..memory })
            }
        }),
{
    let room = trimmed(given_room);
    people_are_counted(memory.rooms, room);
    assert(with_exit(memory.rooms, room).remove(room) =~= memory.rooms.remove(room));
}

/// A document that does not give a text where a name is asked for is refused, and changes nothing.
pub proof fn names_have_to_be_texts(
    cfg: Config,
    memory: Memory,
    document: Json,
    times: Times,
    jti: Seq<char>,
)
    ensures
        ({
            let origin = cfg.allowed_origin@;
            let no_name = !(document.member("name"@) is Text);
            let no_room = !(document.member("room"@) is Text);
            let no_person = !(document.member("username"@) is Text);
            &&& no_name ==> answered(cfg, memory, Task::CreateRoom, document, times, jti) == (
                memory,
                json_reply(400, error_json("некорректное название"@), origin),
            )
            &&& no_room || no_person ==> answered(
                cfg,
                memory,
                Task::CheckNick,
                document,
                times,
                jti,
            ) == (memory, json_reply(400, error_json("invalid"@), origin))
            &&& no_room ==> answered(cfg, memory, Task::IssueToken, document, times, jti) == (
                memory,
                json_reply(400, error_json("некорректная комната"@), origin),
            )
            &&& no_person ==> {
                let (next, reply) = answered(cfg, memory, Task::IssueToken, document, times, jti);
                next == memory && reply.status == 400
            }
            &&& no_room || no_person ==> answered(
                cfg,
                memory,
                Task::Leave,
                document,
                times,
                jti,
            ) == (memory, empty_reply(204))
        }),
{
}

/// Something that happens to a server: a request comes in, or the body of one is dealt with.
pub enum Event {
    Request { route: Route, ip: Seq<char>, now: u64 },
    Body { task: Task, body: Option<Seq<char>>, times: Times, jti: Seq<char> },
}

/// The memory after an event.
pub open spec fn after_event(cfg: Config, memory: Memory, event: Event) -> Memory {
    match event {
        Event::Request { route, ip, now } => handled(cfg, memory, route, ip, now).0,
        Event::Body { task, body, times, jti } => finished(
            cfg,
            memory,
            task,
            body,
            times,
            jti,
        ).0,
    }
}

/// The memory after a run of events.
pub open spec fn after_events(cfg: Config, memory: Memory, events: Seq<Event>) -> Memory
    decreases events.len(),
{
    if events.len() == 0 {
        memory
    } else {
        after_event(cfg, after_events(cfg, memory, events.drop_last()), events.last())
    }
}

/// The windows in which requests for a task are counted.
pub open spec fn windows_for(memory: Memory, task: Task) -> WindowMap {
    match task {
        Task::CreateRoom => memory.rate_room,
        Task::CheckNick => memory.rate_check,
        Task::IssueToken => memory.rate_tok,
        Task::Leave => Map::empty(),
    }
}

/// How many requests for a task an address may make in one window.
pub open spec fn limit_for(task: Task) -> u32 {
    match task {
        Task::CreateRoom => ROOM_LIMIT,
        Task::CheckNick => CHECK_LIMIT,
        Task::IssueToken => TOKEN_LIMIT,
        Task::Leave => u32::MAX,
    }
}

/// The event is a request for the task.
pub open spec fn asks_for(event: Event, task: Task) -> bool {
    event is Request && event->route == Route::Body(task)
}

/// The requests for a task among the events, each by its address and time.
pub open spec fn requests_for(events: Seq<Event>, task: Task) -> Seq<(Seq<char>, u64)>
    decreases events.len(),
{
    if events.len() == 0 {
        Seq::empty()
    } else {
        let earlier = requests_for(events.drop_last(), task);
        if asks_for(events.last(), task) {
            earlier.push((events.last()->ip, events.last()->now))
        } else {
            earlier
        }
    }
}

/// How many requests of an address for a task get as far as their body in a run of events.
pub open spec fn let_in(
    cfg: Config,
    memory: Memory,
    events: Seq<Event>,
    task: Task,
    ip: Seq<char>,
) -> nat
    decreases events.len(),
{
    if events.len() == 0 {
        0
    } else {
        let earlier = after_events(cfg, memory, events.drop_last());
        let last = events.last();
        let_in(cfg, memory, events.drop_last(), task, ip) + (if asks_for(last, task) && last->ip
            == ip && handled(cfg, earlier, last->route, ip, last->now).1 == Next::Body(task) {
            1nat
        } else {
            0
        })
    }
}

proof fn events_are_counted(
    cfg: Config,
    memory: Memory,
    events: Seq<Event>,
    task: Task,
    ip: Seq<char>,
)
    requires
        task != Task::Leave,
    ensures
        windows_for(after_events(cfg, memory, events), task) == after_run(
            windows_for(memory, task),
            requests_for(events, task),
            limit_for(task),
            RATE_WINDOW,
        ),
        let_in(cfg, memory, events, task, ip) == passed(
            windows_for(memory, task),
            requests_for(events, task),
            ip,
            limit_for(task),
            RATE_WINDOW,
        ),
    decreases events.len(),
{
    if events.len() > 0 {
        let rest = events.drop_last();
        events_are_counted(cfg, memory, rest, task, ip);
        if asks_for(events.last(), task) {
            assert(requests_for(events, task).drop_last() =~= requests_for(rest, task));
        }
    }
}

/// The limits hold whatever else happens to the server: of the requests for a task that come in no
/// later than one window after the first of them, an address that was idle before gets all through,
/// up to the limit of the task, and no more.
pub proof fn requests_are_limited(
    cfg: Config,
    memory: Memory,
    events: Seq<Event>,
    task: Task,
    ip: Seq<char>,
)
    requires
        task != Task::Leave,
        requests_for(events, task).len() > 0,
        within_one_window(requests_for(events, task), RATE_WINDOW),
        idle(
            windows_for(memory, task),
            ip,
            RATE_WINDOW,
            requests_for(events, task).first().1,
        ),
    ensures
        let_in(cfg, memory, events, task, ip) == at_most(
            asked(requests_for(events, task), ip),
            limit_for(task),
        ),
{
    events_are_counted(cfg, memory, events, task, ip);
    limit_holds(
        windows_for(memory, task),
        requests_for(events, task),
        ip,
        limit_for(task),
        RATE_WINDOW,
    );
}

/// The first requests of an address in one window are let through, as many as the limit of the task
/// says, and the others are refused, whatever else happens to the server.
pub proof fn first_requests_are_let_in(
    cfg: Config,
    memory: Memory,
    events: Seq<Event>,
    task: Task,
    ip: Seq<char>,
    now: u64,
)
    requires
        task != Task::Leave,
        events.len() > 0,
        events.last() == (Event::Request { route: Route::Body(task), ip, now }),
        within_one_window(requests_for(events, task), RATE_WINDOW),
        idle(
            windows_for(memory, task),
            ip,
            RATE_WINDOW,
            requests_for(events, task).first().1,
        ),
    ensures
        handled(
            cfg,
            after_events(cfg, memory, events.drop_last()),
            Route::Body(task),
            ip,
            now,
        ).1 == (if asked(requests_for(events, task), ip) <= limit_for(task) {
            Next::Body(task)
        } else {
            Next::Reply(refusal(cfg, 429, "rate limit"@))
        }),
{
    let rest = events.drop_last();
    let requests = requests_for(events, task);
    events_are_counted(cfg, memory, rest, task, ip);
    assert(requests.drop_last() =~= requests_for(rest, task));
    first_requests_pass(windows_for(memory, task), requests, limit_for(task), RATE_WINDOW);
}

/// Whoever asks seldom is never refused, whatever else happens to the server: a request for a task is
/// let through if, in the time of one window up to it, fewer requests of its address were let through
/// for that task than its limit says.
pub proof fn seldom_requests_are_let_in(
    cfg: Config,
    events: Seq<Event>,
    task: Task,
    ip: Seq<char>,
    now: u64,
)
    requires
        events.len() > 0,
        events.last() == (Event::Request { route: Route::Body(task), ip, now }),
        in_order(requests_for(events, task)),
        passed_since(
            WindowMap::empty(),
            requests_for(events.drop_last(), task),
            ip,
            limit_for(task),
            RATE_WINDOW,
            now - RATE_WINDOW,
        ) < limit_for(task),
    ensures
        handled(
            cfg,
            after_events(cfg, no_memory(), events.drop_last()),
            Route::Body(task),
            ip,
            now,
        ).1 == Next::Body(task),
{
    if task != Task::Leave {
        let rest = events.drop_last();
        let requests = requests_for(events, task);
        events_are_counted(cfg, no_memory(), rest, task, ip);
        assert(requests.drop_last() =~= requests_for(rest, task));
        seldom_is_never_refused(requests, limit_for(task), RATE_WINDOW);
    }
}

/// In whatever order events come, a server that started empty never has more rooms than there may
/// be.
pub proof fn rooms_are_always_bounded(cfg: Config, events: Seq<Event>)
    ensures
        bounded(after_events(cfg, no_memory(), events)),
    decreases events.len(),
{
    if events.len() > 0 {
        rooms_are_always_bounded(cfg, events.drop_last());
        let memory = after_events(cfg, no_memory(), events.drop_last());
        match events.last() {
            Event::Request { route, ip, now } => {
                rooms_stay_bounded(memory.rooms, Seq::empty(), now);
            },
            Event::Body { task, body, times, jti } => {
                rooms_are_bounded(
                    cfg,
                    memory,
                    Route::NotFound,
                    Seq::empty(),
                    0,
                    task,
                    body,
                    times,
                    jti,
                );
            },
        }
    }
}

/// Somebody has had the name in the room since the given time.
pub open spec fn holds(memory: Memory, room: Seq<char>, nick: Seq<char>, since: u64) -> bool {
    let people = people_in(memory.nicks, room);
    people.contains_key(nick) && people[nick].registered_at == since
}

/// The event says that whoever has the name left the room.
pub open spec fn gives_up(event: Event, room: Seq<char>, nick: Seq<char>) -> bool {
    match event {
        Event::Body { task: Task::Leave, body: Some(text), .. } => match json_parsed(text) {
            Some(document) => text_member(document, "room"@) == room && text_member(
                document,
                "username"@,
            ) == nick,
            None => false,
        },
        _ => false,
    }
}

/// The event takes place before the time limit of a name taken at `since` has passed.
pub open spec fn in_time(event: Event, since: u64) -> bool {
    match event {
        Event::Body { times, .. } => times.checked - since <= NICK_TTL && times.taken - since
            <= NICK_TTL,
        _ => true,
    }
}

proof fn event_keeps_the_name(
    cfg: Config,
    memory: Memory,
    event: Event,
    room: Seq<char>,
    nick: Seq<char>,
    since: u64,
)
    requires
        holds(memory, room, nick, since),
        !gives_up(event, room, nick),
        in_time(event, since),
    ensures
        holds(after_event(cfg, memory, event), room, nick, since),
{
    match event {
        Event::Body { task, body: Some(text), times, jti } => match json_parsed(text) {
            Some(document) => {
                let r = text_member(document, "room"@);
                let n = text_member(document, "username"@);
                match task {
                    Task::IssueToken => {
                        if token_granted(memory, r, n, times) {
                            assert(r != room || n != nick);
                            let present = keep_if(
                                people_in(memory.nicks, r),
                                |held: Nick| !expired(held, times.taken),
                            );
                            if r == room {
                                assert(present.contains_key(nick) && present[nick] == people_in(
                                    memory.nicks,
                                    room,
                                )[nick]);
                            }
                        }
                    },
                    _ => {},
                }
            },
            None => {},
        },
        _ => {},
    }
}

/// Whoever has a name keeps it: whatever happens before the time limit has passed, short of them
/// leaving, the name stays theirs, and nobody else is granted it.
pub proof fn holder_keeps_the_name(
    cfg: Config,
    memory: Memory,
    events: Seq<Event>,
    room: Seq<char>,
    nick: Seq<char>,
    since: u64,
    times: Times,
)
    requires
        holds(memory, room, nick, since),
        forall|i: int|
            0 <= i < events.len() ==> !gives_up(#[trigger] events[i], room, nick) && in_time(
                events[i],
                since,
            ),
        times.checked - since <= NICK_TTL,
    ensures
        holds(after_events(cfg, memory, events), room, nick, since),
        !token_granted(after_events(cfg, memory, events), room, nick, times),
    decreases events.len(),
{
    if events.len() > 0 {
        let rest = events.drop_last();
        assert forall|i: int| 0 <= i < rest.len() implies !gives_up(
            #[trigger] rest[i],
            room,
            nick,
        ) && in_time(rest[i], since) by {
            assert(rest[i] == events[i]);
        }
        holder_keeps_the_name(cfg, memory, rest, room, nick, since, times);
        assert(events.last() == events[events.len() - 1]);
        event_keeps_the_name(
            cfg,
            after_events(cfg, memory, rest),
            events.last(),
            room,
            nick,
            since,
        );
    }
}

/// Whoever is granted a token has the name from then on.
pub proof fn granted_token_holds_the_name(
    cfg: Config,
    memory: Memory,
    room: Seq<char>,
    username: Seq<char>,
    avatar: u8,
    times: Times,
    jti: Seq<char>,
)
    requires
        token_granted(memory, room, username, times),
    ensures
        holds(
            token_issued(cfg, memory, room, username, avatar, times, jti).0,
            room,
            username,
            times.taken,
        ),
{
}

} // verus!
