//! What the server remembers, and how it answers requests.

use crate::clock::{now_secs, unix_secs};
use crate::config::Config;
use crate::documents::{
    available_json, available_value, config_json, config_value, error_json, error_value, ok_json,
    ok_value, rooms_json, rooms_value, token_json, token_value,
};
use crate::encoding::{hex_text, random_jti};
use crate::http::{
    bytes_view, empty, empty_reply, html_reply, html_resp, json_reply, json_resp, options_reply,
    options_resp, read_from, Method, Reply, Response,
};
use crate::json::{
    as_str, as_u64, json_model, json_parsed, member, parse, reads_back, small_is_writable, Json,
};
use crate::jwt::{build_token_at, claims_read_back, room_token};
use crate::names::{nick_name, room_name, valid_name, valid_room};
use crate::nicks::{nick_available, with_nick, without_nick, NickMap, Nicks};
use crate::rate::{admitted, with_request, RateLimit, WindowMap};
use crate::rooms::{
    listing, listing_unique, live_rooms, rooms_full, summaries, with_entry, with_exit, with_room,
    RoomInfo, Rooms,
};
use crate::routes::{route, route_of, Route, Task};
use crate::text::{text_view, trimmed};
use std::time::SystemTime;
use vstd::prelude::*;

verus! {

/// The span of time, in seconds, in which requests are counted.
pub const RATE_WINDOW: u64 = 60;

/// How many rooms an address may make in that span.
pub const ROOM_LIMIT: u32 = 5;

/// How many names an address may ask about in that span.
pub const CHECK_LIMIT: u32 = 30;

/// How many tokens an address may ask for in that span.
pub const TOKEN_LIMIT: u32 = 10;

/// The largest avatar number.
pub const MAX_AVATAR: u64 = 15;

/// The readings of the clock while a body is dealt with.
#[derive(Clone, Copy)]
pub struct Times {
    /// When it was looked up whether a name is free.
    pub checked: u64,
    /// When the name was taken.
    pub taken: u64,
    /// When the room was added.
    pub added: u64,
    /// When the token was made.
    pub issued: u64,
}

/// What the server remembers.
pub struct Memory {
    pub rooms: Map<Seq<char>, RoomInfo>,
    pub nicks: NickMap,
    pub rate_tok: WindowMap,
    pub rate_room: WindowMap,
    pub rate_check: WindowMap,
}

/// What comes next for a request: an answer, the page from the disk, or the body of the request.
pub enum Step {
    Reply(Response),
    Index,
    Body(Task),
}

/// What comes next for a request.
pub enum Next {
    Reply(Reply),
    Index,
    Body(Task),
}

impl View for Step {
    type V = Next;

    open spec fn view(&self) -> Next {
        match self {
            Step::Reply(r) => Next::Reply(r@),
            Step::Index => Next::Index,
            Step::Body(task) => Next::Body(*task),
        }
    }
}

/// What comes next is what the step says.
pub proof fn steps_are_faithful(response: Response, task: Task)
    ensures
        Step::Reply(response)@ == Next::Reply(response@),
        Step::Index@ == Next::Index,
        Step::Body(task)@ == Next::Body(task),
{
}

/// The memory of a server that has just started.
pub open spec fn no_memory() -> Memory {
    Memory {
        rooms: Map::empty(),
        nicks: Map::empty(),
        rate_tok: Map::empty(),
        rate_room: Map::empty(),
        rate_check: Map::empty(),
    }
}

/// The answer with which a request is refused.
pub open spec fn refusal(cfg: Config, status: u16, message: Seq<char>) -> Reply {
    json_reply(status, error_json(message), cfg.allowed_origin@)
}

/// Whether the request of an address for a task is let through at `now`.
pub open spec fn task_admitted(memory: Memory, task: Task, ip: Seq<char>, now: u64) -> bool {
    match task {
        Task::CreateRoom => admitted(memory.rate_room, ip, ROOM_LIMIT, RATE_WINDOW, now),
        Task::CheckNick => admitted(memory.rate_check, ip, CHECK_LIMIT, RATE_WINDOW, now),
        Task::IssueToken => admitted(memory.rate_tok, ip, TOKEN_LIMIT, RATE_WINDOW, now),
        Task::Leave => true,
    }
}

/// The memory after a request of an address for a task at `now` was counted.
pub open spec fn task_counted(memory: Memory, task: Task, ip: Seq<char>, now: u64) -> Memory {
    match task {
        Task::CreateRoom => Memory {
            rate_room: with_request(memory.rate_room, ip, ROOM_LIMIT, RATE_WINDOW, now),
            ..memory
        },
        Task::CheckNick => Memory {
            rate_check: with_request(memory.rate_check, ip, CHECK_LIMIT, RATE_WINDOW, now),
            ..memory
        },
        Task::IssueToken => Memory {
            rate_tok: with_request(memory.rate_tok, ip, TOKEN_LIMIT, RATE_WINDOW, now),
            ..memory
        },
        Task::Leave => memory,
    }
}

/// The memory after a request came in, and what comes next for it.
pub open spec fn handled(
    cfg: Config,
    memory: Memory,
    route: Route,
    ip: Seq<char>,
    now: u64,
) -> (Memory, Next) {
    let origin = cfg.allowed_origin@;
    match route {
        Route::Options => (memory, Next::Reply(options_reply(origin))),
        Route::Index => (memory, Next::Index),
        Route::Favicon => (memory, Next::Reply(empty_reply(204))),
        Route::Health => (memory, Next::Reply(json_reply(200, ok_json(), origin))),
        Route::Config => (
            memory,
            Next::Reply(json_reply(200, config_json(cfg.livekit_url@), origin)),
        ),
        Route::ListRooms => {
            let rooms = live_rooms(memory.rooms, now);
            (
                Memory { rooms, ..memory },
                Next::Reply(json_reply(200, rooms_json(listing(rooms)), origin)),
            )
        },
        Route::Body(task) => (
            task_counted(memory, task, ip, now),
            if task_admitted(memory, task, ip, now) {
                Next::Body(task)
            } else {
                Next::Reply(refusal(cfg, 429, "rate limit"@))
            },
        ),
        Route::NotFound => (memory, Next::Reply(refusal(cfg, 404, "not found"@))),
    }
}

/// The memory after somebody asked to make a room at `now`, and the answer.
pub open spec fn room_created(cfg: Config, memory: Memory, name: Seq<char>, now: u64) -> (
    Memory,
    Reply,
) {
    if !room_name(name) {
        (memory, refusal(cfg, 400, "некорректное название"@))
    } else if rooms_full(memory.rooms) {
        (memory, refusal(cfg, 429, "слишком много комнат"@))
    } else {
        (
            Memory { rooms: with_room(memory.rooms, name, now), ..memory },
            json_reply(200, ok_json(), cfg.allowed_origin@),
        )
    }
}

/// The answer to somebody who asks at `now` whether a name is free in a room.
pub open spec fn nick_checked(
    cfg: Config,
    memory: Memory,
    room: Seq<char>,
    nick: Seq<char>,
    now: u64,
) -> Reply {
    if !room_name(room) || !nick_name(nick) {
        refusal(cfg, 400, "invalid"@)
    } else {
        json_reply(
            200,
            available_json(nick_available(memory.nicks, room, nick, now)),
            cfg.allowed_origin@,
        )
    }
}

/// A request for a token is granted.
pub open spec fn token_granted(
    memory: Memory,
    room: Seq<char>,
    username: Seq<char>,
    times: Times,
) -> bool {
    room_name(room) && nick_name(username) && nick_available(
        memory.nicks,
        room,
        username,
        times.checked,
    )
}

/// The memory after somebody asked for a token, and the answer.
pub open spec fn token_issued(
    cfg: Config,
    memory: Memory,
    room: Seq<char>,
    username: Seq<char>,
    avatar: u8,
    times: Times,
    jti: Seq<char>,
) -> (Memory, Reply) {
    if !room_name(room) {
        (memory, refusal(cfg, 400, "некорректная комната"@))
    } else if !nick_name(username) {
        (memory, refusal(cfg, 400, "некорректное имя"@))
    } else if !nick_available(memory.nicks, room, username, times.checked) {
        (memory, refusal(cfg, 409, "ник занят"@))
    } else {
        (
            Memory {
                nicks: with_nick(memory.nicks, room, username, avatar, times.taken),
                rooms: with_entry(with_room(memory.rooms, room, times.added), room),
                ..memory
            },
            json_reply(
                200,
                token_json(room_token(cfg, room, username, avatar, times.issued, jti)),
                cfg.allowed_origin@,
            ),
        )
    }
}

/// The memory after somebody said that they left a room.
pub open spec fn room_left(memory: Memory, room: Seq<char>, nick: Seq<char>) -> Memory {
    if room_name(room) && nick_name(nick) {
        Memory {
            nicks: without_nick(memory.nicks, room, nick),
            rooms: with_exit(memory.rooms, room),
            ..memory
        }
    } else {
        memory
    }
}

/// The text of a member without white space at its ends; empty where it is no string.
pub open spec fn text_member(document: Json, key: Seq<char>) -> Seq<char> {
    match document.member(key).text() {
        Some(text) => trimmed(text),
        None => Seq::empty(),
    }
}

/// The avatar that a document asks for: zero where it names none, at most the largest.
pub open spec fn avatar_member(document: Json) -> u8 {
    match document.member("avatar"@).whole() {
        Some(n) => if n <= MAX_AVATAR {
            n as u8
        } else {
            MAX_AVATAR as u8
        },
        None => 0,
    }
}

/// The memory after the document in the body of a request was dealt with, and the answer.
pub open spec fn answered(
    cfg: Config,
    memory: Memory,
    task: Task,
    document: Json,
    times: Times,
    jti: Seq<char>,
) -> (Memory, Reply) {
    let room = text_member(document, "room"@);
    let username = text_member(document, "username"@);
    match task {
        Task::CreateRoom => room_created(
            cfg,
            memory,
            text_member(document, "name"@),
            times.added,
        ),
        Task::CheckNick => (memory, nick_checked(cfg, memory, room, username, times.checked)),
        Task::IssueToken => token_issued(
            cfg,
            memory,
            room,
            username,
            avatar_member(document),
            times,
            jti,
        ),
        Task::Leave => (room_left(memory, room, username), empty_reply(204)),
    }
}

/// The memory after the body of a request was dealt with, and the answer. Where there is no body, or
/// it is no JSON, nothing changes.
pub open spec fn finished(
    cfg: Config,
    memory: Memory,
    task: Task,
    body: Option<Seq<char>>,
    times: Times,
    jti: Seq<char>,
) -> (Memory, Reply) {
    match body {
        None => (
            memory,
            if task == Task::Leave {
                empty_reply(204)
            } else {
                refusal(cfg, 413, "too large"@)
            },
        ),
        Some(text) => match json_parsed(text) {
            None => (
                memory,
                if task == Task::Leave {
                    empty_reply(204)
                } else {
                    refusal(cfg, 400, "invalid JSON"@)
                },
            ),
            Some(document) => answered(cfg, memory, task, document, times, jti),
        },
    }
}

/// The document in the answer to a request that came in; none where the answer has none, or does not
/// come yet.
pub open spec fn handled_document(
    cfg: Config,
    memory: Memory,
    route: Route,
    ip: Seq<char>,
    now: u64,
) -> Option<Json> {
    match route {
        Route::Options | Route::Index | Route::Favicon => None,
        Route::Health => Some(ok_json()),
        Route::Config => Some(config_json(cfg.livekit_url@)),
        Route::ListRooms => Some(rooms_json(listing(live_rooms(memory.rooms, now)))),
        Route::Body(task) => if task_admitted(memory, task, ip, now) {
            None
        } else {
            Some(error_json("rate limit"@))
        },
        Route::NotFound => Some(error_json("not found"@)),
    }
}

/// The document in the answer to somebody who asked to make a room.
pub open spec fn room_document(memory: Memory, name: Seq<char>) -> Json {
    if !room_name(name) {
        error_json("некорректное название"@)
    } else if rooms_full(memory.rooms) {
        error_json("слишком много комнат"@)
    } else {
        ok_json()
    }
}

/// The document in the answer to somebody who asks at `now` whether a name is free in a room.
pub open spec fn nick_document(memory: Memory, room: Seq<char>, nick: Seq<char>, now: u64) -> Json {
    if !room_name(room) || !nick_name(nick) {
        error_json("invalid"@)
    } else {
        available_json(nick_available(memory.nicks, room, nick, now))
    }
}

/// The document in the answer to somebody who asked for a token.
pub open spec fn token_document(
    cfg: Config,
    memory: Memory,
    room: Seq<char>,
    username: Seq<char>,
    avatar: u8,
    times: Times,
    jti: Seq<char>,
) -> Json {
    if !room_name(room) {
        error_json("некорректная комната"@)
    } else if !nick_name(username) {
        error_json("некорректное имя"@)
    } else if !nick_available(memory.nicks, room, username, times.checked) {
        error_json("ник занят"@)
    } else {
        token_json(room_token(cfg, room, username, avatar, times.issued, jti))
    }
}

/// The document in the answer to the document in the body of a request; none for somebody who leaves.
pub open spec fn answered_document(
    cfg: Config,
    memory: Memory,
    task: Task,
    document: Json,
    times: Times,
    jti: Seq<char>,
) -> Option<Json> {
    let room = text_member(document, "room"@);
    let username = text_member(document, "username"@);
    match task {
        Task::CreateRoom => Some(room_document(memory, text_member(document, "name"@))),
        Task::CheckNick => Some(nick_document(memory, room, username, times.checked)),
        Task::IssueToken => Some(
            token_document(cfg, memory, room, username, avatar_member(document), times, jti),
        ),
        Task::Leave => None,
    }
}

/// The document in the answer to the body of a request; none for somebody who leaves.
pub open spec fn finished_document(
    cfg: Config,
    memory: Memory,
    task: Task,
    body: Option<Seq<char>>,
    times: Times,
    jti: Seq<char>,
) -> Option<Json> {
    if task == Task::Leave {
        None
    } else {
        match body {
            None => Some(error_json("too large"@)),
            Some(text) => match json_parsed(text) {
                None => Some(error_json("invalid JSON"@)),
                Some(document) => answered_document(cfg, memory, task, document, times, jti),
            },
        }
    }
}

/// Where the document in the body of a request is granted a token, what the token claims reads back.
pub open spec fn answered_claims_read_back(
    cfg: Config,
    memory: Memory,
    task: Task,
    document: Json,
    times: Times,
    jti: Seq<char>,
) -> bool {
    let room = text_member(document, "room"@);
    let username = text_member(document, "username"@);
    task == Task::IssueToken && token_granted(memory, room, username, times) ==> claims_read_back(
        cfg.api_key@,
        room,
        username,
        avatar_member(document),
        times.issued,
        jti,
    )
}

/// Where the body of a request is granted a token, what the token claims reads back.
pub open spec fn finished_claims_read_back(
    cfg: Config,
    memory: Memory,
    task: Task,
    body: Option<Seq<char>>,
    times: Times,
    jti: Seq<char>,
) -> bool {
    match body {
        Some(text) => match json_parsed(text) {
            Some(document) => answered_claims_read_back(cfg, memory, task, document, times, jti),
            None => true,
        },
        None => true,
    }
}

/// Whoever reads the answer gets this document.
pub open spec fn carries(reply: Reply, document: Json) -> bool {
    reads_back(document) && read_from(reply) == Some(document)
}

/// Whoever reads the answer gets the document, where there is one.
pub open spec fn carries_any(reply: Reply, document: Option<Json>) -> bool {
    match document {
        Some(d) => carries(reply, d),
        None => true,
    }
}

/// The answer with the page, or to somebody who asked for it where it could not be read.
pub open spec fn index_reply(cfg: Config, page: Option<Seq<u8>>) -> Reply {
    match page {
        Some(bytes) => html_reply(bytes),
        None => refusal(cfg, 500, "not found"@),
    }
}

/// The server: how it is set up and what it remembers.
pub struct State {
    pub cfg: Config,
    pub rooms: Rooms,
    pub nicks: Nicks,
    pub rate_tok: RateLimit,
    pub rate_room: RateLimit,
    pub rate_check: RateLimit,
}

impl View for State {
    type V = Memory;

    open spec fn view(&self) -> Memory {
        Memory {
            rooms: self.rooms@,
            nicks: self.nicks@,
            rate_tok: self.rate_tok@,
            rate_room: self.rate_room@,
            rate_check: self.rate_check@,
        }
    }
}

/// The text of a member without white space at its ends; empty where it is no string.
fn text_field(document: &serde_json::Value, key: &str) -> (r: String)
    ensures
        r@ == text_member(json_model(*document), key@),
{
    match as_str(member(document, key)) {
        Some(text) => text.trim().to_owned(),
        None => String::new(),
    }
}

/// The avatar that a document asks for.
fn avatar_field(document: &serde_json::Value) -> (r: u8)
    ensures
        r == avatar_member(json_model(*document)),
{
    match as_u64(member(document, "avatar")) {
        Some(n) => if n <= MAX_AVATAR {
            n as u8
        } else {
            MAX_AVATAR as u8
        },
        None => 0,
    }
}

impl Times {
    /// Each of the times is what the clock shows at some point in time.
    pub open spec fn shown(self) -> bool {
        &&& exists|time: SystemTime| self.checked == #[trigger] unix_secs(time)
        &&& exists|time: SystemTime| self.taken == #[trigger] unix_secs(time)
        &&& exists|time: SystemTime| self.added == #[trigger] unix_secs(time)
        &&& exists|time: SystemTime| self.issued == #[trigger] unix_secs(time)
    }

    /// Reads the clock.
    pub fn read() -> (r: Self)
        ensures
            r.shown(),
    {
        let checked = now_secs();
        let taken = now_secs();
        let added = now_secs();
        let issued = now_secs();
        Times { checked, taken, added, issued }
    }
}

impl State {
    /// A server that has just started.
    pub fn new(cfg: Config) -> (r: Self)
        ensures
            r.cfg == cfg,
            r@ == no_memory(),
    {
        State {
            cfg,
            rooms: Rooms::new(),
            nicks: Nicks::new(),
            rate_tok: RateLimit::new(),
            rate_room: RateLimit::new(),
            rate_check: RateLimit::new(),
        }
    }

    fn error(&self, code: u16, message: &str) -> (r: Response)
        ensures
            r@ == refusal(self.cfg, code, message@),
            carries(r@, error_json(message@)),
    {
        let document = error_value(message);
        proof {
            small_is_writable(json_model(document));
        }
        json_resp(code, document, self.cfg.allowed_origin.as_str())
    }

    fn success(&self, document: serde_json::Value) -> (r: Response)
        requires
            json_model(document).plain(2),
        ensures
            r@ == json_reply(200, json_model(document), self.cfg.allowed_origin@),
            carries(r@, json_model(document)),
    {
        proof {
            small_is_writable(json_model(document));
        }
        json_resp(200, document, self.cfg.allowed_origin.as_str())
    }

    fn let_through(&mut self, task: Task, ip: &str, now: u64) -> (r: bool)
        ensures
            r == task_admitted(old(self)@, task, ip@, now),
            final(self)@ == task_counted(old(self)@, task, ip@, now),
            final(self).cfg == old(self).cfg,
    {
        match task {
            Task::CreateRoom => self.rate_room.check_at(ip, ROOM_LIMIT, RATE_WINDOW, now),
            Task::CheckNick => self.rate_check.check_at(ip, CHECK_LIMIT, RATE_WINDOW, now),
            Task::IssueToken => self.rate_tok.check_at(ip, TOKEN_LIMIT, RATE_WINDOW, now),
            Task::Leave => true,
        }
    }

    /// Takes a request in at `now`, and says what comes next for it.
    pub fn handle_at(&mut self, method: Method, path: &str, ip: &str, now: u64) -> (r: Step)
        ensures
            final(self).cfg == old(self).cfg,
            (final(self)@, r@) == handled(
                old(self).cfg,
                old(self)@,
                route_of(method, path@),
                ip@,
                now,
            ),
            handled_document(old(self).cfg, old(self)@, route_of(method, path@), ip@, now) is Some
                ==> r@ is Reply && carries_any(
                r@->Reply_0,
                handled_document(old(self).cfg, old(self)@, route_of(method, path@), ip@, now),
            ),
    {
        match route(method, path) {
            Route::Options => Step::Reply(options_resp(self.cfg.allowed_origin.as_str())),
            Route::Index => Step::Index,
            Route::Favicon => Step::Reply(empty(204)),
            Route::Health => Step::Reply(self.success(ok_value())),
            Route::Config => Step::Reply(
                self.success(config_value(self.cfg.livekit_url.as_str())),
            ),
            Route::ListRooms => {
                let list = self.rooms.list_at(now);
                proof {
                    listing_unique(summaries(list@), listing(self.rooms@), self.rooms@);
                }
                Step::Reply(self.success(rooms_value(&list)))
            },
            Route::Body(task) => if self.let_through(task, ip, now) {
                Step::Body(task)
            } else {
                Step::Reply(self.error(429, "rate limit"))
            },
            Route::NotFound => Step::Reply(self.error(404, "not found")),
        }
    }

    /// Takes a request in, now by the system clock, and says what comes next for it.
    pub fn handle(&mut self, method: Method, path: &str, ip: &str) -> (r: Step)
        ensures
            final(self).cfg == old(self).cfg,
            exists|time: SystemTime|
                {
                    let now = #[trigger] unix_secs(time);
                    let route = route_of(method, path@);
                    let document = handled_document(old(self).cfg, old(self)@, route, ip@, now);
                    &&& (final(self)@, r@) == handled(old(self).cfg, old(self)@, route, ip@, now)
                    &&& document is Some ==> r@ is Reply && carries_any(r@->Reply_0, document)
                },
    {
        let now = now_secs();
        self.handle_at(method, path, ip, now)
    }

    /// The response with the page, from what could be read of it.
    pub fn index(&self, page: Option<Vec<u8>>) -> (r: Response)
        ensures
            r@ == index_reply(self.cfg, bytes_view(page)),
            page is None ==> carries(r@, error_json("not found"@)),
    {
        match page {
            Some(bytes) => html_resp(bytes),
            None => self.error(500, "not found"),
        }
    }

    /// Makes a room at `now`, for somebody who asked for it.
    pub fn create_room(&mut self, name: String, now: u64) -> (r: Response)
        ensures
            final(self).cfg == old(self).cfg,
            (final(self)@, r@) == room_created(old(self).cfg, old(self)@, name@, now),
            carries(r@, room_document(old(self)@, name@)),
    {
        if !valid_room(name.as_str()) {
            return self.error(400, "некорректное название");
        }
        if !self.rooms.add_at(name, now) {
            return self.error(429, "слишком много комнат");
        }
        self.success(ok_value())
    }

    /// Tells at `now` whether a name is free in a room.
    pub fn check_nick(&self, room: &str, nick: &str, now: u64) -> (r: Response)
        ensures
            r@ == nick_checked(self.cfg, self@, room@, nick@, now),
            carries(r@, nick_document(self@, room@, nick@, now)),
    {
        if !valid_room(room) || !valid_name(nick) {
            return self.error(400, "invalid");
        }
        let available = self.nicks.is_available_at(room, nick, now);
        self.success(available_value(available))
    }

    /// Lets somebody enter a room under a name, if the name is free there.
    pub fn issue_token(
        &mut self,
        room: &str,
        username: &str,
        avatar: u8,
        times: Times,
        jti: &str,
    ) -> (r: Response)
        ensures
            final(self).cfg == old(self).cfg,
            (final(self)@, r@) == token_issued(
                old(self).cfg,
                old(self)@,
                room@,
                username@,
                avatar,
                times,
                jti@,
            ),
            carries(
                r@,
                token_document(
                    old(self).cfg,
                    old(self)@,
                    room@,
                    username@,
                    avatar,
                    times,
                    jti@,
                ),
            ),
            token_granted(old(self)@, room@, username@, times) ==> claims_read_back(
                old(self).cfg.api_key@,
                room@,
                username@,
                avatar,
                times.issued,
                jti@,
            ),
    {
        if !valid_room(room) {
            return self.error(400, "некорректная комната");
        }
        if !valid_name(username) {
            return self.error(400, "некорректное имя");
        }
        if !self.nicks.is_available_at(room, username, times.checked) {
            return self.error(409, "ник занят");
        }
        self.nicks.register_at(room, username, avatar, times.taken);
        self.rooms.add_at(room.to_owned(), times.added);
        self.rooms.inc(room);
        let token = build_token_at(&self.cfg, room, username, avatar, times.issued, jti);
        self.success(token_value(token.as_str()))
    }

    /// Notes that somebody left a room: their name there is free again.
    pub fn leave(&mut self, room: &str, nick: &str) -> (r: Response)
        ensures
            final(self).cfg == old(self).cfg,
            final(self)@ == room_left(old(self)@, room@, nick@),
            r@ == empty_reply(204),
    {
        if valid_room(room) && valid_name(nick) {
            self.nicks.release(room, nick);
            self.rooms.dec(room);
        }
        empty(204)
    }

    /// Deals with the document in the body of a request.
    pub fn answer(
        &mut self,
        task: Task,
        document: &serde_json::Value,
        times: Times,
        random: &[u8; 8],
    ) -> (r: Response)
        ensures
            final(self).cfg == old(self).cfg,
            (final(self)@, r@) == answered(
                old(self).cfg,
                old(self)@,
                task,
                json_model(*document),
                times,
                hex_text(random@),
            ),
            carries_any(
                r@,
                answered_document(
                    old(self).cfg,
                    old(self)@,
                    task,
                    json_model(*document),
                    times,
                    hex_text(random@),
                ),
            ),
            answered_claims_read_back(
                old(self).cfg,
                old(self)@,
                task,
                json_model(*document),
                times,
                hex_text(random@),
            ),
    {
        match task {
            Task::CreateRoom => {
                let name = text_field(document, "name");
                self.create_room(name, times.added)
            },
            Task::CheckNick => {
                let room = text_field(document, "room");
                let nick = text_field(document, "username");
                self.check_nick(room.as_str(), nick.as_str(), times.checked)
            },
            Task::IssueToken => {
                let room = text_field(document, "room");
                let username = text_field(document, "username");
                let avatar = avatar_field(document);
                let jti = random_jti(random);
                self.issue_token(room.as_str(), username.as_str(), avatar, times, jti.as_str())
            },
            Task::Leave => {
                let room = text_field(document, "room");
                let nick = text_field(document, "username");
                self.leave(room.as_str(), nick.as_str())
            },
        }
    }

    /// Deals with the body of a request, as far as it could be read.
    pub fn finish_at(
        &mut self,
        task: Task,
        body: Option<String>,
        times: Times,
        random: &[u8; 8],
    ) -> (r: Response)
        ensures
            final(self).cfg == old(self).cfg,
            (final(self)@, r@) == finished(
                old(self).cfg,
                old(self)@,
                task,
                text_view(body),
                times,
                hex_text(random@),
            ),
            carries_any(
                r@,
                finished_document(
                    old(self).cfg,
                    old(self)@,
                    task,
                    text_view(body),
                    times,
                    hex_text(random@),
                ),
            ),
            finished_claims_read_back(
                old(self).cfg,
                old(self)@,
                task,
                text_view(body),
                times,
                hex_text(random@),
            ),
    {
        match body {
            None => match task {
                Task::Leave => empty(204),
                _ => self.error(413, "too large"),
            },
            Some(text) => match parse(text.as_str()) {
                Err(_) => match task {
                    Task::Leave => empty(204),
                    _ => self.error(400, "invalid JSON"),
                },
                Ok(document) => self.answer(task, &document, times, random),
            },
        }
    }

    /// Deals with the body of a request, as far as it could be read, at the times that the system
    /// clock shows.
    pub fn finish(&mut self, task: Task, body: Option<String>, random: &[u8; 8]) -> (r: Response)
        ensures
            final(self).cfg == old(self).cfg,
            exists|times: Times|
                {
                    let (cfg, memory) = (old(self).cfg, old(self)@);
                    let (text, jti) = (text_view(body), hex_text(random@));
                    &&& #[trigger] times.shown()
                    &&& (final(self)@, r@) == finished(cfg, memory, task, text, times, jti)
                    &&& carries_any(r@, finished_document(cfg, memory, task, text, times, jti))
                    &&& finished_claims_read_back(cfg, memory, task, text, times, jti)
                },
    {
        let times = Times::read();
        self.finish_at(task, body, times, random)
    }
}

} // verus!
