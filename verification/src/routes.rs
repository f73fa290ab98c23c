//! Which request asks for what.

use crate::http::Method;
use crate::text::same_text;
use vstd::prelude::*;

verus! {

/// What a request with a body asks for.
#[derive(Clone, Copy, PartialEq, Eq, Structural)]
pub enum Task {
    CreateRoom,
    CheckNick,
    IssueToken,
    Leave,
}

/// What a request asks for.
#[derive(Clone, Copy, PartialEq, Eq, Structural)]
pub enum Route {
    Options,
    Index,
    Favicon,
    Health,
    Config,
    ListRooms,
    Body(Task),
    NotFound,
}

/// What a method and a path ask for.
pub open spec fn route_of(method: Method, path: Seq<char>) -> Route {
    match method {
        Method::Options => Route::Options,
        Method::Get => if path == "/"@ || path == "/index.html"@ {
            Route::Index
        } else if path == "/favicon.ico"@ {
            Route::Favicon
        } else if path == "/api/health"@ {
            Route::Health
        } else if path == "/api/config"@ {
            Route::Config
        } else if path == "/api/rooms"@ {
            Route::ListRooms
        } else {
            Route::NotFound
        },
        Method::Post => if path == "/api/rooms"@ {
            Route::Body(Task::CreateRoom)
        } else if path == "/api/check-nick"@ {
            Route::Body(Task::CheckNick)
        } else if path == "/api/token"@ {
            Route::Body(Task::IssueToken)
        } else if path == "/api/leave"@ {
            Route::Body(Task::Leave)
        } else {
            Route::NotFound
        },
        Method::Other => Route::NotFound,
    }
}

/// Each thing is asked for by its method and its paths alone: questions about what is allowed by any
/// path, and what no other method and path ask for is not found.
pub proof fn routes_are_these(method: Method, path: Seq<char>)
    ensures
        route_of(method, path) == Route::Options <==> method == Method::Options,
        route_of(method, path) == Route::Index <==> method == Method::Get && (path == "/"@ || path
            == "/index.html"@),
        route_of(method, path) == Route::Favicon <==> method == Method::Get && path
            == "/favicon.ico"@,
        route_of(method, path) == Route::Health <==> method == Method::Get && path
            == "/api/health"@,
        route_of(method, path) == Route::Config <==> method == Method::Get && path
            == "/api/config"@,
        route_of(method, path) == Route::ListRooms <==> method == Method::Get && path
            == "/api/rooms"@,
        route_of(method, path) == Route::Body(Task::CreateRoom) <==> method == Method::Post && path
            == "/api/rooms"@,
        route_of(method, path) == Route::Body(Task::CheckNick) <==> method == Method::Post && path
            == "/api/check-nick"@,
        route_of(method, path) == Route::Body(Task::IssueToken) <==> method == Method::Post && path
            == "/api/token"@,
        route_of(method, path) == Route::Body(Task::Leave) <==> method == Method::Post && path
            == "/api/leave"@,
{
    reveal_strlit("/");
    reveal_strlit("/index.html");
    reveal_strlit("/favicon.ico");
    reveal_strlit("/api/health");
    reveal_strlit("/api/config");
    reveal_strlit("/api/rooms");
    reveal_strlit("/api/check-nick");
    reveal_strlit("/api/token");
    reveal_strlit("/api/leave");
    assert("/"@.len() == 1 && "/api/rooms"@.len() == 10 && "/api/check-nick"@.len() == 15);
    assert("/index.html"@.len() == 11 && "/index.html"@[1] == 'i');
    assert("/api/health"@.len() == 11 && "/api/health"@[5] == 'h' && "/api/health"@[1] == 'a');
    assert("/api/config"@.len() == 11 && "/api/config"@[5] == 'c' && "/api/config"@[1] == 'a');
    assert("/favicon.ico"@.len() == 12);
    assert("/api/token"@.len() == 10 && "/api/token"@[5] == 't' && "/api/rooms"@[5] == 'r');
    assert("/api/leave"@.len() == 10 && "/api/leave"@[5] == 'l');
}

/// What a method and a path ask for.
pub fn route(method: Method, path: &str) -> (r: Route)
    ensures
        r == route_of(method, path@),
{
    match method {
        Method::Options => Route::Options,
        Method::Get => if same_text(path, "/") || same_text(path, "/index.html") {
            Route::Index
        } else if same_text(path, "/favicon.ico") {
            Route::Favicon
        } else if same_text(path, "/api/health") {
            Route::Health
        } else if same_text(path, "/api/config") {
            Route::Config
        } else if same_text(path, "/api/rooms") {
            Route::ListRooms
        } else {
            Route::NotFound
        },
        Method::Post => if same_text(path, "/api/rooms") {
            Route::Body(Task::CreateRoom)
        } else if same_text(path, "/api/check-nick") {
            Route::Body(Task::CheckNick)
        } else if same_text(path, "/api/token") {
            Route::Body(Task::IssueToken)
        } else if same_text(path, "/api/leave") {
            Route::Body(Task::Leave)
        } else {
            Route::NotFound
        },
        Method::Other => Route::NotFound,
    }
}

} // verus!
