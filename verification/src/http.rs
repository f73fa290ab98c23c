//! What is taken from a request and what is answered, apart from any server.

use crate::json::{
    json_model, json_parsed, json_text, reads_back, render, Json, MAX_DEPTH, MAX_WRITE_DEPTH,
};
use crate::text::{chars_of, text_view};
use vstd::prelude::*;
use vstd::string::*;
use vstd::utf8::*;

verus! {

/// How long the body of a request may be, in bytes.
pub const MAX_BODY: usize = 8 * 1024;

/// The methods that are told apart.
#[derive(Clone, Copy, PartialEq, Eq, Structural)]
pub enum Method {
    Get,
    Post,
    Options,
    Other,
}

/// A header of a response.
pub struct Header {
    pub field: String,
    pub value: String,
}

/// A response.
pub struct Response {
    pub status: u16,
    pub headers: Vec<Header>,
    pub body: Vec<u8>,
}

/// What a response says.
pub struct Reply {
    pub status: u16,
    pub headers: Seq<(Seq<char>, Seq<char>)>,
    pub body: Seq<u8>,
}

/// The fields and values of a list of headers.
pub open spec fn header_pairs(headers: Seq<Header>) -> Seq<(Seq<char>, Seq<char>)> {
    Seq::new(headers.len(), |i: int| (headers[i].field@, headers[i].value@))
}

impl View for Response {
    type V = Reply;

    open spec fn view(&self) -> Reply {
        Reply { status: self.status, headers: header_pairs(self.headers@), body: self.body@ }
    }
}

/// What a response says is what it holds: the status, the body, and each header, in order.
pub proof fn replies_are_faithful(response: Response, i: int)
    ensures
        response@.status == response.status,
        response@.body == response.body@,
        response@.headers.len() == response.headers@.len(),
        0 <= i < response.headers@.len() ==> response@.headers[i].0 == response.headers@[i].field@
            && response@.headers[i].1 == response.headers@[i].value@,
{
}

/// The header that names the allowed origin, left out where it is not ASCII.
pub open spec fn origin_header(origin: Seq<char>) -> Seq<(Seq<char>, Seq<char>)> {
    if is_ascii_chars(origin) {
        seq![("Access-Control-Allow-Origin"@, origin)]
    } else {
        seq![]
    }
}

/// The headers that tell browsers who may read an answer and how to treat it.
pub open spec fn security_headers(origin: Seq<char>) -> Seq<(Seq<char>, Seq<char>)> {
    origin_header(origin) + seq![
        ("Access-Control-Allow-Methods"@, "GET, POST, OPTIONS"@),
        ("Access-Control-Allow-Headers"@, "Content-Type"@),
        ("X-Content-Type-Options"@, "nosniff"@),
        ("X-Frame-Options"@, "DENY"@),
        ("Referrer-Policy"@, "strict-origin-when-cross-origin"@),
    ]
}

/// The answer with a JSON document.
pub open spec fn json_reply(status: u16, document: Json, origin: Seq<char>) -> Reply {
    Reply {
        status,
        headers: seq![("Content-Type"@, "application/json; charset=utf-8"@)] + security_headers(
            origin,
        ),
        body: encode_utf8(json_text(document)),
    }
}

/// The answer with a page.
pub open spec fn html_reply(page: Seq<u8>) -> Reply {
    Reply {
        status: 200,
        headers: seq![
            ("Content-Type"@, "text/html; charset=utf-8"@),
            ("Cache-Control"@, "no-cache"@),
        ],
        body: page,
    }
}

/// The answer to a question about what is allowed.
pub open spec fn options_reply(origin: Seq<char>) -> Reply {
    Reply { status: 204, headers: security_headers(origin), body: Seq::empty() }
}

/// The answer without a body or headers.
pub open spec fn empty_reply(status: u16) -> Reply {
    Reply { status, headers: Seq::empty(), body: Seq::empty() }
}

/// The document that is read from the body of an answer.
pub open spec fn read_from(reply: Reply) -> Option<Json> {
    json_parsed(decode_utf8(reply.body))
}

/// Calls `tiny_http::Header::from_bytes`: a header with this field and value, refused where one of
/// them is not ASCII.
#[verifier::external_body]
fn header_from_bytes(field: &str, value: &str) -> (r: Result<Header, ()>)
    ensures
        r is Ok <==> (is_ascii_chars(field@) && is_ascii_chars(value@)),
        r is Ok ==> r->Ok_0.field@ == field@ && r->Ok_0.value@ == value@,
{
    match tiny_http::Header::from_bytes(field.as_bytes(), value.as_bytes()) {
        Ok(header) => Ok(
            Header {
                field: header.field.as_str().as_str().to_owned(),
                value: header.value.as_str().to_owned(),
            },
        ),
        Err(()) => Err(()),
    }
}

/// Adds a header, unless it is not ASCII.
fn add_header(r: &mut Response, field: &str, value: &str)
    ensures
        final(r)@ == (Reply {
            headers: if is_ascii_chars(field@) && is_ascii_chars(value@) {
                old(r)@.headers.push((field@, value@))
            } else {
                old(r)@.headers
            },
            ..old(r)@
        }),
{
    match header_from_bytes(field, value) {
        Ok(header) => {
            r.headers.push(header);
            assert(r@.headers =~= old(r)@.headers.push((field@, value@)));
        },
        Err(_) => {},
    }
}

proof fn header_literals_ascii()
    ensures
        is_ascii_chars("Access-Control-Allow-Origin"@),
        is_ascii_chars("Access-Control-Allow-Methods"@),
        is_ascii_chars("GET, POST, OPTIONS"@),
        is_ascii_chars("Access-Control-Allow-Headers"@),
        is_ascii_chars("Content-Type"@),
        is_ascii_chars("X-Content-Type-Options"@),
        is_ascii_chars("nosniff"@),
        is_ascii_chars("X-Frame-Options"@),
        is_ascii_chars("DENY"@),
        is_ascii_chars("Referrer-Policy"@),
        is_ascii_chars("strict-origin-when-cross-origin"@),
        is_ascii_chars("application/json; charset=utf-8"@),
        is_ascii_chars("text/html; charset=utf-8"@),
        is_ascii_chars("Cache-Control"@),
        is_ascii_chars("no-cache"@),
{
    reveal_strlit("Access-Control-Allow-Origin");
    reveal_strlit("Access-Control-Allow-Methods");
    reveal_strlit("GET, POST, OPTIONS");
    reveal_strlit("Access-Control-Allow-Headers");
    reveal_strlit("Content-Type");
    reveal_strlit("X-Content-Type-Options");
    reveal_strlit("nosniff");
    reveal_strlit("X-Frame-Options");
    reveal_strlit("DENY");
    reveal_strlit("Referrer-Policy");
    reveal_strlit("strict-origin-when-cross-origin");
    reveal_strlit("application/json; charset=utf-8");
    reveal_strlit("text/html; charset=utf-8");
    reveal_strlit("Cache-Control");
    reveal_strlit("no-cache");
}

/// Adds the headers that tell browsers who may read the answer and how to treat it.
pub fn sec_headers(r: &mut Response, origin: &str)
    ensures
        final(r)@ == (Reply {
            headers: old(r)@.headers + security_headers(origin@),
            ..old(r)@
        }),
{
    proof {
        header_literals_ascii();
    }
    add_header(r, "Access-Control-Allow-Origin", origin);
    add_header(r, "Access-Control-Allow-Methods", "GET, POST, OPTIONS");
    add_header(r, "Access-Control-Allow-Headers", "Content-Type");
    add_header(r, "X-Content-Type-Options", "nosniff");
    add_header(r, "X-Frame-Options", "DENY");
    add_header(r, "Referrer-Policy", "strict-origin-when-cross-origin");
    assert(r@.headers =~= old(r)@.headers + security_headers(origin@));
}

/// A response without a body or headers.
pub fn empty(code: u16) -> (r: Response)
    ensures
        r@ == empty_reply(code),
{
    let r = Response { status: code, headers: Vec::new(), body: Vec::new() };
    assert(r@.headers =~= Seq::empty());
    r
}

/// A response with a JSON document.
pub fn json_resp(code: u16, body: serde_json::Value, origin: &str) -> (r: Response)
    requires
        json_model(body).within(MAX_WRITE_DEPTH as nat),
    ensures
        r@ == json_reply(code, json_model(body), origin@),
        json_model(body).plain(MAX_DEPTH as nat) ==> reads_back(json_model(body)) && read_from(r@)
            == Some(json_model(body)),
{
    let mut r = empty(code);
    r.body = render(&body).as_str().as_bytes_vec();
    proof {
        header_literals_ascii();
    }
    add_header(&mut r, "Content-Type", "application/json; charset=utf-8");
    sec_headers(&mut r, origin);
    assert(r@.headers =~= json_reply(code, json_model(body), origin@).headers);
    proof {
        encode_utf8_decode_utf8(json_text(json_model(body)));
    }
    r
}

/// A response with a page.
pub fn html_resp(bytes: Vec<u8>) -> (r: Response)
    ensures
        r@ == html_reply(bytes@),
{
    let mut r = empty(200);
    r.body = bytes;
    proof {
        header_literals_ascii();
    }
    add_header(&mut r, "Content-Type", "text/html; charset=utf-8");
    add_header(&mut r, "Cache-Control", "no-cache");
    assert(r@.headers =~= html_reply(bytes@).headers);
    r
}

/// The response to a question about what is allowed.
pub fn options_resp(origin: &str) -> (r: Response)
    ensures
        r@ == options_reply(origin@),
{
    let mut r = empty(204);
    sec_headers(&mut r, origin);
    assert(r@.headers =~= security_headers(origin@));
    r
}

/// The body that a request announces is short enough to be read.
pub open spec fn body_admitted(declared: Option<usize>) -> bool {
    declared is Some ==> declared->0 <= MAX_BODY
}

/// The text of a body: nothing where the announced body is too long, reading failed, or what was
/// read, up to the longest body, is not UTF-8.
pub open spec fn body_text(declared: Option<usize>, read: Option<Seq<u8>>) -> Option<Seq<char>> {
    if body_admitted(declared) && read is Some {
        let head = if read->0.len() <= MAX_BODY {
            read->0
        } else {
            read->0.take(MAX_BODY as int)
        };
        if valid_utf8(head) {
            Some(decode_utf8(head))
        } else {
            None
        }
    } else {
        None
    }
}

/// Calls `String::from_utf8`: the text of which the bytes are the UTF-8 encoding, nothing where they
/// are no such encoding.
#[verifier::external_body]
fn text_from_utf8(bytes: Vec<u8>) -> (r: Option<String>)
    ensures
        r is Some <==> valid_utf8(bytes@),
        r is Some ==> r->0@ == decode_utf8(bytes@),
{
    match String::from_utf8(bytes) {
        Ok(text) => Some(text),
        Err(_) => None,
    }
}

/// Whether a body of the announced length is read at all.
pub fn admits_body(declared: Option<usize>) -> (r: bool)
    ensures
        r == body_admitted(declared),
{
    declared.unwrap_or(0) <= MAX_BODY
}

/// The bytes of something that may be missing.
pub open spec fn bytes_view(bytes: Option<Vec<u8>>) -> Option<Seq<u8>> {
    match bytes {
        Some(b) => Some(b@),
        None => None,
    }
}

/// Bytes that are there are taken as they are.
pub proof fn bytes_are_faithful(bytes: Vec<u8>)
    ensures
        bytes_view(Some(bytes)) == Some(bytes@),
        bytes_view(None) is None,
{
}

/// The text of the body, from the announced length and what was read of it.
pub fn read_body(declared: Option<usize>, read: Option<Vec<u8>>) -> (r: Option<String>)
    ensures
        text_view(r) == body_text(declared, bytes_view(read)),
{
    if !admits_body(declared) {
        return None;
    }
    match read {
        Some(bytes) => {
            let mut head = bytes;
            head.truncate(MAX_BODY);
            proof {
                if bytes@.len() <= MAX_BODY {
                    assert(head@ =~= bytes@);
                } else {
                    assert(head@ =~= bytes@.take(MAX_BODY as int));
                }
            }
            text_from_utf8(head)
        },
        None => None,
    }
}

/// A body is taken where it is not announced as too long, could be read and is UTF-8 as far as it
/// counts; its text is then that of the first bytes, up to the longest body.
pub proof fn bodies_are_these(declared: Option<usize>, read: Option<Seq<u8>>)
    ensures
        ({
            let r = body_text(declared, read);
            let too_long = declared is Some && declared->0 > MAX_BODY;
            let head = |bytes: Seq<u8>|
                if bytes.len() > MAX_BODY {
                    bytes.subrange(0, MAX_BODY as int)
                } else {
                    bytes
                };
            &&& body_admitted(declared) <==> !too_long
            &&& too_long ==> r is None
            &&& read is None ==> r is None
            &&& read is Some && !valid_utf8(head(read->0)) ==> r is None
            &&& !too_long && read is Some && valid_utf8(head(read->0)) ==> r is Some && encode_utf8(
                r->0,
            ) == head(read->0)
        }),
{
    if read is Some {
        let bytes = read->0;
        let head = if bytes.len() <= MAX_BODY {
            bytes
        } else {
            bytes.take(MAX_BODY as int)
        };
        assert(bytes.take(MAX_BODY as int) =~= bytes.subrange(0, MAX_BODY as int) || bytes.len()
            <= MAX_BODY);
        if valid_utf8(head) {
            decode_utf8_encode_utf8(head);
        }
    }
}

/// A body is never longer than the longest body, announced or not.
pub proof fn body_is_bounded(declared: Option<usize>, read: Option<Seq<u8>>)
    requires
        body_text(declared, read) is Some,
    ensures
        encode_utf8(body_text(declared, read)->0).len() <= MAX_BODY,
{
    let head = if read->0.len() <= MAX_BODY {
        read->0
    } else {
        read->0.take(MAX_BODY as int)
    };
    decode_utf8_encode_utf8(head);
}

/// A body that is short enough and UTF-8 comes through as it was sent.
pub proof fn short_body_is_read(declared: Option<usize>, text: Seq<char>)
    requires
        body_admitted(declared),
        encode_utf8(text).len() <= MAX_BODY,
    ensures
        body_text(declared, Some(encode_utf8(text))) == Some(text),
{
    encode_utf8_valid_utf8(text);
    encode_utf8_decode_utf8(text);
}

/// A URL has one path.
pub proof fn path_is_unique(a: Seq<char>, b: Seq<char>, url: Seq<char>)
    requires
        is_path_of(a, url),
        is_path_of(b, url),
    ensures
        a == b,
{
    if a.len() < b.len() {
        assert(b[a.len() as int] == url[a.len() as int]);
    } else if b.len() < a.len() {
        assert(a[b.len() as int] == url[b.len() as int]);
    }
    assert(a =~= b);
}

/// The path of a URL is what stands before the question mark, whatever comes behind it, and all of
/// it where there is none.
pub proof fn path_is_before_the_query(path: Seq<char>, query: Seq<char>)
    requires
        !path.contains('?'),
    ensures
        is_path_of(path, path),
        is_path_of(path, path + seq!['?'] + query),
{
    assert forall|i: int| 0 <= i < path.len() implies #[trigger] path[i] != '?' by {
        if path[i] == '?' {
            assert(path.contains('?'));
        }
    }
    assert(path.take(path.len() as int) =~= path);
    let url = path + seq!['?'] + query;
    assert(url.take(path.len() as int) =~= path);
    assert(url[path.len() as int] == '?');
}

/// What is in each kind of answer: the status, the body and every header, in order. The allowed
/// origin is named as it was set up, unless it is not ASCII.
pub proof fn answers_are_these(
    status: u16,
    document: Json,
    origin: Seq<char>,
    page: Seq<u8>,
)
    ensures
        ({
            let guards = seq![
                ("Access-Control-Allow-Methods"@, "GET, POST, OPTIONS"@),
                ("Access-Control-Allow-Headers"@, "Content-Type"@),
                ("X-Content-Type-Options"@, "nosniff"@),
                ("X-Frame-Options"@, "DENY"@),
                ("Referrer-Policy"@, "strict-origin-when-cross-origin"@),
            ];
            let all_guards = if is_ascii_chars(origin) {
                seq![("Access-Control-Allow-Origin"@, origin)] + guards
            } else {
                guards
            };
            let json = json_reply(status, document, origin);
            let options = options_reply(origin);
            let html = html_reply(page);
            let empty = empty_reply(status);
            &&& json.status == status
            &&& json.body == encode_utf8(json_text(document))
            &&& json.headers == seq![("Content-Type"@, "application/json; charset=utf-8"@)]
                + all_guards
            &&& options.status == 204
            &&& options.body.len() == 0
            &&& options.headers == all_guards
            &&& html.status == 200
            &&& html.body == page
            &&& html.headers == seq![
                ("Content-Type"@, "text/html; charset=utf-8"@),
                ("Cache-Control"@, "no-cache"@),
            ]
            &&& empty.status == status
            &&& empty.body.len() == 0
            &&& empty.headers.len() == 0
        }),
{
    let guards = seq![
        ("Access-Control-Allow-Methods"@, "GET, POST, OPTIONS"@),
        ("Access-Control-Allow-Headers"@, "Content-Type"@),
        ("X-Content-Type-Options"@, "nosniff"@),
        ("X-Frame-Options"@, "DENY"@),
        ("Referrer-Policy"@, "strict-origin-when-cross-origin"@),
    ];
    if is_ascii_chars(origin) {
        assert(security_headers(origin) =~= seq![("Access-Control-Allow-Origin"@, origin)] + guards);
    } else {
        assert(security_headers(origin) =~= guards);
    }
}

/// Every header that protects an answer is in it.
pub open spec fn protected(reply: Reply, origin: Seq<char>) -> bool {
    forall|i: int|
        0 <= i < security_headers(origin).len() ==> reply.headers.contains(
            #[trigger] security_headers(origin)[i],
        )
}

/// Answers with a JSON document, and answers about what is allowed, are protected.
pub proof fn documents_are_protected(status: u16, document: Json, origin: Seq<char>)
    ensures
        protected(json_reply(status, document, origin), origin),
        protected(options_reply(origin), origin),
{
    let headers = security_headers(origin);
    assert forall|i: int| 0 <= i < headers.len() implies json_reply(
        status,
        document,
        origin,
    ).headers.contains(#[trigger] headers[i]) by {
        assert(json_reply(status, document, origin).headers[i + 1] == headers[i]);
    }
}

/// `path` is the part of `url` before the first question mark, or all of it.
pub open spec fn is_path_of(path: Seq<char>, url: Seq<char>) -> bool {
    &&& path.len() <= url.len()
    &&& path == url.take(path.len() as int)
    &&& forall|i: int| 0 <= i < path.len() ==> #[trigger] path[i] != '?'
    &&& path.len() < url.len() ==> url[path.len() as int] == '?'
}

/// The path of a request, without the query.
pub fn request_path(url: &str) -> (r: &str)
    ensures
        is_path_of(r@, url@),
{
    let chars = chars_of(url);
    let mut i: usize = 0;
    while i < chars.len() && chars[i] != '?'
        invariant
            i <= chars@.len(),
            forall|j: int| 0 <= j < i ==> #[trigger] chars@[j] != '?',
        decreases chars@.len() - i,
    {
        i = i + 1;
    }
    let path = url.substring_char(0, i);
    assert(path@ =~= url@.take(i as int));
    assert forall|j: int| 0 <= j < path@.len() implies #[trigger] path@[j] != '?' by {
        assert(path@[j] == chars@[j]);
    }
    path
}

} // verus!
