//! The signed tokens with which people enter a room.

use crate::clock::{now_secs, unix_secs};
use crate::config::Config;
use crate::documents::has_just;
use crate::encoding::{
    b64, base64url, base64url_alphabet, base64url_injective, base64url_len, hex_text, random_jti,
};
use crate::json::{
    bool_value, json_model, json_text, no_fields, number_value, object_value, put, reads_back,
    render, small_is_writable, text_value, Json, JsonNumber, MAX_DEPTH, MAX_WRITE_DEPTH,
};
use crate::nicks::NICK_TTL;
use hmac::{Hmac, Mac};
use sha2::Sha256;
use std::time::SystemTime;
use vstd::prelude::*;
use vstd::string::*;
use vstd::utf8::*;

verus! {

/// How long a token is valid, in seconds.
pub const TOKEN_TTL: u64 = 4 * 3600;

/// The HMAC-SHA-256 tag of a message under a key.
pub uninterp spec fn hmac_sha256_of(key: Seq<u8>, message: Seq<u8>) -> Seq<u8>;

/// Calls `hmac` with `sha2`'s SHA-256: a new MAC takes a key of any length, is fed the message, and
/// gives a tag of 32 bytes that depends on the key and the message alone.
#[verifier::external_body]
fn hmac_sha256(key: &[u8], message: &[u8]) -> (r: Vec<u8>)
    ensures
        r@ == hmac_sha256_of(key@, message@),
        r@.len() == 32,
{
    let mut mac = Hmac::<Sha256>::new_from_slice(key).unwrap();
    mac.update(message);
    mac.finalize().into_bytes().to_vec()
}

/// The part of a token that is signed: the header and the payload, each in base64.
pub open spec fn signing_input(payload: Seq<char>) -> Seq<char> {
    base64url(encode_utf8("{\"alg\":\"HS256\",\"typ\":\"JWT\"}"@)) + seq!['.'] + base64url(
        encode_utf8(payload),
    )
}

/// A message with its tag.
pub open spec fn tagged(message: Seq<char>, tag: Seq<u8>) -> Seq<char> {
    message + seq!['.'] + base64url(tag)
}

/// The token with this payload, signed with this secret.
pub open spec fn jwt(payload: Seq<char>, secret: Seq<char>) -> Seq<char> {
    let message = signing_input(payload);
    tagged(message, hmac_sha256_of(encode_utf8(secret), encode_utf8(message)))
}

/// The part of a token that is signed.
pub fn jwt_message(payload: &str) -> (r: String)
    ensures
        r@ == signing_input(payload@),
{
    let mut message = b64("{\"alg\":\"HS256\",\"typ\":\"JWT\"}".as_bytes());
    message.append(".");
    message.append(b64(payload.as_bytes()).as_str());
    proof {
        reveal_strlit(".");
        assert("."@ =~= seq!['.']);
    }
    message
}

/// Puts the tag behind a message.
pub fn with_tag(message: String, tag: &[u8]) -> (r: String)
    ensures
        r@ == tagged(message@, tag@),
{
    let mut token = message;
    token.append(".");
    token.append(b64(tag).as_str());
    proof {
        reveal_strlit(".");
        assert("."@ =~= seq!['.']);
    }
    token
}

/// The token with this payload, signed with this secret.
pub fn make_jwt(payload: &serde_json::Value, secret: &str) -> (r: String)
    requires
        json_model(*payload).within(MAX_WRITE_DEPTH as nat),
    ensures
        r@ == jwt(json_text(json_model(*payload)), secret@),
        r@.len() == signing_input(json_text(json_model(*payload))).len() + 1 + base64url_len(32),
        json_model(*payload).plain(MAX_DEPTH as nat) ==> reads_back(json_model(*payload)),
{
    let text = render(payload);
    let message = jwt_message(text.as_str());
    let tag = hmac_sha256(secret.as_bytes(), message.as_str().as_bytes());
    with_tag(message, tag.as_slice())
}

/// What a person's avatar is, as it is told to the others.
pub open spec fn avatar_json(avatar: u8) -> Json {
    Json::Object(map!["avatar"@ => Json::Number(JsonNumber::Whole(avatar as u64))])
}

/// What a person may do in the room.
pub open spec fn grant_json(room: Seq<char>) -> Json {
    Json::Object(
        map![
            "room"@ => Json::Text(room),
            "roomJoin"@ => Json::Bool(true),
            "canPublish"@ => Json::Bool(true),
            "canSubscribe"@ => Json::Bool(true),
            "canPublishData"@ => Json::Bool(true),
        ],
    )
}

/// When a token made at `now` ends, modulo the range of the clock.
pub open spec fn expiry(now: u64) -> u64 {
    if now <= u64::MAX - TOKEN_TTL {
        (now + TOKEN_TTL) as u64
    } else {
        (now + TOKEN_TTL - u64::MAX - 1) as u64
    }
}

proof fn grant_names_differ()
    ensures
        "room"@.len() == 4,
        "roomJoin"@.len() == 8,
        "canPublish"@.len() == 10,
        "canSubscribe"@.len() == 12,
        "canPublishData"@.len() == 14,
{
    reveal_strlit("room");
    reveal_strlit("roomJoin");
    reveal_strlit("canPublish");
    reveal_strlit("canSubscribe");
    reveal_strlit("canPublishData");
}

proof fn claim_names_differ()
    ensures
        "iss"@.len() == 3 && "iss"@[0] == 'i' && "iss"@[1] == 's',
        "sub"@.len() == 3 && "sub"@[0] == 's',
        "iat"@.len() == 3 && "iat"@[0] == 'i' && "iat"@[1] == 'a',
        "exp"@.len() == 3 && "exp"@[0] == 'e',
        "nbf"@.len() == 3 && "nbf"@[0] == 'n',
        "jti"@.len() == 3 && "jti"@[0] == 'j',
        "metadata"@.len() == 8,
        "video"@.len() == 5,
{
    reveal_strlit("iss");
    reveal_strlit("sub");
    reveal_strlit("iat");
    reveal_strlit("exp");
    reveal_strlit("nbf");
    reveal_strlit("jti");
    reveal_strlit("metadata");
    reveal_strlit("video");
}

/// What a token made at `now` claims.
pub open spec fn claims_json(
    issuer: Seq<char>,
    room: Seq<char>,
    identity: Seq<char>,
    avatar: u8,
    now: u64,
    jti: Seq<char>,
) -> Json {
    Json::Object(
        map![
            "iss"@ => Json::Text(issuer),
            "sub"@ => Json::Text(identity),
            "iat"@ => Json::Number(JsonNumber::Whole(now)),
            "exp"@ => Json::Number(JsonNumber::Whole(expiry(now))),
            "nbf"@ => Json::Number(JsonNumber::Whole(now)),
            "jti"@ => Json::Text(jti),
            "metadata"@ => Json::Text(json_text(avatar_json(avatar))),
            "video"@ => grant_json(room),
        ],
    )
}

/// The token with which `identity` enters `room`.
pub open spec fn room_token(
    cfg: Config,
    room: Seq<char>,
    identity: Seq<char>,
    avatar: u8,
    now: u64,
    jti: Seq<char>,
) -> Seq<char> {
    jwt(
        json_text(claims_json(cfg.api_key@, room, identity, avatar, now, jti)),
        cfg.api_secret@,
    )
}

/// What a token claims reads back, and so does what it says of the avatar.
pub open spec fn claims_read_back(
    issuer: Seq<char>,
    room: Seq<char>,
    identity: Seq<char>,
    avatar: u8,
    now: u64,
    jti: Seq<char>,
) -> bool {
    reads_back(claims_json(issuer, room, identity, avatar, now, jti)) && reads_back(
        avatar_json(avatar),
    )
}

fn avatar_value(avatar: u8) -> (r: serde_json::Value)
    ensures
        json_model(r) == avatar_json(avatar),
        json_model(r).plain(2),
{
    let mut fields = no_fields();
    put(&mut fields, "avatar", number_value(avatar as u64));
    object_value(fields)
}

fn grant_value(room: &str) -> (r: serde_json::Value)
    ensures
        json_model(r) == grant_json(room@),
        json_model(r).plain(1),
{
    proof {
        grant_names_differ();
    }
    let mut fields = no_fields();
    put(&mut fields, "room", text_value(room));
    put(&mut fields, "roomJoin", bool_value(true));
    put(&mut fields, "canPublish", bool_value(true));
    put(&mut fields, "canSubscribe", bool_value(true));
    put(&mut fields, "canPublishData", bool_value(true));
    object_value(fields)
}

/// The token with which `identity` enters `room`, made at `now` under the identifier `jti`.
pub fn build_token_at(
    cfg: &Config,
    room: &str,
    identity: &str,
    avatar: u8,
    now: u64,
    jti: &str,
) -> (r: String)
    ensures
        r@ == room_token(*cfg, room@, identity@, avatar, now, jti@),
        claims_read_back(cfg.api_key@, room@, identity@, avatar, now, jti@),
{
    let avatar_doc = avatar_value(avatar);
    proof {
        small_is_writable(json_model(avatar_doc));
        claim_names_differ();
    }
    let metadata = render(&avatar_doc);
    let mut fields = no_fields();
    put(&mut fields, "iss", text_value(cfg.api_key.as_str()));
    put(&mut fields, "sub", text_value(identity));
    put(&mut fields, "iat", number_value(now));
    put(&mut fields, "exp", number_value(now.wrapping_add(TOKEN_TTL)));
    put(&mut fields, "nbf", number_value(now));
    put(&mut fields, "jti", text_value(jti));
    put(&mut fields, "metadata", text_value(metadata.as_str()));
    put(&mut fields, "video", grant_value(room));
    let payload = object_value(fields);
    proof {
        small_is_writable(json_model(payload));
    }
    make_jwt(&payload, cfg.api_secret.as_str())
}

/// The token with which `identity` enters `room`, made now by the system clock under the identifier
/// that the random bytes give.
pub fn build_token(cfg: &Config, room: &str, identity: &str, avatar: u8, random: &[u8; 8]) -> (r:
    String)
    ensures
        exists|time: SystemTime|
            r@ == room_token(
                *cfg,
                room@,
                identity@,
                avatar,
                #[trigger] unix_secs(time),
                hex_text(random@),
            ) && claims_read_back(
                cfg.api_key@,
                room@,
                identity@,
                avatar,
                unix_secs(time),
                hex_text(random@),
            ),
{
    let now = now_secs();
    let jti = random_jti(random);
    build_token_at(cfg, room, identity, avatar, now, jti.as_str())
}

/// The length of the header of a token.
pub open spec fn header_len() -> int {
    base64url(encode_utf8("{\"alg\":\"HS256\",\"typ\":\"JWT\"}"@)).len() as int
}

/// A token has three parts: there are two dots in it, one behind the header and one behind the
/// payload.
pub proof fn token_has_three_parts(payload: Seq<char>, secret: Seq<char>, i: int)
    requires
        0 <= i < jwt(payload, secret).len(),
    ensures
        jwt(payload, secret)[i] == '.' <==> (i == header_len() || i == signing_input(payload).len()),
{
    let header = encode_utf8("{\"alg\":\"HS256\",\"typ\":\"JWT\"}"@);
    let body = encode_utf8(payload);
    let message = signing_input(payload);
    let tag = hmac_sha256_of(encode_utf8(secret), encode_utf8(message));
    let h = base64url(header).len();
    let b = base64url(body).len();
    let token = jwt(payload, secret);
    assert(message.len() == h + 1 + b);
    if i < h {
        base64url_alphabet(header, i);
        assert(token[i] == base64url(header)[i]);
    } else if i == h {
        assert(token[i] == '.');
    } else if i < h + 1 + b {
        base64url_alphabet(body, i - h - 1);
        assert(token[i] == base64url(body)[i - h - 1]);
    } else if i > h + 1 + b {
        base64url_alphabet(tag, i - h - b - 2);
        assert(token[i] == base64url(tag)[i - h - b - 2]);
    }
}

/// A token determines what it claims and its tag: two tokens with different payloads, or with
/// different tags, differ.
pub proof fn token_determines_payload(
    payload: Seq<char>,
    secret: Seq<char>,
    other_payload: Seq<char>,
    other_secret: Seq<char>,
)
    requires
        jwt(payload, secret) == jwt(other_payload, other_secret),
    ensures
        payload == other_payload,
        hmac_sha256_of(encode_utf8(secret), encode_utf8(signing_input(payload))) == hmac_sha256_of(
            encode_utf8(other_secret),
            encode_utf8(signing_input(payload)),
        ),
{
    let token = jwt(payload, secret);
    let m = signing_input(payload);
    let n = signing_input(other_payload);
    let h = header_len();
    token_has_three_parts(payload, secret, m.len() as int);
    token_has_three_parts(other_payload, other_secret, m.len() as int);
    assert(token[m.len() as int] == '.');
    assert(h < m.len() && h < n.len());
    assert(m.len() == n.len());
    let a = base64url(encode_utf8(payload));
    let b = base64url(encode_utf8(other_payload));
    assert(a =~= token.subrange(h + 1, m.len() as int));
    assert(b =~= token.subrange(h + 1, m.len() as int));
    base64url_injective(encode_utf8(payload), encode_utf8(other_payload));
    encode_utf8_decode_utf8(payload);
    encode_utf8_decode_utf8(other_payload);
    let s = hmac_sha256_of(encode_utf8(secret), encode_utf8(m));
    let t = hmac_sha256_of(encode_utf8(other_secret), encode_utf8(m));
    assert(base64url(s) =~= token.skip(m.len() as int + 1));
    assert(base64url(t) =~= token.skip(m.len() as int + 1));
    base64url_injective(s, t);
}

/// Any payload is signed in the same way: its token is the header and the payload, and behind the
/// last dot the tag of all that stands before it, under the secret.
pub proof fn payload_is_signed(payload: Seq<char>, secret: Seq<char>)
    ensures
        ({
            let header = base64url(encode_utf8("{\"alg\":\"HS256\",\"typ\":\"JWT\"}"@));
            let signed = header + seq!['.'] + base64url(encode_utf8(payload));
            let tag = hmac_sha256_of(encode_utf8(secret), encode_utf8(signed));
            &&& signing_input(payload) == signed
            &&& jwt(payload, secret) == signed + seq!['.'] + base64url(tag)
        }),
{
}

/// A message keeps what it says in front of its tag.
pub proof fn tag_stands_behind(message: Seq<char>, tag: Seq<u8>)
    ensures
        tagged(message, tag) == message + seq!['.'] + base64url(tag),
{
}

/// A token can be checked by whoever has the secret: behind the last dot stands the tag, under the
/// secret, of all that stands before it, which is the header and the claims.
pub proof fn token_is_signed(
    cfg: Config,
    room: Seq<char>,
    identity: Seq<char>,
    avatar: u8,
    now: u64,
    jti: Seq<char>,
)
    ensures
        ({
            let claims = claims_json(cfg.api_key@, room, identity, avatar, now, jti);
            let header = base64url(encode_utf8("{\"alg\":\"HS256\",\"typ\":\"JWT\"}"@));
            let signed = header + seq!['.'] + base64url(encode_utf8(json_text(claims)));
            let tag = hmac_sha256_of(encode_utf8(cfg.api_secret@), encode_utf8(signed));
            room_token(cfg, room, identity, avatar, now, jti) == signed + seq!['.'] + base64url(tag)
        }),
{
}

/// What can be read off the claims of a token.
pub proof fn claim_members(
    issuer: Seq<char>,
    room: Seq<char>,
    identity: Seq<char>,
    avatar: u8,
    now: u64,
    jti: Seq<char>,
)
    ensures
        ({
            let claims = claims_json(issuer, room, identity, avatar, now, jti);
            &&& claims.member("iss"@) == Json::Text(issuer)
            &&& claims.member("sub"@) == Json::Text(identity)
            &&& claims.member("iat"@).whole() == Some(now)
            &&& claims.member("nbf"@).whole() == Some(now)
            &&& claims.member("exp"@).whole() == Some(expiry(now))
            &&& claims.member("jti"@) == Json::Text(jti)
            &&& claims.member("metadata"@) == Json::Text(json_text(avatar_json(avatar)))
            &&& claims.member("video"@) == grant_json(room)
            &&& grant_json(room).member("room"@) == Json::Text(room)
            &&& grant_json(room).member("roomJoin"@) == Json::Bool(true)
            &&& grant_json(room).member("canPublish"@) == Json::Bool(true)
            &&& grant_json(room).member("canSubscribe"@) == Json::Bool(true)
            &&& grant_json(room).member("canPublishData"@) == Json::Bool(true)
            &&& avatar_json(avatar).member("avatar"@).whole() == Some(avatar as u64)
            &&& has_just(
                claims,
                set![
                    "iss"@,
                    "sub"@,
                    "iat"@,
                    "exp"@,
                    "nbf"@,
                    "jti"@,
                    "metadata"@,
                    "video"@,
                ],
            )
            &&& has_just(
                grant_json(room),
                set!["room"@, "roomJoin"@, "canPublish"@, "canSubscribe"@, "canPublishData"@],
            )
            &&& has_just(avatar_json(avatar), set!["avatar"@])
        }),
{
    claim_names_differ();
    grant_names_differ();
    let claims = claims_json(issuer, room, identity, avatar, now, jti);
    assert(claims->Object_0.dom() =~= set![
        "iss"@,
        "sub"@,
        "iat"@,
        "exp"@,
        "nbf"@,
        "jti"@,
        "metadata"@,
        "video"@,
    ]);
    assert(grant_json(room)->Object_0.dom() =~= set![
        "room"@,
        "roomJoin"@,
        "canPublish"@,
        "canSubscribe"@,
        "canPublishData"@,
    ]);
    assert(avatar_json(avatar)->Object_0.dom() =~= set!["avatar"@]);
}

/// A token determines its claims: where the claims read back, as those of every token that is made
/// do, two tokens for different people, rooms, avatars or times, or under different identifiers or
/// issuers, differ.
pub proof fn token_determines_claims(
    a: Config,
    b: Config,
    room: Seq<char>,
    identity: Seq<char>,
    avatar: u8,
    now: u64,
    jti: Seq<char>,
    other_room: Seq<char>,
    other_identity: Seq<char>,
    other_avatar: u8,
    other_now: u64,
    other_jti: Seq<char>,
)
    ensures
        ({
            &&& room_token(a, room, identity, avatar, now, jti) == room_token(
                b,
                other_room,
                other_identity,
                other_avatar,
                other_now,
                other_jti,
            )
            &&& claims_read_back(a.api_key@, room, identity, avatar, now, jti)
            &&& claims_read_back(
                b.api_key@,
                other_room,
                other_identity,
                other_avatar,
                other_now,
                other_jti,
            )
        }) ==> {
            &&& a.api_key@ == b.api_key@
            &&& room == other_room
            &&& identity == other_identity
            &&& avatar == other_avatar
            &&& now == other_now
            &&& jti == other_jti
        },
{
    let claims = claims_json(a.api_key@, room, identity, avatar, now, jti);
    let others = claims_json(
        b.api_key@,
        other_room,
        other_identity,
        other_avatar,
        other_now,
        other_jti,
    );
    if room_token(a, room, identity, avatar, now, jti) == room_token(
        b,
        other_room,
        other_identity,
        other_avatar,
        other_now,
        other_jti,
    ) && claims_read_back(a.api_key@, room, identity, avatar, now, jti) && claims_read_back(
        b.api_key@,
        other_room,
        other_identity,
        other_avatar,
        other_now,
        other_jti,
    ) {
        token_determines_payload(
            json_text(claims),
            a.api_secret@,
            json_text(others),
            b.api_secret@,
        );
        assert(claims == others);
        claim_members(a.api_key@, room, identity, avatar, now, jti);
        claim_members(
            b.api_key@,
            other_room,
            other_identity,
            other_avatar,
            other_now,
            other_jti,
        );
        assert(avatar_json(avatar) == avatar_json(other_avatar));
        assert(avatar_json(avatar).member("avatar"@).whole() == Some(avatar as u64));
        assert(avatar_json(other_avatar).member("avatar"@).whole() == Some(other_avatar as u64));
    }
}

/// A token ends its time limit after it was made, modulo the range of the clock.
pub proof fn token_ends_after_its_limit(now: u64)
    ensures
        (now + TOKEN_TTL - expiry(now)) % (u64::MAX + 1) == 0,
{
}

/// A token is valid from when it was made, for as long as a name stays taken.
pub proof fn token_lasts_as_long_as_the_name(now: u64)
    requires
        now <= u64::MAX - TOKEN_TTL,
    ensures
        expiry(now) == now + NICK_TTL,
        expiry(now) == now + TOKEN_TTL,
{
}

} // verus!
