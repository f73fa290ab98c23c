//! Which names rooms and people may have.

use crate::text::{alphanumeric, chars_of, russian_letter, white_space};
use vstd::prelude::*;
use vstd::utf8::*;

verus! {

/// How long the name of a room may be, in bytes.
pub const MAX_ROOM_NAME: usize = 60;

/// How long the name of a person may be, in bytes.
pub const MAX_NICK: usize = 32;

/// A character that the name of a room may have.
pub open spec fn room_char(c: char) -> bool {
    alphanumeric(c) || c == '-' || c == '_'
}

/// A character that the name of a person may have.
pub open spec fn nick_char(c: char) -> bool {
    alphanumeric(c) || c == '-' || c == '_' || c == '.' || russian_letter(c)
}

/// A room may have this name.
pub open spec fn room_name(s: Seq<char>) -> bool {
    &&& s.len() > 0
    &&& encode_utf8(s).len() <= MAX_ROOM_NAME
    &&& forall|i: int| 0 <= i < s.len() ==> room_char(#[trigger] s[i])
}

/// A person may have this name.
pub open spec fn nick_name(s: Seq<char>) -> bool {
    &&& s.len() > 0
    &&& encode_utf8(s).len() <= MAX_NICK
    &&& forall|i: int| 0 <= i < s.len() ==> nick_char(#[trigger] s[i])
}

/// The characters that mean something to HTML, or that separate the parts of a path or a query.
pub open spec fn markup_char(c: char) -> bool {
    c == '<' || c == '>' || c == '&' || c == '"' || c == '\'' || c == '`' || c == '/' || c == '?' || c
        == '#' || c == '%' || c == '\\' || c as u32 <= 0x20
}

/// Neither the name of a room nor that of a person can carry markup, white space or control
/// characters of ASCII; that of a room has no dot either.
pub proof fn names_carry_no_markup(s: Seq<char>, i: int)
    requires
        room_name(s) || nick_name(s),
        0 <= i < s.len(),
    ensures
        !markup_char(s[i]),
        !white_space(s[i]),
        room_name(s) ==> s[i] != '.',
{
    assert(room_name(s) ==> room_char(s[i]));
    assert(nick_name(s) ==> nick_char(s[i]));
}

/// Every text that is not empty, not too long and made of letters and numbers of any script, `-` and
/// `_` is the name of a room, and no other text is.
pub proof fn room_names_are_these(s: Seq<char>)
    ensures
        room_name(s) <==> {
            &&& 0 < encode_utf8(s).len() <= MAX_ROOM_NAME
            &&& forall|i: int|
                0 <= i < s.len() ==> alphanumeric(#[trigger] s[i]) || s[i] == '-' || s[i] == '_'
        },
{
    encoding_is_not_empty(s);
    if forall|i: int|
        0 <= i < s.len() ==> alphanumeric(#[trigger] s[i]) || s[i] == '-' || s[i] == '_' {
        assert forall|i: int| 0 <= i < s.len() implies room_char(#[trigger] s[i]) by {}
    }
    if room_name(s) {
        assert forall|i: int| 0 <= i < s.len() implies alphanumeric(#[trigger] s[i]) || s[i] == '-'
            || s[i] == '_' by {
            assert(room_char(s[i]));
        }
    }
}

/// Every text that is not empty, not too long and made of letters and numbers of any script, `-`,
/// `_` and `.` is the name of a person, and no other text is.
pub proof fn nick_names_are_these(s: Seq<char>)
    ensures
        nick_name(s) <==> {
            &&& 0 < encode_utf8(s).len() <= MAX_NICK
            &&& forall|i: int|
                0 <= i < s.len() ==> alphanumeric(#[trigger] s[i]) || s[i] == '-' || s[i] == '_'
                    || s[i] == '.'
        },
{
    encoding_is_not_empty(s);
    if forall|i: int|
        0 <= i < s.len() ==> alphanumeric(#[trigger] s[i]) || s[i] == '-' || s[i] == '_' || s[i]
            == '.' {
        assert forall|i: int| 0 <= i < s.len() implies nick_char(#[trigger] s[i]) by {}
    }
    if nick_name(s) {
        assert forall|i: int| 0 <= i < s.len() implies alphanumeric(#[trigger] s[i]) || s[i] == '-'
            || s[i] == '_' || s[i] == '.' by {
            assert(nick_char(s[i]));
        }
    }
}

proof fn encoding_is_not_empty(s: Seq<char>)
    ensures
        s.len() > 0 <==> encode_utf8(s).len() > 0,
{
    if s.len() > 0 {
        char_is_scalar(s[0]);
    }
}

proof fn encoding_of_joined(a: Seq<char>, b: Seq<char>)
    ensures
        encode_utf8(a + b) == encode_utf8(a) + encode_utf8(b),
    decreases a.len(),
{
    if a.len() == 0 {
        assert(a + b =~= b);
        assert(encode_utf8(a) + encode_utf8(b) =~= encode_utf8(b));
    } else {
        let rest = a.drop_first();
        encoding_of_joined(rest, b);
        assert((a + b).drop_first() =~= rest + b);
        assert(encode_utf8(a + b) =~= encode_utf8(a) + encode_utf8(b));
    }
}

/// Two texts that are short enough together make the name of a room exactly where each of them is
/// the name of a room.
pub proof fn joined_room_names(a: Seq<char>, b: Seq<char>)
    requires
        a.len() > 0,
        b.len() > 0,
        encode_utf8(a).len() + encode_utf8(b).len() <= MAX_ROOM_NAME,
    ensures
        room_name(a + b) == (room_name(a) && room_name(b)),
{
    encoding_of_joined(a, b);
    if room_name(a + b) {
        assert forall|i: int| 0 <= i < a.len() implies room_char(#[trigger] a[i]) by {
            assert(room_char((a + b)[i]));
        }
        assert forall|i: int| 0 <= i < b.len() implies room_char(#[trigger] b[i]) by {
            assert((a + b)[a.len() + i] == b[i]);
            assert(room_char((a + b)[a.len() + i]));
        }
    }
}

/// Every part of the name of a room, but the empty one, is the name of a room.
pub proof fn parts_of_room_names(s: Seq<char>, from: int, to: int)
    requires
        room_name(s),
        0 <= from < to <= s.len(),
    ensures
        room_name(s.subrange(from, to)),
{
    let part = s.subrange(from, to);
    encoding_of_joined(s.take(from), part);
    encoding_of_joined(s.take(to), s.skip(to));
    assert(s.take(from) + part =~= s.take(to));
    assert(s.take(to) + s.skip(to) =~= s);
    assert forall|i: int| 0 <= i < part.len() implies room_char(#[trigger] part[i]) by {
        assert(part[i] == s[from + i]);
    }
}

/// The character, an underscore in the place of a dot.
pub open spec fn without_dot(c: char) -> char {
    if c == '.' {
        '_'
    } else {
        c
    }
}

/// The text with an underscore in the place of each dot.
pub open spec fn without_dots(s: Seq<char>) -> Seq<char> {
    s.map_values(|c: char| without_dot(c))
}

proof fn dots_keep_their_length(s: Seq<char>)
    ensures
        encode_utf8(without_dots(s)).len() == encode_utf8(s).len(),
    decreases s.len(),
{
    if s.len() > 0 {
        dots_keep_their_length(s.drop_first());
        assert(without_dots(s).drop_first() =~= without_dots(s.drop_first()));
    }
}

/// Up to the length of the name of a person, names of people and of rooms differ in the dot alone.
pub proof fn names_differ_in_dots(s: Seq<char>)
    requires
        encode_utf8(s).len() <= MAX_NICK,
    ensures
        nick_name(s) == room_name(without_dots(s)),
        room_name(s) ==> nick_name(s),
{
    let t = without_dots(s);
    dots_keep_their_length(s);
    assert forall|i: int| 0 <= i < s.len() implies nick_char(#[trigger] s[i]) == room_char(t[i]) by {
        assert(t[i] == without_dot(s[i]));
    }
    if room_name(t) {
        assert forall|i: int| 0 <= i < s.len() implies nick_char(#[trigger] s[i]) by {
            assert(room_char(t[i]));
        }
    }
    if nick_name(s) {
        assert forall|i: int| 0 <= i < t.len() implies room_char(#[trigger] t[i]) by {
            assert(nick_char(s[i]));
        }
    }
}

/// Whether a room may have this name.
pub fn valid_room(s: &str) -> (r: bool)
    ensures
        r == room_name(s@),
{
    if s.is_empty() || s.as_bytes().len() > MAX_ROOM_NAME {
        return false;
    }
    let chars = chars_of(s);
    let mut i: usize = 0;
    while i < chars.len()
        invariant
            i <= chars@.len(),
            chars@ == s@,
            forall|j: int| 0 <= j < i ==> room_char(#[trigger] s@[j]),
        decreases chars@.len() - i,
    {
        let c: char = chars[i];
        if !(c.is_alphanumeric() || c == '-' || c == '_') {
            assert(!room_char(s@[i as int]));
            return false;
        }
        i = i + 1;
    }
    true
}

/// Whether a person may have this name.
pub fn valid_name(s: &str) -> (r: bool)
    ensures
        r == nick_name(s@),
{
    if s.is_empty() || s.as_bytes().len() > MAX_NICK {
        return false;
    }
    let chars = chars_of(s);
    let mut i: usize = 0;
    while i < chars.len()
        invariant
            i <= chars@.len(),
            chars@ == s@,
            forall|j: int| 0 <= j < i ==> nick_char(#[trigger] s@[j]),
        decreases chars@.len() - i,
    {
        let c: char = chars[i];
        if !(c.is_alphanumeric() || c == '-' || c == '_' || c == '.' || ('а' <= c && c <= 'я') || (
        'А' <= c && c <= 'Я') || c == 'ё' || c == 'Ё') {
            assert(!nick_char(s@[i as int]));
            return false;
        }
        i = i + 1;
    }
    true
}

} // verus!
