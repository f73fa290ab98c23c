//! Text: characters, equality and the order in which names are listed.

use vstd::prelude::*;
use vstd::utf8::*;

verus! {

/// The characters of a text that may be missing.
pub open spec fn text_view(text: Option<String>) -> Option<Seq<char>> {
    match text {
        Some(s) => Some(s@),
        None => None,
    }
}

/// A text that is there is taken as it is.
pub proof fn texts_are_faithful(text: String)
    ensures
        text_view(Some(text)) == Some(text@),
        text_view(None) is None,
{
}

/// The character has the Unicode property `White_Space`.
pub open spec fn white_space(c: char) -> bool {
    let code = c as u32;
    ||| 0x9 <= code <= 0xd
    ||| code == 0x20
    ||| code == 0x85
    ||| code == 0xa0
    ||| code == 0x1680
    ||| 0x2000 <= code <= 0x200a
    ||| code == 0x2028
    ||| code == 0x2029
    ||| code == 0x202f
    ||| code == 0x205f
    ||| code == 0x3000
}

/// The text without the white space at its ends.
pub open spec fn trimmed(s: Seq<char>) -> Seq<char>
    decreases s.len(),
{
    if s.len() > 0 && white_space(s.first()) {
        trimmed(s.drop_first())
    } else if s.len() > 0 && white_space(s.last()) {
        trimmed(s.drop_last())
    } else {
        s
    }
}

/// Trimming takes a part of the text: only white space is left out, at the ends alone, and none is
/// left there.
pub proof fn trimming_removes_white_ends(s: Seq<char>) -> (bounds: (int, int))
    ensures
        0 <= bounds.0 <= bounds.1 <= s.len(),
        trimmed(s) == s.subrange(bounds.0, bounds.1),
        forall|i: int| 0 <= i < bounds.0 ==> white_space(#[trigger] s[i]),
        forall|i: int| bounds.1 <= i < s.len() ==> white_space(#[trigger] s[i]),
        bounds.0 < bounds.1 ==> !white_space(s[bounds.0]) && !white_space(s[bounds.1 - 1]),
    decreases s.len(),
{
    if s.len() > 0 && white_space(s.first()) {
        let rest = s.drop_first();
        let (i, j) = trimming_removes_white_ends(rest);
        assert(s.subrange(i + 1, j + 1) =~= rest.subrange(i, j));
        assert forall|k: int| 0 <= k < i + 1 implies white_space(#[trigger] s[k]) by {
            if k > 0 {
                assert(rest[k - 1] == s[k]);
            }
        }
        assert forall|k: int| j + 1 <= k < s.len() implies white_space(#[trigger] s[k]) by {
            assert(rest[k - 1] == s[k]);
        }
        (i + 1, j + 1)
    } else if s.len() > 0 && white_space(s.last()) {
        let rest = s.drop_last();
        let (i, j) = trimming_removes_white_ends(rest);
        assert(s.subrange(i, j) =~= rest.subrange(i, j));
        assert forall|k: int| 0 <= k < i implies white_space(#[trigger] s[k]) by {
            assert(rest[k] == s[k]);
        }
        assert forall|k: int| j <= k < s.len() implies white_space(#[trigger] s[k]) by {
            if k < rest.len() {
                assert(rest[k] == s[k]);
            }
        }
        (i, j)
    } else {
        assert(s.subrange(0, s.len() as int) =~= s);
        (0, s.len() as int)
    }
}

/// `str::trim`: removes the characters with the Unicode property `White_Space` at both ends.
pub assume_specification[ str::trim ](s: &str) -> (r: &str)
    ensures
        r@ == trimmed(s@),
;

/// What `char::is_alphanumeric` says of a character: alphabetic or numeric by Unicode's tables.
pub uninterp spec fn unicode_alphanumeric(c: char) -> bool;

/// A letter of the Russian alphabet.
pub open spec fn russian_letter(c: char) -> bool {
    'а' <= c <= 'я' || 'А' <= c <= 'Я' || c == 'ё' || c == 'Ё'
}

/// A letter or a number: of ASCII the letters and the digits, otherwise by Unicode's tables, among
/// them the Russian letters and no white space.
pub open spec fn alphanumeric(c: char) -> bool {
    if c as u32 <= 0x7f {
        'a' <= c <= 'z' || 'A' <= c <= 'Z' || '0' <= c <= '9'
    } else if russian_letter(c) {
        true
    } else if white_space(c) {
        false
    } else {
        unicode_alphanumeric(c)
    }
}

/// `char::is_alphanumeric`: whether the character is alphabetic or numeric by Unicode's tables;
/// the ASCII characters among those are the letters and the digits. The Russian letters are
/// alphabetic. White space is neither: it is made of control characters and separators.
pub assume_specification[ char::is_alphanumeric ](c: char) -> (r: bool)
    ensures
        c as u32 > 0x7f ==> r == unicode_alphanumeric(c),
        r == alphanumeric(c),
;

/// `a` comes before `b`: compared character by character by code point, a proper prefix first.
pub open spec fn before(a: Seq<char>, b: Seq<char>) -> bool
    decreases a.len(),
{
    if b.len() == 0 {
        false
    } else if a.len() == 0 {
        true
    } else if a[0] != b[0] {
        (a[0] as u32) < (b[0] as u32)
    } else {
        before(a.drop_first(), b.drop_first())
    }
}

/// Nothing comes before itself.
pub proof fn before_irreflexive(a: Seq<char>)
    ensures
        !before(a, a),
    decreases a.len(),
{
    if a.len() > 0 {
        before_irreflexive(a.drop_first());
    }
}

/// The order is transitive.
pub proof fn before_transitive(a: Seq<char>, b: Seq<char>, c: Seq<char>)
    requires
        before(a, b),
        before(b, c),
    ensures
        before(a, c),
    decreases a.len(),
{
    if a.len() > 0 && a[0] == b[0] && b[0] == c[0] {
        before_transitive(a.drop_first(), b.drop_first(), c.drop_first());
    }
}

/// Two different texts are ordered one way or the other.
pub proof fn before_total(a: Seq<char>, b: Seq<char>)
    requires
        a != b,
    ensures
        before(a, b) || before(b, a),
    decreases a.len(),
{
    if a.len() > 0 && b.len() > 0 && a[0] == b[0] {
        assert(a.drop_first() != b.drop_first()) by {
            if a.drop_first() == b.drop_first() {
                assert(a =~= seq![a[0]] + a.drop_first());
                assert(b =~= seq![b[0]] + b.drop_first());
            }
        }
        before_total(a.drop_first(), b.drop_first());
    } else if a.len() == 0 && b.len() == 0 {
        assert(a =~= b);
    } else if a.len() > 0 && b.len() > 0 {
        let (m, n): (u32, u32) = (a[0] as u32, b[0] as u32);
        char_u32_cast(a[0], m);
        char_u32_cast(b[0], n);
    }
}

/// `a` comes before `b`: compared byte by byte, a proper prefix first.
pub open spec fn bytes_before(a: Seq<u8>, b: Seq<u8>) -> bool
    decreases a.len(),
{
    if b.len() == 0 {
        false
    } else if a.len() == 0 {
        true
    } else if a[0] != b[0] {
        a[0] < b[0]
    } else {
        bytes_before(a.drop_first(), b.drop_first())
    }
}

/// What comes before two byte sequences does not matter to their order.
proof fn common_prefix(p: Seq<u8>, a: Seq<u8>, b: Seq<u8>)
    ensures
        bytes_before(p + a, p + b) == bytes_before(a, b),
    decreases p.len(),
{
    if p.len() == 0 {
        assert(p + a =~= a);
        assert(p + b =~= b);
    } else {
        common_prefix(p.drop_first(), a, b);
        assert((p + a).drop_first() =~= p.drop_first() + a);
        assert((p + b).drop_first() =~= p.drop_first() + b);
    }
}

/// Two byte sequences are ordered by the first byte in which they differ.
proof fn first_difference(a: Seq<u8>, b: Seq<u8>, k: int)
    requires
        0 <= k < a.len(),
        k < b.len(),
        a.take(k) == b.take(k),
        a[k] != b[k],
    ensures
        bytes_before(a, b) == (a[k] < b[k]),
{
    assert(a =~= a.take(k) + a.skip(k));
    assert(b =~= a.take(k) + b.skip(k));
    common_prefix(a.take(k), a.skip(k), b.skip(k));
}

/// Where the encodings of two characters differ first; the smaller character has the smaller byte.
proof fn scalars_differ_at(m: u32, n: u32) -> (k: int)
    requires
        is_scalar(m),
        is_scalar(n),
        m < n,
    ensures
        0 <= k < encode_scalar(m).len(),
        k < encode_scalar(n).len(),
        encode_scalar(m).take(k) == encode_scalar(n).take(k),
        encode_scalar(m)[k] < encode_scalar(n)[k],
{
    let a = encode_scalar(m);
    let b = encode_scalar(n);
    if m <= 0x7F {
        assert(leading_byte_width_1(m) < 0x80) by (bit_vector);
        assert(n <= 0x7F ==> leading_byte_width_1(m) < leading_byte_width_1(n)) by (bit_vector)
            requires
                m < n,
        ;
    }
    assert(0xC0 <= leading_byte_width_2(n)) by (bit_vector);
    assert(leading_byte_width_2(m) < 0xE0) by (bit_vector);
    assert(0xE0 <= leading_byte_width_3(n)) by (bit_vector);
    assert(leading_byte_width_3(m) < 0xF0) by (bit_vector);
    assert(0xF0 <= leading_byte_width_4(n)) by (bit_vector);
    if n <= 0x7FF {
        assert(leading_byte_width_2(m) <= leading_byte_width_2(n)) by (bit_vector)
            requires
                m < n <= 0x7FF,
        ;
        assert(leading_byte_width_2(m) == leading_byte_width_2(n) ==> last_continuation_byte(m)
            < last_continuation_byte(n)) by (bit_vector)
            requires
                m < n <= 0x7FF,
        ;
    }
    if n <= 0xFFFF {
        assert(leading_byte_width_3(m) <= leading_byte_width_3(n)) by (bit_vector)
            requires
                m < n <= 0xFFFF,
        ;
        assert(leading_byte_width_3(m) == leading_byte_width_3(n) ==> second_last_continuation_byte(
            m,
        ) <= second_last_continuation_byte(n)) by (bit_vector)
            requires
                m < n <= 0xFFFF,
        ;
        assert(leading_byte_width_3(m) == leading_byte_width_3(n) && second_last_continuation_byte(
            m,
        ) == second_last_continuation_byte(n) ==> last_continuation_byte(m)
            < last_continuation_byte(n)) by (bit_vector)
            requires
                m < n <= 0xFFFF,
        ;
    }
    assert(leading_byte_width_4(m) <= leading_byte_width_4(n)) by (bit_vector)
        requires
            m < n <= 0x10FFFF,
    ;
    assert(leading_byte_width_4(m) == leading_byte_width_4(n) ==> third_last_continuation_byte(m)
        <= third_last_continuation_byte(n)) by (bit_vector)
        requires
            m < n <= 0x10FFFF,
    ;
    assert(leading_byte_width_4(m) == leading_byte_width_4(n) && third_last_continuation_byte(m)
        == third_last_continuation_byte(n) ==> second_last_continuation_byte(m)
        <= second_last_continuation_byte(n)) by (bit_vector)
        requires
            m < n <= 0x10FFFF,
    ;
    assert(leading_byte_width_4(m) == leading_byte_width_4(n) && third_last_continuation_byte(m)
        == third_last_continuation_byte(n) && second_last_continuation_byte(m)
        == second_last_continuation_byte(n) ==> last_continuation_byte(m) < last_continuation_byte(
        n,
    )) by (bit_vector)
        requires
            m < n <= 0x10FFFF,
    ;
    let k: int = if a[0] != b[0] {
        0
    } else if a[1] != b[1] {
        1
    } else if a[2] != b[2] {
        2
    } else {
        3
    };
    assert(a.take(k) =~= b.take(k));
    k
}

/// The order by code points is the order of the UTF-8 encodings, byte by byte.
pub proof fn before_is_byte_order(a: Seq<char>, b: Seq<char>)
    ensures
        before(a, b) <==> bytes_before(encode_utf8(a), encode_utf8(b)),
    decreases a.len(),
{
    let x = encode_utf8(a);
    let y = encode_utf8(b);
    if a.len() == 0 || b.len() == 0 {
        if b.len() > 0 {
            char_is_scalar(b[0]);
            assert(y.len() > 0);
        }
    } else {
        let (m, n): (u32, u32) = (a[0] as u32, b[0] as u32);
        char_is_scalar(a[0]);
        char_is_scalar(b[0]);
        if m == n {
            char_u32_cast(a[0], m);
            char_u32_cast(b[0], n);
            before_is_byte_order(a.drop_first(), b.drop_first());
            common_prefix(
                encode_scalar(m),
                encode_utf8(a.drop_first()),
                encode_utf8(b.drop_first()),
            );
        } else {
            let k = if m < n {
                scalars_differ_at(m, n)
            } else {
                scalars_differ_at(n, m)
            };
            assert(x.take(k) =~= encode_scalar(m).take(k));
            assert(y.take(k) =~= encode_scalar(n).take(k));
            first_difference(x, y, k);
        }
    }
}

/// The characters of `s`, in order.
pub fn chars_of(s: &str) -> (chars: Vec<char>)
    ensures
        chars@ == s@,
{
    let mut chars: Vec<char> = Vec::new();
    for c in it: s.chars()
        invariant
            chars@ == it.seq().take(it.index()),
            it.seq() == s@,
    {
        chars.push(c);
        assert(it.seq().take(it.index() + 1) =~= it.seq().take(it.index()).push(c));
    }
    assert(s@.take(s@.len() as int) =~= s@);
    chars
}

/// Whether `a` comes before `b`.
pub fn is_before(a: &str, b: &str) -> (r: bool)
    ensures
        r == before(a@, b@),
{
    let x = chars_of(a);
    let y = chars_of(b);
    let mut i: usize = 0;
    assert(x@.skip(0) =~= x@);
    assert(y@.skip(0) =~= y@);
    while i < x.len() && i < y.len() && x[i] == y[i]
        invariant
            i <= x.len(),
            i <= y.len(),
            before(x@, y@) == before(x@.skip(i as int), y@.skip(i as int)),
        decreases x.len() - i,
    {
        assert(x@.skip(i as int).drop_first() =~= x@.skip(i + 1));
        assert(y@.skip(i as int).drop_first() =~= y@.skip(i + 1));
        i = i + 1;
    }
    if i >= y.len() {
        false
    } else if i >= x.len() {
        true
    } else {
        (x[i] as u32) < (y[i] as u32)
    }
}

/// Whether the two texts are the same.
pub fn same_text(a: &str, b: &str) -> (r: bool)
    ensures
        r == (a@ == b@),
{
    let x = a.as_bytes();
    let y = b.as_bytes();
    proof {
        encode_utf8_decode_utf8(a@);
        encode_utf8_decode_utf8(b@);
    }
    if x.len() != y.len() {
        return false;
    }
    let mut i: usize = 0;
    while i < x.len()
        invariant
            x@ == encode_utf8(a@),
            y@ == encode_utf8(b@),
            x.len() == y.len(),
            i <= x.len(),
            forall|j: int| 0 <= j < i ==> x@[j] == y@[j],
        decreases x.len() - i,
    {
        if x[i] != y[i] {
            return false;
        }
        i = i + 1;
    }
    assert(x@ =~= y@);
    true
}

} // verus!
