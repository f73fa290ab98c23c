//! Encodings of bytes as text: base64url without padding, and hexadecimal.

use base64::engine::general_purpose::URL_SAFE_NO_PAD;
use base64::Engine;
use vstd::prelude::*;
use vstd::string::*;

verus! {

/// The byte at `i`, zero past the end.
pub open spec fn byte_at(data: Seq<u8>, i: int) -> int {
    if 0 <= i < data.len() {
        data[i] as int
    } else {
        0
    }
}

/// The `i`-th group of six bits of `data`, counted from the first, filled up with zero bits.
pub open spec fn sextet(data: Seq<u8>, i: int) -> int {
    let first = 3 * (i / 4);
    if i % 4 == 0 {
        byte_at(data, first) / 4
    } else if i % 4 == 1 {
        byte_at(data, first) % 4 * 16 + byte_at(data, first + 1) / 16
    } else if i % 4 == 2 {
        byte_at(data, first + 1) % 16 * 4 + byte_at(data, first + 2) / 64
    } else {
        byte_at(data, first + 2) % 64
    }
}

/// The character of the URL-safe base64 alphabet that stands for `v`: `A` to `Z`, `a` to `z`, `0`
/// to `9`, `-`, `_`.
pub open spec fn base64url_char(v: int) -> char {
    if v < 26 {
        (65 + v) as char
    } else if v < 52 {
        (97 + (v - 26)) as char
    } else if v < 62 {
        (48 + (v - 52)) as char
    } else if v == 62 {
        '-'
    } else {
        '_'
    }
}

/// How many characters base64 without padding takes for `n` bytes.
pub open spec fn base64url_len(n: nat) -> nat {
    n / 3 * 4 + (if n % 3 == 0 {
        0nat
    } else {
        n % 3 + 1
    })
}

/// `data` in base64 with the URL-safe alphabet and without padding.
pub open spec fn base64url(data: Seq<u8>) -> Seq<char> {
    Seq::new(base64url_len(data.len()), |i: int| base64url_char(sextet(data, i)))
}

/// Calls `encode` of base64's engine `URL_SAFE_NO_PAD`: one character of the URL-safe alphabet for
/// each group of six bits, and no padding. A slice is never so long that the length of the text
/// would not fit in `usize`.
#[verifier::external_body]
pub(crate) fn b64(data: &[u8]) -> (r: String)
    ensures
        r@ == base64url(data@),
{
    URL_SAFE_NO_PAD.encode(data)
}

/// Base64 text holds letters, digits, `-` and `_` only; in particular no dot.
pub proof fn base64url_alphabet(data: Seq<u8>, i: int)
    requires
        0 <= i < base64url(data).len(),
    ensures
        ({
            let c = base64url(data)[i];
            ||| 'A' <= c <= 'Z'
            ||| 'a' <= c <= 'z'
            ||| '0' <= c <= '9'
            ||| c == '-'
            ||| c == '_'
        }),
{
    assert(0 <= sextet(data, i) < 64);
}

proof fn base64url_char_injective(v: int, w: int)
    requires
        0 <= v < 64,
        0 <= w < 64,
        base64url_char(v) == base64url_char(w),
    ensures
        v == w,
{
}

proof fn base64url_len_injective(m: nat, n: nat)
    requires
        base64url_len(m) == base64url_len(n),
    ensures
        m == n,
{
}

/// Base64 text determines the bytes that it encodes.
pub proof fn base64url_injective(a: Seq<u8>, b: Seq<u8>)
    requires
        base64url(a) == base64url(b),
    ensures
        a == b,
{
    assert(base64url(a).len() == base64url_len(a.len()));
    assert(base64url(b).len() == base64url_len(b.len()));
    base64url_len_injective(a.len(), b.len());
    assert forall|j: int| 0 <= j < a.len() implies a[j] == b[j] by {
        let k = j / 3;
        assert forall|i: int| 0 <= i < base64url(a).len() implies sextet(a, i) == sextet(b, i) by {
            assert(base64url(a)[i] == base64url_char(sextet(a, i)));
            assert(base64url(b)[i] == base64url_char(sextet(b, i)));
            base64url_char_injective(sextet(a, i), sextet(b, i));
        }
        if j % 3 == 0 {
            assert(sextet(a, 4 * k) == sextet(b, 4 * k));
            assert(sextet(a, 4 * k + 1) == sextet(b, 4 * k + 1));
        } else if j % 3 == 1 {
            assert(sextet(a, 4 * k + 1) == sextet(b, 4 * k + 1));
            assert(sextet(a, 4 * k + 2) == sextet(b, 4 * k + 2));
        } else {
            assert(sextet(a, 4 * k + 2) == sextet(b, 4 * k + 2));
            assert(sextet(a, 4 * k + 3) == sextet(b, 4 * k + 3));
        }
    }
    assert(a =~= b);
}

/// The lower-case hexadecimal digit for `v`.
pub open spec fn hex_char(v: int) -> char {
    if v < 10 {
        (48 + v) as char
    } else {
        (97 + (v - 10)) as char
    }
}

/// Two lower-case hexadecimal digits for each byte.
pub open spec fn hex_text(data: Seq<u8>) -> Seq<char> {
    Seq::new(
        2 * data.len(),
        |i: int|
            hex_char(
                if i % 2 == 0 {
                    data[i / 2] as int / 16
                } else {
                    data[i / 2] as int % 16
                },
            ),
    )
}

/// The value of a lower-case hexadecimal digit.
pub open spec fn hex_value(c: char) -> int {
    if '0' <= c <= '9' {
        c as int - '0' as int
    } else if 'a' <= c <= 'f' {
        c as int - 'a' as int + 10
    } else {
        -1
    }
}

/// Hexadecimal text reads back: there are two digits for each byte, the higher one first, whose
/// values make up the byte.
pub proof fn hex_reads_back(data: Seq<u8>, i: int)
    requires
        0 <= i < data.len(),
    ensures
        hex_text(data).len() == 2 * data.len(),
        0 <= hex_value(hex_text(data)[2 * i]) < 16,
        0 <= hex_value(hex_text(data)[2 * i + 1]) < 16,
        data[i] == 16 * hex_value(hex_text(data)[2 * i]) + hex_value(hex_text(data)[2 * i + 1]),
{
    assert((2 * i) / 2 == i && (2 * i + 1) / 2 == i);
    assert(hex_text(data)[2 * i] == hex_char(data[i] as int / 16));
    assert(hex_text(data)[2 * i + 1] == hex_char(data[i] as int % 16));
}

fn hex_digit(v: u8) -> (r: &'static str)
    requires
        v < 16,
    ensures
        r@ == seq![hex_char(v as int)],
{
    proof {
        reveal_strlit("0");
        reveal_strlit("1");
        reveal_strlit("2");
        reveal_strlit("3");
        reveal_strlit("4");
        reveal_strlit("5");
        reveal_strlit("6");
        reveal_strlit("7");
        reveal_strlit("8");
        reveal_strlit("9");
        reveal_strlit("a");
        reveal_strlit("b");
        reveal_strlit("c");
        reveal_strlit("d");
        reveal_strlit("e");
        reveal_strlit("f");
    }
    let r = match v {
        0 => "0",
        1 => "1",
        2 => "2",
        3 => "3",
        4 => "4",
        5 => "5",
        6 => "6",
        7 => "7",
        8 => "8",
        9 => "9",
        10 => "a",
        11 => "b",
        12 => "c",
        13 => "d",
        14 => "e",
        _ => "f",
    };
    assert(r@ =~= seq![hex_char(v as int)]);
    r
}

/// The token identifier that eight random bytes give: sixteen hexadecimal digits.
pub fn random_jti(random: &[u8; 8]) -> (r: String)
    ensures
        r@ == hex_text(random@),
{
    let mut r = String::new();
    let mut i: usize = 0;
    while i < 8
        invariant
            i <= 8,
            random@.len() == 8,
            r@ == hex_text(random@.take(i as int)),
        decreases 8 - i,
    {
        let b: u8 = random[i];
        r.append(hex_digit(b / 16));
        r.append(hex_digit(b % 16));
        proof {
            let next = random@.take(i + 1);
            assert(r@ =~= hex_text(next));
        }
        i = i + 1;
    }
    assert(random@.take(8) =~= random@);
    r
}

} // verus!
