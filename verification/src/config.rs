//! How the server is set up.

use crate::text::chars_of;
use vstd::prelude::*;
use vstd::utf8::*;

verus! {

/// The environment variables that set the server up, each as far as it is set.
pub struct Environment {
    /// `LIVEKIT_API_KEY`
    pub api_key: Option<String>,
    /// `LIVEKIT_API_SECRET`
    pub api_secret: Option<String>,
    /// `HOST`
    pub host: Option<String>,
    /// `PORT`
    pub port: Option<String>,
    /// `STATIC_DIR`
    pub static_dir: Option<String>,
    /// `LIVEKIT_URL`
    pub livekit_url: Option<String>,
    /// `ALLOWED_ORIGIN`
    pub allowed_origin: Option<String>,
}

/// How many characters the secret has at least.
pub const MIN_SECRET: usize = 32;

/// Why the environment does not set the server up.
#[derive(Clone, Copy, Debug, PartialEq, Eq, Structural)]
pub enum SecretError {
    /// There is no secret.
    Missing,
    /// The secret is too short to sign with.
    TooShort,
}

/// How the server is set up.
pub struct Config {
    pub api_key: String,
    pub api_secret: String,
    pub host: String,
    pub port: u16,
    pub static_dir: String,
    pub livekit_url: String,
    pub allowed_origin: String,
}

/// The text where it is there, else the other one.
pub open spec fn text_or(text: Option<String>, default: Seq<char>) -> Seq<char> {
    match text {
        Some(s) => s@,
        None => default,
    }
}

/// The character is a decimal digit.
pub open spec fn digit(c: char) -> bool {
    '0' <= c <= '9'
}

/// The number that a sequence of decimal digits writes.
pub open spec fn decimal(digits: Seq<char>) -> int
    decreases digits.len(),
{
    if digits.len() == 0 {
        0
    } else {
        10 * decimal(digits.drop_last()) + (digits.last() as int - '0' as int)
    }
}

/// There are digits, and nothing else.
pub open spec fn all_digits(digits: Seq<char>) -> bool {
    digits.len() > 0 && forall|i: int| 0 <= i < digits.len() ==> digit(#[trigger] digits[i])
}

/// The text without a plus sign at its start.
pub open spec fn unsigned(text: Seq<char>) -> Seq<char> {
    if text.len() > 0 && text[0] == '+' {
        text.drop_first()
    } else {
        text
    }
}

/// The port number that a text writes: decimal digits, a plus sign before them allowed.
pub open spec fn port_number(text: Seq<char>) -> Option<u16> {
    let digits = unsigned(text);
    if all_digits(digits) && decimal(digits) <= u16::MAX {
        Some(decimal(digits) as u16)
    } else {
        None
    }
}

/// The port number that a text writes, or the other one where there is no text or it writes none.
pub open spec fn port_or(text: Option<String>, default: u16) -> u16 {
    match text {
        Some(s) => match port_number(s@) {
            Some(port) => port,
            None => default,
        },
        None => default,
    }
}

/// A variable that is set is taken as it is, and the default only where it is not set.
pub proof fn set_variables_are_taken(text: Option<String>, default: Seq<char>)
    ensures
        text is Some ==> text_or(text, default) == text->0@,
        text is None ==> text_or(text, default) == default,
{
}

/// The decimal digits of a number, as many as it takes.
pub open spec fn digits_of(n: nat) -> Seq<char>
    decreases n,
{
    let last = ('0' as int + n % 10) as char;
    if n < 10 {
        seq![last]
    } else {
        digits_of(n / 10).push(last)
    }
}

/// As many zeros.
pub open spec fn zeros_of(n: nat) -> Seq<char> {
    Seq::new(n, |i: int| '0')
}

proof fn digits_are_read(n: nat)
    ensures
        all_digits(digits_of(n)),
        decimal(digits_of(n)) == n,
    decreases n,
{
    let digits = digits_of(n);
    let last = ('0' as int + n % 10) as char;
    assert(digit(last) && last as int - '0' as int == n % 10);
    if n < 10 {
        assert(digits.drop_last() =~= Seq::empty());
        assert(decimal(digits.drop_last()) == 0);
        assert(digits[0] == last);
    } else {
        digits_are_read(n / 10);
        assert(digits.drop_last() =~= digits_of(n / 10));
        assert forall|i: int| 0 <= i < digits.len() implies digit(#[trigger] digits[i]) by {
            if i < digits.len() - 1 {
                assert(digits[i] == digits_of(n / 10)[i]);
            }
        }
    }
}

proof fn zeros_do_not_count(zeros: nat, digits: Seq<char>)
    requires
        all_digits(digits),
    ensures
        all_digits(zeros_of(zeros) + digits),
        decimal(zeros_of(zeros) + digits) == decimal(digits),
    decreases digits.len(),
{
    let text = zeros_of(zeros) + digits;
    assert forall|i: int| 0 <= i < text.len() implies digit(#[trigger] text[i]) by {
        if i >= zeros {
            assert(text[i] == digits[i - zeros]);
        }
    }
    assert(text.drop_last() =~= zeros_of(zeros) + digits.drop_last());
    if digits.len() > 1 {
        assert forall|i: int| 0 <= i < digits.len() - 1 implies digit(
            #[trigger] digits.drop_last()[i],
        ) by {
            assert(digits.drop_last()[i] == digits[i]);
        }
        zeros_do_not_count(zeros, digits.drop_last());
    } else {
        assert(digits.drop_last() =~= Seq::empty());
        only_zeros(zeros);
        assert(text.drop_last() =~= zeros_of(zeros));
    }
}

proof fn only_zeros(zeros: nat)
    ensures
        decimal(zeros_of(zeros)) == 0,
    decreases zeros,
{
    if zeros > 0 {
        only_zeros((zeros - 1) as nat);
        assert(zeros_of(zeros).drop_last() =~= zeros_of((zeros - 1) as nat));
    }
}

/// Every port number is read from its decimal digits, with or without a plus sign and zeros before
/// them; a larger number is none.
pub proof fn ports_are_read(n: nat, zeros: nat)
    ensures
        ({
            let text = zeros_of(zeros) + digits_of(n);
            let expected = if n <= u16::MAX {
                Some(n as u16)
            } else {
                None
            };
            port_number(text) == expected && port_number(seq!['+'] + text) == expected
        }),
{
    let text = zeros_of(zeros) + digits_of(n);
    digits_are_read(n);
    zeros_do_not_count(zeros, digits_of(n));
    assert(digit(text[0]));
    assert((seq!['+'] + text).drop_first() =~= text);
}

/// A text with anything but decimal digits, behind the plus sign that may come first, is no port
/// number, and neither is one without any digit.
pub proof fn other_texts_are_no_ports(text: Seq<char>, i: int)
    requires
        0 <= i < text.len(),
        !('0' <= text[i] <= '9'),
        i > 0 || text[0] != '+' || text.len() == 1,
    ensures
        port_number(text) is None,
        port_number(Seq::empty()) is None,
{
    if text[0] == '+' {
        if text.len() > 1 {
            assert(text.drop_first()[i - 1] == text[i]);
            assert(!digit(unsigned(text)[i - 1]));
        }
    } else {
        assert(!digit(unsigned(text)[i]));
    }
}

/// The port is the one that the variable writes, and the default where it is not set or writes none.
pub proof fn set_port_is_taken(text: Option<String>, default: u16)
    ensures
        text is Some && port_number(text->0@) is Some ==> Some(port_or(text, default))
            == port_number(text->0@),
        text is None || port_number(text->0@) is None ==> port_or(text, default) == default,
{
}

/// Reads a port number.
pub fn parse_port(text: &str) -> (r: Option<u16>)
    ensures
        r == port_number(text@),
{
    let chars = chars_of(text);
    let start: usize = if chars.len() > 0 && chars[0] == '+' {
        1
    } else {
        0
    };
    let ghost digits = chars@.skip(start as int);
    assert(start == 0 ==> digits =~= chars@);
    assert(start == 1 ==> digits =~= chars@.drop_first());
    if start >= chars.len() {
        return None;
    }
    let mut value: u32 = 0;
    let mut i: usize = start;
    assert(digits.take(0) =~= Seq::<char>::empty());
    while i < chars.len()
        invariant
            start <= i <= chars@.len(),
            start <= 1,
            chars@ == text@,
            digits == chars@.skip(start as int),
            digits == unsigned(text@),
            value <= 65536,
            value < 65536 ==> value == decimal(digits.take(i - start)),
            value == 65536 ==> decimal(digits.take(i - start)) >= 65536,
            forall|j: int| 0 <= j < i - start ==> digit(#[trigger] digits[j]),
        decreases chars@.len() - i,
    {
        let c: char = chars[i];
        assert(c == digits[i - start]);
        if !('0' <= c && c <= '9') {
            assert(!all_digits(digits)) by {
                assert(!digit(digits[i - start]));
            }
            return None;
        }
        let d: u32 = c as u32 - '0' as u32;
        let next: u32 = value * 10 + d;
        value = if next > 65535 {
            65536
        } else {
            next
        };
        assert(digits.take(i + 1 - start).drop_last() =~= digits.take(i - start));
        i = i + 1;
    }
    assert(digits.take(i - start) =~= digits);
    if value == 65536 {
        None
    } else {
        Some(value as u16)
    }
}

fn or_default(text: Option<String>, default: &str) -> (r: String)
    ensures
        r@ == text_or(text, default@),
{
    match text {
        Some(s) => s,
        None => default.to_owned(),
    }
}

impl Config {
    /// The set-up that the environment asks for. There has to be a secret that is long enough; all
    /// else has a default.
    pub fn from_env(vars: Environment) -> (r: Result<Self, SecretError>)
        ensures
            r is Ok <==> vars.api_secret is Some && vars.api_secret->0@.len() >= MIN_SECRET,
            r is Err ==> r->Err_0 == (if vars.api_secret is None {
                SecretError::Missing
            } else {
                SecretError::TooShort
            }),
            r is Ok ==> r->Ok_0.api_secret@ == vars.api_secret->0@,
            r is Ok ==> r->Ok_0.api_key@ == text_or(vars.api_key, "vchat_key"@),
            r is Ok ==> r->Ok_0.host@ == text_or(vars.host, "127.0.0.1"@),
            r is Ok ==> r->Ok_0.port == port_or(vars.port, 3000),
            r is Ok ==> r->Ok_0.static_dir@ == text_or(vars.static_dir, "public"@),
            r is Ok ==> r->Ok_0.livekit_url@ == text_or(vars.livekit_url, "ws://localhost:7880"@),
            r is Ok ==> r->Ok_0.allowed_origin@ == text_or(vars.allowed_origin, "*"@),
    {
        let api_secret = match vars.api_secret {
            Some(secret) => secret,
            None => {
                return Err(SecretError::Missing);
            },
        };
        if chars_of(api_secret.as_str()).len() < MIN_SECRET {
            return Err(SecretError::TooShort);
        }
        let port: u16 = match vars.port {
            Some(text) => match parse_port(text.as_str()) {
                Some(port) => port,
                None => 3000,
            },
            None => 3000,
        };
        Ok(
            Config {
                api_key: or_default(vars.api_key, "vchat_key"),
                api_secret,
                host: or_default(vars.host, "127.0.0.1"),
                port,
                static_dir: or_default(vars.static_dir, "public"),
                livekit_url: or_default(vars.livekit_url, "ws://localhost:7880"),
                allowed_origin: or_default(vars.allowed_origin, "*"),
            },
        )
    }

    /// The part of the API key that a log may show: its first eight bytes.
    pub fn key_prefix(&self) -> (r: &str)
        requires
            encode_utf8(self.api_key@).len() > 8 ==> is_char_boundary(
                encode_utf8(self.api_key@),
                8,
            ),
        ensures
            encode_utf8(r@) == (if encode_utf8(self.api_key@).len() > 8 {
                encode_utf8(self.api_key@).take(8)
            } else {
                encode_utf8(self.api_key@)
            }),
    {
        let key = self.api_key.as_str();
        if key.as_bytes().len() > 8 {
            let (prefix, _) = key.split_at(8);
            prefix
        } else {
            key
        }
    }
}

/// How many threads answer requests: two for each processor, at most 32; four where the number of
/// processors is not known.
pub fn worker_count(processors: Option<usize>) -> (r: usize)
    ensures
        r == (match processors {
            Some(n) => if 2 * n < 32 {
                2 * n
            } else {
                32
            },
            None => 4,
        }),
{
    match processors {
        Some(n) => if n < 16 {
            2 * n
        } else {
            32
        },
        None => 4,
    }
}

} // verus!
