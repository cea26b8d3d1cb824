//! What the JSON reader accepts and what it returns, as functions of
//! the input bytes.
//!
//! Every reader takes the whole input `s` and a position `i`, and
//! returns what it read together with how many bytes it consumed from
//! `i`. A read that runs past the end, or meets a byte the grammar has
//! no place for, is `None`.

use vstd::prelude::*;
use vstd::utf8::*;

verus! {

pub const QUOTE: u8 = 0x22;
pub const BACKSLASH: u8 = 0x5c;
pub const LBRACE: u8 = 0x7b;
pub const RBRACE: u8 = 0x7d;
pub const LBRACKET: u8 = 0x5b;
pub const RBRACKET: u8 = 0x5d;
pub const COLON: u8 = 0x3a;
pub const COMMA: u8 = 0x2c;

/// The string-valued fields of an object, in the order they were read.
pub type Fields = Seq<(Seq<char>, Seq<char>)>;

/// How many bytes are left from `i`; zero once `i` is past the end.
pub open spec fn rem(s: Seq<u8>, i: nat) -> nat {
    if i <= s.len() {
        (s.len() - i) as nat
    } else {
        0
    }
}

/// The four bytes JSON counts as white space.
pub open spec fn is_space(b: u8) -> bool {
    b == 0x20 || b == 0x09 || b == 0x0a || b == 0x0d
}

/// The length of the run of white space at `i`.
pub open spec fn space_len(s: Seq<u8>, i: nat) -> nat
    decreases rem(s, i),
{
    if i < s.len() && is_space(s[i as int]) {
        1 + space_len(s, i + 1)
    } else {
        0
    }
}

/// The position after the white space at `i`.
pub open spec fn skip(s: Seq<u8>, i: nat) -> nat {
    i + space_len(s, i)
}

/// The value of one hexadecimal digit, either case.
pub open spec fn hex_digit(b: u8) -> Option<u32> {
    if 0x30 <= b <= 0x39 {
        Some((b - 0x30) as u32)
    } else if 0x61 <= b <= 0x66 {
        Some((b - 0x61 + 10) as u32)
    } else if 0x41 <= b <= 0x46 {
        Some((b - 0x41 + 10) as u32)
    } else {
        None
    }
}

/// Three hexadecimal digits from `i`.
pub open spec fn hex3(s: Seq<u8>, i: int) -> Option<u32> {
    match (hex_digit(s[i]), hex_digit(s[i + 1]), hex_digit(s[i + 2])) {
        (Some(a), Some(b), Some(c)) => Some((a * 256 + b * 16 + c) as u32),
        _ => None,
    }
}

/// The number four hexadecimal digits at `i` spell; anything else at
/// `i`, a sign among them, is no number.
pub open spec fn hex4(s: Seq<u8>, i: nat) -> Option<u32> {
    if i + 4 > s.len() {
        None
    } else {
        match (hex_digit(s[i as int]), hex3(s, i + 1int)) {
            (Some(a), Some(r)) => Some((a * 4096 + r) as u32),
            _ => None,
        }
    }
}

/// The code a `\u` escape names, read from just after the `u`, and how
/// many bytes it took: four digits, or ten when a high surrogate is
/// followed by `\u` and a second code, which together spell one
/// character.
pub open spec fn unicode_escape(s: Seq<u8>, i: nat) -> Option<(u32, nat)> {
    match hex4(s, i) {
        None => None,
        Some(code) => if 0xd800 <= code < 0xdc00 {
            if i + 6 <= s.len() && s[i + 4int] == BACKSLASH && s[i + 5int] == 0x75 {
                match hex4(s, i + 6) {
                    Some(low) => if low >= 0xdc00 {
                        Some(((0x10000 + (code - 0xd800) * 1024 + (low - 0xdc00)) as u32, 10nat))
                    } else {
                        None
                    },
                    None => None,
                }
            } else {
                None
            }
        } else {
            Some((code, 4nat))
        },
    }
}

/// The byte a one-letter escape stands for.
pub open spec fn simple_escape(e: u8) -> Option<u8> {
    if e == QUOTE {
        Some(QUOTE)
    } else if e == BACKSLASH {
        Some(BACKSLASH)
    } else if e == 0x2f {
        Some(0x2f)
    } else if e == 0x62 {
        Some(0x08)
    } else if e == 0x66 {
        Some(0x0c)
    } else if e == 0x6e {
        Some(0x0a)
    } else if e == 0x72 {
        Some(0x0d)
    } else if e == 0x74 {
        Some(0x09)
    } else {
        None
    }
}

/// The body of a string literal from `j` (just after its opening quote):
/// the bytes it stands for, and how many bytes it takes up to and
/// including the closing quote.
pub open spec fn string_body(s: Seq<u8>, j: nat) -> Option<(Seq<u8>, nat)>
    decreases rem(s, j),
{
    if j >= s.len() {
        None
    } else if s[j as int] == QUOTE {
        Some((seq![], 1nat))
    } else if s[j as int] == BACKSLASH {
        if j + 1 >= s.len() {
            None
        } else {
            let e = s[j + 1int];
            match simple_escape(e) {
                Some(b) => match string_body(s, j + 2) {
                    Some((bs, c)) => Some((seq![b] + bs, c + 2)),
                    None => None,
                },
                None => if e == 0x75 {
                    match unicode_escape(s, j + 2) {
                        Some((code, n)) => if is_scalar(code) {
                            match string_body(s, j + 2 + n) {
                                Some((bs, c)) => Some((encode_scalar(code) + bs, c + 2 + n)),
                                None => None,
                            }
                        } else {
                            None
                        },
                        None => None,
                    }
                } else {
                    None
                },
            }
        }
    } else {
        match string_body(s, j + 1) {
            Some((bs, c)) => Some((seq![s[j as int]] + bs, c + 1)),
            None => None,
        }
    }
}

/// A string literal at `i`: its characters and its length in bytes.
/// The escapes must spell valid UTF-8.
pub open spec fn string_lit(s: Seq<u8>, i: nat) -> Option<(Seq<char>, nat)> {
    if i < s.len() && s[i as int] == QUOTE {
        match string_body(s, i + 1) {
            Some((bs, c)) => if valid_utf8(bs) {
                Some((decode_utf8(bs), c + 1))
            } else {
                None
            },
            None => None,
        }
    } else {
        None
    }
}

/// The bytes that may continue a number: digits, signs, `.` and `e`.
pub open spec fn is_number_byte(b: u8) -> bool {
    b == 0x2d || b == 0x2b || b == 0x2e || b == 0x65 || b == 0x45 || (0x30 <= b <= 0x39)
}

/// The length of the run of number bytes at `i`.
pub open spec fn number_len(s: Seq<u8>, i: nat) -> nat
    decreases rem(s, i),
{
    if i < s.len() && is_number_byte(s[i as int]) {
        1 + number_len(s, i + 1)
    } else {
        0
    }
}

/// `w` spelled out at `i`.
pub open spec fn word_at(s: Seq<u8>, i: nat, w: Seq<u8>) -> bool {
    i + w.len() <= s.len() && s.subrange(i as int, i + w.len() as int) == w
}

pub open spec fn true_bytes() -> Seq<u8> {
    seq![0x74u8, 0x72u8, 0x75u8, 0x65u8]
}

pub open spec fn false_bytes() -> Seq<u8> {
    seq![0x66u8, 0x61u8, 0x6cu8, 0x73u8, 0x65u8]
}

pub open spec fn null_bytes() -> Seq<u8> {
    seq![0x6eu8, 0x75u8, 0x6cu8, 0x6cu8]
}

/// A word value (`true`, `false`, `null`) at `i`.
pub open spec fn word_value(s: Seq<u8>, i: nat, w: Seq<u8>) -> Option<(Option<Seq<char>>, nat)> {
    if word_at(s, i, w) {
        Some((None, w.len()))
    } else {
        None
    }
}

/// One value at `i`: `Some(t)` for a string, `None` for a value of any
/// other type, which is read over and not kept.
pub open spec fn value(s: Seq<u8>, i: nat) -> Option<(Option<Seq<char>>, nat)>
    decreases rem(s, i), 2nat,
{
    if i >= s.len() {
        None
    } else {
        let b = s[i as int];
        if b == QUOTE {
            match string_lit(s, i) {
                Some((t, c)) => Some((Some(t), c)),
                None => None,
            }
        } else if b == LBRACE {
            match object(s, i) {
                Some((_, c)) => Some((None, c)),
                None => None,
            }
        } else if b == LBRACKET {
            let k = skip(s, i + 1);
            if k < s.len() && s[k as int] == RBRACKET {
                Some((None, (k + 1 - i) as nat))
            } else {
                match items(s, k) {
                    Some(d) => Some((None, (k - i) as nat + d)),
                    None => None,
                }
            }
        } else if b == 0x74 {
            word_value(s, i, true_bytes())
        } else if b == 0x66 {
            word_value(s, i, false_bytes())
        } else if b == 0x6e {
            word_value(s, i, null_bytes())
        } else if b == 0x2d || (0x30 <= b <= 0x39) {
            Some((None, number_len(s, i)))
        } else {
            None
        }
    }
}

/// The elements of an array from `j`, through its closing bracket; how
/// many bytes they take.
pub open spec fn items(s: Seq<u8>, j: nat) -> Option<nat>
    decreases rem(s, j), 3nat,
{
    let k = skip(s, j);
    match value(s, k) {
        None => None,
        Some((_, c)) => {
            let m = skip(s, k + c);
            if m < s.len() && s[m as int] == COMMA {
                match items(s, m + 1) {
                    Some(d) => Some((m + 1 - j) as nat + d),
                    None => None,
                }
            } else if m < s.len() && s[m as int] == RBRACKET {
                Some((m + 1 - j) as nat)
            } else {
                None
            }
        },
    }
}

/// An object at `i`: its string-valued fields, and its length.
pub open spec fn object(s: Seq<u8>, i: nat) -> Option<(Fields, nat)>
    decreases rem(s, i), 1nat,
{
    if i < s.len() && s[i as int] == LBRACE {
        let k = skip(s, i + 1);
        if k < s.len() && s[k as int] == RBRACE {
            Some((seq![], (k + 1 - i) as nat))
        } else {
            match fields(s, k) {
                Some((fs, d)) => Some((fs, (k - i) as nat + d)),
                None => None,
            }
        }
    } else {
        None
    }
}

/// The members of an object from `j`, through its closing brace: the
/// string-valued ones, and how many bytes they take.
pub open spec fn fields(s: Seq<u8>, j: nat) -> Option<(Fields, nat)>
    decreases rem(s, j), 0nat,
{
    let k = skip(s, j);
    match string_lit(s, k) {
        None => None,
        Some((key, c1)) => {
            let m = skip(s, k + c1);
            if m < s.len() && s[m as int] == COLON {
                let n = skip(s, m + 1);
                match value(s, n) {
                    None => None,
                    Some((v, c2)) => {
                        let kept: Fields = match v {
                            Some(t) => seq![(key, t)],
                            None => seq![],
                        };
                        let q = skip(s, n + c2);
                        if q < s.len() && s[q as int] == COMMA {
                            match fields(s, q + 1) {
                                Some((fs, d)) => Some((kept + fs, (q + 1 - j) as nat + d)),
                                None => None,
                            }
                        } else if q < s.len() && s[q as int] == RBRACE {
                            Some((kept, (q + 1 - j) as nat))
                        } else {
                            None
                        }
                    },
                }
            } else {
                None
            }
        },
    }
}

/// The whole input as one object, white space either side allowed.
pub open spec fn read_object_spec(s: Seq<u8>) -> Option<Fields> {
    let k = skip(s, 0);
    match object(s, k) {
        Some((fs, c)) => if skip(s, k + c) == s.len() {
            Some(fs)
        } else {
            None
        },
        None => None,
    }
}

/// The value of the first field named `key`.
pub open spec fn field_of(fs: Fields, key: Seq<char>) -> Option<Seq<char>>
    decreases fs.len(),
{
    if fs.len() == 0 {
        None
    } else if fs[0].0 == key {
        Some(fs[0].1)
    } else {
        field_of(fs.drop_first(), key)
    }
}

} // verus!
