//! The JSON the greetd conversation needs: [`quote`] writes a string
//! literal, [`read_object`] reads a reply.
//!
//! Hand-rolled rather than a JSON crate: the replies are flat objects of
//! string fields, so the reader keeps those and reads over the rest.

use vstd::prelude::*;
use vstd::utf8::*;
use crate::greetd::json_spec::{
    field_of, hex3, hex4, hex_digit, is_number_byte, is_space, number_len, object, read_object_spec,
    rem, simple_escape, skip, space_len, string_body, string_lit, value, items, fields, word_at,
    word_value, true_bytes, false_bytes, null_bytes, unicode_escape, Fields, BACKSLASH, COLON,
    COMMA, LBRACE, LBRACKET, QUOTE, RBRACE, RBRACKET,
};
use crate::text::push_char;

verus! {

broadcast use {vstd::utf8::encode_utf8_valid_utf8, vstd::utf8::encode_utf8_decode_utf8};

// ------------------------------------------------------------- writing

/// The lower-case hexadecimal digit for `d`, which is below sixteen.
pub open spec fn hex_char(d: int) -> char {
    if d == 0 { '0' }
    else if d == 1 { '1' }
    else if d == 2 { '2' }
    else if d == 3 { '3' }
    else if d == 4 { '4' }
    else if d == 5 { '5' }
    else if d == 6 { '6' }
    else if d == 7 { '7' }
    else if d == 8 { '8' }
    else if d == 9 { '9' }
    else if d == 10 { 'a' }
    else if d == 11 { 'b' }
    else if d == 12 { 'c' }
    else if d == 13 { 'd' }
    else if d == 14 { 'e' }
    else { 'f' }
}

/// How [`quote`] writes one character.
pub open spec fn escape(c: char) -> Seq<char> {
    if c == '"' {
        seq!['\\', '"']
    } else if c == '\\' {
        seq!['\\', '\\']
    } else if c == '\n' {
        seq!['\\', 'n']
    } else if c == '\r' {
        seq!['\\', 'r']
    } else if c == '\t' {
        seq!['\\', 't']
    } else if (c as u32) < 0x20 {
        seq!['\\', 'u', '0', '0', hex_char((c as u32) as int / 16), hex_char((c as u32) as int % 16)]
    } else {
        seq![c]
    }
}

/// Every character of `s`, escaped.
pub open spec fn escape_all(s: Seq<char>) -> Seq<char>
    decreases s.len(),
{
    if s.len() == 0 {
        seq![]
    } else {
        escape(s[0]) + escape_all(s.drop_first())
    }
}

/// `s` as a JSON string literal.
pub open spec fn quote_spec(s: Seq<char>) -> Seq<char> {
    seq!['"'] + escape_all(s) + seq!['"']
}

pub proof fn lemma_escape_all_concat(a: Seq<char>, b: Seq<char>)
    ensures
        escape_all(a + b) == escape_all(a) + escape_all(b),
    decreases a.len(),
{
    if a.len() == 0 {
        assert(a + b =~= b);
    } else {
        assert((a + b).drop_first() =~= a.drop_first() + b);
        lemma_escape_all_concat(a.drop_first(), b);
    }
}

fn hex_digit_char(d: u32) -> (c: char)
    requires
        d < 16,
    ensures
        c == hex_char(d as int),
{
    if d == 0 { '0' }
    else if d == 1 { '1' }
    else if d == 2 { '2' }
    else if d == 3 { '3' }
    else if d == 4 { '4' }
    else if d == 5 { '5' }
    else if d == 6 { '6' }
    else if d == 7 { '7' }
    else if d == 8 { '8' }
    else if d == 9 { '9' }
    else if d == 10 { 'a' }
    else if d == 11 { 'b' }
    else if d == 12 { 'c' }
    else if d == 13 { 'd' }
    else if d == 14 { 'e' }
    else { 'f' }
}

fn push_escaped(out: &mut String, c: char)
    ensures
        final(out)@ == old(out)@ + escape(c),
{
    let code = c as u32;
    if c == '"' {
        push_char(out, '\\');
        push_char(out, '"');
    } else if c == '\\' {
        push_char(out, '\\');
        push_char(out, '\\');
    } else if c == '\n' {
        push_char(out, '\\');
        push_char(out, 'n');
    } else if c == '\r' {
        push_char(out, '\\');
        push_char(out, 'r');
    } else if c == '\t' {
        push_char(out, '\\');
        push_char(out, 't');
    } else if code < 0x20 {
        push_char(out, '\\');
        push_char(out, 'u');
        push_char(out, '0');
        push_char(out, '0');
        push_char(out, hex_digit_char(code / 16));
        push_char(out, hex_digit_char(code % 16));
    } else {
        push_char(out, c);
    }
    assert(final(out)@ =~= old(out)@ + escape(c));
}

/// `s` as a JSON string literal: quotes, backslashes and the control
/// characters are escaped, everything else is written as it is.
pub fn quote(s: &str) -> (r: String)
    ensures
        r@ == quote_spec(s@),
{
    let mut out = String::new();
    push_char(&mut out, '"');
    let n = s.unicode_len();
    let mut i: usize = 0;
    while i < n
        invariant
            n == s@.len(),
            i <= n,
            out@ == seq!['"'] + escape_all(s@.take(i as int)),
        decreases n - i,
    {
        let c = s.get_char(i);
        proof {
            lemma_escape_all_concat(s@.take(i as int), seq![c]);
            assert(s@.take(i + 1) =~= s@.take(i as int) + seq![c]);
            assert(escape_all(seq![c]) =~= escape(c)) by {
                assert(seq![c].drop_first() =~= Seq::<char>::empty());
                assert(seq![c][0] == c);
                assert(escape_all(Seq::<char>::empty()) == Seq::<char>::empty());
                assert(escape(c) + Seq::<char>::empty() =~= escape(c));
            }
        }
        push_escaped(&mut out, c);
        i = i + 1;
    }
    push_char(&mut out, '"');
    assert(s@.take(n as int) =~= s@);
    out
}

// ------------------------------------------------------------- reading

/// `String::from_utf8`: the bytes as text, when they are valid UTF-8.
#[verifier::external_body]
pub(crate) fn utf8_text(bytes: Vec<u8>) -> (r: Option<String>)
    ensures
        r is Some <==> valid_utf8(bytes@),
        r matches Some(t) ==> t@ == decode_utf8(bytes@),
{
    String::from_utf8(bytes).ok()
}

/// Whether two strings are the same text, compared byte by byte.
pub fn str_eq(a: &str, b: &str) -> (r: bool)
    ensures
        r == (a@ == b@),
{
    let x = a.as_bytes();
    let y = b.as_bytes();
    if x.len() != y.len() {
        proof {
            if a@ == b@ {
                assert(x@ == y@);
            }
        }
        return false;
    }
    let mut i: usize = 0;
    while i < x.len()
        invariant
            x@ == encode_utf8(a@),
            y@ == encode_utf8(b@),
            x@.len() == y@.len(),
            i <= x@.len(),
            forall|j: int| 0 <= j < i ==> x@[j] == y@[j],
        decreases x@.len() - i,
    {
        if x[i] != y[i] {
            proof {
                if a@ == b@ {
                    assert(x@ == y@);
                }
            }
            return false;
        }
        i = i + 1;
    }
    proof {
        assert(x@ =~= y@);
        assert(decode_utf8(encode_utf8(a@)) == a@);
        assert(decode_utf8(encode_utf8(b@)) == b@);
    }
    true
}

/// The text of every pair, as the reader's model sees it.
pub open spec fn pairs_view(v: Seq<(String, String)>) -> Fields {
    v.map_values(|p: (String, String)| (p.0@, p.1@))
}

/// The string-valued fields of a flat JSON object. Fields of any other
/// type are read over and not kept; greetd sends none in a reply.
#[derive(Debug, Default, PartialEq, Eq)]
pub struct Object(Vec<(String, String)>);

impl View for Object {
    type V = Fields;

    closed spec fn view(&self) -> Fields {
        pairs_view(self.0@)
    }
}

proof fn lemma_field_of_step(fs: Fields, key: Seq<char>, i: int)
    requires
        0 <= i < fs.len(),
    ensures
        field_of(fs.subrange(i, fs.len() as int), key) == if fs[i].0 == key {
            Some(fs[i].1)
        } else {
            field_of(fs.subrange(i + 1, fs.len() as int), key)
        },
{
    let t = fs.subrange(i, fs.len() as int);
    assert(t.drop_first() =~= fs.subrange(i + 1, fs.len() as int));
}

impl Object {
    /// The value of the first field named `key`.
    pub fn get(&self, key: &str) -> (r: Option<&str>)
        ensures
            match field_of(self@, key@) {
                Some(v) => r matches Some(t) && t@ == v,
                None => r is None,
            },
    {
        let n = self.0.len();
        let mut i: usize = 0;
        assert(self@.subrange(0, self@.len() as int) =~= self@);
        while i < n
            invariant
                n == self.0@.len(),
                self@ == pairs_view(self.0@),
                i <= n,
                field_of(self@, key@) == field_of(self@.subrange(i as int, n as int), key@),
            decreases n - i,
        {
            proof {
                lemma_field_of_step(self@, key@, i as int);
            }
            if str_eq(self.0[i].0.as_str(), key) {
                return Some(self.0[i].1.as_str());
            }
            i = i + 1;
        }
        assert(self@.subrange(n as int, n as int).len() == 0);
        None
    }
}

struct Parser<'a> {
    s: &'a [u8],
    i: usize,
}

fn is_space_byte(b: u8) -> (r: bool)
    ensures
        r == is_space(b),
{
    b == 0x20 || b == 0x09 || b == 0x0a || b == 0x0d
}

fn hex_value(b: u8) -> (r: Option<u32>)
    ensures
        r == hex_digit(b),
{
    if 0x30 <= b && b <= 0x39 {
        Some((b - 0x30) as u32)
    } else if 0x61 <= b && b <= 0x66 {
        Some((b - 0x61 + 10) as u32)
    } else if 0x41 <= b && b <= 0x46 {
        Some((b - 0x41 + 10) as u32)
    } else {
        None
    }
}

fn hex3_at(s: &[u8], i: usize) -> (r: Option<u32>)
    requires
        i + 3 <= s@.len(),
    ensures
        r == hex3(s@, i as int),
{
    match (hex_value(s[i]), hex_value(s[i + 1]), hex_value(s[i + 2])) {
        (Some(a), Some(b), Some(c)) => Some(a * 256 + b * 16 + c),
        _ => None,
    }
}

/// Appends the UTF-8 encoding of a scalar value.
fn push_scalar(out: &mut Vec<u8>, code: u32)
    requires
        is_scalar(code),
    ensures
        final(out)@ == old(out)@ + encode_scalar(code),
{
    if code <= 0x7f {
        out.push((code & 0x7f) as u8);
    } else if code <= 0x7ff {
        out.push(0xc0 | ((code >> 6) & 0x1f) as u8);
        out.push(0x80 | (code & 0x3f) as u8);
    } else if code <= 0xffff {
        out.push(0xe0 | ((code >> 12) & 0x0f) as u8);
        out.push(0x80 | ((code >> 6) & 0x3f) as u8);
        out.push(0x80 | (code & 0x3f) as u8);
    } else {
        out.push(0xf0 | ((code >> 18) & 0x7) as u8);
        out.push(0x80 | ((code >> 12) & 0x3f) as u8);
        out.push(0x80 | ((code >> 6) & 0x3f) as u8);
        out.push(0x80 | (code & 0x3f) as u8);
    }
    assert(final(out)@ =~= old(out)@ + encode_scalar(code));
}

fn scalar(code: u32) -> (r: bool)
    ensures
        r == is_scalar(code),
{
    code <= 0x10ffff && !(0xd800 <= code && code <= 0xdfff)
}

fn simple_escape_byte(e: u8) -> (r: Option<u8>)
    ensures
        r == simple_escape(e),
{
    if e == QUOTE {
        Some(QUOTE)
    } else if e == BACKSLASH {
        Some(BACKSLASH)
    } else if e == 0x2f {
        Some(0x2f)
    } else if e == 0x62 {
        Some(0x08)
    } else if e == 0x66 {
        Some(0x0c)
    } else if e == 0x6e {
        Some(0x0a)
    } else if e == 0x72 {
        Some(0x0d)
    } else if e == 0x74 {
        Some(0x09)
    } else {
        None
    }
}


/// The value a reader returns, as the model sees it.
pub open spec fn text_view(v: Option<String>) -> Option<Seq<char>> {
    match v {
        Some(t) => Some(t@),
        None => None,
    }
}

impl<'a> Parser<'a> {
    fn peek(&self) -> (r: Option<u8>)
        ensures
            r == (if self.i < self.s@.len() {
                Some(self.s@[self.i as int])
            } else {
                None
            }),
    {
        if self.i < self.s.len() {
            Some(self.s[self.i])
        } else {
            None
        }
    }

    fn space(&mut self)
        requires
            old(self).i <= old(self).s@.len(),
        ensures
            final(self).s == old(self).s,
            final(self).i == skip(old(self).s@, old(self).i as nat),
            final(self).i <= final(self).s@.len(),
    {
        let ghost start = self.i as nat;
        while self.i < self.s.len() && is_space_byte(self.s[self.i])
            invariant
                self.s == old(self).s,
                start <= self.i <= self.s@.len(),
                skip(self.s@, start) == skip(self.s@, self.i as nat),
            decreases self.s@.len() - self.i,
        {
            self.i = self.i + 1;
        }
    }

    fn eat(&mut self, c: u8) -> (r: Option<()>)
        requires
            old(self).i <= old(self).s@.len(),
        ensures
            final(self).s == old(self).s,
            if old(self).i < old(self).s@.len() && old(self).s@[old(self).i as int] == c {
                r is Some && final(self).i == old(self).i + 1
            } else {
                r is None && final(self).i == old(self).i
            },
    {
        if self.i < self.s.len() && self.s[self.i] == c {
            self.i = self.i + 1;
            Some(())
        } else {
            None
        }
    }

    /// Four hexadecimal digits at `i`.
    fn hex4(&mut self) -> (r: Option<u32>)
        requires
            old(self).i <= old(self).s@.len(),
        ensures
            final(self).s == old(self).s,
            r == hex4(old(self).s@, old(self).i as nat),
            r is Some ==> final(self).i == old(self).i + 4,
            r is None ==> final(self).i == old(self).i,
    {
        if self.s.len() - self.i < 4 {
            return None;
        }
        let i = self.i;
        let r = match (hex_value(self.s[i]), hex3_at(self.s, i + 1)) {
            (Some(a), Some(rest)) => Some(a * 4096 + rest),
            _ => None,
        };
        if r.is_some() {
            self.i = i + 4;
        }
        r
    }

    fn word(&mut self, w: &[u8]) -> (r: Option<Option<String>>)
        requires
            old(self).i <= old(self).s@.len(),
        ensures
            final(self).s == old(self).s,
            final(self).i <= final(self).s@.len(),
            match word_value(old(self).s@, old(self).i as nat, w@) {
                Some((v, c)) => r matches Some(x) && text_view(x) == v && final(self).i == old(self).i + c,
                None => r is None,
            },
    {
        if self.s.len() - self.i < w.len() {
            return None;
        }
        let len = self.s.len();
        let mut k: usize = 0;
        while k < w.len()
            invariant
                len == self.s@.len(),
                self.s == old(self).s,
                self.i == old(self).i,
                self.i + w@.len() <= self.s@.len(),
                k <= w@.len(),
                forall|j: int| 0 <= j < k ==> self.s@[self.i + j] == w@[j],
            decreases w@.len() - k,
        {
            if self.s[self.i + k] != w[k] {
                proof {
                    assert(self.s@.subrange(self.i as int, self.i + w@.len())[k as int]
                        == self.s@[self.i + k]);
                }
                return None;
            }
            k = k + 1;
        }
        assert(self.s@.subrange(self.i as int, self.i + w@.len()) =~= w@);
        self.i = self.i + w.len();
        Some(None)
    }

    /// One escape at `i`, a backslash: the scalar it spells.
    fn escape(&mut self) -> (r: Option<u32>)
        requires
            old(self).i < old(self).s@.len(),
            old(self).s@[old(self).i as int] == BACKSLASH,
        ensures
            final(self).s == old(self).s,
            final(self).i <= final(self).s@.len(),
            match r {
                Some(code) => {
                    &&& is_scalar(code)
                    &&& final(self).i > old(self).i
                    &&& string_body(old(self).s@, old(self).i as nat) == (match string_body(
                        old(self).s@,
                        final(self).i as nat,
                    ) {
                        Some((bs, c)) => Some(
                            (encode_scalar(code) + bs, c + (final(self).i - old(self).i) as nat),
                        ),
                        None => None,
                    })
                },
                None => string_body(old(self).s@, old(self).i as nat) is None,
            },
    {
        let ghost j = self.i as nat;
        let len = self.s.len();
        self.i = self.i + 1;
        if self.i >= len {
            return None;
        }
        let e = self.s[self.i];
        match simple_escape_byte(e) {
            Some(x) => {
                self.i = self.i + 1;
                let code = x as u32;
                proof {
                    assert(x < 0x80);
                    assert((code & 0x7f) as u8 == x) by (bit_vector)
                        requires
                            code == x as u32,
                            x < 0x80,
                    ;
                    assert(encode_scalar(code) =~= seq![x]);
                }
                Some(code)
            },
            None => {
                if e != 0x75 {
                    return None;
                }
                self.i = self.i + 1;
                let r = self.unicode();
                match r {
                    Some(code) => {
                        assert(string_body(self.s@, j) == (match string_body(self.s@, self.i as nat) {
                            Some((bs, c)) => Some((encode_scalar(code) + bs, c + (self.i - j) as nat)),
                            None => None,
                        }));
                    },
                    None => {},
                }
                r
            },
        }
    }

    /// The code a `\u` escape spells, read from just after the `u`,
    /// when it is a scalar value.
    #[verifier::rlimit(30)]
    fn unicode(&mut self) -> (r: Option<u32>)
        requires
            old(self).i <= old(self).s@.len(),
        ensures
            final(self).s == old(self).s,
            final(self).i <= final(self).s@.len(),
            match unicode_escape(old(self).s@, old(self).i as nat) {
                Some((code, n)) => if is_scalar(code) {
                    r == Some(code) && final(self).i == old(self).i + n
                } else {
                    r is None
                },
                None => r is None,
            },
    {
        let mut code = match self.hex4() {
            Some(v) => v,
            None => return None,
        };
        if 0xd800 <= code && code < 0xdc00 {
            if self.eat(BACKSLASH).is_none() {
                return None;
            }
            if self.eat(0x75).is_none() {
                return None;
            }
            let low = match self.hex4() {
                Some(v) => v,
                None => return None,
            };
            if low < 0xdc00 {
                return None;
            }
            code = 0x10000 + (code - 0xd800) * 1024 + (low - 0xdc00);
        }
        if !scalar(code) {
            return None;
        }
        Some(code)
    }

    fn string(&mut self) -> (r: Option<String>)
        requires
            old(self).i <= old(self).s@.len(),
        ensures
            final(self).s == old(self).s,
            final(self).i <= final(self).s@.len(),
            match string_lit(old(self).s@, old(self).i as nat) {
                Some((t, c)) => r matches Some(x) && x@ == t && final(self).i == old(self).i + c,
                None => r is None,
            },
    {
        if self.eat(QUOTE).is_none() {
            return None;
        }
        let ghost start = self.i as nat;
        let mut out: Vec<u8> = Vec::new();
        loop
            invariant
                self.s == old(self).s,
                start == old(self).i + 1,
                old(self).i < self.s@.len(),
                self.s@[old(self).i as int] == QUOTE,
                start <= self.i <= self.s@.len(),
                string_body(self.s@, start) == (match string_body(self.s@, self.i as nat) {
                    Some((bs, c)) => Some((out@ + bs, (self.i - start) as nat + c)),
                    None => None,
                }),
            decreases self.s@.len() - self.i,
        {
            if self.i >= self.s.len() {
                return None;
            }
            let b = self.s[self.i];
            if b == QUOTE {
                assert(string_body(self.s@, self.i as nat) == Some((Seq::<u8>::empty(), 1nat)));
                assert(out@ + Seq::<u8>::empty() =~= out@);
                assert(string_body(self.s@, start) == Some((out@, (self.i - start) as nat + 1)));
                self.i = self.i + 1;
                let ghost bytes = out@;
                let r = utf8_text(out);
                assert(string_lit(self.s@, old(self).i as nat) == (if valid_utf8(bytes) {
                    Some((decode_utf8(bytes), (self.i - old(self).i) as nat))
                } else {
                    None
                }));
                return r;
            } else if b == BACKSLASH {
                let ghost before = out@;
                let ghost at = self.i as nat;
                match self.escape() {
                    Some(code) => {
                        push_scalar(&mut out, code);
                        proof {
                            match string_body(self.s@, self.i as nat) {
                                Some((bs, c)) => {
                                    assert(before + (encode_scalar(code) + bs) =~= out@ + bs);
                                },
                                None => {},
                            }
                        }
                    },
                    None => return None,
                }
            } else {
                proof {
                    match string_body(self.s@, (self.i + 1) as nat) {
                        Some((bs, c)) => {
                            assert(out@ + (seq![b] + bs) =~= out@.push(b) + bs);
                        },
                        None => {},
                    }
                }
                out.push(b);
                self.i = self.i + 1;
            }
        }
    }

    /// The run of number bytes at `i`.
    fn number(&mut self)
        requires
            old(self).i <= old(self).s@.len(),
        ensures
            final(self).s == old(self).s,
            final(self).i == old(self).i + number_len(old(self).s@, old(self).i as nat),
            final(self).i <= final(self).s@.len(),
    {
        let ghost start = self.i as nat;
        while self.i < self.s.len() && is_number_byte_exec(self.s[self.i])
            invariant
                self.s == old(self).s,
                start == old(self).i,
                start <= self.i <= self.s@.len(),
                start + number_len(self.s@, start) == self.i + number_len(self.s@, self.i as nat),
            decreases self.s@.len() - self.i,
        {
            self.i = self.i + 1;
        }
    }

    /// One value: `Some(Some(s))` for a string, `Some(None)` for a value
    /// of any other type, read over; `None` on a syntax error.
    fn value(&mut self) -> (r: Option<Option<String>>)
        requires
            old(self).i <= old(self).s@.len(),
        ensures
            final(self).s == old(self).s,
            final(self).i <= final(self).s@.len(),
            match value(old(self).s@, old(self).i as nat) {
                Some((v, c)) => r matches Some(x) && text_view(x) == v && final(self).i == old(self).i + c,
                None => r is None,
            },
        decreases rem(old(self).s@, old(self).i as nat), 2nat,
    {
        let len = self.s.len();
        let b = match self.peek() {
            Some(b) => b,
            None => return None,
        };
        if b == QUOTE {
            match self.string() {
                Some(t) => Some(Some(t)),
                None => None,
            }
        } else if b == LBRACE {
            match self.object() {
                Some(_) => Some(None),
                None => None,
            }
        } else if b == LBRACKET {
            self.i = self.i + 1;
            self.array()
        } else if b == 0x74 {
            let w: [u8; 4] = [0x74, 0x72, 0x75, 0x65];
            assert(w@ =~= true_bytes());
            self.word(&w)
        } else if b == 0x66 {
            let w: [u8; 5] = [0x66, 0x61, 0x6c, 0x73, 0x65];
            assert(w@ =~= false_bytes());
            self.word(&w)
        } else if b == 0x6e {
            let w: [u8; 4] = [0x6e, 0x75, 0x6c, 0x6c];
            assert(w@ =~= null_bytes());
            self.word(&w)
        } else if b == 0x2d || (0x30 <= b && b <= 0x39) {
            self.number();
            Some(None)
        } else {
            None
        }
    }

    /// The rest of an array, from just after its `[`.
    fn array(&mut self) -> (r: Option<Option<String>>)
        requires
            1 <= old(self).i <= old(self).s@.len(),
            old(self).s@[old(self).i - 1] == LBRACKET,
        ensures
            final(self).s == old(self).s,
            final(self).i <= final(self).s@.len(),
            match value(old(self).s@, (old(self).i - 1) as nat) {
                Some((v, c)) => r matches Some(x) && text_view(x) == v && final(self).i == old(self).i - 1 + c,
                None => r is None,
            },
        decreases rem(old(self).s@, (old(self).i - 1) as nat), 1nat,
    {
        let ghost open = (self.i - 1) as nat;
        self.space();
        if self.eat(RBRACKET).is_some() {
            return Some(None);
        }
        let ghost k0 = self.i as nat;
        assert(k0 == skip(self.s@, open + 1));
        loop
            invariant
                self.s == old(self).s,
                open + 1 == old(self).i,
                self.s@[open as int] == LBRACKET,
                open < k0 <= self.i <= self.s@.len(),
                k0 == skip(self.s@, open + 1),
                !(k0 < self.s@.len() && self.s@[k0 as int] == RBRACKET),
                items(self.s@, k0) == (match items(self.s@, self.i as nat) {
                    Some(d) => Some((self.i - k0) as nat + d),
                    None => None,
                }),
            decreases self.s@.len() - self.i,
        {
            let ghost p = self.i as nat;
            self.space();
            match self.value() {
                Some(_) => {},
                None => return None,
            }
            self.space();
            if self.eat(COMMA).is_some() {
                continue;
            }
            if self.eat(RBRACKET).is_none() {
                return None;
            }
            return Some(None);
        }
    }

    /// An object at `i`.
    #[verifier::rlimit(40)]
    fn object(&mut self) -> (r: Option<Object>)
        requires
            old(self).i <= old(self).s@.len(),
        ensures
            final(self).s == old(self).s,
            final(self).i <= final(self).s@.len(),
            match object(old(self).s@, old(self).i as nat) {
                Some((fs, c)) => r matches Some(o) && o@ == fs && final(self).i == old(self).i + c,
                None => r is None,
            },
        decreases rem(old(self).s@, old(self).i as nat), 1nat,
    {
        if self.eat(LBRACE).is_none() {
            return None;
        }
        self.space();
        let mut kept: Vec<(String, String)> = Vec::new();
        if self.eat(RBRACE).is_some() {
            assert(pairs_view(kept@) =~= Seq::<(Seq<char>, Seq<char>)>::empty());
            return Some(Object(kept));
        }
        let ghost k0 = self.i as nat;
        assert(k0 == skip(self.s@, (old(self).i + 1) as nat));
        loop
            invariant
                self.s == old(self).s,
                old(self).i < k0 <= self.i <= self.s@.len(),
                self.s@[old(self).i as int] == LBRACE,
                k0 == skip(self.s@, (old(self).i + 1) as nat),
                !(k0 < self.s@.len() && self.s@[k0 as int] == RBRACE),
                fields(self.s@, k0) == (match fields(self.s@, self.i as nat) {
                    Some((fs, d)) => Some((pairs_view(kept@) + fs, (self.i - k0) as nat + d)),
                    None => None,
                }),
            decreases self.s@.len() - self.i,
        {
            self.space();
            let key = match self.string() {
                Some(k) => k,
                None => return None,
            };
            self.space();
            if self.eat(COLON).is_none() {
                return None;
            }
            self.space();
            match self.value() {
                Some(Some(v)) => {
                    let ghost before = kept@;
                    let ghost pair = (key@, v@);
                    kept.push((key, v));
                    assert(pairs_view(kept@) =~= pairs_view(before).push(pair));
                },
                Some(None) => {},
                None => return None,
            }
            self.space();
            if self.eat(COMMA).is_some() {
                continue;
            }
            if self.eat(RBRACE).is_none() {
                return None;
            }
            return Some(Object(kept));
        }
    }
}

fn is_number_byte_exec(b: u8) -> (r: bool)
    ensures
        r == is_number_byte(b),
{
    b == 0x2d || b == 0x2b || b == 0x2e || b == 0x65 || b == 0x45 || (0x30 <= b && b <= 0x39)
}

/// Parse one JSON object. `None` for anything that is not one, or is
/// malformed.
pub fn read_object(text: &str) -> (r: Option<Object>)
    ensures
        match read_object_spec(encode_utf8(text@)) {
            Some(fs) => r matches Some(o) && o@ == fs,
            None => r is None,
        },
{
    let mut p = Parser { s: text.as_bytes(), i: 0 };
    p.space();
    let object = match p.object() {
        Some(o) => o,
        None => return None,
    };
    p.space();
    if p.i == p.s.len() {
        Some(object)
    } else {
        None
    }
}

} // verus!
