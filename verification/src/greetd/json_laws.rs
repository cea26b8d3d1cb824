//! What the writer writes, the reader reads back.

use vstd::prelude::*;
use vstd::utf8::*;
use crate::greetd::json::{escape, escape_all, hex_char, quote_spec};
use crate::greetd::json_spec::{
    field_of, fields, hex4, hex3, hex_digit, object, read_object_spec, simple_escape, skip,
    space_len, string_body, string_lit, unicode_escape, value, Fields, BACKSLASH, COLON, COMMA, LBRACE,
    QUOTE, RBRACE,
};

verus! {

/// The string body at `j` reads `n` bytes as `piece`, and then goes on as
/// the body at `j + n` does.
#[verifier::opaque]
pub open spec fn reads_as(s: Seq<u8>, j: nat, piece: Seq<u8>, n: nat) -> bool {
    string_body(s, j) == (match string_body(s, j + n) {
        Some((bs, k)) => Some((piece + bs, k + n)),
        None => None,
    })
}

/// Encoding a concatenation is concatenating the encodings.
pub proof fn lemma_encode_concat(a: Seq<char>, b: Seq<char>)
    ensures
        encode_utf8(a + b) == encode_utf8(a) + encode_utf8(b),
    decreases a.len(),
{
    if a.len() == 0 {
        assert(a + b =~= b);
        assert(encode_utf8(a) + encode_utf8(b) =~= encode_utf8(b));
    } else {
        assert((a + b)[0] == a[0]);
        assert((a + b).drop_first() =~= a.drop_first() + b);
        lemma_encode_concat(a.drop_first(), b);
        assert(encode_utf8(a + b) =~= encode_utf8(a) + encode_utf8(b));
    }
}

/// An ASCII character is its own byte.
pub proof fn lemma_ascii_scalar(x: u32)
    requires
        x < 0x80,
    ensures
        encode_scalar(x) == seq![x as u8],
{
    assert((x & 0x7f) as u8 == x as u8) by (bit_vector)
        requires
            x < 0x80,
    ;
}

/// Text of ASCII characters encodes one byte per character.
pub proof fn lemma_encode_ascii(x: Seq<char>)
    requires
        forall|i: int| 0 <= i < x.len() ==> (x[i] as u32) < 0x80,
    ensures
        encode_utf8(x) == Seq::new(x.len(), |i: int| (x[i] as u32) as u8),
    decreases x.len(),
{
    if x.len() == 0 {
        assert(encode_utf8(x) =~= Seq::new(x.len(), |i: int| (x[i] as u32) as u8));
    } else {
        lemma_ascii_scalar(x[0] as u32);
        lemma_encode_ascii(x.drop_first());
        assert(encode_utf8(x) =~= Seq::new(x.len(), |i: int| (x[i] as u32) as u8));
    }
}

/// Every byte of a character beyond ASCII is at least 0x80.
pub proof fn lemma_wide_scalar_bytes(x: u32)
    requires
        is_scalar(x),
        x >= 0x80,
    ensures
        forall|i: int| 0 <= i < encode_scalar(x).len() ==> encode_scalar(x)[i] >= 0x80,
{
    assert(forall|y: u32| #![auto] (0xc0u8 | ((y >> 6) & 0x1f) as u8) >= 0x80u8) by (bit_vector);
    assert(forall|y: u32| #![auto] (0xe0u8 | ((y >> 12) & 0x0f) as u8) >= 0x80u8) by (bit_vector);
    assert(forall|y: u32| #![auto] (0xf0u8 | ((y >> 18) & 0x7) as u8) >= 0x80u8) by (bit_vector);
    assert(forall|y: u32| #![auto] (0x80u8 | (y & 0x3f) as u8) >= 0x80u8) by (bit_vector);
    assert(forall|y: u32| #![auto] (0x80u8 | ((y >> 6) & 0x3f) as u8) >= 0x80u8) by (bit_vector);
    assert(forall|y: u32| #![auto] (0x80u8 | ((y >> 12) & 0x3f) as u8) >= 0x80u8) by (bit_vector);
}

/// A run of `n` bytes that are neither a quote nor a backslash is read
/// as itself.
pub proof fn lemma_raw_run(s: Seq<u8>, j: nat, n: nat)
    requires
        j + n <= s.len(),
        forall|i: int| j <= i < j + n ==> s[i] != QUOTE && s[i] != BACKSLASH,
    ensures
        string_body(s, j) == (match string_body(s, j + n) {
            Some((bs, c)) => Some((s.subrange(j as int, (j + n) as int) + bs, c + n)),
            None => None,
        }),
    decreases n,
{
    if n == 0 {
        match string_body(s, j) {
            Some((bs, c)) => {
                assert(s.subrange(j as int, j as int) + bs =~= bs);
            },
            None => {},
        }
    } else {
        lemma_raw_run(s, j + 1, (n - 1) as nat);
        match string_body(s, j + n) {
            Some((bs, c)) => {
                assert(seq![s[j as int]] + (s.subrange((j + 1) as int, (j + n) as int) + bs)
                    =~= s.subrange(j as int, (j + n) as int) + bs);
            },
            None => {},
        }
    }
}


/// The digit [`hex_char`] writes reads back as its value.
pub proof fn lemma_hex_char_reads_back(d: int)
    requires
        0 <= d < 16,
    ensures
        hex_digit((hex_char(d) as u32) as u8) == Some(d as u32),
{
    if d == 0 {} else if d == 1 {} else if d == 2 {} else if d == 3 {} else if d == 4 {}
    else if d == 5 {} else if d == 6 {} else if d == 7 {} else if d == 8 {} else if d == 9 {}
    else if d == 10 {} else if d == 11 {} else if d == 12 {} else if d == 13 {} else if d == 14 {}
    else {}
}

/// The six bytes `\u00XY` that [`escape`] writes for a control
/// character are read back as that character's byte.
proof fn lemma_control_reads_back(s: Seq<u8>, j: nat, c: char)
    requires
        (c as u32) < 0x20,
        c != '\n' && c != '\r' && c != '\t',
        j + 6 <= s.len(),
        s.subrange(j as int, j + 6int) == encode_utf8(escape(c)),
    ensures
        reads_as(s, j, encode_scalar(c as u32), 6),
{
    reveal(reads_as);
    let x = c as u32;
    let e = escape(c);
    lemma_ascii_scalar(x);
    let d1 = x / 16;
    let d2 = x % 16;
    lemma_hex_char_reads_back(d1 as int);
    lemma_hex_char_reads_back(d2 as int);
    assert(e == seq!['\\', 'u', '0', '0', hex_char(d1 as int), hex_char(d2 as int)]);
    lemma_encode_ascii(e);
    let sub = s.subrange(j as int, j + 6int);
    assert(sub[0] == s[j as int] && sub[1] == s[j + 1int] && sub[2] == s[j + 2int]);
    assert(sub[3] == s[j + 3int] && sub[4] == s[j + 4int] && sub[5] == s[j + 5int]);
    assert(s[j as int] == BACKSLASH);
    assert(s[j + 1int] == 0x75);
    assert(s[j + 2int] == 0x30);
    assert(s[j + 3int] == 0x30);
    assert(s[j + 4int] == (hex_char(d1 as int) as u32) as u8);
    assert(s[j + 5int] == (hex_char(d2 as int) as u32) as u8);
    assert(hex_digit(s[j + 3int]) == Some(0u32));
    assert(d1 * 16 + d2 == x);
    assert(hex3(s, j + 3int) == Some(x));
    assert(hex4(s, j + 2) == Some(x));
    assert(unicode_escape(s, j + 2) == Some((x, 4nat)));
    assert(simple_escape(0x75) is None);
}

/// The two bytes [`escape`] writes for a quote, a backslash, or a line
/// feed, carriage return or tab are read back as that character's byte.
proof fn lemma_named_escape_reads_back(s: Seq<u8>, j: nat, c: char)
    requires
        c == '"' || c == '\\' || c == '\n' || c == '\r' || c == '\t',
        j + 2 <= s.len(),
        s.subrange(j as int, j + 2int) == encode_utf8(escape(c)),
    ensures
        reads_as(s, j, encode_scalar(c as u32), 2),
{
    reveal(reads_as);
    let x = c as u32;
    let e = escape(c);
    lemma_ascii_scalar(x);
    lemma_encode_ascii(e);
    let sub = s.subrange(j as int, j + 2int);
    assert(sub[0] == s[j as int] && sub[1] == s[j + 1int]);
    assert(s[j as int] == BACKSLASH);
    let b = s[j + 1int];
    assert(simple_escape(b) == Some(x as u8)) by {
        if c == '"' {
            assert(b == 0x22);
        } else if c == '\\' {
            assert(b == 0x5c);
        } else if c == '\n' {
            assert(b == 0x6e);
        } else if c == '\r' {
            assert(b == 0x72);
        } else {
            assert(b == 0x74);
        }
    }
    match string_body(s, j + 2) {
        Some((bs, k)) => {
            assert(string_body(s, j) == Some((seq![x as u8] + bs, k + 2)));
        },
        None => {
            assert(string_body(s, j) is None);
        },
    }
}

/// A character [`escape`] writes as itself is read back as its bytes.
proof fn lemma_plain_reads_back(s: Seq<u8>, j: nat, c: char)
    requires
        c != '"' && c != '\\',
        (c as u32) >= 0x20,
        j + encode_scalar(c as u32).len() <= s.len(),
        s.subrange(j as int, (j + encode_scalar(c as u32).len()) as int) == encode_scalar(c as u32),
    ensures
        reads_as(s, j, encode_scalar(c as u32), encode_scalar(c as u32).len()),
{
    reveal(reads_as);
    let x = c as u32;
    let n = encode_scalar(x).len();
    broadcast use vstd::utf8::char_is_scalar;
    if x < 0x80 {
        lemma_ascii_scalar(x);
    } else {
        lemma_wide_scalar_bytes(x);
    }
    assert forall|i: int| j <= i < j + n implies s[i] != QUOTE && s[i] != BACKSLASH by {
        assert(s.subrange(j as int, (j + n) as int)[i - j] == s[i]);
    }
    lemma_raw_run(s, j, n);
}

/// One character as [`quote`](crate::greetd::json::quote) writes it is
/// read back as that character's bytes.
pub proof fn lemma_escape_reads_back(s: Seq<u8>, j: nat, c: char)
    requires
        j + encode_utf8(escape(c)).len() <= s.len(),
        s.subrange(j as int, (j + encode_utf8(escape(c)).len()) as int) == encode_utf8(escape(c)),
    ensures
        reads_as(s, j, encode_scalar(c as u32), encode_utf8(escape(c)).len()),
{
    let x = c as u32;
    let e = escape(c);
    if c == '"' || c == '\\' || c == '\n' || c == '\r' || c == '\t' {
        lemma_encode_ascii(e);
        assert(encode_utf8(e).len() == 2);
        lemma_named_escape_reads_back(s, j, c);
    } else if x < 0x20 {
        lemma_encode_ascii(e);
        assert(encode_utf8(e).len() == 6);
        lemma_control_reads_back(s, j, c);
    } else {
        assert(e == seq![c]);
        assert(encode_utf8(e) =~= encode_scalar(x)) by {
            assert(e.drop_first() =~= Seq::<char>::empty());
            assert(encode_utf8(Seq::<char>::empty()) == Seq::<u8>::empty());
            assert(e[0] == c);
            assert(encode_scalar(x) + Seq::<u8>::empty() =~= encode_scalar(x));
        }
        lemma_plain_reads_back(s, j, c);
    }
}

/// The bytes [`escape_all`] writes for `t`, then a closing quote, are
/// read as a string body that stands for the bytes of `t`, whatever
/// comes before and after them.
pub proof fn lemma_body_reads_escaped(p: Seq<u8>, t: Seq<char>, r: Seq<u8>)
    ensures
        string_body(p + encode_utf8(escape_all(t)) + seq![QUOTE] + r, p.len()) == Some(
            (encode_utf8(t), encode_utf8(escape_all(t)).len() + 1),
        ),
    decreases t.len(),
{
    let s = p + encode_utf8(escape_all(t)) + seq![QUOTE] + r;
    if t.len() == 0 {
        assert(escape_all(t) == Seq::<char>::empty());
        assert(encode_utf8(escape_all(t)) == Seq::<u8>::empty());
        assert(encode_utf8(t) == Seq::<u8>::empty());
        assert(s[p.len() as int] == QUOTE);
    } else {
        let c = t[0];
        let t2 = t.drop_first();
        let e = encode_utf8(escape(c));
        assert(escape_all(t) == escape(c) + escape_all(t2));
        lemma_encode_concat(escape(c), escape_all(t2));
        let p2 = p + e;
        lemma_body_reads_escaped(p2, t2, r);
        assert(s =~= p2 + encode_utf8(escape_all(t2)) + seq![QUOTE] + r);
        assert(s.subrange(p.len() as int, (p.len() + e.len()) as int) =~= e);
        lemma_escape_reads_back(s, p.len(), c);
        reveal(reads_as);
        assert(encode_utf8(t) == encode_scalar(c as u32) + encode_utf8(t2));
        assert(encode_scalar(c as u32) + encode_utf8(t2) + Seq::<u8>::empty() =~= encode_utf8(t));
        assert(encode_utf8(t2) + Seq::<u8>::empty() =~= encode_utf8(t2));
    }
}

/// The encoding of a one-character ASCII text.
pub proof fn lemma_encode_one_ascii(c: char)
    requires
        (c as u32) < 0x80,
    ensures
        encode_utf8(seq![c]) == seq![(c as u32) as u8],
{
    lemma_encode_ascii(seq![c]);
    assert(Seq::new(1, |i: int| (seq![c][i] as u32) as u8) =~= seq![(c as u32) as u8]);
}

/// The bytes of `quote_spec(t)`: a quote, the escaped text, a quote.
pub proof fn lemma_encode_quoted(t: Seq<char>)
    ensures
        encode_utf8(quote_spec(t)) == seq![QUOTE] + encode_utf8(escape_all(t)) + seq![QUOTE],
{
    lemma_encode_concat(seq!['"'] + escape_all(t), seq!['"']);
    lemma_encode_concat(seq!['"'], escape_all(t));
    lemma_encode_one_ascii('"');
}

/// A string literal written by [`quote`](crate::greetd::json::quote) is
/// read back as the text it was written from, wherever it stands.
pub proof fn lemma_string_reads_quoted(p: Seq<u8>, t: Seq<char>, r: Seq<u8>)
    ensures
        string_lit(p + encode_utf8(quote_spec(t)) + r, p.len()) == Some(
            (t, encode_utf8(quote_spec(t)).len()),
        ),
{
    let e = encode_utf8(escape_all(t));
    lemma_encode_quoted(t);
    let s = p + encode_utf8(quote_spec(t)) + r;
    assert(s =~= (p + seq![QUOTE]) + e + seq![QUOTE] + r);
    lemma_body_reads_escaped(p + seq![QUOTE], t, r);
    assert(s[p.len() as int] == QUOTE);
    encode_utf8_valid_utf8(t);
    encode_utf8_decode_utf8(t);
}

/// The JSON text of an object with one string field.
pub open spec fn one_field(key: Seq<char>, val: Seq<char>) -> Seq<char> {
    seq!['{'] + quote_spec(key) + seq![':'] + quote_spec(val) + seq!['}']
}

/// No white space at `i`: skipping it goes nowhere.
pub proof fn lemma_no_space(s: Seq<u8>, i: nat)
    requires
        i < s.len(),
        s[i as int] == QUOTE || s[i as int] == LBRACE || s[i as int] == RBRACE || s[i as int]
            == COLON || s[i as int] == COMMA,
    ensures
        skip(s, i) == i,
{
}

/// Whatever [`quote`](crate::greetd::json::quote) writes as a field's
/// name and value, [`read_object`](crate::greetd::json::read_object)
/// reads back as that field.
pub proof fn law_quoted_field_reads_back(key: Seq<char>, val: Seq<char>)
    ensures
        read_object_spec(encode_utf8(one_field(key, val))) == Some(seq![(key, val)]),
        field_of(read_object_spec(encode_utf8(one_field(key, val))).unwrap(), key) == Some(val),
{
    let qk = encode_utf8(quote_spec(key));
    let qv = encode_utf8(quote_spec(val));
    lemma_encode_quoted(key);
    lemma_encode_quoted(val);
    lemma_encode_concat(seq!['{'] + quote_spec(key) + seq![':'] + quote_spec(val), seq!['}']);
    lemma_encode_concat(seq!['{'] + quote_spec(key) + seq![':'], quote_spec(val));
    lemma_encode_concat(seq!['{'] + quote_spec(key), seq![':']);
    lemma_encode_concat(seq!['{'], quote_spec(key));
    lemma_encode_one_ascii('{');
    lemma_encode_one_ascii(':');
    lemma_encode_one_ascii('}');
    let b = encode_utf8(one_field(key, val));
    let pre_k = seq![LBRACE];
    let post_k = seq![COLON] + qv + seq![RBRACE];
    let pre_v = seq![LBRACE] + qk + seq![COLON];
    let post_v = seq![RBRACE];
    assert(b =~= pre_k + qk + post_k);
    assert(b =~= pre_v + qv + post_v);
    let lk = qk.len();
    let lv = qv.len();
    assert(b.len() == 3 + lk + lv);
    assert(b[0] == LBRACE);
    assert(b[1] == QUOTE);
    assert(b[1 + lk as int] == COLON);
    assert(b[2 + lk as int] == QUOTE);
    assert(b[2 + lk + lv as int] == RBRACE);
    lemma_string_reads_quoted(pre_k, key, post_k);
    lemma_string_reads_quoted(pre_v, val, post_v);
    lemma_no_space(b, 0);
    lemma_no_space(b, 1);
    lemma_no_space(b, (1 + lk) as nat);
    lemma_no_space(b, (2 + lk) as nat);
    lemma_no_space(b, (2 + lk + lv) as nat);
    assert(value(b, (2 + lk) as nat) == Some((Some(val), lv)));
    assert(fields(b, 1) == Some((seq![(key, val)], (2 + lk + lv) as nat)));
    assert(object(b, 0) == Some((seq![(key, val)], (3 + lk + lv) as nat)));
    assert(space_len(b, b.len()) == 0);
}

/// A name read twice is the first reading's: `field_of` gives the value
/// of the first field with that name, and nothing only when no field
/// has it.
pub proof fn law_the_first_field_wins(fs: Fields, key: Seq<char>)
    ensures
        field_of(fs, key) is None <==> forall|i: int| 0 <= i < fs.len() ==> (#[trigger] fs[i]).0 != key,
        field_of(fs, key) matches Some(v) ==> exists|i: int|
            0 <= i < fs.len() && #[trigger] fs[i] == (key, v) && forall|j: int|
                0 <= j < i ==> (#[trigger] fs[j]).0 != key,
    decreases fs.len(),
{
    if fs.len() > 0 {
        let rest = fs.drop_first();
        law_the_first_field_wins(rest, key);
        if fs[0].0 == key {
            assert(fs[0] == (key, fs[0].1));
        } else {
            assert forall|i: int| 0 <= i < rest.len() implies rest[i] == #[trigger] fs[i + 1] by {}
            if field_of(rest, key) is None {
                assert forall|i: int| 0 <= i < fs.len() implies (#[trigger] fs[i]).0 != key by {
                    if i > 0 {
                        assert(fs[i] == rest[i - 1]);
                    }
                }
            } else {
                let v = field_of(rest, key).unwrap();
                let i = choose|i: int|
                    0 <= i < rest.len() && #[trigger] rest[i] == (key, v) && forall|j: int|
                        0 <= j < i ==> (#[trigger] rest[j]).0 != key;
                assert(fs[i + 1] == (key, v));
                assert forall|j: int| 0 <= j < i + 1 implies (#[trigger] fs[j]).0 != key by {
                    if j > 0 {
                        assert(fs[j] == rest[j - 1]);
                    }
                }
                assert(rest[i] == (key, v));
            }
        }
    }
}

/// A `\u` escape's code is four hexadecimal digits -- no sign, no
/// fewer -- and so below 0x10000.
pub proof fn law_four_hex_digits(s: Seq<u8>, i: nat)
    ensures
        hex4(s, i) is Some ==> i + 4 <= s.len() && (forall|k: int|
            0 <= k < 4 ==> #[trigger] hex_digit(s[i + k]) is Some) && hex4(s, i).unwrap() < 0x10000,
{
    if hex4(s, i) is Some {
        assert forall|k: int| 0 <= k < 4 implies #[trigger] hex_digit(s[i + k]) is Some by {
            if k == 0 {
            } else if k == 1 {
                assert(s[i + k] == s[(i + 1) as int]);
            } else if k == 2 {
                assert(s[i + k] == s[(i + 1int) + 1]);
            } else {
                assert(s[i + k] == s[(i + 1int) + 2]);
            }
        }
    }
}

/// Text with nothing JSON must escape -- no quote, no backslash, no
/// control character -- is quoted as itself.
pub proof fn law_plain_text_is_quoted_as_itself(t: Seq<char>)
    ensures
        (forall|i: int|
            0 <= i < t.len() ==> #[trigger] t[i] != '"' && t[i] != '\\' && (t[i] as u32) >= 0x20)
            ==> escape_all(t) == t,
    decreases t.len(),
{
    if t.len() > 0 && (forall|i: int|
        0 <= i < t.len() ==> #[trigger] t[i] != '"' && t[i] != '\\' && (t[i] as u32) >= 0x20) {
        let rest = t.drop_first();
        assert forall|i: int| 0 <= i < rest.len() implies #[trigger] rest[i] != '"' && rest[i]
            != '\\' && (rest[i] as u32) >= 0x20 by {
            assert(rest[i] == t[i + 1]);
        }
        law_plain_text_is_quoted_as_itself(rest);
        assert(t[0] != '"' && t[0] != '\\' && (t[0] as u32) >= 0x20);
        assert(seq![t[0]] + rest =~= t);
    }
}

/// What [`quote`](crate::greetd::json::quote) writes holds no control
/// character, whatever the text: each one is written as an escape.
pub proof fn law_quoted_text_has_no_control_character(t: Seq<char>)
    ensures
        forall|i: int| 0 <= i < escape_all(t).len() ==> (#[trigger] escape_all(t)[i] as u32) >= 0x20,
    decreases t.len(),
{
    if t.len() > 0 {
        let rest = t.drop_first();
        law_quoted_text_has_no_control_character(rest);
        let c = t[0];
        let e = escape(c);
        let x = (c as u32) as int;
        if !(c == '"' || c == '\\' || c == '\n' || c == '\r' || c == '\t') && (c as u32) < 0x20 {
            lemma_hex_char_printable(x / 16);
            lemma_hex_char_printable(x % 16);
        }
        assert forall|i: int| 0 <= i < e.len() implies (#[trigger] e[i] as u32) >= 0x20 by {}
        let all = escape_all(t);
        assert(all == e + escape_all(rest));
        assert forall|i: int| 0 <= i < all.len() implies (#[trigger] all[i] as u32) >= 0x20 by {
            if i < e.len() {
                assert(all[i] == e[i]);
            } else {
                assert(all[i] == escape_all(rest)[i - e.len()]);
            }
        }
    }
}

proof fn lemma_hex_char_printable(d: int)
    ensures
        (hex_char(d) as u32) >= 0x30,
{
}

} // verus!
