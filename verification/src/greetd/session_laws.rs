//! What the conversation promises across messages: a request of string
//! fields is read back as exactly those fields, in order, and the secret
//! goes out at most once however greetd asks.

use vstd::prelude::*;
use vstd::utf8::*;
use crate::greetd::json::quote_spec;
use crate::greetd::json_laws::{
    lemma_encode_concat, lemma_encode_one_ascii, lemma_encode_quoted, lemma_no_space,
    lemma_string_reads_quoted,
};
use crate::greetd::json_spec::{
    field_of,
    fields, object, read_object_spec, skip, space_len, string_lit, value, Fields, COLON, COMMA,
    LBRACE, QUOTE, RBRACE,
};
use crate::greetd::session::{
    member_spec, members_spec, refusal_spec, reply_spec, request_spec, response_spec, start_spec,
    RefusalView, Stage, StepView,
};

verus! {

/// The members of a request, read from the front: the first, a comma,
/// and the rest.
pub proof fn lemma_members_front(fs: Fields)
    requires
        fs.len() >= 2,
    ensures
        members_spec(fs) == member_spec(fs[0].0, fs[0].1) + seq![','] + members_spec(fs.drop_first()),
    decreases fs.len(),
{
    let rest = fs.drop_first();
    let init = fs.drop_last();
    let last = member_spec(fs.last().0, fs.last().1);
    assert(members_spec(fs) == members_spec(init) + seq![','] + last);
    if fs.len() == 2 {
        assert(init.len() == 1 && init[0] == fs[0]);
        assert(members_spec(init) == member_spec(fs[0].0, fs[0].1));
        assert(rest.len() == 1 && rest[0] == fs.last());
        assert(members_spec(rest) == last);
    } else {
        lemma_members_front(init);
        assert(init.drop_first() =~= rest.drop_last());
        assert(init[0] == fs[0]);
        assert(rest.last() == fs.last());
        assert(members_spec(rest) == members_spec(rest.drop_last()) + seq![','] + last);
    }
    assert(members_spec(fs) =~= member_spec(fs[0].0, fs[0].1) + seq![','] + members_spec(rest));
}

/// The bytes of one member: the quoted key, a colon, the quoted value.
proof fn lemma_encode_member(k: Seq<char>, v: Seq<char>)
    ensures
        encode_utf8(member_spec(k, v)) == encode_utf8(quote_spec(k)) + seq![COLON] + encode_utf8(
            quote_spec(v),
        ),
{
    lemma_encode_concat(quote_spec(k) + seq![':'], quote_spec(v));
    lemma_encode_concat(quote_spec(k), seq![':']);
    lemma_encode_one_ascii(':');
}

/// The first byte of a quoted text is its opening quote.
proof fn lemma_quoted_starts_with_quote(t: Seq<char>)
    ensures
        encode_utf8(quote_spec(t)).len() >= 2,
        encode_utf8(quote_spec(t))[0] == QUOTE,
{
    lemma_encode_quoted(t);
}

/// The reader, from `j`, takes the members `fs` in `d` bytes through
/// the closing brace. Kept opaque so that proofs about long inputs do
/// not unfold the reader where they only pass its result along.
#[verifier::opaque]
pub open spec fn reads_fields(s: Seq<u8>, j: nat, fs: Fields, d: nat) -> bool {
    fields(s, j) == Some((fs, d))
}

/// The facts one string member at `j` offers the reader: its key, its
/// colon and its value, with no space between.
#[verifier::opaque]
pub open spec fn member_at(s: Seq<u8>, j: nat, k: Seq<char>, lk: nat, v: Seq<char>, lv: nat) -> bool {
    &&& j < s.len()
    &&& s[j as int] == QUOTE
    &&& string_lit(s, j) == Some((k, lk))
    &&& j + lk + 1 < s.len()
    &&& s[(j + lk) as int] == COLON
    &&& s[(j + lk + 1) as int] == QUOTE
    &&& string_lit(s, j + lk + 1) == Some((v, lv))
    &&& j + lk + 1 + lv < s.len()
}

/// One member and a closing brace: the reader takes that one field.
proof fn lemma_member_last(s: Seq<u8>, j: nat, k: Seq<char>, lk: nat, v: Seq<char>, lv: nat)
    requires
        member_at(s, j, k, lk, v, lv),
        s[(j + lk + 1 + lv) as int] == RBRACE,
    ensures
        reads_fields(s, j, seq![(k, v)], lk + lv + 2),
{
    reveal(reads_fields);
    reveal(member_at);
    lemma_no_space(s, j);
    lemma_no_space(s, j + lk);
    lemma_no_space(s, j + lk + 1);
    lemma_no_space(s, j + lk + 1 + lv);
    assert(value(s, j + lk + 1) == Some((Some(v), lv)));
}

/// One member, a comma, and members the reader takes as `rest`: the
/// reader takes the member's field, then `rest`.
proof fn lemma_member_then(
    s: Seq<u8>,
    j: nat,
    k: Seq<char>,
    lk: nat,
    v: Seq<char>,
    lv: nat,
    rest: Fields,
    d: nat,
)
    requires
        member_at(s, j, k, lk, v, lv),
        s[(j + lk + 1 + lv) as int] == COMMA,
        reads_fields(s, j + lk + lv + 2, rest, d),
    ensures
        reads_fields(s, j, seq![(k, v)] + rest, lk + lv + 2 + d),
{
    reveal(reads_fields);
    reveal(member_at);
    lemma_no_space(s, j);
    lemma_no_space(s, j + lk);
    lemma_no_space(s, j + lk + 1);
    lemma_no_space(s, j + lk + 1 + lv);
    let q = j + lk + 1 + lv;
    assert(skip(s, j) == j);
    assert(skip(s, j + lk) == j + lk);
    assert(skip(s, j + lk + 1) == j + lk + 1);
    assert(value(s, j + lk + 1) == Some((Some(v), lv)));
    assert(skip(s, j + lk + 1 + lv) == q);
    assert(q + 1 == j + lk + lv + 2);
    assert(fields(s, q + 1) == Some((rest, d)));
}

/// Where the parts of one member stand when it is written after `p`
/// and before a non-empty `tail`.
proof fn lemma_member_bytes(p: Seq<u8>, k: Seq<char>, v: Seq<char>, tail: Seq<u8>)
    requires
        tail.len() >= 1,
    ensures
        ({
            let s = p + encode_utf8(member_spec(k, v)) + tail;
            let j = p.len();
            let lk = encode_utf8(quote_spec(k)).len();
            let lv = encode_utf8(quote_spec(v)).len();
            &&& encode_utf8(member_spec(k, v)).len() == lk + 1 + lv
            &&& member_at(s, j, k, lk, v, lv)
            &&& s[(j + lk + 1 + lv) as int] == tail[0]
        }),
{
    reveal(member_at);
    let qk = encode_utf8(quote_spec(k));
    let qv = encode_utf8(quote_spec(v));
    lemma_encode_member(k, v);
    lemma_quoted_starts_with_quote(k);
    lemma_quoted_starts_with_quote(v);
    let s = p + encode_utf8(member_spec(k, v)) + tail;
    let j = p.len();
    let lk = qk.len();
    let lv = qv.len();
    assert(s =~= p + qk + (seq![COLON] + qv + tail));
    assert(s =~= (p + qk + seq![COLON]) + qv + tail);
    lemma_string_reads_quoted(p, k, seq![COLON] + qv + tail);
    lemma_string_reads_quoted(p + qk + seq![COLON], v, tail);
    assert(s[j as int] == qk[0]);
    assert(s[(j + lk) as int] == COLON);
    assert(s[(j + lk + 1) as int] == qv[0]);
    assert(s[(j + lk + 1 + lv) as int] == tail[0]);
}

/// The bytes of two or more members: the first, a comma, the rest.
proof fn lemma_members_bytes(fs: Fields)
    requires
        fs.len() >= 2,
    ensures
        encode_utf8(members_spec(fs)) == encode_utf8(member_spec(fs[0].0, fs[0].1)) + seq![COMMA]
            + encode_utf8(members_spec(fs.drop_first())),
{
    let m = member_spec(fs[0].0, fs[0].1);
    lemma_members_front(fs);
    lemma_encode_concat(m + seq![','], members_spec(fs.drop_first()));
    lemma_encode_concat(m, seq![',']);
    lemma_encode_one_ascii(',');
}

/// The last member, then a closing brace, is read as that one field.
proof fn lemma_read_last(p: Seq<u8>, k: Seq<char>, v: Seq<char>, r: Seq<u8>)
    ensures
        reads_fields(
            p + encode_utf8(member_spec(k, v)) + seq![RBRACE] + r,
            p.len(),
            seq![(k, v)],
            encode_utf8(member_spec(k, v)).len() + 1,
        ),
{
    let m = encode_utf8(member_spec(k, v));
    let s = p + m + seq![RBRACE] + r;
    let tail = seq![RBRACE] + r;
    let lk = encode_utf8(quote_spec(k)).len();
    let lv = encode_utf8(quote_spec(v)).len();
    assert(s =~= p + m + tail);
    lemma_member_bytes(p, k, v, tail);
    lemma_member_last(s, p.len(), k, lk, v, lv);
}

/// A member, a comma, and members that are read as `fs`'s rest: read
/// together, they are `fs`.
proof fn lemma_read_step(p: Seq<u8>, fs: Fields, r: Seq<u8>)
    requires
        fs.len() >= 2,
        reads_fields(
            p + encode_utf8(member_spec(fs[0].0, fs[0].1)) + seq![COMMA] + encode_utf8(
                members_spec(fs.drop_first()),
            ) + seq![RBRACE] + r,
            (p + encode_utf8(member_spec(fs[0].0, fs[0].1)) + seq![COMMA]).len(),
            fs.drop_first(),
            encode_utf8(members_spec(fs.drop_first())).len() + 1,
        ),
    ensures
        reads_fields(
            p + encode_utf8(members_spec(fs)) + seq![RBRACE] + r,
            p.len(),
            fs,
            encode_utf8(members_spec(fs)).len() + 1,
        ),
{
    let k = fs[0].0;
    let v = fs[0].1;
    let m = encode_utf8(member_spec(k, v));
    let e = encode_utf8(members_spec(fs));
    let rest = fs.drop_first();
    let er = encode_utf8(members_spec(rest));
    let s = p + e + seq![RBRACE] + r;
    let j = p.len();
    let lk = encode_utf8(quote_spec(k)).len();
    let lv = encode_utf8(quote_spec(v)).len();
    let tail = seq![COMMA] + er + seq![RBRACE] + r;
    lemma_members_bytes(fs);
    assert(s =~= p + m + tail);
    assert(s =~= p + m + seq![COMMA] + er + seq![RBRACE] + r);
    lemma_member_bytes(p, k, v, tail);
    lemma_member_then(s, j, k, lk, v, lv, rest, er.len() + 1);
    assert(seq![(k, v)] + rest =~= fs);
}

/// A non-empty run of members, then a closing brace, is read as those
/// members, whatever stands before and after.
pub proof fn lemma_members_read_back(p: Seq<u8>, fs: Fields, r: Seq<u8>)
    requires
        fs.len() >= 1,
    ensures
        reads_fields(
            p + encode_utf8(members_spec(fs)) + seq![RBRACE] + r,
            p.len(),
            fs,
            encode_utf8(members_spec(fs)).len() + 1,
        ),
    decreases fs.len(),
{
    if fs.len() == 1 {
        assert(members_spec(fs) == member_spec(fs[0].0, fs[0].1));
        assert(seq![(fs[0].0, fs[0].1)] =~= fs);
        lemma_read_last(p, fs[0].0, fs[0].1, r);
    } else {
        let m = encode_utf8(member_spec(fs[0].0, fs[0].1));
        lemma_members_read_back(p + m + seq![COMMA], fs.drop_first(), r);
        lemma_read_step(p, fs, r);
    }
}

/// The bytes of one or more members begin with the first key's
/// opening quote.
proof fn lemma_members_start(fs: Fields)
    requires
        fs.len() >= 1,
    ensures
        encode_utf8(members_spec(fs)).len() >= 1,
        encode_utf8(members_spec(fs))[0] == QUOTE,
{
    let k = fs[0].0;
    let v = fs[0].1;
    lemma_encode_member(k, v);
    lemma_quoted_starts_with_quote(k);
    if fs.len() >= 2 {
        lemma_members_bytes(fs);
    }
}

/// A request written from `fs` is read back as `fs`: every field, in
/// order, with its text unchanged.
pub proof fn law_request_reads_back(fs: Fields)
    ensures
        read_object_spec(encode_utf8(request_spec(fs))) == Some(fs),
{
    let e = encode_utf8(members_spec(fs));
    lemma_encode_concat(seq!['{'] + members_spec(fs), seq!['}']);
    lemma_encode_concat(seq!['{'], members_spec(fs));
    lemma_encode_one_ascii('{');
    lemma_encode_one_ascii('}');
    let s = encode_utf8(request_spec(fs));
    assert(s =~= seq![LBRACE] + e + seq![RBRACE]);
    lemma_no_space(s, 0);
    if fs.len() == 0 {
        assert(e == Seq::<u8>::empty());
        lemma_no_space(s, 1);
        assert(object(s, 0) == Some((fs, 2nat)));
    } else {
        lemma_members_read_back(seq![LBRACE], fs, Seq::<u8>::empty());
        assert(s =~= seq![LBRACE] + e + seq![RBRACE] + Seq::<u8>::empty());
        reveal(reads_fields);
        lemma_members_start(fs);
        assert(s[1] == e[0]);
        lemma_no_space(s, 1);
        assert(object(s, 0) == Some((fs, (e.len() + 2) as nat)));
    }
    assert(space_len(s, s.len()) == 0);
}

/// Whether the secret has gone out, or the conversation is past the
/// point of asking for it.
pub open spec fn spent(stage: Stage) -> bool {
    stage != (Stage::Authenticating { answered: false })
}

/// Whether a step sends the secret.
pub open spec fn sends_secret(step: StepView, secret: Seq<char>) -> bool {
    step == StepView::Send(response_spec(Some(secret)))
}

/// How many times the secret goes out when `replies` are handed to the
/// conversation one after another from `stage`.
pub open spec fn secret_count(
    stage: Stage,
    replies: Seq<Fields>,
    secret: Seq<char>,
    cmd: Seq<Seq<char>>,
) -> nat
    decreases replies.len(),
{
    if replies.len() == 0 {
        0
    } else {
        let (next, step) = reply_spec(stage, replies[0], secret, cmd);
        (if sends_secret(step, secret) {
            1nat
        } else {
            0nat
        }) + secret_count(next, replies.drop_first(), secret, cmd)
    }
}

/// The answer that carries the secret is no other message the
/// conversation sends.
proof fn lemma_secret_answer_is_its_own(secret: Seq<char>, cmd: Seq<Seq<char>>)
    ensures
        response_spec(None) != response_spec(Some(secret)),
        start_spec(cmd) != response_spec(Some(secret)),
{
    let p = "{\"type\":\"post_auth_message_response\",\"response\":";
    let q = "{\"type\":\"start_session\",\"cmd\":[";
    reveal_strlit("{\"type\":\"post_auth_message_response\",\"response\":");
    reveal_strlit("{\"type\":\"start_session\",\"cmd\":[");
    reveal_strlit("null");
    let a = response_spec(Some(secret));
    let n = p@.len() as int;
    assert(a[n] == '"');
    assert(response_spec(None)[n] == 'n');
    assert(a[9] == 'p');
    assert(start_spec(cmd)[9] == 's');
}

/// One reply sends the secret only from a conversation that has not
/// spent it, and spends it; a spent conversation stays spent.
proof fn lemma_one_reply_spends(stage: Stage, fs: Fields, secret: Seq<char>, cmd: Seq<Seq<char>>)
    ensures
        sends_secret(reply_spec(stage, fs, secret, cmd).1, secret) ==> !spent(stage) && spent(
            reply_spec(stage, fs, secret, cmd).0,
        ),
        spent(stage) ==> spent(reply_spec(stage, fs, secret, cmd).0),
{
    lemma_secret_answer_is_its_own(secret, cmd);
}

/// However greetd asks, the secret goes out at most once in a
/// conversation, and never once it has been spent: a second prompt for
/// it is refused rather than answered again.
pub proof fn law_secret_goes_out_once(
    stage: Stage,
    replies: Seq<Fields>,
    secret: Seq<char>,
    cmd: Seq<Seq<char>>,
)
    ensures
        secret_count(stage, replies, secret, cmd) <= if spent(stage) {
            0nat
        } else {
            1nat
        },
    decreases replies.len(),
{
    if replies.len() > 0 {
        let (next, step) = reply_spec(stage, replies[0], secret, cmd);
        lemma_one_reply_spends(stage, replies[0], secret, cmd);
        law_secret_goes_out_once(next, replies.drop_first(), secret, cmd);
    }
}

/// Once the session has been asked to start, only a reply of type
/// `success` is a started session: any other reply ends the attempt
/// refused, with the refusal that reply stands for. Either way the
/// conversation ends there, and it stays in the starting stage.
pub proof fn law_only_success_starts_the_session(
    fs: Fields,
    secret: Seq<char>,
    cmd: Seq<Seq<char>>,
)
    ensures
        ({
            let (next, step) = reply_spec(Stage::Starting, fs, secret, cmd);
            &&& next == Stage::Starting
            &&& (step == StepView::Finish(Ok(())) <==> field_of(fs, "type"@) == Some("success"@))
            &&& field_of(fs, "type"@) != Some("success"@) ==> step == StepView::Finish(
                Err(refusal_spec(fs)),
            )
            &&& step is Finish
        }),
{
}

/// Before the session is asked to start, nothing is a started session:
/// every reply either sends a message or ends the attempt refused.
/// `success` asks greetd to start the session, and is the one reply
/// that moves the conversation on to starting.
pub proof fn law_nothing_starts_before_it_is_asked(
    answered: bool,
    fs: Fields,
    secret: Seq<char>,
    cmd: Seq<Seq<char>>,
)
    ensures
        ({
            let (next, step) = reply_spec(Stage::Authenticating { answered }, fs, secret, cmd);
            &&& step != StepView::Finish(Ok(()))
            &&& (next == Stage::Starting <==> field_of(fs, "type"@) == Some("success"@))
            &&& field_of(fs, "type"@) == Some("success"@) ==> step == StepView::Send(start_spec(cmd))
            &&& step matches StepView::Finish(Err(why)) ==> (why == refusal_spec(fs) || why
                == RefusalView::Denied("asked for the secret twice"@))
        }),
{
    reveal_strlit("success");
    reveal_strlit("auth_message");
    assert("success"@ != "auth_message"@) by {
        assert("success"@[0] != "auth_message"@[0]);
    }
}

/// An error reply is a denial -- greetd's word that the sign-in was
/// refused -- exactly when its `error_type` is `auth_error`; any other
/// reply that is not the one expected means the conversation broke. A
/// refusal of an error reply carries its description, or says there
/// was none.
pub proof fn law_only_an_auth_error_is_a_denial(fs: Fields)
    ensures
        field_of(fs, "type"@) == Some("error"@) ==> (refusal_spec(fs) is Denied <==> field_of(
            fs,
            "error_type"@,
        ) == Some("auth_error"@)),
        refusal_spec(fs) is Denied ==> field_of(fs, "type"@) == Some("error"@) && field_of(
            fs,
            "error_type"@,
        ) == Some("auth_error"@),
        field_of(fs, "type"@) == Some("error"@) ==> match refusal_spec(fs) {
            RefusalView::Denied(why) => why == field_of(fs, "description"@).unwrap_or(
                "no description"@,
            ),
            RefusalView::Broken(why) => why == field_of(fs, "description"@).unwrap_or(
                "no description"@,
            ),
        },
        field_of(fs, "type"@) is None ==> refusal_spec(fs) == RefusalView::Broken(
            "reply without a type"@,
        ),
{
}

/// Only a prompt for the secret is answered with it, and the first such
/// prompt always is; a prompt for anything else is answered with
/// nothing, and leaves the conversation where it was.
pub proof fn law_the_secret_answers_only_its_prompt(
    answered: bool,
    fs: Fields,
    secret: Seq<char>,
    cmd: Seq<Seq<char>>,
)
    ensures
        ({
            let stage = Stage::Authenticating { answered };
            let (next, step) = reply_spec(stage, fs, secret, cmd);
            let prompt = field_of(fs, "type"@) == Some("auth_message"@);
            let for_secret = field_of(fs, "auth_message_type"@) == Some("secret"@);
            &&& sends_secret(step, secret) ==> prompt && for_secret && !answered
            &&& prompt && for_secret && !answered ==> sends_secret(step, secret) && next
                == (Stage::Authenticating { answered: true })
            &&& prompt && !for_secret ==> step == StepView::Send(response_spec(None)) && next
                == stage && !sends_secret(step, secret)
        }),
{
    lemma_secret_answer_is_its_own(secret, cmd);
}

} // verus!
