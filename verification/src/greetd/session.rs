//! The conversation with greetd, as a function from what greetd said to
//! what to send next.
//!
//! One attempt is: send [`Conversation::open`]'s request, then hand each
//! reply to [`Conversation::on_reply`] and do what it says -- send the
//! message it returns, or stop with its outcome. A refused session is
//! cancelled with [`cancel_request`] before the connection is dropped.

use vstd::prelude::*;
use vstd::utf8::*;
use vstd::string::StringExecFns;
use crate::greetd::json::{quote, quote_spec, read_object, str_eq, utf8_text, Object};
use crate::greetd::json_spec::{field_of, read_object_spec, Fields};
use crate::greetd::secret::Secret;
use crate::text::{decimal_spec, push_char, push_decimal};

verus! {

// ------------------------------------------------------------ requests

/// One member of a request: `"key":"value"`.
pub open spec fn member_spec(key: Seq<char>, val: Seq<char>) -> Seq<char> {
    quote_spec(key) + seq![':'] + quote_spec(val)
}

/// The members of a request, separated by commas.
pub open spec fn members_spec(fs: Fields) -> Seq<char>
    decreases fs.len(),
{
    if fs.len() == 0 {
        seq![]
    } else if fs.len() == 1 {
        member_spec(fs[0].0, fs[0].1)
    } else {
        members_spec(fs.drop_last()) + seq![','] + member_spec(fs.last().0, fs.last().1)
    }
}

/// A request whose fields are all strings, in the order given.
pub open spec fn request_spec(fs: Fields) -> Seq<char> {
    seq!['{'] + members_spec(fs) + seq!['}']
}

/// The text of each pair of a request's fields.
pub open spec fn fields_view(fields: Seq<(&str, &str)>) -> Fields {
    fields.map_values(|p: (&str, &str)| (p.0@, p.1@))
}

/// A request whose fields are all strings.
pub fn request(fields: &[(&str, &str)]) -> (r: String)
    ensures
        r@ == request_spec(fields_view(fields@)),
{
    let mut out = String::new();
    push_char(&mut out, '{');
    let n = fields.len();
    assert(fields_view(fields@.take(0)) =~= Seq::<(Seq<char>, Seq<char>)>::empty());
    assert(out@ =~= seq!['{'] + members_spec(fields_view(fields@.take(0))));
    let mut i: usize = 0;
    while i < n
        invariant
            n == fields@.len(),
            i <= n,
            out@ == seq!['{'] + members_spec(fields_view(fields@.take(i as int))),
        decreases n - i,
    {
        let (key, value) = fields[i];
        let ghost before = fields_view(fields@.take(i as int));
        let ghost after = fields_view(fields@.take(i + 1));
        assert(after.drop_last() =~= before);
        assert(after.last() == (key@, value@));
        if i > 0 {
            push_char(&mut out, ',');
        }
        let qk = quote(key);
        out.append(qk.as_str());
        push_char(&mut out, ':');
        let qv = quote(value);
        out.append(qv.as_str());
        proof {
            if i == 0 {
                assert(after.len() == 1);
                assert(out@ =~= seq!['{'] + members_spec(after));
            } else {
                assert(out@ =~= seq!['{'] + members_spec(after));
            }
        }
        i = i + 1;
    }
    push_char(&mut out, '}');
    assert(fields@.take(n as int) =~= fields@);
    out
}

/// The request that cancels a session: `{"type":"cancel_session"}`.
pub fn cancel_request() -> (r: String)
    ensures
        r@ == request_spec(seq![("type"@, "cancel_session"@)]),
{
    let fields: [(&str, &str); 1] = [("type", "cancel_session")];
    let r = request(&fields);
    assert(fields_view(fields@) =~= seq![("type"@, "cancel_session"@)]);
    r
}

// ------------------------------------------------------------ refusals

/// Why a sign-in did not happen.
#[derive(Debug, Clone, PartialEq, Eq)]
pub enum Refusal {
    /// greetd said no -- a wrong password, a locked account -- in its
    /// own words.
    Denied(String),
    /// The socket, the framing, or the conversation went wrong before
    /// greetd could say either way.
    Broken(String),
}

/// A [`Refusal`] as text.
pub enum RefusalView {
    Denied(Seq<char>),
    Broken(Seq<char>),
}

impl View for Refusal {
    type V = RefusalView;

    open spec fn view(&self) -> RefusalView {
        match self {
            Refusal::Denied(why) => RefusalView::Denied(why@),
            Refusal::Broken(why) => RefusalView::Broken(why@),
        }
    }
}

impl Refusal {
    /// How a refusal reads on the screen.
    pub fn message(&self) -> (r: String)
        ensures
            r@ == match self@ {
                RefusalView::Denied(why) => "greetd refused: "@ + why,
                RefusalView::Broken(why) => "greetd: "@ + why,
            },
    {
        match self {
            Refusal::Denied(why) => {
                let mut out = String::from_str("greetd refused: ");
                out.append(why.as_str());
                out
            },
            Refusal::Broken(why) => {
                let mut out = String::from_str("greetd: ");
                out.append(why.as_str());
                out
            },
        }
    }
}

/// What `{:?}` prints for a string: the text in quotes, escaped.
pub uninterp spec fn debug_text(s: Seq<char>) -> Seq<char>;

/// `format!("{:?}", s)` for a string: the text quoted and escaped the
/// way Rust's `Debug` for `str` does. Only its dependence on the text is
/// stated; the escaping rules are std's.
#[verifier::external_body]
fn debug_quoted(s: &str) -> (r: String)
    ensures
        r@ == debug_text(s@),
{
    format!("{s:?}")
}

/// The refusal a reply stands for, when it is not the one expected.
pub open spec fn refusal_spec(fs: Fields) -> RefusalView {
    let description = match field_of(fs, "description"@) {
        Some(d) => d,
        None => "no description"@,
    };
    match field_of(fs, "type"@) {
        Some(t) => if t == "error"@ {
            if field_of(fs, "error_type"@) == Some("auth_error"@) {
                RefusalView::Denied(description)
            } else {
                RefusalView::Broken(description)
            }
        } else {
            RefusalView::Broken("unexpected reply "@ + debug_text(t))
        },
        None => RefusalView::Broken("reply without a type"@),
    }
}

/// The refusal a reply stands for: an authentication error is a denial
/// in greetd's words, any other error or reply is broken.
pub fn refusal_of(reply: &Object) -> (r: Refusal)
    ensures
        r@ == refusal_spec(reply@),
{
    let description = match reply.get("description") {
        Some(d) => String::from_str(d),
        None => String::from_str("no description"),
    };
    match reply.get("type") {
        Some(t) => {
            if str_eq(t, "error") {
                let auth = match reply.get("error_type") {
                    Some(e) => str_eq(e, "auth_error"),
                    None => false,
                };
                if auth {
                    Refusal::Denied(description)
                } else {
                    Refusal::Broken(description)
                }
            } else {
                let mut why = String::from_str("unexpected reply ");
                let shown = debug_quoted(t);
                why.append(shown.as_str());
                Refusal::Broken(why)
            }
        },
        None => Refusal::Broken(String::from_str("reply without a type")),
    }
}

// -------------------------------------------------------- conversation

/// The answer to an `auth_message`: the text, or `null` when the prompt
/// is not for the secret.
pub open spec fn response_spec(answer: Option<Seq<char>>) -> Seq<char> {
    "{\"type\":\"post_auth_message_response\",\"response\":"@ + match answer {
        Some(t) => quote_spec(t),
        None => "null"@,
    } + seq!['}']
}

/// The command's arguments as JSON strings, separated by commas.
pub open spec fn quoted_list(args: Seq<Seq<char>>) -> Seq<char>
    decreases args.len(),
{
    if args.len() == 0 {
        seq![]
    } else if args.len() == 1 {
        quote_spec(args[0])
    } else {
        quoted_list(args.drop_last()) + seq![','] + quote_spec(args.last())
    }
}

/// The request that starts the session with `cmd`.
pub open spec fn start_spec(cmd: Seq<Seq<char>>) -> Seq<char> {
    "{\"type\":\"start_session\",\"cmd\":["@ + quoted_list(cmd) + "],\"env\":[]}"@
}

/// The text of each argument.
pub open spec fn args_view(args: Seq<String>) -> Seq<Seq<char>> {
    args.map_values(|a: String| a@)
}

/// Where a conversation stands.
#[derive(PartialEq, Eq, Structural, Clone, Copy, Debug)]
pub enum Stage {
    /// Answering prompts; `answered` once the secret has gone out.
    Authenticating { answered: bool },
    /// The session has been asked to start.
    Starting,
}

/// What to do after a reply: send a message and wait for the next
/// reply, or stop with the outcome.
#[derive(Debug)]
pub enum Step {
    Send(String),
    Finish(Result<(), Refusal>),
}

/// A [`Step`] as text.
pub enum StepView {
    Send(Seq<char>),
    Finish(Result<(), RefusalView>),
}

impl View for Step {
    type V = StepView;

    open spec fn view(&self) -> StepView {
        match self {
            Step::Send(m) => StepView::Send(m@),
            Step::Finish(Ok(())) => StepView::Finish(Ok(())),
            Step::Finish(Err(e)) => StepView::Finish(Err(e@)),
        }
    }
}

/// Where the conversation goes after a reply `fs`, and what to do.
///
/// Prompts that are not for the secret are answered with nothing; the
/// first secret prompt is answered with the secret; a second one is
/// refused rather than answered again, since the one secret has been
/// spent. `success` while authenticating starts the session with `cmd`;
/// `success` after that is the outcome. Anything else is a refusal.
pub open spec fn reply_spec(stage: Stage, fs: Fields, secret: Seq<char>, cmd: Seq<Seq<char>>) -> (Stage, StepView) {
    let ty = field_of(fs, "type"@);
    match stage {
        Stage::Authenticating { answered } => if ty == Some("auth_message"@) {
            if field_of(fs, "auth_message_type"@) == Some("secret"@) {
                if answered {
                    (stage, StepView::Finish(Err(RefusalView::Denied("asked for the secret twice"@))))
                } else {
                    (Stage::Authenticating { answered: true }, StepView::Send(response_spec(Some(secret))))
                }
            } else {
                (stage, StepView::Send(response_spec(None)))
            }
        } else if ty == Some("success"@) {
            (Stage::Starting, StepView::Send(start_spec(cmd)))
        } else {
            (stage, StepView::Finish(Err(refusal_spec(fs))))
        },
        Stage::Starting => if ty == Some("success"@) {
            (stage, StepView::Finish(Ok(())))
        } else {
            (stage, StepView::Finish(Err(refusal_spec(fs))))
        },
    }
}

/// One attempt at a session, from the first request to the outcome.
pub struct Conversation {
    pub stage: Stage,
}

fn response(answer: Option<&str>) -> (r: String)
    ensures
        r@ == response_spec(match answer {
            Some(t) => Some(t@),
            None => None,
        }),
{
    let mut message = String::from_str("{\"type\":\"post_auth_message_response\",\"response\":");
    match answer {
        Some(text) => {
            let q = quote(text);
            message.append(q.as_str());
        },
        None => message.append("null"),
    }
    push_char(&mut message, '}');
    message
}

fn start_session(cmd: &[String]) -> (r: String)
    ensures
        r@ == start_spec(args_view(cmd@)),
{
    let mut message = String::from_str("{\"type\":\"start_session\",\"cmd\":[");
    let ghost head = message@;
    let n = cmd.len();
    let mut i: usize = 0;
    assert(args_view(cmd@.take(0)) =~= Seq::<Seq<char>>::empty());
    assert(message@ =~= head + quoted_list(args_view(cmd@.take(0))));
    while i < n
        invariant
            n == cmd@.len(),
            i <= n,
            message@ == head + quoted_list(args_view(cmd@.take(i as int))),
        decreases n - i,
    {
        let ghost before = args_view(cmd@.take(i as int));
        let ghost after = args_view(cmd@.take(i + 1));
        assert(after.drop_last() =~= before);
        assert(after.last() == cmd@[i as int]@);
        if i > 0 {
            push_char(&mut message, ',');
        }
        let q = quote(cmd[i].as_str());
        message.append(q.as_str());
        proof {
            assert(message@ =~= head + quoted_list(after));
        }
        i = i + 1;
    }
    assert(cmd@.take(n as int) =~= cmd@);
    message.append("],\"env\":[]}");
    message
}

impl Conversation {
    /// A conversation for `user`, and the request that opens it.
    pub fn open(user: &str) -> (r: (Conversation, String))
        ensures
            r.0.stage == (Stage::Authenticating { answered: false }),
            r.1@ == request_spec(seq![("type"@, "create_session"@), ("username"@, user@)]),
    {
        let fields: [(&str, &str); 2] = [("type", "create_session"), ("username", user)];
        let message = request(&fields);
        assert(fields_view(fields@) =~= seq![("type"@, "create_session"@), ("username"@, user@)]);
        (Conversation { stage: Stage::Authenticating { answered: false } }, message)
    }

    /// What to do about `reply`.
    pub fn on_reply(&mut self, reply: &Object, secret: &Secret, cmd: &[String]) -> (r: Step)
        ensures
            (final(self).stage, r@) == reply_spec(old(self).stage, reply@, secret@, args_view(cmd@)),
    {
        let ty = reply.get("type");
        let is_auth = match ty {
            Some(t) => str_eq(t, "auth_message"),
            None => false,
        };
        let is_success = match ty {
            Some(t) => str_eq(t, "success"),
            None => false,
        };
        match self.stage {
            Stage::Authenticating { answered } => {
                if is_auth {
                    let is_secret = match reply.get("auth_message_type") {
                        Some(k) => str_eq(k, "secret"),
                        None => false,
                    };
                    if is_secret {
                        if answered {
                            Step::Finish(Err(Refusal::Denied(String::from_str("asked for the secret twice"))))
                        } else {
                            self.stage = Stage::Authenticating { answered: true };
                            Step::Send(response(Some(secret.expose())))
                        }
                    } else {
                        Step::Send(response(None))
                    }
                } else if is_success {
                    self.stage = Stage::Starting;
                    Step::Send(start_session(cmd))
                } else {
                    Step::Finish(Err(refusal_of(reply)))
                }
            },
            Stage::Starting => {
                if is_success {
                    Step::Finish(Ok(()))
                } else {
                    Step::Finish(Err(refusal_of(reply)))
                }
            },
        }
    }
}

/// What to send once an attempt has its outcome, whatever ended it: a
/// refused or broken session is cancelled, so that the next attempt
/// begins from nothing; a started one needs nothing more.
pub fn closing_request(outcome: &Result<(), Refusal>) -> (r: Option<String>)
    ensures
        outcome is Ok <==> r is None,
        r matches Some(m) ==> m@ == request_spec(seq![("type"@, "cancel_session"@)]),
{
    match outcome {
        Ok(()) => None,
        Err(_) => Some(cancel_request()),
    }
}

// ------------------------------------------------------------- framing

/// The length that goes in front of a request: its size in bytes, which
/// must fit the frame's `u32`.
pub fn request_length(json: &str) -> (r: Result<u32, Refusal>)
    requires
        encode_utf8(json@).len() <= usize::MAX,
    ensures
        encode_utf8(json@).len() <= u32::MAX ==> r == Ok::<u32, Refusal>(
            encode_utf8(json@).len() as u32,
        ),
        encode_utf8(json@).len() > u32::MAX ==> (r matches Err(e) && e@ == RefusalView::Broken(
            "request too long"@,
        )),
{
    let len = json.len();
    if len <= 0xffff_ffff {
        Ok(len as u32)
    } else {
        Err(Refusal::Broken(String::from_str("request too long")))
    }
}

/// The size of a reply, from the length in front of it: refused when it
/// is over a mebibyte.
pub fn reply_length(len: u32) -> (r: Result<usize, Refusal>)
    ensures
        len <= 0x10_0000 ==> r == Ok::<usize, Refusal>(len as usize),
        len > 0x10_0000 ==> (r matches Err(e) && e@ == RefusalView::Broken(
            "reply of "@ + decimal_spec(len as nat) + " bytes"@,
        )),
{
    if len > 0x10_0000 {
        let mut why = String::from_str("reply of ");
        push_decimal(&mut why, len as u64);
        why.append(" bytes");
        Err(Refusal::Broken(why))
    } else {
        Ok(len as usize)
    }
}

/// A reply's body: refused unless it is UTF-8 text that is one JSON
/// object.
pub fn read_reply(body: Vec<u8>) -> (r: Result<Object, Refusal>)
    ensures
        !valid_utf8(body@) ==> (r matches Err(e) && e@ == RefusalView::Broken(
            "reply is not UTF-8"@,
        )),
        valid_utf8(body@) ==> match read_object_spec(body@) {
            Some(fs) => r matches Ok(o) && o@ == fs,
            None => r matches Err(e) && e@ == RefusalView::Broken("reply is not a JSON object"@),
        },
{
    let ghost bytes = body@;
    let text = match utf8_text(body) {
        Some(t) => t,
        None => return Err(Refusal::Broken(String::from_str("reply is not UTF-8"))),
    };
    proof {
        decode_utf8_encode_utf8(bytes);
    }
    match read_object(text.as_str()) {
        Some(o) => Ok(o),
        None => Err(Refusal::Broken(String::from_str("reply is not a JSON object"))),
    }
}

} // verus!
