use cp_eras_ui::greetd::session::{
    cancel_request, closing_request, read_reply, refusal_of, reply_length, request, request_length, Conversation,
    Refusal, Stage, Step,
};
use cp_eras_ui::greetd::{quote, read_object, Secret};

#[test]
fn quoting_round_trips_through_the_reader() {
    for s in ["", "plain", "with \"quotes\" and \\ slashes", "tab\tnl\n", "\u{1}", "héllo 日本 🔑"] {
        let json = format!("{{\"k\":{}}}", quote(s));
        let object = read_object(&json).expect(&json);
        assert_eq!(object.get("k"), Some(s), "{json}");
    }
}

#[test]
fn reads_greetd_replies() {
    let reply = read_object(
        r#"{"type":"auth_message","auth_message_type":"secret","auth_message":"Password: "}"#,
    )
    .unwrap();
    assert_eq!(reply.get("type"), Some("auth_message"));
    assert_eq!(reply.get("auth_message_type"), Some("secret"));
    assert_eq!(reply.get("auth_message"), Some("Password: "));

    let reply = read_object(
        r#"{ "type" : "error", "error_type": "auth_error", "description": "pam_authenticate: \"no\"" }"#,
    )
    .unwrap();
    assert_eq!(reply.get("description"), Some("pam_authenticate: \"no\""));

    // Fields of other types are skipped, not choked on.
    let reply = read_object(r#"{"a":[1,2,{"x":null}],"b":true,"c":-1.5e3,"type":"success"}"#).unwrap();
    assert_eq!(reply.get("type"), Some("success"));
    assert_eq!(reply.get("a"), None);

    assert_eq!(read_object("\"not an object\""), None);
    assert_eq!(read_object("{\"unterminated\":\"x"), None);
    assert_eq!(read_object("{} trailing"), None);
    assert_eq!(read_object("{\"k\":\"\\uD83D\\uDD11\"}").unwrap().get("k"), Some("🔑"));
}

#[test]
fn secret_is_redacted_and_counts_characters() {
    let mut s = Secret::new();
    s.push_str("pässword");
    assert_eq!(s.redacted(), "Secret(..)");
    assert_eq!(s.len(), 8);
    s.pop();
    assert_eq!(s.expose(), "pässwor");
    s.clear();
    assert!(s.is_empty());
}

#[test]
fn a_cleared_secret_starts_again_from_nothing() {
    let mut s = Secret::new();
    s.push_str("日本 🔑");
    s.clear();
    assert_eq!(s.len(), 0);
    assert_eq!(s.expose(), "");
    s.push_str("x");
    assert_eq!(s.expose(), "x");
    s.clear();
    s.clear();
    assert!(s.is_empty());
}

#[test]
fn quote_escapes_exactly_the_characters_json_needs() {
    assert_eq!(quote(""), "\"\"");
    assert_eq!(quote("a\"b\\c"), "\"a\\\"b\\\\c\"");
    assert_eq!(quote("\n\r\t"), "\"\\n\\r\\t\"");
    assert_eq!(quote("\u{1}\u{1f}"), "\"\\u0001\\u001f\"");
    assert_eq!(quote("/ é"), "\"/ é\"");
}

#[test]
fn reader_takes_every_escape() {
    let o = read_object(r#"{"k":"\"\\\/\b\f\n\r\t\u0041\u00e9"}"#).unwrap();
    assert_eq!(o.get("k"), Some("\"\\/\u{8}\u{c}\n\r\tAé"));
}

#[test]
fn a_unicode_escape_is_four_hex_digits() {
    assert_eq!(read_object(r#"{"k":"\u+041"}"#), None);
    assert_eq!(read_object(r#"{"k":"\u-041"}"#), None);
    assert_eq!(read_object(r#"{"k":"\u004"}"#), None);
    assert_eq!(read_object(r#"{"k":"\u00 41"}"#), None);
    assert_eq!(read_object(r#"{"k":"\uD83D\u+DD1"}"#), None);
    let o = read_object(r#"{"k":"\u0041\u004a"}"#).unwrap();
    assert_eq!(o.get("k"), Some("AJ"));
}

#[test]
fn reader_refuses_bad_escapes_and_surrogates() {
    assert_eq!(read_object(r#"{"k":"\x"}"#), None);
    assert_eq!(read_object(r#"{"k":"\uDC00"}"#), None);
    assert_eq!(read_object(r#"{"k":"\uD83D"}"#), None);
    assert_eq!(read_object(r#"{"k":"\uD83D\u0041"}"#), None);
    assert_eq!(read_object(r#"{"k":"\u00g0"}"#), None);
}

#[test]
fn reader_refuses_malformed_objects() {
    assert_eq!(read_object(""), None);
    assert_eq!(read_object("{"), None);
    assert_eq!(read_object("{\"a\":1,}"), None);
    assert_eq!(read_object("{\"a\" 1}"), None);
    assert_eq!(read_object("{\"a\":[1,]}"), None);
    assert_eq!(read_object("{\"a\":nul}"), None);
    assert_eq!(read_object("{a:1}"), None);
    assert!(read_object(" \t\r\n{ } \n").is_some());
    assert!(read_object("{\"a\":[],\"b\":{}}").is_some());
}

#[test]
fn get_finds_the_first_of_repeated_keys() {
    let o = read_object(r#"{"k":"one","k":"two"}"#).unwrap();
    assert_eq!(o.get("k"), Some("one"));
    assert_eq!(o.get("K"), None);
}

#[test]
fn requests_are_flat_objects_of_strings() {
    assert_eq!(request(&[]), "{}");
    assert_eq!(
        request(&[("type", "create_session"), ("username", "mverte")]),
        "{\"type\":\"create_session\",\"username\":\"mverte\"}"
    );
    assert_eq!(cancel_request(), "{\"type\":\"cancel_session\"}");
    let back = read_object(&request(&[("a", "x\"y"), ("b", "")])).unwrap();
    assert_eq!(back.get("a"), Some("x\"y"));
    assert_eq!(back.get("b"), Some(""));
}

fn reply(text: &str) -> cp_eras_ui::greetd::Object {
    read_object(text).unwrap()
}

#[test]
fn refusals_say_who_refused() {
    let r = refusal_of(&reply(
        r#"{"type":"error","error_type":"auth_error","description":"Authentication failure"}"#,
    ));
    assert_eq!(r, Refusal::Denied("Authentication failure".to_string()));
    assert_eq!(r.message(), "greetd refused: Authentication failure");
    let r = refusal_of(&reply(r#"{"type":"error","error_type":"error"}"#));
    assert_eq!(r, Refusal::Broken("no description".to_string()));
    assert_eq!(r.message(), "greetd: no description");
    let r = refusal_of(&reply(r#"{"type":"weird"}"#));
    assert_eq!(r, Refusal::Broken("unexpected reply \"weird\"".to_string()));
    let r = refusal_of(&reply(r#"{"description":"x"}"#));
    assert_eq!(r, Refusal::Broken("reply without a type".to_string()));
}

fn sent(step: Step) -> String {
    match step {
        Step::Send(m) => m,
        Step::Finish(r) => panic!("finished early: {r:?}"),
    }
}

#[test]
fn conversation_with_a_right_password_starts_the_session() {
    let mut secret = Secret::new();
    secret.push_str("hunter2");
    let cmd = vec!["uwsm start hyprland-uwsm.desktop".to_string()];
    let (mut c, first) = Conversation::open("mverte");
    assert!(first.contains("create_session") && first.contains("mverte"));
    let m = sent(c.on_reply(
        &reply(r#"{"type":"auth_message","auth_message_type":"info","auth_message":"welcome"}"#),
        &secret,
        &cmd,
    ));
    assert_eq!(m, "{\"type\":\"post_auth_message_response\",\"response\":null}");
    let m = sent(c.on_reply(
        &reply(r#"{"type":"auth_message","auth_message_type":"secret","auth_message":"Password: "}"#),
        &secret,
        &cmd,
    ));
    assert_eq!(m, "{\"type\":\"post_auth_message_response\",\"response\":\"hunter2\"}");
    let m = sent(c.on_reply(&reply(r#"{"type":"success"}"#), &secret, &cmd));
    assert_eq!(
        m,
        "{\"type\":\"start_session\",\"cmd\":[\"uwsm start hyprland-uwsm.desktop\"],\"env\":[]}"
    );
    assert_eq!(c.stage, Stage::Starting);
    match c.on_reply(&reply(r#"{"type":"success"}"#), &secret, &cmd) {
        Step::Finish(Ok(())) => {}
        other => panic!("{other:?}"),
    }
}

#[test]
fn conversation_with_a_wrong_password_is_denied() {
    let mut secret = Secret::new();
    secret.push_str("wrong");
    let (mut c, _) = Conversation::open("mverte");
    sent(c.on_reply(
        &reply(r#"{"type":"auth_message","auth_message_type":"secret","auth_message":"Password: "}"#),
        &secret,
        &[],
    ));
    match c.on_reply(
        &reply(r#"{"type":"error","error_type":"auth_error","description":"Authentication failure"}"#),
        &secret,
        &[],
    ) {
        Step::Finish(outcome) => {
            assert_eq!(outcome, Err(Refusal::Denied("Authentication failure".into())));
            assert_eq!(
                closing_request(&outcome),
                Some("{\"type\":\"cancel_session\"}".to_string())
            );
        }
        other => panic!("{other:?}"),
    }
}

#[test]
fn only_a_started_session_is_left_open() {
    assert_eq!(closing_request(&Ok(())), None);
    assert_eq!(
        closing_request(&Err(Refusal::Broken("read: eof".into()))),
        Some("{\"type\":\"cancel_session\"}".to_string())
    );
}

#[test]
fn a_second_secret_prompt_is_refused() {
    let mut secret = Secret::new();
    secret.push_str("pw");
    let (mut c, _) = Conversation::open("u");
    let prompt = reply(r#"{"type":"auth_message","auth_message_type":"secret"}"#);
    sent(c.on_reply(&prompt, &secret, &[]));
    match c.on_reply(&prompt, &secret, &[]) {
        Step::Finish(Err(r)) => assert_eq!(r, Refusal::Denied("asked for the secret twice".into())),
        other => panic!("{other:?}"),
    }
}

#[test]
fn an_empty_command_list_is_still_a_list() {
    let secret = Secret::new();
    let (mut c, _) = Conversation::open("u");
    let m = sent(c.on_reply(&reply(r#"{"type":"success"}"#), &secret, &[]));
    assert_eq!(m, "{\"type\":\"start_session\",\"cmd\":[],\"env\":[]}");
    let two = vec!["a".to_string(), "b c".to_string()];
    let (mut c, _) = Conversation::open("u");
    let m = sent(c.on_reply(&reply(r#"{"type":"success"}"#), &secret, &two));
    assert_eq!(m, "{\"type\":\"start_session\",\"cmd\":[\"a\",\"b c\"],\"env\":[]}");
}

#[test]
fn frames_are_checked() {
    assert_eq!(request_length("{}"), Ok(2));
    assert_eq!(request_length("é"), Ok(2));
    assert_eq!(reply_length(1 << 20), Ok(1 << 20));
    assert_eq!(
        reply_length((1 << 20) + 1),
        Err(Refusal::Broken("reply of 1048577 bytes".into()))
    );
    assert_eq!(
        read_reply(vec![0xff]).unwrap_err(),
        Refusal::Broken("reply is not UTF-8".into())
    );
    assert_eq!(
        read_reply(b"[]".to_vec()).unwrap_err(),
        Refusal::Broken("reply is not a JSON object".into())
    );
    assert_eq!(read_reply(b"{\"type\":\"success\"}".to_vec()).unwrap().get("type"), Some("success"));
}
