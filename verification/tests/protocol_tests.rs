use worker_bridge::decode::decode_line;
use worker_bridge::encode::encode_value;
use worker_bridge::json::Json;
use worker_bridge::protocol::{interpret_sync_response, BridgeError, EnvelopeKind, ReadEvent};
use worker_bridge::request::{build_invocation_args, build_query_request, worker_args};

fn text(s: &str) -> Vec<char> {
    s.chars().collect()
}

fn line_event(s: &str) -> ReadEvent {
    ReadEvent::Line(text(s))
}

fn rendered(v: &Vec<char>) -> String {
    v.iter().collect()
}

#[test]
fn sync_error_envelope_maps_to_worker_failure() {
    let out = interpret_sync_response(&line_event("{\"type\":\"error\",\"message\":\"bad talker\"}"));
    assert_eq!(out, Err(BridgeError::Worker(text("bad talker"))));
    match out {
        Err(e) => assert_eq!(rendered(&e.message()), "bad talker"),
        Ok(_) => panic!("an error envelope must fail the call"),
    }
}

#[test]
fn sync_error_without_message_gets_default_text() {
    let out = interpret_sync_response(&line_event("{\"type\":\"error\"}"));
    assert_eq!(out, Err(BridgeError::Worker(text("unknown error"))));
    let non_string = interpret_sync_response(&line_event("{\"type\":\"error\",\"message\":3}"));
    assert_eq!(non_string, Err(BridgeError::Worker(text("unknown error"))));
}

#[test]
fn sync_closed_stream_is_stream_closed_failure() {
    let out = interpret_sync_response(&ReadEvent::Closed);
    assert_eq!(out, Err(BridgeError::StreamClosed));
    match out {
        Err(e) => assert_eq!(rendered(&e.message()), "backend stream closed"),
        Ok(_) => panic!("a closed stream must fail the call"),
    }
}

#[test]
fn sync_invalid_json_is_decode_failure() {
    let out = interpret_sync_response(&line_event("}{ not json"));
    assert_eq!(out, Err(BridgeError::Decode));
    match out {
        Err(e) => assert_eq!(rendered(&e.message()), "backend invalid JSON"),
        Ok(_) => panic!("an undecodable line must fail the call"),
    }
    assert_eq!(
        interpret_sync_response(&line_event("")),
        Err(BridgeError::Decode)
    );
}

#[test]
fn sync_non_error_envelope_returned_unchanged() {
    let out = interpret_sync_response(&line_event("{\"type\":\"result\",\"answer\":42}"));
    let v = out.expect("a result envelope is returned");
    assert_eq!(v.obj_get(&text("answer")), Some(&Json::Num(text("42"))));
    let plain = interpret_sync_response(&line_event("{\"x\":1}"));
    let v2 = plain.expect("an untyped envelope is returned unchanged");
    assert_eq!(v2.obj_get(&text("x")), Some(&Json::Num(text("1"))));
}

#[test]
fn classify_routes_by_type_tag() {
    let kind = |s: &str| decode_line(&text(s)).unwrap().classify_envelope();
    assert_eq!(kind("{\"type\":\"progress\"}"), EnvelopeKind::Progress);
    assert_eq!(kind("{\"type\":\"result\"}"), EnvelopeKind::Outcome);
    assert_eq!(kind("{\"type\":\"error\"}"), EnvelopeKind::Failure);
    assert_eq!(kind("{\"type\":\"other\"}"), EnvelopeKind::Unknown);
    assert_eq!(kind("{\"kind\":\"progress\"}"), EnvelopeKind::Unknown);
    assert_eq!(kind("{\"type\":7}"), EnvelopeKind::Unknown);
    assert_eq!(kind("[1,2]"), EnvelopeKind::Unknown);
}

#[test]
fn query_request_has_the_wire_shape() {
    let r = build_query_request(&text("alice"), &text("why?"), None);
    let line: String = encode_value(&r).iter().collect();
    assert_eq!(
        line,
        "{\"cmd\":\"query\",\"talker\":\"alice\",\"question\":\"why?\",\"stream\":true,\"config\":\"config.yml\"}"
    );
}

#[test]
fn query_request_appends_overrides() {
    let overrides = decode_line(&text("{\"depth\":2}")).unwrap();
    let r = build_query_request(&text("bob"), &text("how?"), Some(overrides));
    assert_eq!(
        r.obj_get(&text("config_overrides")),
        Some(&Json::Obj(vec![(text("depth"), Json::Num(text("2")))]))
    );
    assert_eq!(r.obj_get(&text("stream")), Some(&Json::Bool(true)));
    assert_eq!(r.obj_get(&text("cmd")), Some(&Json::Str(text("query"))));
    assert_eq!(r.obj_get(&text("talker")), Some(&Json::Str(text("bob"))));
}

#[test]
fn worker_args_select_the_stdio_loop() {
    let args = worker_args(&text("data/mirror.db"));
    let rendered_args: Vec<String> = args.iter().map(|a| a.iter().collect()).collect();
    assert_eq!(rendered_args, vec!["--db", "data/mirror.db", "stdio"]);
}

#[test]
fn build_invocation_args_with_and_without_overrides() {
    let none = build_invocation_args(&text("alice"), &None);
    let rendered_none: Vec<String> = none.iter().map(|a| a.iter().collect()).collect();
    assert_eq!(
        rendered_none,
        vec!["--db", "data/mirror.db", "build", "--talker", "alice", "--config", "config.yml", "--debug"]
    );
    let empty = build_invocation_args(&text("alice"), &Some(text("")));
    assert_eq!(empty.len(), 8);
    let with = build_invocation_args(&text("alice"), &Some(text("{\"k\":1}")));
    let rendered_with: Vec<String> = with.iter().map(|a| a.iter().collect()).collect();
    assert_eq!(
        rendered_with,
        vec![
            "--db",
            "data/mirror.db",
            "build",
            "--talker",
            "alice",
            "--config",
            "config.yml",
            "--config-overrides",
            "{\"k\":1}",
            "--debug"
        ]
    );
}
