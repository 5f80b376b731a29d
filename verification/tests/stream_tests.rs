use worker_bridge::json::Json;
use worker_bridge::protocol::{interpret_sync_response, BridgeError, ReadEvent};
use worker_bridge::stream::{finish_stream, handle_stream_line, run_stream, StreamAction, StreamEnd};

fn wire(s: &str) -> Vec<char> {
    s.chars().collect()
}

fn lines(texts: &[&str]) -> Vec<Vec<char>> {
    texts.iter().map(|t| wire(t)).collect()
}

fn progress_tag(v: &Json) -> Option<String> {
    match v.obj_get(&wire("n")) {
        Some(Json::Num(n)) => Some(n.iter().collect()),
        _ => None,
    }
}

#[test]
fn stream_delivers_progress_then_returns_result() {
    let (delivered, end) = run_stream(&lines(&[
        "{\"type\":\"progress\",\"n\":1}",
        "{\"type\":\"progress\",\"n\":2}",
        "{\"type\":\"progress\",\"n\":3}",
        "{\"type\":\"result\",\"answer\":\"ok\"}",
    ]));
    assert_eq!(delivered.len(), 3);
    let tags: Vec<Option<String>> = delivered.iter().map(progress_tag).collect();
    assert_eq!(
        tags,
        vec![Some("1".to_string()), Some("2".to_string()), Some("3".to_string())]
    );
    match end {
        StreamEnd::Outcome(v) => {
            assert_eq!(v.obj_get(&wire("answer")), Some(&Json::Str(wire("ok"))));
        },
        other => panic!("expected the result envelope, got {:?}", other),
    }
}

#[test]
fn stream_stops_at_the_first_terminal_envelope() {
    let (delivered, end) = run_stream(&lines(&[
        "{\"type\":\"progress\",\"n\":1}",
        "{\"type\":\"result\",\"answer\":\"first\"}",
        "{\"type\":\"progress\",\"n\":99}",
        "{\"type\":\"error\",\"message\":\"late\"}",
    ]));
    assert_eq!(delivered.len(), 1);
    match end {
        StreamEnd::Outcome(v) => {
            assert_eq!(v.obj_get(&wire("answer")), Some(&Json::Str(wire("first"))));
        },
        other => panic!("expected the first terminal envelope, got {:?}", other),
    }
}

#[test]
fn stream_error_still_delivers_prior_progress() {
    let (delivered, end) = run_stream(&lines(&[
        "{\"type\":\"progress\",\"n\":1}",
        "{\"type\":\"progress\",\"n\":2}",
        "{\"type\":\"error\",\"message\":\"boom\"}",
    ]));
    assert_eq!(delivered.len(), 2);
    let tags: Vec<Option<String>> = delivered.iter().map(progress_tag).collect();
    assert_eq!(tags, vec![Some("1".to_string()), Some("2".to_string())]);
    assert_eq!(end, StreamEnd::Failed(wire("boom")));
    assert_eq!(finish_stream(end), Err(BridgeError::Worker(wire("boom"))));
}

#[test]
fn stream_without_terminal_is_no_terminal_not_worker_failure() {
    let (delivered, end) = run_stream(&lines(&["{\"type\":\"progress\",\"n\":1}"]));
    assert_eq!(delivered.len(), 1);
    assert_eq!(end, StreamEnd::NoTerminal);
    assert_ne!(end, StreamEnd::Failed(wire("boom")));
    let msg: String = BridgeError::NoTerminal.message().iter().collect();
    assert_eq!(msg, "backend stream did not return result");
    let worker_msg: String = BridgeError::Worker(wire("boom")).message().iter().collect();
    assert_ne!(msg, worker_msg);
    assert_eq!(finish_stream(end), Err(BridgeError::NoTerminal));
}

#[test]
fn stream_tolerates_malformed_and_blank_lines() {
    let (delivered, end) = run_stream(&lines(&[
        "",
        "   ",
        "this is not json",
        "{\"type\":\"result\",\"answer\":1}",
    ]));
    assert_eq!(delivered.len(), 0);
    match end {
        StreamEnd::Outcome(v) => {
            assert_eq!(v.obj_get(&wire("answer")), Some(&Json::Num(wire("1"))));
        },
        other => panic!("expected the result envelope, got {:?}", other),
    }
}

#[test]
fn stream_ignores_unknown_envelope_kinds() {
    let (delivered, end) = run_stream(&lines(&[
        "{\"type\":\"status\",\"n\":1}",
        "{\"no_type\":true}",
        "{\"type\":\"error\",\"message\":\"x\"}",
    ]));
    assert_eq!(delivered.len(), 0);
    assert_eq!(end, StreamEnd::Failed(wire("x")));
}

#[test]
fn blank_lines_are_tolerated_only_by_the_streaming_path() {
    assert_eq!(
        interpret_sync_response(&ReadEvent::Line(wire("   "))),
        Err(BridgeError::Decode)
    );
    assert_eq!(handle_stream_line(&wire("   ")), StreamAction::Ignore);
}

#[test]
fn handle_stream_line_actions() {
    assert_eq!(handle_stream_line(&wire("  \t ")), StreamAction::Ignore);
    assert_eq!(handle_stream_line(&wire("garbage")), StreamAction::Ignore);
    match handle_stream_line(&wire("{\"type\":\"progress\",\"n\":7}")) {
        StreamAction::Emit(v) => {
            assert_eq!(v.obj_get(&wire("n")), Some(&Json::Num(wire("7"))));
        },
        other => panic!("expected a progress delivery, got {:?}", other),
    }
    assert_eq!(
        handle_stream_line(&wire("{\"type\":\"error\",\"message\":\"m\"}")),
        StreamAction::Finish(StreamEnd::Failed(wire("m")))
    );
}
