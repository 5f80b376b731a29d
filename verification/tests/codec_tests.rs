use worker_bridge::decode::decode_line;
use worker_bridge::encode::{encode_request_line, encode_value};
use worker_bridge::json::Json;

fn chars_of(s: &str) -> Vec<char> {
    s.chars().collect()
}

fn text_of(v: &Vec<char>) -> String {
    v.iter().collect()
}

fn jstr(s: &str) -> Json {
    Json::Str(chars_of(s))
}

fn jnum(s: &str) -> Json {
    Json::Num(chars_of(s))
}

fn jkey(k: &str, v: Json) -> (Vec<char>, Json) {
    (chars_of(k), v)
}

#[test]
fn encode_simple_values() {
    assert_eq!(text_of(&encode_value(&Json::Null)), "null");
    assert_eq!(text_of(&encode_value(&Json::Bool(true))), "true");
    assert_eq!(text_of(&encode_value(&Json::Bool(false))), "false");
    assert_eq!(text_of(&encode_value(&jnum("42"))), "42");
    assert_eq!(text_of(&encode_value(&jnum("-0.5e+10"))), "-0.5e+10");
    assert_eq!(text_of(&encode_value(&jstr("hi"))), "\"hi\"");
    assert_eq!(text_of(&encode_value(&Json::Arr(vec![]))), "[]");
    assert_eq!(text_of(&encode_value(&Json::Obj(vec![]))), "{}");
    let arr = Json::Arr(vec![jnum("1"), Json::Null, jstr("x")]);
    assert_eq!(text_of(&encode_value(&arr)), "[1,null,\"x\"]");
    let obj = Json::Obj(vec![jkey("a", jnum("1")), jkey("b", Json::Bool(false))]);
    assert_eq!(text_of(&encode_value(&obj)), "{\"a\":1,\"b\":false}");
}

#[test]
fn encode_escapes_strings() {
    let s = jstr("a\"b\\c\nd\te\rf");
    assert_eq!(text_of(&encode_value(&s)), "\"a\\\"b\\\\c\\nd\\te\\rf\"");
    let ctl = jstr("\u{1}\u{8}\u{c}\u{1f}");
    assert_eq!(text_of(&encode_value(&ctl)), "\"\\u0001\\b\\f\\u001f\"");
}

#[test]
fn encode_request_line_ends_with_newline() {
    let obj = Json::Obj(vec![jkey("cmd", jstr("ping"))]);
    let line = encode_request_line(&obj);
    assert_eq!(text_of(&line), "{\"cmd\":\"ping\"}\n");
}

#[test]
fn round_trip_nested_value() {
    let v = Json::Obj(vec![
        jkey("cmd", jstr("query")),
        jkey("count", jnum("-12.5e-3")),
        jkey("flags", Json::Arr(vec![Json::Bool(true), Json::Null, jnum("0")])),
        jkey(
            "nested",
            Json::Obj(vec![jkey("inner", jstr("line\nbreak")), jkey("deep", Json::Arr(vec![]))]),
        ),
    ]);
    let line = encode_value(&v);
    let back = decode_line(&line).expect("round trip must decode");
    assert_eq!(back, v);
}

#[test]
fn round_trip_unicode_text() {
    let v = Json::Obj(vec![jkey("text", jstr("héllo \u{1F600} wörld"))]);
    let line = encode_value(&v);
    let back = decode_line(&line).expect("unicode round trip must decode");
    assert_eq!(back, v);
}

#[test]
fn round_trip_number_literal_preserved() {
    let v = jnum("1.20");
    let line = encode_value(&v);
    assert_eq!(text_of(&line), "1.20");
    let back = decode_line(&line).expect("number must decode");
    assert_eq!(back, v);
}

#[test]
fn decode_logical_value_ignores_field_order() {
    let a = decode_line(&chars_of("{\"a\":1,\"b\":2}")).unwrap();
    let b = decode_line(&chars_of("{\"b\":2,\"a\":1}")).unwrap();
    assert_eq!(a.obj_get(&chars_of("a")), b.obj_get(&chars_of("a")));
    assert_eq!(a.obj_get(&chars_of("b")), b.obj_get(&chars_of("b")));
    assert_eq!(a.obj_get(&chars_of("a")), Some(&jnum("1")));
    assert_eq!(a.obj_get(&chars_of("c")), None);
}

#[test]
fn decode_accepts_interior_whitespace() {
    let line = chars_of("  { \"type\" : \"progress\" , \"n\" : [ 1 , 2 ] }  \r\n");
    let v = decode_line(&line).expect("whitespace must be tolerated");
    assert_eq!(v.obj_get(&chars_of("type")), Some(&jstr("progress")));
    assert_eq!(
        v.obj_get(&chars_of("n")),
        Some(&Json::Arr(vec![jnum("1"), jnum("2")]))
    );
}

#[test]
fn decode_unicode_escapes() {
    assert_eq!(decode_line(&chars_of("\"\\u0041\"")), Some(jstr("A")));
    assert_eq!(decode_line(&chars_of("\"\\u00e9\"")), Some(jstr("é")));
    assert_eq!(
        decode_line(&chars_of("\"\\ud83d\\ude00\"")),
        Some(jstr("\u{1F600}"))
    );
    assert_eq!(decode_line(&chars_of("\"\\n\\t\\\"\\\\\\/\"")), Some(jstr("\n\t\"\\/")));
}

#[test]
fn decode_rejects_malformed_lines() {
    assert_eq!(decode_line(&chars_of("")), None);
    assert_eq!(decode_line(&chars_of("   ")), None);
    assert_eq!(decode_line(&chars_of("{")), None);
    assert_eq!(decode_line(&chars_of("{\"a\":}")), None);
    assert_eq!(decode_line(&chars_of("{\"a\":1,}")), None);
    assert_eq!(decode_line(&chars_of("[1,]")), None);
    assert_eq!(decode_line(&chars_of("nul")), None);
    assert_eq!(decode_line(&chars_of("truex")), None);
    assert_eq!(decode_line(&chars_of("{} {}")), None);
    assert_eq!(decode_line(&chars_of("\"unterminated")), None);
    assert_eq!(decode_line(&chars_of("\"\\ud800\"")), None);
    assert_eq!(decode_line(&chars_of("\"\\q\"")), None);
    assert_eq!(decode_line(&chars_of("not json at all")), None);
}

#[test]
fn reencoding_a_decoded_line_preserves_the_value() {
    let noisy = chars_of("  { \"a\" : [ 1 , \"x\" ] , \"b\" : { } }  ");
    let first = decode_line(&noisy).expect("the noisy line decodes");
    let compact = encode_value(&first);
    assert_eq!(text_of(&compact), "{\"a\":[1,\"x\"],\"b\":{}}");
    let second = decode_line(&compact).expect("the compact line decodes");
    assert_eq!(second, first);
}

#[test]
fn lookup_takes_the_first_of_duplicate_names() {
    let v = decode_line(&chars_of("{\"a\":1,\"a\":2}")).unwrap();
    assert_eq!(v.obj_get(&chars_of("a")), Some(&jnum("1")));
}

#[test]
fn decode_number_grammar() {
    assert_eq!(decode_line(&chars_of("0")), Some(jnum("0")));
    assert_eq!(decode_line(&chars_of("-0")), Some(jnum("-0")));
    assert_eq!(decode_line(&chars_of("10.25")), Some(jnum("10.25")));
    assert_eq!(decode_line(&chars_of("1e5")), Some(jnum("1e5")));
    assert_eq!(decode_line(&chars_of("-0.5E+10")), Some(jnum("-0.5E+10")));
    assert_eq!(decode_line(&chars_of("01")), None);
    assert_eq!(decode_line(&chars_of("1.")), None);
    assert_eq!(decode_line(&chars_of(".5")), None);
    assert_eq!(decode_line(&chars_of("+1")), None);
    assert_eq!(decode_line(&chars_of("1e")), None);
    assert_eq!(decode_line(&chars_of("--1")), None);
}

fn nested_arrays(depth: usize) -> Json {
    let mut v = jnum("1");
    for _ in 0..depth {
        v = Json::Arr(vec![v]);
    }
    v
}

#[test]
fn round_trip_deeply_nested_arrays() {
    let v = nested_arrays(60);
    let line = encode_value(&v);
    assert_eq!(decode_line(&line), Some(nested_arrays(60)));
}
