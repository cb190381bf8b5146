use api_formatter::respond;
use api_formatter::to_json_text;
use api_formatter::transform;
use api_formatter::transport_reply;
use api_formatter::upstream_uri;
use api_formatter::JsonNum;
use api_formatter::JsonValue;
use api_formatter::Policy;

fn off() -> Policy {
    Policy { rescale: false }
}

fn headers() -> Vec<(String, Vec<u8>)> {
    vec![
        (String::from("content-type"), b"application/json".to_vec()),
        (String::from("content-length"), b"38".to_vec()),
    ]
}

#[test]
fn balance_object_is_formatted() {
    let body = br#"{"balance": 1234567, "label": "ok"}"#.to_vec();
    let reply = respond(200, headers(), &body, off());
    assert_eq!(reply.status, 200);
    assert_eq!(reply.body, r#"{"balance":"1,234,567","label":"ok"}"#);
}

#[test]
fn content_length_header_is_dropped() {
    let body = br#"{"n": 1}"#.to_vec();
    let reply = respond(200, headers(), &body, off());
    assert_eq!(reply.headers.len(), 1);
    assert_eq!(reply.headers[0].0, "content-type");
    assert_eq!(reply.headers[0].1, b"application/json".to_vec());
}

#[test]
fn content_length_any_case_is_dropped() {
    let hs = vec![(String::from("Content-Length"), b"7".to_vec())];
    let reply = respond(200, hs, &br#"{}"#.to_vec(), off());
    assert_eq!(reply.headers.len(), 0);
}

#[test]
fn plain_text_body_is_rejected() {
    let body = b"hello, plain text".to_vec();
    let reply = respond(200, headers(), &body, off());
    assert_eq!(reply.status, 400);
    assert_eq!(
        reply.body,
        "API does not have a json output. This proxy formatter supports only API with json output."
    );
    assert_eq!(reply.headers.len(), 0);
}

#[test]
fn empty_body_is_rejected() {
    let reply = respond(200, headers(), &Vec::new(), off());
    assert_eq!(reply.status, 400);
}

#[test]
fn transport_failure_is_server_error() {
    let reply = transport_reply(String::from("error sending request: connection refused"));
    assert_eq!(reply.status, 500);
    assert_eq!(reply.body, "error sending request: connection refused");
    assert_eq!(reply.headers.len(), 0);
}

#[test]
fn nested_structure_is_preserved() {
    let body = br#"{"a":[1,2,{"b":3}]}"#.to_vec();
    let reply = respond(200, Vec::new(), &body, off());
    assert_eq!(reply.status, 200);
    assert_eq!(reply.body, r#"{"a":["1","2",{"b":"3"}]}"#);
}

#[test]
fn upstream_status_is_kept() {
    let reply = respond(503, Vec::new(), &br#"{"err": 1}"#.to_vec(), off());
    assert_eq!(reply.status, 503);
    assert_eq!(reply.body, r#"{"err":"1"}"#);
}

#[test]
fn number_representations_are_told_apart() {
    let body = br#"[1,-2,18446744073709551615,2.5]"#.to_vec();
    let reply = respond(200, Vec::new(), &body, off());
    assert_eq!(reply.body, r#"["1","-2","18,446,744,073,709,551,615","2.500"]"#);
}

#[test]
fn rescaling_applies_through_the_pipeline() {
    let body = br#"{"big": 2000000000000, "alsobig": 2e12, "small": 7}"#.to_vec();
    let reply = respond(200, Vec::new(), &body, Policy { rescale: true });
    assert_eq!(reply.body, r#"{"big":"2.000","alsobig":"2.000","small":"7"}"#);
}

#[test]
fn string_escapes_survive_the_round_trip() {
    let body = b"{\"s\":\"a\\\"b\\nc\"}".to_vec();
    let reply = respond(200, Vec::new(), &body, off());
    assert_eq!(reply.status, 200);
    assert_eq!(reply.body, "{\"s\":\"a\\\"b\\nc\"}");
}

#[test]
fn scalar_documents_are_formatted() {
    assert_eq!(respond(200, Vec::new(), &b"42".to_vec(), off()).body, "\"42\"");
    assert_eq!(respond(200, Vec::new(), &b"null".to_vec(), off()).body, "null");
    assert_eq!(respond(200, Vec::new(), &b"true".to_vec(), off()).body, "true");
    assert_eq!(respond(200, Vec::new(), &b"\"x\"".to_vec(), off()).body, "\"x\"");
}

#[test]
fn empty_containers_pass_through() {
    assert_eq!(respond(200, Vec::new(), &b"{}".to_vec(), off()).body, "{}");
    assert_eq!(respond(200, Vec::new(), &b"[]".to_vec(), off()).body, "[]");
}

#[test]
fn deeply_nested_body_is_rejected() {
    let mut body: Vec<u8> = Vec::new();
    for _ in 0..100 {
        body.push(b'[');
    }
    for _ in 0..100 {
        body.push(b']');
    }
    let reply = respond(200, Vec::new(), &body, off());
    assert_eq!(reply.status, 400);
    assert_eq!(reply.body, "Response body is nested too deeply to be formatted.");
}

#[test]
fn transforming_twice_changes_nothing() {
    let v = JsonValue::Obj(vec![
        (String::from("n"), JsonValue::Num(JsonNum::Int(1234567))),
        (String::from("s"), JsonValue::Str(String::from("1234567"))),
        (
            String::from("a"),
            JsonValue::Arr(vec![
                JsonValue::Num(JsonNum::UInt(5)),
                JsonValue::Num(JsonNum::Float(String::from("2.5"))),
            ]),
        ),
    ]);
    let once = transform(&v, off()).ok().expect("numbers from JSON always format");
    let twice = transform(&once, off()).ok().expect("a formatted tree always formats");
    let first = to_json_text(&once);
    assert_eq!(first, r#"{"n":"1,234,567","s":"1234567","a":["5","2.500"]}"#);
    assert_eq!(to_json_text(&twice), first);
}

#[test]
fn strings_are_never_reparsed_as_numbers() {
    let v = JsonValue::Str(String::from("1,234,567"));
    let t = transform(&v, off()).ok().expect("a string transforms");
    assert_eq!(to_json_text(&t), "\"1,234,567\"");
}

#[test]
fn bad_float_text_is_a_format_error() {
    let v = JsonValue::Num(JsonNum::Float(String::from("not a number")));
    assert!(transform(&v, off()).is_err());
}

#[test]
fn join_collapses_duplicate_separator() {
    assert_eq!(
        upstream_uri("https://127.0.0.1:8081/", "/balance?q=1"),
        "https://127.0.0.1:8081/balance?q=1"
    );
}

#[test]
fn join_keeps_single_separators() {
    assert_eq!(upstream_uri("http://host", "/a/b"), "http://host/a/b");
    assert_eq!(upstream_uri("http://host/api/", "x"), "http://host/api/x");
    assert_eq!(upstream_uri("http://host/api", "/x//y"), "http://host/api/x//y");
}
