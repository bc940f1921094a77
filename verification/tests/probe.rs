use frontmatter_mcp::intercept_probe;
use frontmatter_mcp::probe::probe_reply;
use frontmatter_mcp::value::Json;

fn parsed(bytes: &[u8]) -> serde_json::Value {
    serde_json::from_slice(bytes).unwrap()
}

#[test]
fn intercepts_agy_server_discover_probe() {
    let line = br#"{"jsonrpc":"2.0","id":1,"method":"server/discover","params":{}}"#;
    let reply = intercept_probe(line).expect("server/discover must be intercepted");
    assert!(reply.ends_with(b"\n"), "reply must be newline-framed");
    let v = parsed(&reply);
    assert_eq!(v["jsonrpc"], serde_json::Value::from("2.0"));
    assert_eq!(v["id"], serde_json::Value::from(1), "must echo the request id back");
    assert_eq!(v["error"]["code"], serde_json::Value::from(-32601), "must be Method not found");
}

#[test]
fn intercept_echoes_string_id() {
    let line = br#"{"jsonrpc":"2.0","id":"probe-7","method":"server/discover"}"#;
    let reply = intercept_probe(line).unwrap();
    let v = parsed(&reply);
    assert_eq!(v["id"], serde_json::Value::from("probe-7"));
}

#[test]
fn initialize_passes_through() {
    let line = br#"{"jsonrpc":"2.0","id":1,"method":"initialize","params":{}}"#;
    assert!(
        intercept_probe(line).is_none(),
        "initialize must never be swallowed"
    );
}

#[test]
fn normal_mcp_traffic_passes_through() {
    assert!(intercept_probe(br#"{"jsonrpc":"2.0","method":"notifications/initialized"}"#).is_none());
    assert!(intercept_probe(br#"{"jsonrpc":"2.0","id":2,"method":"tools/list"}"#).is_none());
    assert!(intercept_probe(br#"{"jsonrpc":"2.0","id":3,"method":"tools/call","params":{}}"#).is_none());
}

#[test]
fn non_json_and_empty_lines_pass_through() {
    assert!(intercept_probe(b"this is not json\n").is_none());
    assert!(intercept_probe(b"\n").is_none());
    assert!(intercept_probe(b"").is_none());
}

#[test]
fn reply_is_one_line() {
    let line = b"{\"id\":\"a\\nb\",\"method\":\"server/discover\"}\n";
    let reply = intercept_probe(line).unwrap();
    assert_eq!(
        reply,
        b"{\"error\":{\"code\":-32601,\"message\":\"Method not found\"},\"id\":\"a\\nb\",\"jsonrpc\":\"2.0\"}\n"
    );
}

#[test]
fn probes_without_id_pass_through() {
    assert!(intercept_probe(br#"{"method":"server/discover"}"#).is_none());
    assert!(intercept_probe(br#"{"method":"server/discover","id":null}"#).is_some());
    assert!(intercept_probe(br#"["server/discover"]"#).is_none());
    assert!(intercept_probe(br#"{"method":7,"id":1}"#).is_none());
}

#[test]
fn reply_to_a_value() {
    let text = |s: &str| Json::String(s.to_owned());
    let probe = |method: Json| {
        Json::Object(vec![("method".to_owned(), method), ("id".to_owned(), Json::Array(vec![Json::Null]))])
    };
    assert_eq!(
        probe_reply(probe(text("server/discover"))),
        Some(Json::Object(vec![
            ("jsonrpc".to_owned(), text("2.0")),
            ("id".to_owned(), Json::Array(vec![Json::Null])),
            (
                "error".to_owned(),
                Json::Object(vec![
                    ("code".to_owned(), Json::Number((-32601).into())),
                    ("message".to_owned(), text("Method not found")),
                ])
            ),
        ]))
    );
    assert_eq!(probe_reply(probe(text("server/discovery"))), None);
    assert_eq!(probe_reply(probe(Json::Null)), None);
    assert_eq!(probe_reply(Json::Null), None);
}
