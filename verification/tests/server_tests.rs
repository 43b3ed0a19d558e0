use observatory::clock::get_timestamp;
use observatory::envelope::{resolve_peer, CredReport, PeerInfo};
use observatory::format::{OutputMode, YamlHighlighter};
use observatory::server::{
    handle_request, parse_socket_mode, resolve_port, resolve_socket_path, select_mode,
    DEFAULT_TCP_PORT,
};
use observatory::wire::parse_http_request;
use serde_json::Value;

fn run(raw: &[u8], peer: PeerInfo) -> (String, Option<Value>) {
    let req = parse_http_request(raw);
    let highlighter = YamlHighlighter::new();
    let out = handle_request(&req, &peer, OutputMode::Jsonl, &highlighter, false);
    let response = String::from_utf8(out.response).unwrap();
    let published = out
        .publish
        .map(|line| serde_json::from_slice::<Value>(&line).unwrap());
    (response, published)
}

#[test]
fn test_hook_over_network_publishes_enriched_event() {
    let raw = b"POST /hook?event=PreToolUse HTTP/1.1\r\nContent-Length: 20\r\n\r\n{\"tool_name\":\"Bash\"}";
    let peer = PeerInfo::Tcp {
        client_addr: b"127.0.0.1".to_vec(),
    };
    let (response, published) = run(raw, peer);
    assert!(response.starts_with("HTTP/1.1 200 OK\r\n"));
    assert!(response.ends_with("Content-Length: 0\r\n\r\n"));
    let event = published.unwrap();
    let obj = event.as_object().unwrap();
    assert_eq!(obj["_event"], Value::String("PreToolUse".to_string()));
    assert_eq!(obj["tool_name"], Value::String("Bash".to_string()));
    assert_eq!(obj["_client"], Value::String("127.0.0.1".to_string()));
    assert!(obj.contains_key("_ts"));
    assert!(!obj.contains_key("_peer_pid"));
    assert!(!obj.contains_key("_peer_uid"));
    assert!(!obj.contains_key("_peer_gid"));
}

#[test]
fn test_hook_over_local_socket_carries_kernel_identity() {
    let raw = b"POST /hook?event=PreToolUse HTTP/1.1\r\nContent-Length: 20\r\n\r\n{\"tool_name\":\"Bash\"}";
    let peer = resolve_peer(&CredReport::Full {
        code: 0,
        pid: 4242,
        uid: 1000,
        gid: 100,
    });
    let (response, published) = run(raw, peer);
    assert!(response.starts_with("HTTP/1.1 200 OK\r\n"));
    let event = published.unwrap();
    let obj = event.as_object().unwrap();
    assert_eq!(obj["_event"], Value::String("PreToolUse".to_string()));
    assert_eq!(obj["tool_name"], Value::String("Bash".to_string()));
    assert!(obj["_peer_pid"].as_i64().unwrap() > 0);
    assert_eq!(obj["_peer_uid"], Value::from(1000));
    assert_eq!(obj["_peer_gid"], Value::from(100));
    assert!(!obj.contains_key("_client"));
}

#[test]
fn test_health_returns_ok_and_publishes_nothing() {
    let raw = b"GET /health HTTP/1.1\r\nHost: localhost\r\n\r\n";
    let (response, published) = run(raw, PeerInfo::Unknown);
    assert_eq!(
        response,
        "HTTP/1.1 200 OK\r\nContent-Type: application/json\r\nContent-Length: 15\r\n\r\n{\"status\":\"ok\"}"
    );
    assert!(published.is_none());
}

#[test]
fn test_get_hook_is_not_found_and_publishes_nothing() {
    let raw = b"GET /hook?event=X HTTP/1.1\r\n\r\n";
    let (response, published) = run(raw, PeerInfo::Unknown);
    assert_eq!(
        response,
        "HTTP/1.1 404 Not Found\r\nContent-Type: application/json\r\nContent-Length: 0\r\n\r\n"
    );
    assert!(published.is_none());
}

#[test]
fn test_hook_without_event_defaults_to_unknown() {
    let raw = b"POST /hook HTTP/1.1\r\nContent-Length: 2\r\n\r\n{}";
    let (_, published) = run(raw, PeerInfo::Unknown);
    let event = published.unwrap();
    assert_eq!(event["_event"], Value::String("Unknown".to_string()));
}

#[test]
fn test_hook_with_invalid_json_wraps_raw_body() {
    let raw = b"POST /hook?event=Stop HTTP/1.1\r\nContent-Length: 8\r\n\r\nnot json";
    let (response, published) = run(raw, PeerInfo::Unknown);
    assert!(response.starts_with("HTTP/1.1 200 OK\r\n"));
    let event = published.unwrap();
    assert_eq!(event["_raw"], Value::String("not json".to_string()));
}

#[test]
fn test_hook_with_non_object_json_keeps_metadata_only() {
    let raw = b"POST /hook?event=Ping HTTP/1.1\r\nContent-Length: 7\r\n\r\n[1,2,3]";
    let (_, published) = run(raw, PeerInfo::Unknown);
    let event = published.unwrap();
    let obj = event.as_object().unwrap();
    assert_eq!(obj.len(), 2);
    assert_eq!(obj["_event"], Value::String("Ping".to_string()));
}

#[test]
fn test_get_timestamp_format() {
    let ts = String::from_utf8(get_timestamp()).unwrap();
    assert!(ts.contains("+00:00") || ts.ends_with("Z"));
    assert!(ts.contains("T"));
    assert!(ts.len() >= 20);
}

#[test]
fn test_resolve_port_env_override_wins_on_default() {
    assert_eq!(
        resolve_port(DEFAULT_TCP_PORT, &Some(b"9999".to_vec())),
        9999
    );
}

#[test]
fn test_resolve_port_explicit_wins_over_env() {
    assert_eq!(resolve_port(8080, &Some(b"9999".to_vec())), 8080);
}

#[test]
fn test_resolve_port_bad_env_ignored() {
    assert_eq!(
        resolve_port(DEFAULT_TCP_PORT, &Some(b"nonsense".to_vec())),
        DEFAULT_TCP_PORT
    );
    assert_eq!(
        resolve_port(DEFAULT_TCP_PORT, &Some(b"70000".to_vec())),
        DEFAULT_TCP_PORT
    );
    assert_eq!(resolve_port(DEFAULT_TCP_PORT, &None), DEFAULT_TCP_PORT);
}

#[test]
fn test_resolve_socket_path_rules() {
    let default = b"/tmp/observatory.sock".to_vec();
    let custom = b"/tmp/mine.sock".to_vec();
    let env = b"/tmp/env.sock".to_vec();
    assert_eq!(
        resolve_socket_path(default.clone(), Some(env.clone())),
        env
    );
    assert_eq!(
        resolve_socket_path(custom.clone(), Some(env.clone())),
        custom
    );
    assert_eq!(
        resolve_socket_path(default.clone(), Some(Vec::new())),
        default
    );
    assert_eq!(resolve_socket_path(default.clone(), None), default);
}

#[test]
fn test_parse_socket_mode() {
    assert_eq!(parse_socket_mode(&b"0660".to_vec()), 0o660);
    assert_eq!(parse_socket_mode(&b"777".to_vec()), 0o777);
    assert_eq!(parse_socket_mode(&b"0600".to_vec()), 0o600);
    // An all-zero mode string trims to nothing and falls back.
    assert_eq!(parse_socket_mode(&b"0".to_vec()), 0o660);
    assert_eq!(parse_socket_mode(&b"nonsense".to_vec()), 0o660);
}

#[test]
fn test_select_mode_precedence() {
    assert!(matches!(select_mode(false, false), OutputMode::Jsonl));
    assert!(matches!(select_mode(true, false), OutputMode::PrettyJson));
    assert!(matches!(select_mode(false, true), OutputMode::PrettyYaml));
    assert!(matches!(select_mode(true, true), OutputMode::PrettyYaml));
}
