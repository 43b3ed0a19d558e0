use observatory::envelope::{enrich_payload, resolve_peer, CredReport, EventEnvelope, PeerInfo};
use serde_json::Value;

fn field<'a>(env: &'a EventEnvelope, key: &str) -> Option<&'a Value> {
    let mut found = None;
    for (k, v) in &env.fields {
        if k.as_slice() == key.as_bytes() {
            found = Some(v);
        }
    }
    found
}

#[test]
fn test_enrich_payload_tcp() {
    let payload = vec![(
        b"tool_name".to_vec(),
        Value::String("Bash".to_string()),
    )];
    let peer = PeerInfo::Tcp {
        client_addr: b"127.0.0.1".to_vec(),
    };
    let result = enrich_payload(payload, &b"PreToolUse".to_vec(), &peer);
    assert!(field(&result, "_ts").is_some());
    assert_eq!(
        field(&result, "_event").unwrap(),
        &Value::String("PreToolUse".to_string())
    );
    assert_eq!(
        field(&result, "_client").unwrap(),
        &Value::String("127.0.0.1".to_string())
    );
    assert_eq!(
        field(&result, "tool_name").unwrap(),
        &Value::String("Bash".to_string())
    );
    assert!(field(&result, "_peer_pid").is_none());
}

#[test]
fn test_enrich_payload_unix() {
    let payload = vec![(
        b"tool_name".to_vec(),
        Value::String("Read".to_string()),
    )];
    let peer = PeerInfo::Unix {
        pid: 1234,
        uid: 1000,
        gid: 1000,
    };
    let result = enrich_payload(payload, &b"PostToolUse".to_vec(), &peer);
    assert_eq!(
        field(&result, "_event").unwrap(),
        &Value::String("PostToolUse".to_string())
    );
    assert_eq!(field(&result, "_peer_pid").unwrap(), &Value::from(1234));
    assert_eq!(field(&result, "_peer_uid").unwrap(), &Value::from(1000));
    assert_eq!(field(&result, "_peer_gid").unwrap(), &Value::from(1000));
    assert_eq!(
        field(&result, "tool_name").unwrap(),
        &Value::String("Read".to_string())
    );
    assert!(field(&result, "_client").is_none());
}

#[test]
fn test_enrich_payload_unknown_peer() {
    let result = enrich_payload(Vec::new(), &b"Stop".to_vec(), &PeerInfo::Unknown);
    assert!(field(&result, "_client").is_none());
    assert!(field(&result, "_peer_pid").is_none());
    assert_eq!(
        field(&result, "_event").unwrap(),
        &Value::String("Stop".to_string())
    );
    assert_eq!(result.fields.len(), 2);
}

#[test]
fn test_enrich_metadata_comes_first() {
    let payload = vec![
        (b"zz".to_vec(), Value::from(1)),
        (b"aa".to_vec(), Value::from(2)),
    ];
    let peer = PeerInfo::Tcp {
        client_addr: b"10.0.0.1".to_vec(),
    };
    let result = enrich_payload(payload, &b"X".to_vec(), &peer);
    let keys: Vec<String> = result
        .fields
        .iter()
        .map(|(k, _)| String::from_utf8(k.clone()).unwrap())
        .collect();
    assert_eq!(keys, vec!["_ts", "_event", "_client", "zz", "aa"]);
}

#[test]
fn test_enrich_payload_overwrites_metadata_in_place() {
    // A payload field named like a reserved metadata field silently wins,
    // keeping the metadata position: a sharp edge kept as observed.
    let payload = vec![(b"_event".to_vec(), Value::String("Forged".to_string()))];
    let result = enrich_payload(payload, &b"Real".to_vec(), &PeerInfo::Unknown);
    assert_eq!(result.fields.len(), 2);
    assert_eq!(
        field(&result, "_event").unwrap(),
        &Value::String("Forged".to_string())
    );
    let keys: Vec<String> = result
        .fields
        .iter()
        .map(|(k, _)| String::from_utf8(k.clone()).unwrap())
        .collect();
    assert_eq!(keys, vec!["_ts", "_event"]);
}

#[test]
fn test_resolve_peer_full_credentials() {
    let peer = resolve_peer(&CredReport::Full {
        code: 0,
        pid: 4242,
        uid: 1000,
        gid: 100,
    });
    match peer {
        PeerInfo::Unix { pid, uid, gid } => {
            assert_eq!(pid, 4242);
            assert_eq!(uid, 1000);
            assert_eq!(gid, 100);
        }
        _ => panic!("expected local-peer provenance"),
    }
}

#[test]
fn test_resolve_peer_zero_pid_degrades() {
    let peer = resolve_peer(&CredReport::Full {
        code: 0,
        pid: 0,
        uid: 1,
        gid: 1,
    });
    assert!(matches!(peer, PeerInfo::Unknown));
}

#[test]
fn test_resolve_peer_failed_query_degrades() {
    let peer = resolve_peer(&CredReport::Full {
        code: -1,
        pid: 99,
        uid: 1,
        gid: 1,
    });
    assert!(matches!(peer, PeerInfo::Unknown));
    let peer = resolve_peer(&CredReport::Unsupported);
    assert!(matches!(peer, PeerInfo::Unknown));
}

#[test]
fn test_resolve_peer_user_group_only() {
    let peer = resolve_peer(&CredReport::UserGroup {
        code: 0,
        uid: 501,
        gid: 20,
    });
    match peer {
        PeerInfo::Unix { pid, uid, gid } => {
            assert_eq!(pid, -1);
            assert_eq!(uid, 501);
            assert_eq!(gid, 20);
        }
        _ => panic!("expected local-peer provenance"),
    }
}
