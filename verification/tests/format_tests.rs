use observatory::envelope::EventEnvelope;
use observatory::format::{format_event, OutputMode, YamlHighlighter};
use serde_json::Value;

fn sample() -> EventEnvelope {
    EventEnvelope {
        fields: vec![
            (b"a".to_vec(), Value::from(1)),
            (b"b".to_vec(), Value::from(2)),
        ],
    }
}

#[test]
fn test_format_event_jsonl() {
    let data = sample();
    let highlighter = YamlHighlighter::new();
    let output = format_event(&data, OutputMode::Jsonl, &highlighter, false);
    let text = String::from_utf8(output).unwrap();
    assert_eq!(text.matches('\n').count(), 1);
    let parsed: Value = serde_json::from_str(text.trim()).unwrap();
    assert_eq!(parsed["a"], Value::from(1));
}

#[test]
fn test_format_event_pretty_json() {
    let data = EventEnvelope {
        fields: vec![(b"key".to_vec(), Value::String("value".to_string()))],
    };
    let highlighter = YamlHighlighter::new();
    let output = format_event(&data, OutputMode::PrettyJson, &highlighter, false);
    let text = String::from_utf8(output).unwrap();
    assert!(text.matches('\n').count() > 1);
    let parsed: Value = serde_json::from_str(text.trim()).unwrap();
    assert_eq!(parsed["key"], Value::String("value".to_string()));
}

#[test]
fn test_format_event_jsonl_preserves_field_order() {
    let data = EventEnvelope {
        fields: vec![
            (b"zz".to_vec(), Value::from(1)),
            (b"aa".to_vec(), Value::from(2)),
        ],
    };
    let highlighter = YamlHighlighter::new();
    let output = format_event(&data, OutputMode::Jsonl, &highlighter, false);
    let text = String::from_utf8(output).unwrap();
    assert_eq!(text, "{\"zz\":1,\"aa\":2}\n");
}

#[test]
fn test_format_event_yaml_piped_is_plain() {
    let data = EventEnvelope {
        fields: vec![(b"key".to_vec(), Value::String("value".to_string()))],
    };
    let highlighter = YamlHighlighter::new();
    let output = format_event(&data, OutputMode::PrettyYaml, &highlighter, false);
    let text = String::from_utf8(output).unwrap();
    assert!(text.starts_with("---\n"));
    assert!(text.contains("key: value"));
    assert!(!text.contains('\x1b'));
}

#[test]
fn test_format_event_yaml_interactive_is_decorated() {
    let data = EventEnvelope {
        fields: vec![(b"key".to_vec(), Value::String("value".to_string()))],
    };
    let highlighter = YamlHighlighter::new();
    let output = format_event(&data, OutputMode::PrettyYaml, &highlighter, true);
    let text = String::from_utf8(output).unwrap();
    assert!(text.starts_with("\x1b[90m---\x1b[0m\n"));
    assert!(text.contains("\x1b[1mkey:\x1b[22m value"));
}

#[test]
fn test_format_event_idempotent() {
    let data = sample();
    let highlighter = YamlHighlighter::new();
    for mode in [OutputMode::Jsonl, OutputMode::PrettyJson, OutputMode::PrettyYaml] {
        let first = format_event(&data, mode, &highlighter, true);
        let second = format_event(&data, mode, &highlighter, true);
        assert_eq!(first, second);
    }
}

#[test]
fn test_format_event_compact_round_trips() {
    let data = EventEnvelope {
        fields: vec![
            (b"_event".to_vec(), Value::String("PreToolUse".to_string())),
            (b"_peer_pid".to_vec(), Value::from(1234)),
            (b"note".to_vec(), Value::String("a \"quoted\" text".to_string())),
        ],
    };
    let highlighter = YamlHighlighter::new();
    let output = format_event(&data, OutputMode::Jsonl, &highlighter, false);
    let parsed: Value = serde_json::from_slice(&output).unwrap();
    let obj = parsed.as_object().unwrap();
    assert_eq!(obj.len(), data.fields.len());
    for (k, v) in &data.fields {
        let key = String::from_utf8(k.clone()).unwrap();
        assert_eq!(obj.get(&key).unwrap(), v);
    }
}

#[test]
fn test_highlight_bolds_mapping_keys() {
    let h = YamlHighlighter::new();
    let out = h.highlight(&b"key: value\n".to_vec());
    assert_eq!(
        String::from_utf8(out).unwrap(),
        "\x1b[1mkey:\x1b[22m value\n"
    );
}

#[test]
fn test_highlight_keeps_indentation() {
    let h = YamlHighlighter::new();
    let out = h.highlight(&b"  inner: 1\n".to_vec());
    assert_eq!(
        String::from_utf8(out).unwrap(),
        "\x1b[1m  inner:\x1b[22m 1\n"
    );
}

#[test]
fn test_highlight_skips_list_items_and_comments() {
    let h = YamlHighlighter::new();
    let out = h.highlight(&b"- item\n# note\n".to_vec());
    assert_eq!(String::from_utf8(out).unwrap(), "- item\n# note\n");
}

#[test]
fn test_highlight_bolds_bare_colon_line() {
    let h = YamlHighlighter::new();
    let out = h.highlight(&b"parent:\n".to_vec());
    assert_eq!(String::from_utf8(out).unwrap(), "\x1b[1mparent:\x1b[22m\n");
}

#[test]
fn test_highlight_passes_plain_lines_through() {
    let h = YamlHighlighter::new();
    let out = h.highlight(&b"just text\n\n".to_vec());
    assert_eq!(String::from_utf8(out).unwrap(), "just text\n\n");
}
