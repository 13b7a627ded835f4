use aether::codex_config::{
    codex_compact_synthesis_enabled, remove_codex_compact_synthesis_config,
    set_codex_compact_synthesis_enabled,
};
use aether::json::{Json, JsonMap, JsonNumber};

fn to_json(value: &serde_json::Value) -> Json {
    match value {
        serde_json::Value::Null => Json::Null,
        serde_json::Value::Bool(b) => Json::Bool(*b),
        serde_json::Value::Number(n) => {
            if let Some(u) = n.as_u64() {
                Json::Number(JsonNumber::PosInt(u))
            } else if let Some(i) = n.as_i64() {
                Json::Number(JsonNumber::NegInt(i))
            } else {
                Json::Number(JsonNumber::Float(n.as_f64().unwrap_or(0.0).to_bits()))
            }
        }
        serde_json::Value::String(s) => Json::String(s.clone()),
        serde_json::Value::Array(items) => Json::Array(items.iter().map(to_json).collect()),
        serde_json::Value::Object(entries) => {
            let mut map = JsonMap::new();
            for (key, item) in entries {
                map.insert(key.clone(), to_json(item));
            }
            Json::Object(map)
        }
    }
}

fn parse(text: &str) -> Json {
    to_json(&serde_json::from_str::<serde_json::Value>(text).expect("valid JSON"))
}

fn object(text: &str) -> JsonMap {
    match parse(text) {
        Json::Object(map) => map,
        _ => panic!("not an object"),
    }
}

#[test]
fn defaults_to_disabled() {
    assert!(!codex_compact_synthesis_enabled(None));
    assert!(!codex_compact_synthesis_enabled(Some(&parse("{}"))));
    assert!(!codex_compact_synthesis_enabled(Some(&parse(
        r#"{"codex": {"fingerprint_convergence_enabled": true}}"#
    ))));
    assert!(!codex_compact_synthesis_enabled(Some(&parse(
        r#"{"codex": {"compact_synthesis_enabled": false}}"#
    ))));
}

#[test]
fn reads_enabled_flag_for_any_provider_config() {
    assert!(codex_compact_synthesis_enabled(Some(&parse(
        r#"{"codex": {"compact_synthesis_enabled": true}}"#
    ))));
}

#[test]
fn set_and_remove_roundtrip() {
    let mut config = JsonMap::new();
    set_codex_compact_synthesis_enabled(&mut config, true);
    assert_eq!(
        config.get("codex").and_then(|v| v.get("compact_synthesis_enabled")),
        Some(&Json::Bool(true))
    );
    remove_codex_compact_synthesis_config(&mut config);
    assert!(config.is_empty());
}

#[test]
fn set_keeps_sibling_keys_and_remove_keeps_nonempty_namespace() {
    let mut config = object(r#"{"codex": {"fingerprint_convergence_enabled": true}, "other": 1}"#);
    set_codex_compact_synthesis_enabled(&mut config, false);
    let wrapped = Json::Object(config);
    assert!(!codex_compact_synthesis_enabled(Some(&wrapped)));
    let mut config = match wrapped {
        Json::Object(map) => map,
        _ => unreachable!(),
    };
    set_codex_compact_synthesis_enabled(&mut config, true);
    assert_eq!(config.len(), 2);
    remove_codex_compact_synthesis_config(&mut config);
    assert_eq!(
        config.get("codex"),
        Some(&parse(r#"{"fingerprint_convergence_enabled": true}"#))
    );
    assert_eq!(config.get("other"), Some(&Json::Number(JsonNumber::PosInt(1))));
}

#[test]
fn non_object_namespace_is_left_alone() {
    let mut config = object(r#"{"codex": "off"}"#);
    set_codex_compact_synthesis_enabled(&mut config, true);
    assert_eq!(config.get("codex"), Some(&Json::String("off".to_string())));
    remove_codex_compact_synthesis_config(&mut config);
    assert_eq!(config.get("codex"), Some(&Json::String("off".to_string())));
}
