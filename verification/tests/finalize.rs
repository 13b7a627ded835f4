use std::collections::BTreeMap;

use aether::billing::{BillingSnapshotStatus, BILLING_SNAPSHOT_SCHEMA_VERSION};
use aether::compact_synthesis::decode_compact_synthesis_encrypted_content;
use aether::finalize::{
    apply_compact_synthesis_to_client_body, gateway_report_from_surface, map_surface_error,
    maybe_build_local_stream_rewriter, surface_report_parts_from_gateway, AiSurfaceFinalizeError,
    GatewayError, GatewaySyncReportRequest,
};
use aether::compact_sse::iter_sse_json_payloads;
use aether::json::{Json, JsonMap, JsonNumber};
use base64::Engine;
use aether::report_context::{
    compact_synthesis_enabled_from_report_context, insert_compact_synthesis_report_context_fields,
    is_compact_operation_from_report_context,
};

fn to_json(value: &serde_json::Value) -> Json {
    match value {
        serde_json::Value::Null => Json::Null,
        serde_json::Value::Bool(b) => Json::Bool(*b),
        serde_json::Value::Number(n) => {
            if let Some(u) = n.as_u64() {
                Json::Number(JsonNumber::PosInt(u))
            } else if let Some(i) = n.as_i64() {
                Json::Number(JsonNumber::NegInt(i))
            } else {
                Json::Number(JsonNumber::Float(n.as_f64().unwrap_or(0.0).to_bits()))
            }
        }
        serde_json::Value::String(s) => Json::String(s.clone()),
        serde_json::Value::Array(items) => Json::Array(items.iter().map(to_json).collect()),
        serde_json::Value::Object(entries) => {
            let mut map = JsonMap::new();
            for (key, item) in entries {
                map.insert(key.clone(), to_json(item));
            }
            Json::Object(map)
        }
    }
}

fn parse(text: &str) -> Json {
    to_json(&serde_json::from_str::<serde_json::Value>(text).expect("valid JSON"))
}

fn no_compact_format(_format: &str) -> bool {
    false
}

fn compact_format(format: &str) -> bool {
    format == "openai:responses:compact"
}

fn report(context: Option<Json>) -> GatewaySyncReportRequest {
    let mut headers = BTreeMap::new();
    headers.insert("content-type".to_string(), "application/json".to_string());
    GatewaySyncReportRequest {
        trace_id: "trace-1".to_string(),
        report_kind: "openai_responses_sync_success".to_string(),
        report_context: context,
        status_code: 200,
        headers,
        body_json: Some(parse(r#"{"id": "resp_1", "output": [1, {"a": [true, null]}]}"#)),
        client_body_json: None,
        body_base64: Some("e30=".to_string()),
        telemetry: Some(parse(r#"{"elapsed_ms": 12}"#)),
    }
}

fn message_body(text: &str) -> Json {
    parse(&format!(
        r#"{{"id": "resp_1", "object": "response", "output": [{{"type": "message", "content": [{{"type": "output_text", "text": "{text}"}}]}}]}}"#
    ))
}

#[test]
fn status_names_are_snake_case() {
    assert_eq!(BillingSnapshotStatus::Complete.as_str(), "complete");
    assert_eq!(BillingSnapshotStatus::Incomplete.as_str(), "incomplete");
    assert_eq!(BillingSnapshotStatus::NoRule.as_str(), "no_rule");
    assert_eq!(BillingSnapshotStatus::Legacy.as_str(), "legacy");
    assert_eq!(BILLING_SNAPSHOT_SCHEMA_VERSION, "3.0");
}

#[test]
fn inserted_fields_read_back() {
    let mut map = JsonMap::new();
    map.insert("model".to_string(), Json::String("m".to_string()));
    insert_compact_synthesis_report_context_fields(&mut map, true, true);
    let context = Json::Object(map);
    assert!(compact_synthesis_enabled_from_report_context(Some(&context)));
    assert!(is_compact_operation_from_report_context(Some(&context), &no_compact_format));
    assert_eq!(context.get("model").and_then(Json::as_str), Some("m"));

    let mut off = JsonMap::new();
    insert_compact_synthesis_report_context_fields(&mut off, false, false);
    assert_eq!(off.len(), 1);
    let off = Json::Object(off);
    assert!(!compact_synthesis_enabled_from_report_context(Some(&off)));
    assert!(!is_compact_operation_from_report_context(Some(&off), &no_compact_format));
}

#[test]
fn enabled_flag_must_be_boolean_true() {
    assert!(!compact_synthesis_enabled_from_report_context(None));
    assert!(!compact_synthesis_enabled_from_report_context(Some(&parse(
        r#"{"codex_compact_synthesis_enabled": "true"}"#
    ))));
    assert!(!compact_synthesis_enabled_from_report_context(Some(&parse("[]"))));
}

#[test]
fn compact_operation_ignores_case_and_consults_the_client_format() {
    assert!(is_compact_operation_from_report_context(
        Some(&parse(r#"{"openai_responses_operation": "CoMpAcT"}"#)),
        &no_compact_format
    ));
    assert!(!is_compact_operation_from_report_context(
        Some(&parse(r#"{"openai_responses_operation": "create"}"#)),
        &no_compact_format
    ));
    assert!(is_compact_operation_from_report_context(
        Some(&parse(r#"{"client_api_format": "openai:responses:compact"}"#)),
        &compact_format
    ));
    assert!(!is_compact_operation_from_report_context(
        Some(&parse(r#"{"client_api_format": "openai:chat"}"#)),
        &compact_format
    ));
    assert!(!is_compact_operation_from_report_context(None, &compact_format));
}

#[test]
fn surface_parts_copy_the_report_and_back() {
    let payload = report(Some(parse(r#"{"model": "m"}"#)));
    let parts = surface_report_parts_from_gateway(&payload);
    assert_eq!(parts.trace_id, "trace-1");
    assert_eq!(parts.report_kind, payload.report_kind);
    assert_eq!(parts.report_context, payload.report_context);
    assert_eq!(parts.status_code, 200);
    assert_eq!(parts.headers, payload.headers);
    assert_eq!(parts.body_json, payload.body_json);
    assert_eq!(parts.client_body_json, None);
    assert_eq!(parts.body_base64.as_deref(), Some("e30="));

    let mut rewritten = parts;
    rewritten.status_code = 201;
    rewritten.client_body_json = Some(parse("{}"));
    let back = gateway_report_from_surface(&payload, rewritten);
    assert_eq!(back.status_code, 201);
    assert_eq!(back.client_body_json, Some(parse("{}")));
    assert_eq!(back.telemetry, payload.telemetry);
    assert_eq!(back.trace_id, payload.trace_id);
}

#[test]
fn surface_errors_become_internal_errors() {
    let error = map_surface_error(AiSurfaceFinalizeError {
        message: "bad frame".to_string(),
    });
    assert!(matches!(error, GatewayError::Internal(message) if message == "bad frame"));
}

#[test]
fn client_body_synthesis_follows_the_report_context() {
    let context = parse(
        r#"{"codex_compact_synthesis_enabled": true, "openai_responses_operation": "compact", "mapped_model": "gpt-mapped", "model": "gpt"}"#,
    );
    let mut body = message_body("summary text");
    apply_compact_synthesis_to_client_body(Some(&context), &mut body, &no_compact_format).unwrap();
    let output = body.get("output").and_then(Json::as_array).unwrap();
    assert_eq!(output.len(), 1);
    let content = output[0].get("encrypted_content").and_then(Json::as_str).unwrap();
    assert_eq!(
        decode_compact_synthesis_encrypted_content(content).as_deref(),
        Some("summary text")
    );
    let payload = content.strip_prefix("aether_compact_v1:").unwrap();
    let bytes = base64::engine::general_purpose::STANDARD.decode(payload).unwrap();
    let value: serde_json::Value = serde_json::from_slice(&bytes).unwrap();
    assert_eq!(value["model"], "gpt-mapped");

    let disabled = parse(r#"{"openai_responses_operation": "compact"}"#);
    let mut untouched = message_body("x");
    apply_compact_synthesis_to_client_body(Some(&disabled), &mut untouched, &no_compact_format)
        .unwrap();
    assert_eq!(untouched, message_body("x"));
    apply_compact_synthesis_to_client_body(None, &mut untouched, &compact_format).unwrap();
    assert_eq!(untouched, message_body("x"));
}

#[test]
fn client_body_synthesis_uses_unknown_model_and_reports_empty_summaries() {
    let context = parse(
        r#"{"codex_compact_synthesis_enabled": true, "client_api_format": "openai:responses:compact", "mapped_model": 7, "model": "gpt"}"#,
    );
    let mut body = message_body("s");
    apply_compact_synthesis_to_client_body(Some(&context), &mut body, &compact_format).unwrap();
    let content = body.get("output").and_then(Json::as_array).unwrap()[0]
        .get("encrypted_content")
        .and_then(Json::as_str)
        .unwrap()
        .to_string();
    let bytes = base64::engine::general_purpose::STANDARD
        .decode(content.strip_prefix("aether_compact_v1:").unwrap())
        .unwrap();
    let value: serde_json::Value = serde_json::from_slice(&bytes).unwrap();
    assert_eq!(value["model"], "unknown");

    let mut empty = parse(r#"{"id": "r", "output": []}"#);
    let err = apply_compact_synthesis_to_client_body(Some(&context), &mut empty, &compact_format)
        .unwrap_err();
    assert!(matches!(err, GatewayError::Internal(message) if message == "compact synthesis produced an empty summary"));
    assert_eq!(empty, parse(r#"{"id": "r", "output": []}"#));
}

#[test]
fn rewriter_is_built_only_when_there_is_work() {
    let plain = parse(r#"{"model": "m"}"#);
    assert!(maybe_build_local_stream_rewriter(None, true, &compact_format).is_none());
    assert!(maybe_build_local_stream_rewriter(Some(&plain), false, &compact_format).is_none());
    assert!(maybe_build_local_stream_rewriter(Some(&plain), true, &compact_format).is_some());
    let synthesis = parse(
        r#"{"codex_compact_synthesis_enabled": true, "openai_responses_operation": "compact"}"#,
    );
    assert!(maybe_build_local_stream_rewriter(Some(&synthesis), false, &compact_format).is_some());
}

#[test]
fn plain_rewriter_passes_bytes_through() {
    let plain = parse(r#"{"model": "m"}"#);
    let mut rewriter = maybe_build_local_stream_rewriter(Some(&plain), true, &compact_format).unwrap();
    assert_eq!(rewriter.push_chunk(b"data: 1\n\n".to_vec()), b"data: 1\n\n".to_vec());
    assert!(rewriter.held_bytes().is_empty());
    assert_eq!(rewriter.finish(b"tail".to_vec(), None).unwrap(), b"tail".to_vec());
}

#[test]
fn synthesis_rewriter_holds_the_stream_and_replaces_it() {
    let context = parse(
        r#"{"codex_compact_synthesis_enabled": true, "openai_responses_operation": "compact", "model": "m"}"#,
    );
    let mut rewriter =
        maybe_build_local_stream_rewriter(Some(&context), false, &no_compact_format).unwrap();
    let first = "event: response.output_text.delta\ndata: {\"type\":\"response.output_text.delta\",\"delta\":\"held \"}\n\n";
    let second = "data: {\"type\":\"response.output_text.delta\",\"delta\":\"summary\"}\n\n";
    assert!(rewriter.push_chunk(first.as_bytes().to_vec()).is_empty());
    assert!(rewriter.push_chunk(second.as_bytes().to_vec()).is_empty());
    assert_eq!(rewriter.held_bytes().len(), first.len() + second.len());
    let out = rewriter.finish(Vec::new(), None).unwrap();
    let text = String::from_utf8(out).unwrap();
    assert!(text.starts_with("event: response.created\n"));
    assert!(text.contains("\"type\":\"compaction\""));
    assert!(text.contains("resp_compact_compact"));
    assert!(rewriter.held_bytes().is_empty());
    let done: serde_json::Value =
        serde_json::from_str(&iter_sse_json_payloads(&text)[2]).unwrap();
    assert_eq!(
        decode_compact_synthesis_encrypted_content(done["item"]["encrypted_content"].as_str().unwrap())
            .as_deref(),
        Some("held summary")
    );
}

#[test]
fn synthesis_rewriter_reports_an_empty_stream_and_passes_other_bytes() {
    let context = parse(
        r#"{"codex_compact_synthesis_enabled": true, "openai_responses_operation": "compact"}"#,
    );
    let mut empty = maybe_build_local_stream_rewriter(Some(&context), false, &no_compact_format).unwrap();
    empty.push_chunk(b"data: {}\n\n".to_vec());
    let err = empty.finish(Vec::new(), None).unwrap_err();
    assert!(matches!(err, GatewayError::Internal(message) if message == "compact synthesis produced an empty summary from stream"));

    let mut native = maybe_build_local_stream_rewriter(Some(&context), false, &no_compact_format).unwrap();
    let stream = b"data: {\"item\":{\"type\":\"compaction\"}}\n\n".to_vec();
    assert!(native.push_chunk(stream.clone()).is_empty());
    assert_eq!(native.finish(Vec::new(), None).unwrap(), stream);

    let mut binary = maybe_build_local_stream_rewriter(Some(&context), false, &no_compact_format).unwrap();
    assert!(binary.push_chunk(vec![0xff, 0xfe]).is_empty());
    assert_eq!(binary.finish(vec![0x00], None).unwrap(), vec![0xff, 0xfe, 0x00]);
}

#[test]
fn report_round_trip_through_the_surface_keeps_the_report() {
    let payload = report(Some(parse(r#"{"model": "m", "nested": {"a": [1, 2]}}"#)));
    let back = gateway_report_from_surface(&payload, surface_report_parts_from_gateway(&payload));
    assert_eq!(back.trace_id, payload.trace_id);
    assert_eq!(back.report_kind, payload.report_kind);
    assert_eq!(back.report_context, payload.report_context);
    assert_eq!(back.status_code, payload.status_code);
    assert_eq!(back.headers, payload.headers);
    assert_eq!(back.body_json, payload.body_json);
    assert_eq!(back.client_body_json, payload.client_body_json);
    assert_eq!(back.body_base64, payload.body_base64);
    assert_eq!(back.telemetry, payload.telemetry);
}

#[test]
fn pushing_chunks_then_finishing_matches_one_push_of_all_bytes() {
    let context = parse(
        r#"{"codex_compact_synthesis_enabled": true, "openai_responses_operation": "compact"}"#,
    );
    let stream = "data: {\"type\":\"response.output_text.delta\",\"delta\":\"a\"}\n\ndata: {\"type\":\"response.output_text.delta\",\"delta\":\"b\"}\n\n";
    let (first, second) = stream.as_bytes().split_at(20);
    let mut split = maybe_build_local_stream_rewriter(Some(&context), false, &no_compact_format).unwrap();
    assert!(split.push_chunk(first.to_vec()).is_empty());
    assert!(split.push_chunk(second.to_vec()).is_empty());
    let mut whole = maybe_build_local_stream_rewriter(Some(&context), false, &no_compact_format).unwrap();
    assert!(whole.push_chunk(stream.as_bytes().to_vec()).is_empty());
    let summary_of = |bytes: Vec<u8>| {
        let text = String::from_utf8(bytes).unwrap();
        let done: serde_json::Value =
            serde_json::from_str(&iter_sse_json_payloads(&text)[2]).unwrap();
        decode_compact_synthesis_encrypted_content(done["item"]["encrypted_content"].as_str().unwrap())
    };
    assert_eq!(summary_of(split.finish(Vec::new(), None).unwrap()).as_deref(), Some("ab"));
    assert_eq!(summary_of(whole.finish(Vec::new(), None).unwrap()).as_deref(), Some("ab"));
    assert!(split.held_bytes().is_empty());
}
