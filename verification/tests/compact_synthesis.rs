use aether::compact_sse::{
    build_compact_synthesis_sse, extract_response_id_from_sse, extract_summary_text_from_sse,
    iter_sse_json_payloads, maybe_rewrite_responses_sse_for_compact_synthesis,
    responses_sse_has_compaction_item,
};
use aether::compact_synthesis::{
    build_compaction_output_item, decode_compact_synthesis_encrypted_content,
    encode_compact_synthesis_encrypted_content, extract_summary_text_from_responses_output,
    prepare_compact_synthesis_provider_request, responses_output_has_compaction_item,
    synthesize_compaction_client_response, AETHER_COMPACT_SYNTHESIS_PREFIX,
    COMPACT_SUMMARIZATION_PROMPT,
};
use aether::json::{Json, JsonMap, JsonNumber};
use base64::Engine;

fn to_json(value: &serde_json::Value) -> Json {
    match value {
        serde_json::Value::Null => Json::Null,
        serde_json::Value::Bool(b) => Json::Bool(*b),
        serde_json::Value::Number(n) => {
            if let Some(u) = n.as_u64() {
                Json::Number(JsonNumber::PosInt(u))
            } else if let Some(i) = n.as_i64() {
                Json::Number(JsonNumber::NegInt(i))
            } else {
                Json::Number(JsonNumber::Float(n.as_f64().unwrap_or(0.0).to_bits()))
            }
        }
        serde_json::Value::String(s) => Json::String(s.clone()),
        serde_json::Value::Array(items) => Json::Array(items.iter().map(to_json).collect()),
        serde_json::Value::Object(entries) => {
            let mut map = JsonMap::new();
            for (key, item) in entries {
                map.insert(key.clone(), to_json(item));
            }
            Json::Object(map)
        }
    }
}

fn parse(text: &str) -> Json {
    to_json(&serde_json::from_str::<serde_json::Value>(text).expect("valid JSON"))
}

fn at<'a>(value: &'a Json, key: &str) -> &'a Json {
    value.get(key).expect("key present")
}

fn item(value: &Json, index: usize) -> &Json {
    &value.as_array().expect("array")[index]
}

fn text_of(value: &Json) -> &str {
    value.as_str().expect("string")
}

fn items(value: &Json) -> &Vec<Json> {
    value.as_array().expect("array")
}

#[test]
fn encode_decode_roundtrip() {
    let encoded = encode_compact_synthesis_encrypted_content("hello summary", "gpt-test");
    assert!(encoded.starts_with(AETHER_COMPACT_SYNTHESIS_PREFIX));
    assert_eq!(
        decode_compact_synthesis_encrypted_content(&encoded).as_deref(),
        Some("hello summary")
    );
    assert!(decode_compact_synthesis_encrypted_content("openai-opaque").is_none());
}

#[test]
fn synthesizes_exactly_one_compaction_item() {
    let mut body = parse(
        r#"{
            "id": "resp_1",
            "object": "response",
            "status": "completed",
            "output": [
                {
                    "type": "message",
                    "role": "assistant",
                    "content": [{"type": "output_text", "text": "Condensed thread."}]
                },
                {
                    "type": "reasoning",
                    "summary": [{"type": "summary_text", "text": "extra notes"}]
                }
            ]
        }"#,
    );
    assert!(synthesize_compaction_client_response(&mut body, "m", true, true).unwrap());
    assert_eq!(items(at(&body, "output")).len(), 1);
    assert_eq!(text_of(at(item(at(&body, "output"), 0), "type")), "compaction");
    let encrypted = text_of(at(item(at(&body, "output"), 0), "encrypted_content"));
    assert_eq!(
        decode_compact_synthesis_encrypted_content(encrypted).as_deref(),
        Some("Condensed thread.\n\nextra notes")
    );
}

#[test]
fn leaves_native_compaction_untouched() {
    let mut body = parse(
        r#"{
            "id": "resp_1",
            "output": [{
                "type": "compaction",
                "encrypted_content": "openai-native"
            }]
        }"#,
    );
    assert!(!synthesize_compaction_client_response(&mut body, "m", true, true).unwrap());
    assert_eq!(
        text_of(at(item(at(&body, "output"), 0), "encrypted_content")),
        "openai-native"
    );
}

#[test]
fn expands_synthetic_history_into_instructions() {
    let encrypted = encode_compact_synthesis_encrypted_content("prior summary", "m");
    let mut body = parse(&format!(
        r#"{{
            "instructions": "system",
            "input": [
                {{"type": "compaction", "encrypted_content": "{encrypted}"}},
                {{"type": "message", "role": "user", "content": [{{"type": "input_text", "text": "hi"}}]}}
            ],
            "tools": [{{"type": "function", "name": "x"}}]
        }}"#
    ));
    assert!(prepare_compact_synthesis_provider_request(&mut body, true, true));
    assert!(text_of(at(&body, "instructions")).contains("prior summary"));
    assert!(!text_of(at(&body, "instructions")).contains("CONTEXT CHECKPOINT COMPACTION"));
    // prior user message + Codex local-compaction summarization user message
    assert_eq!(items(at(&body, "input")).len(), 2);
    assert_eq!(
        at(item(at(item(at(&body, "input"), 1), "content"), 0), "text").as_str(),
        Some(COMPACT_SUMMARIZATION_PROMPT)
    );
    assert!(body.get("tools").is_none());
}

#[test]
fn rewrites_sse_without_compaction_into_single_item_stream() {
    let sse = [
        "event: response.created\n",
        "data: {\"type\":\"response.created\",\"response\":{\"id\":\"resp_x\",\"object\":\"response\",\"model\":\"m\",\"status\":\"in_progress\",\"output\":[]}}\n\n",
        "event: response.output_text.delta\n",
        "data: {\"type\":\"response.output_text.delta\",\"delta\":\"hello summary\"}\n\n",
        "event: response.completed\n",
        "data: {\"type\":\"response.completed\",\"response\":{\"id\":\"resp_x\",\"status\":\"completed\",\"output\":[]}}\n\n",
    ]
    .concat();
    let rewritten = maybe_rewrite_responses_sse_for_compact_synthesis(&sse, "m", true, true, None)
        .expect("rewrite")
        .expect("should rewrite");
    assert!(rewritten.contains("\"type\":\"compaction\""));
    assert!(rewritten.contains(AETHER_COMPACT_SYNTHESIS_PREFIX));
    assert!(rewritten.contains("response.completed"));
}

#[test]
fn strips_compaction_trigger_and_appends_summarization_user_message() {
    let mut body = parse(
        r#"{
            "instructions": "system",
            "input": [
                {"type": "message", "role": "user", "content": [{"type": "input_text", "text": "hi"}]},
                {"type": "compaction_trigger"}
            ],
            "tools": [{"type": "function", "name": "x"}]
        }"#,
    );
    assert!(prepare_compact_synthesis_provider_request(&mut body, true, true));
    assert!(body.get("tools").is_none());
    assert!(items(at(&body, "input"))
        .iter()
        .all(|entry| entry.get("type").and_then(Json::as_str) != Some("compaction_trigger")));
    assert_eq!(at(&body, "instructions").as_str(), Some("system"));
    assert!(!text_of(at(&body, "instructions")).contains("Summarize the conversation so far"));
    let last = items(at(&body, "input")).last().unwrap();
    assert_eq!(text_of(at(last, "role")), "user");
    assert_eq!(
        at(item(at(last, "content"), 0), "text").as_str(),
        Some(COMPACT_SUMMARIZATION_PROMPT)
    );
    assert!(text_of(at(item(at(last, "content"), 0), "text")).contains("CONTEXT CHECKPOINT COMPACTION"));
    // Idempotent: second prepare must not double-append the prompt.
    assert!(!prepare_compact_synthesis_provider_request(&mut body, true, true));
    assert_eq!(items(at(&body, "input")).len(), 2);
}

#[test]
fn native_encrypted_blob_is_not_decoded() {
    assert!(decode_compact_synthesis_encrypted_content("gAAAA-openai-native-ciphertext").is_none());
}

#[test]
fn sse_compaction_detection_parses_events_not_raw_substring() {
    let decoy = [
        "event: response.output_text.delta\n",
        "data: {\"type\":\"response.output_text.delta\",\"delta\":\"mention type:compaction in text\"}\n\n",
        "event: response.completed\n",
        "data: {\"type\":\"response.completed\",\"response\":{\"id\":\"resp_x\",\"output\":[]}}\n\n",
    ]
    .concat();
    let rewritten = maybe_rewrite_responses_sse_for_compact_synthesis(&decoy, "m", true, true, None)
        .expect("rewrite")
        .expect("should rewrite despite decoy substring");
    assert!(rewritten.contains("\"type\":\"compaction\""));
    assert!(rewritten.contains(AETHER_COMPACT_SYNTHESIS_PREFIX));
}

#[test]
fn empty_summary_is_committed_synthesis_failure() {
    let mut body = parse(r#"{"id": "resp_empty", "output": []}"#);
    let err = synthesize_compaction_client_response(&mut body, "m", true, true)
        .expect_err("empty summary must fail synthesis");
    assert!(err.to_lowercase().contains("empty"));
}

#[test]
fn synthesis_off_or_not_compact_changes_nothing() {
    let text = r#"{"id": "r", "output": [{"type": "message", "content": [{"type": "output_text", "text": "x"}]}]}"#;
    let mut body = parse(text);
    assert!(!synthesize_compaction_client_response(&mut body, "m", false, true).unwrap());
    assert_eq!(body, parse(text));
    assert!(!synthesize_compaction_client_response(&mut body, "m", true, false).unwrap());
    assert_eq!(body, parse(text));
    let mut not_object = parse("[1, 2]");
    assert!(!synthesize_compaction_client_response(&mut not_object, "m", true, true).unwrap());
}

#[test]
fn synthesized_item_is_named_after_the_response_and_marks_completion() {
    let mut body = parse(
        r#"{"id": "resp_9", "object": "response", "status": "in_progress",
            "output": [{"type": "message", "content": [{"type": "output_text", "text": " done "}]}]}"#,
    );
    assert!(synthesize_compaction_client_response(&mut body, "m", true, true).unwrap());
    assert_eq!(text_of(at(item(at(&body, "output"), 0), "id")), "resp_9_compact");
    assert_eq!(text_of(at(&body, "status")), "completed");
    assert_eq!(text_of(at(&body, "object")), "response");
    let mut anonymous = parse(
        r#"{"object": "response.compaction", "output": [{"type": "reasoning", "summary": [{"text": "s"}]}]}"#,
    );
    assert!(synthesize_compaction_client_response(&mut anonymous, "m", true, true).unwrap());
    assert_eq!(text_of(at(item(at(&anonymous, "output"), 0), "id")), "resp_compact_compact");
    assert_eq!(text_of(at(&anonymous, "object")), "response.compaction");
    assert!(anonymous.get("status").is_none());
}

#[test]
fn decoding_trims_and_rejects_blank_or_foreign_envelopes() {
    let encoded = encode_compact_synthesis_encrypted_content("  padded  ", "m");
    assert_eq!(
        decode_compact_synthesis_encrypted_content(&encoded).as_deref(),
        Some("padded")
    );
    let blank = encode_compact_synthesis_encrypted_content("   ", "m");
    assert!(decode_compact_synthesis_encrypted_content(&blank).is_none());
    assert!(decode_compact_synthesis_encrypted_content("aether_compact_v1:not base64!").is_none());
    // "{}" in Base64: a JSON object without a summary.
    assert!(decode_compact_synthesis_encrypted_content("aether_compact_v1:e30=").is_none());
}

#[test]
fn envelope_payload_is_base64_json_with_summary_and_model() {
    let encoded = encode_compact_synthesis_encrypted_content("sum", "gpt-x");
    let payload = encoded.strip_prefix(AETHER_COMPACT_SYNTHESIS_PREFIX).unwrap();
    let bytes = base64::engine::general_purpose::STANDARD.decode(payload).unwrap();
    let value: serde_json::Value = serde_json::from_slice(&bytes).unwrap();
    assert_eq!(value["summary"], "sum");
    assert_eq!(value["model"], "gpt-x");
    assert!(value["ts"].is_u64());
}

#[test]
fn output_compaction_item_needs_non_blank_content() {
    assert!(responses_output_has_compaction_item(&[parse(
        r#"{"type": "compaction", "encrypted_content": "x"}"#
    )]));
    assert!(!responses_output_has_compaction_item(&[parse(
        r#"{"type": "compaction", "encrypted_content": "  "}"#
    )]));
    assert!(!responses_output_has_compaction_item(&[parse(r#"{"type": "compaction"}"#)]));
    assert!(!responses_output_has_compaction_item(&[parse(
        r#"{"type": "message", "encrypted_content": "x"}"#
    )]));
    assert!(!responses_output_has_compaction_item(&[]));
}

#[test]
fn summary_text_collects_messages_reasoning_and_loose_text() {
    let output = [
        parse(r#"{"type": "message", "content": [{"type": "text", "text": " a "}, {"type": "input_text", "text": "skipped"}]}"#),
        parse(r#"{"type": "message", "text": "b"}"#),
        parse(r#"{"type": "reasoning", "summary": [{"text": "c"}, {"text": "  "}]}"#),
        parse(r#"{"type": "other", "text": " d"}"#),
        parse(r#"{"type": "other"}"#),
    ];
    assert_eq!(extract_summary_text_from_responses_output(&output), "a\n\nb\n\nc\n\nd");
    assert_eq!(extract_summary_text_from_responses_output(&[]), "");
}

#[test]
fn compaction_output_item_has_id_type_and_content() {
    let made = build_compaction_output_item("enc", "resp_1");
    assert_eq!(text_of(at(&made, "id")), "resp_1_compact");
    assert_eq!(text_of(at(&made, "type")), "compaction");
    assert_eq!(text_of(at(&made, "encrypted_content")), "enc");
}

#[test]
fn sse_payloads_skip_blank_and_done_lines() {
    let sse = "event: x\ndata: {\"a\":1}\n\ndata:   \ndata: [DONE]\r\ndata:{\"b\":2}\r\nnot data\n";
    assert_eq!(
        iter_sse_json_payloads(sse),
        vec!["{\"a\":1}".to_string(), "{\"b\":2}".to_string()]
    );
}

#[test]
fn sse_compaction_item_is_found_in_items_and_responses() {
    assert!(responses_sse_has_compaction_item(
        "data: {\"type\":\"response.output_item.done\",\"item\":{\"type\":\"compaction\"}}\n"
    ));
    assert!(responses_sse_has_compaction_item(
        "data: {\"response\":{\"output\":[{\"type\":\"compaction\",\"encrypted_content\":\"e\"}]}}\n"
    ));
    assert!(responses_sse_has_compaction_item(
        "data: {\"output\":[{\"type\":\"compaction\",\"encrypted_content\":\"e\"}]}\n"
    ));
    assert!(!responses_sse_has_compaction_item(
        "data: {\"output\":[{\"type\":\"compaction\",\"encrypted_content\":\" \"}]}\n"
    ));
    assert!(!responses_sse_has_compaction_item("data: not json with \"compaction\"\n"));
}

#[test]
fn sse_summary_prefers_done_text_and_joins_deltas() {
    let deltas = "data: {\"type\":\"response.output_text.delta\",\"delta\":\"he\"}\n\
                  data: {\"type\":\"response.output_text.delta\",\"delta\":{\"text\":\"llo\"}}\n";
    assert_eq!(extract_summary_text_from_sse(deltas), "hello");
    let done = "data: {\"type\":\"response.output_text.delta\",\"delta\":\"x\"}\n\
                data: {\"type\":\"response.output_text.done\",\"text\":\"final\"}\n\
                data: {\"type\":\"response.output_text.delta\",\"delta\":\"y\"}\n";
    assert_eq!(extract_summary_text_from_sse(done), "final");
    let items = "data: {\"type\":\"response.output_item.done\",\"item\":{\"type\":\"reasoning\",\"summary\":[{\"text\":\"r\"}]}}\n";
    assert_eq!(extract_summary_text_from_sse(items), "r");
}

#[test]
fn sse_response_id_comes_from_the_first_event_that_names_one() {
    let sse = "data: {\"id\":\"\"}\ndata: {\"response\":{\"id\":\"resp_a\"}}\ndata: {\"id\":\"resp_b\"}\n";
    assert_eq!(extract_response_id_from_sse(sse).as_deref(), Some("resp_a"));
    assert_eq!(extract_response_id_from_sse("data: {}\n"), None);
}

#[test]
fn synthesized_stream_has_four_events_around_one_item() {
    let sse = build_compact_synthesis_sse("resp_1", "m", "enc");
    let events: Vec<&str> = sse
        .lines()
        .filter_map(|line| line.strip_prefix("event: "))
        .collect();
    assert_eq!(
        events,
        vec![
            "response.created",
            "response.output_item.added",
            "response.output_item.done",
            "response.completed"
        ]
    );
    let payloads = iter_sse_json_payloads(&sse);
    assert_eq!(payloads.len(), 4);
    let completed: serde_json::Value = serde_json::from_str(&payloads[3]).unwrap();
    assert_eq!(completed["response"]["id"], "resp_1");
    assert_eq!(completed["response"]["status"], "completed");
    assert_eq!(completed["response"]["output"][0]["id"], "resp_1_compact");
    assert_eq!(completed["response"]["output"][0]["encrypted_content"], "enc");
    assert_eq!(completed["response"]["usage"]["total_tokens"], 0);
    let added: serde_json::Value = serde_json::from_str(&payloads[1]).unwrap();
    assert_eq!(added["item"]["status"], "in_progress");
    assert_eq!(added["output_index"], 0);
}

#[test]
fn rewrite_prefers_aggregated_output_and_reports_empty_streams() {
    let sse = "data: {\"type\":\"response.output_text.delta\",\"delta\":\"from stream\"}\n";
    let aggregated = parse(
        r#"{"output": [{"type": "message", "content": [{"type": "output_text", "text": "from aggregate"}]}]}"#,
    );
    let rewritten =
        maybe_rewrite_responses_sse_for_compact_synthesis(sse, "m", true, true, Some(&aggregated))
            .unwrap()
            .unwrap();
    let done: serde_json::Value =
        serde_json::from_str(&iter_sse_json_payloads(&rewritten)[2]).unwrap();
    let content = done["item"]["encrypted_content"].as_str().unwrap();
    assert_eq!(
        decode_compact_synthesis_encrypted_content(content).as_deref(),
        Some("from aggregate")
    );
    assert!(rewritten.contains("resp_compact_compact"));
    let err = maybe_rewrite_responses_sse_for_compact_synthesis("data: {}\n", "m", true, true, None)
        .unwrap_err();
    assert_eq!(err, "compact synthesis produced an empty summary from stream");
    assert_eq!(
        maybe_rewrite_responses_sse_for_compact_synthesis(sse, "m", false, true, None),
        Ok(None)
    );
}

#[test]
fn history_expansion_runs_without_synthesis() {
    let encrypted = encode_compact_synthesis_encrypted_content("old", "m");
    let mut body = parse(&format!(
        r#"{{"input": [{{"type": "compaction", "encrypted_content": "{encrypted}"}}], "tools": []}}"#
    ));
    assert!(prepare_compact_synthesis_provider_request(&mut body, false, false));
    assert_eq!(
        text_of(at(&body, "instructions")),
        "[Conversation Summary]\nold"
    );
    assert!(items(at(&body, "input")).is_empty());
    assert!(body.get("tools").is_some());
    let mut plain = parse(r#"{"input": [{"type": "compaction", "encrypted_content": "native"}]}"#);
    assert!(!prepare_compact_synthesis_provider_request(&mut plain, false, false));
}

#[test]
fn synthesizing_twice_changes_nothing_more() {
    let mut body = parse(
        r#"{"id": "r", "output": [{"type": "message", "content": [{"type": "output_text", "text": "sum"}]}]}"#,
    );
    assert!(synthesize_compaction_client_response(&mut body, "m", true, true).unwrap());
    let once = to_value(&body);
    assert!(!synthesize_compaction_client_response(&mut body, "m", true, true).unwrap());
    assert_eq!(to_value(&body), once);
}

fn to_value(json: &Json) -> serde_json::Value {
    match json {
        Json::Null => serde_json::Value::Null,
        Json::Bool(b) => serde_json::Value::Bool(*b),
        Json::Number(JsonNumber::PosInt(u)) => serde_json::Value::from(*u),
        Json::Number(JsonNumber::NegInt(i)) => serde_json::Value::from(*i),
        Json::Number(JsonNumber::Float(bits)) => serde_json::Value::from(f64::from_bits(*bits)),
        Json::String(s) => serde_json::Value::String(s.clone()),
        Json::Array(items) => serde_json::Value::Array(items.iter().map(to_value).collect()),
        Json::Object(map) => serde_json::Value::Object(
            map.entries()
                .iter()
                .map(|(key, item)| (key.clone(), to_value(item)))
                .collect(),
        ),
    }
}

#[test]
fn rewritten_stream_is_not_rewritten_again() {
    let sse = "data: {\"type\":\"response.output_text.delta\",\"delta\":\"once\"}\n";
    let rewritten = maybe_rewrite_responses_sse_for_compact_synthesis(sse, "m", true, true, None)
        .unwrap()
        .unwrap();
    assert!(responses_sse_has_compaction_item(&rewritten));
    assert_eq!(
        maybe_rewrite_responses_sse_for_compact_synthesis(&rewritten, "other", true, true, None),
        Ok(None)
    );
}
