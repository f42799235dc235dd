//! What is sent to backends, and how their answers are read.

use hier_kv_gateway::backend::{BackendStatus, BackendType, Endpoint, Protocol};
use hier_kv_gateway::connector::HealthStatus;
use hier_kv_gateway::dynamo::{
    discovered_over_http, received_lines, reply_lines, stamped, with_end, DynamoConnectorConfig,
    DynamoGenerateRequest, DEFAULT_DYNAMO_SUBJECT_PREFIX,
};
use hier_kv_gateway::ids::{BackendId, BackendInstanceId, RegionId, RequestId};
use hier_kv_gateway::metrics::{BackendMetrics, RealBits};
use hier_kv_gateway::openai_compat::{
    apply_metrics, chunk_of, parse_prom_line, prometheus_metrics, ChatCompletionChunk,
    ChatCompletionRequest, Choice, ConnectorProfile, Delta, MetricValue, SseParser, StreamStep,
    ToolCallDelta, ToolCallFunction,
};
use hier_kv_gateway::request::{ChatMessage, InferenceChunk, InferenceRequest};
use hier_kv_gateway::sglang::{
    generate_url, map_server_info_metrics, server_info_metrics, server_info_url, GenerateRequest,
    GenerateStreamChunk, InfoValue, SglangGenerateParser,
};

fn bits(value: f64) -> RealBits {
    RealBits(value.to_bits())
}

/// A value in the forms in which it is stored.
fn metric_value(text: &str) -> Option<MetricValue> {
    let value: f64 = text.parse().ok()?;
    Some(MetricValue {
        whole: value as u64,
        thousandths: (value * 1000.0) as u64,
        real: bits(value),
    })
}

fn request(model: &str, content: &str, max_tokens: u32, temperature: f64) -> InferenceRequest {
    InferenceRequest {
        request_id: RequestId::new("r1"),
        model: model.to_string(),
        messages: vec![ChatMessage {
            role: "user".to_string(),
            content: content.to_string(),
        }],
        token_ids: vec![],
        max_tokens,
        temperature: bits(temperature),
        stream: true,
        tools: vec![],
        lora_name: None,
    }
}

fn tokenized_request() -> InferenceRequest {
    InferenceRequest {
        token_ids: vec![101, 102, 103],
        ..request("qwen2.5-7b", "hello", 32, 0.5)
    }
}

#[test]
fn subject_helpers_use_prefix_and_instance() {
    let cfg = DynamoConnectorConfig {
        nats_url: "nats://127.0.0.1:4222".to_string(),
        subject_prefix: "dyn".to_string(),
        region: RegionId::new("us-east-1"),
        instance_id: BackendInstanceId::new("worker-0"),
        models: vec!["m".to_string()],
        kv_block_size: 16,
        request_timeout_ms: None,
    };
    assert_eq!(cfg.health_subject(), "dyn.health.worker-0");
    assert_eq!(cfg.generate_subject(), "dyn.generate.worker-0");
    assert_eq!(cfg.kv_events_subject(), "dyn.kv_events.worker-0");
    assert_eq!(cfg.metrics_subject(), "dyn.metrics.worker-0");
    assert_eq!(cfg.timeout_ms(), 60_000);
}

#[test]
fn from_endpoint_uses_url_as_nats_url() {
    let ep = Endpoint {
        url: "nats://10.0.0.1:4222".to_string(),
        protocol: Protocol::Nats,
    };
    let cfg = DynamoConnectorConfig::from_endpoint(
        &ep,
        &RegionId::new("r1"),
        BackendInstanceId::new("worker-1"),
        vec!["m".to_string()],
        16,
    );
    assert_eq!(cfg.nats_url, "nats://10.0.0.1:4222");
    assert_eq!(cfg.subject_prefix, DEFAULT_DYNAMO_SUBJECT_PREFIX);
    assert_eq!(cfg.instance_id.as_str(), "worker-1");
}

#[test]
fn dynamo_request_serialization_matches_openai_shape() {
    let body = DynamoGenerateRequest::for_request(&request("m", "hi", 32, 0.5));
    assert_eq!(body.model, "m");
    assert!(body.stream);
    assert_eq!(body.max_tokens, 32);
    assert_eq!(body.messages[0].role, "user");
}

#[test]
fn parse_prom_line_simple() {
    let (name, val) = parse_prom_line("vllm:num_requests_running 5").unwrap();
    assert_eq!(name, "vllm:num_requests_running");
    assert!((val.parse::<f64>().unwrap() - 5.0).abs() < 1e-9);
}

#[test]
fn parse_prom_line_with_labels() {
    let (name, val) = parse_prom_line("vllm:gpu_cache_usage_perc{model=\"test\"} 0.75").unwrap();
    assert_eq!(name, "vllm:gpu_cache_usage_perc");
    assert!((val.parse::<f64>().unwrap() - 0.75).abs() < 1e-9);
}

#[test]
fn parse_prom_metrics_extracts_values() {
    let mut m = BackendMetrics::default();
    let text = r#"
# HELP vllm:num_requests_running Number of running requests
# TYPE vllm:num_requests_running gauge
vllm:num_requests_running 3
vllm:num_requests_waiting 2
vllm:gpu_cache_usage_perc 0.5
"#;
    let values: Vec<(String, MetricValue)> = prometheus_metrics(text)
        .into_iter()
        .filter_map(|(name, value)| metric_value(&value).map(|value| (name, value)))
        .collect();
    apply_metrics(&mut m, &values);
    assert_eq!(m.active_requests, 3);
    assert_eq!(m.queue_depth, 2);
    assert_eq!(m.kv_used_blocks, 500);
    assert_eq!(m.kv_total_blocks, 1000);
}

#[test]
fn gateway_metrics_are_read_too() {
    let mut m = BackendMetrics {
        kv_total_blocks: 64,
        ..BackendMetrics::default()
    };
    let text = "hier_kv_gateway:active_requests 7\n\
                other 1\n\
                hier_kv_gateway:queue_depth{a=\"b\"} 9\n\
                hier_kv_gateway:kv_cache_usage 0.25\n\
                hier_kv_gateway:gpu_utilization 0.75\n";
    let values: Vec<(String, MetricValue)> = prometheus_metrics(text)
        .into_iter()
        .filter_map(|(name, value)| metric_value(&value).map(|value| (name, value)))
        .collect();
    apply_metrics(&mut m, &values);
    assert_eq!(m.active_requests, 7);
    assert_eq!(m.queue_depth, 9);
    assert_eq!(m.kv_used_blocks, 250);
    assert_eq!(m.kv_total_blocks, 64);
    assert_eq!(m.gpu_utilization, bits(0.75));
}

#[test]
fn chat_completion_request_serialization() {
    let body =
        ChatCompletionRequest::for_request(&request("test-model", "hello", 100, 0.7), false);
    assert_eq!(body.model, "test-model");
    assert!(body.stream);
    assert_eq!(body.max_tokens, 100);
    assert_eq!(body.temperature, bits(0.7));
    assert_eq!(body.messages.unwrap()[0].content, "hello");
    assert!(body.prompt_token_ids.is_none());
    assert!(body.tools.is_none());
}

#[test]
fn tokens_are_sent_in_place_of_messages() {
    let body = ChatCompletionRequest::for_request(&tokenized_request(), true);
    assert_eq!(body.prompt_token_ids, Some(vec![101, 102, 103]));
    assert!(body.messages.is_none());
    // Not unless they are asked for, and not unless there are some
    let body = ChatCompletionRequest::for_request(&tokenized_request(), false);
    assert!(body.prompt_token_ids.is_none());
    assert!(body.messages.is_some());
    let body = ChatCompletionRequest::for_request(&request("m", "hi", 1, 0.0), true);
    assert!(body.prompt_token_ids.is_none());
    assert!(body.messages.is_some());
}

#[test]
fn generate_request_uses_input_ids_and_sampling_params() {
    let body = GenerateRequest::for_request(&tokenized_request());
    assert_eq!(body.input_ids, vec![101, 102, 103]);
    assert_eq!(body.sampling_params.max_new_tokens, 32);
    assert_eq!(body.sampling_params.temperature, bits(0.5));
    assert!(body.stream);
}

fn object(fields: Vec<(&str, InfoValue)>) -> InfoValue {
    InfoValue::Object(
        fields
            .into_iter()
            .map(|(name, value)| (name.to_string(), value))
            .collect(),
    )
}

#[test]
fn server_info_maps_scheduler_state_array() {
    let info = object(vec![(
        "internal_states",
        InfoValue::List(vec![object(vec![
            ("num_running_reqs", InfoValue::Number(7)),
            ("num_queue_reqs", InfoValue::Number(3)),
            ("num_used_tokens", InfoValue::Number(16000)),
            ("max_total_num_tokens", InfoValue::Number(1_000_000)),
            ("token_usage", InfoValue::Other),
        ])]),
    )]);
    let m = map_server_info_metrics(&info, 16, 42);
    assert_eq!(m.active_requests, 7);
    assert_eq!(m.queue_depth, 3);
    assert_eq!(m.kv_used_blocks, 1000); // 16000 / 16
    assert_eq!(m.kv_total_blocks, 62500); // 1_000_000 / 16
    assert_eq!(m.timestamp, 42);
}

#[test]
fn server_info_tolerates_missing_fields_and_top_level_total() {
    let info = object(vec![
        (
            "internal_states",
            InfoValue::List(vec![object(vec![(
                "num_running_reqs",
                InfoValue::Number(2),
            )])]),
        ),
        ("max_total_num_tokens", InfoValue::Number(8192)),
    ]);
    let m = map_server_info_metrics(&info, 16, 0);
    assert_eq!(m.active_requests, 2);
    assert_eq!(m.queue_depth, 0);
    assert_eq!(m.kv_used_blocks, 0);
    assert_eq!(m.kv_total_blocks, 512);
}

#[test]
fn server_info_without_load_is_of_no_use() {
    let info = object(vec![("version", InfoValue::Other)]);
    assert!(server_info_metrics(&info, 16, 0).is_none());
    let info = object(vec![
        ("internal_states", InfoValue::List(vec![])),
        ("running_reqs", InfoValue::Number(4)),
    ]);
    let m = server_info_metrics(&info, 0, 9).unwrap();
    assert_eq!(m.active_requests, 4);
    assert_eq!(m.timestamp, 9);
}

/// Feeds a stream through the parser and collects all chunks.
fn collect_chunks(lines: &[&str]) -> Vec<InferenceChunk> {
    let payload = lines
        .iter()
        .map(|l| format!("data: {l}\n\n"))
        .collect::<String>();
    let mut parser = SglangGenerateParser::new(BackendId::new("r1", "sglang-0"));
    parser.received(payload.as_bytes());
    parser.end_input();
    let mut chunks = Vec::new();
    loop {
        match parser.step(5) {
            StreamStep::Parse(data) => {
                let value: serde_json::Value = serde_json::from_str(&data).unwrap();
                let chunk = GenerateStreamChunk {
                    text: value["text"].as_str().unwrap_or("").to_string(),
                    finish_reason: value["meta_info"]["finish_reason"]["type"]
                        .as_str()
                        .map(str::to_string),
                };
                chunks.extend(parser.parsed(&chunk));
            }
            StreamStep::Emit(chunk) => chunks.push(chunk),
            StreamStep::NeedMore => unreachable!(),
            StreamStep::End => return chunks,
        }
    }
}

#[test]
fn generate_stream_accumulated_text_becomes_deltas() {
    let chunks = collect_chunks(&[
        r#"{"text": "Hello", "meta_info": {"finish_reason": null}}"#,
        r#"{"text": "Hello world", "meta_info": {"finish_reason": null}}"#,
        r#"{"text": "Hello world!", "meta_info": {"finish_reason": {"type": "stop"}}}"#,
    ]);

    let deltas: Vec<(String, Option<String>)> = chunks
        .iter()
        .filter_map(|c| match c {
            InferenceChunk::Delta { text, finish_reason } => {
                Some((text.clone(), finish_reason.clone()))
            }
            _ => None,
        })
        .collect();
    assert_eq!(deltas.len(), 3);
    assert_eq!(deltas[0], ("Hello".to_string(), None));
    assert_eq!(deltas[1], (" world".to_string(), None));
    assert_eq!(deltas[2], ("!".to_string(), Some("stop".to_string())));
    // Stream terminates with Done.
    assert!(matches!(chunks.last(), Some(InferenceChunk::Done { .. })));
    assert_eq!(chunks.len(), 4);
}

#[test]
fn generate_stream_eof_without_finish_reason_yields_done() {
    let chunks =
        collect_chunks(&[r#"{"text": "partial", "meta_info": {"finish_reason": null}}"#]);
    assert!(matches!(chunks.first(), Some(InferenceChunk::Delta { .. })));
    assert!(matches!(chunks.last(), Some(InferenceChunk::Done { .. })));
}

#[test]
fn a_failed_generate_stream_ends() {
    let mut parser = SglangGenerateParser::new(BackendId::new("r1", "sglang-0"));
    parser.received_text("data: {");
    match parser.failed("broken pipe") {
        InferenceChunk::Error { message, .. } => assert!(message.contains("broken pipe")),
        other => panic!("expected an error, got {:?}", other),
    }
    assert!(matches!(parser.step(1), StreamStep::End));
    assert_eq!(parser.emitted_len(), 0);
}

#[test]
fn a_chat_stream_is_read_to_its_end() {
    let mut parser = SseParser::new(BackendId::new("r1", "i1"));
    // Split in the middle of a line, with a comment and an empty line
    parser.received(b": ping\n\ndata: {\"a\"");
    assert!(matches!(parser.step(1), StreamStep::NeedMore));
    parser.received(b":1}\r\n\r\ndata: [DONE]\n\ndata: {\"late\":1}\n");
    match parser.step(2) {
        StreamStep::Parse(data) => assert_eq!(data, "{\"a\":1}"),
        other => panic!("expected data, got {:?}", other),
    }
    match parser.step(7) {
        StreamStep::Emit(InferenceChunk::Done {
            backend_id,
            latency_ms,
        }) => {
            assert_eq!(backend_id, BackendId::new("r1", "i1"));
            assert_eq!(latency_ms, 7);
        }
        other => panic!("expected the end, got {:?}", other),
    }
    // Nothing follows the end
    assert!(matches!(parser.step(8), StreamStep::End));
    parser.received_text("data: {}\n");
    assert!(matches!(parser.step(9), StreamStep::End));
}

#[test]
fn bytes_that_are_no_text_are_replaced() {
    let mut parser = SseParser::new(BackendId::new("r1", "i1"));
    parser.received(b"data: a\xffb\n");
    match parser.step(1) {
        StreamStep::Parse(data) => assert_eq!(data, "a\u{fffd}b"),
        other => panic!("expected data, got {:?}", other),
    }
}

#[test]
fn a_chat_stream_can_fail_or_run_out() {
    let mut parser = SseParser::new(BackendId::new("r1", "i1"));
    match parser.failed("reset") {
        InferenceChunk::Error { code, message } => {
            assert_eq!(code, 502);
            assert!(message.contains("reset"));
        }
        other => panic!("expected an error, got {:?}", other),
    }
    assert!(matches!(parser.step(1), StreamStep::End));

    let mut parser = SseParser::new(BackendId::new("r1", "i1"));
    assert_eq!(
        parser.finished(3),
        InferenceChunk::Done {
            backend_id: BackendId::new("r1", "i1"),
            latency_ms: 3
        }
    );
    assert!(matches!(parser.step(1), StreamStep::End));
}

fn chat_chunk(
    content: Option<&str>,
    tool_calls: Vec<ToolCallDelta>,
    finish_reason: Option<&str>,
) -> ChatCompletionChunk {
    ChatCompletionChunk {
        choices: vec![Choice {
            delta: Delta {
                content: content.map(str::to_string),
                tool_calls,
            },
            finish_reason: finish_reason.map(str::to_string),
        }],
    }
}

#[test]
fn chunks_of_a_chat_are_told_apart() {
    assert_eq!(
        chunk_of(&chat_chunk(Some("hi"), vec![], None)),
        Some(InferenceChunk::Delta {
            text: "hi".to_string(),
            finish_reason: None
        })
    );
    assert_eq!(
        chunk_of(&chat_chunk(None, vec![], Some("stop"))),
        Some(InferenceChunk::Delta {
            text: String::new(),
            finish_reason: Some("stop".to_string())
        })
    );
    let call = ToolCallDelta {
        id: Some("c1".to_string()),
        function: Some(ToolCallFunction {
            name: Some("f".to_string()),
            arguments: Some("{}".to_string()),
        }),
    };
    assert_eq!(
        chunk_of(&chat_chunk(None, vec![call], None)),
        Some(InferenceChunk::ToolCall {
            id: "c1".to_string(),
            function: "f".to_string(),
            args: "{}".to_string()
        })
    );
    assert_eq!(chunk_of(&chat_chunk(None, vec![], None)), None);
    assert_eq!(chunk_of(&ChatCompletionChunk { choices: vec![] }), None);
}

#[test]
fn urls_of_a_connector() {
    let profile = ConnectorProfile::from_endpoint(
        &Endpoint {
            url: "http://10.0.0.1:8000".to_string(),
            protocol: Protocol::Http,
        },
        BackendType::VllmEngine,
        &RegionId::new("edge-1"),
        vec!["m".to_string()],
        16,
    )
    .with_emit_token_ids(true);
    assert!(profile.emit_token_ids);
    assert_eq!(profile.health_url(), "http://10.0.0.1:8000/health");
    assert_eq!(profile.models_url(), "http://10.0.0.1:8000/v1/models");
    assert_eq!(
        profile.completions_url(),
        "http://10.0.0.1:8000/v1/chat/completions"
    );
    assert_eq!(profile.metrics_url(), "http://10.0.0.1:8000/metrics");
    assert_eq!(
        generate_url("http://10.0.0.1:8000"),
        "http://10.0.0.1:8000/generate"
    );
    assert_eq!(
        server_info_url("http://10.0.0.1:8000"),
        "http://10.0.0.1:8000/get_server_info"
    );
    assert_eq!(profile.backend_id(), BackendId::new("edge-1", "10.0.0.1:8000"));

    // Listed models are taken over; without any, the configured ones are
    let info = profile.discovered(&vec!["a".to_string(), "b".to_string()]);
    assert_eq!(info.models.len(), 2);
    assert_eq!(info.models[1].model_name, "b");
    let info = profile.discovered(&vec![]);
    assert_eq!(info.models.len(), 1);
    assert_eq!(info.models[0].model_name, "m");
    assert_eq!(info.endpoint.url, "http://10.0.0.1:8000");
}

#[test]
fn a_reply_of_a_worker_is_read_line_by_line() {
    let lines = reply_lines("{\"a\":1}\n\n  {\"b\":2}  \n   \nlast");
    assert_eq!(lines, vec!["{\"a\":1}", "{\"b\":2}", "last"]);
    assert_eq!(received_lines(b" x\xff \n\ny"), vec!["x\u{fffd}", "y"]);

    let id = BackendId::new("r1", "w");
    let ended = with_end(vec![], id.clone(), 4);
    assert_eq!(
        ended,
        vec![InferenceChunk::Done {
            backend_id: id.clone(),
            latency_ms: 4
        }]
    );
    // An answer that has an end keeps it
    assert_eq!(with_end(ended.clone(), id, 9), ended);
}

#[test]
fn metrics_of_a_worker_are_stamped() {
    assert_eq!(stamped(None, 17).timestamp, 17);
    let given = BackendMetrics {
        active_requests: 3,
        timestamp: 5,
        ..BackendMetrics::default()
    };
    let stamped = stamped(Some(given), 17);
    assert_eq!(stamped.active_requests, 3);
    assert_eq!(stamped.timestamp, 17);
}

#[test]
fn a_worker_over_http_is_a_dynamo_worker() {
    let profile = ConnectorProfile::new(
        "http://h:1",
        BackendType::GenericOpenAI,
        RegionId::new("r1"),
        BackendInstanceId::new("w"),
        vec!["m".to_string()],
        16,
    );
    let info = discovered_over_http(profile.discovered(&vec![]));
    assert_eq!(info.backend_type, BackendType::DynamoEngine);
}

#[test]
fn health_of_a_check() {
    let good = HealthStatus::of_check(true, 10);
    assert_eq!(good, HealthStatus::healthy(10));
    assert_eq!(good.status, BackendStatus::Healthy);
    let bad = HealthStatus::of_check(false, 10);
    assert_eq!(bad.status, BackendStatus::Unhealthy);
    assert_eq!(bad.error_count, 1);
    assert_eq!(HealthStatus::default().status, BackendStatus::Unknown);
}
