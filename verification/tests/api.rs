use mj_local_llm_hub::api::{
    check_completion_mode, conversation_id_or_new, conversation_title, delete_answer,
    enrich_completion, generate_token, install_step, internal_error, is_authorized,
    openai_model_list, plan_completion, relay_step, render_index, runtime_error,
    runtime_openai_error, structured_output_content, validate_chat_messages,
    validate_openai_request, validate_structured_output, ChatTranscript, RelayStep,
};
use mj_local_llm_hub::api::{begin_completion, check_reply, CompletionStart, ReplyAction};
use mj_local_llm_hub::domain::ChatMessage;
use mj_local_llm_hub::json::{Json, JsonNumber};
use mj_local_llm_hub::runtime::{
    endpoint_id, normalize_base_url, ollama_capabilities, ollama_id, RuntimeError,
    RuntimeErrorCode, RuntimeEvent,
};

fn s(text: &str) -> Json {
    Json::String(text.to_string())
}

fn obj(fields: Vec<(&str, Json)>) -> Json {
    Json::Object(fields.into_iter().map(|(k, v)| (k.to_string(), v)).collect())
}

fn arr(items: Vec<Json>) -> Json {
    Json::Array(items)
}

fn num(n: u64) -> Json {
    Json::Number(JsonNumber::PosInt(n))
}

fn text_at<'a>(value: &'a Json, path: &[&str]) -> Option<&'a str> {
    value.pointer(path).and_then(|v| v.as_str())
}

#[test]
fn validates_required_openai_fields() {
    assert!(validate_openai_request(&obj(vec![
        ("model", s("gemma4")),
        ("messages", arr(vec![obj(vec![("role", s("user")), ("content", s("hi"))])])),
    ]))
    .is_ok());
    let error =
        validate_openai_request(&obj(vec![("model", s("")), ("messages", arr(vec![]))])).unwrap_err();
    assert_eq!(error.status, 400);
    assert_eq!(text_at(&error.body, &["error", "code"]), Some("invalid_request"));
}

#[test]
fn adds_gateway_provenance() {
    let mut body = obj(vec![("model", s("gemma4")), ("choices", arr(vec![]))]);
    let base_url = normalize_base_url("http://127.0.0.1:11434");
    let endpoint = endpoint_id(&base_url);
    let details = obj(vec![("digest", s("sha256:test"))]);
    enrich_completion(
        &mut body,
        ollama_id(),
        &endpoint,
        "gemma4",
        Some(&details),
        42,
        Some("json_object"),
    );
    assert_eq!(text_at(&body, &["mj", "provider"]), Some("ollama"));
    assert_eq!(text_at(&body, &["mj", "structured_output_mode"]), Some("native"));
    assert_eq!(body.pointer(&["mj", "latency_ms"]).and_then(|v| v.as_u64()), Some(42));
    assert_eq!(text_at(&body, &["mj", "model_digest"]), Some("sha256:test"));
}

fn narmer_request() -> Json {
    obj(vec![(
        "response_format",
        obj(vec![
            ("type", s("json_schema")),
            (
                "json_schema",
                obj(vec![(
                    "schema",
                    obj(vec![
                        ("type", s("object")),
                        ("required", arr(vec![s("places")])),
                        ("properties", obj(vec![("places", obj(vec![("type", s("array"))]))])),
                    ]),
                )]),
            ),
        ]),
    )])
}

fn completion(content: &str) -> Json {
    obj(vec![(
        "choices",
        arr(vec![obj(vec![("message", obj(vec![("content", s(content))]))])]),
    )])
}

#[test]
fn validates_narmer_structured_output() {
    let request = narmer_request();
    let valid = completion("{\"places\":[]}");
    let invalid = completion("not-json");
    assert!(validate_structured_output(&request, &valid).is_ok());
    let error = validate_structured_output(&request, &invalid).unwrap_err();
    assert_eq!(text_at(&error.body, &["error", "code"]), Some("structured_output_invalid"));
}

#[test]
fn structured_output_checks_the_schema() {
    let request = narmer_request();
    let missing_places = completion("{\"other\":1}");
    let error = validate_structured_output(&request, &missing_places).unwrap_err();
    assert_eq!(error.status, 422);
    let wrong_type = completion("{\"places\":\"x\"}");
    assert!(validate_structured_output(&request, &wrong_type).is_err());
    let nested = completion("{\"places\": [{\"name\": \"Seoul\"}], \"n\": 1.5}");
    assert!(validate_structured_output(&request, &nested).is_ok());
}

#[test]
fn json_object_mode_accepts_any_json_content() {
    let request = obj(vec![("response_format", obj(vec![("type", s("json_object"))]))]);
    let response = completion("[1]");
    assert!(validate_structured_output(&request, &response).is_ok());
    assert!(validate_structured_output(&request, &completion("{1}")).is_err());
    let no_content = obj(vec![("choices", arr(vec![]))]);
    assert!(validate_structured_output(&request, &no_content).is_err());
    assert_eq!(structured_output_content(&no_content), None);
    assert_eq!(structured_output_content(&response), Some("[1]".to_string()));
}

#[test]
fn request_without_format_needs_no_structured_output() {
    let request = obj(vec![("model", s("m"))]);
    assert!(validate_structured_output(&request, &obj(vec![])).is_ok());
}

#[test]
fn rejects_unknown_policy_profile_and_response_format() {
    let base = |extra: (&str, Json)| {
        obj(vec![
            ("model", s("m")),
            ("messages", arr(vec![obj(vec![("role", s("user"))])])),
            extra,
        ])
    };
    let error = validate_openai_request(&base((
        "metadata",
        obj(vec![("policy_profile", s("cloud"))]),
    )))
    .unwrap_err();
    assert_eq!(error.status, 400);
    assert_eq!(
        text_at(&error.body, &["error", "message"]),
        Some("metadata.policy_profile must be local_only or external_allowed")
    );
    assert!(validate_openai_request(&base((
        "metadata",
        obj(vec![("policy_profile", s("external_allowed"))]),
    )))
    .is_ok());
    let error =
        validate_openai_request(&base(("response_format", obj(vec![("type", s("text"))]))))
            .unwrap_err();
    assert_eq!(error.status, 422);
    assert_eq!(text_at(&error.body, &["error", "code"]), Some("model_not_capable"));
    assert_eq!(text_at(&error.body, &["error", "type"]), Some("mj_gateway_error"));
}

#[test]
fn runtime_errors_map_to_http_statuses() {
    let cases = [
        (RuntimeErrorCode::InvalidRequest, 400),
        (RuntimeErrorCode::ModelNotInstalled, 404),
        (RuntimeErrorCode::ModelNotCapable, 422),
        (RuntimeErrorCode::StructuredOutputInvalid, 422),
        (RuntimeErrorCode::ContextLengthExceeded, 413),
        (RuntimeErrorCode::RequestTimeout, 504),
        (RuntimeErrorCode::RequestCancelled, 499),
        (RuntimeErrorCode::RateLimited, 429),
        (RuntimeErrorCode::RuntimeUnavailable, 502),
        (RuntimeErrorCode::UpstreamError, 502),
    ];
    for (code, status) in cases {
        let error = runtime_openai_error(RuntimeError { code, message: "boom".to_string() });
        assert_eq!(error.status, status);
        assert_eq!(text_at(&error.body, &["error", "code"]), Some(code.as_str()));
        assert_eq!(text_at(&error.body, &["error", "message"]), Some("boom"));
    }
}

#[test]
fn planning_reads_and_strips_metadata() {
    let mut request = obj(vec![
        ("model", s("gemma4")),
        ("stream", Json::Bool(true)),
        ("response_format", obj(vec![("type", s("json_object"))])),
        ("metadata", obj(vec![("timeout_ms", num(5))])),
    ]);
    let plan = plan_completion(&mut request);
    assert!(plan.streaming);
    assert_eq!(plan.structured_mode.as_deref(), Some("json_object"));
    assert_eq!(plan.requested_model, "gemma4");
    assert_eq!(plan.timeout_ms, 100);
    assert!(request.get("metadata").is_none());
    assert!(request.get("model").is_some());

    let mut plain = obj(vec![("metadata", obj(vec![("timeout_ms", num(9_999_999))]))]);
    let plan = plan_completion(&mut plain);
    assert!(!plan.streaming);
    assert_eq!(plan.timeout_ms, 600_000);
    assert_eq!(plan.requested_model, "");
    let mut defaults = obj(vec![]);
    assert_eq!(plan_completion(&mut defaults).timeout_ms, 120_000);
}

#[test]
fn inference_latency_is_in_milliseconds() {
    let mut body = obj(vec![("eval_duration", num(3_500_000_000))]);
    enrich_completion(&mut body, "ollama", "http://h", "m", None, 7, None);
    assert_eq!(
        body.pointer(&["mj", "inference_latency_ms"]).and_then(|v| v.as_u64()),
        Some(3_500)
    );
    assert_eq!(text_at(&body, &["mj", "structured_output_mode"]), Some("unsupported"));
    assert!(matches!(body.pointer(&["mj", "model_digest"]), Some(Json::Null)));
    assert!(matches!(body.pointer(&["mj", "resolved_model"]), Some(Json::Null)));
    assert!(body.get("eval_duration").is_some());
    let mut not_object = s("x");
    enrich_completion(&mut not_object, "ollama", "e", "m", None, 1, None);
    assert_eq!(not_object.as_str(), Some("x"));
}

#[test]
fn completion_mode_must_match_request() {
    assert!(check_completion_mode(true, true).is_ok());
    assert!(check_completion_mode(false, false).is_ok());
    let error = check_completion_mode(true, false).unwrap_err();
    assert_eq!(error.status, 502);
    assert_eq!(text_at(&error.body, &["error", "code"]), Some("upstream_error"));
}

#[test]
fn relay_forwards_chunks_and_reports_errors() {
    assert!(matches!(
        relay_step(Ok(RuntimeEvent::OpenAiChunk(num(1)))),
        RelayStep::Forward(Json::Number(JsonNumber::PosInt(1)))
    ));
    assert!(matches!(relay_step(Ok(RuntimeEvent::Done)), RelayStep::Finish));
    assert!(matches!(relay_step(Ok(RuntimeEvent::Token("t".into()))), RelayStep::Skip));
    match relay_step(Err(RuntimeError::invalid_stream())) {
        RelayStep::Fail(envelope) => {
            assert_eq!(text_at(&envelope, &["error", "code"]), Some("upstream_error"))
        }
        other => panic!("unexpected {other:?}"),
    }
}

#[test]
fn install_stream_frames() {
    let (frame, stop) = install_step(Ok(RuntimeEvent::Progress(obj(vec![("status", s("pulling"))]))));
    let frame = frame.unwrap();
    assert_eq!(frame.event, "progress");
    assert!(!stop);
    let (frame, stop) = install_step(Ok(RuntimeEvent::Done));
    assert_eq!(frame.unwrap().event, "done");
    assert!(stop);
    let (frame, stop) = install_step(Ok(RuntimeEvent::Token("x".into())));
    assert!(frame.is_none() && !stop);
    let (frame, stop) = install_step(Err(RuntimeError {
        code: RuntimeErrorCode::RuntimeUnavailable,
        message: String::new(),
    }));
    let frame = frame.unwrap();
    assert_eq!(frame.event, "error");
    assert_eq!(text_at(&frame.data, &["error"]), Some("runtime_unavailable"));
    assert!(stop);
}

#[test]
fn chat_transcript_collects_tokens() {
    let mut transcript = ChatTranscript::new();
    let (frame, stop) = transcript.step(Ok(RuntimeEvent::Token("안녕".into())));
    assert_eq!(text_at(&frame.unwrap().data, &["content"]), Some("안녕"));
    assert!(!stop);
    transcript.step(Ok(RuntimeEvent::Token("하세요".into())));
    let (frame, _) = transcript.step(Ok(RuntimeEvent::Metrics(obj(vec![("done", Json::Bool(true))]))));
    assert_eq!(frame.unwrap().event, "metrics");
    let (frame, stop) = transcript.step(Ok(RuntimeEvent::Done));
    assert!(frame.is_none() && stop);
    let messages = vec![ChatMessage { role: "user".into(), content: "hi".into() }];
    let conversation = transcript.finish("c1".into(), "hi".into(), "qwen3".into(), messages, 9);
    assert_eq!(conversation.messages.len(), 2);
    assert_eq!(conversation.messages[1].role, "assistant");
    assert_eq!(conversation.messages[1].content, "안녕하세요");
    assert_eq!(conversation.updated_at_epoch_seconds, 9);
}

#[test]
fn chat_stream_error_stops() {
    let mut transcript = ChatTranscript::new();
    let (frame, stop) = transcript.step(Err(RuntimeError {
        code: RuntimeErrorCode::RequestTimeout,
        message: String::new(),
    }));
    assert!(stop);
    assert_eq!(text_at(&frame.unwrap().data, &["error"]), Some("request_timeout"));
}

#[test]
fn titles_come_from_the_first_user_message() {
    let long: String = "가".repeat(50);
    let messages = vec![
        ChatMessage { role: "system".into(), content: "be brief".into() },
        ChatMessage { role: "user".into(), content: long },
        ChatMessage { role: "user".into(), content: "second".into() },
    ];
    let title = conversation_title(&messages);
    assert_eq!(title.chars().count(), 42);
    assert_eq!(title, "가".repeat(42));
    assert_eq!(conversation_title(&vec![]), "새 대화");
    let short = vec![ChatMessage { role: "user".into(), content: "hi".into() }];
    assert_eq!(conversation_title(&short), "hi");
}

#[test]
fn conversation_ids() {
    assert_eq!(conversation_id_or_new(Some("keep".into())), "keep");
    let fresh = conversation_id_or_new(None);
    assert_eq!(fresh.len(), 36);
    for (i, c) in fresh.chars().enumerate() {
        if [8, 13, 18, 23].contains(&i) {
            assert_eq!(c, '-');
        } else {
            assert!(c.is_ascii_digit() || ('a'..='f').contains(&c), "{fresh}");
        }
    }
    assert_eq!(fresh.chars().nth(14), Some('4'));
    assert!(matches!(fresh.chars().nth(19), Some('8' | '9' | 'a' | 'b')), "{fresh}");
    assert_ne!(fresh, conversation_id_or_new(None));
}

#[test]
fn session_token_is_required() {
    let token = "t0k3n";
    assert!(is_authorized(Some("t0k3n"), None, token));
    assert!(is_authorized(None, Some("Bearer t0k3n"), token));
    assert!(is_authorized(Some("wrong"), Some("Bearer t0k3n"), token));
    assert!(!is_authorized(None, Some("bearer t0k3n"), token));
    assert!(!is_authorized(None, Some("t0k3n"), token));
    assert!(!is_authorized(Some("wrong"), None, token));
    assert!(!is_authorized(None, None, token));
}

#[test]
fn generated_tokens_are_lowercase_hex() {
    let token = generate_token();
    assert_eq!(token.len(), 48);
    assert!(token.chars().all(|c| c.is_ascii_digit() || ('a'..='f').contains(&c)));
    assert_ne!(token, generate_token());
}

#[test]
fn hub_error_answers() {
    let (status, error) = runtime_error(RuntimeError {
        code: RuntimeErrorCode::RuntimeUnavailable,
        message: "x".into(),
    });
    assert_eq!(status, 502);
    assert_eq!(error.error, "로컬 런타임 연결 실패: runtime_unavailable");
    let (status, error) = internal_error("disk full");
    assert_eq!((status, error.error.as_str()), (500, "disk full"));
    assert_eq!(delete_answer(true).unwrap(), 204);
    let (status, error) = delete_answer(false).unwrap_err();
    assert_eq!((status, error.error.as_str()), (404, "대화를 찾지 못했습니다."));
    let (status, error) = validate_chat_messages(&vec![]).unwrap_err();
    assert_eq!((status, error.error.as_str()), (400, "메시지가 필요합니다."));
}

#[test]
fn index_page_gets_the_token() {
    assert_eq!(
        render_index("<a>__TOKEN_VALUE__</a><b>__TOKEN_VALUE__</b>", "abc"),
        "<a>abc</a><b>abc</b>"
    );
    assert_eq!(render_index("no token here", "abc"), "no token here");
}

#[test]
fn openai_model_list_shape() {
    let installed = vec!["qwen3:0.6b".to_string(), "gemma4:e2b".to_string()];
    let list = openai_model_list(&installed, "ollama", &ollama_capabilities());
    assert_eq!(text_at(&list, &["object"]), Some("list"));
    assert_eq!(text_at(&list, &["data", "1", "id"]), Some("gemma4:e2b"));
    assert_eq!(text_at(&list, &["data", "0", "owned_by"]), Some("local"));
    assert_eq!(text_at(&list, &["data", "0", "mj", "provider"]), Some("ollama"));
    assert_eq!(
        text_at(&list, &["data", "0", "mj", "capabilities", "structured_output", "1"]),
        Some("json_schema")
    );
    assert!(matches!(
        list.pointer(&["data", "0", "mj", "capabilities", "embeddings"]),
        Some(Json::Bool(false))
    ));
}

#[test]
fn completion_decisions_come_in_order() {
    let mut bad = obj(vec![("model", s("")), ("metadata", obj(vec![]))]);
    match begin_completion(&mut bad) {
        CompletionStart::Refuse(e) => assert_eq!(e.status, 400),
        CompletionStart::Call(_) => panic!("an invalid request reached the runtime"),
    }
    assert!(bad.get("metadata").is_some());
    let mut good = obj(vec![
        ("model", s("gemma4")),
        ("messages", arr(vec![obj(vec![("role", s("user")), ("content", s("hi"))])])),
        ("response_format", obj(vec![("type", s("json_object"))])),
        ("metadata", obj(vec![("timeout_ms", num(5))])),
    ]);
    let plan = match begin_completion(&mut good) {
        CompletionStart::Call(plan) => plan,
        CompletionStart::Refuse(_) => panic!("a valid request was refused"),
    };
    assert_eq!(plan.timeout_ms, 100);
    assert!(good.get("metadata").is_none());

    let timed_out = check_reply(&good, false, Err(RuntimeError::timed_out()));
    assert!(matches!(timed_out, ReplyAction::Refuse(ref e) if e.status == 504));
    assert!(matches!(check_reply(&good, true, Ok(None)), ReplyAction::Relay));
    let wrong = check_reply(&good, false, Ok(None));
    assert!(matches!(wrong, ReplyAction::Refuse(ref e) if e.status == 502));
    let body = obj(vec![(
        "choices",
        arr(vec![obj(vec![("message", obj(vec![("content", s("{}"))]))])]),
    )]);
    assert!(matches!(check_reply(&good, false, Ok(Some(&body))), ReplyAction::Enrich));
    let refused = check_reply(&good, false, Ok(Some(&completion("not-json"))));
    assert!(matches!(refused, ReplyAction::Refuse(ref e) if e.status == 422));
    let wrong = check_reply(&good, true, Ok(Some(&body)));
    assert!(matches!(wrong, ReplyAction::Refuse(ref e) if e.status == 502));
}
