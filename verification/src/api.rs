//! The gateway's decisions: request validation, error envelopes, structured
//! output checks, provenance metadata, authorization and the handling of
//! streamed runtime events.
use vstd::prelude::*;
use crate::json::{Json, JsonNumber, JsonValue, NumberValue, fields_model, json_text_value, opt_view, parse_json};
use crate::domain::{ApiError, ChatMessage, Conversation, RuntimeCapabilities, messages_view, strings_view};
use crate::runtime::{EventView, RuntimeError, RuntimeErrorCode, RuntimeEvent, code_name};
use crate::schema::{matches_schema, schema_matches};
use crate::text::{has_prefix, owned, replace, replace_all, str_eq, strip_prefix};

verus! {

/// An OpenAI-style error answer: an HTTP status and a JSON body.
#[derive(Debug)]
pub struct GatewayError {
    pub status: u16,
    pub body: Json,
}

/// `{"error": {"message": message, "type": "mj_gateway_error", "code": code}}`.
pub open spec fn error_body(code: Seq<char>, message: Seq<char>) -> JsonValue {
    JsonValue::Object(
        seq![
            (
                "error"@,
                JsonValue::Object(
                    seq![
                        ("message"@, JsonValue::String(message)),
                        ("type"@, JsonValue::String("mj_gateway_error"@)),
                        ("code"@, JsonValue::String(code)),
                    ],
                ),
            ),
        ],
    )
}

/// The error answer with `status`, `code` and `message`.
pub fn openai_error(status: u16, code: &str, message: &str) -> (e: GatewayError)
    ensures
        e.status == status,
        e.body@ == error_body(code@, message@),
{
    let mut inner: Vec<(String, Json)> = Vec::new();
    inner.push((owned("message"), Json::string(message)));
    inner.push((owned("type"), Json::string("mj_gateway_error")));
    inner.push((owned("code"), Json::string(code)));
    let mut outer: Vec<(String, Json)> = Vec::new();
    let inner_json = Json::object(inner);
    assert(fields_model(inner@) =~= error_body(code@, message@)->Object_0[0].1->Object_0);
    outer.push((owned("error"), inner_json));
    let body = Json::object(outer);
    assert(fields_model(outer@) =~= error_body(code@, message@)->Object_0);
    GatewayError { status, body }
}

/// The HTTP status that answers a runtime error code.
pub open spec fn openai_status(code: RuntimeErrorCode) -> u16 {
    match code {
        RuntimeErrorCode::InvalidRequest => 400,
        RuntimeErrorCode::ModelNotInstalled => 404,
        RuntimeErrorCode::ModelNotCapable => 422,
        RuntimeErrorCode::StructuredOutputInvalid => 422,
        RuntimeErrorCode::ContextLengthExceeded => 413,
        RuntimeErrorCode::RequestTimeout => 504,
        RuntimeErrorCode::RequestCancelled => 499,
        RuntimeErrorCode::RateLimited => 429,
        RuntimeErrorCode::RuntimeUnavailable => 502,
        RuntimeErrorCode::UpstreamError => 502,
    }
}

/// The error answer for a runtime error: its status by code, and the code's
/// wire name and the error's message in the body.
pub fn runtime_openai_error(error: RuntimeError) -> (e: GatewayError)
    ensures
        e.status == openai_status(error.code),
        e.body@ == error_body(code_name(error.code), error.message@),
{
    let status: u16 = match error.code {
        RuntimeErrorCode::InvalidRequest => 400,
        RuntimeErrorCode::ModelNotInstalled => 404,
        RuntimeErrorCode::ModelNotCapable => 422,
        RuntimeErrorCode::StructuredOutputInvalid => 422,
        RuntimeErrorCode::ContextLengthExceeded => 413,
        RuntimeErrorCode::RequestTimeout => 504,
        RuntimeErrorCode::RequestCancelled => 499,
        RuntimeErrorCode::RateLimited => 429,
        RuntimeErrorCode::RuntimeUnavailable => 502,
        RuntimeErrorCode::UpstreamError => 502,
    };
    openai_error(status, error.code.as_str(), error.message.as_str())
}

/// `o` followed by one step of a JSON pointer.
pub open spec fn then_step(o: Option<JsonValue>, tok: Seq<char>) -> Option<JsonValue> {
    match o {
        Some(v) => v.step(tok),
        None => None,
    }
}

/// The string at `o`, if it is one.
pub open spec fn opt_str(o: Option<JsonValue>) -> Option<Seq<char>> {
    match o {
        Some(JsonValue::String(s)) => Some(s),
        _ => None,
    }
}

/// The `model` of a request, or the empty string.
pub open spec fn requested_model(request: JsonValue) -> Seq<char> {
    match opt_str(request.get("model"@)) {
        Some(s) => s,
        None => Seq::empty(),
    }
}

/// Whether a request has a non-empty `messages` array.
pub open spec fn has_messages(request: JsonValue) -> bool {
    match request.get("messages"@) {
        Some(JsonValue::Array(ms)) => ms.len() > 0,
        _ => false,
    }
}

/// `/metadata/policy_profile` of a request, when it is a string.
pub open spec fn policy_profile(request: JsonValue) -> Option<Seq<char>> {
    opt_str(then_step(request.step("metadata"@), "policy_profile"@))
}

/// `/response_format/type` of a request, when it is a string.
pub open spec fn response_format_type(request: JsonValue) -> Option<Seq<char>> {
    opt_str(then_step(request.step("response_format"@), "type"@))
}

/// Why an OpenAI chat completion request is refused, if it is: the status,
/// code and message of the answer. A request needs a non-empty `model` and a
/// non-empty `messages` array; a string `metadata.policy_profile` must be
/// `local_only` or `external_allowed`; a string `response_format.type` must be
/// `json_object` or `json_schema`.
pub open spec fn request_problem(request: JsonValue) -> Option<(u16, Seq<char>, Seq<char>)> {
    if requested_model(request).len() == 0 || !has_messages(request) {
        Some((400, "invalid_request"@, "model and messages are required"@))
    } else if policy_profile(request) matches Some(p) && p != "local_only"@ && p
        != "external_allowed"@ {
        Some(
            (
                400,
                "invalid_request"@,
                "metadata.policy_profile must be local_only or external_allowed"@,
            ),
        )
    } else if response_format_type(request) matches Some(t) && t != "json_object"@ && t
        != "json_schema"@ {
        Some((422, "model_not_capable"@, "response_format type is not supported"@))
    } else {
        None
    }
}

/// Step into `o`, as `Option::and_then` with `Value::pointer` steps.
fn opt_step<'a>(o: Option<&'a Json>, tok: &str) -> (r: Option<&'a Json>)
    ensures
        opt_view(r) == then_step(opt_view(o), tok@),
{
    match o {
        Some(v) => v.step(tok),
        None => None,
    }
}

/// The string at `o`, if it is one.
fn opt_as_str<'a>(o: Option<&'a Json>) -> (r: Option<&'a str>)
    ensures
        match r {
            Some(s) => opt_str(opt_view(o)) == Some(s@),
            None => opt_str(opt_view(o)) is None,
        },
{
    match o {
        Some(v) => v.as_str(),
        None => None,
    }
}

/// Checks the fields of an OpenAI chat completion request that the gateway
/// relies on (see `request_problem`).
pub fn validate_openai_request(request: &Json) -> (r: Result<(), GatewayError>)
    ensures
        match r {
            Ok(_) => request_problem(request@) is None,
            Err(e) => request_problem(request@) matches Some((status, code, message))
                && e.status == status && e.body@ == error_body(code, message),
        },
{
    let model_ok = match opt_as_str(request.get("model")) {
        Some(m) => m.unicode_len() > 0,
        None => false,
    };
    let messages_ok = match request.get("messages") {
        Some(Json::Array(ms)) => ms.len() > 0,
        _ => false,
    };
    if !model_ok || !messages_ok {
        return Err(openai_error(400, "invalid_request", "model and messages are required"));
    }
    match opt_as_str(opt_step(request.step("metadata"), "policy_profile")) {
        Some(profile) => {
            if !str_eq(profile, "local_only") && !str_eq(profile, "external_allowed") {
                return Err(
                    openai_error(
                        400,
                        "invalid_request",
                        "metadata.policy_profile must be local_only or external_allowed",
                    ),
                );
            }
        },
        None => {},
    }
    match opt_as_str(opt_step(request.step("response_format"), "type")) {
        Some(kind) => {
            if !str_eq(kind, "json_object") && !str_eq(kind, "json_schema") {
                return Err(
                    openai_error(422, "model_not_capable", "response_format type is not supported"),
                );
            }
        },
        None => {},
    }
    Ok(())
}

/// The answer to model output that does not fit the requested format.
pub fn structured_output_error() -> (e: GatewayError)
    ensures
        e.status == 422,
        e.body@ == error_body(
            "structured_output_invalid"@,
            "model output is not valid for the requested structured format"@,
        ),
{
    openai_error(
        422,
        "structured_output_invalid",
        "model output is not valid for the requested structured format",
    )
}

/// `/choices/0/message/content` of a completion, when it is a string.
pub open spec fn completion_content(response: JsonValue) -> Option<Seq<char>> {
    opt_str(
        then_step(
            then_step(then_step(response.step("choices"@), "0"@), "message"@),
            "content"@,
        ),
    )
}

/// The message content of a completion, which structured output checks
/// read as a JSON document.
pub fn structured_output_content(response: &Json) -> (r: Option<String>)
    ensures
        match r {
            Some(s) => completion_content(response@) == Some(s@),
            None => completion_content(response@) is None,
        },
{
    let choices = response.step("choices");
    let first = opt_step(choices, "0");
    let message = opt_step(first, "message");
    match opt_as_str(opt_step(message, "content")) {
        Some(s) => Some(owned(s)),
        None => None,
    }
}

/// `/response_format/json_schema/schema` of a request.
pub open spec fn requested_schema(request: JsonValue) -> Option<JsonValue> {
    then_step(
        then_step(request.step("response_format"@), "json_schema"@),
        "schema"@,
    )
}

/// Whether a completion meets the structured output format of its request:
/// with no string `response_format.type` anything goes; otherwise the
/// message content must have parsed as JSON (`document`), and for
/// `json_schema` with a schema given the document must satisfy it.
pub open spec fn structured_output_valid(
    request: JsonValue,
    response: JsonValue,
    document: Option<JsonValue>,
) -> bool {
    match response_format_type(request) {
        None => true,
        Some(kind) => {
            &&& completion_content(response) is Some
            &&& document is Some
            &&& (kind == "json_schema"@ && requested_schema(request) is Some) ==> schema_matches(
                document->0,
                requested_schema(request)->0,
            )
        },
    }
}

/// The message content of a completion read as JSON, if it is a string of
/// JSON text.
pub open spec fn content_document(response: JsonValue) -> Option<JsonValue> {
    match completion_content(response) {
        Some(c) => json_text_value(c),
        None => None,
    }
}

/// Checks a non-streamed completion against the structured output format
/// of its request; the message content is read as JSON with `serde_json`.
pub fn validate_structured_output(request: &Json, response: &Json) -> (r: Result<(), GatewayError>)
    ensures
        match r {
            Ok(_) => structured_output_valid(request@, response@, content_document(response@)),
            Err(e) => !structured_output_valid(request@, response@, content_document(response@))
                && e.status == 422 && e.body@ == error_body(
                "structured_output_invalid"@,
                "model output is not valid for the requested structured format"@,
            ),
        },
{
    let format_type = match opt_as_str(opt_step(request.step("response_format"), "type")) {
        Some(t) => t,
        None => {
            return Ok(());
        },
    };
    let content = match structured_output_content(response) {
        Some(c) => c,
        None => {
            return Err(structured_output_error());
        },
    };
    let doc = match parse_json(content.as_str()) {
        Some(d) => d,
        None => {
            return Err(structured_output_error());
        },
    };
    if str_eq(format_type, "json_schema") {
        let schema = opt_step(opt_step(request.step("response_format"), "json_schema"), "schema");
        match schema {
            Some(s) => {
                if !matches_schema(&doc, s) {
                    return Err(structured_output_error());
                }
            },
            None => {},
        }
    }
    Ok(())
}

/// The gateway metadata added to a non-streamed completion under `mj`:
/// provider, endpoint id, requested and resolved model, the model digest
/// from the model details, the structured output mode, the latency, and the
/// inference latency in milliseconds from the runtime's `eval_duration` in
/// nanoseconds. The mode is one of the documented `native | prompt_fallback |
/// unsupported`: `native` when a response format was requested (the runtime
/// applies it itself), and `unsupported` when none was, since then no
/// structured output was produced.
pub open spec fn provenance(
    body: JsonValue,
    provider: Seq<char>,
    endpoint_id: Seq<char>,
    requested_model: Seq<char>,
    details: Option<JsonValue>,
    latency_ms: u64,
    structured_mode: Option<Seq<char>>,
) -> JsonValue {
    JsonValue::Object(
        seq![
            ("provider"@, JsonValue::String(provider)),
            ("endpoint_id"@, JsonValue::String(endpoint_id)),
            ("requested_model"@, JsonValue::String(requested_model)),
            (
                "resolved_model"@,
                match body.get("model"@) {
                    Some(v) => v,
                    None => JsonValue::Null,
                },
            ),
            (
                "model_digest"@,
                match details {
                    Some(d) => match d.get("digest"@) {
                        Some(v) => v,
                        None => JsonValue::Null,
                    },
                    None => JsonValue::Null,
                },
            ),
            (
                "structured_output_mode"@,
                JsonValue::String(
                    if structured_mode is Some {
                        "native"@
                    } else {
                        "unsupported"@
                    },
                ),
            ),
            ("latency_ms"@, JsonValue::Number(NumberValue::PosInt(latency_ms))),
            ("queue_latency_ms"@, JsonValue::Null),
            (
                "inference_latency_ms"@,
                match body.get("eval_duration"@) {
                    Some(JsonValue::Number(NumberValue::PosInt(ns))) => JsonValue::Number(
                        NumberValue::PosInt((ns / 1_000_000) as u64),
                    ),
                    _ => JsonValue::Null,
                },
            ),
        ],
    )
}

/// The model of an optional string.
pub open spec fn opt_text(s: Option<&str>) -> Option<Seq<char>> {
    match s {
        Some(t) => Some(t@),
        None => None,
    }
}

fn copy_or_null(v: Option<&Json>) -> (r: Json)
    ensures
        r@ == match opt_view(v) {
            Some(x) => x,
            None => JsonValue::Null,
        },
{
    match v {
        Some(x) => x.copy(),
        None => Json::Null,
    }
}

/// Adds the gateway metadata (see `provenance`) to a completion object
/// under `mj`; a body that is not an object is left as it is.
pub fn enrich_completion(
    body: &mut Json,
    provider: &str,
    endpoint_id: &str,
    requested_model: &str,
    details: Option<&Json>,
    latency_ms: u64,
    structured_mode: Option<&str>,
)
    ensures
        final(body)@ == old(body)@.with_field(
            "mj"@,
            provenance(
                old(body)@,
                provider@,
                endpoint_id@,
                requested_model@,
                opt_view(details),
                latency_ms,
                opt_text(structured_mode),
            ),
        ),
{
    let resolved = copy_or_null(body.get("model"));
    let digest = match details {
        Some(d) => copy_or_null(d.get("digest")),
        None => Json::Null,
    };
    let inference = match body.get("eval_duration") {
        Some(v) => match v.as_u64() {
            Some(ns) => Json::Number(JsonNumber::PosInt(ns / 1_000_000)),
            None => Json::Null,
        },
        None => Json::Null,
    };
    let mode = match structured_mode {
        Some(_) => "native",
        None => "unsupported",
    };
    let mut fields: Vec<(String, Json)> = Vec::new();
    fields.push((owned("provider"), Json::string(provider)));
    fields.push((owned("endpoint_id"), Json::string(endpoint_id)));
    fields.push((owned("requested_model"), Json::string(requested_model)));
    fields.push((owned("resolved_model"), resolved));
    fields.push((owned("model_digest"), digest));
    fields.push((owned("structured_output_mode"), Json::string(mode)));
    fields.push((owned("latency_ms"), Json::Number(JsonNumber::PosInt(latency_ms))));
    fields.push((owned("queue_latency_ms"), Json::Null));
    fields.push((owned("inference_latency_ms"), inference));
    let mj = Json::object(fields);
    assert(fields_model(fields@) =~= provenance(
        old(body)@,
        provider@,
        endpoint_id@,
        requested_model@,
        opt_view(details),
        latency_ms,
        opt_text(structured_mode),
    )->Object_0);
    body.insert(owned("mj"), mj);
}

/// What the gateway takes from an OpenAI request before sending it on.
#[derive(Debug)]
pub struct CompletionPlan {
    pub streaming: bool,
    pub structured_mode: Option<String>,
    pub requested_model: String,
    pub timeout_ms: u64,
}

/// `metadata.timeout_ms` of a request (120000 when it is not an unsigned
/// integer), clamped to 100..=600000.
pub open spec fn timeout_of(request: JsonValue) -> u64 {
    let t: u64 = match then_step(request.step("metadata"@), "timeout_ms"@) {
        Some(JsonValue::Number(NumberValue::PosInt(n))) => n,
        _ => 120_000,
    };
    if t < 100 {
        100
    } else if t > 600_000 {
        600_000
    } else {
        t
    }
}

/// Reads what the gateway needs of an OpenAI request (whether it streams,
/// its structured output mode, its model and timeout) and drops its
/// `metadata`, which is for the gateway only.
pub fn plan_completion(request: &mut Json) -> (plan: CompletionPlan)
    ensures
        plan.streaming == crate::runtime::wants_stream(old(request)@),
        match plan.structured_mode {
            Some(m) => response_format_type(old(request)@) == Some(m@),
            None => response_format_type(old(request)@) is None,
        },
        plan.requested_model@ == requested_model(old(request)@),
        plan.timeout_ms == timeout_of(old(request)@),
        final(request)@ == old(request)@.without_field("metadata"@),
{
    let streaming = crate::runtime::request_streaming(request);
    let structured_mode = match opt_as_str(opt_step(request.step("response_format"), "type")) {
        Some(m) => Some(owned(m)),
        None => None,
    };
    let requested = match opt_as_str(request.get("model")) {
        Some(m) => owned(m),
        None => String::new(),
    };
    let raw: u64 = match opt_step(request.step("metadata"), "timeout_ms") {
        Some(v) => match v.as_u64() {
            Some(n) => n,
            None => 120_000,
        },
        None => 120_000,
    };
    let timeout_ms = if raw < 100 {
        100
    } else if raw > 600_000 {
        600_000
    } else {
        raw
    };
    request.remove("metadata");
    CompletionPlan { streaming, structured_mode, requested_model: requested, timeout_ms }
}

/// The answer when the runtime answered in the other streaming mode than the
/// one requested, if it did.
pub fn check_completion_mode(requested_stream: bool, got_stream: bool) -> (r: Result<(), GatewayError>)
    ensures
        match r {
            Ok(_) => requested_stream == got_stream,
            Err(e) => requested_stream != got_stream && e.status == 502 && e.body@ == error_body(
                "upstream_error"@,
                "model runtime returned a response with the wrong streaming mode"@,
            ),
        },
{
    if requested_stream == got_stream {
        Ok(())
    } else {
        Err(
            openai_error(
                502,
                "upstream_error",
                "model runtime returned a response with the wrong streaming mode",
            ),
        )
    }
}

/// The first decision on an OpenAI chat completion request.
#[derive(Debug)]
pub enum CompletionStart {
    /// Answer with this error; the runtime is not called.
    Refuse(GatewayError),
    /// Send the (planned) request to the runtime.
    Call(CompletionPlan),
}

/// Decides whether a chat completion request goes to the runtime: a
/// request with a problem (see `request_problem`) is refused and left as it
/// is, before any runtime call; otherwise it is planned (see
/// `plan_completion`) and its `metadata` removed.
pub fn begin_completion(request: &mut Json) -> (start: CompletionStart)
    ensures
        match start {
            CompletionStart::Refuse(e) => request_problem(old(request)@) matches Some(
                (status, code, message),
            ) && e.status == status && e.body@ == error_body(code, message) && final(request)@
                == old(request)@,
            CompletionStart::Call(plan) => {
                &&& request_problem(old(request)@) is None
                &&& plan.streaming == crate::runtime::wants_stream(old(request)@)
                &&& match plan.structured_mode {
                    Some(m) => response_format_type(old(request)@) == Some(m@),
                    None => response_format_type(old(request)@) is None,
                }
                &&& plan.requested_model@ == requested_model(old(request)@)
                &&& plan.timeout_ms == timeout_of(old(request)@)
                &&& final(request)@ == old(request)@.without_field("metadata"@)
            },
        },
{
    match validate_openai_request(request) {
        Err(e) => CompletionStart::Refuse(e),
        Ok(_) => CompletionStart::Call(plan_completion(request)),
    }
}

/// What the gateway does with the runtime's reply to a chat completion.
#[derive(Debug)]
pub enum ReplyAction {
    /// Relay the runtime's event stream.
    Relay,
    /// Fetch the model details and answer with the enriched completion.
    Enrich,
    /// Answer with this error; the model details are not fetched.
    Refuse(GatewayError),
}

/// `e` is the answer to a reply in the other streaming mode.
pub open spec fn is_wrong_mode_error(e: GatewayError) -> bool {
    e.status == 502 && e.body@ == error_body(
        "upstream_error"@,
        "model runtime returned a response with the wrong streaming mode"@,
    )
}

/// Decides what to do with the runtime's reply (`Ok(None)` for an event
/// stream, `Ok(Some(body))` for a completion body, or its error; a timeout
/// is `RuntimeError::timed_out`): a runtime error is answered by its code; a
/// reply in the other streaming mode than requested is refused; a stream is
/// relayed; a completion body is checked against the requested structured
/// output format (see `validate_structured_output`), and only when it passes
/// are the model details fetched to enrich it.
pub fn check_reply(
    request: &Json,
    streaming: bool,
    reply: Result<Option<&Json>, RuntimeError>,
) -> (action: ReplyAction)
    ensures
        match reply {
            Err(e) => action matches ReplyAction::Refuse(g) && g.status == openai_status(e.code)
                && g.body@ == error_body(code_name(e.code), e.message@),
            Ok(None) => if streaming {
                action is Relay
            } else {
                action matches ReplyAction::Refuse(g) && is_wrong_mode_error(g)
            },
            Ok(Some(body)) => if streaming {
                action matches ReplyAction::Refuse(g) && is_wrong_mode_error(g)
            } else if structured_output_valid(request@, body@, content_document(body@)) {
                action is Enrich
            } else {
                action matches ReplyAction::Refuse(g) && g.status == 422 && g.body@ == error_body(
                    "structured_output_invalid"@,
                    "model output is not valid for the requested structured format"@,
                )
            },
        },
{
    match reply {
        Err(e) => ReplyAction::Refuse(runtime_openai_error(e)),
        Ok(None) => match check_completion_mode(streaming, true) {
            Ok(_) => ReplyAction::Relay,
            Err(g) => ReplyAction::Refuse(g),
        },
        Ok(Some(body)) => match check_completion_mode(streaming, false) {
            Err(g) => ReplyAction::Refuse(g),
            Ok(_) => match validate_structured_output(request, body) {
                Ok(_) => ReplyAction::Enrich,
                Err(g) => ReplyAction::Refuse(g),
            },
        },
    }
}

/// What the OpenAI stream relay does with one runtime event.
#[derive(Debug)]
pub enum RelayStep {
    /// Send the chunk as a `data:` line.
    Forward(Json),
    /// Send `data: [DONE]` and stop.
    Finish,
    /// Nothing to send.
    Skip,
    /// Send the error envelope, then `data: [DONE]`, and stop.
    Fail(Json),
}

/// The relay step for one event of an OpenAI chat completion stream: chunks
/// are forwarded, the end is announced, other events are skipped, and a
/// failure is reported with the gateway's error envelope.
pub fn relay_step(event: Result<RuntimeEvent, RuntimeError>) -> (step: RelayStep)
    ensures
        match event {
            Ok(RuntimeEvent::OpenAiChunk(v)) => step matches RelayStep::Forward(c) && c@ == v@,
            Ok(RuntimeEvent::Done) => step is Finish,
            Ok(_) => step is Skip,
            Err(e) => step matches RelayStep::Fail(env) && env@ == error_body(
                code_name(e.code),
                e.message@,
            ),
        },
{
    match event {
        Ok(RuntimeEvent::OpenAiChunk(v)) => RelayStep::Forward(v),
        Ok(RuntimeEvent::Done) => RelayStep::Finish,
        Ok(_) => RelayStep::Skip,
        Err(e) => RelayStep::Fail(runtime_openai_error(e).body),
    }
}

/// A server-sent event of the hub's own API: its name and JSON data.
#[derive(Debug)]
pub struct SseFrame {
    pub event: String,
    pub data: Json,
}

/// `{"<key>": "<value>"}`.
pub open spec fn single_field(key: Seq<char>, value: Seq<char>) -> JsonValue {
    JsonValue::Object(seq![(key, JsonValue::String(value))])
}

/// `{"<key>": "<value>"}`.
pub fn single_field_object(key: &str, value: &str) -> (j: Json)
    ensures
        j@ == single_field(key@, value@),
{
    let mut fields: Vec<(String, Json)> = Vec::new();
    fields.push((owned(key), Json::string(value)));
    let j = Json::object(fields);
    assert(fields_model(fields@) =~= single_field(key@, value@)->Object_0);
    j
}

/// The frame named `event` with `data`.
pub open spec fn frame_is(frame: SseFrame, event: Seq<char>, data: JsonValue) -> bool {
    frame.event@ == event && frame.data@ == data
}

/// `o` is the frame named `event` with `data`.
pub open spec fn sends(o: Option<SseFrame>, event: Seq<char>, data: JsonValue) -> bool {
    match o {
        Some(f) => frame_is(f, event, data),
        None => false,
    }
}

fn frame(event: &str, data: Json) -> (f: SseFrame)
    ensures
        frame_is(f, event@, data@),
{
    SseFrame { event: owned(event), data }
}

/// The frame for one event of an install stream, and whether the stream
/// ends there: progress is relayed, the end is announced with `done` and
/// `{}`, other events are skipped, and a failure is reported by its code.
pub fn install_step(event: Result<RuntimeEvent, RuntimeError>) -> (r: (Option<SseFrame>, bool))
    ensures
        match event {
            Ok(RuntimeEvent::Progress(v)) => !r.1 && sends(r.0, "progress"@, v@),
            Ok(RuntimeEvent::Done) => r.1 && sends(r.0, "done"@, JsonValue::Object(Seq::empty())),
            Ok(_) => !r.1 && r.0 is None,
            Err(e) => r.1 && sends(r.0, "error"@, single_field("error"@, code_name(e.code))),
        },
{
    match event {
        Ok(RuntimeEvent::Progress(v)) => (Some(frame("progress", v)), false),
        Ok(RuntimeEvent::Done) => {
            let empty = Json::object(Vec::new());
            assert(fields_model(Seq::<(String, Json)>::empty()) =~= Seq::empty());
            (Some(frame("done", empty)), true)
        },
        Ok(_) => (None, false),
        Err(e) => (Some(frame("error", single_field_object("error", e.code.as_str()))), true),
    }
}

/// The reply accumulated from a chat stream.
pub struct ChatTranscript {
    assistant: String,
}

impl View for ChatTranscript {
    type V = Seq<char>;

    closed spec fn view(&self) -> Seq<char> {
        self.assistant@
    }
}

impl ChatTranscript {
    /// A transcript with nothing said yet.
    pub fn new() -> (t: ChatTranscript)
        ensures
            t@ == Seq::<char>::empty(),
    {
        ChatTranscript { assistant: String::new() }
    }

    /// Takes one event of the runtime's chat stream: a token is added to the
    /// reply and relayed as `token`, metrics are relayed as `metrics`, the
    /// end stops the stream, other events are skipped, and a failure is
    /// reported by its code and stops the stream. Gives the frame to send and
    /// whether the stream ends.
    pub fn step(&mut self, event: Result<RuntimeEvent, RuntimeError>) -> (r: (Option<SseFrame>, bool))
        ensures
            match event {
                Ok(RuntimeEvent::Token(t)) => final(self)@ == old(self)@ + t@ && !r.1 && sends(
                    r.0,
                    "token"@,
                    single_field("content"@, t@),
                ),
                Ok(RuntimeEvent::Metrics(v)) => final(self)@ == old(self)@ && !r.1 && sends(
                    r.0,
                    "metrics"@,
                    v@,
                ),
                Ok(RuntimeEvent::Done) => final(self)@ == old(self)@ && r.1 && r.0 is None,
                Ok(_) => final(self)@ == old(self)@ && !r.1 && r.0 is None,
                Err(e) => final(self)@ == old(self)@ && r.1 && sends(
                    r.0,
                    "error"@,
                    single_field("error"@, code_name(e.code)),
                ),
            },
    {
        match event {
            Ok(RuntimeEvent::Token(t)) => {
                self.assistant.append(t.as_str());
                (Some(frame("token", single_field_object("content", t.as_str()))), false)
            },
            Ok(RuntimeEvent::Metrics(v)) => (Some(frame("metrics", v)), false),
            Ok(RuntimeEvent::Done) => (None, true),
            Ok(_) => (None, false),
            Err(e) => (Some(frame("error", single_field_object("error", e.code.as_str()))), true),
        }
    }

    /// The conversation to store at the end of the chat: the request's
    /// messages followed by the assistant's reply.
    pub fn finish(
        self,
        id: String,
        title: String,
        model: String,
        messages: Vec<ChatMessage>,
        now: u64,
    ) -> (c: Conversation)
        ensures
            c.id@ == id@,
            c.title@ == title@,
            c.model@ == model@,
            messages_view(c.messages@) == messages_view(messages@).push(
                crate::domain::MessageView { role: "assistant"@, content: self@ },
            ),
            c.updated_at_epoch_seconds == now,
    {
        let mut saved = messages;
        let ghost before = messages_view(saved@);
        saved.push(ChatMessage { role: owned("assistant"), content: self.assistant });
        assert(messages_view(saved@) =~= before.push(
            crate::domain::MessageView { role: "assistant"@, content: self@ },
        ));
        Conversation { id, title, model, messages: saved, updated_at_epoch_seconds: now }
    }
}

/// The `meta` frame that opens a chat stream.
pub fn chat_meta_frame(conversation_id: &str) -> (f: SseFrame)
    ensures
        frame_is(f, "meta"@, single_field("conversation_id"@, conversation_id@)),
{
    frame("meta", single_field_object("conversation_id", conversation_id))
}

/// The `done` frame that closes a chat stream.
pub fn chat_done_frame(conversation_id: &str) -> (f: SseFrame)
    ensures
        frame_is(f, "done"@, single_field("conversation_id"@, conversation_id@)),
{
    frame("done", single_field_object("conversation_id", conversation_id))
}

/// The `error` frame for a conversation that could not be saved.
pub fn save_failed_frame(reason: &str) -> (f: SseFrame)
    ensures
        frame_is(f, "error"@, single_field("error"@, "대화 저장 실패: "@ + reason@)),
{
    let mut text = owned("대화 저장 실패: ");
    text.append(reason);
    frame("error", single_field_object("error", text.as_str()))
}

/// `i` is the position of the first message whose role is `user`.
pub open spec fn is_first_user(messages: Seq<crate::domain::MessageView>, i: int) -> bool {
    &&& 0 <= i < messages.len()
    &&& messages[i].role == "user"@
    &&& forall|j: int| 0 <= j < i ==> messages[j].role != "user"@
}

/// The title of a new conversation: the first 42 characters of the first
/// user message, or `새 대화` when there is none.
pub open spec fn title_of(messages: Seq<crate::domain::MessageView>) -> Seq<char> {
    if exists|i: int| is_first_user(messages, i) {
        let c = messages[choose|i: int| is_first_user(messages, i)].content;
        if c.len() <= 42 {
            c
        } else {
            c.take(42)
        }
    } else {
        "새 대화"@
    }
}

/// The title of a new conversation (see `title_of`).
pub fn conversation_title(messages: &Vec<ChatMessage>) -> (t: String)
    ensures
        t@ == title_of(messages_view(messages@)),
{
    let ghost mv = messages_view(messages@);
    let mut i: usize = 0;
    while i < messages.len()
        invariant
            i <= messages@.len(),
            mv == messages_view(messages@),
            forall|j: int| 0 <= j < i ==> mv[j].role != "user"@,
        decreases messages.len() - i,
    {
        if str_eq(messages[i].role.as_str(), "user") {
            assert(is_first_user(mv, i as int));
            let ghost c = choose|k: int| is_first_user(mv, k);
            assert(c == i) by {
                if c < i {
                    assert(mv[c].role == "user"@);
                } else if c > i {
                    assert(mv[i as int].role == "user"@);
                }
            }
            let content = messages[i].content.as_str();
            let n = content.unicode_len();
            if n <= 42 {
                return owned(content);
            } else {
                return owned(content.substring_char(0, 42));
            }
        }
        i = i + 1;
    }
    assert(!exists|k: int| is_first_user(mv, k));
    owned("새 대화")
}

/// A UUID in hyphenated lowercase form: 36 characters, `-` at positions 8,
/// 13, 18 and 23, and lowercase hexadecimal digits elsewhere.
pub open spec fn is_hyphenated_uuid(s: Seq<char>) -> bool {
    &&& s.len() == 36
    &&& forall|i: int|
        0 <= i < 36 ==> if i == 8 || i == 13 || i == 18 || i == 23 {
            s[i] == '-'
        } else {
            ('0' <= #[trigger] s[i] <= '9') || ('a' <= s[i] <= 'f')
        }
}

/// A version 4 UUID of the RFC 4122 variant in hyphenated lowercase form:
/// the version digit `4` at position 14 and a variant digit `8`, `9`, `a` or
/// `b` at position 19.
pub open spec fn is_v4_uuid(s: Seq<char>) -> bool {
    &&& is_hyphenated_uuid(s)
    &&& s[14] == '4'
    &&& s[19] == '8' || s[19] == '9' || s[19] == 'a' || s[19] == 'b'
}

/// `uuid::Uuid::new_v4().to_string()`: a random UUID with the version and
/// variant bits of a v4 UUID set, which `Display` writes hyphenated in
/// lowercase hexadecimal; nothing is stated of its random digits.
#[verifier::external_body]
fn new_conversation_id() -> (id: String)
    ensures
        is_v4_uuid(id@),
{
    uuid::Uuid::new_v4().to_string()
}

/// The id of the conversation a chat belongs to: the requested one, or a
/// new random version 4 UUID.
pub fn conversation_id_or_new(requested: Option<String>) -> (id: String)
    ensures
        match requested {
            Some(r) => id@ == r@,
            None => is_v4_uuid(id@),
        },
{
    match requested {
        Some(r) => r,
        None => new_conversation_id(),
    }
}

/// Whether a request carries the session token: as the `x-local-token`
/// header, or as `Authorization: Bearer <token>`.
pub open spec fn authorized(
    local_token: Option<Seq<char>>,
    authorization: Option<Seq<char>>,
    token: Seq<char>,
) -> bool {
    local_token == Some(token) || (authorization matches Some(a) && has_prefix(a, "Bearer "@)
        && a.subrange("Bearer "@.len() as int, a.len() as int) == token)
}

/// Whether a request carries the session token (see `authorized`); a header
/// that is not visible ASCII is passed as `None`.
pub fn is_authorized(local_token: Option<&str>, authorization: Option<&str>, token: &str) -> (r:
    bool)
    ensures
        r == authorized(opt_text(local_token), opt_text(authorization), token@),
{
    let local_ok = match local_token {
        Some(t) => str_eq(t, token),
        None => false,
    };
    if local_ok {
        return true;
    }
    match authorization {
        Some(a) => match strip_prefix(a, "Bearer ") {
            Some(rest) => str_eq(rest.as_str(), token),
            None => false,
        },
        None => false,
    }
}

/// The hub's own error answer: a status and a message.
pub open spec fn api_error_is(e: (u16, ApiError), status: u16, message: Seq<char>) -> bool {
    e.0 == status && e.1.error@ == message
}

fn api_error(status: u16, message: &str) -> (e: (u16, ApiError))
    ensures
        api_error_is(e, status, message@),
{
    (status, ApiError { error: owned(message) })
}

/// The answer to a request without the session token.
pub fn unauthorized_error() -> (e: (u16, ApiError))
    ensures
        api_error_is(e, 401, "유효한 로컬 세션 토큰이 필요합니다."@),
{
    api_error(401, "유효한 로컬 세션 토큰이 필요합니다.")
}

/// The answer to an install request for a model outside the catalog.
pub fn unknown_model_error() -> (e: (u16, ApiError))
    ensures
        api_error_is(e, 400, "카탈로그에 없는 모델입니다."@),
{
    api_error(400, "카탈로그에 없는 모델입니다.")
}

/// Checks a chat request of the hub's own chat screen: it needs messages.
pub fn validate_chat_messages(messages: &Vec<ChatMessage>) -> (r: Result<(), (u16, ApiError)>)
    ensures
        match r {
            Ok(_) => messages@.len() > 0,
            Err(e) => messages@.len() == 0 && api_error_is(e, 400, "메시지가 필요합니다."@),
        },
{
    if messages.len() == 0 {
        Err(api_error(400, "메시지가 필요합니다."))
    } else {
        Ok(())
    }
}

/// The answer to deleting a conversation: 204 when it was removed, else 404.
pub fn delete_answer(removed: bool) -> (r: Result<u16, (u16, ApiError)>)
    ensures
        match r {
            Ok(status) => removed && status == 204,
            Err(e) => !removed && api_error_is(e, 404, "대화를 찾지 못했습니다."@),
        },
{
    if removed {
        Ok(204)
    } else {
        Err(api_error(404, "대화를 찾지 못했습니다."))
    }
}

/// The answer when the runtime could not be used: 502, naming the error code.
pub fn runtime_error(error: RuntimeError) -> (e: (u16, ApiError))
    ensures
        api_error_is(e, 502, "로컬 런타임 연결 실패: "@ + code_name(error.code)),
{
    let mut message = owned("로컬 런타임 연결 실패: ");
    message.append(error.code.as_str());
    (502, ApiError { error: message })
}

/// The answer to an internal failure: 500 with its description.
pub fn internal_error(description: &str) -> (e: (u16, ApiError))
    ensures
        api_error_is(e, 500, description@),
{
    api_error(500, description)
}

/// The page with the session token put in for each `__TOKEN_VALUE__`.
pub fn render_index(template: &str, token: &str) -> (page: String)
    ensures
        page@ == replace_all(template@, "__TOKEN_VALUE__"@, token@),
{
    replace(template, "__TOKEN_VALUE__", token)
}

/// `strings` as a JSON array of strings.
pub open spec fn string_array(strings: Seq<Seq<char>>) -> JsonValue {
    JsonValue::Array(strings.map_values(|t: Seq<char>| JsonValue::String(t)))
}

/// The JSON form of runtime capabilities.
pub open spec fn capabilities_model(c: RuntimeCapabilities) -> JsonValue {
    JsonValue::Object(
        seq![
            ("install"@, JsonValue::Bool(c.install)),
            ("chat"@, JsonValue::Bool(c.chat)),
            ("chat_completions"@, JsonValue::Bool(c.chat_completions)),
            ("streaming"@, JsonValue::Bool(c.streaming)),
            ("structured_output"@, string_array(strings_view(c.structured_output@))),
            ("embeddings"@, JsonValue::Bool(c.embeddings)),
            ("model_details"@, JsonValue::Bool(c.model_details)),
        ],
    )
}

/// The JSON form of runtime capabilities.
pub fn capabilities_json(c: &RuntimeCapabilities) -> (j: Json)
    ensures
        j@ == capabilities_model(*c),
{
    let mut formats: Vec<Json> = Vec::new();
    let mut i: usize = 0;
    while i < c.structured_output.len()
        invariant
            i <= c.structured_output@.len(),
            formats@.len() == i,
            forall|k: int|
                0 <= k < i ==> (#[trigger] formats@[k])@ == JsonValue::String(
                    c.structured_output@[k]@,
                ),
        decreases c.structured_output.len() - i,
    {
        formats.push(Json::string(c.structured_output[i].as_str()));
        i = i + 1;
    }
    let array = Json::Array(formats);
    assert(array@ == string_array(strings_view(c.structured_output@))) by {
        assert(array@->Array_0 =~= string_array(strings_view(c.structured_output@))->Array_0);
    }
    let mut fields: Vec<(String, Json)> = Vec::new();
    fields.push((owned("install"), Json::Bool(c.install)));
    fields.push((owned("chat"), Json::Bool(c.chat)));
    fields.push((owned("chat_completions"), Json::Bool(c.chat_completions)));
    fields.push((owned("streaming"), Json::Bool(c.streaming)));
    fields.push((owned("structured_output"), array));
    fields.push((owned("embeddings"), Json::Bool(c.embeddings)));
    fields.push((owned("model_details"), Json::Bool(c.model_details)));
    let j = Json::object(fields);
    assert(fields_model(fields@) =~= capabilities_model(*c)->Object_0);
    j
}

/// One entry of the OpenAI model list.
pub open spec fn model_entry(id: Seq<char>, provider: Seq<char>, c: RuntimeCapabilities) -> JsonValue {
    JsonValue::Object(
        seq![
            ("id"@, JsonValue::String(id)),
            ("object"@, JsonValue::String("model"@)),
            ("owned_by"@, JsonValue::String("local"@)),
            (
                "mj"@,
                JsonValue::Object(
                    seq![
                        ("provider"@, JsonValue::String(provider)),
                        ("capabilities"@, capabilities_model(c)),
                    ],
                ),
            ),
        ],
    )
}

/// The OpenAI model list (`/v1/models`) of the installed models.
pub open spec fn model_list(installed: Seq<Seq<char>>, provider: Seq<char>, c: RuntimeCapabilities) -> JsonValue {
    JsonValue::Object(
        seq![
            ("object"@, JsonValue::String("list"@)),
            (
                "data"@,
                JsonValue::Array(installed.map_values(|id: Seq<char>| model_entry(id, provider, c))),
            ),
        ],
    )
}

fn model_entry_json(id: &str, provider: &str, caps: &Json, c: &RuntimeCapabilities) -> (j: Json)
    requires
        caps@ == capabilities_model(*c),
    ensures
        j@ == model_entry(id@, provider@, *c),
{
    let mut mj: Vec<(String, Json)> = Vec::new();
    mj.push((owned("provider"), Json::string(provider)));
    mj.push((owned("capabilities"), caps.copy()));
    let mj_json = Json::object(mj);
    assert(fields_model(mj@) =~= model_entry(id@, provider@, *c)->Object_0[3].1->Object_0);
    let mut fields: Vec<(String, Json)> = Vec::new();
    fields.push((owned("id"), Json::string(id)));
    fields.push((owned("object"), Json::string("model")));
    fields.push((owned("owned_by"), Json::string("local")));
    fields.push((owned("mj"), mj_json));
    let j = Json::object(fields);
    assert(fields_model(fields@) =~= model_entry(id@, provider@, *c)->Object_0);
    j
}

/// The OpenAI model list of the runtime's installed models, each owned by
/// `local` and carrying the provider and its capabilities.
pub fn openai_model_list(installed: &Vec<String>, provider: &str, capabilities: &RuntimeCapabilities) -> (j:
    Json)
    ensures
        j@ == model_list(strings_view(installed@), provider@, *capabilities),
{
    let caps = capabilities_json(capabilities);
    let mut data: Vec<Json> = Vec::new();
    let mut i: usize = 0;
    while i < installed.len()
        invariant
            i <= installed@.len(),
            caps@ == capabilities_model(*capabilities),
            data@.len() == i,
            forall|k: int|
                0 <= k < i ==> (#[trigger] data@[k])@ == model_entry(
                    installed@[k]@,
                    provider@,
                    *capabilities,
                ),
        decreases installed.len() - i,
    {
        data.push(model_entry_json(installed[i].as_str(), provider, &caps, capabilities));
        i = i + 1;
    }
    let array = Json::Array(data);
    assert(array@->Array_0 =~= strings_view(installed@).map_values(
        |id: Seq<char>| model_entry(id, provider@, *capabilities),
    ));
    let mut fields: Vec<(String, Json)> = Vec::new();
    fields.push((owned("object"), Json::string("list")));
    fields.push((owned("data"), array));
    let j = Json::object(fields);
    assert(fields_model(fields@) =~= model_list(strings_view(installed@), provider@, *capabilities)->Object_0);
    j
}

/// 24 random bytes (`rand::rng().fill_bytes`); nothing is stated of their
/// values.
#[verifier::external_body]
fn random_token_bytes() -> (bytes: Vec<u8>)
    ensures
        bytes@.len() == 24,
{
    let mut bytes = [0_u8; 24];
    rand::RngCore::fill_bytes(&mut rand::rng(), &mut bytes);
    bytes.to_vec()
}

/// A new session token: 24 random bytes in lowercase hexadecimal.
pub fn generate_token() -> (token: String)
    ensures
        exists|bytes: Seq<u8>| bytes.len() == 24 && token@ == crate::text::hex_lower(bytes),
{
    let bytes = random_token_bytes();
    crate::text::hex_encode(bytes.as_slice())
}

/// A non-streamed completion gets the gateway metadata under `mj`, and
/// every other member of the completion object is returned as the runtime
/// sent it.
pub proof fn law_enrichment_adds_only_provenance(
    fields: Seq<(Seq<char>, JsonValue)>,
    provider: Seq<char>,
    endpoint_id: Seq<char>,
    requested: Seq<char>,
    details: Option<JsonValue>,
    latency_ms: u64,
    structured_mode: Option<Seq<char>>,
    other: Seq<char>,
)
    ensures
        ({
            let body = JsonValue::Object(fields);
            let mj = provenance(body, provider, endpoint_id, requested, details, latency_ms, structured_mode);
            &&& body.with_field("mj"@, mj).get("mj"@) == Some(mj)
            &&& other != "mj"@ ==> body.with_field("mj"@, mj).get(other) == body.get(other)
        }),
{
    let body = JsonValue::Object(fields);
    let mj = provenance(body, provider, endpoint_id, requested, details, latency_ms, structured_mode);
    crate::json::law_set_member_is_read_back(fields, "mj"@, mj);
    if other != "mj"@ {
        crate::json::law_set_member_keeps_others(fields, "mj"@, mj, other);
    }
}

/// The gateway's `metadata` is not sent on to the model runtime: once a
/// request is planned, it has no `metadata` member.
pub proof fn law_metadata_not_forwarded(fields: Seq<(Seq<char>, JsonValue)>)
    requires
        crate::json::distinct_keys(fields),
    ensures
        JsonValue::Object(fields).without_field("metadata"@).get("metadata"@) is None,
{
    crate::json::law_removed_member_is_gone(fields, "metadata"@);
}

/// The structured output mode recorded under `mj` is always one of the
/// documented `native`, `prompt_fallback` and `unsupported`.
pub proof fn law_structured_mode_is_documented(
    body: JsonValue,
    provider: Seq<char>,
    endpoint_id: Seq<char>,
    requested: Seq<char>,
    details: Option<JsonValue>,
    latency_ms: u64,
    structured_mode: Option<Seq<char>>,
)
    ensures
        ({
            let mj = provenance(body, provider, endpoint_id, requested, details, latency_ms, structured_mode);
            &&& mj.get("structured_output_mode"@) matches Some(JsonValue::String(m))
            &&& m == "native"@ || m == "prompt_fallback"@ || m == "unsupported"@
        }),
{
    let mj = provenance(body, provider, endpoint_id, requested, details, latency_ms, structured_mode);
    let fields = mj->Object_0;
    reveal_strlit("structured_output_mode");
    reveal_strlit("provider");
    reveal_strlit("endpoint_id");
    reveal_strlit("requested_model");
    reveal_strlit("resolved_model");
    reveal_strlit("model_digest");
    let key = "structured_output_mode"@;
    assert(fields[0].0 == "provider"@ && fields[1].0 == "endpoint_id"@ && fields[2].0
        == "requested_model"@ && fields[3].0 == "resolved_model"@ && fields[4].0
        == "model_digest"@ && fields[5].0 == key);
    assert forall|j: int| 0 <= j < 5 implies fields[j].0 != key by {
        assert(fields[j].0.len() != key.len());
    }
    assert(crate::json::is_first_field(fields, key, 5));
    let c = choose|i: int| crate::json::is_first_field(fields, key, i);
    assert(c == 5) by {
        if c < 5 {
            assert(fields[c].0 == key);
        } else if c > 5 {
            assert(fields[5].0 == key);
        }
    }
}

/// A chat completion request gets past validation only with a non-empty
/// string `model` and a non-empty `messages` array; without either it is
/// refused with 400 `invalid_request`, whatever else it holds.
pub proof fn law_request_needs_model_and_messages(request: JsonValue)
    ensures
        request_problem(request) is None ==> {
            &&& request.get("model"@) matches Some(JsonValue::String(m)) && m.len() > 0
            &&& request.get("messages"@) matches Some(JsonValue::Array(ms)) && ms.len() > 0
        },
        !(request.get("model"@) matches Some(JsonValue::String(m)) && m.len() > 0) ==> request_problem(
            request,
        ) == Some((400u16, "invalid_request"@, "model and messages are required"@)),
        !(request.get("messages"@) matches Some(JsonValue::Array(ms)) && ms.len() > 0)
            ==> request_problem(request) == Some(
            (400u16, "invalid_request"@, "model and messages are required"@),
        ),
{
}

/// The planned timeout is what `metadata.timeout_ms` asks for, held to
/// 100..=600000 ms: an unsigned integer in that range is taken as it is, a
/// smaller one becomes 100 and a larger one 600000; without one the
/// timeout is 120000 ms.
pub proof fn law_timeout_follows_request(request: JsonValue)
    ensures
        match request.step("metadata"@) {
            Some(m) => match m.step("timeout_ms"@) {
                Some(JsonValue::Number(NumberValue::PosInt(n))) => {
                    &&& 100 <= n <= 600_000 ==> timeout_of(request) == n
                    &&& n < 100 ==> timeout_of(request) == 100
                    &&& n > 600_000 ==> timeout_of(request) == 600_000
                },
                _ => timeout_of(request) == 120_000,
            },
            None => timeout_of(request) == 120_000,
        },
{
}

/// The planned timeout is always between 100 ms and 10 minutes.
pub proof fn law_timeout_is_bounded(request: JsonValue)
    ensures
        100 <= timeout_of(request) <= 600_000,
{
}

/// Exactly the requests that carry the session token are let through: as
/// the whole `x-local-token` header, or as `Authorization: Bearer <token>`.
pub proof fn law_session_token_admits(
    token: Seq<char>,
    local_token: Option<Seq<char>>,
    authorization: Option<Seq<char>>,
)
    ensures
        authorized(local_token, authorization, token) <==> (local_token == Some(token)
            || authorization == Some("Bearer "@ + token)),
{
    let b = "Bearer "@ + token;
    assert(b.subrange(0, "Bearer "@.len() as int) =~= "Bearer "@);
    assert(b.subrange("Bearer "@.len() as int, b.len() as int) =~= token);
    if let Some(a) = authorization {
        if has_prefix(a, "Bearer "@) && a.subrange("Bearer "@.len() as int, a.len() as int) == token {
            assert(a =~= a.subrange(0, "Bearer "@.len() as int) + a.subrange(
                "Bearer "@.len() as int,
                a.len() as int,
            ));
        }
    }
}

} // verus!
