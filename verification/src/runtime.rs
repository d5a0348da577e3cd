//! Runtime-independent error codes and events, and the parts of the Ollama
//! adapter that decide rather than talk to the network.
use vstd::prelude::*;
use crate::domain::{RuntimeCapabilities, RuntimeStatus, strings_view};
use crate::json::{Json, JsonValue, json_text_value, opt_view, parse_json};
use crate::stream::{LineBuffer, concat_chunks, is_first_newline, lemma_split_lines_concat, split_lines, texts, trim_lines};
use crate::text::{decimal_string, decimal_text, has_prefix, owned, str_eq, strip_prefix, trim, trimmed};

verus! {

/// The stable gateway error codes that every runtime adapter maps to.
#[derive(Debug, Clone, Copy, PartialEq, Eq, Structural)]
pub enum RuntimeErrorCode {
    RuntimeUnavailable,
    ModelNotInstalled,
    ModelNotCapable,
    InvalidRequest,
    StructuredOutputInvalid,
    ContextLengthExceeded,
    RequestTimeout,
    RequestCancelled,
    RateLimited,
    UpstreamError,
}

/// The wire name of an error code.
pub open spec fn code_name(code: RuntimeErrorCode) -> Seq<char> {
    match code {
        RuntimeErrorCode::RuntimeUnavailable => "runtime_unavailable"@,
        RuntimeErrorCode::ModelNotInstalled => "model_not_installed"@,
        RuntimeErrorCode::ModelNotCapable => "model_not_capable"@,
        RuntimeErrorCode::InvalidRequest => "invalid_request"@,
        RuntimeErrorCode::StructuredOutputInvalid => "structured_output_invalid"@,
        RuntimeErrorCode::ContextLengthExceeded => "context_length_exceeded"@,
        RuntimeErrorCode::RequestTimeout => "request_timeout"@,
        RuntimeErrorCode::RequestCancelled => "request_cancelled"@,
        RuntimeErrorCode::RateLimited => "rate_limited"@,
        RuntimeErrorCode::UpstreamError => "upstream_error"@,
    }
}

/// Different error codes have different wire names.
pub proof fn law_code_names_distinct(a: RuntimeErrorCode, b: RuntimeErrorCode)
    requires
        a != b,
    ensures
        code_name(a) != code_name(b),
{
    reveal_strlit("runtime_unavailable");
    reveal_strlit("model_not_installed");
    reveal_strlit("model_not_capable");
    reveal_strlit("invalid_request");
    reveal_strlit("structured_output_invalid");
    reveal_strlit("context_length_exceeded");
    reveal_strlit("request_timeout");
    reveal_strlit("request_cancelled");
    reveal_strlit("rate_limited");
    reveal_strlit("upstream_error");
    if code_name(a) == code_name(b) {
        assert(code_name(a).len() == code_name(b).len());
        assert(code_name(a)[0] == code_name(b)[0]);
        assert(code_name(a)[2] == code_name(b)[2]);
        assert(code_name(a)[8] == code_name(b)[8]);
    }
}

impl RuntimeErrorCode {
    /// The wire name of the code (`snake_case`).
    pub fn as_str(self) -> (s: &'static str)
        ensures
            s@ == code_name(self),
    {
        match self {
            RuntimeErrorCode::RuntimeUnavailable => "runtime_unavailable",
            RuntimeErrorCode::ModelNotInstalled => "model_not_installed",
            RuntimeErrorCode::ModelNotCapable => "model_not_capable",
            RuntimeErrorCode::InvalidRequest => "invalid_request",
            RuntimeErrorCode::StructuredOutputInvalid => "structured_output_invalid",
            RuntimeErrorCode::ContextLengthExceeded => "context_length_exceeded",
            RuntimeErrorCode::RequestTimeout => "request_timeout",
            RuntimeErrorCode::RequestCancelled => "request_cancelled",
            RuntimeErrorCode::RateLimited => "rate_limited",
            RuntimeErrorCode::UpstreamError => "upstream_error",
        }
    }
}

/// A runtime failure: a stable code and a message for people.
#[derive(Debug, Clone)]
pub struct RuntimeError {
    pub code: RuntimeErrorCode,
    pub message: String,
}

impl RuntimeError {
    /// The error of a stream frame that could not be read.
    pub fn invalid_stream() -> (e: RuntimeError)
        ensures
            e.code == RuntimeErrorCode::UpstreamError,
            e.message@ == "model runtime returned an invalid stream frame"@,
    {
        RuntimeError {
            code: RuntimeErrorCode::UpstreamError,
            message: owned("model runtime returned an invalid stream frame"),
        }
    }

    /// The error of a request that did not complete in time.
    pub fn timed_out() -> (e: RuntimeError)
        ensures
            e.code == RuntimeErrorCode::RequestTimeout,
            e.message@ == "model runtime request timed out"@,
    {
        RuntimeError {
            code: RuntimeErrorCode::RequestTimeout,
            message: owned("model runtime request timed out"),
        }
    }

    /// The error of a failed HTTP exchange with the runtime, classified by
    /// `transport_error_code`.
    pub fn from_transport(timed_out: bool, connect_failed: bool, status: Option<u16>) -> (e:
        RuntimeError)
        ensures
            e.code == transport_error_code(timed_out, connect_failed, status),
            e.message@ == "model runtime request failed"@,
    {
        RuntimeError {
            code: classify_transport_error(timed_out, connect_failed, status),
            message: owned("model runtime request failed"),
        }
    }

    /// A copy of the error.
    pub fn duplicate(&self) -> (e: RuntimeError)
        ensures
            e.code == self.code,
            e.message@ == self.message@,
    {
        RuntimeError { code: self.code, message: self.message.clone() }
    }
}

/// The code for an HTTP error status of the runtime.
pub open spec fn status_error_code(status: u16) -> RuntimeErrorCode {
    if status == 404 {
        RuntimeErrorCode::ModelNotInstalled
    } else if status == 408 || status == 504 {
        RuntimeErrorCode::RequestTimeout
    } else if status == 429 {
        RuntimeErrorCode::RateLimited
    } else if status == 400 {
        RuntimeErrorCode::InvalidRequest
    } else {
        RuntimeErrorCode::UpstreamError
    }
}

/// The code for an HTTP error status of the runtime.
pub fn http_error_code(status: u16) -> (code: RuntimeErrorCode)
    ensures
        code == status_error_code(status),
{
    if status == 404 {
        RuntimeErrorCode::ModelNotInstalled
    } else if status == 408 || status == 504 {
        RuntimeErrorCode::RequestTimeout
    } else if status == 429 {
        RuntimeErrorCode::RateLimited
    } else if status == 400 {
        RuntimeErrorCode::InvalidRequest
    } else {
        RuntimeErrorCode::UpstreamError
    }
}

/// The code of a failed HTTP exchange: a timeout, then a failed connection,
/// then the response status when there is one, else an upstream error.
pub open spec fn transport_error_code(timed_out: bool, connect_failed: bool, status: Option<u16>) -> RuntimeErrorCode {
    if timed_out {
        RuntimeErrorCode::RequestTimeout
    } else if connect_failed {
        RuntimeErrorCode::RuntimeUnavailable
    } else {
        match status {
            Some(s) => status_error_code(s),
            None => RuntimeErrorCode::UpstreamError,
        }
    }
}

/// The code of a failed HTTP exchange (see `transport_error_code`).
pub fn classify_transport_error(timed_out: bool, connect_failed: bool, status: Option<u16>) -> (code:
    RuntimeErrorCode)
    ensures
        code == transport_error_code(timed_out, connect_failed, status),
{
    if timed_out {
        RuntimeErrorCode::RequestTimeout
    } else if connect_failed {
        RuntimeErrorCode::RuntimeUnavailable
    } else {
        match status {
            Some(s) => http_error_code(s),
            None => RuntimeErrorCode::UpstreamError,
        }
    }
}

/// What a runtime stream yields, independent of the runtime.
#[derive(Debug)]
pub enum RuntimeEvent {
    Progress(Json),
    Token(String),
    Metrics(Json),
    OpenAiChunk(Json),
    Done,
}

/// The model of a runtime event.
pub enum EventView {
    Progress(JsonValue),
    Token(Seq<char>),
    Metrics(JsonValue),
    OpenAiChunk(JsonValue),
    Done,
}

impl View for RuntimeEvent {
    type V = EventView;

    open spec fn view(&self) -> EventView {
        match self {
            RuntimeEvent::Progress(v) => EventView::Progress(v@),
            RuntimeEvent::Token(t) => EventView::Token(t@),
            RuntimeEvent::Metrics(v) => EventView::Metrics(v@),
            RuntimeEvent::OpenAiChunk(v) => EventView::OpenAiChunk(v@),
            RuntimeEvent::Done => EventView::Done,
        }
    }
}

/// The models of a list of events.
pub open spec fn events_view(v: Seq<RuntimeEvent>) -> Seq<EventView> {
    v.map_values(|e: RuntimeEvent| e@)
}

/// Which Ollama NDJSON stream is being read.
#[derive(Debug, Clone, Copy, PartialEq, Eq, Structural)]
pub enum StreamKind {
    Install,
    Chat,
}

/// `/message/content` of a chat frame, when it is a string.
pub open spec fn frame_content(frame: JsonValue) -> Option<Seq<char>> {
    match frame.step("message"@) {
        Some(m) => match m.step("content"@) {
            Some(JsonValue::String(c)) => Some(c),
            _ => None,
        },
        None => None,
    }
}

/// The events of one NDJSON frame: every install frame is progress; a chat
/// frame gives its non-empty message content as a token, and, when its
/// `done` is `true`, the whole frame as metrics.
pub open spec fn ndjson_event_views(kind: StreamKind, frame: JsonValue) -> Seq<EventView> {
    match kind {
        StreamKind::Install => seq![EventView::Progress(frame)],
        StreamKind::Chat => {
            let token = match frame_content(frame) {
                Some(c) => if c.len() > 0 {
                    seq![EventView::Token(c)]
                } else {
                    Seq::empty()
                },
                None => Seq::empty(),
            };
            let metrics = if frame.get("done"@) == Some(JsonValue::Bool(true)) {
                seq![EventView::Metrics(frame)]
            } else {
                Seq::empty()
            };
            token + metrics
        },
    }
}

/// The events of one NDJSON frame (see `ndjson_event_views`).
pub fn ndjson_events(kind: StreamKind, frame: Json) -> (events: Vec<RuntimeEvent>)
    ensures
        events_view(events@) == ndjson_event_views(kind, frame@),
{
    let mut events: Vec<RuntimeEvent> = Vec::new();
    match kind {
        StreamKind::Install => {
            events.push(RuntimeEvent::Progress(frame));
            assert(events_view(events@) =~= ndjson_event_views(kind, frame@));
        },
        StreamKind::Chat => {
            let ghost f = frame@;
            let token = match frame.step("message") {
                Some(m) => match m.step("content") {
                    Some(Json::String(c)) => {
                        if c.as_str().unicode_len() > 0 {
                            Some(c.clone())
                        } else {
                            None
                        }
                    },
                    _ => None,
                },
                None => None,
            };
            match token {
                Some(t) => {
                    events.push(RuntimeEvent::Token(t));
                },
                None => {},
            }
            let done = match frame.get("done") {
                Some(d) => d.as_bool(),
                None => None,
            };
            let ghost before = events_view(events@);
            if done == Some(true) {
                events.push(RuntimeEvent::Metrics(frame));
                assert(events_view(events@) =~= before.push(EventView::Metrics(f)));
            }
            assert(events_view(events@) =~= ndjson_event_views(kind, f));
        },
    }
    events
}

/// The text of the tokens among `events`, one after the other.
pub open spec fn token_text(events: Seq<EventView>) -> Seq<char>
    decreases events.len(),
{
    if events.len() == 0 {
        Seq::empty()
    } else {
        token_text(events.drop_last()) + match events.last() {
            EventView::Token(t) => t,
            _ => Seq::empty(),
        }
    }
}

/// The text of a chat frame: its `/message/content` when that is a string,
/// else nothing.
pub open spec fn chat_text(frame: JsonValue) -> Seq<char> {
    match frame.step("message"@) {
        Some(message) => match message.step("content"@) {
            Some(JsonValue::String(c)) => c,
            _ => Seq::empty(),
        },
        None => Seq::empty(),
    }
}

/// The events of a sequence of chat frames, one frame after the other.
pub open spec fn chat_stream_events(frames: Seq<JsonValue>) -> Seq<EventView>
    decreases frames.len(),
{
    if frames.len() == 0 {
        Seq::empty()
    } else {
        chat_stream_events(frames.drop_last()) + ndjson_event_views(StreamKind::Chat, frames.last())
    }
}

/// The texts of a sequence of chat frames, one after the other.
pub open spec fn chat_stream_text(frames: Seq<JsonValue>) -> Seq<char>
    decreases frames.len(),
{
    if frames.len() == 0 {
        Seq::empty()
    } else {
        chat_stream_text(frames.drop_last()) + chat_text(frames.last())
    }
}

proof fn lemma_token_text_concat(a: Seq<EventView>, b: Seq<EventView>)
    ensures
        token_text(a + b) == token_text(a) + token_text(b),
    decreases b.len(),
{
    if b.len() == 0 {
        assert(a + b =~= a);
        assert(token_text(a) + Seq::<char>::empty() =~= token_text(a));
    } else {
        lemma_token_text_concat(a, b.drop_last());
        assert((a + b).drop_last() =~= a + b.drop_last());
        assert((a + b).last() == b.last());
        let tail = match b.last() {
            EventView::Token(t) => t,
            _ => Seq::<char>::empty(),
        };
        assert(token_text(a) + token_text(b.drop_last()) + tail =~= token_text(a) + (token_text(
            b.drop_last(),
        ) + tail));
    }
}

/// A chat frame hands on its whole message content as tokens, spaces and
/// newlines included: a non-empty content is the frame's first event, as
/// one token, and the frame's tokens spell exactly its content.
pub proof fn law_chat_frame_tokens_are_its_content(frame: JsonValue)
    ensures
        token_text(ndjson_event_views(StreamKind::Chat, frame)) == chat_text(frame),
        chat_text(frame).len() > 0 ==> ndjson_event_views(StreamKind::Chat, frame).len() > 0
            && ndjson_event_views(StreamKind::Chat, frame)[0] == EventView::Token(chat_text(frame)),
{
    let events = ndjson_event_views(StreamKind::Chat, frame);
    reveal_with_fuel(token_text, 3);
    assert(Seq::<char>::empty() + chat_text(frame) =~= chat_text(frame));
    if chat_text(frame).len() > 0 && frame.get("done"@) == Some(JsonValue::Bool(true)) {
        assert(events.drop_last() =~= seq![EventView::Token(chat_text(frame))]);
        assert(chat_text(frame) + Seq::<char>::empty() =~= chat_text(frame));
    } else if chat_text(frame).len() == 0 && frame.get("done"@) == Some(JsonValue::Bool(true)) {
        assert(events.drop_last() =~= Seq::<EventView>::empty());
    }
}

/// Over a whole chat stream, the tokens spell the concatenation of every
/// frame's message content: no content is dropped or altered.
pub proof fn law_chat_stream_tokens_are_its_content(frames: Seq<JsonValue>)
    ensures
        token_text(chat_stream_events(frames)) == chat_stream_text(frames),
    decreases frames.len(),
{
    if frames.len() > 0 {
        law_chat_stream_tokens_are_its_content(frames.drop_last());
        law_chat_frame_tokens_are_its_content(frames.last());
        lemma_token_text_concat(
            chat_stream_events(frames.drop_last()),
            ndjson_event_views(StreamKind::Chat, frames.last()),
        );
    }
}

/// What a stream hands on for one piece of its input: events, and then,
/// when `failure` is set, that error, after which the stream stops.
#[derive(Debug)]
pub struct LineOutcome {
    pub events: Vec<RuntimeEvent>,
    pub failure: Option<RuntimeError>,
}

/// `failure` is the error of a frame that could not be read.
pub open spec fn is_invalid_stream(failure: Option<RuntimeError>) -> bool {
    failure matches Some(e) && e.code == RuntimeErrorCode::UpstreamError && e.message@
        == "model runtime returned an invalid stream frame"@
}

/// `o` hands on the events `e.0` and, when `e.1`, the invalid-stream error
/// that ends the stream.
pub open spec fn outcome_is(o: LineOutcome, e: (Seq<EventView>, bool)) -> bool {
    &&& events_view(o.events@) == e.0
    &&& if e.1 {
        is_invalid_stream(o.failure)
    } else {
        o.failure is None
    }
}

/// What one (trimmed) line of an NDJSON stream gives, and whether it ends
/// the stream: nothing for a blank line; the events of its frame (see
/// `ndjson_event_views`); or, when the line is not JSON, a failure.
pub open spec fn line_events(kind: StreamKind, line: Seq<char>) -> (Seq<EventView>, bool) {
    if line.len() == 0 {
        (Seq::empty(), false)
    } else {
        match json_text_value(line) {
            Some(frame) => (ndjson_event_views(kind, frame), false),
            None => (Seq::empty(), true),
        }
    }
}

/// What a sequence of lines gives: the events of each line in turn, up to
/// and including the first line that fails, and whether one failed.
pub open spec fn lines_events(kind: StreamKind, lines: Seq<Seq<char>>) -> (Seq<EventView>, bool)
    decreases lines.len(),
{
    if lines.len() == 0 {
        (Seq::empty(), false)
    } else {
        let before = lines_events(kind, lines.drop_last());
        if before.1 {
            before
        } else {
            let last = line_events(kind, lines.last());
            (before.0 + last.0, last.1)
        }
    }
}

/// What the end of an NDJSON stream gives for the text left over: the
/// events of that text as a line (see `line_events`), then, unless it
/// failed, `Done`.
pub open spec fn end_events(kind: StreamKind, rest: Seq<char>) -> (Seq<EventView>, bool) {
    let last = line_events(kind, trimmed(rest));
    if last.1 {
        last
    } else {
        (last.0.push(EventView::Done), false)
    }
}

/// The events of lines `a` followed by lines `b`.
pub proof fn lemma_lines_events_concat(kind: StreamKind, a: Seq<Seq<char>>, b: Seq<Seq<char>>)
    ensures
        lines_events(kind, a + b) == if lines_events(kind, a).1 {
            lines_events(kind, a)
        } else {
            (lines_events(kind, a).0 + lines_events(kind, b).0, lines_events(kind, b).1)
        },
    decreases b.len(),
{
    if b.len() == 0 {
        assert(a + b =~= a);
        assert(lines_events(kind, a).0 + Seq::<EventView>::empty() =~= lines_events(kind, a).0);
    } else {
        let init = b.drop_last();
        lemma_lines_events_concat(kind, a, init);
        assert((a + b).drop_last() =~= a + init);
        assert((a + b).last() == b.last());
        let ea = lines_events(kind, a);
        let ei = lines_events(kind, init);
        let l = line_events(kind, b.last());
        if !ea.1 && !ei.1 {
            assert(ea.0 + ei.0 + l.0 =~= ea.0 + (ei.0 + l.0));
        }
    }
}

/// The events of one NDJSON line (see `line_events`); the line is read as
/// JSON with `serde_json` when it is not blank.
pub fn ndjson_line(kind: StreamKind, line: &str) -> (o: LineOutcome)
    ensures
        outcome_is(o, line_events(kind, line@)),
{
    let empty: Vec<RuntimeEvent> = Vec::new();
    assert(events_view(empty@) =~= Seq::<EventView>::empty());
    if line.unicode_len() == 0 {
        return LineOutcome { events: empty, failure: None };
    }
    match parse_json(line) {
        Some(f) => LineOutcome { events: ndjson_events(kind, f), failure: None },
        None => LineOutcome { events: empty, failure: Some(RuntimeError::invalid_stream()) },
    }
}

/// The events at the end of an NDJSON stream, for the text left in `rest`
/// (see `end_events`).
pub fn ndjson_end(kind: StreamKind, rest: &LineBuffer) -> (o: LineOutcome)
    ensures
        outcome_is(o, end_events(kind, rest@)),
{
    let text = match rest.finish() {
        Some(t) => t,
        None => String::new(),
    };
    let last = ndjson_line(kind, text.as_str());
    match last.failure {
        Some(e) => LineOutcome { events: last.events, failure: Some(e) },
        None => {
            let mut events = last.events;
            let ghost before = events_view(events@);
            events.push(RuntimeEvent::Done);
            assert(events_view(events@) =~= before.push(EventView::Done));
            LineOutcome { events, failure: None }
        },
    }
}

/// Reads an Ollama NDJSON stream chunk by chunk: complete lines are turned
/// into events as they arrive, and reading stops at the first line that is
/// not JSON.
pub struct NdjsonReader {
    kind: StreamKind,
    buffer: LineBuffer,
    failed: bool,
}

/// The model of an NDJSON reader: the stream's kind, the text of an
/// unfinished line, and whether a line failed.
pub struct ReaderView {
    pub kind: StreamKind,
    pub pending: Seq<char>,
    pub failed: bool,
}

impl View for NdjsonReader {
    type V = ReaderView;

    closed spec fn view(&self) -> ReaderView {
        ReaderView { kind: self.kind, pending: self.buffer@, failed: self.failed }
    }
}

impl NdjsonReader {
    /// A reader of a stream of `kind` that has read nothing.
    pub fn new(kind: StreamKind) -> (r: NdjsonReader)
        ensures
            r@ == (ReaderView { kind, pending: Seq::empty(), failed: false }),
    {
        NdjsonReader { kind, buffer: LineBuffer::new(), failed: false }
    }

    /// Takes in a chunk: gives the events of the lines it completes, in
    /// order (see `lines_events`), and the failure of the first line that is
    /// not JSON, after which the reader takes in nothing more.
    pub fn push(&mut self, chunk: &str) -> (o: LineOutcome)
        ensures
            final(self)@.kind == old(self)@.kind,
            old(self)@.failed ==> final(self)@ == old(self)@ && outcome_is(
                o,
                (Seq::empty(), false),
            ),
            !old(self)@.failed ==> {
                let split = split_lines(old(self)@.pending + chunk@);
                let e = lines_events(old(self)@.kind, trim_lines(split.0));
                &&& outcome_is(o, e)
                &&& final(self)@.failed == e.1
                &&& final(self)@.pending == split.1
            },
    {
        let empty: Vec<RuntimeEvent> = Vec::new();
        assert(events_view(empty@) =~= Seq::<EventView>::empty());
        if self.failed {
            return LineOutcome { events: empty, failure: None };
        }
        let kind = self.kind;
        let ghost split = split_lines(old(self)@.pending + chunk@);
        let lines = self.buffer.push(chunk);
        let ghost all = texts(lines@);
        let mut events: Vec<RuntimeEvent> = empty;
        let mut i: usize = 0;
        assert(all.take(0) =~= Seq::<Seq<char>>::empty());
        while i < lines.len()
            invariant
                i <= lines@.len(),
                all == texts(lines@),
                all == trim_lines(split.0),
                split == split_lines(old(self)@.pending + chunk@),
                kind == old(self)@.kind,
                !old(self)@.failed,
                self@ == (ReaderView { kind, pending: split.1, failed: false }),
                events_view(events@) == lines_events(kind, all.take(i as int)).0,
                !lines_events(kind, all.take(i as int)).1,
            decreases lines.len() - i,
        {
            let mut o = ndjson_line(kind, lines[i].as_str());
            assert(all.take(i + 1).drop_last() =~= all.take(i as int));
            assert(all.take(i + 1).last() == lines@[i as int]@);
            let ghost before = events;
            let ghost added = o.events;
            events.append(&mut o.events);
            assert(events_view(events@) =~= events_view(before@) + events_view(added@));
            assert(lines_events(kind, all.take(i + 1)) == (
                events_view(events@),
                line_events(kind, lines@[i as int]@).1,
            ));
            match o.failure {
                Some(e) => {
                    assert(line_events(kind, lines@[i as int]@).1);
                    proof {
                        lemma_lines_events_concat(kind, all.take(i + 1), all.skip(i + 1));
                        assert(all.take(i + 1) + all.skip(i + 1) =~= all);
                    }
                    assert(lines_events(kind, all) == lines_events(kind, all.take(i + 1)));
                    self.failed = true;
                    return LineOutcome { events, failure: Some(e) };
                },
                None => {},
            }
            i = i + 1;
        }
        assert(all.take(lines@.len() as int) =~= all);
        LineOutcome { events, failure: None }
    }

    /// At the end of the stream: unless a line failed, the events of the
    /// text left over and then `Done` (see `end_events`).
    pub fn finish(&self) -> (o: LineOutcome)
        ensures
            self@.failed ==> outcome_is(o, (Seq::empty(), false)),
            !self@.failed ==> outcome_is(o, end_events(self@.kind, self@.pending)),
    {
        if self.failed {
            let empty: Vec<RuntimeEvent> = Vec::new();
            assert(events_view(empty@) =~= Seq::<EventView>::empty());
            LineOutcome { events: empty, failure: None }
        } else {
            ndjson_end(self.kind, &self.buffer)
        }
    }
}

/// What a reader of `kind` that is given `chunks` one at a time (each step
/// as `NdjsonReader::push` states it) has handed on: its events, whether a
/// line failed, and the text it holds.
pub open spec fn reader_run(kind: StreamKind, chunks: Seq<Seq<char>>) -> (Seq<EventView>, bool, Seq<char>)
    decreases chunks.len(),
{
    if chunks.len() == 0 {
        (Seq::empty(), false, Seq::empty())
    } else {
        let before = reader_run(kind, chunks.drop_last());
        if before.1 {
            before
        } else {
            let split = split_lines(before.2 + chunks.last());
            let e = lines_events(kind, trim_lines(split.0));
            (before.0 + e.0, e.1, split.1)
        }
    }
}

/// The events of a whole NDJSON response text: those of its complete lines
/// and, unless one failed, those of the text after the last newline (see
/// `end_events`).
pub open spec fn stream_events(kind: StreamKind, text: Seq<char>) -> (Seq<EventView>, bool) {
    let split = split_lines(text);
    let body = lines_events(kind, trim_lines(split.0));
    if body.1 {
        body
    } else {
        let end = end_events(kind, split.1);
        (body.0 + end.0, end.1)
    }
}

proof fn lemma_reader_run(kind: StreamKind, chunks: Seq<Seq<char>>)
    ensures
        ({
            let run = reader_run(kind, chunks);
            let split = split_lines(concat_chunks(chunks));
            let whole = lines_events(kind, trim_lines(split.0));
            &&& run.0 == whole.0
            &&& run.1 == whole.1
            &&& !run.1 ==> run.2 == split.1
        }),
    decreases chunks.len(),
{
    if chunks.len() == 0 {
        assert(!exists|i: int| is_first_newline(Seq::<char>::empty(), i));
        assert(trim_lines(Seq::<Seq<char>>::empty()) =~= Seq::<Seq<char>>::empty());
    } else {
        let init = chunks.drop_last();
        let c = chunks.last();
        lemma_reader_run(kind, init);
        let text = concat_chunks(init);
        lemma_split_lines_concat(text, c);
        let first = split_lines(text);
        let second = split_lines(first.1 + c);
        assert(trim_lines(first.0) + trim_lines(second.0) =~= trim_lines(first.0 + second.0));
        lemma_lines_events_concat(kind, trim_lines(first.0), trim_lines(second.0));
    }
}

/// However an NDJSON response is cut into chunks, a reader hands on the
/// same events, and fails or finishes the same way, as for the whole text
/// at once: framing depends only on where the newlines are.
pub proof fn law_ndjson_chunking_is_invisible(kind: StreamKind, chunks: Seq<Seq<char>>)
    ensures
        ({
            let run = reader_run(kind, chunks);
            let finished = if run.1 {
                (run.0, true)
            } else {
                let end = end_events(kind, run.2);
                (run.0 + end.0, end.1)
            };
            finished == stream_events(kind, concat_chunks(chunks))
        }),
{
    lemma_reader_run(kind, chunks);
}

/// A JSON response body of the runtime, read with `serde_json`: the
/// document, or, when the body is not JSON, the error of a failed exchange
/// (an upstream error, as a decoding failure is classified).
pub fn runtime_json(body: &str) -> (r: Result<Json, RuntimeError>)
    ensures
        match json_text_value(body@) {
            Some(v) => r matches Ok(j) && j@ == v,
            None => r matches Err(e) && e.code == RuntimeErrorCode::UpstreamError && e.message@
                == "model runtime request failed"@,
        },
{
    match parse_json(body) {
        Some(j) => Ok(j),
        None => Err(RuntimeError::from_transport(false, false, None)),
    }
}

/// The event for a server-sent data chunk: the chunk read as JSON with
/// `serde_json`, or the invalid-stream error when it is not JSON.
pub fn sse_chunk_event(data: &str) -> (r: Result<RuntimeEvent, RuntimeError>)
    ensures
        match json_text_value(data@) {
            Some(f) => r matches Ok(RuntimeEvent::OpenAiChunk(j)) && j@ == f,
            None => r is Err && is_invalid_stream(Some(r->Err_0)),
        },
{
    match parse_json(data) {
        Some(f) => Ok(RuntimeEvent::OpenAiChunk(f)),
        None => Err(RuntimeError::invalid_stream()),
    }
}

/// What to do with one line of a server-sent event stream.
#[derive(Debug)]
pub enum SseAction {
    /// Nothing to hand on.
    Skip,
    /// The stream is complete.
    Done,
    /// A chunk, to be read as JSON.
    Parse(String),
}

/// The data of an event line: what follows `data:`, trimmed.
pub open spec fn sse_data(line: Seq<char>) -> Option<Seq<char>> {
    if has_prefix(line, "data:"@) {
        Some(trimmed(line.subrange("data:"@.len() as int, line.len() as int)))
    } else {
        None
    }
}

/// The action for data `data`: `[DONE]` ends the stream, other non-empty
/// data is a chunk.
pub open spec fn data_action_is(data: Seq<char>, action: SseAction) -> bool {
    if data == "[DONE]"@ {
        action is Done
    } else if data.len() > 0 {
        action matches SseAction::Parse(d) && d@ == data
    } else {
        action is Skip
    }
}

fn data_action(data: String) -> (a: SseAction)
    ensures
        data_action_is(data@, a),
{
    if str_eq(data.as_str(), "[DONE]") {
        SseAction::Done
    } else if data.as_str().unicode_len() > 0 {
        SseAction::Parse(data)
    } else {
        SseAction::Skip
    }
}

/// The action for one complete (trimmed) line of an event stream: lines
/// without `data:` are skipped.
pub fn sse_line_action(line: &str) -> (a: SseAction)
    ensures
        match sse_data(line@) {
            Some(data) => data_action_is(data, a),
            None => a is Skip,
        },
{
    match strip_prefix(line, "data:") {
        Some(rest) => data_action(trim(rest.as_str())),
        None => SseAction::Skip,
    }
}

/// The actions at the end of an event stream, for the text left in
/// `buffer`: when it is not blank, the data after `data:` (or nothing) is
/// acted on, and a chunk found there is followed by the end of the stream.
pub fn sse_finish_actions(buffer: &LineBuffer) -> (actions: Vec<SseAction>)
    ensures
        trimmed(buffer@).len() == 0 ==> actions@.len() == 0,
        trimmed(buffer@).len() > 0 ==> {
            let data = match sse_data(trimmed(buffer@)) {
                Some(d) => d,
                None => Seq::empty(),
            };
            if data == "[DONE]"@ {
                actions@.len() == 1 && actions@[0] is Done
            } else if data.len() > 0 {
                &&& actions@.len() == 2
                &&& actions@[1] is Done
                &&& actions@[0] matches SseAction::Parse(d) && d@ == data
            } else {
                actions@.len() == 0
            }
        },
{
    let mut actions: Vec<SseAction> = Vec::new();
    match buffer.finish() {
        Some(t) => {
            let data = match strip_prefix(t.as_str(), "data:") {
                Some(rest) => trim(rest.as_str()),
                None => String::new(),
            };
            match data_action(data) {
                SseAction::Done => {
                    actions.push(SseAction::Done);
                },
                SseAction::Parse(d) => {
                    actions.push(SseAction::Parse(d));
                    actions.push(SseAction::Done);
                },
                SseAction::Skip => {},
            }
        },
        None => {},
    }
    actions
}

/// Whether an OpenAI request asks for a streamed answer (`stream: true`).
pub open spec fn wants_stream(request: JsonValue) -> bool {
    request.get("stream"@) == Some(JsonValue::Bool(true))
}

/// Whether an OpenAI request asks for a streamed answer.
pub fn request_streaming(request: &Json) -> (r: bool)
    ensures
        r == wants_stream(request@),
{
    match request.get("stream") {
        Some(v) => match v.as_bool() {
            Some(b) => b,
            None => false,
        },
        None => false,
    }
}

/// `s` without trailing `/` (`trim_end_matches('/')`).
pub open spec fn without_trailing_slashes(s: Seq<char>) -> Seq<char>
    decreases s.len(),
{
    if s.len() > 0 && s.last() == '/' {
        without_trailing_slashes(s.drop_last())
    } else {
        s
    }
}

/// The runtime base URL as requests are built from it: without trailing `/`.
pub fn normalize_base_url(base_url: &str) -> (r: String)
    ensures
        r@ == without_trailing_slashes(base_url@),
{
    let cs = crate::text::chars_of(base_url);
    let mut k: usize = cs.len();
    assert(cs@.take(k as int) =~= cs@);
    while k > 0 && cs[k - 1] == '/'
        invariant
            cs@ == base_url@,
            k <= cs@.len(),
            without_trailing_slashes(base_url@) == without_trailing_slashes(cs@.take(k as int)),
        decreases k,
    {
        assert(cs@.take(k as int).drop_last() =~= cs@.take(k - 1));
        k = k - 1;
    }
    assert(cs@.subrange(0, k as int) =~= cs@.take(k as int));
    crate::text::string_of_chars(&cs, 0, k)
}

/// The scheme, host and explicit port that `reqwest::Url::parse` reads
/// from a URL, or `None` when it does not parse.
pub uninterp spec fn url_authority(text: Seq<char>) -> Option<(Seq<char>, Option<Seq<char>>, Option<u16>)>;

/// The model of a URL's authority as plain strings.
pub open spec fn authority_view(a: Option<(String, Option<String>, Option<u16>)>) -> Option<(Seq<char>, Option<Seq<char>>, Option<u16>)> {
    match a {
        Some((scheme, host, port)) => Some(
            (
                scheme@,
                match host {
                    Some(h) => Some(h@),
                    None => None,
                },
                port,
            ),
        ),
        None => None,
    }
}

/// `reqwest::Url::parse`, read as `(url.scheme(), url.host_str(), url.port())`;
/// the contract names that reading `url_authority` and states nothing of how
/// URLs are parsed.
#[verifier::external_body]
fn parse_url_authority(text: &str) -> (r: Option<(String, Option<String>, Option<u16>)>)
    ensures
        authority_view(r) == url_authority(text@),
{
    match reqwest::Url::parse(text) {
        Ok(url) => Some((url.scheme().to_string(), url.host_str().map(str::to_string), url.port())),
        Err(_) => None,
    }
}

/// The endpoint id of a runtime: `scheme://host` or `scheme://host:port`
/// (host `local` when the URL has none), or `local-runtime` when the URL
/// does not parse. It carries no credentials and no path.
pub open spec fn endpoint_label(authority: Option<(Seq<char>, Option<Seq<char>>, Option<u16>)>) -> Seq<char> {
    match authority {
        Some((scheme, host, port)) => {
            let h = match host {
                Some(h) => h,
                None => "local"@,
            };
            match port {
                Some(p) => scheme + "://"@ + h + ":"@ + decimal_text(p as nat),
                None => scheme + "://"@ + h,
            }
        },
        None => "local-runtime"@,
    }
}

/// The endpoint id for what was read of the runtime URL (see `endpoint_label`).
pub fn endpoint_id_from(authority: Option<(String, Option<String>, Option<u16>)>) -> (r: String)
    ensures
        r@ == endpoint_label(authority_view(authority)),
{
    match authority {
        Some((scheme, host, port)) => {
            let h = match host {
                Some(h) => h,
                None => owned("local"),
            };
            let mut out = scheme;
            out.append("://");
            out.append(h.as_str());
            match port {
                Some(p) => {
                    out.append(":");
                    let digits = decimal_string(p as u64);
                    out.append(digits.as_str());
                },
                None => {},
            }
            out
        },
        None => owned("local-runtime"),
    }
}

/// The endpoint id of the runtime at `base_url`.
pub fn endpoint_id(base_url: &str) -> (r: String)
    ensures
        r@ == endpoint_label(url_authority(base_url@)),
{
    endpoint_id_from(parse_url_authority(base_url))
}

/// The id of the Ollama adapter.
pub fn ollama_id() -> (id: &'static str)
    ensures
        id@ == "ollama"@,
{
    "ollama"
}

/// What the Ollama adapter can do: install, chat, OpenAI chat completions
/// with streaming and `json_object`/`json_schema` structured output, and
/// model details; no embeddings.
pub fn ollama_capabilities() -> (c: RuntimeCapabilities)
    ensures
        c.install && c.chat && c.chat_completions && c.streaming && !c.embeddings && c.model_details,
        strings_view(c.structured_output@) == seq!["json_object"@, "json_schema"@],
{
    let mut formats: Vec<String> = Vec::new();
    formats.push(owned("json_object"));
    formats.push(owned("json_schema"));
    assert(strings_view(formats@) =~= seq!["json_object"@, "json_schema"@]);
    RuntimeCapabilities {
        install: true,
        chat: true,
        chat_completions: true,
        streaming: true,
        structured_output: formats,
        embeddings: false,
        model_details: true,
    }
}

/// The status of the Ollama runtime at `endpoint_id`, given the model list
/// it answered with (`None` when it did not answer successfully): reachable
/// with those models, or unreachable with none.
pub fn ollama_status(endpoint_id: String, listing: Option<Vec<String>>) -> (s: RuntimeStatus)
    ensures
        s.kind@ == "ollama"@,
        s.endpoint_id@ == endpoint_id@,
        s.reachable == (listing is Some),
        strings_view(s.installed_models@) == match listing {
            Some(models) => strings_view(models@),
            None => Seq::empty(),
        },
        s.capabilities.install && s.capabilities.chat && s.capabilities.chat_completions
            && s.capabilities.streaming && !s.capabilities.embeddings
            && s.capabilities.model_details,
        strings_view(s.capabilities.structured_output@) == seq!["json_object"@, "json_schema"@],
{
    let (reachable, models) = match listing {
        Some(models) => (true, models),
        None => (false, Vec::new()),
    };
    assert(!reachable ==> strings_view(models@) =~= Seq::<Seq<char>>::empty());
    RuntimeStatus {
        kind: owned(ollama_id()),
        endpoint_id,
        reachable,
        installed_models: models,
        capabilities: ollama_capabilities(),
    }
}

} // verus!
