//! What is said to services that are compatible with the OpenAI API, and what is made of their
//! answers.

use vstd::prelude::*;
use vstd::string::*;

use crate::backend::{
    BackendCapabilities, BackendInfo, BackendStatus, BackendType, Endpoint, KvConfig, ModelInstance,
    Protocol, Quantization,
};
use crate::ids::{BackendId, BackendInstanceId, BackendView, IndexerDomainId, RegionId};
use crate::metrics::{BackendMetrics, RealBits};
use crate::request;
use crate::request::{ChatMessage, ChunkView, InferenceChunk, InferenceRequest, ToolDefinition};
use crate::sse;
use crate::sse::{marks_end, SseBuffer};
use crate::text;
use crate::text::{chars_of, cut, find_char, find_last, join, reads, remove_all, split_lines, trim};

verus! {

/// A request for a chat completion.
#[derive(Debug)]
pub struct ChatCompletionRequest {
    /// Model that is asked.
    pub model: String,
    /// The conversation, unless the prompt is sent as tokens.
    pub messages: Option<Vec<ChatMessage>>,
    /// The prompt as tokens.
    pub prompt_token_ids: Option<Vec<u32>>,
    /// Most tokens to generate.
    pub max_tokens: u32,
    /// Sampling temperature.
    pub temperature: RealBits,
    /// Whether the answer is streamed.
    pub stream: bool,
    /// Tools that may be called.
    pub tools: Option<Vec<ToolDefinition>>,
}

/// Copies messages.
pub fn copy_messages(messages: &Vec<ChatMessage>) -> (copy: Vec<ChatMessage>)
    ensures
        copy@ == messages@,
{
    let mut copy: Vec<ChatMessage> = Vec::new();
    let mut i: usize = 0;
    while i < messages.len()
        invariant
            i <= messages@.len(),
            copy@ == messages@.take(i as int),
        decreases messages@.len() - i,
    {
        copy.push(messages[i].clone());
        assert(copy@ =~= messages@.take(i + 1));
        i = i + 1;
    }
    assert(messages@.take(i as int) =~= messages@);
    copy
}

fn copy_tools(tools: &Vec<ToolDefinition>) -> (copy: Vec<ToolDefinition>)
    ensures
        copy@ == tools@,
{
    let mut copy: Vec<ToolDefinition> = Vec::new();
    let mut i: usize = 0;
    while i < tools.len()
        invariant
            i <= tools@.len(),
            copy@ == tools@.take(i as int),
        decreases tools@.len() - i,
    {
        copy.push(tools[i].clone());
        assert(copy@ =~= tools@.take(i + 1));
        i = i + 1;
    }
    assert(tools@.take(i as int) =~= tools@);
    copy
}

/// Whether a request's prompt is sent as tokens: it has them, and that is what is wanted.
pub open spec fn sends_tokens(request: InferenceRequest, emit_token_ids: bool) -> bool {
    emit_token_ids && request.token_ids@.len() > 0
}

/// Whether a request's prompt is sent as tokens: it has them, and that is what is wanted.
pub fn prompt_as_tokens(request: &InferenceRequest, emit_token_ids: bool) -> (tokens: bool)
    ensures
        tokens == sends_tokens(*request, emit_token_ids),
{
    emit_token_ids && request.token_ids.len() > 0
}

impl ChatCompletionRequest {
    /// The request for a chat completion, which is always streamed. The prompt is sent as tokens,
    /// in place of the messages, if it has them and `emit_token_ids` is set.
    pub fn for_request(request: &InferenceRequest, emit_token_ids: bool) -> (body: Self)
        ensures
            body.model == request.model,
            body.max_tokens == request.max_tokens,
            body.temperature == request.temperature,
            body.stream,
            match body.messages {
                Some(messages) => !sends_tokens(*request, emit_token_ids) && messages@
                    == request.messages@,
                None => sends_tokens(*request, emit_token_ids),
            },
            match body.prompt_token_ids {
                Some(tokens) => sends_tokens(*request, emit_token_ids) && tokens@
                    == request.token_ids@,
                None => !sends_tokens(*request, emit_token_ids),
            },
            match body.tools {
                Some(tools) => request.tools@.len() > 0 && tools@ == request.tools@,
                None => request.tools@.len() == 0,
            },
    {
        let as_tokens: bool = prompt_as_tokens(request, emit_token_ids);
        let messages: Option<Vec<ChatMessage>> = if as_tokens {
            None
        } else {
            Some(copy_messages(&request.messages))
        };
        let prompt_token_ids: Option<Vec<u32>> = if as_tokens {
            Some(request.token_ids.clone())
        } else {
            None
        };
        let tools: Option<Vec<ToolDefinition>> = if request.tools.len() == 0 {
            None
        } else {
            Some(copy_tools(&request.tools))
        };
        ChatCompletionRequest {
            model: request.model.clone(),
            messages,
            prompt_token_ids,
            max_tokens: request.max_tokens,
            temperature: request.temperature,
            stream: true,
            tools,
        }
    }
}

/// A piece of a streamed chat completion.
#[derive(Debug)]
pub struct ChatCompletionChunk {
    /// Alternatives.
    pub choices: Vec<Choice>,
}

/// An alternative in a piece of a streamed chat completion.
#[derive(Debug)]
pub struct Choice {
    /// What is new.
    pub delta: Delta,
    /// Why the answer ends here, if it does.
    pub finish_reason: Option<String>,
}

/// What is new in a piece of a streamed chat completion.
#[derive(Debug)]
pub struct Delta {
    /// More text.
    pub content: Option<String>,
    /// Calls of tools.
    pub tool_calls: Vec<ToolCallDelta>,
}

/// A call of a tool in a piece of a streamed chat completion.
#[derive(Debug)]
pub struct ToolCallDelta {
    /// The call.
    pub id: Option<String>,
    /// The tool and its arguments.
    pub function: Option<ToolCallFunction>,
}

/// The tool that is called, and its arguments.
#[derive(Debug)]
pub struct ToolCallFunction {
    /// Name of the tool.
    pub name: Option<String>,
    /// Arguments as JSON text.
    pub arguments: Option<String>,
}

/// A text, or the empty one if it is missing.
pub open spec fn or_empty(text: Option<String>) -> Seq<char> {
    match text {
        Some(given) => given@,
        None => Seq::empty(),
    }
}

/// The first call that names both itself and its tool.
pub open spec fn first_call(calls: Seq<ToolCallDelta>) -> Option<ChunkView>
    decreases calls.len(),
{
    if calls.len() == 0 {
        None
    } else {
        match (calls[0].id, calls[0].function) {
            (Some(id), Some(function)) => Some(
                ChunkView::ToolCall {
                    id: id@,
                    function: or_empty(function.name),
                    args: or_empty(function.arguments),
                },
            ),
            _ => first_call(calls.drop_first()),
        }
    }
}

/// What an alternative says: a call of a tool, or else text, or else that the answer ends.
pub open spec fn choice_chunk(choice: Choice) -> Option<ChunkView> {
    match first_call(choice.delta.tool_calls@) {
        Some(call) => Some(call),
        None => match (choice.delta.content, choice.finish_reason) {
            (Some(content), reason) => if content@.len() > 0 {
                Some(ChunkView::Delta { text: content@, finish_reason: request::optional(reason) })
            } else {
                None
            },
            (None, Some(reason)) => Some(
                ChunkView::Delta { text: Seq::empty(), finish_reason: Some(reason@) },
            ),
            (None, None) => None,
        },
    }
}

/// What the first alternative that says anything says.
pub open spec fn first_said(choices: Seq<Choice>) -> Option<ChunkView>
    decreases choices.len(),
{
    if choices.len() == 0 {
        None
    } else {
        match choice_chunk(choices[0]) {
            Some(chunk) => Some(chunk),
            None => first_said(choices.drop_first()),
        }
    }
}

fn given_or_empty(text: &Option<String>) -> (given: String)
    ensures
        given@ == or_empty(*text),
{
    match text {
        Some(given) => given.clone(),
        None => String::new(),
    }
}

fn copy_optional(text: &Option<String>) -> (copy: Option<String>)
    ensures
        copy == *text,
{
    match text {
        Some(given) => Some(given.clone()),
        None => None,
    }
}

fn call_in(calls: &Vec<ToolCallDelta>) -> (chunk: Option<InferenceChunk>)
    ensures
        match chunk {
            Some(found) => first_call(calls@) == Some(found@),
            None => first_call(calls@) is None,
        },
{
    let mut i: usize = 0;
    proof {
        assert(calls@.skip(0) =~= calls@);
    }
    while i < calls.len()
        invariant
            i <= calls@.len(),
            first_call(calls@) == first_call(calls@.skip(i as int)),
        decreases calls@.len() - i,
    {
        proof {
            assert(calls@.skip(i as int)[0] == calls@[i as int]);
            assert(calls@.skip(i as int).drop_first() =~= calls@.skip(i + 1));
        }
        match &calls[i].id {
            Some(id) => match &calls[i].function {
                Some(function) => {
                    return Some(
                        InferenceChunk::ToolCall {
                            id: id.clone(),
                            function: given_or_empty(&function.name),
                            args: given_or_empty(&function.arguments),
                        },
                    );
                },
                None => {},
            },
            None => {},
        }
        i = i + 1;
    }
    None
}

fn said_by(choice: &Choice) -> (chunk: Option<InferenceChunk>)
    ensures
        match chunk {
            Some(found) => choice_chunk(*choice) == Some(found@),
            None => choice_chunk(*choice) is None,
        },
{
    match call_in(&choice.delta.tool_calls) {
        Some(call) => {
            return Some(call);
        },
        None => {},
    }
    match &choice.delta.content {
        Some(content) => {
            if content.as_str().is_empty() {
                None
            } else {
                Some(
                    InferenceChunk::Delta {
                        text: content.clone(),
                        finish_reason: copy_optional(&choice.finish_reason),
                    },
                )
            }
        },
        None => match &choice.finish_reason {
            Some(reason) => {
                let chunk: InferenceChunk = InferenceChunk::Delta {
                    text: String::new(),
                    finish_reason: Some(reason.clone()),
                };
                proof {
                    assert(chunk@ == choice_chunk(*choice)->0) by {
                        assert(chunk@->text =~= Seq::empty());
                    }
                }
                Some(chunk)
            },
            None => None,
        },
    }
}

/// What a piece of a streamed chat completion says: what the first alternative that says anything
/// says.
pub fn chunk_of(chunk: &ChatCompletionChunk) -> (said: Option<InferenceChunk>)
    ensures
        match said {
            Some(found) => first_said(chunk.choices@) == Some(found@),
            None => first_said(chunk.choices@) is None,
        },
{
    let mut i: usize = 0;
    proof {
        assert(chunk.choices@.skip(0) =~= chunk.choices@);
    }
    while i < chunk.choices.len()
        invariant
            i <= chunk.choices@.len(),
            first_said(chunk.choices@) == first_said(chunk.choices@.skip(i as int)),
        decreases chunk.choices@.len() - i,
    {
        proof {
            assert(chunk.choices@.skip(i as int)[0] == chunk.choices@[i as int]);
            assert(chunk.choices@.skip(i as int).drop_first() =~= chunk.choices@.skip(i + 1));
        }
        match said_by(&chunk.choices[i]) {
            Some(found) => {
                return Some(found);
            },
            None => {},
        }
        i = i + 1;
    }
    None
}

/// What a reader of a stream does next.
#[derive(Debug)]
pub enum StreamStep {
    /// Read data as JSON, and ask what it says.
    Parse(String),
    /// Hand out a piece of the answer.
    Emit(InferenceChunk),
    /// Wait for more bytes.
    NeedMore,
    /// The stream has ended.
    End,
}

/// What a reader of a stream does next.
pub enum StepView {
    /// Read data as JSON, and ask what it says.
    Parse(Seq<char>),
    /// Hand out a piece of the answer.
    Emit(ChunkView),
    /// Wait for more bytes.
    NeedMore,
    /// The stream has ended.
    End,
}

impl View for StreamStep {
    type V = StepView;

    open spec fn view(&self) -> StepView {
        match *self {
            StreamStep::Parse(data) => StepView::Parse(data@),
            StreamStep::Emit(chunk) => StepView::Emit(chunk@),
            StreamStep::NeedMore => StepView::NeedMore,
            StreamStep::End => StepView::End,
        }
    }
}

/// A reader of a streamed chat completion.
pub struct SseView {
    /// Text that has come in and has not been taken out.
    pub buffer: Seq<char>,
    /// Backend that answers.
    pub backend_id: BackendView,
    /// Whether the last piece was handed out.
    pub ended: bool,
}

impl SseView {
    /// What the reader does next, and what it is then. The end mark ends the stream.
    pub open spec fn step(self, latency_ms: u64) -> (StepView, SseView) {
        if self.ended {
            (StepView::End, self)
        } else {
            let (data, rest) = sse::next_data(self.buffer);
            match data {
                None => (StepView::NeedMore, SseView { buffer: rest, ..self }),
                Some(given) => if sse::is_end_mark(given) {
                    (
                        StepView::Emit(ChunkView::Done { backend_id: self.backend_id, latency_ms }),
                        SseView { buffer: rest, ended: true, ..self },
                    )
                } else {
                    (StepView::Parse(given), SseView { buffer: rest, ..self })
                },
            }
        }
    }
}

/// Reads a streamed chat completion. The last piece that it hands out is the end or a failure.
pub struct SseParser {
    buffer: SseBuffer,
    backend_id: BackendId,
    ended: bool,
}

impl View for SseParser {
    type V = SseView;

    closed spec fn view(&self) -> SseView {
        SseView { buffer: self.buffer@, backend_id: self.backend_id@, ended: self.ended }
    }
}

impl SseParser {
    /// A reader of the answer of a backend.
    pub fn new(backend_id: BackendId) -> (parser: Self)
        ensures
            parser@ == (SseView {
                buffer: Seq::empty(),
                backend_id: backend_id@,
                ended: false,
            }),
    {
        SseParser { buffer: SseBuffer::new(), backend_id, ended: false }
    }

    /// Takes in bytes of the answer.
    pub fn received(&mut self, bytes: &[u8])
        ensures
            final(self)@ == (SseView {
                buffer: old(self)@.buffer + sse::utf8_lossy(bytes@),
                ..old(self)@
            }),
            vstd::utf8::valid_utf8(bytes@) ==> final(self)@.buffer == old(self)@.buffer
                + vstd::utf8::decode_utf8(bytes@),
    {
        self.buffer.push_bytes(bytes);
    }

    /// Takes in text of the answer.
    pub fn received_text(&mut self, text: &str)
        ensures
            final(self)@ == (SseView { buffer: old(self)@.buffer + text@, ..old(self)@ }),
    {
        self.buffer.push_text(text);
    }

    /// What to do next, `latency_ms` after the request.
    pub fn step(&mut self, latency_ms: u64) -> (step: StreamStep)
        ensures
            step@ == old(self)@.step(latency_ms).0,
            final(self)@ == old(self)@.step(latency_ms).1,
    {
        if self.ended {
            return StreamStep::End;
        }
        match self.buffer.take_data() {
            None => StreamStep::NeedMore,
            Some(data) => {
                if marks_end(data.as_str()) {
                    self.ended = true;
                    StreamStep::Emit(
                        InferenceChunk::Done { backend_id: self.backend_id.clone(), latency_ms },
                    )
                } else {
                    StreamStep::Parse(data)
                }
            },
        }
    }

    /// The piece to hand out when the connection fails; it is the last one.
    pub fn failed(&mut self, detail: &str) -> (chunk: InferenceChunk)
        ensures
            chunk@ == (ChunkView::Error { code: 502, message: "stream read error: "@ + detail@ }),
            final(self)@ == (SseView { ended: true, ..old(self)@ }),
    {
        self.ended = true;
        InferenceChunk::Error { code: 502, message: join("stream read error: ", detail) }
    }

    /// The piece to hand out when there are no more bytes; it is the last one.
    pub fn finished(&mut self, latency_ms: u64) -> (chunk: InferenceChunk)
        ensures
            chunk@ == (ChunkView::Done { backend_id: old(self)@.backend_id, latency_ms }),
            final(self)@ == (SseView { ended: true, ..old(self)@ }),
    {
        self.ended = true;
        InferenceChunk::Done { backend_id: self.backend_id.clone(), latency_ms }
    }
}

/// After the last piece there is nothing more, whatever comes in.
pub proof fn nothing_follows_the_end(parser: SseView, more: Seq<char>, latency_ms: u64)
    requires
        parser.ended,
    ensures
        (SseView { buffer: parser.buffer + more, ..parser }).step(latency_ms).0 == StepView::End,
{
}

/// A value of a metric, in the forms in which it is stored.
#[derive(Clone, Copy, Debug, PartialEq, Eq, Structural)]
pub struct MetricValue {
    /// The whole part; a negative value counts as zero.
    pub whole: u64,
    /// The whole part of a thousand times the value.
    pub thousandths: u64,
    /// The value itself.
    pub real: RealBits,
}

/// The name and the value in a line of metrics: what stands before and after its last space, the
/// name without labels.
pub open spec fn metric_line(line: Seq<char>) -> Option<(Seq<char>, Seq<char>)> {
    match text::last_at(line, ' ') {
        Some(space) => {
            let head = line.take(space as int);
            Some((head.take(text::first_at(head, '{') as int), line.skip(space as int + 1)))
        },
        None => None,
    }
}

/// The name and the value in a line of metrics.
pub fn parse_prom_line(line: &str) -> (parsed: Option<(String, String)>)
    ensures
        match parsed {
            Some((name, value)) => metric_line(line@) == Some((name@, value@)),
            None => metric_line(line@) is None,
        },
{
    let chars: Vec<char> = chars_of(line);
    let len: usize = chars.len();
    match find_last(chars.as_slice(), ' ') {
        Some(space) => {
            let head: String = cut(line, 0, space);
            let head_chars: Vec<char> = chars_of(head.as_str());
            let brace: usize = find_char(head_chars.as_slice(), '{');
            let name: String = cut(head.as_str(), 0, brace);
            let value: String = cut(line, space + 1, len);
            proof {
                assert(head@ =~= line@.take(space as int));
                assert(name@ =~= head@.take(brace as int));
                assert(value@ =~= line@.skip(space as int + 1));
            }
            Some((name, value))
        },
        None => None,
    }
}

/// Whether a line holds a metric: it is not empty, and no comment.
pub open spec fn holds_metric(line: Seq<char>) -> bool {
    line.len() > 0 && line[0] != '#'
}

/// The names and values in a text of metrics, in order.
pub open spec fn metrics_in(lines: Seq<Seq<char>>) -> Seq<(Seq<char>, Seq<char>)>
    decreases lines.len(),
{
    if lines.len() == 0 {
        Seq::empty()
    } else {
        let before = metrics_in(lines.drop_last());
        let line = text::trimmed(lines.last());
        match metric_line(line) {
            Some(found) => if holds_metric(line) {
                before.push(found)
            } else {
                before
            },
            None => before,
        }
    }
}

/// Names and values by their views.
pub open spec fn metric_views(found: Seq<(String, String)>) -> Seq<(Seq<char>, Seq<char>)> {
    found.map_values(|entry: (String, String)| (entry.0@, entry.1@))
}

/// The names and values in a text of metrics, in order.
pub fn prometheus_metrics(text: &str) -> (found: Vec<(String, String)>)
    ensures
        metric_views(found@) == metrics_in(text::lines(text@)),
{
    let lines: Vec<String> = split_lines(text);
    let ghost all = text::views(lines@);
    let mut found: Vec<(String, String)> = Vec::new();
    let mut i: usize = 0;
    proof {
        assert(all.take(0) =~= Seq::empty());
        assert(metric_views(found@) =~= Seq::empty());
    }
    while i < lines.len()
        invariant
            i <= lines@.len(),
            all == text::views(lines@),
            metric_views(found@) == metrics_in(all.take(i as int)),
        decreases lines@.len() - i,
    {
        let line: String = trim(lines[i].as_str());
        let chars: Vec<char> = chars_of(line.as_str());
        let ghost shown = metric_views(found@);
        proof {
            assert(all.take(i + 1).drop_last() =~= all.take(i as int));
            assert(all.take(i + 1).last() == lines@[i as int]@);
        }
        if chars.len() > 0 && chars[0] != '#' {
            match parse_prom_line(line.as_str()) {
                Some(entry) => {
                    found.push(entry);
                    assert(metric_views(found@) =~= shown.push((entry.0@, entry.1@)));
                },
                None => {},
            }
        }
        i = i + 1;
    }
    proof {
        assert(all.take(i as int) =~= all);
    }
    found
}

/// Metrics after one of them was read.
pub open spec fn with_metric(
    metrics: BackendMetrics,
    name: Seq<char>,
    value: MetricValue,
) -> BackendMetrics {
    if name == "vllm:num_requests_running"@ || name == "hier_kv_gateway:active_requests"@ {
        BackendMetrics { active_requests: value.whole, ..metrics }
    } else if name == "vllm:num_requests_waiting"@ || name == "hier_kv_gateway:queue_depth"@ {
        BackendMetrics { queue_depth: value.whole, ..metrics }
    } else if name == "vllm:gpu_cache_usage_perc"@ || name == "hier_kv_gateway:kv_cache_usage"@ {
        BackendMetrics {
            kv_used_blocks: value.thousandths,
            kv_total_blocks: if metrics.kv_total_blocks == 0 {
                1000
            } else {
                metrics.kv_total_blocks
            },
            ..metrics
        }
    } else if name == "vllm:gpu_utilization"@ || name == "hier_kv_gateway:gpu_utilization"@ {
        BackendMetrics { gpu_utilization: value.real, ..metrics }
    } else {
        metrics
    }
}

/// Metrics after some of them were read, in order.
pub open spec fn with_metrics(
    metrics: BackendMetrics,
    values: Seq<(Seq<char>, MetricValue)>,
) -> BackendMetrics
    decreases values.len(),
{
    if values.len() == 0 {
        metrics
    } else {
        with_metric(
            with_metrics(metrics, values.drop_last()),
            values.last().0,
            values.last().1,
        )
    }
}

fn apply_metric(metrics: &mut BackendMetrics, name: &str, value: MetricValue)
    ensures
        *final(metrics) == with_metric(*old(metrics), name@, value),
{
    if reads(name, "vllm:num_requests_running") || reads(name, "hier_kv_gateway:active_requests") {
        metrics.active_requests = value.whole;
    } else if reads(name, "vllm:num_requests_waiting") || reads(
        name,
        "hier_kv_gateway:queue_depth",
    ) {
        metrics.queue_depth = value.whole;
    } else if reads(name, "vllm:gpu_cache_usage_perc") || reads(
        name,
        "hier_kv_gateway:kv_cache_usage",
    ) {
        metrics.kv_used_blocks = value.thousandths;
        if metrics.kv_total_blocks == 0 {
            metrics.kv_total_blocks = 1000;
        }
    } else if reads(name, "vllm:gpu_utilization") || reads(
        name,
        "hier_kv_gateway:gpu_utilization",
    ) {
        metrics.gpu_utilization = value.real;
    }
}

/// Values of metrics by their names.
pub open spec fn named_values(values: Seq<(String, MetricValue)>) -> Seq<(Seq<char>, MetricValue)> {
    values.map_values(|entry: (String, MetricValue)| (entry.0@, entry.1))
}

/// Takes in values of metrics, in order.
pub fn apply_metrics(metrics: &mut BackendMetrics, values: &Vec<(String, MetricValue)>)
    ensures
        *final(metrics) == with_metrics(*old(metrics), named_values(values@)),
{
    let ghost all = named_values(values@);
    let mut i: usize = 0;
    proof {
        assert(all.take(0) =~= Seq::empty());
    }
    while i < values.len()
        invariant
            i <= values@.len(),
            all == named_values(values@),
            *metrics == with_metrics(*old(metrics), all.take(i as int)),
        decreases values@.len() - i,
    {
        apply_metric(metrics, values[i].0.as_str(), values[i].1);
        proof {
            assert(all.take(i + 1).drop_last() =~= all.take(i as int));
            assert(all.take(i + 1).last() == (values@[i as int].0@, values@[i as int].1));
        }
        i = i + 1;
    }
    proof {
        assert(all.take(i as int) =~= all);
    }
}

/// A connection to a service, as configured.
#[derive(Clone, Debug)]
pub struct ConnectorProfile {
    /// Base of the service's URLs.
    pub base_url: String,
    /// Type of the backend.
    pub backend_type: BackendType,
    /// Region of the backend.
    pub region: RegionId,
    /// Instance of the backend.
    pub instance_id: BackendInstanceId,
    /// Names of its models.
    pub models: Vec<String>,
    /// Tokens per block.
    pub kv_block_size: u32,
    /// Whether a prompt that comes as tokens is sent as tokens.
    pub emit_token_ids: bool,
}

/// The instance that a URL stands for: the URL without the name of its protocol.
pub open spec fn instance_of_url(url: Seq<char>) -> Seq<char> {
    text::without_all(text::without_all(url, "http://"@), "https://"@)
}

/// The instance that a URL stands for: the URL without the name of its protocol.
pub fn url_instance(url: &str) -> (instance: BackendInstanceId)
    ensures
        instance@ == instance_of_url(url@),
{
    let without_http: String = remove_all(url, "http://");
    BackendInstanceId::new(remove_all(without_http.as_str(), "https://").as_str())
}

/// A model of which only the name is known.
pub open spec fn is_plain_model(model: ModelInstance, name: Seq<char>) -> bool {
    &&& model.model_name@ == name
    &&& model.model_architecture@ == "unknown"@
    &&& model.quantization == Quantization::Fp16
    &&& model.max_context_len == 32768
    &&& !model.supports_tool_calling
    &&& model.supports_streaming
}

/// Models of which only the names are known.
pub open spec fn are_plain_models(models: Seq<ModelInstance>, names: Seq<String>) -> bool {
    &&& models.len() == names.len()
    &&& forall|i: int|
        0 <= i < models.len() ==> is_plain_model(#[trigger] models[i], names[i]@)
}

/// Models of which only the names are known.
pub fn plain_models(names: &Vec<String>) -> (models: Vec<ModelInstance>)
    ensures
        are_plain_models(models@, names@),
{
    let mut models: Vec<ModelInstance> = Vec::new();
    let mut i: usize = 0;
    while i < names.len()
        invariant
            i <= names@.len(),
            models@.len() == i,
            forall|k: int|
                0 <= k < i ==> is_plain_model(#[trigger] models@[k], names@[k]@),
        decreases names@.len() - i,
    {
        models.push(
            ModelInstance {
                model_name: names[i].clone(),
                model_architecture: "unknown".to_owned(),
                quantization: Quantization::Fp16,
                max_context_len: 32768,
                supports_tool_calling: false,
                supports_streaming: true,
            },
        );
        i = i + 1;
    }
    models
}

/// Whether this is what is known of a backend that was only just found.
pub open spec fn is_plain_info(
    info: BackendInfo,
    region: Seq<char>,
    instance_id: Seq<char>,
    backend_type: BackendType,
    url: Seq<char>,
    protocol: Protocol,
    kv_block_size: u32,
    supports_kv_events: bool,
) -> bool {
    &&& info.id@ == (region, instance_id)
    &&& info.backend_type == backend_type
    &&& info.endpoint.url@ == url
    &&& info.endpoint.protocol == protocol
    &&& info.region@ == region
    &&& info.indexer_domain == IndexerDomainId(0)
    &&& info.capabilities == BackendCapabilities {
        supports_kv_events,
        supports_batching: true,
        max_batch_size: 0,
        gpu_count: 0,
        gpu_memory_gb: 0,
    }
    &&& info.kv_config.block_size == kv_block_size
    &&& info.kv_config.cache_namespace@.len() == 0
    &&& info.kv_config.max_kv_blocks == 0
    &&& info.status == BackendStatus::Healthy
}

/// What is known of a backend that was only just found.
pub fn plain_info(
    region: &RegionId,
    instance_id: &BackendInstanceId,
    backend_type: BackendType,
    url: &str,
    protocol: Protocol,
    models: Vec<ModelInstance>,
    kv_block_size: u32,
    supports_kv_events: bool,
) -> (info: BackendInfo)
    ensures
        info.models == models,
        is_plain_info(
            info,
            region@,
            instance_id@,
            backend_type,
            url@,
            protocol,
            kv_block_size,
            supports_kv_events,
        ),
{
    BackendInfo {
        id: BackendId::new(region.as_str(), instance_id.as_str()),
        backend_type,
        endpoint: Endpoint { url: url.to_owned(), protocol },
        models,
        region: region.clone(),
        indexer_domain: IndexerDomainId(0),
        capabilities: BackendCapabilities {
            supports_kv_events,
            supports_batching: true,
            max_batch_size: 0,
            gpu_count: 0,
            gpu_memory_gb: 0,
        },
        kv_config: KvConfig {
            block_size: kv_block_size,
            cache_namespace: String::new(),
            max_kv_blocks: 0,
        },
        status: BackendStatus::Healthy,
    }
}

impl ConnectorProfile {
    /// A connection with its own instance name.
    pub fn new(
        base_url: &str,
        backend_type: BackendType,
        region: RegionId,
        instance_id: BackendInstanceId,
        models: Vec<String>,
        kv_block_size: u32,
    ) -> (profile: Self)
        ensures
            profile.base_url@ == base_url@,
            profile.backend_type == backend_type,
            profile.region == region,
            profile.instance_id == instance_id,
            profile.models == models,
            profile.kv_block_size == kv_block_size,
            !profile.emit_token_ids,
    {
        ConnectorProfile {
            base_url: base_url.to_owned(),
            backend_type,
            region,
            instance_id,
            models,
            kv_block_size,
            emit_token_ids: false,
        }
    }

    /// A connection to an endpoint, named after its URL.
    pub fn from_endpoint(
        endpoint: &Endpoint,
        backend_type: BackendType,
        region: &RegionId,
        models: Vec<String>,
        kv_block_size: u32,
    ) -> (profile: Self)
        ensures
            profile.base_url@ == endpoint.url@,
            profile.backend_type == backend_type,
            profile.region == *region,
            profile.instance_id@ == instance_of_url(endpoint.url@),
            profile.models == models,
            profile.kv_block_size == kv_block_size,
            !profile.emit_token_ids,
    {
        ConnectorProfile::new(
            endpoint.url.as_str(),
            backend_type,
            region.clone(),
            url_instance(endpoint.url.as_str()),
            models,
            kv_block_size,
        )
    }

    /// The same connection, with or without sending prompts as tokens.
    pub fn with_emit_token_ids(self, emit: bool) -> (profile: Self)
        ensures
            profile == (ConnectorProfile { emit_token_ids: emit, ..self }),
    {
        ConnectorProfile { emit_token_ids: emit, ..self }
    }

    /// The backend.
    pub fn backend_id(&self) -> (id: BackendId)
        ensures
            id@ == (self.region@, self.instance_id@),
    {
        BackendId::new(self.region.as_str(), self.instance_id.as_str())
    }

    /// URL of the health check.
    pub fn health_url(&self) -> (url: String)
        ensures
            url@ == self.base_url@ + "/health"@,
    {
        join(self.base_url.as_str(), "/health")
    }

    /// URL of the list of models.
    pub fn models_url(&self) -> (url: String)
        ensures
            url@ == self.base_url@ + "/v1/models"@,
    {
        join(self.base_url.as_str(), "/v1/models")
    }

    /// URL of chat completions.
    pub fn completions_url(&self) -> (url: String)
        ensures
            url@ == self.base_url@ + "/v1/chat/completions"@,
    {
        join(self.base_url.as_str(), "/v1/chat/completions")
    }

    /// URL of metrics.
    pub fn metrics_url(&self) -> (url: String)
        ensures
            url@ == self.base_url@ + "/metrics"@,
    {
        join(self.base_url.as_str(), "/metrics")
    }

    /// What is known of the backend when its service lists `listed` as its models; the configured
    /// ones count if it lists none.
    pub fn discovered(&self, listed: &Vec<String>) -> (info: BackendInfo)
        ensures
            are_plain_models(
                info.models@,
                if listed@.len() == 0 {
                    self.models@
                } else {
                    listed@
                },
            ),
            is_plain_info(
                info,
                self.region@,
                self.instance_id@,
                self.backend_type,
                self.base_url@,
                Protocol::Http,
                self.kv_block_size,
                false,
            ),
    {
        let models: Vec<ModelInstance> = if listed.len() == 0 {
            plain_models(&self.models)
        } else {
            plain_models(listed)
        };
        plain_info(
            &self.region,
            &self.instance_id,
            self.backend_type,
            self.base_url.as_str(),
            Protocol::Http,
            models,
            self.kv_block_size,
            false,
        )
    }
}

/// A choice says its first complete call, one with an identifier and a function, whatever else it
/// holds; without one it says its text with the reason to end, if the text is not empty; and without a
/// text, the reason alone. `k` is the number of incomplete calls before the first complete one.
pub proof fn a_choice_says_its_first_complete_call(choice: Choice, k: int)
    requires
        ({
            let calls = choice.delta.tool_calls@;
            &&& 0 <= k <= calls.len()
            &&& forall|i: int|
                0 <= i < k ==> (#[trigger] calls[i]).id is None || calls[i].function is None
            &&& k < calls.len() ==> calls[k].id is Some && calls[k].function is Some
        }),
    ensures
        ({
            let calls = choice.delta.tool_calls@;
            let content = choice.delta.content;
            let said = choice_chunk(choice);
            let told = match choice.finish_reason {
                Some(reason) => Some(reason@),
                None => None,
            };
            &&& k < calls.len() ==> said == Some(
                ChunkView::ToolCall {
                    id: calls[k].id->0@,
                    function: match calls[k].function->0.name {
                        Some(name) => name@,
                        None => Seq::empty(),
                    },
                    args: match calls[k].function->0.arguments {
                        Some(text) => text@,
                        None => Seq::empty(),
                    },
                },
            )
            &&& k == calls.len() && content is Some && content->0@.len() > 0 ==> said == Some(
                ChunkView::Delta { text: content->0@, finish_reason: told },
            )
            &&& k == calls.len() && content is None && told is Some ==> said == Some(
                ChunkView::Delta { text: Seq::empty(), finish_reason: told },
            )
            &&& k == calls.len() && content is Some && content->0@.len() == 0 ==> said is None
            &&& k == calls.len() && content is None && choice.finish_reason is None ==> said is None
        }),
{
    lemma_first_call(choice.delta.tool_calls@, k);
}

proof fn lemma_first_call(calls: Seq<ToolCallDelta>, k: int)
    requires
        0 <= k <= calls.len(),
        forall|i: int|
            0 <= i < k ==> (#[trigger] calls[i]).id is None || calls[i].function is None,
        k < calls.len() ==> calls[k].id is Some && calls[k].function is Some,
    ensures
        k == calls.len() ==> first_call(calls) is None,
        k < calls.len() ==> first_call(calls) == Some(
            ChunkView::ToolCall {
                id: calls[k].id->0@,
                function: or_empty(calls[k].function->0.name),
                args: or_empty(calls[k].function->0.arguments),
            },
        ),
    decreases k,
{
    if k > 0 {
        let rest = calls.drop_first();
        assert forall|i: int| 0 <= i < k - 1 implies (#[trigger] rest[i]).id is None
            || rest[i].function is None by {
            assert(rest[i] == calls[i + 1]);
        }
        assert(calls[0].id is None || calls[0].function is None);
        lemma_first_call(rest, k - 1);
    }
}

/// Of several choices the first that says something is heard; if none does, nothing is.
pub proof fn the_first_choice_that_speaks_is_heard(choices: Seq<Choice>, k: int)
    requires
        0 <= k <= choices.len(),
        forall|i: int| 0 <= i < k ==> choice_chunk(#[trigger] choices[i]) is None,
        k < choices.len() ==> choice_chunk(choices[k]) is Some,
    ensures
        k == choices.len() ==> first_said(choices) is None,
        k < choices.len() ==> first_said(choices) == choice_chunk(choices[k]),
    decreases k,
{
    if k > 0 {
        let rest = choices.drop_first();
        assert forall|i: int| 0 <= i < k - 1 implies choice_chunk(#[trigger] rest[i]) is None by {
            assert(rest[i] == choices[i + 1]);
        }
        assert(choice_chunk(choices[0]) is None);
        the_first_choice_that_speaks_is_heard(rest, k - 1);
    }
}

/// A complete line of data is taken out of the buffer: it ends the stream if it is the end mark, with
/// a last piece that names the backend, and is read otherwise. Without a complete line the reader waits
/// and keeps what it has.
pub proof fn a_line_of_data_is_read_or_ends_the_stream(
    parser: SseView,
    data: Seq<char>,
    crs: nat,
    rest: Seq<char>,
    latency_ms: u64,
)
    requires
        !parser.ended,
        !data.contains('\n'),
        data.len() == 0 || data.last() != '\r',
    ensures
        parser.buffer == ("data: "@ + data + Seq::new(crs, |i: int| '\r')).push('\n') + rest ==> {
            let (step, after) = parser.step(latency_ms);
            let at_end = exists|i: int| #[trigger] text::padded(data, "[DONE]"@, i);
            &&& at_end ==> step == StepView::Emit(
                ChunkView::Done { backend_id: parser.backend_id, latency_ms },
            )
            &&& !at_end ==> step == StepView::Parse(data)
            &&& after.buffer == rest
            &&& after.ended == at_end
            &&& after.backend_id == parser.backend_id
        },
        !parser.buffer.contains('\n') ==> parser.step(latency_ms) == (StepView::NeedMore, parser),
{
    sse::a_line_of_data_is_handed_out(data, crs, rest);
    if exists|i: int| #[trigger] text::padded(data, "[DONE]"@, i) {
        let i = choose|i: int| #[trigger] text::padded(data, "[DONE]"@, i);
        sse::the_end_may_be_padded(data, i);
    } else {
        sse::the_end_may_be_padded(data, 0);
    }
    if !parser.buffer.contains('\n') {
        sse::other_lines_are_passed_over(parser.buffer, Seq::empty());
    }
}

proof fn lemma_last_at_is(text: Seq<char>, c: char, at: nat)
    requires
        at < text.len(),
        text[at as int] == c,
        forall|i: int| at < i < text.len() ==> text[i] != c,
    ensures
        text::last_at(text, c) == Some(at),
{
    text::the_last_occurrence_has_none_behind_it(text, c);
    match text::last_at(text, c) {
        Some(found) => {
            if found < at {
                assert(text[at as int] != c);
            } else if found > at {
                assert(text[found as int] != c);
            }
        },
        None => {
            assert(text.contains(text[at as int]));
        },
    }
}

/// A line of metrics gives the name before its labels, if it has any, and the value behind its last
/// blank; a line without a blank gives nothing.
pub proof fn a_line_of_metrics_has_a_name_and_a_value(
    name: Seq<char>,
    labels: Seq<char>,
    value: Seq<char>,
)
    requires
        !name.contains('{'),
        labels.len() == 0 || labels[0] == '{',
        !value.contains(' '),
    ensures
        metric_line(name + labels + seq![' '] + value) == Some((name, value)),
        metric_line(value) is None,
{
    let head = name + labels;
    let line = head + seq![' '] + value;
    assert(line[head.len() as int] == ' ');
    assert forall|i: int| head.len() < i < line.len() implies line[i] != ' ' by {
        assert(line[i] == value[i - head.len() - 1]);
    }
    lemma_last_at_is(line, ' ', head.len());
    assert(line.take(head.len() as int) =~= head);
    assert(line.skip(head.len() as int + 1) =~= value);
    assert forall|i: int| 0 <= i < name.len() implies head[i] != '{' by {
        assert(head[i] == name[i]);
    }
    if labels.len() > 0 {
        assert(head[name.len() as int] == '{');
    }
    text::lemma_first_at_unique(head, '{', name.len());
    assert(head.take(name.len() as int) =~= name);
    text::the_last_occurrence_has_none_behind_it(value, ' ');
    if metric_line(value) is Some {
        let at = text::last_at(value, ' ')->0;
        assert(value.contains(value[at as int]));
    }
}

/// The metrics of two texts, one behind the other, are those of the first and those of the second.
pub proof fn metrics_are_read_line_by_line(first: Seq<Seq<char>>, second: Seq<Seq<char>>)
    ensures
        metrics_in(first + second) == metrics_in(first) + metrics_in(second),
    decreases second.len(),
{
    let all = first + second;
    if second.len() == 0 {
        assert(all =~= first);
        assert(metrics_in(first) + metrics_in(second) =~= metrics_in(first));
    } else {
        metrics_are_read_line_by_line(first, second.drop_last());
        assert(all.drop_last() =~= first + second.drop_last());
        assert(all.last() == second.last());
        assert(metrics_in(all) =~= metrics_in(first) + metrics_in(second));
    }
}

/// A line gives its metric, whatever white space is around it; a comment and an empty line give none.
pub proof fn a_line_gives_its_metric(line: Seq<char>, part: Seq<char>, from: int)
    requires
        text::padded(line, part, from),
        part.len() > 0 ==> !text::is_space(part[0]) && !text::is_space(part.last()),
    ensures
        part.len() == 0 ==> metrics_in(seq![line]).len() == 0,
        part.len() > 0 && part[0] == '#' ==> metrics_in(seq![line]).len() == 0,
        part.len() > 0 && part[0] != '#' && metric_line(part) is Some ==> metrics_in(seq![line])
            == seq![metric_line(part)->0],
        part.len() > 0 && metric_line(part) is None ==> metrics_in(seq![line]).len() == 0,
{
    let lines = seq![line];
    assert(lines.drop_last() =~= Seq::empty());
    assert(lines.last() == line);
    assert(metrics_in(Seq::<Seq<char>>::empty()) =~= Seq::empty());
    if part.len() > 0 {
        text::added_space_is_trimmed(line, part, from);
        assert(metrics_in(lines) == match metric_line(part) {
            Some(found) => if part[0] != '#' {
                Seq::empty().push(found)
            } else {
                Seq::empty()
            },
            None => Seq::empty(),
        });
        if metric_line(part) is Some && part[0] != '#' {
            assert(Seq::empty().push(metric_line(part)->0) =~= seq![metric_line(part)->0]);
        }
    } else {
        text::trimming_takes_outer_space_away(line);
        let i = choose|i: int| #[trigger] text::padded(line, text::trimmed(line), i);
        if text::trimmed(line).len() > 0 {
            let c = text::trimmed(line)[0];
            assert(line.subrange(i, i + text::trimmed(line).len())[0] == c);
            assert(line[i] == c);
            if i < from {
                assert(line.take(from)[i] == c);
            } else {
                assert(line.skip(from)[i - from] == c);
            }
        }
    }
}

/// The number of running requests, of waiting requests, the share of the cache that is used and that
/// of the device each set their own figure, under either of their names, and leave the others as they
/// were; any other metric changes nothing.
pub proof fn a_metric_sets_its_own_figure(
    metrics: BackendMetrics,
    name: Seq<char>,
    value: MetricValue,
)
    ensures
        ({
            let after = with_metric(metrics, name, value);
            let running = name == "vllm:num_requests_running"@ || name
                == "hier_kv_gateway:active_requests"@;
            let waiting = name == "vllm:num_requests_waiting"@ || name
                == "hier_kv_gateway:queue_depth"@;
            let cached = name == "vllm:gpu_cache_usage_perc"@ || name
                == "hier_kv_gateway:kv_cache_usage"@;
            let busy = name == "vllm:gpu_utilization"@ || name == "hier_kv_gateway:gpu_utilization"@;
            &&& after.active_requests == if running { value.whole } else { metrics.active_requests }
            &&& after.queue_depth == if waiting { value.whole } else { metrics.queue_depth }
            &&& after.kv_used_blocks == if cached { value.thousandths } else { metrics.kv_used_blocks }
            &&& after.kv_total_blocks == if cached && metrics.kv_total_blocks == 0 {
                1000
            } else {
                metrics.kv_total_blocks
            }
            &&& after.gpu_utilization == if busy { value.real } else { metrics.gpu_utilization }
            &&& after == (BackendMetrics {
                active_requests: after.active_requests,
                queue_depth: after.queue_depth,
                kv_used_blocks: after.kv_used_blocks,
                kv_total_blocks: after.kv_total_blocks,
                gpu_utilization: after.gpu_utilization,
                ..metrics
            })
        }),
{
    reveal_strlit("vllm:num_requests_running");
    reveal_strlit("hier_kv_gateway:active_requests");
    reveal_strlit("vllm:num_requests_waiting");
    reveal_strlit("hier_kv_gateway:queue_depth");
    reveal_strlit("vllm:gpu_cache_usage_perc");
    reveal_strlit("hier_kv_gateway:kv_cache_usage");
    reveal_strlit("vllm:gpu_utilization");
    reveal_strlit("hier_kv_gateway:gpu_utilization");
    assert("vllm:num_requests_running"@.len() == 25);
    assert("hier_kv_gateway:active_requests"@.len() == 31);
    assert("vllm:num_requests_waiting"@.len() == 25);
    assert("hier_kv_gateway:queue_depth"@.len() == 27);
    assert("vllm:gpu_cache_usage_perc"@.len() == 25);
    assert("hier_kv_gateway:kv_cache_usage"@.len() == 30);
    assert("vllm:gpu_utilization"@.len() == 20);
    assert("hier_kv_gateway:gpu_utilization"@.len() == 31);
    assert("vllm:num_requests_running"@[18] != "vllm:num_requests_waiting"@[18]);
    assert("vllm:num_requests_running"@[5] != "vllm:gpu_cache_usage_perc"@[5]);
    assert("hier_kv_gateway:active_requests"@[16] != "hier_kv_gateway:gpu_utilization"@[16]);
    assert("vllm:num_requests_waiting"@[5] != "vllm:gpu_cache_usage_perc"@[5]);
}

/// Of several values of a metric the last counts; metrics of which there is none stay as they were.
pub proof fn the_last_value_of_a_metric_counts(
    metrics: BackendMetrics,
    values: Seq<(Seq<char>, MetricValue)>,
    name: Seq<char>,
    value: MetricValue,
)
    ensures
        ({
            let before = with_metrics(metrics, values);
            with_metrics(metrics, values.push((name, value))) == with_metric(before, name, value)
        }),
        with_metrics(metrics, Seq::empty()) == metrics,
{
    assert(values.push((name, value)).drop_last() =~= values);
}

proof fn lemma_no_scheme_inside(url: Seq<char>, host: Seq<char>, scheme: Seq<char>, i: int)
    requires
        url == scheme + host,
        !host.contains('/'),
        0 < i,
        scheme == "http://"@ || scheme == "https://"@,
    ensures
        i + 7 <= url.len() ==> url.skip(i).take(7) != "http://"@,
        i + 8 <= url.len() ==> url.skip(i).take(8) != "https://"@,
{
    reveal_strlit("http://");
    reveal_strlit("https://");
    if i + 7 <= url.len() && url.skip(i).take(7) == "http://"@ {
        assert(url.skip(i).take(7)[6] == url[i + 6]);
        assert(url.skip(i).take(7)[0] == url[i]);
        assert(url.skip(i).take(7)[5] == url[i + 5]);
        if i + 6 >= scheme.len() {
            assert(url[i + 6] == host[i + 6 - scheme.len()]);
            assert(host.contains('/'));
        }
        assert(false);
    }
    if i + 8 <= url.len() && url.skip(i).take(8) == "https://"@ {
        assert(url.skip(i).take(8)[7] == url[i + 7]);
        if i + 7 >= scheme.len() {
            assert(url[i + 7] == host[i + 7 - scheme.len()]);
            assert(host.contains('/'));
        }
        assert(false);
    }
}

proof fn lemma_no_slash(host: Seq<char>)
    requires
        !host.contains('/'),
    ensures
        text::without_all(host, "http://"@) == host,
        text::without_all(host, "https://"@) == host,
{
    reveal_strlit("http://");
    reveal_strlit("https://");
    assert forall|i: int|
        #![trigger host.skip(i)]
        0 <= i < host.len() && i + 7 <= host.len() implies host.skip(i).take(7) != "http://"@ by {
        assert(host.skip(i).take(7)[6] == host[i + 6]);
        assert(host.contains(host[i + 6]));
    }
    assert forall|i: int|
        #![trigger host.skip(i)]
        0 <= i < host.len() && i + 8 <= host.len() implies host.skip(i).take(8) != "https://"@ by {
        assert(host.skip(i).take(8)[7] == host[i + 7]);
        assert(host.contains(host[i + 7]));
    }
    text::a_part_is_taken_out_where_it_occurs(host, "http://"@, host.len() as int);
    text::a_part_is_taken_out_where_it_occurs(host, "https://"@, host.len() as int);
}

/// A backend is named after its host, whichever of the two schemes its address has.
pub proof fn a_backend_is_named_after_its_host(host: Seq<char>)
    requires
        !host.contains('/'),
    ensures
        instance_of_url("http://"@ + host) == host,
        instance_of_url("https://"@ + host) == host,
        instance_of_url(host) == host,
{
    reveal_strlit("http://");
    reveal_strlit("https://");
    lemma_no_slash(host);
    let plain = "http://"@ + host;
    let safe = "https://"@ + host;
    assert(plain.skip(0) =~= plain);
    assert(plain.take(7) =~= "http://"@);
    assert(plain.skip(7) =~= host);
    text::a_part_is_taken_out_where_it_occurs(plain, "http://"@, 0);
    assert(plain.take(0) + host =~= host);
    assert forall|i: int|
        #![trigger safe.skip(i)]
        0 <= i < safe.len() && i + 7 <= safe.len() implies safe.skip(i).take(7) != "http://"@ by {
        if i > 0 {
            lemma_no_scheme_inside(safe, host, "https://"@, i);
        } else {
            assert(safe.skip(0).take(7)[4] == "https://"@[4]);
        }
    }
    text::a_part_is_taken_out_where_it_occurs(safe, "http://"@, safe.len() as int);
    assert(safe.skip(0) =~= safe);
    assert(safe.take(8) =~= "https://"@);
    assert(safe.skip(8) =~= host);
    text::a_part_is_taken_out_where_it_occurs(safe, "https://"@, 0);
    assert(safe.take(0) + host =~= host);
}

/// The prompt is sent as tokens if that is asked for and there are tokens, and as text otherwise.
pub proof fn tokens_are_sent_if_there_are_any(request: InferenceRequest, emit_token_ids: bool)
    ensures
        !emit_token_ids ==> !sends_tokens(request, emit_token_ids),
        request.token_ids@.len() == 0 ==> !sends_tokens(request, emit_token_ids),
        emit_token_ids && request.token_ids@.len() > 0 ==> sends_tokens(request, emit_token_ids),
{
}

/// A backend of which no more is known than its address is healthy, is named and placed as it says, and
/// belongs to no domain; it takes batches, and streams. Its models have the listed names, in order.
pub proof fn a_plain_backend_is_as_it_says(
    info: BackendInfo,
    region: Seq<char>,
    instance_id: Seq<char>,
    backend_type: BackendType,
    url: Seq<char>,
    protocol: Protocol,
    kv_block_size: u32,
    supports_kv_events: bool,
    names: Seq<String>,
    i: int,
)
    requires
        is_plain_info(
            info,
            region,
            instance_id,
            backend_type,
            url,
            protocol,
            kv_block_size,
            supports_kv_events,
        ),
        are_plain_models(info.models@, names),
    ensures
        info.id@.0 == region && info.region@ == region && info.id@.1 == instance_id,
        info.backend_type == backend_type && info.endpoint.protocol == protocol,
        info.endpoint.url@ == url,
        info.status == BackendStatus::Healthy,
        info.capabilities.supports_kv_events == supports_kv_events,
        info.capabilities.supports_batching,
        info.kv_config.block_size == kv_block_size,
        info.indexer_domain.0 == 0,
        info.models@.len() == names.len(),
        0 <= i < names.len() ==> info.models@[i].model_name@ == names[i]@
            && info.models@[i].supports_streaming && !info.models@[i].supports_tool_calling
            && info.models@[i].max_context_len == 32768 && info.models@[i].model_architecture@
            == "unknown"@,
{
}

} // verus!
