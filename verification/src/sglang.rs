//! What is said to SGLang servers, and what is made of their answers.

use vstd::prelude::*;
use vstd::string::*;
use vstd::utf8::*;

use crate::ids::{BackendId, BackendView};
use crate::metrics::{BackendMetrics, RealBits};
use crate::openai_compat::{StepView, StreamStep};
use crate::request;
use crate::request::{ChunkView, InferenceChunk, InferenceRequest};
use crate::sse;
use crate::sse::{marks_end, SseBuffer};
use crate::text;
use crate::text::{join, reads};

verus! {

/// A request to generate from tokens.
#[derive(Debug)]
pub struct GenerateRequest {
    /// The prompt.
    pub input_ids: Vec<u32>,
    /// How to sample.
    pub sampling_params: GenerateSamplingParams,
    /// Whether the answer is streamed.
    pub stream: bool,
}

/// How to sample.
#[derive(Clone, Copy, Debug, PartialEq, Eq, Structural)]
pub struct GenerateSamplingParams {
    /// Most tokens to generate.
    pub max_new_tokens: u32,
    /// Sampling temperature.
    pub temperature: RealBits,
}

impl GenerateRequest {
    /// The request to generate from a request's tokens, which is always streamed.
    pub fn for_request(request: &InferenceRequest) -> (body: Self)
        ensures
            body.input_ids@ == request.token_ids@,
            body.sampling_params == (GenerateSamplingParams {
                max_new_tokens: request.max_tokens,
                temperature: request.temperature,
            }),
            body.stream,
    {
        GenerateRequest {
            input_ids: request.token_ids.clone(),
            sampling_params: GenerateSamplingParams {
                max_new_tokens: request.max_tokens,
                temperature: request.temperature,
            },
            stream: true,
        }
    }
}

/// URL of generation from tokens.
pub fn generate_url(base_url: &str) -> (url: String)
    ensures
        url@ == base_url@ + "/generate"@,
{
    join(base_url, "/generate")
}

/// URL of the server's state.
pub fn server_info_url(base_url: &str) -> (url: String)
    ensures
        url@ == base_url@ + "/get_server_info"@,
{
    join(base_url, "/get_server_info")
}

/// A piece of a streamed answer.
#[derive(Debug)]
pub struct GenerateStreamChunk {
    /// All text so far.
    pub text: String,
    /// Why the answer ends here, if it does.
    pub finish_reason: Option<String>,
}

/// A reader of a streamed answer.
pub struct GenerateView {
    /// Text that has come in and has not been taken out.
    pub buffer: Seq<char>,
    /// Backend that answers.
    pub backend_id: BackendView,
    /// Bytes of the answer that were handed out.
    pub emitted: nat,
    /// Whether the last text was handed out.
    pub finished: bool,
    /// Whether the end was handed out.
    pub done_emitted: bool,
    /// Whether all bytes have come in.
    pub input_ended: bool,
}

impl GenerateView {
    /// What the reader does next, and what it is then. The end is handed out once, and nothing
    /// after it.
    pub open spec fn step(self, latency_ms: u64) -> (StepView, GenerateView) {
        let done = StepView::Emit(ChunkView::Done { backend_id: self.backend_id, latency_ms });
        if self.finished {
            if self.done_emitted {
                (StepView::End, self)
            } else {
                (done, GenerateView { done_emitted: true, ..self })
            }
        } else {
            let (data, rest) = sse::next_data(self.buffer);
            let taken = GenerateView { buffer: rest, ..self };
            let ended = GenerateView { finished: true, done_emitted: true, ..taken };
            match data {
                None => if self.input_ended {
                    (done, ended)
                } else {
                    (StepView::NeedMore, taken)
                },
                Some(given) => if sse::is_end_mark(given) {
                    (done, ended)
                } else {
                    (StepView::Parse(given), taken)
                },
            }
        }
    }

    /// Whether the text of a piece can be set against what was handed out: it is shorter, or it is
    /// broken between two characters there.
    pub open spec fn accepts(self, text: Seq<char>) -> bool {
        let bytes = encode_utf8(text);
        if bytes.len() >= self.emitted {
            is_char_boundary(bytes, self.emitted as int)
        } else {
            self.emitted + bytes.len() <= usize::MAX
        }
    }

    /// What is new in a piece that gives all text so far: what follows the bytes that were handed
    /// out. A piece that is shorter than these is new as a whole.
    pub open spec fn new_bytes(self, text: Seq<char>) -> Seq<u8> {
        let bytes = encode_utf8(text);
        if bytes.len() >= self.emitted {
            bytes.skip(self.emitted as int)
        } else {
            bytes
        }
    }

    /// The reader after a piece was read.
    pub open spec fn after(self, text: Seq<char>, finish_reason: Option<Seq<char>>) -> GenerateView {
        let bytes = encode_utf8(text);
        GenerateView {
            emitted: if bytes.len() >= self.emitted {
                bytes.len()
            } else {
                self.emitted + bytes.len()
            },
            finished: self.finished || finish_reason is Some,
            ..self
        }
    }
}

/// Reads a streamed answer, in which each piece gives all text so far.
pub struct SglangGenerateParser {
    buffer: SseBuffer,
    backend_id: BackendId,
    emitted_len: usize,
    finished: bool,
    done_emitted: bool,
    input_ended: bool,
}

impl View for SglangGenerateParser {
    type V = GenerateView;

    closed spec fn view(&self) -> GenerateView {
        GenerateView {
            buffer: self.buffer@,
            backend_id: self.backend_id@,
            emitted: self.emitted_len as nat,
            finished: self.finished,
            done_emitted: self.done_emitted,
            input_ended: self.input_ended,
        }
    }
}

impl SglangGenerateParser {
    /// A reader of the answer of a backend.
    pub fn new(backend_id: BackendId) -> (parser: Self)
        ensures
            parser@ == (GenerateView {
                buffer: Seq::empty(),
                backend_id: backend_id@,
                emitted: 0,
                finished: false,
                done_emitted: false,
                input_ended: false,
            }),
    {
        SglangGenerateParser {
            buffer: SseBuffer::new(),
            backend_id,
            emitted_len: 0,
            finished: false,
            done_emitted: false,
            input_ended: false,
        }
    }

    fn done_chunk(&self, latency_ms: u64) -> (chunk: InferenceChunk)
        ensures
            chunk@ == (ChunkView::Done { backend_id: self@.backend_id, latency_ms }),
    {
        InferenceChunk::Done { backend_id: self.backend_id.clone(), latency_ms }
    }

    /// Number of bytes of the answer that were handed out.
    pub fn emitted_len(&self) -> (n: usize)
        ensures
            n == self@.emitted,
    {
        self.emitted_len
    }

    /// Takes in bytes of the answer.
    pub fn received(&mut self, bytes: &[u8])
        ensures
            final(self)@ == (GenerateView {
                buffer: old(self)@.buffer + sse::utf8_lossy(bytes@),
                ..old(self)@
            }),
            vstd::utf8::valid_utf8(bytes@) ==> final(self)@.buffer == old(self)@.buffer
                + vstd::utf8::decode_utf8(bytes@),
    {
        self.buffer.push_bytes(bytes);
    }

    /// Takes in text of the answer.
    pub fn received_text(&mut self, text: &str)
        ensures
            final(self)@ == (GenerateView { buffer: old(self)@.buffer + text@, ..old(self)@ }),
    {
        self.buffer.push_text(text);
    }

    /// Notes that all bytes have come in; a last line that lacks its end is complete then.
    pub fn end_input(&mut self)
        ensures
            final(self)@ == (GenerateView {
                buffer: if old(self)@.buffer.len() == 0 {
                    old(self)@.buffer
                } else {
                    old(self)@.buffer.push('\n')
                },
                input_ended: true,
                ..old(self)@
            }),
    {
        self.input_ended = true;
        if !self.buffer.is_empty() {
            proof {
                reveal_strlit("\n");
                assert("\n"@ =~= seq!['\n']);
            }
            self.buffer.push_text("\n");
            assert(self.buffer@ =~= old(self)@.buffer.push('\n'));
        }
    }

    /// What to do next, `latency_ms` after the request.
    pub fn step(&mut self, latency_ms: u64) -> (step: StreamStep)
        ensures
            step@ == old(self)@.step(latency_ms).0,
            final(self)@ == old(self)@.step(latency_ms).1,
    {
        if self.finished {
            if self.done_emitted {
                return StreamStep::End;
            }
            self.done_emitted = true;
            return StreamStep::Emit(self.done_chunk(latency_ms));
        }
        match self.buffer.take_data() {
            None => {
                if self.input_ended {
                    self.finished = true;
                    self.done_emitted = true;
                    StreamStep::Emit(self.done_chunk(latency_ms))
                } else {
                    StreamStep::NeedMore
                }
            },
            Some(data) => {
                if marks_end(data.as_str()) {
                    self.finished = true;
                    self.done_emitted = true;
                    StreamStep::Emit(self.done_chunk(latency_ms))
                } else {
                    StreamStep::Parse(data)
                }
            },
        }
    }

    /// Takes in a piece; tells what to hand out of it, which is nothing if it holds neither new
    /// text nor a reason to end.
    pub fn parsed(&mut self, chunk: &GenerateStreamChunk) -> (said: Option<InferenceChunk>)
        requires
            old(self)@.accepts(chunk.text@),
        ensures
            final(self)@ == old(self)@.after(
                chunk.text@,
                request::optional(chunk.finish_reason),
            ),
            match said {
                Some(InferenceChunk::Delta { text, finish_reason }) => {
                    &&& encode_utf8(text@) == old(self)@.new_bytes(chunk.text@)
                    &&& finish_reason == chunk.finish_reason
                    &&& old(self)@.new_bytes(chunk.text@).len() > 0 || chunk.finish_reason is Some
                },
                Some(_) => false,
                None => old(self)@.new_bytes(chunk.text@).len() == 0 && chunk.finish_reason is None,
            },
    {
        let len: usize = chunk.text.as_str().as_bytes().len();
        let text: String = if len >= self.emitted_len {
            let parts: (&str, &str) = chunk.text.as_str().split_at(self.emitted_len);
            self.emitted_len = len;
            proof {
                assert(encode_utf8(parts.1@) =~= old(self)@.new_bytes(chunk.text@));
            }
            parts.1.to_owned()
        } else {
            self.emitted_len = self.emitted_len + len;
            chunk.text.clone()
        };
        let empty: bool = text.as_str().as_bytes().len() == 0;
        let finish_reason: Option<String> = match &chunk.finish_reason {
            Some(reason) => Some(reason.clone()),
            None => None,
        };
        if finish_reason.is_some() {
            self.finished = true;
        }
        if empty && finish_reason.is_none() {
            return None;
        }
        Some(InferenceChunk::Delta { text, finish_reason })
    }

    /// The piece to hand out when the connection fails; it is the last one.
    pub fn failed(&mut self, detail: &str) -> (chunk: InferenceChunk)
        ensures
            chunk@ == (ChunkView::Error {
                code: 502,
                message: "sglang stream read error: "@ + detail@,
            }),
            final(self)@ == (GenerateView { finished: true, done_emitted: true, ..old(self)@ }),
    {
        self.finished = true;
        self.done_emitted = true;
        InferenceChunk::Error { code: 502, message: join("sglang stream read error: ", detail) }
    }
}

/// The bytes that are handed out of pieces that each give all text so far, put one after the
/// other, are the bytes of the last.
pub open spec fn handed_out(parser: GenerateView, texts: Seq<Seq<char>>) -> Seq<u8>
    decreases texts.len(),
{
    if texts.len() == 0 {
        Seq::empty()
    } else {
        handed_out(parser, texts.drop_last()) + after_all(parser, texts.drop_last()).new_bytes(
            texts.last(),
        )
    }
}

/// The reader after some pieces were read.
pub open spec fn after_all(parser: GenerateView, texts: Seq<Seq<char>>) -> GenerateView
    decreases texts.len(),
{
    if texts.len() == 0 {
        parser
    } else {
        after_all(parser, texts.drop_last()).after(texts.last(), None)
    }
}

/// Of pieces that each give all text so far, what is handed out makes up the last: nothing is
/// handed out twice, and nothing is left out.
pub proof fn what_is_handed_out_makes_up_the_answer(parser: GenerateView, texts: Seq<Seq<char>>)
    requires
        parser.emitted == 0,
        texts.len() > 0,
        forall|i: int, j: int|
            #![trigger texts[i], texts[j]]
            0 <= i < j < texts.len() ==> encode_utf8(texts[i]).is_prefix_of(encode_utf8(texts[j])),
    ensures
        handed_out(parser, texts) == encode_utf8(texts.last()),
        after_all(parser, texts).emitted == encode_utf8(texts.last()).len(),
    decreases texts.len(),
{
    let before = texts.drop_last();
    let last = encode_utf8(texts.last());
    if before.len() > 0 {
        assert forall|i: int, j: int|
            #![trigger before[i], before[j]]
            0 <= i < j < before.len() implies encode_utf8(before[i]).is_prefix_of(
            encode_utf8(before[j]),
        ) by {
            assert(before[i] == texts[i]);
            assert(before[j] == texts[j]);
        }
        what_is_handed_out_makes_up_the_answer(parser, before);
        assert(before.last() == texts[texts.len() - 2]);
        assert(texts.last() == texts[texts.len() - 1]);
        let shown = encode_utf8(before.last());
        assert(shown.is_prefix_of(last));
        assert(shown + last.skip(shown.len() as int) =~= last);
    } else {
        assert(after_all(parser, before) == parser);
        assert(handed_out(parser, before) =~= Seq::empty());
        assert(last.skip(0) =~= last);
        assert(handed_out(parser, texts) =~= last);
    }
}

/// The end is handed out once: after it there is nothing more.
pub proof fn the_end_comes_once(parser: GenerateView, latency_ms: u64, later_ms: u64)
    requires
        parser.step(latency_ms).0 matches StepView::Emit(chunk) && chunk is Done,
    ensures
        parser.step(latency_ms).1.step(later_ms).0 == StepView::End,
{
}

/// A value in a server's description of its state. Numbers are whole; a negative one is zero.
#[derive(Debug)]
pub enum InfoValue {
    /// Named values.
    Object(Vec<(String, InfoValue)>),
    /// Values in order.
    List(Vec<InfoValue>),
    /// A number.
    Number(u64),
    /// Anything else.
    Other,
}

/// The first value with a name.
pub open spec fn entry_named(entries: Seq<(String, InfoValue)>, name: Seq<char>) -> Option<InfoValue>
    decreases entries.len(),
{
    if entries.len() == 0 {
        None
    } else if entries[0].0@ == name {
        Some(entries[0].1)
    } else {
        entry_named(entries.drop_first(), name)
    }
}

/// A named value of a value.
pub open spec fn value_named(value: InfoValue, name: Seq<char>) -> Option<InfoValue> {
    match value {
        InfoValue::Object(entries) => entry_named(entries@, name),
        _ => None,
    }
}

/// A named number of a value.
pub open spec fn number_named(value: InfoValue, name: Seq<char>) -> Option<u64> {
    match value_named(value, name) {
        Some(InfoValue::Number(n)) => Some(n),
        _ => None,
    }
}

/// The state of the scheduler: the value named `internal_states`, or the first in it if it is a
/// list; without such a state, the whole.
pub open spec fn scheduler_state(value: InfoValue) -> InfoValue {
    match value_named(value, "internal_states"@) {
        Some(InfoValue::List(states)) => if states@.len() > 0 {
            states@[0]
        } else {
            value
        },
        Some(state) => state,
        None => value,
    }
}

/// One number, or else another.
pub open spec fn either(first: Option<u64>, second: Option<u64>) -> Option<u64> {
    match first {
        Some(n) => Some(n),
        None => second,
    }
}

/// A number, or zero if it is missing.
pub open spec fn or_zero(n: Option<u64>) -> u64 {
    match n {
        Some(given) => given,
        None => 0,
    }
}

/// The metrics in a server's description of its state.
pub open spec fn info_metrics(value: InfoValue, kv_block_size: u32, now_unix: i64) -> BackendMetrics {
    let state = scheduler_state(value);
    let block = if kv_block_size == 0 {
        1u64
    } else {
        kv_block_size as u64
    };
    BackendMetrics {
        active_requests: or_zero(
            either(
                number_named(state, "num_running_reqs"@),
                number_named(state, "running_reqs"@),
            ),
        ),
        queue_depth: or_zero(
            either(
                number_named(state, "num_queue_reqs"@),
                number_named(state, "num_waiting_reqs"@),
            ),
        ),
        kv_used_blocks: or_zero(number_named(state, "num_used_tokens"@)) / block,
        kv_total_blocks: or_zero(
            either(
                number_named(state, "max_total_num_tokens"@),
                number_named(value, "max_total_num_tokens"@),
            ),
        ) / block,
        timestamp: now_unix,
        ..crate::metrics::zero_metrics()
    }
}

fn find_named<'a>(value: &'a InfoValue, name: &str) -> (found: Option<&'a InfoValue>)
    ensures
        match found {
            Some(entry) => value_named(*value, name@) == Some(*entry),
            None => value_named(*value, name@) is None,
        },
{
    match value {
        InfoValue::Object(entries) => {
            let mut i: usize = 0;
            proof {
                assert(entries@.skip(0) =~= entries@);
            }
            while i < entries.len()
                invariant
                    i <= entries@.len(),
                    value_named(*value, name@) == entry_named(entries@.skip(i as int), name@),
                decreases entries@.len() - i,
            {
                proof {
                    assert(entries@.skip(i as int)[0] == entries@[i as int]);
                    assert(entries@.skip(i as int).drop_first() =~= entries@.skip(i + 1));
                }
                if reads(entries[i].0.as_str(), name) {
                    return Some(&entries[i].1);
                }
                i = i + 1;
            }
            None
        },
        _ => None,
    }
}

fn number(value: &InfoValue, name: &str) -> (found: Option<u64>)
    ensures
        found == number_named(*value, name@),
{
    match find_named(value, name) {
        Some(InfoValue::Number(n)) => Some(*n),
        _ => None,
    }
}

fn first_number(value: &InfoValue, name: &str, other: &str) -> (found: u64)
    ensures
        found == or_zero(either(number_named(*value, name@), number_named(*value, other@))),
{
    match number(value, name) {
        Some(n) => n,
        None => match number(value, other) {
            Some(n) => n,
            None => 0,
        },
    }
}

fn state_of<'a>(value: &'a InfoValue) -> (state: &'a InfoValue)
    ensures
        *state == scheduler_state(*value),
{
    match find_named(value, "internal_states") {
        Some(found) => match found {
            InfoValue::List(states) => {
                if states.len() > 0 {
                    &states[0]
                } else {
                    value
                }
            },
            _ => found,
        },
        None => value,
    }
}

/// The metrics in a server's description of its state. What is missing counts as zero.
pub fn map_server_info_metrics(value: &InfoValue, kv_block_size: u32, now_unix: i64) -> (metrics:
    BackendMetrics)
    ensures
        metrics == info_metrics(*value, kv_block_size, now_unix),
{
    let mut metrics: BackendMetrics = BackendMetrics::default();
    metrics.timestamp = now_unix;
    let state: &InfoValue = state_of(value);
    metrics.active_requests = first_number(state, "num_running_reqs", "running_reqs");
    metrics.queue_depth = first_number(state, "num_queue_reqs", "num_waiting_reqs");
    let block: u64 = if kv_block_size == 0 {
        1
    } else {
        kv_block_size as u64
    };
    match number(state, "num_used_tokens") {
        Some(used) => {
            metrics.kv_used_blocks = used / block;
        },
        None => {},
    }
    let total: Option<u64> = match number(state, "max_total_num_tokens") {
        Some(n) => Some(n),
        None => number(value, "max_total_num_tokens"),
    };
    match total {
        Some(n) => {
            metrics.kv_total_blocks = n / block;
        },
        None => {},
    }
    metrics
}

/// Whether a server's description of its state tells of its load: at least one of the numbers that
/// metrics are made of is there.
pub open spec fn tells_load(value: InfoValue) -> bool {
    let state = scheduler_state(value);
    ||| number_named(state, "num_running_reqs"@) is Some
    ||| number_named(state, "running_reqs"@) is Some
    ||| number_named(state, "num_queue_reqs"@) is Some
    ||| number_named(state, "num_waiting_reqs"@) is Some
    ||| number_named(state, "num_used_tokens"@) is Some
    ||| number_named(state, "max_total_num_tokens"@) is Some
    ||| number_named(value, "max_total_num_tokens"@) is Some
}

/// The metrics in a server's description of its state, unless it tells nothing of its load.
pub fn server_info_metrics(value: &InfoValue, kv_block_size: u32, now_unix: i64) -> (metrics: Option<
    BackendMetrics,
>)
    ensures
        metrics == (if tells_load(*value) {
            Some(info_metrics(*value, kv_block_size, now_unix))
        } else {
            None
        }),
{
    let state: &InfoValue = state_of(value);
    let told: bool = number(state, "num_running_reqs").is_some() || number(
        state,
        "running_reqs",
    ).is_some() || number(state, "num_queue_reqs").is_some() || number(
        state,
        "num_waiting_reqs",
    ).is_some() || number(state, "num_used_tokens").is_some() || number(
        state,
        "max_total_num_tokens",
    ).is_some() || number(value, "max_total_num_tokens").is_some();
    if told {
        Some(map_server_info_metrics(value, kv_block_size, now_unix))
    } else {
        None
    }
}

/// A complete line of data is taken out of the buffer: it ends the answer if it is the end mark, and is
/// read otherwise. Without a complete line the reader waits, unless all bytes have come in: the answer
/// then ends. After the last text only the end is left to hand out.
pub proof fn a_line_of_data_is_read_or_ends_the_answer(
    parser: GenerateView,
    data: Seq<char>,
    crs: nat,
    rest: Seq<char>,
    latency_ms: u64,
)
    requires
        !data.contains('\n'),
        data.len() == 0 || data.last() != '\r',
    ensures
        ({
            let (step, after) = parser.step(latency_ms);
            let end = StepView::Emit(
                ChunkView::Done { backend_id: parser.backend_id, latency_ms },
            );
            let at_end = exists|i: int| #[trigger] text::padded(data, "[DONE]"@, i);
            let line = ("data: "@ + data + Seq::new(crs, |i: int| '\r')).push('\n') + rest;
            &&& !parser.finished && parser.buffer == line ==> after.buffer == rest && (step == if at_end {
                end
            } else {
                StepView::Parse(data)
            }) && after.finished == at_end
            &&& !parser.finished && !parser.buffer.contains('\n') && !parser.input_ended ==> step
                == StepView::NeedMore && after == parser
            &&& !parser.finished && !parser.buffer.contains('\n') && parser.input_ended ==> step == end
                && after.finished
            &&& parser.finished && !parser.done_emitted ==> step == end && after.finished
                && after.done_emitted
            &&& parser.finished && parser.done_emitted ==> step == StepView::End && after == parser
            &&& after.backend_id == parser.backend_id && after.emitted == parser.emitted
                && after.input_ended == parser.input_ended
        }),
{
    sse::a_line_of_data_is_handed_out(data, crs, rest);
    if exists|i: int| #[trigger] text::padded(data, "[DONE]"@, i) {
        let i = choose|i: int| #[trigger] text::padded(data, "[DONE]"@, i);
        sse::the_end_may_be_padded(data, i);
    } else {
        sse::the_end_may_be_padded(data, 0);
    }
    if !parser.buffer.contains('\n') {
        sse::other_lines_are_passed_over(parser.buffer, Seq::empty());
    }
}

/// A text that goes on from what was handed out gives what is new of it; a shorter one is a text of its
/// own and given whole. A reason to end finishes the answer; nothing else of the reader changes.
pub proof fn new_text_is_given_once(
    parser: GenerateView,
    text: Seq<char>,
    finish_reason: Option<Seq<char>>,
)
    ensures
        ({
            let bytes = encode_utf8(text);
            let after = parser.after(text, finish_reason);
            &&& bytes.len() >= parser.emitted ==> bytes == bytes.take(parser.emitted as int)
                + parser.new_bytes(text) && parser.new_bytes(text).len() == bytes.len()
                - parser.emitted
            &&& bytes.len() < parser.emitted ==> parser.new_bytes(text) == bytes
            &&& after.emitted == parser.emitted + parser.new_bytes(text).len()
            &&& after.finished <==> parser.finished || finish_reason is Some
            &&& after.buffer == parser.buffer && after.backend_id == parser.backend_id
                && after.done_emitted == parser.done_emitted && after.input_ended
                == parser.input_ended
        }),
{
    let bytes = encode_utf8(text);
    if bytes.len() >= parser.emitted {
        assert(bytes =~= bytes.take(parser.emitted as int) + bytes.skip(parser.emitted as int));
    }
}

/// Of several values with a name the first counts, and only a number counts as one: `k` is its place.
pub proof fn the_first_value_of_a_name_counts(
    entries: Vec<(String, InfoValue)>,
    name: Seq<char>,
    k: int,
)
    requires
        0 <= k <= entries@.len(),
        forall|i: int| 0 <= i < k ==> (#[trigger] entries@[i]).0@ != name,
        k < entries@.len() ==> entries@[k].0@ == name,
    ensures
        k == entries@.len() ==> value_named(InfoValue::Object(entries), name) is None,
        k < entries@.len() ==> value_named(InfoValue::Object(entries), name) == Some(entries@[k].1),
        k < entries@.len() && entries@[k].1 is Number ==> number_named(
            InfoValue::Object(entries),
            name,
        ) == Some(entries@[k].1->Number_0),
        k < entries@.len() && !(entries@[k].1 is Number) ==> number_named(
            InfoValue::Object(entries),
            name,
        ) is None,
        k == entries@.len() ==> number_named(InfoValue::Object(entries), name) is None,
{
    lemma_entry_named(entries@, name, k);
}

proof fn lemma_entry_named(entries: Seq<(String, InfoValue)>, name: Seq<char>, k: int)
    requires
        0 <= k <= entries.len(),
        forall|i: int| 0 <= i < k ==> (#[trigger] entries[i]).0@ != name,
        k < entries.len() ==> entries[k].0@ == name,
    ensures
        k == entries.len() ==> entry_named(entries, name) is None,
        k < entries.len() ==> entry_named(entries, name) == Some(entries[k].1),
    decreases k,
{
    if k > 0 {
        let rest = entries.drop_first();
        assert(entries[0].0@ != name);
        assert forall|i: int| 0 <= i < k - 1 implies (#[trigger] rest[i]).0@ != name by {
            assert(rest[i] == entries[i + 1]);
        }
        lemma_entry_named(rest, name, k - 1);
    }
}

/// The figures of a server are those of its first internal state, and its own if it tells no state; a
/// figure has two names, of which the first counts, and is 0 if neither is told. Tokens are counted in
/// blocks, which hold at least one. The limit on tokens may stand beside the states.
pub proof fn a_server_tells_its_figures(
    value: InfoValue,
    state: InfoValue,
    kv_block_size: u32,
    now_unix: i64,
)
    requires
        match value_named(value, "internal_states"@) {
            Some(InfoValue::List(states)) => state == if states@.len() > 0 {
                states@[0]
            } else {
                value
            },
            Some(other) => state == other,
            None => state == value,
        },
    ensures
        ({
            let metrics = info_metrics(value, kv_block_size, now_unix);
            let block: int = if kv_block_size == 0 {
                1
            } else {
                kv_block_size as int
            };
            let running = number_named(state, "num_running_reqs"@);
            let running_too = number_named(state, "running_reqs"@);
            let queued = number_named(state, "num_queue_reqs"@);
            let queued_too = number_named(state, "num_waiting_reqs"@);
            let used = number_named(state, "num_used_tokens"@);
            let limit = number_named(state, "max_total_num_tokens"@);
            let limit_too = number_named(value, "max_total_num_tokens"@);
            &&& running is Some ==> metrics.active_requests == running->0
            &&& running is None && running_too is Some ==> metrics.active_requests == running_too->0
            &&& running is None && running_too is None ==> metrics.active_requests == 0
            &&& queued is Some ==> metrics.queue_depth == queued->0
            &&& queued is None && queued_too is Some ==> metrics.queue_depth == queued_too->0
            &&& queued is None && queued_too is None ==> metrics.queue_depth == 0
            &&& used is Some ==> metrics.kv_used_blocks == used->0 as int / block
            &&& used is None ==> metrics.kv_used_blocks == 0
            &&& limit is Some ==> metrics.kv_total_blocks == limit->0 as int / block
            &&& limit is None && limit_too is Some ==> metrics.kv_total_blocks == limit_too->0 as int
                / block
            &&& limit is None && limit_too is None ==> metrics.kv_total_blocks == 0
            &&& metrics.timestamp == now_unix
            &&& metrics.active_prefill_tokens == 0 && metrics.active_decode_blocks == 0
            &&& tells_load(value) <==> running is Some || running_too is Some || queued is Some
                || queued_too is Some || used is Some || limit is Some || limit_too is Some
        }),
{
    if kv_block_size > 0 {
        assert(0int / (kv_block_size as int) == 0) by (nonlinear_arith)
            requires
                kv_block_size > 0,
        ;
    }
}

} // verus!
