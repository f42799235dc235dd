//! What is said to Dynamo workers on their message bus, and what is made of their answers.

use vstd::prelude::*;
use vstd::string::*;

use crate::backend::{BackendInfo, BackendType, Endpoint, Protocol};
use crate::ids::{BackendId, BackendInstanceId, RegionId};
use crate::metrics::{BackendMetrics, RealBits};
use crate::openai_compat;
use crate::openai_compat::{copy_messages, plain_info, plain_models};
use crate::request::{ChatMessage, ChunkView, InferenceChunk, InferenceRequest};
use crate::sse;
use crate::sse::lossy_text;
use crate::text;
use crate::text::{chars_of, join, split_lines, trim};

verus! {

/// Start of all subjects, unless another is given.
pub const DEFAULT_DYNAMO_SUBJECT_PREFIX: &'static str = "dyn";

/// How long to wait for an answer in milliseconds, unless another time is given.
pub const DEFAULT_NATS_TIMEOUT_MS: u64 = 60_000;

/// A connection to a worker.
#[derive(Clone, Debug)]
pub struct DynamoConnectorConfig {
    /// URL of the message bus.
    pub nats_url: String,
    /// Start of all subjects.
    pub subject_prefix: String,
    /// Region of the backend.
    pub region: RegionId,
    /// Instance of the backend.
    pub instance_id: BackendInstanceId,
    /// Names of its models.
    pub models: Vec<String>,
    /// Tokens per block.
    pub kv_block_size: u32,
    /// How long to wait for an answer, in milliseconds.
    pub request_timeout_ms: Option<u64>,
}

/// A subject of a worker: what it is about, between the prefix and the instance.
pub open spec fn subject(prefix: Seq<char>, about: Seq<char>, instance: Seq<char>) -> Seq<char> {
    prefix + about + instance
}

fn subject_text(prefix: &str, about: &str, instance: &str) -> (text: String)
    ensures
        text@ == subject(prefix@, about@, instance@),
{
    let head: String = join(prefix, about);
    join(head.as_str(), instance)
}

impl DynamoConnectorConfig {
    /// A connection to an endpoint, whose URL is that of the message bus.
    pub fn from_endpoint(
        endpoint: &Endpoint,
        region: &RegionId,
        instance_id: BackendInstanceId,
        models: Vec<String>,
        kv_block_size: u32,
    ) -> (config: Self)
        ensures
            config.nats_url == endpoint.url,
            config.subject_prefix@ == DEFAULT_DYNAMO_SUBJECT_PREFIX@,
            config.region == *region,
            config.instance_id == instance_id,
            config.models == models,
            config.kv_block_size == kv_block_size,
            config.request_timeout_ms is None,
    {
        DynamoConnectorConfig {
            nats_url: endpoint.url.clone(),
            subject_prefix: DEFAULT_DYNAMO_SUBJECT_PREFIX.to_owned(),
            region: region.clone(),
            instance_id,
            models,
            kv_block_size,
            request_timeout_ms: None,
        }
    }

    /// Subject of health checks.
    pub fn health_subject(&self) -> (text: String)
        ensures
            text@ == subject(self.subject_prefix@, ".health."@, self.instance_id@),
    {
        subject_text(self.subject_prefix.as_str(), ".health.", self.instance_id.as_str())
    }

    /// Subject of inference.
    pub fn generate_subject(&self) -> (text: String)
        ensures
            text@ == subject(self.subject_prefix@, ".generate."@, self.instance_id@),
    {
        subject_text(self.subject_prefix.as_str(), ".generate.", self.instance_id.as_str())
    }

    /// Subject of cache events.
    pub fn kv_events_subject(&self) -> (text: String)
        ensures
            text@ == subject(self.subject_prefix@, ".kv_events."@, self.instance_id@),
    {
        subject_text(self.subject_prefix.as_str(), ".kv_events.", self.instance_id.as_str())
    }

    /// Subject of metrics.
    pub fn metrics_subject(&self) -> (text: String)
        ensures
            text@ == subject(self.subject_prefix@, ".metrics."@, self.instance_id@),
    {
        subject_text(self.subject_prefix.as_str(), ".metrics.", self.instance_id.as_str())
    }

    /// How long to wait for an answer, in milliseconds.
    pub fn timeout_ms(&self) -> (timeout: u64)
        ensures
            timeout == (match self.request_timeout_ms {
                Some(given) => given,
                None => DEFAULT_NATS_TIMEOUT_MS,
            }),
    {
        match self.request_timeout_ms {
            Some(given) => given,
            None => DEFAULT_NATS_TIMEOUT_MS,
        }
    }

    /// The backend.
    pub fn backend_id(&self) -> (id: BackendId)
        ensures
            id@ == (self.region@, self.instance_id@),
    {
        BackendId::new(self.region.as_str(), self.instance_id.as_str())
    }

    /// What is known of the backend.
    pub fn discovered(&self) -> (info: BackendInfo)
        ensures
            openai_compat::are_plain_models(info.models@, self.models@),
            openai_compat::is_plain_info(
                info,
                self.region@,
                self.instance_id@,
                BackendType::DynamoEngine,
                self.nats_url@,
                Protocol::Nats,
                self.kv_block_size,
                true,
            ),
    {
        plain_info(
            &self.region,
            &self.instance_id,
            BackendType::DynamoEngine,
            self.nats_url.as_str(),
            Protocol::Nats,
            plain_models(&self.models),
            self.kv_block_size,
            true,
        )
    }
}

/// What is known of a backend that is reached over HTTP in place of the message bus: it counts as a
/// worker that publishes cache events.
pub fn discovered_over_http(info: BackendInfo) -> (worker: BackendInfo)
    ensures
        worker == (BackendInfo {
            backend_type: BackendType::DynamoEngine,
            endpoint: Endpoint { protocol: Protocol::Nats, ..info.endpoint },
            capabilities: crate::backend::BackendCapabilities {
                supports_kv_events: true,
                ..info.capabilities
            },
            ..info
        }),
{
    let mut worker: BackendInfo = info;
    worker.backend_type = BackendType::DynamoEngine;
    worker.endpoint.protocol = Protocol::Nats;
    worker.capabilities.supports_kv_events = true;
    worker
}

/// A request to a worker.
#[derive(Debug)]
pub struct DynamoGenerateRequest {
    /// Model that is asked.
    pub model: String,
    /// The conversation.
    pub messages: Vec<ChatMessage>,
    /// Most tokens to generate.
    pub max_tokens: u32,
    /// Sampling temperature.
    pub temperature: RealBits,
    /// Whether the answer is streamed.
    pub stream: bool,
}

impl DynamoGenerateRequest {
    /// The request to a worker, whose answer is always streamed.
    pub fn for_request(request: &InferenceRequest) -> (body: Self)
        ensures
            body.model == request.model,
            body.messages@ == request.messages@,
            body.max_tokens == request.max_tokens,
            body.temperature == request.temperature,
            body.stream,
    {
        DynamoGenerateRequest {
            model: request.model.clone(),
            messages: copy_messages(&request.messages),
            max_tokens: request.max_tokens,
            temperature: request.temperature,
            stream: true,
        }
    }
}

/// The lines that are not empty, without the white space around them.
pub open spec fn filled_lines(lines: Seq<Seq<char>>) -> Seq<Seq<char>>
    decreases lines.len(),
{
    if lines.len() == 0 {
        Seq::empty()
    } else {
        let before = filled_lines(lines.drop_last());
        let line = text::trimmed(lines.last());
        if line.len() == 0 {
            before
        } else {
            before.push(line)
        }
    }
}

/// The lines of an answer that are to be read as pieces of it.
pub fn reply_lines(reply: &str) -> (lines: Vec<String>)
    ensures
        text::views(lines@) == filled_lines(text::lines(reply@)),
{
    let all: Vec<String> = split_lines(reply);
    let ghost shown = text::views(all@);
    let mut lines: Vec<String> = Vec::new();
    let mut i: usize = 0;
    proof {
        assert(shown.take(0) =~= Seq::empty());
        assert(text::views(lines@) =~= Seq::empty());
    }
    while i < all.len()
        invariant
            i <= all@.len(),
            shown == text::views(all@),
            text::views(lines@) == filled_lines(shown.take(i as int)),
        decreases all@.len() - i,
    {
        let line: String = trim(all[i].as_str());
        let ghost before = text::views(lines@);
        proof {
            assert(shown.take(i + 1).drop_last() =~= shown.take(i as int));
            assert(shown.take(i + 1).last() == all@[i as int]@);
        }
        let chars: Vec<char> = chars_of(line.as_str());
        if chars.len() > 0 {
            let ghost kept = line@;
            lines.push(line);
            assert(text::views(lines@) =~= before.push(kept));
        }
        i = i + 1;
    }
    proof {
        assert(shown.take(i as int) =~= shown);
    }
    lines
}

/// The lines of an answer, as it came in, that are to be read as pieces of it.
pub fn received_lines(reply: &[u8]) -> (lines: Vec<String>)
    ensures
        text::views(lines@) == filled_lines(text::lines(sse::utf8_lossy(reply@))),
        vstd::utf8::valid_utf8(reply@) ==> text::views(lines@) == filled_lines(
            text::lines(vstd::utf8::decode_utf8(reply@)),
        ),
{
    reply_lines(lossy_text(reply).as_str())
}

/// Whether a piece is the last of an answer: its end or a failure.
pub open spec fn is_terminal(chunk: ChunkView) -> bool {
    chunk is Done || chunk is Error
}

/// Pieces by what they say.
pub open spec fn chunk_views(chunks: Seq<InferenceChunk>) -> Seq<ChunkView> {
    chunks.map_values(|chunk: InferenceChunk| chunk@)
}

/// The pieces of an answer, with an end if they have none.
pub open spec fn terminated(chunks: Seq<ChunkView>, end: ChunkView) -> Seq<ChunkView> {
    if chunks.len() > 0 && is_terminal(chunks.last()) {
        chunks
    } else {
        chunks.push(end)
    }
}

/// The pieces of an answer, with an end if they have none.
pub fn with_end(chunks: Vec<InferenceChunk>, backend_id: BackendId, latency_ms: u64) -> (complete:
    Vec<InferenceChunk>)
    ensures
        chunk_views(complete@) == terminated(
            chunk_views(chunks@),
            ChunkView::Done { backend_id: backend_id@, latency_ms },
        ),
{
    let mut complete: Vec<InferenceChunk> = chunks;
    let ghost given = chunk_views(complete@);
    let n: usize = complete.len();
    let terminal: bool = if n == 0 {
        false
    } else {
        proof {
            assert(given.last() == complete@[n - 1]@);
        }
        match &complete[n - 1] {
            InferenceChunk::Done { .. } => true,
            InferenceChunk::Error { .. } => true,
            _ => false,
        }
    };
    if !terminal {
        let end: InferenceChunk = InferenceChunk::Done { backend_id, latency_ms };
        let ghost said = end@;
        complete.push(end);
        assert(chunk_views(complete@) =~= given.push(said));
    }
    complete
}

/// An answer always ends with its end or a failure.
pub proof fn every_answer_ends(chunks: Seq<ChunkView>, end: ChunkView)
    requires
        is_terminal(end),
    ensures
        terminated(chunks, end).len() > 0,
        is_terminal(terminated(chunks, end).last()),
{
}

/// Metrics that a worker reported, stamped with the time when they came in.
pub fn stamped(metrics: Option<BackendMetrics>, now_unix: i64) -> (stamped: BackendMetrics)
    ensures
        stamped == (BackendMetrics {
            timestamp: now_unix,
            ..match metrics {
                Some(reported) => reported,
                None => crate::metrics::zero_metrics(),
            }
        }),
{
    let mut stamped: BackendMetrics = match metrics {
        Some(reported) => reported,
        None => BackendMetrics::default(),
    };
    stamped.timestamp = now_unix;
    stamped
}

/// The lines of two texts, one behind the other, are those of the first and those of the second.
pub proof fn lines_are_filled_one_by_one(first: Seq<Seq<char>>, second: Seq<Seq<char>>)
    ensures
        filled_lines(first + second) == filled_lines(first) + filled_lines(second),
    decreases second.len(),
{
    let all = first + second;
    if second.len() == 0 {
        assert(all =~= first);
        assert(filled_lines(first) + filled_lines(second) =~= filled_lines(first));
    } else {
        lines_are_filled_one_by_one(first, second.drop_last());
        assert(all.drop_last() =~= first + second.drop_last());
        assert(all.last() == second.last());
        assert(filled_lines(all) =~= filled_lines(first) + filled_lines(second));
    }
}

/// A line gives what stands in it, without the white space around it, and nothing if it is blank.
pub proof fn a_line_gives_what_stands_in_it(line: Seq<char>, part: Seq<char>, from: int)
    requires
        text::padded(line, part, from),
        part.len() > 0 ==> !text::is_space(part[0]) && !text::is_space(part.last()),
    ensures
        part.len() > 0 ==> filled_lines(seq![line]) == seq![part],
        part.len() == 0 ==> filled_lines(seq![line]).len() == 0,
{
    let lines = seq![line];
    assert(lines.drop_last() =~= Seq::empty());
    assert(lines.last() == line);
    assert(filled_lines(Seq::<Seq<char>>::empty()) =~= Seq::empty());
    if part.len() > 0 {
        text::added_space_is_trimmed(line, part, from);
        assert(filled_lines(lines) =~= seq![part]);
    } else {
        text::trimming_takes_outer_space_away(line);
        let i = choose|i: int| #[trigger] text::padded(line, text::trimmed(line), i);
        if text::trimmed(line).len() > 0 {
            let c = text::trimmed(line)[0];
            assert(line.subrange(i, i + text::trimmed(line).len())[0] == c);
            assert(line[i] == c);
            if i < from {
                assert(line.take(from)[i] == c);
            } else {
                assert(line.skip(from)[i - from] == c);
            }
        }
    }
}

/// Ending an answer keeps all of its pieces, in order, and adds the end if and only if the answer does
/// not end with a piece that ends it, the end of the stream or a failure.
pub proof fn an_answer_keeps_its_pieces(chunks: Seq<ChunkView>, end: ChunkView)
    ensures
        ({
            let after = terminated(chunks, end);
            let ends = chunks.len() > 0 && (chunks.last() is Done || chunks.last() is Error);
            &&& ends ==> after == chunks
            &&& !ends ==> after.len() == chunks.len() + 1 && after.drop_last() == chunks
                && after.last() == end
        }),
{
    assert(chunks.push(end).drop_last() =~= chunks);
}

/// A subject is its prefix, what it is about, and the instance, one behind the other.
pub proof fn a_subject_names_its_instance(
    prefix: Seq<char>,
    about: Seq<char>,
    instance: Seq<char>,
)
    ensures
        subject(prefix, about, instance).len() == prefix.len() + about.len() + instance.len(),
        subject(prefix, about, instance).take(prefix.len() as int) == prefix,
        subject(prefix, about, instance).skip(prefix.len() as int) == about + instance,
{
    let whole = subject(prefix, about, instance);
    assert(whole.take(prefix.len() as int) =~= prefix);
    assert(whole.skip(prefix.len() as int) =~= about + instance);
}

} // verus!
