//! The decisions of the chat completion server: which requests it takes, what
//! it answers, and how it streams.

use crate::error::ModelError;
use crate::text;
use crate::tokenizer::ChatMessage;
use vstd::prelude::*;

verus! {

/// What the worker serves.
pub struct WorkerInfo {
    pub model_id: String,
    pub context: usize,
}

#[derive(Clone, Copy, Debug, PartialEq, Eq, Structural)]
pub enum FinishReason {
    Stop,
    Length,
}

/// How a completion ended.
#[derive(Clone, Copy, Debug, PartialEq, Eq, Structural)]
pub struct Summary {
    pub reason: FinishReason,
    pub prompt_tokens: usize,
    pub completion_tokens: usize,
}

/// A failure of the worker, by the request's fault or not.
#[derive(Debug)]
pub struct WorkerError {
    pub client: bool,
    pub message: String,
}

/// What the worker reports of a request.
#[derive(Debug)]
pub enum Event {
    Reasoning(String),
    Content(String),
    Finished(Summary),
    Failed(WorkerError),
}

/// Why a request was turned away.
#[derive(Debug)]
pub enum RequestError {
    InvalidJson,
    ModelNotLoaded,
    UnsupportedContentPart,
    MaxTokensExceedContext,
    QueueFull,
    WorkerStopped,
    Worker(WorkerError),
}

/// A request for a completion. The temperature and `top_p` are the bits of
/// single-precision numbers.
#[derive(Debug)]
pub struct ChatCompletionRequest {
    pub model: Option<String>,
    pub messages: Vec<WireMessage>,
    pub max_tokens: Option<usize>,
    pub max_completion_tokens: Option<usize>,
    pub temperature: u32,
    pub top_p: u32,
    pub top_k: usize,
    pub seed: u64,
    pub stream: bool,
    pub stop: Option<StopSequences>,
    pub ignore_eos: bool,
}

#[derive(Debug)]
pub struct WireMessage {
    pub role: String,
    pub content: MessageContent,
}

#[derive(Debug)]
pub enum MessageContent {
    Text(String),
    Parts(Vec<ContentPart>),
}

#[derive(Debug)]
pub struct ContentPart {
    pub kind: String,
    pub text: Option<String>,
}

#[derive(Debug)]
pub enum StopSequences {
    One(String),
    Many(Vec<String>),
}

pub struct JobOptions {
    pub max_tokens: usize,
    pub temperature: u32,
    pub top_p: u32,
    pub top_k: usize,
    pub seed: u64,
    pub ignore_eos: bool,
    pub stop: Vec<String>,
}

/// A request that the worker is to do.
pub struct Admission {
    pub id: String,
    pub messages: Vec<ChatMessage>,
    pub options: JobOptions,
    pub stream: bool,
}

pub open spec fn part_text(part: ContentPart) -> Option<Seq<char>> {
    if part.kind@ == "text"@ {
        Some(
            match part.text {
                Some(text) => text@,
                None => Seq::empty(),
            },
        )
    } else {
        None
    }
}

/// The texts of the parts, one behind the other, if all of them are text.
pub open spec fn parts_text(parts: Seq<ContentPart>) -> Option<Seq<char>>
    decreases parts.len(),
{
    if parts.len() == 0 {
        Some(Seq::empty())
    } else {
        match (parts_text(parts.drop_last()), part_text(parts.last())) {
            (Some(before), Some(text)) => Some(before + text),
            _ => None,
        }
    }
}

pub open spec fn content_text(content: MessageContent) -> Option<Seq<char>> {
    match content {
        MessageContent::Text(text) => Some(text@),
        MessageContent::Parts(parts) => parts_text(parts@),
    }
}

impl ContentPart {
    pub fn into_text(&self) -> (result: Result<String, RequestError>)
        ensures
            match part_text(*self) {
                Some(text) => result is Ok && result->Ok_0@ == text,
                None => result == Err::<String, RequestError>(RequestError::UnsupportedContentPart),
            },
    {
        if text::same(self.kind.as_str(), "text") {
            match &self.text {
                Some(text) => Ok(text.clone()),
                None => {
                    let empty = String::new();
                    assert(empty@ =~= Seq::empty());
                    Ok(empty)
                },
            }
        } else {
            Err(RequestError::UnsupportedContentPart)
        }
    }
}

proof fn lemma_parts_prefix(parts: Seq<ContentPart>, n: int)
    requires
        0 <= n <= parts.len(),
        parts_text(parts.take(n)) is None,
    ensures
        parts_text(parts) is None,
    decreases parts.len(),
{
    if n == parts.len() {
        assert(parts.take(n) =~= parts);
    } else {
        assert(parts.drop_last().take(n) =~= parts.take(n));
        lemma_parts_prefix(parts.drop_last(), n);
    }
}

fn join_parts(parts: &Vec<ContentPart>) -> (result: Result<String, RequestError>)
    ensures
        match parts_text(parts@) {
            Some(text) => result is Ok && result->Ok_0@ == text,
            None => result == Err::<String, RequestError>(RequestError::UnsupportedContentPart),
        },
{
    let mut out = String::new();
    let mut i: usize = 0;
    assert(parts@.take(0) =~= Seq::empty());
    assert(out@ =~= Seq::empty());
    while i < parts.len()
        invariant
            i <= parts@.len(),
            parts_text(parts@.take(i as int)) == Some(out@),
        decreases parts.len() - i,
    {
        let ghost shown = parts@.take(i + 1);
        proof {
            assert(shown.drop_last() =~= parts@.take(i as int));
            assert(shown.last() == parts@[i as int]);
            if parts_text(shown) is None {
                lemma_parts_prefix(parts@, i + 1);
            }
        }
        let text = parts[i].into_text()?;
        out.append(text.as_str());
        i += 1;
    }
    assert(parts@.take(i as int) =~= parts@);
    Ok(out)
}

impl WireMessage {
    /// The message with its text parts joined.
    pub fn into_chat_message(&self) -> (result: Result<ChatMessage, RequestError>)
        ensures
            match content_text(self.content) {
                Some(text) => result is Ok && result->Ok_0.role@ == self.role@
                    && result->Ok_0.content@ == text,
                None => result == Err::<ChatMessage, RequestError>(
                    RequestError::UnsupportedContentPart,
                ),
            },
    {
        let content = match &self.content {
            MessageContent::Text(text) => text.clone(),
            MessageContent::Parts(parts) => join_parts(parts)?,
        };
        Ok(ChatMessage { role: self.role.clone(), content })
    }
}

pub open spec fn stop_texts(stop: Option<StopSequences>) -> Seq<Seq<char>> {
    match stop {
        None => Seq::empty(),
        Some(StopSequences::One(value)) => seq![value@],
        Some(StopSequences::Many(values)) => text::string_views(values@),
    }
}

impl StopSequences {
    pub fn into_vec(self) -> (values: Vec<String>)
        ensures
            text::string_views(values@) == stop_texts(Some(self)),
    {
        match self {
            StopSequences::One(value) => {
                let mut values: Vec<String> = Vec::new();
                values.push(value);
                assert(text::string_views(values@) =~= seq![value@]);
                values
            },
            StopSequences::Many(values) => values,
        }
    }
}

/// Whether a model that is served as `model_id` answers to a name: the whole
/// identifier, or what stands behind the owner and the slash.
pub open spec fn answers_to(model_id: Seq<char>, name: Seq<char>) -> bool {
    name == model_id || (text::split_once_at(model_id, '/') matches Some((_, short)) && name
        == short)
}

impl WorkerInfo {
    /// Whether the model that is served answers to a name.
    pub fn answers(&self, name: &str) -> (answer: bool)
        ensures
            answer == answers_to(self.model_id@, name@),
    {
        if text::same(name, self.model_id.as_str()) {
            return true;
        }
        match text::split_once(self.model_id.as_str(), '/') {
            Some((_, short)) => text::same(name, short),
            None => false,
        }
    }
}

impl ChatCompletionRequest {
    /// How many tokens the request allows.
    pub open spec fn token_limit(self) -> usize {
        match (self.max_completion_tokens, self.max_tokens) {
            (Some(limit), _) => limit,
            (None, Some(limit)) => limit,
            (None, None) => 256,
        }
    }

    /// Why the request is turned away.
    pub open spec fn refusal(self, info: WorkerInfo) -> Option<RequestError> {
        if self.model matches Some(model) && !answers_to(info.model_id@, model@) {
            Some(RequestError::ModelNotLoaded)
        } else if self.token_limit() > info.context {
            Some(RequestError::MaxTokensExceedContext)
        } else if exists|i: int|
            0 <= i < self.messages@.len() && content_text((#[trigger] self.messages@[i]).content)
                is None {
            Some(RequestError::UnsupportedContentPart)
        } else {
            None
        }
    }

    pub fn max_tokens(&self) -> (limit: usize)
        ensures
            limit == self.token_limit(),
    {
        match self.max_completion_tokens {
            Some(limit) => limit,
            None => match self.max_tokens {
                Some(limit) => limit,
                None => 256,
            },
        }
    }

    /// Admits the request, or says why not. A request may name the model that is
    /// served, with or without its owner, or none, and asks for no more tokens than the context holds.
    pub fn into_admission(self, info: &WorkerInfo, id: String) -> (result: Result<
        Admission,
        RequestError,
    >)
        ensures
            match self.refusal(*info) {
                Some(error) => result == Err::<Admission, RequestError>(error),
                None => {
                    &&& result is Ok
                    &&& result->Ok_0.id@ == id@
                    &&& result->Ok_0.messages@.len() == self.messages@.len()
                    &&& forall|i: int|
                        0 <= i < self.messages@.len() ==> (
                        #[trigger] result->Ok_0.messages@[i]).role@ == self.messages@[i].role@
                            && Some(result->Ok_0.messages@[i].content@) == content_text(
                            self.messages@[i].content,
                        )
                    &&& result->Ok_0.options.max_tokens == self.token_limit()
                    &&& result->Ok_0.options.temperature == self.temperature
                    &&& result->Ok_0.options.top_p == self.top_p
                    &&& result->Ok_0.options.top_k == self.top_k
                    &&& result->Ok_0.options.seed == self.seed
                    &&& result->Ok_0.options.ignore_eos == self.ignore_eos
                    &&& text::string_views(result->Ok_0.options.stop@) == stop_texts(self.stop)
                    &&& result->Ok_0.stream == self.stream
                },
            },
    {
        let max_tokens: usize = self.max_tokens();
        match &self.model {
            Some(model) => if !info.answers(model.as_str()) {
                return Err(RequestError::ModelNotLoaded);
            },
            None => {},
        }
        if max_tokens > info.context {
            return Err(RequestError::MaxTokensExceedContext);
        }
        let messages = convert_messages(&self.messages)?;
        let stop = match self.stop {
            Some(stop) => stop.into_vec(),
            None => {
                let none: Vec<String> = Vec::new();
                assert(text::string_views(none@) =~= Seq::empty());
                none
            },
        };
        let options = JobOptions {
            max_tokens,
            temperature: self.temperature,
            top_p: self.top_p,
            top_k: self.top_k,
            seed: self.seed,
            ignore_eos: self.ignore_eos,
            stop,
        };
        Ok(Admission { id, messages, options, stream: self.stream })
    }
}

fn convert_messages(wire: &Vec<WireMessage>) -> (result: Result<Vec<ChatMessage>, RequestError>)
    ensures
        if exists|i: int| 0 <= i < wire@.len() && content_text((#[trigger] wire@[i]).content) is None {
            result == Err::<Vec<ChatMessage>, RequestError>(RequestError::UnsupportedContentPart)
        } else {
            &&& result is Ok
            &&& result->Ok_0@.len() == wire@.len()
            &&& forall|i: int|
                0 <= i < wire@.len() ==> (#[trigger] result->Ok_0@[i]).role@ == wire@[i].role@
                    && Some(result->Ok_0@[i].content@) == content_text(wire@[i].content)
        },
{
    let mut messages: Vec<ChatMessage> = Vec::new();
    let mut i: usize = 0;
    while i < wire.len()
        invariant
            i <= wire@.len(),
            messages@.len() == i,
            forall|j: int|
                0 <= j < i ==> (#[trigger] messages@[j]).role@ == wire@[j].role@ && Some(
                    messages@[j].content@,
                ) == content_text(wire@[j].content),
        decreases wire.len() - i,
    {
        assert(content_text(wire@[i as int].content) is None ==> exists|j: int|
            0 <= j < wire@.len() && content_text((#[trigger] wire@[j]).content) is None);
        let message = wire[i].into_chat_message()?;
        messages.push(message);
        i += 1;
    }
    assert forall|j: int| 0 <= j < wire@.len() implies content_text((#[trigger] wire@[j]).content)
        is Some by {
        assert(Some(messages@[j].content@) == content_text(wire@[j].content));
    }
    Ok(messages)
}

/// An answer to a request that failed: a status, and what the client is told.
#[derive(Debug)]
pub struct ClientError {
    pub status: u16,
    pub message: String,
}

pub open spec fn is_server_error(status: u16) -> bool {
    500 <= status < 600
}

pub open spec fn worker_status(error: WorkerError) -> u16 {
    if error.client {
        400
    } else {
        500
    }
}

pub open spec fn request_status(error: RequestError) -> u16 {
    match error {
        RequestError::QueueFull => 503,
        RequestError::WorkerStopped => 500,
        RequestError::Worker(error) => worker_status(error),
        _ => 400,
    }
}

/// What a client is told: nothing of a fault of the server.
pub open spec fn told(status: u16, message: Seq<char>) -> Seq<char> {
    if is_server_error(status) {
        "internal server error"@
    } else {
        message
    }
}

impl ClientError {
    fn new(status: u16, message: &str) -> (out: ClientError)
        ensures
            out.status == status,
            out.message@ == told(status, message@),
    {
        let message = if 500 <= status && status < 600 {
            "internal server error".to_owned()
        } else {
            message.to_owned()
        };
        ClientError { status, message }
    }

    /// The answer to a request that was turned away. `message` is what the error
    /// says.
    pub fn from_request(error: &RequestError, message: &str) -> (out: ClientError)
        ensures
            out.status == request_status(*error),
            out.message@ == told(
                request_status(*error),
                match error {
                    RequestError::Worker(error) => error.message@,
                    _ => message@,
                },
            ),
    {
        match error {
            RequestError::InvalidJson | RequestError::ModelNotLoaded
            | RequestError::UnsupportedContentPart | RequestError::MaxTokensExceedContext =>
                ClientError::new(400, message),
            RequestError::QueueFull => ClientError::new(503, message),
            RequestError::WorkerStopped => ClientError::new(500, message),
            RequestError::Worker(error) => ClientError::from_worker(error),
        }
    }

    pub fn from_worker(error: &WorkerError) -> (out: ClientError)
        ensures
            out.status == worker_status(*error),
            out.message@ == told(worker_status(*error), error.message@),
    {
        let status: u16 = if error.client {
            400
        } else {
            500
        };
        ClientError::new(status, error.message.as_str())
    }

    /// Whose fault it is, in the words of the protocol.
    pub fn kind(&self) -> (kind: &'static str)
        ensures
            kind@ == if is_server_error(self.status) {
                "server_error"@
            } else {
                "invalid_request_error"@
            },
    {
        if 500 <= self.status && self.status < 600 {
            "server_error"
        } else {
            "invalid_request_error"
        }
    }
}

pub fn finish_reason(reason: FinishReason) -> (name: &'static str)
    ensures
        name@ == match reason {
            FinishReason::Stop => "stop"@,
            FinishReason::Length => "length"@,
        },
{
    match reason {
        FinishReason::Stop => "stop",
        FinishReason::Length => "length",
    }
}

/// The tokens that a completion took.
#[derive(Clone, Copy, Debug, PartialEq, Eq, Structural)]
pub struct Usage {
    pub prompt_tokens: usize,
    pub completion_tokens: usize,
    pub total_tokens: usize,
}

pub open spec fn usage_of(summary: Summary) -> Usage {
    let total = summary.prompt_tokens + summary.completion_tokens;
    Usage {
        prompt_tokens: summary.prompt_tokens,
        completion_tokens: summary.completion_tokens,
        total_tokens: if total <= usize::MAX {
            total as usize
        } else {
            usize::MAX
        },
    }
}

pub fn usage(summary: Summary) -> (out: Usage)
    ensures
        out == usage_of(summary),
{
    Usage {
        prompt_tokens: summary.prompt_tokens,
        completion_tokens: summary.completion_tokens,
        total_tokens: summary.prompt_tokens.saturating_add(summary.completion_tokens),
    }
}

/// One event of the stream.
#[derive(Debug)]
pub enum Frame {
    /// The role of what follows.
    Role,
    Reasoning(String),
    Content(String),
    /// The end, with its reason and the tokens that were used.
    Final { reason: FinishReason, usage: Usage },
    /// Nothing more follows.
    Done,
    Error(ClientError),
}

#[verifier::ext_equal]
pub enum FrameModel {
    Role,
    Reasoning(Seq<char>),
    Content(Seq<char>),
    Final { reason: FinishReason, usage: Usage },
    Done,
    Error { status: u16, message: Seq<char> },
}

impl View for Frame {
    type V = FrameModel;

    open spec fn view(&self) -> FrameModel {
        match self {
            Frame::Role => FrameModel::Role,
            Frame::Reasoning(text) => FrameModel::Reasoning(text@),
            Frame::Content(text) => FrameModel::Content(text@),
            Frame::Final { reason, usage } => FrameModel::Final { reason: *reason, usage: *usage },
            Frame::Done => FrameModel::Done,
            Frame::Error(error) => FrameModel::Error {
                status: error.status,
                message: error.message@,
            },
        }
    }
}

pub open spec fn frame_views(frames: Seq<Frame>) -> Seq<FrameModel> {
    frames.map_values(|frame: Frame| frame@)
}

/// The frames of an event, before the role.
pub open spec fn event_frames(event: Event) -> Seq<FrameModel> {
    match event {
        Event::Reasoning(text) => seq![FrameModel::Reasoning(text@)],
        Event::Content(text) => seq![FrameModel::Content(text@)],
        Event::Finished(summary) => seq![
            FrameModel::Final { reason: summary.reason, usage: usage_of(summary) },
            FrameModel::Done,
        ],
        Event::Failed(error) => seq![
            FrameModel::Error {
                status: worker_status(error),
                message: told(worker_status(error), error.message@),
            },
        ],
    }
}

/// The frames of an event. The role comes before the first that is no error.
pub open spec fn encoded(role_sent: bool, event: Event) -> Seq<FrameModel> {
    if role_sent || event is Failed {
        event_frames(event)
    } else {
        seq![FrameModel::Role] + event_frames(event)
    }
}

/// Streams the events of a completion.
pub struct SseEncoder {
    pub id: String,
    pub model_id: String,
    pub role_sent: bool,
}

impl SseEncoder {
    pub fn new(id: String, model_id: String) -> (encoder: SseEncoder)
        ensures
            encoder.id@ == id@,
            encoder.model_id@ == model_id@,
            !encoder.role_sent,
    {
        SseEncoder { id, model_id, role_sent: false }
    }

    /// The frames of the next event.
    pub fn encode(&mut self, event: Event) -> (frames: Vec<Frame>)
        ensures
            frame_views(frames@) == encoded(old(self).role_sent, event),
            final(self).role_sent == (old(self).role_sent || !(event is Failed)),
            final(self).id == old(self).id,
            final(self).model_id == old(self).model_id,
    {
        let mut frames: Vec<Frame> = Vec::new();
        match event {
            Event::Reasoning(text) => {
                frames.push(Frame::Reasoning(text));
                assert(frame_views(frames@) =~= event_frames(event));
                self.with_role(frames)
            },
            Event::Content(text) => {
                frames.push(Frame::Content(text));
                assert(frame_views(frames@) =~= event_frames(event));
                self.with_role(frames)
            },
            Event::Finished(summary) => {
                frames.push(Frame::Final { reason: summary.reason, usage: usage(summary) });
                frames.push(Frame::Done);
                assert(frame_views(frames@) =~= event_frames(event));
                self.with_role(frames)
            },
            Event::Failed(error) => {
                frames.push(Frame::Error(ClientError::from_worker(&error)));
                assert(frame_views(frames@) =~= event_frames(event));
                frames
            },
        }
    }

    fn with_role(&mut self, frames: Vec<Frame>) -> (out: Vec<Frame>)
        ensures
            frame_views(out@) == if old(self).role_sent {
                frame_views(frames@)
            } else {
                seq![FrameModel::Role] + frame_views(frames@)
            },
            final(self).role_sent,
            final(self).id == old(self).id,
            final(self).model_id == old(self).model_id,
    {
        if self.role_sent {
            return frames;
        }
        self.role_sent = true;
        let ghost before = frame_views(frames@);
        let mut out: Vec<Frame> = Vec::new();
        out.push(Frame::Role);
        let mut rest = frames;
        out.append(&mut rest);
        assert(frame_views(out@) =~= seq![FrameModel::Role] + before);
        out
    }
}

/// The frames of a list of events.
pub open spec fn stream_of(role_sent: bool, events: Seq<Event>) -> Seq<FrameModel>
    decreases events.len(),
{
    if events.len() == 0 {
        Seq::empty()
    } else {
        encoded(role_sent, events[0]) + stream_of(
            role_sent || !(events[0] is Failed),
            events.drop_first(),
        )
    }
}

proof fn lemma_no_role(events: Seq<Event>)
    ensures
        forall|i: int|
            0 <= i < stream_of(true, events).len() ==> !((#[trigger] stream_of(true, events)[i])
                is Role),
    decreases events.len(),
{
    if events.len() > 0 {
        lemma_no_role(events.drop_first());
        let head = encoded(true, events[0]);
        let tail = stream_of(true, events.drop_first());
        assert forall|i: int| 0 <= i < (head + tail).len() implies !((#[trigger] (head + tail)[i])
            is Role) by {
            if i >= head.len() {
                assert((head + tail)[i] == tail[i - head.len()]);
            } else {
                assert((head + tail)[i] == head[i]);
            }
        }
    }
}

/// A stream names the role at most once, and before anything but errors.
pub proof fn the_role_is_sent_once(events: Seq<Event>, i: int, j: int)
    requires
        0 <= i < j < stream_of(false, events).len(),
    ensures
        ({
            let frames = stream_of(false, events);
            &&& !(frames[i] is Role && frames[j] is Role)
            &&& frames[j] is Role ==> frames[i] is Error
        }),
    decreases events.len(),
{
    let head = encoded(false, events[0]);
    let rest = events.drop_first();
    if events[0] is Failed {
        let tail = stream_of(false, rest);
        assert(head.len() == 1 && head[0] is Error);
        assert((head + tail)[j] == tail[j - 1]);
        if i > 0 {
            assert((head + tail)[i] == tail[i - 1]);
            the_role_is_sent_once(rest, i - 1, j - 1);
        } else {
            assert((head + tail)[i] == head[0]);
        }
    } else {
        let tail = stream_of(true, rest);
        lemma_no_role(rest);
        if j >= head.len() {
            assert((head + tail)[j] == tail[j - head.len()]);
        } else {
            assert((head + tail)[j] == head[j]);
        }
    }
}

/// The role stands right before the frames of the first event that is no
/// failure, behind one error for each failure before it, and nowhere else.
pub proof fn the_role_opens_the_first_answer(events: Seq<Event>, at: int)
    requires
        0 <= at < events.len(),
        !(events[at] is Failed),
        forall|i: int| 0 <= i < at ==> (#[trigger] events[i]) is Failed,
    ensures
        ({
            let errors = stream_of(false, events.take(at));
            let rest = stream_of(true, events.skip(at + 1));
            &&& errors.len() == at
            &&& forall|i: int| 0 <= i < at ==> (#[trigger] errors[i]) is Error
            &&& forall|i: int| 0 <= i < rest.len() ==> !((#[trigger] rest[i]) is Role)
            &&& stream_of(false, events) == errors + (seq![FrameModel::Role] + event_frames(
                events[at],
            )) + rest
        }),
    decreases at,
{
    let rest = stream_of(true, events.skip(at + 1));
    lemma_no_role(events.skip(at + 1));
    if at == 0 {
        assert(events.take(0) =~= Seq::empty());
        assert(events.skip(1) =~= events.drop_first());
        assert(stream_of(false, events) =~= Seq::<FrameModel>::empty() + (seq![FrameModel::Role]
            + event_frames(events[0])) + rest);
    } else {
        let tail = events.drop_first();
        assert(tail[at - 1] == events[at]);
        assert forall|i: int| 0 <= i < at - 1 implies (#[trigger] tail[i]) is Failed by {
            assert(tail[i] == events[i + 1]);
        }
        the_role_opens_the_first_answer(tail, at - 1);
        assert(tail.skip(at) =~= events.skip(at + 1));
        assert(events.take(at).drop_first() =~= tail.take(at - 1));
        assert(events.take(at)[0] == events[0]);
        let head = encoded(false, events[0]);
        let errors = stream_of(false, tail.take(at - 1));
        assert(stream_of(false, events.take(at)) == head + errors);
        assert forall|i: int| 0 <= i < at implies (#[trigger] (head + errors)[i]) is Error by {
            if i > 0 {
                assert((head + errors)[i] == errors[i - 1]);
            }
        }
        assert(stream_of(false, events) =~= head + errors + (seq![FrameModel::Role]
            + event_frames(events[at])) + rest);
    }
}

/// Only the end of a completion closes the stream, with its last frame. A
/// failure is one error, with neither a role nor a close.
pub proof fn only_the_end_closes_the_stream(role_sent: bool, event: Event, i: int)
    requires
        0 <= i < encoded(role_sent, event).len(),
    ensures
        ({
            let frames = encoded(role_sent, event);
            &&& frames[i] is Done <==> event is Finished && i == frames.len() - 1
            &&& event is Failed ==> frames.len() == 1 && frames[i] is Error
        }),
{
}

/// A client learns nothing of what went wrong in the server: two such faults
/// look the same in the stream and in an answer.
pub proof fn server_faults_look_the_same(
    role_sent: bool,
    fault: WorkerError,
    other: WorkerError,
)
    requires
        !fault.client,
        !other.client,
    ensures
        encoded(role_sent, Event::Failed(fault)) == encoded(role_sent, Event::Failed(other)),
        request_status(RequestError::Worker(fault)) == request_status(RequestError::Worker(other)),
        told(worker_status(fault), fault.message@) == told(
            worker_status(other),
            other.message@,
        ),
{
    assert(encoded(role_sent, Event::Failed(fault)) =~= encoded(role_sent, Event::Failed(other)));
}

/// Each text as one event of the stream.
pub open spec fn event_stream(frames: Seq<Seq<char>>) -> Seq<char>
    decreases frames.len(),
{
    if frames.len() == 0 {
        Seq::empty()
    } else {
        event_stream(frames.drop_last()) + ("data: "@ + frames.last() + "\n\n"@)
    }
}

/// Puts each text on the wire as one event of the stream.
pub fn framed(frames: &Vec<String>) -> (out: String)
    ensures
        out@ == event_stream(text::string_views(frames@)),
{
    let ghost all = text::string_views(frames@);
    let mut out = String::new();
    let mut i: usize = 0;
    assert(all.take(0) =~= Seq::empty());
    assert(out@ =~= Seq::empty());
    while i < frames.len()
        invariant
            i <= frames@.len(),
            all == text::string_views(frames@),
            out@ == event_stream(all.take(i as int)),
        decreases frames.len() - i,
    {
        let ghost before = out@;
        out.append("data: ");
        out.append(frames[i].as_str());
        out.append("\n\n");
        assert(all.take(i + 1).drop_last() =~= all.take(i as int));
        assert(all.take(i + 1).last() == frames@[i as int]@);
        assert(out@ =~= before + ("data: "@ + frames@[i as int]@ + "\n\n"@));
        i += 1;
    }
    assert(all.take(i as int) =~= all);
    out
}

/// The events of a completion that is answered at once.
pub struct Collected {
    pub reasoning: Option<String>,
    pub content: String,
    pub outcome: Option<Result<Summary, WorkerError>>,
}

impl Collected {
    pub open spec fn reasoning_text(self) -> Option<Seq<char>> {
        match self.reasoning {
            Some(text) => Some(text@),
            None => None,
        }
    }

    pub fn new() -> (collected: Collected)
        ensures
            collected.reasoning is None,
            collected.content@ == Seq::<char>::empty(),
            collected.outcome is None,
    {
        let content = String::new();
        assert(content@ =~= Seq::empty());
        Collected { reasoning: None, content, outcome: None }
    }

    /// Takes the next event in. Texts are joined, and the last outcome counts.
    pub fn push(self, event: Event) -> (out: Collected)
        ensures
            out.reasoning_text() == match event {
                Event::Reasoning(text) => Some(
                    match self.reasoning_text() {
                        Some(before) => before + text@,
                        None => text@,
                    },
                ),
                _ => self.reasoning_text(),
            },
            out.content@ == match event {
                Event::Content(text) => self.content@ + text@,
                _ => self.content@,
            },
            out.outcome == match event {
                Event::Finished(summary) => Some(Ok::<Summary, WorkerError>(summary)),
                Event::Failed(error) => Some(Err(error)),
                _ => self.outcome,
            },
    {
        let Collected { reasoning, content, outcome } = self;
        match event {
            Event::Reasoning(text) => {
                let reasoning = match reasoning {
                    Some(before) => {
                        let mut joined = before;
                        joined.append(text.as_str());
                        joined
                    },
                    None => text,
                };
                Collected { reasoning: Some(reasoning), content, outcome }
            },
            Event::Content(text) => {
                let mut content = content;
                content.append(text.as_str());
                Collected { reasoning, content, outcome }
            },
            Event::Finished(summary) => Collected {
                reasoning,
                content,
                outcome: Some(Ok(summary)),
            },
            Event::Failed(error) => Collected { reasoning, content, outcome: Some(Err(error)) },
        }
    }
}

/// The message of a completion that is answered at once.
pub struct CompletionMessage {
    pub content: String,
    pub reasoning: Option<String>,
}

/// The message of a completion. Beside its reasoning, the white space around
/// both goes.
pub fn completion_message(reasoning: Option<String>, content: String) -> (message: CompletionMessage)
    ensures
        match reasoning {
            Some(reasoning) => {
                &&& message.content@ == text::trimmed(content@)
                &&& message.reasoning is Some
                &&& message.reasoning->0@ == text::trimmed(reasoning@)
            },
            None => message.content@ == content@ && message.reasoning is None,
        },
{
    match reasoning {
        Some(reasoning) => CompletionMessage {
            content: text::trim(content.as_str()).to_owned(),
            reasoning: Some(text::trim(reasoning.as_str()).to_owned()),
        },
        None => CompletionMessage { content, reasoning: None },
    }
}

pub open spec fn id_text(seconds: nat, number: nat) -> Seq<char> {
    "chatcmpl-metal-"@ + text::decimal(seconds) + "-"@ + text::decimal(number)
}

/// The identifier of a completion, from the time and its number.
pub fn completion_id(seconds: u64, number: u64) -> (id: String)
    ensures
        id@ == id_text(seconds as nat, number as nat),
{
    let mut id = "chatcmpl-metal-".to_owned();
    id.append(text::format_u64(seconds).as_str());
    id.append("-");
    id.append(text::format_u64(number).as_str());
    id
}

/// Completions with different numbers have different identifiers, at whatever
/// times they begin.
pub proof fn identifiers_are_unique(seconds: nat, number: nat, later: nat, other: nat)
    requires
        number != other,
    ensures
        id_text(seconds, number) != id_text(later, other),
{
    reveal_strlit("-");
    let start = "chatcmpl-metal-"@;
    let n = start.len() as int;
    let left = id_text(seconds, number);
    let right = id_text(later, other);
    assert(left.skip(n) =~= text::decimal(seconds).push('-') + text::decimal(number));
    assert(right.skip(n) =~= text::decimal(later).push('-') + text::decimal(other));
    text::lemma_decimal_holds_no(seconds, '-');
    text::lemma_decimal_holds_no(later, '-');
    text::lemma_split_once_joined(text::decimal(seconds), '-', text::decimal(number));
    text::lemma_split_once_joined(text::decimal(later), '-', text::decimal(other));
    text::lemma_decimal(number);
    text::lemma_decimal(other);
}

/// Whether a stop sequence stands in a text from `at` on.
pub open spec fn stands_at(text: Seq<char>, stop: Seq<char>, at: int) -> bool {
    0 <= at && at + stop.len() <= text.len() && text.subrange(at, at + stop.len()) == stop
}

/// Whether one of the stop sequences stands in a text from `at` on.
pub open spec fn stops_at(text: Seq<char>, stops: Seq<Seq<char>>, at: int) -> bool {
    exists|i: int| 0 <= i < stops.len() && stands_at(text, #[trigger] stops[i], at)
}

fn stand_at(text: &Vec<char>, stop: &Vec<char>, at: usize) -> (answer: bool)
    requires
        at <= text@.len(),
    ensures
        answer == stands_at(text@, stop@, at as int),
{
    let len: usize = text.len();
    if stop.len() > len - at {
        return false;
    }
    let mut i: usize = 0;
    while i < stop.len()
        invariant
            i <= stop@.len(),
            len == text@.len(),
            at + stop@.len() <= len,
            forall|j: int| 0 <= j < i ==> text@[at + j] == #[trigger] stop@[j],
        decreases stop.len() - i,
    {
        if text[at + i] != stop[i] {
            assert(text@.subrange(at as int, at + stop@.len())[i as int] != stop@[i as int]);
            return false;
        }
        i += 1;
    }
    assert(text@.subrange(at as int, at + stop@.len()) =~= stop@);
    true
}

/// How many characters stand before the first stop sequence in a text.
pub fn first_stop(text: &str, stops: &Vec<String>) -> (found: Option<usize>)
    ensures
        match found {
            Some(at) => {
                &&& at <= text@.len()
                &&& stops_at(text@, text::string_views(stops@), at as int)
                &&& forall|earlier: int|
                    0 <= earlier < at ==> !#[trigger] stops_at(
                        text@,
                        text::string_views(stops@),
                        earlier,
                    )
            },
            None => forall|at: int| !#[trigger] stops_at(text@, text::string_views(stops@), at),
        },
{
    let chars = text::chars(text);
    let ghost views = text::string_views(stops@);
    let mut lists: Vec<Vec<char>> = Vec::new();
    let mut i: usize = 0;
    while i < stops.len()
        invariant
            i <= stops@.len(),
            lists@.len() == i,
            views == text::string_views(stops@),
            forall|j: int| 0 <= j < i ==> (#[trigger] lists@[j])@ == views[j],
        decreases stops.len() - i,
    {
        lists.push(text::chars(stops[i].as_str()));
        i += 1;
    }
    let mut at: usize = 0;
    loop
        invariant
            at <= chars@.len(),
            chars@ == text@,
            views == text::string_views(stops@),
            lists@.len() == views.len(),
            forall|j: int| 0 <= j < views.len() ==> (#[trigger] lists@[j])@ == views[j],
            forall|earlier: int| 0 <= earlier < at ==> !#[trigger] stops_at(text@, views, earlier),
        decreases chars@.len() - at,
    {
        let mut n: usize = 0;
        while n < lists.len()
            invariant
                n <= lists@.len(),
                at <= chars@.len(),
                chars@ == text@,
                views == text::string_views(stops@),
                lists@.len() == views.len(),
                forall|j: int| 0 <= j < views.len() ==> (#[trigger] lists@[j])@ == views[j],
                forall|earlier: int|
                    0 <= earlier < at ==> !#[trigger] stops_at(text@, views, earlier),
                forall|j: int| 0 <= j < n ==> !stands_at(text@, #[trigger] views[j], at as int),
            decreases lists.len() - n,
        {
            if stand_at(&chars, &lists[n], at) {
                assert(stands_at(text@, views[n as int], at as int));
                return Some(at);
            }
            assert(lists@[n as int]@ == views[n as int]);
            n += 1;
        }
        if at == chars.len() {
            assert forall|other: int| !#[trigger] stops_at(text@, views, other) by {
                if other > at {
                    assert(forall|j: int|
                        0 <= j < views.len() ==> !stands_at(text@, #[trigger] views[j], other));
                }
            }
            return None;
        }
        at += 1;
    }
}

/// Why a completion ended: at its limit, unless a stop sequence or an end token
/// came before.
pub fn ended(stopped: bool, generated: usize, max_tokens: usize) -> (reason: FinishReason)
    ensures
        reason == if stopped || generated < max_tokens {
            FinishReason::Stop
        } else {
            FinishReason::Length
        },
{
    if stopped || generated < max_tokens {
        FinishReason::Stop
    } else {
        FinishReason::Length
    }
}

/// Whether an error of the model is a fault of the request.
pub open spec fn is_client_fault(error: ModelError) -> bool {
    error is EmptyChat || error is UnsupportedChatRole || error is InvalidTemperature
        || error is InvalidTopP
}

/// An error of the model, described in words, as the worker reports it.
pub fn worker_fault(error: &ModelError, message: String) -> (fault: WorkerError)
    ensures
        fault.client == is_client_fault(*error),
        fault.message@ == message@,
{
    let client = match error {
        ModelError::EmptyChat => true,
        ModelError::UnsupportedChatRole => true,
        ModelError::InvalidTemperature => true,
        ModelError::InvalidTopP => true,
        _ => false,
    };
    WorkerError { client, message }
}

/// The text that the content frames of a stream add up to.
pub open spec fn streamed_content(frames: Seq<FrameModel>) -> Seq<char>
    decreases frames.len(),
{
    if frames.len() == 0 {
        Seq::empty()
    } else {
        let before = streamed_content(frames.drop_last());
        match frames.last() {
            FrameModel::Content(text) => before + text,
            _ => before,
        }
    }
}

/// The text that the reasoning frames of a stream add up to.
pub open spec fn streamed_reasoning(frames: Seq<FrameModel>) -> Seq<char>
    decreases frames.len(),
{
    if frames.len() == 0 {
        Seq::empty()
    } else {
        let before = streamed_reasoning(frames.drop_last());
        match frames.last() {
            FrameModel::Reasoning(text) => before + text,
            _ => before,
        }
    }
}

/// What the events tell: their contents one after the other, and their reasonings.
pub open spec fn told_by(events: Seq<Event>) -> (Seq<char>, Seq<char>)
    decreases events.len(),
{
    if events.len() == 0 {
        (Seq::empty(), Seq::empty())
    } else {
        let (content, reasoning) = told_by(events.drop_first());
        match events[0] {
            Event::Content(text) => (text@ + content, reasoning),
            Event::Reasoning(text) => (content, text@ + reasoning),
            _ => (content, reasoning),
        }
    }
}

proof fn lemma_streamed_joins(left: Seq<FrameModel>, right: Seq<FrameModel>)
    ensures
        streamed_content(left + right) == streamed_content(left) + streamed_content(right),
        streamed_reasoning(left + right) == streamed_reasoning(left) + streamed_reasoning(right),
    decreases right.len(),
{
    if right.len() == 0 {
        assert(left + right =~= left);
        assert(streamed_content(left) + streamed_content(right) =~= streamed_content(left));
        assert(streamed_reasoning(left) + streamed_reasoning(right) =~= streamed_reasoning(left));
    } else {
        lemma_streamed_joins(left, right.drop_last());
        assert((left + right).drop_last() =~= left + right.drop_last());
        assert((left + right).last() == right.last());
        assert(streamed_content(left + right) =~= streamed_content(left) + streamed_content(right));
        assert(streamed_reasoning(left + right) =~= streamed_reasoning(left) + streamed_reasoning(
            right,
        ));
    }
}

/// A stream tells what its events tell: the content frames add up to the contents, in
/// their order, and the reasoning frames to the reasonings, whether the role was sent
/// before or not.
pub proof fn a_stream_tells_what_its_events_tell(role_sent: bool, events: Seq<Event>)
    ensures
        streamed_content(stream_of(role_sent, events)) == told_by(events).0,
        streamed_reasoning(stream_of(role_sent, events)) == told_by(events).1,
    decreases events.len(),
{
    if events.len() > 0 {
        let event = events[0];
        let rest = events.drop_first();
        let sent = role_sent || !(event is Failed);
        let head = encoded(role_sent, event);
        a_stream_tells_what_its_events_tell(sent, rest);
        lemma_streamed_joins(head, stream_of(sent, rest));
        let frames = event_frames(event);
        lemma_streamed_joins(seq![FrameModel::Role], frames);
        reveal_with_fuel(streamed_content, 3);
        reveal_with_fuel(streamed_reasoning, 3);
        let role = seq![FrameModel::Role];
        assert(role.drop_last() =~= Seq::empty());
        assert(streamed_content(role) =~= Seq::empty());
        assert(streamed_reasoning(role) =~= Seq::empty());
        assert(frames.drop_last() =~= frames.take(frames.len() - 1));
        if event is Finished {
            assert(frames.drop_last().drop_last() =~= Seq::empty());
        } else {
            assert(frames.drop_last() =~= Seq::empty());
        }
        let content = match event {
            Event::Content(text) => text@,
            _ => Seq::empty(),
        };
        let reasoning = match event {
            Event::Reasoning(text) => text@,
            _ => Seq::empty(),
        };
        assert(streamed_content(frames) =~= content);
        assert(streamed_reasoning(frames) =~= reasoning);
        assert(streamed_content(head) =~= content);
        assert(streamed_reasoning(head) =~= reasoning);
        assert(content + told_by(rest).0 =~= told_by(events).0);
        assert(reasoning + told_by(rest).1 =~= told_by(events).1);
    } else {
        assert(stream_of(role_sent, events) =~= Seq::empty());
    }
}

/// The last frame but one of a generation that ended tells why it ended and how many
/// tokens it took, the prompt and the completion each in its place, and their sum as far
/// as a machine number goes.
pub proof fn the_end_of_a_stream_counts_its_tokens(role_sent: bool, summary: Summary)
    ensures
        ({
            let frames = encoded(role_sent, Event::Finished(summary));
            let total = summary.prompt_tokens + summary.completion_tokens;
            &&& frames.len() >= 2
            &&& frames[frames.len() - 1] is Done
            &&& frames[frames.len() - 2] matches FrameModel::Final { reason, usage }
            &&& reason == summary.reason
            &&& usage.prompt_tokens == summary.prompt_tokens
            &&& usage.completion_tokens == summary.completion_tokens
            &&& usage.total_tokens <= total
            &&& usage.total_tokens == total || usage.total_tokens == usize::MAX
        }),
{
}

/// A request that is at fault itself is answered with a status of the four hundreds and
/// told why; a full queue with 503 and any other fault with 500, told nothing but that
/// the server failed.
pub proof fn only_the_requester_is_told_why(error: RequestError, message: Seq<char>)
    ensures
        ({
            let status = request_status(error);
            let at_fault = error is InvalidJson || error is ModelNotLoaded
                || error is UnsupportedContentPart || error is MaxTokensExceedContext || (
            error matches RequestError::Worker(fault) && fault.client);
            &&& at_fault <==> status == 400
            &&& error is QueueFull <==> status == 503
            &&& !at_fault && !(error is QueueFull) <==> status == 500
            &&& at_fault ==> told(status, message) == message
            &&& !at_fault ==> told(status, message) == "internal server error"@
        }),
{
}

/// The texts of parts are joined in their order: to join all of them is to join the
/// first ones and then the others, one part alone is its own text, and one that is no
/// text refuses them all.
pub proof fn parts_are_joined_in_order(left: Seq<ContentPart>, right: Seq<ContentPart>)
    ensures
        parts_text(left + right) == match (parts_text(left), parts_text(right)) {
            (Some(first), Some(second)) => Some(first + second),
            _ => None::<Seq<char>>,
        },
        forall|part: ContentPart| #[trigger] parts_text(seq![part]) == part_text(part),
        parts_text(Seq::empty()) == Some(Seq::<char>::empty()),
    decreases right.len(),
{
    assert forall|part: ContentPart| #[trigger] parts_text(seq![part]) == part_text(part) by {
        reveal_with_fuel(parts_text, 2);
        assert(seq![part].drop_last() =~= Seq::empty());
        if part_text(part) is Some {
            assert(Seq::empty() + part_text(part)->0 =~= part_text(part)->0);
        }
    }
    if right.len() == 0 {
        assert(left + right =~= left);
        if parts_text(left) is Some {
            assert(parts_text(left)->0 + Seq::empty() =~= parts_text(left)->0);
        }
    } else {
        parts_are_joined_in_order(left, right.drop_last());
        assert((left + right).drop_last() =~= left + right.drop_last());
        assert((left + right).last() == right.last());
        if parts_text(left) is Some && parts_text(right) is Some {
            let first = parts_text(left)->0;
            let second = parts_text(right.drop_last())->0;
            let last = part_text(right.last())->0;
            assert(first + second + last =~= first + (second + last));
        }
    }
}

/// Every frame of an event stream stands on a line of its own, in order, between the
/// field name and an empty line.
pub proof fn frames_stand_in_order(frames: Seq<Seq<char>>, i: int)
    requires
        0 <= i < frames.len(),
    ensures
        ({
            let before = event_stream(frames.take(i));
            let line = "data: "@ + frames[i] + "\n\n"@;
            stands_at(event_stream(frames), line, before.len() as int)
        }),
    decreases frames.len(),
{
    let line = "data: "@ + frames[i] + "\n\n"@;
    let whole = event_stream(frames);
    let rest = frames.drop_last();
    if i == frames.len() - 1 {
        assert(frames.take(i) =~= rest);
        let at = event_stream(rest).len() as int;
        assert(whole.subrange(at, at + line.len()) =~= line);
    } else {
        frames_stand_in_order(rest, i);
        assert(rest.take(i) =~= frames.take(i));
        let at = event_stream(frames.take(i)).len() as int;
        assert(whole.subrange(at, at + line.len()) =~= event_stream(rest).subrange(
            at,
            at + line.len(),
        ));
    }
}

/// A limit for the completion comes before one for all tokens, and 256 tokens are the
/// limit where neither is given.
pub proof fn the_limit_of_the_completion_comes_first(request: ChatCompletionRequest)
    ensures
        request.max_completion_tokens is Some ==> request.token_limit()
            == request.max_completion_tokens->0,
        request.max_completion_tokens is None && request.max_tokens is Some
            ==> request.token_limit() == request.max_tokens->0,
        request.max_completion_tokens is None && request.max_tokens is None
            ==> request.token_limit() == 256,
{
}

/// A model answers to its whole name, and to what stands behind the first slash of it
/// if there is one; to nothing else.
pub proof fn a_model_has_a_long_and_a_short_name(owner: Seq<char>, short: Seq<char>, name: Seq<char>)
    requires
        !owner.contains('/'),
    ensures
        answers_to(owner.push('/') + short, name) <==> name == owner.push('/') + short || name
            == short,
        answers_to(owner, name) <==> name == owner,
{
    text::lemma_split_once_joined(owner, '/', short);
    text::lemma_split_once_absent(owner, '/');
}

} // verus!
