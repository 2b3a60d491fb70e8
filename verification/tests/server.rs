use metal_infer::error::ModelError;
use metal_infer::server::{
    completion_id, completion_message, ended, finish_reason, first_stop, framed, usage,
    worker_fault, ChatCompletionRequest,
    ClientError, Collected, ContentPart, Event, FinishReason, Frame, MessageContent, RequestError,
    SseEncoder, StopSequences, Summary, Usage, WireMessage, WorkerError, WorkerInfo,
};

fn info() -> WorkerInfo {
    WorkerInfo { model_id: "qwen".into(), context: 512 }
}

fn part(kind: &str, text: Option<&str>) -> ContentPart {
    ContentPart { kind: kind.into(), text: text.map(str::to_owned) }
}

fn request() -> ChatCompletionRequest {
    ChatCompletionRequest {
        model: None,
        messages: vec![WireMessage {
            role: "user".into(),
            content: MessageContent::Text("Hello".into()),
        }],
        max_tokens: None,
        max_completion_tokens: None,
        temperature: 0,
        top_p: 1.0f32.to_bits(),
        top_k: 0,
        seed: 0,
        stream: false,
        stop: None,
        ignore_eos: false,
    }
}

fn summary(prompt_tokens: usize, completion_tokens: usize) -> Summary {
    Summary { reason: FinishReason::Stop, prompt_tokens, completion_tokens }
}

#[test]
fn a_plain_request_is_admitted() {
    let admission = request().into_admission(&info(), "id".into()).expect("admitted");
    assert_eq!(admission.id, "id");
    assert_eq!(admission.options.max_tokens, 256);
    assert_eq!(admission.messages.len(), 1);
    assert_eq!(admission.messages[0].role, "user");
    assert_eq!(admission.messages[0].content, "Hello");
    assert!(admission.options.stop.is_empty());
    assert!(!admission.stream);
}

#[test]
fn a_request_carries_its_options() {
    let mut full = request();
    full.model = Some("qwen".into());
    full.max_tokens = Some(10);
    full.max_completion_tokens = Some(20);
    full.temperature = 0.5f32.to_bits();
    full.top_k = 3;
    full.seed = 4;
    full.stream = true;
    full.stop = Some(StopSequences::Many(vec!["a".into(), "b".into()]));
    full.ignore_eos = true;
    let admission = full.into_admission(&info(), "id".into()).expect("admitted");
    assert_eq!(admission.options.max_tokens, 20);
    assert_eq!(admission.options.temperature, 0.5f32.to_bits());
    assert_eq!(admission.options.top_k, 3);
    assert_eq!(admission.options.seed, 4);
    assert_eq!(admission.options.stop, vec!["a".to_owned(), "b".to_owned()]);
    assert!(admission.options.ignore_eos);
    assert!(admission.stream);
    assert_eq!(StopSequences::One("x".into()).into_vec(), vec!["x".to_owned()]);
}

#[test]
fn a_request_that_cannot_be_served_is_turned_away() {
    let mut other = request();
    other.model = Some("llama".into());
    assert!(matches!(
        other.into_admission(&info(), "id".into()),
        Err(RequestError::ModelNotLoaded)
    ));
    let mut long = request();
    long.max_tokens = Some(513);
    assert!(matches!(
        long.into_admission(&info(), "id".into()),
        Err(RequestError::MaxTokensExceedContext)
    ));
    let mut image = request();
    image.messages[0].content =
        MessageContent::Parts(vec![part("text", Some("a")), part("image_url", None)]);
    assert!(matches!(
        image.into_admission(&info(), "id".into()),
        Err(RequestError::UnsupportedContentPart)
    ));
}

#[test]
fn a_model_answers_to_its_name_without_the_owner() {
    let info = WorkerInfo { model_id: "Qwen/Qwen3-0.6B".into(), context: 8192 };
    let asked = |model: &str| {
        let mut request = request();
        request.model = Some(model.into());
        request.max_tokens = Some(32);
        request.stream = true;
        request.into_admission(&info, "id".into())
    };
    for model in ["Qwen3-0.6B", "Qwen/Qwen3-0.6B"] {
        let admission = asked(model).expect("the model that is served");
        assert!(admission.stream);
        assert_eq!(admission.options.max_tokens, 32);
        assert_eq!(admission.messages.len(), 1);
        assert_eq!(admission.messages[0].role, "user");
        assert_eq!(admission.messages[0].content, "Hello");
    }
    for model in ["Qwen", "Qwen/", "/Qwen3-0.6B", "Qwen3-0.6", ""] {
        assert!(matches!(asked(model), Err(RequestError::ModelNotLoaded)), "{model}");
    }
}

#[test]
fn text_parts_are_joined() {
    let message = WireMessage {
        role: "user".into(),
        content: MessageContent::Parts(vec![
            part("text", Some("a ")),
            part("text", None),
            part("text", Some("b")),
        ]),
    };
    let chat = message.into_chat_message().expect("all parts are text");
    assert_eq!(chat.content, "a b");
    assert_eq!(chat.role, "user");
}

#[test]
fn a_client_learns_nothing_of_the_server() {
    let worker = |client| WorkerError { client, message: "details".into() };
    let cases = vec![
        (RequestError::InvalidJson, 400, "why", "invalid_request_error"),
        (RequestError::ModelNotLoaded, 400, "why", "invalid_request_error"),
        (RequestError::UnsupportedContentPart, 400, "why", "invalid_request_error"),
        (RequestError::MaxTokensExceedContext, 400, "why", "invalid_request_error"),
        (RequestError::QueueFull, 503, "internal server error", "server_error"),
        (RequestError::WorkerStopped, 500, "internal server error", "server_error"),
        (RequestError::Worker(worker(true)), 400, "details", "invalid_request_error"),
        (RequestError::Worker(worker(false)), 500, "internal server error", "server_error"),
    ];
    for (error, status, message, kind) in cases {
        let told = ClientError::from_request(&error, "why");
        assert_eq!(told.status, status);
        assert_eq!(told.message, message);
        assert_eq!(told.kind(), kind);
    }
}

#[test]
fn the_role_opens_a_stream_once() {
    let mut encoder = SseEncoder::new("id".into(), "qwen".into());
    let frames = encoder.encode(Event::Reasoning("hm".into()));
    assert_eq!(frames.len(), 2);
    assert!(matches!(frames[0], Frame::Role));
    assert!(matches!(&frames[1], Frame::Reasoning(text) if text == "hm"));
    let frames = encoder.encode(Event::Content("hi".into()));
    assert_eq!(frames.len(), 1);
    assert!(matches!(&frames[0], Frame::Content(text) if text == "hi"));
    let frames = encoder.encode(Event::Finished(summary(3, 4)));
    assert_eq!(frames.len(), 2);
    assert!(matches!(
        frames[0],
        Frame::Final {
            reason: FinishReason::Stop,
            usage: Usage { prompt_tokens: 3, completion_tokens: 4, total_tokens: 7 }
        }
    ));
    assert!(matches!(frames[1], Frame::Done));
}

#[test]
fn the_role_stands_before_the_first_answer() {
    let mut encoder = SseEncoder::new("id".into(), "qwen".into());
    let fault = || Event::Failed(WorkerError { client: true, message: "why".into() });
    let mut kinds = Vec::new();
    for event in [fault(), fault(), Event::Content("a".into()), fault(), Event::Finished(summary(1, 2))] {
        for frame in encoder.encode(event) {
            kinds.push(match frame {
                Frame::Role => "role",
                Frame::Reasoning(_) => "reasoning",
                Frame::Content(_) => "content",
                Frame::Final { .. } => "final",
                Frame::Done => "done",
                Frame::Error(_) => "error",
            });
        }
    }
    assert_eq!(kinds, ["error", "error", "role", "content", "error", "final", "done"]);
}

#[test]
fn a_failed_stream_names_no_role() {
    let mut encoder = SseEncoder::new("id".into(), "qwen".into());
    let frames = encoder.encode(Event::Failed(WorkerError {
        client: false,
        message: "details".into(),
    }));
    assert_eq!(frames.len(), 1);
    assert!(matches!(
        &frames[0],
        Frame::Error(error) if error.status == 500 && error.message == "internal server error"
    ));
    assert!(!encoder.role_sent);
}

#[test]
fn two_server_faults_look_the_same() {
    let told = |message: &str| {
        let fault = WorkerError { client: false, message: message.into() };
        let mut encoder = SseEncoder::new("id".into(), "qwen".into());
        match encoder.encode(Event::Failed(fault)).remove(0) {
            Frame::Error(error) => (error.status, error.message),
            _ => panic!("a fault must be told as an error"),
        }
    };
    assert_eq!(told("out of memory"), told("device lost"));
    assert_eq!(told("device lost"), (500, "internal server error".into()));
}

#[test]
fn frames_are_events_of_their_own() {
    assert_eq!(framed(&vec!["{}".into(), "[DONE]".into()]), "data: {}\n\ndata: [DONE]\n\n");
    assert_eq!(framed(&vec![]), "");
}

#[test]
fn events_are_collected() {
    let collected = Collected::new()
        .push(Event::Reasoning("a".into()))
        .push(Event::Content(" b".into()))
        .push(Event::Reasoning("c".into()))
        .push(Event::Content("d ".into()))
        .push(Event::Finished(summary(1, 2)));
    assert_eq!(collected.reasoning.as_deref(), Some("ac"));
    assert_eq!(collected.content, " bd ");
    assert!(matches!(collected.outcome, Some(Ok(Summary { completion_tokens: 2, .. }))));
    let message = completion_message(Some(" think ".into()), collected.content);
    assert_eq!(message.content, "bd");
    assert_eq!(message.reasoning.as_deref(), Some("think"));
    let plain = completion_message(None, " kept ".into());
    assert_eq!(plain.content, " kept ");
    assert!(plain.reasoning.is_none());
    let failed = Collected::new().push(Event::Failed(WorkerError {
        client: true,
        message: "why".into(),
    }));
    assert!(matches!(failed.outcome, Some(Err(error)) if error.client));
}

#[test]
fn usage_saturates() {
    assert_eq!(usage(summary(usize::MAX, 1)).total_tokens, usize::MAX);
    assert_eq!(finish_reason(FinishReason::Stop), "stop");
    assert_eq!(finish_reason(FinishReason::Length), "length");
}

#[test]
fn identifiers_hold_the_time_and_the_number() {
    assert_eq!(completion_id(1_700_000_000, 42), "chatcmpl-metal-1700000000-42");
    assert_ne!(completion_id(1, 23), completion_id(12, 3));
}

#[test]
fn a_text_ends_at_its_first_stop_sequence() {
    let stops = |list: &[&str]| list.iter().map(|stop| (*stop).to_owned()).collect::<Vec<_>>();
    assert_eq!(first_stop("one two three", &stops(&["three", "two"])), Some(4));
    assert_eq!(first_stop("één. twee.", &stops(&["."])), Some(3));
    assert_eq!(first_stop("abc", &stops(&["cd", "d"])), None);
    assert_eq!(first_stop("abc", &stops(&["abc"])), Some(0));
    assert_eq!(first_stop("abc", &stops(&[""])), Some(0));
    assert_eq!(first_stop("abc", &stops(&[])), None);
}

#[test]
fn a_completion_says_why_it_ended() {
    assert!(matches!(ended(false, 4, 4), FinishReason::Length));
    assert!(matches!(ended(true, 4, 4), FinishReason::Stop));
    assert!(matches!(ended(false, 3, 4), FinishReason::Stop));
}

#[test]
fn faults_of_a_request_are_the_clients() {
    for error in [
        ModelError::EmptyChat,
        ModelError::UnsupportedChatRole,
        ModelError::InvalidTemperature,
        ModelError::InvalidTopP,
    ] {
        assert!(worker_fault(&error, "why".into()).client);
    }
    let fault = worker_fault(&ModelError::CacheCapacity, "why".into());
    assert!(!fault.client);
    assert_eq!(fault.message, "why");
}
