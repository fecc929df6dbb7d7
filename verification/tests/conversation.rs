use toolchat::generation::chat::consumer::{CaptureBuffer, StreamConsumer};
use toolchat::generation::chat::dispatch::{DispatchError, ToolRegistry};
use toolchat::generation::chat::message::{Argument, ChatMessage, MessageRole, ToolCall};
use toolchat::generation::chat::orchestrator::{Conversation, RunPhase, StreamChunk, StreamError};
use toolchat::generation::chat::run::{absorb, answer_calls, run};
use toolchat::generation::chat::tools::{
    FunctionParameter, ObjectParameter, Property, RawTool, StringParameter,
};

type Handler = fn(&ToolCall) -> Result<String, String>;

const PAYLOAD: &str = "{\"location\":\"Paris\",\"format\":\"celsius\",\"date\":\"2024-12-14\",\"humidity\":70,\"precipitation_probability\":90}";

fn weather(_call: &ToolCall) -> Result<String, String> {
    Ok(PAYLOAD.to_string())
}

fn echo(call: &ToolCall) -> Result<String, String> {
    Ok(format!("echo {}", call.argument("text").cloned().unwrap_or_default()))
}

fn weather_tool() -> RawTool {
    RawTool::function(
        "get_current_weather".to_string(),
        "Get the current weather for a location.".to_string(),
        FunctionParameter::Object(ObjectParameter {
            properties: vec![Property {
                name: "location".to_string(),
                schema: FunctionParameter::String(StringParameter {
                    description: Some(
                        "The location to get the weather for, e.g. San Francisco, CA".to_string(),
                    ),
                }),
            }],
            required: vec!["location".to_string()],
        }),
    )
}

fn echo_tool() -> RawTool {
    RawTool::function(
        "echo".to_string(),
        "Say it again.".to_string(),
        FunctionParameter::Object(ObjectParameter {
            properties: vec![Property {
                name: "text".to_string(),
                schema: FunctionParameter::String(StringParameter { description: None }),
            }],
            required: vec!["text".to_string()],
        }),
    )
}

fn registry() -> ToolRegistry<Handler> {
    let mut registry: ToolRegistry<Handler> = ToolRegistry::new();
    assert_eq!(registry.register(weather_tool(), weather), Ok(()));
    assert_eq!(registry.register(echo_tool(), echo), Ok(()));
    registry
}

fn call(name: &str, arguments: Vec<(&str, &str)>) -> ToolCall {
    ToolCall::new(
        name.to_string(),
        arguments
            .into_iter()
            .map(|(name, value)| Argument { name: name.to_string(), value: value.to_string() })
            .collect(),
    )
}

fn chunk(text: &str, calls: Option<Vec<ToolCall>>, is_final: bool) -> StreamChunk {
    StreamChunk { content_delta: text.to_string(), tool_calls: calls, is_final }
}

fn user(text: &str) -> ChatMessage {
    ChatMessage::new(MessageRole::User, text.to_string())
}

fn tool_message(text: &str) -> ChatMessage {
    ChatMessage::new(MessageRole::Tool, text.to_string())
}

fn fragments(buffer: &CaptureBuffer) -> Vec<String> {
    (0..buffer.len()).filter_map(|i| buffer.fragment(i).cloned()).collect()
}

#[test]
fn response_without_tool_calls_ends_the_run_after_one_turn() {
    let mut consumer = CaptureBuffer::new();
    let responses = vec![
        vec![chunk("It is ", None, false), chunk("sunny", None, false), chunk(".", None, true)],
        vec![chunk("never read", None, true)],
    ];
    let end = run(vec![user("How is weather today in Paris?")], &registry(), responses, &mut consumer);
    assert_eq!(end.phase(), RunPhase::Finished);
    assert_eq!(
        end.history(),
        &vec![
            user("How is weather today in Paris?"),
            ChatMessage::assistant("It is sunny.".to_string(), None, true),
        ]
    );
    assert_eq!(end.final_message().map(|m| m.content.as_str()), Some("It is sunny."));
    assert_eq!(fragments(&consumer), vec!["It is ", "sunny", "."]);
    assert_eq!(consumer.text(), "It is sunny.");
}

#[test]
fn single_tool_call_is_answered_and_the_model_asked_again() {
    let mut consumer = CaptureBuffer::new();
    let paris = call("get_current_weather", vec![("location", "Paris")]);
    let responses = vec![
        vec![chunk("", Some(vec![paris.clone()]), true)],
        vec![chunk("It is 7 degrees in Paris.", None, true)],
    ];
    let end = run(vec![user("How is weather today in Paris?")], &registry(), responses, &mut consumer);
    assert_eq!(end.phase(), RunPhase::Finished);
    assert_eq!(
        end.history(),
        &vec![
            user("How is weather today in Paris?"),
            ChatMessage::assistant("".to_string(), Some(vec![paris]), true),
            tool_message(PAYLOAD),
            ChatMessage::assistant("It is 7 degrees in Paris.".to_string(), None, true),
        ]
    );
    let roles: Vec<MessageRole> = end.history().iter().map(|m| m.role).collect();
    assert_eq!(
        roles,
        vec![MessageRole::User, MessageRole::Assistant, MessageRole::Tool, MessageRole::Assistant]
    );
    assert_eq!(end.history()[1].call_count(), 1);
    assert_eq!(end.final_message(), Some(&end.history()[3]));
}

#[test]
fn unknown_tool_is_reported_to_the_model_and_the_run_goes_on() {
    let mut consumer = CaptureBuffer::new();
    let foo = call("foo", vec![]);
    let responses = vec![
        vec![chunk("", Some(vec![foo.clone()]), true)],
        vec![chunk("I cannot do that.", None, true)],
    ];
    let end = run(vec![user("Do the foo.")], &registry(), responses, &mut consumer);
    assert_eq!(end.phase(), RunPhase::Finished);
    assert_eq!(
        end.history(),
        &vec![
            user("Do the foo."),
            ChatMessage::assistant("".to_string(), Some(vec![foo]), true),
            tool_message("unknown tool: foo"),
            ChatMessage::assistant("I cannot do that.".to_string(), None, true),
        ]
    );
}

#[test]
fn missing_argument_is_reported_to_the_model() {
    let mut consumer = CaptureBuffer::new();
    let responses = vec![
        vec![chunk("", Some(vec![call("get_current_weather", vec![])]), true)],
        vec![chunk("Where?", None, true)],
    ];
    let end = run(vec![user("Weather?")], &registry(), responses, &mut consumer);
    assert_eq!(end.phase(), RunPhase::Finished);
    assert_eq!(end.history()[2], tool_message("missing required argument: location"));
}

#[test]
fn answers_reach_the_history_in_call_order_whatever_their_arrival() {
    let a = call("get_current_weather", vec![("location", "Paris")]);
    let b = call("echo", vec![("text", "hello")]);
    let mut conversation = Conversation::start(vec![user("Two things.")]);
    conversation.mark_submitted();
    assert_eq!(
        conversation.on_chunk(chunk("", Some(vec![a.clone(), b.clone()]), true)),
        Some("".to_string())
    );
    assert_eq!(conversation.phase(), RunPhase::Dispatching);
    assert_eq!(conversation.open_calls(), Some(&vec![a.clone(), b.clone()]));
    let registry = registry();
    let for_b = registry.dispatch(&b);
    let for_a = registry.dispatch(&a);
    assert!(conversation.awaits(1));
    assert!(conversation.on_outcome(1, for_b));
    assert_eq!(conversation.phase(), RunPhase::Dispatching);
    assert_eq!(conversation.history().len(), 2);
    assert!(!conversation.awaits(1));
    assert!(conversation.awaits(0));
    assert!(conversation.on_outcome(0, for_a));
    assert_eq!(conversation.phase(), RunPhase::Submitting);
    assert_eq!(
        conversation.history(),
        &vec![
            user("Two things."),
            ChatMessage::assistant("".to_string(), Some(vec![a, b]), true),
            tool_message(PAYLOAD),
            tool_message("echo hello"),
        ]
    );
}

#[test]
fn answer_that_is_not_awaited_is_passed_over() {
    let a = call("echo", vec![("text", "x")]);
    let mut conversation = Conversation::start(vec![user("One thing.")]);
    assert!(!conversation.on_outcome(0, Ok("early".to_string())));
    conversation.mark_submitted();
    conversation.on_chunk(chunk("", Some(vec![a.clone(), a.clone()]), true));
    assert!(!conversation.on_outcome(2, Ok("out of range".to_string())));
    assert!(conversation.on_outcome(0, Ok("first".to_string())));
    assert!(!conversation.on_outcome(0, Ok("again".to_string())));
    assert!(conversation.on_outcome(1, Err(DispatchError::HandlerFailed("late".to_string()))));
    assert_eq!(conversation.history()[2], tool_message("first"));
    assert_eq!(conversation.history()[3], tool_message("tool failed: late"));
    assert_eq!(conversation.history().len(), 4);
}

#[test]
fn answer_calls_runs_the_handlers_in_call_order() {
    let a = call("echo", vec![("text", "one")]);
    let b = call("nope", vec![]);
    let c = call("echo", vec![("text", "three")]);
    let mut conversation = Conversation::start(vec![]);
    conversation.mark_submitted();
    conversation.on_chunk(chunk("Let me see.", Some(vec![a, b]), false));
    conversation.on_chunk(chunk("", Some(vec![c]), true));
    assert!(conversation.on_outcome(2, Ok("already here".to_string())));
    answer_calls(&mut conversation, &registry());
    assert_eq!(conversation.phase(), RunPhase::Submitting);
    assert_eq!(conversation.history().len(), 4);
    assert_eq!(conversation.history()[0].content, "Let me see.");
    assert_eq!(conversation.history()[0].call_count(), 3);
    assert_eq!(conversation.history()[1], tool_message("echo one"));
    assert_eq!(conversation.history()[2], tool_message("unknown tool: nope"));
    assert_eq!(conversation.history()[3], tool_message("already here"));
}

#[test]
fn answer_calls_does_nothing_outside_a_dispatch() {
    let mut conversation = Conversation::start(vec![user("hi")]);
    answer_calls(&mut conversation, &registry());
    assert_eq!(conversation.phase(), RunPhase::Submitting);
    assert_eq!(conversation.history(), &vec![user("hi")]);
}

#[test]
fn cancelling_mid_stream_keeps_the_partial_answer_marked_incomplete() {
    let mut conversation = Conversation::start(vec![user("Tell me a story.")]);
    conversation.mark_submitted();
    assert_eq!(conversation.on_chunk(chunk("Once upon", None, false)), Some("Once upon".to_string()));
    assert_eq!(conversation.on_chunk(chunk(" a time", None, false)), Some(" a time".to_string()));
    conversation.cancel();
    assert_eq!(conversation.phase(), RunPhase::Cancelled);
    assert_eq!(
        conversation.history(),
        &vec![
            user("Tell me a story."),
            ChatMessage::assistant("Once upon a time".to_string(), None, false),
        ]
    );
    assert!(!conversation.history()[1].complete);
    assert_eq!(conversation.final_message(), None);
    assert_eq!(conversation.failure(), None);
    assert_eq!(conversation.on_chunk(chunk(" there was", None, true)), None);
    conversation.mark_submitted();
    assert_eq!(conversation.phase(), RunPhase::Cancelled);
    assert_eq!(conversation.history().len(), 2);
}

#[test]
fn cancelling_before_anything_streamed_adds_nothing() {
    let mut conversation = Conversation::start(vec![user("hi")]);
    conversation.mark_submitted();
    conversation.cancel();
    assert_eq!(conversation.phase(), RunPhase::Cancelled);
    assert_eq!(conversation.history(), &vec![user("hi")]);
}

#[test]
fn cancelling_pending_tool_calls_stops_the_run() {
    let a = call("echo", vec![("text", "x")]);
    let mut conversation = Conversation::start(vec![user("hi")]);
    conversation.mark_submitted();
    conversation.on_chunk(chunk("", Some(vec![a.clone(), a.clone()]), true));
    assert!(conversation.on_outcome(1, Ok("done".to_string())));
    conversation.cancel();
    assert_eq!(conversation.phase(), RunPhase::Cancelled);
    assert_eq!(conversation.history().len(), 2);
    assert_eq!(conversation.open_calls(), None);
    assert!(!conversation.on_outcome(0, Ok("late".to_string())));
    assert_eq!(conversation.history().len(), 2);
}

#[test]
fn cancelling_a_finished_run_changes_nothing() {
    let mut conversation = Conversation::start(vec![]);
    conversation.mark_submitted();
    conversation.on_chunk(chunk("done", None, true));
    conversation.cancel();
    assert_eq!(conversation.phase(), RunPhase::Finished);
    assert_eq!(conversation.final_message().map(|m| m.content.as_str()), Some("done"));
}

#[test]
fn stream_error_fails_the_run_and_leaves_the_history() {
    let mut conversation = Conversation::start(vec![user("hi")]);
    conversation.mark_submitted();
    conversation.on_chunk(chunk("par", None, false));
    conversation.on_stream_error(StreamError { reason: "connection reset".to_string() });
    assert_eq!(conversation.phase(), RunPhase::Failed);
    assert_eq!(conversation.failure(), Some(&StreamError { reason: "connection reset".to_string() }));
    assert_eq!(conversation.history(), &vec![user("hi")]);
    assert_eq!(conversation.final_message(), None);
}

#[test]
fn stream_error_during_dispatch_is_passed_over() {
    let mut conversation = Conversation::start(vec![]);
    conversation.mark_submitted();
    conversation.on_chunk(chunk("", Some(vec![call("echo", vec![("text", "x")])]), true));
    conversation.on_stream_error(StreamError { reason: "late".to_string() });
    assert_eq!(conversation.phase(), RunPhase::Dispatching);
    assert_eq!(conversation.failure(), None);
}

#[test]
fn chunk_before_submission_is_passed_over() {
    let mut conversation = Conversation::start(vec![user("hi")]);
    assert_eq!(conversation.on_chunk(chunk("early", None, true)), None);
    assert_eq!(conversation.phase(), RunPhase::Submitting);
    assert_eq!(conversation.history(), &vec![user("hi")]);
}

#[test]
fn empty_list_of_calls_is_no_tool_request() {
    let mut conversation = Conversation::start(vec![]);
    conversation.mark_submitted();
    conversation.on_chunk(chunk("fine", Some(vec![]), true));
    assert_eq!(conversation.phase(), RunPhase::Finished);
    assert_eq!(conversation.history(), &vec![ChatMessage::assistant("fine".to_string(), None, true)]);
}

#[test]
fn run_fails_when_a_response_breaks_off() {
    let mut consumer = CaptureBuffer::new();
    let responses = vec![vec![chunk("It is", None, false)]];
    let end = run(vec![user("hi")], &registry(), responses, &mut consumer);
    assert_eq!(end.phase(), RunPhase::Failed);
    assert_eq!(
        end.failure().map(|e| e.reason.as_str()),
        Some("the stream ended before its final chunk")
    );
    assert_eq!(end.history(), &vec![user("hi")]);
    assert_eq!(fragments(&consumer), vec!["It is"]);
}

#[test]
fn run_fails_when_the_responses_run_out() {
    let mut consumer = CaptureBuffer::new();
    let responses = vec![vec![chunk("", Some(vec![call("echo", vec![("text", "a")])]), true)]];
    let end = run(vec![user("hi")], &registry(), responses, &mut consumer);
    assert_eq!(end.phase(), RunPhase::Failed);
    assert_eq!(end.failure().map(|e| e.reason.as_str()), Some("the backend gave no response"));
    assert_eq!(end.history().len(), 3);
    assert_eq!(end.history()[2], tool_message("echo a"));
    let none = run(vec![user("hi")], &registry(), vec![], &mut consumer);
    assert_eq!(none.phase(), RunPhase::Failed);
}

#[test]
fn absorb_forwards_only_what_finds_a_stream_open() {
    let mut consumer = CaptureBuffer::new();
    let mut conversation = Conversation::start(vec![]);
    conversation.mark_submitted();
    absorb(
        &mut conversation,
        vec![chunk("a", None, false), chunk("b", None, true), chunk("c", None, true)],
        &mut consumer,
    );
    assert_eq!(conversation.phase(), RunPhase::Finished);
    assert_eq!(conversation.final_message().map(|m| m.content.as_str()), Some("ab"));
    assert_eq!(fragments(&consumer), vec!["a", "b"]);
}

#[test]
fn capture_buffer_keeps_fragments_in_order() {
    let mut buffer = CaptureBuffer::new();
    assert_eq!(buffer.len(), 0);
    assert_eq!(buffer.text(), "");
    buffer.accept("x");
    buffer.accept("");
    buffer.accept("x");
    buffer.accept("yz");
    assert_eq!(fragments(&buffer), vec!["x", "", "x", "yz"]);
    assert_eq!(buffer.len(), 4);
    assert_eq!(buffer.fragment(3), Some(&"yz".to_string()));
    assert_eq!(buffer.fragment(4), None);
    assert_eq!(buffer.text(), "xxyz");
}

#[test]
fn timeout_fails_the_turn_and_drops_the_answers_gathered() {
    let a = call("echo", vec![("text", "x")]);
    let mut conversation = Conversation::start(vec![user("hi")]);
    conversation.on_timeout();
    assert_eq!(conversation.phase(), RunPhase::Submitting);
    conversation.mark_submitted();
    conversation.on_chunk(chunk("", Some(vec![a.clone(), a.clone()]), true));
    assert!(conversation.on_outcome(0, Ok("in time".to_string())));
    conversation.on_timeout();
    assert_eq!(conversation.phase(), RunPhase::Failed);
    assert_eq!(
        conversation.failure().map(|e| e.reason.as_str()),
        Some("the tool calls ran out of time")
    );
    assert_eq!(conversation.history().len(), 2);
    assert!(!conversation.on_outcome(1, Ok("late".to_string())));
    assert_eq!(conversation.history().len(), 2);
}
