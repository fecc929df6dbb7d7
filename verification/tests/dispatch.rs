use toolchat::generation::chat::dispatch::{
    missing_argument, outcome_message, settle, DispatchError, ToolRegistry,
};
use toolchat::generation::chat::message::{Argument, ChatMessage, MessageRole, ToolCall};
use toolchat::generation::chat::tools::{
    FunctionParameter, ObjectParameter, Property, RawTool, SchemaError, StringParameter,
};
use toolchat::generation::chat::value::{WireField, WireValue};
use toolchat::generation::chat::wire::encode_tool;

type Handler = fn(&ToolCall) -> Result<String, String>;

fn weather(call: &ToolCall) -> Result<String, String> {
    let location = call.argument("location").cloned().unwrap_or_default();
    Ok(format!("{{\"location\":\"{}\",\"format\":\"celsius\"}}", location))
}

fn broken(_call: &ToolCall) -> Result<String, String> {
    Err("service unavailable".to_string())
}

fn tool(name: &str, required: Vec<&str>) -> RawTool {
    RawTool::function(
        name.to_string(),
        "A tool.".to_string(),
        FunctionParameter::Object(ObjectParameter {
            properties: vec![
                Property {
                    name: "location".to_string(),
                    schema: FunctionParameter::String(StringParameter { description: None }),
                },
                Property {
                    name: "unit".to_string(),
                    schema: FunctionParameter::String(StringParameter { description: None }),
                },
            ],
            required: required.into_iter().map(|r| r.to_string()).collect(),
        }),
    )
}

fn call(name: &str, arguments: Vec<(&str, &str)>) -> ToolCall {
    ToolCall::new(
        name.to_string(),
        arguments
            .into_iter()
            .map(|(name, value)| Argument { name: name.to_string(), value: value.to_string() })
            .collect(),
    )
}

fn registry() -> ToolRegistry<Handler> {
    let mut registry: ToolRegistry<Handler> = ToolRegistry::new();
    assert_eq!(registry.register(tool("get_current_weather", vec!["location"]), weather), Ok(()));
    assert_eq!(registry.register(tool("get_forecast", vec!["location", "unit"]), broken), Ok(()));
    registry
}

#[test]
fn new_registry_is_empty() {
    let registry: ToolRegistry<Handler> = ToolRegistry::new();
    assert_eq!(registry.len(), 0);
    assert!(registry.descriptors().is_empty());
}

#[test]
fn registration_keeps_the_order() {
    let registry = registry();
    assert_eq!(registry.len(), 2);
    assert_eq!(
        registry.tool(0).map(|t| t.function.name.as_str()),
        Some("get_current_weather")
    );
    assert_eq!(registry.tool(1).map(|t| t.function.name.as_str()), Some("get_forecast"));
    assert!(registry.tool(2).is_none());
    assert_eq!(registry.position_of(&"get_forecast".to_string()), Some(1));
    assert_eq!(registry.position_of(&"foo".to_string()), None);
}

#[test]
fn malformed_schema_is_refused_and_nothing_is_registered() {
    let mut registry = registry();
    let refused = registry.register(tool("search", vec!["query"]), weather);
    assert_eq!(refused, Err(SchemaError::UnknownRequired));
    assert_eq!(registry.len(), 2);
    assert_eq!(registry.position_of(&"search".to_string()), None);
    assert_eq!(
        registry.dispatch(&call("search", vec![("query", "rust")])),
        Err(DispatchError::UnknownTool("search".to_string()))
    );
}

#[test]
fn tool_of_unknown_kind_is_not_registered() {
    let mut registry = registry();
    let unknown = RawTool::Unknown(WireValue::Record(vec![WireField {
        key: "type".to_string(),
        value: WireValue::Text("retrieval".to_string()),
    }]));
    assert_eq!(unknown.validate(), Ok(()));
    assert_eq!(registry.register(unknown, weather), Err(SchemaError::UnknownKind));
    assert_eq!(registry.len(), 2);
}

#[test]
fn taken_name_is_refused_and_the_first_handler_stays() {
    let mut registry = registry();
    let refused = registry.register(tool("get_current_weather", vec![]), broken);
    assert_eq!(refused, Err(SchemaError::DuplicateTool));
    assert_eq!(registry.len(), 2);
    assert_eq!(
        registry.dispatch(&call("get_current_weather", vec![("location", "Paris")])),
        Ok("{\"location\":\"Paris\",\"format\":\"celsius\"}".to_string())
    );
}

#[test]
fn descriptors_are_the_wire_forms_in_order() {
    let registry = registry();
    assert_eq!(
        registry.descriptors(),
        vec![
            encode_tool(&tool("get_current_weather", vec!["location"])),
            encode_tool(&tool("get_forecast", vec!["location", "unit"])),
        ]
    );
}

#[test]
fn unknown_tool_is_an_error_value() {
    let registry = registry();
    assert_eq!(
        registry.dispatch(&call("foo", vec![])),
        Err(DispatchError::UnknownTool("foo".to_string()))
    );
    assert_eq!(
        registry.resolve(&call("foo", vec![("location", "Paris")])),
        Err(DispatchError::UnknownTool("foo".to_string()))
    );
}

#[test]
fn missing_required_argument_is_named() {
    let registry = registry();
    assert_eq!(
        registry.dispatch(&call("get_current_weather", vec![("unit", "celsius")])),
        Err(DispatchError::MissingArgument("location".to_string()))
    );
}

#[test]
fn first_missing_required_argument_is_the_one_named() {
    let registry = registry();
    assert_eq!(
        registry.dispatch(&call("get_forecast", vec![])),
        Err(DispatchError::MissingArgument("location".to_string()))
    );
    assert_eq!(
        registry.dispatch(&call("get_forecast", vec![("location", "Paris")])),
        Err(DispatchError::MissingArgument("unit".to_string()))
    );
}

#[test]
fn handler_payload_is_the_outcome() {
    let registry = registry();
    assert_eq!(registry.resolve(&call("get_current_weather", vec![("location", "Paris")])), Ok(0));
    assert_eq!(
        registry.dispatch(&call("get_current_weather", vec![("location", "Paris")])),
        Ok("{\"location\":\"Paris\",\"format\":\"celsius\"}".to_string())
    );
}

#[test]
fn handler_failure_is_the_outcome() {
    let registry = registry();
    assert_eq!(
        registry.dispatch(&call("get_forecast", vec![("location", "Paris"), ("unit", "c")])),
        Err(DispatchError::HandlerFailed("service unavailable".to_string()))
    );
}

#[test]
fn settle_keeps_payload_and_wraps_reason() {
    assert_eq!(settle(Ok("42".to_string())), Ok("42".to_string()));
    assert_eq!(
        settle(Err("no".to_string())),
        Err(DispatchError::HandlerFailed("no".to_string()))
    );
}

#[test]
fn string_parameter_requires_nothing() {
    let parameters = FunctionParameter::String(StringParameter { description: None });
    assert_eq!(missing_argument(&parameters, &call("echo", vec![])), None);
}

#[test]
fn outcome_messages_report_payload_or_fault() {
    assert_eq!(
        outcome_message(Ok("{\"ok\":true}".to_string())),
        ChatMessage::new(MessageRole::Tool, "{\"ok\":true}".to_string())
    );
    assert_eq!(
        outcome_message(Err(DispatchError::UnknownTool("foo".to_string()))).content,
        "unknown tool: foo"
    );
    assert_eq!(
        outcome_message(Err(DispatchError::MissingArgument("location".to_string()))).content,
        "missing required argument: location"
    );
    assert_eq!(
        outcome_message(Err(DispatchError::HandlerFailed("boom".to_string()))).content,
        "tool failed: boom"
    );
}

#[test]
fn first_argument_of_a_name_is_the_one_read() {
    let call = call("t", vec![("a", "1"), ("b", "2"), ("a", "3")]);
    assert_eq!(call.argument("a"), Some(&"1".to_string()));
    assert_eq!(call.argument("b"), Some(&"2".to_string()));
    assert_eq!(call.argument("c"), None);
    assert!(call.has_argument(&"b".to_string()));
    assert!(!call.has_argument(&"c".to_string()));
}

#[test]
fn message_constructors_set_role_and_calls() {
    let user = ChatMessage::new(MessageRole::User, "hi".to_string());
    assert_eq!(user.role, MessageRole::User);
    assert!(user.complete);
    assert_eq!(user.call_count(), 0);
    assert!(!user.requests_tools());
    let assistant = ChatMessage::assistant("".to_string(), Some(vec![call("t", vec![])]), true);
    assert_eq!(assistant.role, MessageRole::Assistant);
    assert_eq!(assistant.call_count(), 1);
    assert!(assistant.requests_tools());
    let empty = ChatMessage::assistant("x".to_string(), Some(vec![]), true);
    assert!(!empty.requests_tools());
}
