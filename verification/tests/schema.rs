use toolchat::generation::chat::tools::{
    FunctionParameter, ObjectParameter, Property, RawTool, SchemaError, StringParameter,
};
use toolchat::generation::chat::value::{WireField, WireValue};
use toolchat::generation::chat::wire::{decode_tool, encode_tool, DecodeError};

fn text_parameter(description: Option<&str>) -> FunctionParameter {
    FunctionParameter::String(StringParameter { description: description.map(|d| d.to_string()) })
}

fn weather_tool() -> RawTool {
    RawTool::function(
        "get_current_weather".to_string(),
        "Get the current weather for a location.".to_string(),
        FunctionParameter::Object(ObjectParameter {
            properties: vec![Property {
                name: "location".to_string(),
                schema: text_parameter(Some(
                    "The location to get the weather for, e.g. San Francisco, CA",
                )),
            }],
            required: vec!["location".to_string()],
        }),
    )
}

#[test]
fn weather_tool_is_valid() {
    assert_eq!(weather_tool().validate(), Ok(()));
}

#[test]
fn weather_tool_round_trips() {
    let tool = weather_tool();
    let wire = encode_tool(&tool);
    assert_eq!(decode_tool(&wire), Ok(tool));
}

#[test]
fn weather_tool_wire_form_is_exact() {
    let wire = encode_tool(&weather_tool());
    let expected = WireValue::Record(vec![
        WireField { key: "type".to_string(), value: WireValue::Text("function".to_string()) },
        WireField {
            key: "function".to_string(),
            value: WireValue::Record(vec![
                WireField {
                    key: "name".to_string(),
                    value: WireValue::Text("get_current_weather".to_string()),
                },
                WireField {
                    key: "description".to_string(),
                    value: WireValue::Text("Get the current weather for a location.".to_string()),
                },
                WireField {
                    key: "parameters".to_string(),
                    value: WireValue::Record(vec![
                        WireField {
                            key: "type".to_string(),
                            value: WireValue::Text("object".to_string()),
                        },
                        WireField {
                            key: "properties".to_string(),
                            value: WireValue::Record(vec![WireField {
                                key: "location".to_string(),
                                value: WireValue::Record(vec![
                                    WireField {
                                        key: "type".to_string(),
                                        value: WireValue::Text("string".to_string()),
                                    },
                                    WireField {
                                        key: "description".to_string(),
                                        value: WireValue::Text(
                                            "The location to get the weather for, e.g. San Francisco, CA"
                                                .to_string(),
                                        ),
                                    },
                                ]),
                            }]),
                        },
                        WireField {
                            key: "required".to_string(),
                            value: WireValue::List(vec![WireValue::Text("location".to_string())]),
                        },
                    ]),
                },
            ]),
        },
    ]);
    assert_eq!(wire, expected);
}

#[test]
fn required_name_without_property_is_refused() {
    let parameter = FunctionParameter::Object(ObjectParameter {
        properties: vec![Property { name: "location".to_string(), schema: text_parameter(None) }],
        required: vec!["city".to_string()],
    });
    assert_eq!(parameter.validate(), Err(SchemaError::UnknownRequired));
}

#[test]
fn decode_refuses_a_value_that_is_no_record() {
    assert_eq!(decode_tool(&WireValue::Null), Err(DecodeError::NotARecord));
}

fn object(properties: Vec<Property>, required: Vec<&str>) -> FunctionParameter {
    FunctionParameter::Object(ObjectParameter {
        properties,
        required: required.into_iter().map(|r| r.to_string()).collect(),
    })
}

fn property(name: &str, schema: FunctionParameter) -> Property {
    Property { name: name.to_string(), schema }
}

fn nested(levels: usize) -> FunctionParameter {
    let mut parameter = text_parameter(None);
    for _ in 1..levels {
        parameter = object(vec![property("inner", parameter)], vec![]);
    }
    parameter
}

fn field(key: &str, value: WireValue) -> WireField {
    WireField { key: key.to_string(), value }
}

fn text(value: &str) -> WireValue {
    WireValue::Text(value.to_string())
}

#[test]
fn string_parameter_is_valid() {
    assert_eq!(text_parameter(Some("a city")).validate(), Ok(()));
    assert_eq!(text_parameter(None).validate(), Ok(()));
}

#[test]
fn required_name_in_nested_object_is_checked() {
    let parameter = object(
        vec![property("where", object(vec![property("city", text_parameter(None))], vec!["town"]))],
        vec!["where"],
    );
    assert_eq!(parameter.validate(), Err(SchemaError::UnknownRequired));
    assert!(!parameter.required_known());
    assert!(parameter.names_unique());
}

#[test]
fn repeated_property_name_is_refused() {
    let parameter = object(
        vec![property("city", text_parameter(None)), property("city", text_parameter(None))],
        vec!["city"],
    );
    assert_eq!(parameter.validate(), Err(SchemaError::DuplicateProperty));
}

#[test]
fn repeated_name_is_reported_before_unknown_required() {
    let parameter = object(
        vec![property("city", text_parameter(None)), property("city", text_parameter(None))],
        vec!["town"],
    );
    assert_eq!(parameter.validate(), Err(SchemaError::DuplicateProperty));
}

#[test]
fn nesting_is_bounded() {
    assert_eq!(nested(64).validate(), Ok(()));
    assert_eq!(nested(65).validate(), Err(SchemaError::TooDeep));
    assert!(nested(3).fits_within(3));
    assert!(!nested(3).fits_within(2));
    assert!(!text_parameter(None).fits_within(0));
}

#[test]
fn tool_with_malformed_parameters_is_refused() {
    let tool = RawTool::function(
        "lookup".to_string(),
        "Look something up.".to_string(),
        object(vec![], vec!["key"]),
    );
    assert_eq!(tool.validate(), Err(SchemaError::UnknownRequired));
}

#[test]
fn tool_getters_give_the_parts() {
    let tool = weather_tool();
    assert_eq!(tool.name().map(|n| n.as_str()), Some("get_current_weather"));
    assert_eq!(
        tool.description().map(|d| d.as_str()),
        Some("Get the current weather for a location.")
    );
    assert_eq!(tool.parameters().map(|p| p.validate()), Some(Ok(())));
    let unknown = RawTool::Unknown(WireValue::Record(vec![field("type", text("retrieval"))]));
    assert_eq!(unknown.name(), None);
    assert_eq!(unknown.description(), None);
    assert_eq!(unknown.parameters(), None);
}

#[test]
fn nested_tool_round_trips() {
    let tool = RawTool::function(
        "book".to_string(),
        "Book a trip.".to_string(),
        object(
            vec![
                property(
                    "from",
                    object(
                        vec![
                            property("city", text_parameter(Some("departure city"))),
                            property("country", text_parameter(None)),
                        ],
                        vec!["city"],
                    ),
                ),
                property("note", text_parameter(None)),
            ],
            vec!["from"],
        ),
    );
    assert_eq!(tool.validate(), Ok(()));
    assert_eq!(decode_tool(&encode_tool(&tool)), Ok(tool));
}

#[test]
fn absent_description_is_written_as_null() {
    let wire = toolchat::generation::chat::wire::encode_parameter(&text_parameter(None));
    assert_eq!(
        wire,
        WireValue::Record(vec![field("type", text("string")), field("description", WireValue::Null)])
    );
}

#[test]
fn description_may_be_absent_or_null_on_the_wire() {
    let absent = WireValue::Record(vec![field("type", text("string"))]);
    let null = WireValue::Record(vec![field("description", WireValue::Null), field("type", text("string"))]);
    assert_eq!(
        toolchat::generation::chat::wire::decode_parameter(&absent),
        Ok(text_parameter(None))
    );
    assert_eq!(toolchat::generation::chat::wire::decode_parameter(&null), Ok(text_parameter(None)));
}

#[test]
fn entries_are_found_in_any_order_and_others_passed_over() {
    let wire = WireValue::Record(vec![
        field("required", WireValue::List(vec![text("city")])),
        field("strict", WireValue::Bool(true)),
        field(
            "properties",
            WireValue::Record(vec![field("city", WireValue::Record(vec![field("type", text("string"))]))]),
        ),
        field("type", text("object")),
    ]);
    assert_eq!(
        toolchat::generation::chat::wire::decode_parameter(&wire),
        Ok(object(vec![property("city", text_parameter(None))], vec!["city"]))
    );
}

#[test]
fn decode_reports_a_missing_entry() {
    let no_type = WireValue::Record(vec![field("function", WireValue::Record(vec![]))]);
    assert_eq!(decode_tool(&no_type), Err(DecodeError::MissingField));
    let no_function = WireValue::Record(vec![field("type", text("function"))]);
    assert_eq!(decode_tool(&no_function), Err(DecodeError::MissingField));
    let no_required = WireValue::Record(vec![
        field("type", text("object")),
        field("properties", WireValue::Record(vec![])),
    ]);
    assert_eq!(
        toolchat::generation::chat::wire::decode_parameter(&no_required),
        Err(DecodeError::MissingField)
    );
}

#[test]
fn decode_reports_a_value_of_the_wrong_type() {
    let numeric_kind = WireValue::Record(vec![field("type", WireValue::Number(7))]);
    assert_eq!(decode_tool(&numeric_kind), Err(DecodeError::WrongType));
    let numeric_description =
        WireValue::Record(vec![field("type", text("string")), field("description", WireValue::Number(1))]);
    assert_eq!(
        toolchat::generation::chat::wire::decode_parameter(&numeric_description),
        Err(DecodeError::WrongType)
    );
    let required_not_text = WireValue::Record(vec![
        field("type", text("object")),
        field("properties", WireValue::Record(vec![])),
        field("required", WireValue::List(vec![WireValue::Bool(false)])),
    ]);
    assert_eq!(
        toolchat::generation::chat::wire::decode_parameter(&required_not_text),
        Err(DecodeError::WrongType)
    );
}

#[test]
fn unknown_kinds_are_kept_as_they_came() {
    let tool = WireValue::Record(vec![
        field("type", text("retrieval")),
        field("retrieval", WireValue::Record(vec![field("index", text("docs"))])),
    ]);
    let decoded = decode_tool(&tool);
    assert_eq!(decoded, Ok(RawTool::Unknown(tool.duplicate())));
    assert_eq!(decoded.as_ref().map(|t| t.validate()), Ok(Ok(())));
    assert_eq!(decoded.as_ref().map(encode_tool), Ok(tool));
    let parameter = WireValue::Record(vec![
        field("minimum", WireValue::Number(0)),
        field("type", text("number")),
    ]);
    let decoded = toolchat::generation::chat::wire::decode_parameter(&parameter);
    assert_eq!(decoded, Ok(FunctionParameter::Unknown(parameter.duplicate())));
    assert_eq!(decoded.as_ref().map(|p| p.validate()), Ok(Ok(())));
    assert_eq!(
        decoded.as_ref().map(toolchat::generation::chat::wire::encode_parameter),
        Ok(parameter)
    );
}

#[test]
fn tool_with_a_parameter_of_unknown_kind_round_trips() {
    let number = WireValue::Record(vec![field("type", text("number")), field("maximum", WireValue::Number(9))]);
    let tool = RawTool::function(
        "roll".to_string(),
        "Roll dice.".to_string(),
        object(vec![property("sides", FunctionParameter::Unknown(number))], vec!["sides"]),
    );
    assert_eq!(tool.validate(), Ok(()));
    assert_eq!(decode_tool(&encode_tool(&tool)), Ok(tool));
}

#[test]
fn known_kind_kept_as_unknown_is_refused() {
    let string = WireValue::Record(vec![field("type", text("string"))]);
    assert_eq!(FunctionParameter::Unknown(string).validate(), Err(SchemaError::MisfiledKind));
    assert_eq!(FunctionParameter::Unknown(WireValue::Null).validate(), Err(SchemaError::MisfiledKind));
    let numeric = WireValue::Record(vec![field("type", WireValue::Number(3))]);
    assert_eq!(FunctionParameter::Unknown(numeric).validate(), Err(SchemaError::MisfiledKind));
    let nested = object(
        vec![property(
            "inner",
            FunctionParameter::Unknown(WireValue::Record(vec![field("type", text("object"))])),
        )],
        vec![],
    );
    assert_eq!(nested.validate(), Err(SchemaError::MisfiledKind));
    assert!(!nested.kinds_kept());
    let function = WireValue::Record(vec![field("type", text("function"))]);
    assert_eq!(RawTool::Unknown(function).validate(), Err(SchemaError::MisfiledKind));
    assert_eq!(RawTool::Unknown(WireValue::List(vec![])).validate(), Err(SchemaError::MisfiledKind));
}

#[test]
fn copy_of_a_wire_value_is_equal_to_it() {
    let value = WireValue::Record(vec![
        field("a", WireValue::List(vec![WireValue::Null, WireValue::Bool(true), WireValue::Number(-4)])),
        field("b", WireValue::Record(vec![field("c", text("d"))])),
    ]);
    assert_eq!(value.duplicate(), value);
    assert_eq!(value.kind(), None);
    let kinded = WireValue::Record(vec![field("x", text("y")), field("type", text("z"))]);
    assert_eq!(kinded.kind().map(|k| k.as_str()), Some("z"));
}

#[test]
fn decode_bounds_the_nesting() {
    let deep = toolchat::generation::chat::wire::encode_parameter(&nested(65));
    assert_eq!(
        toolchat::generation::chat::wire::decode_parameter(&deep),
        Err(DecodeError::TooDeep)
    );
    let fine = toolchat::generation::chat::wire::encode_parameter(&nested(64));
    assert_eq!(toolchat::generation::chat::wire::decode_parameter(&fine), Ok(nested(64)));
}

#[test]
fn first_entry_with_a_key_is_the_one_found() {
    let fields = vec![field("a", text("one")), field("b", text("two")), field("a", text("three"))];
    assert_eq!(toolchat::generation::chat::value::find_field(&fields, "a"), Some(&text("one")));
    assert_eq!(toolchat::generation::chat::value::find_field(&fields, "b"), Some(&text("two")));
    assert_eq!(toolchat::generation::chat::value::find_field(&fields, "c"), None);
}
