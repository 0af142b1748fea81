use harness::json::{JsonValue, get, item, text};
use harness::schema::tool_definition_to_function_schema;
use harness::types::ToolDefinition;

fn text_at(value: Option<&JsonValue>) -> Option<String> {
    text(value)
}

#[test]
fn converts_tool_definition_to_function_schema() {
    let definition = ToolDefinition::new(
        "get_current_weather",
        "获取指定城市的当前天气情况",
        r#"{
            "type": "object",
            "properties": {
                "location": {
                    "type": "string",
                    "description": "城市或地区名称"
                },
                "unit": {
                    "type": "string",
                    "enum": ["celsius", "fahrenheit"]
                }
            },
            "required": ["location"]
        }"#,
    );

    let schema = tool_definition_to_function_schema(&definition).unwrap();
    let schema = Some(&schema);
    assert_eq!(text_at(get(schema, "type")), Some("function".into()));
    assert_eq!(
        text_at(get(get(schema, "function"), "name")),
        Some("get_current_weather".into())
    );
    assert_eq!(
        text_at(item(get(get(get(schema, "function"), "parameters"), "required"), 0)),
        Some("location".into())
    );
}

#[test]
fn rejects_invalid_parameter_schema() {
    let definition = ToolDefinition::new("broken", "Broken", "not-json");
    assert!(tool_definition_to_function_schema(&definition).is_err());
}

#[test]
fn schema_carries_the_description_and_whole_parameters() {
    let definition = ToolDefinition::new("t", "does t", "[1, 2]");
    let schema = tool_definition_to_function_schema(&definition).unwrap();
    let function = get(Some(&schema), "function");
    assert_eq!(text_at(get(function, "description")), Some("does t".into()));
    assert_eq!(
        item(get(function, "parameters"), 1),
        Some(&JsonValue::Number("2".into(), Some(2)))
    );
    match &schema {
        JsonValue::Object(members) => {
            let keys: Vec<&str> = members.iter().map(|(k, _)| k.as_str()).collect();
            assert_eq!(keys, vec!["function", "type"]);
        }
        other => panic!("not an object: {other:?}"),
    }
}
