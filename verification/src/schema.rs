//! The function-tool schema that OpenAI-compatible model providers expect.
//!
//! `parameters_schema` stays a JSON string at the harness boundary, so that
//! callers can supply provider-neutral JSON Schema without tying the core
//! types to a schema model; it is parsed only here.
use vstd::prelude::*;

use crate::json::{JsonValue, is_text, json_parse, parse_json_value, string_value};
use crate::types::ToolDefinition;

verus! {

/// Whether `v` is the function-tool schema
/// `{"function": {"description": description, "name": name, "parameters": parameters}, "type": "function"}`,
/// members in key order.
pub open spec fn is_function_schema(
    v: JsonValue,
    name: Seq<char>,
    description: Seq<char>,
    parameters: JsonValue,
) -> bool {
    &&& v matches JsonValue::Object(top)
    &&& top@.len() == 2
    &&& top@[0].0@ == "function"@
    &&& top@[0].1 matches JsonValue::Object(f)
    &&& f@.len() == 3
    &&& f@[0].0@ == "description"@ && is_text(f@[0].1, description)
    &&& f@[1].0@ == "name"@ && is_text(f@[1].1, name)
    &&& f@[2].0@ == "parameters"@ && f@[2].1 == parameters
    &&& top@[1].0@ == "type"@ && is_text(top@[1].1, "function"@)
}

/// Converts a tool definition into the function-tool schema, whose
/// `parameters` is the parsed `parameters_schema`. Fails exactly when
/// `parameters_schema` is not JSON, with serde_json's error.
pub fn tool_definition_to_function_schema(definition: &ToolDefinition) -> (r: Result<
    JsonValue,
    serde_json::Error,
>)
    ensures
        (r is Ok) == (json_parse(definition.parameters_schema@) is Some),
        r matches Ok(v) ==> is_function_schema(
            v,
            definition.name@,
            definition.description@,
            json_parse(definition.parameters_schema@)->Some_0,
        ),
{
    let parameters = match parse_json_value(definition.parameters_schema.as_str()) {
        Ok(value) => value,
        Err(error) => return Err(error),
    };
    let mut function: Vec<(String, JsonValue)> = Vec::new();
    function.push(("description".to_owned(), string_value(definition.description.as_str())));
    function.push(("name".to_owned(), string_value(definition.name.as_str())));
    function.push(("parameters".to_owned(), parameters));
    let mut schema: Vec<(String, JsonValue)> = Vec::new();
    schema.push(("function".to_owned(), JsonValue::Object(function)));
    schema.push(("type".to_owned(), string_value("function")));
    let r = JsonValue::Object(schema);
    proof {
        reveal_strlit("function");
        reveal_strlit("type");
        reveal_strlit("description");
        reveal_strlit("name");
        reveal_strlit("parameters");
    }
    Ok(r)
}

} // verus!
