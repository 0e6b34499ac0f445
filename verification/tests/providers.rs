use serde_json::Value;
use wire_adapters::endpoint::{
    AnthropicContentBlock, ChatCompletionFunction, ChatCompletionMessage, ChatCompletionToolCall,
};
use wire_adapters::protocol::{ContentItem, FunctionCallOutputPayload, ResponseItem};
use wire_adapters::providers::{
    convert_response_items_to_anthropic_messages, convert_response_items_to_chat_messages,
    convert_tools_to_anthropic_tools, convert_tools_to_chat_tools, create_anthropic_provider_info,
    create_chat_completions_provider_info, is_anthropic_provider, is_chat_completions_provider,
    value_or_null, WireApi, ANTHROPIC_API_KEY_ENV_VAR, ANTHROPIC_DEFAULT_BASE_URL,
    ANTHROPIC_PROVIDER_ID, DEFAULT_ANTHROPIC_MAX_TOKENS,
};

fn value(text: &str) -> Value {
    serde_json::from_str(text).unwrap()
}

fn text(text: &str) -> ContentItem {
    ContentItem::InputText { text: text.to_string() }
}

fn picture() -> ContentItem {
    ContentItem::InputImage { image_url: "u".to_string(), detail: None }
}

fn message(role: &str, content: Vec<ContentItem>) -> ResponseItem {
    ResponseItem::Message { id: None, role: role.to_string(), content, phase: None }
}

fn call(arguments: &str) -> ResponseItem {
    ResponseItem::FunctionCall {
        id: None,
        name: "f".to_string(),
        namespace: None,
        arguments: arguments.to_string(),
        call_id: "1".to_string(),
    }
}

fn plain(role: &str, content: &str) -> ChatCompletionMessage {
    ChatCompletionMessage {
        role: role.to_string(),
        content: content.to_string(),
        name: None,
        tool_calls: None,
    }
}

fn calling(id: &str, name: &str, arguments: &str) -> ChatCompletionMessage {
    ChatCompletionMessage {
        role: "assistant".to_string(),
        content: String::new(),
        name: None,
        tool_calls: Some(vec![ChatCompletionToolCall {
            id: id.to_string(),
            tool_type: "function".to_string(),
            function: ChatCompletionFunction {
                name: name.to_string(),
                arguments: arguments.to_string(),
            },
        }]),
    }
}

#[test]
fn the_anthropic_provider_has_defaults() {
    let provider = create_anthropic_provider_info(None, None, Some("env".to_string()));
    assert_eq!(provider.name, "Anthropic");
    assert_eq!(provider.base_url.as_deref(), Some(ANTHROPIC_DEFAULT_BASE_URL));
    assert_eq!(provider.env_key.as_deref(), Some("env"));
    assert_eq!(
        provider.env_key_instructions.as_deref(),
        Some("Set the ANTHROPIC_API_KEY environment variable with your Anthropic API key.")
    );
    assert_eq!(
        provider.http_headers,
        Some(vec![("anthropic-version".to_string(), "2023-06-01".to_string())])
    );
    assert_eq!(provider.request_max_retries, Some(4));
    assert_eq!(provider.stream_max_retries, Some(5));
    assert_eq!(provider.stream_idle_timeout_ms, Some(300_000));
    assert!(is_anthropic_provider(&provider));
    assert!(!is_chat_completions_provider(&provider));
    assert_eq!(ANTHROPIC_API_KEY_ENV_VAR, "ANTHROPIC_API_KEY");
    assert_eq!(ANTHROPIC_PROVIDER_ID, "anthropic");
    assert_eq!(DEFAULT_ANTHROPIC_MAX_TOKENS, 4096);
}

#[test]
fn what_is_handed_in_comes_first() {
    let provider = create_anthropic_provider_info(
        Some("base".to_string()),
        Some("key".to_string()),
        Some("env".to_string()),
    );
    assert_eq!(provider.base_url.as_deref(), Some("base"));
    assert_eq!(provider.env_key.as_deref(), Some("key"));
}

#[test]
fn a_chat_provider_is_one() {
    let provider = create_chat_completions_provider_info(Some("base".to_string()), None);
    assert_eq!(provider.name, "Chat Completions");
    assert_eq!(provider.base_url.as_deref(), Some("base"));
    assert_eq!(provider.env_key, None);
    assert_eq!(provider.wire_api, WireApi::ChatCompletions);
    assert!(is_chat_completions_provider(&provider));
    assert!(!is_anthropic_provider(&provider));
}

#[test]
fn items_become_chat_messages() {
    let messages = convert_response_items_to_chat_messages(
        "be brief",
        &[
            message("developer", vec![text("a"), picture(), text("b")]),
            message("user", vec![picture()]),
            call("{"),
            ResponseItem::FunctionCallOutput {
                call_id: "1".to_string(),
                output: FunctionCallOutputPayload::from_text("ok".to_string()),
            },
            ResponseItem::CustomToolCall {
                call_id: "2".to_string(),
                name: "g".to_string(),
                input: "free".to_string(),
            },
            ResponseItem::CustomToolCallOutput {
                call_id: "2".to_string(),
                name: Some("g".to_string()),
                output: FunctionCallOutputPayload { display: "d".to_string(), text: None },
            },
            ResponseItem::CustomToolCallOutput {
                call_id: "3".to_string(),
                name: None,
                output: FunctionCallOutputPayload::from_text("x".to_string()),
            },
            ResponseItem::Other,
        ],
    );
    assert_eq!(
        messages,
        vec![
            plain("system", "be brief"),
            plain("developer", "a\nb"),
            calling("1", "f", "{"),
            plain("tool", "1: ok"),
            calling("2", "g", "free"),
            plain("tool", "g: "),
            plain("tool", "3: x"),
        ]
    );
    assert_eq!(convert_response_items_to_chat_messages("", &[]), vec![]);
}

#[test]
fn conversations_go_on_item_by_item() {
    let first = [message("user", vec![text("a")])];
    let second = [call("{}")];
    let both = [message("user", vec![text("a")]), call("{}")];
    let mut parts = convert_response_items_to_chat_messages("", &first);
    parts.extend(convert_response_items_to_chat_messages("", &second));
    assert_eq!(parts, convert_response_items_to_chat_messages("", &both));
}

#[test]
fn items_become_anthropic_messages() {
    let (system, messages) = convert_response_items_to_anthropic_messages(
        "be brief",
        &[
            message("developer", vec![text("left out")]),
            message("user", vec![text("a"), picture(), text("b")]),
            message("assistant", vec![picture()]),
            call("{\"x\":1}"),
            call("not json"),
            ResponseItem::FunctionCallOutput {
                call_id: "1".to_string(),
                output: FunctionCallOutputPayload::from_text("ok".to_string()),
            },
            ResponseItem::CustomToolCall {
                call_id: "2".to_string(),
                name: "g".to_string(),
                input: "free".to_string(),
            },
        ],
    );
    assert_eq!(system.as_deref(), Some("be brief"));
    let roles: Vec<&str> = messages.iter().map(|message| message.role.as_str()).collect();
    assert_eq!(roles, vec!["user", "assistant", "assistant", "user"]);
    assert!(matches!(
        &messages[0].content[..],
        [AnthropicContentBlock::Text { text: a }, AnthropicContentBlock::Text { text: b }]
            if a == "a" && b == "b"
    ));
    assert!(matches!(
        &messages[1].content[..],
        [AnthropicContentBlock::ToolUse { id, name, input }]
            if id == "1" && name == "f" && *input == value("{\"x\":1}")
    ));
    assert!(matches!(
        &messages[2].content[..],
        [AnthropicContentBlock::ToolUse { input: Value::Null, .. }]
    ));
    assert!(matches!(
        &messages[3].content[..],
        [AnthropicContentBlock::ToolResult { tool_use_id, content, is_error: None }]
            if tool_use_id == "1" && *content == value("{\"type\":\"text\",\"text\":\"ok\"}")
    ));
    let (system, messages) = convert_response_items_to_anthropic_messages("", &[]);
    assert_eq!(system, None);
    assert!(messages.is_empty());
}

#[test]
fn what_could_not_be_read_is_null() {
    assert_eq!(value_or_null(None), Value::Null);
    assert_eq!(value_or_null(Some(Value::Bool(true))), Value::Bool(true));
}

#[test]
fn tools_become_chat_tools_once() {
    let tools = [
        value("{\"type\":\"function\",\"function\":{\"name\":\"f\"}}"),
        value("{\"name\":\"g\"}"),
        value("[1]"),
    ];
    let converted = convert_tools_to_chat_tools(&tools).unwrap();
    assert_eq!(
        converted,
        vec![
            value("{\"type\":\"function\",\"function\":{\"name\":\"f\"}}"),
            value("{\"type\":\"function\",\"function\":{\"name\":\"g\"}}"),
        ]
    );
    assert_eq!(convert_tools_to_chat_tools(&converted), Some(converted.clone()));
    assert_eq!(convert_tools_to_chat_tools(&[Value::Null]), None);
}

#[test]
fn tools_become_anthropic_tools() {
    let tools = [
        value(
            "{\"function\":{\"name\":\"f\",\"description\":\"F\",
              \"parameters\":{\"type\":\"string\"}}}",
        ),
        value("{\"function\":{\"name\":\"g\",\"description\":7}}"),
        value("{\"function\":{\"name\":7}}"),
        value("{\"function\":\"h\"}"),
        value("{\"name\":\"i\"}"),
        value("3"),
    ];
    let converted = convert_tools_to_anthropic_tools(&tools);
    assert_eq!(converted.len(), 2);
    assert_eq!(converted[0].name, "f");
    assert_eq!(converted[0].description.as_deref(), Some("F"));
    assert_eq!(converted[0].input_schema, value("{\"type\":\"string\"}"));
    assert_eq!(converted[1].name, "g");
    assert_eq!(converted[1].description, None);
    assert_eq!(
        converted[1].input_schema,
        value("{\"type\":\"object\",\"properties\":{}}")
    );
}
