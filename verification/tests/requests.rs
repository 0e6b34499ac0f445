use http::{HeaderMap, HeaderValue};
use serde_json::Value;
use wire_adapters::endpoint::{
    anthropic_encode_error, anthropic_path, chat_completions_encode_error, chat_completions_path,
    request_compression, AnthropicContentBlock, AnthropicMessage, AnthropicMessagesRequest,
    ChatCompletionMessage, ChatCompletionsApiRequest, Compression, RequestCompression,
};
use wire_adapters::headers::{
    accept_event_stream, anthropic_request_id, chat_request_id, prepare_anthropic_headers,
};
use wire_adapters::protocol::ApiError;

#[test]
fn anthropic_creates_basic_request() {
    let messages = vec![AnthropicMessage {
        role: "user".to_string(),
        content: vec![AnthropicContentBlock::text("Hello!".to_string())],
    }];

    let request = AnthropicMessagesRequest::new(
        "3-5-sonnet-20241022".to_string(),
        messages,
        1024,
    );

    assert_eq!(request.model, "3-5-sonnet-20241022");
    assert_eq!(request.messages.len(), 1);
    assert_eq!(request.max_tokens, 1024);
    assert!(request.stream);
}

#[test]
fn creates_text_content_block() {
    let block = AnthropicContentBlock::text("Hello".to_string());
    assert!(matches!(block, AnthropicContentBlock::Text { .. }));
}

#[test]
fn chat_completions_creates_basic_request() {
    let messages = vec![
        ChatCompletionMessage {
            role: "system".to_string(),
            content: "You are a helpful assistant.".to_string(),
            name: None,
            tool_calls: None,
        },
        ChatCompletionMessage {
            role: "user".to_string(),
            content: "Hello!".to_string(),
            name: None,
            tool_calls: None,
        },
    ];

    let request = ChatCompletionsApiRequest::new("gpt-4".to_string(), messages);

    assert_eq!(request.model, "gpt-4");
    assert_eq!(request.messages.len(), 2);
    assert!(request.stream);
}

#[test]
fn new_requests_leave_the_rest_open() {
    let request = ChatCompletionsApiRequest::new("m".to_string(), vec![]);
    assert!(request.temperature.is_none() && request.tools.is_none() && request.user.is_none());
    let request = AnthropicMessagesRequest::new("m".to_string(), vec![], 1);
    assert!(request.system.is_none() && request.thinking.is_none() && request.top_k.is_none());
}

#[test]
fn tool_blocks_hold_what_they_are_made_of() {
    let block =
        AnthropicContentBlock::tool_use("i".to_string(), "n".to_string(), Value::Bool(true));
    assert!(matches!(
        block,
        AnthropicContentBlock::ToolUse { id, name, input: Value::Bool(true) }
            if id == "i" && name == "n"
    ));
    let block = AnthropicContentBlock::tool_result("i".to_string(), Value::Null);
    assert!(matches!(
        block,
        AnthropicContentBlock::ToolResult { tool_use_id, content: Value::Null, is_error: None }
            if tool_use_id == "i"
    ));
}

#[test]
fn requests_go_to_their_places() {
    assert_eq!(anthropic_path(), "messages");
    assert_eq!(chat_completions_path(), "chat/completions");
    assert_eq!(request_compression(Compression::default()), RequestCompression::Plain);
    assert_eq!(request_compression(Compression::Zstd), RequestCompression::Zstd);
}

#[test]
fn requests_that_cannot_be_encoded_are_errors() {
    assert_eq!(
        anthropic_encode_error("why"),
        ApiError::Stream("failed to encode anthropic request: why".to_string())
    );
    assert_eq!(
        chat_completions_encode_error("why"),
        ApiError::Stream("failed to encode chat completions request: why".to_string())
    );
}

#[test]
fn anthropic_headers_are_set() {
    let mut extra = HeaderMap::new();
    extra.append("accept", HeaderValue::from_static("a"));
    extra.append("accept", HeaderValue::from_static("b"));
    extra.append("x-other", HeaderValue::from_static("kept"));
    let headers = prepare_anthropic_headers(extra).unwrap();
    assert_eq!(headers.len(), 4);
    assert_eq!(headers["content-type"], "application/json");
    assert_eq!(headers["anthropic-version"], "2023-06-01");
    assert_eq!(headers["accept"], "text/event-stream");
    assert_eq!(headers["x-other"], "kept");
    assert_eq!(headers.get_all("accept").iter().count(), 1);
}

#[test]
fn chat_headers_ask_for_events() {
    let mut headers = HeaderMap::new();
    assert!(accept_event_stream(&mut headers));
    assert_eq!(headers["accept"], "text/event-stream");
}

#[test]
fn headers_of_very_many_names_are_left_alone() {
    let mut headers = HeaderMap::new();
    for i in 0..24_576 {
        let name = http::HeaderName::from_bytes(format!("x-{i}").as_bytes()).unwrap();
        headers.insert(name, HeaderValue::from_static("v"));
    }
    assert!(!accept_event_stream(&mut headers));
    assert_eq!(headers.len(), 24_576);
    assert!(headers.get("accept").is_none());
    assert!(prepare_anthropic_headers(headers).is_none());
}

#[test]
fn request_ids_are_read_from_headers() {
    let mut headers = HeaderMap::new();
    assert_eq!(chat_request_id(&headers), None);
    headers.append("X-Request-Id", HeaderValue::from_static("one"));
    headers.append("x-request-id", HeaderValue::from_static("two"));
    headers.append("request-id", HeaderValue::from_static("three"));
    assert_eq!(chat_request_id(&headers), Some("one".to_string()));
    assert_eq!(anthropic_request_id(&headers), Some("three".to_string()));
    headers.insert("request-id", HeaderValue::from_bytes(&[0xe4, 0xbd]).unwrap());
    assert_eq!(anthropic_request_id(&headers), None);
}
