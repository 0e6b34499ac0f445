use serde_json::Value;
use wire_adapters::anthropic_wire::{
    append_anthropic_messages_for_item, build_anthropic_messages_request, parse_json_or_raw,
    push_anthropic_message, value_or_raw,
};
use wire_adapters::chat_wire::{
    build_chat_completions_request, chat_content_for_items, chat_message_role,
    chat_reasoning_text, chat_system_content_for_items, local_shell_arguments,
    ChatCompletionsRequestOptions, ChatMessageBuilder,
};
use wire_adapters::prompt::{
    BaseInstructions, EncodeError, ModelInfo, Prompt, ReasoningEffort, ResponsesApiNamespace,
    ResponsesApiNamespaceTool, ResponsesApiTool, ToolSpec,
};
use wire_adapters::protocol::{
    ContentItem, FunctionCallOutputPayload, LocalShellAction, LocalShellExecAction,
    ReasoningItemContent, ReasoningItemReasoningSummary, ResponseItem,
};

fn value(text: &str) -> Value {
    serde_json::from_str(text).unwrap()
}

fn input(text: &str) -> ContentItem {
    ContentItem::InputText { text: text.to_string() }
}

fn output(text: &str) -> ContentItem {
    ContentItem::OutputText { text: text.to_string() }
}

fn image(url: &str, detail: Option<&str>) -> ContentItem {
    ContentItem::InputImage {
        image_url: url.to_string(),
        detail: detail.map(str::to_string),
    }
}

fn message(role: &str, content: Vec<ContentItem>) -> ResponseItem {
    ResponseItem::Message { id: None, role: role.to_string(), content, phase: None }
}

fn function_call(id: &str, name: &str, arguments: &str) -> ResponseItem {
    ResponseItem::FunctionCall {
        id: Some(id.to_string()),
        name: name.to_string(),
        namespace: None,
        arguments: arguments.to_string(),
        call_id: id.to_string(),
    }
}

fn function_output(id: &str, text: &str) -> ResponseItem {
    ResponseItem::FunctionCallOutput {
        call_id: id.to_string(),
        output: FunctionCallOutputPayload::from_text(text.to_string()),
    }
}

fn reasoning(text: &str) -> ResponseItem {
    ResponseItem::Reasoning {
        id: "reasoning-1".to_string(),
        summary: Vec::new(),
        content: Some(vec![ReasoningItemContent::ReasoningText { text: text.to_string() }]),
        encrypted_content: None,
    }
}

fn exec(command: &[&str], workdir: Option<&str>, timeout_ms: Option<u64>) -> LocalShellAction {
    LocalShellAction::Exec(LocalShellExecAction {
        command: command.iter().map(|part| part.to_string()).collect(),
        timeout_ms,
        working_directory: workdir.map(str::to_string),
    })
}

fn tool(name: &str, parameters: Result<Value, EncodeError>) -> ResponsesApiTool {
    ResponsesApiTool {
        name: name.to_string(),
        description: "Do work.".to_string(),
        strict: false,
        defer_loading: None,
        parameters,
        output_schema: None,
    }
}

fn schema() -> Value {
    value("{\"type\":\"object\",\"properties\":{},\"required\":[],\"additionalProperties\":false}")
}

/// A model of which nothing but its name is known.
fn model(slug: &str) -> ModelInfo {
    ModelInfo {
        slug: slug.to_string(),
        supported_reasoning_levels: Vec::new(),
        default_reasoning_level: None,
    }
}

#[test]
fn chat_message_role_maps_developer_to_system() {
    assert_eq!(chat_message_role("developer"), "system");
    assert_eq!(chat_message_role("user"), "user");
    assert_eq!(chat_message_role("assistant"), "assistant");
}

#[test]
fn chat_messages_use_system_role_for_developer_items() {
    let mut builder = ChatMessageBuilder::new(/*preserve_reasoning_content*/ false);

    builder.append(&ResponseItem::Message {
        id: None,
        role: "developer".to_string(),
        content: vec![ContentItem::InputText {
            text: "follow the rules".to_string(),
        }],
        phase: None,
    });
    let (messages, system_messages) = builder.finish();

    assert_eq!(messages, Vec::<serde_json::Value>::new());
    assert_eq!(system_messages, vec!["follow the rules".to_string()]);
}

#[test]
fn build_chat_request_coalesces_system_messages() {
    let mut prompt = Prompt::default();
    prompt.base_instructions.text = "base".to_string();
    prompt.input = vec![
        message("developer", vec![input("developer")]),
        message("user", vec![input("hello")]),
    ];
    let model_info = model("test-model");

    let request = build_chat_completions_request(
        &prompt,
        &model_info,
        None,
        ChatCompletionsRequestOptions::default(),
    )
    .unwrap();

    assert_eq!(
        request.messages,
        vec![
            value("{\"role\":\"system\",\"content\":\"base\\n\\ndeveloper\"}"),
            value("{\"role\":\"user\",\"content\":\"hello\"}"),
        ]
    );
}

#[test]
fn build_chat_request_preserves_deepseek_reasoning_for_tool_calls() {
    let mut prompt = Prompt::default();
    prompt.base_instructions.text.clear();
    prompt.input = vec![
        message("user", vec![input("run both")]),
        reasoning("need two tool calls"),
        function_call("call_1", "first", "{\"a\":1}"),
        function_call("call_2", "second", "{\"b\":2}"),
        function_output("call_1", "ok 1"),
        function_output("call_2", "ok 2"),
    ];
    let model_info = model("deepseek-v4");

    let request = build_chat_completions_request(
        &prompt,
        &model_info,
        None,
        ChatCompletionsRequestOptions {
            preserve_reasoning_content: true,
            ..Default::default()
        },
    )
    .unwrap();

    assert_eq!(
        request.messages,
        vec![
            value("{\"role\":\"user\",\"content\":\"run both\"}"),
            value(
                "{\"role\":\"assistant\",\"content\":null,
                  \"reasoning_content\":\"need two tool calls\",
                  \"tool_calls\":[
                    {\"id\":\"call_1\",\"type\":\"function\",
                     \"function\":{\"name\":\"first\",\"arguments\":\"{\\\"a\\\":1}\"}},
                    {\"id\":\"call_2\",\"type\":\"function\",
                     \"function\":{\"name\":\"second\",\"arguments\":\"{\\\"b\\\":2}\"}}]}"
            ),
            value("{\"role\":\"tool\",\"tool_call_id\":\"call_1\",\"content\":\"ok 1\"}"),
            value("{\"role\":\"tool\",\"tool_call_id\":\"call_2\",\"content\":\"ok 2\"}"),
        ]
    );
}

#[test]
fn build_chat_request_omits_optional_compat_fields_by_default() {
    let mut prompt = Prompt::default();
    prompt.base_instructions.text.clear();
    prompt.tools = vec![ToolSpec::Function(tool("do_work", Ok(schema())))];
    let model_info = model("test-model");

    let request = build_chat_completions_request(
        &prompt,
        &model_info,
        Some(ReasoningEffort::High),
        ChatCompletionsRequestOptions::default(),
    )
    .unwrap();
    let body = request.body();

    assert_eq!(request.tool_choice, None);
    assert_eq!(request.parallel_tool_calls, None);
    assert_eq!(request.reasoning_effort, None);
    assert!(body.get("tool_choice").is_none());
    assert!(body.get("parallel_tool_calls").is_none());
    assert!(body.get("reasoning_effort").is_none());

    prompt.parallel_tool_calls = true;
    let request = build_chat_completions_request(
        &prompt,
        &model_info,
        None,
        ChatCompletionsRequestOptions::default(),
    )
    .unwrap();

    assert_eq!(request.parallel_tool_calls, Some(true));
}

#[test]
fn a_chat_request_holds_all_that_is_set() {
    let mut prompt = Prompt::default();
    prompt.parallel_tool_calls = true;
    prompt.tools = vec![ToolSpec::Function(tool("do_work", Ok(schema())))];
    prompt.output_schema = Some(value("{\"type\":\"string\"}"));
    prompt.output_schema_strict = false;
    let model_info = ModelInfo {
        slug: "m".to_string(),
        supported_reasoning_levels: vec![ReasoningEffort::Low],
        default_reasoning_level: Some(ReasoningEffort::Medium),
    };
    let options = ChatCompletionsRequestOptions {
        service_tier: Some("flex".to_string()),
        preserve_reasoning_content: false,
    };
    let request =
        build_chat_completions_request(&prompt, &model_info, Some(ReasoningEffort::XHigh), options)
            .unwrap();
    assert_eq!(
        request.body(),
        value(
            "{\"model\":\"m\",\"messages\":[],\"parallel_tool_calls\":true,
              \"tools\":[{\"type\":\"function\",\"function\":{\"name\":\"do_work\",
                \"description\":\"Do work.\",\"parameters\":{\"type\":\"object\",
                \"properties\":{},\"required\":[],\"additionalProperties\":false}}}],
              \"stream\":true,\"reasoning_effort\":\"xhigh\",
              \"response_format\":{\"type\":\"json_schema\",\"json_schema\":{
                \"name\":\"codex_output_schema\",\"strict\":false,
                \"schema\":{\"type\":\"string\"}}},
              \"service_tier\":\"flex\"}"
        )
    );
    let request = build_chat_completions_request(
        &prompt,
        &model_info,
        None,
        ChatCompletionsRequestOptions::default(),
    )
    .unwrap();
    assert_eq!(request.reasoning_effort, Some(ReasoningEffort::Medium));
    assert_eq!(ReasoningEffort::Off.name(), "none");
}

#[test]
fn tools_without_functions_allow_no_parallel_calls() {
    let mut prompt = Prompt::default();
    prompt.parallel_tool_calls = true;
    prompt.tools = vec![
        ToolSpec::WebSearch,
        ToolSpec::Freeform,
        ToolSpec::ToolSearch,
        ToolSpec::ImageGeneration,
    ];
    let request = build_chat_completions_request(
        &prompt,
        &model("m"),
        None,
        ChatCompletionsRequestOptions::default(),
    )
    .unwrap();
    assert_eq!(request.parallel_tool_calls, None);
    assert_eq!(request.tools, Vec::<Value>::new());
}

#[test]
fn functions_of_namespaces_stand_in_their_order() {
    let mut prompt = Prompt::default();
    prompt.tools = vec![
        ToolSpec::Function(tool("a", Ok(Value::Null))),
        ToolSpec::Namespace(ResponsesApiNamespace {
            name: "n".to_string(),
            description: "N".to_string(),
            tools: vec![
                ResponsesApiNamespaceTool::Function(tool("b", Ok(Value::Null))),
                ResponsesApiNamespaceTool::Function(tool("c", Ok(Value::Null))),
            ],
        }),
        ToolSpec::Function(tool("d", Ok(Value::Null))),
    ];
    let request = build_anthropic_messages_request(&prompt, &model("m")).unwrap();
    let names: Vec<&str> =
        request.tools.iter().map(|tool| tool["name"].as_str().unwrap()).collect();
    assert_eq!(names, vec!["a", "b", "c", "d"]);
}

#[test]
fn the_first_tool_without_a_schema_fails_a_request() {
    let failure = |text: &str| EncodeError { message: text.to_string() };
    let mut prompt = Prompt::default();
    prompt.tools = vec![
        ToolSpec::Function(tool("a", Ok(schema()))),
        ToolSpec::Function(tool("b", Err(failure("first")))),
        ToolSpec::Function(tool("c", Err(failure("second")))),
    ];
    let chat = build_chat_completions_request(
        &prompt,
        &model("m"),
        None,
        ChatCompletionsRequestOptions::default(),
    );
    assert_eq!(chat.unwrap_err(), failure("first"));
    let anthropic = build_anthropic_messages_request(&prompt, &model("m"));
    assert_eq!(anthropic.unwrap_err(), failure("first"));
}

#[test]
fn reasoning_that_leads_to_no_call_is_dropped() {
    let mut builder = ChatMessageBuilder::new(true);
    builder.append(&reasoning("a"));
    builder.append(&message("user", vec![input("b")]));
    builder.append(&function_call("c", "f", "{}"));
    builder.append(&reasoning("d"));
    builder.append(&reasoning("e"));
    builder.append(&function_call("g", "f", "{}"));
    let (messages, _) = builder.finish();
    assert_eq!(messages.len(), 3);
    assert_eq!(messages[1].get("reasoning_content"), None);
    assert_eq!(messages[1]["tool_calls"][0]["id"], "c");
    assert_eq!(messages[2]["reasoning_content"], "d\ne");
    assert_eq!(messages[2]["tool_calls"][0]["id"], "g");
}

#[test]
fn reasoning_is_not_kept_unless_asked_for() {
    let mut builder = ChatMessageBuilder::new(false);
    builder.append(&reasoning("a"));
    builder.append(&function_call("c", "f", "{}"));
    let (messages, _) = builder.finish();
    assert_eq!(messages.len(), 1);
    assert_eq!(messages[0].get("reasoning_content"), None);
}

#[test]
fn pending_reasoning_is_joined_by_lines() {
    let mut builder = ChatMessageBuilder::new(true);
    builder.append_pending_reasoning_content("");
    builder.append_pending_reasoning_content("a");
    builder.append_pending_reasoning_content("b");
    assert_eq!(builder.pending_reasoning_content.as_deref(), Some("a\nb"));
    builder.flush_pending_tool_calls();
    assert_eq!(builder.pending_reasoning_content, None);
    assert_eq!(builder.messages, Vec::<Value>::new());
}

#[test]
fn system_content_notes_images() {
    assert_eq!(
        chat_system_content_for_items(&[input("a"), image("u", None), output("b")]),
        Some("a\n[Image omitted: u]b".to_string())
    );
    assert_eq!(
        chat_system_content_for_items(&[image("u", None)]),
        Some("[Image omitted: u]".to_string())
    );
    assert_eq!(chat_system_content_for_items(&[input("")]), None);
    assert_eq!(chat_system_content_for_items(&[]), None);
}

#[test]
fn chat_content_is_text_or_parts() {
    assert_eq!(chat_content_for_items(&[]), None);
    assert_eq!(
        chat_content_for_items(&[input("a"), output("b")]),
        Some(Value::String("ab".to_string()))
    );
    assert_eq!(
        chat_content_for_items(&[input("a"), image("u", Some("high")), image("v", None)]),
        Some(value(
            "[{\"type\":\"text\",\"text\":\"a\"},
              {\"type\":\"image_url\",\"image_url\":{\"url\":\"u\",\"detail\":\"high\"}},
              {\"type\":\"image_url\",\"image_url\":{\"url\":\"v\"}}]"
        ))
    );
}

#[test]
fn reasoning_text_is_the_content_or_the_summary() {
    let summary = vec![
        ReasoningItemReasoningSummary::SummaryText { text: "s".to_string() },
        ReasoningItemReasoningSummary::SummaryText { text: "t".to_string() },
    ];
    let content = Some(vec![
        ReasoningItemContent::ReasoningText { text: "a".to_string() },
        ReasoningItemContent::Text { text: "b".to_string() },
    ]);
    assert_eq!(chat_reasoning_text(&summary, &content), Some("ab".to_string()));
    assert_eq!(chat_reasoning_text(&summary, &Some(vec![])), Some("st".to_string()));
    assert_eq!(chat_reasoning_text(&vec![], &None), None);
}

#[test]
fn shell_commands_are_calls_with_their_arguments() {
    let action = exec(&["ls", "-l"], Some("/tmp"), Some(1500));
    let text = local_shell_arguments(&action);
    assert_eq!(
        text,
        "{\"command\":[\"ls\",\"-l\"],\"timeout_ms\":1500,\"workdir\":\"/tmp\"}"
    );
    let mut builder = ChatMessageBuilder::new(false);
    builder.append(&ResponseItem::LocalShellCall {
        id: Some("item".to_string()),
        call_id: None,
        action: exec(&["ls", "-l"], Some("/tmp"), Some(1500)),
    });
    builder.append(&ResponseItem::LocalShellCall {
        id: None,
        call_id: None,
        action: exec(&[], None, None),
    });
    let (messages, _) = builder.finish();
    assert_eq!(messages[0]["tool_calls"][0]["id"], "item");
    assert_eq!(messages[0]["tool_calls"][0]["function"]["arguments"], text);
    assert_eq!(messages[0]["tool_calls"][1]["id"], "local_shell");
    assert_eq!(
        messages[0]["tool_calls"][1]["function"]["arguments"],
        "{\"command\":[],\"timeout_ms\":null,\"workdir\":null}"
    );
    let mut messages = Vec::new();
    append_anthropic_messages_for_item(
        &mut messages,
        &ResponseItem::LocalShellCall {
            id: Some("item".to_string()),
            call_id: Some("call".to_string()),
            action,
        },
    );
    assert_eq!(
        messages,
        vec![value(
            "{\"role\":\"assistant\",\"content\":[{\"type\":\"tool_use\",\"id\":\"call\",
              \"name\":\"local_shell\",\"input\":{\"command\":[\"ls\",\"-l\"],
              \"workdir\":\"/tmp\",\"timeout_ms\":1500}}]}"
        )]
    );
}

#[test]
fn arguments_are_parsed_or_kept_raw() {
    assert_eq!(parse_json_or_raw("{\"a\": 1}"), value("{\"a\":1}"));
    assert_eq!(parse_json_or_raw("not json"), value("{\"raw\":\"not json\"}"));
    assert_eq!(value_or_raw(Some(Value::Bool(true)), "x"), Value::Bool(true));
    assert_eq!(value_or_raw(None, "x"), value("{\"raw\":\"x\"}"));
}

#[test]
fn anthropic_messages_take_turns() {
    let mut prompt = Prompt::default();
    prompt.base_instructions = BaseInstructions { text: "be brief".to_string() };
    prompt.input = vec![
        message("developer", vec![input("a")]),
        message("user", vec![input("b"), image("u", None)]),
        message("assistant", vec![]),
        reasoning("left out"),
        message("assistant", vec![output("c"), image("v", None)]),
        function_call("1", "f", "{\"x\":2}"),
        ResponseItem::CustomToolCall {
            call_id: "2".to_string(),
            name: "g".to_string(),
            input: "free".to_string(),
        },
        ResponseItem::WebSearchCall,
        function_output("1", "r"),
        ResponseItem::CustomToolCallOutput {
            call_id: "2".to_string(),
            name: None,
            output: FunctionCallOutputPayload { display: "[shown]".to_string(), text: None },
        },
    ];
    prompt.tools = vec![ToolSpec::Function(tool("f", Ok(Value::Bool(true))))];
    let request = build_anthropic_messages_request(&prompt, &model("m")).unwrap();
    assert_eq!(
        request.body(),
        value(
            "{\"model\":\"m\",\"max_tokens\":4096,\"system\":\"be brief\",\"stream\":true,
              \"tools\":[{\"name\":\"f\",\"description\":\"Do work.\",\"input_schema\":true}],
              \"messages\":[
                {\"role\":\"user\",\"content\":[
                  {\"type\":\"text\",\"text\":\"a\"},
                  {\"type\":\"text\",\"text\":\"b\"},
                  {\"type\":\"text\",\"text\":\"[User provided image: u]\"}]},
                {\"role\":\"assistant\",\"content\":[
                  {\"type\":\"text\",\"text\":\"c\"},
                  {\"type\":\"text\",\"text\":\"[Image omitted: v]\"},
                  {\"type\":\"tool_use\",\"id\":\"1\",\"name\":\"f\",\"input\":{\"x\":2}},
                  {\"type\":\"tool_use\",\"id\":\"2\",\"name\":\"g\",
                   \"input\":{\"raw\":\"free\"}}]},
                {\"role\":\"user\",\"content\":[
                  {\"type\":\"tool_result\",\"tool_use_id\":\"1\",\"content\":\"r\"},
                  {\"type\":\"tool_result\",\"tool_use_id\":\"2\",
                   \"content\":\"[shown]\"}]}]}"
        )
    );
}

#[test]
fn blocks_join_only_a_list_of_blocks() {
    let mut messages = vec![value("{\"role\":\"user\",\"content\":\"text\"}")];
    push_anthropic_message(&mut messages, "user", vec![]);
    assert_eq!(messages.len(), 1);
    push_anthropic_message(&mut messages, "user", vec![Value::Null]);
    assert_eq!(messages[1], value("{\"role\":\"user\",\"content\":[null]}"));
    push_anthropic_message(&mut messages, "user", vec![Value::Bool(true)]);
    assert_eq!(messages[1], value("{\"role\":\"user\",\"content\":[null,true]}"));
    push_anthropic_message(&mut messages, "assistant", vec![Value::Null]);
    assert_eq!(messages.len(), 3);
}

#[test]
fn custom_calls_and_outputs_stand_in_chats_too() {
    let mut builder = ChatMessageBuilder::new(false);
    builder.append(&ResponseItem::CustomToolCall {
        call_id: "2".to_string(),
        name: "g".to_string(),
        input: "free".to_string(),
    });
    builder.append(&ResponseItem::Other);
    builder.append(&ResponseItem::CustomToolCallOutput {
        call_id: "2".to_string(),
        name: Some("g".to_string()),
        output: FunctionCallOutputPayload { display: "[shown]".to_string(), text: None },
    });
    let (messages, system) = builder.finish();
    assert_eq!(system, Vec::<String>::new());
    assert_eq!(messages[0]["content"], Value::Null);
    assert_eq!(messages[0]["tool_calls"][0]["function"]["arguments"], "free");
    assert_eq!(
        messages[1],
        value("{\"role\":\"tool\",\"tool_call_id\":\"2\",\"content\":\"[shown]\"}")
    );
}

#[test]
fn calls_wait_until_they_are_flushed() {
    let mut builder = ChatMessageBuilder::new(false);
    builder.push_call("i", "f", "{}");
    builder.push_system("s".to_string());
    assert_eq!(builder.messages, Vec::<Value>::new());
    builder.flush_pending_tool_calls();
    assert_eq!(
        builder.messages,
        vec![value(
            "{\"role\":\"assistant\",\"content\":null,\"tool_calls\":[{\"id\":\"i\",
              \"type\":\"function\",\"function\":{\"name\":\"f\",\"arguments\":\"{}\"}}]}"
        )]
    );
    assert_eq!(builder.finish().1, vec!["s".to_string()]);
}
