//! Providers other than the default one, and conversations in their terms.
use serde_json::Value;
use vstd::prelude::*;

use crate::endpoint::{
    anthropic_message_views, anthropic_tool_views, chat_message_views, content_block_views,
    AnthropicContentBlock, AnthropicMessage, AnthropicMessageView, AnthropicTool,
    AnthropicToolView, ChatCallView, ChatCompletionFunction, ChatCompletionMessage,
    ChatCompletionToolCall, ChatMessageView, ContentBlockView,
};
use crate::json::{
    as_text, clone_value, empty_object, get_entry, is_object, json, jsons, null_value, object,
    opt_json, parse_value, parsed_json, set_entry, text_value, Json,
};
use crate::protocol::{
    contents, items, ContentItem, ContentView, FunctionCallOutputPayload, ItemView, PayloadView,
    ResponseItem,
};
use crate::text::{concat3, join_texts, joined, opt_text, str_eq, texts};

verus! {

pub const ANTHROPIC_PROVIDER_NAME: &'static str = "Anthropic";

pub const ANTHROPIC_PROVIDER_ID: &'static str = "anthropic";

pub const ANTHROPIC_DEFAULT_BASE_URL: &'static str = "https://api.anthropic.com/v1";

pub const ANTHROPIC_API_KEY_ENV_VAR: &'static str = "ANTHROPIC_API_KEY";

pub const CHAT_COMPLETIONS_PROVIDER_NAME: &'static str = "Chat Completions";

pub const DEFAULT_ANTHROPIC_MAX_TOKENS: u32 = 4096;

/// The language in which a provider is spoken to.
#[derive(Debug, Clone, Copy, PartialEq, Eq, Structural)]
pub enum WireApi {
    Responses,
    ChatCompletions,
    Anthropic,
}

/// How a provider is reached. Parameters and headers are lists of names and
/// values, and no name occurs twice in one.
#[derive(Debug)]
pub struct ModelProviderInfo {
    pub name: String,
    pub base_url: Option<String>,
    pub env_key: Option<String>,
    pub env_key_instructions: Option<String>,
    pub experimental_bearer_token: Option<String>,
    pub auth: Option<Value>,
    pub aws: Option<Value>,
    pub wire_api: WireApi,
    pub query_params: Option<Vec<(String, String)>>,
    pub http_headers: Option<Vec<(String, String)>>,
    pub env_http_headers: Option<Vec<(String, String)>>,
    pub request_max_retries: Option<u64>,
    pub stream_max_retries: Option<u64>,
    pub stream_idle_timeout_ms: Option<u64>,
    pub websocket_connect_timeout_ms: Option<u64>,
    pub requires_openai_auth: bool,
    pub supports_websockets: bool,
}

#[verifier::ext_equal]
pub struct ProviderView {
    pub name: Seq<char>,
    pub base_url: Option<Seq<char>>,
    pub env_key: Option<Seq<char>>,
    pub env_key_instructions: Option<Seq<char>>,
    pub experimental_bearer_token: Option<Seq<char>>,
    pub auth: Option<Json>,
    pub aws: Option<Json>,
    pub wire_api: WireApi,
    pub query_params: Option<Seq<(Seq<char>, Seq<char>)>>,
    pub http_headers: Option<Seq<(Seq<char>, Seq<char>)>>,
    pub env_http_headers: Option<Seq<(Seq<char>, Seq<char>)>>,
    pub request_max_retries: Option<u64>,
    pub stream_max_retries: Option<u64>,
    pub stream_idle_timeout_ms: Option<u64>,
    pub websocket_connect_timeout_ms: Option<u64>,
    pub requires_openai_auth: bool,
    pub supports_websockets: bool,
}

pub open spec fn pairs(s: Option<Vec<(String, String)>>) -> Option<Seq<(Seq<char>, Seq<char>)>> {
    match s {
        Some(v) => Some(v@.map_values(|p: (String, String)| (p.0@, p.1@))),
        None => None,
    }
}

impl View for ModelProviderInfo {
    type V = ProviderView;

    open spec fn view(&self) -> ProviderView {
        ProviderView {
            name: self.name@,
            base_url: opt_text(self.base_url),
            env_key: opt_text(self.env_key),
            env_key_instructions: opt_text(self.env_key_instructions),
            experimental_bearer_token: opt_text(self.experimental_bearer_token),
            auth: opt_json(self.auth),
            aws: opt_json(self.aws),
            wire_api: self.wire_api,
            query_params: pairs(self.query_params),
            http_headers: pairs(self.http_headers),
            env_http_headers: pairs(self.env_http_headers),
            request_max_retries: self.request_max_retries,
            stream_max_retries: self.stream_max_retries,
            stream_idle_timeout_ms: self.stream_idle_timeout_ms,
            websocket_connect_timeout_ms: self.websocket_connect_timeout_ms,
            requires_openai_auth: self.requires_openai_auth,
            supports_websockets: self.supports_websockets,
        }
    }
}

/// Whether no name occurs twice.
pub open spec fn names_differ(s: Option<Seq<(Seq<char>, Seq<char>)>>) -> bool {
    s matches Some(list) ==> forall|i: int, j: int|
        0 <= i < j < list.len() ==> (#[trigger] list[i]).0 != (#[trigger] list[j]).0
}

impl ProviderView {
    /// Whether each parameter and each header has one value.
    pub open spec fn well_formed(self) -> bool {
        &&& names_differ(self.query_params)
        &&& names_differ(self.http_headers)
        &&& names_differ(self.env_http_headers)
    }
}

/// The first of two that is there.
pub open spec fn first_of(a: Option<Seq<char>>, b: Option<Seq<char>>) -> Option<Seq<char>> {
    match a {
        Some(text) => Some(text),
        None => b,
    }
}

/// The Anthropic provider. The key that is handed in comes before the one that
/// the environment holds, and without a base the service's own is taken.
pub fn create_anthropic_provider_info(
    base_url: Option<String>,
    api_key: Option<String>,
    api_key_of_env: Option<String>,
) -> (r: ModelProviderInfo)
    ensures
        r@ == (ProviderView {
            name: "Anthropic"@,
            base_url: first_of(opt_text(base_url), Some("https://api.anthropic.com/v1"@)),
            env_key: first_of(opt_text(api_key), opt_text(api_key_of_env)),
            env_key_instructions: Some(
                "Set the "@ + "ANTHROPIC_API_KEY"@
                    + " environment variable with your Anthropic API key."@,
            ),
            experimental_bearer_token: None,
            auth: None,
            aws: None,
            wire_api: WireApi::Anthropic,
            query_params: None,
            http_headers: Some(seq![("anthropic-version"@, "2023-06-01"@)]),
            env_http_headers: None,
            request_max_retries: Some(4),
            stream_max_retries: Some(5),
            stream_idle_timeout_ms: Some(300_000),
            websocket_connect_timeout_ms: None,
            requires_openai_auth: false,
            supports_websockets: false,
        }),
        r@.well_formed(),
{
    let env_key = match api_key {
        Some(key) => Some(key),
        None => api_key_of_env,
    };
    let base_url = match base_url {
        Some(url) => Some(url),
        None => Some(ANTHROPIC_DEFAULT_BASE_URL.to_string()),
    };
    let instructions = concat3(
        "Set the ",
        ANTHROPIC_API_KEY_ENV_VAR,
        " environment variable with your Anthropic API key.",
    );
    let mut http_headers: Vec<(String, String)> = Vec::new();
    http_headers.push(("anthropic-version".to_string(), "2023-06-01".to_string()));
    proof {
        assert(pairs(Some(http_headers))->0 =~= seq![("anthropic-version"@, "2023-06-01"@)]);
    }
    ModelProviderInfo {
        name: ANTHROPIC_PROVIDER_NAME.to_string(),
        base_url,
        env_key,
        env_key_instructions: Some(instructions),
        experimental_bearer_token: None,
        auth: None,
        aws: None,
        wire_api: WireApi::Anthropic,
        query_params: None,
        http_headers: Some(http_headers),
        env_http_headers: None,
        request_max_retries: Some(4),
        stream_max_retries: Some(5),
        stream_idle_timeout_ms: Some(300_000),
        websocket_connect_timeout_ms: None,
        requires_openai_auth: false,
        supports_websockets: false,
    }
}

/// A provider that speaks chat completions.
pub fn create_chat_completions_provider_info(
    base_url: Option<String>,
    api_key: Option<String>,
) -> (r: ModelProviderInfo)
    ensures
        r@ == (ProviderView {
            name: "Chat Completions"@,
            base_url: opt_text(base_url),
            env_key: opt_text(api_key),
            env_key_instructions: None,
            experimental_bearer_token: None,
            auth: None,
            aws: None,
            wire_api: WireApi::ChatCompletions,
            query_params: None,
            http_headers: None,
            env_http_headers: None,
            request_max_retries: Some(4),
            stream_max_retries: Some(5),
            stream_idle_timeout_ms: Some(300_000),
            websocket_connect_timeout_ms: None,
            requires_openai_auth: false,
            supports_websockets: false,
        }),
        r@.well_formed(),
{
    ModelProviderInfo {
        name: CHAT_COMPLETIONS_PROVIDER_NAME.to_string(),
        base_url,
        env_key: api_key,
        env_key_instructions: None,
        experimental_bearer_token: None,
        auth: None,
        aws: None,
        wire_api: WireApi::ChatCompletions,
        query_params: None,
        http_headers: None,
        env_http_headers: None,
        request_max_retries: Some(4),
        stream_max_retries: Some(5),
        stream_idle_timeout_ms: Some(300_000),
        websocket_connect_timeout_ms: None,
        requires_openai_auth: false,
        supports_websockets: false,
    }
}

/// Whether a provider is spoken to as an Anthropic service.
pub fn is_anthropic_provider(provider: &ModelProviderInfo) -> (r: bool)
    ensures
        r == (provider.wire_api == WireApi::Anthropic),
{
    provider.wire_api == WireApi::Anthropic
}

/// Whether a provider is spoken to as a chat completions service.
pub fn is_chat_completions_provider(provider: &ModelProviderInfo) -> (r: bool)
    ensures
        r == (provider.wire_api == WireApi::ChatCompletions),
{
    provider.wire_api == WireApi::ChatCompletions
}

/// The texts among the pieces of a message. Images are left out.
pub open spec fn message_texts(content: Seq<ContentView>) -> Seq<Seq<char>>
    decreases content.len(),
{
    if content.len() == 0 {
        Seq::empty()
    } else {
        let before = message_texts(content.drop_last());
        match content.last() {
            ContentView::InputText { text } => before.push(text),
            ContentView::OutputText { text } => before.push(text),
            ContentView::InputImage { .. } => before,
        }
    }
}

/// The texts among the pieces of a message.
fn texts_of_content(content: &Vec<ContentItem>) -> (r: Vec<String>)
    ensures
        texts(r@) == message_texts(contents(content@)),
{
    let mut out: Vec<String> = Vec::new();
    let ghost all = contents(content@);
    let mut i: usize = 0;
    assert(texts(out@) =~= message_texts(all.take(0)));
    while i < content.len()
        invariant
            i <= content@.len(),
            all == contents(content@),
            texts(out@) == message_texts(all.take(i as int)),
        decreases content@.len() - i,
    {
        let ghost before = out@;
        proof {
            assert(all.take(i + 1).drop_last() =~= all.take(i as int));
            assert(all.take(i + 1).last() == content@[i as int]@);
        }
        match &content[i] {
            ContentItem::InputText { text } | ContentItem::OutputText { text } => {
                out.push(text.clone());
                assert(texts(out@) =~= texts(before).push(text@));
            },
            ContentItem::InputImage { .. } => {},
        }
        i = i + 1;
    }
    assert(all.take(all.len() as int) =~= all);
    out
}

/// A message of plain text.
pub open spec fn plain_message(role: Seq<char>, content: Seq<char>) -> ChatMessageView {
    ChatMessageView { role, content, name: None, tool_calls: None }
}

/// A message in which the model calls one function.
pub open spec fn call_message(id: Seq<char>, name: Seq<char>, arguments: Seq<char>)
    -> ChatMessageView {
    ChatMessageView {
        role: "assistant"@,
        content: Seq::empty(),
        name: None,
        tool_calls: Some(seq![ChatCallView { id, tool_type: "function"@, name, arguments }]),
    }
}

/// A message with what a tool gave back, after the tool's or the call's name.
pub open spec fn tool_message(label: Seq<char>, output: PayloadView) -> ChatMessageView {
    plain_message("tool"@, label + ": "@ + output.text_or_empty())
}

/// The message that an item of the conversation becomes, if it becomes one.
pub open spec fn chat_message_of(item: ItemView) -> Option<ChatMessageView> {
    match item {
        ItemView::Message { role, content, .. } => {
            let text = joined(message_texts(content), "\n"@);
            if text.len() == 0 {
                None
            } else {
                Some(plain_message(role, text))
            }
        },
        ItemView::FunctionCall { name, arguments, call_id, .. } => Some(
            call_message(call_id, name, arguments),
        ),
        ItemView::FunctionCallOutput { call_id, output } => Some(tool_message(call_id, output)),
        ItemView::CustomToolCall { call_id, name, input } => Some(
            call_message(call_id, name, input),
        ),
        ItemView::CustomToolCallOutput { call_id, name, output } => Some(
            tool_message(
                match name {
                    Some(n) => n,
                    None => call_id,
                },
                output,
            ),
        ),
        _ => None,
    }
}

/// The messages that the items of a conversation become, in their order.
pub open spec fn chat_messages_of(items: Seq<ItemView>) -> Seq<ChatMessageView>
    decreases items.len(),
{
    if items.len() == 0 {
        Seq::empty()
    } else {
        let before = chat_messages_of(items.drop_last());
        match chat_message_of(items.last()) {
            Some(message) => before.push(message),
            None => before,
        }
    }
}

fn plain_chat_message(role: String, content: String) -> (r: ChatCompletionMessage)
    ensures
        r@ == plain_message(role@, content@),
{
    ChatCompletionMessage { role, content, name: None, tool_calls: None }
}

fn call_chat_message(id: &String, name: &String, arguments: &String) -> (r: ChatCompletionMessage)
    ensures
        r@ == call_message(id@, name@, arguments@),
{
    let mut calls: Vec<ChatCompletionToolCall> = Vec::new();
    calls.push(
        ChatCompletionToolCall {
            id: id.clone(),
            tool_type: "function".to_string(),
            function: ChatCompletionFunction { name: name.clone(), arguments: arguments.clone() },
        },
    );
    assert(calls@.map_values(|c: ChatCompletionToolCall| c@) =~= seq![
        ChatCallView { id: id@, tool_type: "function"@, name: name@, arguments: arguments@ },
    ]);
    let r = ChatCompletionMessage {
        role: "assistant".to_string(),
        content: String::new(),
        name: None,
        tool_calls: Some(calls),
    };
    assert(r@ =~= call_message(id@, name@, arguments@));
    r
}

fn text_or_empty(output: &FunctionCallOutputPayload) -> (r: String)
    ensures
        r@ == output@.text_or_empty(),
{
    match output.to_text() {
        Some(text) => text,
        None => String::new(),
    }
}

fn tool_chat_message(label: &String, output: &FunctionCallOutputPayload) -> (r:
    ChatCompletionMessage)
    ensures
        r@ == tool_message(label@, output@),
{
    let text = text_or_empty(output);
    plain_chat_message("tool".to_string(), concat3(label.as_str(), ": ", text.as_str()))
}

/// The message that an item of the conversation becomes, if it becomes one.
fn chat_message_for_item(item: &ResponseItem) -> (r: Option<ChatCompletionMessage>)
    ensures
        match r {
            Some(message) => chat_message_of(item@) == Some(message@),
            None => chat_message_of(item@) is None,
        },
{
    match item {
        ResponseItem::Message { role, content, .. } => {
            let parts = texts_of_content(content);
            let text = join_texts(&parts, "\n");
            if text.as_str().is_empty() {
                None
            } else {
                Some(plain_chat_message(role.clone(), text))
            }
        },
        ResponseItem::FunctionCall { name, arguments, call_id, .. } => Some(
            call_chat_message(call_id, name, arguments),
        ),
        ResponseItem::FunctionCallOutput { call_id, output } => Some(
            tool_chat_message(call_id, output),
        ),
        ResponseItem::CustomToolCall { call_id, name, input } => Some(
            call_chat_message(call_id, name, input),
        ),
        ResponseItem::CustomToolCallOutput { call_id, name, output } => {
            let label = match name {
                Some(n) => n,
                None => call_id,
            };
            Some(tool_chat_message(label, output))
        },
        _ => None,
    }
}

/// A conversation as the messages of a chat: the instructions, if there are any,
/// and then the items.
pub fn convert_response_items_to_chat_messages(
    instructions: &str,
    input: &[ResponseItem],
) -> (r: Vec<ChatCompletionMessage>)
    ensures
        chat_message_views(r@) == (if instructions@.len() == 0 {
            Seq::empty()
        } else {
            seq![plain_message("system"@, instructions@)]
        }) + chat_messages_of(items(input@)),
{
    let mut messages: Vec<ChatCompletionMessage> = Vec::new();
    assert(chat_message_views(messages@) =~= Seq::empty());
    if !instructions.is_empty() {
        messages.push(plain_chat_message("system".to_string(), instructions.to_string()));
        assert(chat_message_views(messages@) =~= seq![plain_message("system"@, instructions@)]);
    }
    let ghost first = chat_message_views(messages@);
    let ghost all = items(input@);
    let mut i: usize = 0;
    assert(first + chat_messages_of(all.take(0)) =~= first);
    while i < input.len()
        invariant
            i <= input@.len(),
            all == items(input@),
            chat_message_views(messages@) == first + chat_messages_of(all.take(i as int)),
        decreases input@.len() - i,
    {
        let ghost before = messages@;
        proof {
            assert(all.take(i + 1).drop_last() =~= all.take(i as int));
            assert(all.take(i + 1).last() == input@[i as int]@);
        }
        if let Some(message) = chat_message_for_item(&input[i]) {
            messages.push(message);
            assert(chat_message_views(messages@) =~= chat_message_views(before).push(message@));
            assert(first + chat_messages_of(all.take(i as int)).push(message@) =~= (first
                + chat_messages_of(all.take(i as int))).push(message@));
        }
        i = i + 1;
    }
    assert(all.take(all.len() as int) =~= all);
    messages
}

/// The texts among the pieces of a message as blocks.
pub open spec fn text_blocks(content: Seq<ContentView>) -> Seq<ContentBlockView> {
    message_texts(content).map_values(|t: Seq<char>| ContentBlockView::Text { text: t })
}

/// The value that was read from a text, or null where none could be.
pub open spec fn read_or_null(parsed: Option<Json>) -> Json {
    match parsed {
        Some(value) => value,
        None => Json::Null,
    }
}

/// The value that was read from a text, or null where none could be.
pub fn value_or_null(parsed: Option<Value>) -> (r: Value)
    ensures
        json(r) == read_or_null(opt_json(parsed)),
{
    match parsed {
        Some(value) => value,
        None => null_value(),
    }
}

/// The message that an item of the conversation becomes, if it becomes one. What
/// others than the user and the model say is left out.
pub open spec fn anthropic_message_of(item: ItemView) -> Option<AnthropicMessageView> {
    match item {
        ItemView::Message { role, content, .. } => if message_texts(content).len() > 0 && (role
            == "user"@ || role == "assistant"@) {
            Some(AnthropicMessageView { role, content: text_blocks(content) })
        } else {
            None
        },
        ItemView::FunctionCall { name, arguments, call_id, .. } => Some(
            AnthropicMessageView {
                role: "assistant"@,
                content: seq![
                    ContentBlockView::ToolUse {
                        id: call_id,
                        name,
                        input: read_or_null(parsed_json(arguments)),
                    },
                ],
            },
        ),
        ItemView::FunctionCallOutput { call_id, output } => Some(
            AnthropicMessageView {
                role: "user"@,
                content: seq![
                    ContentBlockView::ToolResult {
                        tool_use_id: call_id,
                        content: object().with("type"@, Json::Text("text"@)).with(
                            "text"@,
                            Json::Text(output.text_or_empty()),
                        ),
                        is_error: None,
                    },
                ],
            },
        ),
        _ => None,
    }
}

/// The messages that the items of a conversation become, in their order.
pub open spec fn anthropic_messages_of(items: Seq<ItemView>) -> Seq<AnthropicMessageView>
    decreases items.len(),
{
    if items.len() == 0 {
        Seq::empty()
    } else {
        let before = anthropic_messages_of(items.drop_last());
        match anthropic_message_of(items.last()) {
            Some(message) => before.push(message),
            None => before,
        }
    }
}

/// The texts among the pieces of a message as blocks.
fn blocks_of_content(content: &Vec<ContentItem>) -> (r: Vec<AnthropicContentBlock>)
    ensures
        content_block_views(r@) == text_blocks(contents(content@)),
        r@.len() == message_texts(contents(content@)).len(),
{
    let parts = texts_of_content(content);
    let ghost all = message_texts(contents(content@));
    let mut out: Vec<AnthropicContentBlock> = Vec::new();
    let mut i: usize = 0;
    assert(texts(parts@).len() == parts@.len());
    while i < parts.len()
        invariant
            i <= parts@.len(),
            texts(parts@) == all,
            out@.len() == i,
            forall|k: int|
                0 <= k < i ==> (#[trigger] out@[k])@ == (ContentBlockView::Text { text: all[k] }),
        decreases parts@.len() - i,
    {
        assert(all[i as int] == parts@[i as int]@);
        out.push(AnthropicContentBlock::text(parts[i].clone()));
        i = i + 1;
    }
    assert(content_block_views(out@) =~= text_blocks(contents(content@)));
    out
}

/// A message with one block.
fn one_block_message(role: &str, block: AnthropicContentBlock) -> (r: AnthropicMessage)
    ensures
        r@ == (AnthropicMessageView { role: role@, content: seq![block@] }),
{
    let mut content: Vec<AnthropicContentBlock> = Vec::new();
    content.push(block);
    assert(content_block_views(content@) =~= seq![block@]);
    AnthropicMessage { role: role.to_string(), content }
}

/// The message that an item of the conversation becomes, if it becomes one.
fn anthropic_message_for_item(item: &ResponseItem) -> (r: Option<AnthropicMessage>)
    ensures
        match r {
            Some(message) => anthropic_message_of(item@) == Some(message@),
            None => anthropic_message_of(item@) is None,
        },
{
    match item {
        ResponseItem::Message { role, content, .. } => {
            let blocks = blocks_of_content(content);
            if blocks.len() == 0 {
                return None;
            }
            if str_eq(role.as_str(), "user") || str_eq(role.as_str(), "assistant") {
                Some(AnthropicMessage { role: role.clone(), content: blocks })
            } else {
                None
            }
        },
        ResponseItem::FunctionCall { name, arguments, call_id, .. } => {
            let input = value_or_null(parse_value(arguments.as_str()));
            let block = AnthropicContentBlock::tool_use(call_id.clone(), name.clone(), input);
            Some(one_block_message("assistant", block))
        },
        ResponseItem::FunctionCallOutput { call_id, output } => {
            let text = text_or_empty(output);
            let mut content = empty_object();
            set_entry(&mut content, "type", text_value("text"));
            set_entry(&mut content, "text", text_value(text.as_str()));
            let block = AnthropicContentBlock::tool_result(call_id.clone(), content);
            Some(one_block_message("user", block))
        },
        _ => None,
    }
}

/// A conversation in Anthropic terms: the instructions, if there are any, and
/// the messages that the items become.
pub fn convert_response_items_to_anthropic_messages(
    instructions: &str,
    input: &[ResponseItem],
) -> (r: (Option<String>, Vec<AnthropicMessage>))
    ensures
        opt_text(r.0) == (if instructions@.len() == 0 {
            None
        } else {
            Some(instructions@)
        }),
        anthropic_message_views(r.1@) == anthropic_messages_of(items(input@)),
{
    let system = if instructions.is_empty() {
        None
    } else {
        Some(instructions.to_string())
    };
    let mut messages: Vec<AnthropicMessage> = Vec::new();
    let ghost all = items(input@);
    let mut i: usize = 0;
    assert(anthropic_message_views(messages@) =~= anthropic_messages_of(all.take(0)));
    while i < input.len()
        invariant
            i <= input@.len(),
            all == items(input@),
            anthropic_message_views(messages@) == anthropic_messages_of(all.take(i as int)),
        decreases input@.len() - i,
    {
        let ghost before = messages@;
        proof {
            assert(all.take(i + 1).drop_last() =~= all.take(i as int));
            assert(all.take(i + 1).last() == input@[i as int]@);
        }
        if let Some(message) = anthropic_message_for_item(&input[i]) {
            messages.push(message);
            assert(anthropic_message_views(messages@) =~= anthropic_message_views(before).push(
                message@,
            ));
        }
        i = i + 1;
    }
    assert(all.take(all.len() as int) =~= all);
    (system, messages)
}

/// A tool in chat terms: as it is, where it says that it is a function, else as
/// the function it is. What is no object is none.
pub open spec fn chat_tool_of(tool: Json) -> Option<Json> {
    if !(tool is Object) {
        None
    } else if tool.has("function"@) {
        Some(tool)
    } else {
        Some(object().with("type"@, Json::Text("function"@)).with("function"@, tool))
    }
}

/// Tools in chat terms, in their order.
pub open spec fn chat_tools_of(tools: Seq<Json>) -> Seq<Json>
    decreases tools.len(),
{
    if tools.len() == 0 {
        Seq::empty()
    } else {
        let before = chat_tools_of(tools.drop_last());
        match chat_tool_of(tools.last()) {
            Some(tool) => before.push(tool),
            None => before,
        }
    }
}

/// A tool in chat terms.
fn chat_tool_for(tool: &Value) -> (r: Option<Value>)
    ensures
        opt_json(r) == chat_tool_of(json(*tool)),
{
    if !is_object(tool) {
        return None;
    }
    match get_entry(tool, "function") {
        Some(_) => Some(clone_value(tool)),
        None => {
            let mut value = empty_object();
            set_entry(&mut value, "type", text_value("function"));
            set_entry(&mut value, "function", clone_value(tool));
            Some(value)
        },
    }
}

/// Tools in chat terms, if there are any.
pub fn convert_tools_to_chat_tools(tools: &[Value]) -> (r: Option<Vec<Value>>)
    ensures
        match r {
            Some(values) => jsons(values@) == chat_tools_of(jsons(tools@)) && values@.len() > 0,
            None => chat_tools_of(jsons(tools@)).len() == 0,
        },
{
    let mut out: Vec<Value> = Vec::new();
    let ghost all = jsons(tools@);
    let mut i: usize = 0;
    assert(jsons(out@) =~= chat_tools_of(all.take(0)));
    while i < tools.len()
        invariant
            i <= tools@.len(),
            all == jsons(tools@),
            jsons(out@) == chat_tools_of(all.take(i as int)),
        decreases tools@.len() - i,
    {
        let ghost before = out@;
        proof {
            assert(all.take(i + 1).drop_last() =~= all.take(i as int));
            assert(all.take(i + 1).last() == json(tools@[i as int]));
        }
        if let Some(value) = chat_tool_for(&tools[i]) {
            out.push(value);
            assert(jsons(out@) =~= jsons(before).push(json(value)));
        }
        i = i + 1;
    }
    assert(all.take(all.len() as int) =~= all);
    assert(jsons(out@).len() == out@.len());
    if out.len() == 0 {
        None
    } else {
        Some(out)
    }
}

/// The schema of a function that has none: an object without properties.
pub open spec fn empty_schema() -> Json {
    object().with("type"@, Json::Text("object"@)).with("properties"@, object())
}

/// A tool in Anthropic terms: the function that it says it is, if that has a
/// name.
pub open spec fn anthropic_tool_of(tool: Json) -> Option<AnthropicToolView> {
    match tool.get("function"@) {
        Some(Json::Object(entries)) => {
            let function = Json::Object(entries);
            match function.get("name"@) {
                Some(Json::Text(name)) => Some(
                    AnthropicToolView {
                        name,
                        description: match function.get("description"@) {
                            Some(description) => description.text(),
                            None => None,
                        },
                        input_schema: match function.get("parameters"@) {
                            Some(parameters) => parameters,
                            None => empty_schema(),
                        },
                    },
                ),
                _ => None,
            }
        },
        _ => None,
    }
}

/// Tools in Anthropic terms, in their order.
pub open spec fn anthropic_tools_of(tools: Seq<Json>) -> Seq<AnthropicToolView>
    decreases tools.len(),
{
    if tools.len() == 0 {
        Seq::empty()
    } else {
        let before = anthropic_tools_of(tools.drop_last());
        match anthropic_tool_of(tools.last()) {
            Some(tool) => before.push(tool),
            None => before,
        }
    }
}

/// The text of an entry, where it is there and is one.
fn entry_text(value: &Value, key: &str) -> (r: Option<String>)
    ensures
        opt_text(r) == (match json(*value).get(key@) {
            Some(entry) => entry.text(),
            None => None,
        }),
{
    match get_entry(value, key) {
        Some(entry) => match as_text(entry) {
            Some(text) => Some(text.to_string()),
            None => None,
        },
        None => None,
    }
}

/// A tool in Anthropic terms.
fn anthropic_tool_for(tool: &Value) -> (r: Option<AnthropicTool>)
    ensures
        match r {
            Some(t) => anthropic_tool_of(json(*tool)) == Some(t@),
            None => anthropic_tool_of(json(*tool)) is None,
        },
{
    let function = match get_entry(tool, "function") {
        Some(function) => function,
        None => {
            return None;
        },
    };
    if !is_object(function) {
        return None;
    }
    let name = match entry_text(function, "name") {
        Some(name) => name,
        None => {
            return None;
        },
    };
    let description = entry_text(function, "description");
    let input_schema = match get_entry(function, "parameters") {
        Some(parameters) => clone_value(parameters),
        None => {
            let mut schema = empty_object();
            set_entry(&mut schema, "type", text_value("object"));
            set_entry(&mut schema, "properties", empty_object());
            schema
        },
    };
    Some(AnthropicTool { name, description, input_schema })
}

/// Tools in Anthropic terms.
pub fn convert_tools_to_anthropic_tools(tools: &[Value]) -> (r: Vec<AnthropicTool>)
    ensures
        anthropic_tool_views(r@) == anthropic_tools_of(jsons(tools@)),
{
    let mut out: Vec<AnthropicTool> = Vec::new();
    let ghost all = jsons(tools@);
    let mut i: usize = 0;
    assert(anthropic_tool_views(out@) =~= anthropic_tools_of(all.take(0)));
    while i < tools.len()
        invariant
            i <= tools@.len(),
            all == jsons(tools@),
            anthropic_tool_views(out@) == anthropic_tools_of(all.take(i as int)),
        decreases tools@.len() - i,
    {
        let ghost before = out@;
        proof {
            assert(all.take(i + 1).drop_last() =~= all.take(i as int));
            assert(all.take(i + 1).last() == json(tools@[i as int]));
        }
        if let Some(tool) = anthropic_tool_for(&tools[i]) {
            out.push(tool);
            assert(anthropic_tool_views(out@) =~= anthropic_tool_views(before).push(tool@));
        }
        i = i + 1;
    }
    assert(all.take(all.len() as int) =~= all);
    out
}

} // verus!
