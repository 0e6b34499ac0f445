//! What the two kinds of services are asked: where, how and with what body.
use serde_json::Value;
use vstd::prelude::*;

use crate::json::{json, Json};
use crate::protocol::{ApiError, ErrorView};
use crate::text::{concat3, opt_text};

verus! {

/// Whether a request is to be compressed.
#[derive(Debug, Clone, Copy, PartialEq, Eq, Structural)]
pub enum Compression {
    Plain,
    Zstd,
}

impl Default for Compression {
    fn default() -> (r: Self)
        ensures
            r == Compression::Plain,
    {
        Compression::Plain
    }
}

/// How the body of a request is sent.
#[derive(Debug, Clone, Copy, PartialEq, Eq, Structural)]
pub enum RequestCompression {
    Plain,
    Zstd,
}

/// How the body of a request is sent.
pub fn request_compression(compression: Compression) -> (r: RequestCompression)
    ensures
        (r == RequestCompression::Zstd) == (compression == Compression::Zstd),
{
    match compression {
        Compression::Plain => RequestCompression::Plain,
        Compression::Zstd => RequestCompression::Zstd,
    }
}

/// Where an Anthropic service takes requests, below its base.
pub fn anthropic_path() -> (r: &'static str)
    ensures
        r@ == "messages"@,
{
    "messages"
}

/// Where a chat completions service takes requests, below its base.
pub fn chat_completions_path() -> (r: &'static str)
    ensures
        r@ == "chat/completions"@,
{
    "chat/completions"
}

/// The error of a request to an Anthropic service that could not be encoded.
pub fn anthropic_encode_error(reason: &str) -> (r: ApiError)
    ensures
        r@ == ErrorView::Stream("failed to encode anthropic request: "@ + reason@),
{
    let message = concat3("failed to encode anthropic request: ", reason, "");
    proof {
        reveal_strlit("");
        assert(message@ =~= "failed to encode anthropic request: "@ + reason@);
    }
    ApiError::Stream(message)
}

/// The error of a request to a chat completions service that could not be
/// encoded.
pub fn chat_completions_encode_error(reason: &str) -> (r: ApiError)
    ensures
        r@ == ErrorView::Stream("failed to encode chat completions request: "@ + reason@),
{
    let message = concat3("failed to encode chat completions request: ", reason, "");
    proof {
        reveal_strlit("");
        assert(message@ =~= "failed to encode chat completions request: "@ + reason@);
    }
    ApiError::Stream(message)
}

/// A number with a fraction, as its decimal text.
#[derive(Debug, PartialEq)]
pub struct NumberText {
    pub text: String,
}

/// A piece of a message of an Anthropic request.
#[derive(Debug)]
pub enum AnthropicContentBlock {
    Text { text: String },
    ToolUse { id: String, name: String, input: Value },
    ToolResult { tool_use_id: String, content: Value, is_error: Option<bool> },
}

#[verifier::ext_equal]
pub enum ContentBlockView {
    Text { text: Seq<char> },
    ToolUse { id: Seq<char>, name: Seq<char>, input: Json },
    ToolResult { tool_use_id: Seq<char>, content: Json, is_error: Option<bool> },
}

impl View for AnthropicContentBlock {
    type V = ContentBlockView;

    open spec fn view(&self) -> ContentBlockView {
        match *self {
            AnthropicContentBlock::Text { text } => ContentBlockView::Text { text: text@ },
            AnthropicContentBlock::ToolUse { id, name, input } => ContentBlockView::ToolUse {
                id: id@,
                name: name@,
                input: json(input),
            },
            AnthropicContentBlock::ToolResult { tool_use_id, content, is_error } =>
            ContentBlockView::ToolResult {
                tool_use_id: tool_use_id@,
                content: json(content),
                is_error,
            },
        }
    }
}

pub open spec fn content_block_views(s: Seq<AnthropicContentBlock>) -> Seq<ContentBlockView> {
    s.map_values(|b: AnthropicContentBlock| b@)
}

impl AnthropicContentBlock {
    /// A piece of text.
    pub fn text(content: String) -> (r: Self)
        ensures
            r@ == (ContentBlockView::Text { text: content@ }),
    {
        AnthropicContentBlock::Text { text: content }
    }

    /// A call of a tool.
    pub fn tool_use(id: String, name: String, input: Value) -> (r: Self)
        ensures
            r@ == (ContentBlockView::ToolUse { id: id@, name: name@, input: json(input) }),
    {
        AnthropicContentBlock::ToolUse { id, name, input }
    }

    /// What a tool gave back. It is not said whether that is an error.
    pub fn tool_result(tool_use_id: String, content: Value) -> (r: Self)
        ensures
            r@ == (ContentBlockView::ToolResult {
                tool_use_id: tool_use_id@,
                content: json(content),
                is_error: None,
            }),
    {
        AnthropicContentBlock::ToolResult { tool_use_id, content, is_error: None }
    }
}

/// A message of an Anthropic request.
#[derive(Debug)]
pub struct AnthropicMessage {
    pub role: String,
    pub content: Vec<AnthropicContentBlock>,
}

#[verifier::ext_equal]
pub struct AnthropicMessageView {
    pub role: Seq<char>,
    pub content: Seq<ContentBlockView>,
}

impl View for AnthropicMessage {
    type V = AnthropicMessageView;

    open spec fn view(&self) -> AnthropicMessageView {
        AnthropicMessageView { role: self.role@, content: content_block_views(self.content@) }
    }
}

pub open spec fn anthropic_message_views(s: Seq<AnthropicMessage>) -> Seq<AnthropicMessageView> {
    s.map_values(|m: AnthropicMessage| m@)
}

/// A tool of an Anthropic request.
#[derive(Debug)]
pub struct AnthropicTool {
    pub name: String,
    pub description: Option<String>,
    pub input_schema: Value,
}

#[verifier::ext_equal]
pub struct AnthropicToolView {
    pub name: Seq<char>,
    pub description: Option<Seq<char>>,
    pub input_schema: Json,
}

impl View for AnthropicTool {
    type V = AnthropicToolView;

    open spec fn view(&self) -> AnthropicToolView {
        AnthropicToolView {
            name: self.name@,
            description: opt_text(self.description),
            input_schema: json(self.input_schema),
        }
    }
}

pub open spec fn anthropic_tool_views(s: Seq<AnthropicTool>) -> Seq<AnthropicToolView> {
    s.map_values(|t: AnthropicTool| t@)
}

/// Which tool a model is to use.
#[derive(Debug)]
pub struct AnthropicToolChoice {
    pub tool_type: String,
    pub name: Option<String>,
}

/// Whether a model is to think, and how many tokens long.
#[derive(Debug)]
pub struct AnthropicThinkingConfig {
    pub thinking_type: String,
    pub budget_tokens: u32,
}

/// A request for an Anthropic message.
#[derive(Debug)]
pub struct AnthropicMessagesRequest {
    pub model: String,
    pub messages: Vec<AnthropicMessage>,
    pub max_tokens: u32,
    pub stream: bool,
    pub system: Option<String>,
    pub tools: Option<Vec<AnthropicTool>>,
    pub tool_choice: Option<AnthropicToolChoice>,
    pub temperature: Option<NumberText>,
    pub top_p: Option<NumberText>,
    pub top_k: Option<i32>,
    pub stop_sequences: Option<Vec<String>>,
    pub thinking: Option<AnthropicThinkingConfig>,
}

impl AnthropicMessagesRequest {
    /// A request for a streamed answer, with nothing else set.
    pub fn new(model: String, messages: Vec<AnthropicMessage>, max_tokens: u32) -> (r: Self)
        ensures
            r == (AnthropicMessagesRequest {
                model,
                messages,
                max_tokens,
                stream: true,
                system: None,
                tools: None,
                tool_choice: None,
                temperature: None,
                top_p: None,
                top_k: None,
                stop_sequences: None,
                thinking: None,
            }),
    {
        AnthropicMessagesRequest {
            model,
            messages,
            max_tokens,
            stream: true,
            system: None,
            tools: None,
            tool_choice: None,
            temperature: None,
            top_p: None,
            top_k: None,
            stop_sequences: None,
            thinking: None,
        }
    }
}

/// A function that a model calls, and with what.
#[derive(Debug, PartialEq)]
pub struct ChatCompletionFunction {
    pub name: String,
    pub arguments: String,
}

/// A call of a tool in a message of a chat.
#[derive(Debug, PartialEq)]
pub struct ChatCompletionToolCall {
    pub id: String,
    pub tool_type: String,
    pub function: ChatCompletionFunction,
}

#[verifier::ext_equal]
pub struct ChatCallView {
    pub id: Seq<char>,
    pub tool_type: Seq<char>,
    pub name: Seq<char>,
    pub arguments: Seq<char>,
}

impl View for ChatCompletionToolCall {
    type V = ChatCallView;

    open spec fn view(&self) -> ChatCallView {
        ChatCallView {
            id: self.id@,
            tool_type: self.tool_type@,
            name: self.function.name@,
            arguments: self.function.arguments@,
        }
    }
}

/// A message of a chat.
#[derive(Debug, PartialEq)]
pub struct ChatCompletionMessage {
    pub role: String,
    pub content: String,
    pub name: Option<String>,
    pub tool_calls: Option<Vec<ChatCompletionToolCall>>,
}

#[verifier::ext_equal]
pub struct ChatMessageView {
    pub role: Seq<char>,
    pub content: Seq<char>,
    pub name: Option<Seq<char>>,
    pub tool_calls: Option<Seq<ChatCallView>>,
}

impl View for ChatCompletionMessage {
    type V = ChatMessageView;

    open spec fn view(&self) -> ChatMessageView {
        ChatMessageView {
            role: self.role@,
            content: self.content@,
            name: opt_text(self.name),
            tool_calls: match self.tool_calls {
                Some(calls) => Some(calls@.map_values(|c: ChatCompletionToolCall| c@)),
                None => None,
            },
        }
    }
}

pub open spec fn chat_message_views(s: Seq<ChatCompletionMessage>) -> Seq<ChatMessageView> {
    s.map_values(|m: ChatCompletionMessage| m@)
}

/// What a function of a chat request does and takes.
#[derive(Debug)]
pub struct ChatCompletionFunctionDefinition {
    pub name: String,
    pub description: Option<String>,
    pub parameters: Option<Value>,
}

/// A tool of a chat request.
#[derive(Debug)]
pub struct ChatCompletionTool {
    pub tool_type: String,
    pub function: ChatCompletionFunctionDefinition,
}

/// How hard a model is to think.
#[derive(Debug)]
pub struct ChatCompletionReasoning {
    pub effort: Option<String>,
}

/// A request for a chat completion.
#[derive(Debug)]
pub struct ChatCompletionsApiRequest {
    pub model: String,
    pub messages: Vec<ChatCompletionMessage>,
    pub stream: bool,
    pub max_tokens: Option<u32>,
    pub temperature: Option<NumberText>,
    pub top_p: Option<NumberText>,
    pub tools: Option<Vec<ChatCompletionTool>>,
    pub tool_choice: Option<Value>,
    pub parallel_tool_calls: Option<bool>,
    pub reasoning: Option<ChatCompletionReasoning>,
    pub stop: Option<Vec<String>>,
    pub presence_penalty: Option<NumberText>,
    pub frequency_penalty: Option<NumberText>,
    pub user: Option<String>,
}

impl ChatCompletionsApiRequest {
    /// A request for a streamed answer, with nothing else set.
    pub fn new(model: String, messages: Vec<ChatCompletionMessage>) -> (r: Self)
        ensures
            r == (ChatCompletionsApiRequest {
                model,
                messages,
                stream: true,
                max_tokens: None,
                temperature: None,
                top_p: None,
                tools: None,
                tool_choice: None,
                parallel_tool_calls: None,
                reasoning: None,
                stop: None,
                presence_penalty: None,
                frequency_penalty: None,
                user: None,
            }),
    {
        ChatCompletionsApiRequest {
            model,
            messages,
            stream: true,
            max_tokens: None,
            temperature: None,
            top_p: None,
            tools: None,
            tool_choice: None,
            parallel_tool_calls: None,
            reasoning: None,
            stop: None,
            presence_penalty: None,
            frequency_penalty: None,
            user: None,
        }
    }
}

} // verus!
