//! The items of a conversation and the events of a model's answer.
//!
//! Each type has a view, in which every text is the sequence of its characters.
use vstd::prelude::*;

use crate::text::{clone_opt_text, opt_text, texts};

verus! {

/// A piece of a message.
#[derive(Debug, PartialEq)]
pub enum ContentItem {
    InputText { text: String },
    /// An image, and the name of the level of detail to look at it with.
    InputImage { image_url: String, detail: Option<String> },
    OutputText { text: String },
}

#[verifier::ext_equal]
pub enum ContentView {
    InputText { text: Seq<char> },
    InputImage { image_url: Seq<char>, detail: Option<Seq<char>> },
    OutputText { text: Seq<char> },
}

impl View for ContentItem {
    type V = ContentView;

    open spec fn view(&self) -> ContentView {
        match *self {
            ContentItem::InputText { text } => ContentView::InputText { text: text@ },
            ContentItem::InputImage { image_url, detail } => ContentView::InputImage {
                image_url: image_url@,
                detail: opt_text(detail),
            },
            ContentItem::OutputText { text } => ContentView::OutputText { text: text@ },
        }
    }
}

pub open spec fn contents(items: Seq<ContentItem>) -> Seq<ContentView> {
    items.map_values(|c: ContentItem| c@)
}

/// A piece of a model's reasoning.
#[derive(Debug, PartialEq)]
pub enum ReasoningItemContent {
    ReasoningText { text: String },
    Text { text: String },
}

#[verifier::ext_equal]
pub enum ReasoningView {
    ReasoningText { text: Seq<char> },
    Text { text: Seq<char> },
}

impl View for ReasoningItemContent {
    type V = ReasoningView;

    open spec fn view(&self) -> ReasoningView {
        match *self {
            ReasoningItemContent::ReasoningText { text } => ReasoningView::ReasoningText {
                text: text@,
            },
            ReasoningItemContent::Text { text } => ReasoningView::Text { text: text@ },
        }
    }
}

pub open spec fn reasonings(items: Seq<ReasoningItemContent>) -> Seq<ReasoningView> {
    items.map_values(|c: ReasoningItemContent| c@)
}

/// A piece of the summary of a model's reasoning.
#[derive(Debug, PartialEq)]
pub enum ReasoningItemReasoningSummary {
    SummaryText { text: String },
}

impl View for ReasoningItemReasoningSummary {
    type V = Seq<char>;

    open spec fn view(&self) -> Seq<char> {
        match *self {
            ReasoningItemReasoningSummary::SummaryText { text } => text@,
        }
    }
}

pub open spec fn summaries(items: Seq<ReasoningItemReasoningSummary>) -> Seq<Seq<char>> {
    items.map_values(|c: ReasoningItemReasoningSummary| c@)
}

/// What a tool gave back: how it reads when printed whole, and its text, if it
/// has one.
#[derive(Debug, PartialEq)]
pub struct FunctionCallOutputPayload {
    pub display: String,
    pub text: Option<String>,
}

#[verifier::ext_equal]
pub struct PayloadView {
    pub display: Seq<char>,
    pub text: Option<Seq<char>>,
}

impl View for FunctionCallOutputPayload {
    type V = PayloadView;

    open spec fn view(&self) -> PayloadView {
        PayloadView { display: self.display@, text: opt_text(self.text) }
    }
}

impl PayloadView {
    /// The text, or nothing at all where there is none.
    pub open spec fn text_or_empty(self) -> Seq<char> {
        match self.text {
            Some(t) => t,
            None => Seq::empty(),
        }
    }
}

impl FunctionCallOutputPayload {
    /// An output that is just a text.
    pub fn from_text(text: String) -> (r: Self)
        ensures
            r@ == (PayloadView { display: text@, text: Some(text@) }),
    {
        FunctionCallOutputPayload { display: text.clone(), text: Some(text) }
    }

    /// The output's text, if it has one.
    pub fn to_text(&self) -> (r: Option<String>)
        ensures
            opt_text(r) == self@.text,
    {
        clone_opt_text(&self.text)
    }
}

/// A command to run in a shell.
#[derive(Debug, PartialEq)]
pub struct LocalShellExecAction {
    pub command: Vec<String>,
    pub timeout_ms: Option<u64>,
    pub working_directory: Option<String>,
}

#[derive(Debug, PartialEq)]
pub enum LocalShellAction {
    Exec(LocalShellExecAction),
}

#[verifier::ext_equal]
pub struct ShellView {
    pub command: Seq<Seq<char>>,
    pub timeout_ms: Option<u64>,
    pub working_directory: Option<Seq<char>>,
}

impl View for LocalShellAction {
    type V = ShellView;

    open spec fn view(&self) -> ShellView {
        match *self {
            LocalShellAction::Exec(exec) => ShellView {
                command: texts(exec.command@),
                timeout_ms: exec.timeout_ms,
                working_directory: opt_text(exec.working_directory),
            },
        }
    }
}

/// An item of a conversation.
#[allow(inconsistent_fields)]
#[derive(Debug, PartialEq)]
pub enum ResponseItem {
    Message {
        id: Option<String>,
        role: String,
        content: Vec<ContentItem>,
        phase: Option<String>,
    },
    Reasoning {
        id: String,
        summary: Vec<ReasoningItemReasoningSummary>,
        content: Option<Vec<ReasoningItemContent>>,
        encrypted_content: Option<String>,
    },
    LocalShellCall { id: Option<String>, call_id: Option<String>, action: LocalShellAction },
    FunctionCall {
        id: Option<String>,
        name: String,
        namespace: Option<String>,
        arguments: String,
        call_id: String,
    },
    FunctionCallOutput { call_id: String, output: FunctionCallOutputPayload },
    CustomToolCall { call_id: String, name: String, input: String },
    CustomToolCallOutput {
        call_id: String,
        name: Option<String>,
        output: FunctionCallOutputPayload,
    },
    ToolSearchCall,
    ToolSearchOutput,
    WebSearchCall,
    ImageGenerationCall,
    Compaction,
    CompactionTrigger,
    ContextCompaction,
    Other,
}

#[allow(inconsistent_fields)]
#[verifier::ext_equal]
pub enum ItemView {
    Message {
        id: Option<Seq<char>>,
        role: Seq<char>,
        content: Seq<ContentView>,
        phase: Option<Seq<char>>,
    },
    Reasoning {
        id: Seq<char>,
        summary: Seq<Seq<char>>,
        content: Option<Seq<ReasoningView>>,
        encrypted_content: Option<Seq<char>>,
    },
    LocalShellCall { id: Option<Seq<char>>, call_id: Option<Seq<char>>, action: ShellView },
    FunctionCall {
        id: Option<Seq<char>>,
        name: Seq<char>,
        namespace: Option<Seq<char>>,
        arguments: Seq<char>,
        call_id: Seq<char>,
    },
    FunctionCallOutput { call_id: Seq<char>, output: PayloadView },
    CustomToolCall { call_id: Seq<char>, name: Seq<char>, input: Seq<char> },
    CustomToolCallOutput { call_id: Seq<char>, name: Option<Seq<char>>, output: PayloadView },
    ToolSearchCall,
    ToolSearchOutput,
    WebSearchCall,
    ImageGenerationCall,
    Compaction,
    CompactionTrigger,
    ContextCompaction,
    Other,
}

impl View for ResponseItem {
    type V = ItemView;

    open spec fn view(&self) -> ItemView {
        match *self {
            ResponseItem::Message { id, role, content, phase } => ItemView::Message {
                id: opt_text(id),
                role: role@,
                content: contents(content@),
                phase: opt_text(phase),
            },
            ResponseItem::Reasoning { id, summary, content, encrypted_content } =>
            ItemView::Reasoning {
                id: id@,
                summary: summaries(summary@),
                content: match content {
                    Some(items) => Some(reasonings(items@)),
                    None => None,
                },
                encrypted_content: opt_text(encrypted_content),
            },
            ResponseItem::LocalShellCall { id, call_id, action } => ItemView::LocalShellCall {
                id: opt_text(id),
                call_id: opt_text(call_id),
                action: action@,
            },
            ResponseItem::FunctionCall { id, name, namespace, arguments, call_id } =>
            ItemView::FunctionCall {
                id: opt_text(id),
                name: name@,
                namespace: opt_text(namespace),
                arguments: arguments@,
                call_id: call_id@,
            },
            ResponseItem::FunctionCallOutput { call_id, output } => ItemView::FunctionCallOutput {
                call_id: call_id@,
                output: output@,
            },
            ResponseItem::CustomToolCall { call_id, name, input } => ItemView::CustomToolCall {
                call_id: call_id@,
                name: name@,
                input: input@,
            },
            ResponseItem::CustomToolCallOutput { call_id, name, output } =>
            ItemView::CustomToolCallOutput {
                call_id: call_id@,
                name: opt_text(name),
                output: output@,
            },
            ResponseItem::ToolSearchCall => ItemView::ToolSearchCall,
            ResponseItem::ToolSearchOutput => ItemView::ToolSearchOutput,
            ResponseItem::WebSearchCall => ItemView::WebSearchCall,
            ResponseItem::ImageGenerationCall => ItemView::ImageGenerationCall,
            ResponseItem::Compaction => ItemView::Compaction,
            ResponseItem::CompactionTrigger => ItemView::CompactionTrigger,
            ResponseItem::ContextCompaction => ItemView::ContextCompaction,
            ResponseItem::Other => ItemView::Other,
        }
    }
}

pub open spec fn items(items: Seq<ResponseItem>) -> Seq<ItemView> {
    items.map_values(|i: ResponseItem| i@)
}

/// How many tokens an answer took.
#[derive(Debug, Clone, Copy, PartialEq, Eq, Structural)]
pub struct TokenUsage {
    pub input_tokens: i64,
    pub cached_input_tokens: i64,
    pub output_tokens: i64,
    pub reasoning_output_tokens: i64,
    pub total_tokens: i64,
}

/// What happens while a model answers.
#[derive(Debug, PartialEq)]
pub enum ResponseEvent {
    Created,
    ServerModel(String),
    OutputItemAdded(ResponseItem),
    OutputItemDone(ResponseItem),
    OutputTextDelta(String),
    ReasoningContentDelta { delta: String, content_index: i64 },
    Completed { response_id: String, token_usage: Option<TokenUsage>, end_turn: Option<bool> },
}

#[verifier::ext_equal]
pub enum EventView {
    Created,
    ServerModel(Seq<char>),
    OutputItemAdded(ItemView),
    OutputItemDone(ItemView),
    OutputTextDelta(Seq<char>),
    ReasoningContentDelta { delta: Seq<char>, content_index: i64 },
    Completed { response_id: Seq<char>, token_usage: Option<TokenUsage>, end_turn: Option<bool> },
}

impl View for ResponseEvent {
    type V = EventView;

    open spec fn view(&self) -> EventView {
        match *self {
            ResponseEvent::Created => EventView::Created,
            ResponseEvent::ServerModel(model) => EventView::ServerModel(model@),
            ResponseEvent::OutputItemAdded(item) => EventView::OutputItemAdded(item@),
            ResponseEvent::OutputItemDone(item) => EventView::OutputItemDone(item@),
            ResponseEvent::OutputTextDelta(delta) => EventView::OutputTextDelta(delta@),
            ResponseEvent::ReasoningContentDelta { delta, content_index } =>
            EventView::ReasoningContentDelta { delta: delta@, content_index },
            ResponseEvent::Completed { response_id, token_usage, end_turn } =>
            EventView::Completed { response_id: response_id@, token_usage, end_turn },
        }
    }
}

/// Why an answer broke off.
#[derive(Debug, PartialEq)]
pub enum ApiError {
    Stream(String),
}

#[verifier::ext_equal]
pub enum ErrorView {
    Stream(Seq<char>),
}

impl View for ApiError {
    type V = ErrorView;

    open spec fn view(&self) -> ErrorView {
        match *self {
            ApiError::Stream(message) => ErrorView::Stream(message@),
        }
    }
}

/// What is handed to the reader of a stream: an event, or the error that ends it.
pub type StreamResult = Result<ResponseEvent, ApiError>;

pub type StreamResultView = Result<EventView, ErrorView>;

pub open spec fn result_view(r: StreamResult) -> StreamResultView {
    match r {
        Ok(event) => Ok(event@),
        Err(error) => Err(error@),
    }
}

pub open spec fn results(out: Seq<StreamResult>) -> Seq<StreamResultView> {
    out.map_values(|r: StreamResult| result_view(r))
}

/// Adds an event to what is to be sent.
pub fn emit(out: &mut Vec<StreamResult>, event: ResponseEvent)
    ensures
        results(final(out)@) == results(old(out)@).push(Ok(event@)),
{
    out.push(Ok(event));
    assert(results(out@) =~= results(old(out)@).push(Ok(event@)));
}

/// Adds an error to what is to be sent.
pub fn emit_error(out: &mut Vec<StreamResult>, message: String)
    ensures
        results(final(out)@) == results(old(out)@).push(Err(ErrorView::Stream(message@))),
{
    out.push(Err(ApiError::Stream(message)));
    assert(results(out@) =~= results(old(out)@).push(Err(ErrorView::Stream(message@))));
}

/// What a stream does on one input: what it sends, in this order, and whether
/// it ends after that.
#[derive(Debug, PartialEq)]
pub struct StreamStep {
    pub events: Vec<StreamResult>,
    pub done: bool,
}

} // verus!
