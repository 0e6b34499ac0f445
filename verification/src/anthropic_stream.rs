//! The answer of an Anthropic messages service, event by event, as events of
//! this library.
use serde_json::Value;
use std::collections::BTreeMap;
use vstd::prelude::*;
use vstd::string::*;

use crate::json::{opt_json, parsed_json, plain_within, render_value, rendered_json, Json};
use crate::protocol::{
    emit, emit_error, results, ContentItem, ContentView, ErrorView, EventView, ItemView,
    ReasoningItemReasoningSummary, ResponseEvent, ResponseItem, StreamResult, StreamResultView,
    StreamStep, TokenUsage,
};
use crate::text::{concat3, decimal, decimal_text, opt_text, str_eq};

verus! {

/// The tokens that the service counted when it began to answer.
#[derive(Debug, Clone, Copy)]
pub struct AnthropicUsage {
    pub input_tokens: i64,
    pub output_tokens: i64,
}

/// The tokens that the service has counted by now.
#[derive(Debug, Clone, Copy)]
pub struct AnthropicUsageDelta {
    pub output_tokens: Option<i64>,
}

/// The beginning of an answer.
#[derive(Debug)]
pub struct AnthropicMessageStart {
    pub id: String,
    pub usage: Option<AnthropicUsage>,
}

#[verifier::ext_equal]
pub struct MessageStartView {
    pub id: Seq<char>,
    pub usage: Option<AnthropicUsage>,
}

impl View for AnthropicMessageStart {
    type V = MessageStartView;

    open spec fn view(&self) -> MessageStartView {
        MessageStartView { id: self.id@, usage: self.usage }
    }
}

/// What the service says went wrong.
#[derive(Debug)]
pub struct AnthropicError {
    pub message: String,
}

/// The beginning of a block of an answer.
#[derive(Debug)]
pub enum AnthropicContentBlockStart {
    Text { text: Option<String> },
    ToolUse { id: String, name: String, input: Option<Value> },
    Other,
}

#[verifier::ext_equal]
pub enum BlockStartView {
    Text { text: Option<Seq<char>> },
    ToolUse { id: Seq<char>, name: Seq<char>, input: Option<Json> },
    Other,
}

impl View for AnthropicContentBlockStart {
    type V = BlockStartView;

    open spec fn view(&self) -> BlockStartView {
        match *self {
            AnthropicContentBlockStart::Text { text } => BlockStartView::Text {
                text: opt_text(text),
            },
            AnthropicContentBlockStart::ToolUse { id, name, input } => BlockStartView::ToolUse {
                id: id@,
                name: name@,
                input: opt_json(input),
            },
            AnthropicContentBlockStart::Other => BlockStartView::Other,
        }
    }
}

/// A piece of a block, or the news at the end of an answer.
#[derive(Debug)]
pub struct AnthropicDelta {
    pub kind: Option<String>,
    pub text: Option<String>,
    pub partial_json: Option<String>,
    pub thinking: Option<String>,
    pub stop_reason: Option<String>,
}

#[verifier::ext_equal]
pub struct DeltaView {
    pub kind: Option<Seq<char>>,
    pub text: Option<Seq<char>>,
    pub partial_json: Option<Seq<char>>,
    pub thinking: Option<Seq<char>>,
    pub stop_reason: Option<Seq<char>>,
}

impl View for AnthropicDelta {
    type V = DeltaView;

    open spec fn view(&self) -> DeltaView {
        DeltaView {
            kind: opt_text(self.kind),
            text: opt_text(self.text),
            partial_json: opt_text(self.partial_json),
            thinking: opt_text(self.thinking),
            stop_reason: opt_text(self.stop_reason),
        }
    }
}

/// An event of the service.
#[derive(Debug)]
pub struct AnthropicStreamEvent {
    pub kind: String,
    pub message: Option<AnthropicMessageStart>,
    pub index: Option<usize>,
    pub content_block: Option<AnthropicContentBlockStart>,
    pub delta: Option<AnthropicDelta>,
    pub usage: Option<AnthropicUsageDelta>,
    pub error: Option<AnthropicError>,
}

#[verifier::ext_equal]
pub struct StreamEventView {
    pub kind: Seq<char>,
    pub message: Option<MessageStartView>,
    pub index: Option<usize>,
    pub content_block: Option<BlockStartView>,
    pub delta: Option<DeltaView>,
    pub usage: Option<AnthropicUsageDelta>,
    pub error: Option<Seq<char>>,
}

impl View for AnthropicStreamEvent {
    type V = StreamEventView;

    open spec fn view(&self) -> StreamEventView {
        StreamEventView {
            kind: self.kind@,
            message: match self.message {
                Some(m) => Some(m@),
                None => None,
            },
            index: self.index,
            content_block: match self.content_block {
                Some(b) => Some(b@),
                None => None,
            },
            delta: match self.delta {
                Some(d) => Some(d@),
                None => None,
            },
            usage: self.usage,
            error: match self.error {
                Some(e) => Some(e.message@),
                None => None,
            },
        }
    }
}

/// A block of an answer that is not closed yet.
#[derive(Debug)]
pub enum AnthropicBlockState {
    Text { text: String },
    ToolUse { id: String, name: String, initial_input: Option<Value>, partial_json: String },
    Thinking { text: String },
    Other,
}

#[verifier::ext_equal]
pub enum BlockView {
    Text { text: Seq<char> },
    ToolUse {
        id: Seq<char>,
        name: Seq<char>,
        initial_input: Option<Json>,
        partial_json: Seq<char>,
    },
    Thinking { text: Seq<char> },
    Other,
}

impl View for AnthropicBlockState {
    type V = BlockView;

    open spec fn view(&self) -> BlockView {
        match *self {
            AnthropicBlockState::Text { text } => BlockView::Text { text: text@ },
            AnthropicBlockState::ToolUse { id, name, initial_input, partial_json } =>
            BlockView::ToolUse {
                id: id@,
                name: name@,
                initial_input: opt_json(initial_input),
                partial_json: partial_json@,
            },
            AnthropicBlockState::Thinking { text } => BlockView::Thinking { text: text@ },
            AnthropicBlockState::Other => BlockView::Other,
        }
    }
}

/// An answer of which the events so far are put together.
#[derive(Debug)]
pub struct AnthropicStreamState {
    pub response_id: Option<String>,
    pub blocks: BTreeMap<usize, AnthropicBlockState>,
    pub input_tokens: Option<i64>,
    pub output_tokens: Option<i64>,
    pub stop_reason: Option<String>,
}

#[verifier::ext_equal]
pub struct AnthropicView {
    pub response_id: Option<Seq<char>>,
    pub blocks: Map<usize, BlockView>,
    pub input_tokens: Option<i64>,
    pub output_tokens: Option<i64>,
    pub stop_reason: Option<Seq<char>>,
}

pub open spec fn blocks(m: Map<usize, AnthropicBlockState>) -> Map<usize, BlockView> {
    m.map_values(|b: AnthropicBlockState| b@)
}

impl View for AnthropicStreamState {
    type V = AnthropicView;

    open spec fn view(&self) -> AnthropicView {
        AnthropicView {
            response_id: opt_text(self.response_id),
            blocks: blocks(self.blocks@),
            input_tokens: self.input_tokens,
            output_tokens: self.output_tokens,
            stop_reason: opt_text(self.stop_reason),
        }
    }
}

/// An answer of which nothing has come yet.
pub open spec fn fresh_answer() -> AnthropicView {
    AnthropicView {
        response_id: None,
        blocks: Map::empty(),
        input_tokens: None,
        output_tokens: None,
        stop_reason: None,
    }
}

impl AnthropicView {
    /// The answer's id: the one the service gave, or a fixed one.
    pub open spec fn id(self) -> Seq<char> {
        match self.response_id {
            Some(id) => id,
            None => "anthropic-message"@,
        }
    }

    /// The id of the item that a block becomes.
    pub open spec fn block_id(self, kind: Seq<char>, index: usize) -> Seq<char> {
        self.id() + kind + decimal(index as nat)
    }

    /// A block of text as an item.
    pub open spec fn text_item(self, index: usize, text: Seq<char>) -> ItemView {
        ItemView::Message {
            id: Some(self.block_id(":text:"@, index)),
            role: "assistant"@,
            content: if text.len() == 0 {
                Seq::empty()
            } else {
                seq![ContentView::OutputText { text }]
            },
            phase: None,
        }
    }

    /// The tokens given out, as far as they are known.
    pub open spec fn output_count(self) -> i64 {
        match self.output_tokens {
            Some(n) => n,
            None => 0,
        }
    }

    /// Whether the tokens taken in and given out can be added up.
    pub open spec fn usage_fits(self) -> bool {
        self.input_tokens matches Some(n) ==> i64::MIN <= n + self.output_count() <= i64::MAX
    }

    /// The tokens that the answer took. Nothing is told of them where the
    /// service did not count those taken in.
    pub open spec fn usage(self) -> Option<TokenUsage> {
        match self.input_tokens {
            Some(n) => Some(
                TokenUsage {
                    input_tokens: n,
                    cached_input_tokens: 0,
                    output_tokens: self.output_count(),
                    reasoning_output_tokens: 0,
                    total_tokens: (n + self.output_count()) as i64,
                },
            ),
            None => None,
        }
    }

    /// Whether the turn is over with this answer: not if the model waits for a
    /// tool or ran out of tokens.
    pub open spec fn turn_ends(self) -> bool {
        &&& self.stop_reason != Some("tool_use"@)
        &&& self.stop_reason != Some("max_tokens"@)
    }

    /// A closed block as an item, if it becomes one.
    pub open spec fn block_item(self, index: usize, block: BlockView) -> Option<ItemView> {
        match block {
            BlockView::Text { text } => Some(self.text_item(index, text)),
            BlockView::ToolUse { id, name, initial_input, partial_json } => Some(
                call_item(id, name, tool_arguments(initial_input, partial_json)),
            ),
            BlockView::Thinking { text } => Some(
                ItemView::Reasoning {
                    id: self.block_id(":thinking:"@, index),
                    summary: seq![text],
                    content: None,
                    encrypted_content: None,
                },
            ),
            BlockView::Other => None,
        }
    }

    /// The answer after news of it as a whole.
    pub open spec fn updated(
        self,
        delta: Option<DeltaView>,
        usage: Option<AnthropicUsageDelta>,
    ) -> AnthropicView {
        AnthropicView {
            stop_reason: match delta {
                Some(d) => d.stop_reason,
                None => self.stop_reason,
            },
            output_tokens: match usage {
                Some(AnthropicUsageDelta { output_tokens: Some(n) }) => Some(n),
                _ => self.output_tokens,
            },
            ..self
        }
    }

    pub open spec fn with_block(self, index: usize, block: BlockView) -> AnthropicView {
        AnthropicView { blocks: self.blocks.insert(index, block), ..self }
    }

    pub open spec fn without_block(self, index: usize) -> AnthropicView {
        AnthropicView { blocks: self.blocks.remove(index), ..self }
    }
}

/// The arguments of a tool call: the pieces that came for it, or else the input
/// it began with.
pub open spec fn tool_arguments(initial_input: Option<Json>, partial_json: Seq<char>) -> Seq<
    char,
> {
    if partial_json.len() > 0 {
        partial_json
    } else {
        match initial_input {
            Some(input) => rendered_json(input),
            None => "{}"@,
        }
    }
}

/// The text that a piece adds to a block of text: the piece's own, if it is one
/// of text.
pub open spec fn added_text(block: Option<BlockView>, delta: DeltaView) -> Option<Seq<char>> {
    if block is Some && block->0 is Text && delta.kind == Some("text_delta"@) {
        delta.text
    } else {
        None
    }
}

/// A block with a piece added. A piece of another kind than the block changes
/// nothing. Where there is no block yet, thinking begins one.
pub open spec fn grown(block: Option<BlockView>, delta: DeltaView) -> Option<BlockView> {
    match block {
        Some(BlockView::Text { text }) => Some(
            if delta.kind == Some("text_delta"@) && delta.text is Some {
                BlockView::Text { text: text + delta.text->0 }
            } else {
                BlockView::Text { text }
            },
        ),
        Some(BlockView::ToolUse { id, name, initial_input, partial_json }) => Some(
            BlockView::ToolUse {
                id,
                name,
                initial_input,
                partial_json: if delta.kind == Some("input_json_delta"@)
                    && delta.partial_json is Some {
                    partial_json + delta.partial_json->0
                } else {
                    partial_json
                },
            },
        ),
        Some(BlockView::Thinking { text }) => Some(
            if delta.kind == Some("thinking_delta"@) && delta.thinking is Some {
                BlockView::Thinking { text: text + delta.thinking->0 }
            } else {
                BlockView::Thinking { text }
            },
        ),
        Some(BlockView::Other) => Some(BlockView::Other),
        None => if delta.kind == Some("thinking_delta"@) && delta.thinking is Some {
            Some(BlockView::Thinking { text: delta.thinking->0 })
        } else {
            None
        },
    }
}

/// A block as it begins.
pub open spec fn begun(start: Option<BlockStartView>) -> BlockView {
    match start {
        Some(BlockStartView::Text { text }) => BlockView::Text {
            text: match text {
                Some(t) => t,
                None => Seq::empty(),
            },
        },
        Some(BlockStartView::ToolUse { id, name, input }) => BlockView::ToolUse {
            id,
            name,
            initial_input: input,
            partial_json: Seq::empty(),
        },
        Some(BlockStartView::Other) | None => BlockView::Other,
    }
}

/// An answer that is being read: what is known of it, what was sent, and whether
/// it is at its end.
#[verifier::ext_equal]
pub struct AnthropicRun {
    pub state: AnthropicView,
    pub sent: Seq<StreamResultView>,
    pub done: bool,
}

impl AnthropicRun {
    pub open spec fn send(self, event: EventView) -> AnthropicRun {
        AnthropicRun { sent: self.sent.push(Ok(event)), ..self }
    }

    pub open spec fn at(self, state: AnthropicView) -> AnthropicRun {
        AnthropicRun { state, ..self }
    }

    /// The answer breaks off.
    pub open spec fn broken(self, message: Seq<char>) -> AnthropicRun {
        AnthropicRun { sent: self.sent.push(Err(ErrorView::Stream(message))), done: true, ..self }
    }

    /// The answer begins.
    pub open spec fn started(self, message: Option<MessageStartView>) -> AnthropicRun {
        let state = match message {
            Some(m) => AnthropicView {
                response_id: Some(m.id),
                input_tokens: match m.usage {
                    Some(usage) => Some(usage.input_tokens),
                    None => self.state.input_tokens,
                },
                output_tokens: match m.usage {
                    Some(usage) => Some(usage.output_tokens),
                    None => self.state.output_tokens,
                },
                ..self.state
            },
            None => self.state,
        };
        self.at(state).send(EventView::Created)
    }

    /// A block begins. Only of a block of text is it told.
    pub open spec fn block_started(
        self,
        index: usize,
        start: Option<BlockStartView>,
    ) -> AnthropicRun {
        let block = begun(start);
        let run = self.at(self.state.with_block(index, block));
        match block {
            BlockView::Text { text } => run.send(
                EventView::OutputItemAdded(self.state.text_item(index, text)),
            ),
            _ => run,
        }
    }

    /// A piece of a block comes.
    pub open spec fn block_grown(self, index: usize, delta: DeltaView) -> AnthropicRun {
        let block = self.state.blocks.get(index);
        let run = match grown(block, delta) {
            Some(b) => self.at(self.state.with_block(index, b)),
            None => self,
        };
        match added_text(block, delta) {
            Some(text) => run.send(EventView::OutputTextDelta(text)),
            None => run,
        }
    }

    /// A block is closed.
    pub open spec fn block_stopped(self, index: usize) -> AnthropicRun {
        match self.state.blocks.get(index) {
            Some(block) => {
                let run = self.at(self.state.without_block(index));
                match self.state.block_item(index, block) {
                    Some(item) => run.send(EventView::OutputItemDone(item)),
                    None => run,
                }
            },
            None => self,
        }
    }

    /// The answer is at its end.
    pub open spec fn stopped(self) -> AnthropicRun {
        let run = self.send(
            EventView::Completed {
                response_id: self.state.id(),
                token_usage: self.state.usage(),
                end_turn: Some(self.state.turn_ends()),
            },
        );
        AnthropicRun { done: true, ..run }
    }

    /// An event of the service comes. Those of other kinds are passed over, and
    /// so are those of a block that do not say which block.
    pub open spec fn event(self, event: StreamEventView) -> AnthropicRun {
        if event.kind == "message_start"@ {
            self.started(event.message)
        } else if event.kind == "content_block_start"@ {
            match event.index {
                Some(index) => self.block_started(index, event.content_block),
                None => self,
            }
        } else if event.kind == "content_block_delta"@ {
            match (event.index, event.delta) {
                (Some(index), Some(delta)) => self.block_grown(index, delta),
                _ => self,
            }
        } else if event.kind == "content_block_stop"@ {
            match event.index {
                Some(index) => self.block_stopped(index),
                None => self,
            }
        } else if event.kind == "message_delta"@ {
            self.at(self.state.updated(event.delta, event.usage))
        } else if event.kind == "message_stop"@ {
            self.stopped()
        } else if event.kind == "error"@ {
            self.broken(
                match event.error {
                    Some(message) => message,
                    None => "Anthropic stream error"@,
                },
            )
        } else {
            self
        }
    }

    /// Waiting for the service comes to something.
    pub open spec fn poll(self, poll: AnthropicPollView) -> AnthropicRun {
        match poll {
            AnthropicPollView::Event(Some(event)) => self.event(event),
            AnthropicPollView::Event(None) => self,
            AnthropicPollView::Failed(message) => self.broken(message),
            AnthropicPollView::Closed => self.broken(
                "stream closed before anthropic message_stop"@,
            ),
            AnthropicPollView::TimedOut => self.broken("idle timeout waiting for SSE"@),
        }
    }
}

/// What waiting for the service came to: the data of an event, decoded, if they
/// could be; or a failure; or its end; or nothing in time.
#[derive(Debug)]
pub enum AnthropicPoll {
    Event(Option<AnthropicStreamEvent>),
    Failed(String),
    Closed,
    TimedOut,
}

#[verifier::ext_equal]
pub enum AnthropicPollView {
    Event(Option<StreamEventView>),
    Failed(Seq<char>),
    Closed,
    TimedOut,
}

impl View for AnthropicPoll {
    type V = AnthropicPollView;

    open spec fn view(&self) -> AnthropicPollView {
        match *self {
            AnthropicPoll::Event(event) => AnthropicPollView::Event(
                match event {
                    Some(e) => Some(e@),
                    None => None,
                },
            ),
            AnthropicPoll::Failed(message) => AnthropicPollView::Failed(message@),
            AnthropicPoll::Closed => AnthropicPollView::Closed,
            AnthropicPoll::TimedOut => AnthropicPollView::TimedOut,
        }
    }
}

/// Whether an event ends the answer as it should.
pub open spec fn ends_answer(poll: AnthropicPollView) -> bool {
    poll matches AnthropicPollView::Event(Some(event)) && event.kind == "message_stop"@
}

impl Default for AnthropicStreamState {
    fn default() -> (r: Self)
        ensures
            r@ == fresh_answer(),
    {
        let r = AnthropicStreamState {
            response_id: None,
            blocks: BTreeMap::new(),
            input_tokens: None,
            output_tokens: None,
            stop_reason: None,
        };
        assert(r@ =~= fresh_answer());
        r
    }
}

/// The answer so far and what is to be sent, as one.
pub open spec fn anthropic_run(
    state: AnthropicStreamState,
    out: Seq<StreamResult>,
    done: bool,
) -> AnthropicRun {
    AnthropicRun { state: state@, sent: results(out), done }
}

/// Whether an optional text is there and is the given one.
fn is_kind(kind: &Option<String>, name: &str) -> (r: bool)
    ensures
        r == (opt_text(*kind) == Some(name@)),
{
    match kind {
        Some(k) => str_eq(k.as_str(), name),
        None => false,
    }
}

impl AnthropicStreamState {
    /// The answer's id: the one the service gave, or a fixed one.
    pub fn response_id(&self) -> (r: String)
        ensures
            r@ == self@.id(),
    {
        match &self.response_id {
            Some(id) => id.clone(),
            None => "anthropic-message".to_string(),
        }
    }

    /// The id of the item that a block becomes.
    fn block_id(&self, kind: &str, index: usize) -> (r: String)
        ensures
            r@ == self@.block_id(kind@, index),
    {
        concat3(self.response_id().as_str(), kind, decimal_text(index).as_str())
    }

    /// A block of text as an item.
    pub fn text_item(&self, index: usize, text: String) -> (r: ResponseItem)
        ensures
            r@ == self@.text_item(index, text@),
    {
        let ghost whole = text@;
        let id = self.block_id(":text:", index);
        let mut content: Vec<ContentItem> = Vec::new();
        if !text.as_str().is_empty() {
            content.push(ContentItem::OutputText { text });
        }
        let r = ResponseItem::Message {
            id: Some(id),
            role: "assistant".to_string(),
            content,
            phase: None,
        };
        assert(r@ =~= self@.text_item(index, whole));
        r
    }

    /// Whether the tokens taken in and given out can be added up.
    pub fn usage_fits(&self) -> (r: bool)
        ensures
            r == self@.usage_fits(),
    {
        match self.input_tokens {
            Some(input) => {
                let output: i64 = match self.output_tokens {
                    Some(n) => n,
                    None => 0,
                };
                input.checked_add(output).is_some()
            },
            None => true,
        }
    }

    /// The tokens that the answer took.
    pub fn token_usage(&self) -> (r: Option<TokenUsage>)
        requires
            self@.usage_fits(),
        ensures
            r == self@.usage(),
    {
        match self.input_tokens {
            Some(input_tokens) => {
                let output_tokens: i64 = match self.output_tokens {
                    Some(n) => n,
                    None => 0,
                };
                Some(
                    TokenUsage {
                        input_tokens,
                        cached_input_tokens: 0,
                        output_tokens,
                        reasoning_output_tokens: 0,
                        total_tokens: input_tokens + output_tokens,
                    },
                )
            },
            None => None,
        }
    }
}

/// A call of a tool as an item.
pub open spec fn call_item(id: Seq<char>, name: Seq<char>, arguments: Seq<char>) -> ItemView {
    ItemView::FunctionCall { id: Some(id), name, namespace: None, arguments, call_id: id }
}

/// A call of a tool as an item.
pub fn function_call_item(id: String, name: String, arguments: String) -> (r: ResponseItem)
    ensures
        r@ == call_item(id@, name@, arguments@),
{
    ResponseItem::FunctionCall {
        id: Some(id.clone()),
        name,
        namespace: None,
        arguments,
        call_id: id,
    }
}

/// A closed block as an item, if it becomes one. The arguments of a tool call of
/// which no pieces came read back as the input that it began with.
pub fn finish_content_block(
    state: &AnthropicStreamState,
    index: usize,
    block: AnthropicBlockState,
) -> (r: Option<ResponseItem>)
    ensures
        match r {
            Some(item) => state@.block_item(index, block@) == Some(item@),
            None => state@.block_item(index, block@) is None,
        },
        (block@ matches BlockView::ToolUse { initial_input: Some(input), partial_json, .. }
            && partial_json.len() == 0 && plain_within(input, 127)) ==> (r matches Some(item)
            && item@ matches ItemView::FunctionCall { arguments, .. } && parsed_json(arguments)
            == opt_json(block->initial_input)),
{
    let ghost view = block@;
    match block {
        AnthropicBlockState::Text { text } => Some(state.text_item(index, text)),
        AnthropicBlockState::ToolUse { id, name, initial_input, partial_json } => {
            let arguments = if partial_json.as_str().is_empty() {
                match initial_input {
                    Some(input) => render_value(&input),
                    None => "{}".to_string(),
                }
            } else {
                partial_json
            };
            Some(function_call_item(id, name, arguments))
        },
        AnthropicBlockState::Thinking { text } => {
            let id = state.block_id(":thinking:", index);
            let mut summary: Vec<ReasoningItemReasoningSummary> = Vec::new();
            summary.push(ReasoningItemReasoningSummary::SummaryText { text });
            let item = ResponseItem::Reasoning {
                id,
                summary,
                content: None,
                encrypted_content: None,
            };
            assert(item@ =~= state@.block_item(index, view)->0);
            Some(item)
        },
        AnthropicBlockState::Other => None,
    }
}

/// Takes the beginning of the answer in.
fn handle_message_start(
    state: &mut AnthropicStreamState,
    out: &mut Vec<StreamResult>,
    message: Option<AnthropicMessageStart>,
)
    ensures
        anthropic_run(*final(state), final(out)@, false) == anthropic_run(
            *old(state),
            old(out)@,
            false,
        ).started(
            match message {
                Some(m) => Some(m@),
                None => None,
            },
        ),
{
    if let Some(message) = message {
        state.response_id = Some(message.id);
        if let Some(usage) = message.usage {
            state.input_tokens = Some(usage.input_tokens);
            state.output_tokens = Some(usage.output_tokens);
        }
    }
    emit(out, ResponseEvent::Created);
}

/// Takes the beginning of a block in.
fn handle_block_start(
    state: &mut AnthropicStreamState,
    out: &mut Vec<StreamResult>,
    index: usize,
    start: Option<AnthropicContentBlockStart>,
)
    ensures
        anthropic_run(*final(state), final(out)@, false) == anthropic_run(
            *old(state),
            old(out)@,
            false,
        ).block_started(
            index,
            match start {
                Some(b) => Some(b@),
                None => None,
            },
        ),
{
    let ghost before = state.blocks@;
    let block = match start {
        Some(AnthropicContentBlockStart::Text { text }) => {
            let text = match text {
                Some(t) => t,
                None => String::new(),
            };
            let item = state.text_item(index, text.clone());
            emit(out, ResponseEvent::OutputItemAdded(item));
            AnthropicBlockState::Text { text }
        },
        Some(AnthropicContentBlockStart::ToolUse { id, name, input }) => {
            AnthropicBlockState::ToolUse {
                id,
                name,
                initial_input: input,
                partial_json: String::new(),
            }
        },
        Some(AnthropicContentBlockStart::Other) | None => AnthropicBlockState::Other,
    };
    assert(blocks(before.insert(index, block)) =~= blocks(before).insert(index, block@));
    state.blocks.insert(index, block);
}

/// Adds a piece to a block, and tells what text to send.
fn grow_block(block: AnthropicBlockState, delta: AnthropicDelta) -> (r: (
    AnthropicBlockState,
    Option<String>,
))
    ensures
        grown(Some(block@), delta@) == Some(r.0@),
        added_text(Some(block@), delta@) == opt_text(r.1),
{
    match block {
        AnthropicBlockState::Text { mut text } => {
            if is_kind(&delta.kind, "text_delta") {
                if let Some(added) = delta.text {
                    text.append(added.as_str());
                    return (AnthropicBlockState::Text { text }, Some(added));
                }
            }
            (AnthropicBlockState::Text { text }, None)
        },
        AnthropicBlockState::ToolUse { id, name, initial_input, mut partial_json } => {
            if is_kind(&delta.kind, "input_json_delta") {
                if let Some(added) = delta.partial_json {
                    partial_json.append(added.as_str());
                }
            }
            (AnthropicBlockState::ToolUse { id, name, initial_input, partial_json }, None)
        },
        AnthropicBlockState::Thinking { mut text } => {
            if is_kind(&delta.kind, "thinking_delta") {
                if let Some(added) = delta.thinking {
                    text.append(added.as_str());
                }
            }
            (AnthropicBlockState::Thinking { text }, None)
        },
        AnthropicBlockState::Other => (AnthropicBlockState::Other, None),
    }
}

/// Takes a piece of a block in.
fn handle_block_delta(
    state: &mut AnthropicStreamState,
    out: &mut Vec<StreamResult>,
    index: usize,
    delta: AnthropicDelta,
)
    ensures
        anthropic_run(*final(state), final(out)@, false) == anthropic_run(
            *old(state),
            old(out)@,
            false,
        ).block_grown(index, delta@),
{
    let ghost before = state.blocks@;
    match state.blocks.remove(&index) {
        Some(block) => {
            let (block, added) = grow_block(block, delta);
            assert(blocks(before.remove(index).insert(index, block)) =~= blocks(before).insert(
                index,
                block@,
            ));
            state.blocks.insert(index, block);
            if let Some(text) = added {
                emit(out, ResponseEvent::OutputTextDelta(text));
            }
        },
        None => {
            assert(before.remove(index) =~= before);
            if is_kind(&delta.kind, "thinking_delta") {
                if let Some(thinking) = delta.thinking {
                    let block = AnthropicBlockState::Thinking { text: thinking };
                    assert(blocks(before.insert(index, block)) =~= blocks(before).insert(
                        index,
                        block@,
                    ));
                    state.blocks.insert(index, block);
                }
            }
        },
    }
}

/// Takes the end of a block in.
fn handle_block_stop(
    state: &mut AnthropicStreamState,
    out: &mut Vec<StreamResult>,
    index: usize,
)
    ensures
        anthropic_run(*final(state), final(out)@, false) == anthropic_run(
            *old(state),
            old(out)@,
            false,
        ).block_stopped(index),
{
    let ghost before = state.blocks@;
    let taken = state.blocks.remove(&index);
    assert(blocks(before.remove(index)) =~= blocks(before).remove(index));
    match taken {
        Some(block) => {
            if let Some(item) = finish_content_block(state, index, block) {
                emit(out, ResponseEvent::OutputItemDone(item));
            }
        },
        None => {
            assert(before.remove(index) =~= before);
        },
    }
}

/// Takes news of the answer as a whole in.
fn handle_message_delta(
    state: &mut AnthropicStreamState,
    delta: Option<AnthropicDelta>,
    usage: Option<AnthropicUsageDelta>,
)
    ensures
        final(state)@ == old(state)@.updated(
            match delta {
                Some(d) => Some(d@),
                None => None,
            },
            usage,
        ),
{
    if let Some(delta) = delta {
        state.stop_reason = delta.stop_reason;
    }
    if let Some(usage) = usage {
        if let Some(output_tokens) = usage.output_tokens {
            state.output_tokens = Some(output_tokens);
        }
    }
}

/// Takes the end of the answer in.
fn handle_message_stop(state: &AnthropicStreamState, out: &mut Vec<StreamResult>)
    requires
        state@.usage_fits(),
    ensures
        anthropic_run(*state, final(out)@, true) == anthropic_run(
            *state,
            old(out)@,
            false,
        ).stopped(),
{
    let end_turn = !is_kind(&state.stop_reason, "tool_use") && !is_kind(
        &state.stop_reason,
        "max_tokens",
    );
    emit(
        out,
        ResponseEvent::Completed {
            response_id: state.response_id(),
            token_usage: state.token_usage(),
            end_turn: Some(end_turn),
        },
    );
}

/// Takes an event of the service in, and tells whether it ends the answer.
fn handle_event(
    state: &mut AnthropicStreamState,
    out: &mut Vec<StreamResult>,
    event: AnthropicStreamEvent,
) -> (done: bool)
    requires
        event.kind@ == "message_stop"@ ==> old(state)@.usage_fits(),
    ensures
        anthropic_run(*final(state), final(out)@, done) == anthropic_run(
            *old(state),
            old(out)@,
            false,
        ).event(event@),
{
    let kind = event.kind.as_str();
    if str_eq(kind, "message_start") {
        handle_message_start(state, out, event.message);
        false
    } else if str_eq(kind, "content_block_start") {
        if let Some(index) = event.index {
            handle_block_start(state, out, index, event.content_block);
        }
        false
    } else if str_eq(kind, "content_block_delta") {
        if let Some(index) = event.index {
            if let Some(delta) = event.delta {
                handle_block_delta(state, out, index, delta);
            }
        }
        false
    } else if str_eq(kind, "content_block_stop") {
        if let Some(index) = event.index {
            handle_block_stop(state, out, index);
        }
        false
    } else if str_eq(kind, "message_delta") {
        handle_message_delta(state, event.delta, event.usage);
        false
    } else if str_eq(kind, "message_stop") {
        handle_message_stop(state, out);
        true
    } else if str_eq(kind, "error") {
        let message = match event.error {
            Some(error) => error.message,
            None => "Anthropic stream error".to_string(),
        };
        emit_error(out, message);
        true
    } else {
        false
    }
}

impl AnthropicStreamState {
    /// Takes what waiting for the service came to in, and tells what to send and
    /// whether the answer is at its end. At the end of an answer its tokens must
    /// be such that they can be added up.
    pub fn on_poll(&mut self, poll: AnthropicPoll) -> (step: StreamStep)
        requires
            ends_answer(poll@) ==> old(self)@.usage_fits(),
        ensures
            anthropic_run(*final(self), step.events@, step.done) == (AnthropicRun {
                state: old(self)@,
                sent: Seq::empty(),
                done: false,
            }).poll(poll@),
    {
        let mut out: Vec<StreamResult> = Vec::new();
        assert(results(out@) =~= Seq::empty());
        let done = match poll {
            AnthropicPoll::Event(Some(event)) => handle_event(self, &mut out, event),
            AnthropicPoll::Event(None) => false,
            AnthropicPoll::Failed(message) => {
                emit_error(&mut out, message);
                true
            },
            AnthropicPoll::Closed => {
                emit_error(&mut out, "stream closed before anthropic message_stop".to_string());
                true
            },
            AnthropicPoll::TimedOut => {
                emit_error(&mut out, "idle timeout waiting for SSE".to_string());
                true
            },
        };
        StreamStep { events: out, done }
    }
}

} // verus!
