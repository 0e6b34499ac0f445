//! The answer of a chat completions service, chunk by chunk, as events.
use std::collections::BTreeMap;
use vstd::prelude::*;
use vstd::string::*;

use crate::protocol::{
    emit, emit_error, results, ContentItem, ContentView, ErrorView, EventView, ItemView,
    ReasoningItemContent, ReasoningView, ResponseEvent, ResponseItem, StreamResult,
    StreamResultView, StreamStep, TokenUsage,
};
use crate::text::{decimal, decimal_text, opt_text, str_eq, trimmed, trims_to};
use crate::think::{
    drained, fed, fresh_parser, segments, SegmentView, ThinkSegment, ThinkTagParser, ThinkView,
};

verus! {

/// The name and a piece of the arguments of a function that is being called.
#[derive(Debug)]
pub struct ChatFunctionCallDelta {
    pub name: Option<String>,
    pub arguments: Option<String>,
}

#[verifier::ext_equal]
pub struct FunctionDeltaView {
    pub name: Option<Seq<char>>,
    pub arguments: Option<Seq<char>>,
}

impl View for ChatFunctionCallDelta {
    type V = FunctionDeltaView;

    open spec fn view(&self) -> FunctionDeltaView {
        FunctionDeltaView { name: opt_text(self.name), arguments: opt_text(self.arguments) }
    }
}

/// A piece of one of several tool calls.
#[derive(Debug)]
pub struct ChatToolCallDelta {
    pub index: usize,
    pub id: Option<String>,
    pub function: Option<ChatFunctionCallDelta>,
}

#[verifier::ext_equal]
pub struct ToolDeltaView {
    pub index: usize,
    pub id: Option<Seq<char>>,
    pub function: Option<FunctionDeltaView>,
}

impl View for ChatToolCallDelta {
    type V = ToolDeltaView;

    open spec fn view(&self) -> ToolDeltaView {
        ToolDeltaView {
            index: self.index,
            id: opt_text(self.id),
            function: function_delta(self.function),
        }
    }
}

pub open spec fn function_delta(d: Option<ChatFunctionCallDelta>) -> Option<FunctionDeltaView> {
    match d {
        Some(f) => Some(f@),
        None => None,
    }
}

pub open spec fn tool_deltas(s: Seq<ChatToolCallDelta>) -> Seq<ToolDeltaView> {
    s.map_values(|d: ChatToolCallDelta| d@)
}

/// What a chunk adds to the answer.
#[derive(Debug)]
pub struct ChatCompletionDelta {
    pub content: Option<String>,
    pub reasoning_content: Option<String>,
    pub function_call: Option<ChatFunctionCallDelta>,
    pub tool_calls: Option<Vec<ChatToolCallDelta>>,
}

/// One of the answers that a chunk speaks of.
#[derive(Debug)]
pub struct ChatCompletionChoice {
    pub delta: ChatCompletionDelta,
    pub finish_reason: Option<String>,
}

#[verifier::ext_equal]
pub struct ChoiceView {
    pub content: Option<Seq<char>>,
    pub reasoning_content: Option<Seq<char>>,
    pub function_call: Option<FunctionDeltaView>,
    pub tool_calls: Option<Seq<ToolDeltaView>>,
    pub finish_reason: Option<Seq<char>>,
}

impl View for ChatCompletionChoice {
    type V = ChoiceView;

    open spec fn view(&self) -> ChoiceView {
        ChoiceView {
            content: opt_text(self.delta.content),
            reasoning_content: opt_text(self.delta.reasoning_content),
            function_call: function_delta(self.delta.function_call),
            tool_calls: match self.delta.tool_calls {
                Some(calls) => Some(tool_deltas(calls@)),
                None => None,
            },
            finish_reason: opt_text(self.finish_reason),
        }
    }
}

pub open spec fn choices(s: Seq<ChatCompletionChoice>) -> Seq<ChoiceView> {
    s.map_values(|c: ChatCompletionChoice| c@)
}

#[derive(Debug, Clone, Copy)]
pub struct ChatPromptTokensDetails {
    pub cached_tokens: Option<i64>,
}

#[derive(Debug, Clone, Copy)]
pub struct ChatCompletionTokensDetails {
    pub reasoning_tokens: Option<i64>,
}

/// The tokens of a chat completion, as the service counts them.
#[derive(Debug, Clone, Copy)]
pub struct ChatCompletionUsage {
    pub prompt_tokens: i64,
    pub completion_tokens: i64,
    pub total_tokens: i64,
    pub prompt_tokens_details: Option<ChatPromptTokensDetails>,
    pub completion_tokens_details: Option<ChatCompletionTokensDetails>,
}

/// The number, or zero where it is not given.
pub open spec fn count_or_zero(n: Option<i64>) -> i64 {
    match n {
        Some(n) => n,
        None => 0,
    }
}

/// The service's count in the terms of `TokenUsage`.
pub open spec fn chat_usage(u: ChatCompletionUsage) -> TokenUsage {
    TokenUsage {
        input_tokens: u.prompt_tokens,
        cached_input_tokens: match u.prompt_tokens_details {
            Some(d) => count_or_zero(d.cached_tokens),
            None => 0,
        },
        output_tokens: u.completion_tokens,
        reasoning_output_tokens: match u.completion_tokens_details {
            Some(d) => count_or_zero(d.reasoning_tokens),
            None => 0,
        },
        total_tokens: u.total_tokens,
    }
}

impl From<ChatCompletionUsage> for TokenUsage {
    fn from(value: ChatCompletionUsage) -> (r: Self) {
        TokenUsage {
            input_tokens: value.prompt_tokens,
            cached_input_tokens: match value.prompt_tokens_details {
                Some(details) => details.cached_tokens.unwrap_or(0),
                None => 0,
            },
            output_tokens: value.completion_tokens,
            reasoning_output_tokens: match value.completion_tokens_details {
                Some(details) => details.reasoning_tokens.unwrap_or(0),
                None => 0,
            },
            total_tokens: value.total_tokens,
        }
    }
}

impl vstd::std_specs::convert::FromSpecImpl<ChatCompletionUsage> for TokenUsage {
    open spec fn obeys_from_spec() -> bool {
        true
    }

    open spec fn from_spec(value: ChatCompletionUsage) -> Self {
        chat_usage(value)
    }
}

/// A chunk of a streamed chat completion.
#[derive(Debug)]
pub struct ChatCompletionChunk {
    pub id: Option<String>,
    pub model: Option<String>,
    pub choices: Vec<ChatCompletionChoice>,
    pub usage: Option<ChatCompletionUsage>,
}

#[verifier::ext_equal]
pub struct ChunkView {
    pub id: Option<Seq<char>>,
    pub model: Option<Seq<char>>,
    pub choices: Seq<ChoiceView>,
    pub usage: Option<ChatCompletionUsage>,
}

impl View for ChatCompletionChunk {
    type V = ChunkView;

    open spec fn view(&self) -> ChunkView {
        ChunkView {
            id: opt_text(self.id),
            model: opt_text(self.model),
            choices: choices(self.choices@),
            usage: self.usage,
        }
    }
}

/// A tool call of which the pieces so far are put together.
#[derive(Debug)]
pub struct ChatToolCallState {
    pub id: Option<String>,
    pub name: Option<String>,
    pub arguments: String,
}

#[verifier::ext_equal]
pub struct ToolCallView {
    pub id: Option<Seq<char>>,
    pub name: Option<Seq<char>>,
    pub arguments: Seq<char>,
}

impl View for ChatToolCallState {
    type V = ToolCallView;

    open spec fn view(&self) -> ToolCallView {
        ToolCallView {
            id: opt_text(self.id),
            name: opt_text(self.name),
            arguments: self.arguments@,
        }
    }
}

/// A tool call of which nothing has come yet.
pub open spec fn no_tool_call() -> ToolCallView {
    ToolCallView { id: None, name: None, arguments: Seq::empty() }
}

impl Default for ChatToolCallState {
    fn default() -> (r: Self)
        ensures
            r@ == no_tool_call(),
    {
        ChatToolCallState { id: None, name: None, arguments: String::new() }
    }
}

/// The tool call with a piece of its function added: the latest name counts,
/// and the arguments grow.
pub open spec fn merged(call: ToolCallView, delta: FunctionDeltaView) -> ToolCallView {
    ToolCallView {
        id: call.id,
        name: match delta.name {
            Some(name) => Some(name),
            None => call.name,
        },
        arguments: match delta.arguments {
            Some(arguments) => call.arguments + arguments,
            None => call.arguments,
        },
    }
}

/// Adds a piece of a function call to a tool call.
pub fn merge_function_delta(state: &mut ChatToolCallState, delta: ChatFunctionCallDelta)
    ensures
        final(state)@ == merged(old(state)@, delta@),
{
    if let Some(name) = delta.name {
        state.name = Some(name);
    }
    if let Some(arguments) = delta.arguments {
        state.arguments.append(arguments.as_str());
    }
}

/// An answer of which the chunks so far are put together.
#[derive(Debug)]
pub struct ChatCompletionStreamState {
    pub created: bool,
    pub response_id: Option<String>,
    pub reasoning_started: bool,
    pub reasoning_finished: bool,
    pub reasoning_text: String,
    pub message_started: bool,
    pub message_text: String,
    pub tool_calls: BTreeMap<usize, ChatToolCallState>,
    pub token_usage: Option<TokenUsage>,
    pub last_server_model: Option<String>,
    pub think_parser: ThinkTagParser,
}

#[verifier::ext_equal]
pub struct ChatStateView {
    pub created: bool,
    pub response_id: Option<Seq<char>>,
    pub reasoning_started: bool,
    pub reasoning_finished: bool,
    pub reasoning_text: Seq<char>,
    pub message_started: bool,
    pub message_text: Seq<char>,
    pub tool_calls: Map<usize, ToolCallView>,
    pub token_usage: Option<TokenUsage>,
    pub last_server_model: Option<Seq<char>>,
    pub think_parser: ThinkView,
}

pub open spec fn tool_calls(m: Map<usize, ChatToolCallState>) -> Map<usize, ToolCallView> {
    m.map_values(|c: ChatToolCallState| c@)
}

impl View for ChatCompletionStreamState {
    type V = ChatStateView;

    open spec fn view(&self) -> ChatStateView {
        ChatStateView {
            created: self.created,
            response_id: opt_text(self.response_id),
            reasoning_started: self.reasoning_started,
            reasoning_finished: self.reasoning_finished,
            reasoning_text: self.reasoning_text@,
            message_started: self.message_started,
            message_text: self.message_text@,
            tool_calls: tool_calls(self.tool_calls@),
            token_usage: self.token_usage,
            last_server_model: opt_text(self.last_server_model),
            think_parser: self.think_parser@,
        }
    }
}

/// An answer of which nothing has come yet.
pub open spec fn fresh_chat() -> ChatStateView {
    ChatStateView {
        created: false,
        response_id: None,
        reasoning_started: false,
        reasoning_finished: false,
        reasoning_text: Seq::empty(),
        message_started: false,
        message_text: Seq::empty(),
        tool_calls: Map::empty(),
        token_usage: None,
        last_server_model: None,
        think_parser: fresh_parser(),
    }
}

impl ChatStateView {
    /// The answer's id: the one the service gave, or a fixed one.
    pub open spec fn id(self) -> Seq<char> {
        match self.response_id {
            Some(id) => id,
            None => "chatcmpl"@,
        }
    }

    /// The answer's visible message as an item.
    pub open spec fn message(self) -> ItemView {
        ItemView::Message {
            id: Some(self.id() + ":message"@),
            role: "assistant"@,
            content: if self.message_text.len() == 0 {
                Seq::empty()
            } else {
                seq![ContentView::OutputText { text: self.message_text }]
            },
            phase: None,
        }
    }

    /// The answer's reasoning as an item.
    pub open spec fn reasoning(self) -> ItemView {
        ItemView::Reasoning {
            id: self.id() + ":reasoning"@,
            summary: Seq::empty(),
            content: if self.reasoning_text.len() == 0 {
                None
            } else {
                Some(seq![ReasoningView::ReasoningText { text: self.reasoning_text }])
            },
            encrypted_content: None,
        }
    }
}

/// An answer so far, what was sent of it, and whether it is at its end.
#[verifier::ext_equal]
pub struct ChatRun {
    pub state: ChatStateView,
    pub sent: Seq<StreamResultView>,
    pub done: bool,
}

impl ChatRun {
    pub open spec fn send(self, event: EventView) -> ChatRun {
        ChatRun { sent: self.sent.push(Ok(event)), ..self }
    }

    pub open spec fn at(self, state: ChatStateView) -> ChatRun {
        ChatRun { state, ..self }
    }

    /// Reasoning that has begun is closed, once.
    pub open spec fn reasoning_closed(self) -> ChatRun {
        if !self.state.reasoning_started || self.state.reasoning_finished {
            self
        } else {
            let state = ChatStateView { reasoning_finished: true, ..self.state };
            self.at(state).send(EventView::OutputItemDone(state.reasoning()))
        }
    }

    /// The message has begun.
    pub open spec fn message_open(self) -> ChatRun {
        if self.state.message_started {
            self
        } else {
            let state = ChatStateView { message_started: true, ..self.state };
            self.at(state).send(EventView::OutputItemAdded(state.message()))
        }
    }

    /// The reasoning has begun.
    pub open spec fn reasoning_open(self) -> ChatRun {
        if self.state.reasoning_started {
            self
        } else {
            let state = ChatStateView { reasoning_started: true, ..self.state };
            self.at(state).send(EventView::OutputItemAdded(state.reasoning()))
        }
    }

    /// Visible text comes: it closes the reasoning and goes to the message.
    pub open spec fn visible(self, text: Seq<char>) -> ChatRun {
        let run = self.reasoning_closed().message_open();
        run.at(
            ChatStateView { message_text: run.state.message_text + text, ..run.state },
        ).send(EventView::OutputTextDelta(text))
    }

    /// Reasoning comes: it is sent unless the reasoning was closed before.
    pub open spec fn thought(self, text: Seq<char>) -> ChatRun {
        let run = if self.state.reasoning_finished {
            self
        } else {
            self.reasoning_open()
        };
        let grown = run.at(
            ChatStateView { reasoning_text: run.state.reasoning_text + text, ..run.state },
        );
        if self.state.reasoning_finished {
            grown
        } else {
            grown.send(EventView::ReasoningContentDelta { delta: text, content_index: 0 })
        }
    }

    pub open spec fn segment(self, segment: SegmentView) -> ChatRun {
        match segment {
            SegmentView::Visible(text) => self.visible(text),
            SegmentView::Reasoning(text) => self.thought(text),
        }
    }

    pub open spec fn segments(self, segments: Seq<SegmentView>) -> ChatRun
        decreases segments.len(),
    {
        if segments.len() == 0 {
            self
        } else {
            self.segments(segments.drop_last()).segment(segments.last())
        }
    }

    /// Text comes that may hold tags.
    pub open spec fn content(self, text: Seq<char>) -> ChatRun {
        let (given, parser) = drained(fed(self.state.think_parser, text), false);
        self.at(ChatStateView { think_parser: parser, ..self.state }).segments(given)
    }

    /// The tool calls become `calls`.
    pub open spec fn with_calls(self, calls: Map<usize, ToolCallView>) -> ChatRun {
        self.at(ChatStateView { tool_calls: calls, ..self.state })
    }

    /// The reasoning of a choice comes, if it has any.
    pub open spec fn reasoned(self, text: Option<Seq<char>>) -> ChatRun {
        match text {
            Some(text) => self.thought(text),
            None => self,
        }
    }

    /// The text of a choice comes, if it has any.
    pub open spec fn said(self, text: Option<Seq<char>>) -> ChatRun {
        match text {
            Some(text) => self.content(text),
            None => self,
        }
    }

    /// A choice comes: its reasoning, its text, its function call and its tool
    /// calls, in this order, and its end, if it has one.
    pub open spec fn choice(self, choice: ChoiceView) -> ChatRun {
        let run = self.reasoned(choice.reasoning_content).said(choice.content);
        let run = run.with_calls(
            calls_taken(run.state.tool_calls, choice.function_call, choice.tool_calls),
        );
        if choice.finish_reason is Some {
            run.finished()
        } else {
            run
        }
    }

    /// Choices come: the first that ends the answer is the last that counts.
    pub open spec fn choices(self, choices: Seq<ChoiceView>) -> ChatRun
        decreases choices.len(),
    {
        if choices.len() == 0 {
            self
        } else {
            let run = self.choices(choices.drop_last());
            if run.done {
                run
            } else {
                run.choice(choices.last())
            }
        }
    }

    /// A chunk comes: first its head, then its choices.
    pub open spec fn chunk(self, chunk: ChunkView) -> ChatRun {
        self.head(chunk).choices(chunk.choices)
    }

    /// What a chunk says of the answer as a whole.
    pub open spec fn head(self, chunk: ChunkView) -> ChatRun {
        let run = if self.state.response_id is None {
            self.at(ChatStateView { response_id: chunk.id, ..self.state })
        } else {
            self
        };
        let run = if run.state.created {
            run
        } else {
            run.at(ChatStateView { created: true, ..run.state }).send(EventView::Created)
        };
        let run = match chunk.model {
            Some(model) => if run.state.last_server_model == Some(model) {
                run
            } else {
                run.at(ChatStateView { last_server_model: Some(model), ..run.state }).send(
                    EventView::ServerModel(model),
                )
            },
            None => run,
        };
        match chunk.usage {
            Some(usage) => run.at(
                ChatStateView { token_usage: Some(chat_usage(usage)), ..run.state },
            ),
            None => run,
        }
    }

    /// The answer ends: what the parser held back, the reasoning, the message
    /// and the tool calls are closed in this order, and the end is told.
    pub open spec fn finished(self) -> ChatRun {
        let (given, parser) = drained(self.state.think_parser, true);
        let run = self.at(
            ChatStateView { think_parser: parser, ..self.state },
        ).segments(given).reasoning_closed();
        let run = if run.state.message_started {
            run.send(EventView::OutputItemDone(run.state.message()))
        } else {
            run
        };
        let calls = called(
            run.state.tool_calls,
            listing(run.state.tool_calls.dom()),
            run.state.id(),
        );
        let run = ChatRun { sent: run.sent + calls, ..run };
        let run = run.send(
            EventView::Completed {
                response_id: run.state.id(),
                token_usage: run.state.token_usage,
                end_turn: Some(true),
            },
        );
        ChatRun { done: true, ..run }
    }

    /// The answer breaks off.
    pub open spec fn broken(self, message: Seq<char>) -> ChatRun {
        ChatRun { sent: self.sent.push(Err(ErrorView::Stream(message))), done: true, ..self }
    }

    /// Something comes from the service, or fails to.
    pub open spec fn poll(self, poll: ChatPollView) -> ChatRun {
        match poll {
            ChatPollView::Event { data, chunk } => if end_mark(data) {
                self.finished()
            } else {
                match chunk {
                    Some(chunk) => self.chunk(chunk),
                    None => self,
                }
            },
            ChatPollView::Failed(message) => self.broken(message),
            ChatPollView::Closed => self.broken("stream closed before chat completion finished"@),
            ChatPollView::TimedOut => self.broken("idle timeout waiting for SSE"@),
        }
    }
}

/// The tool call under an index, or an empty one.
pub open spec fn call_at(calls: Map<usize, ToolCallView>, index: usize) -> ToolCallView {
    if calls.contains_key(index) {
        calls[index]
    } else {
        no_tool_call()
    }
}

/// The tool calls with a piece of one of them added: the latest id counts, and
/// a call that is not there yet begins empty.
pub open spec fn call_grown(
    calls: Map<usize, ToolCallView>,
    delta: ToolDeltaView,
) -> Map<usize, ToolCallView> {
    let call = call_at(calls, delta.index);
    let call = ToolCallView {
        id: match delta.id {
            Some(id) => Some(id),
            None => call.id,
        },
        ..call
    };
    calls.insert(
        delta.index,
        match delta.function {
            Some(function) => merged(call, function),
            None => call,
        },
    )
}

/// The tool calls with several pieces added, one after another.
pub open spec fn calls_grown(
    calls: Map<usize, ToolCallView>,
    deltas: Seq<ToolDeltaView>,
) -> Map<usize, ToolCallView>
    decreases deltas.len(),
{
    if deltas.len() == 0 {
        calls
    } else {
        call_grown(calls_grown(calls, deltas.drop_last()), deltas.last())
    }
}

/// The tool calls with what a choice brings for them: its function call, which
/// belongs to the first, and its tool calls.
pub open spec fn calls_taken(
    calls: Map<usize, ToolCallView>,
    function_call: Option<FunctionDeltaView>,
    deltas: Option<Seq<ToolDeltaView>>,
) -> Map<usize, ToolCallView> {
    let calls = match function_call {
        Some(delta) => calls.insert(0, merged(call_at(calls, 0), delta)),
        None => calls,
    };
    match deltas {
        Some(deltas) => calls_grown(calls, deltas),
        None => calls,
    }
}

/// Whether `keys` lists a set in ascending order.
pub open spec fn lists(keys: Seq<usize>, set: Set<usize>) -> bool {
    &&& forall|i: int, j: int| 0 <= i < j < keys.len() ==> keys[i] < keys[j]
    &&& forall|k: usize| set.contains(k) <==> keys.contains(k)
}

/// The elements of a set below a bound, in ascending order.
pub open spec fn listing_below(set: Set<usize>, bound: nat) -> Seq<usize>
    decreases bound,
{
    if bound == 0 {
        Seq::empty()
    } else {
        let before = listing_below(set, (bound - 1) as nat);
        if set.contains((bound - 1) as usize) {
            before.push((bound - 1) as usize)
        } else {
            before
        }
    }
}

/// The elements of a set in ascending order.
pub open spec fn listing(set: Set<usize>) -> Seq<usize> {
    listing_below(set, usize::MAX as nat + 1)
}

proof fn lemma_listing_below(set: Set<usize>, bound: nat)
    requires
        bound <= usize::MAX as nat + 1,
    ensures
        lists(listing_below(set, bound), set.filter(|k: usize| k < bound)),
    decreases bound,
{
    let part = set.filter(|k: usize| k < bound);
    let keys = listing_below(set, bound);
    if bound > 0 {
        let top = (bound - 1) as usize;
        let before = listing_below(set, (bound - 1) as nat);
        let rest = set.filter(|k: usize| k < bound - 1);
        lemma_listing_below(set, (bound - 1) as nat);
        assert(set.filter(|k: usize| k < (bound - 1) as nat) =~= rest);
        assert forall|i: int| 0 <= i < before.len() implies before[i] < top by {
            assert(before.contains(before[i]));
            assert(rest.contains(before[i]));
        }
        assert forall|k: usize| part.contains(k) <==> keys.contains(k) by {
            if part.contains(k) {
                if k == top {
                    assert(keys[keys.len() - 1] == k);
                } else {
                    assert(rest.contains(k));
                    let i = choose|i: int| 0 <= i < before.len() && before[i] == k;
                    assert(keys[i] == k);
                }
            }
            if keys.contains(k) {
                let i = choose|i: int| 0 <= i < keys.len() && keys[i] == k;
                if i < before.len() {
                    assert(before.contains(k));
                    assert(rest.contains(k));
                }
            }
        }
    }
}

/// The listing of a set lists it.
pub proof fn lemma_listing(set: Set<usize>)
    ensures
        lists(listing(set), set),
{
    lemma_listing_below(set, usize::MAX as nat + 1);
    assert(set.filter(|k: usize| k < usize::MAX as nat + 1) =~= set);
}

/// There is but one ascending list of a set.
pub proof fn lemma_lists_unique(a: Seq<usize>, b: Seq<usize>, set: Set<usize>)
    requires
        lists(a, set),
        lists(b, set),
    ensures
        a == b,
    decreases a.len(),
{
    if a.len() == 0 {
        if b.len() > 0 {
            assert(b.contains(b[0]));
            assert(set.contains(b[0]));
            assert(a.contains(b[0]));
        }
        assert(a =~= b);
    } else {
        assert(a.contains(a.last()));
        assert(set.contains(a.last()));
        assert(b.contains(a.last()));
        assert(b.contains(b.last()));
        assert(set.contains(b.last()));
        assert(a.contains(b.last()));
        assert(a.last() == b.last());
        let rest = set.remove(a.last());
        lemma_lists_front(a, set);
        lemma_lists_front(b, set);
        lemma_lists_unique(a.drop_last(), b.drop_last(), rest);
        assert(a =~= a.drop_last().push(a.last()));
        assert(b =~= b.drop_last().push(b.last()));
    }
}

proof fn lemma_lists_front(a: Seq<usize>, set: Set<usize>)
    requires
        lists(a, set),
        a.len() > 0,
    ensures
        lists(a.drop_last(), set.remove(a.last())),
{
    let front = a.drop_last();
    assert forall|k: usize| set.remove(a.last()).contains(k) <==> front.contains(k) by {
        if set.remove(a.last()).contains(k) {
            let i = choose|i: int| 0 <= i < a.len() && a[i] == k;
            assert(front[i] == k);
        }
        if front.contains(k) {
            let i = choose|i: int| 0 <= i < front.len() && front[i] == k;
            assert(a[i] == k);
            assert(a.contains(k));
        }
    }
}

/// The id of a tool call: its own, or one made of the answer's id and its index.
pub open spec fn tool_call_id(
    response_id: Seq<char>,
    index: usize,
    call: ToolCallView,
) -> Seq<char> {
    match call.id {
        Some(id) => id,
        None => response_id + ":tool_call:"@ + decimal(index as nat),
    }
}

/// A tool call with a name as an item.
pub open spec fn tool_call_item(
    response_id: Seq<char>,
    index: usize,
    call: ToolCallView,
) -> ItemView {
    let id = tool_call_id(response_id, index, call);
    ItemView::FunctionCall {
        id: Some(id),
        name: call.name->0,
        namespace: None,
        arguments: call.arguments,
        call_id: id,
    }
}

/// The events that close the tool calls under `keys`: those without a name are
/// left out.
pub open spec fn called(
    calls: Map<usize, ToolCallView>,
    keys: Seq<usize>,
    response_id: Seq<char>,
) -> Seq<StreamResultView>
    decreases keys.len(),
{
    if keys.len() == 0 {
        Seq::empty()
    } else {
        let before = called(calls, keys.drop_last(), response_id);
        let call = calls[keys.last()];
        if call.name is Some {
            before.push(
                Ok(EventView::OutputItemDone(tool_call_item(response_id, keys.last(), call))),
            )
        } else {
            before
        }
    }
}

/// Whether data are the mark at the end of an answer, with white space around it
/// or not.
pub open spec fn end_mark(data: Seq<char>) -> bool {
    trimmed(data) == "[DONE]"@
}

/// Whether data are the mark at the end of an answer.
pub fn is_end_mark(data: &str) -> (r: bool)
    ensures
        r == end_mark(data@),
{
    trims_to(data, "[DONE]")
}

/// What waiting for the service came to: data, together with the chunk that
/// they encode, if they do; or a failure; or its end; or nothing in time.
#[derive(Debug)]
pub enum ChatPoll {
    Event { data: String, chunk: Option<ChatCompletionChunk> },
    Failed(String),
    Closed,
    TimedOut,
}

#[verifier::ext_equal]
pub enum ChatPollView {
    Event { data: Seq<char>, chunk: Option<ChunkView> },
    Failed(Seq<char>),
    Closed,
    TimedOut,
}

impl View for ChatPoll {
    type V = ChatPollView;

    open spec fn view(&self) -> ChatPollView {
        match *self {
            ChatPoll::Event { data, chunk } => ChatPollView::Event {
                data: data@,
                chunk: match chunk {
                    Some(c) => Some(c@),
                    None => None,
                },
            },
            ChatPoll::Failed(message) => ChatPollView::Failed(message@),
            ChatPoll::Closed => ChatPollView::Closed,
            ChatPoll::TimedOut => ChatPollView::TimedOut,
        }
    }
}


impl Default for ChatCompletionStreamState {
    fn default() -> (r: Self)
        ensures
            r@ == fresh_chat(),
    {
        let r = ChatCompletionStreamState {
            created: false,
            response_id: None,
            reasoning_started: false,
            reasoning_finished: false,
            reasoning_text: String::new(),
            message_started: false,
            message_text: String::new(),
            tool_calls: BTreeMap::new(),
            token_usage: None,
            last_server_model: None,
            think_parser: ThinkTagParser::default(),
        };
        assert(r@ =~= fresh_chat());
        r
    }
}

/// The answer so far and what is to be sent, as one.
pub open spec fn chat_run(
    state: ChatCompletionStreamState,
    out: Seq<StreamResult>,
    done: bool,
) -> ChatRun {
    ChatRun { state: state@, sent: results(out), done }
}

impl ChatCompletionStreamState {
    /// The answer's id: the one the service gave, or a fixed one.
    pub fn response_id(&self) -> (r: String)
        ensures
            r@ == self@.id(),
    {
        match &self.response_id {
            Some(id) => id.clone(),
            None => "chatcmpl".to_string(),
        }
    }

    /// The answer's visible message as an item.
    pub fn message_item(&self) -> (r: ResponseItem)
        ensures
            r@ == self@.message(),
    {
        let mut id = self.response_id();
        id.append(":message");
        let mut content: Vec<ContentItem> = Vec::new();
        if !self.message_text.as_str().is_empty() {
            content.push(ContentItem::OutputText { text: self.message_text.clone() });
        }
        let r = ResponseItem::Message {
            id: Some(id),
            role: "assistant".to_string(),
            content,
            phase: None,
        };
        assert(r@ =~= self@.message());
        r
    }

    /// The answer's reasoning as an item.
    pub fn reasoning_item(&self) -> (r: ResponseItem)
        ensures
            r@ == self@.reasoning(),
    {
        let mut id = self.response_id();
        id.append(":reasoning");
        let content: Option<Vec<ReasoningItemContent>> = if self.reasoning_text.as_str().is_empty() {
            None
        } else {
            let mut content: Vec<ReasoningItemContent> = Vec::new();
            content.push(ReasoningItemContent::ReasoningText { text: self.reasoning_text.clone() });
            assert(crate::protocol::reasonings(content@) =~= seq![
                ReasoningView::ReasoningText { text: self.reasoning_text@ },
            ]);
            Some(content)
        };
        let r = ResponseItem::Reasoning {
            id,
            summary: Vec::new(),
            content,
            encrypted_content: None,
        };
        assert(r@ =~= self@.reasoning());
        r
    }
}

/// Closes the reasoning, if it has begun and is not closed.
pub fn finish_reasoning_item(state: &mut ChatCompletionStreamState, out: &mut Vec<StreamResult>)
    ensures
        chat_run(*final(state), final(out)@, false) == chat_run(
            *old(state),
            old(out)@,
            false,
        ).reasoning_closed(),
{
    if !state.reasoning_started || state.reasoning_finished {
        return;
    }
    state.reasoning_finished = true;
    emit(out, ResponseEvent::OutputItemDone(state.reasoning_item()));
}

/// Takes a segment of the answer in.
pub fn handle_chat_content_segment(
    state: &mut ChatCompletionStreamState,
    out: &mut Vec<StreamResult>,
    segment: ThinkSegment,
)
    ensures
        chat_run(*final(state), final(out)@, false) == chat_run(
            *old(state),
            old(out)@,
            false,
        ).segment(segment@),
{
    match segment {
        ThinkSegment::Visible(content) => {
            finish_reasoning_item(state, out);
            if !state.message_started {
                state.message_started = true;
                emit(out, ResponseEvent::OutputItemAdded(state.message_item()));
            }
            state.message_text.append(content.as_str());
            emit(out, ResponseEvent::OutputTextDelta(content));
        },
        ThinkSegment::Reasoning(content) => {
            if state.reasoning_finished {
                state.reasoning_text.append(content.as_str());
                return;
            }
            if !state.reasoning_started {
                state.reasoning_started = true;
                emit(out, ResponseEvent::OutputItemAdded(state.reasoning_item()));
            }
            state.reasoning_text.append(content.as_str());
            emit(out, ResponseEvent::ReasoningContentDelta { delta: content, content_index: 0 });
        },
    }
}

/// Takes several segments in, one after another.
fn handle_segments(
    state: &mut ChatCompletionStreamState,
    out: &mut Vec<StreamResult>,
    given: Vec<ThinkSegment>,
)
    ensures
        chat_run(*final(state), final(out)@, false) == chat_run(
            *old(state),
            old(out)@,
            false,
        ).segments(segments(given@)),
{
    let ghost start = chat_run(*state, out@, false);
    let ghost all = segments(given@);
    for segment in it: given
        invariant
            it.seq() == given@,
            all == segments(given@),
            chat_run(*state, out@, false) == start.segments(all.take(it.index())),
    {
        let ghost n = it.index();
        handle_chat_content_segment(state, out, segment);
        proof {
            assert(all.take(n + 1).drop_last() =~= all.take(n));
            assert(all.take(n + 1).last() == segment@);
        }
    }
    assert(all.take(all.len() as int) =~= all);
}

/// Takes the tool call under an index out of the map, or makes an empty one.
fn take_call(calls: &mut BTreeMap<usize, ChatToolCallState>, index: usize) -> (r:
    ChatToolCallState)
    ensures
        r@ == call_at(tool_calls(old(calls)@), index),
        final(calls)@ == old(calls)@.remove(index),
{
    match calls.remove(&index) {
        Some(call) => call,
        None => ChatToolCallState::default(),
    }
}

/// Puts a tool call into the place it was taken out of.
proof fn lemma_call_put_back(
    before: Map<usize, ChatToolCallState>,
    index: usize,
    call: ChatToolCallState,
)
    ensures
        tool_calls(before.remove(index).insert(index, call)) == tool_calls(before).insert(
            index,
            call@,
        ),
{
    assert(tool_calls(before.remove(index).insert(index, call)) =~= tool_calls(before).insert(
        index,
        call@,
    ));
}

/// Takes a piece of the function call under an index in.
fn handle_function_call(
    calls: &mut BTreeMap<usize, ChatToolCallState>,
    index: usize,
    delta: ChatFunctionCallDelta,
)
    ensures
        tool_calls(final(calls)@) == tool_calls(old(calls)@).insert(
            index,
            merged(call_at(tool_calls(old(calls)@), index), delta@),
        ),
{
    let ghost before = calls@;
    let mut call = take_call(calls, index);
    merge_function_delta(&mut call, delta);
    proof {
        lemma_call_put_back(before, index, call);
    }
    calls.insert(index, call);
}

/// Takes a piece of a tool call in.
fn handle_tool_call(calls: &mut BTreeMap<usize, ChatToolCallState>, delta: ChatToolCallDelta)
    ensures
        tool_calls(final(calls)@) == call_grown(tool_calls(old(calls)@), delta@),
{
    let ghost before = calls@;
    let mut call = take_call(calls, delta.index);
    if let Some(id) = delta.id {
        call.id = Some(id);
    }
    if let Some(function) = delta.function {
        merge_function_delta(&mut call, function);
    }
    proof {
        lemma_call_put_back(before, delta.index, call);
    }
    calls.insert(delta.index, call);
}

/// Takes several pieces of tool calls in, one after another.
fn handle_tool_calls(
    calls: &mut BTreeMap<usize, ChatToolCallState>,
    deltas: Vec<ChatToolCallDelta>,
)
    ensures
        tool_calls(final(calls)@) == calls_grown(tool_calls(old(calls)@), tool_deltas(deltas@)),
{
    let ghost start = tool_calls(calls@);
    let ghost all = tool_deltas(deltas@);
    for delta in it: deltas
        invariant
            it.seq() == deltas@,
            all == tool_deltas(deltas@),
            tool_calls(calls@) == calls_grown(start, all.take(it.index())),
    {
        let ghost n = it.index();
        handle_tool_call(calls, delta);
        proof {
            assert(all.take(n + 1).drop_last() =~= all.take(n));
            assert(all.take(n + 1).last() == delta@);
        }
    }
    assert(all.take(all.len() as int) =~= all);
}

proof fn lemma_take_all<A>(s: Seq<A>)
    ensures
        s.take(s.len() as int) == s,
{
    assert(s.take(s.len() as int) =~= s);
}

/// Closes the tool calls that have a name, in the order of their indices.
fn finish_tool_calls(
    calls: &BTreeMap<usize, ChatToolCallState>,
    response_id: &str,
    out: &mut Vec<StreamResult>,
)
    ensures
        results(final(out)@) == results(old(out)@) + called(
            tool_calls(calls@),
            listing(tool_calls(calls@).dom()),
            response_id@,
        ),
{
    let ghost view = tool_calls(calls@);
    let ghost start = results(out@);
    let iter = calls.iter();
    let ghost pairs = vstd::std_specs::iter::IteratorSpec::remaining(&iter);
    let ghost keys = pairs.map_values(|kv: (&usize, &ChatToolCallState)| *kv.0);
    proof {
        assert(vstd::laws_cmp::obeys_cmp::<usize>());
        assert(vstd::std_specs::btree::key_obeys_cmp_spec::<usize>());
        assert(vstd::std_specs::btree::increasing_seq(keys));
        assert forall|i: int, j: int| 0 <= i < j < keys.len() implies keys[i] < keys[j] by {
            assert(vstd::std_specs::cmp::OrdSpec::cmp_spec(&keys[i], &keys[j]) is Less);
        }
        assert forall|k: usize| view.dom().contains(k) <==> keys.contains(k) by {
            if view.dom().contains(k) {
                assert(calls@.contains_key(k));
                let i = choose|i: int| 0 <= i < pairs.len() && pairs[i] == (&k, &calls@[k]);
                assert(keys[i] == k);
            }
            if keys.contains(k) {
                let i = choose|i: int| 0 <= i < keys.len() && keys[i] == k;
                assert(calls@.contains_key(*pairs[i].0));
            }
        }
        assert(lists(keys, view.dom()));
        lemma_listing(view.dom());
        lemma_lists_unique(keys, listing(view.dom()), view.dom());
    }
    for (index, call) in it: iter
        invariant
            it.seq() == pairs,
            keys == pairs.map_values(|kv: (&usize, &ChatToolCallState)| *kv.0),
            view == tool_calls(calls@),
            forall|i: int|
                0 <= i < pairs.len() ==> calls@.contains_key(*(#[trigger] pairs[i]).0)
                    && calls@[*pairs[i].0] == *pairs[i].1,
            results(out@) == start + called(view, keys.take(it.index()), response_id@),
    {
        let ghost n = it.index();
        proof {
            assert(keys.take(n + 1).drop_last() =~= keys.take(n));
            assert(keys.take(n + 1).last() == *index);
            assert(calls@.contains_key(*pairs[n].0));
            assert(view[*index] == call@);
        }
        if let Some(name) = &call.name {
            let id = match &call.id {
                Some(id) => id.clone(),
                None => {
                    let mut id = response_id.to_string();
                    id.append(":tool_call:");
                    id.append(decimal_text(*index).as_str());
                    id
                },
            };
            let item = ResponseItem::FunctionCall {
                id: Some(id.clone()),
                name: name.clone(),
                namespace: None,
                arguments: call.arguments.clone(),
                call_id: id,
            };
            emit(out, ResponseEvent::OutputItemDone(item));
        }
    }
    proof {
        lemma_take_all(keys);
    }
}

/// Ends an answer: what the parser held back, the reasoning, the message and the
/// tool calls are closed, and the end is told.
pub fn finish_chat_completion_stream(
    state: &mut ChatCompletionStreamState,
    out: &mut Vec<StreamResult>,
)
    ensures
        chat_run(*final(state), final(out)@, true) == chat_run(
            *old(state),
            old(out)@,
            false,
        ).finished(),
{
    let given = state.think_parser.finish();
    handle_segments(state, out, given);
    finish_reasoning_item(state, out);
    let response_id = state.response_id();
    if state.message_started {
        emit(out, ResponseEvent::OutputItemDone(state.message_item()));
    }
    finish_tool_calls(&state.tool_calls, response_id.as_str(), out);
    emit(
        out,
        ResponseEvent::Completed {
            response_id,
            token_usage: state.token_usage,
            end_turn: Some(true),
        },
    );
}

/// Takes the reasoning of a choice in.
fn handle_reasoning(
    state: &mut ChatCompletionStreamState,
    out: &mut Vec<StreamResult>,
    text: Option<String>,
)
    ensures
        chat_run(*final(state), final(out)@, false) == chat_run(
            *old(state),
            old(out)@,
            false,
        ).reasoned(opt_text(text)),
{
    if let Some(text) = text {
        handle_chat_content_segment(state, out, ThinkSegment::Reasoning(text));
    }
}

/// Takes the text of a choice in.
fn handle_content(
    state: &mut ChatCompletionStreamState,
    out: &mut Vec<StreamResult>,
    text: Option<String>,
)
    ensures
        chat_run(*final(state), final(out)@, false) == chat_run(
            *old(state),
            old(out)@,
            false,
        ).said(opt_text(text)),
{
    if let Some(text) = text {
        let given = state.think_parser.push(text.as_str());
        handle_segments(state, out, given);
    }
}

/// Takes the function call and the tool calls of a choice in.
fn handle_calls(
    calls: &mut BTreeMap<usize, ChatToolCallState>,
    function_call: Option<ChatFunctionCallDelta>,
    deltas: Option<Vec<ChatToolCallDelta>>,
)
    ensures
        tool_calls(final(calls)@) == calls_taken(
            tool_calls(old(calls)@),
            function_delta(function_call),
            match deltas {
                Some(deltas) => Some(tool_deltas(deltas@)),
                None => None,
            },
        ),
{
    if let Some(delta) = function_call {
        handle_function_call(calls, 0, delta);
    }
    if let Some(deltas) = deltas {
        handle_tool_calls(calls, deltas);
    }
}

/// Takes a choice in, and tells whether it ends the answer.
fn handle_choice(
    state: &mut ChatCompletionStreamState,
    out: &mut Vec<StreamResult>,
    choice: ChatCompletionChoice,
) -> (done: bool)
    ensures
        chat_run(*final(state), final(out)@, done) == chat_run(
            *old(state),
            old(out)@,
            false,
        ).choice(choice@),
{
    let ghost start = chat_run(*state, out@, false);
    handle_reasoning(state, out, choice.delta.reasoning_content);
    handle_content(state, out, choice.delta.content);
    let ghost spoken = chat_run(*state, out@, false);
    assert(spoken == start.reasoned(choice@.reasoning_content).said(choice@.content));
    handle_calls(&mut state.tool_calls, choice.delta.function_call, choice.delta.tool_calls);
    assert(chat_run(*state, out@, false) == spoken.with_calls(
        calls_taken(spoken.state.tool_calls, choice@.function_call, choice@.tool_calls),
    ));
    if choice.finish_reason.is_some() {
        finish_chat_completion_stream(state, out);
        true
    } else {
        false
    }
}

/// Takes a chunk in, and tells whether it ends the answer.
fn handle_chunk(
    state: &mut ChatCompletionStreamState,
    out: &mut Vec<StreamResult>,
    chunk: ChatCompletionChunk,
) -> (done: bool)
    ensures
        chat_run(*final(state), final(out)@, done) == chat_run(
            *old(state),
            old(out)@,
            false,
        ).chunk(chunk@),
{
    let ghost start = chat_run(*state, out@, false);
    if state.response_id.is_none() {
        state.response_id = chunk.id;
    }
    if !state.created {
        state.created = true;
        emit(out, ResponseEvent::Created);
    }
    if let Some(model) = chunk.model {
        let known = match &state.last_server_model {
            Some(last) => str_eq(last.as_str(), model.as_str()),
            None => false,
        };
        if !known {
            emit(out, ResponseEvent::ServerModel(model.clone()));
            state.last_server_model = Some(model);
        }
    }
    if let Some(usage) = chunk.usage {
        state.token_usage = Some(TokenUsage::from(usage));
    }
    let ghost head = chat_run(*state, out@, false);
    assert(head == start.head(chunk@));
    let ghost all = choices(chunk.choices@);
    assert(all.take(all.len() as int) =~= all);
    let mut done: bool = false;
    for choice in it: chunk.choices
        invariant_except_break
            !done,
            chat_run(*state, out@, done) == head.choices(all.take(it.index())),
        invariant
            it.seq() == chunk.choices@,
            all == choices(chunk.choices@),
            all.take(all.len() as int) == all,
        ensures
            chat_run(*state, out@, done) == head.choices(all),
    {
        let ghost n = it.index();
        proof {
            assert(all.take(n + 1).drop_last() =~= all.take(n));
            assert(all.take(n + 1).last() == choice@);
        }
        done = handle_choice(state, out, choice);
        if done {
            proof {
                lemma_choices_stop(head, all, n + 1);
            }
            break ;
        }
    }
    done
}

/// What comes behind the choice that ends the answer changes nothing.
proof fn lemma_choices_stop(run: ChatRun, all: Seq<ChoiceView>, n: int)
    requires
        0 <= n <= all.len(),
        run.choices(all.take(n)).done,
    ensures
        run.choices(all) == run.choices(all.take(n)),
    decreases all.len() - n,
{
    if n == all.len() {
        assert(all.take(n) =~= all);
    } else {
        assert(all.take(n + 1).drop_last() =~= all.take(n));
        lemma_choices_stop(run, all, n + 1);
    }
}

impl ChatCompletionStreamState {
    /// Takes what waiting for the service came to in, and tells what to send and
    /// whether the answer is at its end.
    pub fn on_poll(&mut self, poll: ChatPoll) -> (step: StreamStep)
        ensures
            chat_run(*final(self), step.events@, step.done) == (ChatRun {
                state: old(self)@,
                sent: Seq::empty(),
                done: false,
            }).poll(poll@),
    {
        let mut out: Vec<StreamResult> = Vec::new();
        assert(results(out@) =~= Seq::empty());
        let done = match poll {
            ChatPoll::Event { data, chunk } => {
                if is_end_mark(data.as_str()) {
                    finish_chat_completion_stream(self, &mut out);
                    true
                } else {
                    match chunk {
                        Some(chunk) => handle_chunk(self, &mut out, chunk),
                        None => false,
                    }
                }
            },
            ChatPoll::Failed(message) => {
                emit_error(&mut out, message);
                true
            },
            ChatPoll::Closed => {
                emit_error(&mut out, "stream closed before chat completion finished".to_string());
                true
            },
            ChatPoll::TimedOut => {
                emit_error(&mut out, "idle timeout waiting for SSE".to_string());
                true
            },
        };
        StreamStep { events: out, done }
    }
}

} // verus!
