//! What contracts say of values is said of all that the values hold: nothing that
//! comes in from outside is seen as less than it is.
use vstd::prelude::*;

use crate::anthropic_stream::{
    AnthropicContentBlockStart, AnthropicDelta, AnthropicMessageStart, AnthropicPoll,
    AnthropicPollView, AnthropicStreamEvent, BlockStartView,
};
use crate::chat_stream::{
    ChatCompletionChoice, ChatCompletionChunk, ChatFunctionCallDelta, ChatPoll, ChatPollView,
    ChatToolCallDelta,
};
use crate::json::{json, Json};
use crate::prompt::ResponsesApiTool;
use crate::protocol::{
    items, ContentItem, ContentView, FunctionCallOutputPayload, ItemView, LocalShellAction,
    PayloadView, ReasoningItemContent, ReasoningItemReasoningSummary, ReasoningView, ResponseItem,
    ShellView,
};

verus! {

/// Whether a text that may be there is seen as it is.
pub open spec fn same_text(text: Option<String>, seen: Option<Seq<char>>) -> bool {
    match text {
        Some(t) => seen == Some(t@),
        None => seen is None,
    }
}

/// Whether a piece of a message is seen as it is.
pub open spec fn same_piece(piece: ContentItem, seen: ContentView) -> bool {
    match piece {
        ContentItem::InputText { text } => seen == (ContentView::InputText { text: text@ }),
        ContentItem::OutputText { text } => seen == (ContentView::OutputText { text: text@ }),
        ContentItem::InputImage { image_url, detail } => {
            &&& seen is InputImage
            &&& seen->image_url == image_url@
            &&& same_text(detail, seen->detail)
        },
    }
}

/// Whether a piece of reasoning is seen as it is.
pub open spec fn same_thought(piece: ReasoningItemContent, seen: ReasoningView) -> bool {
    match piece {
        ReasoningItemContent::ReasoningText { text } => seen == (ReasoningView::ReasoningText {
            text: text@,
        }),
        ReasoningItemContent::Text { text } => seen == (ReasoningView::Text { text: text@ }),
    }
}

/// Whether what a tool gave back is seen as it is.
pub open spec fn same_output(output: FunctionCallOutputPayload, seen: PayloadView) -> bool {
    seen.display == output.display@ && same_text(output.text, seen.text)
}

/// Whether a command is seen as it is.
pub open spec fn same_command(action: LocalShellAction, seen: ShellView) -> bool {
    match action {
        LocalShellAction::Exec(exec) => {
            &&& seen.command.len() == exec.command@.len()
            &&& forall|i: int|
                0 <= i < seen.command.len() ==> #[trigger] seen.command[i] == exec.command@[i]@
            &&& seen.timeout_ms == exec.timeout_ms
            &&& same_text(exec.working_directory, seen.working_directory)
        },
    }
}

/// Whether an item is seen as it is.
pub open spec fn same_item(item: ResponseItem, seen: ItemView) -> bool {
    match item {
        ResponseItem::Message { id, role, content, phase } => {
            &&& seen is Message
            &&& same_text(id, seen->Message_id)
            &&& seen->role == role@
            &&& seen->Message_content.len() == content@.len()
            &&& forall|i: int|
                0 <= i < content@.len() ==> same_piece(
                    content@[i],
                    #[trigger] seen->Message_content[i],
                )
            &&& same_text(phase, seen->phase)
        },
        ResponseItem::Reasoning { id, summary, content, encrypted_content } => {
            &&& seen is Reasoning
            &&& seen->Reasoning_id == id@
            &&& seen->summary.len() == summary@.len()
            &&& forall|i: int|
                0 <= i < summary@.len() ==> match summary@[i] {
                    ReasoningItemReasoningSummary::SummaryText { text } =>
                    #[trigger] seen->summary[i] == text@,
                }
            &&& content is Some <==> seen->Reasoning_content is Some
            &&& content matches Some(pieces) ==> {
                &&& seen->Reasoning_content->0.len() == pieces@.len()
                &&& forall|i: int|
                    0 <= i < pieces@.len() ==> same_thought(
                        pieces@[i],
                        #[trigger] seen->Reasoning_content->0[i],
                    )
            }
            &&& same_text(encrypted_content, seen->encrypted_content)
        },
        ResponseItem::LocalShellCall { id, call_id, action } => {
            &&& seen is LocalShellCall
            &&& same_text(id, seen->LocalShellCall_id)
            &&& same_text(call_id, seen->LocalShellCall_call_id)
            &&& same_command(action, seen->action)
        },
        ResponseItem::FunctionCall { id, name, namespace, arguments, call_id } => {
            &&& seen is FunctionCall
            &&& same_text(id, seen->FunctionCall_id)
            &&& seen->FunctionCall_name == name@
            &&& same_text(namespace, seen->namespace)
            &&& seen->arguments == arguments@
            &&& seen->FunctionCall_call_id == call_id@
        },
        ResponseItem::FunctionCallOutput { call_id, output } => {
            &&& seen is FunctionCallOutput
            &&& seen->FunctionCallOutput_call_id == call_id@
            &&& same_output(output, seen->FunctionCallOutput_output)
        },
        ResponseItem::CustomToolCall { call_id, name, input } => {
            &&& seen is CustomToolCall
            &&& seen->CustomToolCall_call_id == call_id@
            &&& seen->CustomToolCall_name == name@
            &&& seen->input == input@
        },
        ResponseItem::CustomToolCallOutput { call_id, name, output } => {
            &&& seen is CustomToolCallOutput
            &&& seen->CustomToolCallOutput_call_id == call_id@
            &&& same_text(name, seen->CustomToolCallOutput_name)
            &&& same_output(output, seen->CustomToolCallOutput_output)
        },
        _ => {
            &&& !(seen is Message)
            &&& !(seen is Reasoning)
            &&& !(seen is LocalShellCall)
            &&& !(seen is FunctionCall)
            &&& !(seen is FunctionCallOutput)
            &&& !(seen is CustomToolCall)
            &&& !(seen is CustomToolCallOutput)
        },
    }
}

/// A conversation is seen item by item, and each item with all that it holds.
pub proof fn law_a_conversation_is_seen_whole(input: Seq<ResponseItem>)
    ensures
        items(input).len() == input.len(),
        forall|i: int| 0 <= i < input.len() ==> same_item(input[i], #[trigger] items(input)[i]),
{
}

/// A function is seen with its name, its description and its schema, or with the
/// reason why it has none.
pub proof fn law_a_function_is_seen_whole(tool: ResponsesApiTool)
    ensures
        tool@.name == tool.name@,
        tool@.description == tool.description@,
        match tool.parameters {
            Ok(schema) => tool@.parameters == Ok::<Json, Seq<char>>(json(schema)),
            Err(error) => tool@.parameters == Err::<Json, Seq<char>>(error.message@),
        },
{
}

/// Whether a piece of a function call is seen as it is.
pub open spec fn same_call(
    delta: ChatFunctionCallDelta,
    name: Option<Seq<char>>,
    arguments: Option<Seq<char>>,
) -> bool {
    same_text(delta.name, name) && same_text(delta.arguments, arguments)
}

/// A piece of a tool call, and a choice with its pieces, are seen with all that they
/// hold.
pub proof fn law_a_choice_is_seen_whole(choice: ChatCompletionChoice, piece: ChatToolCallDelta)
    ensures
        piece@.index == piece.index,
        same_text(piece.id, piece@.id),
        piece.function is Some <==> piece@.function is Some,
        piece.function matches Some(delta) ==> same_call(
            delta,
            piece@.function->0.name,
            piece@.function->0.arguments,
        ),
        same_text(choice.delta.content, choice@.content),
        same_text(choice.delta.reasoning_content, choice@.reasoning_content),
        choice.delta.function_call is Some <==> choice@.function_call is Some,
        choice.delta.function_call matches Some(delta) ==> same_call(
            delta,
            choice@.function_call->0.name,
            choice@.function_call->0.arguments,
        ),
        choice.delta.tool_calls is Some <==> choice@.tool_calls is Some,
        choice.delta.tool_calls matches Some(calls) ==> {
            &&& choice@.tool_calls->0.len() == calls@.len()
            &&& forall|i: int|
                0 <= i < calls@.len() ==> #[trigger] choice@.tool_calls->0[i] == calls@[i]@
        },
        same_text(choice.finish_reason, choice@.finish_reason),
{
}

/// A chunk, and what waiting for one came to, are seen with all that they hold.
pub proof fn law_a_chunk_is_seen_whole(chunk: ChatCompletionChunk, poll: ChatPoll)
    ensures
        same_text(chunk.id, chunk@.id),
        same_text(chunk.model, chunk@.model),
        chunk@.choices.len() == chunk.choices@.len(),
        forall|i: int|
            0 <= i < chunk.choices@.len() ==> #[trigger] chunk@.choices[i] == chunk.choices@[i]@,
        chunk@.usage == chunk.usage,
        match poll {
            ChatPoll::Event { data, chunk: Some(c) } => poll@ == (ChatPollView::Event {
                data: data@,
                chunk: Some(c@),
            }),
            ChatPoll::Event { data, chunk: None } => poll@ == (ChatPollView::Event {
                data: data@,
                chunk: None,
            }),
            ChatPoll::Failed(message) => poll@ == ChatPollView::Failed(message@),
            ChatPoll::Closed => poll@ is Closed,
            ChatPoll::TimedOut => poll@ is TimedOut,
        },
{
}

/// The parts of an event of an Anthropic service are seen with all that they hold.
pub proof fn law_parts_of_an_event_are_seen_whole(
    message: AnthropicMessageStart,
    start: AnthropicContentBlockStart,
    delta: AnthropicDelta,
)
    ensures
        message@.id == message.id@,
        message@.usage == message.usage,
        match start {
            AnthropicContentBlockStart::Text { text } => start@ is Text && same_text(
                text,
                start@->text,
            ),
            AnthropicContentBlockStart::ToolUse { id, name, input } => {
                &&& start@ is ToolUse
                &&& start@->id == id@
                &&& start@->name == name@
                &&& match input {
                    Some(value) => start@->input == Some(json(value)),
                    None => start@->input is None,
                }
            },
            AnthropicContentBlockStart::Other => start@ == BlockStartView::Other,
        },
        same_text(delta.kind, delta@.kind),
        same_text(delta.text, delta@.text),
        same_text(delta.partial_json, delta@.partial_json),
        same_text(delta.thinking, delta@.thinking),
        same_text(delta.stop_reason, delta@.stop_reason),
{
}

/// An event of an Anthropic service, and what waiting for one came to, are seen with
/// all that they hold.
pub proof fn law_an_event_is_seen_whole(event: AnthropicStreamEvent, poll: AnthropicPoll)
    ensures
        event@.kind == event.kind@,
        event@.index == event.index,
        event@.usage == event.usage,
        match event.message {
            Some(message) => event@.message == Some(message@),
            None => event@.message is None,
        },
        match event.content_block {
            Some(block) => event@.content_block == Some(block@),
            None => event@.content_block is None,
        },
        match event.delta {
            Some(delta) => event@.delta == Some(delta@),
            None => event@.delta is None,
        },
        match event.error {
            Some(error) => event@.error == Some(error.message@),
            None => event@.error is None,
        },
        match poll {
            AnthropicPoll::Event(Some(e)) => poll@ == AnthropicPollView::Event(Some(e@)),
            AnthropicPoll::Event(None) => poll@ == AnthropicPollView::Event(None),
            AnthropicPoll::Failed(message) => poll@ == AnthropicPollView::Failed(message@),
            AnthropicPoll::Closed => poll@ is Closed,
            AnthropicPoll::TimedOut => poll@ is TimedOut,
        },
{
}

} // verus!
