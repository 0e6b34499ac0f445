//! What the events of an Anthropic answer hold, told from what came for it.
use vstd::prelude::*;

use crate::anthropic_laws::{
    bounds_block, events_come, fresh_run, input_pieces, law_text_is_put_together,
    law_thinking_is_put_together, law_tool_input_is_put_together, lemma_kinds, polled, text_pieces,
    thinking_pieces,
};
use crate::anthropic_stream::{
    ends_answer, AnthropicPollView, AnthropicRun, AnthropicView, BlockStartView, DeltaView,
    MessageStartView, StreamEventView,
};
use crate::json::{rendered_json, Json};
use crate::protocol::{ContentView, ErrorView, EventView, ItemView};
use crate::text::decimal;

verus! {

/// Where the service fails, closes or stays silent, that is told, as the last
/// thing, and nothing else happens. Data that could not be decoded are passed
/// over, and those that could are the event that comes.
pub proof fn law_how_an_answer_breaks_off(
    run: AnthropicRun,
    reason: Seq<char>,
    event: StreamEventView,
)
    ensures
        run.poll(AnthropicPollView::Failed(reason)) == (AnthropicRun {
            state: run.state,
            sent: run.sent.push(Err(ErrorView::Stream(reason))),
            done: true,
        }),
        run.poll(AnthropicPollView::Closed) == (AnthropicRun {
            state: run.state,
            sent: run.sent.push(
                Err(ErrorView::Stream("stream closed before anthropic message_stop"@)),
            ),
            done: true,
        }),
        run.poll(AnthropicPollView::TimedOut) == (AnthropicRun {
            state: run.state,
            sent: run.sent.push(Err(ErrorView::Stream("idle timeout waiting for SSE"@))),
            done: true,
        }),
        run.poll(AnthropicPollView::Event(None)) == run,
        run.poll(AnthropicPollView::Event(Some(event))) == run.event(event),
{
}

/// The kinds of events that mean something are all different.
proof fn lemma_all_kinds()
    ensures
        "message_start"@ != "message_delta"@,
        "message_start"@ != "message_stop"@,
        "message_start"@ != "error"@,
        "message_delta"@ != "message_stop"@,
        "message_delta"@ != "error"@,
        "message_stop"@ != "error"@,
        "text_delta"@ != "input_json_delta"@,
        "text_delta"@ != "thinking_delta"@,
        "input_json_delta"@ != "thinking_delta"@,
        "tool_use"@ != "max_tokens"@,
{
    reveal_strlit("message_start");
    reveal_strlit("message_delta");
    reveal_strlit("message_stop");
    reveal_strlit("error");
    reveal_strlit("text_delta");
    reveal_strlit("input_json_delta");
    reveal_strlit("thinking_delta");
    reveal_strlit("tool_use");
    reveal_strlit("max_tokens");
    assert("message_start"@.len() == 13);
    assert("message_delta"@.len() == 13);
    assert("message_stop"@.len() == 12);
    assert("error"@.len() == 5);
    assert("text_delta"@.len() == 10);
    assert("input_json_delta"@.len() == 16);
    assert("thinking_delta"@.len() == 14);
    assert("tool_use"@.len() == 8);
    assert("max_tokens"@.len() == 10);
    assert("message_start"@[8] == 's');
    assert("message_delta"@[8] == 'd');
}

/// The last that is there.
pub open spec fn latest<A>(given: Seq<Option<A>>) -> Option<A>
    decreases given.len(),
{
    if given.len() == 0 {
        None
    } else if given.last() is Some {
        given.last()
    } else {
        latest(given.drop_last())
    }
}

/// The id that an event gives to the answer.
pub open spec fn id_given(event: StreamEventView) -> Option<Seq<char>> {
    match event.message {
        Some(MessageStartView { id, .. }) => if event.kind == "message_start"@ {
            Some(id)
        } else {
            None
        },
        None => None,
    }
}

/// The count of tokens taken in that an event gives.
pub open spec fn input_given(event: StreamEventView) -> Option<i64> {
    match event.message {
        Some(MessageStartView { usage: Some(usage), .. }) => if event.kind == "message_start"@ {
            Some(usage.input_tokens)
        } else {
            None
        },
        _ => None,
    }
}

/// The count of tokens given out that an event gives: at the beginning, or with
/// news of the answer.
pub open spec fn output_given(event: StreamEventView) -> Option<i64> {
    if event.kind == "message_start"@ {
        match event.message {
            Some(MessageStartView { usage: Some(usage), .. }) => Some(usage.output_tokens),
            _ => None,
        }
    } else if event.kind == "message_delta"@ {
        match event.usage {
            Some(usage) => usage.output_tokens,
            None => None,
        }
    } else {
        None
    }
}

/// The reason to stop that an event gives, which may be that there is none.
pub open spec fn stop_given(event: StreamEventView) -> Option<Option<Seq<char>>> {
    match event.delta {
        Some(delta) => if event.kind == "message_delta"@ {
            Some(delta.stop_reason)
        } else {
            None
        },
        None => None,
    }
}

pub open spec fn ids_given(events: Seq<StreamEventView>) -> Seq<Option<Seq<char>>> {
    events.map_values(|e: StreamEventView| id_given(e))
}

pub open spec fn inputs_given(events: Seq<StreamEventView>) -> Seq<Option<i64>> {
    events.map_values(|e: StreamEventView| input_given(e))
}

pub open spec fn outputs_given(events: Seq<StreamEventView>) -> Seq<Option<i64>> {
    events.map_values(|e: StreamEventView| output_given(e))
}

pub open spec fn stops_given(events: Seq<StreamEventView>) -> Seq<Option<Option<Seq<char>>>> {
    events.map_values(|e: StreamEventView| stop_given(e))
}

proof fn lemma_event_head(run: AnthropicRun, event: StreamEventView)
    ensures
        ({
            let before = run.state;
            let after = run.event(event).state;
            &&& after.response_id == (if id_given(event) is Some {
                id_given(event)
            } else {
                before.response_id
            })
            &&& after.input_tokens == (if input_given(event) is Some {
                input_given(event)
            } else {
                before.input_tokens
            })
            &&& after.output_tokens == (if output_given(event) is Some {
                output_given(event)
            } else {
                before.output_tokens
            })
            &&& after.stop_reason == (match stop_given(event) {
                Some(reason) => reason,
                None => before.stop_reason,
            })
        }),
{
    lemma_kinds();
    lemma_all_kinds();
}

/// What is known of an answer as a whole is what the events gave last: its id,
/// the tokens taken in, the tokens given out, and the reason to stop.
pub proof fn law_the_latest_counts(events: Seq<StreamEventView>)
    ensures
        ({
            let state = events_come(fresh_run(), events).state;
            &&& state.response_id == latest(ids_given(events))
            &&& state.input_tokens == latest(inputs_given(events))
            &&& state.output_tokens == latest(outputs_given(events))
            &&& state.stop_reason == (match latest(stops_given(events)) {
                Some(reason) => reason,
                None => None,
            })
        }),
    decreases events.len(),
{
    if events.len() > 0 {
        let front = events.drop_last();
        law_the_latest_counts(front);
        lemma_event_head(events_come(fresh_run(), front), events.last());
        assert(ids_given(events).drop_last() =~= ids_given(front));
        assert(inputs_given(events).drop_last() =~= inputs_given(front));
        assert(outputs_given(events).drop_last() =~= outputs_given(front));
        assert(stops_given(events).drop_last() =~= stops_given(front));
    }
}

/// At the end of an answer its tokens are told as the service counted them: those
/// taken in and those given out as it said last, and their sum. Where it never
/// counted those taken in, nothing is told of them. The turn is over unless the
/// last reason to stop was a tool or the limit of tokens.
pub proof fn law_the_end_tells_what_was_counted(
    events: Seq<StreamEventView>,
    stop: StreamEventView,
)
    requires
        stop.kind == "message_stop"@,
    ensures
        ({
            let before = events_come(fresh_run(), events);
            let after = before.event(stop);
            let output = latest(outputs_given(events)).unwrap_or(0);
            &&& after.done
            &&& after.sent.drop_last() == before.sent
            &&& after.sent.last() matches Ok(
                EventView::Completed { response_id, token_usage, end_turn },
            )
            &&& response_id == latest(ids_given(events)).unwrap_or("anthropic-message"@)
            &&& latest(inputs_given(events)) is None ==> token_usage is None
            &&& latest(inputs_given(events)) matches Some(input) ==> {
                &&& token_usage matches Some(usage)
                &&& usage.input_tokens == input
                &&& usage.output_tokens == output
                &&& i64::MIN <= input + output <= i64::MAX ==> usage.total_tokens == input
                    + output
                &&& usage.cached_input_tokens == 0
                &&& usage.reasoning_output_tokens == 0
            }
            &&& end_turn == Some(
                latest(stops_given(events)) != Some(Some("tool_use"@)) && latest(
                    stops_given(events),
                ) != Some(Some("max_tokens"@)),
            )
        }),
{
    lemma_kinds();
    lemma_all_kinds();
    law_the_latest_counts(events);
    let before = events_come(fresh_run(), events);
    assert(before.event(stop).sent.drop_last() =~= before.sent);
}

/// Whether an event ends the answer, for better or worse.
pub open spec fn stops(event: StreamEventView) -> bool {
    event.kind == "message_stop"@ || event.kind == "error"@
}

/// Polls that bring events, none of which ends the answer.
pub open spec fn as_polls(events: Seq<StreamEventView>) -> Seq<AnthropicPollView> {
    events.map_values(|e: StreamEventView| AnthropicPollView::Event(Some(e)))
}

/// Events that come by polls are events that come: an answer that is polled goes
/// through them one by one until one ends it.
pub proof fn law_events_come_by_polls(events: Seq<StreamEventView>)
    requires
        forall|i: int| 0 <= i < events.len() ==> !stops(#[trigger] events[i]),
    ensures
        polled(fresh_run(), as_polls(events)) == events_come(fresh_run(), events),
        !events_come(fresh_run(), events).done,
    decreases events.len(),
{
    if events.len() > 0 {
        let front = events.drop_last();
        assert forall|i: int| 0 <= i < front.len() implies !stops(#[trigger] front[i]) by {
            assert(front[i] == events[i]);
        }
        law_events_come_by_polls(front);
        assert(as_polls(events).drop_last() =~= as_polls(front));
        assert(!stops(events[events.len() - 1]));
        lemma_kinds();
        lemma_all_kinds();
    }
}

/// An answer ends at the event that says so, and at an error, and at no other
/// event.
pub proof fn law_an_answer_ends_where_it_says(run: AnthropicRun, event: StreamEventView)
    requires
        !run.done,
    ensures
        run.event(event).done == stops(event),
{
    lemma_kinds();
    lemma_all_kinds();
}

/// What each event sends that is not of a block: that the answer was created, or
/// what went wrong, or nothing. Events of other kinds change nothing at all, nor
/// do those of a block that do not say which.
pub proof fn law_what_events_of_the_answer_send(run: AnthropicRun, event: StreamEventView)
    ensures
        event.kind == "message_start"@ ==> run.event(event).sent == run.sent.push(
            Ok(EventView::Created),
        ),
        event.kind == "message_delta"@ ==> run.event(event).sent == run.sent,
        event.kind == "error"@ ==> run.event(event).sent == run.sent.push(
            Err(
                ErrorView::Stream(
                    match event.error {
                        Some(message) => message,
                        None => "Anthropic stream error"@,
                    },
                ),
            ),
        ) && run.event(event).state == run.state,
        event.kind != "message_start"@ && event.kind != "message_delta"@ && event.kind
            != "message_stop"@ && event.kind != "error"@ && event.kind != "content_block_start"@
            && event.kind != "content_block_delta"@ && event.kind != "content_block_stop"@
            ==> run.event(event) == run,
        event.index is None && (event.kind == "content_block_start"@ || event.kind
            == "content_block_delta"@ || event.kind == "content_block_stop"@) ==> run.event(event)
            == run,
{
    lemma_kinds();
    lemma_all_kinds();
}

/// A piece of text of a block that is open as text is sent as it comes, and no
/// other piece of a block sends anything.
pub proof fn law_text_is_sent_as_it_comes(run: AnthropicRun, event: StreamEventView, index: usize)
    requires
        event.kind == "content_block_delta"@,
        event.index == Some(index),
    ensures
        ({
            let open = run.state.blocks.contains_key(index) && run.state.blocks[index] is Text;
            match event.delta {
                Some(DeltaView { kind: Some(kind), text: Some(text), .. }) =>
                if open && kind == "text_delta"@ {
                    run.event(event).sent == run.sent.push(Ok(EventView::OutputTextDelta(text)))
                } else {
                    run.event(event).sent == run.sent
                },
                _ => run.event(event).sent == run.sent,
            }
        }),
{
    lemma_kinds();
    lemma_all_kinds();
}

/// The id that an answer goes by: the one the service gave, or a fixed one.
pub open spec fn known_as(state: AnthropicView) -> Seq<char> {
    match state.response_id {
        Some(id) => id,
        None => "anthropic-message"@,
    }
}

/// A message of one text, or of nothing where the text is empty.
pub open spec fn text_message(answer: Seq<char>, index: usize, text: Seq<char>) -> ItemView {
    ItemView::Message {
        id: Some(answer + ":text:"@ + decimal(index as nat)),
        role: "assistant"@,
        content: if text.len() == 0 {
            Seq::empty()
        } else {
            seq![ContentView::OutputText { text }]
        },
        phase: None,
    }
}

/// Whether an event begins a block.
pub open spec fn begins(event: StreamEventView, index: usize, block: BlockStartView) -> bool {
    &&& event.kind == "content_block_start"@
    &&& event.index == Some(index)
    &&& event.content_block == Some(block)
}

/// Whether an event closes a block.
pub open spec fn shuts(event: StreamEventView, index: usize) -> bool {
    event.kind == "content_block_stop"@ && event.index == Some(index)
}

/// A block of text is told of when it begins, with what it begins with, and when
/// it is closed, with that and all the pieces that came for it, whatever else
/// came in between.
pub proof fn law_a_text_block_becomes_a_message(
    run: AnthropicRun,
    start: StreamEventView,
    events: Seq<StreamEventView>,
    stop: StreamEventView,
    index: usize,
    text: Option<Seq<char>>,
)
    requires
        begins(start, index, BlockStartView::Text { text }),
        shuts(stop, index),
        forall|i: int| 0 <= i < events.len() ==> !bounds_block(#[trigger] events[i], index),
    ensures
        ({
            let first = text.unwrap_or(Seq::empty());
            let begun = run.event(start);
            let open = events_come(begun, events);
            let shut = open.event(stop);
            &&& begun.sent == run.sent.push(
                Ok(EventView::OutputItemAdded(text_message(known_as(run.state), index, first))),
            )
            &&& shut.sent == open.sent.push(
                Ok(
                    EventView::OutputItemDone(
                        text_message(
                            known_as(open.state),
                            index,
                            first + text_pieces(events, index),
                        ),
                    ),
                ),
            )
        }),
{
    lemma_kinds();
    lemma_all_kinds();
    law_text_is_put_together(run, index, text, events);
    assert(run.event(start) == run.block_started(index, Some(BlockStartView::Text { text })));
    let open = events_come(run.event(start), events);
    assert(open.event(stop) == open.block_stopped(index));
}

/// A block of a tool is told of when it is closed, as a call by its own id and
/// name. Its arguments are all the pieces that came for it; where none came, the
/// input that it began with, written as JSON; and where there was none, an empty
/// object.
pub proof fn law_a_tool_block_becomes_a_call(
    run: AnthropicRun,
    start: StreamEventView,
    events: Seq<StreamEventView>,
    stop: StreamEventView,
    index: usize,
    id: Seq<char>,
    name: Seq<char>,
    input: Option<Json>,
)
    requires
        begins(start, index, BlockStartView::ToolUse { id, name, input }),
        shuts(stop, index),
        forall|i: int| 0 <= i < events.len() ==> !bounds_block(#[trigger] events[i], index),
    ensures
        ({
            let begun = run.event(start);
            let open = events_come(begun, events);
            let shut = open.event(stop);
            let pieces = input_pieces(events, index);
            &&& begun.sent == run.sent
            &&& shut.sent == open.sent.push(
                Ok(
                    EventView::OutputItemDone(
                        ItemView::FunctionCall {
                            id: Some(id),
                            name,
                            namespace: None,
                            arguments: if pieces.len() > 0 {
                                pieces
                            } else {
                                match input {
                                    Some(value) => rendered_json(value),
                                    None => "{}"@,
                                }
                            },
                            call_id: id,
                        },
                    ),
                ),
            )
        }),
{
    lemma_kinds();
    lemma_all_kinds();
    law_tool_input_is_put_together(run, index, id, name, input, events);
    assert(run.event(start) == run.block_started(
        index,
        Some(BlockStartView::ToolUse { id, name, input }),
    ));
    let open = events_come(run.event(start), events);
    assert(open.event(stop) == open.block_stopped(index));
}

/// Thinking that comes for no block begins one. Nothing is told of it until it is
/// closed: then it becomes reasoning whose summary is all the pieces.
pub proof fn law_thinking_becomes_reasoning(
    run: AnthropicRun,
    first: StreamEventView,
    events: Seq<StreamEventView>,
    stop: StreamEventView,
    index: usize,
    piece: Seq<char>,
)
    requires
        !run.state.blocks.contains_key(index),
        first.kind == "content_block_delta"@,
        first.index == Some(index),
        first.delta matches Some(delta) && delta.kind == Some("thinking_delta"@)
            && delta.thinking == Some(piece),
        shuts(stop, index),
        forall|i: int| 0 <= i < events.len() ==> !bounds_block(#[trigger] events[i], index),
    ensures
        ({
            let begun = run.event(first);
            let open = events_come(begun, events);
            let shut = open.event(stop);
            &&& begun.sent == run.sent
            &&& shut.sent == open.sent.push(
                Ok(
                    EventView::OutputItemDone(
                        ItemView::Reasoning {
                            id: known_as(open.state) + ":thinking:"@ + decimal(index as nat),
                            summary: seq![piece + thinking_pieces(events, index)],
                            content: None,
                            encrypted_content: None,
                        },
                    ),
                ),
            )
        }),
{
    lemma_kinds();
    lemma_all_kinds();
    law_thinking_is_put_together(run, index, first, events);
    law_text_is_sent_as_it_comes(run, first, index);
    let open = events_come(run.event(first), events);
    assert(open.event(stop) == open.block_stopped(index));
}

/// A block of another kind, or of none, is told of neither when it begins nor
/// when it is closed. Closing what was not begun sends nothing either, and a block
/// that is closed is gone.
pub proof fn law_other_blocks_become_nothing(
    run: AnthropicRun,
    start: StreamEventView,
    stop: StreamEventView,
    index: usize,
)
    requires
        start.kind == "content_block_start"@,
        start.index == Some(index),
        start.content_block is None || start.content_block == Some(BlockStartView::Other),
        shuts(stop, index),
    ensures
        run.event(start).sent == run.sent,
        run.event(start).event(stop).sent == run.sent,
        !run.state.blocks.contains_key(index) ==> run.event(stop) == run,
        !run.event(stop).state.blocks.contains_key(index),
{
    lemma_kinds();
    lemma_all_kinds();
}

/// A piece changes a block only if it is of the block's kind, and begins one only
/// if it is thinking: any other changes nothing at all.
pub proof fn law_pieces_of_other_kinds_are_passed_over(
    run: AnthropicRun,
    event: StreamEventView,
    index: usize,
)
    requires
        event.kind == "content_block_delta"@,
        event.index == Some(index),
        event.delta matches Some(delta) ==> {
            let open = run.state.blocks.contains_key(index);
            let block = run.state.blocks[index];
            let text = delta.kind == Some("text_delta"@) && delta.text is Some;
            let input = delta.kind == Some("input_json_delta"@) && delta.partial_json is Some;
            let thinking = delta.kind == Some("thinking_delta"@) && delta.thinking is Some;
            &&& open && block is Text ==> !text
            &&& open && block is ToolUse ==> !input
            &&& open && block is Thinking ==> !thinking
            &&& !open ==> !thinking
        },
    ensures
        run.event(event) == run,
{
    lemma_kinds();
    lemma_all_kinds();
    if event.delta is Some && run.state.blocks.contains_key(index) {
        assert(run.state.blocks.insert(index, run.state.blocks[index]) =~= run.state.blocks);
    }
}

/// An event of one block leaves the other blocks as they are, and what is known of
/// the answer as a whole.
pub proof fn law_other_blocks_stay(
    run: AnthropicRun,
    event: StreamEventView,
    index: usize,
    other: usize,
)
    requires
        event.kind == "content_block_start"@ || event.kind == "content_block_delta"@
            || event.kind == "content_block_stop"@,
        event.index == Some(index),
        other != index,
    ensures
        ({
            let after = run.event(event).state;
            &&& after.blocks.contains_key(other) == run.state.blocks.contains_key(other)
            &&& run.state.blocks.contains_key(other) ==> after.blocks[other]
                == run.state.blocks[other]
            &&& after.response_id == run.state.response_id
            &&& after.input_tokens == run.state.input_tokens
            &&& after.output_tokens == run.state.output_tokens
            &&& after.stop_reason == run.state.stop_reason
        }),
{
    lemma_kinds();
    lemma_all_kinds();
}

/// The tokens can be told just where their sum fits, or where those taken in were
/// not counted; and only the event at the end of an answer asks for them.
pub proof fn law_when_tokens_can_be_told(state: AnthropicView, poll: AnthropicPollView)
    ensures
        state.input_tokens is None ==> state.usage_fits(),
        state.input_tokens matches Some(input) ==> {
            let output = state.output_tokens.unwrap_or(0);
            state.usage_fits() <==> i64::MIN <= input + output <= i64::MAX
        },
        ends_answer(poll) <==> (poll is Event && poll->Event_0 is Some && poll->Event_0->0.kind
            == "message_stop"@),
{
}

} // verus!
