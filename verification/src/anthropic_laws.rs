//! What the reader of an Anthropic answer may rely on.
use vstd::prelude::*;

use crate::anthropic_stream::{
    begun, fresh_answer, grown, AnthropicPollView, AnthropicRun, BlockStartView, BlockView,
    DeltaView, StreamEventView,
};
use crate::json::Json;
use crate::protocol::{EventView, ItemView, StreamResultView};

verus! {

/// The kinds of events that matter are told apart by their names.
pub(crate) proof fn lemma_kinds()
    ensures
        "message_start"@ != "content_block_start"@,
        "message_start"@ != "content_block_delta"@,
        "message_start"@ != "content_block_stop"@,
        "content_block_start"@ != "content_block_delta"@,
        "content_block_start"@ != "content_block_stop"@,
        "content_block_delta"@ != "content_block_stop"@,
        "message_delta"@ != "content_block_start"@,
        "message_delta"@ != "content_block_delta"@,
        "message_delta"@ != "content_block_stop"@,
        "message_stop"@ != "content_block_start"@,
        "message_stop"@ != "content_block_delta"@,
        "message_stop"@ != "content_block_stop"@,
        "error"@ != "content_block_start"@,
        "error"@ != "content_block_delta"@,
        "error"@ != "content_block_stop"@,
{
    reveal_strlit("message_start");
    reveal_strlit("content_block_start");
    reveal_strlit("content_block_delta");
    reveal_strlit("content_block_stop");
    reveal_strlit("message_delta");
    reveal_strlit("message_stop");
    reveal_strlit("error");
    assert("message_start"@.len() == 13);
    assert("content_block_start"@.len() == 19);
    assert("content_block_delta"@.len() == 19);
    assert("content_block_stop"@.len() == 18);
    assert("message_delta"@.len() == 13);
    assert("message_stop"@.len() == 12);
    assert("error"@.len() == 5);
    assert("content_block_start"@[14] == 's');
    assert("content_block_delta"@[14] == 'd');
}

/// An answer after several polls: the one that ends it is the last that counts.
pub open spec fn polled(run: AnthropicRun, polls: Seq<AnthropicPollView>) -> AnthropicRun
    decreases polls.len(),
{
    if polls.len() == 0 {
        run
    } else {
        let before = polled(run, polls.drop_last());
        if before.done {
            before
        } else {
            before.poll(polls.last())
        }
    }
}

/// How often the end of an answer was told, for better or worse.
pub open spec fn ends(sent: Seq<StreamResultView>) -> nat
    decreases sent.len(),
{
    if sent.len() == 0 {
        0
    } else {
        ends(sent.drop_last()) + match sent.last() {
            Ok(EventView::Completed { .. }) => 1nat,
            Err(_) => 1nat,
            _ => 0nat,
        }
    }
}

broadcast proof fn lemma_ends_push(sent: Seq<StreamResultView>, result: StreamResultView)
    ensures
        #[trigger] ends(sent.push(result)) == ends(sent) + match result {
            Ok(EventView::Completed { .. }) => 1nat,
            Err(_) => 1nat,
            _ => 0nat,
        },
{
    assert(sent.push(result).drop_last() =~= sent);
}

/// An answer with what it sent put behind what was sent before.
pub open spec fn behind(sent: Seq<StreamResultView>, run: AnthropicRun) -> AnthropicRun {
    AnthropicRun { sent: sent + run.sent, ..run }
}

/// What a step sends depends on the answer so far, not on what was sent of it: a
/// step adds to that what it would send if nothing had been sent.
pub proof fn law_a_step_adds_what_it_sends(run: AnthropicRun, poll: AnthropicPollView)
    requires
        !run.done,
    ensures
        run.poll(poll) == behind(
            run.sent,
            (AnthropicRun { state: run.state, sent: Seq::empty(), done: false }).poll(poll),
        ),
{
    let unsent = AnthropicRun { state: run.state, sent: Seq::empty(), done: false };
    let step = unsent.poll(poll).sent;
    if step.len() == 0 {
        assert(run.sent + step =~= run.sent);
    } else {
        assert(run.sent + step =~= run.sent.push(step[0]));
    }
}

/// An answer of which nothing has come and nothing is told.
pub open spec fn fresh_run() -> AnthropicRun {
    AnthropicRun { state: fresh_answer(), sent: Seq::empty(), done: false }
}

/// What a reader gets who hands polls in one by one, and puts together what each
/// step sends, until one ends the answer.
pub open spec fn delivered(polls: Seq<AnthropicPollView>) -> AnthropicRun
    decreases polls.len(),
{
    if polls.len() == 0 {
        fresh_run()
    } else {
        let before = delivered(polls.drop_last());
        if before.done {
            before
        } else {
            behind(
                before.sent,
                (AnthropicRun { state: before.state, sent: Seq::empty(), done: false }).poll(
                    polls.last(),
                ),
            )
        }
    }
}

/// What the steps send, put together, is what the answer as a whole sends: all
/// that is said here of whole answers holds of what a reader gets step by step.
pub proof fn law_the_steps_make_the_answer(polls: Seq<AnthropicPollView>)
    ensures
        delivered(polls) == polled(fresh_run(), polls),
    decreases polls.len(),
{
    if polls.len() > 0 {
        law_the_steps_make_the_answer(polls.drop_last());
        let before = delivered(polls.drop_last());
        if !before.done {
            law_a_step_adds_what_it_sends(before, polls.last());
        }
    }
}

/// What is sent is never taken back: a step only adds to it.
pub proof fn law_a_step_only_adds(run: AnthropicRun, poll: AnthropicPollView)
    ensures
        run.sent.is_prefix_of(run.poll(poll).sent),
{
    let after = run.poll(poll).sent;
    assert(after.take(run.sent.len() as int) =~= run.sent);
}

/// The end of an answer is told once, when it ends and not before, and nothing
/// is sent after it.
pub proof fn law_the_end_is_told_once(run: AnthropicRun, polls: Seq<AnthropicPollView>)
    requires
        !run.done,
        ends(run.sent) == 0,
    ensures
        ({
            let end = polled(run, polls);
            &&& ends(end.sent) == if end.done {
                1nat
            } else {
                0nat
            }
            &&& end.done ==> end.sent.len() > 0 && match end.sent.last() {
                Ok(EventView::Completed { .. }) => true,
                Err(_) => true,
                _ => false,
            }
        }),
    decreases polls.len(),
{
    broadcast use lemma_ends_push;

    if polls.len() > 0 {
        law_the_end_is_told_once(run, polls.drop_last());
    }
}

/// What an event makes of the block under an index.
pub open spec fn touched(
    block: Option<BlockView>,
    event: StreamEventView,
    index: usize,
) -> Option<BlockView> {
    if event.index != Some(index) {
        block
    } else if event.kind == "content_block_start"@ {
        Some(begun(event.content_block))
    } else if event.kind == "content_block_delta"@ && event.delta is Some {
        grown(block, event.delta->0)
    } else if event.kind == "content_block_stop"@ {
        None
    } else {
        block
    }
}

/// A block depends on its own events alone: those of other blocks, and those of
/// the answer as a whole, leave it as it is.
pub proof fn law_a_block_depends_on_its_own_events(
    run: AnthropicRun,
    event: StreamEventView,
    index: usize,
)
    ensures
        run.event(event).state.blocks.get(index) == touched(
            run.state.blocks.get(index),
            event,
            index,
        ),
{
    lemma_kinds();
}

/// An answer after several events.
pub open spec fn events_come(run: AnthropicRun, events: Seq<StreamEventView>) -> AnthropicRun
    decreases events.len(),
{
    if events.len() == 0 {
        run
    } else {
        events_come(run, events.drop_last()).event(events.last())
    }
}

/// Whether an event begins or closes the block under an index.
pub open spec fn bounds_block(event: StreamEventView, index: usize) -> bool {
    event.index == Some(index) && (event.kind == "content_block_start"@ || event.kind
        == "content_block_stop"@)
}

/// The piece of text that an event brings for the block under an index.
pub open spec fn text_piece(event: StreamEventView, index: usize) -> Seq<char> {
    match event.delta {
        Some(DeltaView { kind, text: Some(text), .. }) => if event.kind == "content_block_delta"@
            && event.index == Some(index) && kind == Some("text_delta"@) {
            text
        } else {
            Seq::empty()
        },
        _ => Seq::empty(),
    }
}

/// The pieces of text for the block under an index, put together.
pub open spec fn text_pieces(events: Seq<StreamEventView>, index: usize) -> Seq<char>
    decreases events.len(),
{
    if events.len() == 0 {
        Seq::empty()
    } else {
        text_pieces(events.drop_last(), index) + text_piece(events.last(), index)
    }
}

/// The piece of a tool's input that an event brings for the block under an index.
pub open spec fn input_piece(event: StreamEventView, index: usize) -> Seq<char> {
    match event.delta {
        Some(DeltaView { kind, partial_json: Some(piece), .. }) => if event.kind
            == "content_block_delta"@ && event.index == Some(index) && kind == Some(
            "input_json_delta"@,
        ) {
            piece
        } else {
            Seq::empty()
        },
        _ => Seq::empty(),
    }
}

/// The pieces of a tool's input for the block under an index, put together.
pub open spec fn input_pieces(events: Seq<StreamEventView>, index: usize) -> Seq<char>
    decreases events.len(),
{
    if events.len() == 0 {
        Seq::empty()
    } else {
        input_pieces(events.drop_last(), index) + input_piece(events.last(), index)
    }
}

/// The piece of thinking that an event brings for the block under an index.
pub open spec fn thinking_piece(event: StreamEventView, index: usize) -> Seq<char> {
    match event.delta {
        Some(DeltaView { kind, thinking: Some(piece), .. }) => if event.kind
            == "content_block_delta"@ && event.index == Some(index) && kind == Some(
            "thinking_delta"@,
        ) {
            piece
        } else {
            Seq::empty()
        },
        _ => Seq::empty(),
    }
}

/// The pieces of thinking for the block under an index, put together.
pub open spec fn thinking_pieces(events: Seq<StreamEventView>, index: usize) -> Seq<char>
    decreases events.len(),
{
    if events.len() == 0 {
        Seq::empty()
    } else {
        thinking_pieces(events.drop_last(), index) + thinking_piece(events.last(), index)
    }
}

/// A block of text becomes a message with the text that it began with and all
/// the pieces that came for it, whatever else came in between.
pub proof fn law_text_is_put_together(
    run: AnthropicRun,
    index: usize,
    text: Option<Seq<char>>,
    events: Seq<StreamEventView>,
)
    requires
        forall|i: int| 0 <= i < events.len() ==> !bounds_block(#[trigger] events[i], index),
    ensures
        ({
            let first = text.unwrap_or(Seq::empty());
            let begun = run.block_started(index, Some(BlockStartView::Text { text }));
            let open = events_come(begun, events);
            let whole = first + text_pieces(events, index);
            &&& begun.sent == run.sent.push(
                Ok(EventView::OutputItemAdded(run.state.text_item(index, first))),
            )
            &&& open.state.blocks.get(index) == Some(BlockView::Text { text: whole })
            &&& open.block_stopped(index).sent == open.sent.push(
                Ok(EventView::OutputItemDone(open.state.text_item(index, whole))),
            )
        }),
    decreases events.len(),
{
    let first = text.unwrap_or(Seq::empty());
    let begun = run.block_started(index, Some(BlockStartView::Text { text }));
    if events.len() == 0 {
        assert(first + text_pieces(events, index) =~= first);
    } else {
        let front = events.drop_last();
        assert forall|i: int| 0 <= i < front.len() implies !bounds_block(
            #[trigger] front[i],
            index,
        ) by {
            assert(front[i] == events[i]);
        }
        law_text_is_put_together(run, index, text, front);
        law_a_block_depends_on_its_own_events(
            events_come(begun, front),
            events.last(),
            index,
        );
        assert(!bounds_block(events[events.len() - 1], index));
        let before = first + text_pieces(front, index);
        assert(before + Seq::<char>::empty() =~= before);
        assert(first + text_pieces(events, index) =~= before + text_piece(events.last(), index));
    }
}

/// A block of a tool call becomes a call of the tool. Its arguments are all the
/// pieces that came for it, whatever else came in between.
pub proof fn law_tool_input_is_put_together(
    run: AnthropicRun,
    index: usize,
    id: Seq<char>,
    name: Seq<char>,
    input: Option<Json>,
    events: Seq<StreamEventView>,
)
    requires
        forall|i: int| 0 <= i < events.len() ==> !bounds_block(#[trigger] events[i], index),
    ensures
        ({
            let begun = run.block_started(
                index,
                Some(BlockStartView::ToolUse { id, name, input }),
            );
            let open = events_come(begun, events);
            let pieces = input_pieces(events, index);
            &&& begun.sent == run.sent
            &&& open.state.blocks.get(index) == Some(
                BlockView::ToolUse { id, name, initial_input: input, partial_json: pieces },
            )
            &&& pieces.len() > 0 ==> open.block_stopped(index).sent == open.sent.push(
                Ok(
                    EventView::OutputItemDone(
                        ItemView::FunctionCall {
                            id: Some(id),
                            name,
                            namespace: None,
                            arguments: pieces,
                            call_id: id,
                        },
                    ),
                ),
            )
        }),
    decreases events.len(),
{
    let begun = run.block_started(index, Some(BlockStartView::ToolUse { id, name, input }));
    if events.len() > 0 {
        let front = events.drop_last();
        assert forall|i: int| 0 <= i < front.len() implies !bounds_block(
            #[trigger] front[i],
            index,
        ) by {
            assert(front[i] == events[i]);
        }
        law_tool_input_is_put_together(run, index, id, name, input, front);
        law_a_block_depends_on_its_own_events(
            events_come(begun, front),
            events.last(),
            index,
        );
        assert(!bounds_block(events[events.len() - 1], index));
        let before = input_pieces(front, index);
        assert(before + Seq::<char>::empty() =~= before);
    }
}

/// Thinking needs no beginning: its first piece begins the block, and when that
/// is closed it becomes reasoning with all the pieces that came for it.
pub proof fn law_thinking_is_put_together(
    run: AnthropicRun,
    index: usize,
    first: StreamEventView,
    events: Seq<StreamEventView>,
)
    requires
        run.state.blocks.get(index) is None,
        first.kind == "content_block_delta"@,
        first.index == Some(index),
        first.delta is Some,
        first.delta->0.kind == Some("thinking_delta"@),
        first.delta->0.thinking is Some,
        forall|i: int| 0 <= i < events.len() ==> !bounds_block(#[trigger] events[i], index),
    ensures
        ({
            let open = events_come(run.event(first), events);
            let whole = first.delta->0.thinking->0 + thinking_pieces(events, index);
            &&& open.state.blocks.get(index) == Some(BlockView::Thinking { text: whole })
            &&& open.block_stopped(index).sent == open.sent.push(
                Ok(
                    EventView::OutputItemDone(
                        ItemView::Reasoning {
                            id: open.state.block_id(":thinking:"@, index),
                            summary: seq![whole],
                            content: None,
                            encrypted_content: None,
                        },
                    ),
                ),
            )
        }),
    decreases events.len(),
{
    let begun = run.event(first);
    let piece = first.delta->0.thinking->0;
    lemma_kinds();
    law_a_block_depends_on_its_own_events(run, first, index);
    if events.len() == 0 {
        assert(piece + thinking_pieces(events, index) =~= piece);
    } else {
        let front = events.drop_last();
        assert forall|i: int| 0 <= i < front.len() implies !bounds_block(
            #[trigger] front[i],
            index,
        ) by {
            assert(front[i] == events[i]);
        }
        law_thinking_is_put_together(run, index, first, front);
        law_a_block_depends_on_its_own_events(
            events_come(begun, front),
            events.last(),
            index,
        );
        assert(!bounds_block(events[events.len() - 1], index));
        let before = piece + thinking_pieces(front, index);
        assert(before + Seq::<char>::empty() =~= before);
        assert(piece + thinking_pieces(events, index) =~= before + thinking_piece(
            events.last(),
            index,
        ));
    }
}

} // verus!
