//! What the reader of a chat completion may rely on.
use vstd::prelude::*;

use crate::chat_stream::{
    call_at, call_grown, called, calls_grown, calls_taken, end_mark, fresh_chat, listing,
    tool_call_id, tool_call_item, ChatPollView, ChatRun, ChatStateView, ChoiceView, ChunkView,
    FunctionDeltaView, ToolCallView, ToolDeltaView,
};
use crate::protocol::{
    ContentView, ErrorView, EventView, ItemView, ReasoningView, StreamResultView,
};
use crate::text::{concatenated, decimal, lemma_decimal_injective};
use crate::think::{drained, fed, fresh_parser, SegmentView, ThinkView};
use crate::think_laws::{
    law_drain_keeps_the_reading, law_flush_gives_out_all, law_no_segment_is_empty, marked,
    marks, reading, segment_marks,
};

verus! {

/// What was told of an answer: how often it was created, how often its message
/// and its reasoning were opened and closed and with what text, the text of the
/// deltas in between, and whether the end was told.
#[verifier::ext_equal]
pub struct Told {
    pub created: nat,
    pub message_added: nat,
    pub message_done: nat,
    pub message_text: Seq<char>,
    pub text: Seq<char>,
    pub reasoning_added: nat,
    pub reasoning_done: nat,
    pub reasoning_text: Seq<char>,
    pub thought: Seq<char>,
    pub ended: nat,
}

/// The text of a message's content.
pub open spec fn content_text(content: Seq<ContentView>) -> Seq<char> {
    if content.len() == 0 {
        Seq::empty()
    } else {
        match content[0] {
            ContentView::OutputText { text } => text,
            ContentView::InputText { text } => text,
            ContentView::InputImage { .. } => Seq::empty(),
        }
    }
}

/// The text of a reasoning item's content.
pub open spec fn thought_text(content: Option<Seq<ReasoningView>>) -> Seq<char> {
    match content {
        Some(pieces) => if pieces.len() == 0 {
            Seq::empty()
        } else {
            match pieces[0] {
                ReasoningView::ReasoningText { text } => text,
                ReasoningView::Text { text } => text,
            }
        },
        None => Seq::empty(),
    }
}

impl Told {
    pub open spec fn nothing() -> Told {
        Told {
            created: 0,
            message_added: 0,
            message_done: 0,
            message_text: Seq::empty(),
            text: Seq::empty(),
            reasoning_added: 0,
            reasoning_done: 0,
            reasoning_text: Seq::empty(),
            thought: Seq::empty(),
            ended: 0,
        }
    }

    pub open spec fn and(self, result: StreamResultView) -> Told {
        match result {
            Ok(EventView::Created) => Told { created: self.created + 1, ..self },
            Ok(EventView::OutputItemAdded(ItemView::Message { .. })) => Told {
                message_added: self.message_added + 1,
                ..self
            },
            Ok(EventView::OutputItemDone(ItemView::Message { content, .. })) => Told {
                message_done: self.message_done + 1,
                message_text: content_text(content),
                ..self
            },
            Ok(EventView::OutputTextDelta(text)) => Told { text: self.text + text, ..self },
            Ok(EventView::OutputItemAdded(ItemView::Reasoning { .. })) => Told {
                reasoning_added: self.reasoning_added + 1,
                ..self
            },
            Ok(EventView::OutputItemDone(ItemView::Reasoning { content, .. })) => Told {
                reasoning_done: self.reasoning_done + 1,
                reasoning_text: thought_text(content),
                ..self
            },
            Ok(EventView::ReasoningContentDelta { delta, .. }) => Told {
                thought: self.thought + delta,
                ..self
            },
            Ok(EventView::Completed { .. }) => Told { ended: self.ended + 1, ..self },
            Err(_) => Told { ended: self.ended + 1, ..self },
            _ => self,
        }
    }
}

/// What was told by all that was sent.
pub open spec fn told(sent: Seq<StreamResultView>) -> Told
    decreases sent.len(),
{
    if sent.len() == 0 {
        Told::nothing()
    } else {
        told(sent.drop_last()).and(sent.last())
    }
}

pub(crate) broadcast proof fn lemma_told_push(sent: Seq<StreamResultView>, result: StreamResultView)
    ensures
        #[trigger] told(sent.push(result)) == told(sent).and(result),
{
    assert(sent.push(result).drop_last() =~= sent);
}

pub open spec fn once(b: bool) -> nat {
    if b {
        1
    } else {
        0
    }
}

/// Whether what was told of an answer agrees with what is known of it.
pub open spec fn agrees(run: ChatRun) -> bool {
    let t = told(run.sent);
    let s = run.state;
    &&& t.created == once(s.created)
    &&& t.message_added == once(s.message_started)
    &&& t.text == s.message_text
    &&& !s.message_started ==> s.message_text.len() == 0
    &&& t.reasoning_added == once(s.reasoning_started)
    &&& t.reasoning_done == once(s.reasoning_finished)
    &&& s.reasoning_finished ==> s.reasoning_started
    &&& s.reasoning_finished ==> t.reasoning_text == t.thought && t.thought.is_prefix_of(
        s.reasoning_text,
    )
    &&& !s.reasoning_finished ==> t.thought == s.reasoning_text
    &&& !s.reasoning_started ==> t.thought.len() == 0
    &&& t.ended == once(run.done)
    &&& !run.done ==> t.message_done == 0
}

pub(crate) proof fn lemma_reasoning_closed(run: ChatRun)
    requires
        agrees(run),
        !run.done,
    ensures
        agrees(run.reasoning_closed()),
        run.reasoning_closed().state.reasoning_started
            ==> run.reasoning_closed().state.reasoning_finished,
        !run.reasoning_closed().done,
{
    broadcast use lemma_told_push;

    let text = run.state.reasoning_text;
    if text.len() == 0 {
        assert(text =~= Seq::empty());
    }
    assert(text.is_prefix_of(text)) by {
        assert(text.take(text.len() as int) =~= text);
    }
}

pub(crate) proof fn lemma_visible(run: ChatRun, text: Seq<char>)
    requires
        agrees(run),
        !run.done,
    ensures
        agrees(run.visible(text)),
        !run.visible(text).done,
{
    broadcast use lemma_told_push;

    lemma_reasoning_closed(run);
    let closed = run.reasoning_closed();
    let open = closed.message_open();
    assert(agrees(open));
}

pub(crate) proof fn lemma_thought(run: ChatRun, text: Seq<char>)
    requires
        agrees(run),
        !run.done,
    ensures
        agrees(run.thought(text)),
        !run.thought(text).done,
{
    broadcast use lemma_told_push;

    if run.state.reasoning_finished {
        let before = run.state.reasoning_text;
        let t = told(run.sent).thought;
        assert((before + text).take(t.len() as int) =~= before.take(t.len() as int));
        assert(t.is_prefix_of(before + text));
    } else {
        let open = run.reasoning_open();
        assert(agrees(open));
    }
}

pub(crate) proof fn lemma_segments(run: ChatRun, segments: Seq<SegmentView>)
    requires
        agrees(run),
        !run.done,
    ensures
        agrees(run.segments(segments)),
        !run.segments(segments).done,
    decreases segments.len(),
{
    if segments.len() > 0 {
        let before = run.segments(segments.drop_last());
        lemma_segments(run, segments.drop_last());
        match segments.last() {
            SegmentView::Visible(text) => lemma_visible(before, text),
            SegmentView::Reasoning(text) => lemma_thought(before, text),
        }
    }
}

/// Closing tool calls tells nothing of the message, the reasoning or the end.
pub(crate) proof fn lemma_told_calls(
    sent: Seq<StreamResultView>,
    calls: Map<usize, ToolCallView>,
    keys: Seq<usize>,
    id: Seq<char>,
)
    ensures
        told(sent + called(calls, keys, id)) == told(sent),
    decreases keys.len(),
{
    broadcast use lemma_told_push;

    if keys.len() == 0 {
        assert(sent + called(calls, keys, id) =~= sent);
    } else {
        let front = keys.drop_last();
        lemma_told_calls(sent, calls, front, id);
        let call = calls[keys.last()];
        if call.name is Some {
            let item = Ok(EventView::OutputItemDone(tool_call_item(id, keys.last(), call)));
            assert(sent + called(calls, front, id).push(item) =~= (sent + called(
                calls,
                front,
                id,
            )).push(item));
        }
    }
}

/// Whether an answer was brought to its end: each item that was opened has been
/// closed, with the text that the deltas told, and the end was told as the last
/// thing.
pub open spec fn closed(run: ChatRun) -> bool {
    let t = told(run.sent);
    &&& t.message_done == t.message_added
    &&& t.reasoning_done == t.reasoning_added
    &&& run.state.message_started ==> t.message_text == t.text
    &&& run.state.reasoning_started ==> t.reasoning_text == t.thought
    &&& run.sent.len() > 0
    &&& run.sent.last() == Ok::<EventView, ErrorView>(
        EventView::Completed {
            response_id: run.state.id(),
            token_usage: run.state.token_usage,
            end_turn: Some(true),
        },
    )
}

/// When an answer ends, each item that was opened has been closed once, with the
/// text that the deltas told, and the end is told once, as the last thing.
pub proof fn law_the_end_closes_what_was_opened(run: ChatRun)
    requires
        agrees(run),
        !run.done,
    ensures
        agrees(run.finished()),
        run.finished().done,
        closed(run.finished()),
{
    broadcast use lemma_told_push;

    let (given, parser) = drained(run.state.think_parser, true);
    let start = run.at(ChatStateView { think_parser: parser, ..run.state });
    lemma_segments(start, given);
    let read = start.segments(given);
    lemma_reasoning_closed(read);
    let closed = read.reasoning_closed();
    let said = if closed.state.message_started {
        closed.send(EventView::OutputItemDone(closed.state.message()))
    } else {
        closed
    };
    lemma_told_calls(
        said.sent,
        said.state.tool_calls,
        listing(said.state.tool_calls.dom()),
        said.state.id(),
    );
    let end = run.finished();
    let t = told(end.sent);
    assert(agrees(end));
    assert(t.message_done == t.message_added);
    assert(t.reasoning_done == t.reasoning_added);
    assert(end.state.message_started ==> t.message_text == t.text);
    assert(end.state.reasoning_started ==> t.reasoning_text == t.thought);
    assert(end.sent.last() == Ok::<EventView, ErrorView>(
        EventView::Completed {
            response_id: end.state.id(),
            token_usage: end.state.token_usage,
            end_turn: Some(true),
        },
    ));
}

pub(crate) proof fn lemma_choice(run: ChatRun, choice: ChoiceView)
    requires
        agrees(run),
        !run.done,
    ensures
        agrees(run.choice(choice)),
        choice.finish_reason is Some ==> closed(run.choice(choice)),
{
    if let Some(text) = choice.reasoning_content {
        lemma_thought(run, text);
    }
    let thought = run.reasoned(choice.reasoning_content);
    if let Some(text) = choice.content {
        let (given, parser) = drained(fed(thought.state.think_parser, text), false);
        lemma_segments(
            thought.at(ChatStateView { think_parser: parser, ..thought.state }),
            given,
        );
    }
    let said = thought.said(choice.content);
    assert(agrees(said));
    let after_calls = said.with_calls(
        calls_taken(said.state.tool_calls, choice.function_call, choice.tool_calls),
    );
    assert(agrees(after_calls));
    if choice.finish_reason is Some {
        law_the_end_closes_what_was_opened(after_calls);
    }
}

pub(crate) proof fn lemma_choices(run: ChatRun, choices: Seq<ChoiceView>)
    requires
        agrees(run),
        !run.done,
    ensures
        agrees(run.choices(choices)),
    decreases choices.len(),
{
    if choices.len() > 0 {
        lemma_choices(run, choices.drop_last());
        let before = run.choices(choices.drop_last());
        if !before.done {
            lemma_choice(before, choices.last());
        }
    }
}

pub(crate) proof fn lemma_head(run: ChatRun, chunk: ChunkView)
    requires
        agrees(run),
        !run.done,
    ensures
        agrees(run.head(chunk)),
        !run.head(chunk).done,
{
    broadcast use lemma_told_push;

}

proof fn lemma_poll(run: ChatRun, poll: ChatPollView)
    requires
        agrees(run),
        !run.done,
    ensures
        agrees(run.poll(poll)),
{
    broadcast use lemma_told_push;

    match poll {
        ChatPollView::Event { data, chunk } => {
            law_the_end_closes_what_was_opened(run);
            if let Some(chunk) = chunk {
                lemma_head(run, chunk);
                lemma_choices(run.head(chunk), chunk.choices);
            }
        },
        _ => {},
    }
}

/// An answer of which nothing has come and nothing is told.
pub open spec fn fresh_run() -> ChatRun {
    ChatRun { state: fresh_chat(), sent: Seq::empty(), done: false }
}

/// An answer after several polls: the one that ends it is the last that counts.
pub open spec fn polled(run: ChatRun, polls: Seq<ChatPollView>) -> ChatRun
    decreases polls.len(),
{
    if polls.len() == 0 {
        run
    } else {
        let before = polled(run, polls.drop_last());
        if before.done {
            before
        } else {
            before.poll(polls.last())
        }
    }
}

/// At every point of every answer what was told agrees with what is known: the
/// answer was created at most once, its message and its reasoning were opened at
/// most once and closed at most once, the text deltas make up the message, the
/// reasoning deltas make up the reasoning that is closed, and the end is told
/// once, just when the answer is done.
pub proof fn law_what_is_told_agrees(polls: Seq<ChatPollView>)
    ensures
        agrees(polled(fresh_run(), polls)),
    decreases polls.len(),
{
    if polls.len() > 0 {
        law_what_is_told_agrees(polls.drop_last());
        let before = polled(fresh_run(), polls.drop_last());
        if !before.done {
            lemma_poll(before, polls.last());
        }
    }
}

/// An answer with what it sent put behind what was sent before.
pub open spec fn behind(sent: Seq<StreamResultView>, run: ChatRun) -> ChatRun {
    ChatRun { sent: sent + run.sent, ..run }
}

broadcast proof fn lemma_behind_send(
    sent: Seq<StreamResultView>,
    run: ChatRun,
    event: EventView,
)
    ensures
        #[trigger] behind(sent, run).send(event) == behind(sent, run.send(event)),
{
    assert((sent + run.sent).push(Ok(event)) =~= sent + run.sent.push(Ok(event)));
}

broadcast proof fn lemma_behind_at(
    sent: Seq<StreamResultView>,
    run: ChatRun,
    state: ChatStateView,
)
    ensures
        #[trigger] behind(sent, run).at(state) == behind(sent, run.at(state)),
{
}

broadcast proof fn lemma_behind_reasoning_closed(sent: Seq<StreamResultView>, run: ChatRun)
    ensures
        #[trigger] behind(sent, run).reasoning_closed() == behind(sent, run.reasoning_closed()),
{
    broadcast use lemma_behind_send, lemma_behind_at;

}

proof fn lemma_behind_segment(
    sent: Seq<StreamResultView>,
    run: ChatRun,
    segment: SegmentView,
)
    ensures
        behind(sent, run).segment(segment) == behind(sent, run.segment(segment)),
{
    broadcast use lemma_behind_send, lemma_behind_at, lemma_behind_reasoning_closed;

    match segment {
        SegmentView::Visible(text) => {
            let closed = run.reasoning_closed();
            assert(behind(sent, closed).message_open() == behind(sent, closed.message_open()));
        },
        SegmentView::Reasoning(text) => {
            assert(behind(sent, run).reasoning_open() == behind(sent, run.reasoning_open()));
        },
    }
}

proof fn lemma_behind_segments(
    sent: Seq<StreamResultView>,
    run: ChatRun,
    segments: Seq<SegmentView>,
)
    ensures
        behind(sent, run).segments(segments) == behind(sent, run.segments(segments)),
    decreases segments.len(),
{
    if segments.len() > 0 {
        lemma_behind_segments(sent, run, segments.drop_last());
        lemma_behind_segment(sent, run.segments(segments.drop_last()), segments.last());
    }
}

proof fn lemma_behind_finished(sent: Seq<StreamResultView>, run: ChatRun)
    ensures
        behind(sent, run).finished() == behind(sent, run.finished()),
{
    broadcast use lemma_behind_send, lemma_behind_at, lemma_behind_reasoning_closed;

    let (given, parser) = drained(run.state.think_parser, true);
    let start = run.at(ChatStateView { think_parser: parser, ..run.state });
    lemma_behind_segments(sent, start, given);
    let closed = start.segments(given).reasoning_closed();
    let said = if closed.state.message_started {
        closed.send(EventView::OutputItemDone(closed.state.message()))
    } else {
        closed
    };
    let calls = called(
        said.state.tool_calls,
        listing(said.state.tool_calls.dom()),
        said.state.id(),
    );
    assert((sent + said.sent) + calls =~= sent + (said.sent + calls));
    let told = ChatRun { sent: said.sent + calls, ..said };
    assert(ChatRun { sent: (sent + said.sent) + calls, ..behind(sent, said) } == behind(
        sent,
        told,
    ));
}

proof fn lemma_behind_choice(sent: Seq<StreamResultView>, run: ChatRun, choice: ChoiceView)
    ensures
        behind(sent, run).choice(choice) == behind(sent, run.choice(choice)),
{
    broadcast use lemma_behind_at;

    if let Some(text) = choice.reasoning_content {
        lemma_behind_segment(sent, run, SegmentView::Reasoning(text));
    }
    let thought = run.reasoned(choice.reasoning_content);
    if let Some(text) = choice.content {
        let (given, parser) = drained(fed(thought.state.think_parser, text), false);
        lemma_behind_segments(
            sent,
            thought.at(ChatStateView { think_parser: parser, ..thought.state }),
            given,
        );
    }
    let said = thought.said(choice.content);
    assert(behind(sent, run).reasoned(choice.reasoning_content).said(choice.content) == behind(
        sent,
        said,
    ));
    let calls = calls_taken(said.state.tool_calls, choice.function_call, choice.tool_calls);
    lemma_behind_finished(sent, said.with_calls(calls));
}

pub(crate) proof fn lemma_behind_choices(
    sent: Seq<StreamResultView>,
    run: ChatRun,
    choices: Seq<ChoiceView>,
)
    ensures
        behind(sent, run).choices(choices) == behind(sent, run.choices(choices)),
    decreases choices.len(),
{
    if choices.len() > 0 {
        lemma_behind_choices(sent, run, choices.drop_last());
        lemma_behind_choice(sent, run.choices(choices.drop_last()), choices.last());
    }
}

proof fn lemma_behind_head(sent: Seq<StreamResultView>, run: ChatRun, chunk: ChunkView)
    ensures
        behind(sent, run).head(chunk) == behind(sent, run.head(chunk)),
{
    broadcast use lemma_behind_send, lemma_behind_at;

}

proof fn lemma_behind_poll(sent: Seq<StreamResultView>, run: ChatRun, poll: ChatPollView)
    ensures
        behind(sent, run).poll(poll) == behind(sent, run.poll(poll)),
{
    match poll {
        ChatPollView::Event { data, chunk } => {
            lemma_behind_finished(sent, run);
            if let Some(chunk) = chunk {
                lemma_behind_head(sent, run, chunk);
                lemma_behind_choices(sent, run.head(chunk), chunk.choices);
            }
        },
        _ => {
            let end = run.poll(poll).sent;
            assert(sent + end =~= (sent + run.sent).push(end.last()));
        },
    }
}

/// What a step sends depends on the answer so far, not on what was sent of it: a
/// step adds to that what it would send if nothing had been sent.
pub proof fn law_a_step_adds_what_it_sends(run: ChatRun, poll: ChatPollView)
    requires
        !run.done,
    ensures
        run.poll(poll) == behind(
            run.sent,
            (ChatRun { state: run.state, sent: Seq::empty(), done: false }).poll(poll),
        ),
{
    let unsent = ChatRun { state: run.state, sent: Seq::empty(), done: false };
    assert(run.sent + Seq::<StreamResultView>::empty() =~= run.sent);
    assert(behind(run.sent, unsent) == run);
    lemma_behind_poll(run.sent, unsent, poll);
}

/// What is sent is never taken back: a step only adds to it.
pub proof fn law_a_step_only_adds(run: ChatRun, poll: ChatPollView)
    ensures
        run.sent.is_prefix_of(run.poll(poll).sent),
{
    let unsent = ChatRun { sent: Seq::empty(), ..run };
    assert(run.sent + Seq::<StreamResultView>::empty() =~= run.sent);
    assert(behind(run.sent, unsent) == run);
    lemma_behind_poll(run.sent, unsent, poll);
    assert(run.poll(poll).sent.take(run.sent.len() as int) =~= run.sent);
}

/// What a reader gets who hands polls in one by one, and puts together what each
/// step sends, until one ends the answer.
pub open spec fn delivered(polls: Seq<ChatPollView>) -> ChatRun
    decreases polls.len(),
{
    if polls.len() == 0 {
        fresh_run()
    } else {
        let before = delivered(polls.drop_last());
        if before.done {
            before
        } else {
            behind(
                before.sent,
                (ChatRun { state: before.state, sent: Seq::empty(), done: false }).poll(
                    polls.last(),
                ),
            )
        }
    }
}

/// What the steps send, put together, is what the answer as a whole sends: all
/// that is said here of whole answers holds of what a reader gets step by step.
pub proof fn law_the_steps_make_the_answer(polls: Seq<ChatPollView>)
    ensures
        delivered(polls) == polled(fresh_run(), polls),
    decreases polls.len(),
{
    if polls.len() > 0 {
        law_the_steps_make_the_answer(polls.drop_last());
        let before = delivered(polls.drop_last());
        if !before.done {
            law_a_step_adds_what_it_sends(before, polls.last());
        }
    }
}

/// The characters of one kind.
pub open spec fn picked(marks: Seq<(bool, char)>, in_think: bool) -> Seq<char>
    decreases marks.len(),
{
    if marks.len() == 0 {
        Seq::empty()
    } else {
        let before = picked(marks.drop_last(), in_think);
        if marks.last().0 == in_think {
            before.push(marks.last().1)
        } else {
            before
        }
    }
}

pub(crate) proof fn lemma_picked_concat(a: Seq<(bool, char)>, b: Seq<(bool, char)>, in_think: bool)
    ensures
        picked(a + b, in_think) == picked(a, in_think) + picked(b, in_think),
    decreases b.len(),
{
    if b.len() == 0 {
        assert(a + b =~= a);
        assert(picked(a, in_think) + picked(b, in_think) =~= picked(a, in_think));
    } else {
        assert((a + b).drop_last() =~= a + b.drop_last());
        lemma_picked_concat(a, b.drop_last(), in_think);
        assert(picked(a + b, in_think) =~= picked(a, in_think) + picked(b, in_think));
    }
}

pub(crate) proof fn lemma_picked_marked(kind: bool, text: Seq<char>, in_think: bool)
    ensures
        picked(marked(kind, text), in_think) == if kind == in_think {
            text
        } else {
            Seq::empty()
        },
    decreases text.len(),
{
    if text.len() == 0 {
        assert(text =~= Seq::empty());
    } else {
        assert(marked(kind, text).drop_last() =~= marked(kind, text.drop_last()));
        lemma_picked_marked(kind, text.drop_last(), in_think);
        assert(text.drop_last().push(text.last()) =~= text);
    }
}

/// Segments add their text to the message or to the reasoning.
pub(crate) proof fn lemma_segments_text(run: ChatRun, segments: Seq<SegmentView>)
    ensures
        run.segments(segments).state.message_text == run.state.message_text + picked(
            marks(segments),
            false,
        ),
        run.segments(segments).state.reasoning_text == run.state.reasoning_text + picked(
            marks(segments),
            true,
        ),
        run.segments(segments).state.think_parser == run.state.think_parser,
    decreases segments.len(),
{
    let end = run.segments(segments);
    if segments.len() == 0 {
        assert(run.state.message_text + Seq::<char>::empty() =~= run.state.message_text);
        assert(run.state.reasoning_text + Seq::<char>::empty() =~= run.state.reasoning_text);
    } else {
        let front = segments.drop_last();
        let last = segments.last();
        lemma_segments_text(run, front);
        lemma_picked_concat(marks(front), segment_marks(last), false);
        lemma_picked_concat(marks(front), segment_marks(last), true);
        let (kind, text) = match last {
            SegmentView::Visible(text) => (false, text),
            SegmentView::Reasoning(text) => (true, text),
        };
        lemma_picked_marked(kind, text, false);
        lemma_picked_marked(kind, text, true);
        assert(end.state.message_text =~= run.state.message_text + picked(marks(segments), false));
        assert(end.state.reasoning_text =~= run.state.reasoning_text + picked(
            marks(segments),
            true,
        ));
    }
}

/// An answer whose text comes in pieces.
pub open spec fn texts_come(run: ChatRun, pieces: Seq<Seq<char>>) -> ChatRun
    decreases pieces.len(),
{
    if pieces.len() == 0 {
        run
    } else {
        texts_come(run, pieces.drop_last()).content(pieces.last())
    }
}

/// What an answer comes to when `rest` is yet to be read: the text of one kind
/// so far, and that of the same kind in what is left.
spec fn coming(text: Seq<char>, parser: ThinkView, rest: Seq<char>, in_think: bool) -> Seq<char> {
    text + picked(reading(parser.in_think, parser.buffer + rest), in_think)
}

proof fn lemma_content_coming(run: ChatRun, text: Seq<char>, rest: Seq<char>)
    ensures
        ({
            let end = run.content(text);
            &&& coming(end.state.message_text, end.state.think_parser, rest, false) == coming(
                run.state.message_text,
                run.state.think_parser,
                text + rest,
                false,
            )
            &&& coming(end.state.reasoning_text, end.state.think_parser, rest, true) == coming(
                run.state.reasoning_text,
                run.state.think_parser,
                text + rest,
                true,
            )
        }),
{
    let parser = run.state.think_parser;
    let (given, after) = drained(fed(parser, text), false);
    let start = run.at(ChatStateView { think_parser: after, ..run.state });
    lemma_segments_text(start, given);
    law_drain_keeps_the_reading(fed(parser, text), rest);
    assert(fed(parser, text).buffer + rest =~= parser.buffer + (text + rest));
    let left = reading(after.in_think, after.buffer + rest);
    lemma_picked_concat(marks(given), left, false);
    lemma_picked_concat(marks(given), left, true);
    assert(run.state.message_text + picked(marks(given), false) + picked(left, false)
        =~= run.state.message_text + (picked(marks(given), false) + picked(left, false)));
    assert(run.state.reasoning_text + picked(marks(given), true) + picked(left, true)
        =~= run.state.reasoning_text + (picked(marks(given), true) + picked(left, true)));
}

proof fn lemma_texts_coming(run: ChatRun, pieces: Seq<Seq<char>>, rest: Seq<char>)
    ensures
        ({
            let end = texts_come(run, pieces);
            &&& coming(end.state.message_text, end.state.think_parser, rest, false) == coming(
                run.state.message_text,
                run.state.think_parser,
                concatenated(pieces) + rest,
                false,
            )
            &&& coming(end.state.reasoning_text, end.state.think_parser, rest, true) == coming(
                run.state.reasoning_text,
                run.state.think_parser,
                concatenated(pieces) + rest,
                true,
            )
        }),
    decreases pieces.len(),
{
    if pieces.len() == 0 {
        assert(concatenated(pieces) + rest =~= rest);
    } else {
        let front = pieces.drop_last();
        let last = pieces.last();
        lemma_texts_coming(run, front, last + rest);
        lemma_content_coming(texts_come(run, front), last, rest);
        assert(concatenated(front) + (last + rest) =~= concatenated(pieces) + rest);
    }
}

/// The tags in an answer's text decide where it goes, in whatever pieces it
/// comes: at the end the message is all that stands outside the tags, and the
/// reasoning all that stands between them.
pub proof fn law_tags_decide_where_text_goes(pieces: Seq<Seq<char>>)
    ensures
        ({
            let end = texts_come(fresh_run(), pieces).finished();
            let whole = reading(false, concatenated(pieces));
            &&& end.state.message_text == picked(whole, false)
            &&& end.state.reasoning_text == picked(whole, true)
        }),
{
    let run = texts_come(fresh_run(), pieces);
    let whole = concatenated(pieces);
    let none = Seq::<char>::empty();
    lemma_texts_coming(fresh_run(), pieces, none);
    assert(fresh_parser().buffer + (whole + none) =~= whole);
    let parser = run.state.think_parser;
    assert(parser.buffer + none =~= parser.buffer);
    law_flush_gives_out_all(parser);
    let (given, after) = drained(parser, true);
    lemma_segments_text(run.at(ChatStateView { think_parser: after, ..run.state }), given);
    assert(run.finished().state.message_text =~= picked(reading(false, whole), false));
    assert(run.finished().state.reasoning_text =~= picked(reading(false, whole), true));
}

/// Visible text closes the reasoning: once some was sent, no reasoning is open.
pub proof fn law_visible_text_closes_the_reasoning(run: ChatRun, text: Seq<char>)
    ensures
        run.state.reasoning_started ==> run.visible(text).state.reasoning_finished,
{
}

/// The pieces of the arguments of the call under an index, put together.
pub open spec fn argument_pieces(deltas: Seq<ToolDeltaView>, index: usize) -> Seq<char>
    decreases deltas.len(),
{
    if deltas.len() == 0 {
        Seq::empty()
    } else {
        let before = argument_pieces(deltas.drop_last(), index);
        let last = deltas.last();
        match last.function {
            Some(FunctionDeltaView { arguments: Some(piece), .. }) => if last.index == index {
                before + piece
            } else {
                before
            },
            _ => before,
        }
    }
}

/// The arguments of a tool call are the pieces that came for it, in the order in
/// which they came, whatever came for other calls in between.
pub proof fn law_arguments_are_put_together(
    calls: Map<usize, ToolCallView>,
    deltas: Seq<ToolDeltaView>,
    index: usize,
)
    ensures
        call_at(calls_grown(calls, deltas), index).arguments == call_at(calls, index).arguments
            + argument_pieces(deltas, index),
    decreases deltas.len(),
{
    let start = call_at(calls, index).arguments;
    if deltas.len() == 0 {
        assert(start + Seq::<char>::empty() =~= start);
    } else {
        law_arguments_are_put_together(calls, deltas.drop_last(), index);
        assert(call_at(calls_grown(calls, deltas), index).arguments =~= start + argument_pieces(
            deltas,
            index,
        ));
    }
}

/// A piece of one tool call leaves the others as they are.
pub proof fn law_other_calls_stay(
    calls: Map<usize, ToolCallView>,
    delta: ToolDeltaView,
    index: usize,
)
    requires
        delta.index != index,
    ensures
        call_at(call_grown(calls, delta), index) == call_at(calls, index),
        call_grown(calls, delta).contains_key(index) == calls.contains_key(index),
{
}

/// The ids that are made up for tool calls without one differ from call to call.
pub proof fn law_made_up_ids_differ(
    response_id: Seq<char>,
    a: usize,
    b: usize,
    first: ToolCallView,
    second: ToolCallView,
)
    requires
        first.id is None,
        second.id is None,
        a != b,
    ensures
        tool_call_id(response_id, a, first) != tool_call_id(response_id, b, second),
{
    let front = response_id + ":tool_call:"@;
    if front + decimal(a as nat) == front + decimal(b as nat) {
        assert((front + decimal(a as nat)).skip(front.len() as int) =~= decimal(a as nat));
        assert((front + decimal(b as nat)).skip(front.len() as int) =~= decimal(b as nat));
        lemma_decimal_injective(a as nat, b as nat);
    }
}

/// The text that a choice brings.
pub open spec fn choice_text(choice: ChoiceView) -> Seq<char> {
    match choice.content {
        Some(text) => text,
        None => Seq::empty(),
    }
}

/// Whether one of several choices ends the answer.
pub open spec fn ended(choices: Seq<ChoiceView>) -> bool {
    exists|i: int| 0 <= i < choices.len() && (#[trigger] choices[i]).finish_reason is Some
}

/// The text that several choices bring, up to the one that ends the answer.
pub open spec fn choices_text(choices: Seq<ChoiceView>) -> Seq<char>
    decreases choices.len(),
{
    if choices.len() == 0 {
        Seq::empty()
    } else {
        let before = choices_text(choices.drop_last());
        if ended(choices.drop_last()) {
            before
        } else {
            before + choice_text(choices.last())
        }
    }
}

/// The choices that a poll brings.
pub open spec fn poll_choices(poll: ChatPollView) -> Seq<ChoiceView> {
    match poll {
        ChatPollView::Event { data, chunk: Some(chunk) } => if end_mark(data) {
            Seq::empty()
        } else {
            chunk.choices
        },
        _ => Seq::empty(),
    }
}

/// Whether a poll ends the answer as it should.
pub open spec fn poll_ends(poll: ChatPollView) -> bool {
    poll matches ChatPollView::Event { data, .. } && (end_mark(data) || ended(
        poll_choices(poll),
    ))
}

/// The text that polls bring, up to the one that ends the answer.
pub open spec fn polls_text(run: ChatRun, polls: Seq<ChatPollView>) -> Seq<char>
    decreases polls.len(),
{
    if polls.len() == 0 {
        Seq::empty()
    } else {
        let before = polls_text(run, polls.drop_last());
        if polled(run, polls.drop_last()).done {
            before
        } else {
            before + choices_text(poll_choices(polls.last()))
        }
    }
}

pub(crate) proof fn lemma_segments_done(run: ChatRun, segments: Seq<SegmentView>)
    ensures
        run.segments(segments).done == run.done,
        run.segments(segments).state.tool_calls == run.state.tool_calls,
    decreases segments.len(),
{
    if segments.len() > 0 {
        lemma_segments_done(run, segments.drop_last());
    }
}

/// The end gives out what was held back.
proof fn lemma_finished_coming(run: ChatRun)
    ensures
        run.finished().state.message_text == coming(
            run.state.message_text,
            run.state.think_parser,
            Seq::empty(),
            false,
        ),
        run.finished().state.tool_calls == run.state.tool_calls,
        run.finished().done,
{
    let parser = run.state.think_parser;
    assert(parser.buffer + Seq::<char>::empty() =~= parser.buffer);
    law_flush_gives_out_all(parser);
    let (given, after) = drained(parser, true);
    let start = run.at(ChatStateView { think_parser: after, ..run.state });
    lemma_segments_text(start, given);
    lemma_segments_done(start, given);
}

proof fn lemma_choice_coming(run: ChatRun, choice: ChoiceView, rest: Seq<char>)
    requires
        !run.done,
    ensures
        ({
            let end = run.choice(choice);
            &&& end.done == (choice.finish_reason is Some)
            &&& !end.done ==> coming(
                end.state.message_text,
                end.state.think_parser,
                rest,
                false,
            ) == coming(
                run.state.message_text,
                run.state.think_parser,
                choice_text(choice) + rest,
                false,
            )
            &&& end.done ==> end.state.message_text == coming(
                run.state.message_text,
                run.state.think_parser,
                choice_text(choice),
                false,
            )
            &&& end.state.tool_calls == calls_grown(run.state.tool_calls, choice_deltas(choice))
        }),
{
    let none = Seq::<char>::empty();
    let thought = run.reasoned(choice.reasoning_content);
    let said = thought.said(choice.content);
    if let Some(text) = choice.content {
        let (given, parser) = drained(fed(run.state.think_parser, text), false);
        lemma_segments_done(
            thought.at(ChatStateView { think_parser: parser, ..thought.state }),
            given,
        );
        lemma_content_coming(thought, text, rest);
        lemma_content_coming(thought, text, none);
        assert(text + none =~= text);
    } else {
        assert(none + rest =~= rest);
    }
    lemma_choice_calls(run.state.tool_calls, choice);
    let calls = calls_grown(run.state.tool_calls, choice_deltas(choice));
    let after_calls = said.with_calls(calls);
    if choice.finish_reason is Some {
        lemma_finished_coming(after_calls);
    }
}

/// The pieces of tool calls that a choice brings. A function call is a piece of
/// the first tool call.
pub open spec fn choice_deltas(choice: ChoiceView) -> Seq<ToolDeltaView> {
    let first = match choice.function_call {
        Some(function) => seq![ToolDeltaView { index: 0, id: None, function: Some(function) }],
        None => Seq::empty(),
    };
    match choice.tool_calls {
        Some(deltas) => first + deltas,
        None => first,
    }
}

proof fn lemma_calls_grown_concat(
    calls: Map<usize, ToolCallView>,
    a: Seq<ToolDeltaView>,
    b: Seq<ToolDeltaView>,
)
    ensures
        calls_grown(calls, a + b) == calls_grown(calls_grown(calls, a), b),
    decreases b.len(),
{
    if b.len() == 0 {
        assert(a + b =~= a);
    } else {
        assert((a + b).drop_last() =~= a + b.drop_last());
        lemma_calls_grown_concat(calls, a, b.drop_last());
    }
}

proof fn lemma_choice_calls(calls: Map<usize, ToolCallView>, choice: ChoiceView)
    ensures
        calls_grown(calls, choice_deltas(choice)) == calls_taken(
            calls,
            choice.function_call,
            choice.tool_calls,
        ),
{
    let first = match choice.function_call {
        Some(function) => seq![ToolDeltaView { index: 0, id: None, function: Some(function) }],
        None => Seq::empty(),
    };
    if let Some(function) = choice.function_call {
        assert(first.drop_last() =~= Seq::empty());
        assert(calls_grown(calls, first.drop_last()) == calls);
        assert(calls_grown(calls, first) == call_grown(calls, first.last()));
    }
    if let Some(deltas) = choice.tool_calls {
        lemma_calls_grown_concat(calls, first, deltas);
    }
}

/// The pieces of tool calls that several choices bring, up to the one that ends
/// the answer.
pub open spec fn choices_deltas(choices: Seq<ChoiceView>) -> Seq<ToolDeltaView>
    decreases choices.len(),
{
    if choices.len() == 0 {
        Seq::empty()
    } else {
        let before = choices_deltas(choices.drop_last());
        if ended(choices.drop_last()) {
            before
        } else {
            before + choice_deltas(choices.last())
        }
    }
}

/// The pieces of tool calls that polls bring, up to the one that ends the answer.
pub open spec fn polls_deltas(run: ChatRun, polls: Seq<ChatPollView>) -> Seq<ToolDeltaView>
    decreases polls.len(),
{
    if polls.len() == 0 {
        Seq::empty()
    } else {
        let before = polls_deltas(run, polls.drop_last());
        if polled(run, polls.drop_last()).done {
            before
        } else {
            before + choices_deltas(poll_choices(polls.last()))
        }
    }
}

pub(crate) proof fn lemma_ended_step(choices: Seq<ChoiceView>)
    requires
        choices.len() > 0,
    ensures
        ended(choices) == (ended(choices.drop_last()) || choices.last().finish_reason is Some),
{
    let front = choices.drop_last();
    if ended(front) {
        let i = choose|i: int| 0 <= i < front.len() && (#[trigger] front[i]).finish_reason is Some;
        assert(choices[i].finish_reason is Some);
    }
    if choices.last().finish_reason is Some {
        assert(choices[choices.len() - 1].finish_reason is Some);
    }
    if ended(choices) {
        let i = choose|i: int|
            0 <= i < choices.len() && (#[trigger] choices[i]).finish_reason is Some;
        if i < front.len() {
            assert(front[i].finish_reason is Some);
        }
    }
}

proof fn lemma_choices_coming(run: ChatRun, choices: Seq<ChoiceView>, rest: Seq<char>)
    requires
        !run.done,
    ensures
        ({
            let end = run.choices(choices);
            &&& end.done == ended(choices)
            &&& !end.done ==> coming(
                end.state.message_text,
                end.state.think_parser,
                rest,
                false,
            ) == coming(
                run.state.message_text,
                run.state.think_parser,
                choices_text(choices) + rest,
                false,
            )
            &&& end.done ==> end.state.message_text == coming(
                run.state.message_text,
                run.state.think_parser,
                choices_text(choices),
                false,
            )
            &&& end.state.tool_calls == calls_grown(
                run.state.tool_calls,
                choices_deltas(choices),
            )
        }),
    decreases choices.len(),
{
    if choices.len() == 0 {
        assert(Seq::<char>::empty() + rest =~= rest);
    } else {
        let front = choices.drop_last();
        let last = choices.last();
        lemma_ended_step(choices);
        lemma_choices_coming(run, front, rest);
        let before = run.choices(front);
        if !before.done {
            lemma_choice_coming(before, last, rest);
            lemma_choices_coming(run, front, choice_text(last) + rest);
            lemma_choices_coming(run, front, choice_text(last));
            assert(choices_text(front) + (choice_text(last) + rest) =~= choices_text(choices)
                + rest);
            lemma_calls_grown_concat(
                run.state.tool_calls,
                choices_deltas(front),
                choice_deltas(last),
            );
        }
    }
}

proof fn lemma_poll_coming(run: ChatRun, poll: ChatPollView, rest: Seq<char>)
    requires
        !run.done,
    ensures
        ({
            let end = run.poll(poll);
            let text = choices_text(poll_choices(poll));
            &&& poll_ends(poll) ==> end.done
            &&& !end.done ==> coming(
                end.state.message_text,
                end.state.think_parser,
                rest,
                false,
            ) == coming(run.state.message_text, run.state.think_parser, text + rest, false)
            &&& poll_ends(poll) ==> end.state.message_text == coming(
                run.state.message_text,
                run.state.think_parser,
                text,
                false,
            )
            &&& end.state.tool_calls == calls_grown(
                run.state.tool_calls,
                choices_deltas(poll_choices(poll)),
            )
        }),
{
    assert(Seq::<char>::empty() + rest =~= rest);
    match poll {
        ChatPollView::Event { data, chunk } => {
            if end_mark(data) {
                lemma_finished_coming(run);
            } else if let Some(chunk) = chunk {
                assert(run.head(chunk).state.message_text == run.state.message_text);
                assert(run.head(chunk).state.think_parser == run.state.think_parser);
                assert(run.head(chunk).state.tool_calls == run.state.tool_calls);
                lemma_choices_coming(run.head(chunk), chunk.choices, rest);
            }
        },
        _ => {},
    }
}

proof fn lemma_polls_coming(polls: Seq<ChatPollView>, rest: Seq<char>)
    ensures
        ({
            let end = polled(fresh_run(), polls);
            let text = polls_text(fresh_run(), polls);
            !end.done ==> coming(
                end.state.message_text,
                end.state.think_parser,
                rest,
                false,
            ) == picked(reading(false, text + rest), false)
        }),
    decreases polls.len(),
{
    let text = polls_text(fresh_run(), polls);
    if polls.len() == 0 {
        let whole = picked(reading(false, rest), false);
        assert(text + rest =~= rest);
        assert(fresh_parser().buffer + rest =~= rest);
        assert(Seq::<char>::empty() + whole =~= whole);
    } else {
        let front = polls.drop_last();
        let added = choices_text(poll_choices(polls.last()));
        let before = polled(fresh_run(), front);
        if !before.done {
            lemma_polls_coming(front, added + rest);
            lemma_poll_coming(before, polls.last(), rest);
            assert(polls_text(fresh_run(), front) + (added + rest) =~= text + rest);
        }
    }
}

/// However an answer comes, in chunks and choices and with whatever else beside
/// its text: when it ends as it should, the message is all of its text that
/// stands outside the tags.
pub proof fn law_the_message_is_what_was_said(polls: Seq<ChatPollView>)
    requires
        polls.len() > 0,
        !polled(fresh_run(), polls.drop_last()).done,
        poll_ends(polls.last()),
    ensures
        polled(fresh_run(), polls).done,
        polled(fresh_run(), polls).state.message_text == picked(
            reading(false, polls_text(fresh_run(), polls)),
            false,
        ),
{
    let front = polls.drop_last();
    let added = choices_text(poll_choices(polls.last()));
    lemma_polls_coming(front, added);
    lemma_poll_coming(polled(fresh_run(), front), polls.last(), Seq::empty());
}

proof fn lemma_choices_closed(run: ChatRun, choices: Seq<ChoiceView>)
    requires
        agrees(run),
        !run.done,
        ended(choices),
    ensures
        closed(run.choices(choices)),
    decreases choices.len(),
{
    let front = choices.drop_last();
    lemma_ended_step(choices);
    lemma_choices(run, front);
    lemma_choices_coming(run, front, Seq::empty());
    if ended(front) {
        lemma_choices_closed(run, front);
    } else {
        lemma_choice(run.choices(front), choices.last());
    }
}

/// However an answer comes: when it ends as it should, its items are closed as
/// they were opened, and its end is told.
pub proof fn law_a_proper_end_closes_all(polls: Seq<ChatPollView>)
    requires
        polls.len() > 0,
        !polled(fresh_run(), polls.drop_last()).done,
        poll_ends(polls.last()),
    ensures
        agrees(polled(fresh_run(), polls)),
        closed(polled(fresh_run(), polls)),
{
    let before = polled(fresh_run(), polls.drop_last());
    law_what_is_told_agrees(polls.drop_last());
    law_what_is_told_agrees(polls);
    match polls.last() {
        ChatPollView::Event { data, chunk } => {
            if end_mark(data) {
                law_the_end_closes_what_was_opened(before);
            } else if let Some(chunk) = chunk {
                lemma_head(before, chunk);
                lemma_choices_closed(before.head(chunk), chunk.choices);
            }
        },
        _ => {},
    }
}

/// However an answer comes, at every point the tool calls are what the pieces
/// that came for them make up.
pub proof fn law_the_calls_are_what_came(polls: Seq<ChatPollView>)
    ensures
        polled(fresh_run(), polls).state.tool_calls == calls_grown(
            Map::empty(),
            polls_deltas(fresh_run(), polls),
        ),
    decreases polls.len(),
{
    if polls.len() > 0 {
        let front = polls.drop_last();
        let before = polled(fresh_run(), front);
        law_the_calls_are_what_came(front);
        if !before.done {
            lemma_poll_coming(before, polls.last(), Seq::empty());
            lemma_calls_grown_concat(
                Map::empty(),
                polls_deltas(fresh_run(), front),
                choices_deltas(poll_choices(polls.last())),
            );
        }
    }
}

/// Whether an item of one kind is opened here: the reasoning, or the message.
pub open spec fn opens(result: StreamResultView, in_think: bool) -> bool {
    match result {
        Ok(EventView::OutputItemAdded(ItemView::Reasoning { .. })) => in_think,
        Ok(EventView::OutputItemAdded(ItemView::Message { .. })) => !in_think,
        _ => false,
    }
}

/// Whether a piece of the text of an item of one kind is told here.
pub open spec fn speaks(result: StreamResultView, in_think: bool) -> bool {
    match result {
        Ok(EventView::ReasoningContentDelta { .. }) => in_think,
        Ok(EventView::OutputTextDelta(_)) => !in_think,
        _ => false,
    }
}

/// Whether an item of one kind is closed here.
pub open spec fn closes(result: StreamResultView, in_think: bool) -> bool {
    match result {
        Ok(EventView::OutputItemDone(ItemView::Reasoning { .. })) => in_think,
        Ok(EventView::OutputItemDone(ItemView::Message { .. })) => !in_think,
        _ => false,
    }
}

/// Whether the end is told here, for better or worse.
pub open spec fn ends(result: StreamResultView) -> bool {
    match result {
        Ok(EventView::Completed { .. }) => true,
        Err(_) => true,
        _ => false,
    }
}

/// Whether an item of one kind is opened somewhere.
pub open spec fn opened(sent: Seq<StreamResultView>, in_think: bool) -> bool {
    exists|i: int| 0 <= i < sent.len() && opens(#[trigger] sent[i], in_think)
}

/// Whether an item of one kind is told in order: it is opened before its text,
/// it is closed after its text, and there is neither text nor an end of it where
/// it was not opened.
pub open spec fn in_order(sent: Seq<StreamResultView>, in_think: bool) -> bool {
    &&& forall|i: int, j: int|
        0 <= i < sent.len() && 0 <= j < sent.len() && opens(#[trigger] sent[i], in_think) && (
        speaks(#[trigger] sent[j], in_think) || closes(sent[j], in_think)) ==> i < j
    &&& forall|i: int, j: int|
        0 <= i < sent.len() && 0 <= j < sent.len() && speaks(#[trigger] sent[i], in_think)
            && closes(#[trigger] sent[j], in_think) ==> i < j
    &&& forall|j: int|
        0 <= j < sent.len() && (speaks(#[trigger] sent[j], in_think) || closes(
            sent[j],
            in_think,
        )) ==> opened(sent, in_think)
}

/// How often items were opened and closed by what was told.
spec fn times_opened(t: Told, in_think: bool) -> nat {
    if in_think {
        t.reasoning_added
    } else {
        t.message_added
    }
}

spec fn times_closed(t: Told, in_think: bool) -> nat {
    if in_think {
        t.reasoning_done
    } else {
        t.message_done
    }
}

/// The counts tell whether there is anything that is counted.
proof fn lemma_counts(sent: Seq<StreamResultView>, in_think: bool)
    ensures
        opened(sent, in_think) == (times_opened(told(sent), in_think) > 0),
        times_closed(told(sent), in_think) == 0 ==> forall|i: int|
            0 <= i < sent.len() ==> !closes(#[trigger] sent[i], in_think),
    decreases sent.len(),
{
    if sent.len() > 0 {
        let front = sent.drop_last();
        lemma_counts(front, in_think);
        if opened(front, in_think) {
            let i = choose|i: int| 0 <= i < front.len() && opens(#[trigger] front[i], in_think);
            assert(opens(sent[i], in_think));
        }
        if opens(sent.last(), in_think) {
            assert(opens(sent[sent.len() - 1], in_think));
        }
        if opened(sent, in_think) {
            let i = choose|i: int| 0 <= i < sent.len() && opens(#[trigger] sent[i], in_think);
            if i < front.len() {
                assert(opens(front[i], in_think));
            }
        }
        if times_closed(told(sent), in_think) == 0 {
            assert forall|i: int| 0 <= i < sent.len() implies !closes(
                #[trigger] sent[i],
                in_think,
            ) by {
                if i < front.len() {
                    assert(front[i] == sent[i]);
                }
            }
        }
    }
}

/// What is told in order stays so, where an item is opened once and before
/// anything of it, and where its text and its end come while it is open.
proof fn lemma_order_push(
    sent: Seq<StreamResultView>,
    result: StreamResultView,
    in_think: bool,
)
    requires
        in_order(sent, in_think),
        opens(result, in_think) ==> times_opened(told(sent), in_think) == 0,
        speaks(result, in_think) || closes(result, in_think) ==> times_opened(
            told(sent),
            in_think,
        ) > 0 && times_closed(told(sent), in_think) == 0,
    ensures
        in_order(sent.push(result), in_think),
{
    lemma_counts(sent, in_think);
    let after = sent.push(result);
    if opened(sent, in_think) {
        let i = choose|i: int| 0 <= i < sent.len() && opens(#[trigger] sent[i], in_think);
        assert(opens(after[i], in_think));
    }
    assert forall|i: int, j: int|
        0 <= i < after.len() && 0 <= j < after.len() && opens(#[trigger] after[i], in_think) && (
        speaks(#[trigger] after[j], in_think) || closes(after[j], in_think)) implies i < j by {
        if i < sent.len() && j < sent.len() {
            assert(after[i] == sent[i] && after[j] == sent[j]);
        } else if i == sent.len() && j < sent.len() {
            assert(after[j] == sent[j]);
            assert(opened(sent, in_think));
        }
    }
    assert forall|i: int, j: int|
        0 <= i < after.len() && 0 <= j < after.len() && speaks(#[trigger] after[i], in_think)
            && closes(#[trigger] after[j], in_think) implies i < j by {
        if i < sent.len() && j < sent.len() {
            assert(after[i] == sent[i] && after[j] == sent[j]);
        } else if i == sent.len() && j < sent.len() {
            assert(after[j] == sent[j]);
        }
    }
    assert forall|j: int|
        0 <= j < after.len() && (speaks(#[trigger] after[j], in_think) || closes(
            after[j],
            in_think,
        )) implies opened(after, in_think) by {
        if j < sent.len() {
            assert(after[j] == sent[j]);
        }
    }
}

/// Whether all of an answer is told in order, the end as the last thing, and a
/// message only where there is text for it.
pub open spec fn orderly(run: ChatRun) -> bool {
    &&& in_order(run.sent, false)
    &&& in_order(run.sent, true)
    &&& run.done ==> run.sent.len() > 0 && ends(run.sent.last())
    &&& run.state.message_started ==> run.state.message_text.len() > 0
}

proof fn lemma_reasoning_closed_orderly(run: ChatRun)
    requires
        agrees(run),
        orderly(run),
        !run.done,
    ensures
        orderly(run.reasoning_closed()),
{
    if run.state.reasoning_started && !run.state.reasoning_finished {
        let state = ChatStateView { reasoning_finished: true, ..run.state };
        let event = Ok(EventView::OutputItemDone(state.reasoning()));
        lemma_order_push(run.sent, event, false);
        lemma_order_push(run.sent, event, true);
    }
}

proof fn lemma_visible_orderly(run: ChatRun, text: Seq<char>)
    requires
        agrees(run),
        orderly(run),
        !run.done,
        text.len() > 0,
    ensures
        orderly(run.visible(text)),
{
    broadcast use lemma_told_push;

    lemma_reasoning_closed(run);
    lemma_reasoning_closed_orderly(run);
    let closed = run.reasoning_closed();
    let open = closed.message_open();
    if !closed.state.message_started {
        let state = ChatStateView { message_started: true, ..closed.state };
        let event = Ok(EventView::OutputItemAdded(state.message()));
        lemma_order_push(closed.sent, event, false);
        lemma_order_push(closed.sent, event, true);
    }
    assert(agrees(open));
    lemma_order_push(open.sent, Ok(EventView::OutputTextDelta(text)), false);
    lemma_order_push(open.sent, Ok(EventView::OutputTextDelta(text)), true);
}

pub(crate) proof fn lemma_thought_orderly(run: ChatRun, text: Seq<char>)
    requires
        agrees(run),
        orderly(run),
        !run.done,
    ensures
        orderly(run.thought(text)),
{
    broadcast use lemma_told_push;

    if !run.state.reasoning_finished {
        let open = run.reasoning_open();
        if !run.state.reasoning_started {
            let state = ChatStateView { reasoning_started: true, ..run.state };
            let event = Ok(EventView::OutputItemAdded(state.reasoning()));
            lemma_order_push(run.sent, event, false);
            lemma_order_push(run.sent, event, true);
        }
        assert(agrees(open));
        let event = Ok(EventView::ReasoningContentDelta { delta: text, content_index: 0 });
        lemma_order_push(open.sent, event, false);
        lemma_order_push(open.sent, event, true);
    }
}

/// Whether every segment says something.
pub open spec fn all_say(segments: Seq<SegmentView>) -> bool {
    forall|i: int| 0 <= i < segments.len() ==> segment_marks(#[trigger] segments[i]).len() > 0
}

pub(crate) proof fn lemma_segments_orderly(run: ChatRun, segments: Seq<SegmentView>)
    requires
        agrees(run),
        orderly(run),
        !run.done,
        all_say(segments),
    ensures
        orderly(run.segments(segments)),
    decreases segments.len(),
{
    if segments.len() > 0 {
        let front = segments.drop_last();
        assert forall|i: int| 0 <= i < front.len() implies segment_marks(
            #[trigger] front[i],
        ).len() > 0 by {
            assert(front[i] == segments[i]);
        }
        lemma_segments_orderly(run, front);
        lemma_segments(run, front);
        assert(segment_marks(segments[segments.len() - 1]).len() > 0);
        match segments.last() {
            SegmentView::Visible(text) => lemma_visible_orderly(run.segments(front), text),
            SegmentView::Reasoning(text) => lemma_thought_orderly(run.segments(front), text),
        }
    }
}

/// Closing tool calls opens, says and closes nothing of either kind.
proof fn lemma_calls_in_order(
    sent: Seq<StreamResultView>,
    calls: Map<usize, ToolCallView>,
    keys: Seq<usize>,
    id: Seq<char>,
    in_think: bool,
)
    requires
        in_order(sent, in_think),
    ensures
        in_order(sent + called(calls, keys, id), in_think),
    decreases keys.len(),
{
    if keys.len() == 0 {
        assert(sent + called(calls, keys, id) =~= sent);
    } else {
        let front = keys.drop_last();
        lemma_calls_in_order(sent, calls, front, id, in_think);
        let before = sent + called(calls, front, id);
        let call = calls[keys.last()];
        if call.name is Some {
            let item = Ok(EventView::OutputItemDone(tool_call_item(id, keys.last(), call)));
            lemma_order_push(before, item, in_think);
            assert(sent + called(calls, front, id).push(item) =~= before.push(item));
        }
    }
}

proof fn lemma_finished_orderly(run: ChatRun)
    requires
        agrees(run),
        orderly(run),
        !run.done,
    ensures
        orderly(run.finished()),
{
    broadcast use lemma_told_push;

    let (given, parser) = drained(run.state.think_parser, true);
    let start = run.at(ChatStateView { think_parser: parser, ..run.state });
    law_no_segment_is_empty(run.state.think_parser, true);
    lemma_segments_orderly(start, given);
    lemma_segments(start, given);
    let read = start.segments(given);
    lemma_reasoning_closed(read);
    lemma_reasoning_closed_orderly(read);
    let closed = read.reasoning_closed();
    let event = Ok(EventView::OutputItemDone(closed.state.message()));
    if closed.state.message_started {
        lemma_order_push(closed.sent, event, false);
        lemma_order_push(closed.sent, event, true);
    }
    let said = if closed.state.message_started {
        closed.sent.push(event)
    } else {
        closed.sent
    };
    let calls = closed.state.tool_calls;
    let keys = listing(calls.dom());
    let id = closed.state.id();
    lemma_calls_in_order(said, calls, keys, id, false);
    lemma_calls_in_order(said, calls, keys, id, true);
    let end = Ok(
        EventView::Completed {
            response_id: id,
            token_usage: closed.state.token_usage,
            end_turn: Some(true),
        },
    );
    let told = said + called(calls, keys, id);
    lemma_order_push(told, end, false);
    lemma_order_push(told, end, true);
    assert(run.finished().sent == told.push(end));
}

proof fn lemma_choice_orderly(run: ChatRun, choice: ChoiceView)
    requires
        agrees(run),
        orderly(run),
        !run.done,
    ensures
        orderly(run.choice(choice)),
{
    if let Some(text) = choice.reasoning_content {
        lemma_thought(run, text);
        lemma_thought_orderly(run, text);
    }
    let thought = run.reasoned(choice.reasoning_content);
    if let Some(text) = choice.content {
        let state = fed(thought.state.think_parser, text);
        let (given, parser) = drained(state, false);
        let start = thought.at(ChatStateView { think_parser: parser, ..thought.state });
        law_no_segment_is_empty(state, false);
        lemma_segments(start, given);
        lemma_segments_orderly(start, given);
    }
    let said = thought.said(choice.content);
    assert(agrees(said) && orderly(said));
    let called = said.with_calls(
        calls_taken(said.state.tool_calls, choice.function_call, choice.tool_calls),
    );
    assert(agrees(called) && orderly(called));
    if choice.finish_reason is Some {
        lemma_finished_orderly(called);
    }
}

pub(crate) proof fn lemma_choices_orderly(run: ChatRun, choices: Seq<ChoiceView>)
    requires
        agrees(run),
        orderly(run),
        !run.done,
    ensures
        orderly(run.choices(choices)),
    decreases choices.len(),
{
    if choices.len() > 0 {
        let front = choices.drop_last();
        lemma_choices(run, front);
        lemma_choices_orderly(run, front);
        if !run.choices(front).done {
            lemma_choice_orderly(run.choices(front), choices.last());
        }
    }
}

/// What is neither opened nor said nor closed can be sent at any time.
proof fn lemma_neutral_orderly(run: ChatRun, event: EventView)
    requires
        orderly(run),
        !run.done,
        forall|in_think: bool|
            !opens(Ok(event), in_think) && !speaks(Ok(event), in_think) && !closes(
                Ok(event),
                in_think,
            ),
    ensures
        orderly(run.send(event)),
{
    lemma_order_push(run.sent, Ok(event), false);
    lemma_order_push(run.sent, Ok(event), true);
}

pub(crate) proof fn lemma_head_orderly(run: ChatRun, chunk: ChunkView)
    requires
        orderly(run),
        !run.done,
    ensures
        orderly(run.head(chunk)),
{
    let named = if run.state.response_id is None {
        run.at(ChatStateView { response_id: chunk.id, ..run.state })
    } else {
        run
    };
    let made = if named.state.created {
        named
    } else {
        named.at(ChatStateView { created: true, ..named.state }).send(EventView::Created)
    };
    lemma_neutral_orderly(
        named.at(ChatStateView { created: true, ..named.state }),
        EventView::Created,
    );
    if let Some(model) = chunk.model {
        lemma_neutral_orderly(
            made.at(ChatStateView { last_server_model: Some(model), ..made.state }),
            EventView::ServerModel(model),
        );
    }
}

proof fn lemma_poll_orderly(run: ChatRun, poll: ChatPollView)
    requires
        agrees(run),
        orderly(run),
        !run.done,
    ensures
        orderly(run.poll(poll)),
{
    match poll {
        ChatPollView::Event { data, chunk } => {
            lemma_finished_orderly(run);
            if let Some(chunk) = chunk {
                lemma_head(run, chunk);
                lemma_head_orderly(run, chunk);
                lemma_choices_orderly(run.head(chunk), chunk.choices);
            }
        },
        _ => {
            let error = run.poll(poll).sent.last();
            assert(run.poll(poll).sent == run.sent.push(error));
            lemma_order_push(run.sent, error, false);
            lemma_order_push(run.sent, error, true);
        },
    }
}

/// However an answer comes, at every point of it: the message is opened before
/// its first piece of text and closed after its last, and so is the reasoning;
/// a message is told of just where there is text for it; and the end is told
/// once, when the answer is done, as the last thing.
pub proof fn law_all_is_told_in_order(polls: Seq<ChatPollView>)
    ensures
        ({
            let run = polled(fresh_run(), polls);
            let t = told(run.sent);
            &&& in_order(run.sent, false)
            &&& in_order(run.sent, true)
            &&& opened(run.sent, false) == (t.text.len() > 0)
            &&& t.text.len() == 0 ==> forall|i: int|
                0 <= i < run.sent.len() ==> !opens(#[trigger] run.sent[i], false) && !speaks(
                    run.sent[i],
                    false,
                ) && !closes(run.sent[i], false)
            &&& t.ended == once(run.done)
            &&& run.done ==> run.sent.len() > 0 && ends(run.sent.last())
        }),
{
    let run = polled(fresh_run(), polls);
    lemma_polled_orderly(polls);
    law_what_is_told_agrees(polls);
    lemma_counts(run.sent, false);
}

pub(crate) proof fn lemma_polled_orderly(polls: Seq<ChatPollView>)
    ensures
        orderly(polled(fresh_run(), polls)),
    decreases polls.len(),
{
    if polls.len() > 0 {
        let before = polled(fresh_run(), polls.drop_last());
        lemma_polled_orderly(polls.drop_last());
        law_what_is_told_agrees(polls.drop_last());
        if !before.done {
            lemma_poll_orderly(before, polls.last());
        }
    }
}

} // verus!
