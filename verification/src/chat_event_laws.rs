//! What the events of a chat completion hold, told from what came for it.
use vstd::prelude::*;

use crate::chat_answer_laws::{came, end_well, go_on, stops, up_to_end};
use crate::chat_laws::{
    agrees, argument_pieces, choices_deltas, closed, ended, fresh_run, law_a_step_only_adds,
    law_arguments_are_put_together, law_the_calls_are_what_came, law_what_is_told_agrees,
    lemma_choices, lemma_ended_step, lemma_head, lemma_reasoning_closed, lemma_segments,
    lemma_segments_done, lemma_thought, orderly, poll_choices, polled, polls_deltas,
};
use crate::chat_stream::{
    call_at, called, calls_grown, calls_taken, end_mark, lemma_listing, listing, tool_call_item,
    ChatCompletionUsage, ChatPollView, ChatRun, ChatStateView, ChoiceView, ChunkView,
    FunctionDeltaView, ToolCallView, ToolDeltaView,
};
use crate::protocol::{ErrorView, EventView, ItemView, ReasoningView, StreamResultView, TokenUsage};
use crate::text::{
    decimal, first_occurrence, is_white_space, occurs_at, trimmed_back, trimmed_front,
};
use crate::think::{
    awaited_tag, drained, fed, lemma_overlap_within, lemma_tags, longest_overlap, overlap_bound,
    SegmentView, ThinkView,
};
use crate::think_laws::segment_of;

verus! {

proof fn lemma_choice_done(run: ChatRun, choice: ChoiceView)
    requires
        !run.done,
    ensures
        run.choice(choice).done == (choice.finish_reason is Some),
{
    if let Some(text) = choice.content {
        let thought = run.reasoned(choice.reasoning_content);
        let (given, parser) = drained(fed(thought.state.think_parser, text), false);
        lemma_segments_done(
            thought.at(ChatStateView { think_parser: parser, ..thought.state }),
            given,
        );
    }
}

proof fn lemma_choices_done(run: ChatRun, choices: Seq<ChoiceView>)
    requires
        !run.done,
    ensures
        run.choices(choices).done == ended(choices),
    decreases choices.len(),
{
    if choices.len() > 0 {
        lemma_ended_step(choices);
        lemma_choices_done(run, choices.drop_last());
        let before = run.choices(choices.drop_last());
        if !before.done {
            lemma_choice_done(before, choices.last());
        }
    }
}

/// A step ends an answer just where the answer stops at the poll.
pub proof fn law_a_step_ends_where_the_answer_stops(run: ChatRun, poll: ChatPollView)
    requires
        !run.done,
    ensures
        run.poll(poll).done == stops(poll),
{
    if let ChatPollView::Event { data, chunk: Some(chunk) } = poll {
        lemma_choices_done(run.head(chunk), chunk.choices);
    }
}

/// An answer is done just when it has stopped at some poll.
pub proof fn law_an_answer_is_done_when_it_stopped(polls: Seq<ChatPollView>)
    ensures
        polled(fresh_run(), polls).done == !go_on(polls),
    decreases polls.len(),
{
    if polls.len() > 0 {
        let front = polls.drop_last();
        law_an_answer_is_done_when_it_stopped(front);
        let before = polled(fresh_run(), front);
        if go_on(polls) {
            assert forall|i: int| 0 <= i < front.len() implies !stops(#[trigger] front[i]) by {
                assert(front[i] == polls[i]);
            }
            assert(!stops(polls[polls.len() - 1]));
        }
        if go_on(front) {
            law_a_step_ends_where_the_answer_stops(before, polls.last());
            if !stops(polls.last()) {
                assert forall|i: int| 0 <= i < polls.len() implies !stops(#[trigger] polls[i]) by {
                    if i < front.len() {
                        assert(polls[i] == front[i]);
                    }
                }
            }
        }
    }
}

/// What comes when an answer is done changes nothing of it.
pub proof fn law_nothing_counts_behind_the_end(
    polls: Seq<ChatPollView>,
    late: Seq<ChatPollView>,
)
    requires
        polled(fresh_run(), polls).done,
    ensures
        polled(fresh_run(), polls + late) == polled(fresh_run(), polls),
    decreases late.len(),
{
    if late.len() == 0 {
        assert(polls + late =~= polls);
    } else {
        assert((polls + late).drop_last() =~= polls + late.drop_last());
        law_nothing_counts_behind_the_end(polls, late.drop_last());
    }
}

/// Where the service fails, closes or stays silent, that is told, as the last
/// thing, and nothing else happens. Data that could not be decoded are passed
/// over.
pub proof fn law_how_an_answer_breaks_off(run: ChatRun, reason: Seq<char>, data: Seq<char>)
    ensures
        run.poll(ChatPollView::Failed(reason)) == (ChatRun {
            state: run.state,
            sent: run.sent.push(Err(ErrorView::Stream(reason))),
            done: true,
        }),
        run.poll(ChatPollView::Closed) == (ChatRun {
            state: run.state,
            sent: run.sent.push(
                Err(ErrorView::Stream("stream closed before chat completion finished"@)),
            ),
            done: true,
        }),
        run.poll(ChatPollView::TimedOut) == (ChatRun {
            state: run.state,
            sent: run.sent.push(Err(ErrorView::Stream("idle timeout waiting for SSE"@))),
            done: true,
        }),
        !end_mark(data) ==> run.poll(ChatPollView::Event { data, chunk: None }) == run,
{
}

/// Whether a text is white space.
pub open spec fn blank(text: Seq<char>) -> bool {
    forall|i: int| 0 <= i < text.len() ==> is_white_space(#[trigger] text[i])
}

proof fn lemma_trimmed_front(front: Seq<char>, text: Seq<char>)
    requires
        blank(front),
        text.len() == 0 || !is_white_space(text[0]),
    ensures
        trimmed_front(front + text) == text,
    decreases front.len(),
{
    let all = front + text;
    if front.len() == 0 {
        assert(all =~= text);
    } else {
        assert(is_white_space(front[0]));
        assert(all[0] == front[0]);
        let rest = front.skip(1);
        assert forall|i: int| 0 <= i < rest.len() implies is_white_space(#[trigger] rest[i]) by {
            assert(rest[i] == front[i + 1]);
        }
        lemma_trimmed_front(rest, text);
        assert(all.skip(1) =~= rest + text);
        assert(all.drop_first() =~= rest + text);
    }
}

proof fn lemma_trimmed_back(text: Seq<char>, back: Seq<char>)
    requires
        blank(back),
        text.len() == 0 || !is_white_space(text.last()),
    ensures
        trimmed_back(text + back) == text,
    decreases back.len(),
{
    let all = text + back;
    if back.len() == 0 {
        assert(all =~= text);
    } else {
        assert(is_white_space(back[back.len() - 1]));
        assert(all.last() == back.last());
        let rest = back.drop_last();
        assert forall|i: int| 0 <= i < rest.len() implies is_white_space(#[trigger] rest[i]) by {
            assert(rest[i] == back[i]);
        }
        lemma_trimmed_back(text, rest);
        assert(all.drop_last() =~= text + rest);
    }
}

proof fn lemma_front_of(text: Seq<char>) -> (front: Seq<char>)
    ensures
        blank(front),
        front + trimmed_front(text) == text,
    decreases text.len(),
{
    if text.len() > 0 && is_white_space(text[0]) {
        let rest = lemma_front_of(text.drop_first());
        let front = seq![text[0]] + rest;
        assert forall|i: int| 0 <= i < front.len() implies is_white_space(#[trigger] front[i]) by {
            if i > 0 {
                assert(front[i] == rest[i - 1]);
            }
        }
        assert(front + trimmed_front(text) =~= text) by {
            assert(rest + trimmed_front(text.drop_first()) == text.drop_first());
            assert(text =~= seq![text[0]] + text.drop_first());
            assert(front + trimmed_front(text) =~= seq![text[0]] + (rest + trimmed_front(
                text.drop_first(),
            )));
        }
        front
    } else {
        assert(Seq::<char>::empty() + trimmed_front(text) =~= text);
        Seq::empty()
    }
}

proof fn lemma_back_of(text: Seq<char>) -> (back: Seq<char>)
    ensures
        blank(back),
        trimmed_back(text) + back == text,
    decreases text.len(),
{
    if text.len() > 0 && is_white_space(text.last()) {
        let rest = lemma_back_of(text.drop_last());
        let back = rest.push(text.last());
        assert forall|i: int| 0 <= i < back.len() implies is_white_space(#[trigger] back[i]) by {
            if i < rest.len() {
                assert(back[i] == rest[i]);
            }
        }
        assert(trimmed_back(text) + back =~= text) by {
            assert(trimmed_back(text.drop_last()) + rest == text.drop_last());
            assert(text =~= text.drop_last().push(text.last()));
            assert(trimmed_back(text) + back =~= (trimmed_back(text.drop_last()) + rest).push(
                text.last(),
            ));
        }
        back
    } else {
        assert(trimmed_back(text) + Seq::<char>::empty() =~= text);
        Seq::empty()
    }
}

/// The mark of the end is one word, with any white space around it.
pub proof fn law_the_end_mark_stands_in_white_space(
    data: Seq<char>,
    front: Seq<char>,
    back: Seq<char>,
)
    ensures
        blank(front) && blank(back) ==> end_mark(front + "[DONE]"@ + back),
        end_mark(data) ==> exists|f: Seq<char>, b: Seq<char>|
            blank(f) && blank(b) && data == #[trigger] (f + "[DONE]"@ + b),
{
    reveal_strlit("[DONE]");
    let word = "[DONE]"@;
    assert(!is_white_space(word[0]) && !is_white_space(word.last()));
    if blank(front) && blank(back) {
        assert(front + word + back =~= front + (word + back));
        assert((word + back)[0] == word[0]);
        lemma_trimmed_front(front, word + back);
        lemma_trimmed_back(word, back);
        lemma_trimmed_back(front + word, back);
        lemma_trimmed_front(front, word);
        assert((front + word).last() == word.last());
    }
    if end_mark(data) {
        let f = lemma_front_of(data);
        let b = lemma_back_of(trimmed_front(data));
        assert(data =~= f + word + b);
    }
}

/// Whether an event is one that an answer with an id can send: its items carry
/// the id, are the model's, and hold nothing but their text.
pub open spec fn fits(result: StreamResultView, id: Seq<char>) -> bool {
    match result {
        Ok(EventView::ReasoningContentDelta { content_index, .. }) => content_index == 0,
        Ok(EventView::OutputItemAdded(ItemView::Message { id: item, role, content, phase })) => {
            &&& item == Some(id + ":message"@)
            &&& role == "assistant"@
            &&& content.len() == 0
            &&& phase is None
        },
        Ok(EventView::OutputItemDone(ItemView::Message { id: item, role, content, phase })) => {
            &&& item == Some(id + ":message"@)
            &&& role == "assistant"@
            &&& content.len() == 1
            &&& content[0] is OutputText
            &&& phase is None
        },
        Ok(
            EventView::OutputItemAdded(
                ItemView::Reasoning { id: item, summary, content, encrypted_content },
            ),
        ) => {
            &&& item == id + ":reasoning"@
            &&& summary.len() == 0
            &&& content is None
            &&& encrypted_content is None
        },
        Ok(
            EventView::OutputItemDone(
                ItemView::Reasoning { id: item, summary, content, encrypted_content },
            ),
        ) => {
            &&& item == id + ":reasoning"@
            &&& summary.len() == 0
            &&& content matches Some(pieces) ==> pieces.len() == 1 && pieces[0] is ReasoningText
            &&& encrypted_content is None
        },
        Ok(
            EventView::OutputItemDone(
                ItemView::FunctionCall { id: item, namespace, call_id, .. },
            ),
        ) => item == Some(call_id) && namespace is None,
        Ok(EventView::OutputItemAdded(_)) => false,
        Ok(EventView::OutputItemDone(_)) => false,
        Ok(EventView::Completed { response_id, end_turn, .. }) => response_id == id && end_turn
            == Some(true),
        _ => true,
    }
}

/// The id that an answer goes by: the one the service gave, or a fixed one.
pub open spec fn known_as(state: ChatStateView) -> Seq<char> {
    match state.response_id {
        Some(id) => id,
        None => "chatcmpl"@,
    }
}

/// Whether all that was sent from a place on fits the answer.
spec fn fit_from(run: ChatRun, n: nat) -> bool {
    forall|i: int| n <= i < run.sent.len() ==> fits(#[trigger] run.sent[i], known_as(run.state))
}

/// Whether an answer may go on: what was told agrees with what is known, and in
/// order.
spec fn sound(run: ChatRun) -> bool {
    agrees(run) && orderly(run) && !run.done
}

proof fn lemma_fit_push(run: ChatRun, n: nat, state: ChatStateView, event: EventView)
    requires
        fit_from(run, n),
        state.response_id == run.state.response_id,
        fits(Ok(event), known_as(run.state)),
    ensures
        fit_from(run.at(state).send(event), n),
{
    let after = run.at(state).send(event);
    assert forall|i: int| n <= i < after.sent.len() implies fits(
        #[trigger] after.sent[i],
        known_as(after.state),
    ) by {
        if i < run.sent.len() {
            assert(after.sent[i] == run.sent[i]);
        }
    }
}

proof fn lemma_fit_reasoning_closed(run: ChatRun, n: nat)
    requires
        fit_from(run, n),
    ensures
        fit_from(run.reasoning_closed(), n),
        run.reasoning_closed().state.response_id == run.state.response_id,
{
    if run.state.reasoning_started && !run.state.reasoning_finished {
        let state = ChatStateView { reasoning_finished: true, ..run.state };
        lemma_fit_push(run, n, state, EventView::OutputItemDone(state.reasoning()));
    }
}

proof fn lemma_fit_segment(run: ChatRun, n: nat, segment: SegmentView)
    requires
        fit_from(run, n),
        agrees(run),
        !run.done,
    ensures
        fit_from(run.segment(segment), n),
        run.segment(segment).state.response_id == run.state.response_id,
{
    match segment {
        SegmentView::Visible(text) => {
            lemma_fit_reasoning_closed(run, n);
            let quiet = run.reasoning_closed();
            let state = ChatStateView { message_started: true, ..quiet.state };
            if !quiet.state.message_started {
                assert(quiet.state.message_text == run.state.message_text);
                lemma_fit_push(quiet, n, state, EventView::OutputItemAdded(state.message()));
            }
            let open = quiet.message_open();
            let after = ChatStateView {
                message_text: open.state.message_text + text,
                ..open.state
            };
            lemma_fit_push(open, n, after, EventView::OutputTextDelta(text));
        },
        SegmentView::Reasoning(text) => {
            if !run.state.reasoning_finished {
                let state = ChatStateView { reasoning_started: true, ..run.state };
                if !run.state.reasoning_started {
                    lemma_fit_push(run, n, state, EventView::OutputItemAdded(state.reasoning()));
                }
                let open = run.reasoning_open();
                let after = ChatStateView {
                    reasoning_text: open.state.reasoning_text + text,
                    ..open.state
                };
                lemma_fit_push(
                    open,
                    n,
                    after,
                    EventView::ReasoningContentDelta { delta: text, content_index: 0 },
                );
            }
        },
    }
}

proof fn lemma_fit_segments(run: ChatRun, n: nat, segments: Seq<SegmentView>)
    requires
        fit_from(run, n),
        agrees(run),
        !run.done,
    ensures
        fit_from(run.segments(segments), n),
        run.segments(segments).state.response_id == run.state.response_id,
    decreases segments.len(),
{
    if segments.len() > 0 {
        let front = segments.drop_last();
        lemma_fit_segments(run, n, front);
        lemma_segments(run, front);
        lemma_fit_segment(run.segments(front), n, segments.last());
    }
}

proof fn lemma_fit_calls(
    sent: Seq<StreamResultView>,
    n: nat,
    id: Seq<char>,
    calls: Map<usize, ToolCallView>,
    keys: Seq<usize>,
    by: Seq<char>,
)
    requires
        forall|i: int| n <= i < sent.len() ==> fits(#[trigger] sent[i], id),
    ensures
        forall|i: int|
            n <= i < (sent + called(calls, keys, by)).len() ==> fits(
                #[trigger] (sent + called(calls, keys, by))[i],
                id,
            ),
    decreases keys.len(),
{
    let after = sent + called(calls, keys, by);
    if keys.len() == 0 {
        assert(after =~= sent);
    } else {
        let before = sent + called(calls, keys.drop_last(), by);
        lemma_fit_calls(sent, n, id, calls, keys.drop_last(), by);
        assert forall|i: int| n <= i < after.len() implies fits(#[trigger] after[i], id) by {
            if i < before.len() {
                assert(after[i] == before[i]);
            }
        }
    }
}

proof fn lemma_fit_finished(run: ChatRun, n: nat)
    requires
        fit_from(run, n),
        sound(run),
    ensures
        fit_from(run.finished(), n),
        run.finished().state.response_id == run.state.response_id,
{
    let (given, parser) = drained(run.state.think_parser, true);
    let start = run.at(ChatStateView { think_parser: parser, ..run.state });
    lemma_fit_segments(start, n, given);
    lemma_segments(start, given);
    lemma_some_text(start, given, true);
    let read = start.segments(given);
    lemma_reasoning_closed(read);
    lemma_fit_reasoning_closed(read, n);
    let quiet = read.reasoning_closed();
    if quiet.state.message_started {
        lemma_fit_push(quiet, n, quiet.state, EventView::OutputItemDone(quiet.state.message()));
    }
    let said = if quiet.state.message_started {
        quiet.send(EventView::OutputItemDone(quiet.state.message()))
    } else {
        quiet
    };
    let keys = listing(said.state.tool_calls.dom());
    let id = known_as(said.state);
    lemma_fit_calls(said.sent, n, id, said.state.tool_calls, keys, said.state.id());
    let named = ChatRun {
        sent: said.sent + called(said.state.tool_calls, keys, said.state.id()),
        ..said
    };
    assert(fit_from(named, n));
    lemma_fit_push(
        named,
        n,
        named.state,
        EventView::Completed {
            response_id: named.state.id(),
            token_usage: named.state.token_usage,
            end_turn: Some(true),
        },
    );
}

/// A message that is open has text once the parser's segments were taken in.
proof fn lemma_some_text(run: ChatRun, given: Seq<SegmentView>, flush: bool)
    requires
        run.state.message_started ==> run.state.message_text.len() > 0,
        exists|state: crate::think::ThinkView| given == (#[trigger] drained(state, flush)).0,
    ensures
        run.segments(given).state.message_started ==> run.segments(
            given,
        ).state.message_text.len() > 0,
{
    let state = choose|state: crate::think::ThinkView|
        given == (#[trigger] drained(state, flush)).0;
    crate::think_laws::law_no_segment_is_empty(state, flush);
    lemma_some_text_of(run, given);
}

proof fn lemma_some_text_of(run: ChatRun, given: Seq<SegmentView>)
    requires
        run.state.message_started ==> run.state.message_text.len() > 0,
        forall|i: int|
            0 <= i < given.len() ==> crate::think_laws::segment_marks(
                #[trigger] given[i],
            ).len() > 0,
    ensures
        run.segments(given).state.message_started ==> run.segments(
            given,
        ).state.message_text.len() > 0,
    decreases given.len(),
{
    if given.len() > 0 {
        let front = given.drop_last();
        assert forall|i: int| 0 <= i < front.len() implies crate::think_laws::segment_marks(
            #[trigger] front[i],
        ).len() > 0 by {
            assert(front[i] == given[i]);
        }
        lemma_some_text_of(run, front);
        assert(crate::think_laws::segment_marks(given[given.len() - 1]).len() > 0);
    }
}

proof fn lemma_fit_choice(run: ChatRun, n: nat, choice: ChoiceView)
    requires
        fit_from(run, n),
        sound(run),
    ensures
        fit_from(run.choice(choice), n),
        run.choice(choice).state.response_id == run.state.response_id,
{
    if let Some(text) = choice.reasoning_content {
        lemma_thought(run, text);
        lemma_fit_segment(run, n, SegmentView::Reasoning(text));
        crate::chat_laws::lemma_thought_orderly(run, text);
    }
    let thought = run.reasoned(choice.reasoning_content);
    if let Some(text) = choice.content {
        let state = fed(thought.state.think_parser, text);
        let (given, parser) = drained(state, false);
        let start = thought.at(ChatStateView { think_parser: parser, ..thought.state });
        lemma_segments(start, given);
        lemma_fit_segments(start, n, given);
        crate::think_laws::law_no_segment_is_empty(state, false);
        crate::chat_laws::lemma_segments_orderly(start, given);
    }
    let said = thought.said(choice.content);
    let calls = said.with_calls(
        calls_taken(said.state.tool_calls, choice.function_call, choice.tool_calls),
    );
    assert(fit_from(calls, n));
    assert(sound(calls));
    if choice.finish_reason is Some {
        lemma_fit_finished(calls, n);
    }
}

proof fn lemma_fit_choices(run: ChatRun, n: nat, choices: Seq<ChoiceView>)
    requires
        fit_from(run, n),
        sound(run),
    ensures
        fit_from(run.choices(choices), n),
        run.choices(choices).state.response_id == run.state.response_id,
    decreases choices.len(),
{
    if choices.len() > 0 {
        let front = choices.drop_last();
        lemma_fit_choices(run, n, front);
        lemma_choices(run, front);
        crate::chat_laws::lemma_choices_orderly(run, front);
        if !run.choices(front).done {
            lemma_fit_choice(run.choices(front), n, choices.last());
        }
    }
}

proof fn lemma_fit_step(run: ChatRun, poll: ChatPollView)
    requires
        sound(run),
    ensures
        fit_from(run.poll(poll), run.sent.len()),
        poll_chunk(poll) is None ==> run.poll(poll).state.response_id == run.state.response_id,
        poll_chunk(poll) matches Some(chunk) ==> run.poll(poll).state.response_id == run.head(
            chunk,
        ).state.response_id,
{
    let n = run.sent.len();
    if let ChatPollView::Event { data, chunk } = poll {
        if end_mark(data) {
            lemma_fit_finished(run, n);
        } else if let Some(chunk) = chunk {
            lemma_head(run, chunk);
            crate::chat_laws::lemma_head_orderly(run, chunk);
            lemma_fit_choices(run.head(chunk), n, chunk.choices);
        }
    }
}

/// The chunk that counts in a poll.
pub open spec fn poll_chunk(poll: ChatPollView) -> Option<ChunkView> {
    match poll {
        ChatPollView::Event { data, chunk } => if end_mark(data) {
            None
        } else {
            chunk
        },
        _ => None,
    }
}

proof fn lemma_sound(polls: Seq<ChatPollView>)
    requires
        go_on(polls),
    ensures
        sound(polled(fresh_run(), polls)),
{
    law_what_is_told_agrees(polls);
    crate::chat_laws::lemma_polled_orderly(polls);
    law_an_answer_is_done_when_it_stopped(polls);
}

/// All that a step sends, at any point of any answer, fits the answer by the id
/// that it then goes by: its items carry that id, are the model's, hold nothing
/// but their text, and the end is that of the turn.
pub proof fn law_what_is_sent_fits_the_answer(polls: Seq<ChatPollView>, poll: ChatPollView)
    requires
        go_on(polls),
    ensures
        ({
            let before = polled(fresh_run(), polls);
            let after = polled(fresh_run(), polls.push(poll));
            &&& before.sent.is_prefix_of(after.sent)
            &&& forall|i: int|
                before.sent.len() <= i < after.sent.len() ==> fits(
                    #[trigger] after.sent[i],
                    known_as(after.state),
                )
        }),
{
    assert(polls.push(poll).drop_last() =~= polls);
    lemma_sound(polls);
    lemma_fit_step(polled(fresh_run(), polls), poll);
    law_a_step_only_adds(polled(fresh_run(), polls), poll);
}

/// What a chunk says of the answer as a whole: the first id counts, the latest
/// count of tokens, and a model is told of when it is another than before.
pub proof fn law_what_a_chunk_says_of_the_answer(polls: Seq<ChatPollView>, poll: ChatPollView)
    requires
        go_on(polls),
    ensures
        ({
            let before = polled(fresh_run(), polls).state;
            let after = polled(fresh_run(), polls.push(poll)).state;
            match poll_chunk(poll) {
                Some(chunk) => {
                    &&& after.created
                    &&& after.response_id == (if before.response_id is Some {
                        before.response_id
                    } else {
                        chunk.id
                    })
                    &&& after.last_server_model == (if chunk.model is Some {
                        chunk.model
                    } else {
                        before.last_server_model
                    })
                    &&& chunk.usage is None ==> after.token_usage == before.token_usage
                    &&& chunk.usage matches Some(u) ==> after.token_usage == Some(
                        usage_told(u),
                    )
                },
                None => {
                    &&& after.created == before.created
                    &&& after.response_id == before.response_id
                    &&& after.last_server_model == before.last_server_model
                    &&& after.token_usage == before.token_usage
                },
            }
        }),
{
    assert(polls.push(poll).drop_last() =~= polls);
    lemma_sound(polls);
    let run = polled(fresh_run(), polls);
    lemma_fit_step(run, poll);
    if let ChatPollView::Event { data, chunk } = poll {
        if end_mark(data) {
            lemma_same_finished(run);
        } else if let Some(chunk) = chunk {
            lemma_same_choices(run.head(chunk), chunk.choices);
        }
    }
}

/// The count of tokens that a chunk gives: what was not counted apart is none.
pub open spec fn usage_told(u: ChatCompletionUsage) -> TokenUsage {
    TokenUsage {
        input_tokens: u.prompt_tokens,
        cached_input_tokens: match u.prompt_tokens_details {
            Some(details) => details.cached_tokens.unwrap_or(0),
            None => 0,
        },
        output_tokens: u.completion_tokens,
        reasoning_output_tokens: match u.completion_tokens_details {
            Some(details) => details.reasoning_tokens.unwrap_or(0),
            None => 0,
        },
        total_tokens: u.total_tokens,
    }
}

/// Whether two states agree on what only the head of a chunk can change.
spec fn same_head(a: ChatStateView, b: ChatStateView) -> bool {
    &&& a.created == b.created
    &&& a.response_id == b.response_id
    &&& a.last_server_model == b.last_server_model
    &&& a.token_usage == b.token_usage
}

proof fn lemma_same_segments(run: ChatRun, segments: Seq<SegmentView>)
    ensures
        same_head(run.segments(segments).state, run.state),
    decreases segments.len(),
{
    if segments.len() > 0 {
        lemma_same_segments(run, segments.drop_last());
    }
}

proof fn lemma_same_finished(run: ChatRun)
    ensures
        same_head(run.finished().state, run.state),
{
    let (given, parser) = drained(run.state.think_parser, true);
    lemma_same_segments(run.at(ChatStateView { think_parser: parser, ..run.state }), given);
}

proof fn lemma_same_choices(run: ChatRun, choices: Seq<ChoiceView>)
    ensures
        same_head(run.choices(choices).state, run.state),
    decreases choices.len(),
{
    if choices.len() > 0 {
        lemma_same_choices(run, choices.drop_last());
        let before = run.choices(choices.drop_last());
        let choice = choices.last();
        let thought = before.reasoned(choice.reasoning_content);
        assert(same_head(thought.state, before.state));
        if let Some(text) = choice.content {
            let (given, parser) = drained(fed(thought.state.think_parser, text), false);
            lemma_same_segments(
                thought.at(ChatStateView { think_parser: parser, ..thought.state }),
                given,
            );
        }
        let said = thought.said(choice.content);
        assert(same_head(said.state, before.state));
        lemma_same_finished(
            said.with_calls(
                calls_taken(said.state.tool_calls, choice.function_call, choice.tool_calls),
            ),
        );
    }
}

/// The models that were told of, in their order.
pub open spec fn models_told(sent: Seq<StreamResultView>) -> Seq<Seq<char>>
    decreases sent.len(),
{
    if sent.len() == 0 {
        Seq::empty()
    } else {
        match sent.last() {
            Ok(EventView::ServerModel(model)) => models_told(sent.drop_last()).push(model),
            _ => models_told(sent.drop_last()),
        }
    }
}

/// The calls of functions that were told of, in their order.
pub open spec fn calls_told(sent: Seq<StreamResultView>) -> Seq<ItemView>
    decreases sent.len(),
{
    if sent.len() == 0 {
        Seq::empty()
    } else {
        match sent.last() {
            Ok(EventView::OutputItemDone(ItemView::FunctionCall { .. })) => calls_told(
                sent.drop_last(),
            ).push(sent.last()->Ok_0->OutputItemDone_0),
            _ => calls_told(sent.drop_last()),
        }
    }
}

broadcast proof fn lemma_models_push(sent: Seq<StreamResultView>, result: StreamResultView)
    ensures
        #[trigger] models_told(sent.push(result)) == (match result {
            Ok(EventView::ServerModel(model)) => models_told(sent).push(model),
            _ => models_told(sent),
        }),
{
    assert(sent.push(result).drop_last() =~= sent);
}

broadcast proof fn lemma_calls_push(sent: Seq<StreamResultView>, result: StreamResultView)
    ensures
        #[trigger] calls_told(sent.push(result)) == (match result {
            Ok(EventView::OutputItemDone(ItemView::FunctionCall { .. })) => calls_told(sent).push(
                result->Ok_0->OutputItemDone_0,
            ),
            _ => calls_told(sent),
        }),
{
    assert(sent.push(result).drop_last() =~= sent);
}

proof fn lemma_quiet_segments(run: ChatRun, segments: Seq<SegmentView>)
    ensures
        models_told(run.segments(segments).sent) == models_told(run.sent),
        calls_told(run.segments(segments).sent) == calls_told(run.sent),
    decreases segments.len(),
{
    broadcast use lemma_models_push, lemma_calls_push;

    if segments.len() > 0 {
        lemma_quiet_segments(run, segments.drop_last());
    }
}

proof fn lemma_called_told(
    sent: Seq<StreamResultView>,
    calls: Map<usize, ToolCallView>,
    keys: Seq<usize>,
    id: Seq<char>,
)
    ensures
        models_told(sent + called(calls, keys, id)) == models_told(sent),
        calls_told(sent + called(calls, keys, id)) == calls_told(sent) + calls_told(
            called(calls, keys, id),
        ),
    decreases keys.len(),
{
    broadcast use lemma_models_push, lemma_calls_push;

    if keys.len() == 0 {
        assert(sent + called(calls, keys, id) =~= sent);
        assert(calls_told(sent) + Seq::<ItemView>::empty() =~= calls_told(sent));
    } else {
        let front = keys.drop_last();
        lemma_called_told(sent, calls, front, id);
        let before = called(calls, front, id);
        let call = calls[keys.last()];
        if call.name is Some {
            let item = Ok(EventView::OutputItemDone(tool_call_item(id, keys.last(), call)));
            assert(sent + before.push(item) =~= (sent + before).push(item));
            assert(calls_told(sent) + calls_told(before).push(
                tool_call_item(id, keys.last(), call),
            ) =~= (calls_told(sent) + calls_told(before)).push(
                tool_call_item(id, keys.last(), call),
            ));
        }
    }
}

proof fn lemma_finished_told(run: ChatRun)
    ensures
        models_told(run.finished().sent) == models_told(run.sent),
        calls_told(run.finished().sent) == calls_told(run.sent) + calls_told(
            called(
                run.state.tool_calls,
                listing(run.state.tool_calls.dom()),
                known_as(run.state),
            ),
        ),
        run.finished().state.tool_calls == run.state.tool_calls,
{
    broadcast use lemma_models_push, lemma_calls_push;

    let (given, parser) = drained(run.state.think_parser, true);
    let start = run.at(ChatStateView { think_parser: parser, ..run.state });
    lemma_quiet_segments(start, given);
    lemma_same_segments(start, given);
    lemma_segments_done(start, given);
    let quiet = start.segments(given).reasoning_closed();
    let said = if quiet.state.message_started {
        quiet.send(EventView::OutputItemDone(quiet.state.message()))
    } else {
        quiet
    };
    lemma_called_told(
        said.sent,
        said.state.tool_calls,
        listing(said.state.tool_calls.dom()),
        said.state.id(),
    );
}

proof fn lemma_choice_told(run: ChatRun, choice: ChoiceView)
    ensures
        models_told(run.choice(choice).sent) == models_told(run.sent),
        choice.finish_reason is None ==> calls_told(run.choice(choice).sent) == calls_told(
            run.sent,
        ),
        choice.finish_reason is Some ==> calls_told(run.choice(choice).sent) == calls_told(
            run.sent,
        ) + calls_told(
            called(
                run.choice(choice).state.tool_calls,
                listing(run.choice(choice).state.tool_calls.dom()),
                known_as(run.state),
            ),
        ),
{
    broadcast use lemma_models_push, lemma_calls_push;

    let thought = run.reasoned(choice.reasoning_content);
    if let Some(text) = choice.content {
        let (given, parser) = drained(fed(thought.state.think_parser, text), false);
        let start = thought.at(ChatStateView { think_parser: parser, ..thought.state });
        lemma_quiet_segments(start, given);
        lemma_same_segments(start, given);
    }
    let said = thought.said(choice.content);
    lemma_finished_told(
        said.with_calls(
            calls_taken(said.state.tool_calls, choice.function_call, choice.tool_calls),
        ),
    );
}

proof fn lemma_choices_told(run: ChatRun, choices: Seq<ChoiceView>)
    requires
        !run.done,
    ensures
        models_told(run.choices(choices).sent) == models_told(run.sent),
        !ended(choices) ==> calls_told(run.choices(choices).sent) == calls_told(run.sent),
        ended(choices) ==> calls_told(run.choices(choices).sent) == calls_told(run.sent)
            + calls_told(
            called(
                run.choices(choices).state.tool_calls,
                listing(run.choices(choices).state.tool_calls.dom()),
                known_as(run.state),
            ),
        ),
    decreases choices.len(),
{
    if choices.len() > 0 {
        let front = choices.drop_last();
        lemma_ended_step(choices);
        lemma_choices_told(run, front);
        lemma_choices_done(run, front);
        lemma_same_choices(run, front);
        lemma_choice_told(run.choices(front), choices.last());
    }
}

/// A model is told of when a chunk names another than the one before, and at no
/// other time.
pub proof fn law_a_model_is_told_of_when_it_changes(
    polls: Seq<ChatPollView>,
    poll: ChatPollView,
)
    requires
        go_on(polls),
    ensures
        ({
            let before = polled(fresh_run(), polls);
            let after = polled(fresh_run(), polls.push(poll));
            models_told(after.sent) == (match poll_chunk(poll) {
                Some(ChunkView { model: Some(model), .. }) =>
                if before.state.last_server_model == Some(model) {
                    models_told(before.sent)
                } else {
                    models_told(before.sent).push(model)
                },
                _ => models_told(before.sent),
            })
        }),
{
    broadcast use lemma_models_push;

    assert(polls.push(poll).drop_last() =~= polls);
    lemma_sound(polls);
    let run = polled(fresh_run(), polls);
    if let ChatPollView::Event { data, chunk } = poll {
        if end_mark(data) {
            lemma_finished_told(run);
        } else if let Some(chunk) = chunk {
            lemma_choices_told(run.head(chunk), chunk.choices);
        }
    }
}

proof fn lemma_untouched(polls: Seq<ChatPollView>)
    requires
        go_on(polls),
    ensures
        ({
            let run = polled(fresh_run(), polls);
            if run.state.created {
                run.sent.len() > 0 && run.sent[0] == Ok::<EventView, ErrorView>(
                    EventView::Created,
                )
            } else {
                run == fresh_run()
            }
        }),
    decreases polls.len(),
{
    if polls.len() > 0 {
        let front = polls.drop_last();
        let last = polls.last();
        assert forall|i: int| 0 <= i < front.len() implies !stops(#[trigger] front[i]) by {
            assert(front[i] == polls[i]);
        }
        assert(!stops(polls[polls.len() - 1]));
        lemma_untouched(front);
        law_an_answer_is_done_when_it_stopped(front);
        let before = polled(fresh_run(), front);
        law_a_step_only_adds(before, last);
        let after = polled(fresh_run(), polls);
        if before.state.created {
            assert(after.sent.take(before.sent.len() as int)[0] == before.sent[0]);
            assert(polls =~= front.push(last));
            law_what_a_chunk_says_of_the_answer(front, last);
        } else if let ChatPollView::Event { data, chunk: Some(chunk) } = last {
            let head = before.head(chunk);
            assert(head.sent[0] == Ok::<EventView, ErrorView>(EventView::Created));
            lemma_same_choices(head, chunk.choices);
            lemma_choices_prefix(head, chunk.choices);
            assert(after.sent.take(head.sent.len() as int)[0] == head.sent[0]);
        }
    }
}

proof fn lemma_choices_prefix(run: ChatRun, choices: Seq<ChoiceView>)
    ensures
        run.sent.is_prefix_of(run.choices(choices).sent),
{
    let unsent = ChatRun { sent: Seq::empty(), ..run };
    assert(run.sent + Seq::<StreamResultView>::empty() =~= run.sent);
    crate::chat_laws::lemma_behind_choices(run.sent, unsent, choices);
    assert(crate::chat_laws::behind(run.sent, unsent) == run);
    assert(run.choices(choices).sent.take(run.sent.len() as int) =~= run.sent);
}

/// The first that is sent of an answer is that it was created, unless it ends
/// before anything came: then the end is all that is sent.
pub proof fn law_created_comes_first(polls: Seq<ChatPollView>)
    requires
        polls.len() == 0 || go_on(polls.drop_last()),
    ensures
        ({
            let run = polled(fresh_run(), polls);
            run.sent.len() > 0 ==> run.sent[0] == Ok::<EventView, ErrorView>(EventView::Created)
                || (run.sent.len() == 1 && crate::chat_laws::ends(run.sent[0]))
        }),
{
    if polls.len() > 0 {
        let front = polls.drop_last();
        let last = polls.last();
        lemma_untouched(front);
        law_an_answer_is_done_when_it_stopped(front);
        let before = polled(fresh_run(), front);
        let after = polled(fresh_run(), polls);
        law_a_step_only_adds(before, last);
        if before.state.created {
            assert(after.sent.take(before.sent.len() as int)[0] == before.sent[0]);
        } else if let ChatPollView::Event { data, chunk } = last {
            if end_mark(data) {
                lemma_empty_end();
            } else if let Some(chunk) = chunk {
                let head = before.head(chunk);
                lemma_choices_prefix(head, chunk.choices);
                assert(after.sent.take(head.sent.len() as int)[0] == head.sent[0]);
            }
        }
    }
}

proof fn lemma_empty_end()
    ensures
        fresh_run().finished().sent.len() == 1,
        crate::chat_laws::ends(fresh_run().finished().sent[0]),
{
    let parser = crate::think::fresh_parser();
    crate::think_laws::law_flush_gives_out_all(parser);
    crate::think_laws::law_no_segment_is_empty(parser, true);
    let given = drained(parser, true).0;
    if given.len() > 0 {
        assert(crate::think_laws::segment_marks(given[0]).len() > 0);
        lemma_marks_len(given);
    }
    let dom = fresh_run().state.tool_calls.dom();
    lemma_listing(dom);
    let keys = listing(dom);
    if keys.len() > 0 {
        assert(keys.contains(keys[0]));
        assert(dom.contains(keys[0]));
    }
    let start = fresh_run().at(
        ChatStateView { think_parser: drained(parser, true).1, ..fresh_run().state },
    );
    assert(start.segments(given) == start);
    assert(called(start.state.tool_calls, keys, start.state.id()) =~= Seq::empty());
    assert(start.sent + Seq::<StreamResultView>::empty() =~= start.sent);
}

proof fn lemma_marks_len(given: Seq<SegmentView>)
    requires
        given.len() > 0,
        forall|i: int|
            0 <= i < given.len() ==> crate::think_laws::segment_marks(
                #[trigger] given[i],
            ).len() > 0,
    ensures
        crate::think_laws::marks(given).len() > 0,
{
    assert(crate::think_laws::segment_marks(given[given.len() - 1]).len() > 0);
}

/// The name that came last for the call under an index.
pub open spec fn latest_name(deltas: Seq<ToolDeltaView>, index: usize) -> Option<Seq<char>>
    decreases deltas.len(),
{
    if deltas.len() == 0 {
        None
    } else {
        match deltas.last().function {
            Some(FunctionDeltaView { name: Some(name), .. }) => if deltas.last().index == index {
                Some(name)
            } else {
                latest_name(deltas.drop_last(), index)
            },
            _ => latest_name(deltas.drop_last(), index),
        }
    }
}

/// The id that came last for the call under an index.
pub open spec fn latest_id(deltas: Seq<ToolDeltaView>, index: usize) -> Option<Seq<char>>
    decreases deltas.len(),
{
    if deltas.len() == 0 {
        None
    } else if deltas.last().index == index && deltas.last().id is Some {
        deltas.last().id
    } else {
        latest_id(deltas.drop_last(), index)
    }
}

proof fn lemma_calls_fields(deltas: Seq<ToolDeltaView>, index: usize)
    ensures
        ({
            let calls = calls_grown(Map::empty(), deltas);
            &&& call_at(calls, index).name == latest_name(deltas, index)
            &&& call_at(calls, index).id == latest_id(deltas, index)
            &&& call_at(calls, index).arguments == argument_pieces(deltas, index)
            &&& latest_name(deltas, index) is Some ==> calls.contains_key(index)
        }),
    decreases deltas.len(),
{
    law_arguments_are_put_together(Map::empty(), deltas, index);
    assert(Seq::<char>::empty() + argument_pieces(deltas, index) =~= argument_pieces(
        deltas,
        index,
    ));
    if deltas.len() > 0 {
        lemma_calls_fields(deltas.drop_last(), index);
    }
}

/// All pieces of tool calls that choices carry, in their order. A function call
/// is a piece of the first tool call.
pub open spec fn pieces_in(choices: Seq<ChoiceView>) -> Seq<ToolDeltaView>
    decreases choices.len(),
{
    if choices.len() == 0 {
        Seq::empty()
    } else {
        let last = choices.last();
        pieces_in(choices.drop_last()) + (match last.function_call {
            Some(function) => seq![ToolDeltaView { index: 0, id: None, function: Some(function) }],
            None => Seq::empty(),
        }) + (match last.tool_calls {
            Some(deltas) => deltas,
            None => Seq::empty(),
        })
    }
}

proof fn lemma_pieces_concat(a: Seq<ChoiceView>, b: Seq<ChoiceView>)
    ensures
        pieces_in(a + b) == pieces_in(a) + pieces_in(b),
    decreases b.len(),
{
    if b.len() == 0 {
        assert(a + b =~= a);
        assert(pieces_in(a) + pieces_in(b) =~= pieces_in(a));
    } else {
        assert((a + b).drop_last() =~= a + b.drop_last());
        lemma_pieces_concat(a, b.drop_last());
        assert(pieces_in(a + b) =~= pieces_in(a) + pieces_in(b));
    }
}

proof fn lemma_pieces_of_choices(choices: Seq<ChoiceView>)
    ensures
        choices_deltas(choices) == pieces_in(up_to_end(choices)),
    decreases choices.len(),
{
    if choices.len() > 0 {
        let front = choices.drop_last();
        lemma_pieces_of_choices(front);
        if !ended(front) {
            crate::chat_answer_laws::lemma_up_to_end_open(front);
            assert(choices_deltas(choices) =~= pieces_in(choices));
        }
    }
}

proof fn lemma_pieces_of_polls(polls: Seq<ChatPollView>)
    requires
        polls.len() == 0 || go_on(polls.drop_last()),
    ensures
        polls_deltas(fresh_run(), polls) == pieces_in(came(polls)),
    decreases polls.len(),
{
    if polls.len() > 0 {
        let front = polls.drop_last();
        if front.len() > 0 {
            let first = front.drop_last();
            assert forall|i: int| 0 <= i < first.len() implies !stops(#[trigger] first[i]) by {
                assert(first[i] == front[i]);
            }
        }
        lemma_pieces_of_polls(front);
        law_an_answer_is_done_when_it_stopped(front);
        lemma_pieces_of_choices(poll_choices(polls.last()));
        lemma_pieces_concat(came(front), up_to_end(poll_choices(polls.last())));
    }
}

/// A call as it is told: by the latest name, with all pieces of its arguments,
/// and by the latest id or, where none came, by one made of the answer's id and
/// the call's place.
pub open spec fn call_told(
    deltas: Seq<ToolDeltaView>,
    index: usize,
    answer: Seq<char>,
) -> ItemView {
    let id = match latest_id(deltas, index) {
        Some(id) => id,
        None => answer + ":tool_call:"@ + decimal(index as nat),
    };
    ItemView::FunctionCall {
        id: Some(id),
        name: latest_name(deltas, index)->0,
        namespace: None,
        arguments: argument_pieces(deltas, index),
        call_id: id,
    }
}

proof fn lemma_called_items(
    deltas: Seq<ToolDeltaView>,
    keys: Seq<usize>,
    answer: Seq<char>,
) -> (named: Seq<usize>)
    requires
        forall|i: int, j: int| 0 <= i < j < keys.len() ==> keys[i] < keys[j],
        forall|i: int|
            0 <= i < keys.len() ==> calls_grown(Map::empty(), deltas).contains_key(
                #[trigger] keys[i],
            ),
    ensures
        forall|i: int, j: int| 0 <= i < j < named.len() ==> named[i] < named[j],
        forall|k: usize| named.contains(k) <==> keys.contains(k) && latest_name(deltas, k) is Some,
        calls_told(called(calls_grown(Map::empty(), deltas), keys, answer)).len() == named.len(),
        forall|i: int|
            0 <= i < named.len() ==> calls_told(
                called(calls_grown(Map::empty(), deltas), keys, answer),
            )[i] == call_told(deltas, #[trigger] named[i], answer),
    decreases keys.len(),
{
    broadcast use lemma_calls_push;

    let calls = calls_grown(Map::empty(), deltas);
    if keys.len() == 0 {
        assert(calls_told(called(calls, keys, answer)) =~= Seq::empty());
        Seq::empty()
    } else {
        let front = keys.drop_last();
        let last = keys.last();
        assert forall|i: int| 0 <= i < front.len() implies calls.contains_key(
            #[trigger] front[i],
        ) by {
            assert(front[i] == keys[i]);
        }
        let before = lemma_called_items(deltas, front, answer);
        lemma_calls_fields(deltas, last);
        assert(calls.contains_key(keys[keys.len() - 1]));
        assert forall|k: usize| keys.contains(k) <==> front.contains(k) || k == last by {
            if front.contains(k) {
                let i = choose|i: int| 0 <= i < front.len() && front[i] == k;
                assert(keys[i] == k);
            }
            if k == last {
                assert(keys[keys.len() - 1] == k);
            }
            if keys.contains(k) && k != last {
                let i = choose|i: int| 0 <= i < keys.len() && keys[i] == k;
                assert(front[i] == k);
            }
        }
        if calls[last].name is Some {
            let named = before.push(last);
            assert forall|i: int| 0 <= i < before.len() implies before[i] < last by {
                assert(before.contains(before[i]));
                let j = choose|j: int| 0 <= j < front.len() && front[j] == before[i];
                assert(keys[j] < keys[keys.len() - 1]);
            }
            assert forall|k: usize|
                named.contains(k) <==> keys.contains(k) && latest_name(deltas, k) is Some by {
                if named.contains(k) {
                    let i = choose|i: int| 0 <= i < named.len() && named[i] == k;
                    if i < before.len() {
                        assert(before.contains(k));
                    }
                }
                if before.contains(k) {
                    let i = choose|i: int| 0 <= i < before.len() && before[i] == k;
                    assert(named[i] == k);
                }
                if k == last {
                    assert(named[named.len() - 1] == k);
                }
            }
            let item = tool_call_item(answer, last, calls[last]);
            assert(item == call_told(deltas, last, answer));
            assert forall|i: int| 0 <= i < named.len() implies calls_told(
                called(calls, keys, answer),
            )[i] == call_told(deltas, #[trigger] named[i], answer) by {
                if i < before.len() {
                    assert(named[i] == before[i]);
                }
            }
            named
        } else {
            before
        }
    }
}

/// Whether items are the calls at places in ascending order, which are just those
/// that were given a name.
pub open spec fn told_at(
    items: Seq<ItemView>,
    pieces: Seq<ToolDeltaView>,
    answer: Seq<char>,
    places: Seq<usize>,
) -> bool {
    &&& forall|i: int, j: int| 0 <= i < j < places.len() ==> places[i] < places[j]
    &&& forall|k: usize| #[trigger] places.contains(k) <==> latest_name(pieces, k) is Some
    &&& items.len() == places.len()
    &&& forall|i: int|
        0 <= i < places.len() ==> #[trigger] items[i] == call_told(pieces, places[i], answer)
}

/// When an answer has ended as it should, just the calls that were given a name
/// are told of, in the order of their places, each by its latest name and id and
/// with all pieces of its arguments. Until then none is.
pub proof fn law_calls_are_told_as_they_came(polls: Seq<ChatPollView>)
    ensures
        go_on(polls) ==> calls_told(polled(fresh_run(), polls).sent).len() == 0,
        end_well(polls) ==> exists|places: Seq<usize>| #[trigger]
            told_at(
                calls_told(polled(fresh_run(), polls).sent),
                pieces_in(came(polls)),
                known_as(polled(fresh_run(), polls).state),
                places,
            ),
{
    if go_on(polls) {
        lemma_no_calls_yet(polls);
    }
    if end_well(polls) {
        let front = polls.drop_last();
        lemma_no_calls_yet(front);
        lemma_sound(front);
        let before = polled(fresh_run(), front);
        let after = polled(fresh_run(), polls);
        let last = polls.last();
        law_the_calls_are_what_came(polls);
        lemma_pieces_of_polls(polls);
        let pieces = pieces_in(came(polls));
        let calls = after.state.tool_calls;
        let answer = known_as(after.state);
        assert(calls == calls_grown(Map::empty(), pieces));
        if let ChatPollView::Event { data, chunk } = last {
            if end_mark(data) {
                lemma_finished_told(before);
                lemma_same_finished(before);
            } else if let Some(chunk) = chunk {
                broadcast use lemma_calls_push;

                lemma_choices_told(before.head(chunk), chunk.choices);
                lemma_same_choices(before.head(chunk), chunk.choices);
                assert(calls_told(before.head(chunk).sent) == calls_told(before.sent));
            }
        }
        let keys = listing(calls.dom());
        lemma_listing(calls.dom());
        let items = calls_told(called(calls, keys, answer));
        assert(calls_told(before.sent) + items =~= items);
        assert(calls_told(after.sent) == items);
        assert forall|i: int| 0 <= i < keys.len() implies calls.contains_key(
            #[trigger] keys[i],
        ) by {
            assert(keys.contains(keys[i]));
        }
        let places = lemma_called_items(pieces, keys, answer);
        assert forall|k: usize|
            #[trigger] places.contains(k) <==> latest_name(pieces, k) is Some by {
            lemma_calls_fields(pieces, k);
            if latest_name(pieces, k) is Some {
                assert(calls.dom().contains(k));
                assert(keys.contains(k));
            }
        }
        assert forall|i: int| 0 <= i < places.len() implies #[trigger] items[i] == call_told(
            pieces,
            places[i],
            answer,
        ) by {
            let place = places[i];
        }
        assert(told_at(items, pieces, answer, places));
    }
}

proof fn lemma_no_calls_yet(polls: Seq<ChatPollView>)
    requires
        go_on(polls),
    ensures
        calls_told(polled(fresh_run(), polls).sent) == Seq::<ItemView>::empty(),
    decreases polls.len(),
{
    broadcast use lemma_calls_push;

    if polls.len() > 0 {
        let front = polls.drop_last();
        let last = polls.last();
        assert forall|i: int| 0 <= i < front.len() implies !stops(#[trigger] front[i]) by {
            assert(front[i] == polls[i]);
        }
        assert(!stops(polls[polls.len() - 1]));
        lemma_no_calls_yet(front);
        law_an_answer_is_done_when_it_stopped(front);
        let before = polled(fresh_run(), front);
        if let ChatPollView::Event { data, chunk: Some(chunk) } = last {
            lemma_choices_told(before.head(chunk), chunk.choices);
        }
    }
}

/// A chunk with one choice, which brings no calls and does not end the answer.
pub open spec fn brings(
    chunk: ChunkView,
    thought: Option<Seq<char>>,
    text: Option<Seq<char>>,
) -> bool {
    &&& chunk.model is None
    &&& chunk.choices == seq![
        ChoiceView {
            content: text,
            reasoning_content: thought,
            function_call: None,
            tool_calls: None,
            finish_reason: None,
        },
    ]
}

/// An open item of reasoning, with nothing in it yet.
pub open spec fn new_reasoning(answer: Seq<char>) -> ItemView {
    ItemView::Reasoning {
        id: answer + ":reasoning"@,
        summary: Seq::empty(),
        content: None,
        encrypted_content: None,
    }
}

/// An open message, with nothing in it yet.
pub open spec fn new_message(answer: Seq<char>) -> ItemView {
    ItemView::Message {
        id: Some(answer + ":message"@),
        role: "assistant"@,
        content: Seq::empty(),
        phase: None,
    }
}

proof fn lemma_one_choice(run: ChatRun, chunk: ChunkView, choice: ChoiceView)
    requires
        !run.done,
        chunk.choices == seq![choice],
        run.state.created,
        chunk.model is None,
    ensures
        run.head(chunk).sent == run.sent,
        run.chunk(chunk) == run.head(chunk).choice(choice),
{
    let head = run.head(chunk);
    assert(chunk.choices.drop_last() =~= Seq::empty());
    assert(head.choices(Seq::empty()) == head);
    assert(chunk.choices.last() == choice);
}

/// Reasoning that comes beside the text is told at once and as it came, be it
/// empty, as long as the reasoning is open; the first piece opens it. Behind
/// visible text nothing is told of it.
pub proof fn law_a_thought_is_told_at_once(
    run: ChatRun,
    data: Seq<char>,
    chunk: ChunkView,
    thought: Seq<char>,
)
    requires
        !run.done,
        run.state.created,
        !run.state.reasoning_started ==> run.state.reasoning_text.len() == 0,
        !end_mark(data),
        brings(chunk, Some(thought), None),
    ensures
        ({
            let after = run.poll(ChatPollView::Event { data, chunk: Some(chunk) });
            let delta = Ok(EventView::ReasoningContentDelta { delta: thought, content_index: 0 });
            let opened = Ok(EventView::OutputItemAdded(new_reasoning(known_as(after.state))));
            &&& after.state.reasoning_text == run.state.reasoning_text + thought
            &&& after.sent == if run.state.reasoning_finished {
                run.sent
            } else if run.state.reasoning_started {
                run.sent.push(delta)
            } else {
                run.sent.push(opened).push(delta)
            }
        }),
{
    let choice = ChoiceView {
        content: None,
        reasoning_content: Some(thought),
        function_call: None,
        tool_calls: None,
        finish_reason: None,
    };
    lemma_one_choice(run, chunk, choice);
}

proof fn lemma_plain_text(state: ThinkView, text: Seq<char>)
    requires
        state.buffer.len() == 0,
        text.len() > 0,
        !text.contains('<'),
    ensures
        drained(fed(state, text), false) == (seq![segment_of(state.in_think, text)], state),
{
    lemma_tags();
    let tag = awaited_tag(state.in_think);
    let whole = fed(state, text);
    assert(whole.buffer =~= text);
    if let Some(at) = first_occurrence(text, tag) {
        assert(occurs_at(text, tag, at));
        assert(text.subrange(at, at + tag.len())[0] == tag[0]);
        assert(text[at] == '<');
    }
    let n = longest_overlap(text, tag);
    lemma_overlap_within(text, tag, overlap_bound(text, tag));
    if n > 0 {
        assert(text.skip(text.len() - n)[0] == tag.take(n as int)[0]);
        assert(text[text.len() - n] == '<');
    }
    assert(text.take(text.len() as int) =~= text);
    assert(text.skip(text.len() as int) =~= state.buffer);
}

/// Text in which nothing may be a tag is told at once and as it came, where no tag
/// is open. It closes the reasoning, if that is open, and opens the message, unless
/// that is.
pub proof fn law_plain_text_is_told_at_once(
    run: ChatRun,
    data: Seq<char>,
    chunk: ChunkView,
    text: Seq<char>,
)
    requires
        !run.done,
        run.state.created,
        !run.state.message_started ==> run.state.message_text.len() == 0,
        run.state.think_parser.buffer.len() == 0,
        !run.state.think_parser.in_think,
        text.len() > 0,
        !text.contains('<'),
        !end_mark(data),
        brings(chunk, None, Some(text)),
    ensures
        ({
            let after = run.poll(ChatPollView::Event { data, chunk: Some(chunk) });
            let id = known_as(after.state);
            let opened = Ok(EventView::OutputItemAdded(new_message(id)));
            let shut = Ok(
                EventView::OutputItemDone(
                    ItemView::Reasoning {
                        id: id + ":reasoning"@,
                        summary: Seq::empty(),
                        content: if run.state.reasoning_text.len() == 0 {
                            None
                        } else {
                            Some(
                                seq![
                                    ReasoningView::ReasoningText {
                                        text: run.state.reasoning_text,
                                    },
                                ],
                            )
                        },
                        encrypted_content: None,
                    },
                ),
            );
            let first = if run.state.reasoning_started && !run.state.reasoning_finished {
                run.sent.push(shut)
            } else {
                run.sent
            };
            let second = if run.state.message_started {
                first
            } else {
                first.push(opened)
            };
            &&& after.state.message_text == run.state.message_text + text
            &&& after.sent == second.push(Ok(EventView::OutputTextDelta(text)))
        }),
{
    let choice = ChoiceView {
        content: Some(text),
        reasoning_content: None,
        function_call: None,
        tool_calls: None,
        finish_reason: None,
    };
    lemma_one_choice(run, chunk, choice);
    let head = run.head(chunk);
    lemma_plain_text(head.state.think_parser, text);
    let one = seq![segment_of(false, text)];
    assert(one.drop_last() =~= Seq::empty());
    let at = head.at(
        ChatStateView { think_parser: head.state.think_parser, ..head.state },
    );
    assert(at.segments(Seq::empty()) == at);
    assert(at.segments(one) == at.visible(text));
}

/// The first id that polls bring.
pub open spec fn first_id(polls: Seq<ChatPollView>) -> Option<Seq<char>>
    decreases polls.len(),
{
    if polls.len() == 0 {
        None
    } else if first_id(polls.drop_last()) is Some {
        first_id(polls.drop_last())
    } else {
        match poll_chunk(polls.last()) {
            Some(chunk) => chunk.id,
            None => None,
        }
    }
}

/// The last model that polls name.
pub open spec fn last_model(polls: Seq<ChatPollView>) -> Option<Seq<char>>
    decreases polls.len(),
{
    if polls.len() == 0 {
        None
    } else {
        match poll_chunk(polls.last()) {
            Some(ChunkView { model: Some(model), .. }) => Some(model),
            _ => last_model(polls.drop_last()),
        }
    }
}

/// The last count of tokens that polls bring.
pub open spec fn last_usage(polls: Seq<ChatPollView>) -> Option<TokenUsage>
    decreases polls.len(),
{
    if polls.len() == 0 {
        None
    } else {
        match poll_chunk(polls.last()) {
            Some(ChunkView { usage: Some(usage), .. }) => Some(usage_told(usage)),
            _ => last_usage(polls.drop_last()),
        }
    }
}

/// However an answer comes, up to and with the poll that ends it: it goes by the
/// first id that came, its model is the last that was named, and its tokens are
/// counted as they were last. Nothing is known that did not come.
pub proof fn law_an_answer_is_known_by_what_came(polls: Seq<ChatPollView>)
    requires
        polls.len() == 0 || go_on(polls.drop_last()),
    ensures
        ({
            let state = polled(fresh_run(), polls).state;
            &&& state.response_id == first_id(polls)
            &&& state.last_server_model == last_model(polls)
            &&& state.token_usage == last_usage(polls)
        }),
    decreases polls.len(),
{
    if polls.len() > 0 {
        let front = polls.drop_last();
        if front.len() > 0 {
            assert forall|i: int| 0 <= i < front.drop_last().len() implies !stops(
                #[trigger] front.drop_last()[i],
            ) by {
                assert(front[i] == front.drop_last()[i]);
            }
        }
        law_an_answer_is_known_by_what_came(front);
        law_what_a_chunk_says_of_the_answer(front, polls.last());
        assert(front.push(polls.last()) =~= polls);
    }
}

} // verus!
