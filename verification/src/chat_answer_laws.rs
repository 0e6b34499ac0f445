//! What a chat completion comes to, told from what came for it.
use vstd::prelude::*;

use crate::chat_laws::{
    agrees, choice_text, ended, fresh_run, law_a_proper_end_closes_all, law_what_is_told_agrees,
    lemma_choice, lemma_choices, lemma_ended_step, lemma_head, lemma_picked_concat,
    lemma_picked_marked, lemma_reasoning_closed, lemma_segments, lemma_segments_done,
    lemma_segments_text, lemma_thought, lemma_told_calls, lemma_told_push, picked, poll_choices,
    poll_ends, polled, told,
};
use crate::chat_stream::{
    end_mark, listing, ChatPollView, ChatRun, ChatStateView, ChoiceView, ChunkView,
};
use crate::protocol::EventView;
use crate::text::{concatenated, occurs_at};
use crate::think::{drained, fed, fresh_parser, SegmentView};
use crate::think_laws::{
    law_drain_keeps_the_reading, law_flush_gives_out_all, law_no_segment_is_empty,
    law_pushes_add_up, law_text_without_tags_stands_as_it_is, marked, marks, reading,
    segment_marks,
};

verus! {

/// Whether an answer stops at a poll: at the mark of the end, at a choice that
/// ends it, or where the service fails, closes or stays silent.
pub open spec fn stops(poll: ChatPollView) -> bool {
    match poll {
        ChatPollView::Event { data, chunk } => end_mark(data) || (chunk matches Some(c)
            && ended(c.choices)),
        _ => true,
    }
}

/// Whether an answer goes on through all of several polls.
pub open spec fn go_on(polls: Seq<ChatPollView>) -> bool {
    forall|i: int| 0 <= i < polls.len() ==> !stops(#[trigger] polls[i])
}

/// Whether an answer goes on up to the last of several polls, which ends it as it
/// should.
pub open spec fn end_well(polls: Seq<ChatPollView>) -> bool {
    polls.len() > 0 && go_on(polls.drop_last()) && poll_ends(polls.last())
}

/// Choices up to the one that ends the answer.
pub open spec fn up_to_end(choices: Seq<ChoiceView>) -> Seq<ChoiceView>
    decreases choices.len(),
{
    if choices.len() > 0 && ended(choices.drop_last()) {
        up_to_end(choices.drop_last())
    } else {
        choices
    }
}

/// All choices that came, in their order.
pub open spec fn came(polls: Seq<ChatPollView>) -> Seq<ChoiceView>
    decreases polls.len(),
{
    if polls.len() == 0 {
        Seq::empty()
    } else {
        came(polls.drop_last()) + up_to_end(poll_choices(polls.last()))
    }
}

/// The reasoning that a choice carries beside its text.
pub open spec fn choice_thought(choice: ChoiceView) -> Seq<char> {
    match choice.reasoning_content {
        Some(text) => text,
        None => Seq::empty(),
    }
}

/// The text of all choices.
pub open spec fn said_in(choices: Seq<ChoiceView>) -> Seq<char> {
    concatenated(choices.map_values(|c: ChoiceView| choice_text(c)))
}

/// What can be told of a text, character by character and whether it is
/// reasoning, before it is known how the text goes on.
pub open spec fn decided(text: Seq<char>) -> Seq<(bool, char)> {
    marks(drained(fed(fresh_parser(), text), false).0)
}

/// All that choices say, in the order in which it comes: of each choice first
/// the reasoning beside its text, and then what its text adds to what can be told.
pub open spec fn arrived(choices: Seq<ChoiceView>) -> Seq<(bool, char)>
    decreases choices.len(),
{
    if choices.len() == 0 {
        Seq::empty()
    } else {
        let front = choices.drop_last();
        arrived(front) + marked(true, choice_thought(choices.last())) + decided(
            said_in(choices),
        ).skip(decided(said_in(front)).len() as int)
    }
}

/// All that choices say when nothing follows them: what was held back comes last.
pub open spec fn arrived_whole(choices: Seq<ChoiceView>) -> Seq<(bool, char)> {
    arrived(choices) + reading(false, said_in(choices)).skip(
        decided(said_in(choices)).len() as int,
    )
}

/// Whether there is any reasoning.
pub open spec fn has_thought(said: Seq<(bool, char)>) -> bool
    decreases said.len(),
{
    said.len() > 0 && (said.last().0 || has_thought(said.drop_last()))
}

/// Whether anything visible comes behind reasoning.
pub open spec fn shut(said: Seq<(bool, char)>) -> bool
    decreases said.len(),
{
    said.len() > 0 && (shut(said.drop_last()) || (!said.last().0 && has_thought(
        said.drop_last(),
    )))
}

/// The reasoning in front of anything visible that comes behind reasoning.
pub open spec fn first_thoughts(said: Seq<(bool, char)>) -> Seq<char>
    decreases said.len(),
{
    if said.len() == 0 {
        Seq::empty()
    } else if said.last().0 && !shut(said.drop_last()) {
        first_thoughts(said.drop_last()).push(said.last().1)
    } else {
        first_thoughts(said.drop_last())
    }
}

proof fn lemma_said_push(choices: Seq<ChoiceView>, choice: ChoiceView)
    ensures
        said_in(choices.push(choice)) == said_in(choices) + choice_text(choice),
        choices.push(choice).drop_last() == choices,
{
    let all = choices.push(choice);
    let texts = all.map_values(|c: ChoiceView| choice_text(c));
    assert(all.drop_last() =~= choices);
    assert(texts.drop_last() =~= choices.map_values(|c: ChoiceView| choice_text(c)));
    assert(texts.last() == choice_text(choice));
}

/// Whether an answer holds what choices said: what it knows, what it has yet to
/// decide on, and what it told of the reasoning.
spec fn holds(run: ChatRun, choices: Seq<ChoiceView>) -> bool {
    &&& run.state.think_parser == drained(fed(fresh_parser(), said_in(choices)), false).1
    &&& run.state.message_text == picked(arrived(choices), false)
    &&& run.state.reasoning_text == picked(arrived(choices), true)
}

/// Whether the reasoning stands as what was said has it.
spec fn tells(run: ChatRun, said: Seq<(bool, char)>) -> bool {
    &&& run.state.reasoning_started == has_thought(said)
    &&& run.state.reasoning_finished == shut(said)
    &&& told(run.sent).thought == first_thoughts(said)
}

proof fn lemma_visible_said(said: Seq<(bool, char)>, text: Seq<char>)
    requires
        text.len() > 0,
    ensures
        has_thought(said + marked(false, text)) == has_thought(said),
        shut(said + marked(false, text)) == (shut(said) || has_thought(said)),
        first_thoughts(said + marked(false, text)) == first_thoughts(said),
    decreases text.len(),
{
    let all = said + marked(false, text);
    let front = text.drop_last();
    assert(all.drop_last() =~= said + marked(false, front));
    if front.len() == 0 {
        assert(said + marked(false, front) =~= said);
    } else {
        lemma_visible_said(said, front);
    }
}

proof fn lemma_thought_said(said: Seq<(bool, char)>, text: Seq<char>)
    requires
        text.len() > 0,
    ensures
        has_thought(said + marked(true, text)),
        shut(said + marked(true, text)) == shut(said),
        first_thoughts(said + marked(true, text)) == (if shut(said) {
            first_thoughts(said)
        } else {
            first_thoughts(said) + text
        }),
    decreases text.len(),
{
    let all = said + marked(true, text);
    let front = text.drop_last();
    assert(all.drop_last() =~= said + marked(true, front));
    if front.len() == 0 {
        assert(said + marked(true, front) =~= said);
        assert(first_thoughts(said).push(text.last()) =~= first_thoughts(said) + text);
    } else {
        lemma_thought_said(said, front);
        assert((first_thoughts(said) + front).push(text.last()) =~= first_thoughts(said) + text);
    }
}

proof fn lemma_tells_visible(run: ChatRun, said: Seq<(bool, char)>, text: Seq<char>)
    requires
        tells(run, said),
        text.len() > 0,
    ensures
        tells(run.visible(text), said + marked(false, text)),
{
    broadcast use lemma_told_push;

    lemma_visible_said(said, text);
}

proof fn lemma_tells_thought(run: ChatRun, said: Seq<(bool, char)>, text: Seq<char>)
    requires
        tells(run, said),
        text.len() > 0,
        agrees(run),
    ensures
        tells(run.thought(text), said + marked(true, text)),
{
    broadcast use lemma_told_push;

    lemma_thought_said(said, text);
}

proof fn lemma_tells_segments(
    run: ChatRun,
    said: Seq<(bool, char)>,
    segments: Seq<SegmentView>,
)
    requires
        tells(run, said),
        agrees(run),
        !run.done,
        forall|i: int| 0 <= i < segments.len() ==> segment_marks(#[trigger] segments[i]).len() > 0,
    ensures
        tells(run.segments(segments), said + marks(segments)),
    decreases segments.len(),
{
    if segments.len() == 0 {
        assert(said + marks(segments) =~= said);
    } else {
        let front = segments.drop_last();
        assert forall|i: int| 0 <= i < front.len() implies segment_marks(
            #[trigger] front[i],
        ).len() > 0 by {
            assert(front[i] == segments[i]);
        }
        lemma_tells_segments(run, said, front);
        lemma_segments(run, front);
        let before = run.segments(front);
        let middle = said + marks(front);
        assert(segment_marks(segments[segments.len() - 1]).len() > 0);
        match segments.last() {
            SegmentView::Visible(text) => lemma_tells_visible(before, middle, text),
            SegmentView::Reasoning(text) => lemma_tells_thought(before, middle, text),
        }
        assert(middle + segment_marks(segments.last()) =~= said + marks(segments));
    }
}

/// What a choice leaves, its end aside.
spec fn without_end(choice: ChoiceView) -> ChoiceView {
    ChoiceView { finish_reason: None, ..choice }
}

/// What a text adds when it follows others.
proof fn lemma_decided_grows(before: Seq<char>, text: Seq<char>)
    ensures
        ({
            let (given, end) = drained(
                fed(drained(fed(fresh_parser(), before), false).1, text),
                false,
            );
            &&& decided(before + text) == decided(before) + marks(given)
            &&& decided(before + text).skip(decided(before).len() as int) == marks(given)
            &&& end == drained(fed(fresh_parser(), before + text), false).1
        }),
{
    law_pushes_add_up(fresh_parser(), before, text);
    let given = drained(fed(drained(fed(fresh_parser(), before), false).1, text), false).0;
    assert((decided(before) + marks(given)).skip(decided(before).len() as int) =~= marks(given));
}

proof fn lemma_choice_holds(run: ChatRun, choices: Seq<ChoiceView>, choice: ChoiceView)
    requires
        holds(run, choices),
        choice.finish_reason is None,
    ensures
        holds(run.choice(choice), choices.push(choice)),
{
    let all = choices.push(choice);
    lemma_said_push(choices, choice);
    let before = said_in(choices);
    let text = choice_text(choice);
    lemma_decided_grows(before, text);
    let thought = run.reasoned(choice.reasoning_content);
    let piece = choice_thought(choice);
    let (given, parser) = drained(fed(run.state.think_parser, text), false);
    let none = Seq::<(bool, char)>::empty();
    if choice.content is Some {
        lemma_segments_text(
            thought.at(ChatStateView { think_parser: parser, ..thought.state }),
            given,
        );
    } else {
        assert(before + text =~= before);
        assert(decided(before).skip(decided(before).len() as int) =~= none);
    }
    let said = thought.said(choice.content);
    let a = arrived(choices);
    let b = marked(true, piece);
    let c = marks(given);
    if choice.reasoning_content is None {
        assert(b =~= none);
        let text = thought.state.reasoning_text;
        assert(text + Seq::<char>::empty() =~= text);
    }
    lemma_picked_concat(a + b, c, false);
    lemma_picked_concat(a + b, c, true);
    lemma_picked_concat(a, b, false);
    lemma_picked_concat(a, b, true);
    lemma_picked_marked(true, piece, false);
    lemma_picked_marked(true, piece, true);
    assert(run.state.message_text + Seq::<char>::empty() =~= run.state.message_text);
    assert(arrived(all) == a + b + c);
    assert(said.state.message_text =~= picked(arrived(all), false));
    assert(said.state.reasoning_text =~= picked(arrived(all), true));
}

/// Whether no choice carries an empty piece of reasoning.
pub open spec fn thoughts_say(choices: Seq<ChoiceView>) -> bool {
    forall|i: int|
        0 <= i < choices.len() ==> (#[trigger] choices[i]).reasoning_content != Some(
            Seq::<char>::empty(),
        )
}

proof fn lemma_choice_tells(run: ChatRun, choices: Seq<ChoiceView>, choice: ChoiceView)
    requires
        holds(run, choices),
        tells(run, arrived(choices)),
        agrees(run),
        !run.done,
        choice.finish_reason is None,
        choice.reasoning_content != Some(Seq::<char>::empty()),
    ensures
        tells(run.choice(choice), arrived(choices.push(choice))),
{
    lemma_said_push(choices, choice);
    let before = said_in(choices);
    let text = choice_text(choice);
    lemma_decided_grows(before, text);
    let thought = run.reasoned(choice.reasoning_content);
    let piece = choice_thought(choice);
    let a = arrived(choices);
    let b = marked(true, piece);
    if let Some(t) = choice.reasoning_content {
        if t.len() == 0 {
            assert(t =~= Seq::<char>::empty());
        }
        lemma_thought(run, t);
        lemma_tells_thought(run, a, t);
    } else {
        assert(a + b =~= a);
    }
    if choice.content is Some {
        let state = fed(run.state.think_parser, text);
        let (given, parser) = drained(state, false);
        law_no_segment_is_empty(state, false);
        let start = thought.at(ChatStateView { think_parser: parser, ..thought.state });
        lemma_tells_segments(start, a + b, given);
    } else {
        assert(before + text =~= before);
        let rest = decided(before).skip(decided(before).len() as int);
        assert(a + b + rest =~= a + b);
    }
}

proof fn lemma_finished_holds(run: ChatRun, choices: Seq<ChoiceView>)
    requires
        holds(run, choices),
    ensures
        run.finished().state.message_text == picked(arrived_whole(choices), false),
        run.finished().state.reasoning_text == picked(arrived_whole(choices), true),
{
    let text = said_in(choices);
    let none = Seq::<char>::empty();
    let parser = run.state.think_parser;
    law_drain_keeps_the_reading(fed(fresh_parser(), text), none);
    assert(fed(fresh_parser(), text).buffer + none =~= text);
    assert(parser.buffer + none =~= parser.buffer);
    law_flush_gives_out_all(parser);
    let (given, after) = drained(parser, true);
    assert(reading(false, text).skip(decided(text).len() as int) =~= marks(given));
    let start = run.at(ChatStateView { think_parser: after, ..run.state });
    lemma_segments_text(start, given);
    lemma_picked_concat(arrived(choices), marks(given), false);
    lemma_picked_concat(arrived(choices), marks(given), true);
}

proof fn lemma_finished_tells(run: ChatRun, choices: Seq<ChoiceView>)
    requires
        holds(run, choices),
        tells(run, arrived(choices)),
        agrees(run),
        !run.done,
    ensures
        told(run.finished().sent).thought == first_thoughts(arrived_whole(choices)),
        run.finished().state.reasoning_started == has_thought(arrived_whole(choices)),
{
    broadcast use lemma_told_push;

    let text = said_in(choices);
    let none = Seq::<char>::empty();
    let parser = run.state.think_parser;
    law_drain_keeps_the_reading(fed(fresh_parser(), text), none);
    assert(fed(fresh_parser(), text).buffer + none =~= text);
    assert(parser.buffer + none =~= parser.buffer);
    law_flush_gives_out_all(parser);
    let (given, after) = drained(parser, true);
    assert(reading(false, text).skip(decided(text).len() as int) =~= marks(given));
    let start = run.at(ChatStateView { think_parser: after, ..run.state });
    law_no_segment_is_empty(parser, true);
    lemma_tells_segments(start, arrived(choices), given);
    lemma_segments(start, given);
    let read = start.segments(given);
    lemma_reasoning_closed(read);
    let shut_up = read.reasoning_closed();
    let said = if shut_up.state.message_started {
        shut_up.send(EventView::OutputItemDone(shut_up.state.message()))
    } else {
        shut_up
    };
    lemma_told_calls(
        said.sent,
        said.state.tool_calls,
        listing(said.state.tool_calls.dom()),
        said.state.id(),
    );
}

/// What the end of a choice does to what it left.
proof fn lemma_choice_end(run: ChatRun, choice: ChoiceView)
    ensures
        choice.finish_reason is Some ==> run.choice(choice) == run.choice(
            without_end(choice),
        ).finished(),
{
}

proof fn lemma_without_end(choices: Seq<ChoiceView>, choice: ChoiceView)
    ensures
        arrived(choices.push(without_end(choice))) == arrived(choices.push(choice)),
        said_in(choices.push(without_end(choice))) == said_in(choices.push(choice)),
        arrived_whole(choices.push(without_end(choice))) == arrived_whole(choices.push(choice)),
{
    lemma_said_push(choices, choice);
    lemma_said_push(choices, without_end(choice));
}

/// What holds after choices of one chunk, whether one of them ends the answer or
/// not.
spec fn stands(run: ChatRun, choices: Seq<ChoiceView>, silent: bool) -> bool {
    if run.done {
        &&& run.state.message_text == picked(arrived_whole(choices), false)
        &&& run.state.reasoning_text == picked(arrived_whole(choices), true)
        &&& silent ==> told(run.sent).thought == first_thoughts(arrived_whole(choices))
        &&& silent ==> run.state.reasoning_started == has_thought(arrived_whole(choices))
    } else {
        &&& holds(run, choices)
        &&& silent ==> tells(run, arrived(choices))
    }
}

proof fn lemma_choices_stand(
    run: ChatRun,
    before: Seq<ChoiceView>,
    choices: Seq<ChoiceView>,
)
    requires
        holds(run, before),
        agrees(run),
        !run.done,
        thoughts_say(before) ==> tells(run, arrived(before)),
    ensures
        stands(
            run.choices(choices),
            before + up_to_end(choices),
            thoughts_say(before + up_to_end(choices)),
        ),
        run.choices(choices).done == ended(choices),
    decreases choices.len(),
{
    if choices.len() == 0 {
        assert(before + choices =~= before);
        assert(!ended(choices));
    } else {
        let front = choices.drop_last();
        let last = choices.last();
        lemma_ended_step(choices);
        if ended(front) {
            lemma_choices_stand(run, before, front);
        } else {
            lemma_up_to_end_open(front);
            let all = before + choices;
            let some = before + front;
            assert(all =~= some.push(last));
            if thoughts_say(all) {
                assert forall|i: int| 0 <= i < some.len() implies (
                #[trigger] some[i]).reasoning_content != Some(Seq::<char>::empty()) by {
                    assert(some[i] == all[i]);
                }
                assert(thoughts_say(some));
                assert(all[all.len() - 1] == last);
            }
            lemma_choices_stand(run, before, front);
            lemma_choices(run, front);
            let middle = run.choices(front);
            let open = without_end(last);
            lemma_choice_holds(middle, some, open);
            lemma_choice(middle, open);
            if thoughts_say(all) {
                lemma_choice_tells(middle, some, open);
            }
            lemma_without_end(some, last);
            lemma_choice_end(middle, last);
            lemma_open_not_done(middle, open);
            if last.finish_reason is Some {
                lemma_finished_holds(middle.choice(open), some.push(open));
                if thoughts_say(all) {
                    lemma_finished_tells(middle.choice(open), some.push(open));
                }
            } else {
                assert(open == last);
            }
        }
    }
}

proof fn lemma_open_not_done(run: ChatRun, choice: ChoiceView)
    requires
        !run.done,
        choice.finish_reason is None,
    ensures
        !run.choice(choice).done,
{
    if let Some(text) = choice.content {
        let thought = run.reasoned(choice.reasoning_content);
        let (given, parser) = drained(fed(thought.state.think_parser, text), false);
        lemma_segments_done(
            thought.at(ChatStateView { think_parser: parser, ..thought.state }),
            given,
        );
    }
}

pub(crate) proof fn lemma_up_to_end_open(choices: Seq<ChoiceView>)
    requires
        !ended(choices),
    ensures
        up_to_end(choices) == choices,
{
    if choices.len() > 0 {
        lemma_ended_step(choices);
    }
}

proof fn lemma_head_keeps(run: ChatRun, chunk: ChunkView, choices: Seq<ChoiceView>)
    requires
        holds(run, choices),
        thoughts_say(choices) ==> tells(run, arrived(choices)),
    ensures
        holds(run.head(chunk), choices),
        thoughts_say(choices) ==> tells(run.head(chunk), arrived(choices)),
{
    broadcast use lemma_told_push;

}

proof fn lemma_polls_go_on(polls: Seq<ChatPollView>)
    requires
        go_on(polls),
    ensures
        stands(polled(fresh_run(), polls), came(polls), thoughts_say(came(polls))),
        !polled(fresh_run(), polls).done,
        agrees(polled(fresh_run(), polls)),
    decreases polls.len(),
{
    law_what_is_told_agrees(polls);
    if polls.len() == 0 {
        let none = Seq::<ChoiceView>::empty();
        assert(none.map_values(|c: ChoiceView| choice_text(c)) =~= Seq::empty());
        lemma_nothing_decided();
    } else {
        let front = polls.drop_last();
        let last = polls.last();
        assert forall|i: int| 0 <= i < front.len() implies !stops(#[trigger] front[i]) by {
            assert(front[i] == polls[i]);
        }
        assert(!stops(polls[polls.len() - 1]));
        lemma_polls_go_on(front);
        let before = polled(fresh_run(), front);
        let choices = poll_choices(last);
        if let ChatPollView::Event { data, chunk: Some(chunk) } = last {
            lemma_head(before, chunk);
            lemma_head_keeps(before, chunk, came(front));
            lemma_choices_stand(before.head(chunk), came(front), choices);
        } else {
            assert(came(front) + choices =~= came(front));
        }
    }
}

/// Of no text nothing can be told.
proof fn lemma_nothing_decided()
    ensures
        drained(fed(fresh_parser(), Seq::empty()), false).1 == fresh_parser(),
        decided(Seq::empty()) == Seq::<(bool, char)>::empty(),
{
    let none = Seq::<char>::empty();
    let state = fed(fresh_parser(), none);
    assert(state.buffer =~= none);
    law_drain_keeps_the_reading(state, none);
    assert(none + none =~= none);
    assert(reading(false, none) == Seq::<(bool, char)>::empty());
    assert(decided(none).len() == 0);
    let end = drained(state, false).1;
    crate::think::lemma_tags();
    let tag = crate::think::awaited_tag(false);
    if let Some(at) = crate::text::first_occurrence(none, tag) {
        let k = choose|k: int| crate::text::first_at(none, tag, k);
        assert(crate::text::first_at(none, tag, k));
    }
    assert(end.buffer.len() == 0);
    assert(end.buffer =~= none);
    assert(decided(none) =~= Seq::empty());
}

proof fn lemma_polls_end_well(polls: Seq<ChatPollView>)
    requires
        end_well(polls),
    ensures
        stands(polled(fresh_run(), polls), came(polls), thoughts_say(came(polls))),
        polled(fresh_run(), polls).done,
{
    let front = polls.drop_last();
    let last = polls.last();
    lemma_polls_go_on(front);
    let before = polled(fresh_run(), front);
    let choices = poll_choices(last);
    match last {
        ChatPollView::Event { data, chunk } => {
            if end_mark(data) {
                assert(came(front) + choices =~= came(front));
                lemma_finished_holds(before, came(front));
                if thoughts_say(came(front)) {
                    lemma_finished_tells(before, came(front));
                }
                crate::chat_laws::law_the_end_closes_what_was_opened(before);
            } else if let Some(chunk) = chunk {
                lemma_head(before, chunk);
                lemma_head_keeps(before, chunk, came(front));
                lemma_choices_stand(before.head(chunk), came(front), choices);
            }
        },
        _ => {},
    }
}

/// However an answer comes, while it goes on: the message is all that came
/// visibly, and the reasoning is all the reasoning that came, that beside the
/// text and that between tags in the order in which it came.
pub proof fn law_nothing_said_is_lost(polls: Seq<ChatPollView>)
    requires
        go_on(polls),
    ensures
        ({
            let run = polled(fresh_run(), polls);
            &&& !run.done
            &&& run.state.message_text == picked(arrived(came(polls)), false)
            &&& run.state.reasoning_text == picked(arrived(came(polls)), true)
            &&& told(run.sent).text == picked(arrived(came(polls)), false)
        }),
{
    lemma_polls_go_on(polls);
}

/// The same when an answer has ended as it should. What was held back in case a
/// tag should come is then told as well.
pub proof fn law_nothing_said_is_lost_at_the_end(polls: Seq<ChatPollView>)
    requires
        end_well(polls),
    ensures
        ({
            let run = polled(fresh_run(), polls);
            let said = arrived_whole(came(polls));
            &&& run.done
            &&& run.state.message_text == picked(said, false)
            &&& run.state.reasoning_text == picked(said, true)
            &&& told(run.sent).text == picked(said, false)
            &&& picked(said, false).len() > 0 ==> told(run.sent).message_text == picked(
                said,
                false,
            )
        }),
{
    lemma_polls_end_well(polls);
    law_what_is_told_agrees(polls);
    lemma_front_not_done(polls);
    law_a_proper_end_closes_all(polls);
}

proof fn lemma_front_not_done(polls: Seq<ChatPollView>)
    requires
        end_well(polls),
    ensures
        !polled(fresh_run(), polls.drop_last()).done,
{
    lemma_polls_go_on(polls.drop_last());
}

/// However an answer comes, the deltas of the reasoning tell all the reasoning
/// up to the first visible text behind it, and when the reasoning is closed it is
/// closed with just that. While the answer goes on, it is closed just when such
/// text has come.
pub proof fn law_reasoning_is_told_until_text_follows(polls: Seq<ChatPollView>)
    requires
        thoughts_say(came(polls)),
    ensures
        go_on(polls) ==> ({
            let run = polled(fresh_run(), polls);
            let said = arrived(came(polls));
            let t = told(run.sent);
            &&& t.thought == first_thoughts(said)
            &&& (t.reasoning_added == 1) == has_thought(said)
            &&& (t.reasoning_done == 1) == shut(said)
            &&& shut(said) ==> t.reasoning_text == first_thoughts(said)
        }),
        end_well(polls) ==> ({
            let run = polled(fresh_run(), polls);
            let said = arrived_whole(came(polls));
            let t = told(run.sent);
            &&& t.thought == first_thoughts(said)
            &&& (t.reasoning_done == 1) == has_thought(said)
            &&& has_thought(said) ==> t.reasoning_text == first_thoughts(said)
        }),
{
    if go_on(polls) {
        lemma_polls_go_on(polls);
    }
    if end_well(polls) {
        lemma_polls_end_well(polls);
        lemma_front_not_done(polls);
        law_a_proper_end_closes_all(polls);
    }
}

/// The reasoning beside the text of all choices.
pub open spec fn thought_in(choices: Seq<ChoiceView>) -> Seq<char> {
    concatenated(choices.map_values(|c: ChoiceView| choice_thought(c)))
}

proof fn lemma_arrived_thoughts(choices: Seq<ChoiceView>)
    requires
        forall|i: int| 0 <= i < choices.len() ==> (#[trigger] choices[i]).content is None,
    ensures
        arrived(choices) == marked(true, thought_in(choices)),
        said_in(choices) == Seq::<char>::empty(),
    decreases choices.len(),
{
    if choices.len() == 0 {
        assert(choices.map_values(|c: ChoiceView| choice_text(c)) =~= Seq::empty());
        assert(choices.map_values(|c: ChoiceView| choice_thought(c)) =~= Seq::empty());
        assert(marked(true, thought_in(choices)) =~= Seq::empty());
    } else {
        let front = choices.drop_last();
        let last = choices.last();
        assert forall|i: int| 0 <= i < front.len() implies (
        #[trigger] front[i]).content is None by {
            assert(front[i] == choices[i]);
        }
        lemma_arrived_thoughts(front);
        assert(choices =~= front.push(last));
        assert(choices[choices.len() - 1].content is None);
        lemma_said_push(front, last);
        let pieces = choices.map_values(|c: ChoiceView| choice_thought(c));
        assert(pieces.drop_last() =~= front.map_values(|c: ChoiceView| choice_thought(c)));
        assert(said_in(choices) =~= Seq::<char>::empty());
        lemma_nothing_decided();
        let rest = decided(said_in(choices)).skip(0);
        assert(arrived(choices) =~= arrived(front) + marked(true, choice_thought(last)));
        assert(arrived(choices) =~= marked(true, thought_in(choices)));
    }
}

proof fn lemma_arrived_texts(before: Seq<ChoiceView>, choices: Seq<ChoiceView>)
    requires
        forall|i: int|
            0 <= i < choices.len() ==> (#[trigger] choices[i]).reasoning_content is None,
    ensures
        said_in(before + choices) == said_in(before) + said_in(choices),
        arrived(before + choices) == arrived(before) + decided(said_in(before + choices)).skip(
            decided(said_in(before)).len() as int,
        ),
        decided(said_in(before)).is_prefix_of(decided(said_in(before + choices))),
    decreases choices.len(),
{
    if choices.len() == 0 {
        assert(before + choices =~= before);
        assert(choices.map_values(|c: ChoiceView| choice_text(c)) =~= Seq::empty());
        assert(said_in(before) + said_in(choices) =~= said_in(before));
        let d = decided(said_in(before));
        assert(arrived(before) + d.skip(d.len() as int) =~= arrived(before));
        assert(d.take(d.len() as int) =~= d);
    } else {
        let front = choices.drop_last();
        let last = choices.last();
        assert forall|i: int| 0 <= i < front.len() implies (
        #[trigger] front[i]).reasoning_content is None by {
            assert(front[i] == choices[i]);
        }
        lemma_arrived_texts(before, front);
        assert(choices[choices.len() - 1].reasoning_content is None);
        assert(choices =~= front.push(last));
        assert(before + choices =~= (before + front).push(last));
        lemma_said_push(front, last);
        lemma_said_push(before + front, last);
        assert(said_in(before + choices) =~= said_in(before) + said_in(choices));
        lemma_decided_grows(said_in(before + front), choice_text(last));
        let a = decided(said_in(before));
        let b = decided(said_in(before + front));
        let c = decided(said_in(before + choices));
        assert(b.is_prefix_of(c)) by {
            assert(c.take(b.len() as int) =~= b);
        }
        assert(c.take(a.len() as int) =~= b.take(a.len() as int));
        assert(b.skip(a.len() as int) + c.skip(b.len() as int) =~= c.skip(a.len() as int)) by {
            assert(forall|i: int| 0 <= i < b.len() ==> c[i] == b[i]) by {
                assert(c.take(b.len() as int) =~= b);
                assert(forall|i: int| 0 <= i < b.len() ==> c.take(b.len() as int)[i] == c[i]);
            }
        }
        assert(marked(true, choice_thought(last)) =~= Seq::empty());
        assert(arrived(before + choices) =~= arrived(before) + c.skip(a.len() as int));
    }
}

proof fn lemma_first_thoughts_of_all(thought: Seq<char>, text: Seq<char>)
    ensures
        first_thoughts(marked(true, thought) + marked(false, text)) == thought,
        has_thought(marked(true, thought) + marked(false, text)) == (thought.len() > 0),
        picked(marked(true, thought) + marked(false, text), false) == text,
        picked(marked(true, thought) + marked(false, text), true) == thought,
{
    let none = Seq::<(bool, char)>::empty();
    assert(none + marked(true, thought) =~= marked(true, thought));
    if thought.len() > 0 {
        lemma_thought_said(none, thought);
        assert(Seq::<char>::empty() + thought =~= thought);
    } else {
        assert(marked(true, thought) =~= none);
        assert(thought =~= Seq::<char>::empty());
    }
    if text.len() > 0 {
        lemma_visible_said(marked(true, thought), text);
    } else {
        assert(marked(true, thought) + marked(false, text) =~= marked(true, thought));
    }
    lemma_picked_concat(marked(true, thought), marked(false, text), false);
    lemma_picked_concat(marked(true, thought), marked(false, text), true);
    lemma_picked_marked(true, thought, false);
    lemma_picked_marked(true, thought, true);
    lemma_picked_marked(false, text, false);
    lemma_picked_marked(false, text, true);
    assert(Seq::<char>::empty() + text =~= text);
    assert(thought + Seq::<char>::empty() =~= thought);
}

/// An answer that thinks first and then speaks: where the choices carry nothing
/// but reasoning up to some point, and nothing but text without tags from there
/// on, the reasoning is told piece by piece and closed with all the pieces, and
/// the message is all the text.
pub proof fn law_thinking_comes_before_speaking(
    polls: Seq<ChatPollView>,
    thinking: Seq<ChoiceView>,
    speaking: Seq<ChoiceView>,
)
    requires
        end_well(polls),
        came(polls) == thinking + speaking,
        thoughts_say(thinking),
        forall|i: int| 0 <= i < thinking.len() ==> (#[trigger] thinking[i]).content is None,
        forall|i: int|
            0 <= i < speaking.len() ==> (#[trigger] speaking[i]).reasoning_content is None,
        forall|i: int| !occurs_at(said_in(speaking), "<think>"@, i),
    ensures
        ({
            let run = polled(fresh_run(), polls);
            let t = told(run.sent);
            &&& run.state.reasoning_text == thought_in(thinking)
            &&& t.thought == thought_in(thinking)
            &&& thinking.len() > 0 && thought_in(thinking).len() > 0 ==> t.reasoning_done == 1
                && t.reasoning_text == thought_in(thinking)
            &&& t.text == said_in(speaking)
            &&& said_in(speaking).len() > 0 ==> t.message_text == said_in(speaking)
        }),
{
    let all = thinking + speaking;
    assert forall|i: int| 0 <= i < all.len() implies (#[trigger] all[i]).reasoning_content != Some(
        Seq::<char>::empty(),
    ) by {
        if i < thinking.len() {
            assert(all[i] == thinking[i]);
        } else {
            assert(all[i] == speaking[i - thinking.len()]);
        }
    }
    law_nothing_said_is_lost_at_the_end(polls);
    law_reasoning_is_told_until_text_follows(polls);
    lemma_arrived_thoughts(thinking);
    lemma_arrived_texts(thinking, speaking);
    lemma_nothing_decided();
    let text = said_in(speaking);
    assert(said_in(all) =~= text);
    law_text_without_tags_stands_as_it_is(text);
    let none = Seq::<char>::empty();
    law_drain_keeps_the_reading(fed(fresh_parser(), text), none);
    assert(fed(fresh_parser(), text).buffer + none =~= text);
    let d = decided(text);
    let whole = reading(false, text);
    assert(d.skip(0) =~= d);
    assert(d + whole.skip(d.len() as int) =~= whole);
    assert(arrived_whole(all) =~= marked(true, thought_in(thinking)) + marked(false, text));
    lemma_first_thoughts_of_all(thought_in(thinking), text);
}

} // verus!
