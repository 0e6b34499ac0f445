//! What a reader of `<think>` tags may rely on, however its text arrives.
use vstd::prelude::*;

use crate::text::{
    concatenated, first_at, first_occurrence, lemma_first_occurrence_at,
    lemma_first_occurrence_exists, occurs_at,
};
use crate::think::{
    awaited_tag, drained, fed, lemma_overlap_within, lemma_tags, longest_overlap,
    overlap_bound, overlaps, stretch, SegmentView, ThinkView,
};

verus! {

/// A whole text read at once: each character outside the tags, with whether it
/// is reasoning.
pub open spec fn reading(in_think: bool, text: Seq<char>) -> Seq<(bool, char)>
    decreases text.len(),
{
    let tag = awaited_tag(in_think);
    if text.len() == 0 {
        Seq::empty()
    } else if occurs_at(text, tag, 0) && tag.len() > 0 {
        reading(!in_think, text.skip(tag.len() as int))
    } else {
        seq![(in_think, text[0])] + reading(in_think, text.skip(1))
    }
}

/// Whether what follows a whole text that was read at once is reasoning.
pub open spec fn mode_after(in_think: bool, text: Seq<char>) -> bool
    decreases text.len(),
{
    let tag = awaited_tag(in_think);
    if text.len() == 0 {
        in_think
    } else if occurs_at(text, tag, 0) && tag.len() > 0 {
        mode_after(!in_think, text.skip(tag.len() as int))
    } else {
        mode_after(in_think, text.skip(1))
    }
}

/// The characters of a text, each marked as reasoning or not.
pub open spec fn marked(in_think: bool, text: Seq<char>) -> Seq<(bool, char)> {
    text.map_values(|c: char| (in_think, c))
}

/// The characters of a segment, each marked by the segment's kind.
pub open spec fn segment_marks(segment: SegmentView) -> Seq<(bool, char)> {
    match segment {
        SegmentView::Visible(text) => marked(false, text),
        SegmentView::Reasoning(text) => marked(true, text),
    }
}

/// The characters of several segments, in their order.
pub open spec fn marks(segments: Seq<SegmentView>) -> Seq<(bool, char)>
    decreases segments.len(),
{
    if segments.len() == 0 {
        Seq::empty()
    } else {
        marks(segments.drop_last()) + segment_marks(segments.last())
    }
}

pub proof fn lemma_marks_concat(a: Seq<SegmentView>, b: Seq<SegmentView>)
    ensures
        marks(a + b) == marks(a) + marks(b),
    decreases b.len(),
{
    if b.len() == 0 {
        assert(a + b =~= a);
        assert(marks(a) + marks(b) =~= marks(a));
    } else {
        assert((a + b).drop_last() =~= a + b.drop_last());
        lemma_marks_concat(a, b.drop_last());
        assert(marks(a + b) =~= marks(a) + marks(b));
    }
}

pub proof fn lemma_marks_stretch(in_think: bool, text: Seq<char>)
    ensures
        marks(stretch(in_think, text)) == marked(in_think, text),
{
    let s = stretch(in_think, text);
    reveal_with_fuel(marks, 2);
    if text.len() > 0 {
        assert(s.drop_last() =~= Seq::empty());
    }
    assert(marks(s) =~= marked(in_think, text));
}

/// Text in front of the first awaited tag is read as it stands.
proof fn lemma_read_stretch(in_think: bool, text: Seq<char>, n: int)
    requires
        0 <= n <= text.len(),
        forall|i: int| 0 <= i < n ==> !occurs_at(text, awaited_tag(in_think), i),
    ensures
        reading(in_think, text) == marked(in_think, text.take(n)) + reading(
            in_think,
            text.skip(n),
        ),
        mode_after(in_think, text) == mode_after(in_think, text.skip(n)),
    decreases n,
{
    let tag = awaited_tag(in_think);
    if n == 0 {
        assert(text.skip(0) =~= text);
        assert(marked(in_think, text.take(0)) + reading(in_think, text) =~= reading(
            in_think,
            text,
        ));
    } else {
        let rest = text.skip(1);
        assert forall|i: int| 0 <= i < n - 1 implies !occurs_at(rest, tag, i) by {
            if occurs_at(rest, tag, i) {
                assert(text.subrange(i + 1, i + 1 + tag.len()) =~= rest.subrange(
                    i,
                    i + tag.len(),
                ));
                assert(occurs_at(text, tag, i + 1));
            }
        }
        lemma_read_stretch(in_think, rest, n - 1);
        assert(rest.skip(n - 1) =~= text.skip(n));
        assert(!occurs_at(text, tag, 0));
        assert(marked(in_think, text.take(n)) =~= seq![(in_think, text[0])] + marked(
            in_think,
            rest.take(n - 1),
        ));
        assert(reading(in_think, text) =~= marked(in_think, text.take(n)) + reading(
            in_think,
            text.skip(n),
        ));
    }
}

/// Where the buffer holds the awaited tag, it stands at the same place first
/// when more text follows.
proof fn lemma_first_stays(text: Seq<char>, rest: Seq<char>, tag: Seq<char>, at: int)
    requires
        first_at(text, tag, at),
    ensures
        first_at(text + rest, tag, at),
{
    let all = text + rest;
    assert(all.subrange(at, at + tag.len()) =~= text.subrange(at, at + tag.len()));
    assert forall|k: int| 0 <= k < at implies !occurs_at(all, tag, k) by {
        if occurs_at(all, tag, k) {
            assert(all.subrange(k, k + tag.len()) =~= text.subrange(k, k + tag.len()));
            assert(occurs_at(text, tag, k));
        }
    }
}

/// Where no tag is complete in the buffer, none can begin in front of what
/// overlaps with one, whatever text follows.
proof fn lemma_no_tag_before_overlap(text: Seq<char>, rest: Seq<char>, tag: Seq<char>)
    requires
        tag.len() > 0,
        first_occurrence(text, tag) is None,
    ensures
        longest_overlap(text, tag) <= text.len(),
        forall|i: int|
            0 <= i < text.len() - longest_overlap(text, tag) ==> !occurs_at(
                text + rest,
                tag,
                i,
            ),
{
    let all = text + rest;
    lemma_overlap_within(text, tag, overlap_bound(text, tag));
    assert forall|i: int| 0 <= i < text.len() - longest_overlap(text, tag) implies !occurs_at(
        all,
        tag,
        i,
    ) by {
        if occurs_at(all, tag, i) {
            if i + tag.len() <= text.len() {
                assert(all.subrange(i, i + tag.len()) =~= text.subrange(i, i + tag.len()));
                lemma_first_occurrence_exists(text, tag, i);
            } else {
                let n = text.len() - i;
                assert(text.skip(i) =~= all.subrange(i, i + tag.len()).take(n));
                assert(overlaps(text, tag, n));
            }
        }
    }
}

/// What a parser gives out and keeps stands for the text it had: whatever text
/// is yet to come, what was given out followed by the reading of the rest is the
/// reading of all of it, and both end in the same mode.
pub proof fn law_drain_keeps_the_reading(state: ThinkView, rest: Seq<char>)
    ensures
        reading(state.in_think, state.buffer + rest) == marks(drained(state, false).0) + reading(
            drained(state, false).1.in_think,
            drained(state, false).1.buffer + rest,
        ),
        mode_after(state.in_think, state.buffer + rest) == mode_after(
            drained(state, false).1.in_think,
            drained(state, false).1.buffer + rest,
        ),
    decreases state.buffer.len(),
{
    lemma_tags();
    let tag = awaited_tag(state.in_think);
    let all = state.buffer + rest;
    match first_occurrence(state.buffer, tag) {
        Some(at) => {
            let k = choose|k: int| first_at(state.buffer, tag, k);
            assert(first_at(state.buffer, tag, k));
            lemma_first_occurrence_at(state.buffer, tag, k);
            let next = ThinkView {
                buffer: state.buffer.skip(at + tag.len()),
                in_think: !state.in_think,
            };
            lemma_first_stays(state.buffer, rest, tag, at);
            lemma_read_stretch(state.in_think, all, at);
            assert(all.take(at) =~= state.buffer.take(at));
            let behind = all.skip(at);
            assert(behind.subrange(0, tag.len() as int) =~= all.subrange(at, at + tag.len()));
            assert(behind.skip(tag.len() as int) =~= next.buffer + rest);
            law_drain_keeps_the_reading(next, rest);
            let (inner, end) = drained(next, false);
            let piece = stretch(state.in_think, state.buffer.take(at));
            lemma_marks_concat(piece, inner);
            lemma_marks_stretch(state.in_think, state.buffer.take(at));
            assert(reading(state.in_think, all) =~= marks(piece + inner) + reading(
                end.in_think,
                end.buffer + rest,
            ));
        },
        None => {
            let n = state.buffer.len() - longest_overlap(state.buffer, tag);
            lemma_no_tag_before_overlap(state.buffer, rest, tag);
            lemma_read_stretch(state.in_think, all, n);
            assert(all.take(n) =~= state.buffer.take(n));
            assert(all.skip(n) =~= state.buffer.skip(n) + rest);
            lemma_marks_stretch(state.in_think, state.buffer.take(n));
        },
    }
}

/// A parser that is finished has given out all of its text and keeps nothing but
/// the mode that the text ends in.
pub proof fn law_flush_gives_out_all(state: ThinkView)
    ensures
        marks(drained(state, true).0) == reading(state.in_think, state.buffer),
        drained(state, true).1.buffer.len() == 0,
        drained(state, true).1.in_think == mode_after(state.in_think, state.buffer),
    decreases state.buffer.len(),
{
    lemma_tags();
    let tag = awaited_tag(state.in_think);
    match first_occurrence(state.buffer, tag) {
        Some(at) => {
            let k = choose|k: int| first_at(state.buffer, tag, k);
            assert(first_at(state.buffer, tag, k));
            lemma_first_occurrence_at(state.buffer, tag, k);
            let next = ThinkView {
                buffer: state.buffer.skip(at + tag.len()),
                in_think: !state.in_think,
            };
            lemma_read_stretch(state.in_think, state.buffer, at);
            let behind = state.buffer.skip(at);
            assert(behind.subrange(0, tag.len() as int) =~= state.buffer.subrange(
                at,
                at + tag.len(),
            ));
            assert(behind.skip(tag.len() as int) =~= next.buffer);
            law_flush_gives_out_all(next);
            let piece = stretch(state.in_think, state.buffer.take(at));
            lemma_marks_concat(piece, drained(next, true).0);
            lemma_marks_stretch(state.in_think, state.buffer.take(at));
        },
        None => {
            let n = state.buffer.len() as int;
            assert forall|i: int| 0 <= i < n implies !occurs_at(state.buffer, tag, i) by {
                if occurs_at(state.buffer, tag, i) {
                    lemma_first_occurrence_exists(state.buffer, tag, i);
                }
            }
            lemma_read_stretch(state.in_think, state.buffer, n);
            lemma_marks_stretch(state.in_think, state.buffer.take(n));
            assert(reading(state.in_think, state.buffer.skip(n)) =~= Seq::empty());
            assert(marked(state.in_think, state.buffer.take(n)) + Seq::<(bool, char)>::empty()
                =~= marked(state.in_think, state.buffer.take(n)));
        },
    }
}

/// What a parser gives out and keeps when text is pushed piece by piece.
pub open spec fn pushed(state: ThinkView, chunks: Seq<Seq<char>>) -> (Seq<SegmentView>, ThinkView)
    decreases chunks.len(),
{
    if chunks.len() == 0 {
        (Seq::empty(), state)
    } else {
        let (before, middle) = pushed(state, chunks.drop_last());
        let (after, end) = drained(fed(middle, chunks.last()), false);
        (before + after, end)
    }
}

proof fn lemma_pushed_reading(state: ThinkView, chunks: Seq<Seq<char>>, rest: Seq<char>)
    ensures
        reading(state.in_think, state.buffer + concatenated(chunks) + rest) == marks(
            pushed(state, chunks).0,
        ) + reading(pushed(state, chunks).1.in_think, pushed(state, chunks).1.buffer + rest),
        mode_after(state.in_think, state.buffer + concatenated(chunks) + rest) == mode_after(
            pushed(state, chunks).1.in_think,
            pushed(state, chunks).1.buffer + rest,
        ),
    decreases chunks.len(),
{
    if chunks.len() == 0 {
        assert(state.buffer + concatenated(chunks) + rest =~= state.buffer + rest);
        assert(marks(pushed(state, chunks).0) + reading(state.in_think, state.buffer + rest)
            =~= reading(state.in_think, state.buffer + rest));
    } else {
        let front = chunks.drop_last();
        let last = chunks.last();
        let (before, middle) = pushed(state, front);
        let (after, end) = drained(fed(middle, last), false);
        lemma_pushed_reading(state, front, last + rest);
        assert(state.buffer + concatenated(front) + (last + rest) =~= state.buffer + concatenated(
            chunks,
        ) + rest);
        assert(middle.buffer + (last + rest) =~= fed(middle, last).buffer + rest);
        law_drain_keeps_the_reading(fed(middle, last), rest);
        lemma_marks_concat(before, after);
        assert(marks(before) + (marks(after) + reading(end.in_think, end.buffer + rest)) =~= marks(
            before + after,
        ) + reading(end.in_think, end.buffer + rest));
    }
}

/// What a parser gives out, and how it ends, when text is pushed piece by piece
/// and the parser is then finished.
pub open spec fn read_out(state: ThinkView, chunks: Seq<Seq<char>>) -> (
    Seq<SegmentView>,
    ThinkView,
) {
    let (given, middle) = pushed(state, chunks);
    let (rest, end) = drained(middle, true);
    (given + rest, end)
}

/// A text comes out the same in whatever pieces it arrives: pushed piece by
/// piece into any parser that is then finished, it gives the reading of what the
/// parser held and the whole text, tags that were cut in two included. The parser
/// ends in the mode that this text ends in, with nothing left.
pub proof fn law_pieces_do_not_matter(state: ThinkView, chunks: Seq<Seq<char>>)
    ensures
        marks(read_out(state, chunks).0) == reading(
            state.in_think,
            state.buffer + concatenated(chunks),
        ),
        read_out(state, chunks).1.in_think == mode_after(
            state.in_think,
            state.buffer + concatenated(chunks),
        ),
        read_out(state, chunks).1.buffer.len() == 0,
{
    let (given, end) = pushed(state, chunks);
    let none = Seq::<char>::empty();
    lemma_pushed_reading(state, chunks, none);
    assert(state.buffer + concatenated(chunks) + none =~= state.buffer + concatenated(chunks));
    assert(end.buffer + none =~= end.buffer);
    law_flush_gives_out_all(end);
    lemma_marks_concat(given, drained(end, true).0);
}

/// Whether a segment is reasoning.
pub open spec fn kind_of(segment: SegmentView) -> bool {
    segment is Reasoning
}

/// The text of a segment.
pub open spec fn text_of(segment: SegmentView) -> Seq<char> {
    match segment {
        SegmentView::Visible(text) => text,
        SegmentView::Reasoning(text) => text,
    }
}

/// A segment of a kind.
pub open spec fn segment_of(in_think: bool, text: Seq<char>) -> SegmentView {
    if in_think {
        SegmentView::Reasoning(text)
    } else {
        SegmentView::Visible(text)
    }
}

/// Segments with a text more: in the last of them, where that is of the same
/// kind, else in one of its own.
pub open spec fn with_text(segments: Seq<SegmentView>, in_think: bool, text: Seq<char>) -> Seq<
    SegmentView,
> {
    if segments.len() > 0 && kind_of(segments.last()) == in_think {
        segments.drop_last().push(segment_of(in_think, text_of(segments.last()) + text))
    } else {
        segments.push(segment_of(in_think, text))
    }
}

/// Segments with neighbours of the same kind joined.
pub open spec fn coalesced(segments: Seq<SegmentView>) -> Seq<SegmentView>
    decreases segments.len(),
{
    if segments.len() == 0 {
        Seq::empty()
    } else {
        with_text(
            coalesced(segments.drop_last()),
            kind_of(segments.last()),
            text_of(segments.last()),
        )
    }
}

/// The segments that marked characters make up, neighbours of the same kind
/// together.
spec fn runs(marks: Seq<(bool, char)>) -> Seq<SegmentView>
    decreases marks.len(),
{
    if marks.len() == 0 {
        Seq::empty()
    } else {
        with_text(runs(marks.drop_last()), marks.last().0, seq![marks.last().1])
    }
}

proof fn lemma_runs_grow(marks: Seq<(bool, char)>, in_think: bool, text: Seq<char>)
    requires
        text.len() > 0,
    ensures
        runs(marks + marked(in_think, text)) == with_text(runs(marks), in_think, text),
    decreases text.len(),
{
    let all = marks + marked(in_think, text);
    let front = text.drop_last();
    assert(all.drop_last() =~= marks + marked(in_think, front));
    assert(all.last() == (in_think, text.last()));
    let before = runs(marks);
    if front.len() == 0 {
        assert(marks + marked(in_think, front) =~= marks);
        assert(seq![text.last()] =~= text);
    } else {
        lemma_runs_grow(marks, in_think, front);
        let grown = with_text(before, in_think, front);
        assert(front + seq![text.last()] =~= text);
        if before.len() > 0 && kind_of(before.last()) == in_think {
            let first = text_of(before.last());
            assert(first + front + seq![text.last()] =~= first + text);
            assert(grown.drop_last() =~= before.drop_last());
        } else {
            assert(grown.drop_last() =~= before);
        }
    }
}

/// Where no segment is empty, joining neighbours of the same kind leaves what
/// the characters and their kinds alone make up.
proof fn lemma_coalesced_runs(segments: Seq<SegmentView>)
    requires
        forall|i: int| 0 <= i < segments.len() ==> segment_marks(#[trigger] segments[i]).len() > 0,
    ensures
        coalesced(segments) == runs(marks(segments)),
    decreases segments.len(),
{
    if segments.len() > 0 {
        let front = segments.drop_last();
        let last = segments.last();
        assert forall|i: int| 0 <= i < front.len() implies segment_marks(
            #[trigger] front[i],
        ).len() > 0 by {
            assert(front[i] == segments[i]);
        }
        lemma_coalesced_runs(front);
        assert(segment_marks(segments[segments.len() - 1]).len() > 0);
        lemma_runs_grow(marks(front), kind_of(last), text_of(last));
    }
}

proof fn lemma_pushed_not_empty(state: ThinkView, chunks: Seq<Seq<char>>)
    ensures
        forall|i: int|
            0 <= i < pushed(state, chunks).0.len() ==> segment_marks(
                #[trigger] pushed(state, chunks).0[i],
            ).len() > 0,
    decreases chunks.len(),
{
    if chunks.len() > 0 {
        let (before, middle) = pushed(state, chunks.drop_last());
        let last = fed(middle, chunks.last());
        let after = drained(last, false).0;
        lemma_pushed_not_empty(state, chunks.drop_last());
        law_no_segment_is_empty(last, false);
        assert forall|i: int| 0 <= i < pushed(state, chunks).0.len() implies segment_marks(
            #[trigger] pushed(state, chunks).0[i],
        ).len() > 0 by {
            if i < before.len() {
                assert(pushed(state, chunks).0[i] == before[i]);
            } else {
                assert(pushed(state, chunks).0[i] == after[i - before.len()]);
            }
        }
    }
}

/// Where a text is cut does not matter to any parser, new or not: the same text
/// in other pieces comes out as the same segments, once neighbours of the same
/// kind are joined, and the parser ends the same, in the same mode and with
/// nothing left.
pub proof fn law_cuts_do_not_matter(
    state: ThinkView,
    chunks: Seq<Seq<char>>,
    others: Seq<Seq<char>>,
)
    requires
        concatenated(chunks) == concatenated(others),
    ensures
        coalesced(read_out(state, chunks).0) == coalesced(read_out(state, others).0),
        marks(read_out(state, chunks).0) == marks(read_out(state, others).0),
        read_out(state, chunks).1 == read_out(state, others).1,
        read_out(state, chunks).1.buffer.len() == 0,
{
    law_pieces_do_not_matter(state, chunks);
    law_pieces_do_not_matter(state, others);
    lemma_read_out_not_empty(state, chunks);
    lemma_read_out_not_empty(state, others);
    lemma_coalesced_runs(read_out(state, chunks).0);
    lemma_coalesced_runs(read_out(state, others).0);
    assert(read_out(state, chunks).1.buffer =~= read_out(state, others).1.buffer);
}

proof fn lemma_read_out_not_empty(state: ThinkView, chunks: Seq<Seq<char>>)
    ensures
        forall|i: int|
            0 <= i < read_out(state, chunks).0.len() ==> segment_marks(
                #[trigger] read_out(state, chunks).0[i],
            ).len() > 0,
{
    let (given, middle) = pushed(state, chunks);
    let rest = drained(middle, true).0;
    lemma_pushed_not_empty(state, chunks);
    law_no_segment_is_empty(middle, true);
    assert forall|i: int| 0 <= i < read_out(state, chunks).0.len() implies segment_marks(
        #[trigger] read_out(state, chunks).0[i],
    ).len() > 0 by {
        if i < given.len() {
            assert(read_out(state, chunks).0[i] == given[i]);
        } else {
            assert(read_out(state, chunks).0[i] == rest[i - given.len()]);
        }
    }
}

/// Of two pushes in a row: pushing `a`, then `b`, and finishing gives out the
/// same, with neighbours of the same kind joined, and ends the same, as pushing
/// both at once and finishing. This holds of any parser.
pub proof fn law_two_pushes_are_one(state: ThinkView, a: Seq<char>, b: Seq<char>)
    ensures
        ({
            let (first, between) = drained(fed(state, a), false);
            let (second, held) = drained(fed(between, b), false);
            let (third, end) = drained(held, true);
            let (once, kept) = drained(fed(state, a + b), false);
            let (rest, other_end) = drained(kept, true);
            &&& coalesced(first + second + third) == coalesced(once + rest)
            &&& marks(first + second + third) == marks(once + rest)
            &&& end == other_end
            &&& end.buffer.len() == 0
        }),
{
    reveal_with_fuel(pushed, 3);
    reveal_with_fuel(concatenated, 3);
    let none = Seq::<SegmentView>::empty();
    let two = seq![a, b];
    let one = seq![a + b];
    assert(two.drop_last() =~= seq![a]);
    assert(seq![a].drop_last() =~= Seq::empty());
    assert(one.drop_last() =~= Seq::empty());
    assert(concatenated(two) =~= a + b);
    assert(concatenated(one) =~= a + b);
    let first = drained(fed(state, a), false).0;
    let once = drained(fed(state, a + b), false).0;
    assert(none + first =~= first);
    assert(none + once =~= once);
    law_cuts_do_not_matter(state, two, one);
}

/// All that a parser holds back between two pushes is the beginning of the tag
/// it waits for, never the whole tag.
pub proof fn law_only_a_tag_is_held_back(state: ThinkView)
    ensures
        ({
            let end = drained(state, false).1;
            let tag = awaited_tag(end.in_think);
            end.buffer.len() < tag.len() && end.buffer == tag.take(end.buffer.len() as int)
        }),
    decreases state.buffer.len(),
{
    lemma_tags();
    let tag = awaited_tag(state.in_think);
    match first_occurrence(state.buffer, tag) {
        Some(at) => {
            let k = choose|k: int| first_at(state.buffer, tag, k);
            assert(first_at(state.buffer, tag, k));
            lemma_first_occurrence_at(state.buffer, tag, k);
            law_only_a_tag_is_held_back(
                ThinkView {
                    buffer: state.buffer.skip(at + tag.len()),
                    in_think: !state.in_think,
                },
            );
        },
        None => {
            lemma_overlap_within(state.buffer, tag, overlap_bound(state.buffer, tag));
        },
    }
}

/// No segment that is given out is empty.
pub proof fn law_no_segment_is_empty(state: ThinkView, flush: bool)
    ensures
        forall|i: int|
            0 <= i < drained(state, flush).0.len() ==> segment_marks(
                #[trigger] drained(state, flush).0[i],
            ).len() > 0,
    decreases state.buffer.len(),
{
    lemma_tags();
    let tag = awaited_tag(state.in_think);
    let given = drained(state, flush).0;
    match first_occurrence(state.buffer, tag) {
        Some(at) => {
            let k = choose|k: int| first_at(state.buffer, tag, k);
            assert(first_at(state.buffer, tag, k));
            lemma_first_occurrence_at(state.buffer, tag, k);
            let next = ThinkView {
                buffer: state.buffer.skip(at + tag.len()),
                in_think: !state.in_think,
            };
            law_no_segment_is_empty(next, flush);
            let piece = stretch(state.in_think, state.buffer.take(at));
            let inner = drained(next, flush).0;
            assert forall|i: int| 0 <= i < given.len() implies segment_marks(
                #[trigger] given[i],
            ).len() > 0 by {
                if i < piece.len() {
                    assert(given[i] == piece[i]);
                } else {
                    assert(given[i] == inner[i - piece.len()]);
                }
            }
        },
        None => {},
    }
}

/// Text up to the awaited tag is of one kind, and what follows the tag is of the
/// other.
proof fn lemma_read_up_to_tag(in_think: bool, front: Seq<char>, behind: Seq<char>)
    requires
        first_at(front + awaited_tag(in_think), awaited_tag(in_think), front.len() as int),
    ensures
        reading(in_think, front + awaited_tag(in_think) + behind) == marked(in_think, front)
            + reading(!in_think, behind),
{
    lemma_tags();
    let tag = awaited_tag(in_think);
    let all = front + tag + behind;
    lemma_first_stays(front + tag, behind, tag, front.len() as int);
    lemma_read_stretch(in_think, all, front.len() as int);
    assert(all.take(front.len() as int) =~= front);
    let rest = all.skip(front.len() as int);
    assert(rest =~= tag + behind);
    assert(rest.subrange(0, tag.len() as int) =~= tag);
    assert(rest.skip(tag.len() as int) =~= behind);
}

/// Text between a pair of tags is reasoning, and what stands in front of it is
/// visible.
pub proof fn law_text_between_tags_is_reasoning(
    front: Seq<char>,
    thought: Seq<char>,
    behind: Seq<char>,
)
    requires
        first_at(front + awaited_tag(false), awaited_tag(false), front.len() as int),
        first_at(thought + awaited_tag(true), awaited_tag(true), thought.len() as int),
    ensures
        reading(false, front + awaited_tag(false) + (thought + awaited_tag(true) + behind))
            == marked(false, front) + (marked(true, thought) + reading(false, behind)),
{
    lemma_read_up_to_tag(false, front, thought + awaited_tag(true) + behind);
    lemma_read_up_to_tag(true, thought, behind);
}

/// Behind text in which no tag is complete, all depends on what may begin one: a
/// tag comes to stand where it stands when that alone is followed by more text.
proof fn lemma_only_overlap_counts(text: Seq<char>, rest: Seq<char>, tag: Seq<char>)
    requires
        tag.len() > 0,
        first_occurrence(text, tag) is None,
    ensures
        ({
            let n = text.len() - longest_overlap(text, tag);
            let held = text.skip(n);
            &&& 0 <= n <= text.len()
            &&& forall|k: int| first_at(held + rest, tag, k) ==> first_at(text + rest, tag, n + k)
            &&& first_occurrence(held + rest, tag) is None ==> first_occurrence(
                text + rest,
                tag,
            ) is None
            &&& longest_overlap(text + rest, tag) == longest_overlap(held + rest, tag)
        }),
{
    let n = text.len() - longest_overlap(text, tag);
    lemma_overlap_within(text, tag, overlap_bound(text, tag));
    let held = text.skip(n);
    let all = text + rest;
    let short = held + rest;
    lemma_no_tag_before_overlap(text, rest, tag);
    assert(all.skip(n) =~= short);
    assert forall|k: int| 0 <= k implies occurs_at(all, tag, n + k) == occurs_at(
        short,
        tag,
        k,
    ) by {
        if k + tag.len() <= short.len() {
            assert(all.subrange(n + k, n + k + tag.len()) =~= short.subrange(k, k + tag.len()));
        }
    }
    assert forall|k: int| first_at(short, tag, k) implies first_at(all, tag, n + k) by {
        assert forall|i: int| 0 <= i < n + k implies !occurs_at(all, tag, i) by {
            if i >= n {
                assert(occurs_at(all, tag, n + (i - n)) == occurs_at(short, tag, i - n));
            }
        }
        assert(occurs_at(all, tag, n + k));
    }
    if first_occurrence(short, tag) is None && first_occurrence(all, tag) is Some {
        let k = choose|k: int| first_at(all, tag, k);
        assert(first_at(all, tag, k));
        assert(occurs_at(all, tag, k));
        assert(k >= n);
        assert(occurs_at(all, tag, n + (k - n)) == occurs_at(short, tag, k - n));
        lemma_first_occurrence_exists(short, tag, k - n);
    }
    let long_overlap = longest_overlap(all, tag) as int;
    let short_overlap = longest_overlap(short, tag) as int;
    lemma_overlap_within(all, tag, overlap_bound(all, tag));
    lemma_overlap_within(short, tag, overlap_bound(short, tag));
    assert(all.skip(all.len() - short_overlap) =~= short.skip(short.len() - short_overlap));
    assert(overlaps(all, tag, short_overlap));
    if long_overlap > short.len() {
        let m = long_overlap - rest.len();
        assert(text.skip(text.len() - m) =~= all.skip(all.len() - long_overlap).take(m));
        assert(tag.take(long_overlap).take(m) =~= tag.take(m));
        assert(overlaps(text, tag, m));
        assert(false);
    }
    assert(short.skip(short.len() - long_overlap) =~= all.skip(all.len() - long_overlap));
    assert(overlaps(short, tag, long_overlap));
}

/// What is left behind a tag.
spec fn behind_tag(state: ThinkView, at: int) -> ThinkView {
    ThinkView {
        buffer: state.buffer.skip(at + awaited_tag(state.in_think).len()),
        in_think: !state.in_think,
    }
}

/// Up to a tag, a parser gives out one stretch, and goes on behind the tag.
proof fn lemma_drained_at_tag(state: ThinkView, at: int)
    requires
        first_at(state.buffer, awaited_tag(state.in_think), at),
    ensures
        behind_tag(state, at).buffer.len() < state.buffer.len(),
        marks(drained(state, false).0) == marked(state.in_think, state.buffer.take(at)) + marks(
            drained(behind_tag(state, at), false).0,
        ),
        drained(state, false).1 == drained(behind_tag(state, at), false).1,
{
    lemma_tags();
    lemma_first_occurrence_at(state.buffer, awaited_tag(state.in_think), at);
    lemma_marks_stretch(state.in_think, state.buffer.take(at));
    lemma_marks_concat(
        stretch(state.in_think, state.buffer.take(at)),
        drained(behind_tag(state, at), false).0,
    );
}

/// Without a tag, a parser gives out all but what may begin one.
proof fn lemma_drained_open(state: ThinkView)
    requires
        first_occurrence(state.buffer, awaited_tag(state.in_think)) is None,
    ensures
        ({
            let n = state.buffer.len() - longest_overlap(
                state.buffer,
                awaited_tag(state.in_think),
            );
            &&& 0 <= n <= state.buffer.len()
            &&& marks(drained(state, false).0) == marked(state.in_think, state.buffer.take(n))
            &&& drained(state, false).1 == (ThinkView {
                buffer: state.buffer.skip(n),
                in_think: state.in_think,
            })
        }),
{
    let tag = awaited_tag(state.in_think);
    let n = state.buffer.len() - longest_overlap(state.buffer, tag);
    lemma_overlap_within(state.buffer, tag, overlap_bound(state.buffer, tag));
    lemma_marks_stretch(state.in_think, state.buffer.take(n));
}

proof fn lemma_marked_concat(in_think: bool, a: Seq<char>, b: Seq<char>)
    ensures
        marked(in_think, a + b) == marked(in_think, a) + marked(in_think, b),
{
    assert(marked(in_think, a + b) =~= marked(in_think, a) + marked(in_think, b));
}

/// Whether draining, and draining again with more text, comes to draining all.
spec fn goes_on(state: ThinkView, rest: Seq<char>) -> bool {
    let (first, between) = drained(state, false);
    let (second, end) = drained(fed(between, rest), false);
    let (once, other_end) = drained(fed(state, rest), false);
    marks(once) == marks(first) + marks(second) && end == other_end
}

proof fn lemma_goes_on_open(state: ThinkView, rest: Seq<char>)
    requires
        first_occurrence(state.buffer, awaited_tag(state.in_think)) is None,
    ensures
        goes_on(state, rest),
{
    lemma_tags();
    let tag = awaited_tag(state.in_think);
    let n = state.buffer.len() - longest_overlap(state.buffer, tag);
    lemma_only_overlap_counts(state.buffer, rest, tag);
    lemma_drained_open(state);
    let whole = fed(state, rest);
    let between = drained(state, false).1;
    let short = fed(between, rest);
    let front = state.buffer.take(n);
    assert(whole.buffer =~= front + short.buffer);
    match first_occurrence(short.buffer, tag) {
        Some(at) => {
            let k = choose|k: int| first_at(short.buffer, tag, k);
            assert(first_at(short.buffer, tag, k));
            lemma_drained_at_tag(short, k);
            lemma_drained_at_tag(whole, n + k);
            assert(whole.buffer.take(n + k) =~= front + short.buffer.take(k));
            assert(behind_tag(whole, n + k).buffer =~= behind_tag(short, k).buffer);
            lemma_marked_concat(state.in_think, front, short.buffer.take(k));
            let inner = marks(drained(behind_tag(short, k), false).0);
            assert(marked(state.in_think, front) + marked(state.in_think, short.buffer.take(k))
                + inner =~= marked(state.in_think, front) + (marked(
                state.in_think,
                short.buffer.take(k),
            ) + inner));
        },
        None => {
            let m = short.buffer.len() - longest_overlap(short.buffer, tag);
            lemma_drained_open(short);
            lemma_drained_open(whole);
            assert(whole.buffer.take(n + m) =~= front + short.buffer.take(m));
            assert(whole.buffer.skip(n + m) =~= short.buffer.skip(m));
            lemma_marked_concat(state.in_think, front, short.buffer.take(m));
        },
    }
}

proof fn lemma_goes_on(state: ThinkView, rest: Seq<char>)
    ensures
        goes_on(state, rest),
    decreases state.buffer.len(),
{
    let tag = awaited_tag(state.in_think);
    match first_occurrence(state.buffer, tag) {
        Some(at) => {
            let k = choose|k: int| first_at(state.buffer, tag, k);
            assert(first_at(state.buffer, tag, k));
            let whole = fed(state, rest);
            lemma_first_stays(state.buffer, rest, tag, k);
            lemma_drained_at_tag(state, k);
            lemma_drained_at_tag(whole, k);
            assert(whole.buffer.take(k) =~= state.buffer.take(k));
            assert(behind_tag(whole, k).buffer =~= fed(behind_tag(state, k), rest).buffer);
            lemma_goes_on(behind_tag(state, k), rest);
            let between = drained(state, false).1;
            assert(marks(drained(whole, false).0) =~= marks(drained(state, false).0) + marks(
                drained(fed(between, rest), false).0,
            ));
        },
        None => lemma_goes_on_open(state, rest),
    }
}

/// Where a text is cut does not matter even before the end: two pushes in a row
/// give out the same characters, each of the same kind, as one push of both
/// texts, and leave the parser the same.
pub proof fn law_pushes_add_up(state: ThinkView, a: Seq<char>, b: Seq<char>)
    ensures
        ({
            let (first, between) = drained(fed(state, a), false);
            let (second, end) = drained(fed(between, b), false);
            let (once, other_end) = drained(fed(state, a + b), false);
            &&& marks(once) == marks(first) + marks(second)
            &&& end == other_end
        }),
{
    lemma_goes_on(fed(state, a), b);
    assert(fed(fed(state, a), b).buffer =~= fed(state, a + b).buffer);
}

/// The tags are these. Text in which no tag opens is visible as it stands, and
/// text in which none closes is all reasoning once it has begun.
pub proof fn law_text_without_tags_stands_as_it_is(text: Seq<char>)
    ensures
        awaited_tag(false) == "<think>"@,
        awaited_tag(true) == "</think>"@,
        (forall|i: int| !occurs_at(text, "<think>"@, i)) ==> reading(false, text) == marked(
            false,
            text,
        ),
        (forall|i: int| !occurs_at(text, "</think>"@, i)) ==> reading(true, text) == marked(
            true,
            text,
        ),
{
    let n = text.len() as int;
    assert(text.take(n) =~= text);
    assert(marked(false, text) + Seq::<(bool, char)>::empty() =~= marked(false, text));
    assert(marked(true, text) + Seq::<(bool, char)>::empty() =~= marked(true, text));
    if forall|i: int| !occurs_at(text, "<think>"@, i) {
        lemma_read_stretch(false, text, n);
    }
    if forall|i: int| !occurs_at(text, "</think>"@, i) {
        lemma_read_stretch(true, text, n);
    }
}

/// What may begin a tag at the end of a text is as long as it can be: the end of the
/// text is the beginning of the tag, though not the whole tag, and no longer end of
/// the text is.
pub proof fn law_the_overlap_is_the_longest<A>(text: Seq<A>, tag: Seq<A>)
    requires
        tag.len() > 0,
    ensures
        ({
            let n = longest_overlap(text, tag) as int;
            &&& 0 <= n <= text.len()
            &&& n < tag.len()
            &&& text.skip(text.len() - n) == tag.take(n)
            &&& forall|k: int|
                n < k <= text.len() && k < tag.len() ==> text.skip(text.len() - k)
                    != #[trigger] tag.take(k)
        }),
{
    lemma_overlap_within(text, tag, overlap_bound(text, tag));
    let n = longest_overlap(text, tag) as int;
    assert forall|k: int| n < k <= text.len() && k < tag.len() implies text.skip(text.len() - k)
        != #[trigger] tag.take(k) by {
        assert(!overlaps(text, tag, k));
    }
}

} // verus!
