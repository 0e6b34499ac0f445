//! Telling a model's reasoning from its visible text, where the reasoning comes
//! between `<think>` tags and a tag may arrive in pieces.
use vstd::prelude::*;
use vstd::string::*;
use vstd::utf8::*;

use crate::text::{
    find_text, first_occurrence, lemma_bytes_occurrence, lemma_encode_concat, split_text,
    stands_at,
};

verus! {

pub const THINK_OPEN_TAG: &'static str = "<think>";

pub const THINK_CLOSE_TAG: &'static str = "</think>";

/// The tag that ends what is being read: the closing one within reasoning, the
/// opening one outside of it.
pub open spec fn awaited_tag(in_think: bool) -> Seq<char> {
    if in_think {
        THINK_CLOSE_TAG@
    } else {
        THINK_OPEN_TAG@
    }
}

/// A stretch of text of one kind.
#[derive(Debug, PartialEq)]
pub enum ThinkSegment {
    Visible(String),
    Reasoning(String),
}

#[verifier::ext_equal]
pub enum SegmentView {
    Visible(Seq<char>),
    Reasoning(Seq<char>),
}

impl View for ThinkSegment {
    type V = SegmentView;

    open spec fn view(&self) -> SegmentView {
        match *self {
            ThinkSegment::Visible(text) => SegmentView::Visible(text@),
            ThinkSegment::Reasoning(text) => SegmentView::Reasoning(text@),
        }
    }
}

pub open spec fn segments(s: Seq<ThinkSegment>) -> Seq<SegmentView> {
    s.map_values(|x: ThinkSegment| x@)
}

/// The segment that a stretch of text makes: none where the text is empty.
pub open spec fn stretch(in_think: bool, text: Seq<char>) -> Seq<SegmentView> {
    if text.len() == 0 {
        Seq::empty()
    } else if in_think {
        seq![SegmentView::Reasoning(text)]
    } else {
        seq![SegmentView::Visible(text)]
    }
}

/// Whether the last `n` elements of `text` are the first `n` of `tag`.
pub open spec fn overlaps<A>(text: Seq<A>, tag: Seq<A>, n: int) -> bool {
    &&& 0 <= n <= text.len()
    &&& n <= tag.len()
    &&& text.skip(text.len() - n) == tag.take(n)
}

/// The greatest overlap of at most `n` elements.
pub open spec fn overlap_within<A>(text: Seq<A>, tag: Seq<A>, n: nat) -> nat
    decreases n,
{
    if n == 0 || overlaps(text, tag, n as int) {
        n
    } else {
        overlap_within(text, tag, (n - 1) as nat)
    }
}

/// How much of the end of `text` may be the beginning of a `tag` that is not
/// yet complete.
pub open spec fn longest_overlap<A>(text: Seq<A>, tag: Seq<A>) -> nat {
    overlap_within(text, tag, overlap_bound(text, tag))
}

/// The most elements that an incomplete tag at the end of `text` can have.
pub open spec fn overlap_bound<A>(text: Seq<A>, tag: Seq<A>) -> nat {
    if tag.len() == 0 {
        0
    } else if text.len() <= tag.len() - 1 {
        text.len()
    } else {
        (tag.len() - 1) as nat
    }
}

pub proof fn lemma_overlap_within<A>(text: Seq<A>, tag: Seq<A>, n: nat)
    requires
        n <= text.len(),
        n <= tag.len(),
    ensures
        overlap_within(text, tag, n) <= n,
        overlaps(text, tag, overlap_within(text, tag, n) as int),
        forall|k: int|
            overlap_within(text, tag, n) < k <= n ==> !#[trigger] overlaps(text, tag, k),
    decreases n,
{
    if n == 0 {
        assert(text.skip(text.len() as int) =~= tag.take(0));
    } else if !overlaps(text, tag, n as int) {
        lemma_overlap_within(text, tag, (n - 1) as nat);
    }
}

/// The first `n` characters of an ASCII tag are its first `n` bytes.
proof fn lemma_ascii_prefix(tag: Seq<char>, n: int)
    requires
        is_ascii_chars(tag),
        0 <= n <= tag.len(),
    ensures
        encode_utf8(tag.take(n)) == encode_utf8(tag).take(n),
        encode_utf8(tag).len() == tag.len(),
{
    is_ascii_chars_encode_utf8(tag);
    is_ascii_chars_encode_utf8(tag.take(n));
    assert forall|i: int| 0 <= i < n implies encode_utf8(tag.take(n))[i] == encode_utf8(
        tag,
    )[i] by {
        assert(tag.take(n)[i] == tag[i]);
    }
    assert(encode_utf8(tag.take(n)) =~= encode_utf8(tag).take(n));
}

/// Of an ASCII tag, bytes and characters overlap alike.
proof fn lemma_overlap_bytes(text: Seq<char>, tag: Seq<char>, n: int)
    requires
        is_ascii_chars(tag),
        n > 0,
    ensures
        overlaps(encode_utf8(text), encode_utf8(tag), n) <==> overlaps(text, tag, n),
{
    let bytes = encode_utf8(text);
    let code = encode_utf8(tag);
    is_ascii_chars_encode_utf8(tag);
    if overlaps(bytes, code, n) {
        lemma_ascii_prefix(tag, n);
        let at = bytes.len() - n;
        let part = tag.take(n);
        assert(bytes.subrange(at, at + encode_utf8(part).len()) =~= bytes.skip(at));
        let k = lemma_bytes_occurrence(text, part, at);
        let behind = text.skip(k + n);
        assert(text =~= (text.take(k) + part) + behind);
        lemma_encode_concat(text.take(k) + part, behind);
        lemma_encode_concat(text.take(k), part);
        assert(encode_utf8(behind).len() == 0);
        if behind.len() > 0 {
            encode_utf8_first_scalar(behind);
        }
        assert(text.skip(text.len() - n) =~= text.subrange(k, k + n));
    }
    if overlaps(text, tag, n) {
        lemma_ascii_prefix(tag, n);
        let front = text.take(text.len() - n);
        assert(text =~= front + tag.take(n));
        lemma_encode_concat(front, tag.take(n));
        assert(bytes.skip(bytes.len() - n) =~= code.take(n));
    }
}

/// A text has at least as many bytes as characters.
proof fn lemma_bytes_at_least(text: Seq<char>)
    ensures
        encode_utf8(text).len() >= text.len(),
    decreases text.len(),
{
    if text.len() > 0 {
        lemma_bytes_at_least(text.drop_first());
    }
}

/// Of an ASCII tag, the longest overlap in bytes is the longest in characters.
pub proof fn lemma_longest_overlap_bytes(text: Seq<char>, tag: Seq<char>)
    requires
        is_ascii_chars(tag),
    ensures
        longest_overlap(encode_utf8(text), encode_utf8(tag)) == longest_overlap(text, tag),
{
    let bytes = encode_utf8(text);
    let code = encode_utf8(tag);
    is_ascii_chars_encode_utf8(tag);
    lemma_bytes_at_least(text);
    lemma_overlap_within(text, tag, overlap_bound(text, tag));
    lemma_overlap_within(bytes, code, overlap_bound(bytes, code));
    let in_chars = longest_overlap(text, tag) as int;
    let in_bytes = longest_overlap(bytes, code) as int;
    if in_chars > 0 {
        lemma_overlap_bytes(text, tag, in_chars);
    }
    if in_bytes > 0 {
        lemma_overlap_bytes(text, tag, in_bytes);
    }
    if in_chars < in_bytes {
        assert(!overlaps(text, tag, in_bytes));
    }
    if in_bytes < in_chars {
        assert(!overlaps(bytes, code, in_chars));
    }
}

/// Whether every beginning of `tag` that is longer than the longest overlap, and
/// so has to be looked at before it, ends between two characters.
pub open spec fn cuts_cleanly(text: Seq<char>, tag: Seq<char>) -> bool {
    let bytes = encode_utf8(text);
    let code = encode_utf8(tag);
    forall|n: int|
        longest_overlap(bytes, code) < n <= overlap_bound(bytes, code)
            ==> #[trigger] is_char_boundary(code, n)
}

/// An ASCII tag can be cut anywhere.
pub proof fn lemma_ascii_cuts_cleanly(text: Seq<char>, tag: Seq<char>)
    requires
        is_ascii_chars(tag),
    ensures
        cuts_cleanly(text, tag),
{
    let bytes = encode_utf8(text);
    let code = encode_utf8(tag);
    is_ascii_chars_encode_utf8(tag);
    assert forall|n: int|
        longest_overlap(bytes, code) < n <= overlap_bound(
            bytes,
            code,
        ) implies #[trigger] is_char_boundary(code, n) by {
        lemma_ascii_prefix(tag, n);
        lemma_prefix_boundary(tag, n);
    }
}

/// The most bytes at the end of `buffer` that may be the beginning of a `tag`
/// not yet complete. A tag that would have to be cut within a character is left
/// out.
pub fn longest_suffix_prefix_len(buffer: &str, tag: &str) -> (r: usize)
    requires
        cuts_cleanly(buffer@, tag@),
    ensures
        r == longest_overlap(encode_utf8(buffer@), encode_utf8(tag@)),
{
    let text = buffer.as_bytes();
    let code = tag.as_bytes();
    let bound: usize = if code.len() == 0 {
        0
    } else if text.len() <= code.len() - 1 {
        text.len()
    } else {
        code.len() - 1
    };
    let mut n: usize = bound;
    while n > 0
        invariant
            text@ == encode_utf8(buffer@),
            code@ == encode_utf8(tag@),
            n <= bound,
            bound <= text@.len(),
            bound <= code@.len(),
            longest_overlap(text@, code@) == overlap_within(text@, code@, n as nat),
        decreases n,
    {
        let (_, tail) = text.split_at(text.len() - n);
        let (head, _) = code.split_at(n);
        if stands_at(tail, head, 0) {
            assert(tail@.subrange(0, n as int) =~= tail@);
            assert(text@.skip(text@.len() - n) =~= code@.take(n as int));
            return n;
        }
        proof {
            if overlaps(text@, code@, n as int) {
                assert(text@.skip(text@.len() - n) =~= tail@);
                assert(code@.take(n as int) =~= head@);
                assert(tail@.subrange(0, n as int) =~= tail@);
            }
        }
        n = n - 1;
    }
    0
}

/// How many bytes of `buffer` cannot belong to a `tag` that is yet to come.
pub fn safe_drain_len(buffer: &str, tag: &str) -> (r: usize)
    requires
        cuts_cleanly(buffer@, tag@),
    ensures
        r == encode_utf8(buffer@).len() - longest_overlap(
            encode_utf8(buffer@),
            encode_utf8(tag@),
        ),
{
    let keep_len = longest_suffix_prefix_len(buffer, tag);
    proof {
        lemma_overlap_within(
            encode_utf8(buffer@),
            encode_utf8(tag@),
            overlap_bound(encode_utf8(buffer@), encode_utf8(tag@)),
        );
    }
    buffer.as_bytes().len() - keep_len
}

/// Adds a stretch of visible text, unless it is empty.
pub fn push_visible_segment(out: &mut Vec<ThinkSegment>, text: &str)
    ensures
        segments(final(out)@) == segments(old(out)@) + stretch(false, text@),
{
    if !text.is_empty() {
        out.push(ThinkSegment::Visible(text.to_string()));
    }
    assert(segments(out@) =~= segments(old(out)@) + stretch(false, text@));
}

/// Adds a stretch of reasoning, unless it is empty.
pub fn push_reasoning_segment(out: &mut Vec<ThinkSegment>, text: &str)
    ensures
        segments(final(out)@) == segments(old(out)@) + stretch(true, text@),
{
    if !text.is_empty() {
        out.push(ThinkSegment::Reasoning(text.to_string()));
    }
    assert(segments(out@) =~= segments(old(out)@) + stretch(true, text@));
}

/// What is left to read: text that may begin a tag, and whether it is reasoning.
#[verifier::ext_equal]
pub struct ThinkView {
    pub buffer: Seq<char>,
    pub in_think: bool,
}

/// What a parser makes of its buffer: the segments it gives out, and what it
/// keeps. It reads up to the first awaited tag, turns over and goes on behind
/// the tag. Where no tag is left, it keeps what may begin one, or on `flush`
/// nothing.
pub open spec fn drained(state: ThinkView, flush: bool) -> (Seq<SegmentView>, ThinkView)
    decreases state.buffer.len(),
{
    let tag = awaited_tag(state.in_think);
    match first_occurrence(state.buffer, tag) {
        Some(at) => if 0 <= at && at + tag.len() <= state.buffer.len() && tag.len() > 0 {
            let (rest, end) = drained(
                ThinkView {
                    buffer: state.buffer.skip(at + tag.len()),
                    in_think: !state.in_think,
                },
                flush,
            );
            (stretch(state.in_think, state.buffer.take(at)) + rest, end)
        } else {
            (Seq::empty(), state)
        },
        None => {
            let n = if flush {
                state.buffer.len() as int
            } else {
                state.buffer.len() - longest_overlap(state.buffer, tag)
            };
            (
                stretch(state.in_think, state.buffer.take(n)),
                ThinkView { buffer: state.buffer.skip(n), in_think: state.in_think },
            )
        },
    }
}

/// Both tags are plain ASCII and not empty.
pub proof fn lemma_tags()
    ensures
        is_ascii_chars(awaited_tag(true)),
        is_ascii_chars(awaited_tag(false)),
        awaited_tag(false).len() == 7,
        awaited_tag(true).len() == 8,
        awaited_tag(false)[0] == '<',
        awaited_tag(true)[0] == '<',
{
    reveal_strlit("<think>");
    reveal_strlit("</think>");
}

/// A reader of text with `<think>` tags.
#[derive(Debug)]
pub struct ThinkTagParser {
    pub buffer: String,
    pub in_think: bool,
}

impl View for ThinkTagParser {
    type V = ThinkView;

    open spec fn view(&self) -> ThinkView {
        ThinkView { buffer: self.buffer@, in_think: self.in_think }
    }
}

/// A parser that has read nothing.
pub open spec fn fresh_parser() -> ThinkView {
    ThinkView { buffer: Seq::empty(), in_think: false }
}

impl Default for ThinkTagParser {
    fn default() -> (r: Self)
        ensures
            r@ == fresh_parser(),
    {
        ThinkTagParser { buffer: String::new(), in_think: false }
    }
}

/// The parser's state with more text to read.
pub open spec fn fed(state: ThinkView, text: Seq<char>) -> ThinkView {
    ThinkView { buffer: state.buffer + text, in_think: state.in_think }
}

impl ThinkTagParser {
    /// Reads more text, and gives out what is certain by then.
    pub fn push(&mut self, text: &str) -> (r: Vec<ThinkSegment>)
        ensures
            (segments(r@), final(self)@) == drained(fed(old(self)@, text@), false),
    {
        self.buffer.append(text);
        self.drain(false)
    }

    /// Gives out all that is left.
    pub fn finish(&mut self) -> (r: Vec<ThinkSegment>)
        ensures
            (segments(r@), final(self)@) == drained(old(self)@, true),
    {
        self.drain(true)
    }

    /// Gives out the segments of the buffer, all of it on `flush`.
    pub fn drain(&mut self, flush: bool) -> (r: Vec<ThinkSegment>)
        ensures
            (segments(r@), final(self)@) == drained(old(self)@, flush),
    {
        let mut out: Vec<ThinkSegment> = Vec::new();
        let ghost goal = drained(self@, flush);
        assert(segments(out@) + goal.0 =~= goal.0);
        loop
            invariant_except_break
                goal.0 == segments(out@) + drained(self@, flush).0,
                goal.1 == drained(self@, flush).1,
            ensures
                goal == (segments(out@), self@),
            decreases self.buffer@.len(),
        {
            proof {
                lemma_tags();
            }
            let tag: &str = if self.in_think {
                THINK_CLOSE_TAG
            } else {
                THINK_OPEN_TAG
            };
            let ghost before = self@;
            let ghost given = segments(out@);
            let found = find_text(self.buffer.as_str(), tag);
            match found {
                Some(index) => {
                    let ghost at = first_occurrence(before.buffer, tag@)->0;
                    let (text, rest) = split_text(self.buffer.as_str(), index);
                    proof {
                        assert(text@ =~= before.buffer.take(at)) by {
                            lemma_split_at(before.buffer, text@, rest@, at);
                        }
                        assert(rest@ =~= before.buffer.skip(at));
                        assert(rest@.take(tag@.len() as int) =~= tag@);
                        lemma_tag_boundary(rest@, tag@);
                    }
                    let (_, behind) = split_text(rest, tag.as_bytes().len());
                    proof {
                        lemma_behind_tag(rest@, tag@, behind@);
                        assert(behind@ =~= before.buffer.skip(at + tag@.len()));
                    }
                    if self.in_think {
                        push_reasoning_segment(&mut out, text);
                    } else {
                        push_visible_segment(&mut out, text);
                    }
                    let kept = behind.to_string();
                    self.buffer = kept;
                    self.in_think = !self.in_think;
                    proof {
                        let (inner, _) = drained(self@, flush);
                        let piece = stretch(before.in_think, before.buffer.take(at));
                        assert(drained(before, flush).0 == piece + inner);
                        assert(given + (piece + inner) =~= (given + piece) + inner);
                    }
                },
                None => {
                    proof {
                        lemma_ascii_cuts_cleanly(before.buffer, tag@);
                    }
                    let drain_len: usize = if flush {
                        self.buffer.as_str().as_bytes().len()
                    } else {
                        safe_drain_len(self.buffer.as_str(), tag)
                    };
                    let ghost n = if flush {
                        before.buffer.len() as int
                    } else {
                        before.buffer.len() - longest_overlap(before.buffer, tag@)
                    };
                    proof {
                        lemma_longest_overlap_bytes(before.buffer, tag@);
                        lemma_drain_boundary(before.buffer, tag@, n);
                    }
                    if drain_len == 0 {
                        proof {
                            lemma_bytes_at_least(before.buffer.take(n));
                            assert(before.buffer.skip(0) =~= before.buffer);
                            assert(given + Seq::<SegmentView>::empty() =~= given);
                        }
                        break ;
                    }
                    let (text, rest) = split_text(self.buffer.as_str(), drain_len);
                    proof {
                        lemma_split_at(before.buffer, text@, rest@, n);
                    }
                    if self.in_think {
                        push_reasoning_segment(&mut out, text);
                    } else {
                        push_visible_segment(&mut out, text);
                    }
                    let kept = rest.to_string();
                    self.buffer = kept;
                    break ;
                },
            }
        }
        out
    }
}

/// A split whose front has the bytes of a prefix is the split at that prefix.
proof fn lemma_split_at(text: Seq<char>, front: Seq<char>, back: Seq<char>, at: int)
    requires
        front + back == text,
        0 <= at <= text.len(),
        encode_utf8(front).len() == encode_utf8(text.take(at)).len(),
    ensures
        front == text.take(at),
        back == text.skip(at),
{
    let n = front.len() as int;
    assert(text.take(n) =~= front);
    if n < at {
        assert(text.take(at) =~= front + text.subrange(n, at));
        lemma_encode_concat(front, text.subrange(n, at));
        encode_utf8_first_scalar(text.subrange(n, at));
    }
    if at < n {
        assert(front =~= text.take(at) + text.subrange(at, n));
        lemma_encode_concat(text.take(at), text.subrange(at, n));
        encode_utf8_first_scalar(text.subrange(at, n));
    }
    assert(text.skip(n) =~= back);
}

/// The bytes of a prefix end at a character boundary.
proof fn lemma_prefix_boundary(text: Seq<char>, at: int)
    requires
        0 <= at <= text.len(),
    ensures
        is_char_boundary(encode_utf8(text), encode_utf8(text.take(at)).len() as int),
        encode_utf8(text.take(at)).len() <= encode_utf8(text).len(),
    decreases at,
{
    encode_utf8_valid_utf8(text);
    if at > 0 {
        encode_utf8_first_scalar(text);
        let rest = text.drop_first();
        lemma_prefix_boundary(rest, at - 1);
        assert(text.take(at).drop_first() =~= rest.take(at - 1));
        assert(pop_first_scalar(encode_utf8(text)) =~= encode_utf8(rest));
    }
}

proof fn lemma_tag_boundary(text: Seq<char>, tag: Seq<char>)
    requires
        tag.len() <= text.len(),
        text.take(tag.len() as int) == tag,
    ensures
        is_char_boundary(encode_utf8(text), encode_utf8(tag).len() as int),
{
    lemma_prefix_boundary(text, tag.len() as int);
}

proof fn lemma_behind_tag(text: Seq<char>, tag: Seq<char>, behind: Seq<char>)
    requires
        tag.len() <= text.len(),
        text.take(tag.len() as int) == tag,
        encode_utf8(behind) == encode_utf8(text).skip(encode_utf8(tag).len() as int),
    ensures
        behind == text.skip(tag.len() as int),
{
    let rest = text.skip(tag.len() as int);
    assert(text =~= tag + rest);
    lemma_encode_concat(tag, rest);
    assert(encode_utf8(text).skip(encode_utf8(tag).len() as int) =~= encode_utf8(rest));
    crate::text::lemma_encode_injective(behind, rest);
}

/// Where the end of `text` is an overlap with an ASCII tag, it starts at a
/// character boundary.
proof fn lemma_drain_boundary(text: Seq<char>, tag: Seq<char>, n: int)
    requires
        is_ascii_chars(tag),
        n == text.len() || n == text.len() - longest_overlap(text, tag),
    ensures
        0 <= n <= text.len(),
        is_char_boundary(encode_utf8(text), encode_utf8(text.take(n)).len() as int),
        n == text.len() ==> encode_utf8(text.take(n)).len() == encode_utf8(text).len(),
        n == text.len() - longest_overlap(text, tag) ==> encode_utf8(text.take(n)).len()
            == encode_utf8(text).len() - longest_overlap(text, tag),
{
    lemma_overlap_within(text, tag, overlap_bound(text, tag));
    lemma_prefix_boundary(text, n);
    assert(text.take(text.len() as int) =~= text);
    let keep = longest_overlap(text, tag) as int;
    if n == text.len() - keep {
        assert(text =~= text.take(n) + text.skip(n));
        lemma_encode_concat(text.take(n), text.skip(n));
        lemma_ascii_prefix(tag, keep);
        is_ascii_chars_encode_utf8(tag.take(keep));
    }
}

} // verus!
