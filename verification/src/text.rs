//! Text as sequences of characters: comparison, search, trimming and decimal
//! numbers, each with a contract over the characters of its arguments.
use vstd::prelude::*;
use vstd::string::*;
use vstd::utf8::*;

verus! {

/// Encoding distributes over concatenation.
pub proof fn lemma_encode_concat(a: Seq<char>, b: Seq<char>)
    ensures
        encode_utf8(a + b) == encode_utf8(a) + encode_utf8(b),
    decreases a.len(),
{
    if a.len() == 0 {
        assert(a + b =~= b);
        assert(encode_utf8(a) + encode_utf8(b) =~= encode_utf8(b));
    } else {
        assert((a + b).drop_first() =~= a.drop_first() + b);
        lemma_encode_concat(a.drop_first(), b);
        assert(encode_utf8(a + b) =~= encode_utf8(a) + encode_utf8(b));
    }
}

/// Two texts with one encoding are the same text.
pub proof fn lemma_encode_injective(a: Seq<char>, b: Seq<char>)
    requires
        encode_utf8(a) == encode_utf8(b),
    ensures
        a == b,
{
    encode_utf8_decode_utf8(a);
    encode_utf8_decode_utf8(b);
}

/// Valid bytes that begin with the encoding of `pat` decode to `pat` followed
/// by what the bytes behind it decode to.
proof fn lemma_decode_prefix(bytes: Seq<u8>, pat: Seq<char>)
    requires
        valid_utf8(bytes),
        encode_utf8(pat).len() <= bytes.len(),
        bytes.take(encode_utf8(pat).len() as int) == encode_utf8(pat),
    ensures
        valid_utf8(bytes.skip(encode_utf8(pat).len() as int)),
        decode_utf8(bytes) == pat + decode_utf8(bytes.skip(encode_utf8(pat).len() as int)),
    decreases pat.len(),
{
    let code = encode_utf8(pat);
    if pat.len() == 0 {
        assert(bytes.skip(0) =~= bytes);
        assert(pat + decode_utf8(bytes) =~= decode_utf8(bytes));
    } else {
        encode_utf8_first_scalar(pat);
        encode_utf8_valid_utf8(pat);
        let head = encode_scalar(pat[0] as u32);
        let rest = pop_first_scalar(bytes);
        assert forall|i: int| 0 <= i < code.len() implies bytes[i] == code[i] by {
            assert(bytes.take(code.len() as int)[i] == code[i]);
        }
        assert(length_of_first_scalar(bytes) == head.len());
        assert(decode_first_scalar(bytes) == decode_first_scalar(code));
        char_u32_cast(pat[0], decode_first_scalar(bytes));
        let inner = encode_utf8(pat.drop_first());
        assert(rest =~= bytes.skip(head.len() as int));
        assert(rest.take(inner.len() as int) =~= inner);
        lemma_decode_prefix(rest, pat.drop_first());
        assert(rest.skip(inner.len() as int) =~= bytes.skip(code.len() as int));
        assert(decode_utf8(bytes) =~= pat + decode_utf8(bytes.skip(code.len() as int)));
    }
}

/// Whether `pat` stands in `text` from position `at` on.
pub open spec fn occurs_at(text: Seq<char>, pat: Seq<char>, at: int) -> bool {
    &&& 0 <= at
    &&& at + pat.len() <= text.len()
    &&& text.subrange(at, at + pat.len()) == pat
}

/// Whether `at` is the first position at which `pat` stands in `text`.
pub open spec fn first_at(text: Seq<char>, pat: Seq<char>, at: int) -> bool {
    &&& occurs_at(text, pat, at)
    &&& forall|k: int| 0 <= k < at ==> !occurs_at(text, pat, k)
}

/// The first position at which `pat` stands in `text`, if there is one.
pub open spec fn first_occurrence(text: Seq<char>, pat: Seq<char>) -> Option<int> {
    if exists|at: int| first_at(text, pat, at) {
        Some(choose|at: int| first_at(text, pat, at))
    } else {
        None
    }
}

pub proof fn lemma_first_occurrence_at(text: Seq<char>, pat: Seq<char>, at: int)
    requires
        first_at(text, pat, at),
    ensures
        first_occurrence(text, pat) == Some(at),
{
    let other = choose|k: int| first_at(text, pat, k);
    assert(first_at(text, pat, other));
    if other < at {
        assert(!occurs_at(text, pat, other));
    }
    if at < other {
        assert(!occurs_at(text, pat, at));
    }
}

/// Where `pat` stands anywhere in `text`, it stands somewhere first.
pub proof fn lemma_first_occurrence_exists(text: Seq<char>, pat: Seq<char>, at: int)
    requires
        occurs_at(text, pat, at),
    ensures
        first_occurrence(text, pat) is Some,
        first_at(text, pat, first_occurrence(text, pat)->0),
        first_occurrence(text, pat)->0 <= at,
    decreases at,
{
    if forall|k: int| 0 <= k < at ==> !occurs_at(text, pat, k) {
        assert(first_at(text, pat, at));
        lemma_first_occurrence_at(text, pat, at);
    } else {
        let k = choose|k: int| 0 <= k < at && occurs_at(text, pat, k);
        lemma_first_occurrence_exists(text, pat, k);
    }
}

/// Compares two slices of bytes.
fn bytes_eq(a: &[u8], b: &[u8]) -> (r: bool)
    ensures
        r == (a@ == b@),
{
    if a.len() != b.len() {
        return false;
    }
    let mut i: usize = 0;
    while i < a.len()
        invariant
            a@.len() == b@.len(),
            i <= a@.len(),
            forall|k: int| 0 <= k < i ==> a@[k] == b@[k],
        decreases a@.len() - i,
    {
        if a[i] != b[i] {
            return false;
        }
        i = i + 1;
    }
    assert(a@ =~= b@);
    true
}

/// Compares two texts.
pub fn str_eq(a: &str, b: &str) -> (r: bool)
    ensures
        r == (a@ == b@),
{
    let r = bytes_eq(a.as_bytes(), b.as_bytes());
    proof {
        if r {
            lemma_encode_injective(a@, b@);
        }
    }
    r
}

/// Whether the bytes of `pat` stand in `text` from byte `at` on.
pub open spec fn bytes_at(text: Seq<u8>, pat: Seq<u8>, at: int) -> bool {
    &&& 0 <= at
    &&& at + pat.len() <= text.len()
    &&& text.subrange(at, at + pat.len()) == pat
}

/// Tests whether `pat` stands in `text` from byte `at` on.
pub fn stands_at(text: &[u8], pat: &[u8], at: usize) -> (r: bool)
    ensures
        r == bytes_at(text@, pat@, at as int),
{
    if at > text.len() || pat.len() > text.len() - at {
        return false;
    }
    let mut i: usize = 0;
    while i < pat.len()
        invariant
            at + pat@.len() <= text.len(),
            i <= pat@.len(),
            forall|k: int| 0 <= k < i ==> text@[at + k] == pat@[k],
        decreases pat@.len() - i,
    {
        if text[at + i] != pat[i] {
            assert(text@.subrange(at as int, at + pat@.len())[i as int] != pat@[i as int]);
            return false;
        }
        i = i + 1;
    }
    assert(text@.subrange(at as int, at + pat@.len()) =~= pat@);
    true
}

/// A character occurrence is a byte occurrence.
proof fn lemma_occurrence_bytes(text: Seq<char>, pat: Seq<char>, at: int)
    requires
        occurs_at(text, pat, at),
    ensures
        bytes_at(encode_utf8(text), encode_utf8(pat), encode_utf8(text.take(at)).len() as int),
{
    let behind = text.skip(at + pat.len());
    assert(text =~= text.take(at) + (pat + behind));
    lemma_encode_concat(text.take(at), pat + behind);
    lemma_encode_concat(pat, behind);
    let n = encode_utf8(text.take(at)).len() as int;
    assert(encode_utf8(text).subrange(n, n + encode_utf8(pat).len()) =~= encode_utf8(pat));
}

/// A byte occurrence of a text is a character occurrence of it.
pub(crate) proof fn lemma_bytes_occurrence(text: Seq<char>, pat: Seq<char>, at: int) -> (k: int)
    requires
        bytes_at(encode_utf8(text), encode_utf8(pat), at),
        pat.len() > 0,
    ensures
        occurs_at(text, pat, k),
        encode_utf8(text.take(k)).len() == at,
        is_char_boundary(encode_utf8(text), at),
{
    let bytes = encode_utf8(text);
    let code = encode_utf8(pat);
    encode_utf8_valid_utf8(text);
    encode_utf8_valid_utf8(pat);
    encode_utf8_first_scalar(pat);
    assert(code.len() > 0);
    assert(bytes[at] == bytes.subrange(at, at + code.len())[0]);
    is_char_boundary_start_end_of_seq(code);
    is_char_boundary_iff_not_is_continuation_byte(code, 0);
    is_char_boundary_iff_not_is_continuation_byte(bytes, at);
    valid_utf8_split(bytes, at);
    decode_utf8_split(bytes, at);
    encode_utf8_decode_utf8(text);
    let front = bytes.subrange(0, at);
    let back = bytes.subrange(at, bytes.len() as int);
    assert(back.take(code.len() as int) =~= code);
    lemma_decode_prefix(back, pat);
    let k = decode_utf8(front).len() as int;
    assert(text =~= decode_utf8(front) + (pat + decode_utf8(back.skip(code.len() as int))));
    assert(text.take(k) =~= decode_utf8(front));
    assert(text.subrange(k, k + pat.len()) =~= pat);
    decode_utf8_encode_utf8(front);
    k
}

/// Encoded prefixes grow with the prefix.
proof fn lemma_prefix_bytes_monotone(text: Seq<char>, i: int, j: int)
    requires
        0 <= i < j <= text.len(),
    ensures
        encode_utf8(text.take(i)).len() < encode_utf8(text.take(j)).len(),
{
    assert(text.take(j) =~= text.take(i) + text.subrange(i, j));
    lemma_encode_concat(text.take(i), text.subrange(i, j));
    assert(text.subrange(i, j).len() > 0);
    encode_utf8_first_scalar(text.subrange(i, j));
}

/// Finds the byte at which the first occurrence of `pat` in `text` begins.
pub fn find_text(text: &str, pat: &str) -> (r: Option<usize>)
    requires
        pat@.len() > 0,
    ensures
        r is None <==> first_occurrence(text@, pat@) is None,
        r matches Some(at) ==> {
            let k = first_occurrence(text@, pat@)->0;
            &&& first_at(text@, pat@, k)
            &&& at == encode_utf8(text@.take(k)).len()
            &&& is_char_boundary(encode_utf8(text@), at as int)
            &&& at + encode_utf8(pat@).len() <= encode_utf8(text@).len()
        },
{
    let text_bytes = text.as_bytes();
    let pat_bytes = pat.as_bytes();
    let mut at: usize = 0;
    while at < text_bytes.len()
        invariant
            text_bytes@ == encode_utf8(text@),
            pat_bytes@ == encode_utf8(pat@),
            pat@.len() > 0,
            at <= text_bytes@.len(),
            forall|k: int| 0 <= k < at ==> !bytes_at(text_bytes@, pat_bytes@, k),
        decreases text_bytes@.len() - at,
    {
        if stands_at(text_bytes, pat_bytes, at) {
            proof {
                let k = lemma_bytes_occurrence(text@, pat@, at as int);
                assert forall|j: int| 0 <= j < k implies !occurs_at(text@, pat@, j) by {
                    if occurs_at(text@, pat@, j) {
                        lemma_occurrence_bytes(text@, pat@, j);
                        lemma_prefix_bytes_monotone(text@, j, k);
                    }
                }
                lemma_first_occurrence_at(text@, pat@, k);
            }
            return Some(at);
        }
        at = at + 1;
    }
    proof {
        encode_utf8_first_scalar(pat@);
        if first_occurrence(text@, pat@) is Some {
            let k = choose|k: int| first_at(text@, pat@, k);
            assert(first_at(text@, pat@, k));
            lemma_occurrence_bytes(text@, pat@, k);
        }
    }
    None
}

/// Splits a text at a character boundary.
pub fn split_text(text: &str, mid: usize) -> (r: (&str, &str))
    requires
        is_char_boundary(encode_utf8(text@), mid as int),
    ensures
        r.0@ + r.1@ == text@,
        encode_utf8(r.0@) == encode_utf8(text@).take(mid as int),
        encode_utf8(r.1@) == encode_utf8(text@).skip(mid as int),
{
    let r = text.split_at(mid);
    proof {
        encode_utf8_valid_utf8(text@);
        decode_utf8_split(encode_utf8(text@), mid as int);
        encode_utf8_decode_utf8(text@);
        encode_utf8_decode_utf8(r.0@);
        encode_utf8_decode_utf8(r.1@);
    }
    r
}

/// The characters with the Unicode property White_Space.
pub open spec fn is_white_space(c: char) -> bool {
    ||| '\u{9}' <= c <= '\u{d}'
    ||| c == '\u{20}'
    ||| c == '\u{85}'
    ||| c == '\u{a0}'
    ||| c == '\u{1680}'
    ||| '\u{2000}' <= c <= '\u{200a}'
    ||| c == '\u{2028}'
    ||| c == '\u{2029}'
    ||| c == '\u{202f}'
    ||| c == '\u{205f}'
    ||| c == '\u{3000}'
}

/// Tests a character for the property White_Space.
pub fn char_is_white_space(c: char) -> (r: bool)
    ensures
        r == is_white_space(c),
{
    ('\u{9}' <= c && c <= '\u{d}') || c == '\u{20}' || c == '\u{85}' || c == '\u{a0}' || c
        == '\u{1680}' || ('\u{2000}' <= c && c <= '\u{200a}') || c == '\u{2028}' || c
        == '\u{2029}' || c == '\u{202f}' || c == '\u{205f}' || c == '\u{3000}'
}

/// The text without the white space at its front.
pub open spec fn trimmed_front(text: Seq<char>) -> Seq<char>
    decreases text.len(),
{
    if text.len() > 0 && is_white_space(text[0]) {
        trimmed_front(text.skip(1))
    } else {
        text
    }
}

/// The text without the white space at its back.
pub open spec fn trimmed_back(text: Seq<char>) -> Seq<char>
    decreases text.len(),
{
    if text.len() > 0 && is_white_space(text.last()) {
        trimmed_back(text.drop_last())
    } else {
        text
    }
}

/// The text without the white space around it.
pub open spec fn trimmed(text: Seq<char>) -> Seq<char> {
    trimmed_back(trimmed_front(text))
}

/// The characters of a text.
pub fn chars_of(text: &str) -> (r: Vec<char>)
    ensures
        r@ == text@,
{
    let mut out: Vec<char> = Vec::new();
    for c in it: text.chars()
        invariant
            out@ == text@.take(it.index()),
            it.seq() == text@,
    {
        out.push(c);
    }
    out
}

/// Tests whether a text, taken without the white space around it, is `word`.
pub fn trims_to(text: &str, word: &str) -> (r: bool)
    ensures
        r == (trimmed(text@) == word@),
{
    let chars = chars_of(text);
    let wanted = chars_of(word);
    let mut from: usize = 0;
    assert(text@.skip(0) =~= text@);
    while from < chars.len() && char_is_white_space(chars[from])
        invariant
            chars@ == text@,
            from <= chars@.len(),
            trimmed_front(text@) == trimmed_front(text@.skip(from as int)),
        decreases chars@.len() - from,
    {
        assert(text@.skip(from as int).skip(1) =~= text@.skip(from + 1));
        from = from + 1;
    }
    let mut to: usize = chars.len();
    while to > from && char_is_white_space(chars[to - 1])
        invariant
            chars@ == text@,
            from <= to <= chars@.len(),
            trimmed(text@) == trimmed_back(text@.subrange(from as int, to as int)),
        decreases to,
    {
        assert(text@.subrange(from as int, to as int).drop_last() =~= text@.subrange(
            from as int,
            to - 1,
        ));
        to = to - 1;
    }
    if to - from != wanted.len() {
        return false;
    }
    let ghost kept = text@.subrange(from as int, to as int);
    let mut i: usize = 0;
    while i < wanted.len()
        invariant
            chars@ == text@,
            wanted@ == word@,
            from <= to <= chars@.len(),
            kept == text@.subrange(from as int, to as int),
            kept.len() == wanted.len(),
            i <= wanted@.len(),
            trimmed(text@) == kept,
            forall|k: int| 0 <= k < i ==> kept[k] == wanted@[k],
        decreases wanted@.len() - i,
    {
        if chars[from + i] != wanted[i] {
            assert(kept[i as int] != wanted@[i as int]);
            return false;
        }
        i = i + 1;
    }
    assert(kept =~= word@);
    true
}

/// The character of a digit.
pub open spec fn digit_char(d: nat) -> char {
    (48 + d) as char
}

/// The decimal digits of a number, the most significant one first.
pub open spec fn decimal(n: nat) -> Seq<char>
    decreases n,
{
    if n < 10 {
        seq![digit_char(n)]
    } else {
        decimal(n / 10).push(digit_char(n % 10))
    }
}

/// The text of one digit.
fn digit_text(d: usize) -> (r: &'static str)
    requires
        d < 10,
    ensures
        r@ == seq![digit_char(d as nat)],
{
    proof {
        reveal_strlit("0");
        reveal_strlit("1");
        reveal_strlit("2");
        reveal_strlit("3");
        reveal_strlit("4");
        reveal_strlit("5");
        reveal_strlit("6");
        reveal_strlit("7");
        reveal_strlit("8");
        reveal_strlit("9");
    }
    let r = match d {
        0 => "0",
        1 => "1",
        2 => "2",
        3 => "3",
        4 => "4",
        5 => "5",
        6 => "6",
        7 => "7",
        8 => "8",
        _ => "9",
    };
    assert(r@ =~= seq![digit_char(d as nat)]);
    r
}

/// Writes a number in decimal digits.
pub fn decimal_text(n: usize) -> (r: String)
    ensures
        r@ == decimal(n as nat),
    decreases n,
{
    if n < 10 {
        digit_text(n).to_string()
    } else {
        let mut r = decimal_text(n / 10);
        r.append(digit_text(n % 10));
        assert(r@ =~= decimal(n as nat));
        r
    }
}

/// Different numbers have different digits.
pub proof fn lemma_decimal_injective(a: nat, b: nat)
    requires
        decimal(a) == decimal(b),
    ensures
        a == b,
    decreases a,
{
    assert(decimal(a).last() == digit_char(a % 10));
    assert(decimal(b).last() == digit_char(b % 10));
    assert(decimal(a).len() >= 1 && decimal(b).len() >= 1);
    if a >= 10 && b >= 10 {
        assert(decimal(a).drop_last() =~= decimal(a / 10));
        assert(decimal(b).drop_last() =~= decimal(b / 10));
        lemma_decimal_injective(a / 10, b / 10);
    } else if a >= 10 {
        lemma_decimal_nonempty(a / 10);
    } else if b >= 10 {
        lemma_decimal_nonempty(b / 10);
    }
}

proof fn lemma_decimal_nonempty(n: nat)
    ensures
        decimal(n).len() >= 1,
{
}

/// The texts one after another, with `sep` between each two.
pub open spec fn joined(parts: Seq<Seq<char>>, sep: Seq<char>) -> Seq<char>
    decreases parts.len(),
{
    if parts.len() == 0 {
        Seq::empty()
    } else if parts.len() == 1 {
        parts[0]
    } else {
        joined(parts.drop_last(), sep) + sep + parts.last()
    }
}

/// The characters of each of several texts.
pub open spec fn texts(parts: Seq<String>) -> Seq<Seq<char>> {
    parts.map_values(|s: String| s@)
}

/// Joins texts, with `sep` between each two.
pub fn join_texts(parts: &Vec<String>, sep: &str) -> (r: String)
    ensures
        r@ == joined(texts(parts@), sep@),
{
    let mut out = String::new();
    let mut i: usize = 0;
    while i < parts.len()
        invariant
            i <= parts@.len(),
            out@ == joined(texts(parts@).take(i as int), sep@),
        decreases parts@.len() - i,
    {
        let ghost before = texts(parts@).take(i as int);
        let ghost after = texts(parts@).take(i + 1);
        assert(after.drop_last() =~= before);
        if i > 0 {
            out.append(sep);
        }
        out.append(parts[i].as_str());
        i = i + 1;
        assert(out@ =~= joined(after, sep@));
    }
    assert(texts(parts@).take(parts@.len() as int) =~= texts(parts@));
    out
}

/// The texts one after another.
pub open spec fn concatenated(parts: Seq<Seq<char>>) -> Seq<char>
    decreases parts.len(),
{
    if parts.len() == 0 {
        Seq::empty()
    } else {
        concatenated(parts.drop_last()) + parts.last()
    }
}

/// An optional text's characters.
pub open spec fn opt_text(text: Option<String>) -> Option<Seq<char>> {
    match text {
        Some(s) => Some(s@),
        None => None,
    }
}

/// Copies an optional text.
pub fn clone_opt_text(text: &Option<String>) -> (r: Option<String>)
    ensures
        opt_text(r) == opt_text(*text),
{
    match text {
        Some(s) => Some(s.clone()),
        None => None,
    }
}

/// Three texts in a row.
pub fn concat3(a: &str, b: &str, c: &str) -> (r: String)
    ensures
        r@ == a@ + b@ + c@,
{
    let mut out = a.to_string();
    out.append(b);
    out.append(c);
    out
}

} // verus!
