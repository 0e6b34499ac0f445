//! How texts are put together, and how numbers are written.
use vstd::prelude::*;

use crate::text::{concatenated, decimal, is_white_space, joined};

verus! {

/// Texts one after another: of none there is nothing, of one there is that one,
/// and two rows of texts stand behind one another as the texts in them do.
pub proof fn law_concatenated_texts_add_up(
    a: Seq<Seq<char>>,
    b: Seq<Seq<char>>,
    text: Seq<char>,
)
    ensures
        concatenated(Seq::empty()) == Seq::<char>::empty(),
        concatenated(seq![text]) == text,
        concatenated(a + b) == concatenated(a) + concatenated(b),
    decreases b.len(),
{
    let one = seq![text];
    assert(one.drop_last() =~= Seq::empty());
    assert(concatenated(one.drop_last()) =~= Seq::empty());
    assert(one.last() == text);
    assert(concatenated(one) =~= text);
    if b.len() == 0 {
        assert(a + b =~= a);
        assert(concatenated(a) + concatenated(b) =~= concatenated(a));
    } else {
        law_concatenated_texts_add_up(a, b.drop_last(), text);
        assert((a + b).drop_last() =~= a + b.drop_last());
        assert(concatenated(a + b) =~= concatenated(a) + concatenated(b));
    }
}

/// Joined texts: of none there is nothing, of one there is that one, and between
/// two rows of texts stands what stands between two texts, once.
pub proof fn law_joined_texts_add_up(
    a: Seq<Seq<char>>,
    b: Seq<Seq<char>>,
    text: Seq<char>,
    sep: Seq<char>,
)
    requires
        a.len() > 0,
        b.len() > 0,
    ensures
        joined(Seq::empty(), sep) == Seq::<char>::empty(),
        joined(seq![text], sep) == text,
        joined(a + b, sep) == joined(a, sep) + sep + joined(b, sep),
    decreases b.len(),
{
    let front = b.drop_last();
    assert((a + b).drop_last() =~= a + front);
    assert((a + b).last() == b.last());
    if b.len() == 1 {
        assert(a + front =~= a);
    } else {
        law_joined_texts_add_up(a, front, text, sep);
        assert(joined(a + b, sep) =~= joined(a, sep) + sep + joined(b, sep));
    }
}

/// The number that digits stand for.
pub open spec fn number_of(digits: Seq<char>) -> nat
    decreases digits.len(),
{
    if digits.len() == 0 {
        0
    } else {
        10 * number_of(digits.drop_last()) + (digits.last() as nat - '0' as nat) as nat
    }
}

/// A number is written with the digits that stand for it, and without a zero in
/// front of them.
pub proof fn law_a_number_is_written_out(n: nat)
    ensures
        decimal(n).len() > 0,
        number_of(decimal(n)) == n,
        forall|i: int|
            0 <= i < decimal(n).len() ==> '0' as nat <= #[trigger] decimal(n)[i] as nat
                <= '9' as nat,
        n > 0 ==> decimal(n)[0] != '0',
    decreases n,
{
    if n < 10 {
        assert(decimal(n).drop_last() =~= Seq::empty());
        assert(number_of(Seq::empty()) == 0);
    } else {
        let front = decimal(n / 10);
        law_a_number_is_written_out(n / 10);
        assert(decimal(n).drop_last() =~= front);
        assert forall|i: int| 0 <= i < decimal(n).len() implies '0' as nat <= #[trigger] decimal(
            n,
        )[i] as nat <= '9' as nat by {
            if i < front.len() {
                assert(decimal(n)[i] == front[i]);
            }
        }
        assert(decimal(n)[0] == front[0]);
    }
}

/// White space is what Unicode calls so: the controls from the tab to the carriage
/// return, the space, the next line, and the spaces and separators beyond ASCII.
pub proof fn law_white_space_is_that_of_unicode(c: char)
    ensures
        ({
            let code = c as u32;
            is_white_space(c) == (9 <= code <= 13 || code == 32 || code == 133 || code == 160
                || code == 5760 || 8192 <= code <= 8202 || code == 8232 || code == 8233 || code
                == 8239 || code == 8287 || code == 12288)
        }),
{
}

} // verus!
