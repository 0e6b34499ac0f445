//! What the headers of requests and answers say.
use vstd::prelude::*;

use crate::headers::{accepting_events, anthropic_headers, readable, text_under};

verus! {

/// Whether a header has one value, and that is this text.
pub open spec fn says(
    headers: Map<Seq<char>, Seq<Seq<u8>>>,
    name: Seq<char>,
    value: Seq<char>,
) -> bool {
    &&& headers.contains_key(name)
    &&& headers[name].len() == 1
    &&& headers[name][0].len() == value.len()
    &&& forall|i: int| 0 <= i < value.len() ==> headers[name][0][i] == #[trigger] value[i] as u8
}

/// Whether a header is the same in two sets of headers.
pub open spec fn same_under(
    before: Map<Seq<char>, Seq<Seq<u8>>>,
    after: Map<Seq<char>, Seq<Seq<u8>>>,
    name: Seq<char>,
) -> bool {
    before.contains_key(name) == after.contains_key(name) && (before.contains_key(name)
        ==> before[name] == after[name])
}

/// A request asks for a stream of events, whatever was asked before, and every
/// other header stays. One to an Anthropic service also says that it is JSON, and
/// for which version of the service it is.
pub proof fn law_what_headers_say(headers: Map<Seq<char>, Seq<Seq<u8>>>)
    ensures
        says(accepting_events(headers), "accept"@, "text/event-stream"@),
        forall|name: Seq<char>|
            name != "accept"@ ==> #[trigger] same_under(headers, accepting_events(headers), name),
        says(anthropic_headers(headers), "accept"@, "text/event-stream"@),
        says(anthropic_headers(headers), "content-type"@, "application/json"@),
        says(anthropic_headers(headers), "anthropic-version"@, "2023-06-01"@),
        forall|name: Seq<char>|
            name != "accept"@ && name != "content-type"@ && name != "anthropic-version"@
                ==> #[trigger] same_under(headers, anthropic_headers(headers), name),
{
    reveal_strlit("accept");
    reveal_strlit("content-type");
    reveal_strlit("anthropic-version");
    assert("accept"@.len() == 6);
    assert("content-type"@.len() == 12);
    assert("anthropic-version"@.len() == 17);
}

/// The text of a header is that of its first value, character by character, where
/// all of that are visible characters, spaces or tabs; else it has none.
pub proof fn law_the_text_of_a_header(headers: Map<Seq<char>, Seq<Seq<u8>>>, name: Seq<char>)
    ensures
        !headers.contains_key(name) ==> text_under(headers, name) is None,
        headers.contains_key(name) && (exists|i: int|
            0 <= i < headers[name][0].len() && {
                let b = #[trigger] headers[name][0][i];
                b != 9 && !(32 <= b <= 126)
            }) ==> text_under(headers, name) is None,
        headers.contains_key(name) && (forall|i: int|
            0 <= i < headers[name][0].len() ==> {
                let b = #[trigger] headers[name][0][i];
                b == 9 || 32 <= b <= 126
            }) ==> {
            &&& text_under(headers, name) matches Some(text)
            &&& text.len() == headers[name][0].len()
            &&& forall|i: int|
                0 <= i < text.len() ==> #[trigger] text[i] == headers[name][0][i] as char
        },
{
    assert(readable(headers[name][0]) || !readable(headers[name][0]));
}

} // verus!
