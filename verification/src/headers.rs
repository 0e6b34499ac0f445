//! The headers of requests and answers.
use http::{HeaderMap, HeaderValue};
use vstd::prelude::*;

verus! {

/// `http::HeaderMap`, declared so that it can stand in signatures and fields.
#[verifier::external_type_specification]
#[verifier::external_body]
#[verifier::reject_recursive_types(T)]
pub struct ExHeaderMap<T>(http::HeaderMap<T>);

/// `http::HeaderValue`, declared so that it can stand in signatures and fields.
#[verifier::external_type_specification]
#[verifier::external_body]
pub struct ExHeaderValue(http::HeaderValue);

/// What headers hold: under each name, in lower case, its values in their order.
pub uninterp spec fn header_values(
    headers: http::HeaderMap<http::HeaderValue>,
) -> Map<Seq<char>, Seq<Seq<u8>>>;

/// The bytes of a header's value.
pub uninterp spec fn header_bytes(value: http::HeaderValue) -> Seq<u8>;

/// Whether a text can stand as the name of a header as it is: small letters,
/// digits and hyphens, and not too many.
pub open spec fn plain_name(name: Seq<char>) -> bool {
    &&& 0 < name.len() <= 64
    &&& forall|i: int|
        0 <= i < name.len() ==> ('a' <= #[trigger] name[i] <= 'z' || '0' <= name[i] <= '9'
            || name[i] == '-')
}

/// Whether a byte can be read as text: a visible ASCII character, a space or a
/// tab.
pub open spec fn visible(b: u8) -> bool {
    32 <= b <= 126 || b == 9
}

/// Whether all bytes can be read as text.
pub open spec fn readable(bytes: Seq<u8>) -> bool {
    forall|i: int| 0 <= i < bytes.len() ==> visible(#[trigger] bytes[i])
}

/// Whether a text can stand as the value of a header as it is.
pub open spec fn plain_value(value: Seq<char>) -> bool {
    forall|i: int| 0 <= i < value.len() ==> ' ' <= #[trigger] value[i] <= '~'
}

/// The characters that ASCII bytes stand for.
pub open spec fn ascii_chars(bytes: Seq<u8>) -> Seq<char> {
    bytes.map_values(|b: u8| b as char)
}

/// The bytes of a text of ASCII characters.
pub open spec fn ascii_bytes(text: Seq<char>) -> Seq<u8> {
    text.map_values(|c: char| c as u8)
}

/// How many names a map of headers is sure to take another one beside.
pub open spec fn room() -> nat {
    6553
}

/// Sets a header to one value: `HeaderMap::try_insert`, with a value made by
/// `HeaderValue::from_static`. All values that stood under the name are gone
/// then, and the other headers stay. The call fails, and changes nothing, where
/// the map cannot grow any more, which it can while it holds few names.
#[verifier::external_body]
pub(crate) fn set_header(
    headers: &mut HeaderMap<HeaderValue>,
    name: &'static str,
    value: &'static str,
) -> (r: bool)
    requires
        plain_name(name@),
        plain_value(value@),
    ensures
        r ==> header_values(*final(headers)) == header_values(*old(headers)).insert(
            name@,
            seq![ascii_bytes(value@)],
        ),
        !r ==> header_values(*final(headers)) == header_values(*old(headers)),
        header_values(*old(headers)).dom().finite(),
        header_values(*old(headers)).dom().len() <= room() ==> r,
{
    headers.try_insert(name, HeaderValue::from_static(value)).is_ok()
}

/// The first value of a header: `HeaderMap::get` with a text.
#[verifier::external_body]
pub(crate) fn get_header<'a>(headers: &'a HeaderMap<HeaderValue>, name: &str) -> (r: Option<
    &'a HeaderValue,
>)
    requires
        plain_name(name@),
    ensures
        match r {
            Some(value) => {
                &&& header_values(*headers).contains_key(name@)
                &&& header_values(*headers)[name@].len() > 0
                &&& header_values(*headers)[name@][0] == header_bytes(*value)
            },
            None => !header_values(*headers).contains_key(name@),
        },
{
    headers.get(name)
}

/// The value of a header as text: `HeaderValue::to_str`, its error dropped. It is
/// there where all bytes are visible ASCII characters, spaces or tabs.
#[verifier::external_body]
pub(crate) fn header_text<'a>(value: &'a HeaderValue) -> (r: Option<&'a str>)
    ensures
        match r {
            Some(text) => {
                &&& readable(header_bytes(*value))
                &&& text@ == ascii_chars(header_bytes(*value))
            },
            None => !readable(header_bytes(*value)),
        },
{
    value.to_str().ok()
}

/// The text of a header: that of its first value, where it has one that can be
/// read as text.
pub open spec fn text_under(
    headers: Map<Seq<char>, Seq<Seq<u8>>>,
    name: Seq<char>,
) -> Option<Seq<char>> {
    if headers.contains_key(name) && readable(headers[name][0]) {
        Some(ascii_chars(headers[name][0]))
    } else {
        None
    }
}

/// The header in which a chat completions service gives the id of a request.
pub const CHAT_REQUEST_ID_HEADER: &'static str = "x-request-id";

/// The header in which an Anthropic service gives the id of a request.
pub const ANTHROPIC_REQUEST_ID_HEADER: &'static str = "request-id";

/// The text of a header.
fn text_of_header(headers: &HeaderMap<HeaderValue>, name: &str) -> (r: Option<String>)
    requires
        plain_name(name@),
    ensures
        crate::text::opt_text(r) == text_under(header_values(*headers), name@),
{
    match get_header(headers, name) {
        Some(value) => match header_text(value) {
            Some(text) => Some(text.to_string()),
            None => None,
        },
        None => None,
    }
}

proof fn lemma_plain_names()
    ensures
        plain_name("x-request-id"@),
        plain_name("request-id"@),
        plain_name("content-type"@),
        plain_name("anthropic-version"@),
        plain_name("accept"@),
        plain_value("application/json"@),
        plain_value("2023-06-01"@),
        plain_value("text/event-stream"@),
{
    reveal_strlit("x-request-id");
    reveal_strlit("request-id");
    reveal_strlit("content-type");
    reveal_strlit("anthropic-version");
    reveal_strlit("accept");
    reveal_strlit("application/json");
    reveal_strlit("2023-06-01");
    reveal_strlit("text/event-stream");
}

/// The id that a chat completions service gave to a request.
pub fn chat_request_id(headers: &HeaderMap<HeaderValue>) -> (r: Option<String>)
    ensures
        crate::text::opt_text(r) == text_under(header_values(*headers), "x-request-id"@),
{
    proof {
        lemma_plain_names();
    }
    text_of_header(headers, CHAT_REQUEST_ID_HEADER)
}

/// The id that an Anthropic service gave to a request.
pub fn anthropic_request_id(headers: &HeaderMap<HeaderValue>) -> (r: Option<String>)
    ensures
        crate::text::opt_text(r) == text_under(header_values(*headers), "request-id"@),
{
    proof {
        lemma_plain_names();
    }
    text_of_header(headers, ANTHROPIC_REQUEST_ID_HEADER)
}

/// Headers with one set to a single value.
pub open spec fn with_header(
    headers: Map<Seq<char>, Seq<Seq<u8>>>,
    name: Seq<char>,
    value: Seq<char>,
) -> Map<Seq<char>, Seq<Seq<u8>>> {
    headers.insert(name, seq![ascii_bytes(value)])
}

/// Headers that ask for an answer as a stream of events.
pub open spec fn accepting_events(headers: Map<Seq<char>, Seq<Seq<u8>>>) -> Map<
    Seq<char>,
    Seq<Seq<u8>>,
> {
    with_header(headers, "accept"@, "text/event-stream"@)
}

/// The headers of a request to an Anthropic service: JSON in a given version of
/// the service, answered as a stream of events. Other headers stay as they are.
pub open spec fn anthropic_headers(headers: Map<Seq<char>, Seq<Seq<u8>>>) -> Map<
    Seq<char>,
    Seq<Seq<u8>>,
> {
    accepting_events(
        with_header(
            with_header(headers, "content-type"@, "application/json"@),
            "anthropic-version"@,
            "2023-06-01"@,
        ),
    )
}

/// Asks for the answer as a stream of events. Only headers of very many names
/// can fail to take this up, and stay as they are.
pub fn accept_event_stream(headers: &mut HeaderMap<HeaderValue>) -> (r: bool)
    ensures
        r ==> header_values(*final(headers)) == accepting_events(header_values(*old(headers))),
        !r ==> header_values(*final(headers)) == header_values(*old(headers)),
        header_values(*old(headers)).dom().len() <= room() ==> r,
{
    proof {
        lemma_plain_names();
    }
    set_header(headers, "accept", "text/event-stream")
}

/// Sets the headers of a request to an Anthropic service. Only headers of very
/// many names can fail to take them up, and nothing comes back then.
pub fn prepare_anthropic_headers(extra_headers: HeaderMap<HeaderValue>) -> (r: Option<
    HeaderMap<HeaderValue>,
>)
    ensures
        match r {
            Some(headers) => header_values(headers) == anthropic_headers(
                header_values(extra_headers),
            ),
            None => header_values(extra_headers).dom().len() + 2 > room(),
        },
{
    proof {
        lemma_plain_names();
    }
    let mut headers = extra_headers;
    if !set_header(&mut headers, "content-type", "application/json") {
        return None;
    }
    if !set_header(&mut headers, "anthropic-version", "2023-06-01") {
        return None;
    }
    if !accept_event_stream(&mut headers) {
        return None;
    }
    Some(headers)
}

} // verus!
