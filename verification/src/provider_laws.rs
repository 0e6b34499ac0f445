//! What conversations and tools keep in the terms of other providers.
use vstd::prelude::*;

use crate::chat_request_laws::{has_just, is_text, piece_text};
use crate::endpoint::{ChatCallView, ChatMessageView, ContentBlockView};
use crate::json::{parsed_json, Json};
use crate::protocol::{ContentView, ItemView};
use crate::providers::{
    anthropic_message_of, anthropic_messages_of, anthropic_tool_of, anthropic_tools_of,
    chat_message_of, chat_messages_of, chat_tool_of, chat_tools_of, empty_schema, first_of,
    message_texts, text_blocks,
};
use crate::text::joined;

verus! {

/// A conversation is converted item by item: one that goes on becomes the
/// messages it was, and those of what follows.
pub proof fn law_chat_messages_go_on(before: Seq<ItemView>, after: Seq<ItemView>)
    ensures
        chat_messages_of(before + after) == chat_messages_of(before) + chat_messages_of(after),
    decreases after.len(),
{
    if after.len() == 0 {
        assert(before + after =~= before);
        assert(chat_messages_of(before) + chat_messages_of(after) =~= chat_messages_of(before));
    } else {
        law_chat_messages_go_on(before, after.drop_last());
        assert((before + after).drop_last() =~= before + after.drop_last());
        assert(chat_messages_of(before + after) =~= chat_messages_of(before) + chat_messages_of(
            after,
        ));
    }
}

/// The same in Anthropic terms.
pub proof fn law_anthropic_messages_go_on(before: Seq<ItemView>, after: Seq<ItemView>)
    ensures
        anthropic_messages_of(before + after) == anthropic_messages_of(before)
            + anthropic_messages_of(after),
    decreases after.len(),
{
    if after.len() == 0 {
        assert(before + after =~= before);
        assert(anthropic_messages_of(before) + anthropic_messages_of(after)
            =~= anthropic_messages_of(before));
    } else {
        law_anthropic_messages_go_on(before, after.drop_last());
        assert((before + after).drop_last() =~= before + after.drop_last());
        assert(anthropic_messages_of(before + after) =~= anthropic_messages_of(before)
            + anthropic_messages_of(after));
    }
}

/// In Anthropic terms every message is of the user or of the model, and none is
/// empty.
pub proof fn law_no_anthropic_message_is_empty(items: Seq<ItemView>)
    ensures
        forall|i: int|
            0 <= i < anthropic_messages_of(items).len() ==> {
                let message = #[trigger] anthropic_messages_of(items)[i];
                message.content.len() > 0 && (message.role == "user"@ || message.role
                    == "assistant"@)
            },
    decreases items.len(),
{
    if items.len() > 0 {
        let front = anthropic_messages_of(items.drop_last());
        law_no_anthropic_message_is_empty(items.drop_last());
        assert forall|i: int| 0 <= i < anthropic_messages_of(items).len() implies {
            let message = #[trigger] anthropic_messages_of(items)[i];
            message.content.len() > 0 && (message.role == "user"@ || message.role == "assistant"@)
        } by {
            if i < front.len() {
                assert(anthropic_messages_of(items)[i] == front[i]);
            }
        }
    }
}

/// In chat terms every message says something or calls a function.
pub proof fn law_no_chat_message_is_empty(items: Seq<ItemView>)
    ensures
        forall|i: int|
            0 <= i < chat_messages_of(items).len() ==> {
                let message = #[trigger] chat_messages_of(items)[i];
                message.content.len() > 0 || message.tool_calls is Some
            },
    decreases items.len(),
{
    reveal_strlit(": ");
    if items.len() > 0 {
        let front = chat_messages_of(items.drop_last());
        law_no_chat_message_is_empty(items.drop_last());
        assert forall|i: int| 0 <= i < chat_messages_of(items).len() implies {
            let message = #[trigger] chat_messages_of(items)[i];
            message.content.len() > 0 || message.tool_calls is Some
        } by {
            if i < front.len() {
                assert(chat_messages_of(items)[i] == front[i]);
            }
        }
    }
}

/// Tools that are in chat terms stay as they are, so converting them once more
/// changes nothing.
pub proof fn law_chat_tools_stay(tools: Seq<Json>)
    ensures
        chat_tools_of(chat_tools_of(tools)) == chat_tools_of(tools),
    decreases tools.len(),
{
    if tools.len() > 0 {
        let before = chat_tools_of(tools.drop_last());
        law_chat_tools_stay(tools.drop_last());
        if let Some(tool) = chat_tool_of(tools.last()) {
            assert(before.push(tool).drop_last() =~= before);
            assert(tool.has("function"@));
        }
    }
}

/// How many pieces of a message are texts, whoever wrote them.
pub open spec fn text_count(content: Seq<ContentView>) -> nat
    decreases content.len(),
{
    if content.len() == 0 {
        0
    } else {
        text_count(content.drop_last()) + if content.last() is InputImage {
            0nat
        } else {
            1nat
        }
    }
}

/// Whether texts are those of a message, at the places where they stand in it: all
/// of its pieces but the images, in their order.
pub open spec fn texts_stand(
    places: Seq<int>,
    texts: Seq<Seq<char>>,
    content: Seq<ContentView>,
) -> bool {
    &&& places.len() == texts.len()
    &&& texts.len() == text_count(content)
    &&& forall|i: int|
        0 <= i < places.len() ==> {
            &&& 0 <= #[trigger] places[i] < content.len()
            &&& !(content[places[i]] is InputImage)
            &&& texts[i] == piece_text(content[places[i]])
        }
    &&& forall|i: int, j: int|
        0 <= i < j < places.len() ==> #[trigger] places[i] < #[trigger] places[j]
    &&& forall|k: int|
        0 <= k < content.len() && !(#[trigger] content[k] is InputImage) ==> places.contains(k)
}

/// Whether texts are those of a message: all of its pieces but the images, in
/// their order.
pub open spec fn texts_of_message(texts: Seq<Seq<char>>, content: Seq<ContentView>) -> bool {
    exists|places: Seq<int>| #[trigger] texts_stand(places, texts, content)
}

proof fn lemma_texts_stand(content: Seq<ContentView>) -> (places: Seq<int>)
    ensures
        texts_stand(places, message_texts(content), content),
    decreases content.len(),
{
    if content.len() == 0 {
        Seq::empty()
    } else {
        let front = content.drop_last();
        let at = front.len() as int;
        let before = lemma_texts_stand(front);
        let places = if content.last() is InputImage {
            before
        } else {
            before.push(at)
        };
        let texts = message_texts(content);
        assert forall|i: int| 0 <= i < places.len() implies {
            &&& 0 <= #[trigger] places[i] < content.len()
            &&& !(content[places[i]] is InputImage)
            &&& texts[i] == piece_text(content[places[i]])
        } by {
            if i < before.len() {
                assert(places[i] == before[i]);
                assert(content[before[i]] == front[before[i]]);
            }
        }
        assert forall|i: int, j: int| 0 <= i < j < places.len() implies #[trigger] places[i]
            < #[trigger] places[j] by {
            assert(places[i] == before[i]);
            if j < before.len() {
                assert(places[j] == before[j]);
            }
        }
        assert forall|k: int|
            0 <= k < content.len() && !(#[trigger] content[k] is InputImage) implies
            places.contains(k) by {
            if k < at {
                assert(front[k] == content[k]);
                assert(before.contains(k));
                let i = choose|i: int| 0 <= i < before.len() && before[i] == k;
                assert(places[i] == k);
            } else {
                assert(places[before.len() as int] == k);
            }
        }
        places
    }
}

/// Texts of which one holds something hold something when they are joined.
proof fn lemma_joined_holds(texts: Seq<Seq<char>>, sep: Seq<char>, i: int)
    requires
        0 <= i < texts.len(),
        texts[i].len() > 0,
    ensures
        joined(texts, sep).len() > 0,
    decreases texts.len(),
{
    if texts.len() > 1 && i < texts.len() - 1 {
        assert(texts.drop_last()[i] == texts[i]);
        lemma_joined_holds(texts.drop_last(), sep, i);
    }
}

proof fn lemma_one_chat_message(item: ItemView)
    ensures
        chat_messages_of(seq![item]) == match chat_message_of(item) {
            Some(message) => seq![message],
            None => Seq::empty(),
        },
{
    assert(seq![item].drop_last() =~= Seq::empty());
    assert(chat_messages_of(Seq::empty()) =~= Seq::empty());
    if let Some(message) = chat_message_of(item) {
        assert(chat_messages_of(seq![item]) =~= seq![message]);
    }
}

proof fn lemma_one_anthropic_message(item: ItemView)
    ensures
        anthropic_messages_of(seq![item]) == match anthropic_message_of(item) {
            Some(message) => seq![message],
            None => Seq::empty(),
        },
{
    assert(seq![item].drop_last() =~= Seq::empty());
    assert(anthropic_messages_of(Seq::empty()) =~= Seq::empty());
    if let Some(message) = anthropic_message_of(item) {
        assert(anthropic_messages_of(seq![item]) =~= seq![message]);
    }
}

/// Whether messages in chat terms are what a message becomes: one of its role, with
/// all texts among its pieces, a new line between each two; or none where that is
/// no text at all.
pub open spec fn told_in_chat(
    sent: Seq<ChatMessageView>,
    role: Seq<char>,
    texts: Seq<Seq<char>>,
) -> bool {
    if joined(texts, "\n"@).len() == 0 {
        sent.len() == 0
    } else {
        &&& sent.len() == 1
        &&& sent[0].role == role
        &&& sent[0].content == joined(texts, "\n"@)
        &&& sent[0].name is None
        &&& sent[0].tool_calls is None
    }
}

/// A message becomes one in chat terms, of its role, that holds all texts among its
/// pieces, the user's and the model's alike, in their order and with a new line
/// between each two. It becomes none only where none of its texts holds anything.
pub proof fn law_a_message_keeps_its_texts_in_chat_terms(item: ItemView)
    requires
        item is Message,
    ensures
        ({
            let content = item->Message_content;
            let sent = chat_messages_of(seq![item]);
            &&& exists|texts: Seq<Seq<char>>|
                #[trigger] texts_of_message(texts, content) && told_in_chat(
                    sent,
                    item->role,
                    texts,
                )
            &&& (exists|i: int|
                0 <= i < content.len() && piece_text(#[trigger] content[i]).len() > 0)
                ==> sent.len() == 1
        }),
{
    lemma_one_chat_message(item);
    let content = item->Message_content;
    let texts = message_texts(content);
    let places = lemma_texts_stand(content);
    assert(texts_stand(places, texts, content));
    assert(texts_of_message(texts, content));
    assert(told_in_chat(chat_messages_of(seq![item]), item->role, texts));
    if exists|i: int| 0 <= i < content.len() && piece_text(#[trigger] content[i]).len() > 0 {
        let k = choose|i: int|
            0 <= i < content.len() && piece_text(#[trigger] content[i]).len() > 0;
        assert(places.contains(k));
        let at = choose|i: int| 0 <= i < places.len() && places[i] == k;
        assert(texts[at] == piece_text(content[places[at]]));
        lemma_joined_holds(texts, "\n"@, at);
    }
}

/// A message of the user or of the model becomes one in Anthropic terms, of its
/// role, with as many blocks as it has texts: the texts one by one, in their order.
/// It becomes none where it has no texts, or where others said it.
pub proof fn law_a_message_keeps_its_texts_in_anthropic_terms(item: ItemView)
    requires
        item is Message,
    ensures
        ({
            let content = item->Message_content;
            let sent = anthropic_messages_of(seq![item]);
            if (item->role == "user"@ || item->role == "assistant"@) && text_count(content) > 0 {
                &&& sent.len() == 1
                &&& sent[0].role == item->role
                &&& sent[0].content.len() == text_count(content)
                &&& forall|i: int|
                    0 <= i < sent[0].content.len() ==> #[trigger] sent[0].content[i] is Text
                &&& texts_of_message(
                    sent[0].content.map_values(|b: ContentBlockView| b->text),
                    content,
                )
            } else {
                sent.len() == 0
            }
        }),
{
    lemma_one_anthropic_message(item);
    let content = item->Message_content;
    let texts = message_texts(content);
    let places = lemma_texts_stand(content);
    assert(texts_stand(places, texts, content));
    let blocks = text_blocks(content);
    assert(blocks.map_values(|b: ContentBlockView| b->text) =~= texts);
}

/// A call becomes one message of the model, in chat terms and in Anthropic terms,
/// with the call's id, name and arguments; in Anthropic terms the arguments are
/// what can be read from them, or null.
pub proof fn law_a_call_is_told(item: ItemView)
    requires
        item is FunctionCall || item is CustomToolCall,
    ensures
        ({
            let (id, name, arguments) = match item {
                ItemView::FunctionCall { name, arguments, call_id, .. } => (
                    call_id,
                    name,
                    arguments,
                ),
                _ => (
                    item->CustomToolCall_call_id,
                    item->CustomToolCall_name,
                    item->CustomToolCall_input,
                ),
            };
            let sent = chat_messages_of(seq![item]);
            let other = anthropic_messages_of(seq![item]);
            &&& sent.len() == 1
            &&& sent[0].role == "assistant"@
            &&& sent[0].content.len() == 0
            &&& sent[0].name is None
            &&& sent[0].tool_calls == Some(
                seq![ChatCallView { id, tool_type: "function"@, name, arguments }],
            )
            &&& item is CustomToolCall ==> other.len() == 0
            &&& item is FunctionCall ==> {
                &&& other.len() == 1
                &&& other[0].role == "assistant"@
                &&& other[0].content.len() == 1
                &&& other[0].content[0] == (ContentBlockView::ToolUse {
                    id,
                    name,
                    input: if parsed_json(arguments) is Some {
                        parsed_json(arguments)->0
                    } else {
                        Json::Null
                    },
                })
            }
        }),
{
    lemma_one_chat_message(item);
    lemma_one_anthropic_message(item);
}

/// What a function gave back becomes one message: of the tool in chat terms, with
/// the name of the call, or of the tool if that has one, before the text; of the
/// user in Anthropic terms, with the text as a block that answers the call.
pub proof fn law_an_output_is_told(item: ItemView)
    requires
        item is FunctionCallOutput || item is CustomToolCallOutput,
    ensures
        ({
            let (label, output) = match item {
                ItemView::FunctionCallOutput { call_id, output } => (call_id, output),
                _ => (
                    if item->CustomToolCallOutput_name is Some {
                        item->CustomToolCallOutput_name->0
                    } else {
                        item->CustomToolCallOutput_call_id
                    },
                    item->CustomToolCallOutput_output,
                ),
            };
            let text = if output.text is Some {
                output.text->0
            } else {
                Seq::empty()
            };
            let sent = chat_messages_of(seq![item]);
            let other = anthropic_messages_of(seq![item]);
            &&& sent.len() == 1
            &&& sent[0].role == "tool"@
            &&& sent[0].content == label + ": "@ + text
            &&& sent[0].name is None
            &&& sent[0].tool_calls is None
            &&& item is CustomToolCallOutput ==> other.len() == 0
            &&& item is FunctionCallOutput ==> {
                &&& other.len() == 1
                &&& other[0].role == "user"@
                &&& other[0].content.len() == 1
                &&& other[0].content[0] matches ContentBlockView::ToolResult {
                    tool_use_id,
                    content,
                    is_error,
                }
                &&& tool_use_id == label
                &&& has_just(content, set!["type"@, "text"@])
                &&& is_text(content.get("type"@), "text"@)
                &&& is_text(content.get("text"@), text)
                &&& is_error is None
            }
        }),
{
    lemma_one_chat_message(item);
    lemma_one_anthropic_message(item);
    reveal_strlit("type");
    reveal_strlit("text");
    assert("type"@[1] == 'y');
    assert("text"@[1] == 'e');
    if item is FunctionCallOutput {
        let other = anthropic_messages_of(seq![item]);
        assert(other[0].content[0]->content->Object_0.dom() =~= set!["type"@, "text"@]);
    }
}

/// Thoughts, commands, searches and compactions become no message.
pub proof fn law_other_items_are_not_told(item: ItemView)
    requires
        !(item is Message),
        !(item is FunctionCall),
        !(item is CustomToolCall),
        !(item is FunctionCallOutput),
        !(item is CustomToolCallOutput),
    ensures
        chat_messages_of(seq![item]).len() == 0,
        anthropic_messages_of(seq![item]).len() == 0,
{
    lemma_one_chat_message(item);
    lemma_one_anthropic_message(item);
}

/// Tools are converted one by one, in their order.
pub proof fn law_tools_go_on(before: Seq<Json>, after: Seq<Json>)
    ensures
        chat_tools_of(before + after) == chat_tools_of(before) + chat_tools_of(after),
        anthropic_tools_of(before + after) == anthropic_tools_of(before) + anthropic_tools_of(
            after,
        ),
    decreases after.len(),
{
    if after.len() == 0 {
        assert(before + after =~= before);
        assert(chat_tools_of(before) + chat_tools_of(after) =~= chat_tools_of(before));
        assert(anthropic_tools_of(before) + anthropic_tools_of(after) =~= anthropic_tools_of(
            before,
        ));
    } else {
        law_tools_go_on(before, after.drop_last());
        assert((before + after).drop_last() =~= before + after.drop_last());
        assert(chat_tools_of(before + after) =~= chat_tools_of(before) + chat_tools_of(after));
        assert(anthropic_tools_of(before + after) =~= anthropic_tools_of(before)
            + anthropic_tools_of(after));
    }
}

/// In chat terms a tool that says which function it is stays as it is, any other
/// object is the function itself, and what is no object is no tool.
pub proof fn law_a_tool_in_chat_terms(tool: Json)
    ensures
        ({
            let sent = chat_tools_of(seq![tool]);
            if !(tool is Object) {
                sent.len() == 0
            } else if tool->Object_0.contains_key("function"@) {
                sent == seq![tool]
            } else {
                &&& sent.len() == 1
                &&& has_just(sent[0], set!["type"@, "function"@])
                &&& is_text(sent[0].get("type"@), "function"@)
                &&& sent[0].get("function"@) == Some(tool)
            }
        }),
{
    assert(seq![tool].drop_last() =~= Seq::empty());
    assert(chat_tools_of(Seq::empty()) =~= Seq::empty());
    reveal_strlit("type");
    reveal_strlit("function");
    assert("type"@.len() == 4);
    assert("function"@.len() == 8);
    if let Some(made) = chat_tool_of(tool) {
        assert(chat_tools_of(seq![tool]) =~= seq![made]);
        if !tool.has("function"@) {
            assert(made->Object_0.dom() =~= set!["type"@, "function"@]);
        }
    }
}

/// In Anthropic terms a tool is the function that it says it is, if that has a
/// name: with its description, if it has one, and its parameters or, where it has
/// none, those of a function without any.
pub proof fn law_a_tool_in_anthropic_terms(tool: Json)
    ensures
        ({
            let sent = anthropic_tools_of(seq![tool]);
            match tool.get("function"@) {
                Some(function) => match function.get("name"@) {
                    Some(Json::Text(name)) => {
                        &&& sent.len() == 1
                        &&& sent[0].name == name
                        &&& sent[0].description == match function.get("description"@) {
                            Some(Json::Text(text)) => Some(text),
                            _ => None,
                        }
                        &&& match function.get("parameters"@) {
                            Some(parameters) => sent[0].input_schema == parameters,
                            None => {
                                let schema = sent[0].input_schema;
                                &&& has_just(schema, set!["type"@, "properties"@])
                                &&& is_text(schema.get("type"@), "object"@)
                                &&& schema.get("properties"@) == Some(Json::Object(Map::empty()))
                            },
                        }
                    },
                    _ => sent.len() == 0,
                },
                None => sent.len() == 0,
            }
        }),
{
    assert(seq![tool].drop_last() =~= Seq::empty());
    assert(anthropic_tools_of(Seq::empty()) =~= Seq::empty());
    reveal_strlit("type");
    reveal_strlit("properties");
    assert("type"@.len() == 4);
    assert("properties"@.len() == 10);
    assert(empty_schema()->Object_0.dom() =~= set!["type"@, "properties"@]);
    if let Some(made) = anthropic_tool_of(tool) {
        assert(anthropic_tools_of(seq![tool]) =~= seq![made]);
    }
}

/// Of two texts that may be there the first that is there counts.
pub proof fn law_what_is_given_comes_first(given: Seq<char>, other: Option<Seq<char>>)
    ensures
        first_of(Some(given), other) == Some(given),
        first_of(None, other) == other,
{
}

} // verus!
