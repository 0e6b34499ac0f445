//! What a chat completions request holds, told from the prompt that it is for.
use vstd::prelude::*;

use crate::chat_wire::{
    call_json, calls_json, chat_content, chat_request, chat_tool, content_chunk, content_part,
    conversation, fresh_builder, message_json, output_json, reasoning_chunk, reasoning_text,
    request_messages, sent_role, shell_arguments, shell_call_id, system_text, BuilderView,
    ChatCompletionsRequestOptions, WireRequestView,
};
use crate::chat_wire_laws::{
    item_calls, item_message, item_system, law_the_conversation_is_kept,
    law_what_is_not_set_has_no_entry, lemma_names, system_said,
};
use crate::json::{json, rendered_json, Json};
use crate::prompt::{functions, FunctionView, ModelInfo, Prompt, ReasoningEffort};
use crate::protocol::{items, ContentView, ItemView, ReasoningView, ShellView};
use crate::text::{concatenated, decimal, joined};

verus! {

/// Whether a value is an object with just these entries.
pub open spec fn has_just(value: Json, keys: Set<Seq<char>>) -> bool {
    value is Object && value->Object_0.dom() == keys
}

/// Whether a value is this text.
pub open spec fn is_text(value: Option<Json>, text: Seq<char>) -> bool {
    value == Some(Json::Text(text))
}

/// The text of a piece of a message.
pub open spec fn piece_text(piece: ContentView) -> Seq<char> {
    match piece {
        ContentView::InputText { text } => text,
        ContentView::OutputText { text } => text,
        ContentView::InputImage { .. } => Seq::empty(),
    }
}

/// Whether a part of a message's content stands for a piece of the message: text
/// for text, and for an image its place and the level of detail, if one is given.
pub open spec fn part_stands_for(part: Json, piece: ContentView) -> bool {
    match piece {
        ContentView::InputImage { image_url, detail } => {
            &&& has_just(part, set!["type"@, "image_url"@])
            &&& is_text(part.get("type"@), "image_url"@)
            &&& part.get("image_url"@) matches Some(url)
            &&& is_text(url.get("url"@), image_url)
            &&& match detail {
                Some(level) => has_just(url, set!["url"@, "detail"@]) && is_text(
                    url.get("detail"@),
                    level,
                ),
                None => has_just(url, set!["url"@]),
            }
        },
        _ => {
            &&& has_just(part, set!["type"@, "text"@])
            &&& is_text(part.get("type"@), "text"@)
            &&& is_text(part.get("text"@), piece_text(piece))
        },
    }
}

/// Whether the content of a message stands for its pieces: all their text as one
/// where there are no images, else part by part.
pub open spec fn content_stands_for(value: Json, content: Seq<ContentView>) -> bool {
    if forall|i: int| 0 <= i < content.len() ==> !(content[i] is InputImage) {
        value == Json::Text(concatenated(content.map_values(|c: ContentView| piece_text(c))))
    } else {
        &&& value matches Json::Array(parts)
        &&& parts.len() == content.len()
        &&& forall|i: int|
            0 <= i < content.len() ==> part_stands_for(#[trigger] parts[i], content[i])
    }
}

/// Whether a value is a call of a function.
pub open spec fn call_stands_for(
    call: Json,
    id: Seq<char>,
    name: Seq<char>,
    arguments: Seq<char>,
) -> bool {
    &&& has_just(call, set!["id"@, "type"@, "function"@])
    &&& is_text(call.get("id"@), id)
    &&& is_text(call.get("type"@), "function"@)
    &&& call.get("function"@) matches Some(function)
    &&& has_just(function, set!["name"@, "arguments"@])
    &&& is_text(function.get("name"@), name)
    &&& is_text(function.get("arguments"@), arguments)
}

/// Whether a value is a message with what a function gave back.
pub open spec fn output_stands_for(message: Json, call_id: Seq<char>, text: Seq<char>) -> bool {
    &&& has_just(message, set!["role"@, "tool_call_id"@, "content"@])
    &&& is_text(message.get("role"@), "tool"@)
    &&& is_text(message.get("tool_call_id"@), call_id)
    &&& is_text(message.get("content"@), text)
}

/// Whether what a role says is said by the system.
pub open spec fn of_the_system(role: Seq<char>) -> bool {
    role == "system"@ || role == "developer"@
}

/// Whether an item of a conversation is a call, a message of others than the
/// system with anything in it, or what a function gave back.
pub open spec fn counts(item: ItemView) -> bool {
    match item {
        ItemView::Message { role, content, .. } => !of_the_system(role) && content.len() > 0,
        ItemView::FunctionCall { .. } => true,
        ItemView::CustomToolCall { .. } => true,
        ItemView::LocalShellCall { .. } => true,
        ItemView::FunctionCallOutput { .. } => true,
        ItemView::CustomToolCallOutput { .. } => true,
        _ => false,
    }
}

/// Whether a value stands for such an item.
pub open spec fn stands_for(value: Json, item: ItemView) -> bool {
    match item {
        ItemView::Message { role, content, .. } => {
            &&& has_just(value, set!["role"@, "content"@])
            &&& is_text(value.get("role"@), role)
            &&& value.get("content"@) matches Some(inner)
            &&& content_stands_for(inner, content)
        },
        ItemView::FunctionCall { name, arguments, call_id, .. } => call_stands_for(
            value,
            call_id,
            name,
            arguments,
        ),
        ItemView::CustomToolCall { name, input, call_id } => call_stands_for(
            value,
            call_id,
            name,
            input,
        ),
        ItemView::LocalShellCall { id, call_id, action } => exists|arguments: Json|
            {
                &&& shell_stands_for(arguments, action)
                &&& call_stands_for(
                    value,
                    if call_id is Some {
                        call_id->0
                    } else if id is Some {
                        id->0
                    } else {
                        "local_shell"@
                    },
                    "local_shell"@,
                    #[trigger] rendered_json(arguments),
                )
            },
        ItemView::FunctionCallOutput { call_id, output } => output_stands_for(
            value,
            call_id,
            output.display,
        ),
        ItemView::CustomToolCallOutput { call_id, output, .. } => output_stands_for(
            value,
            call_id,
            output.display,
        ),
        _ => false,
    }
}

/// Whether a value holds the arguments of a command.
pub open spec fn shell_stands_for(arguments: Json, action: ShellView) -> bool {
    &&& has_just(arguments, set!["command"@, "workdir"@, "timeout_ms"@])
    &&& arguments.get("command"@) matches Some(Json::Array(words))
    &&& words.len() == action.command.len()
    &&& forall|i: int|
        0 <= i < words.len() ==> #[trigger] words[i] == Json::Text(action.command[i])
    &&& match action.working_directory {
        Some(place) => is_text(arguments.get("workdir"@), place),
        None => arguments.get("workdir"@) == Some(Json::Null),
    }
    &&& match action.timeout_ms {
        Some(ms) => arguments.get("timeout_ms"@) == Some(Json::Number(decimal(ms as nat))),
        None => arguments.get("timeout_ms"@) == Some(Json::Null),
    }
}

/// The items of a conversation that count, in their order.
pub open spec fn counting(items: Seq<ItemView>) -> Seq<ItemView>
    decreases items.len(),
{
    if items.len() == 0 {
        Seq::empty()
    } else if counts(items.last()) {
        counting(items.drop_last()).push(items.last())
    } else {
        counting(items.drop_last())
    }
}

/// What messages hold, in its order: of a message that calls functions its calls,
/// of any other the message itself.
pub open spec fn units(messages: Seq<Json>) -> Seq<Json>
    decreases messages.len(),
{
    if messages.len() == 0 {
        Seq::empty()
    } else {
        let before = units(messages.drop_last());
        match messages.last().get("tool_calls"@) {
            Some(Json::Array(calls)) => before + calls,
            _ => before.push(messages.last()),
        }
    }
}

/// The names of entries are all different.
pub(crate) proof fn lemma_keys()
    ensures
        "type"@ != "image_url"@,
        "type"@ != "text"@,
        "type"@ != "function"@,
        "text"@ != "image_url"@,
        "url"@ != "detail"@,
        "id"@ != "type"@,
        "id"@ != "function"@,
        "name"@ != "arguments"@,
        "command"@ != "workdir"@,
        "command"@ != "timeout_ms"@,
        "workdir"@ != "timeout_ms"@,
        "system"@ != "developer"@,
        "name"@ != "description"@,
        "name"@ != "parameters"@,
        "description"@ != "parameters"@,
        "type"@ != "json_schema"@,
        "name"@ != "strict"@,
        "name"@ != "schema"@,
        "strict"@ != "schema"@,
{
    reveal_strlit("type");
    reveal_strlit("text");
    reveal_strlit("image_url");
    reveal_strlit("url");
    reveal_strlit("detail");
    reveal_strlit("id");
    reveal_strlit("function");
    reveal_strlit("name");
    reveal_strlit("arguments");
    reveal_strlit("command");
    reveal_strlit("workdir");
    reveal_strlit("timeout_ms");
    reveal_strlit("system");
    reveal_strlit("developer");
    reveal_strlit("description");
    reveal_strlit("parameters");
    reveal_strlit("json_schema");
    reveal_strlit("strict");
    reveal_strlit("schema");
    assert("type"@.len() == 4);
    assert("text"@.len() == 4);
    assert("image_url"@.len() == 9);
    assert("url"@.len() == 3);
    assert("detail"@.len() == 6);
    assert("id"@.len() == 2);
    assert("function"@.len() == 8);
    assert("name"@.len() == 4);
    assert("arguments"@.len() == 9);
    assert("command"@.len() == 7);
    assert("workdir"@.len() == 7);
    assert("timeout_ms"@.len() == 10);
    assert("system"@.len() == 6);
    assert("developer"@.len() == 9);
    assert("description"@.len() == 11);
    assert("parameters"@.len() == 10);
    assert("json_schema"@.len() == 11);
    assert("strict"@.len() == 6);
    assert("schema"@.len() == 6);
    assert("type"@[1] == 'y');
    assert("text"@[1] == 'e');
    assert("command"@[0] == 'c');
    assert("workdir"@[0] == 'w');
    assert("strict"@[1] == 't');
    assert("schema"@[1] == 'c');
}

proof fn lemma_part_stands(piece: ContentView)
    ensures
        part_stands_for(content_part(piece), piece),
{
    lemma_keys();
    match piece {
        ContentView::InputImage { image_url, detail } => {
            let part = content_part(piece);
            assert(part->Object_0.dom() =~= set!["type"@, "image_url"@]);
            let url = part.get("image_url"@)->0;
            match detail {
                Some(level) => {
                    assert(url->Object_0.dom() =~= set!["url"@, "detail"@]);
                },
                None => {
                    assert(url->Object_0.dom() =~= set!["url"@]);
                },
            }
        },
        _ => {
            assert(content_part(piece)->Object_0.dom() =~= set!["type"@, "text"@]);
        },
    }
}

proof fn lemma_content_stands(content: Seq<ContentView>)
    requires
        content.len() > 0,
    ensures
        chat_content(content) matches Some(value) && content_stands_for(value, content),
{
    if forall|i: int| 0 <= i < content.len() ==> !(content[i] is InputImage) {
        assert(content.map_values(|c: ContentView| piece_text(c)) =~= content.map_values(
            |c: ContentView| content_chunk(c),
        ));
    } else {
        let parts = content.map_values(|c: ContentView| content_part(c));
        assert forall|i: int| 0 <= i < content.len() implies part_stands_for(
            #[trigger] parts[i],
            content[i],
        ) by {
            lemma_part_stands(content[i]);
        }
    }
}

proof fn lemma_call_stands(id: Seq<char>, name: Seq<char>, arguments: Seq<char>)
    ensures
        call_stands_for(call_json(id, name, arguments), id, name, arguments),
{
    lemma_keys();
    let call = call_json(id, name, arguments);
    assert(call->Object_0.dom() =~= set!["id"@, "type"@, "function"@]);
    assert(call.get("function"@)->0->Object_0.dom() =~= set!["name"@, "arguments"@]);
}

proof fn lemma_output_stands(call_id: Seq<char>, text: Seq<char>)
    ensures
        output_stands_for(output_json(call_id, text), call_id, text),
        !output_json(call_id, text).has("tool_calls"@),
{
    lemma_names();
    assert("content"@ != "tool_call_id"@) by {
        reveal_strlit("content");
        reveal_strlit("tool_call_id");
        assert("content"@.len() == 7);
        assert("tool_call_id"@.len() == 12);
    }
    assert(output_json(call_id, text)->Object_0.dom() =~= set![
        "role"@,
        "tool_call_id"@,
        "content"@,
    ]);
}

pub(crate) proof fn lemma_shell_stands(action: ShellView)
    ensures
        shell_stands_for(shell_arguments(action), action),
{
    lemma_keys();
    let arguments = shell_arguments(action);
    assert(arguments->Object_0.dom() =~= set!["command"@, "workdir"@, "timeout_ms"@]);
}

/// What an item adds to what the messages hold.
spec fn unit_of(item: ItemView) -> Seq<Json> {
    item_calls(item) + item_message(item)
}

proof fn lemma_unit_stands(item: ItemView)
    ensures
        counts(item) ==> unit_of(item).len() == 1 && stands_for(unit_of(item)[0], item),
        !counts(item) ==> unit_of(item).len() == 0,
{
    lemma_keys();
    lemma_names();
    match item {
        ItemView::Message { role, content, .. } => {
            if content.len() > 0 {
                lemma_content_stands(content);
                if !of_the_system(role) {
                    let value = chat_content(content)->0;
                    let message = message_json(role, value);
                    assert(message->Object_0.dom() =~= set!["role"@, "content"@]);
                    assert(unit_of(item)[0] == message);
                }
            }
        },
        ItemView::FunctionCall { name, arguments, call_id, .. } => {
            lemma_call_stands(call_id, name, arguments);
            assert(unit_of(item)[0] == call_json(call_id, name, arguments));
        },
        ItemView::CustomToolCall { name, input, call_id } => {
            lemma_call_stands(call_id, name, input);
            assert(unit_of(item)[0] == call_json(call_id, name, input));
        },
        ItemView::LocalShellCall { id, call_id, action } => {
            lemma_shell_stands(action);
            let text = rendered_json(shell_arguments(action));
            let by = shell_call_id(id, call_id);
            lemma_call_stands(by, "local_shell"@, text);
            assert(unit_of(item)[0] == call_json(by, "local_shell"@, text));
        },
        ItemView::FunctionCallOutput { call_id, output } => {
            lemma_output_stands(call_id, output.display);
            assert(unit_of(item)[0] == output_json(call_id, output.display));
        },
        ItemView::CustomToolCallOutput { call_id, output, .. } => {
            lemma_output_stands(call_id, output.display);
            assert(unit_of(item)[0] == output_json(call_id, output.display));
        },
        _ => {},
    }
}

spec fn units_of(items: Seq<ItemView>) -> Seq<Json>
    decreases items.len(),
{
    if items.len() == 0 {
        Seq::empty()
    } else {
        units_of(items.drop_last()) + unit_of(items.last())
    }
}

proof fn lemma_units_stand(items: Seq<ItemView>)
    ensures
        units_of(items).len() == counting(items).len(),
        forall|i: int|
            0 <= i < counting(items).len() ==> stands_for(
                #[trigger] units_of(items)[i],
                counting(items)[i],
            ),
    decreases items.len(),
{
    if items.len() > 0 {
        let front = items.drop_last();
        lemma_units_stand(front);
        lemma_unit_stands(items.last());
        assert forall|i: int| 0 <= i < counting(items).len() implies stands_for(
            #[trigger] units_of(items)[i],
            counting(items)[i],
        ) by {
            if i < counting(front).len() {
                assert(units_of(items)[i] == units_of(front)[i]);
            }
        }
    }
}

/// All that a conversation holds when it is gone through: what was sent, and what
/// waits.
spec fn held(b: BuilderView) -> Seq<Json> {
    units(b.messages) + b.pending_calls
}

proof fn lemma_held_flushed(b: BuilderView)
    ensures
        held(b.flushed()) == held(b),
        b.flushed().pending_calls.len() == 0,
{
    if b.pending_calls.len() > 0 {
        lemma_names();
        let message = calls_json(b.pending_calls, b.pending_reasoning);
        assert(b.messages.push(message).drop_last() =~= b.messages);
        assert(message.get("tool_calls"@) == Some(Json::Array(b.pending_calls)));
    }
    assert(held(b.flushed()) =~= held(b));
}

proof fn lemma_held_message(b: BuilderView, message: Json)
    requires
        b.pending_calls.len() == 0,
        !message.has("tool_calls"@),
    ensures
        held(b.with_message(message)) == held(b).push(message),
{
    assert(b.messages.push(message).drop_last() =~= b.messages);
    assert(held(b.with_message(message)) =~= held(b).push(message));
}

proof fn lemma_held_item(b: BuilderView, item: ItemView)
    ensures
        held(b.appended(item)) == held(b) + unit_of(item),
{
    lemma_names();
    lemma_keys();
    lemma_held_flushed(b);
    let flat = b.flushed();
    match item {
        ItemView::Message { role, content, .. } => {
            if sent_role(role) != "system"@ {
                if let Some(value) = chat_content(content) {
                    lemma_held_message(flat, message_json(sent_role(role), value));
                }
            }
        },
        ItemView::FunctionCallOutput { call_id, output } => {
            lemma_output_stands(call_id, output.display);
            lemma_held_message(flat, output_json(call_id, output.display));
        },
        ItemView::CustomToolCallOutput { call_id, output, .. } => {
            lemma_output_stands(call_id, output.display);
            lemma_held_message(flat, output_json(call_id, output.display));
        },
        _ => {},
    }
    assert(held(b.appended(item)) =~= held(b) + unit_of(item));
}

proof fn lemma_held_items(b: BuilderView, items: Seq<ItemView>)
    ensures
        held(b.appended_all(items)) == held(b) + units_of(items),
    decreases items.len(),
{
    if items.len() == 0 {
        assert(held(b) + units_of(items) =~= held(b));
    } else {
        lemma_held_items(b, items.drop_last());
        lemma_held_item(b.appended_all(items.drop_last()), items.last());
        assert(held(b.appended_all(items)) =~= held(b) + units_of(items));
    }
}

/// A request holds every call, every message of others than the system with
/// anything in it, and everything that functions gave back: all of them in the
/// order of the conversation, each as what it is, and nothing else. What the
/// system says, reasoning, searches and compactions stand in no message of their
/// own.
pub proof fn law_every_item_stands_in_its_place(
    instructions: Seq<char>,
    input: Seq<ItemView>,
    preserve: bool,
)
    ensures
        ({
            let sent = units(conversation(instructions, input, preserve).messages);
            let meant = counting(input);
            &&& sent.len() == meant.len()
            &&& forall|i: int|
                0 <= i < meant.len() ==> stands_for(#[trigger] sent[i], meant[i])
        }),
{
    let start = if instructions.len() == 0 {
        fresh_builder(preserve)
    } else {
        fresh_builder(preserve).with_system(instructions)
    };
    lemma_held_items(start, input);
    lemma_held_flushed(start.appended_all(input));
    lemma_units_stand(input);
    let end = conversation(instructions, input, preserve);
    assert(held(start) =~= Seq::empty());
    assert(held(end) =~= units(end.messages));
    assert(units(end.messages) =~= units_of(input));
}

/// What a thought says: all of its content or, where that says nothing, all of
/// its summary.
pub open spec fn thought_says(item: ItemView) -> Seq<char> {
    match item {
        ItemView::Reasoning { summary, content, .. } => {
            let whole = match content {
                Some(pieces) => concatenated(
                    pieces.map_values(
                        |p: ReasoningView|
                            match p {
                                ReasoningView::ReasoningText { text } => text,
                                ReasoningView::Text { text } => text,
                            },
                    ),
                ),
                None => Seq::empty(),
            };
            if whole.len() > 0 {
                whole
            } else {
                concatenated(summary)
            }
        },
        _ => Seq::empty(),
    }
}

/// Whether an item is a thought that says something.
pub open spec fn thinks(item: ItemView) -> bool {
    item is Reasoning && thought_says(item).len() > 0
}

/// Whether an item calls a function.
pub open spec fn calls(item: ItemView) -> bool {
    item is FunctionCall || item is CustomToolCall || item is LocalShellCall
}

/// Whether an item is a message or what a function gave back.
pub open spec fn pauses(item: ItemView) -> bool {
    item is Message || item is FunctionCallOutput || item is CustomToolCallOutput
}

/// Whether a message makes these calls, and gives these thoughts as what led to
/// them.
pub open spec fn calls_stand_for(
    message: Json,
    thoughts: Seq<ItemView>,
    made: Seq<ItemView>,
) -> bool {
    &&& is_text(message.get("role"@), "assistant"@)
    &&& message.get("content"@) == Some(Json::Null)
    &&& message.get("tool_calls"@) matches Some(Json::Array(sent))
    &&& sent.len() == made.len()
    &&& forall|i: int| 0 <= i < made.len() ==> stands_for(#[trigger] sent[i], made[i])
    &&& if thoughts.len() == 0 {
        has_just(message, set!["role"@, "content"@, "tool_calls"@])
    } else {
        has_just(message, set!["role"@, "content"@, "tool_calls"@, "reasoning_content"@])
            && is_text(
            message.get("reasoning_content"@),
            joined(thoughts.map_values(|t: ItemView| thought_says(t)), "\n"@),
        )
    }
}

proof fn lemma_thought_says(item: ItemView)
    requires
        item is Reasoning,
    ensures
        thought_says(item) == reasoning_text(item->summary, item->Reasoning_content),
{
    if let Some(pieces) = item->Reasoning_content {
        assert(pieces.map_values(|p: ReasoningView| reasoning_chunk(p)) =~= pieces.map_values(
            |p: ReasoningView|
                match p {
                    ReasoningView::ReasoningText { text } => text,
                    ReasoningView::Text { text } => text,
                },
        ));
    }
}

proof fn lemma_appended_two(b: BuilderView, first: Seq<ItemView>, second: Seq<ItemView>)
    ensures
        b.appended_all(first + second) == b.appended_all(first).appended_all(second),
    decreases second.len(),
{
    if second.len() == 0 {
        assert(first + second =~= first);
    } else {
        lemma_appended_two(b, first, second.drop_last());
        assert((first + second).drop_last() =~= first + second.drop_last());
    }
}

proof fn lemma_appended_one(b: BuilderView, item: ItemView)
    ensures
        b.appended_all(seq![item]) == b.appended(item),
{
    assert(seq![item].drop_last() =~= Seq::empty());
    assert(b.appended_all(Seq::empty()) == b);
}

/// Messages that went out stay as they are.
proof fn lemma_messages_stay(b: BuilderView, items: Seq<ItemView>)
    ensures
        b.appended_all(items).messages.is_prefix_of(b.appended_all(items).flushed().messages),
        items.len() > 0 && (pauses(items[0]) || (b.preserve && thinks(items[0])))
            ==> b.flushed().messages.is_prefix_of(b.appended_all(items).messages),
        b.messages.is_prefix_of(b.appended_all(items).messages),
        b.appended_all(items).preserve == b.preserve,
    decreases items.len(),
{
    if items.len() > 0 {
        let front = items.drop_last();
        lemma_messages_stay(b, front);
        if items.last() is Reasoning {
            lemma_thought_says(items.last());
        }
        if front.len() > 0 {
            assert(items[0] == front[0]);
        }
    }
}

proof fn lemma_thoughts_wait(b: BuilderView, thoughts: Seq<ItemView>)
    requires
        b.preserve,
        b.pending_calls.len() == 0,
        b.pending_reasoning is None,
        forall|i: int| 0 <= i < thoughts.len() ==> thinks(#[trigger] thoughts[i]),
    ensures
        ({
            let after = b.appended_all(thoughts);
            let said = joined(thoughts.map_values(|t: ItemView| thought_says(t)), "\n"@);
            &&& thoughts.len() == 0 ==> after == b
            &&& thoughts.len() > 0 ==> said.len() > 0 && after == (BuilderView {
                pending_reasoning: Some(said),
                ..b
            })
        }),
    decreases thoughts.len(),
{
    if thoughts.len() > 0 {
        let front = thoughts.drop_last();
        lemma_thoughts_wait(b, front);
        assert(thinks(thoughts.last()));
        lemma_thought_says(thoughts.last());
        let all = thoughts.map_values(|t: ItemView| thought_says(t));
        assert(all.drop_last() =~= front.map_values(|t: ItemView| thought_says(t)));
        assert(all.last() == thought_says(thoughts.last()));
    }
}

proof fn lemma_calls_wait(b: BuilderView, made: Seq<ItemView>)
    requires
        forall|i: int| 0 <= i < made.len() ==> calls(#[trigger] made[i]),
    ensures
        b.appended_all(made) == (BuilderView {
            pending_calls: b.pending_calls + units_of(made),
            ..b
        }),
    decreases made.len(),
{
    if made.len() == 0 {
        assert(b.pending_calls + units_of(made) =~= b.pending_calls);
    } else {
        lemma_calls_wait(b, made.drop_last());
        assert(calls(made.last()));
        assert(b.appended_all(made).pending_calls =~= b.pending_calls + units_of(made));
    }
}

proof fn lemma_calls_count(made: Seq<ItemView>)
    requires
        forall|i: int| 0 <= i < made.len() ==> calls(#[trigger] made[i]),
    ensures
        counting(made) == made,
    decreases made.len(),
{
    if made.len() > 0 {
        lemma_calls_count(made.drop_last());
        assert(calls(made.last()));
        assert(counting(made) =~= made);
    }
}

/// How going through a conversation starts.
spec fn started(instructions: Seq<char>, preserve: bool) -> BuilderView {
    if instructions.len() == 0 {
        fresh_builder(preserve)
    } else {
        fresh_builder(preserve).with_system(instructions)
    }
}

/// Calls in a row go out as one message, and the thoughts that stand right before
/// them go with it, where thoughts are kept: a message, what a function gave back
/// or, behind calls, a thought parts what was before from what comes.
pub proof fn law_calls_in_a_row_go_out_as_one(
    instructions: Seq<char>,
    before: Seq<ItemView>,
    thoughts: Seq<ItemView>,
    made: Seq<ItemView>,
    after: Seq<ItemView>,
    preserve: bool,
)
    requires
        before.len() == 0 || pauses(before.last()) || (calls(before.last()) && preserve
            && thoughts.len() > 0),
        forall|i: int| 0 <= i < thoughts.len() ==> thinks(#[trigger] thoughts[i]),
        thoughts.len() > 0 ==> preserve,
        made.len() > 0,
        forall|i: int| 0 <= i < made.len() ==> calls(#[trigger] made[i]),
        after.len() == 0 || pauses(after[0]) || (preserve && thinks(after[0])),
    ensures
        ({
            let first = conversation(instructions, before, preserve).messages;
            let all = conversation(
                instructions,
                before + thoughts + made + after,
                preserve,
            ).messages;
            &&& first.is_prefix_of(all)
            &&& first.len() < all.len()
            &&& calls_stand_for(all[first.len() as int], thoughts, made)
        }),
{
    let start = started(instructions, preserve);
    lemma_appended_two(start, before + thoughts + made, after);
    lemma_appended_two(start, before + thoughts, made);
    lemma_appended_two(start, before, thoughts);
    lemma_messages_stay(start, before);
    let b = start.appended_all(before);
    if before.len() > 0 {
        let earlier = start.appended_all(before.drop_last());
        assert(b == earlier.appended(before.last()));
    }
    let at_rest = b.flushed();
    let thought = b.appended_all(thoughts);
    let said = joined(thoughts.map_values(|t: ItemView| thought_says(t)), "\n"@);
    if thoughts.len() > 0 {
        let one = seq![thoughts[0]];
        assert(thoughts =~= one + thoughts.skip(1));
        lemma_appended_two(b, one, thoughts.skip(1));
        lemma_appended_two(at_rest, one, thoughts.skip(1));
        lemma_appended_one(b, thoughts[0]);
        lemma_appended_one(at_rest, thoughts[0]);
        assert(thinks(thoughts[0]));
        lemma_thought_says(thoughts[0]);
        assert(b.appended(thoughts[0]) =~= at_rest.appended(thoughts[0]));
        lemma_thoughts_wait(at_rest, thoughts);
        assert(thought == (BuilderView { pending_reasoning: Some(said), ..at_rest }));
    } else {
        assert(b =~= at_rest);
    }
    lemma_calls_wait(thought, made);
    lemma_calls_count(made);
    lemma_units_stand(made);
    let called = thought.appended_all(made);
    assert(called.pending_calls =~= units_of(made));
    lemma_messages_stay(called, after);
    let sent = called.flushed().messages;
    let message = calls_json(called.pending_calls, called.pending_reasoning);
    assert(sent =~= at_rest.messages.push(message));
    lemma_names();
    if thoughts.len() == 0 {
        assert(message->Object_0.dom() =~= set!["role"@, "content"@, "tool_calls"@]);
    } else {
        assert(message->Object_0.dom() =~= set![
            "role"@,
            "content"@,
            "tool_calls"@,
            "reasoning_content"@,
        ]);
    }
    assert(calls_stand_for(message, thoughts, made));
    let all = called.appended_all(after).flushed().messages;
    assert(sent.is_prefix_of(all));
    assert(all[at_rest.messages.len() as int] == sent[at_rest.messages.len() as int]);
}

/// A thought changes nothing where thoughts are not kept or where it says nothing.
/// Nor does one that a message, or what a function gave back, follows at once, nor
/// one at the end: it led to no call. And nothing is sent of searches and
/// compactions.
pub proof fn law_what_leads_to_no_call_is_left_out(
    instructions: Seq<char>,
    before: Seq<ItemView>,
    item: ItemView,
    after: Seq<ItemView>,
    preserve: bool,
)
    requires
        !pauses(item),
        !calls(item),
        item is Reasoning ==> !preserve || !thinks(item) || after.len() == 0 || pauses(after[0]),
    ensures
        conversation(instructions, before + seq![item] + after, preserve) == conversation(
            instructions,
            before + after,
            preserve,
        ),
{
    let start = started(instructions, preserve);
    lemma_appended_two(start, before + seq![item], after);
    lemma_appended_two(start, before, seq![item]);
    lemma_appended_two(start, before, after);
    lemma_messages_stay(start, before);
    let b = start.appended_all(before);
    lemma_appended_one(b, item);
    if item is Reasoning {
        lemma_thought_says(item);
    }
    let c = b.appended(item);
    if after.len() > 0 {
        let one = seq![after[0]];
        let rest = after.skip(1);
        assert(after =~= one + rest);
        lemma_appended_two(b, one, rest);
        lemma_appended_two(c, one, rest);
        lemma_appended_one(b, after[0]);
        lemma_appended_one(c, after[0]);
        if pauses(after[0]) {
            assert(c.flushed() =~= b.flushed());
            assert(c.appended(after[0]) =~= b.appended(after[0]));
        }
    } else {
        assert(after =~= Seq::empty());
        assert(c.flushed() =~= b.flushed());
    }
}

/// The texts of which what the system says in a message is made: each text as it
/// is, and for each image a note, on a line of its own where something stands
/// before it.
pub open spec fn system_pieces(
    pieces: Seq<Seq<char>>,
    text: Seq<char>,
    content: Seq<ContentView>,
) -> bool {
    &&& pieces.len() == content.len()
    &&& concatenated(pieces) == text
    &&& forall|i: int|
        0 <= i < content.len() ==> #[trigger] pieces[i] == match content[i] {
            ContentView::InputImage { image_url, .. } => (if concatenated(pieces.take(i)).len()
                == 0 {
                Seq::empty()
            } else {
                "\n"@
            }) + "[Image omitted: "@ + image_url + "]"@,
            other => piece_text(other),
        }
}

/// Whether a text is what the system says in a message.
pub open spec fn system_stands_for(text: Seq<char>, item: ItemView) -> bool {
    item is Message && exists|pieces: Seq<Seq<char>>|
        #[trigger] system_pieces(pieces, text, item->Message_content)
}

/// Whether an item is a message in which the system says something.
pub open spec fn system_speaks(item: ItemView) -> bool {
    item matches ItemView::Message { role, content, .. } && of_the_system(role) && exists|i: int|
        0 <= i < content.len() && (content[i] is InputImage || piece_text(
            #[trigger] content[i],
        ).len() > 0)
}

/// The messages in which the system says something, in their order.
pub open spec fn of_system(items: Seq<ItemView>) -> Seq<ItemView>
    decreases items.len(),
{
    if items.len() == 0 {
        Seq::empty()
    } else if system_speaks(items.last()) {
        of_system(items.drop_last()).push(items.last())
    } else {
        of_system(items.drop_last())
    }
}

proof fn lemma_system_pieces(content: Seq<ContentView>) -> (pieces: Seq<Seq<char>>)
    ensures
        system_pieces(pieces, system_text(content), content),
    decreases content.len(),
{
    if content.len() == 0 {
        Seq::empty()
    } else {
        let front = content.drop_last();
        let before = lemma_system_pieces(front);
        let text = system_text(front);
        let piece = match content.last() {
            ContentView::InputImage { image_url, .. } => (if text.len() == 0 {
                Seq::empty()
            } else {
                "\n"@
            }) + "[Image omitted: "@ + image_url + "]"@,
            other => piece_text(other),
        };
        let pieces = before.push(piece);
        assert(pieces.drop_last() =~= before);
        assert(concatenated(pieces) =~= system_text(content));
        assert forall|i: int| 0 <= i < content.len() implies #[trigger] pieces[i] == (
        match content[i] {
            ContentView::InputImage { image_url, .. } => (if concatenated(pieces.take(i)).len()
                == 0 {
                Seq::empty()
            } else {
                "\n"@
            }) + "[Image omitted: "@ + image_url + "]"@,
            other => piece_text(other),
        }) by {
            assert(pieces.take(i) =~= before.take(i));
            if i == front.len() {
                assert(before.take(i) =~= before);
            } else {
                assert(pieces[i] == before[i]);
                assert(content[i] == front[i]);
            }
        }
        pieces
    }
}

proof fn lemma_system_says_nothing(content: Seq<ContentView>)
    ensures
        system_text(content).len() > 0 <==> exists|i: int|
            0 <= i < content.len() && (content[i] is InputImage || piece_text(
                #[trigger] content[i],
            ).len() > 0),
    decreases content.len(),
{
    reveal_strlit("]");
    assert("]"@.len() == 1);
    if content.len() > 0 {
        let front = content.drop_last();
        lemma_system_says_nothing(front);
        assert forall|i: int| 0 <= i < front.len() implies front[i] == content[i] by {}
        if system_text(front).len() > 0 {
            let k = choose|i: int|
                0 <= i < front.len() && (front[i] is InputImage || piece_text(
                    #[trigger] front[i],
                ).len() > 0);
            assert(content[k] == front[k]);
        } else if system_text(content).len() > 0 {
            assert(content[content.len() - 1] is InputImage || piece_text(
                content[content.len() - 1],
            ).len() > 0);
        } else {
            assert forall|i: int| 0 <= i < content.len() implies !(content[i] is InputImage)
                && piece_text(#[trigger] content[i]).len() == 0 by {
                if i < front.len() {
                    assert(front[i] == content[i]);
                }
            }
        }
    }
}

proof fn lemma_of_system(items: Seq<ItemView>)
    ensures
        system_said(items).len() == of_system(items).len(),
        forall|i: int|
            0 <= i < of_system(items).len() ==> system_stands_for(
                system_said(items)[i],
                #[trigger] of_system(items)[i],
            ),
    decreases items.len(),
{
    if items.len() > 0 {
        let front = items.drop_last();
        let last = items.last();
        lemma_of_system(front);
        lemma_keys();
        if last is Message {
            lemma_system_says_nothing(last->Message_content);
            let pieces = lemma_system_pieces(last->Message_content);
            assert(system_pieces(
                pieces,
                system_text(last->Message_content),
                last->Message_content,
            ));
        }
        assert(item_system(last).len() == 1 <==> system_speaks(last));
        assert forall|i: int| 0 <= i < of_system(items).len() implies system_stands_for(
            system_said(items)[i],
            #[trigger] of_system(items)[i],
        ) by {
            if i < of_system(front).len() {
                assert(of_system(items)[i] == of_system(front)[i]);
                assert(system_said(items)[i] == system_said(front)[i]);
            }
        }
    }
}

/// All that the system says comes first, once, and nothing else comes with it: the
/// instructions, if there are any, and then one text for each message in which the
/// system says something, in their order.
pub proof fn law_what_the_system_says_is_kept(
    instructions: Seq<char>,
    input: Seq<ItemView>,
    preserve: bool,
)
    ensures
        ({
            let sent = conversation(instructions, input, preserve).system_messages;
            let first: int = if instructions.len() == 0 {
                0
            } else {
                1
            };
            let meant = of_system(input);
            &&& sent.len() == first + meant.len()
            &&& instructions.len() > 0 ==> sent[0] == instructions
            &&& forall|i: int|
                0 <= i < meant.len() ==> system_stands_for(
                    sent[first + i],
                    #[trigger] meant[i],
                )
        }),
{
    law_the_conversation_is_kept(instructions, input, preserve);
    lemma_of_system(input);
    let sent = conversation(instructions, input, preserve).system_messages;
    let said = system_said(input);
    if instructions.len() == 0 {
        assert(sent =~= said);
    } else {
        assert(sent =~= seq![instructions] + said);
    }
}

/// Whether a value says what a function is.
pub open spec fn tool_holds(tool: Json, function: FunctionView) -> bool {
    &&& has_just(tool, set!["type"@, "function"@])
    &&& is_text(tool.get("type"@), "function"@)
    &&& tool.get("function"@) matches Some(inner)
    &&& has_just(inner, set!["name"@, "description"@, "parameters"@])
    &&& is_text(inner.get("name"@), function.name)
    &&& is_text(inner.get("description"@), function.description)
    &&& function.parameters is Ok ==> inner.get("parameters"@) == Some(
        function.parameters->Ok_0,
    )
}

/// Whether a value asks for an answer of a given form.
pub open spec fn form_holds(format: Json, schema: Json, strict: bool) -> bool {
    &&& has_just(format, set!["type"@, "json_schema"@])
    &&& is_text(format.get("type"@), "json_schema"@)
    &&& format.get("json_schema"@) matches Some(inner)
    &&& has_just(inner, set!["name"@, "strict"@, "schema"@])
    &&& is_text(inner.get("name"@), "codex_output_schema"@)
    &&& inner.get("strict"@) == Some(Json::Bool(strict))
    &&& inner.get("schema"@) == Some(schema)
}

/// The messages of a request are those of the conversation, after one of the system
/// with all that it says, an empty line between each two parts, if it says anything.
pub proof fn law_the_system_comes_first(
    prompt: Prompt,
    model_info: ModelInfo,
    effort: Option<ReasoningEffort>,
    options: ChatCompletionsRequestOptions,
)
    ensures
        ({
            let sent = chat_request(prompt, model_info, effort, options).messages;
            let whole = conversation(
                prompt.base_instructions.text@,
                items(prompt.input@),
                options.preserve_reasoning_content,
            );
            if whole.system_messages.len() == 0 {
                sent == whole.messages
            } else {
                &&& sent.len() == 1 + whole.messages.len()
                &&& sent.skip(1) == whole.messages
                &&& has_just(sent[0], set!["role"@, "content"@])
                &&& is_text(sent[0].get("role"@), "system"@)
                &&& is_text(
                    sent[0].get("content"@),
                    joined(whole.system_messages, "\n\n"@),
                )
            }
        }),
{
    lemma_names();
    let whole = conversation(
        prompt.base_instructions.text@,
        items(prompt.input@),
        options.preserve_reasoning_content,
    );
    let sent = request_messages(whole);
    if whole.system_messages.len() > 0 {
        assert(sent.skip(1) =~= whole.messages);
        assert(sent[0]->Object_0.dom() =~= set!["role"@, "content"@]);
    }
}

/// A request names the model, asks for a stream, and offers the functions of the
/// prompt one by one. That calls may be made side by side is said only where there
/// is something to call, and how hard to think only to a model that knows levels:
/// as was asked for, or else as it does by default.
pub proof fn law_a_request_says_what_was_asked(
    prompt: Prompt,
    model_info: ModelInfo,
    effort: Option<ReasoningEffort>,
    options: ChatCompletionsRequestOptions,
)
    ensures
        ({
            let request = chat_request(prompt, model_info, effort, options);
            let offered = functions(prompt.tools@);
            &&& request.model == model_info.slug@
            &&& request.stream
            &&& request.tool_choice is None
            &&& request.tools.len() == offered.len()
            &&& forall|i: int|
                0 <= i < offered.len() ==> tool_holds(#[trigger] request.tools[i], offered[i])
            &&& request.parallel_tool_calls is Some <==> prompt.parallel_tool_calls
                && offered.len() > 0
            &&& request.parallel_tool_calls is Some ==> request.parallel_tool_calls->0
            &&& request.reasoning_effort == (
            if model_info.supported_reasoning_levels@.len() == 0 {
                None
            } else if effort is None {
                model_info.default_reasoning_level
            } else {
                effort
            })
            &&& request.service_tier is Some <==> options.service_tier is Some
            &&& options.service_tier is Some ==> request.service_tier->0
                == options.service_tier->0@
            &&& request.response_format is Some <==> prompt.output_schema is Some
            &&& prompt.output_schema is Some ==> form_holds(
                request.response_format->0,
                json(prompt.output_schema->0),
                prompt.output_schema_strict,
            )
        }),
{
    lemma_keys();
    let request = chat_request(prompt, model_info, effort, options);
    let offered = functions(prompt.tools@);
    assert forall|i: int| 0 <= i < offered.len() implies tool_holds(
        #[trigger] request.tools[i],
        offered[i],
    ) by {
        let tool = request.tools[i];
        assert(tool == chat_tool(offered[i]));
        assert(tool->Object_0.dom() =~= set!["type"@, "function"@]);
        assert(tool.get("function"@)->0->Object_0.dom() =~= set![
            "name"@,
            "description"@,
            "parameters"@,
        ]);
    }
    if let Some(format) = request.response_format {
        assert(format->Object_0.dom() =~= set!["type"@, "json_schema"@]);
        assert(format.get("json_schema"@)->0->Object_0.dom() =~= set![
            "name"@,
            "strict"@,
            "schema"@,
        ]);
    }
}

/// A request as JSON has the entries that every request has, one for each thing
/// more that is set, and no other. Efforts go by their names.
pub proof fn law_a_request_has_all_its_entries(request: WireRequestView)
    ensures
        ({
            let body = request.body();
            &&& is_text(body.get("model"@), request.model)
            &&& body.get("messages"@) == Some(Json::Array(request.messages))
            &&& body.get("tools"@) == Some(Json::Array(request.tools))
            &&& body.get("stream"@) == Some(Json::Bool(request.stream))
            &&& match request.reasoning_effort {
                None => body.get("reasoning_effort"@) is None,
                Some(ReasoningEffort::Off) => is_text(body.get("reasoning_effort"@), "none"@),
                Some(ReasoningEffort::Minimal) => is_text(
                    body.get("reasoning_effort"@),
                    "minimal"@,
                ),
                Some(ReasoningEffort::Low) => is_text(body.get("reasoning_effort"@), "low"@),
                Some(ReasoningEffort::Medium) => is_text(
                    body.get("reasoning_effort"@),
                    "medium"@,
                ),
                Some(ReasoningEffort::High) => is_text(body.get("reasoning_effort"@), "high"@),
                Some(ReasoningEffort::XHigh) => is_text(body.get("reasoning_effort"@), "xhigh"@),
            }
            &&& body is Object
            &&& forall|key: Seq<char>| #[trigger]
                body->Object_0.contains_key(key) ==> {
                    ||| key == "model"@
                    ||| key == "messages"@
                    ||| key == "tools"@
                    ||| key == "stream"@
                    ||| key == "tool_choice"@ && request.tool_choice is Some
                    ||| key == "parallel_tool_calls"@ && request.parallel_tool_calls is Some
                    ||| key == "reasoning_effort"@ && request.reasoning_effort is Some
                    ||| key == "response_format"@ && request.response_format is Some
                    ||| key == "service_tier"@ && request.service_tier is Some
                }
        }),
{
    law_what_is_not_set_has_no_entry(request);
    reveal_strlit("model");
    reveal_strlit("messages");
    reveal_strlit("tool_choice");
    reveal_strlit("parallel_tool_calls");
    reveal_strlit("tools");
    reveal_strlit("stream");
    reveal_strlit("reasoning_effort");
    reveal_strlit("response_format");
    reveal_strlit("service_tier");
    assert("model"@.len() == 5);
    assert("messages"@.len() == 8);
    assert("tool_choice"@.len() == 11);
    assert("parallel_tool_calls"@.len() == 19);
    assert("tools"@.len() == 5);
    assert("stream"@.len() == 6);
    assert("reasoning_effort"@.len() == 16);
    assert("response_format"@.len() == 15);
    assert("service_tier"@.len() == 12);
    assert("model"@[0] == 'm');
    assert("tools"@[0] == 't');
}

} // verus!
