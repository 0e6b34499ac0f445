//! What an Anthropic request holds, told from the prompt that it is for.
use vstd::prelude::*;

use crate::anthropic_wire::{
    anthropic_tool, content_block, item_blocks, item_role, items_added, messages_request,
    read_or_raw, use_block, MessagesRequestView,
};
use crate::anthropic_wire_laws::{
    all_blocks, blocks_said, law_all_blocks_are_kept, law_messages_take_turns, take_turns, under,
};
use crate::chat_request_laws::{
    has_just, is_text, lemma_keys, lemma_shell_stands, piece_text, shell_stands_for,
};
use crate::chat_wire::{shell_arguments, shell_call_id};
use crate::json::{parsed_json, Json};
use crate::prompt::{functions, FunctionView, ModelInfo, Prompt};
use crate::protocol::{items, ContentView, ItemView};
use crate::text::decimal;

verus! {

/// How many blocks an item of a conversation becomes: a message as many as it has
/// pieces, a call and what a function gave back one, and others none.
pub open spec fn block_count(item: ItemView) -> nat {
    match item {
        ItemView::Message { content, .. } => content.len(),
        ItemView::FunctionCall { .. } => 1,
        ItemView::CustomToolCall { .. } => 1,
        ItemView::LocalShellCall { .. } => 1,
        ItemView::FunctionCallOutput { .. } => 1,
        ItemView::CustomToolCallOutput { .. } => 1,
        _ => 0,
    }
}

/// The places of all that a conversation holds, in its order: which item, and which
/// piece of it.
pub open spec fn places(items: Seq<ItemView>) -> Seq<(int, int)>
    decreases items.len(),
{
    if items.len() == 0 {
        Seq::empty()
    } else {
        places(items.drop_last()) + Seq::new(
            block_count(items.last()),
            |i: int| (items.len() - 1, i),
        )
    }
}

/// Whether a block holds just a text.
pub open spec fn holds_text(block: Json, text: Seq<char>) -> bool {
    &&& has_just(block, set!["type"@, "text"@])
    &&& is_text(block.get("type"@), "text"@)
    &&& is_text(block.get("text"@), text)
}

/// Whether a block is a call of a tool, with its input aside.
pub open spec fn holds_call(block: Json, id: Seq<char>, name: Seq<char>) -> bool {
    &&& has_just(block, set!["type"@, "id"@, "name"@, "input"@])
    &&& is_text(block.get("type"@), "tool_use"@)
    &&& is_text(block.get("id"@), id)
    &&& is_text(block.get("name"@), name)
}

/// Whether a block's input is what a text encodes, or holds the text as it is where
/// that encodes nothing.
pub open spec fn input_stands_for(block: Json, text: Seq<char>) -> bool {
    &&& block.get("input"@) matches Some(input)
    &&& match parsed_json(text) {
        Some(value) => input == value,
        None => has_just(input, set!["raw"@]) && is_text(input.get("raw"@), text),
    }
}

/// Whether a block answers a call of a tool with a text.
pub open spec fn holds_result(block: Json, id: Seq<char>, text: Seq<char>) -> bool {
    &&& has_just(block, set!["type"@, "tool_use_id"@, "content"@])
    &&& is_text(block.get("type"@), "tool_result"@)
    &&& is_text(block.get("tool_use_id"@), id)
    &&& is_text(block.get("content"@), text)
}

/// Whether a block that a role sends stands for a piece of an item. The model's own
/// messages and its calls are sent by the model, and all else by the user. An image
/// is a note of where it is.
pub open spec fn block_stands_for(sent: (Seq<char>, Json), item: ItemView, i: int) -> bool {
    let (by, block) = sent;
    match item {
        ItemView::Message { role, content, .. } => {
            let model = role == "assistant"@;
            &&& by == if model {
                "assistant"@
            } else {
                "user"@
            }
            &&& holds_text(
                block,
                match content[i] {
                    ContentView::InputImage { image_url, .. } => (if model {
                        "[Image omitted: "@
                    } else {
                        "[User provided image: "@
                    }) + image_url + "]"@,
                    other => piece_text(other),
                },
            )
        },
        ItemView::FunctionCall { name, arguments, call_id, .. } => {
            &&& by == "assistant"@
            &&& holds_call(block, call_id, name)
            &&& input_stands_for(block, arguments)
        },
        ItemView::CustomToolCall { name, input, call_id } => {
            &&& by == "assistant"@
            &&& holds_call(block, call_id, name)
            &&& input_stands_for(block, input)
        },
        ItemView::LocalShellCall { id, call_id, action } => {
            &&& by == "assistant"@
            &&& holds_call(
                block,
                if call_id is Some {
                    call_id->0
                } else if id is Some {
                    id->0
                } else {
                    "local_shell"@
                },
                "local_shell"@,
            )
            &&& block.get("input"@) matches Some(input)
            &&& shell_stands_for(input, action)
        },
        ItemView::FunctionCallOutput { call_id, output } => {
            &&& by == "user"@
            &&& holds_result(block, call_id, output.display)
        },
        ItemView::CustomToolCallOutput { call_id, output, .. } => {
            &&& by == "user"@
            &&& holds_result(block, call_id, output.display)
        },
        _ => false,
    }
}

proof fn lemma_block_keys()
    ensures
        "type"@ != "id"@,
        "type"@ != "name"@,
        "type"@ != "input"@,
        "type"@ != "text"@,
        "id"@ != "name"@,
        "id"@ != "input"@,
        "name"@ != "input"@,
        "type"@ != "tool_use_id"@,
        "type"@ != "content"@,
        "tool_use_id"@ != "content"@,
        "name"@ != "description"@,
        "name"@ != "input_schema"@,
        "description"@ != "input_schema"@,
{
    lemma_keys();
    reveal_strlit("type");
    reveal_strlit("id");
    reveal_strlit("name");
    reveal_strlit("input");
    reveal_strlit("tool_use_id");
    reveal_strlit("content");
    reveal_strlit("description");
    reveal_strlit("input_schema");
    assert("type"@.len() == 4);
    assert("id"@.len() == 2);
    assert("name"@.len() == 4);
    assert("input"@.len() == 5);
    assert("tool_use_id"@.len() == 11);
    assert("content"@.len() == 7);
    assert("description"@.len() == 11);
    assert("input_schema"@.len() == 12);
    assert("type"@[0] == 't');
    assert("name"@[0] == 'n');
}

proof fn lemma_call_holds(id: Seq<char>, name: Seq<char>, input: Json)
    ensures
        holds_call(use_block(id, name, input), id, name),
        use_block(id, name, input).get("input"@) == Some(input),
{
    lemma_block_keys();
    assert(use_block(id, name, input)->Object_0.dom() =~= set![
        "type"@,
        "id"@,
        "name"@,
        "input"@,
    ]);
}

proof fn lemma_input_stands(block: Json, text: Seq<char>)
    requires
        block.get("input"@) == Some(read_or_raw(parsed_json(text), text)),
    ensures
        input_stands_for(block, text),
{
    if parsed_json(text) is None {
        assert(block.get("input"@)->0->Object_0.dom() =~= set!["raw"@]);
    }
}

proof fn lemma_blocks_stand(item: ItemView)
    ensures
        item_blocks(item).len() == block_count(item),
        forall|i: int|
            0 <= i < block_count(item) ==> block_stands_for(
                (item_role(item), #[trigger] item_blocks(item)[i]),
                item,
                i,
            ),
{
    lemma_block_keys();
    assert forall|i: int| 0 <= i < block_count(item) implies block_stands_for(
        (item_role(item), #[trigger] item_blocks(item)[i]),
        item,
        i,
    ) by {
        let block = item_blocks(item)[i];
        match item {
            ItemView::Message { role, content, .. } => {
                assert(block == content_block(content[i], item_role(item)));
                assert(block->Object_0.dom() =~= set!["type"@, "text"@]);
                assert("assistant"@ != "user"@) by {
                    reveal_strlit("assistant");
                    reveal_strlit("user");
                    assert("assistant"@.len() == 9);
                    assert("user"@.len() == 4);
                }
            },
            ItemView::FunctionCall { name, arguments, call_id, .. } => {
                lemma_call_holds(call_id, name, read_or_raw(parsed_json(arguments), arguments));
                lemma_input_stands(block, arguments);
            },
            ItemView::CustomToolCall { name, input, call_id } => {
                lemma_call_holds(call_id, name, read_or_raw(parsed_json(input), input));
                lemma_input_stands(block, input);
            },
            ItemView::LocalShellCall { id, call_id, action } => {
                lemma_shell_stands(action);
                lemma_call_holds(
                    shell_call_id(id, call_id),
                    "local_shell"@,
                    shell_arguments(action),
                );
            },
            _ => {
                assert(block->Object_0.dom() =~= set!["type"@, "tool_use_id"@, "content"@]);
            },
        }
    }
}

proof fn lemma_places(items: Seq<ItemView>)
    ensures
        blocks_said(items).len() == places(items).len(),
        forall|i: int|
            0 <= i < places(items).len() ==> {
                let (at, piece) = #[trigger] places(items)[i];
                &&& 0 <= at < items.len()
                &&& 0 <= piece < block_count(items[at])
                &&& block_stands_for(blocks_said(items)[i], items[at], piece)
            },
    decreases items.len(),
{
    if items.len() > 0 {
        let front = items.drop_last();
        let last = items.last();
        lemma_places(front);
        lemma_blocks_stand(last);
        assert forall|i: int| 0 <= i < places(items).len() implies {
            let (at, piece) = #[trigger] places(items)[i];
            &&& 0 <= at < items.len()
            &&& 0 <= piece < block_count(items[at])
            &&& block_stands_for(blocks_said(items)[i], items[at], piece)
        } by {
            if i < places(front).len() {
                assert(places(items)[i] == places(front)[i]);
                assert(blocks_said(items)[i] == blocks_said(front)[i]);
                let (at, piece) = places(front)[i];
                assert(items[at] == front[at]);
            } else {
                let k = i - places(front).len();
                assert(places(items)[i] == (items.len() - 1, k));
                assert(blocks_said(items)[i] == under(item_role(last), item_blocks(last))[k]);
                assert(item_blocks(last)[k] == item_blocks(last)[k]);
            }
        }
    }
}

/// A message of a request has a role and a content, and nothing else.
proof fn lemma_messages_hold(items: Seq<ItemView>)
    ensures
        forall|i: int|
            0 <= i < items_added(Seq::empty(), items).len() ==> has_just(
                #[trigger] items_added(Seq::empty(), items)[i],
                set!["role"@, "content"@],
            ),
    decreases items.len(),
{
    if items.len() > 0 {
        let before = items_added(Seq::empty(), items.drop_last());
        let after = items_added(Seq::empty(), items);
        lemma_messages_hold(items.drop_last());
        assert forall|i: int| 0 <= i < after.len() implies has_just(
            #[trigger] after[i],
            set!["role"@, "content"@],
        ) by {
            if i < before.len() {
                assert(has_just(before[i], set!["role"@, "content"@]));
            }
            if i < before.len() && after[i] == before[i] {
            } else {
                assert(after[i]->Object_0.dom() =~= set!["role"@, "content"@]);
            }
        }
    }
}

/// A request holds all that the conversation holds, in its order and nothing else:
/// for each piece of each message one block of text, for each call a block with
/// the call, and for each output of a function a block that answers the call, each
/// under the role that sends it. The messages take turns, and none has anything
/// but a role and its blocks.
pub proof fn law_every_piece_has_its_block(prompt: Prompt, model_info: ModelInfo)
    ensures
        ({
            let sent = messages_request(prompt, model_info).messages;
            let meant = items(prompt.input@);
            let blocks = all_blocks(sent);
            &&& take_turns(sent)
            &&& forall|i: int|
                0 <= i < sent.len() ==> has_just(#[trigger] sent[i], set!["role"@, "content"@])
            &&& blocks.len() == places(meant).len()
            &&& forall|i: int|
                0 <= i < blocks.len() ==> {
                    let (at, piece) = #[trigger] places(meant)[i];
                    &&& 0 <= at < meant.len()
                    &&& 0 <= piece < block_count(meant[at])
                    &&& block_stands_for(blocks[i], meant[at], piece)
                }
        }),
{
    let meant = items(prompt.input@);
    law_messages_take_turns(meant);
    law_all_blocks_are_kept(meant);
    lemma_places(meant);
    lemma_messages_hold(meant);
}

/// The blocks that one message becomes are as many as its pieces, and the block at
/// each place stands for the piece at that place: no piece is left out, whatever
/// stands beside it.
pub proof fn law_a_message_becomes_its_pieces(item: ItemView)
    requires
        item is Message,
    ensures
        ({
            let blocks = all_blocks(items_added(Seq::empty(), seq![item]));
            &&& blocks.len() == item->Message_content.len()
            &&& forall|i: int|
                0 <= i < blocks.len() ==> block_stands_for(#[trigger] blocks[i], item, i)
        }),
{
    let one = seq![item];
    law_all_blocks_are_kept(one);
    lemma_places(one);
    assert(one.drop_last() =~= Seq::empty());
    assert(places(one.drop_last()) =~= Seq::empty());
    assert forall|i: int| 0 <= i < blocks_said(one).len() implies block_stands_for(
        #[trigger] blocks_said(one)[i],
        item,
        i,
    ) by {
        assert(places(one)[i] == (0int, i));
    }
}

/// Whether a value says what a function is.
pub open spec fn tool_holds(tool: Json, function: FunctionView) -> bool {
    &&& has_just(tool, set!["name"@, "description"@, "input_schema"@])
    &&& is_text(tool.get("name"@), function.name)
    &&& is_text(tool.get("description"@), function.description)
    &&& function.parameters is Ok ==> tool.get("input_schema"@) == Some(
        function.parameters->Ok_0,
    )
}

/// A request names the model, takes the instructions as they are, asks for a stream
/// and for a limited answer, and offers the functions of the prompt one by one.
pub proof fn law_a_request_says_what_was_asked(prompt: Prompt, model_info: ModelInfo)
    ensures
        ({
            let request = messages_request(prompt, model_info);
            let offered = functions(prompt.tools@);
            &&& request.model == model_info.slug@
            &&& request.max_tokens == 4096
            &&& request.system == prompt.base_instructions.text@
            &&& request.stream
            &&& request.tools.len() == offered.len()
            &&& forall|i: int|
                0 <= i < offered.len() ==> tool_holds(#[trigger] request.tools[i], offered[i])
        }),
{
    lemma_block_keys();
    let request = messages_request(prompt, model_info);
    let offered = functions(prompt.tools@);
    assert forall|i: int| 0 <= i < offered.len() implies tool_holds(
        #[trigger] request.tools[i],
        offered[i],
    ) by {
        assert(request.tools[i] == anthropic_tool(offered[i]));
        assert(request.tools[i]->Object_0.dom() =~= set![
            "name"@,
            "description"@,
            "input_schema"@,
        ]);
    }
}

/// A request as JSON has an entry for each of its parts, and no other.
pub proof fn law_a_request_has_all_its_entries(request: MessagesRequestView)
    ensures
        ({
            let body = request.body();
            &&& has_just(
                body,
                set!["model"@, "max_tokens"@, "system"@, "messages"@, "tools"@, "stream"@],
            )
            &&& is_text(body.get("model"@), request.model)
            &&& body.get("max_tokens"@) == Some(
                Json::Number(decimal(request.max_tokens as nat)),
            )
            &&& is_text(body.get("system"@), request.system)
            &&& body.get("messages"@) == Some(Json::Array(request.messages))
            &&& body.get("tools"@) == Some(Json::Array(request.tools))
            &&& body.get("stream"@) == Some(Json::Bool(request.stream))
        }),
{
    reveal_strlit("model");
    reveal_strlit("max_tokens");
    reveal_strlit("system");
    reveal_strlit("messages");
    reveal_strlit("tools");
    reveal_strlit("stream");
    assert("model"@.len() == 5);
    assert("max_tokens"@.len() == 10);
    assert("system"@.len() == 6);
    assert("messages"@.len() == 8);
    assert("tools"@.len() == 5);
    assert("stream"@.len() == 6);
    assert("model"@[0] == 'm');
    assert("tools"@[0] == 't');
    assert("system"@[1] == 'y');
    assert("stream"@[1] == 't');
    assert(request.body()->Object_0.dom() =~= set![
        "model"@,
        "max_tokens"@,
        "system"@,
        "messages"@,
        "tools"@,
        "stream"@,
    ]);
}

} // verus!
