//! What an Anthropic request keeps of the conversation that it is made of.
use vstd::prelude::*;

use crate::anthropic_wire::{
    item_added, item_blocks, item_role, items_added, joins, with_blocks,
};
use crate::chat_wire::message_json;
use crate::json::Json;
use crate::protocol::ItemView;

verus! {

/// The role of a message.
pub open spec fn role_of(message: Json) -> Seq<char> {
    message.at("role"@)->Text_0
}

/// The blocks of a message.
pub open spec fn blocks_of(message: Json) -> Seq<Json> {
    message.at("content"@)->Array_0
}

/// Whether a message is one as it should be: of the user or of the model, and
/// with at least one block.
pub open spec fn proper(message: Json) -> bool {
    &&& message.get("role"@) matches Some(Json::Text(_))
    &&& message.get("content"@) matches Some(Json::Array(_))
    &&& role_of(message) == "user"@ || role_of(message) == "assistant"@
    &&& blocks_of(message).len() > 0
}

/// Whether messages are as they should be, and take turns: no two in a row have
/// the same role.
pub open spec fn take_turns(messages: Seq<Json>) -> bool {
    &&& forall|i: int| 0 <= i < messages.len() ==> proper(#[trigger] messages[i])
    &&& forall|i: int, j: int|
        0 <= i < messages.len() && 0 <= j < messages.len() && j == i + 1 ==> role_of(
            #[trigger] messages[i],
        ) != role_of(#[trigger] messages[j])
}

/// Blocks, each with the role under which it is sent.
pub open spec fn under(role: Seq<char>, blocks: Seq<Json>) -> Seq<(Seq<char>, Json)> {
    blocks.map_values(|b: Json| (role, b))
}

/// All blocks of several messages, in their order.
pub open spec fn all_blocks(messages: Seq<Json>) -> Seq<(Seq<char>, Json)>
    decreases messages.len(),
{
    if messages.len() == 0 {
        Seq::empty()
    } else {
        all_blocks(messages.drop_last()) + under(
            role_of(messages.last()),
            blocks_of(messages.last()),
        )
    }
}

/// All blocks that the items of a conversation become, in their order.
pub open spec fn blocks_said(items: Seq<ItemView>) -> Seq<(Seq<char>, Json)>
    decreases items.len(),
{
    if items.len() == 0 {
        Seq::empty()
    } else {
        blocks_said(items.drop_last()) + under(item_role(items.last()), item_blocks(items.last()))
    }
}

proof fn lemma_keys()
    ensures
        "role"@ != "content"@,
{
    reveal_strlit("role");
    reveal_strlit("content");
    assert("role"@.len() == 4);
    assert("content"@.len() == 7);
}

proof fn lemma_with_blocks(messages: Seq<Json>, role: Seq<char>, blocks: Seq<Json>)
    requires
        take_turns(messages),
        role == "user"@ || role == "assistant"@,
    ensures
        take_turns(with_blocks(messages, role, blocks)),
        all_blocks(with_blocks(messages, role, blocks)) == all_blocks(messages) + under(
            role,
            blocks,
        ),
{
    lemma_keys();
    let after = with_blocks(messages, role, blocks);
    if blocks.len() == 0 {
        assert(all_blocks(messages) + under(role, blocks) =~= all_blocks(messages));
    } else if messages.len() > 0 && joins(messages.last(), role) {
        let front = messages.drop_last();
        let last = messages.last();
        let grown = after.last();
        assert(after.drop_last() =~= front);
        assert(role_of(grown) == role_of(last));
        assert(blocks_of(grown) == blocks_of(last) + blocks);
        assert(under(role, blocks_of(last) + blocks) =~= under(role, blocks_of(last)) + under(
            role,
            blocks,
        ));
        assert(all_blocks(after) =~= all_blocks(messages) + under(role, blocks));
        assert(proper(messages[messages.len() - 1]));
        assert forall|i: int| 0 <= i < after.len() implies proper(#[trigger] after[i]) by {
            if i < front.len() {
                assert(after[i] == messages[i]);
            }
        }
        assert forall|i: int, j: int|
            0 <= i < after.len() && 0 <= j < after.len() && j == i + 1 implies role_of(
            #[trigger] after[i],
        ) != role_of(#[trigger] after[j]) by {
            assert(after[i] == messages[i]);
            assert(role_of(after[j]) == role_of(messages[j]));
        }
    } else {
        let message = message_json(role, Json::Array(blocks));
        assert(after.drop_last() =~= messages);
        assert(role_of(message) == role);
        assert(blocks_of(message) == blocks);
        if messages.len() > 0 {
            assert(proper(messages[messages.len() - 1]));
        }
        assert forall|i: int| 0 <= i < after.len() implies proper(#[trigger] after[i]) by {
            if i < messages.len() {
                assert(after[i] == messages[i]);
            }
        }
        assert forall|i: int, j: int|
            0 <= i < after.len() && 0 <= j < after.len() && j == i + 1 implies role_of(
            #[trigger] after[i],
        ) != role_of(#[trigger] after[j]) by {
            assert(after[i] == messages[i]);
            if j < messages.len() {
                assert(after[j] == messages[j]);
            }
        }
    }
}

/// The messages of a request take turns: each is of the user or of the model,
/// none is empty, and no two in a row are of the same.
pub proof fn law_messages_take_turns(items: Seq<ItemView>)
    ensures
        take_turns(items_added(Seq::empty(), items)),
    decreases items.len(),
{
    if items.len() > 0 {
        law_messages_take_turns(items.drop_last());
        lemma_with_blocks(
            items_added(Seq::empty(), items.drop_last()),
            item_role(items.last()),
            item_blocks(items.last()),
        );
    }
}

/// A request holds all blocks of the conversation, in their order and each under
/// its role, whichever of them stand in one message.
pub proof fn law_all_blocks_are_kept(items: Seq<ItemView>)
    ensures
        all_blocks(items_added(Seq::empty(), items)) == blocks_said(items),
    decreases items.len(),
{
    if items.len() > 0 {
        law_all_blocks_are_kept(items.drop_last());
        law_messages_take_turns(items.drop_last());
        lemma_with_blocks(
            items_added(Seq::empty(), items.drop_last()),
            item_role(items.last()),
            item_blocks(items.last()),
        );
    }
}

/// Reasoning, searches, images and compactions leave no trace in a request.
pub proof fn law_other_items_are_left_out(messages: Seq<Json>, item: ItemView)
    requires
        !(item is Message),
        !(item is FunctionCall),
        !(item is CustomToolCall),
        !(item is LocalShellCall),
        !(item is FunctionCallOutput),
        !(item is CustomToolCallOutput),
    ensures
        item_added(messages, item) == messages,
{
}

} // verus!
