//! What a chat completions request keeps of the conversation that it is made of.
use vstd::prelude::*;

use crate::chat_wire::{
    call_json, calls_json, chat_content, conversation, fresh_builder, message_json, output_json,
    reasoning_text, request_messages, sent_role, shell_arguments, shell_call_id, system_text,
    BuilderView, WireRequestView,
};
use crate::json::{rendered_json, Json};
use crate::protocol::ItemView;
use crate::text::joined;

verus! {

/// The calls of functions in a message.
pub open spec fn calls_in(message: Json) -> Seq<Json> {
    match message.get("tool_calls"@) {
        Some(Json::Array(calls)) => calls,
        _ => Seq::empty(),
    }
}

/// The calls of functions in several messages, in their order.
pub open spec fn all_calls(messages: Seq<Json>) -> Seq<Json>
    decreases messages.len(),
{
    if messages.len() == 0 {
        Seq::empty()
    } else {
        all_calls(messages.drop_last()) + calls_in(messages.last())
    }
}

/// The messages that call no functions, in their order.
pub open spec fn spoken(messages: Seq<Json>) -> Seq<Json>
    decreases messages.len(),
{
    if messages.len() == 0 {
        Seq::empty()
    } else {
        let before = spoken(messages.drop_last());
        if messages.last().has("tool_calls"@) {
            before
        } else {
            before.push(messages.last())
        }
    }
}

/// The call that an item of the conversation makes.
pub open spec fn item_calls(item: ItemView) -> Seq<Json> {
    match item {
        ItemView::FunctionCall { name, arguments, call_id, .. } => seq![
            call_json(call_id, name, arguments),
        ],
        ItemView::CustomToolCall { name, input, call_id } => seq![call_json(call_id, name, input)],
        ItemView::LocalShellCall { id, call_id, action } => seq![
            call_json(
                shell_call_id(id, call_id),
                "local_shell"@,
                rendered_json(shell_arguments(action)),
            ),
        ],
        _ => Seq::empty(),
    }
}

/// The message that an item of the conversation is, if it is one that is neither
/// a call nor said by the system.
pub open spec fn item_message(item: ItemView) -> Seq<Json> {
    match item {
        ItemView::Message { role, content, .. } => match chat_content(content) {
            Some(content) => if sent_role(role) == "system"@ {
                Seq::empty()
            } else {
                seq![message_json(sent_role(role), content)]
            },
            None => Seq::empty(),
        },
        ItemView::FunctionCallOutput { call_id, output } => seq![
            output_json(call_id, output.display),
        ],
        ItemView::CustomToolCallOutput { call_id, output, .. } => seq![
            output_json(call_id, output.display),
        ],
        _ => Seq::empty(),
    }
}

/// What the system says in an item of the conversation.
pub open spec fn item_system(item: ItemView) -> Seq<Seq<char>> {
    match item {
        ItemView::Message { role, content, .. } => if sent_role(role) == "system"@ && system_text(
            content,
        ).len() > 0 {
            seq![system_text(content)]
        } else {
            Seq::empty()
        },
        _ => Seq::empty(),
    }
}

/// The calls that the items make, in their order.
pub open spec fn calls_made(items: Seq<ItemView>) -> Seq<Json>
    decreases items.len(),
{
    if items.len() == 0 {
        Seq::empty()
    } else {
        calls_made(items.drop_last()) + item_calls(items.last())
    }
}

/// The messages that the items are, in their order.
pub open spec fn messages_said(items: Seq<ItemView>) -> Seq<Json>
    decreases items.len(),
{
    if items.len() == 0 {
        Seq::empty()
    } else {
        messages_said(items.drop_last()) + item_message(items.last())
    }
}

/// What the system says in the items, in their order.
pub open spec fn system_said(items: Seq<ItemView>) -> Seq<Seq<char>>
    decreases items.len(),
{
    if items.len() == 0 {
        Seq::empty()
    } else {
        system_said(items.drop_last()) + item_system(items.last())
    }
}

/// The keys of messages, and the roles that are fixed, are all different.
pub(crate) proof fn lemma_names()
    ensures
        "role"@ != "content"@,
        "role"@ != "tool_calls"@,
        "role"@ != "reasoning_content"@,
        "role"@ != "tool_call_id"@,
        "tool_calls"@ != "content"@,
        "tool_calls"@ != "reasoning_content"@,
        "tool_calls"@ != "tool_call_id"@,
        "reasoning_content"@ != "content"@,
        "reasoning_content"@ != "tool_call_id"@,
        "assistant"@ != "system"@,
        "tool"@ != "system"@,
{
    reveal_strlit("role");
    reveal_strlit("content");
    reveal_strlit("tool_calls");
    reveal_strlit("reasoning_content");
    reveal_strlit("tool_call_id");
    reveal_strlit("assistant");
    reveal_strlit("system");
    reveal_strlit("tool");
    assert("role"@.len() == 4);
    assert("content"@.len() == 7);
    assert("tool_calls"@.len() == 10);
    assert("reasoning_content"@.len() == 17);
    assert("tool_call_id"@.len() == 12);
    assert("assistant"@.len() == 9);
    assert("system"@.len() == 6);
    assert("tool"@.len() == 4);
}

/// What holds of a message: the system does not say it, and reasoning is kept
/// only beside calls, and only if it is to be kept.
pub open spec fn message_holds(message: Json, preserve: bool) -> bool {
    &&& message.get("role"@) != Some(Json::Text("system"@))
    &&& message.has("reasoning_content"@) ==> preserve && calls_in(message).len() > 0
}

/// What holds of a conversation at every point of going through it.
spec fn holds(
    b: BuilderView,
    calls: Seq<Json>,
    said: Seq<Json>,
    system: Seq<Seq<char>>,
) -> bool {
    &&& all_calls(b.messages) + b.pending_calls == calls
    &&& spoken(b.messages) == said
    &&& b.system_messages == system
    &&& forall|i: int| 0 <= i < b.messages.len() ==> message_holds(
        #[trigger] b.messages[i],
        b.preserve,
    )
    &&& !b.preserve ==> b.pending_reasoning is None
}

proof fn lemma_flushed(
    b: BuilderView,
    calls: Seq<Json>,
    said: Seq<Json>,
    system: Seq<Seq<char>>,
)
    requires
        holds(b, calls, said, system),
    ensures
        holds(b.flushed(), calls, said, system),
        b.flushed().pending_calls.len() == 0,
        b.flushed().preserve == b.preserve,
{
    if b.pending_calls.len() > 0 {
        lemma_names();
        let message = calls_json(b.pending_calls, b.pending_reasoning);
        let after = b.flushed();
        assert(after.messages.drop_last() =~= b.messages);
        assert(calls_in(message) == b.pending_calls);
        assert(all_calls(after.messages) + after.pending_calls =~= calls);
        assert forall|i: int| 0 <= i < after.messages.len() implies message_holds(
            #[trigger] after.messages[i],
            after.preserve,
        ) by {
            if i < b.messages.len() {
                assert(after.messages[i] == b.messages[i]);
            } else {
                assert(after.messages[i] == message);
            }
        }
    }
}

proof fn lemma_said(
    b: BuilderView,
    message: Json,
    calls: Seq<Json>,
    said: Seq<Json>,
    system: Seq<Seq<char>>,
)
    requires
        holds(b, calls, said, system),
        b.pending_calls.len() == 0,
        !message.has("tool_calls"@),
        !message.has("reasoning_content"@),
        message.get("role"@) != Some(Json::Text("system"@)),
    ensures
        holds(b.with_message(message), calls, said + seq![message], system),
{
    let after = b.with_message(message);
    assert(after.messages.drop_last() =~= b.messages);
    assert(calls_in(message) =~= Seq::empty());
    assert(all_calls(after.messages) + after.pending_calls =~= all_calls(b.messages)
        + b.pending_calls);
    assert(spoken(after.messages) =~= said + seq![message]);
    assert forall|i: int| 0 <= i < after.messages.len() implies message_holds(
        #[trigger] after.messages[i],
        after.preserve,
    ) by {
        if i < b.messages.len() {
            assert(after.messages[i] == b.messages[i]);
        } else {
            assert(after.messages[i] == message);
        }
    }
}

proof fn lemma_appended(
    b: BuilderView,
    item: ItemView,
    calls: Seq<Json>,
    said: Seq<Json>,
    system: Seq<Seq<char>>,
)
    requires
        holds(b, calls, said, system),
    ensures
        holds(
            b.appended(item),
            calls + item_calls(item),
            said + item_message(item),
            system + item_system(item),
        ),
        b.appended(item).preserve == b.preserve,
{
    lemma_names();
    lemma_flushed(b, calls, said, system);
    let flat = b.flushed();
    let after = b.appended(item);
    match item {
        ItemView::Message { role, content, .. } => {
            assert(calls + item_calls(item) =~= calls);
            if sent_role(role) == "system"@ {
                assert(said + item_message(item) =~= said);
                assert(after.system_messages =~= system + item_system(item));
            } else {
                assert(system + item_system(item) =~= system);
                match chat_content(content) {
                    Some(content) => {
                        lemma_said(
                            flat,
                            message_json(sent_role(role), content),
                            calls,
                            said,
                            system,
                        );
                    },
                    None => {
                        assert(said + item_message(item) =~= said);
                    },
                }
            }
        },
        ItemView::FunctionCallOutput { call_id, output } => {
            assert(calls + item_calls(item) =~= calls);
            assert(system + item_system(item) =~= system);
            lemma_said(flat, output_json(call_id, output.display), calls, said, system);
        },
        ItemView::CustomToolCallOutput { call_id, output, .. } => {
            assert(calls + item_calls(item) =~= calls);
            assert(system + item_system(item) =~= system);
            lemma_said(flat, output_json(call_id, output.display), calls, said, system);
        },
        _ => {
            assert(said + item_message(item) =~= said);
            assert(system + item_system(item) =~= system);
            assert(all_calls(after.messages) + after.pending_calls =~= calls + item_calls(item));
        },
    }
}

proof fn lemma_appended_all(
    b: BuilderView,
    items: Seq<ItemView>,
    calls: Seq<Json>,
    said: Seq<Json>,
    system: Seq<Seq<char>>,
)
    requires
        holds(b, calls, said, system),
    ensures
        holds(
            b.appended_all(items),
            calls + calls_made(items),
            said + messages_said(items),
            system + system_said(items),
        ),
        b.appended_all(items).preserve == b.preserve,
    decreases items.len(),
{
    if items.len() == 0 {
        assert(calls + calls_made(items) =~= calls);
        assert(said + messages_said(items) =~= said);
        assert(system + system_said(items) =~= system);
    } else {
        let front = items.drop_last();
        let last = items.last();
        lemma_appended_all(b, front, calls, said, system);
        lemma_appended(
            b.appended_all(front),
            last,
            calls + calls_made(front),
            said + messages_said(front),
            system + system_said(front),
        );
        assert(calls + calls_made(items) =~= calls + calls_made(front) + item_calls(last));
        assert(said + messages_said(items) =~= said + messages_said(front) + item_message(last));
        assert(system + system_said(items) =~= system + system_said(front) + item_system(last));
    }
}

/// A request holds all of the conversation, each kind in its order: every call
/// of a function, whether others wait beside it or not; every message and every
/// output of a function; and, apart from them, all that the system says, the
/// instructions first. No message of the conversation is said by the system, and
/// reasoning stands only beside calls, and only where it is to be preserved.
pub proof fn law_the_conversation_is_kept(
    instructions: Seq<char>,
    input: Seq<ItemView>,
    preserve: bool,
)
    ensures
        ({
            let end = conversation(instructions, input, preserve);
            let first = if instructions.len() == 0 {
                Seq::empty()
            } else {
                seq![instructions]
            };
            &&& end.pending_calls.len() == 0
            &&& all_calls(end.messages) == calls_made(input)
            &&& spoken(end.messages) == messages_said(input)
            &&& end.system_messages == first + system_said(input)
            &&& forall|i: int| 0 <= i < end.messages.len() ==> message_holds(
                #[trigger] end.messages[i],
                preserve,
            )
        }),
{
    let start = if instructions.len() == 0 {
        fresh_builder(preserve)
    } else {
        fresh_builder(preserve).with_system(instructions)
    };
    let none = Seq::<Json>::empty();
    assert(all_calls(start.messages) + start.pending_calls =~= none);
    assert(holds(start, none, none, start.system_messages));
    lemma_appended_all(start, input, none, none, start.system_messages);
    let whole = start.appended_all(input);
    lemma_flushed(
        whole,
        none + calls_made(input),
        none + messages_said(input),
        start.system_messages + system_said(input),
    );
    let end = whole.flushed();
    assert(none + calls_made(input) =~= calls_made(input));
    assert(none + messages_said(input) =~= messages_said(input));
    assert(all_calls(end.messages) + end.pending_calls =~= all_calls(end.messages));
    if instructions.len() > 0 {
        assert(start.system_messages =~= seq![instructions]);
    }
}

/// A request has at most one message of the system. It stands first, and holds
/// all that the system says, with an empty line between the parts.
pub proof fn law_the_system_speaks_once(
    instructions: Seq<char>,
    input: Seq<ItemView>,
    preserve: bool,
)
    ensures
        ({
            let end = conversation(instructions, input, preserve);
            let messages = request_messages(end);
            &&& forall|i: int| 0 < i < messages.len() ==> (#[trigger] messages[i]).get("role"@)
                != Some(Json::Text("system"@))
            &&& end.system_messages.len() == 0 ==> messages == end.messages
            &&& end.system_messages.len() > 0 ==> messages[0].get("role"@) == Some(
                Json::Text("system"@),
            ) && messages[0].get("content"@) == Some(
                Json::Text(joined(end.system_messages, "\n\n"@)),
            ) && messages.skip(1) == end.messages
        }),
{
    lemma_names();
    law_the_conversation_is_kept(instructions, input, preserve);
    let end = conversation(instructions, input, preserve);
    let messages = request_messages(end);
    assert forall|i: int| 0 < i < messages.len() implies (#[trigger] messages[i]).get("role"@)
        != Some(Json::Text("system"@)) by {
        if end.system_messages.len() == 0 {
            assert(message_holds(end.messages[i], preserve));
        } else {
            assert(messages[i] == end.messages[i - 1]);
            assert(message_holds(end.messages[i - 1], preserve));
        }
    }
    if end.system_messages.len() > 0 {
        assert(messages.skip(1) =~= end.messages);
    }
}

/// Reasoning that leads to a call goes out with the call: where the model thinks
/// and then calls a function, one message holds the call and the thought.
pub proof fn law_reasoning_goes_with_the_call(
    b: BuilderView,
    thought: ItemView,
    call: ItemView,
)
    requires
        b.preserve,
        b.pending_calls.len() == 0,
        b.pending_reasoning is None,
        thought matches ItemView::Reasoning { summary, content, .. } && reasoning_text(
            summary,
            content,
        ).len() > 0,
        item_calls(call).len() == 1,
    ensures
        ({
            let end = b.appended(thought).appended(call).flushed();
            &&& end.messages == b.messages.push(
                calls_json(
                    item_calls(call),
                    Some(reasoning_text(thought->summary, thought->Reasoning_content)),
                ),
            )
            &&& end.pending_calls.len() == 0
            &&& end.pending_reasoning is None
        }),
{
    let after = b.appended(thought).appended(call);
    assert(after.pending_calls =~= item_calls(call));
}

/// A request as JSON has an entry for what is set, and none for what is not.
pub proof fn law_what_is_not_set_has_no_entry(request: WireRequestView)
    ensures
        request.body().get("tool_choice"@) == request.tool_choice,
        request.body().get("response_format"@) == request.response_format,
        request.body().get("parallel_tool_calls"@) == (match request.parallel_tool_calls {
            Some(b) => Some(Json::Bool(b)),
            None => None,
        }),
        request.body().get("reasoning_effort"@) == (match request.reasoning_effort {
            Some(effort) => Some(Json::Text(effort.spec_name())),
            None => None,
        }),
        request.body().get("service_tier"@) == (match request.service_tier {
            Some(tier) => Some(Json::Text(tier)),
            None => None,
        }),
{
    reveal_strlit("model");
    reveal_strlit("messages");
    reveal_strlit("tool_choice");
    reveal_strlit("parallel_tool_calls");
    reveal_strlit("tools");
    reveal_strlit("stream");
    reveal_strlit("reasoning_effort");
    reveal_strlit("response_format");
    reveal_strlit("service_tier");
    assert("model"@.len() == 5);
    assert("messages"@.len() == 8);
    assert("tool_choice"@.len() == 11);
    assert("parallel_tool_calls"@.len() == 19);
    assert("tools"@.len() == 5);
    assert("stream"@.len() == 6);
    assert("reasoning_effort"@.len() == 16);
    assert("response_format"@.len() == 15);
    assert("service_tier"@.len() == 12);
}

} // verus!
