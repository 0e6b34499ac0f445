//! A conversation as the messages of an Anthropic request.
use serde_json::Value;
use vstd::prelude::*;

use crate::chat_wire::{
    clone_values, image_note, local_shell_arguments, message_json, message_value, shell_arguments,
    shell_call_id, shell_id, text_part, text_part_value, tool_output_text,
};
use crate::json::{
    array_value, as_items_mut, bool_value, clone_value, empty_object, get_entry, get_entry_mut,
    is_text, json, jsons, number, number_value, object, opt_json, parse_value, parsed_json,
    set_entry, text_value, Json,
};
use crate::prompt::{
    first_failure, function_tools, functions, schema, EncodeError, FunctionView, ModelInfo,
    Prompt, ResponsesApiTool, ToolSpec,
};
use crate::protocol::{
    contents, items, ContentItem, ContentView, ItemView, ResponseItem,
};
use crate::text::{concat3, str_eq};

verus! {

/// How many tokens an answer may have.
pub const ANTHROPIC_DEFAULT_MAX_TOKENS: u32 = 4096;

/// What was read from a text, or an object that holds the text as it is.
pub open spec fn read_or_raw(parsed: Option<Json>, raw: Seq<char>) -> Json {
    match parsed {
        Some(value) => value,
        None => object().with("raw"@, Json::Text(raw)),
    }
}

/// What was read from a text, or an object that holds the text as it is.
pub fn value_or_raw(parsed: Option<Value>, raw: &str) -> (r: Value)
    ensures
        json(r) == read_or_raw(opt_json(parsed), raw@),
{
    match parsed {
        Some(value) => value,
        None => {
            let mut value = empty_object();
            set_entry(&mut value, "raw", text_value(raw));
            value
        },
    }
}

/// The value that a text encodes, or an object that holds the text as it is.
pub fn parse_json_or_raw(raw: &str) -> (r: Value)
    ensures
        json(r) == read_or_raw(parsed_json(raw@), raw@),
{
    value_or_raw(parse_value(raw), raw)
}

/// What stands for an image, by who shows it.
pub open spec fn shown_image(image_url: Seq<char>, role: Seq<char>) -> Seq<char> {
    if role == "assistant"@ {
        image_note(image_url)
    } else {
        "[User provided image: "@ + image_url + "]"@
    }
}

/// A piece of a message as a block.
pub open spec fn content_block(piece: ContentView, role: Seq<char>) -> Json {
    match piece {
        ContentView::InputText { text } => text_part(text),
        ContentView::OutputText { text } => text_part(text),
        ContentView::InputImage { image_url, .. } => text_part(shown_image(image_url, role)),
    }
}

/// The pieces of a message as blocks.
pub open spec fn content_blocks(content: Seq<ContentView>, role: Seq<char>) -> Seq<Json> {
    content.map_values(|c: ContentView| content_block(c, role))
}

/// The pieces of a message as blocks.
pub fn anthropic_blocks_for_content_items(content: &[ContentItem], role: &str) -> (r: Vec<
    Value,
>)
    ensures
        jsons(r@) == content_blocks(contents(content@), role@),
{
    let mut blocks: Vec<Value> = Vec::new();
    let ghost all = contents(content@);
    let mut i: usize = 0;
    while i < content.len()
        invariant
            i <= content@.len(),
            all == contents(content@),
            blocks@.len() == i,
            forall|k: int|
                0 <= k < i ==> json(#[trigger] blocks@[k]) == content_block(all[k], role@),
        decreases content@.len() - i,
    {
        match &content[i] {
            ContentItem::InputText { text } | ContentItem::OutputText { text } => {
                blocks.push(text_part_value(text.as_str()));
            },
            ContentItem::InputImage { image_url, .. } => {
                let text = if str_eq(role, "assistant") {
                    concat3("[Image omitted: ", image_url.as_str(), "]")
                } else {
                    concat3("[User provided image: ", image_url.as_str(), "]")
                };
                blocks.push(text_part_value(text.as_str()));
            },
        }
        i = i + 1;
    }
    assert(jsons(blocks@) =~= content_blocks(all, role@));
    blocks
}

/// The messages with some blocks more: behind those of the last message, where
/// that has the same role, else in a message of their own.
pub open spec fn with_blocks(messages: Seq<Json>, role: Seq<char>, blocks: Seq<Json>) -> Seq<
    Json,
> {
    if blocks.len() == 0 {
        messages
    } else if messages.len() > 0 && joins(messages.last(), role) {
        let last = messages.last();
        messages.drop_last().push(
            last.with("content"@, Json::Array(last.at("content"@)->Array_0 + blocks)),
        )
    } else {
        messages.push(message_json(role, Json::Array(blocks)))
    }
}

/// Whether blocks of a role can be added to a message.
pub open spec fn joins(message: Json, role: Seq<char>) -> bool {
    &&& message.get("role"@) == Some(Json::Text(role))
    &&& message.get("content"@) matches Some(Json::Array(_))
}

/// Adds blocks to a message, where its role and its content let it. Else they
/// are handed back.
fn join_message(message: &mut Value, role: &str, blocks: Vec<Value>) -> (r: Option<Vec<Value>>)
    ensures
        match r {
            None => {
                &&& joins(json(*old(message)), role@)
                &&& json(*final(message)) == json(*old(message)).with(
                    "content"@,
                    Json::Array(json(*old(message)).at("content"@)->Array_0 + jsons(blocks@)),
                )
            },
            Some(back) => {
                &&& !joins(json(*old(message)), role@)
                &&& json(*final(message)) == json(*old(message))
                &&& back == blocks
            },
        },
{
    if !is_text(get_entry(message, "role"), role) {
        return Some(blocks);
    }
    let ghost before = json(*message);
    match get_entry_mut(message, "content") {
        Some(content) => match as_items_mut(content) {
            Some(items) => {
                let ghost first = items@;
                let mut blocks = blocks;
                let ghost rest = blocks@;
                items.append(&mut blocks);
                assert(jsons(first + rest) =~= jsons(first) + jsons(rest));
                None
            },
            None => {
                proof {
                    assert(before.with("content"@, before.at("content"@)) =~= before) by {
                        assert(before->Object_0.insert("content"@, before.at("content"@))
                            =~= before->Object_0);
                    }
                }
                Some(blocks)
            },
        },
        None => Some(blocks),
    }
}

/// Adds blocks to the messages.
pub fn push_anthropic_message(messages: &mut Vec<Value>, role: &str, blocks: Vec<Value>)
    ensures
        jsons(final(messages)@) == with_blocks(jsons(old(messages)@), role@, jsons(blocks@)),
{
    let ghost before = messages@;
    assert(jsons(blocks@).len() == blocks@.len());
    assert(jsons(before).len() == before.len());
    if blocks.len() == 0 {
        return;
    }
    let blocks = match messages.pop() {
        Some(last) => {
            let mut last = last;
            let ghost front = messages@;
            assert(jsons(before).drop_last() =~= jsons(front));
            assert(jsons(before).last() == json(last));
            let ghost added = jsons(blocks@);
            let back = join_message(&mut last, role, blocks);
            messages.push(last);
            match back {
                Some(blocks) => {
                    assert(jsons(messages@) =~= jsons(before));
                    blocks
                },
                None => {
                    assert(jsons(messages@) =~= with_blocks(jsons(before), role@, added));
                    return;
                },
            }
        },
        None => blocks,
    };
    let ghost now = messages@;
    let message = message_value(role, array_value(blocks));
    messages.push(message);
    assert(jsons(messages@) =~= jsons(now).push(json(message)));
}

/// The role under which a message is sent: the model's own, or the user's.
pub open spec fn block_role(role: Seq<char>) -> Seq<char> {
    if role == "assistant"@ {
        "assistant"@
    } else {
        "user"@
    }
}

/// A call of a tool as a block.
pub open spec fn use_block(id: Seq<char>, name: Seq<char>, input: Json) -> Json {
    object().with("type"@, Json::Text("tool_use"@)).with("id"@, Json::Text(id)).with(
        "name"@,
        Json::Text(name),
    ).with("input"@, input)
}

/// A call of a tool as a block.
pub fn use_block_value(id: &str, name: &str, input: Value) -> (r: Value)
    ensures
        json(r) == use_block(id@, name@, json(input)),
{
    let mut block = empty_object();
    set_entry(&mut block, "type", text_value("tool_use"));
    set_entry(&mut block, "id", text_value(id));
    set_entry(&mut block, "name", text_value(name));
    set_entry(&mut block, "input", input);
    block
}

/// What a tool gave back as a block.
pub open spec fn result_block(id: Seq<char>, text: Seq<char>) -> Json {
    object().with("type"@, Json::Text("tool_result"@)).with("tool_use_id"@, Json::Text(id)).with(
        "content"@,
        Json::Text(text),
    )
}

/// What a tool gave back as a block.
fn result_block_value(id: &str, text: &str) -> (r: Value)
    ensures
        json(r) == result_block(id@, text@),
{
    let mut block = empty_object();
    set_entry(&mut block, "type", text_value("tool_result"));
    set_entry(&mut block, "tool_use_id", text_value(id));
    set_entry(&mut block, "content", text_value(text));
    block
}

/// The role under which an item of the conversation is sent.
pub open spec fn item_role(item: ItemView) -> Seq<char> {
    match item {
        ItemView::Message { role, .. } => block_role(role),
        ItemView::FunctionCallOutput { .. } => "user"@,
        ItemView::CustomToolCallOutput { .. } => "user"@,
        _ => "assistant"@,
    }
}

/// The blocks that an item of the conversation becomes. The input of a command
/// is the object of its arguments.
pub open spec fn item_blocks(item: ItemView) -> Seq<Json> {
    match item {
        ItemView::Message { role, content, .. } => content_blocks(content, block_role(role)),
        ItemView::FunctionCall { name, arguments, call_id, .. } => seq![
            use_block(call_id, name, read_or_raw(parsed_json(arguments), arguments)),
        ],
        ItemView::CustomToolCall { name, input, call_id } => seq![
            use_block(call_id, name, read_or_raw(parsed_json(input), input)),
        ],
        ItemView::LocalShellCall { id, call_id, action } => seq![
            use_block(shell_call_id(id, call_id), "local_shell"@, shell_arguments(action)),
        ],
        ItemView::FunctionCallOutput { call_id, output } => seq![
            result_block(call_id, output.display),
        ],
        ItemView::CustomToolCallOutput { call_id, output, .. } => seq![
            result_block(call_id, output.display),
        ],
        _ => Seq::empty(),
    }
}

/// The messages with an item of the conversation more.
pub open spec fn item_added(messages: Seq<Json>, item: ItemView) -> Seq<Json> {
    with_blocks(messages, item_role(item), item_blocks(item))
}

/// The messages with several items more, one after another.
pub open spec fn items_added(messages: Seq<Json>, items: Seq<ItemView>) -> Seq<Json>
    decreases items.len(),
{
    if items.len() == 0 {
        messages
    } else {
        item_added(items_added(messages, items.drop_last()), items.last())
    }
}

/// Adds one block to the messages.
fn push_block(messages: &mut Vec<Value>, role: &str, block: Value)
    ensures
        jsons(final(messages)@) == with_blocks(
            jsons(old(messages)@),
            role@,
            seq![json(block)],
        ),
{
    let mut blocks: Vec<Value> = Vec::new();
    blocks.push(block);
    assert(jsons(blocks@) =~= seq![json(block)]);
    push_anthropic_message(messages, role, blocks);
}

/// Adds an item of the conversation to the messages.
pub fn append_anthropic_messages_for_item(messages: &mut Vec<Value>, item: &ResponseItem)
    ensures
        jsons(final(messages)@) == item_added(jsons(old(messages)@), item@),
{
    match item {
        ResponseItem::Message { role, content, .. } => {
            let role = if str_eq(role.as_str(), "assistant") {
                "assistant"
            } else {
                "user"
            };
            let blocks = anthropic_blocks_for_content_items(content.as_slice(), role);
            push_anthropic_message(messages, role, blocks);
        },
        ResponseItem::FunctionCall { name, arguments, call_id, .. } => {
            let input = parse_json_or_raw(arguments.as_str());
            let block = use_block_value(call_id.as_str(), name.as_str(), input);
            push_block(messages, "assistant", block);
        },
        ResponseItem::CustomToolCall { name, input, call_id } => {
            let input = parse_json_or_raw(input.as_str());
            let block = use_block_value(call_id.as_str(), name.as_str(), input);
            push_block(messages, "assistant", block);
        },
        ResponseItem::LocalShellCall { id, call_id, action } => {
            let id = shell_id(id, call_id);
            let arguments = local_shell_arguments(action);
            let input = parse_json_or_raw(arguments.as_str());
            let block = use_block_value(id.as_str(), "local_shell", input);
            push_block(messages, "assistant", block);
        },
        ResponseItem::FunctionCallOutput { call_id, output } => {
            let text = tool_output_text(output);
            push_block(messages, "user", result_block_value(call_id.as_str(), text.as_str()));
        },
        ResponseItem::CustomToolCallOutput { call_id, output, .. } => {
            let text = tool_output_text(output);
            push_block(messages, "user", result_block_value(call_id.as_str(), text.as_str()));
        },
        ResponseItem::ToolSearchCall
        | ResponseItem::ToolSearchOutput
        | ResponseItem::WebSearchCall
        | ResponseItem::ImageGenerationCall
        | ResponseItem::Compaction
        | ResponseItem::CompactionTrigger
        | ResponseItem::ContextCompaction
        | ResponseItem::Reasoning { .. }
        | ResponseItem::Other => {},
    }
}

/// A function that the model may call, as JSON.
pub open spec fn anthropic_tool(tool: FunctionView) -> Json {
    object().with("name"@, Json::Text(tool.name)).with(
        "description"@,
        Json::Text(tool.description),
    ).with("input_schema"@, schema(tool))
}

/// A function that the model may call, as JSON. Without a schema there is none.
pub fn anthropic_function_tool(tool: &ResponsesApiTool) -> (r: Result<Value, EncodeError>)
    ensures
        match r {
            Ok(value) => tool@.parameters is Ok && json(value) == anthropic_tool(tool@),
            Err(error) => tool@.parameters == Err::<Json, Seq<char>>(error.message@),
        },
{
    match &tool.parameters {
        Ok(parameters) => {
            let mut value = empty_object();
            set_entry(&mut value, "name", text_value(tool.name.as_str()));
            set_entry(&mut value, "description", text_value(tool.description.as_str()));
            set_entry(&mut value, "input_schema", clone_value(parameters));
            Ok(value)
        },
        Err(error) => Err(EncodeError { message: error.message.clone() }),
    }
}

/// All functions among the tools, as JSON. The first that has no schema is the
/// reason why there are none.
pub fn anthropic_tools_for_specs(tools: &[ToolSpec]) -> (r: Result<Vec<Value>, EncodeError>)
    ensures
        match r {
            Ok(values) => first_failure(functions(tools@)) is None && jsons(values@) == functions(
                tools@,
            ).map_values(|t: FunctionView| anthropic_tool(t)),
            Err(error) => first_failure(functions(tools@)) == Some(error.message@),
        },
{
    let found = function_tools(tools);
    let ghost all = functions(tools@);
    let mut out: Vec<Value> = Vec::new();
    let mut i: usize = 0;
    assert(found@.len() == all.len()) by {
        assert(found@.map_values(|t: &ResponsesApiTool| t@).len() == all.len());
    }
    while i < found.len()
        invariant
            i <= found@.len(),
            found@.len() == all.len(),
            found@.map_values(|t: &ResponsesApiTool| t@) == all,
            out@.len() == i,
            first_failure(all.take(i as int)) is None,
            forall|k: int| 0 <= k < i ==> json(#[trigger] out@[k]) == anthropic_tool(all[k]),
            all == functions(tools@),
        decreases found@.len() - i,
    {
        proof {
            assert(all.take(i + 1).drop_last() =~= all.take(i as int));
            assert(found@.map_values(|t: &ResponsesApiTool| t@)[i as int] == found@[i as int]@);
            assert(all.take(i + 1).last() == found@[i as int]@);
        }
        match anthropic_function_tool(found[i]) {
            Ok(value) => {
                out.push(value);
            },
            Err(error) => {
                proof {
                    crate::prompt::lemma_first_failure_stays(all, i + 1);
                }
                return Err(error);
            },
        }
        i = i + 1;
    }
    proof {
        assert(all.take(all.len() as int) =~= all);
        assert(jsons(out@) =~= all.map_values(|t: FunctionView| anthropic_tool(t)));
    }
    Ok(out)
}

/// A request for an Anthropic message.
#[derive(Debug)]
pub struct AnthropicMessagesApiRequest {
    pub model: String,
    pub max_tokens: u32,
    pub system: String,
    pub messages: Vec<Value>,
    pub tools: Vec<Value>,
    pub stream: bool,
}

#[verifier::ext_equal]
pub struct MessagesRequestView {
    pub model: Seq<char>,
    pub max_tokens: u32,
    pub system: Seq<char>,
    pub messages: Seq<Json>,
    pub tools: Seq<Json>,
    pub stream: bool,
}

impl View for AnthropicMessagesApiRequest {
    type V = MessagesRequestView;

    open spec fn view(&self) -> MessagesRequestView {
        MessagesRequestView {
            model: self.model@,
            max_tokens: self.max_tokens,
            system: self.system@,
            messages: jsons(self.messages@),
            tools: jsons(self.tools@),
            stream: self.stream,
        }
    }
}

impl MessagesRequestView {
    /// The request as JSON.
    pub open spec fn body(self) -> Json {
        object().with("model"@, Json::Text(self.model)).with(
            "max_tokens"@,
            number(self.max_tokens as nat),
        ).with("system"@, Json::Text(self.system)).with(
            "messages"@,
            Json::Array(self.messages),
        ).with("tools"@, Json::Array(self.tools)).with("stream"@, Json::Bool(self.stream))
    }
}

impl AnthropicMessagesApiRequest {
    /// The request as JSON.
    pub fn body(&self) -> (r: Value)
        ensures
            json(r) == self@.body(),
    {
        let mut body = empty_object();
        set_entry(&mut body, "model", text_value(self.model.as_str()));
        set_entry(&mut body, "max_tokens", number_value(self.max_tokens as u64));
        set_entry(&mut body, "system", text_value(self.system.as_str()));
        set_entry(&mut body, "messages", array_value(clone_values(&self.messages)));
        set_entry(&mut body, "tools", array_value(clone_values(&self.tools)));
        set_entry(&mut body, "stream", bool_value(self.stream));
        body
    }
}

/// The request for a prompt whose functions all have a schema.
pub open spec fn messages_request(prompt: Prompt, model_info: ModelInfo) -> MessagesRequestView {
    MessagesRequestView {
        model: model_info.slug@,
        max_tokens: ANTHROPIC_DEFAULT_MAX_TOKENS,
        system: prompt.base_instructions.text@,
        messages: items_added(Seq::empty(), items(prompt.input@)),
        tools: functions(prompt.tools@).map_values(|t: FunctionView| anthropic_tool(t)),
        stream: true,
    }
}

/// The request for a prompt.
pub fn build_anthropic_messages_request(prompt: &Prompt, model_info: &ModelInfo) -> (r: Result<
    AnthropicMessagesApiRequest,
    EncodeError,
>)
    ensures
        match r {
            Ok(request) => first_failure(functions(prompt.tools@)) is None && request@
                == messages_request(*prompt, *model_info),
            Err(error) => first_failure(functions(prompt.tools@)) == Some(error.message@),
        },
{
    let mut messages: Vec<Value> = Vec::new();
    let ghost all = items(prompt.input@);
    let mut i: usize = 0;
    assert(jsons(messages@) =~= Seq::<Json>::empty());
    while i < prompt.input.len()
        invariant
            i <= prompt.input@.len(),
            all == items(prompt.input@),
            jsons(messages@) == items_added(Seq::empty(), all.take(i as int)),
        decreases prompt.input@.len() - i,
    {
        proof {
            assert(all.take(i + 1).drop_last() =~= all.take(i as int));
            assert(all.take(i + 1).last() == prompt.input@[i as int]@);
        }
        append_anthropic_messages_for_item(&mut messages, &prompt.input[i]);
        i = i + 1;
    }
    assert(all.take(all.len() as int) =~= all);
    let tools = match anthropic_tools_for_specs(prompt.tools.as_slice()) {
        Ok(tools) => tools,
        Err(error) => {
            return Err(error);
        },
    };
    let request = AnthropicMessagesApiRequest {
        model: model_info.slug.clone(),
        max_tokens: ANTHROPIC_DEFAULT_MAX_TOKENS,
        system: prompt.base_instructions.text.clone(),
        messages,
        tools,
        stream: true,
    };
    assert(request@ =~= messages_request(*prompt, *model_info));
    Ok(request)
}

} // verus!
