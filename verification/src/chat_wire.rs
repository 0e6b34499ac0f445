//! A conversation as the messages of a chat completions request.
use serde_json::Value;
use vstd::prelude::*;
use vstd::string::*;

use crate::json::{
    array_value, bool_value, clone_value, empty_object, get_entry, is_text, json, jsons,
    null_value, number, number_value, object, opt_json, opt_text_value, parsed_json,
    plain_within, render_value, rendered_json, set_entry, text_array, text_or_null, text_value,
    texts_value, Json,
};
use crate::prompt::{
    first_failure, function_tools, functions, schema, EncodeError, FunctionView, ModelInfo,
    Prompt, ReasoningEffort, ResponsesApiTool, ToolSpec,
};
use crate::protocol::{
    contents, items, reasonings, summaries, ContentItem, ContentView, ItemView, LocalShellAction,
    FunctionCallOutputPayload, ReasoningItemContent, ReasoningItemReasoningSummary,
    ReasoningView, ResponseItem, ShellView,
};
use crate::text::{
    concat3, concatenated, decimal, join_texts, joined, opt_text, str_eq, texts,
};

verus! {

/// The role under which a message is sent: what a developer says counts as
/// said by the system.
pub open spec fn sent_role(role: Seq<char>) -> Seq<char> {
    if role == "developer"@ {
        "system"@
    } else {
        role
    }
}

/// The role under which a message is sent.
pub fn chat_message_role(role: &str) -> (r: &str)
    ensures
        r@ == sent_role(role@),
{
    if str_eq(role, "developer") {
        "system"
    } else {
        role
    }
}

/// What stands for an image where none can be sent.
pub open spec fn image_note(image_url: Seq<char>) -> Seq<char> {
    "[Image omitted: "@ + image_url + "]"@
}

/// The text of a message of the system. An image is noted on a line of its own.
pub open spec fn system_text(content: Seq<ContentView>) -> Seq<char>
    decreases content.len(),
{
    if content.len() == 0 {
        Seq::empty()
    } else {
        let before = system_text(content.drop_last());
        match content.last() {
            ContentView::InputText { text } => before + text,
            ContentView::OutputText { text } => before + text,
            ContentView::InputImage { image_url, .. } => (if before.len() == 0 {
                before
            } else {
                before + "\n"@
            }) + image_note(image_url),
        }
    }
}

/// A text, unless it is empty.
pub open spec fn unless_empty(text: Seq<char>) -> Option<Seq<char>> {
    if text.len() == 0 {
        None
    } else {
        Some(text)
    }
}

/// A text, unless it is empty.
fn drop_empty(text: String) -> (r: Option<String>)
    ensures
        opt_text(r) == unless_empty(text@),
{
    if text.as_str().is_empty() {
        None
    } else {
        Some(text)
    }
}

/// The text of a message of the system, unless it is empty.
pub fn chat_system_content_for_items(content: &[ContentItem]) -> (r: Option<String>)
    ensures
        opt_text(r) == unless_empty(system_text(contents(content@))),
{
    let mut text = String::new();
    let ghost all = contents(content@);
    let mut i: usize = 0;
    while i < content.len()
        invariant
            i <= content@.len(),
            all == contents(content@),
            text@ == system_text(all.take(i as int)),
        decreases content@.len() - i,
    {
        proof {
            assert(all.take(i + 1).drop_last() =~= all.take(i as int));
            assert(all.take(i + 1).last() == content@[i as int]@);
        }
        match &content[i] {
            ContentItem::InputText { text: chunk } | ContentItem::OutputText { text: chunk } => {
                text.append(chunk.as_str());
            },
            ContentItem::InputImage { image_url, .. } => {
                if !text.as_str().is_empty() {
                    text.append("\n");
                }
                let note = concat3("[Image omitted: ", image_url.as_str(), "]");
                text.append(note.as_str());
            },
        }
        i = i + 1;
    }
    assert(all.take(all.len() as int) =~= all);
    drop_empty(text)
}

/// The text of a piece of reasoning.
pub open spec fn reasoning_chunk(piece: ReasoningView) -> Seq<char> {
    match piece {
        ReasoningView::ReasoningText { text } => text,
        ReasoningView::Text { text } => text,
    }
}

/// The text of a reasoning item: that of its content or, where there is none,
/// that of its summary.
pub open spec fn reasoning_text(
    summary: Seq<Seq<char>>,
    content: Option<Seq<ReasoningView>>,
) -> Seq<char> {
    let said = match content {
        Some(pieces) => concatenated(pieces.map_values(|p: ReasoningView| reasoning_chunk(p))),
        None => Seq::empty(),
    };
    if said.len() == 0 {
        concatenated(summary)
    } else {
        said
    }
}

/// The text of the pieces of a reasoning item's content.
fn content_text(content: &Vec<ReasoningItemContent>) -> (r: String)
    ensures
        r@ == concatenated(
            reasonings(content@).map_values(|p: ReasoningView| reasoning_chunk(p)),
        ),
{
    let mut text = String::new();
    let ghost all = reasonings(content@).map_values(|p: ReasoningView| reasoning_chunk(p));
    let mut i: usize = 0;
    while i < content.len()
        invariant
            i <= content@.len(),
            all == reasonings(content@).map_values(|p: ReasoningView| reasoning_chunk(p)),
            text@ == concatenated(all.take(i as int)),
        decreases content@.len() - i,
    {
        proof {
            assert(all.take(i + 1).drop_last() =~= all.take(i as int));
            assert(all.take(i + 1).last() == reasoning_chunk(content@[i as int]@));
        }
        match &content[i] {
            ReasoningItemContent::ReasoningText { text: chunk }
            | ReasoningItemContent::Text { text: chunk } => text.append(chunk.as_str()),
        }
        i = i + 1;
    }
    assert(all.take(all.len() as int) =~= all);
    text
}

/// The text of a reasoning item, unless it is empty.
pub fn chat_reasoning_text(
    summary: &Vec<ReasoningItemReasoningSummary>,
    content: &Option<Vec<ReasoningItemContent>>,
) -> (r: Option<String>)
    ensures
        opt_text(r) == unless_empty(
            reasoning_text(
                summaries(summary@),
                match *content {
                    Some(pieces) => Some(reasonings(pieces@)),
                    None => None,
                },
            ),
        ),
{
    let mut text = match content {
        Some(pieces) => content_text(pieces),
        None => String::new(),
    };
    if text.as_str().is_empty() {
        let ghost all = summaries(summary@);
        let mut i: usize = 0;
        assert(text@ =~= Seq::empty());
        while i < summary.len()
            invariant
                i <= summary@.len(),
                all == summaries(summary@),
                text@ == concatenated(all.take(i as int)),
            decreases summary@.len() - i,
        {
            proof {
                assert(all.take(i + 1).drop_last() =~= all.take(i as int));
                assert(all.take(i + 1).last() == summary@[i as int]@);
            }
            match &summary[i] {
                ReasoningItemReasoningSummary::SummaryText { text: chunk } => {
                    text.append(chunk.as_str());
                },
            }
            i = i + 1;
        }
        assert(all.take(all.len() as int) =~= all);
    }
    drop_empty(text)
}

/// A piece of a message as JSON.
pub open spec fn content_part(piece: ContentView) -> Json {
    match piece {
        ContentView::InputText { text } => text_part(text),
        ContentView::OutputText { text } => text_part(text),
        ContentView::InputImage { image_url, detail } => {
            let url = object().with("url"@, Json::Text(image_url));
            object().with("type"@, Json::Text("image_url"@)).with(
                "image_url"@,
                match detail {
                    Some(level) => url.with("detail"@, Json::Text(level)),
                    None => url,
                },
            )
        },
    }
}

/// A piece of text as JSON.
pub open spec fn text_part(text: Seq<char>) -> Json {
    object().with("type"@, Json::Text("text"@)).with("text"@, Json::Text(text))
}

/// The text of a piece of a message.
pub open spec fn content_chunk(piece: ContentView) -> Seq<char> {
    match piece {
        ContentView::InputText { text } => text,
        ContentView::OutputText { text } => text,
        ContentView::InputImage { .. } => Seq::empty(),
    }
}

/// The content of a message as JSON: one text where there is nothing but text,
/// else the pieces one by one. A message without pieces has none.
pub open spec fn chat_content(content: Seq<ContentView>) -> Option<Json> {
    if content.len() == 0 {
        None
    } else if forall|i: int| 0 <= i < content.len() ==> !(content[i] is InputImage) {
        Some(Json::Text(concatenated(content.map_values(|c: ContentView| content_chunk(c)))))
    } else {
        Some(Json::Array(content.map_values(|c: ContentView| content_part(c))))
    }
}

/// A piece of text as JSON.
pub(crate) fn text_part_value(text: &str) -> (r: Value)
    ensures
        json(r) == text_part(text@),
{
    let mut part = empty_object();
    set_entry(&mut part, "type", text_value("text"));
    set_entry(&mut part, "text", text_value(text));
    part
}

/// A piece of a message as JSON.
fn content_part_value(piece: &ContentItem) -> (r: Value)
    ensures
        json(r) == content_part(piece@),
{
    match piece {
        ContentItem::InputText { text } | ContentItem::OutputText { text } => text_part_value(
            text.as_str(),
        ),
        ContentItem::InputImage { image_url, detail } => {
            let mut url = empty_object();
            set_entry(&mut url, "url", text_value(image_url.as_str()));
            if let Some(level) = detail {
                set_entry(&mut url, "detail", text_value(level.as_str()));
            }
            let mut part = empty_object();
            set_entry(&mut part, "type", text_value("image_url"));
            set_entry(&mut part, "image_url", url);
            part
        },
    }
}

/// A part is of the type `text` exactly where it is made of text.
proof fn lemma_part_type(piece: ContentView)
    ensures
        (content_part(piece).get("type"@) == Some(Json::Text("text"@))) == !(piece is InputImage),
{
    reveal_strlit("type");
    reveal_strlit("text");
    reveal_strlit("image_url");
    assert("type"@ != "image_url"@) by {
        assert("type"@.len() == 4);
        assert("image_url"@.len() == 9);
    }
    assert("text"@ != "image_url"@) by {
        assert("text"@.len() == 4);
        assert("image_url"@.len() == 9);
    }
    assert("type"@ != "text"@) by {
        assert("type"@[1] == 'y');
        assert("text"@[1] == 'e');
    }
}

/// Whether all parts are of the type `text`.
fn all_text(parts: &Vec<Value>, Ghost(content): Ghost<Seq<ContentView>>) -> (r: bool)
    requires
        jsons(parts@) == content.map_values(|c: ContentView| content_part(c)),
    ensures
        r == (forall|i: int| 0 <= i < content.len() ==> !(content[i] is InputImage)),
{
    let mut i: usize = 0;
    assert(jsons(parts@).len() == content.len());
    while i < parts.len()
        invariant
            i <= parts@.len(),
            parts@.len() == content.len(),
            jsons(parts@) == content.map_values(|c: ContentView| content_part(c)),
            forall|k: int| 0 <= k < i ==> !(#[trigger] content[k] is InputImage),
        decreases parts@.len() - i,
    {
        proof {
            assert(jsons(parts@)[i as int] == content_part(content[i as int]));
            lemma_part_type(content[i as int]);
        }
        if !is_text(get_entry(&parts[i], "type"), "text") {
            assert(content[i as int] is InputImage);
            return false;
        }
        i = i + 1;
    }
    true
}

/// The content of a message as JSON.
pub fn chat_content_for_items(content: &[ContentItem]) -> (r: Option<Value>)
    ensures
        opt_json(r) == chat_content(contents(content@)),
{
    let mut text = String::new();
    let mut parts: Vec<Value> = Vec::new();
    let ghost all = contents(content@);
    let ghost chunks = all.map_values(|c: ContentView| content_chunk(c));
    let mut i: usize = 0;
    while i < content.len()
        invariant
            i <= content@.len(),
            all == contents(content@),
            chunks == all.map_values(|c: ContentView| content_chunk(c)),
            text@ == concatenated(chunks.take(i as int)),
            parts@.len() == i,
            forall|k: int| 0 <= k < i ==> json(#[trigger] parts@[k]) == content_part(all[k]),
        decreases content@.len() - i,
    {
        proof {
            assert(chunks.take(i + 1).drop_last() =~= chunks.take(i as int));
            assert(chunks.take(i + 1).last() == content_chunk(content@[i as int]@));
        }
        match &content[i] {
            ContentItem::InputText { text: chunk } | ContentItem::OutputText { text: chunk } => {
                text.append(chunk.as_str());
            },
            ContentItem::InputImage { .. } => {
                assert(text@ + Seq::<char>::empty() =~= text@);
            },
        }
        parts.push(content_part_value(&content[i]));
        i = i + 1;
    }
    proof {
        assert(chunks.take(chunks.len() as int) =~= chunks);
        assert(jsons(parts@) =~= all.map_values(|c: ContentView| content_part(c)));
    }
    if parts.len() == 0 {
        None
    } else if all_text(&parts, Ghost(all)) {
        Some(text_value(text.as_str()))
    } else {
        Some(array_value(parts))
    }
}

/// The arguments of a command as an object.
pub open spec fn shell_arguments(action: ShellView) -> Json {
    object().with("command"@, text_array(action.command)).with(
        "workdir"@,
        text_or_null(action.working_directory),
    ).with(
        "timeout_ms"@,
        match action.timeout_ms {
            Some(ms) => number(ms as nat),
            None => Json::Null,
        },
    )
}

proof fn lemma_shell_arguments_plain(action: ShellView)
    ensures
        plain_within(shell_arguments(action), 127),
{
    let command = text_array(action.command);
    assert forall|i: int| 0 <= i < command->Array_0.len() implies plain_within(
        #[trigger] command->Array_0[i],
        125,
    ) by {}
    assert(plain_within(command, 126));
    if let Some(ms) = action.timeout_ms {
        assert(number(ms as nat) == Json::Number(decimal(ms as nat)));
        assert(plain_within(number(ms as nat), 126));
    }
    let entries = shell_arguments(action)->Object_0;
    assert forall|key: Seq<char>| #[trigger] entries.contains_key(key) implies plain_within(
        entries[key],
        126,
    ) by {}
}

/// The arguments of a command as an object.
fn shell_arguments_value(action: &LocalShellAction) -> (r: Value)
    ensures
        json(r) == shell_arguments(action@),
{
    match action {
        LocalShellAction::Exec(exec) => {
            let mut arguments = empty_object();
            set_entry(&mut arguments, "command", texts_value(&exec.command));
            set_entry(&mut arguments, "workdir", opt_text_value(&exec.working_directory));
            let timeout = match exec.timeout_ms {
                Some(ms) => number_value(ms),
                None => null_value(),
            };
            set_entry(&mut arguments, "timeout_ms", timeout);
            arguments
        },
    }
}

/// The arguments of a command as JSON text, which reads back as the object they
/// are.
pub fn local_shell_arguments(action: &LocalShellAction) -> (r: String)
    ensures
        r@ == rendered_json(shell_arguments(action@)),
        parsed_json(r@) == Some(shell_arguments(action@)),
{
    let arguments = shell_arguments_value(action);
    proof {
        lemma_shell_arguments_plain(action@);
    }
    render_value(&arguments)
}

/// What a tool gave back, as one text.
pub fn tool_output_text(output: &FunctionCallOutputPayload) -> (r: String)
    ensures
        r@ == output@.display,
{
    output.display.clone()
}

/// The id of a command: that of the call, or else that of the item, or else a
/// fixed one.
pub open spec fn shell_call_id(id: Option<Seq<char>>, call_id: Option<Seq<char>>) -> Seq<char> {
    match call_id {
        Some(c) => c,
        None => match id {
            Some(i) => i,
            None => "local_shell"@,
        },
    }
}

/// The id of a command.
pub(crate) fn shell_id(id: &Option<String>, call_id: &Option<String>) -> (r: String)
    ensures
        r@ == shell_call_id(opt_text(*id), opt_text(*call_id)),
{
    match call_id {
        Some(c) => c.clone(),
        None => match id {
            Some(i) => i.clone(),
            None => "local_shell".to_string(),
        },
    }
}

/// A call of a function as JSON.
pub open spec fn call_json(id: Seq<char>, name: Seq<char>, arguments: Seq<char>) -> Json {
    object().with("id"@, Json::Text(id)).with("type"@, Json::Text("function"@)).with(
        "function"@,
        object().with("name"@, Json::Text(name)).with("arguments"@, Json::Text(arguments)),
    )
}

/// A call of a function as JSON.
fn call_value(id: &str, name: &str, arguments: &str) -> (r: Value)
    ensures
        json(r) == call_json(id@, name@, arguments@),
{
    let mut function = empty_object();
    set_entry(&mut function, "name", text_value(name));
    set_entry(&mut function, "arguments", text_value(arguments));
    let mut call = empty_object();
    set_entry(&mut call, "id", text_value(id));
    set_entry(&mut call, "type", text_value("function"));
    set_entry(&mut call, "function", function);
    call
}

/// A message with a role and a content.
pub open spec fn message_json(role: Seq<char>, content: Json) -> Json {
    object().with("role"@, Json::Text(role)).with("content"@, content)
}

/// A message with a role and a content.
pub(crate) fn message_value(role: &str, content: Value) -> (r: Value)
    ensures
        json(r) == message_json(role@, json(content)),
{
    let mut message = empty_object();
    set_entry(&mut message, "role", text_value(role));
    set_entry(&mut message, "content", content);
    message
}

/// A message in which the model calls functions, with the reasoning that led
/// to the calls, if there is any.
pub open spec fn calls_json(calls: Seq<Json>, reasoning: Option<Seq<char>>) -> Json {
    let message = message_json("assistant"@, Json::Null).with("tool_calls"@, Json::Array(calls));
    match reasoning {
        Some(text) => if text.len() == 0 {
            message
        } else {
            message.with("reasoning_content"@, Json::Text(text))
        },
        None => message,
    }
}

/// A message with what a function gave back.
pub open spec fn output_json(call_id: Seq<char>, text: Seq<char>) -> Json {
    object().with("role"@, Json::Text("tool"@)).with("tool_call_id"@, Json::Text(call_id)).with(
        "content"@,
        Json::Text(text),
    )
}

/// The messages of a conversation, as far as it has been gone through. Calls of
/// functions wait until all that belong together have come, and reasoning waits
/// for the calls that it led to.
#[derive(Debug)]
pub struct ChatMessageBuilder {
    pub messages: Vec<Value>,
    pub system_messages: Vec<String>,
    pub pending_reasoning_content: Option<String>,
    pub pending_tool_calls: Vec<Value>,
    pub preserve_reasoning_content: bool,
}

#[verifier::ext_equal]
pub struct BuilderView {
    pub messages: Seq<Json>,
    pub system_messages: Seq<Seq<char>>,
    pub pending_reasoning: Option<Seq<char>>,
    pub pending_calls: Seq<Json>,
    pub preserve: bool,
}

impl View for ChatMessageBuilder {
    type V = BuilderView;

    open spec fn view(&self) -> BuilderView {
        BuilderView {
            messages: jsons(self.messages@),
            system_messages: texts(self.system_messages@),
            pending_reasoning: opt_text(self.pending_reasoning_content),
            pending_calls: jsons(self.pending_tool_calls@),
            preserve: self.preserve_reasoning_content,
        }
    }
}

/// A conversation of which nothing has been gone through.
pub open spec fn fresh_builder(preserve: bool) -> BuilderView {
    BuilderView {
        messages: Seq::empty(),
        system_messages: Seq::empty(),
        pending_reasoning: None,
        pending_calls: Seq::empty(),
        preserve,
    }
}

impl BuilderView {
    /// The calls that wait are sent as one message, with the reasoning that
    /// waits. Reasoning that led to no call is dropped.
    pub open spec fn flushed(self) -> BuilderView {
        if self.pending_calls.len() == 0 {
            BuilderView { pending_reasoning: None, ..self }
        } else {
            BuilderView {
                messages: self.messages.push(
                    calls_json(self.pending_calls, self.pending_reasoning),
                ),
                pending_reasoning: None,
                pending_calls: Seq::empty(),
                ..self
            }
        }
    }

    /// Reasoning waits, on a new line behind what waits already.
    pub open spec fn with_reasoning(self, text: Seq<char>) -> BuilderView {
        BuilderView {
            pending_reasoning: Some(
                match self.pending_reasoning {
                    Some(before) => if before.len() == 0 {
                        text
                    } else {
                        before + "\n"@ + text
                    },
                    None => text,
                },
            ),
            ..self
        }
    }

    /// A call waits.
    pub open spec fn with_call(
        self,
        id: Seq<char>,
        name: Seq<char>,
        arguments: Seq<char>,
    ) -> BuilderView {
        BuilderView {
            pending_calls: self.pending_calls.push(call_json(id, name, arguments)),
            ..self
        }
    }

    pub open spec fn with_message(self, message: Json) -> BuilderView {
        BuilderView { messages: self.messages.push(message), ..self }
    }

    pub open spec fn with_system(self, text: Seq<char>) -> BuilderView {
        BuilderView { system_messages: self.system_messages.push(text), ..self }
    }

    /// An item of the conversation is gone through.
    pub open spec fn appended(self, item: ItemView) -> BuilderView {
        match item {
            ItemView::Message { role, content, .. } => {
                let role = sent_role(role);
                if role == "system"@ {
                    match unless_empty(system_text(content)) {
                        Some(text) => self.flushed().with_system(text),
                        None => self.flushed(),
                    }
                } else {
                    match chat_content(content) {
                        Some(content) => self.flushed().with_message(message_json(role, content)),
                        None => self.flushed(),
                    }
                }
            },
            ItemView::FunctionCall { name, arguments, call_id, .. } => self.with_call(
                call_id,
                name,
                arguments,
            ),
            ItemView::CustomToolCall { name, input, call_id } => self.with_call(
                call_id,
                name,
                input,
            ),
            ItemView::LocalShellCall { id, call_id, action } => self.with_call(
                shell_call_id(id, call_id),
                "local_shell"@,
                rendered_json(shell_arguments(action)),
            ),
            ItemView::FunctionCallOutput { call_id, output } => self.flushed().with_message(
                output_json(call_id, output.display),
            ),
            ItemView::CustomToolCallOutput { call_id, output, .. } => self.flushed().with_message(
                output_json(call_id, output.display),
            ),
            ItemView::Reasoning { summary, content, .. } => {
                let text = reasoning_text(summary, content);
                if self.preserve && text.len() > 0 {
                    (if self.pending_calls.len() > 0 {
                        self.flushed()
                    } else {
                        self
                    }).with_reasoning(text)
                } else {
                    self
                }
            },
            _ => self,
        }
    }

    /// Several items are gone through, one after another.
    pub open spec fn appended_all(self, items: Seq<ItemView>) -> BuilderView
        decreases items.len(),
    {
        if items.len() == 0 {
            self
        } else {
            self.appended_all(items.drop_last()).appended(items.last())
        }
    }
}

impl ChatMessageBuilder {
    /// A conversation of which nothing has been gone through.
    pub fn new(preserve_reasoning_content: bool) -> (r: Self)
        ensures
            r@ == fresh_builder(preserve_reasoning_content),
    {
        let r = ChatMessageBuilder {
            messages: Vec::new(),
            system_messages: Vec::new(),
            pending_reasoning_content: None,
            pending_tool_calls: Vec::new(),
            preserve_reasoning_content,
        };
        assert(r@ =~= fresh_builder(preserve_reasoning_content));
        r
    }

    fn push_message(&mut self, message: Value)
        ensures
            final(self)@ == old(self)@.with_message(json(message)),
    {
        self.messages.push(message);
        assert(self@ =~= old(self)@.with_message(json(message)));
    }

    /// Adds a text to what the system says.
    pub fn push_system(&mut self, text: String)
        ensures
            final(self)@ == old(self)@.with_system(text@),
    {
        self.system_messages.push(text);
        assert(self@ =~= old(self)@.with_system(text@));
    }

    /// Lets a call wait.
    pub fn push_call(&mut self, id: &str, name: &str, arguments: &str)
        ensures
            final(self)@ == old(self)@.with_call(id@, name@, arguments@),
    {
        self.pending_tool_calls.push(call_value(id, name, arguments));
        assert(self@ =~= old(self)@.with_call(id@, name@, arguments@));
    }

    fn push_output(&mut self, call_id: &str, output: &FunctionCallOutputPayload)
        ensures
            final(self)@ == old(self)@.flushed().with_message(
                output_json(call_id@, output@.display),
            ),
    {
        self.flush_pending_tool_calls();
        let mut message = empty_object();
        set_entry(&mut message, "role", text_value("tool"));
        set_entry(&mut message, "tool_call_id", text_value(call_id));
        set_entry(&mut message, "content", text_value(tool_output_text(output).as_str()));
        self.push_message(message);
    }

    /// Goes through an item of the conversation.
    pub fn append(&mut self, item: &ResponseItem)
        ensures
            final(self)@ == old(self)@.appended(item@),
    {
        match item {
            ResponseItem::Message { role, content, .. } => {
                self.flush_pending_tool_calls();
                let role = chat_message_role(role.as_str());
                if str_eq(role, "system") {
                    if let Some(text) = chat_system_content_for_items(content.as_slice()) {
                        self.push_system(text);
                    }
                } else if let Some(content) = chat_content_for_items(content.as_slice()) {
                    self.push_message(message_value(role, content));
                }
            },
            ResponseItem::FunctionCall { name, arguments, call_id, .. } => {
                self.push_call(call_id.as_str(), name.as_str(), arguments.as_str());
            },
            ResponseItem::CustomToolCall { name, input, call_id } => {
                self.push_call(call_id.as_str(), name.as_str(), input.as_str());
            },
            ResponseItem::LocalShellCall { id, call_id, action } => {
                let id = shell_id(id, call_id);
                let arguments = local_shell_arguments(action);
                self.push_call(id.as_str(), "local_shell", arguments.as_str());
            },
            ResponseItem::FunctionCallOutput { call_id, output } => {
                self.push_output(call_id.as_str(), output);
            },
            ResponseItem::CustomToolCallOutput { call_id, output, .. } => {
                self.push_output(call_id.as_str(), output);
            },
            ResponseItem::Reasoning { summary, content, .. } => {
                if self.preserve_reasoning_content {
                    if let Some(text) = chat_reasoning_text(summary, content) {
                        if self.pending_tool_calls.len() > 0 {
                            self.flush_pending_tool_calls();
                        }
                        self.append_pending_reasoning_content(text.as_str());
                    }
                }
            },
            ResponseItem::ToolSearchCall
            | ResponseItem::ToolSearchOutput
            | ResponseItem::WebSearchCall
            | ResponseItem::ImageGenerationCall
            | ResponseItem::Compaction
            | ResponseItem::CompactionTrigger
            | ResponseItem::ContextCompaction
            | ResponseItem::Other => {},
        }
    }

    /// Lets reasoning wait, on a new line behind what waits already.
    pub fn append_pending_reasoning_content(&mut self, text: &str)
        ensures
            final(self)@ == old(self)@.with_reasoning(text@),
    {
        let pending = match self.pending_reasoning_content.take() {
            Some(before) => {
                let mut before = before;
                if !before.as_str().is_empty() {
                    before.append("\n");
                    before.append(text);
                    before
                } else {
                    text.to_string()
                }
            },
            None => text.to_string(),
        };
        self.pending_reasoning_content = Some(pending);
        assert(self@ =~= old(self)@.with_reasoning(text@));
    }

    /// Sends the calls that wait as one message, with the reasoning that waits.
    pub fn flush_pending_tool_calls(&mut self)
        ensures
            final(self)@ == old(self)@.flushed(),
    {
        if self.pending_tool_calls.len() == 0 {
            self.pending_reasoning_content = None;
            assert(self@ =~= old(self)@.flushed());
            return;
        }
        let mut calls: Vec<Value> = Vec::new();
        calls.append(&mut self.pending_tool_calls);
        assert(jsons(calls@) =~= old(self)@.pending_calls);
        let mut message = message_value("assistant", null_value());
        set_entry(&mut message, "tool_calls", array_value(calls));
        if let Some(reasoning) = self.pending_reasoning_content.take() {
            if !reasoning.as_str().is_empty() {
                set_entry(&mut message, "reasoning_content", text_value(reasoning.as_str()));
            }
        }
        self.push_message(message);
        assert(self@ =~= old(self)@.flushed());
    }

    /// The messages of the conversation, and what the system says in it.
    pub fn finish(self) -> (r: (Vec<Value>, Vec<String>))
        ensures
            jsons(r.0@) == self@.flushed().messages,
            texts(r.1@) == self@.flushed().system_messages,
    {
        let mut builder = self;
        builder.flush_pending_tool_calls();
        (builder.messages, builder.system_messages)
    }
}

/// A function that the model may call, as JSON.
pub open spec fn chat_tool(tool: FunctionView) -> Json {
    object().with("type"@, Json::Text("function"@)).with(
        "function"@,
        object().with("name"@, Json::Text(tool.name)).with(
            "description"@,
            Json::Text(tool.description),
        ).with("parameters"@, schema(tool)),
    )
}

/// A function that the model may call, as JSON. Without a schema there is none.
pub fn chat_function_tool(tool: &ResponsesApiTool) -> (r: Result<Value, EncodeError>)
    ensures
        match r {
            Ok(value) => tool@.parameters is Ok && json(value) == chat_tool(tool@),
            Err(error) => tool@.parameters == Err::<Json, Seq<char>>(error.message@),
        },
{
    match &tool.parameters {
        Ok(parameters) => {
            let mut function = empty_object();
            set_entry(&mut function, "name", text_value(tool.name.as_str()));
            set_entry(&mut function, "description", text_value(tool.description.as_str()));
            set_entry(&mut function, "parameters", clone_value(parameters));
            let mut value = empty_object();
            set_entry(&mut value, "type", text_value("function"));
            set_entry(&mut value, "function", function);
            Ok(value)
        },
        Err(error) => Err(EncodeError { message: error.message.clone() }),
    }
}

/// All functions among the tools, as JSON. The first that has no schema is the
/// reason why there are none.
pub fn chat_tools_for_specs(tools: &[ToolSpec]) -> (r: Result<Vec<Value>, EncodeError>)
    ensures
        match r {
            Ok(values) => first_failure(functions(tools@)) is None && jsons(values@) == functions(
                tools@,
            ).map_values(|t: FunctionView| chat_tool(t)),
            Err(error) => first_failure(functions(tools@)) == Some(error.message@),
        },
{
    let found = function_tools(tools);
    let ghost all = functions(tools@);
    let mut out: Vec<Value> = Vec::new();
    let mut i: usize = 0;
    assert(found@.len() == all.len()) by {
        assert(found@.map_values(|t: &ResponsesApiTool| t@).len() == all.len());
    }
    while i < found.len()
        invariant
            i <= found@.len(),
            found@.len() == all.len(),
            found@.map_values(|t: &ResponsesApiTool| t@) == all,
            out@.len() == i,
            first_failure(all.take(i as int)) is None,
            forall|k: int| 0 <= k < i ==> json(#[trigger] out@[k]) == chat_tool(all[k]),
            all == functions(tools@),
        decreases found@.len() - i,
    {
        proof {
            assert(all.take(i + 1).drop_last() =~= all.take(i as int));
            assert(found@.map_values(|t: &ResponsesApiTool| t@)[i as int] == found@[i as int]@);
            assert(all.take(i + 1).last() == found@[i as int]@);
        }
        match chat_function_tool(found[i]) {
            Ok(value) => {
                out.push(value);
            },
            Err(error) => {
                proof {
                    crate::prompt::lemma_first_failure_stays(all, i + 1);
                }
                return Err(error);
            },
        }
        i = i + 1;
    }
    proof {
        assert(all.take(all.len() as int) =~= all);
        assert(jsons(out@) =~= all.map_values(|t: FunctionView| chat_tool(t)));
    }
    Ok(out)
}

/// What may be set for a request besides the prompt.
#[derive(Debug)]
pub struct ChatCompletionsRequestOptions {
    pub service_tier: Option<String>,
    pub preserve_reasoning_content: bool,
}

impl Default for ChatCompletionsRequestOptions {
    fn default() -> (r: Self)
        ensures
            r.service_tier is None,
            !r.preserve_reasoning_content,
    {
        ChatCompletionsRequestOptions { service_tier: None, preserve_reasoning_content: false }
    }
}

/// A request for a chat completion.
#[derive(Debug)]
pub struct ChatCompletionsWireRequest {
    pub model: String,
    pub messages: Vec<Value>,
    pub tool_choice: Option<Value>,
    pub parallel_tool_calls: Option<bool>,
    pub tools: Vec<Value>,
    pub stream: bool,
    pub reasoning_effort: Option<ReasoningEffort>,
    pub response_format: Option<Value>,
    pub service_tier: Option<String>,
}

#[verifier::ext_equal]
pub struct WireRequestView {
    pub model: Seq<char>,
    pub messages: Seq<Json>,
    pub tool_choice: Option<Json>,
    pub parallel_tool_calls: Option<bool>,
    pub tools: Seq<Json>,
    pub stream: bool,
    pub reasoning_effort: Option<ReasoningEffort>,
    pub response_format: Option<Json>,
    pub service_tier: Option<Seq<char>>,
}

impl View for ChatCompletionsWireRequest {
    type V = WireRequestView;

    open spec fn view(&self) -> WireRequestView {
        WireRequestView {
            model: self.model@,
            messages: jsons(self.messages@),
            tool_choice: opt_json(self.tool_choice),
            parallel_tool_calls: self.parallel_tool_calls,
            tools: jsons(self.tools@),
            stream: self.stream,
            reasoning_effort: self.reasoning_effort,
            response_format: opt_json(self.response_format),
            service_tier: opt_text(self.service_tier),
        }
    }
}

/// The object with an entry more, or as it is where there is nothing to enter.
pub open spec fn with_some(value: Json, key: Seq<char>, entry: Option<Json>) -> Json {
    match entry {
        Some(e) => value.with(key, e),
        None => value,
    }
}

impl WireRequestView {
    /// The request as JSON. What is not set has no entry.
    pub open spec fn body(self) -> Json {
        let body = object().with("model"@, Json::Text(self.model)).with(
            "messages"@,
            Json::Array(self.messages),
        );
        let body = with_some(body, "tool_choice"@, self.tool_choice);
        let body = with_some(
            body,
            "parallel_tool_calls"@,
            match self.parallel_tool_calls {
                Some(b) => Some(Json::Bool(b)),
                None => None,
            },
        );
        let body = body.with("tools"@, Json::Array(self.tools)).with(
            "stream"@,
            Json::Bool(self.stream),
        );
        let body = with_some(
            body,
            "reasoning_effort"@,
            match self.reasoning_effort {
                Some(effort) => Some(Json::Text(effort.spec_name())),
                None => None,
            },
        );
        let body = with_some(body, "response_format"@, self.response_format);
        with_some(
            body,
            "service_tier"@,
            match self.service_tier {
                Some(tier) => Some(Json::Text(tier)),
                None => None,
            },
        )
    }
}

/// Copies values one by one.
pub(crate) fn clone_values(values: &Vec<Value>) -> (r: Vec<Value>)
    ensures
        jsons(r@) == jsons(values@),
{
    let mut out: Vec<Value> = Vec::new();
    let mut i: usize = 0;
    while i < values.len()
        invariant
            i <= values@.len(),
            out@.len() == i,
            forall|k: int| 0 <= k < i ==> json(#[trigger] out@[k]) == json(values@[k]),
        decreases values@.len() - i,
    {
        out.push(clone_value(&values[i]));
        i = i + 1;
    }
    assert(jsons(out@) =~= jsons(values@));
    out
}

impl ChatCompletionsWireRequest {
    /// The request as JSON.
    pub fn body(&self) -> (r: Value)
        ensures
            json(r) == self@.body(),
    {
        let mut body = empty_object();
        set_entry(&mut body, "model", text_value(self.model.as_str()));
        set_entry(&mut body, "messages", array_value(clone_values(&self.messages)));
        if let Some(choice) = &self.tool_choice {
            set_entry(&mut body, "tool_choice", clone_value(choice));
        }
        if let Some(parallel) = self.parallel_tool_calls {
            set_entry(&mut body, "parallel_tool_calls", bool_value(parallel));
        }
        set_entry(&mut body, "tools", array_value(clone_values(&self.tools)));
        set_entry(&mut body, "stream", bool_value(self.stream));
        if let Some(effort) = self.reasoning_effort {
            set_entry(&mut body, "reasoning_effort", text_value(effort.name()));
        }
        if let Some(format) = &self.response_format {
            set_entry(&mut body, "response_format", clone_value(format));
        }
        if let Some(tier) = &self.service_tier {
            set_entry(&mut body, "service_tier", text_value(tier.as_str()));
        }
        body
    }
}

/// The conversation of a prompt, gone through to its end. The instructions come
/// first in what the system says.
pub open spec fn conversation(
    instructions: Seq<char>,
    input: Seq<ItemView>,
    preserve: bool,
) -> BuilderView {
    let start = fresh_builder(preserve);
    (if instructions.len() == 0 {
        start
    } else {
        start.with_system(instructions)
    }).appended_all(input).flushed()
}

/// The messages of a request: first one with all that the system says, if it
/// says anything, then those of the conversation.
pub open spec fn request_messages(end: BuilderView) -> Seq<Json> {
    if end.system_messages.len() == 0 {
        end.messages
    } else {
        seq![
            message_json("system"@, Json::Text(joined(end.system_messages, "\n\n"@))),
        ] + end.messages
    }
}

/// The form that the answer is to have.
pub open spec fn response_format(output_schema: Option<Json>, strict: bool) -> Option<Json> {
    match output_schema {
        Some(schema) => Some(
            object().with("type"@, Json::Text("json_schema"@)).with(
                "json_schema"@,
                object().with("name"@, Json::Text("codex_output_schema"@)).with(
                    "strict"@,
                    Json::Bool(strict),
                ).with("schema"@, schema),
            ),
        ),
        None => None,
    }
}

/// How hard the model is to think: as asked for, or else as it does by default;
/// and nothing is said where it knows no levels.
pub open spec fn request_effort(
    effort: Option<ReasoningEffort>,
    model_info: ModelInfo,
) -> Option<ReasoningEffort> {
    if model_info.supported_reasoning_levels@.len() == 0 {
        None
    } else if effort is Some {
        effort
    } else {
        model_info.default_reasoning_level
    }
}

/// The request for a prompt whose functions all have a schema.
pub open spec fn chat_request(
    prompt: Prompt,
    model_info: ModelInfo,
    effort: Option<ReasoningEffort>,
    options: ChatCompletionsRequestOptions,
) -> WireRequestView {
    let tools = functions(prompt.tools@).map_values(|t: FunctionView| chat_tool(t));
    WireRequestView {
        model: model_info.slug@,
        messages: request_messages(
            conversation(
                prompt.base_instructions.text@,
                items(prompt.input@),
                options.preserve_reasoning_content,
            ),
        ),
        tool_choice: None,
        parallel_tool_calls: if tools.len() > 0 && prompt.parallel_tool_calls {
            Some(true)
        } else {
            None
        },
        tools,
        stream: true,
        reasoning_effort: request_effort(effort, model_info),
        response_format: response_format(
            opt_json(prompt.output_schema),
            prompt.output_schema_strict,
        ),
        service_tier: opt_text(options.service_tier),
    }
}

/// The form that the answer is to have.
fn response_format_value(output_schema: &Option<Value>, strict: bool) -> (r: Option<Value>)
    ensures
        opt_json(r) == response_format(opt_json(*output_schema), strict),
{
    match output_schema {
        Some(schema) => {
            let mut inner = empty_object();
            set_entry(&mut inner, "name", text_value("codex_output_schema"));
            set_entry(&mut inner, "strict", bool_value(strict));
            set_entry(&mut inner, "schema", clone_value(schema));
            let mut format = empty_object();
            set_entry(&mut format, "type", text_value("json_schema"));
            set_entry(&mut format, "json_schema", inner);
            Some(format)
        },
        None => None,
    }
}

/// The messages of a prompt.
fn prompt_messages(prompt: &Prompt, preserve_reasoning_content: bool) -> (r: Vec<Value>)
    ensures
        jsons(r@) == request_messages(
            conversation(
                prompt.base_instructions.text@,
                items(prompt.input@),
                preserve_reasoning_content,
            ),
        ),
{
    let mut builder = ChatMessageBuilder::new(preserve_reasoning_content);
    if !prompt.base_instructions.text.as_str().is_empty() {
        builder.push_system(prompt.base_instructions.text.clone());
    }
    let ghost start = builder@;
    let ghost all = items(prompt.input@);
    let mut i: usize = 0;
    while i < prompt.input.len()
        invariant
            i <= prompt.input@.len(),
            all == items(prompt.input@),
            builder@ == start.appended_all(all.take(i as int)),
        decreases prompt.input@.len() - i,
    {
        proof {
            assert(all.take(i + 1).drop_last() =~= all.take(i as int));
            assert(all.take(i + 1).last() == prompt.input@[i as int]@);
        }
        builder.append(&prompt.input[i]);
        i = i + 1;
    }
    assert(all.take(all.len() as int) =~= all);
    let ghost end = builder@.flushed();
    let (messages, system_messages) = builder.finish();
    assert(texts(system_messages@).len() == system_messages@.len());
    if system_messages.len() > 0 {
        let text = join_texts(&system_messages, "\n\n");
        let mut messages = messages;
        let ghost rest = messages@;
        let first = message_value("system", text_value(text.as_str()));
        messages.insert(0, first);
        assert(jsons(messages@) =~= seq![json(first)] + jsons(rest));
        messages
    } else {
        messages
    }
}

/// The request for a prompt.
pub fn build_chat_completions_request(
    prompt: &Prompt,
    model_info: &ModelInfo,
    effort: Option<ReasoningEffort>,
    options: ChatCompletionsRequestOptions,
) -> (r: Result<ChatCompletionsWireRequest, EncodeError>)
    ensures
        match r {
            Ok(request) => first_failure(functions(prompt.tools@)) is None && request@
                == chat_request(*prompt, *model_info, effort, options),
            Err(error) => first_failure(functions(prompt.tools@)) == Some(error.message@),
        },
{
    let messages = prompt_messages(prompt, options.preserve_reasoning_content);
    let tools = match chat_tools_for_specs(prompt.tools.as_slice()) {
        Ok(tools) => tools,
        Err(error) => {
            return Err(error);
        },
    };
    assert(jsons(tools@).len() == tools@.len());
    let response_format = response_format_value(
        &prompt.output_schema,
        prompt.output_schema_strict,
    );
    let reasoning_effort = if model_info.supported_reasoning_levels.len() == 0 {
        None
    } else {
        match effort {
            Some(level) => Some(level),
            None => model_info.default_reasoning_level,
        }
    };
    let parallel_tool_calls = if tools.len() > 0 && prompt.parallel_tool_calls {
        Some(true)
    } else {
        None
    };
    let request = ChatCompletionsWireRequest {
        model: model_info.slug.clone(),
        messages,
        tool_choice: None,
        parallel_tool_calls,
        tools,
        stream: true,
        reasoning_effort,
        response_format,
        service_tier: options.service_tier,
    };
    assert(request@ =~= chat_request(*prompt, *model_info, effort, options));
    Ok(request)
}

} // verus!
