//! What a model is asked: the conversation, the instructions and the tools.
use serde_json::Value;
use vstd::prelude::*;

use crate::json::{json, Json};
use crate::protocol::ResponseItem;

verus! {

/// Why a value could not be written as JSON.
#[derive(Debug, PartialEq)]
pub struct EncodeError {
    pub message: String,
}

/// A function that the model may call. Its parameters are described by a schema,
/// as JSON or as the reason why the schema has none.
#[derive(Debug)]
pub struct ResponsesApiTool {
    pub name: String,
    pub description: String,
    pub strict: bool,
    pub defer_loading: Option<bool>,
    pub parameters: Result<Value, EncodeError>,
    pub output_schema: Option<Value>,
}

/// What a request says of a function: its name, what it does, and its schema.
#[verifier::ext_equal]
pub struct FunctionView {
    pub name: Seq<char>,
    pub description: Seq<char>,
    pub parameters: Result<Json, Seq<char>>,
}

impl View for ResponsesApiTool {
    type V = FunctionView;

    open spec fn view(&self) -> FunctionView {
        FunctionView {
            name: self.name@,
            description: self.description@,
            parameters: match self.parameters {
                Ok(schema) => Ok(json(schema)),
                Err(error) => Err(error.message@),
            },
        }
    }
}

/// A tool of a namespace.
#[derive(Debug)]
pub enum ResponsesApiNamespaceTool {
    Function(ResponsesApiTool),
}

impl View for ResponsesApiNamespaceTool {
    type V = FunctionView;

    open spec fn view(&self) -> FunctionView {
        match *self {
            ResponsesApiNamespaceTool::Function(tool) => tool@,
        }
    }
}

/// Several tools under one name.
#[derive(Debug)]
pub struct ResponsesApiNamespace {
    pub name: String,
    pub description: String,
    pub tools: Vec<ResponsesApiNamespaceTool>,
}

/// A tool that the model may use.
#[derive(Debug)]
pub enum ToolSpec {
    Function(ResponsesApiTool),
    Namespace(ResponsesApiNamespace),
    ToolSearch,
    ImageGeneration,
    WebSearch,
    Freeform,
}

impl ToolSpec {
    /// The functions among the tools that this stands for.
    pub open spec fn functions(self) -> Seq<FunctionView> {
        match self {
            ToolSpec::Function(tool) => seq![tool@],
            ToolSpec::Namespace(namespace) => namespace.tools@.map_values(
                |t: ResponsesApiNamespaceTool| t@,
            ),
            _ => Seq::empty(),
        }
    }
}

/// All functions among the tools, in their order.
pub open spec fn functions(tools: Seq<ToolSpec>) -> Seq<FunctionView>
    decreases tools.len(),
{
    if tools.len() == 0 {
        Seq::empty()
    } else {
        functions(tools.drop_last()) + tools.last().functions()
    }
}

/// The instructions that come before a conversation.
#[derive(Debug)]
pub struct BaseInstructions {
    pub text: String,
}

/// What a model is asked. The items of the input are as they are to be sent.
#[derive(Debug)]
pub struct Prompt {
    pub input: Vec<ResponseItem>,
    pub tools: Vec<ToolSpec>,
    pub parallel_tool_calls: bool,
    pub base_instructions: BaseInstructions,
    pub output_schema: Option<Value>,
    pub output_schema_strict: bool,
}

impl Default for Prompt {
    /// A prompt that asks nothing.
    fn default() -> (r: Self)
        ensures
            r.input@ == Seq::<ResponseItem>::empty(),
            r.tools@ == Seq::<ToolSpec>::empty(),
            !r.parallel_tool_calls,
            r.base_instructions.text@ == Seq::<char>::empty(),
            r.output_schema is None,
            r.output_schema_strict,
    {
        Prompt {
            input: Vec::new(),
            tools: Vec::new(),
            parallel_tool_calls: false,
            base_instructions: BaseInstructions { text: String::new() },
            output_schema: None,
            output_schema_strict: true,
        }
    }
}

/// How hard a model is to think.
#[derive(Debug, Clone, Copy, PartialEq, Eq, Structural)]
pub enum ReasoningEffort {
    Off,
    Minimal,
    Low,
    Medium,
    High,
    XHigh,
}

impl ReasoningEffort {
    /// The effort's name in a request.
    pub open spec fn spec_name(self) -> Seq<char> {
        match self {
            ReasoningEffort::Off => "none"@,
            ReasoningEffort::Minimal => "minimal"@,
            ReasoningEffort::Low => "low"@,
            ReasoningEffort::Medium => "medium"@,
            ReasoningEffort::High => "high"@,
            ReasoningEffort::XHigh => "xhigh"@,
        }
    }

    /// The effort's name in a request.
    pub fn name(self) -> (r: &'static str)
        ensures
            r@ == self.spec_name(),
    {
        match self {
            ReasoningEffort::Off => "none",
            ReasoningEffort::Minimal => "minimal",
            ReasoningEffort::Low => "low",
            ReasoningEffort::Medium => "medium",
            ReasoningEffort::High => "high",
            ReasoningEffort::XHigh => "xhigh",
        }
    }
}

/// What is known of a model.
#[derive(Debug)]
pub struct ModelInfo {
    pub slug: String,
    pub supported_reasoning_levels: Vec<ReasoningEffort>,
    pub default_reasoning_level: Option<ReasoningEffort>,
}

/// The functions among the tools of a namespace.
fn push_namespace_functions<'a>(
    out: &mut Vec<&'a ResponsesApiTool>,
    tools: &'a Vec<ResponsesApiNamespaceTool>,
)
    ensures
        final(out)@.map_values(|t: &ResponsesApiTool| t@) == old(out)@.map_values(
            |t: &ResponsesApiTool| t@,
        ) + tools@.map_values(|t: ResponsesApiNamespaceTool| t@),
{
    let ghost before = out@;
    let mut i: usize = 0;
    while i < tools.len()
        invariant
            i <= tools@.len(),
            out@.len() == before.len() + i,
            forall|k: int| 0 <= k < before.len() ==> out@[k] == before[k],
            forall|k: int| 0 <= k < i ==> (#[trigger] out@[before.len() + k])@ == tools@[k]@,
        decreases tools@.len() - i,
    {
        match &tools[i] {
            ResponsesApiNamespaceTool::Function(tool) => out.push(tool),
        }
        i = i + 1;
    }
    let ghost all = out@.map_values(|t: &ResponsesApiTool| t@);
    let ghost first = before.map_values(|t: &ResponsesApiTool| t@);
    let ghost rest = tools@.map_values(|t: ResponsesApiNamespaceTool| t@);
    assert forall|k: int| 0 <= k < all.len() implies all[k] == (first + rest)[k] by {
        if k >= before.len() {
            assert(out@[before.len() + (k - before.len())]@ == tools@[k - before.len()]@);
        }
    }
    assert(all =~= first + rest);
}

/// All functions among the tools, in their order.
pub fn function_tools<'a>(tools: &'a [ToolSpec]) -> (r: Vec<&'a ResponsesApiTool>)
    ensures
        r@.map_values(|t: &ResponsesApiTool| t@) == functions(tools@),
{
    let mut out: Vec<&'a ResponsesApiTool> = Vec::new();
    let mut i: usize = 0;
    assert(out@.map_values(|t: &ResponsesApiTool| t@) =~= functions(tools@.take(0)));
    while i < tools.len()
        invariant
            i <= tools@.len(),
            out@.map_values(|t: &ResponsesApiTool| t@) == functions(tools@.take(i as int)),
        decreases tools@.len() - i,
    {
        let ghost before = out@.map_values(|t: &ResponsesApiTool| t@);
        proof {
            assert(tools@.take(i + 1).drop_last() =~= tools@.take(i as int));
            assert(tools@.take(i + 1).last() == tools@[i as int]);
        }
        match &tools[i] {
            ToolSpec::Function(tool) => {
                out.push(tool);
                assert(out@.map_values(|t: &ResponsesApiTool| t@) =~= before + seq![tool@]);
            },
            ToolSpec::Namespace(namespace) => {
                push_namespace_functions(&mut out, &namespace.tools);
            },
            ToolSpec::ToolSearch
            | ToolSpec::ImageGeneration
            | ToolSpec::WebSearch
            | ToolSpec::Freeform => {
                assert(before + Seq::<FunctionView>::empty() =~= before);
            },
        }
        i = i + 1;
    }
    assert(tools@.take(tools@.len() as int) =~= tools@);
    out
}

/// The first reason why one of the functions has no schema.
pub open spec fn first_failure(tools: Seq<FunctionView>) -> Option<Seq<char>>
    decreases tools.len(),
{
    if tools.len() == 0 {
        None
    } else {
        match first_failure(tools.drop_last()) {
            Some(message) => Some(message),
            None => match tools.last().parameters {
                Ok(_) => None,
                Err(message) => Some(message),
            },
        }
    }
}

/// What comes behind a failure does not hide it.
pub proof fn lemma_first_failure_stays(tools: Seq<FunctionView>, n: int)
    requires
        0 <= n <= tools.len(),
        first_failure(tools.take(n)) is Some,
    ensures
        first_failure(tools) == first_failure(tools.take(n)),
    decreases tools.len() - n,
{
    if n == tools.len() {
        assert(tools.take(n) =~= tools);
    } else {
        assert(tools.take(n + 1).drop_last() =~= tools.take(n));
        lemma_first_failure_stays(tools, n + 1);
    }
}

/// The schema of a function, where it has one.
pub open spec fn schema(tool: FunctionView) -> Json {
    tool.parameters->Ok_0
}

} // verus!
