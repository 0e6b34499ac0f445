//! What tools offer, and which of them stands in the way of a request.
use vstd::prelude::*;

use crate::json::Json;
use crate::prompt::{
    first_failure, functions, FunctionView, ResponsesApiNamespaceTool, ToolSpec,
};

verus! {

/// The functions among tools are those of each tool, one after another: a function
/// is itself, a namespace is all that is in it, and other tools offer none.
pub proof fn law_every_function_is_offered(
    before: Seq<ToolSpec>,
    after: Seq<ToolSpec>,
    tool: ToolSpec,
)
    ensures
        functions(before + after) == functions(before) + functions(after),
        match tool {
            ToolSpec::Function(function) => functions(seq![tool]) == seq![function@],
            ToolSpec::Namespace(namespace) => {
                let inside = namespace.tools@;
                &&& functions(seq![tool]).len() == inside.len()
                &&& forall|i: int|
                    0 <= i < inside.len() ==> match inside[i] {
                        ResponsesApiNamespaceTool::Function(function) => #[trigger] functions(
                            seq![tool],
                        )[i] == function@,
                    }
            },
            _ => functions(seq![tool]).len() == 0,
        },
    decreases after.len(),
{
    if after.len() == 0 {
        assert(before + after =~= before);
        assert(functions(before) + functions(after) =~= functions(before));
    } else {
        law_every_function_is_offered(before, after.drop_last(), tool);
        assert((before + after).drop_last() =~= before + after.drop_last());
        assert(functions(before + after) =~= functions(before) + functions(after));
    }
    assert(seq![tool].drop_last() =~= Seq::empty());
    assert(functions(Seq::empty()) =~= Seq::empty());
    assert(functions(seq![tool]) =~= tool.functions());
}

/// Whether the function at a place is the first without a schema, for this reason.
pub open spec fn fails_first(tools: Seq<FunctionView>, i: int, message: Seq<char>) -> bool {
    &&& 0 <= i < tools.len()
    &&& tools[i].parameters == Err::<Json, Seq<char>>(message)
    &&& forall|k: int| 0 <= k < i ==> (#[trigger] tools[k]).parameters is Ok
}

/// A request is refused where a function has no schema, and for the reason of the
/// first such function; where all have one, nothing is refused.
pub proof fn law_the_first_failure_counts(tools: Seq<FunctionView>)
    ensures
        first_failure(tools) is None <==> forall|i: int|
            0 <= i < tools.len() ==> (#[trigger] tools[i]).parameters is Ok,
        first_failure(tools) is Some ==> exists|i: int|
            #[trigger] fails_first(tools, i, first_failure(tools)->0),
    decreases tools.len(),
{
    if tools.len() > 0 {
        let front = tools.drop_last();
        let end = tools.len() - 1;
        law_the_first_failure_counts(front);
        if let Some(message) = first_failure(front) {
            let i = choose|i: int| #[trigger] fails_first(front, i, message);
            assert(tools[i] == front[i]);
            assert forall|k: int| 0 <= k < i implies (#[trigger] tools[k]).parameters is Ok by {
                assert(front[k] == tools[k]);
            }
            assert(first_failure(tools) == Some(message));
            assert(fails_first(tools, i, first_failure(tools)->0));
        } else {
            assert forall|k: int| 0 <= k < end implies (#[trigger] tools[k]).parameters is Ok by {
                assert(front[k] == tools[k]);
            }
            if let Err(message) = tools.last().parameters {
                assert(tools[end] == tools.last());
                assert(first_failure(tools) == Some(message));
                assert(fails_first(tools, end, first_failure(tools)->0));
            }
        }
    }
}

} // verus!
