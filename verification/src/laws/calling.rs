//! What the model is shown of a tool, and what becomes of its answers.

use crate::json::{parsed, Doc};
use crate::laws::configuring::{holds_object, holds_string, tools_are_read};
use crate::laws::documents::{has, holds, keys_are_found, lacks};
use crate::laws::texts::{all_white, is_bare, trimming_takes_the_white_space_around};
use crate::snake::snake_case;
use crate::tools::{
    answers_in, calls_in, calls_of_output, names_of, normalized_parameters, schema_of, schemas_of,
    selected, tool_in, Call, ToolDef,
};
use vstd::prelude::*;

verus! {

/// The schema of a tool shows its name in snake case, its description and its
/// parameters, and nothing of its command.
pub proof fn schemas_show_the_tool(t: ToolDef)
    ensures
        holds(schema_of(t), "name"@, Doc::Str(snake_case(t.name))),
        holds(schema_of(t), "description"@, Doc::Str(t.description)),
        holds(schema_of(t), "parameters"@, t.parameters),
        schema_of(t)->Object_0.len() == 3,
{
    reveal_strlit("name");
    reveal_strlit("description");
    reveal_strlit("parameters");
    assert("name"@.len() == 4 && "description"@.len() == 11 && "parameters"@.len() == 10);
    let doc = schema_of(t);
    let m = doc->Object_0;
    assert(m[0] == ("name"@, Doc::Str(snake_case(t.name))));
    assert(m[1] == ("description"@, Doc::Str(t.description)));
    assert(m[2] == ("parameters"@, t.parameters));
    assert(has(m, "name"@, Doc::Str(snake_case(t.name))));
    assert(has(m, "description"@, Doc::Str(t.description)));
    assert(has(m, "parameters"@, t.parameters));
}

/// Reading a schema as a configuration gives the tool back, under its name in
/// snake case and without a command, where its parameters are in the model's
/// own style.
pub proof fn schemas_are_read_back(t: ToolDef)
    requires
        normalized_parameters(t.parameters) == t.parameters,
    ensures
        tool_in(schema_of(t)) == (ToolDef { name: snake_case(t.name), exec_spec: None, ..t }),
{
    let doc = schema_of(t);
    schemas_show_the_tool(t);
    tools_are_read(doc, snake_case(t.name), t.description, t.parameters, Doc::Null);
    keys_are_found(doc, "exec"@);
    reveal_strlit("name");
    reveal_strlit("description");
    reveal_strlit("parameters");
    reveal_strlit("exec");
    assert("name"@.len() == 4 && "description"@.len() == 11 && "parameters"@.len() == 10);
    assert("exec"@.len() == 4 && "exec"@[0] == 'e' && "name"@[0] == 'n');
    assert(lacks(doc, "exec"@));
}

/// The list of schemas holds one for each tool that is asked for, in the order
/// in which they are asked for.
pub proof fn every_asked_tool_is_listed(tools: Seq<ToolDef>, indices: Seq<usize>, k: int)
    requires
        0 <= k < indices.len(),
    ensures
        schemas_of(selected(tools, indices)) is Array,
        schemas_of(selected(tools, indices))->Array_0.len() == indices.len(),
        schemas_of(selected(tools, indices))->Array_0[k] == schema_of(tools[indices[k] as int]),
{
}

/// Of tools that share a name in snake case, the name leads to the last one.
pub proof fn the_last_tool_of_a_name_counts(tools: Seq<ToolDef>, i: int)
    requires
        0 <= i < tools.len(),
        forall|j: int|
            i < j < tools.len() ==> snake_case((#[trigger] tools[j]).name) != snake_case(
                tools[i].name,
            ),
    ensures
        names_of(tools).contains_key(snake_case(tools[i].name)),
        names_of(tools)[snake_case(tools[i].name)] == tools[i].name,
    decreases tools.len(),
{
    let last = tools.len() - 1;
    if i < last {
        let head = tools.drop_last();
        assert forall|j: int| i < j < head.len() implies snake_case((#[trigger] head[j]).name)
            != snake_case(head[i].name) by {
            assert(snake_case(tools[j].name) != snake_case(tools[i].name));
        }
        the_last_tool_of_a_name_counts(head, i);
        assert(snake_case(tools[last].name) != snake_case(tools[i].name));
    }
}

/// An answer is a list of calls, or one call by itself; anything else has none.
pub proof fn answers_are_calls(items: Seq<Doc>, members: Seq<(Seq<char>, Doc)>, doc: Doc)
    ensures
        answers_in(Doc::Array(items)) == items,
        answers_in(Doc::Object(members)) == seq![Doc::Object(members)],
        !(doc is Array) && !(doc is Object) ==> answers_in(doc).len() == 0,
{
}

/// Every element with a name that is not empty is one more call, under the name
/// behind it, or under that name itself where none is behind it, and with the
/// very arguments that it holds; without an object of arguments it has none.
pub proof fn named_answers_are_calls(
    before: Seq<Doc>,
    item: Doc,
    names: Map<Seq<char>, Seq<char>>,
    name: Seq<char>,
    arguments: Seq<(Seq<char>, Doc)>,
)
    requires
        holds(item, "name"@, Doc::Str(name)),
        name.len() > 0,
        holds(item, "arguments"@, Doc::Object(arguments)) || (!holds_object(item, "arguments"@)
            && arguments.len() == 0),
    ensures
        calls_in(before.push(item), names) == calls_in(before, names).push(
            Call {
                name: if names.contains_key(name) {
                    names[name]
                } else {
                    name
                },
                arguments,
            },
        ),
{
    keys_are_found(item, "name"@);
    keys_are_found(item, "arguments"@);
    assert(holds(item, "name"@, Doc::Str(name)));
    assert(before.push(item).drop_last() =~= before);
    if let Some(Doc::Object(m)) = item.get("arguments"@) {
        assert(holds(item, "arguments"@, Doc::Object(m)));
    } else {
        assert(arguments =~= Seq::empty());
    }
}

/// An element without a name, or with an empty one, is no call.
pub proof fn nameless_answers_are_passed_over(
    before: Seq<Doc>,
    item: Doc,
    names: Map<Seq<char>, Seq<char>>,
)
    requires
        !holds_string(item, "name"@) || holds(item, "name"@, Doc::Str(Seq::empty())),
    ensures
        calls_in(before.push(item), names) == calls_in(before, names),
        calls_in(Seq::empty(), names).len() == 0,
{
    keys_are_found(item, "name"@);
    assert(before.push(item).drop_last() =~= before);
    if let Some(Doc::Str(s)) = item.get("name"@) {
        assert(holds(item, "name"@, Doc::Str(s)));
        assert(holds(item, "name"@, Doc::Str(Seq::empty())));
    }
}

/// Output that is JSON, white space around it aside, holds the calls of that
/// document, and output that is none holds no call.
pub proof fn output_is_read_as_json(
    a: Seq<char>,
    s: Seq<char>,
    b: Seq<char>,
    names: Map<Seq<char>, Seq<char>>,
    doc: Doc,
)
    requires
        all_white(a),
        is_bare(s),
        all_white(b),
    ensures
        parsed(s) == Some(doc) ==> calls_of_output(a + s + b, names) == calls_in(
            answers_in(doc),
            names,
        ),
        parsed(s) is None ==> calls_of_output(a + s + b, names).len() == 0,
{
    trimming_takes_the_white_space_around(a, s, b);
}

} // verus!
