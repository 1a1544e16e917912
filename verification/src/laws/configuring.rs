//! What a configuration becomes: parameters, templates, commands and tools.

use crate::json::Doc;
use crate::laws::documents::{holds, keys_are_found, lacks};
use crate::tools::{
    argument_in, configured, exec_in, first_tool_fault, is_required, maybe_bool, maybe_text,
    normalized_parameters, properties_in, template_in, templates_in, tool_fault, tool_in, Exec,
    Template, ToolFault,
};
use vstd::prelude::*;

verus! {

/// Is the document a JSON Schema with these properties?
pub open spec fn is_schema(doc: Doc, props: Seq<(Seq<char>, Doc)>) -> bool {
    holds(doc, "type"@, Doc::Str("object"@)) && holds(doc, "properties"@, Doc::Object(props))
}

/// Does the document hold a string under the key?
pub open spec fn holds_string(doc: Doc, key: Seq<char>) -> bool {
    exists|s: Seq<char>| #[trigger] holds(doc, key, Doc::Str(s))
}

/// Does the document hold a list under the key?
pub open spec fn holds_list(doc: Doc, key: Seq<char>) -> bool {
    exists|items: Seq<Doc>| #[trigger] holds(doc, key, Doc::Array(items))
}

/// Does the document hold an object under the key?
pub open spec fn holds_object(doc: Doc, key: Seq<char>) -> bool {
    exists|members: Seq<(Seq<char>, Doc)>| #[trigger] holds(doc, key, Doc::Object(members))
}

/// What is found under a key, by the kind of it.
proof fn lemma_found(doc: Doc, key: Seq<char>)
    ensures
        forall|value: Doc| #[trigger] holds(doc, key, value) <==> doc.get(key) == Some(value),
        lacks(doc, key) <==> doc.get(key) is None,
        holds_string(doc, key) <==> doc.get(key) matches Some(Doc::Str(_)),
        holds_list(doc, key) <==> doc.get(key) matches Some(Doc::Array(_)),
        holds_object(doc, key) <==> doc.get(key) matches Some(Doc::Object(_)),
{
    keys_are_found(doc, key);
    if let Some(Doc::Str(s)) = doc.get(key) {
        assert(holds(doc, key, Doc::Str(s)));
    }
    if let Some(Doc::Array(items)) = doc.get(key) {
        assert(holds(doc, key, Doc::Array(items)));
    }
    if let Some(Doc::Object(members)) = doc.get(key) {
        assert(holds(doc, key, Doc::Object(members)));
    }
}

proof fn lemma_schema(doc: Doc, props: Seq<(Seq<char>, Doc)>)
    requires
        is_schema(doc, props),
    ensures
        doc is Object,
        properties_in(doc) == Some(props),
{
    lemma_found(doc, "type"@);
    lemma_found(doc, "properties"@);
    assert(holds(doc, "type"@, Doc::Str("object"@)));
    assert(holds(doc, "properties"@, Doc::Object(props)));
}

/// What a converted argument holds.
proof fn lemma_converted(property: Doc, required: bool)
    ensures
        ({
            let a = argument_in(property, required);
            &&& holds(a, "required"@, Doc::Bool(required))
            &&& match property.get("type"@) {
                Some(d) => holds(a, "type"@, d),
                None => holds(a, "type"@, Doc::Str("string"@)),
            }
            &&& match property.get("description"@) {
                Some(d) => holds(a, "description"@, d),
                None => lacks(a, "description"@),
            }
        }),
{
    reveal_strlit("type");
    reveal_strlit("description");
    reveal_strlit("required");
    assert("type"@.len() == 4 && "description"@.len() == 11 && "required"@.len() == 8);
    let a = argument_in(property, required);
    let m = a->Object_0;
    assert(m[0].0 == "type"@);
    let kind = m[0].1;
    assert(m[0] == ("type"@, kind));
    assert(holds(a, "type"@, kind));
    if let Some(d) = property.get("description"@) {
        assert(m[1] == ("description"@, d));
        assert(holds(a, "description"@, d));
        assert(m[2] == ("required"@, Doc::Bool(required)));
    } else {
        assert(m[1] == ("required"@, Doc::Bool(required)));
    }
}

/// The keys of a converted JSON Schema are those of its properties, in order;
/// a key is required exactly where it stands somewhere in the list of required
/// ones.
pub proof fn required_keys_are_required(
    doc: Doc,
    props: Seq<(Seq<char>, Doc)>,
    list: Seq<Doc>,
    p: int,
)
    requires
        is_schema(doc, props),
        holds(doc, "required"@, Doc::Array(list)),
        0 <= p < props.len(),
    ensures
        ({
            let to = normalized_parameters(doc)->Object_0;
            &&& normalized_parameters(doc) is Object
            &&& to.len() == props.len()
            &&& to[p].0 == props[p].0
            &&& list.contains(Doc::Str(props[p].0)) ==> holds(
                to[p].1,
                "required"@,
                Doc::Bool(true),
            )
            &&& !list.contains(Doc::Str(props[p].0)) ==> holds(
                to[p].1,
                "required"@,
                Doc::Bool(false),
            )
        }),
{
    lemma_schema(doc, props);
    lemma_found(doc, "required"@);
    assert(holds(doc, "required"@, Doc::Array(list)));
    let key = props[p].0;
    lemma_converted(props[p].1, is_required(doc, key));
    if list.contains(Doc::Str(key)) {
        let i = choose|i: int| 0 <= i < list.len() && list[i] == Doc::Str(key);
        assert(list[i] == Doc::Str(key));
        assert(is_required(doc, key));
    }
}

/// Without a list of required keys none is required.
pub proof fn without_a_list_nothing_is_required(
    doc: Doc,
    props: Seq<(Seq<char>, Doc)>,
    p: int,
)
    requires
        is_schema(doc, props),
        !holds_list(doc, "required"@),
        0 <= p < props.len(),
    ensures
        normalized_parameters(doc) is Object,
        normalized_parameters(doc)->Object_0.len() == props.len(),
        normalized_parameters(doc)->Object_0[p].0 == props[p].0,
        holds(normalized_parameters(doc)->Object_0[p].1, "required"@, Doc::Bool(false)),
{
    lemma_schema(doc, props);
    lemma_found(doc, "required"@);
    lemma_converted(props[p].1, false);
}

/// An argument of a converted JSON Schema keeps the type and the description of
/// its property; without a type it is a string, and without a description it
/// has none.
pub proof fn properties_keep_type_and_description(
    doc: Doc,
    props: Seq<(Seq<char>, Doc)>,
    p: int,
    d: Doc,
)
    requires
        is_schema(doc, props),
        0 <= p < props.len(),
    ensures
        ({
            let to = normalized_parameters(doc)->Object_0[p].1;
            &&& holds(props[p].1, "type"@, d) ==> holds(to, "type"@, d)
            &&& lacks(props[p].1, "type"@) ==> holds(to, "type"@, Doc::Str("string"@))
            &&& holds(props[p].1, "description"@, d) ==> holds(to, "description"@, d)
            &&& lacks(props[p].1, "description"@) ==> lacks(to, "description"@)
        }),
{
    lemma_schema(doc, props);
    lemma_found(props[p].1, "type"@);
    lemma_found(props[p].1, "description"@);
    lemma_converted(props[p].1, is_required(doc, props[p].0));
}

/// Parameters that are no JSON Schema stay as they are, and what is no object
/// at all is empty.
pub proof fn other_parameters_stay(doc: Doc)
    ensures
        !(doc is Object) ==> normalized_parameters(doc) == Doc::Object(Seq::empty()),
        doc is Object && !holds(doc, "type"@, Doc::Str("object"@)) ==> normalized_parameters(doc)
            == doc,
        doc is Object && !holds_object(doc, "properties"@) ==> normalized_parameters(doc) == doc,
{
    lemma_found(doc, "type"@);
    lemma_found(doc, "properties"@);
    if doc is Object && !holds(doc, "type"@, Doc::Str("object"@)) {
        assert(doc.get("type"@) != Some(Doc::Str("object"@)));
    }
}

/// Does the document give this text under the key, or none, by saying nothing
/// or null?
pub open spec fn gives_text(doc: Doc, key: Seq<char>, text: Option<Seq<char>>) -> bool {
    match text {
        Some(s) => holds(doc, key, Doc::Str(s)),
        None => lacks(doc, key) || holds(doc, key, Doc::Null),
    }
}

/// Does the document give this truth value under the key? Saying nothing is
/// false.
pub open spec fn gives_truth(doc: Doc, key: Seq<char>, b: bool) -> bool {
    holds(doc, key, Doc::Bool(b)) || (!b && lacks(doc, key))
}

/// A document with a literal is that literal, whatever else it holds.
pub proof fn literals_are_read(doc: Doc, lit: Seq<char>)
    ensures
        template_in(doc) == Some(Template::Lit(lit)) <==> holds(doc, "lit"@, Doc::Str(lit)),
{
    lemma_found(doc, "lit"@);
    assert(holds(doc, "lit"@, Doc::Str(lit)) <==> doc.get("lit"@) == Some(Doc::Str(lit)));
}

/// Any other document is a template for an argument exactly where it names one
/// and gives a flag, a default and whether it is optional, each of which may be
/// left out.
pub proof fn argument_templates_are_read(
    doc: Doc,
    arg: Seq<char>,
    flag: Option<Seq<char>>,
    default: Option<Seq<char>>,
    optional: bool,
)
    requires
        doc is Object,
        !holds_string(doc, "lit"@),
    ensures
        template_in(doc) == Some(Template::Arg { arg, flag, default, optional }) <==> {
            &&& holds(doc, "arg"@, Doc::Str(arg))
            &&& gives_text(doc, "flag"@, flag)
            &&& gives_text(doc, "default"@, default)
            &&& gives_truth(doc, "optional"@, optional)
        },
{
    lemma_found(doc, "lit"@);
    lemma_found(doc, "arg"@);
    lemma_text(doc, "flag"@, flag);
    lemma_text(doc, "default"@, default);
    lemma_truth(doc, "optional"@, optional);
    assert(holds(doc, "arg"@, Doc::Str(arg)) <==> doc.get("arg"@) == Some(Doc::Str(arg)));
}

proof fn lemma_text(doc: Doc, key: Seq<char>, text: Option<Seq<char>>)
    ensures
        gives_text(doc, key, text) <==> maybe_text(doc.get(key)) == Some(text),
{
    lemma_found(doc, key);
    assert(holds(doc, key, Doc::Null) <==> doc.get(key) == Some(Doc::Null));
    if let Some(s) = text {
        assert(holds(doc, key, Doc::Str(s)) <==> doc.get(key) == Some(Doc::Str(s)));
    }
}

proof fn lemma_truth(doc: Doc, key: Seq<char>, b: bool)
    ensures
        gives_truth(doc, key, b) <==> maybe_bool(doc.get(key)) == Some(b),
{
    lemma_found(doc, key);
    assert(holds(doc, key, Doc::Bool(b)) <==> doc.get(key) == Some(Doc::Bool(b)));
}

/// Do the documents describe these templates, one for one?
pub open spec fn describe(items: Seq<Doc>, args: Seq<Template>) -> bool {
    items.len() == args.len() && forall|i: int|
        0 <= i < items.len() ==> template_in(#[trigger] items[i]) == Some(args[i])
}

proof fn lemma_describe(items: Seq<Doc>, args: Seq<Template>)
    ensures
        describe(items, args) <==> templates_in(Doc::Array(items)) == Some(args),
{
    if describe(items, args) {
        assert(items.map_values(|d: Doc| template_in(d)->0) =~= args);
    }
    if let Some(all) = templates_in(Doc::Array(items)) {
        if all == args {
            assert forall|i: int| 0 <= i < items.len() implies template_in(#[trigger] items[i])
                == Some(args[i]) by {
                assert(all[i] == template_in(items[i])->0);
            }
        }
    }
}

/// A command is an object with the program under `cmd` and its templates, all
/// of them and in order, under `args`; without those it has none.
pub proof fn commands_are_read(doc: Doc, cmd: Seq<char>, items: Seq<Doc>, args: Seq<Template>)
    requires
        doc is Object,
        holds(doc, "cmd"@, Doc::Str(cmd)),
    ensures
        lacks(doc, "args"@) ==> exec_in(doc) == Some(Exec { cmd, args: Seq::empty() }),
        holds(doc, "args"@, Doc::Array(items)) ==> (describe(items, args) <==> exec_in(doc) == Some(
            Exec { cmd, args },
        )),
        !lacks(doc, "args"@) && !holds_list(doc, "args"@) ==> exec_in(doc) is None,
{
    lemma_found(doc, "cmd"@);
    lemma_found(doc, "args"@);
    assert(holds(doc, "cmd"@, Doc::Str(cmd)));
    lemma_describe(items, args);
    if holds(doc, "args"@, Doc::Array(items)) {
        assert(doc.get("args"@) == Some(Doc::Array(items)));
    }
}

/// A command may be given as a list of the two as well.
pub proof fn commands_may_be_lists(cmd: Seq<char>, items: Seq<Doc>, args: Seq<Template>)
    ensures
        exec_in(Doc::Array(seq![Doc::Str(cmd)])) == Some(Exec { cmd, args: Seq::empty() }),
        describe(items, args) <==> exec_in(Doc::Array(seq![Doc::Str(cmd), Doc::Array(items)]))
            == Some(Exec { cmd, args }),
{
    lemma_describe(items, args);
    let one = Doc::Array(seq![Doc::Str(cmd)]);
    assert(one.at(0) == Some(Doc::Str(cmd)));
    let two = Doc::Array(seq![Doc::Str(cmd), Doc::Array(items)]);
    assert(two.at(0) == Some(Doc::Str(cmd)));
    assert(two.at(1) == Some(Doc::Array(items)));
}

/// Without a program there is no command, nor is there one in a list of more
/// than the two; and only an object is a template.
pub proof fn commands_need_a_program(doc: Doc, items: Seq<Doc>)
    ensures
        items.len() == 0 || !(items[0] is Str) ==> exec_in(Doc::Array(items)) is None,
        items.len() > 2 ==> exec_in(Doc::Array(items)) is None,
        items.len() == 2 && !(items[1] is Array) ==> exec_in(Doc::Array(items)) is None,
        !(doc is Object) ==> template_in(doc) is None,
        doc is Object && !holds_string(doc, "cmd"@) ==> exec_in(doc) is None,
        !(doc is Object) && !(doc is Array) ==> exec_in(doc) is None,
{
    lemma_found(doc, "cmd"@);
}

/// A tool without a name is at fault, and so is one whose command is none; no
/// other is.
pub proof fn tools_need_a_name_and_a_right_command(item: Doc)
    ensures
        tool_fault(item) == Some(ToolFault::NoName) <==> !holds_string(item, "name"@),
        tool_fault(item) == Some(ToolFault::BadExec) <==> holds_string(item, "name"@) && exists|
            e: Doc,
        | #[trigger]
            holds(item, "exec"@, e) && exec_in(e) is None,
{
    lemma_found(item, "name"@);
    lemma_found(item, "exec"@);
    if let Some(e) = item.get("exec"@) {
        assert(holds(item, "exec"@, e));
    }
}

/// A tool has the name, the description, the parameters and the command that it
/// is given; a missing description is empty, missing parameters are too, and
/// without a command it has none.
pub proof fn tools_are_read(item: Doc, name: Seq<char>, text: Seq<char>, d: Doc, e: Doc)
    requires
        holds(item, "name"@, Doc::Str(name)),
    ensures
        tool_in(item).name == name,
        holds(item, "description"@, Doc::Str(text)) ==> tool_in(item).description == text,
        !holds_string(item, "description"@) ==> tool_in(item).description.len() == 0,
        holds(item, "parameters"@, d) ==> tool_in(item).parameters == normalized_parameters(d),
        lacks(item, "parameters"@) ==> tool_in(item).parameters == Doc::Object(Seq::empty()),
        holds(item, "exec"@, e) ==> tool_in(item).exec_spec == exec_in(e),
        lacks(item, "exec"@) ==> tool_in(item).exec_spec is None,
{
    lemma_found(item, "name"@);
    lemma_found(item, "description"@);
    lemma_found(item, "parameters"@);
    lemma_found(item, "exec"@);
    assert(holds(item, "name"@, Doc::Str(name)));
    let none = Doc::Object(Seq::empty());
    lemma_found(none, "type"@);
    assert(none.get("type"@) is None);
    assert(normalized_parameters(none) == none);
}

/// The tools are the elements of a list, which may stand by itself or under
/// `tools`; anything else holds none.
pub proof fn tools_stand_in_a_list(doc: Doc, items: Seq<Doc>)
    ensures
        configured(Doc::Array(items)) == Some(items),
        holds(doc, "tools"@, Doc::Array(items)) ==> configured(doc) == Some(items),
        !(doc is Array) && !holds_list(doc, "tools"@) ==> configured(doc) is None,
{
    lemma_found(doc, "tools"@);
}

/// The fault that is told is that of the first tool at fault, and one is told
/// wherever a tool is at fault.
pub proof fn the_first_fault_is_told(items: Seq<Doc>, i: int)
    requires
        0 <= i <= items.len(),
    ensures
        match first_tool_fault(items, i) {
            Some((k, f)) => i <= k < items.len() && tool_fault(items[k]) == Some(f) && forall|
                j: int,
            |
                i <= j < k ==> tool_fault(#[trigger] items[j]) is None,
            None => forall|j: int|
                i <= j < items.len() ==> tool_fault(#[trigger] items[j]) is None,
        },
    decreases items.len() - i,
{
    if i < items.len() {
        the_first_fault_is_told(items, i + 1);
    }
}

} // verus!
