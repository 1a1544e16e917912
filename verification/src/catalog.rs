//! How the parts fit together: the tools that a prompt lists are the ones that
//! constrained decoding lets through, and a call of one of them leads back to
//! the tool in the configuration.

use crate::constrain::{
    a_writable_word_leaves_a_way_on, at_start, is_object_key, is_writable, keys_by_name, keys_in,
    name_in, text_of, tools_in, writes_word, written_word_is_known, Constraint,
};
use crate::generate::{chosen_token_is_allowed, Decoding};
use crate::json::{member, position, Doc};
use crate::machine::JsonState;
use crate::single::{greater, NEG_INFINITY};
use crate::snake::snake_case;
use crate::tools::{
    answers_in, call_in, calls_in, first_named, lemma_first_named, names_of, schema_of, schemas_of,
    Call, ToolDef,
};
use crate::trie::first_quote;
use crate::vocab::Vocab;
use vstd::prelude::*;

verus! {

/// The arguments of a tool: those of its parameters that are objects.
pub open spec fn arguments_of(t: ToolDef) -> Set<Seq<char>> {
    match t.parameters {
        Doc::Object(members) => Set::new(|k: Seq<char>| is_object_key(members, k)),
        _ => Set::empty(),
    }
}

/// Is this tool one that the name in snake case stands for?
pub open spec fn stands_for(t: ToolDef, snake: Seq<char>) -> bool {
    snake_case(t.name) == snake
}

/// The map of names holds the names in snake case of the tools and no others,
/// and each leads to the name of a tool that it stands for.
pub proof fn names_lead_to_tools(tools: Seq<ToolDef>, snake: Seq<char>)
    ensures
        names_of(tools).contains_key(snake) <==> exists|i: int|
            0 <= i < tools.len() && stands_for(#[trigger] tools[i], snake),
        names_of(tools).contains_key(snake) ==> exists|i: int|
            0 <= i < tools.len() && stands_for(#[trigger] tools[i], snake) && tools[i].name
                == names_of(tools)[snake],
    decreases tools.len(),
{
    if tools.len() > 0 {
        let shorter = tools.drop_last();
        names_lead_to_tools(shorter, snake);
        let last = tools.len() - 1;
        assert(tools[last] == tools.last());
        if stands_for(tools.last(), snake) {
            assert(stands_for(tools[last], snake));
        } else if names_of(shorter).contains_key(snake) {
            let i = choose|i: int|
                0 <= i < shorter.len() && stands_for(#[trigger] shorter[i], snake)
                    && shorter[i].name == names_of(shorter)[snake];
            assert(stands_for(tools[i], snake));
            assert(tools[i].name == names_of(tools)[snake]);
        } else {
            assert forall|i: int| 0 <= i < tools.len() implies !stands_for(
                #[trigger] tools[i],
                snake,
            ) by {
                if i < last {
                    assert(!stands_for(shorter[i], snake));
                }
            }
        }
    }
}

/// Where no other tool shares its name in snake case, that name leads back to
/// the tool's own.
pub proof fn distinct_names_lead_back(tools: Seq<ToolDef>, i: int)
    requires
        0 <= i < tools.len(),
        forall|j: int|
            0 <= j < tools.len() && j != i ==> !stands_for(
                #[trigger] tools[j],
                snake_case(tools[i].name),
            ),
    ensures
        names_of(tools).contains_key(snake_case(tools[i].name)),
        names_of(tools)[snake_case(tools[i].name)] == tools[i].name,
{
    let snake = snake_case(tools[i].name);
    assert(stands_for(tools[i], snake));
    names_lead_to_tools(tools, snake);
    let k = choose|k: int|
        0 <= k < tools.len() && stands_for(#[trigger] tools[k], snake) && tools[k].name == names_of(
            tools,
        )[snake];
    assert(k == i);
}

/// The members of a schema are its name, description and parameters.
proof fn lemma_schema_members(t: ToolDef)
    ensures
        name_in(schema_of(t)) == snake_case(t.name),
        keys_in(schema_of(t)) == arguments_of(t),
{
    reveal_strlit("name");
    reveal_strlit("description");
    reveal_strlit("parameters");
    assert("name"@.len() == 4 && "description"@.len() == 11 && "parameters"@.len() == 10);
    let members = schema_of(t)->Object_0;
    let rest = members.drop_first();
    assert(rest[0] == members[1]);
    assert(rest.drop_first()[0] == members[2]);
    assert(position(rest.drop_first(), "parameters"@) == 0);
    assert(position(rest, "parameters"@) == 1);
    assert(position(members, "parameters"@) == 2);
    assert(member(members, "parameters"@) == Some(t.parameters));
    assert(position(members, "name"@) == 0);
    assert(keys_in(schema_of(t)) =~= arguments_of(t));
}

/// The tool names that decoding lets through for a list of schemas are the
/// names in snake case of the listed tools, and the argument keys of a name are
/// the arguments of the tool that the name leads back to.
pub proof fn known_words_are_the_listed_tools(tools: Seq<ToolDef>, snake: Seq<char>)
    ensures
        ({
            let keys = keys_by_name(tools_in(schemas_of(tools)));
            &&& keys.contains_key(snake) <==> snake.len() > 0 && names_of(tools).contains_key(snake)
            &&& keys.contains_key(snake) ==> exists|i: int|
                0 <= i < tools.len() && stands_for(#[trigger] tools[i], snake) && tools[i].name
                    == names_of(tools)[snake] && keys[snake] == arguments_of(tools[i])
        }),
    decreases tools.len(),
{
    let items = tools_in(schemas_of(tools));
    if tools.len() > 0 {
        let shorter = tools.drop_last();
        known_words_are_the_listed_tools(shorter, snake);
        lemma_schema_members(tools.last());
        assert(items.drop_last() =~= tools_in(schemas_of(shorter)));
        assert(items.last() == schema_of(tools.last()));
        let last = tools.len() - 1;
        assert(tools[last] == tools.last());
        if snake.len() > 0 && stands_for(tools.last(), snake) {
            assert(stands_for(tools[last], snake));
        } else if keys_by_name(items.drop_last()).contains_key(snake) {
            let keys = keys_by_name(items.drop_last());
            let i = choose|i: int|
                0 <= i < shorter.len() && stands_for(#[trigger] shorter[i], snake)
                    && shorter[i].name == names_of(shorter)[snake] && keys[snake] == arguments_of(
                    shorter[i],
                );
            assert(tools[i] == shorter[i]);
            assert(stands_for(tools[i], snake));
        }
    }
}

/// The tools that exist: a name that was written under constrained decoding,
/// every token of it an allowed one, leads back to a tool of the list.
pub proof fn written_name_is_a_tool(
    tools: Seq<ToolDef>,
    v: Vocab,
    c: Constraint,
    ids: Seq<int>,
)
    requires
        c.keys == at_start(schemas_of(tools), v).keys,
        c.scan.state == JsonState::InName,
        writes_word(c, ids),
    ensures
        ({
            let text = text_of(c.texts, ids);
            let name = c.scan.span + text.take(first_quote(text));
            &&& names_of(tools).contains_key(name)
            &&& first_named(tools, names_of(tools)[name]) < tools.len()
        }),
{
    written_word_is_known(c, ids);
    let text = text_of(c.texts, ids);
    let name = c.scan.span + text.take(first_quote(text));
    known_words_are_the_listed_tools(tools, name);
    lemma_first_named(tools, names_of(tools)[name]);
    let i = choose|i: int|
        0 <= i < tools.len() && stands_for(#[trigger] tools[i], name) && tools[i].name == names_of(
            tools,
        )[name];
    assert(tools[i].name == names_of(tools)[name]);
}

/// The arguments that they have: a key that was written under constrained
/// decoding inside a call of a listed tool, every token of it an allowed one,
/// is an argument of the tool that the call's name leads back to.
pub proof fn written_key_is_an_argument(
    tools: Seq<ToolDef>,
    v: Vocab,
    c: Constraint,
    ids: Seq<int>,
)
    requires
        c.keys == at_start(schemas_of(tools), v).keys,
        c.scan.state == JsonState::InArgKey,
        writes_word(c, ids),
    ensures
        ({
            let text = text_of(c.texts, ids);
            let key = c.scan.span + text.take(first_quote(text));
            exists|i: int|
                0 <= i < tools.len() && stands_for(#[trigger] tools[i], c.scan.function)
                    && tools[i].name == names_of(tools)[c.scan.function] && arguments_of(
                    tools[i],
                ).contains(key)
        }),
{
    written_word_is_known(c, ids);
    known_words_are_the_listed_tools(tools, c.scan.function);
}

/// The tokens that are chosen, step by step, from these logits.
pub open spec fn chosen_tokens(d: Decoding, steps: Seq<Seq<u32>>) -> Seq<int>
    decreases steps.len(),
{
    if steps.len() == 0 {
        Seq::empty()
    } else {
        seq![d.chosen(steps[0]) as int] + chosen_tokens(d.stepped(steps[0]), steps.drop_first())
    }
}

/// Is there an allowed token with a logit above minus infinity?
pub open spec fn has_way_on(c: Constraint, logits: Seq<u32>) -> bool {
    logits.len() <= u32::MAX && exists|t: int|
        c.allows(t) && t < logits.len() && greater(#[trigger] logits[t], NEG_INFINITY)
}

/// Logits that are all above minus infinity leave a way on while what is
/// written leads to a known word that can be written character by character.
pub proof fn finite_logits_leave_a_way_on(c: Constraint, word: Seq<char>, logits: Seq<u32>)
    requires
        c.words() is Some,
        c.words()->0.contains(word),
        c.scan.span.is_prefix_of(word),
        is_writable(c, word),
        c.texts.len() <= logits.len() <= u32::MAX,
        forall|t: int| 0 <= t < logits.len() ==> greater(#[trigger] logits[t], NEG_INFINITY),
    ensures
        has_way_on(c, logits),
{
    a_writable_word_leaves_a_way_on(c, word);
    let t = choose|t: int| c.allows(t);
    assert(greater(logits[t], NEG_INFINITY));
}

/// Do these steps write one word to its end, with a way on at each of them?
pub open spec fn steps_through_word(d: Decoding, steps: Seq<Seq<u32>>) -> bool
    decreases steps.len(),
{
    &&& steps.len() > 0
    &&& d.constraint is Some
    &&& has_way_on(d.constraint->0, steps[0])
    &&& {
        let text = d.constraint->0.texts[d.chosen(steps[0]) as int];
        if steps.len() == 1 {
            first_quote(text) < text.len()
        } else {
            first_quote(text) == text.len() && steps_through_word(
                d.stepped(steps[0]),
                steps.drop_first(),
            )
        }
    }
}

/// Steps through a word choose tokens that write one.
proof fn lemma_steps_write_word(d: Decoding, steps: Seq<Seq<u32>>)
    requires
        steps_through_word(d, steps),
    ensures
        writes_word(d.constraint->0, chosen_tokens(d, steps)),
    decreases steps.len(),
{
    let c = d.constraint->0;
    let logits = steps[0];
    let t = choose|t: int|
        c.allows(t) && t < logits.len() && greater(#[trigger] logits[t], NEG_INFINITY);
    chosen_token_is_allowed(d, logits, t);
    let next = d.stepped(logits);
    let rest = chosen_tokens(next, steps.drop_first());
    let ids = chosen_tokens(d, steps);
    assert(ids[0] == d.chosen(logits) as int);
    assert(ids.drop_first() =~= rest);
    if steps.len() == 1 {
        assert(rest =~= Seq::empty());
    } else {
        lemma_steps_write_word(next, steps.drop_first());
        assert(next.constraint == Some(c.after(ids[0])));
        assert(rest.len() > 0);
    }
}

/// Whatever the model's logits are, as long as they leave a way on: the name
/// that constrained generation writes leads back to a tool of the list.
pub proof fn generated_name_is_a_tool(
    tools: Seq<ToolDef>,
    v: Vocab,
    d: Decoding,
    steps: Seq<Seq<u32>>,
)
    requires
        steps_through_word(d, steps),
        d.constraint->0.keys == at_start(schemas_of(tools), v).keys,
        d.constraint->0.scan.state == JsonState::InName,
    ensures
        ({
            let c = d.constraint->0;
            let text = text_of(c.texts, chosen_tokens(d, steps));
            let name = c.scan.span + text.take(first_quote(text));
            &&& names_of(tools).contains_key(name)
            &&& first_named(tools, names_of(tools)[name]) < tools.len()
        }),
{
    lemma_steps_write_word(d, steps);
    written_name_is_a_tool(tools, v, d.constraint->0, chosen_tokens(d, steps));
}

/// Whatever the model's logits are, as long as they leave a way on: the key
/// that constrained generation writes inside a call of a listed tool is an
/// argument of that tool.
pub proof fn generated_key_is_an_argument(
    tools: Seq<ToolDef>,
    v: Vocab,
    d: Decoding,
    steps: Seq<Seq<u32>>,
)
    requires
        steps_through_word(d, steps),
        d.constraint->0.keys == at_start(schemas_of(tools), v).keys,
        d.constraint->0.scan.state == JsonState::InArgKey,
    ensures
        ({
            let c = d.constraint->0;
            let text = text_of(c.texts, chosen_tokens(d, steps));
            let key = c.scan.span + text.take(first_quote(text));
            exists|i: int|
                0 <= i < tools.len() && stands_for(#[trigger] tools[i], c.scan.function)
                    && tools[i].name == names_of(tools)[c.scan.function] && arguments_of(
                    tools[i],
                ).contains(key)
        }),
{
    lemma_steps_write_word(d, steps);
    written_key_is_an_argument(tools, v, d.constraint->0, chosen_tokens(d, steps));
}

/// An answer that calls a tool by its name in snake case, with some arguments.
pub open spec fn answer_for(snake: Seq<char>, arguments: Seq<(Seq<char>, Doc)>) -> Doc {
    Doc::Object(seq![("name"@, Doc::Str(snake)), ("arguments"@, Doc::Object(arguments))])
}

/// Answering with the name in snake case of a listed tool, one that no other
/// tool shares, is one call: under the tool's own name, by which it is found in
/// the configuration, and with the arguments of the answer.
pub proof fn answering_with_a_tool_calls_it(
    tools: Seq<ToolDef>,
    i: int,
    arguments: Seq<(Seq<char>, Doc)>,
)
    requires
        0 <= i < tools.len(),
        snake_case(tools[i].name).len() > 0,
        forall|j: int|
            0 <= j < tools.len() && j != i ==> !stands_for(
                #[trigger] tools[j],
                snake_case(tools[i].name),
            ),
    ensures
        calls_in(
            answers_in(answer_for(snake_case(tools[i].name), arguments)),
            names_of(tools),
        ) == seq![Call { name: tools[i].name, arguments }],
        first_named(tools, tools[i].name) == i,
{
    let snake = snake_case(tools[i].name);
    let names = names_of(tools);
    let doc = answer_for(snake, arguments);
    let members = doc->Object_0;
    distinct_names_lead_back(tools, i);
    reveal_strlit("name");
    reveal_strlit("arguments");
    assert("name"@.len() == 4 && "arguments"@.len() == 9);
    assert(members.drop_first()[0] == members[1]);
    assert(position(members.drop_first(), "arguments"@) == 0);
    assert(position(members, "arguments"@) == 1);
    assert(position(members, "name"@) == 0);
    assert(member(members, "name"@) == Some(Doc::Str(snake)));
    assert(member(members, "arguments"@) == Some(Doc::Object(arguments)));
    assert(call_in(doc, names) == (Call { name: tools[i].name, arguments }));
    assert(seq![doc].drop_last() =~= Seq::empty());
    assert(calls_in(Seq::<Doc>::empty(), names) == Seq::<Call>::empty());
    assert(calls_in(seq![doc], names) =~= seq![call_in(doc, names)]);
    lemma_first_named(tools, tools[i].name);
    let f = first_named(tools, tools[i].name);
    if f != i {
        assert(f < i);
        assert(stands_for(tools[f], snake));
    }
}

} // verus!
