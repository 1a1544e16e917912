//! Which tokens keep their logits while a tool name or an argument key is being
//! written, told by the list of tools.

use crate::constrain::{
    at_start, keys_by_name, keys_in, leads, name_in, tools_in, Constraint,
};
use crate::json::Doc;
use crate::laws::calling::schemas_show_the_tool;
use crate::laws::configuring::{is_schema, tools_are_read};
use crate::laws::documents::{holds, keys_are_found};
use crate::machine::JsonState;
use crate::snake::snake_case;
use crate::tools::{
    converted_arguments_are_objects, normalized_parameters, schema_of, schemas_of, tool_in, ToolDef,
};
use crate::trie::{first_quote, lemma_first_quote};
use crate::vocab::Vocab;
use vstd::prelude::*;

verus! {

/// Does the element of a list of tools have this name?
pub open spec fn is_called(item: Doc, name: Seq<char>) -> bool {
    holds(item, "name"@, Doc::Str(name))
}

/// Is the element at `i` the last one with this name?
pub open spec fn is_last_called(items: Seq<Doc>, i: int, name: Seq<char>) -> bool {
    &&& 0 <= i < items.len()
    &&& is_called(items[i], name)
    &&& forall|j: int| i < j < items.len() ==> !is_called(#[trigger] items[j], name)
}

proof fn lemma_called(item: Doc, name: Seq<char>)
    requires
        name.len() > 0,
    ensures
        is_called(item, name) <==> name_in(item) == name,
{
    keys_are_found(item, "name"@);
    assert(holds(item, "name"@, Doc::Str(name)) <==> item.get("name"@) == Some(Doc::Str(name)));
}

/// What is no list has no tools, and no name may be written then.
pub proof fn only_lists_have_tools(doc: Doc, name: Seq<char>)
    requires
        !(doc is Array),
    ensures
        !keys_by_name(tools_in(doc)).contains_key(name),
{
}

/// The names that may be written are those of the listed tools, and no others.
pub proof fn listed_names_are_known(items: Seq<Doc>, name: Seq<char>)
    ensures
        keys_by_name(tools_in(Doc::Array(items))).contains_key(name) <==> name.len() > 0 && exists|
            i: int,
        |
            0 <= i < items.len() && is_called(#[trigger] items[i], name),
    decreases items.len(),
{
    if items.len() > 0 {
        let head = items.drop_last();
        let last = items.len() - 1;
        listed_names_are_known(head, name);
        assert(items[last] == items.last());
        if name.len() > 0 {
            lemma_called(items.last(), name);
            if exists|i: int| 0 <= i < head.len() && is_called(#[trigger] head[i], name) {
                let i = choose|i: int| 0 <= i < head.len() && is_called(#[trigger] head[i], name);
                assert(is_called(items[i], name));
            }
            if exists|i: int| 0 <= i < items.len() && is_called(#[trigger] items[i], name) {
                let i = choose|i: int| 0 <= i < items.len() && is_called(#[trigger] items[i], name);
                if i < last {
                    assert(is_called(head[i], name));
                }
            }
        }
    }
}

proof fn lemma_last_called(items: Seq<Doc>, i: int, name: Seq<char>)
    requires
        is_last_called(items, i, name),
        name.len() > 0,
    ensures
        keys_by_name(items).contains_key(name),
        keys_by_name(items)[name] == keys_in(items[i]),
    decreases items.len(),
{
    let last = items.len() - 1;
    lemma_called(items.last(), name);
    assert(items[last] == items.last());
    if i < last {
        let head = items.drop_last();
        assert forall|j: int| i < j < head.len() implies !is_called(#[trigger] head[j], name) by {
            assert(!is_called(items[j], name));
        }
        lemma_last_called(head, i, name);
        assert(!is_called(items[last], name));
    }
}

/// Every parameter of a listed tool that is an object, whatever that object
/// holds, is a key that may be written in a call of the tool.
pub proof fn object_parameters_are_keys(
    items: Seq<Doc>,
    i: int,
    name: Seq<char>,
    params: Seq<(Seq<char>, Doc)>,
    j: int,
)
    requires
        is_last_called(items, i, name),
        name.len() > 0,
        holds(items[i], "parameters"@, Doc::Object(params)),
        0 <= j < params.len(),
        params[j].1 is Object,
    ensures
        keys_by_name(tools_in(Doc::Array(items))).contains_key(name),
        keys_by_name(tools_in(Doc::Array(items)))[name].contains(params[j].0),
{
    lemma_last_called(items, i, name);
    keys_are_found(items[i], "parameters"@);
    assert(holds(items[i], "parameters"@, Doc::Object(params)));
    assert(params[j].0 == params[j].0);
}

/// No other key may be written: each one is a parameter of the tool that is an
/// object.
pub proof fn keys_are_object_parameters(
    items: Seq<Doc>,
    i: int,
    name: Seq<char>,
    key: Seq<char>,
)
    requires
        is_last_called(items, i, name),
        name.len() > 0,
        keys_by_name(tools_in(Doc::Array(items)))[name].contains(key),
    ensures
        exists|params: Seq<(Seq<char>, Doc)>, j: int|
            holds(items[i], "parameters"@, Doc::Object(params)) && 0 <= j < params.len() && (
            #[trigger] params[j]).0 == key && params[j].1 is Object,
{
    lemma_last_called(items, i, name);
    keys_are_found(items[i], "parameters"@);
    assert(keys_in(items[i]).contains(key));
    let params = items[i].get("parameters"@)->0->Object_0;
    assert(holds(items[i], "parameters"@, Doc::Object(params)));
    let j = choose|j: int|
        0 <= j < params.len() && (#[trigger] params[j]).0 == key && params[j].1 is Object;
    assert(params[j].0 == key);
}

/// Every property of a JSON Schema, required or not, is a key that may be
/// written in a call of the tool that was configured with it.
pub proof fn schema_properties_are_keys(
    tools: Seq<ToolDef>,
    i: int,
    item: Doc,
    name: Seq<char>,
    params: Doc,
    props: Seq<(Seq<char>, Doc)>,
    p: int,
)
    requires
        0 <= i < tools.len(),
        tools[i] == tool_in(item),
        holds(item, "name"@, Doc::Str(name)),
        holds(item, "parameters"@, params),
        is_schema(params, props),
        0 <= p < props.len(),
        snake_case(name).len() > 0,
        forall|k: int|
            i < k < tools.len() ==> snake_case((#[trigger] tools[k]).name) != snake_case(name),
    ensures
        keys_by_name(tools_in(schemas_of(tools)))[snake_case(name)].contains(props[p].0),
{
    tools_are_read(item, name, Seq::empty(), params, Doc::Null);
    let items = schemas_of(tools)->Array_0;
    let snake = snake_case(name);
    let t = tools[i];
    schemas_show_the_tool(t);
    assert(items[i] == schema_of(t));
    assert forall|k: int| i < k < items.len() implies !is_called(#[trigger] items[k], snake) by {
        schemas_show_the_tool(tools[k]);
        keys_are_found(items[k], "name"@);
        assert(holds(items[k], "name"@, Doc::Str(snake_case(tools[k].name))));
        assert(snake_case(tools[k].name) != snake);
    }
    lemma_own_style(params, props, p);
    object_parameters_are_keys(items, i, snake, t.parameters->Object_0, p);
    assert(schemas_of(tools) == Doc::Array(items));
}

proof fn lemma_own_style(params: Doc, props: Seq<(Seq<char>, Doc)>, p: int)
    requires
        is_schema(params, props),
        0 <= p < props.len(),
    ensures
        normalized_parameters(params) is Object,
        normalized_parameters(params)->Object_0.len() == props.len(),
        normalized_parameters(params)->Object_0[p].0 == props[p].0,
        normalized_parameters(params)->Object_0[p].1 is Object,
{
    keys_are_found(params, "type"@);
    keys_are_found(params, "properties"@);
    assert(holds(params, "type"@, Doc::Str("object"@)));
    assert(holds(params, "properties"@, Doc::Object(props)));
    converted_arguments_are_objects(params);
}

/// Does the text hold no quotation mark?
pub open spec fn is_unquoted(text: Seq<char>) -> bool {
    forall|k: int| 0 <= k < text.len() ==> #[trigger] text[k] != '"'
}

/// May these words be written where the constraint is: the tool names inside a
/// name, and the keys of the tool that is called inside a key?
pub open spec fn may_write(c: Constraint, words: Set<Seq<char>>) -> bool {
    ||| c.scan.state == JsonState::InName && words == c.keys.dom()
    ||| c.scan.state == JsonState::InArgKey && c.keys.contains_key(c.scan.function) && words
        == c.keys[c.scan.function]
}

/// Does the token go on with the word: is what is written, with the token
/// behind it, the start of the word, or does the token end the word, with a
/// quotation mark right behind it?
pub open spec fn goes_on(span: Seq<char>, text: Seq<char>, word: Seq<char>) -> bool {
    ||| is_unquoted(text) && (span + text).is_prefix_of(word)
    ||| exists|q: int|
        0 <= q < text.len() && #[trigger] text[q] == '"' && is_unquoted(text.take(q)) && span
            + text.take(q) == word
}

proof fn lemma_goes_on(c: Constraint, words: Set<Seq<char>>, t: int)
    requires
        may_write(c, words),
        0 <= t < c.texts.len(),
        c.texts[t].len() > 0,
    ensures
        c.allows(t) <==> exists|word: Seq<char>| #[trigger]
            words.contains(word) && goes_on(c.scan.span, c.texts[t], word),
{
    let span = c.scan.span;
    let text = c.texts[t];
    let q = first_quote(text);
    lemma_first_quote(text);
    if c.allows(t) {
        if q < text.len() {
            let word = span + text.take(q);
            assert forall|k: int| 0 <= k < text.take(q).len() implies #[trigger] text.take(q)[k]
                != '"' by {
                assert(text[k] != '"');
            }
            assert(text[q] == '"');
            assert(words.contains(word) && goes_on(span, text, word));
        } else {
            let word = choose|w: Seq<char>| #[trigger]
                words.contains(w) && (span + text).is_prefix_of(w);
            assert(goes_on(span, text, word));
        }
    }
    if exists|word: Seq<char>| #[trigger] words.contains(word) && goes_on(span, text, word) {
        let word = choose|word: Seq<char>| #[trigger]
            words.contains(word) && goes_on(span, text, word);
        if is_unquoted(text) && (span + text).is_prefix_of(word) {
            assert(q == text.len()) by {
                if q < text.len() {
                    assert(text[q] == '"');
                }
            }
            assert(leads(span + text, words));
            assert(span =~= word.take(span.len() as int)) by {
                assert forall|k: int| 0 <= k < span.len() implies span[k] == word[k] by {
                    assert((span + text)[k] == span[k]);
                }
            }
            assert(leads(span, words));
        } else {
            let e = choose|e: int|
                0 <= e < text.len() && #[trigger] text[e] == '"' && is_unquoted(text.take(e))
                    && span + text.take(e) == word;
            assert(q == e) by {
                if q < e {
                    assert(text.take(e)[q] == '"');
                } else if e < q {
                    assert(text[e] != '"');
                }
            }
            assert(span =~= word.take(span.len() as int));
            assert(leads(span, words));
        }
        assert(c.allows(t));
    }
}

/// A token that goes on with a word that may be written keeps its logit,
/// whatever the other tokens are.
pub proof fn tokens_that_go_on_keep_their_logits(
    c: Constraint,
    words: Set<Seq<char>>,
    word: Seq<char>,
    t: int,
    logits: Seq<u32>,
)
    requires
        may_write(c, words),
        words.contains(word),
        0 <= t < c.texts.len(),
        t < logits.len(),
        c.texts[t].len() > 0,
        goes_on(c.scan.span, c.texts[t], word),
    ensures
        c.masked(logits).len() == logits.len(),
        c.masked(logits)[t] == logits[t],
{
    lemma_goes_on(c, words, t);
}

/// Where some token goes on with a word that may be written, every other one
/// gets minus infinity, and so does one without a text or none at all.
pub proof fn other_tokens_lose_their_logits(
    c: Constraint,
    words: Set<Seq<char>>,
    word: Seq<char>,
    t: int,
    u: int,
    logits: Seq<u32>,
)
    requires
        may_write(c, words),
        words.contains(word),
        0 <= t < c.texts.len(),
        c.texts[t].len() > 0,
        goes_on(c.scan.span, c.texts[t], word),
        0 <= u < logits.len(),
        u < c.texts.len() ==> c.texts[u].len() == 0 || forall|w: Seq<char>| #[trigger]
            words.contains(w) ==> !goes_on(c.scan.span, c.texts[u], w),
    ensures
        c.masked(logits)[u] == 0xff80_0000u32,
{
    lemma_goes_on(c, words, t);
    if u < c.texts.len() && c.texts[u].len() > 0 {
        lemma_goes_on(c, words, u);
    }
}

/// Where nothing is being written that is constrained, or no token goes on with
/// a word that may be written, every token keeps its logit.
pub proof fn without_a_way_on_all_keep_their_logits(
    c: Constraint,
    words: Set<Seq<char>>,
    logits: Seq<u32>,
)
    requires
        c.scan.state == JsonState::Free || (c.scan.state == JsonState::InArgKey
            && !c.keys.contains_key(c.scan.function)) || (may_write(c, words) && forall|
            t: int,
            w: Seq<char>,
        |
            0 <= t < c.texts.len() && c.texts[t].len() > 0 && words.contains(w) ==> !#[trigger] goes_on(
                c.scan.span,
                c.texts[t],
                w,
            )),
    ensures
        c.masked(logits) == logits,
{
    if may_write(c, words) {
        assert forall|t: int| !c.allows(t) by {
            if 0 <= t < c.texts.len() && c.texts[t].len() > 0 {
                lemma_goes_on(c, words, t);
            }
        }
    }
}

/// A constrainer starts outside of names and keys, with the words of the listed
/// tools and the visible text of each token.
pub proof fn constraints_start_from_the_list(items: Seq<Doc>, v: Vocab, t: int)
    requires
        v.pieces.len() <= u32::MAX,
        0 <= t < v.pieces.len(),
    ensures
        at_start(Doc::Array(items), v).keys == keys_by_name(tools_in(Doc::Array(items))),
        at_start(Doc::Array(items), v).texts.len() == v.pieces.len(),
        at_start(Doc::Array(items), v).texts[t] == v.visible(t as u32),
        at_start(Doc::Array(items), v).scan.state == JsonState::Free,
        at_start(Doc::Array(items), v).scan.buffer.len() == 0,
{
}

/// Written into a call of a listed tool, the next token of any parameter that
/// is an object keeps its logit.
pub proof fn every_argument_can_be_written(
    c: Constraint,
    items: Seq<Doc>,
    i: int,
    name: Seq<char>,
    params: Seq<(Seq<char>, Doc)>,
    j: int,
    t: int,
    logits: Seq<u32>,
)
    requires
        c.keys == keys_by_name(tools_in(Doc::Array(items))),
        is_last_called(items, i, name),
        name.len() > 0,
        holds(items[i], "parameters"@, Doc::Object(params)),
        0 <= j < params.len(),
        params[j].1 is Object,
        c.scan.state == JsonState::InArgKey,
        c.scan.function == name,
        0 <= t < c.texts.len(),
        t < logits.len(),
        c.texts[t].len() > 0,
        goes_on(c.scan.span, c.texts[t], params[j].0),
    ensures
        c.masked(logits)[t] == logits[t],
{
    object_parameters_are_keys(items, i, name, params, j);
    tokens_that_go_on_keep_their_logits(c, c.keys[name], params[j].0, t, logits);
}

/// The next token of the name of any listed tool keeps its logit.
pub proof fn every_tool_can_be_named(
    c: Constraint,
    items: Seq<Doc>,
    i: int,
    name: Seq<char>,
    t: int,
    logits: Seq<u32>,
)
    requires
        c.keys == keys_by_name(tools_in(Doc::Array(items))),
        0 <= i < items.len(),
        is_called(items[i], name),
        name.len() > 0,
        c.scan.state == JsonState::InName,
        0 <= t < c.texts.len(),
        t < logits.len(),
        c.texts[t].len() > 0,
        goes_on(c.scan.span, c.texts[t], name),
    ensures
        c.masked(logits)[t] == logits[t],
{
    listed_names_are_known(items, name);
    assert(c.keys.dom().contains(name));
    tokens_that_go_on_keep_their_logits(c, c.keys.dom(), name, t, logits);
}

/// A token moves the constraint on by its text, and changes neither the words
/// nor the texts.
pub proof fn tokens_move_the_constraint_on(c: Constraint, t: int)
    ensures
        c.after(t).keys == c.keys,
        c.after(t).texts == c.texts,
        c.after(t).scan == c.scan.feed(c.texts[t]),
{
}

} // verus!
