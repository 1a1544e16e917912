//! What the values that are passed around stand for.

use crate::cli::{Asked, Location, Opts, Place, Refusal, ReplInput, UsageError};
use crate::json::{number_text, Doc, Json, JsonMap};
use crate::report::{shown, Line, Shown};
use crate::spec_file::items_of;
use crate::text::texts;
use crate::tokenizer::rows;
use crate::tools::{
    calls_of, opt_text, ArgTemplate, ExecSpec, Template, Tool, ToolCall, ToolSet,
};
use vstd::prelude::*;

verus! {

/// A text stands for its characters, and a missing one for none.
pub proof fn texts_stand_for_their_characters(s: String)
    ensures
        opt_text(Some(s)) == Some(s@),
        opt_text(None) is None,
{
}

/// Options stand for settings of the same names.
pub proof fn options_stand_for_settings(o: Opts)
    ensures
        o@.query == opt_text(o.query),
        o@.tools_path == opt_text(o.tools_path),
        o@.tools_raw_path == opt_text(o.tools_raw_path),
        o@.model_dir == opt_text(o.model_dir),
        o@.repl == o.repl,
        o@.dry_run == o.dry_run,
        o@.assume_yes == o.assume_yes,
        o@.raw == o.raw,
        o@.no_constrain == o.no_constrain,
        o@.timing == o.timing,
        o@.top_k == o.top_k,
        o@.verify_tokenizer == opt_text(o.verify_tokenizer),
        o@.tokenize == opt_text(o.tokenize),
{
}

/// A refusal stands for what was wrong.
pub proof fn errors_stand_for_refusals(flag: String)
    ensures
        UsageError::Help@ == Refusal::Help,
        UsageError::TopK@ == Refusal::TopK,
        UsageError::UnknownFlag(flag)@ == Refusal::UnknownFlag(flag@),
{
}

/// A place and a line of the interactive mode stand for themselves.
pub proof fn places_and_lines_stand_for_themselves(a: String, b: String)
    ensures
        Location::At(a)@ == Place::At(a@),
        (Location::InHome { home: a, sub: b })@ == (Place::InHome { home: a@, sub: b@ }),
        ReplInput::Skip@ == Asked::Nothing,
        ReplInput::Quit@ == Asked::ToLeave,
        ReplInput::Request(a)@ == Asked::Request(a@),
{
}

/// A line goes to the stream that it is for, and lines keep their order.
pub proof fn lines_go_to_their_streams(s: String, lines: Seq<Line>, i: int)
    ensures
        Line::ToStdout(s)@ == Shown::Stdout(s@),
        Line::ToStderr(s)@ == Shown::Stderr(s@),
        shown(lines).len() == lines.len(),
        0 <= i < lines.len() ==> shown(lines)[i] == lines[i]@,
{
}

/// Documents stand for what they hold.
pub proof fn documents_stand_for_what_they_hold(
    b: bool,
    n: serde_json::Number,
    s: String,
    items: Vec<Json>,
    m: JsonMap,
    i: int,
)
    ensures
        Json::Null@ == Doc::Null,
        Json::Bool(b)@ == Doc::Bool(b),
        Json::Number(n)@ == Doc::Number(number_text(n)),
        Json::Str(s)@ == Doc::Str(s@),
        Json::Array(items)@ is Array,
        Json::Array(items)@->Array_0.len() == items@.len(),
        0 <= i < items@.len() ==> Json::Array(items)@->Array_0[i] == items@[i]@,
        Json::Object(m)@ == Doc::Object(m@),
{
}

/// Templates, commands, tools and calls stand for what they are made of, each
/// part for its own, and lists of them keep their order.
pub proof fn tools_and_calls_stand_for_their_parts(
    lit: String,
    arg: String,
    flag: Option<String>,
    default: Option<String>,
    optional: bool,
    e: ExecSpec,
    t: Tool,
    set: ToolSet,
    c: ToolCall,
    calls: Seq<ToolCall>,
    i: int,
)
    ensures
        (ArgTemplate::Lit { lit })@ == Template::Lit(lit@),
        (ArgTemplate::Arg { arg, flag, default, optional })@ == (Template::Arg {
            arg: arg@,
            flag: opt_text(flag),
            default: opt_text(default),
            optional,
        }),
        e@.cmd == e.cmd@,
        e@.args.len() == e.args@.len(),
        0 <= i < e.args@.len() ==> e@.args[i] == e.args@[i]@,
        t@.name == t.name@,
        t@.description == t.description@,
        t@.parameters == t.parameters@,
        t.exec_spec is None ==> t@.exec_spec is None,
        t.exec_spec == Some(e) ==> t@.exec_spec == Some(e@),
        set@.len() == set.tools@.len(),
        0 <= i < set.tools@.len() ==> set@[i] == set.tools@[i]@,
        c@.name == c.name@,
        c@.arguments == c.arguments@,
        calls_of(calls).len() == calls.len(),
        0 <= i < calls.len() ==> calls_of(calls)[i] == calls[i]@,
{
}

/// Lists stand for what their elements stand for, in order.
pub proof fn lists_stand_for_their_elements(
    strings: Seq<String>,
    docs: Seq<Json>,
    buffers: Seq<Vec<char>>,
    i: int,
)
    ensures
        texts(strings).len() == strings.len(),
        0 <= i < strings.len() ==> texts(strings)[i] == strings[i]@,
        items_of(docs).len() == docs.len(),
        0 <= i < docs.len() ==> items_of(docs)[i] == docs[i]@,
        rows(buffers).len() == buffers.len(),
        0 <= i < buffers.len() ==> rows(buffers)[i] == buffers[i]@,
{
}

} // verus!
