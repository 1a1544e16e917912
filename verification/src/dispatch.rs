//! From a call to a command: what is run, and when.
//!
//! Only tools with a command can run at all. The command line is a list of
//! tokens that never passes through a shell. Each command is confirmed first,
//! unless that is waived, and a dry run executes nothing.

use crate::json::{member, written, Doc, Json};
use crate::text::{bytes_text, from_utf8_lossy, join, joined, lower_text, texts, trim, trimmed};
use crate::tools::{ArgTemplate, Call, Exec, Template, Tool, ToolCall, ToolDef};
use vstd::prelude::*;

verus! {

/// How a call ended.
pub enum Outcome {
    Executed { argv: Vec<String>, stdout: String, status: i32 },
    DryRun { argv: Vec<String> },
    Declined,
    NoExec,
}

/// Why a command could not be made.
#[derive(Debug)]
pub enum DispatchError {
    /// An argument that the tool's command needs was not supplied.
    MissingArgument { tool: String, argument: String },
}

/// What is to be done about a call.
pub enum Step {
    /// Nothing more.
    Done(Outcome),
    /// Ask whether to run the command.
    Ask { argv: Vec<String> },
    /// Run the command.
    Run { argv: Vec<String> },
}

/// The text that a value becomes on the command line: a string as it is, other
/// values as JSON.
pub open spec fn arg_text(value: Doc) -> Seq<char> {
    match value {
        Doc::Null => "null"@,
        Doc::Bool(true) => "true"@,
        Doc::Bool(false) => "false"@,
        Doc::Number(t) => t,
        Doc::Str(s) => s,
        _ => written(value),
    }
}

/// The text that a value becomes on the command line.
pub fn value_to_arg(v: &Json) -> (r: String)
    ensures
        r@ == arg_text(v@),
{
    match v {
        Json::Str(s) => s.clone(),
        _ => v.to_string(),
    }
}

/// The tokens that a template becomes, or nothing where it needs an argument
/// that was not supplied.
pub open spec fn tokens_in(t: Template, supplied: Seq<(Seq<char>, Doc)>) -> Option<Seq<Seq<char>>> {
    match t {
        Template::Lit(lit) => Some(seq![lit]),
        Template::Arg { arg, flag, default, optional } => {
            let value = match member(supplied, arg) {
                Some(v) => Some(arg_text(v)),
                None => default,
            };
            match (value, flag) {
                (Some(v), Some(f)) => Some(seq![f, v]),
                (Some(v), None) => Some(seq![v]),
                (None, Some(_)) => Some(Seq::empty()),
                (None, None) => if optional {
                    Some(Seq::empty())
                } else {
                    None
                },
            }
        },
    }
}

/// The index of the first template, from `i` on, that needs an argument that
/// was not supplied.
pub open spec fn first_missing(
    args: Seq<Template>,
    supplied: Seq<(Seq<char>, Doc)>,
    i: int,
) -> Option<int>
    decreases args.len() - i,
{
    if i < 0 || i >= args.len() {
        None
    } else if tokens_in(args[i], supplied) is None {
        Some(i)
    } else {
        first_missing(args, supplied, i + 1)
    }
}

/// The tokens of a sequence of templates.
pub open spec fn all_tokens(args: Seq<Template>, supplied: Seq<(Seq<char>, Doc)>) -> Seq<Seq<char>>
    decreases args.len(),
{
    if args.len() == 0 {
        Seq::empty()
    } else {
        all_tokens(args.drop_last(), supplied) + tokens_in(args.last(), supplied)->0
    }
}

/// The command line: the program, and the tokens of its templates.
pub open spec fn command_line(e: Exec, supplied: Seq<(Seq<char>, Doc)>) -> Seq<Seq<char>> {
    seq![e.cmd] + all_tokens(e.args, supplied)
}

/// The name of the argument that a template is for.
pub open spec fn argument_name(t: Template) -> Seq<char> {
    match t {
        Template::Arg { arg, .. } => arg,
        Template::Lit(_) => Seq::empty(),
    }
}

/// Appends the tokens of a template; where it needs an argument that was not
/// supplied, that is the result.
fn push_tokens(t: &ArgTemplate, call: &ToolCall, argv: &mut Vec<String>) -> (missing: Option<
    String,
>)
    ensures
        match tokens_in(t@, call@.arguments) {
            Some(tokens) => missing is None && texts(final(argv)@) == texts(old(argv)@) + tokens,
            None => missing matches Some(arg) && arg@ == argument_name(t@),
        },
{
    let ghost before = texts(argv@);
    match t {
        ArgTemplate::Lit { lit } => {
            argv.push(lit.clone());
            assert(texts(argv@) =~= before + seq![lit@]);
            None
        },
        ArgTemplate::Arg { arg, flag, default, optional } => {
            let value = match call.arguments.get(arg.as_str()) {
                Some(v) => Some(value_to_arg(v)),
                None => match default {
                    Some(d) => Some(d.clone()),
                    None => None,
                },
            };
            match value {
                Some(v) => {
                    let ghost text = v@;
                    match flag {
                        Some(f) => {
                            argv.push(f.clone());
                            argv.push(v);
                            assert(texts(argv@) =~= before + seq![f@, text]);
                        },
                        None => {
                            argv.push(v);
                            assert(texts(argv@) =~= before + seq![text]);
                        },
                    }
                    None
                },
                None => {
                    assert(texts(argv@) =~= before + Seq::empty());
                    match flag {
                        Some(_) => None,
                        None => {
                            if *optional {
                                None
                            } else {
                                Some(arg.clone())
                            }
                        },
                    }
                },
            }
        },
    }
}

/// Builds the command line of a call; nothing for a tool without a command.
pub fn build_argv(tool: &Tool, call: &ToolCall) -> (r: Result<Option<Vec<String>>, DispatchError>)
    ensures
        match tool@.exec_spec {
            None => r matches Ok(None),
            Some(e) => match first_missing(e.args, call@.arguments, 0) {
                None => r matches Ok(Some(argv)) && texts(argv@) == command_line(
                    e,
                    call@.arguments,
                ),
                Some(i) => r matches Err(DispatchError::MissingArgument { tool: t, argument: a })
                    && t@ == tool@.name && a@ == argument_name(e.args[i]),
            },
        },
{
    let command = match &tool.exec_spec {
        Some(e) => e,
        None => {
            return Ok(None);
        },
    };
    let ghost e = command@;
    let ghost supplied = call@.arguments;
    let mut argv: Vec<String> = Vec::new();
    argv.push(command.cmd.clone());
    assert(texts(argv@) =~= seq![e.cmd] + all_tokens(e.args.take(0), supplied));
    for i in 0..command.args.len()
        invariant
            tool@.exec_spec == Some(e),
            e == command@,
            supplied == call@.arguments,
            first_missing(e.args, supplied, 0) == first_missing(e.args, supplied, i as int),
            texts(argv@) == seq![e.cmd] + all_tokens(e.args.take(i as int), supplied),
    {
        let ghost before = texts(argv@);
        assert(e.args[i as int] == command.args@[i as int]@);
        assert(e.args.take(i + 1).drop_last() =~= e.args.take(i as int));
        if let Some(argument) = push_tokens(&command.args[i], call, &mut argv) {
            return Err(DispatchError::MissingArgument { tool: tool.name.clone(), argument });
        }
        assert(texts(argv@) =~= seq![e.cmd] + all_tokens(e.args.take(i + 1), supplied));
    }
    assert(e.args.take(e.args.len() as int) =~= e.args);
    Ok(Some(argv))
}

impl DispatchError {
    /// The message of the error.
    pub open spec fn message(self) -> Seq<char> {
        match self {
            DispatchError::MissingArgument { tool, argument } => "tool '"@ + tool@
                + "' missing required argument '"@ + argument@ + "'"@,
        }
    }

    /// Writes the message of the error.
    pub fn to_string(&self) -> (r: String)
        ensures
            r@ == self.message(),
    {
        match self {
            DispatchError::MissingArgument { tool, argument } => {
                let mut out = "tool '".to_owned();
                out.append(tool.as_str());
                out.append("' missing required argument '");
                out.append(argument.as_str());
                out.append("'");
                out
            },
        }
    }
}

/// What is decided about a call, as a mathematical value.
pub enum Decision {
    /// The template at this index needs an argument that was not supplied.
    Missing(int),
    NoExec,
    DryRun(Seq<Seq<char>>),
    Ask(Seq<Seq<char>>),
    Run(Seq<Seq<char>>),
}

/// What is decided about a call.
pub open spec fn decided(tool: ToolDef, call: Call, dry_run: bool, assume_yes: bool) -> Decision {
    match tool.exec_spec {
        None => Decision::NoExec,
        Some(e) => match first_missing(e.args, call.arguments, 0) {
            Some(i) => Decision::Missing(i),
            None => {
                let argv = command_line(e, call.arguments);
                if dry_run {
                    Decision::DryRun(argv)
                } else if assume_yes {
                    Decision::Run(argv)
                } else {
                    Decision::Ask(argv)
                }
            },
        },
    }
}

/// Decides what to do about a call.
pub fn dispatch(tool: &Tool, call: &ToolCall, dry_run: bool, assume_yes: bool) -> (r: Result<
    Step,
    DispatchError,
>)
    ensures
        match decided(tool@, call@, dry_run, assume_yes) {
            Decision::Missing(i) => r matches Err(
                DispatchError::MissingArgument { tool: t, argument: a },
            ) && t@ == tool@.name && a@ == argument_name(tool@.exec_spec->0.args[i]),
            Decision::NoExec => r matches Ok(Step::Done(Outcome::NoExec)),
            Decision::DryRun(argv) => r matches Ok(Step::Done(Outcome::DryRun { argv: v })) && texts(
                v@,
            ) == argv,
            Decision::Ask(argv) => r matches Ok(Step::Ask { argv: v }) && texts(v@) == argv,
            Decision::Run(argv) => r matches Ok(Step::Run { argv: v }) && texts(v@) == argv,
        },
{
    match build_argv(tool, call) {
        Err(e) => Err(e),
        Ok(None) => Ok(Step::Done(Outcome::NoExec)),
        Ok(Some(argv)) => {
            if dry_run {
                Ok(Step::Done(Outcome::DryRun { argv }))
            } else if assume_yes {
                Ok(Step::Run { argv })
            } else {
                Ok(Step::Ask { argv })
            }
        },
    }
}

/// Is the answer, white space and case aside, empty, `y` or `yes`?
pub open spec fn is_yes(line: Seq<char>) -> bool {
    let answer = lower_text(trimmed(line));
    answer.len() == 0 || answer == "y"@ || answer == "yes"@
}

/// Does the answer agree?
pub fn confirms(line: &str) -> (r: bool)
    ensures
        r == is_yes(line@),
{
    let answer = trim(line).as_str().to_lowercase();
    answer.as_str().is_empty() || answer == "y".to_owned() || answer == "yes".to_owned()
}

/// The command line that is run once the question is answered, if it is.
pub open spec fn run_after(argv: Seq<Seq<char>>, line: Seq<char>) -> Option<Seq<Seq<char>>> {
    if is_yes(line) {
        Some(argv)
    } else {
        None
    }
}

/// What is to be done once the question whether to run the command is
/// answered: run it, or leave it.
pub fn answered(argv: Vec<String>, line: &str) -> (r: Step)
    ensures
        if is_yes(line@) {
            r == (Step::Run { argv })
        } else {
            r matches Step::Done(Outcome::Declined)
        },
        match run_after(texts(argv@), line@) {
            Some(v) => r matches Step::Run { argv: w } && texts(w@) == v,
            None => r matches Step::Done(Outcome::Declined),
        },
{
    if confirms(line) {
        Step::Run { argv }
    } else {
        Step::Done(Outcome::Declined)
    }
}

/// What is kept of what a command printed.
pub open spec fn kept_output(bytes: Seq<u8>) -> Seq<char> {
    trimmed(bytes_text(bytes))
}

/// The exit status of a command, or -1 where it has none.
pub open spec fn status_of(code: Option<i32>) -> i32 {
    match code {
        Some(c) => c,
        None => -1i32,
    }
}

/// The outcome of a command that was run: what it printed, white space around
/// it removed, and its exit code, or -1 where it has none.
pub fn executed(argv: Vec<String>, stdout: &Vec<u8>, code: Option<i32>) -> (r: Outcome)
    ensures
        r matches Outcome::Executed { argv: v, stdout: s, status } && v == argv && s@ == trimmed(
            bytes_text(stdout@),
        ) && status == (match code {
            Some(c) => c,
            None => -1i32,
        }),
        r matches Outcome::Executed { argv: v, stdout: s, status } && s@ == kept_output(stdout@)
            && status == status_of(code),
{
    let status = match code {
        Some(c) => c,
        None => -1,
    };
    Outcome::Executed { argv, stdout: trim(from_utf8_lossy(stdout).as_str()), status }
}

/// The command line as one line of text, for showing.
pub fn shown_command(argv: &Vec<String>) -> (r: String)
    ensures
        r@ == joined(texts(argv@), ' '),
{
    join(argv, ' ')
}

/// A dry run never runs a command, nor asks whether to.
pub proof fn dry_run_never_executes(tool: ToolDef, call: Call, assume_yes: bool)
    ensures
        !(decided(tool, call, true, assume_yes) is Run),
        !(decided(tool, call, true, assume_yes) is Ask),
{
}

/// Nothing is run without being asked about first, unless that is waived.
pub proof fn nothing_runs_unasked(tool: ToolDef, call: Call, dry_run: bool)
    ensures
        !(decided(tool, call, dry_run, false) is Run),
{
}

/// Only a tool with a command runs, and what runs is that command.
pub proof fn only_configured_commands_run(
    tool: ToolDef,
    call: Call,
    dry_run: bool,
    assume_yes: bool,
    argv: Seq<Seq<char>>,
)
    requires
        decided(tool, call, dry_run, assume_yes) == Decision::Run(argv) || decided(
            tool,
            call,
            dry_run,
            assume_yes,
        ) == Decision::Ask(argv),
    ensures
        tool.exec_spec is Some,
        argv.len() > 0,
        argv[0] == tool.exec_spec->0.cmd,
{
}

/// The tokens of the template at `i` stand together in the tokens of all.
proof fn lemma_tokens_of_template(
    args: Seq<Template>,
    supplied: Seq<(Seq<char>, Doc)>,
    i: int,
) -> (at: int)
    requires
        0 <= i < args.len(),
    ensures
        0 <= at <= at + tokens_in(args[i], supplied)->0.len() <= all_tokens(args, supplied).len(),
        all_tokens(args, supplied).subrange(at, at + tokens_in(args[i], supplied)->0.len())
            == tokens_in(args[i], supplied)->0,
    decreases args.len(),
{
    let head = all_tokens(args.drop_last(), supplied);
    let tokens = tokens_in(args[i], supplied)->0;
    let all = all_tokens(args, supplied);
    if i == args.len() - 1 {
        assert(all.subrange(head.len() as int, (head.len() + tokens.len()) as int) =~= tokens);
        head.len() as int
    } else {
        let at = lemma_tokens_of_template(args.drop_last(), supplied, i);
        assert(args.drop_last()[i] == args[i]);
        assert(all.subrange(at, at + tokens.len()) =~= head.subrange(at, at + tokens.len()));
        at
    }
}

/// A supplied value becomes one token of the command line, whatever it holds;
/// it is never taken apart or interpreted.
pub proof fn supplied_value_is_one_token(
    e: Exec,
    supplied: Seq<(Seq<char>, Doc)>,
    i: int,
    value: Doc,
)
    requires
        0 <= i < e.args.len(),
        e.args[i] is Arg,
        member(supplied, argument_name(e.args[i])) == Some(value),
    ensures
        command_line(e, supplied).contains(arg_text(value)),
{
    let at = lemma_tokens_of_template(e.args, supplied, i);
    let tokens = tokens_in(e.args[i], supplied)->0;
    let all = all_tokens(e.args, supplied);
    assert(tokens.last() == arg_text(value));
    assert(all.subrange(at, at + tokens.len())[tokens.len() - 1] == all[at + tokens.len() - 1]);
    assert(command_line(e, supplied)[at + tokens.len()] == arg_text(value));
}

} // verus!
