//! What a call becomes on the command line, template by template, and what is
//! decided about it.

use crate::dispatch::{
    all_tokens, command_line, decided, first_missing, is_yes, kept_output, run_after, status_of,
    tokens_in, Decision, DispatchError,
};
use crate::json::{written, Doc};
use crate::laws::documents::{has, members_are_found, misses};
use crate::laws::texts::{all_white, is_bare, trimming_takes_the_white_space_around};
use crate::text::{all_ascii, ascii_lower, lower_text, lowercase_text, trimmed};
use crate::tools::{Call, Exec, Template, ToolDef};
use vstd::prelude::*;
use vstd::utf8::*;

verus! {

/// Is this the token for the value: a string as it is, a number as it is
/// written, the words for null and the truth values, and the JSON text of a
/// list or an object?
pub open spec fn is_token_for(token: Seq<char>, value: Doc) -> bool {
    match value {
        Doc::Str(s) => token == s,
        Doc::Number(t) => token == t,
        Doc::Bool(true) => token == "true"@,
        Doc::Bool(false) => token == "false"@,
        Doc::Null => token == "null"@,
        _ => token == written(value),
    }
}

/// The tokens of one template stand between those of the templates before it
/// and those of the templates after it.
proof fn lemma_between(
    a: Seq<Template>,
    t: Template,
    b: Seq<Template>,
    supplied: Seq<(Seq<char>, Doc)>,
)
    ensures
        all_tokens(a + seq![t] + b, supplied) == all_tokens(a, supplied) + tokens_in(
            t,
            supplied,
        )->0 + all_tokens(b, supplied),
    decreases b.len(),
{
    let all = a + seq![t] + b;
    if b.len() == 0 {
        assert(all =~= a.push(t));
        assert(all.drop_last() =~= a);
        assert(all.last() == t);
        assert(all_tokens(all, supplied) =~= all_tokens(a, supplied) + tokens_in(t, supplied)->0
            + all_tokens(b, supplied));
    } else {
        assert(all.drop_last() =~= a + seq![t] + b.drop_last());
        assert(all.last() == b.last());
        lemma_between(a, t, b.drop_last(), supplied);
        assert(all_tokens(all, supplied) =~= all_tokens(a, supplied) + tokens_in(t, supplied)->0
            + all_tokens(b, supplied));
    }
}

/// Does the command line hold these tokens for the template, between what the
/// templates before it and those after it become?
pub open spec fn becomes(
    cmd: Seq<char>,
    a: Seq<Template>,
    t: Template,
    b: Seq<Template>,
    supplied: Seq<(Seq<char>, Doc)>,
    tokens: Seq<Seq<char>>,
) -> bool {
    command_line(Exec { cmd, args: a + seq![t] + b }, supplied) == command_line(
        Exec { cmd, args: a },
        supplied,
    ) + tokens + command_line(Exec { cmd, args: b }, supplied).skip(1)
}

proof fn lemma_becomes(
    cmd: Seq<char>,
    a: Seq<Template>,
    t: Template,
    b: Seq<Template>,
    supplied: Seq<(Seq<char>, Doc)>,
)
    ensures
        becomes(cmd, a, t, b, supplied, tokens_in(t, supplied)->0),
{
    lemma_between(a, t, b, supplied);
    let after = command_line(Exec { cmd, args: b }, supplied);
    assert(after.skip(1) =~= all_tokens(b, supplied));
    assert(command_line(Exec { cmd, args: a + seq![t] + b }, supplied) =~= command_line(
        Exec { cmd, args: a },
        supplied,
    ) + tokens_in(t, supplied)->0 + after.skip(1));
}

/// A command line starts with the program.
pub proof fn the_program_comes_first(cmd: Seq<char>, supplied: Seq<(Seq<char>, Doc)>)
    ensures
        command_line(Exec { cmd, args: Seq::empty() }, supplied) == seq![cmd],
{
    assert(command_line(Exec { cmd, args: Seq::empty() }, supplied) =~= seq![cmd]);
}

/// A literal stands on the command line as it is.
pub proof fn literals_stand_as_they_are(
    cmd: Seq<char>,
    a: Seq<Template>,
    lit: Seq<char>,
    b: Seq<Template>,
    supplied: Seq<(Seq<char>, Doc)>,
)
    ensures
        becomes(cmd, a, Template::Lit(lit), b, supplied, seq![lit]),
{
    lemma_becomes(cmd, a, Template::Lit(lit), b, supplied);
}

/// A supplied value becomes one token, with the flag of its template directly
/// before it, where that has one, whatever its default is and whether it is
/// optional.
pub proof fn supplied_values_follow_their_flags(
    cmd: Seq<char>,
    a: Seq<Template>,
    arg: Seq<char>,
    flag: Option<Seq<char>>,
    default: Option<Seq<char>>,
    optional: bool,
    b: Seq<Template>,
    supplied: Seq<(Seq<char>, Doc)>,
    value: Doc,
    token: Seq<char>,
)
    requires
        has(supplied, arg, value),
        is_token_for(token, value),
    ensures
        becomes(
            cmd,
            a,
            Template::Arg { arg, flag, default, optional },
            b,
            supplied,
            match flag {
                Some(f) => seq![f, token],
                None => seq![token],
            },
        ),
{
    let t = Template::Arg { arg, flag, default, optional };
    members_are_found(supplied, arg);
    lemma_becomes(cmd, a, t, b, supplied);
}

/// Where a value is not supplied the default takes its place, with the flag
/// directly before it, where there is one.
pub proof fn defaults_follow_their_flags(
    cmd: Seq<char>,
    a: Seq<Template>,
    arg: Seq<char>,
    flag: Option<Seq<char>>,
    default: Seq<char>,
    optional: bool,
    b: Seq<Template>,
    supplied: Seq<(Seq<char>, Doc)>,
)
    requires
        misses(supplied, arg),
    ensures
        becomes(
            cmd,
            a,
            Template::Arg { arg, flag, default: Some(default), optional },
            b,
            supplied,
            match flag {
                Some(f) => seq![f, default],
                None => seq![default],
            },
        ),
{
    let t = Template::Arg { arg, flag, default: Some(default), optional };
    members_are_found(supplied, arg);
    lemma_becomes(cmd, a, t, b, supplied);
}

/// A template with a flag, and an optional one, leave nothing on the command
/// line where there is neither a value nor a default: no flag without a value.
pub proof fn left_out_arguments_leave_nothing(
    cmd: Seq<char>,
    a: Seq<Template>,
    arg: Seq<char>,
    flag: Option<Seq<char>>,
    optional: bool,
    b: Seq<Template>,
    supplied: Seq<(Seq<char>, Doc)>,
)
    requires
        misses(supplied, arg),
        flag is Some || optional,
    ensures
        becomes(
            cmd,
            a,
            Template::Arg { arg, flag, default: None, optional },
            b,
            supplied,
            Seq::empty(),
        ),
{
    let t = Template::Arg { arg, flag, default: None, optional };
    members_are_found(supplied, arg);
    lemma_becomes(cmd, a, t, b, supplied);
}

/// Does the template need an argument that was not supplied: has it no flag and
/// no default, and is it not optional?
pub open spec fn is_unmet(t: Template, supplied: Seq<(Seq<char>, Doc)>) -> bool {
    t matches Template::Arg { arg, flag, default, optional } && flag is None && default is None
        && !optional && misses(supplied, arg)
}

proof fn lemma_unmet(args: Seq<Template>, supplied: Seq<(Seq<char>, Doc)>, i: int)
    requires
        0 <= i <= args.len(),
    ensures
        match first_missing(args, supplied, i) {
            Some(k) => i <= k < args.len() && is_unmet(args[k], supplied) && forall|j: int|
                i <= j < k ==> !is_unmet(#[trigger] args[j], supplied),
            None => forall|j: int|
                i <= j < args.len() ==> !is_unmet(#[trigger] args[j], supplied),
        },
    decreases args.len() - i,
{
    if i < args.len() {
        if let Template::Arg { arg, flag, default, optional } = args[i] {
            members_are_found(supplied, arg);
        }
        lemma_unmet(args, supplied, i + 1);
    }
}

/// A call is refused for the first argument that its command needs and that was
/// not supplied, and for nothing else.
pub proof fn only_needed_arguments_are_missed(
    tool: ToolDef,
    call: Call,
    dry_run: bool,
    assume_yes: bool,
    e: Exec,
    i: int,
)
    requires
        tool.exec_spec == Some(e),
    ensures
        decided(tool, call, dry_run, assume_yes) == Decision::Missing(i) <==> 0 <= i < e.args.len()
            && is_unmet(e.args[i], call.arguments) && forall|j: int|
            0 <= j < i ==> !is_unmet(#[trigger] e.args[j], call.arguments),
{
    lemma_unmet(e.args, call.arguments, 0);
}

/// Where nothing is missing, a dry run shows the very command that would be run
/// or asked about, which is that of the template and the call.
pub proof fn dry_runs_show_what_would_run(tool: ToolDef, call: Call, e: Exec)
    requires
        tool.exec_spec == Some(e),
        forall|j: int| 0 <= j < e.args.len() ==> !is_unmet(#[trigger] e.args[j], call.arguments),
    ensures
        decided(tool, call, true, false) == Decision::DryRun(command_line(e, call.arguments)),
        decided(tool, call, true, true) == Decision::DryRun(command_line(e, call.arguments)),
        decided(tool, call, false, true) == Decision::Run(command_line(e, call.arguments)),
        decided(tool, call, false, false) == Decision::Ask(command_line(e, call.arguments)),
{
    lemma_unmet(e.args, call.arguments, 0);
}

/// Nothing is done about a call of a tool without a command, whatever the
/// options and the arguments.
pub proof fn tools_without_a_command_do_nothing(
    tool: ToolDef,
    call: Call,
    dry_run: bool,
    assume_yes: bool,
)
    requires
        tool.exec_spec is None,
    ensures
        decided(tool, call, dry_run, assume_yes) == Decision::NoExec,
{
}

/// An answer in ASCII agrees exactly where it is, white space around it and
/// case aside, empty, `y` or `yes`: then the command that was asked about is
/// run, and otherwise nothing is.
pub proof fn only_yes_agrees(
    a: Seq<char>,
    word: Seq<char>,
    b: Seq<char>,
    argv: Seq<Seq<char>>,
)
    requires
        all_white(a),
        is_bare(word),
        all_ascii(word),
        all_white(b),
    ensures
        is_yes(a + word + b) <==> {
            ||| word.len() == 0
            ||| word.len() == 1 && (word[0] == 'y' || word[0] == 'Y')
            ||| word.len() == 3 && (word[0] == 'y' || word[0] == 'Y') && (word[1] == 'e' || word[1]
                == 'E') && (word[2] == 's' || word[2] == 'S')
        },
        is_yes(a + word + b) ==> run_after(argv, a + word + b) == Some(argv),
        !is_yes(a + word + b) ==> run_after(argv, a + word + b) is None,
{
    trimming_takes_the_white_space_around(a, word, b);
    let low = lower_text(trimmed(a + word + b));
    assert(low == word.map_values(|c: char| ascii_lower(c)));
    assert forall|k: int| 0 <= k < word.len() implies #[trigger] low[k] == ascii_lower(word[k]) by {}
    assert("y"@ =~= seq!['y']) by {
        reveal_strlit("y");
    }
    assert("yes"@ =~= seq!['y', 'e', 's']) by {
        reveal_strlit("yes");
    }
    assert(low == "y"@ <==> word.len() == 1 && (word[0] == 'y' || word[0] == 'Y')) by {
        if word.len() == 1 {
            lemma_lowered(word[0]);
            assert(low[0] == ascii_lower(word[0]));
            assert(low[0] == 'y' ==> low =~= seq!['y']);
        }
    }
    assert(low == "yes"@ <==> word.len() == 3 && (word[0] == 'y' || word[0] == 'Y') && (word[1] == 'e'
        || word[1] == 'E') && (word[2] == 's' || word[2] == 'S')) by {
        if word.len() == 3 {
            lemma_lowered(word[0]);
            lemma_lowered(word[1]);
            lemma_lowered(word[2]);
            assert(low[0] == ascii_lower(word[0]));
            assert(low[1] == ascii_lower(word[1]));
            assert(low[2] == ascii_lower(word[2]));
            assert(low[0] == 'y' && low[1] == 'e' && low[2] == 's' ==> low =~= seq!['y', 'e', 's']);
        }
    }
}

/// Which characters become the letters of the answers in lower case.
proof fn lemma_lowered(c: char)
    ensures
        ascii_lower(c) == 'y' <==> c == 'y' || c == 'Y',
        ascii_lower(c) == 'e' <==> c == 'e' || c == 'E',
        ascii_lower(c) == 's' <==> c == 's' || c == 'S',
{
}

/// What a command printed is kept without the white space around it, and its
/// exit status as it is; one that was ended from outside never counts as zero.
pub proof fn outputs_and_statuses_are_kept(a: Seq<char>, s: Seq<char>, b: Seq<char>, code: i32)
    requires
        all_white(a),
        is_bare(s),
        all_white(b),
    ensures
        kept_output(encode_utf8(a + s + b)) == s,
        status_of(Some(code)) == code,
        status_of(None) == -1,
{
    trimming_takes_the_white_space_around(a, s, b);
    encode_utf8_valid_utf8(a + s + b);
    encode_utf8_decode_utf8(a + s + b);
}

/// The message about a missing argument names the tool and then the argument.
pub proof fn missing_arguments_are_named(e: DispatchError, tool: String, argument: String)
    requires
        e == (DispatchError::MissingArgument { tool, argument }),
    ensures
        e.message() == "tool '"@ + tool@ + "' missing required argument '"@ + argument@ + "'"@,
{
}

/// An answer beyond ASCII agrees exactly where its lower case is one of those
/// answers.
pub proof fn other_answers_go_by_their_lower_case(a: Seq<char>, word: Seq<char>, b: Seq<char>)
    requires
        all_white(a),
        is_bare(word),
        !all_ascii(word),
        all_white(b),
    ensures
        is_yes(a + word + b) <==> lowercase_text(word).len() == 0 || lowercase_text(word) == "y"@
            || lowercase_text(word) == "yes"@,
{
    trimming_takes_the_white_space_around(a, word, b);
}

} // verus!
