//! What is shown about an outcome.

use crate::dispatch::Outcome;
use crate::error::StingError;
use crate::json::{written, Doc};
use crate::laws::texts::{all_white, is_bare, trimming_takes_the_white_space_around};
use crate::parity::{summary_text, Parity};
use crate::report::{call_text, no_call_text, outcome_shown, Shown};
use crate::text::{decimal, joined, signed_decimal, texts};
use vstd::prelude::*;

verus! {

/// Of a command that ran, a failure is told on the error stream, with its
/// status and the command line, and a success is not; what it printed is shown
/// last, where it printed anything.
pub proof fn failures_and_outputs_are_shown(argv: Vec<String>, stdout: String, status: i32)
    ensures
        ({
            let lines = outcome_shown(Outcome::Executed { argv, stdout, status });
            let told: int = if status == 0 {
                0
            } else {
                1
            };
            let printed: int = if stdout@.len() == 0 {
                0
            } else {
                1
            };
            &&& lines.len() == told + printed
            &&& told == 1 ==> lines[0] == Shown::Stderr(
                "  exit "@ + signed_decimal(status as int) + ": "@ + joined(texts(argv@), ' '),
            )
            &&& printed == 1 ==> lines[told] == Shown::Stdout(stdout@)
        }),
{
}

/// A dry run shows the whole command line, and a call that was declined or has
/// no command shows that it did nothing; each is one line of output.
pub proof fn what_was_not_run_is_shown(argv: Vec<String>)
    ensures
        outcome_shown(Outcome::DryRun { argv }) == seq![
            Shown::Stdout("  would run: "@ + joined(texts(argv@), ' ')),
        ],
        outcome_shown(Outcome::Declined) == seq![Shown::Stdout("  skipped."@)],
        outcome_shown(Outcome::NoExec).len() == 1,
        outcome_shown(Outcome::NoExec)[0] is Stdout,
        outcome_shown(Outcome::NoExec) != outcome_shown(Outcome::Declined),
{
    reveal_strlit("  skipped.");
    reveal_strlit("  (no exec mapping for this tool — call printed only)");
    assert("  skipped."@.len() == 10);
    assert("  (no exec mapping for this tool — call printed only)"@.len() > 10);
    assert(outcome_shown(Outcome::NoExec)[0] != outcome_shown(Outcome::Declined)[0]);
}

/// Output that holds no call is shown without the white space around it, and
/// output without anything else is called empty.
pub proof fn output_without_a_call_is_shown(a: Seq<char>, s: Seq<char>, b: Seq<char>)
    requires
        all_white(a),
        is_bare(s),
        all_white(b),
    ensures
        s.len() > 0 ==> no_call_text(a + s + b) == "(no tool call — model output: "@ + s + ")"@,
        s.len() == 0 ==> no_call_text(a + s + b) == "(no tool call — model output: "@ + "<empty>"@
            + ")"@,
{
    trimming_takes_the_white_space_around(a, s, b);
}

/// A call is announced by its name, with the JSON of all its arguments in
/// parentheses behind it.
pub proof fn calls_are_announced(name: Seq<char>, arguments: Seq<(Seq<char>, Doc)>)
    ensures
        call_text(name, arguments) == seq!['→', ' '] + name + seq!['('] + written(
            Doc::Object(arguments),
        ) + seq![')'],
{
    reveal_strlit("→ ");
    reveal_strlit("(");
    reveal_strlit(")");
    assert("→ "@ =~= seq!['→', ' ']);
    assert("("@ =~= seq!['(']);
    assert(")"@ =~= seq![')']);
}

/// The message of an error ends with what was wrong, and its start tells what
/// kind it is.
pub proof fn messages_tell_what_was_wrong(e: StingError, text: String, raw: String)
    ensures
        e == (StingError::ParseFailed { message: text, raw }) ==> e.message() == "parse failed: "@
            + text@,
        e == StingError::MissingModel(text) ==> e.message() == "missing model: "@ + text@,
        e == StingError::ConfigMismatch(text) ==> e.message() == "config mismatch: "@ + text@,
{
}

/// What a check of the tokenizer comes to is told by its three counts, in
/// decimal.
pub proof fn checks_are_summed_up(p: Parity)
    ensures
        summary_text(p) == "tokenizer parity: "@ + decimal(p.total as nat) + " rows, "@ + decimal(
            p.enc_fail as nat,
        ) + " encode mismatches, "@ + decimal(p.dec_fail as nat) + " decode mismatches"@,
{
}

} // verus!
