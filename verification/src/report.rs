//! What is shown to the user about a call and its outcome.

use crate::dispatch::Outcome;
use crate::json::{written, Doc, Json};
use crate::text::{decimal, decimal_text, join, joined, signed_decimal, texts, trim, trimmed};
use crate::tools::ToolCall;
use vstd::prelude::*;

verus! {

/// A line for one of the two output streams.
pub enum Line {
    ToStdout(String),
    ToStderr(String),
}

/// A `Line`, as a mathematical value.
pub enum Shown {
    Stdout(Seq<char>),
    Stderr(Seq<char>),
}

impl View for Line {
    type V = Shown;

    open spec fn view(&self) -> Shown {
        match self {
            Line::ToStdout(s) => Shown::Stdout(s@),
            Line::ToStderr(s) => Shown::Stderr(s@),
        }
    }
}

/// The lines, as mathematical values.
pub open spec fn shown(v: Seq<Line>) -> Seq<Shown> {
    v.map_values(|l: Line| l@)
}

/// Writes an exit status in decimal.
pub fn status_text(status: i32) -> (r: String)
    ensures
        r@ == signed_decimal(status as int),
{
    if status < 0 {
        let mut out = String::new();
        out.push('-');
        out.append(decimal_text((-(status as i64)) as u64).as_str());
        assert(out@ =~= seq!['-'] + decimal((-status) as nat));
        out
    } else {
        decimal_text(status as u64)
    }
}

/// The text of the line that announces a call.
pub open spec fn call_text(name: Seq<char>, arguments: Seq<(Seq<char>, Doc)>) -> Seq<char> {
    "→ "@ + name + "("@ + written(Doc::Object(arguments)) + ")"@
}

/// The line that announces a call: its name and, in parentheses, its arguments
/// as JSON.
pub fn call_line(call: &ToolCall) -> (r: String)
    ensures
        r@ == call_text(call@.name, call@.arguments),
        r@ == "→ "@ + call@.name + "("@ + written(Doc::Object(call@.arguments)) + ")"@,
{
    let mut out = "→ ".to_owned();
    out.append(call.name.as_str());
    out.append("(");
    out.append(Json::Object(call.arguments.copy()).to_string().as_str());
    out.append(")");
    out
}

/// The line for output that holds no call: the output, white space around it
/// removed, or a remark that it is empty.
pub open spec fn no_call_text(output: Seq<char>) -> Seq<char> {
    let shown = if trimmed(output).len() == 0 {
        "<empty>"@
    } else {
        trimmed(output)
    };
    "(no tool call — model output: "@ + shown + ")"@
}

/// Writes the line for output that holds no call.
pub fn no_call_line(output: &str) -> (r: String)
    ensures
        r@ == no_call_text(output@),
{
    let trimmed = trim(output);
    let mut out = "(no tool call — model output: ".to_owned();
    if trimmed.as_str().is_empty() {
        out.append("<empty>");
    } else {
        out.append(trimmed.as_str());
    }
    out.append(")");
    out
}

/// What is shown about an outcome. Of a command that ran: its exit status and
/// command line, where it failed, and what it printed, where it printed
/// anything.
pub open spec fn outcome_shown(outcome: Outcome) -> Seq<Shown> {
    match outcome {
        Outcome::Executed { argv, stdout, status } => {
            let failure = if status != 0 {
                seq![
                    Shown::Stderr(
                        "  exit "@ + signed_decimal(status as int) + ": "@ + joined(
                            texts(argv@),
                            ' ',
                        ),
                    ),
                ]
            } else {
                Seq::empty()
            };
            let output = if stdout@.len() > 0 {
                seq![Shown::Stdout(stdout@)]
            } else {
                Seq::empty()
            };
            failure + output
        },
        Outcome::DryRun { argv } => seq![
            Shown::Stdout("  would run: "@ + joined(texts(argv@), ' ')),
        ],
        Outcome::Declined => seq![Shown::Stdout("  skipped."@)],
        Outcome::NoExec => seq![
            Shown::Stdout("  (no exec mapping for this tool — call printed only)"@),
        ],
    }
}

/// The lines about an outcome.
pub fn outcome_lines(outcome: Outcome) -> (r: Vec<Line>)
    ensures
        shown(r@) == outcome_shown(outcome),
{
    let mut lines: Vec<Line> = Vec::new();
    match outcome {
        Outcome::Executed { argv, stdout, status } => {
            if status != 0 {
                let mut text = "  exit ".to_owned();
                text.append(status_text(status).as_str());
                text.append(": ");
                text.append(join(&argv, ' ').as_str());
                lines.push(Line::ToStderr(text));
            }
            if !stdout.as_str().is_empty() {
                lines.push(Line::ToStdout(stdout));
            }
        },
        Outcome::DryRun { argv } => {
            let mut text = "  would run: ".to_owned();
            text.append(join(&argv, ' ').as_str());
            lines.push(Line::ToStdout(text));
        },
        Outcome::Declined => {
            lines.push(Line::ToStdout("  skipped.".to_owned()));
        },
        Outcome::NoExec => {
            lines.push(
                Line::ToStdout("  (no exec mapping for this tool — call printed only)".to_owned()),
            );
        },
    }
    assert(shown(lines@) =~= outcome_shown(outcome));
    lines
}

} // verus!
