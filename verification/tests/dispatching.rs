use sting::dispatch::{
    answered, build_argv, confirms, dispatch, executed, shown_command, value_to_arg, Outcome, Step,
};
use sting::error::StingError;
use sting::json::{parse, Json, JsonMap};
use sting::report::{call_line, no_call_line, outcome_lines, status_text, Line};
use sting::tools::{Tool, ToolCall, ToolSet};

fn tool(exec: &str) -> Tool {
    let config = format!("[{{\"name\":\"t\"{exec}}}]");
    ToolSet::from_config(&config).unwrap().tools.remove(0)
}

fn call(arguments: &str) -> ToolCall {
    match parse(arguments).unwrap() {
        Json::Object(arguments) => ToolCall { name: "t".into(), arguments },
        _ => ToolCall { name: "t".into(), arguments: JsonMap::new() },
    }
}

const VIBRATE: &str =
    ",\"exec\":{\"cmd\":\"termux-vibrate\",\"args\":[{\"arg\":\"ms\",\"flag\":\"-d\"},{\"arg\":\"f\",\"optional\":true}]}";

#[test]
fn values_on_the_command_line() {
    for (json, text) in [
        ("\"a b; rm -rf\"", "a b; rm -rf"),
        ("2000", "2000"),
        ("1.5", "1.5"),
        ("true", "true"),
        ("false", "false"),
        ("null", "null"),
        ("[1, \"x\"]", "[1,\"x\"]"),
        ("{\"a\": 1}", "{\"a\":1}"),
    ] {
        assert_eq!(value_to_arg(&parse(json).unwrap()), text);
    }
}

#[test]
fn supplied_values_stay_whole() {
    let argv = build_argv(&tool(VIBRATE), &call("{\"ms\":2000,\"f\":\"a b'\"}")).unwrap().unwrap();
    assert_eq!(argv, vec!["termux-vibrate", "-d", "2000", "a b'"]);
    assert_eq!(shown_command(&argv), "termux-vibrate -d 2000 a b'");
}

#[test]
fn tools_without_a_command_never_run() {
    for (dry, yes) in [(false, false), (false, true), (true, false), (true, true)] {
        let step = dispatch(&tool(""), &call("{}"), dry, yes).unwrap();
        assert!(matches!(step, Step::Done(Outcome::NoExec)));
    }
}

#[test]
fn dry_runs_execute_nothing() {
    for yes in [false, true] {
        match dispatch(&tool(VIBRATE), &call("{\"ms\":1}"), true, yes).unwrap() {
            Step::Done(Outcome::DryRun { argv }) => {
                assert_eq!(argv, vec!["termux-vibrate", "-d", "1"])
            }
            _ => panic!("a dry run went on"),
        }
    }
}

#[test]
fn commands_are_asked_about_unless_waived() {
    assert!(matches!(
        dispatch(&tool(VIBRATE), &call("{}"), false, false).unwrap(),
        Step::Ask { argv } if argv == vec!["termux-vibrate"]
    ));
    assert!(matches!(
        dispatch(&tool(VIBRATE), &call("{}"), false, true).unwrap(),
        Step::Run { argv } if argv == vec!["termux-vibrate"]
    ));
}

#[test]
fn missing_arguments_are_told() {
    let t = tool(",\"exec\":{\"cmd\":\"c\",\"args\":[{\"lit\":\"x\"},{\"arg\":\"a\"},{\"arg\":\"b\"}]}");
    let err = dispatch(&t, &call("{\"b\":1}"), true, true).err().unwrap();
    assert_eq!(err.to_string(), "tool 't' missing required argument 'a'");
}

#[test]
fn answers_to_the_question() {
    for line in ["", "\n", " y \n", "Y", "yes", "YES\n", "\tYes"] {
        assert!(confirms(line), "{line:?}");
    }
    for line in ["n", "no", "yep", "y e s", "ja", "ŷ"] {
        assert!(!confirms(line), "{line:?}");
    }
    let argv = vec!["c".to_string()];
    assert!(matches!(answered(argv.clone(), "y\n"), Step::Run { argv } if argv == vec!["c"]));
    assert!(matches!(answered(argv, "n\n"), Step::Done(Outcome::Declined)));
}

#[test]
fn outcomes_of_commands() {
    let argv = vec!["c".to_string()];
    match executed(argv.clone(), &b" out\xc3\xa9 \n".to_vec(), Some(3)) {
        Outcome::Executed { argv, stdout, status } => {
            assert_eq!((argv, stdout.as_str(), status), (vec!["c".to_string()], "outé", 3));
        }
        _ => panic!("not executed"),
    }
    match executed(argv, &vec![0xff], None) {
        Outcome::Executed { stdout, status, .. } => {
            assert_eq!((stdout.as_str(), status), ("\u{fffd}", -1));
        }
        _ => panic!("not executed"),
    }
}

fn lines(outcome: Outcome) -> Vec<(bool, String)> {
    outcome_lines(outcome)
        .into_iter()
        .map(|l| match l {
            Line::ToStdout(s) => (true, s),
            Line::ToStderr(s) => (false, s),
        })
        .collect()
}

#[test]
fn outcomes_are_shown() {
    let argv = vec!["a".to_string(), "b".to_string()];
    let ran = |stdout: &str, status: i32| Outcome::Executed {
        argv: argv.clone(),
        stdout: stdout.into(),
        status,
    };
    assert_eq!(lines(ran("", 0)), vec![]);
    assert_eq!(lines(ran("hi", 0)), vec![(true, "hi".to_string())]);
    assert_eq!(
        lines(ran("hi", -1)),
        vec![(false, "  exit -1: a b".to_string()), (true, "hi".to_string())]
    );
    assert_eq!(
        lines(Outcome::DryRun { argv: argv.clone() }),
        vec![(true, "  would run: a b".to_string())]
    );
    assert_eq!(lines(Outcome::Declined), vec![(true, "  skipped.".to_string())]);
    assert_eq!(
        lines(Outcome::NoExec),
        vec![(true, "  (no exec mapping for this tool — call printed only)".to_string())]
    );
}

#[test]
fn calls_are_shown() {
    assert_eq!(call_line(&call("{\"state\": \"on\", \"n\": 1}")), "→ t({\"state\":\"on\",\"n\":1})");
    assert_eq!(no_call_line(" []\n"), "(no tool call — model output: [])");
    assert_eq!(no_call_line(" \n"), "(no tool call — model output: <empty>)");
}

#[test]
fn statuses_are_written_in_decimal() {
    assert_eq!(status_text(0), "0");
    assert_eq!(status_text(127), "127");
    assert_eq!(status_text(i32::MIN), "-2147483648");
    assert_eq!(status_text(i32::MAX), "2147483647");
}

#[test]
fn error_messages() {
    let e = StingError::ParseFailed { message: "bad".into(), raw: "{".into() };
    assert_eq!(e.to_string(), "parse failed: bad");
    assert_eq!(StingError::MissingModel("m".into()).to_string(), "missing model: m");
    assert_eq!(StingError::ConfigMismatch("c".into()).to_string(), "config mismatch: c");
}
