use sting::dispatch::{build_argv, value_to_arg};
use sting::json::{parse, Json, JsonMap};
use sting::tools::{ArgTemplate, ExecSpec, Tool, ToolCall};

fn make_exec(args: Vec<ArgTemplate>) -> Option<ExecSpec> {
    Some(ExecSpec { cmd: "test-cmd".into(), args })
}

fn lit(s: &str) -> ArgTemplate {
    ArgTemplate::Lit { lit: s.into() }
}

fn arg(name: &str) -> ArgTemplate {
    ArgTemplate::Arg { arg: name.into(), flag: None, default: None, optional: false }
}

fn arg_default(name: &str, default: &str) -> ArgTemplate {
    ArgTemplate::Arg { arg: name.into(), flag: None, default: Some(default.into()), optional: false }
}

fn arg_flag(name: &str, flag: &str) -> ArgTemplate {
    ArgTemplate::Arg { arg: name.into(), flag: Some(flag.into()), default: None, optional: false }
}

fn arg_flag_default(name: &str, flag: &str, default: &str) -> ArgTemplate {
    ArgTemplate::Arg {
        arg: name.into(),
        flag: Some(flag.into()),
        default: Some(default.into()),
        optional: false,
    }
}

fn arg_optional(name: &str) -> ArgTemplate {
    ArgTemplate::Arg { arg: name.into(), flag: None, default: None, optional: true }
}

fn tool(name: &str, exec_spec: Option<ExecSpec>) -> Tool {
    Tool { name: name.into(), description: String::new(), parameters: Json::Null, exec_spec }
}

fn call(arguments: JsonMap) -> ToolCall {
    ToolCall { name: "test".into(), arguments }
}

#[test]
fn build_argv_no_exec() {
    let t = tool("test", None);
    let call = call(JsonMap::new());
    assert!(build_argv(&t, &call).unwrap().is_none());
}

#[test]
fn build_argv_simple_lit() {
    let t = tool("test", make_exec(vec![lit("on")]));
    let call = call(JsonMap::new());
    let argv = build_argv(&t, &call).unwrap().unwrap();
    assert_eq!(argv, vec!["test-cmd", "on"]);
}

#[test]
fn build_argv_supplied_arg() {
    let mut args = JsonMap::new();
    args.insert("action".into(), Json::Str("on".into()));
    let t = tool("test", make_exec(vec![arg("action")]));
    let call = call(args);
    let argv = build_argv(&t, &call).unwrap().unwrap();
    assert_eq!(argv, vec!["test-cmd", "on"]);
}

#[test]
fn build_argv_flag_arg() {
    let mut args = JsonMap::new();
    args.insert("title".into(), Json::Str("hello".into()));
    let t = tool("test", make_exec(vec![arg_flag("title", "-t")]));
    let call = call(args);
    let argv = build_argv(&t, &call).unwrap().unwrap();
    assert_eq!(argv, vec!["test-cmd", "-t", "hello"]);
}

#[test]
fn build_argv_missing_required() {
    let t = tool("test", make_exec(vec![arg("action")]));
    let call = call(JsonMap::new());
    let err = build_argv(&t, &call).unwrap_err();
    assert!(err.to_string().contains("missing required argument"));
    assert_eq!(err.to_string(), "tool 'test' missing required argument 'action'");
}

#[test]
fn build_argv_default_value() {
    let t = tool("test", make_exec(vec![arg_default("timeout", "30")]));
    let call = call(JsonMap::new());
    let argv = build_argv(&t, &call).unwrap().unwrap();
    assert_eq!(argv, vec!["test-cmd", "30"]);
}

#[test]
fn build_argv_supplied_overrides_default() {
    let mut args = JsonMap::new();
    args.insert("timeout".into(), Json::Str("60".into()));
    let t = tool("test", make_exec(vec![arg_default("timeout", "30")]));
    let call = call(args);
    let argv = build_argv(&t, &call).unwrap().unwrap();
    assert_eq!(argv, vec!["test-cmd", "60"]);
}

#[test]
fn build_argv_flag_with_default() {
    let t = tool("test", make_exec(vec![arg_flag_default("lang", "-l", "en")]));
    let call = call(JsonMap::new());
    let argv = build_argv(&t, &call).unwrap().unwrap();
    assert_eq!(argv, vec!["test-cmd", "-l", "en"]);
}

#[test]
fn build_argv_optional_skipped() {
    let t = tool("test", make_exec(vec![arg_optional("file")]));
    let call = call(JsonMap::new());
    let argv = build_argv(&t, &call).unwrap().unwrap();
    assert_eq!(argv, vec!["test-cmd"]);
}

#[test]
fn build_argv_optional_supplied() {
    let mut args = JsonMap::new();
    args.insert("file".into(), Json::Str("test.txt".into()));
    let t = tool("test", make_exec(vec![arg_optional("file")]));
    let call = call(args);
    let argv = build_argv(&t, &call).unwrap().unwrap();
    assert_eq!(argv, vec!["test-cmd", "test.txt"]);
}

#[test]
fn build_argv_flag_optional_pair_absent() {
    let t = tool(
        "test",
        make_exec(vec![ArgTemplate::Arg {
            arg: "lang".into(),
            flag: Some("-l".into()),
            default: None,
            optional: true,
        }]),
    );
    let call = call(JsonMap::new());
    let argv = build_argv(&t, &call).unwrap().unwrap();
    assert_eq!(argv, vec!["test-cmd"]);
}

#[test]
fn value_to_arg_string() {
    assert_eq!(value_to_arg(&Json::Str("hello".into())), "hello");
}

#[test]
fn value_to_arg_number() {
    assert_eq!(value_to_arg(&Json::Number(serde_json::Number::from(42))), "42");
    assert_eq!(value_to_arg(&parse("42").unwrap()), "42");
}
