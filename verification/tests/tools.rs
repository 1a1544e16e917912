use sting::json::{get_str, parse, Json};
use sting::tools::{
    calls_from, normalize_parameters, parse_calls, schema, single_tool_model_json, to_snake_case,
    ArgTemplate, ConfigError, ExecSpec, NameMap, Tool, ToolSet,
};

const CONFIG: &str = r#"{"tools":[
  {"name":"taskforgeAdd","description":"Add a task.",
   "parameters":{"title":{"type":"string","description":"Task title.","required":true}},
   "exec":{"cmd":"taskforge","args":[{"lit":"add"},{"arg":"title"}]}},
  {"name":"Web-Search","parameters":{"type":"object",
    "properties":{"q":{"type":"string","description":"Query."},"n":{}},"required":["q",7]}}
]}"#;

#[test]
fn snake_case_of_names() {
    for (name, snake) in [
        ("taskforgeAdd", "taskforge_add"),
        ("Web-Search", "web_search"),
        ("HTTPServer", "http_server"),
        ("getURL2Go", "get_url2_go"),
        ("v2Beta", "v2_beta"),
        ("__a__b__", "a_b"),
        ("termux_torch", "termux_torch"),
        ("été", "t"),
        ("ABC", "abc"),
        ("A", "a"),
        ("", ""),
        ("--", ""),
    ] {
        assert_eq!(to_snake_case(name), snake);
        assert_eq!(to_snake_case(snake), snake);
    }
}

#[test]
fn config_is_read() {
    let set = ToolSet::from_config(CONFIG).unwrap();
    assert_eq!(set.tools.len(), 2);
    let t = set.get("taskforgeAdd").unwrap();
    assert_eq!(t.description, "Add a task.");
    let exec = t.exec_spec.as_ref().unwrap();
    assert_eq!(exec.cmd, "taskforge");
    assert_eq!(exec.args.len(), 2);
    assert!(matches!(&exec.args[0], ArgTemplate::Lit { lit } if lit == "add"));
    assert!(matches!(&exec.args[1], ArgTemplate::Arg { arg, flag: None, default: None, optional: false } if arg == "title"));
    let t = set.get("Web-Search").unwrap();
    assert_eq!(t.description, "");
    assert!(t.exec_spec.is_none());
    assert!(set.get("web_search").is_none());
}

#[test]
fn config_may_be_a_bare_list() {
    let set = ToolSet::from_config("[{\"name\":\"a\"},{\"name\":\"a\",\"description\":\"2\"}]").unwrap();
    assert_eq!(set.tools.len(), 2);
    // The first of equal names is found.
    assert_eq!(set.get("a").unwrap().description, "");
    assert_eq!(set.tools[0].parameters.to_string(), "{}");
}

#[test]
fn config_errors() {
    assert!(matches!(ToolSet::from_config("nope"), Err(ConfigError::Json(_))));
    assert!(matches!(ToolSet::from_config("{}"), Err(ConfigError::NotAList)));
    assert!(matches!(ToolSet::from_config("{\"tools\":{}}"), Err(ConfigError::NotAList)));
    assert!(matches!(ToolSet::from_config("7"), Err(ConfigError::NotAList)));
    assert!(matches!(ToolSet::from_config("[{\"name\":\"a\"},{}]"), Err(ConfigError::NoName(1))));
    assert!(matches!(ToolSet::from_config("[7]"), Err(ConfigError::NoName(0))));
    assert!(matches!(
        ToolSet::from_config("[{\"name\":\"a\",\"exec\":{}}]"),
        Err(ConfigError::BadExec(0))
    ));
    assert!(matches!(
        ToolSet::from_config("[{\"name\":\"a\",\"exec\":null}]"),
        Err(ConfigError::BadExec(0))
    ));
}

fn exec(text: &str) -> Option<ExecSpec> {
    ExecSpec::from_json(&parse(text).unwrap())
}

#[test]
fn commands_are_read() {
    assert_eq!(exec("{\"cmd\":\"x\"}").unwrap().args.len(), 0);
    assert_eq!(exec("{\"cmd\":\"x\",\"args\":[],\"more\":1}").unwrap().cmd, "x");
    assert_eq!(exec("[\"x\"]").unwrap().cmd, "x");
    assert_eq!(exec("[\"x\",[{\"lit\":\"y\"}]]").unwrap().args.len(), 1);
    for bad in [
        "{}",
        "{\"cmd\":1}",
        "{\"cmd\":\"x\",\"args\":null}",
        "{\"cmd\":\"x\",\"args\":[{}]}",
        "[]",
        "[\"x\",[],1]",
        "\"x\"",
    ] {
        assert!(exec(bad).is_none(), "{bad}");
    }
}

fn template(text: &str) -> Option<ArgTemplate> {
    ArgTemplate::from_json(&parse(text).unwrap())
}

#[test]
fn templates_are_read() {
    assert!(matches!(template("{\"lit\":\"-t\",\"arg\":\"x\"}"), Some(ArgTemplate::Lit { lit }) if lit == "-t"));
    assert!(matches!(
        template("{\"arg\":\"x\",\"flag\":\"-f\",\"default\":\"1\",\"optional\":true}"),
        Some(ArgTemplate::Arg { arg, flag: Some(f), default: Some(d), optional: true })
            if arg == "x" && f == "-f" && d == "1"
    ));
    assert!(matches!(
        template("{\"lit\":1,\"arg\":\"x\",\"flag\":null,\"default\":null}"),
        Some(ArgTemplate::Arg { flag: None, default: None, optional: false, .. })
    ));
    for bad in [
        "{}",
        "[\"x\"]",
        "\"x\"",
        "{\"arg\":1}",
        "{\"arg\":\"x\",\"flag\":1}",
        "{\"arg\":\"x\",\"default\":1}",
        "{\"arg\":\"x\",\"optional\":null}",
    ] {
        assert!(template(bad).is_none(), "{bad}");
    }
}

fn normalized(text: &str) -> String {
    normalize_parameters(&parse(text).unwrap()).to_string()
}

#[test]
fn parameters_of_a_json_schema_are_converted() {
    assert_eq!(
        normalized(
            "{\"type\":\"object\",\"properties\":{\"q\":{\"description\":\"d\",\"type\":\"integer\",\
             \"minimum\":1},\"n\":{},\"m\":7},\"required\":[\"q\",7]}"
        ),
        "{\"q\":{\"type\":\"integer\",\"description\":\"d\",\"required\":true},\
         \"n\":{\"type\":\"string\",\"required\":false},\
         \"m\":{\"type\":\"string\",\"required\":false}}"
    );
    assert_eq!(normalized("{\"type\":\"object\",\"properties\":{}}"), "{}");
    assert_eq!(normalized("{\"type\":\"object\",\"properties\":{\"a\":{}},\"required\":\"a\"}"),
        "{\"a\":{\"type\":\"string\",\"required\":false}}");
}

#[test]
fn other_parameters_stay() {
    let own = "{\"a\":{\"type\":\"string\",\"required\":true}}";
    assert_eq!(normalized(own), own);
    let odd = "{\"type\":\"object\",\"properties\":7}";
    assert_eq!(normalized(odd), odd);
    let untyped = "{\"properties\":{\"a\":{}}}";
    assert_eq!(normalized(untyped), untyped);
    assert_eq!(normalized("[1]"), "{}");
    assert_eq!(normalized("null"), "{}");
}

#[test]
fn an_argument_may_be_called_properties() {
    let own = "{\"properties\":{\"type\":\"string\",\"description\":\"d\",\"required\":true}}";
    assert_eq!(normalized(own), own);
    let both = "{\"properties\":{\"type\":\"string\"},\"type\":{\"type\":\"string\"}}";
    assert_eq!(normalized(both), both);
    let schema = "{\"type\":\"object\",\"properties\":{\"properties\":{\"type\":\"array\"}}}";
    let converted = "{\"properties\":{\"type\":\"array\",\"required\":false}}";
    assert_eq!(normalized(schema), converted);
    assert_eq!(normalized(converted), converted);
}

#[test]
fn normalizing_twice_is_normalizing_once() {
    let schema = "{\"type\":\"object\",\"properties\":{\"q\":{\"type\":\"string\"}},\"required\":[\"q\"]}";
    assert_eq!(normalized(&normalized(schema)), normalized(schema));
}

#[test]
fn model_json_lists_the_tools() {
    let set = ToolSet::from_config(CONFIG).unwrap();
    let (json, names) = set.to_model_json();
    assert_eq!(
        json,
        "[{\"name\":\"taskforge_add\",\"description\":\"Add a task.\",\"parameters\":{\"title\":\
         {\"type\":\"string\",\"description\":\"Task title.\",\"required\":true}}},\
         {\"name\":\"web_search\",\"description\":\"\",\"parameters\":{\"q\":{\"type\":\"string\",\
         \"description\":\"Query.\",\"required\":true},\"n\":{\"type\":\"string\",\"required\":false}}}]"
    );
    assert_eq!(names.get("taskforge_add").unwrap(), "taskforgeAdd");
    assert_eq!(names.get("web_search").unwrap(), "Web-Search");
    assert!(names.get("Web-Search").is_none());
}

#[test]
fn model_json_of_a_selection() {
    let set = ToolSet::from_config(CONFIG).unwrap();
    let (json, names) = set.model_json_for(&vec![1]);
    assert_eq!(json, format!("[{}]", single_tool_model_json(&set.tools[1])));
    assert!(names.get("taskforge_add").is_none());
    assert_eq!(names.get("web_search").unwrap(), "Web-Search");
    assert_eq!(set.model_json_for(&vec![]).0, "[]");
    let (doc, _) = set.schemas_for(&vec![1, 0]);
    assert_eq!(get_str(doc.at(0).unwrap().get("name")).unwrap(), "web_search");
    assert_eq!(get_str(doc.at(1).unwrap().get("name")).unwrap(), "taskforge_add");
    assert_eq!(schema(&set.tools[0]).to_string(), doc.at(1).unwrap().to_string());
}

#[test]
fn single_schema() {
    let tool = Tool {
        name: "doIt".into(),
        description: "say \"hi\"".into(),
        parameters: Json::Null,
        exec_spec: None,
    };
    assert_eq!(
        single_tool_model_json(&tool),
        "{\"name\":\"do_it\",\"description\":\"say \\\"hi\\\"\",\"parameters\":null}"
    );
}

#[test]
fn later_tools_win_a_shared_snake_name() {
    let set = ToolSet::from_config("[{\"name\":\"a-b\"},{\"name\":\"aB\"}]").unwrap();
    assert_eq!(set.to_model_json().1.get("a_b").unwrap(), "aB");
}

fn names() -> NameMap {
    let mut names = NameMap::new();
    names.insert("web_search".into(), "Web-Search".into());
    names
}

#[test]
fn calls_are_read() {
    let out = " [{\"name\":\"web_search\",\"arguments\":{\"q\":\"x\",\"n\":2}},{\"name\":\"other\"}]\n";
    let calls = parse_calls(out, &names());
    assert_eq!(calls.len(), 2);
    assert_eq!(calls[0].name, "Web-Search");
    assert_eq!(calls[0].arguments.len(), 2);
    assert_eq!(calls[0].arguments.get("n").unwrap().to_string(), "2");
    assert_eq!(calls[1].name, "other");
    assert_eq!(calls[1].arguments.len(), 0);
}

#[test]
fn a_call_by_itself_is_a_list_of_one() {
    let calls = parse_calls("{\"name\":\"web_search\",\"arguments\":[1]}", &names());
    assert_eq!(calls.len(), 1);
    assert_eq!(calls[0].name, "Web-Search");
    assert_eq!(calls[0].arguments.len(), 0);
}

#[test]
fn what_is_no_call_is_passed_over() {
    assert!(parse_calls("no json", &names()).is_empty());
    assert!(parse_calls("", &names()).is_empty());
    assert!(parse_calls("[]", &names()).is_empty());
    assert!(parse_calls("7", &names()).is_empty());
    assert!(parse_calls("[7,{},{\"name\":\"\"},{\"name\":3}]", &names()).is_empty());
    let answer = parse("[{\"name\":\"\"},{\"name\":\"a\"}]").unwrap();
    assert_eq!(calls_from(&answer, &names()).len(), 1);
}

#[test]
fn answering_with_a_listed_tool_calls_it() {
    let set = ToolSet::from_config(CONFIG).unwrap();
    let (json, names) = set.to_model_json();
    // What was written reads back the same.
    assert_eq!(parse(&json).unwrap().to_string(), json);
    for tool in &set.tools {
        let snake = to_snake_case(&tool.name);
        let out = format!("[{{\"name\":\"{snake}\",\"arguments\":{{\"k\":1}}}}]");
        let calls = parse_calls(&out, &names);
        assert_eq!(calls.len(), 1);
        assert_eq!(calls[0].name, tool.name);
        assert_eq!(calls[0].arguments.key(0), "k");
        assert_eq!(set.get(&calls[0].name).unwrap().name, tool.name);
    }
}
