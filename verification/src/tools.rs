//! Tools: the configuration file, the schemas that the model sees, and the
//! calls that it answers with.

use crate::json::{
    distinct_keys, get_str, lemma_position, opt_doc, parse, parsed, position, readable, str_of, written,
    Doc, Json, JsonMap, MAX_DEPTH,
};
use crate::snake::snake_case;
use crate::spec_file::items_of;
use crate::text::{str_eq, trim, trimmed};
use vstd::hash_map::StringHashMap;
use vstd::prelude::*;

pub use crate::snake::to_snake_case;

verus! {

/// One tool: the schema shown to the model, and how to run it.
pub struct Tool {
    pub name: String,
    pub description: String,
    /// For each argument its type, description and whether it is required.
    pub parameters: Json,
    /// A tool without one is known to the model but cannot be run.
    pub exec_spec: Option<ExecSpec>,
}

/// The command of a tool.
pub struct ExecSpec {
    /// The program; it is never run through a shell.
    pub cmd: String,
    pub args: Vec<ArgTemplate>,
}

/// What one part of the command line is made from.
pub enum ArgTemplate {
    /// A literal token.
    Lit { lit: String },
    /// The value of an argument. With a flag, both are left out where there is
    /// no value; with a default, that is the value then; an optional one is
    /// left out then.
    Arg { arg: String, flag: Option<String>, default: Option<String>, optional: bool },
}

/// The tools of a configuration.
pub struct ToolSet {
    pub tools: Vec<Tool>,
}

/// An `ArgTemplate`, as a mathematical value.
pub enum Template {
    Lit(Seq<char>),
    Arg {
        arg: Seq<char>,
        flag: Option<Seq<char>>,
        default: Option<Seq<char>>,
        optional: bool,
    },
}

/// An `ExecSpec`, as a mathematical value.
pub struct Exec {
    pub cmd: Seq<char>,
    pub args: Seq<Template>,
}

/// A `Tool`, as a mathematical value.
pub struct ToolDef {
    pub name: Seq<char>,
    pub description: Seq<char>,
    pub parameters: Doc,
    pub exec_spec: Option<Exec>,
}

/// The characters of a string, where there is one.
pub open spec fn opt_text(s: Option<String>) -> Option<Seq<char>> {
    match s {
        Some(s) => Some(s@),
        None => None,
    }
}

impl View for ArgTemplate {
    type V = Template;

    open spec fn view(&self) -> Template {
        match self {
            ArgTemplate::Lit { lit } => Template::Lit(lit@),
            ArgTemplate::Arg { arg, flag, default, optional } => Template::Arg {
                arg: arg@,
                flag: opt_text(*flag),
                default: opt_text(*default),
                optional: *optional,
            },
        }
    }
}

impl View for ExecSpec {
    type V = Exec;

    open spec fn view(&self) -> Exec {
        Exec { cmd: self.cmd@, args: self.args@.map_values(|a: ArgTemplate| a@) }
    }
}

impl View for Tool {
    type V = ToolDef;

    open spec fn view(&self) -> ToolDef {
        ToolDef {
            name: self.name@,
            description: self.description@,
            parameters: self.parameters@,
            exec_spec: match self.exec_spec {
                Some(e) => Some(e@),
                None => None,
            },
        }
    }
}

impl View for ToolSet {
    type V = Seq<ToolDef>;

    open spec fn view(&self) -> Seq<ToolDef> {
        self.tools@.map_values(|t: Tool| t@)
    }
}

/// A string that may be missing or null. Other documents are none.
pub open spec fn maybe_text(d: Option<Doc>) -> Option<Option<Seq<char>>> {
    match d {
        None => Some(None),
        Some(Doc::Null) => Some(None),
        Some(Doc::Str(s)) => Some(Some(s)),
        _ => None,
    }
}

/// A truth value that is false where it is missing. Other documents are none.
pub open spec fn maybe_bool(d: Option<Doc>) -> Option<bool> {
    match d {
        None => Some(false),
        Some(Doc::Bool(b)) => Some(b),
        _ => None,
    }
}

/// The template that a document describes: a literal, where there is one, or
/// else an argument.
pub open spec fn template_in(doc: Doc) -> Option<Template> {
    match doc {
        Doc::Object(_) => match str_of(doc.get("lit"@)) {
            Some(lit) => Some(Template::Lit(lit)),
            None => match (
                str_of(doc.get("arg"@)),
                maybe_text(doc.get("flag"@)),
                maybe_text(doc.get("default"@)),
                maybe_bool(doc.get("optional"@)),
            ) {
                (Some(arg), Some(flag), Some(default), Some(optional)) => Some(
                    Template::Arg { arg, flag, default, optional },
                ),
                _ => None,
            },
        },
        _ => None,
    }
}

/// The templates that a list describes, where each element describes one.
pub open spec fn templates_in(doc: Doc) -> Option<Seq<Template>> {
    match doc {
        Doc::Array(items) => if forall|i: int|
            0 <= i < items.len() ==> template_in(#[trigger] items[i]) is Some {
            Some(items.map_values(|d: Doc| template_in(d)->0))
        } else {
            None
        },
        _ => None,
    }
}

/// The templates of a command; none where they are missing.
pub open spec fn maybe_templates(d: Option<Doc>) -> Option<Seq<Template>> {
    match d {
        None => Some(Seq::empty()),
        Some(d) => templates_in(d),
    }
}

/// The command that a document describes: an object with the members `cmd` and
/// `args`, or a list of the two. The templates may be missing.
pub open spec fn exec_in(doc: Doc) -> Option<Exec> {
    let (cmd, args) = match doc {
        Doc::Object(_) => (doc.get("cmd"@), doc.get("args"@)),
        Doc::Array(items) => if items.len() <= 2 {
            (doc.at(0), doc.at(1))
        } else {
            (None, None)
        },
        _ => (None, None),
    };
    match (str_of(cmd), maybe_templates(args)) {
        (Some(cmd), Some(args)) => Some(Exec { cmd, args }),
        _ => None,
    }
}

fn read_maybe_text(d: Option<&Json>) -> (r: Option<Option<String>>)
    ensures
        match r {
            Some(t) => maybe_text(opt_doc(d)) == Some(opt_text(t)),
            None => maybe_text(opt_doc(d)) is None,
        },
{
    match d {
        None => Some(None),
        Some(Json::Null) => Some(None),
        Some(Json::Str(s)) => Some(Some(s.clone())),
        _ => None,
    }
}

fn read_maybe_bool(d: Option<&Json>) -> (r: Option<bool>)
    ensures
        r == maybe_bool(opt_doc(d)),
{
    match d {
        None => Some(false),
        Some(Json::Bool(b)) => Some(*b),
        _ => None,
    }
}

impl ArgTemplate {
    /// Reads a template.
    pub fn from_json(doc: &Json) -> (r: Option<ArgTemplate>)
        ensures
            match r {
                Some(t) => template_in(doc@) == Some(t@),
                None => template_in(doc@) is None,
            },
    {
        match doc {
            Json::Object(_) => {},
            _ => {
                return None;
            },
        }
        if let Some(lit) = get_str(doc.get("lit")) {
            return Some(ArgTemplate::Lit { lit: lit.clone() });
        }
        match (
            get_str(doc.get("arg")),
            read_maybe_text(doc.get("flag")),
            read_maybe_text(doc.get("default")),
            read_maybe_bool(doc.get("optional")),
        ) {
            (Some(arg), Some(flag), Some(default), Some(optional)) => Some(
                ArgTemplate::Arg { arg: arg.clone(), flag, default, optional },
            ),
            _ => None,
        }
    }
}

impl ExecSpec {
    fn read_args(d: Option<&Json>) -> (r: Option<Vec<ArgTemplate>>)
        ensures
            match r {
                Some(v) => maybe_templates(opt_doc(d)) == Some(
                    v@.map_values(|a: ArgTemplate| a@),
                ),
                None => maybe_templates(opt_doc(d)) is None,
            },
    {
        let mut out: Vec<ArgTemplate> = Vec::new();
        match d {
            None => {
                assert(out@.map_values(|a: ArgTemplate| a@) =~= Seq::empty());
                Some(out)
            },
            Some(Json::Array(items)) => {
                let ghost all = d->0@->Array_0;
                for i in 0..items.len()
                    invariant
                        d == Some(&Json::Array(*items)),
                        all == d->0@->Array_0,
                        out@.len() == i,
                        forall|j: int|
                            0 <= j < i ==> template_in(#[trigger] all[j]) == Some(out@[j]@),
                {
                    assert(all[i as int] == items@[i as int]@);
                    match ArgTemplate::from_json(&items[i]) {
                        Some(t) => {
                            out.push(t);
                        },
                        None => {
                            return None;
                        },
                    }
                }
                assert(out@.map_values(|a: ArgTemplate| a@) =~= all.map_values(
                    |d: Doc| template_in(d)->0,
                ));
                Some(out)
            },
            _ => None,
        }
    }

    /// Reads a command.
    pub fn from_json(doc: &Json) -> (r: Option<ExecSpec>)
        ensures
            match r {
                Some(e) => exec_in(doc@) == Some(e@),
                None => exec_in(doc@) is None,
            },
    {
        let (cmd, args) = match doc {
            Json::Object(_) => (doc.get("cmd"), doc.get("args")),
            Json::Array(items) => {
                if items.len() > 2 {
                    return None;
                }
                (doc.at(0), doc.at(1))
            },
            _ => {
                return None;
            },
        };
        match (get_str(cmd), ExecSpec::read_args(args)) {
            (Some(cmd), Some(args)) => Some(ExecSpec { cmd: cmd.clone(), args }),
            _ => None,
        }
    }
}

/// The properties of a JSON Schema, which is an object of type `object` with
/// some: what the argument objects are made from.
pub open spec fn properties_in(doc: Doc) -> Option<Seq<(Seq<char>, Doc)>> {
    if str_of(doc.get("type"@)) == Some("object"@) {
        match doc.get("properties"@) {
            Some(Doc::Object(members)) => Some(members),
            _ => None,
        }
    } else {
        None
    }
}

/// Does the list `required` of a JSON Schema hold this key?
pub open spec fn is_required(doc: Doc, key: Seq<char>) -> bool {
    doc.get("required"@) matches Some(Doc::Array(items)) && exists|i: int|
        0 <= i < items.len() && #[trigger] items[i] == Doc::Str(key)
}

/// One argument of a JSON Schema: its type, which is that of a string where it
/// is not given, its description, where it is given, and whether it is
/// required.
pub open spec fn argument_in(property: Doc, required: bool) -> Doc {
    let kind = match property.get("type"@) {
        Some(d) => d,
        None => Doc::Str("string"@),
    };
    let required = ("required"@, Doc::Bool(required));
    match property.get("description"@) {
        Some(d) => Doc::Object(seq![("type"@, kind), ("description"@, d), required]),
        None => Doc::Object(seq![("type"@, kind), required]),
    }
}

/// Parameters in the model's own style. Those of a JSON Schema are converted,
/// one argument for each property; those that are no object are empty; others
/// are taken as they are.
pub open spec fn normalized_parameters(doc: Doc) -> Doc {
    match doc {
        Doc::Object(_) => match properties_in(doc) {
            Some(members) => Doc::Object(
                members.map_values(
                    |m: (Seq<char>, Doc)| (m.0, argument_in(m.1, is_required(doc, m.0))),
                ),
            ),
            None => doc,
        },
        _ => Doc::Object(Seq::empty()),
    }
}

fn required_in(doc: &Json, key: &str) -> (r: bool)
    ensures
        r == is_required(doc@, key@),
{
    if let Some(Json::Array(items)) = doc.get("required") {
        let ghost all = doc@.get("required"@)->0->Array_0;
        assert(all =~= items_of(items@));
        for i in 0..items.len()
            invariant
                all == items_of(items@),
                doc@.get("required"@) == Some(Doc::Array(all)),
                forall|j: int| 0 <= j < i ==> #[trigger] all[j] != Doc::Str(key@),
        {
            assert(all[i as int] == items@[i as int]@);
            if let Json::Str(s) = &items[i] {
                if str_eq(s.as_str(), key) {
                    assert(all[i as int] == Doc::Str(key@));
                    return true;
                }
            }
        }
    }
    false
}

fn convert_argument(property: &Json, required: bool) -> (r: Json)
    ensures
        r@ == argument_in(property@, required),
{
    proof {
        reveal_strlit("type");
        reveal_strlit("description");
        reveal_strlit("required");
    }
    let mut entry = JsonMap::new();
    entry.insert(
        "type".to_owned(),
        match property.get("type") {
            Some(d) => d.copy(),
            None => Json::Str("string".to_owned()),
        },
    );
    let ghost kind = entry@[0].1;
    assert(entry@ =~= seq![("type"@, kind)]);
    if let Some(d) = property.get("description") {
        assert("type"@ != "description"@) by {
            assert("type"@.len() != "description"@.len());
        }
        proof {
            lemma_position(entry@, "description"@);
        }
        entry.insert("description".to_owned(), d.copy());
        assert(entry@ =~= seq![("type"@, kind), ("description"@, d@)]);
    }
    assert("type"@ != "required"@) by {
        assert("type"@.len() != "required"@.len());
    }
    assert("description"@ != "required"@) by {
        assert("description"@.len() != "required"@.len());
    }
    let ghost before = entry@;
    proof {
        lemma_position(before, "required"@);
    }
    entry.insert("required".to_owned(), Json::Bool(required));
    assert(entry@ =~= before.push(("required"@, Doc::Bool(required))));
    let r = Json::Object(entry);
    assert(r@->Object_0 =~= argument_in(property@, required)->Object_0);
    r
}

/// Brings parameters into the model's own style.
pub fn normalize_parameters(params: &Json) -> (r: Json)
    ensures
        r@ == normalized_parameters(params@),
{
    match params {
        Json::Object(_) => {},
        _ => {
            return Json::Object(JsonMap::new());
        },
    }
    let is_schema = match get_str(params.get("type")) {
        Some(kind) => str_eq(kind.as_str(), "object"),
        None => false,
    };
    if !is_schema {
        return params.copy();
    }
    let props = match params.get("properties") {
        Some(Json::Object(props)) => props,
        _ => {
            return params.copy();
        },
    };
    let n: usize = props.len();
    let mut out = JsonMap::new();
    let ghost goal = normalized_parameters(params@)->Object_0;
    for i in 0..n
        invariant
            n == props@.len(),
            distinct_keys(props@),
            properties_in(params@) == Some(props@),
            goal == normalized_parameters(params@)->Object_0,
            params@ is Object,
            out@ == goal.take(i as int),
    {
        let key = props.key(i);
        let entry = convert_argument(props.value(i), required_in(params, key.as_str()));
        let ghost before = out@;
        proof {
            lemma_position(before, key@);
            assert(goal[i as int].0 == props@[i as int].0);
            assert forall|j: int| 0 <= j < before.len() implies #[trigger] before[j].0 != key@ by {
                assert(before[j].0 == props@[j].0);
            }
        }
        out.insert(key.clone(), entry);
        assert(goal.take(i + 1) =~= goal.take(i as int).push(goal[i as int]));
    }
    assert(goal.take(n as int) =~= goal);
    Json::Object(out)
}

/// Every argument of a converted JSON Schema is an object, and they are those
/// of the properties, in their order.
pub proof fn converted_arguments_are_objects(doc: Doc)
    requires
        doc is Object,
        properties_in(doc) is Some,
    ensures
        ({
            let from = properties_in(doc)->0;
            let to = normalized_parameters(doc)->Object_0;
            &&& to.len() == from.len()
            &&& forall|i: int|
                0 <= i < to.len() ==> (#[trigger] to[i]).0 == from[i].0 && to[i].1 is Object
        }),
{
}

/// Normalizing parameters twice is doing it once.
pub proof fn normalizing_twice_is_once(doc: Doc)
    ensures
        normalized_parameters(normalized_parameters(doc)) == normalized_parameters(doc),
{
    if doc is Object && properties_in(doc) is Some {
        let to = normalized_parameters(doc)->Object_0;
        lemma_position(to, "type"@);
        let p = position(to, "type"@);
        assert(p < to.len() ==> to[p].1 is Object);
    }
}

/// Parameters in the model's own style stay as they are, whatever their
/// arguments are called: each is an object, so none is the type of a schema.
pub proof fn own_style_stays(members: Seq<(Seq<char>, Doc)>)
    requires
        forall|i: int| 0 <= i < members.len() ==> (#[trigger] members[i]).1 is Object,
    ensures
        normalized_parameters(Doc::Object(members)) == Doc::Object(members),
{
    lemma_position(members, "type"@);
}

/// Why a configuration was refused. Indices are those of the tool at fault.
#[derive(Debug)]
pub enum ConfigError {
    /// The text is not JSON.
    Json(serde_json::Error),
    /// There is no list of tools.
    NotAList,
    /// A tool has no name.
    NoName(usize),
    /// The command of a tool is not one.
    BadExec(usize),
}

/// What can be wrong with a tool.
pub enum ToolFault {
    NoName,
    BadExec,
}

/// The tools of a configuration: its list `tools`, or the configuration itself
/// where it is a list.
pub open spec fn configured(doc: Doc) -> Option<Seq<Doc>> {
    match doc.get("tools"@) {
        Some(Doc::Array(items)) => Some(items),
        _ => match doc {
            Doc::Array(items) => Some(items),
            _ => None,
        },
    }
}

/// What is wrong with a tool, if anything is.
pub open spec fn tool_fault(item: Doc) -> Option<ToolFault> {
    if str_of(item.get("name"@)) is None {
        Some(ToolFault::NoName)
    } else {
        match item.get("exec"@) {
            Some(e) => if exec_in(e) is None {
                Some(ToolFault::BadExec)
            } else {
                None
            },
            None => None,
        }
    }
}

/// The first tool with a fault, from index `i` on, and the fault.
pub open spec fn first_tool_fault(items: Seq<Doc>, i: int) -> Option<(int, ToolFault)>
    decreases items.len() - i,
{
    if i < 0 || i >= items.len() {
        None
    } else {
        match tool_fault(items[i]) {
            Some(f) => Some((i, f)),
            None => first_tool_fault(items, i + 1),
        }
    }
}

/// The tool that a document without a fault describes. A missing description
/// is empty, and so are missing parameters.
pub open spec fn tool_in(item: Doc) -> ToolDef {
    ToolDef {
        name: str_of(item.get("name"@))->0,
        description: match str_of(item.get("description"@)) {
            Some(s) => s,
            None => Seq::empty(),
        },
        parameters: normalized_parameters(
            match item.get("parameters"@) {
                Some(d) => d,
                None => Doc::Object(Seq::empty()),
            },
        ),
        exec_spec: match item.get("exec"@) {
            Some(e) => exec_in(e),
            None => None,
        },
    }
}

impl Tool {
    /// Reads a tool.
    fn from_json(item: &Json) -> (r: Result<Tool, ToolFault>)
        ensures
            match r {
                Ok(t) => tool_fault(item@) is None && t@ == tool_in(item@),
                Err(f) => tool_fault(item@) == Some(f),
            },
    {
        let name = match get_str(item.get("name")) {
            Some(name) => name.clone(),
            None => {
                return Err(ToolFault::NoName);
            },
        };
        let description = match get_str(item.get("description")) {
            Some(s) => s.clone(),
            None => String::new(),
        };
        assert(str_of(item@.get("description"@)) is None ==> description@ =~= Seq::empty());
        let parameters = match item.get("parameters") {
            Some(d) => normalize_parameters(d),
            None => normalize_parameters(&Json::Object(JsonMap::new())),
        };
        let exec_spec = match item.get("exec") {
            Some(e) => match ExecSpec::from_json(e) {
                Some(e) => Some(e),
                None => {
                    return Err(ToolFault::BadExec);
                },
            },
            None => None,
        };
        Ok(Tool { name, description, parameters, exec_spec })
    }
}

impl ToolSet {
    fn from_items(items: &Vec<Json>) -> (r: Result<ToolSet, ConfigError>)
        ensures
            match r {
                Ok(set) => first_tool_fault(items_of(items@), 0) is None && set@ == items_of(
                    items@,
                ).map_values(|d: Doc| tool_in(d)),
                Err(ConfigError::NoName(i)) => first_tool_fault(items_of(items@), 0) == Some(
                    (i as int, ToolFault::NoName),
                ),
                Err(ConfigError::BadExec(i)) => first_tool_fault(items_of(items@), 0) == Some(
                    (i as int, ToolFault::BadExec),
                ),
                Err(_) => false,
            },
    {
        let mut tools: Vec<Tool> = Vec::new();
        let ghost all = items_of(items@);
        for i in 0..items.len()
            invariant
                all == items_of(items@),
                first_tool_fault(all, 0) == first_tool_fault(all, i as int),
                tools@.len() == i,
                forall|j: int| 0 <= j < i ==> #[trigger] tools@[j]@ == tool_in(all[j]),
        {
            assert(all[i as int] == items@[i as int]@);
            match Tool::from_json(&items[i]) {
                Ok(t) => {
                    tools.push(t);
                },
                Err(ToolFault::NoName) => {
                    return Err(ConfigError::NoName(i));
                },
                Err(ToolFault::BadExec) => {
                    return Err(ConfigError::BadExec(i));
                },
            }
        }
        let set = ToolSet { tools };
        assert(set@ =~= all.map_values(|d: Doc| tool_in(d)));
        Ok(set)
    }

    /// Makes the tools that a configuration describes.
    pub fn from_json(root: &Json) -> (r: Result<ToolSet, ConfigError>)
        ensures
            match configured(root@) {
                None => r matches Err(ConfigError::NotAList),
                Some(items) => match first_tool_fault(items, 0) {
                    None => r matches Ok(set) && set@ == items.map_values(|d: Doc| tool_in(d)),
                    Some((i, ToolFault::NoName)) => r matches Err(ConfigError::NoName(k)) && k == i,
                    Some((i, ToolFault::BadExec)) => r matches Err(ConfigError::BadExec(k)) && k
                        == i,
                },
            },
    {
        if let Some(Json::Array(items)) = root.get("tools") {
            assert(configured(root@)->0 =~= items_of(items@));
            return Self::from_items(items);
        }
        match root {
            Json::Array(items) => {
                assert(configured(root@)->0 =~= items_of(items@));
                Self::from_items(items)
            },
            _ => Err(ConfigError::NotAList),
        }
    }

    /// Reads a configuration: a list of tools, or an object with one.
    pub fn from_config(raw: &str) -> (r: Result<ToolSet, ConfigError>)
        ensures
            match parsed(raw@) {
                None => r matches Err(ConfigError::Json(_)),
                Some(doc) => match configured(doc) {
                    None => r matches Err(ConfigError::NotAList),
                    Some(items) => match first_tool_fault(items, 0) {
                        None => r matches Ok(set) && set@ == items.map_values(|d: Doc| tool_in(d)),
                        Some((i, ToolFault::NoName)) => r matches Err(ConfigError::NoName(k)) && k
                            == i,
                        Some((i, ToolFault::BadExec)) => r matches Err(ConfigError::BadExec(k))
                            && k == i,
                    },
                },
            },
    {
        match parse(raw) {
            Ok(root) => Self::from_json(&root),
            Err(e) => Err(ConfigError::Json(e)),
        }
    }
}

/// The schema of a tool as the model sees it.
pub open spec fn schema_of(t: ToolDef) -> Doc {
    Doc::Object(
        seq![
            ("name"@, Doc::Str(snake_case(t.name))),
            ("description"@, Doc::Str(t.description)),
            ("parameters"@, t.parameters),
        ],
    )
}

/// The tools at these indices, in their order.
pub open spec fn selected(tools: Seq<ToolDef>, indices: Seq<usize>) -> Seq<ToolDef> {
    indices.map_values(|i: usize| tools[i as int])
}

/// The list of schemas of these tools.
pub open spec fn schemas_of(tools: Seq<ToolDef>) -> Doc {
    Doc::Array(tools.map_values(|t: ToolDef| schema_of(t)))
}

/// The name of each tool by its name in snake case; of tools that share one,
/// the last counts.
pub open spec fn names_of(tools: Seq<ToolDef>) -> Map<Seq<char>, Seq<char>>
    decreases tools.len(),
{
    if tools.len() == 0 {
        Map::empty()
    } else {
        names_of(tools.drop_last()).insert(snake_case(tools.last().name), tools.last().name)
    }
}

/// The names of tools by their names in snake case.
pub struct NameMap {
    names: StringHashMap<String>,
}

impl View for NameMap {
    type V = Map<Seq<char>, Seq<char>>;

    closed spec fn view(&self) -> Map<Seq<char>, Seq<char>> {
        self.names@.map_values(|s: String| s@)
    }
}

impl NameMap {
    /// A map without names.
    pub fn new() -> (r: NameMap)
        ensures
            r@ == Map::<Seq<char>, Seq<char>>::empty(),
    {
        let r = NameMap { names: StringHashMap::new() };
        assert(r@ =~= Map::empty());
        r
    }

    /// Maps `snake` to `name`.
    pub fn insert(&mut self, snake: String, name: String)
        ensures
            final(self)@ == old(self)@.insert(snake@, name@),
    {
        self.names.insert(snake, name);
        assert(self@ =~= old(self)@.insert(snake@, name@));
    }

    /// The name that `snake` is mapped to.
    pub fn get(&self, snake: &str) -> (r: Option<&String>)
        ensures
            match r {
                Some(name) => self@.contains_key(snake@) && self@[snake@] == name@,
                None => !self@.contains_key(snake@),
            },
    {
        self.names.get(snake)
    }
}

/// The index of the first tool with this name, or their number.
pub open spec fn first_named(tools: Seq<ToolDef>, name: Seq<char>) -> int
    decreases tools.len(),
{
    if tools.len() == 0 || tools[0].name == name {
        0
    } else {
        1 + first_named(tools.drop_first(), name)
    }
}

/// The index is that of the first tool with the name.
pub proof fn lemma_first_named(tools: Seq<ToolDef>, name: Seq<char>)
    ensures
        0 <= first_named(tools, name) <= tools.len(),
        first_named(tools, name) < tools.len() ==> tools[first_named(tools, name)].name == name,
        forall|j: int| 0 <= j < first_named(tools, name) ==> (#[trigger] tools[j]).name != name,
    decreases tools.len(),
{
    if tools.len() > 0 && tools[0].name != name {
        let rest = tools.drop_first();
        lemma_first_named(rest, name);
        assert forall|j: int| 0 <= j < first_named(tools, name) implies (#[trigger] tools[j]).name
            != name by {
            if j > 0 {
                assert(rest[j - 1] == tools[j]);
            }
        }
    }
}

/// The schema of a tool as a document.
pub fn schema(tool: &Tool) -> (r: Json)
    ensures
        r@ == schema_of(tool@),
{
    proof {
        reveal_strlit("name");
        reveal_strlit("description");
        reveal_strlit("parameters");
    }
    let ghost goal = schema_of(tool@)->Object_0;
    assert("name"@.len() == 4 && "description"@.len() == 11 && "parameters"@.len() == 10);
    let mut m = JsonMap::new();
    m.insert("name".to_owned(), Json::Str(to_snake_case(tool.name.as_str())));
    assert(m@ =~= goal.take(1));
    proof {
        lemma_position(m@, "description"@);
    }
    m.insert("description".to_owned(), Json::Str(tool.description.clone()));
    assert(m@ =~= goal.take(2));
    proof {
        lemma_position(m@, "parameters"@);
    }
    m.insert("parameters".to_owned(), tool.parameters.copy());
    assert(m@ =~= goal);
    Json::Object(m)
}

/// The compact schema of one tool: the text that is embedded for retrieval.
pub fn single_tool_model_json(tool: &Tool) -> (r: String)
    ensures
        r@ == written(schema_of(tool@)),
{
    schema(tool).to_string()
}

impl ToolSet {
    /// The compact list of all schemas for the prompt, and the names behind
    /// the ones in snake case.
    pub fn to_model_json(&self) -> (r: (String, NameMap))
        ensures
            r.0@ == written(schemas_of(self@)),
            r.1@ == names_of(self@),
            readable(schemas_of(self@), MAX_DEPTH as nat) ==> parsed(r.0@) == Some(
                schemas_of(self@),
            ),
    {
        let mut all: Vec<usize> = Vec::new();
        for i in 0..self.tools.len()
            invariant
                all@.len() == i,
                forall|j: int| 0 <= j < i ==> #[trigger] all@[j] == j,
        {
            all.push(i);
        }
        assert(selected(self@, all@) =~= self@);
        self.model_json_for(&all)
    }

    /// The list of schemas of the tools at these indices, as a document, and
    /// the names behind the ones in snake case.
    pub fn schemas_for(&self, indices: &Vec<usize>) -> (r: (Json, NameMap))
        requires
            forall|k: int| 0 <= k < indices@.len() ==> #[trigger] indices@[k] < self@.len(),
        ensures
            r.0@ == schemas_of(selected(self@, indices@)),
            r.1@ == names_of(selected(self@, indices@)),
    {
        let mut names = NameMap::new();
        let mut list: Vec<Json> = Vec::new();
        let ghost tools = selected(self@, indices@);
        for k in 0..indices.len()
            invariant
                tools == selected(self@, indices@),
                forall|k: int| 0 <= k < indices@.len() ==> #[trigger] indices@[k] < self@.len(),
                names@ == names_of(tools.take(k as int)),
                list@.len() == k,
                forall|j: int| 0 <= j < k ==> #[trigger] list@[j]@ == schema_of(tools[j]),
        {
            assert(indices@[k as int] < self@.len());
            let tool = &self.tools[indices[k]];
            assert(tools[k as int] == tool@);
            list.push(schema(tool));
            names.insert(to_snake_case(tool.name.as_str()), tool.name.clone());
            assert(tools.take(k + 1).drop_last() =~= tools.take(k as int));
        }
        assert(tools.take(tools.len() as int) =~= tools);
        let ghost docs = items_of(list@);
        assert(docs =~= schemas_of(tools)->Array_0);
        let doc = Json::Array(list);
        assert(doc@->Array_0 =~= docs);
        (doc, names)
    }

    /// The same as `to_model_json`, for the tools at these indices only.
    pub fn model_json_for(&self, indices: &Vec<usize>) -> (r: (String, NameMap))
        requires
            forall|k: int| 0 <= k < indices@.len() ==> #[trigger] indices@[k] < self@.len(),
        ensures
            r.0@ == written(schemas_of(selected(self@, indices@))),
            r.1@ == names_of(selected(self@, indices@)),
            readable(schemas_of(selected(self@, indices@)), MAX_DEPTH as nat) ==> parsed(r.0@)
                == Some(schemas_of(selected(self@, indices@))),
    {
        let (doc, names) = self.schemas_for(indices);
        (doc.to_string(), names)
    }

    /// The first tool with this name.
    pub fn get(&self, name: &str) -> (r: Option<&Tool>)
        ensures
            match r {
                Some(t) => first_named(self@, name@) < self@.len() && t@ == self@[first_named(
                    self@,
                    name@,
                )],
                None => first_named(self@, name@) == self@.len(),
            },
    {
        proof {
            lemma_first_named(self@, name@);
        }
        for i in 0..self.tools.len()
            invariant
                0 <= first_named(self@, name@) <= self@.len(),
                first_named(self@, name@) < self@.len() ==> self@[first_named(self@, name@)].name
                    == name@,
                forall|j: int|
                    0 <= j < first_named(self@, name@) ==> (#[trigger] self@[j]).name != name@,
                forall|j: int| 0 <= j < i ==> (#[trigger] self@[j]).name != name@,
        {
            assert(self@[i as int] == self.tools@[i as int]@);
            if str_eq(self.tools[i].name.as_str(), name) {
                return Some(&self.tools[i]);
            }
        }
        None
    }
}

/// A call of a tool, from the model's output.
#[derive(Debug)]
pub struct ToolCall {
    pub name: String,
    pub arguments: JsonMap,
}

/// A `ToolCall`, as a mathematical value.
pub struct Call {
    pub name: Seq<char>,
    pub arguments: Seq<(Seq<char>, Doc)>,
}

impl View for ToolCall {
    type V = Call;

    open spec fn view(&self) -> Call {
        Call { name: self.name@, arguments: self.arguments@ }
    }
}

/// The elements that calls are looked for in: those of a list, or an object
/// alone.
pub open spec fn answers_in(doc: Doc) -> Seq<Doc> {
    match doc {
        Doc::Array(items) => items,
        Doc::Object(_) => seq![doc],
        _ => Seq::empty(),
    }
}

/// The call that a document with a name describes, under the name behind it;
/// a name that is not in the map stands for itself. Arguments that are no
/// object are empty.
pub open spec fn call_in(item: Doc, names: Map<Seq<char>, Seq<char>>) -> Call {
    let snake = str_of(item.get("name"@))->0;
    Call {
        name: if names.contains_key(snake) {
            names[snake]
        } else {
            snake
        },
        arguments: match item.get("arguments"@) {
            Some(Doc::Object(members)) => members,
            _ => Seq::empty(),
        },
    }
}

/// Is there a name that is not empty?
pub open spec fn is_named(item: Doc) -> bool {
    str_of(item.get("name"@)) matches Some(s) && s.len() > 0
}

/// The calls of these documents; those without a name are passed over.
pub open spec fn calls_in(items: Seq<Doc>, names: Map<Seq<char>, Seq<char>>) -> Seq<Call>
    decreases items.len(),
{
    if items.len() == 0 {
        Seq::empty()
    } else {
        let before = calls_in(items.drop_last(), names);
        if is_named(items.last()) {
            before.push(call_in(items.last(), names))
        } else {
            before
        }
    }
}

/// The calls, as mathematical values.
pub open spec fn calls_of(v: Seq<ToolCall>) -> Seq<Call> {
    v.map_values(|c: ToolCall| c@)
}

fn read_call(item: &Json, names: &NameMap) -> (r: Option<ToolCall>)
    ensures
        match r {
            Some(c) => is_named(item@) && c@ == call_in(item@, names@),
            None => !is_named(item@),
        },
{
    let snake = match get_str(item.get("name")) {
        Some(s) => s,
        None => {
            return None;
        },
    };
    if snake.as_str().is_empty() {
        return None;
    }
    let name = match names.get(snake.as_str()) {
        Some(name) => name.clone(),
        None => snake.clone(),
    };
    let arguments = match item.get("arguments") {
        Some(Json::Object(m)) => m.copy(),
        _ => JsonMap::new(),
    };
    Some(ToolCall { name, arguments })
}

/// The calls of an answer that is JSON.
pub fn calls_from(answer: &Json, names: &NameMap) -> (r: Vec<ToolCall>)
    ensures
        calls_of(r@) == calls_in(answers_in(answer@), names@),
{
    let mut calls: Vec<ToolCall> = Vec::new();
    assert(calls_of(calls@) =~= Seq::empty());
    match answer {
        Json::Array(items) => {
            let ghost all = items_of(items@);
            assert(answers_in(answer@) =~= all);
            for i in 0..items.len()
                invariant
                    all == items_of(items@),
                    calls_of(calls@) == calls_in(all.take(i as int), names@),
            {
                assert(all[i as int] == items@[i as int]@);
                assert(all.take(i + 1).drop_last() =~= all.take(i as int));
                if let Some(c) = read_call(&items[i], names) {
                    let ghost before = calls_of(calls@);
                    calls.push(c);
                    assert(calls_of(calls@) =~= before.push(c@));
                }
            }
            assert(all.take(all.len() as int) =~= all);
        },
        Json::Object(_) => {
            assert(seq![answer@].drop_last() =~= Seq::empty());
            assert(calls_in(Seq::<Doc>::empty(), names@) =~= Seq::empty());
            if let Some(c) = read_call(answer, names) {
                calls.push(c);
                assert(calls_of(calls@) =~= Seq::empty().push(c@));
            }
        },
        _ => {},
    }
    calls
}

/// The calls of the model's output, under the names behind the ones in snake
/// case.
pub open spec fn calls_of_output(
    output: Seq<char>,
    names: Map<Seq<char>, Seq<char>>,
) -> Seq<Call> {
    match parsed(trimmed(output)) {
        Some(doc) => calls_in(answers_in(doc), names),
        None => Seq::empty(),
    }
}

/// Reads the calls out of the model's output, under the names behind the ones
/// in snake case. Output that is not JSON has none.
pub fn parse_calls(output: &str, name_map: &NameMap) -> (r: Vec<ToolCall>)
    ensures
        calls_of(r@) == match parsed(trimmed(output@)) {
            Some(doc) => calls_in(answers_in(doc), name_map@),
            None => Seq::empty(),
        },
        calls_of(r@) == calls_of_output(output@, name_map@),
{
    match parse(trim(output).as_str()) {
        Ok(answer) => calls_from(&answer, name_map),
        Err(_) => {
            let none: Vec<ToolCall> = Vec::new();
            assert(calls_of(none@) =~= Seq::empty());
            none
        },
    }
}

/// An answer that is one call by itself is read as a list of that one.
pub proof fn one_call_is_a_list_of_one(doc: Doc, names: Map<Seq<char>, Seq<char>>)
    requires
        doc is Object,
    ensures
        calls_in(answers_in(doc), names) == calls_in(answers_in(Doc::Array(seq![doc])), names),
{
}

/// Reading one list after another is reading them joined: calls keep their
/// order, and none depends on another.
pub proof fn calls_keep_their_order(
    a: Seq<Doc>,
    b: Seq<Doc>,
    names: Map<Seq<char>, Seq<char>>,
)
    ensures
        calls_in(a + b, names) == calls_in(a, names) + calls_in(b, names),
    decreases b.len(),
{
    if b.len() == 0 {
        assert(a + b =~= a);
        assert(calls_in(a, names) + calls_in(b, names) =~= calls_in(a, names));
    } else {
        calls_keep_their_order(a, b.drop_last(), names);
        assert((a + b).drop_last() =~= a + b.drop_last());
        assert((a + b).last() == b.last());
        assert(calls_in(a + b, names) =~= calls_in(a, names) + calls_in(b, names));
    }
}

} // verus!
