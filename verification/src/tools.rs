//! The tools that the server offers, and what a call of one asks for.

use vstd::prelude::*;

use crate::request::{Request, RequestView};
use crate::text::{around, same};
use crate::value::{
    find_member, json_trees, last_member, lemma_push_drop, member_map, member_trees, named_last,
    push_member, take_member, the_last_member_counts, Json, JsonTree,
};

verus! {

/// A parameter of a tool.
pub struct Param {
    pub name: &'static str,
    /// The JSON type of the argument.
    pub kind: &'static str,
    pub description: &'static str,
    /// The values that there are, where not all of the type are meant.
    pub choices: Vec<&'static str>,
}

/// A tool.
pub struct Tool {
    pub name: &'static str,
    pub description: &'static str,
    pub params: Vec<Param>,
    /// The parameters that a call must give.
    pub required: Vec<&'static str>,
}

/// A list of texts as JSON.
pub open spec fn texts_tree(texts: Seq<&'static str>) -> JsonTree {
    JsonTree::List(texts.map_values(|s: &'static str| JsonTree::Str(s@)))
}

/// A parameter as JSON schema.
pub open spec fn param_tree(p: Param) -> JsonTree {
    let plain = map![
        "type"@ => JsonTree::Str(p.kind@),
        "description"@ => JsonTree::Str(p.description@),
    ];
    if p.choices@.len() == 0 {
        JsonTree::Object(plain)
    } else {
        JsonTree::Object(plain.insert("enum"@, texts_tree(p.choices@)))
    }
}

/// Parameters as JSON schema, by their names.
pub open spec fn params_tree(params: Seq<Param>) -> Map<Seq<char>, JsonTree>
    decreases params.len(),
{
    if params.len() == 0 {
        Map::empty()
    } else {
        params_tree(params.drop_last()).insert(params.last().name@, param_tree(params.last()))
    }
}

/// The arguments of a tool as JSON schema.
pub open spec fn schema_tree(tool: Tool) -> JsonTree {
    JsonTree::Object(
        map![
            "type"@ => JsonTree::Str("object"@),
            "properties"@ => JsonTree::Object(params_tree(tool.params@)),
            "required"@ => texts_tree(tool.required@),
        ],
    )
}

/// A list of texts as JSON.
fn texts(list: &Vec<&'static str>) -> (r: Json)
    ensures
        r@ == texts_tree(list@),
{
    broadcast use lemma_push_drop;

    let mut out: Vec<Json> = Vec::new();
    let ghost trees = list@.map_values(|s: &'static str| JsonTree::Str(s@));
    let mut i: usize = 0;
    #[verifier::loop_isolation(false)]
    while i < list.len()
        invariant
            i <= list@.len(),
            json_trees(out@) == trees.take(i as int),
        decreases list@.len() - i,
    {
        let text = Json::String(list[i].to_owned());
        assert(text@ == trees[i as int]);
        assert(trees.take(i + 1) =~= trees.take(i as int).push(trees[i as int]));
        out.push(text);
        i += 1;
    }
    assert(trees.take(i as int) =~= trees);
    Json::Array(out)
}

/// The arguments of a tool as JSON schema.
pub fn schema(tool: &Tool) -> (r: Json)
    ensures
        r@ == schema_tree(*tool),
{
    let mut properties: Vec<(String, Json)> = Vec::new();
    let mut i: usize = 0;
    assert(tool.params@.take(0) =~= Seq::empty());
    while i < tool.params.len()
        invariant
            i <= tool.params@.len(),
            member_map(member_trees(properties@)) == params_tree(tool.params@.take(i as int)),
        decreases tool.params@.len() - i,
    {
        let param = &tool.params[i];
        let mut property: Vec<(String, Json)> = Vec::new();
        push_member(&mut property, "type", Json::String(param.kind.to_owned()));
        push_member(&mut property, "description", Json::String(param.description.to_owned()));
        if param.choices.len() > 0 {
            push_member(&mut property, "enum", texts(&param.choices));
        }
        push_member(&mut properties, param.name, Json::Object(property));
        assert(tool.params@.take(i + 1).drop_last() =~= tool.params@.take(i as int));
        i += 1;
    }
    assert(tool.params@.take(i as int) =~= tool.params@);
    let mut members: Vec<(String, Json)> = Vec::new();
    push_member(&mut members, "type", Json::String("object".to_owned()));
    push_member(&mut members, "properties", Json::Object(properties));
    push_member(&mut members, "required", texts(&tool.required));
    Json::Object(members)
}

/// What a call of a tool asks for.
#[derive(Debug, PartialEq)]
pub enum Call {
    /// To do something.
    Run(Request),
    /// Arguments are missing or of another kind; the answer says so.
    Refused(String),
    /// There is no such tool; the message says so.
    Unknown(String),
}

/// What a [`Call`] is.
pub enum CallView {
    Run(RequestView),
    Refused(Seq<char>),
    Unknown(Seq<char>),
}

impl View for Call {
    type V = CallView;

    open spec fn view(&self) -> CallView {
        match self {
            Call::Run(request) => CallView::Run(request@),
            Call::Refused(message) => CallView::Refused(message@),
            Call::Unknown(message) => CallView::Unknown(message@),
        }
    }
}

/// The argument `name`, if it is a string.
pub open spec fn arg_str_spec(args: Seq<(String, Json)>, name: Seq<char>) -> Option<Seq<char>> {
    match last_member(args, name) {
        Some(Json::String(s)) => Some(s@),
        _ => None,
    }
}

/// The argument `name`, if it is true or false.
pub open spec fn arg_bool_spec(args: Seq<(String, Json)>, name: Seq<char>) -> Option<bool> {
    match last_member(args, name) {
        Some(Json::Bool(b)) => Some(b),
        _ => None,
    }
}

/// `value`, or `default` where there is none.
pub open spec fn or_default<T>(value: Option<T>, default: T) -> T {
    match value {
        Some(value) => value,
        None => default,
    }
}

/// What a call of the tool `name` with the arguments `args` asks for. Of two arguments with one
/// name the later one counts. The updates of a write are those that are given, in their order.
pub open spec fn call_spec(name: Seq<char>, args: Seq<(String, Json)>) -> CallView {
    let path = arg_str_spec(args, "path"@);
    if name != "read_meta"@ && name != "write_meta"@ && name != "bump_version"@ {
        CallView::Unknown("unknown tool '"@ + name + "'"@)
    } else if path is None {
        CallView::Refused("missing required argument 'path'"@)
    } else if name == "read_meta"@ {
        CallView::Run(
            RequestView::Read {
                path: path->0,
                key: arg_str_spec(args, "key"@),
                typed: or_default(arg_bool_spec(args, "typed"@), false),
            },
        )
    } else if name == "write_meta"@ {
        match last_member(args, "updates"@) {
            Some(Json::Object(updates)) => CallView::Run(
                RequestView::Write {
                    path: path->0,
                    updates: updates@,
                    touch_updated: or_default(arg_bool_spec(args, "touch_updated"@), true),
                },
            ),
            _ => CallView::Refused("missing or invalid argument 'updates' (must be an object)"@),
        }
    } else {
        CallView::Run(
            RequestView::Bump {
                path: path->0,
                level: or_default(arg_str_spec(args, "level"@), "patch"@),
            },
        )
    }
}

/// The argument `name`, if it is a string.
pub fn arg_str<'a>(args: &'a Vec<(String, Json)>, name: &str) -> (r: Option<&'a str>)
    ensures
        match r {
            Some(s) => arg_str_spec(args@, name@) == Some(s@),
            None => arg_str_spec(args@, name@) is None,
        },
{
    match find_member(args, name) {
        Some(Json::String(s)) => Some(s.as_str()),
        _ => None,
    }
}

/// The argument `name`, if it is true or false, and `default` otherwise.
pub fn arg_bool(args: &Vec<(String, Json)>, name: &str, default: bool) -> (r: bool)
    ensures
        r == or_default(arg_bool_spec(args@, name@), default),
{
    match find_member(args, name) {
        Some(Json::Bool(b)) => *b,
        _ => default,
    }
}

/// What a call of the tool `name` with the arguments `args` asks for.
pub fn dispatch(name: &str, args: Vec<(String, Json)>) -> (r: Call)
    ensures
        r@ == call_spec(name@, args@),
{
    let read = same(name, "read_meta");
    let write = same(name, "write_meta");
    let bump = same(name, "bump_version");
    if !read && !write && !bump {
        return Call::Unknown(around("unknown tool '", name, "'"));
    }
    let path = match arg_str(&args, "path") {
        Some(path) => path.to_owned(),
        None => {
            return Call::Refused("missing required argument 'path'".to_owned());
        },
    };
    if read {
        let key = match arg_str(&args, "key") {
            Some(key) => Some(key.to_owned()),
            None => None,
        };
        let typed = arg_bool(&args, "typed", false);
        Call::Run(Request::Read { path, key, typed })
    } else if write {
        let touch_updated = arg_bool(&args, "touch_updated", true);
        match take_member(args, "updates") {
            Some(Json::Object(updates)) => Call::Run(Request::Write { path, updates, touch_updated }),
            _ => Call::Refused(
                "missing or invalid argument 'updates' (must be an object)".to_owned(),
            ),
        }
    } else {
        let level = match arg_str(&args, "level") {
            Some(level) => level.to_owned(),
            None => "patch".to_owned(),
        };
        Call::Run(Request::Bump { path, level })
    }
}

/// What the tool `read_meta` does.
pub const READ_DESCRIPTION: &'static str = "Read YAML frontmatter from a Markdown file. \
    Returns the full metadata object when key is omitted, or the value of a single key. \
    Returns null for missing keys. \
    When typed=true each value is wrapped as \
    {\"value\": ..., \"type\": \"<type>\", [\"items_type\": \"<type>\"]} \
    where type is one of: null, boolean, integer, float, \
    date (YYYY-MM-DD), datetime (YYYY-MM-DD HH:MM:SS), \
    wikilink ([[...]]), string, array, object — \
    and items_type describes the common element type of arrays.";

/// What the tool `write_meta` does.
pub const WRITE_DESCRIPTION: &'static str = "Patch YAML frontmatter keys in a Markdown file. \
    Only the keys present in `updates` are changed; all other keys and \
    the entire file body are left untouched. \
    Auto-sets the `updated` timestamp unless touch_updated is false.";

/// What the tool `bump_version` does.
pub const BUMP_DESCRIPTION: &'static str =
    "Bump the semver `version` field in a Markdown file's frontmatter. \
    Initialises to 0.1.0 if the field is absent. \
    Also sets `updated` to the current local timestamp. \
    Returns {\"version\": \"<new_version>\"}.";

/// What a [`Param`] is.
pub struct ParamView {
    pub name: Seq<char>,
    pub kind: Seq<char>,
    pub description: Seq<char>,
    pub choices: Seq<Seq<char>>,
}

/// What a [`Tool`] is.
pub struct ToolView {
    pub name: Seq<char>,
    pub description: Seq<char>,
    pub params: Seq<ParamView>,
    pub required: Seq<Seq<char>>,
}

/// The characters of each of `texts`.
pub open spec fn text_views(texts: Seq<&'static str>) -> Seq<Seq<char>> {
    texts.map_values(|s: &'static str| s@)
}

impl View for Param {
    type V = ParamView;

    open spec fn view(&self) -> ParamView {
        ParamView {
            name: self.name@,
            kind: self.kind@,
            description: self.description@,
            choices: text_views(self.choices@),
        }
    }
}

impl View for Tool {
    type V = ToolView;

    open spec fn view(&self) -> ToolView {
        ToolView {
            name: self.name@,
            description: self.description@,
            params: self.params@.map_values(|p: Param| p@),
            required: text_views(self.required@),
        }
    }
}

/// A parameter of which all values of its type are meant.
pub open spec fn any_param(name: Seq<char>, kind: Seq<char>, description: Seq<char>) -> ParamView {
    ParamView { name, kind, description, choices: Seq::empty() }
}

/// The tool that reads front matter.
pub open spec fn read_tool() -> ToolView {
    ToolView {
        name: "read_meta"@,
        description: READ_DESCRIPTION@,
        params: seq![
            any_param("path"@, "string"@, "Absolute or ~-prefixed path to the file"@),
            any_param("key"@, "string"@, "Optional single key to read"@),
            any_param(
                "typed"@,
                "boolean"@,
                "Annotate each value with its detected type (default: false)"@,
            ),
        ],
        required: seq!["path"@],
    }
}

/// The tool that patches front matter.
pub open spec fn write_tool() -> ToolView {
    ToolView {
        name: "write_meta"@,
        description: WRITE_DESCRIPTION@,
        params: seq![
            any_param("path"@, "string"@, "Absolute or ~-prefixed path to the file"@),
            any_param("updates"@, "object"@, "Key/value pairs to patch into the frontmatter"@),
            any_param(
                "touch_updated"@,
                "boolean"@,
                "Auto-set the `updated` timestamp (default: true)"@,
            ),
        ],
        required: seq!["path"@, "updates"@],
    }
}

/// The tool that raises the version.
pub open spec fn bump_tool() -> ToolView {
    ToolView {
        name: "bump_version"@,
        description: BUMP_DESCRIPTION@,
        params: seq![
            any_param("path"@, "string"@, "Absolute or ~-prefixed path to the file"@),
            ParamView {
                name: "level"@,
                kind: "string"@,
                description: "Version component to bump (default: patch)"@,
                choices: seq!["major"@, "minor"@, "patch"@],
            },
        ],
        required: seq!["path"@],
    }
}

/// The tools that the server offers.
pub open spec fn tools_spec() -> Seq<ToolView> {
    seq![read_tool(), write_tool(), bump_tool()]
}

/// A parameter of which all values of its type are meant.
fn any(name: &'static str, kind: &'static str, description: &'static str) -> (r: Param)
    ensures
        r@ == any_param(name@, kind@, description@),
{
    let r = Param { name, kind, description, choices: Vec::new() };
    assert(text_views(r.choices@) =~= Seq::empty());
    r
}

/// The tools that the server offers.
pub fn tool_list() -> (r: Vec<Tool>)
    ensures
        r@.map_values(|t: Tool| t@) == tools_spec(),
{
    let path = "Absolute or ~-prefixed path to the file";
    let read = Tool {
        name: "read_meta",
        description: READ_DESCRIPTION,
        params: vec![
            any("path", "string", path),
            any("key", "string", "Optional single key to read"),
            any(
                "typed",
                "boolean",
                "Annotate each value with its detected type (default: false)",
            ),
        ],
        required: vec!["path"],
    };
    assert(read@.params =~= read_tool().params);
    assert(read@.required =~= read_tool().required);
    let write = Tool {
        name: "write_meta",
        description: WRITE_DESCRIPTION,
        params: vec![
            any("path", "string", path),
            any("updates", "object", "Key/value pairs to patch into the frontmatter"),
            any("touch_updated", "boolean", "Auto-set the `updated` timestamp (default: true)"),
        ],
        required: vec!["path", "updates"],
    };
    assert(write@.params =~= write_tool().params);
    assert(write@.required =~= write_tool().required);
    let level = Param {
        name: "level",
        kind: "string",
        description: "Version component to bump (default: patch)",
        choices: vec!["major", "minor", "patch"],
    };
    assert(level@.choices =~= bump_tool().params[1].choices);
    let bump = Tool {
        name: "bump_version",
        description: BUMP_DESCRIPTION,
        params: vec![any("path", "string", path), level],
        required: vec!["path"],
    };
    assert(bump@.params =~= bump_tool().params);
    assert(bump@.required =~= bump_tool().required);
    let tools = vec![read, write, bump];
    assert(tools@.map_values(|t: Tool| t@) =~= tools_spec());
    tools
}

/// A call is known exactly if the tool is one of those that are offered.
pub proof fn offered_tools_are_known(name: Seq<char>, args: Seq<(String, Json)>)
    ensures
        call_spec(name, args) is Unknown <==> forall|i: int|
            0 <= i < tools_spec().len() ==> (#[trigger] tools_spec()[i]).name != name,
{
    assert(tools_spec()[0].name == "read_meta"@);
    assert(tools_spec()[1].name == "write_meta"@);
    assert(tools_spec()[2].name == "bump_version"@);
}

/// A call that is run has all arguments that its tool requires.
pub proof fn run_calls_have_what_is_required(
    i: int,
    k: int,
    args: Seq<(String, Json)>,
)
    requires
        0 <= i < tools_spec().len(),
        0 <= k < tools_spec()[i].required.len(),
        call_spec(tools_spec()[i].name, args) is Run,
    ensures
        last_member(args, tools_spec()[i].required[k]) is Some,
{
    reveal_strlit("read_meta");
    reveal_strlit("write_meta");
    reveal_strlit("bump_version");
    assert("read_meta"@[0] == 'r');
    assert("write_meta"@[0] == 'w');
    assert("bump_version"@[0] == 'b');
    assert(tools_spec()[0] == read_tool());
    assert(tools_spec()[1] == write_tool());
    assert(tools_spec()[2] == bump_tool());
}

/// An option that is left out, or that is of another kind, counts as its default: a call with the
/// default written out asks for the same.
pub proof fn defaults_can_be_written_out(
    name: Seq<char>,
    args: Seq<(String, Json)>,
    option: String,
    value: Json,
)
    requires
        ({
            ||| option@ == "typed"@ && arg_bool_spec(args, option@) is None && value == Json::Bool(
                false,
            )
            ||| option@ == "touch_updated"@ && arg_bool_spec(args, option@) is None && value
                == Json::Bool(true)
            ||| option@ == "level"@ && arg_str_spec(args, option@) is None && value is String
                && value->String_0@ == "patch"@
        }),
    ensures
        call_spec(name, args.push((option, value))) == call_spec(name, args),
{
    let more = args.push((option, value));
    assert(more.drop_last() =~= args);
    reveal_strlit("typed");
    reveal_strlit("touch_updated");
    reveal_strlit("level");
    reveal_strlit("path");
    reveal_strlit("key");
    reveal_strlit("updates");
    assert("path"@[0] == 'p' && "key"@[0] == 'k' && "updates"@[0] == 'u');
    assert("typed"@[0] == 't' && "touch_updated"@[0] == 't' && "level"@[0] == 'l');
    assert("typed"@.len() != "touch_updated"@.len());
    assert(forall|other: Seq<char>|
        other != option@ ==> last_member(more, other) == #[trigger] last_member(args, other));
}

/// The value of the last argument with the name `name` is a string.
pub open spec fn has_text(args: Seq<(String, Json)>, name: Seq<char>) -> bool {
    exists|i: int| #[trigger] named_last(args, name, i) && args[i].1 is String
}

/// The value of the last argument with the name `name` is true or false.
pub open spec fn has_flag(args: Seq<(String, Json)>, name: Seq<char>) -> bool {
    exists|i: int| #[trigger] named_last(args, name, i) && args[i].1 is Bool
}

proof fn lemma_arguments(args: Seq<(String, Json)>, name: Seq<char>)
    ensures
        has_text(args, name) <==> arg_str_spec(args, name) is Some,
        has_flag(args, name) <==> arg_bool_spec(args, name) is Some,
        forall|i: int| #[trigger]
            named_last(args, name, i) && args[i].1 is String ==> arg_str_spec(args, name) == Some(
                args[i].1->String_0@,
            ),
        forall|i: int| #[trigger]
            named_last(args, name, i) && args[i].1 is Bool ==> arg_bool_spec(args, name) == Some(
                args[i].1->Bool_0,
            ),
{
    the_last_member_counts(args, name);
}

proof fn lemma_tool_names()
    ensures
        "read_meta"@ != "write_meta"@,
        "read_meta"@ != "bump_version"@,
        "write_meta"@ != "bump_version"@,
{
    reveal_strlit("read_meta");
    reveal_strlit("write_meta");
    reveal_strlit("bump_version");
    assert("read_meta"@[0] == 'r' && "write_meta"@[0] == 'w' && "bump_version"@[0] == 'b');
}

/// A call of `read_meta` asks to read the file at `path`: of it the value of `key` if that argument
/// is a string, whatever else is given, and all of it otherwise. Types are told exactly where the
/// argument `typed` is true.
pub proof fn read_calls_read(args: Seq<(String, Json)>, call: Call, p: int)
    requires
        call@ == call_spec("read_meta"@, args),
        named_last(args, "path"@, p),
        args[p].1 is String,
    ensures
        match call {
            Call::Run(Request::Read { path, key, typed }) => {
                &&& path@ == args[p].1->String_0@
                &&& forall|i: int| #[trigger]
                    named_last(args, "key"@, i) && args[i].1 is String ==> key is Some && key->0@
                        == args[i].1->String_0@
                &&& !has_text(args, "key"@) ==> key is None
                &&& forall|i: int| #[trigger]
                    named_last(args, "typed"@, i) && args[i].1 is Bool ==> typed
                        == args[i].1->Bool_0
                &&& !has_flag(args, "typed"@) ==> !typed
            },
            _ => false,
        },
{
    lemma_tool_names();
    lemma_arguments(args, "path"@);
    lemma_arguments(args, "key"@);
    lemma_arguments(args, "typed"@);
}

/// A call of `write_meta` asks to set, in the file at `path`, the very members of the object that
/// is given as `updates`, in their order, and the time unless `touch_updated` is false. Without such
/// an object it is refused.
pub proof fn write_calls_write(args: Seq<(String, Json)>, call: Call, p: int)
    requires
        call@ == call_spec("write_meta"@, args),
        named_last(args, "path"@, p),
        args[p].1 is String,
    ensures
        forall|u: int| #[trigger]
            named_last(args, "updates"@, u) && args[u].1 is Object ==> match call {
                Call::Run(Request::Write { path, updates, touch_updated }) => {
                    &&& path@ == args[p].1->String_0@
                    &&& updates@ == args[u].1->Object_0@
                    &&& forall|i: int| #[trigger]
                        named_last(args, "touch_updated"@, i) && args[i].1 is Bool ==> touch_updated
                            == args[i].1->Bool_0
                    &&& !has_flag(args, "touch_updated"@) ==> touch_updated
                },
                _ => false,
            },
        (forall|u: int| #[trigger] named_last(args, "updates"@, u) ==> !(args[u].1 is Object)) ==> (
        call matches Call::Refused(m) && m@
            == "missing or invalid argument 'updates' (must be an object)"@),
{
    lemma_tool_names();
    lemma_arguments(args, "path"@);
    lemma_arguments(args, "touch_updated"@);
    the_last_member_counts(args, "updates"@);
}

/// A call of `bump_version` asks to raise the version in the file at `path`, at the level that is
/// given and otherwise at level `patch`.
pub proof fn bump_calls_bump(args: Seq<(String, Json)>, call: Call, p: int)
    requires
        call@ == call_spec("bump_version"@, args),
        named_last(args, "path"@, p),
        args[p].1 is String,
    ensures
        match call {
            Call::Run(Request::Bump { path, level }) => {
                &&& path@ == args[p].1->String_0@
                &&& forall|i: int| #[trigger]
                    named_last(args, "level"@, i) && args[i].1 is String ==> level@
                        == args[i].1->String_0@
                &&& !has_text(args, "level"@) ==> level@ == "patch"@
            },
            _ => false,
        },
{
    lemma_tool_names();
    lemma_arguments(args, "path"@);
    lemma_arguments(args, "level"@);
}

/// A call without a path is refused, and a call of any other tool than these three is not known.
pub proof fn other_calls_are_not_run(name: Seq<char>, args: Seq<(String, Json)>, call: Call)
    requires
        call@ == call_spec(name, args),
    ensures
        (name == "read_meta"@ || name == "write_meta"@ || name == "bump_version"@) && !has_text(
            args,
            "path"@,
        ) ==> (call matches Call::Refused(m) && m@ == "missing required argument 'path'"@),
        name != "read_meta"@ && name != "write_meta"@ && name != "bump_version"@ ==> (
        call matches Call::Unknown(m) && m@ == "unknown tool '"@ + name + "'"@),
{
    lemma_arguments(args, "path"@);
}

/// The three tools that are offered, with the names and types of their parameters and with those
/// that a call must give. The level of a bump is one of three.
pub proof fn three_tools_are_offered(tools: Seq<Tool>)
    requires
        tools.map_values(|t: Tool| t@) == tools_spec(),
    ensures
        tools.len() == 3,
        tools[0].name@ == "read_meta"@ && tools[0].description@ == READ_DESCRIPTION@,
        tools[1].name@ == "write_meta"@ && tools[1].description@ == WRITE_DESCRIPTION@,
        tools[2].name@ == "bump_version"@ && tools[2].description@ == BUMP_DESCRIPTION@,
        ({
            let p = tools[0].params@;
            &&& p.len() == 3
            &&& p[0].name@ == "path"@ && p[0].kind@ == "string"@ && p[0].choices@.len() == 0
            &&& p[1].name@ == "key"@ && p[1].kind@ == "string"@ && p[1].choices@.len() == 0
            &&& p[2].name@ == "typed"@ && p[2].kind@ == "boolean"@ && p[2].choices@.len() == 0
            &&& p[0].description@ == "Absolute or ~-prefixed path to the file"@
            &&& p[1].description@ == "Optional single key to read"@
            &&& p[2].description@ == "Annotate each value with its detected type (default: false)"@
            &&& tools[0].required@.len() == 1 && tools[0].required@[0]@ == "path"@
        }),
        ({
            let p = tools[1].params@;
            &&& p.len() == 3
            &&& p[0].name@ == "path"@ && p[0].kind@ == "string"@ && p[0].choices@.len() == 0
            &&& p[1].name@ == "updates"@ && p[1].kind@ == "object"@ && p[1].choices@.len() == 0
            &&& p[2].name@ == "touch_updated"@ && p[2].kind@ == "boolean"@ && p[2].choices@.len()
                == 0
            &&& p[0].description@ == "Absolute or ~-prefixed path to the file"@
            &&& p[1].description@ == "Key/value pairs to patch into the frontmatter"@
            &&& p[2].description@ == "Auto-set the `updated` timestamp (default: true)"@
            &&& tools[1].required@.len() == 2 && tools[1].required@[0]@ == "path"@
                && tools[1].required@[1]@ == "updates"@
        }),
        ({
            let p = tools[2].params@;
            &&& p.len() == 2
            &&& p[0].name@ == "path"@ && p[0].kind@ == "string"@ && p[0].choices@.len() == 0
            &&& p[1].name@ == "level"@ && p[1].kind@ == "string"@ && p[1].choices@.len() == 3
            &&& p[1].choices@[0]@ == "major"@ && p[1].choices@[1]@ == "minor"@
                && p[1].choices@[2]@ == "patch"@
            &&& p[0].description@ == "Absolute or ~-prefixed path to the file"@
            &&& p[1].description@ == "Version component to bump (default: patch)"@
            &&& tools[2].required@.len() == 1 && tools[2].required@[0]@ == "path"@
        }),
{
    let views = tools.map_values(|t: Tool| t@);
    assert(views.len() == 3);
    assert(views[0] == tools[0]@ && views[1] == tools[1]@ && views[2] == tools[2]@);
    lemma_tool_parts(tools[0], read_tool());
    lemma_tool_parts(tools[1], write_tool());
    lemma_tool_parts(tools[2], bump_tool());
}

proof fn lemma_tool_parts(tool: Tool, view: ToolView)
    requires
        tool@ == view,
    ensures
        tool.params@.len() == view.params.len(),
        forall|i: int|
            #![trigger tool.params@[i]]
            #![trigger view.params[i]]
            0 <= i < tool.params@.len() ==> tool.params@[i]@ == view.params[i]
                && tool.params@[i].choices@.len() == view.params[i].choices.len() && forall|j: int|
                0 <= j < view.params[i].choices.len() ==> (#[trigger] tool.params@[i].choices@[j])@
                    == view.params[i].choices[j],
        tool.required@.len() == view.required.len(),
        forall|i: int|
            0 <= i < tool.required@.len() ==> (#[trigger] tool.required@[i])@ == view.required[i],
{
    let params = tool.params@.map_values(|p: Param| p@);
    assert(params == view.params);
    assert forall|i: int| 0 <= i < tool.params@.len() implies (#[trigger] tool.params@[i])@
        == view.params[i] && tool.params@[i].choices@.len() == view.params[i].choices.len() && forall|
        j: int,
    |
        0 <= j < view.params[i].choices.len() ==> (#[trigger] tool.params@[i].choices@[j])@
            == view.params[i].choices[j] by {
        assert(params[i] == tool.params@[i]@);
        let choices = text_views(tool.params@[i].choices@);
        assert(choices == view.params[i].choices);
        assert forall|j: int| 0 <= j < choices.len() implies (#[trigger] tool.params@[i].choices@[j])@
            == choices[j] by {}
    }
    let required = text_views(tool.required@);
    assert forall|i: int| 0 <= i < required.len() implies (#[trigger] tool.required@[i])@
        == view.required[i] by {
        assert(required[i] == tool.required@[i]@);
    }
}

/// The schema of a tool is that of an object: it has the parameters by their names, each with its
/// type, its description and the values that there are, if not all are meant, and the list of those
/// that a call must give. It has nothing else.
pub proof fn schema_describes_the_tool(tool: Tool, i: int, name: Seq<char>)
    requires
        0 <= i < tool.params@.len(),
        forall|j: int| i < j < tool.params@.len() ==> (#[trigger] tool.params@[j]).name@
            != tool.params@[i].name@,
    ensures
        ({
            let whole = schema_tree(tool)->Object_0;
            let properties = whole["properties"@]->Object_0;
            let param = tool.params@[i];
            let property = properties[param.name@]->Object_0;
            &&& schema_tree(tool) is Object
            &&& whole.dom().contains(name) <==> name == "type"@ || name == "properties"@ || name
                == "required"@
            &&& whole["type"@] == JsonTree::Str("object"@)
            &&& whole["required"@] is List
            &&& whole["required"@]->List_0.len() == tool.required@.len()
            &&& forall|k: int|
                0 <= k < tool.required@.len() ==> #[trigger] whole["required"@]->List_0[k]
                    == JsonTree::Str(tool.required@[k]@)
            &&& whole["properties"@] is Object
            &&& properties.dom().contains(name) <==> exists|j: int|
                0 <= j < tool.params@.len() && (#[trigger] tool.params@[j]).name@ == name
            &&& properties[param.name@] is Object
            &&& property.dom().contains(name) <==> name == "type"@ || name == "description"@ || (name
                == "enum"@ && param.choices@.len() > 0)
            &&& property["type"@] == JsonTree::Str(param.kind@)
            &&& property["description"@] == JsonTree::Str(param.description@)
            &&& param.choices@.len() > 0 ==> property["enum"@] is List
                && property["enum"@]->List_0.len() == param.choices@.len() && forall|k: int|
                0 <= k < param.choices@.len() ==> #[trigger] property["enum"@]->List_0[k]
                    == JsonTree::Str(param.choices@[k]@)
        }),
{
    lemma_params_tree(tool.params@, i, name);
    reveal_strlit("type");
    reveal_strlit("description");
    reveal_strlit("enum");
    reveal_strlit("properties");
    reveal_strlit("required");
    assert("type"@[0] == 't' && "description"@[0] == 'd' && "enum"@[0] == 'e');
    assert("properties"@[0] == 'p' && "required"@[0] == 'r');
}

proof fn lemma_params_tree(params: Seq<Param>, i: int, name: Seq<char>)
    requires
        0 <= i < params.len(),
        forall|j: int| i < j < params.len() ==> (#[trigger] params[j]).name@ != params[i].name@,
    ensures
        params_tree(params)[params[i].name@] == param_tree(params[i]),
        params_tree(params).dom().contains(name) <==> exists|j: int|
            0 <= j < params.len() && (#[trigger] params[j]).name@ == name,
    decreases params.len(),
{
    lemma_param_names(params, name);
    if i < params.len() - 1 {
        let less = params.drop_last();
        assert(params[params.len() - 1].name@ != params[i].name@);
        assert forall|j: int| i < j < less.len() implies (#[trigger] less[j]).name@
            != less[i].name@ by {
            assert(less[j] == params[j]);
        }
        lemma_params_tree(less, i, name);
    }
}

proof fn lemma_param_names(params: Seq<Param>, name: Seq<char>)
    ensures
        params_tree(params).dom().contains(name) <==> exists|j: int|
            0 <= j < params.len() && (#[trigger] params[j]).name@ == name,
    decreases params.len(),
{
    if params.len() > 0 {
        let less = params.drop_last();
        lemma_param_names(less, name);
        if exists|j: int| 0 <= j < less.len() && (#[trigger] less[j]).name@ == name {
            let j = choose|j: int| 0 <= j < less.len() && (#[trigger] less[j]).name@ == name;
            assert(params[j].name@ == name);
        }
        if exists|j: int| 0 <= j < params.len() && (#[trigger] params[j]).name@ == name {
            let j = choose|j: int| 0 <= j < params.len() && (#[trigger] params[j]).name@ == name;
            if j < less.len() {
                assert(less[j].name@ == name);
            }
        }
        if params.last().name@ == name {
            assert(params[params.len() - 1].name@ == name);
        }
    }
}

} // verus!
