use std::path::PathBuf;

use frontmatter_mcp::cli::{flag_val, mcp_mode, parse_command, CliError, Command, USAGE};
use frontmatter_mcp::error::MetaError;
use frontmatter_mcp::json::{json_of, members_of, parse_bytes, parse_object, to_bytes, to_pretty, to_text};
use frontmatter_mcp::path_of;
use frontmatter_mcp::request::{output_line, perform, perform_at, tool_text, Done, Request};
use frontmatter_mcp::tools::{dispatch, schema, tool_list, Call};
use frontmatter_mcp::value::Json;

const NOW: &str = "2026-02-03 04:05:06";

fn text(s: &str) -> Json {
    Json::String(s.to_owned())
}

fn args(list: &[&str]) -> Vec<String> {
    list.iter().map(|s| s.to_string()).collect()
}

fn pairs(list: Vec<(&str, Json)>) -> Vec<(String, Json)> {
    list.into_iter().map(|(name, value)| (name.to_owned(), value)).collect()
}

fn read(path: &str, key: Option<&str>, typed: bool) -> Request {
    Request::Read { path: path.to_owned(), key: key.map(str::to_owned), typed }
}

#[test]
fn path_of_expands_home() {
    let p = path_of("~/notes/foo.md", Some("/home/test"), "/");
    assert_eq!(PathBuf::from(p), PathBuf::from("/home/test/notes/foo.md"));
}

#[test]
fn paths_are_absolute() {
    let home = Some("/home/test");
    assert_eq!(path_of("notes/foo.md", home, "/work"), "/work/notes/foo.md");
    assert_eq!(path_of("/a/~/b", home, "/work"), "/a/~/b");
    assert_eq!(path_of("~/a", None, "/work"), "/work/~/a");
    assert_eq!(path_of("~", home, "/work"), "/work/~");
    assert_eq!(path_of("~user/a", home, "/work"), "/work/~user/a");
    assert_eq!(path_of("~//etc/x", home, "/work"), "/home/test//etc/x");
    assert_eq!(path_of("~/a", Some("rel"), "/work"), "/work/rel/a");
    assert_eq!(path_of("", home, "/work"), "/work/");
    // Paths that name a drive or a root of Windows stand by themselves.
    for path in ["C:\\notes\\a.md", "c:/notes/a.md", "C:a.md", "\\\\server\\share\\a.md", "\\a.md"] {
        assert_eq!(path_of(path, home, "C:\\work"), path);
        assert_eq!(path_of(path, home, "/work"), path);
    }
    assert_eq!(path_of("~/a.md", Some("C:\\Users\\test"), "D:\\work"), "C:\\Users\\test/a.md");
    assert_eq!(path_of("notes/1:2.md", home, "/work"), "/work/notes/1:2.md");
    assert_eq!(path_of("1:2.md", home, "/work"), "/work/1:2.md");
}

#[test]
fn flags_take_what_follows() {
    let list = args(&["x", "-k", "a", "--key", "b"]);
    assert_eq!(flag_val(&list, "--key", "-k"), Some("a"));
    assert_eq!(flag_val(&list[2..], "--key", "-k"), Some("b"));
    assert_eq!(flag_val(&list, "--level", "-l"), None);
    assert_eq!(flag_val(&list[..4], "--key", "b"), None);
    assert_eq!(flag_val(&[], "--key", "-k"), None);
}

#[test]
fn read_command() {
    assert_eq!(
        parse_command(&args(&["read", "~/a.md", "--key", "status"])).unwrap(),
        Command::Run(read("~/a.md", Some("status"), false))
    );
    assert_eq!(
        parse_command(&args(&["read", "--key", "status"])).unwrap(),
        Command::Run(read("--key", None, false))
    );
    let e = parse_command(&args(&["read"])).unwrap_err();
    assert!(matches!(e, CliError::ReadUsage));
    assert_eq!(e.message(), "usage: frontmatter read <path> [--key KEY]");
}

#[test]
fn write_command() {
    let write = |touch_updated: bool| {
        Command::Run(Request::Write {
            path: "a.md".to_owned(),
            updates: pairs(vec![("arc", Json::Number(2.into())), ("status", text("published"))]),
            touch_updated,
        })
    };
    let json = "{\"status\": \"published\", \"arc\": 2}";
    assert_eq!(parse_command(&args(&["write", "a.md", json])).unwrap(), write(true));
    assert_eq!(
        parse_command(&args(&["write", "a.md", json, "--no-touch-updated"])).unwrap(),
        write(false)
    );
    let e = parse_command(&args(&["write", "a.md", "[1]"])).unwrap_err();
    assert!(matches!(e, CliError::Updates(_)));
    assert_eq!(e.message(), "updates must be a JSON object");
    let e = parse_command(&args(&["write", "a.md"])).unwrap_err();
    assert!(matches!(e, CliError::WriteUsage));
    assert_eq!(e.message(), "usage: frontmatter write <path> <json_object> [--no-touch-updated]");
}

#[test]
fn bump_command() {
    let bump = |level: &str| {
        Command::Run(Request::Bump { path: "a.md".to_owned(), level: level.to_owned() })
    };
    assert_eq!(parse_command(&args(&["bump", "a.md"])).unwrap(), bump("patch"));
    assert_eq!(parse_command(&args(&["bump", "a.md", "--level", "minor"])).unwrap(), bump("minor"));
    assert_eq!(parse_command(&args(&["bump", "a.md", "-l"])).unwrap(), bump("patch"));
    let e = parse_command(&args(&["bump"])).unwrap_err();
    assert!(matches!(e, CliError::BumpUsage));
    assert_eq!(e.message(), "usage: frontmatter bump <path> [--level major|minor|patch]");
}

#[test]
fn help_and_unknown_commands() {
    assert_eq!(parse_command(&[]).unwrap(), Command::Help);
    assert_eq!(parse_command(&args(&["--help", "read"])).unwrap(), Command::Help);
    assert_eq!(parse_command(&args(&["-h"])).unwrap(), Command::Help);
    let e = parse_command(&args(&["list"])).unwrap_err();
    assert!(matches!(&e, CliError::Unknown(name) if name == "list"));
    assert_eq!(e.message(), format!("unknown subcommand 'list'\n\n{USAGE}"));
    assert!(USAGE.starts_with("frontmatter — surgical YAML"));
    assert!(USAGE.ends_with("Non-zero exit on error."));
    assert_eq!(USAGE.lines().count(), 10);
}

#[test]
fn server_mode() {
    assert!(mcp_mode("frontmatter-mcp", None));
    assert!(mcp_mode("-mcp", Some("read")));
    assert!(mcp_mode("frontmatter", Some("serve")));
    assert!(!mcp_mode("frontmatter", Some("read")));
    assert!(!mcp_mode("frontmatter-mcp2", None));
    assert!(!mcp_mode("mcp", None));
    assert!(!mcp_mode("", None));
}

#[test]
fn requests_are_performed() {
    let doc = "---\na: 1\nversion: 1.2.3\n---\nbody";
    let done = perform_at(read("p", Some("a"), false), doc, NOW).unwrap().unwrap();
    assert_eq!(done, Done::Read(Json::Number(1.into())));
    assert_eq!(output_line(done), "1");
    let done = perform_at(read("p", Some("a"), true), doc, NOW).unwrap().unwrap();
    assert_eq!(tool_text(done), "{\n  \"type\": \"integer\",\n  \"value\": 1\n}");
    let done = perform_at(read("p", None, false), doc, NOW).unwrap().unwrap();
    assert_eq!(output_line(done), "{\"a\":1,\"version\":\"1.2.3\"}");

    let write = |touch_updated: bool| Request::Write {
        path: "p".to_owned(),
        updates: pairs(vec![("a", text("x"))]),
        touch_updated,
    };
    let done = perform_at(write(false), doc, NOW).unwrap().unwrap();
    assert_eq!(done, Done::Written("---\na: x\nversion: 1.2.3\n---\nbody".to_owned()));
    assert_eq!(output_line(done), "{\"ok\":true}");
    let done = perform_at(write(true), doc, NOW).unwrap().unwrap();
    assert_eq!(
        done,
        Done::Written(format!("---\na: x\nversion: 1.2.3\nupdated: {NOW}\n---\nbody"))
    );
    assert_eq!(tool_text(done), "{\n  \"ok\": true\n}");

    let bump = |level: &str| Request::Bump { path: "p".to_owned(), level: level.to_owned() };
    let done = perform_at(bump("minor"), doc, NOW).unwrap().unwrap();
    let new = format!("---\na: 1\nversion: 1.3.0\nupdated: {NOW}\n---\nbody");
    assert_eq!(done, Done::Bumped("1.3.0".to_owned(), new));
    assert_eq!(output_line(done), "{\"version\":\"1.3.0\"}");
    let done = perform(bump("major"), doc).unwrap().unwrap();
    assert_eq!(tool_text(done), "{\n  \"version\": \"2.0.0\"\n}");
    assert!(matches!(perform(bump("huge"), doc), Some(Err(MetaError::Semver(_)))));
    assert!(perform(bump("patch"), "---\nversion: 0.0.18446744073709551615\n---\n").is_none());
    assert!(matches!(
        perform(read("p", None, false), "---\na: [\n---\n"),
        Some(Err(MetaError::InvalidYaml(_)))
    ));
    assert_eq!(bump("x").path(), "p");
    assert_eq!(write(true).path(), "p");
    assert_eq!(read("p", None, true).path(), "p");
}

#[test]
fn tool_calls_ask_for_requests() {
    assert_eq!(
        dispatch("read_meta", pairs(vec![("path", text("p"))])),
        Call::Run(read("p", None, false))
    );
    assert_eq!(
        dispatch(
            "read_meta",
            pairs(vec![("path", text("p")), ("key", text("k")), ("typed", Json::Bool(true))])
        ),
        Call::Run(read("p", Some("k"), true))
    );
    // Arguments of another kind count as none.
    assert_eq!(
        dispatch(
            "read_meta",
            pairs(vec![("path", text("p")), ("key", Json::Null), ("typed", text("true"))])
        ),
        Call::Run(read("p", None, false))
    );
    let write = |touch_updated: bool| {
        Call::Run(Request::Write {
            path: "p".to_owned(),
            updates: pairs(vec![("a", Json::Null)]),
            touch_updated,
        })
    };
    let updates = || Json::Object(pairs(vec![("a", Json::Null)]));
    assert_eq!(
        dispatch("write_meta", pairs(vec![("path", text("p")), ("updates", updates())])),
        write(true)
    );
    assert_eq!(
        dispatch(
            "write_meta",
            pairs(vec![
                ("path", text("p")),
                ("updates", updates()),
                ("touch_updated", Json::Bool(false))
            ])
        ),
        write(false)
    );
    let bump = |level: &str| {
        Call::Run(Request::Bump { path: "p".to_owned(), level: level.to_owned() })
    };
    assert_eq!(dispatch("bump_version", pairs(vec![("path", text("p"))])), bump("patch"));
    assert_eq!(
        dispatch("bump_version", pairs(vec![("path", text("p")), ("level", text("huge"))])),
        bump("huge")
    );
}

#[test]
fn tool_calls_keep_the_order_of_updates() {
    let updates = || pairs(vec![("z", Json::Null), ("a", Json::Null)]);
    let call = dispatch(
        "write_meta",
        pairs(vec![("path", text("p")), ("updates", Json::Object(updates()))]),
    );
    let Call::Run(request) = call else {
        panic!("not run");
    };
    let Some(Ok(Done::Written(doc))) = perform_at(request, "---\nb: 1\n---\n", NOW) else {
        panic!("not written");
    };
    assert_eq!(doc, format!("---\nb: 1\nz: null\na: null\nupdated: {NOW}\n---\n"));
}

#[test]
fn defaults_can_be_written_out() {
    let ask = |name: &str, option: Option<(&str, Json)>| {
        let mut args = vec![("path", text("p")), ("updates", Json::Object(vec![]))];
        args.extend(option);
        dispatch(name, pairs(args))
    };
    for (name, option, default) in [
        ("read_meta", "typed", false),
        ("write_meta", "touch_updated", true),
    ] {
        assert_eq!(ask(name, Some((option, Json::Bool(default)))), ask(name, None));
        assert_eq!(ask(name, Some((option, Json::Null))), ask(name, None));
        assert_ne!(ask(name, Some((option, Json::Bool(!default)))), ask(name, None));
    }
    assert_eq!(ask("bump_version", Some(("level", text("patch")))), ask("bump_version", None));
    assert_eq!(ask("bump_version", Some(("level", Json::Bool(true)))), ask("bump_version", None));
}

#[test]
fn bad_tool_calls_are_refused() {
    for name in ["read_meta", "write_meta", "bump_version"] {
        let refused = Call::Refused("missing required argument 'path'".to_owned());
        assert_eq!(dispatch(name, vec![]), refused);
        assert_eq!(dispatch(name, pairs(vec![("path", Json::Null)])), refused);
    }
    let refused =
        Call::Refused("missing or invalid argument 'updates' (must be an object)".to_owned());
    assert_eq!(dispatch("write_meta", pairs(vec![("path", text("p"))])), refused);
    assert_eq!(
        dispatch("write_meta", pairs(vec![("path", text("p")), ("updates", Json::Array(vec![]))])),
        refused
    );
    assert_eq!(
        dispatch("delete_meta", vec![]),
        Call::Unknown("unknown tool 'delete_meta'".to_owned())
    );
}

#[test]
fn offered_tools() {
    let tools = tool_list();
    let names: Vec<&str> = tools.iter().map(|t| t.name).collect();
    assert_eq!(names, ["read_meta", "write_meta", "bump_version"]);
    assert!(tools[0].description.contains("wrapped as {\"value\": ..., \"type\": \"<type>\""));
    assert!(tools[0].description.contains("string, array, object — and items_type"));
    assert!(tools[1].description.starts_with("Patch YAML frontmatter keys in a Markdown file. Only"));
    assert!(tools[2].description.ends_with("timestamp. Returns {\"version\": \"<new_version>\"}."));
    assert_eq!(
        to_text(schema(&tools[2])),
        "{\"properties\":{\"level\":{\"description\":\"Version component to bump (default: patch)\",\
         \"enum\":[\"major\",\"minor\",\"patch\"],\"type\":\"string\"},\
         \"path\":{\"description\":\"Absolute or ~-prefixed path to the file\",\"type\":\"string\"}},\
         \"required\":[\"path\"],\"type\":\"object\"}"
    );
    assert_eq!(
        to_text(schema(&tools[1])),
        "{\"properties\":{\"path\":{\"description\":\"Absolute or ~-prefixed path to the file\",\
         \"type\":\"string\"},\"touch_updated\":{\"description\":\
         \"Auto-set the `updated` timestamp (default: true)\",\"type\":\"boolean\"},\
         \"updates\":{\"description\":\"Key/value pairs to patch into the frontmatter\",\
         \"type\":\"object\"}},\"required\":[\"path\",\"updates\"],\"type\":\"object\"}"
    );
    // A tool that is offered is known, and refuses a call without what it requires.
    for tool in &tools {
        assert!(matches!(dispatch(tool.name, vec![]), Call::Refused(_)));
        assert!(tool.required.iter().all(|name| tool.params.iter().any(|p| p.name == *name)));
    }
}

#[test]
fn json_text_goes_in_and_out() {
    let source = "{\"a\":[null,true,-1,1.5,\"x\\\"\\n\"],\"b\":{\"c\":{}}}";
    let value = || parse_bytes(source.as_bytes()).unwrap();
    assert_eq!(to_text(value()), source);
    assert_eq!(to_bytes(value()), source.as_bytes());
    assert_eq!(parse_object(source).map(Json::Object).unwrap(), value());
    assert_eq!(to_pretty(parse_bytes(b"{\"a\":[1]}").unwrap()), "{\n  \"a\": [\n    1\n  ]\n}");
    assert_eq!(parse_bytes(b"{"), None);
    assert!(parse_object("[]").is_err());
    assert_eq!(json_of(serde_json::Value::from(vec![1, 2])), parse_bytes(b"[1,2]").unwrap());
    assert_eq!(members_of(serde_json::Map::new()), vec![]);
    let names: Vec<String> = parse_object("{\"b\":1,\"a\":{},\"B\":2,\"é\":3,\"ab\":4}")
        .unwrap()
        .into_iter()
        .map(|m| m.0)
        .collect();
    assert_eq!(names, ["B", "a", "ab", "b", "é"]);
    assert!(!to_text(text("a\nb")).contains('\n'));
    // Of two members with one name the later one counts.
    assert_eq!(to_text(Json::Object(pairs(vec![("a", Json::Null), ("a", Json::Bool(true))]))), "{\"a\":true}");
}
