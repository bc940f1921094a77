//! The command line.

use vstd::prelude::*;
use vstd::slice::slice_subrange;

use crate::json::{json_object, parse_object};
use crate::meta::key_view;
use crate::request::{Request, RequestView};
use crate::text::{around, chars_of, same};
use crate::value::{member_map, member_trees, members_in_order, precedes, Json, JsonTree};

verus! {

/// How the program is called.
pub const USAGE: &'static str = "frontmatter — surgical YAML frontmatter patcher for Markdown/Obsidian files

USAGE:
  frontmatter read  <path> [--key KEY]
  frontmatter write <path> <json_object> [--no-touch-updated]
  frontmatter bump  <path> [--level major|minor|patch]
  frontmatter serve                         (run as MCP server on stdio)

Symlink or rename the binary to end in `-mcp` to start directly in MCP mode.
All output is JSON on stdout. Non-zero exit on error.";

/// What the command line asks for.
#[derive(Debug, PartialEq)]
pub enum Command {
    /// To say how the program is called.
    Help,
    /// To do something.
    Run(Request),
}

/// Why a command line is refused.
#[derive(Debug)]
pub enum CliError {
    /// `read` lacks its path.
    ReadUsage,
    /// `write` lacks its path or its updates.
    WriteUsage,
    /// `bump` lacks its path.
    BumpUsage,
    /// The updates are no JSON object.
    Updates(serde_json::Error),
    /// There is no such subcommand.
    Unknown(String),
}

/// What a [`CliError`] says.
pub enum CliFault {
    ReadUsage,
    WriteUsage,
    BumpUsage,
    Updates,
    Unknown(Seq<char>),
}

/// What a [`Command`] is.
pub enum CommandView {
    Help,
    Run(RequestView),
}

impl View for CliError {
    type V = CliFault;

    open spec fn view(&self) -> CliFault {
        match self {
            CliError::ReadUsage => CliFault::ReadUsage,
            CliError::WriteUsage => CliFault::WriteUsage,
            CliError::BumpUsage => CliFault::BumpUsage,
            CliError::Updates(_) => CliFault::Updates,
            CliError::Unknown(name) => CliFault::Unknown(name@),
        }
    }
}

impl View for Command {
    type V = CommandView;

    open spec fn view(&self) -> CommandView {
        match self {
            Command::Help => CommandView::Help,
            Command::Run(request) => CommandView::Run(request@),
        }
    }
}

/// The message about a command line that is refused.
pub open spec fn cli_message(e: CliFault) -> Seq<char> {
    match e {
        CliFault::ReadUsage => "usage: frontmatter read <path> [--key KEY]"@,
        CliFault::WriteUsage => "usage: frontmatter write <path> <json_object> [--no-touch-updated]"@,
        CliFault::BumpUsage => "usage: frontmatter bump <path> [--level major|minor|patch]"@,
        CliFault::Updates => "updates must be a JSON object"@,
        CliFault::Unknown(name) => "unknown subcommand '"@ + name + "'\n\n"@ + USAGE@,
    }
}

impl CliError {
    /// What is wrong with the command line, in words.
    pub fn message(&self) -> (r: String)
        ensures
            r@ == cli_message(self@),
    {
        match self {
            CliError::ReadUsage => "usage: frontmatter read <path> [--key KEY]".to_owned(),
            CliError::WriteUsage =>
                "usage: frontmatter write <path> <json_object> [--no-touch-updated]".to_owned(),
            CliError::BumpUsage =>
                "usage: frontmatter bump <path> [--level major|minor|patch]".to_owned(),
            CliError::Updates(_) => "updates must be a JSON object".to_owned(),
            CliError::Unknown(name) => {
                let mut out = around("unknown subcommand '", name.as_str(), "'\n\n");
                out.append(USAGE);
                out
            },
        }
    }
}

/// The words of a command line.
pub open spec fn words(args: Seq<String>) -> Seq<Seq<char>> {
    args.map_values(|s: String| s@)
}

/// The first of `args` that is `flag` or `short` is the one at `i`.
pub open spec fn flag_at(args: Seq<Seq<char>>, flag: Seq<char>, short: Seq<char>, i: int) -> bool {
    &&& 0 <= i < args.len()
    &&& args[i] == flag || args[i] == short
    &&& forall|j: int| 0 <= j < i ==> args[j] != flag && args[j] != short
}

/// What follows the first of `args` that is `flag` or `short`.
pub open spec fn flag_spec(args: Seq<Seq<char>>, flag: Seq<char>, short: Seq<char>) -> Option<Seq<char>> {
    if exists|i: int| flag_at(args, flag, short, i) {
        let i = choose|i: int| flag_at(args, flag, short, i);
        if i + 1 < args.len() {
            Some(args[i + 1])
        } else {
            None
        }
    } else {
        None
    }
}

/// The value of a flag: what follows the first of `args` that is `flag` or `short`.
pub fn flag_val<'a>(args: &'a [String], flag: &str, short: &str) -> (r: Option<&'a str>)
    ensures
        match r {
            Some(value) => flag_spec(words(args@), flag@, short@) == Some(value@),
            None => flag_spec(words(args@), flag@, short@) is None,
        },
{
    let n = args.len();
    let ghost ws = words(args@);
    let mut i: usize = 0;
    while i < n
        invariant
            i <= n == args@.len(),
            ws == words(args@),
            forall|j: int| 0 <= j < i ==> ws[j] != flag@ && ws[j] != short@,
        decreases n - i,
    {
        if same(args[i].as_str(), flag) || same(args[i].as_str(), short) {
            proof {
                assert(flag_at(ws, flag@, short@, i as int));
                let c = choose|c: int| flag_at(ws, flag@, short@, c);
                assert(c == i);
            }
            return if i + 1 < n {
                Some(args[i + 1].as_str())
            } else {
                None
            };
        }
        i += 1;
    }
    None
}

/// Whether `word` is among `args`.
fn has_word(args: &[String], word: &str) -> (r: bool)
    ensures
        r == words(args@).contains(word@),
{
    let n = args.len();
    let ghost ws = words(args@);
    let mut i: usize = 0;
    while i < n
        invariant
            i <= n == args@.len(),
            ws == words(args@),
            forall|j: int| 0 <= j < i ==> ws[j] != word@,
        decreases n - i,
    {
        if same(args[i].as_str(), word) {
            assert(ws[i as int] == word@);
            return true;
        }
        i += 1;
    }
    false
}

/// Why the words of a command line are refused, if they are.
pub open spec fn refusal(args: Seq<Seq<char>>) -> Option<CliFault> {
    if args.len() == 0 || args[0] == "--help"@ || args[0] == "-h"@ {
        None
    } else if args[0] == "read"@ {
        if args.len() < 2 {
            Some(CliFault::ReadUsage)
        } else {
            None
        }
    } else if args[0] == "write"@ {
        if args.len() < 3 {
            Some(CliFault::WriteUsage)
        } else if json_object(args[2]) is None {
            Some(CliFault::Updates)
        } else {
            None
        }
    } else if args[0] == "bump"@ {
        if args.len() < 2 {
            Some(CliFault::BumpUsage)
        } else {
            None
        }
    } else {
        Some(CliFault::Unknown(args[0]))
    }
}

/// `updates` are the members of the object that a text writes, sorted by their names.
pub open spec fn writes_updates(text: Seq<char>, updates: Seq<(String, Json)>) -> bool {
    json_object(text) == Some(member_map(member_trees(updates))) && members_in_order(updates)
}

/// The words of a command line that is not refused ask for `command`.
pub open spec fn asks_for(args: Seq<Seq<char>>, command: Command) -> bool {
    if args.len() == 0 || args[0] == "--help"@ || args[0] == "-h"@ {
        command is Help
    } else if args[0] == "read"@ {
        command@ == CommandView::Run(
            RequestView::Read {
                path: args[1],
                key: flag_spec(args.skip(2), "--key"@, "-k"@),
                typed: false,
            },
        )
    } else if args[0] == "write"@ {
        match command {
            Command::Run(Request::Write { path, updates, touch_updated }) => {
                &&& path@ == args[1]
                &&& writes_updates(args[2], updates@)
                &&& touch_updated == !args.contains("--no-touch-updated"@)
            },
            _ => false,
        }
    } else {
        command@ == CommandView::Run(
            RequestView::Bump {
                path: args[1],
                level: match flag_spec(args.skip(2), "--level"@, "-l"@) {
                    Some(level) => level,
                    None => "patch"@,
                },
            },
        )
    }
}

/// What the command line `args`, without the name of the program, asks for. Whether it asks for
/// the server is decided before, by [`mcp_mode`].
pub fn parse_command(args: &[String]) -> (r: Result<Command, CliError>)
    requires
        args@.len() > 0 ==> args@[0]@ != "serve"@,
    ensures
        match r {
            Ok(command) => refusal(words(args@)) is None && asks_for(words(args@), command),
            Err(e) => refusal(words(args@)) == Some(e@),
        },
{
    let n = args.len();
    if n == 0 {
        return Ok(Command::Help);
    }
    let name = args[0].as_str();
    assert(words(args@)[0] == name@);
    if same(name, "--help") || same(name, "-h") {
        Ok(Command::Help)
    } else if same(name, "read") {
        if n < 2 {
            return Err(CliError::ReadUsage);
        }
        let rest = slice_subrange(args, 2, n);
        assert(words(rest@) =~= words(args@).skip(2));
        let key = match flag_val(rest, "--key", "-k") {
            Some(key) => Some(key.to_owned()),
            None => None,
        };
        Ok(Command::Run(Request::Read { path: args[1].as_str().to_owned(), key, typed: false }))
    } else if same(name, "write") {
        if n < 3 {
            return Err(CliError::WriteUsage);
        }
        match parse_object(args[2].as_str()) {
            Ok(updates) => Ok(
                Command::Run(
                    Request::Write {
                        path: args[1].as_str().to_owned(),
                        updates,
                        touch_updated: !has_word(args, "--no-touch-updated"),
                    },
                ),
            ),
            Err(e) => Err(CliError::Updates(e)),
        }
    } else if same(name, "bump") {
        if n < 2 {
            return Err(CliError::BumpUsage);
        }
        let rest = slice_subrange(args, 2, n);
        assert(words(rest@) =~= words(args@).skip(2));
        let level = match flag_val(rest, "--level", "-l") {
            Some(level) => level.to_owned(),
            None => "patch".to_owned(),
        };
        Ok(Command::Run(Request::Bump { path: args[1].as_str().to_owned(), level }))
    } else {
        Err(CliError::Unknown(name.to_owned()))
    }
}

/// The program runs as a server: its name, without an extension, ends in `-mcp`, or its first
/// argument is `serve`.
pub open spec fn mcp_mode_spec(binary: Seq<char>, first: Option<Seq<char>>) -> bool {
    ||| binary.len() >= 4 && binary.skip(binary.len() - 4) == seq!['-', 'm', 'c', 'p']
    ||| first == Some("serve"@)
}

/// Whether the program runs as a server.
pub fn mcp_mode(binary: &str, first: Option<&str>) -> (r: bool)
    ensures
        r == mcp_mode_spec(binary@, key_view(first)),
{
    let cs = chars_of(binary);
    let n = cs.len();
    let named = n >= 4 && cs[n - 4] == '-' && cs[n - 3] == 'm' && cs[n - 2] == 'c' && cs[n - 1] == 'p';
    proof {
        if n >= 4 {
            let end = binary@.skip(n - 4);
            assert(end[0] == cs@[n - 4] && end[1] == cs@[n - 3]);
            assert(end[2] == cs@[n - 2] && end[3] == cs@[n - 1]);
            if named {
                assert(end =~= seq!['-', 'm', 'c', 'p']);
            }
        }
    }
    let asked = match first {
        Some(first) => same(first, "serve"),
        None => false,
    };
    named || asked
}

/// The first word from `from` on that is `flag` or `short` is the one at `i`.
pub open spec fn first_flag(
    args: Seq<String>,
    from: int,
    flag: Seq<char>,
    short: Seq<char>,
    i: int,
) -> bool {
    &&& from <= i < args.len()
    &&& args[i]@ == flag || args[i]@ == short
    &&& forall|j: int| from <= j < i ==> (#[trigger] args[j])@ != flag && args[j]@ != short
}

/// What a command line gives.
pub open spec fn command_line_gives(args: Seq<String>, r: Result<Command, CliError>) -> bool {
    match r {
        Ok(command) => refusal(words(args)) is None && asks_for(words(args), command),
        Err(e) => refusal(words(args)) == Some(e@),
    }
}

/// The value of a flag is the word behind its first occurrence, whether that has its long form or
/// its short one, and there is none where no word follows or no word is the flag.
pub proof fn flags_take_the_next_word(
    args: Seq<String>,
    from: int,
    flag: Seq<char>,
    short: Seq<char>,
)
    requires
        0 <= from <= args.len(),
    ensures
        forall|i: int| #[trigger]
            first_flag(args, from, flag, short, i) ==> flag_spec(words(args).skip(from), flag, short)
                == if i + 1 < args.len() {
                Some(args[i + 1]@)
            } else {
                None
            },
        (forall|i: int| from <= i < args.len() ==> (#[trigger] args[i])@ != flag && args[i]@ != short)
            ==> flag_spec(words(args).skip(from), flag, short) is None,
{
    let ws = words(args).skip(from);
    assert(forall|i: int| 0 <= i < ws.len() ==> #[trigger] ws[i] == args[from + i]@);
    assert forall|i: int| #[trigger] first_flag(args, from, flag, short, i) implies flag_spec(
        ws,
        flag,
        short,
    ) == if i + 1 < args.len() {
        Some(args[i + 1]@)
    } else {
        None
    } by {
        assert(flag_at(ws, flag, short, i - from));
        let c = choose|c: int| flag_at(ws, flag, short, c);
        assert(c == i - from);
    }
    if exists|i: int| flag_at(ws, flag, short, i) {
        let i = choose|i: int| flag_at(ws, flag, short, i);
        assert(args[from + i]@ == ws[i]);
    }
}

proof fn lemma_commands()
    ensures
        "read"@ != "write"@,
        "read"@ != "bump"@,
        "write"@ != "bump"@,
        "--help"@ != "read"@,
        "--help"@ != "write"@,
        "--help"@ != "bump"@,
        "-h"@ != "read"@,
        "-h"@ != "write"@,
        "-h"@ != "bump"@,
{
    reveal_strlit("read");
    reveal_strlit("write");
    reveal_strlit("bump");
    reveal_strlit("--help");
    reveal_strlit("-h");
    assert("read"@[0] == 'r' && "write"@[0] == 'w' && "bump"@[0] == 'b');
    assert("--help"@[0] == '-' && "-h"@[0] == '-');
}

/// `read` asks to read the file that the next word names: the value of the key that follows `--key`
/// or `-k`, or all of it. Types are not told. Without a path it is refused.
pub proof fn read_commands_read(args: Seq<String>, r: Result<Command, CliError>)
    requires
        command_line_gives(args, r),
        args.len() > 0,
        args[0]@ == "read"@,
    ensures
        args.len() == 1 ==> (r matches Err(CliError::ReadUsage)),
        args.len() > 1 ==> match r {
            Ok(Command::Run(Request::Read { path, key, typed })) => {
                &&& path@ == args[1]@
                &&& !typed
                &&& forall|i: int| #[trigger]
                    first_flag(args, 2, "--key"@, "-k"@, i) ==> if i + 1 < args.len() {
                        key is Some && key->0@ == args[i + 1]@
                    } else {
                        key is None
                    }
                &&& (forall|i: int|
                    2 <= i < args.len() ==> (#[trigger] args[i])@ != "--key"@ && args[i]@ != "-k"@)
                    ==> key is None
            },
            _ => false,
        },
{
    lemma_commands();
    assert(words(args)[0] == args[0]@);
    if args.len() > 1 {
        assert(words(args)[1] == args[1]@);
        flags_take_the_next_word(args, 2, "--key"@, "-k"@);
    }
}

/// `write` asks to set what the JSON object in the third word holds in the file that the second word
/// names, and the time unless a word is `--no-touch-updated`. What is no JSON object is refused, and
/// so are too few words.
pub proof fn write_commands_write(args: Seq<String>, r: Result<Command, CliError>)
    requires
        command_line_gives(args, r),
        args.len() > 0,
        args[0]@ == "write"@,
    ensures
        args.len() < 3 ==> (r matches Err(CliError::WriteUsage)),
        args.len() >= 3 && json_object(args[2]@) is None ==> (r matches Err(CliError::Updates(_))),
        args.len() >= 3 ==> (json_object(args[2]@) matches Some(members) ==> match r {
            Ok(Command::Run(Request::Write { path, updates, touch_updated })) => {
                &&& path@ == args[1]@
                &&& Json::Object(updates)@ == JsonTree::Object(members)
                &&& forall|i: int, j: int|
                    0 <= i < j < updates@.len() ==> (#[trigger] updates@[i]).0@ != (
                    #[trigger] updates@[j]).0@
                &&& touch_updated <==> forall|i: int|
                    0 <= i < args.len() ==> (#[trigger] args[i])@ != "--no-touch-updated"@
            },
            _ => false,
        }),
{
    lemma_commands();
    let ws = words(args);
    assert(ws[0] == args[0]@);
    if args.len() >= 3 {
        assert(ws[1] == args[1]@ && ws[2] == args[2]@);
        assert(forall|i: int| 0 <= i < args.len() ==> #[trigger] ws[i] == args[i]@);
        if ws.contains("--no-touch-updated"@) {
            let i = choose|i: int| 0 <= i < ws.len() && ws[i] == "--no-touch-updated"@;
            assert(args[i]@ == "--no-touch-updated"@);
        } else {
            assert forall|i: int| 0 <= i < args.len() implies (#[trigger] args[i])@
                != "--no-touch-updated"@ by {
                assert(ws[i] == args[i]@);
            }
        }
        if let Ok(Command::Run(Request::Write { path, updates, touch_updated })) = r {
            assert forall|i: int, j: int| 0 <= i < j < updates@.len() implies (
            #[trigger] updates@[i]).0@ != (#[trigger] updates@[j]).0@ by {
                assert(precedes(updates@[i].0@, updates@[j].0@));
                let a = updates@[i].0@;
                let b = updates@[j].0@;
                let k = choose|k: int|
                    0 <= k <= a.len() && k < b.len() && #[trigger] a.take(k) == b.take(k) && (k
                        == a.len() || a[k] < b[k]);
            }
        }
    }
}

/// `bump` asks to raise the version in the file that the next word names, at the level that follows
/// `--level` or `-l` and otherwise at level `patch`. Without a path it is refused.
pub proof fn bump_commands_bump(args: Seq<String>, r: Result<Command, CliError>)
    requires
        command_line_gives(args, r),
        args.len() > 0,
        args[0]@ == "bump"@,
    ensures
        args.len() == 1 ==> (r matches Err(CliError::BumpUsage)),
        args.len() > 1 ==> match r {
            Ok(Command::Run(Request::Bump { path, level })) => {
                &&& path@ == args[1]@
                &&& forall|i: int| #[trigger]
                    first_flag(args, 2, "--level"@, "-l"@, i) ==> level@ == if i + 1 < args.len() {
                        args[i + 1]@
                    } else {
                        "patch"@
                    }
                &&& (forall|i: int|
                    2 <= i < args.len() ==> (#[trigger] args[i])@ != "--level"@ && args[i]@ != "-l"@)
                    ==> level@ == "patch"@
            },
            _ => false,
        },
{
    lemma_commands();
    assert(words(args)[0] == args[0]@);
    if args.len() > 1 {
        assert(words(args)[1] == args[1]@);
        flags_take_the_next_word(args, 2, "--level"@, "-l"@);
    }
}

/// Without words, and behind `--help` or `-h`, the program says how it is called. Any other first
/// word is refused, and the message names it.
pub proof fn other_commands_do_nothing(args: Seq<String>, r: Result<Command, CliError>)
    requires
        command_line_gives(args, r),
        args.len() > 0 ==> args[0]@ != "read"@ && args[0]@ != "write"@ && args[0]@ != "bump"@,
    ensures
        args.len() == 0 || args[0]@ == "--help"@ || args[0]@ == "-h"@ ==> (r matches Ok(Command::Help)),
        args.len() > 0 && args[0]@ != "--help"@ && args[0]@ != "-h"@ ==> (r matches Err(
            CliError::Unknown(name),
        ) && name@ == args[0]@),
{
    if args.len() > 0 {
        assert(words(args)[0] == args[0]@);
    }
}

/// The messages about a command line that is refused.
pub proof fn cli_messages_say_what_is_wrong(name: Seq<char>)
    ensures
        cli_message(CliFault::ReadUsage) == "usage: frontmatter read <path> [--key KEY]"@,
        cli_message(CliFault::WriteUsage)
            == "usage: frontmatter write <path> <json_object> [--no-touch-updated]"@,
        cli_message(CliFault::BumpUsage)
            == "usage: frontmatter bump <path> [--level major|minor|patch]"@,
        cli_message(CliFault::Updates) == "updates must be a JSON object"@,
        cli_message(CliFault::Unknown(name)) == "unknown subcommand '"@ + name + "'\n\n"@ + USAGE@,
{
}

/// The program serves exactly where its name ends in `-mcp` or its first argument is `serve`.
pub proof fn the_server_runs_by_name_or_argument(stem: Seq<char>, first: Option<Seq<char>>)
    ensures
        mcp_mode_spec(stem + "-mcp"@, first),
        mcp_mode_spec(stem, Some("serve"@)),
        mcp_mode_spec(stem, first) && first != Some("serve"@) ==> stem.len() >= 4 && stem[stem.len() - 4]
            == '-' && stem[stem.len() - 3] == 'm' && stem[stem.len() - 2] == 'c' && stem[stem.len() - 1]
            == 'p',
{
    reveal_strlit("-mcp");
    let named = stem + "-mcp"@;
    assert(named.skip(named.len() - 4) =~= seq!['-', 'm', 'c', 'p']);
    if stem.len() >= 4 {
        let end = stem.skip(stem.len() - 4);
        assert(end[0] == stem[stem.len() - 4] && end[1] == stem[stem.len() - 3]);
        assert(end[2] == stem[stem.len() - 2] && end[3] == stem[stem.len() - 1]);
    }
}

} // verus!
