//! What can be asked of a file, and how it is answered from the text of that file.

use vstd::prelude::*;

use crate::clock::{now_str, stamp};
use crate::error::{MetaError, MetaFault};
use crate::frontmatter::document_entries;
use crate::json::{json_pretty, json_text, to_pretty, to_text};
use crate::meta::{
    bump_gives, checked_bump_version_at, key_view, read_meta, read_meta_typed, read_spec,
    read_typed_spec, updates_of, version_overflows, write_gives, write_meta_at,
};
use crate::text::around;
use crate::value::{push_member, Json, JsonTree};

verus! {

/// A request.
#[derive(Debug, PartialEq)]
pub enum Request {
    /// Read the front matter of the file at `path`, or of it the value of one key.
    Read { path: String, key: Option<String>, typed: bool },
    /// Set keys in the front matter of the file at `path`.
    Write { path: String, updates: Vec<(String, Json)>, touch_updated: bool },
    /// Raise the version in the front matter of the file at `path`.
    Bump { path: String, level: String },
}

/// What a [`Request`] is.
pub enum RequestView {
    Read { path: Seq<char>, key: Option<Seq<char>>, typed: bool },
    Write { path: Seq<char>, updates: Seq<(String, Json)>, touch_updated: bool },
    Bump { path: Seq<char>, level: Seq<char> },
}

impl View for Request {
    type V = RequestView;

    open spec fn view(&self) -> RequestView {
        match self {
            Request::Read { path, key, typed } => RequestView::Read {
                path: path@,
                key: text_view(*key),
                typed: *typed,
            },
            Request::Write { path, updates, touch_updated } => RequestView::Write {
                path: path@,
                updates: updates@,
                touch_updated: *touch_updated,
            },
            Request::Bump { path, level } => RequestView::Bump { path: path@, level: level@ },
        }
    }
}

impl RequestView {
    /// The path of the file that the request is about.
    pub open spec fn path(self) -> Seq<char> {
        match self {
            RequestView::Read { path, .. } => path,
            RequestView::Write { path, .. } => path,
            RequestView::Bump { path, .. } => path,
        }
    }
}

impl Request {
    /// The path of the file that the request is about.
    pub fn path(&self) -> (r: &str)
        ensures
            r@ == self@.path(),
    {
        match self {
            Request::Read { path, .. } => path.as_str(),
            Request::Write { path, .. } => path.as_str(),
            Request::Bump { path, .. } => path.as_str(),
        }
    }
}

/// The characters of a text, if there is one.
pub open spec fn text_view(s: Option<String>) -> Option<Seq<char>> {
    match s {
        Some(s) => Some(s@),
        None => None,
    }
}

/// What came of a request.
#[derive(Debug, PartialEq)]
pub enum Done {
    /// What was read.
    Read(Json),
    /// The new text of the file.
    Written(String),
    /// The new version, and the new text of the file.
    Bumped(String, String),
}

/// What comes of a request to a file with the text `text` at the time `now`.
pub open spec fn perform_gives(
    request: Request,
    text: Seq<char>,
    now: Seq<char>,
    r: Result<Done, MetaError>,
) -> bool {
    match request {
        Request::Read { key, typed, .. } => {
            let read = if typed {
                read_typed_spec(text, text_view(key))
            } else {
                read_spec(text, text_view(key))
            };
            match r {
                Ok(Done::Read(v)) => read == Some(v@),
                Ok(_) => false,
                Err(e) => read is None && e@ == MetaFault::InvalidYaml,
            }
        },
        Request::Write { updates, touch_updated, .. } => {
            let time = if touch_updated {
                Some(now)
            } else {
                None
            };
            match r {
                Ok(Done::Written(written)) => write_gives(
                    text,
                    updates_of(updates@, time),
                    Ok(written),
                ),
                Ok(_) => false,
                Err(e) => write_gives(text, updates_of(updates@, time), Err(e)),
            }
        },
        Request::Bump { level, .. } => match r {
            Ok(Done::Bumped(version, written)) => bump_gives(text, level@, now, Ok((version, written))),
            Ok(_) => false,
            Err(e) => bump_gives(text, level@, now, Err(e)),
        },
    }
}

/// The request would raise the version of the file beyond 64 bits.
pub open spec fn request_overflows(request: Request, text: Seq<char>) -> bool {
    match request {
        Request::Bump { level, .. } => version_overflows(text, level@),
        _ => false,
    }
}

/// `key`, borrowed.
fn as_key(key: &Option<String>) -> (r: Option<&str>)
    ensures
        key_view(r) == text_view(*key),
{
    match key {
        Some(key) => Some(key.as_str()),
        None => None,
    }
}

/// Does what a request asks, for a file with the text `text` at the time `now`. `None` where it
/// would raise a version beyond 64 bits.
pub fn perform_at(request: Request, text: &str, now: &str) -> (r: Option<Result<Done, MetaError>>)
    ensures
        match r {
            Some(r) => !request_overflows(request, text@) && perform_gives(request, text@, now@, r),
            None => request_overflows(request, text@),
        },
{
    match request {
        Request::Read { path, key, typed } => {
            let read = if typed {
                read_meta_typed(text, as_key(&key))
            } else {
                read_meta(text, as_key(&key))
            };
            Some(
                match read {
                    Ok(v) => Ok(Done::Read(v)),
                    Err(e) => Err(e),
                },
            )
        },
        Request::Write { path, updates, touch_updated } => {
            let time = if touch_updated {
                Some(now)
            } else {
                None
            };
            Some(
                match write_meta_at(text, updates, time) {
                    Ok(written) => Ok(Done::Written(written)),
                    Err(e) => Err(e),
                },
            )
        },
        Request::Bump { path, level } => match checked_bump_version_at(text, level.as_str(), now) {
            Some(Ok((version, written))) => Some(Ok(Done::Bumped(version, written))),
            Some(Err(e)) => Some(Err(e)),
            None => None,
        },
    }
}

/// What comes of the request rests on the time.
pub open spec fn timed(request: Request) -> bool {
    match request {
        Request::Read { .. } => false,
        Request::Write { touch_updated, .. } => touch_updated,
        Request::Bump { .. } => true,
    }
}

/// As [`perform_at`], at the local time where the request rests on it.
pub fn perform(request: Request, text: &str) -> (r: Option<Result<Done, MetaError>>)
    ensures
        match r {
            Some(r) => {
                &&& !request_overflows(request, text@)
                &&& timed(request) ==> exists|now: Seq<char>|
                    #[trigger] stamp(now) && perform_gives(request, text@, now, r)
                &&& !timed(request) ==> forall|now: Seq<char>|
                    #[trigger] perform_gives(request, text@, now, r)
            },
            None => request_overflows(request, text@),
        },
{
    let needs_time = match &request {
        Request::Read { .. } => false,
        Request::Write { touch_updated, .. } => *touch_updated,
        Request::Bump { .. } => true,
    };
    if needs_time {
        let now = now_str();
        assert(stamp(now@));
        perform_at(request, text, now.as_str())
    } else {
        perform_at(request, text, "")
    }
}

/// What the answer to a tool call holds: what was read, `{"ok": true}` after a write, and
/// `{"version": ...}` after a bump.
pub open spec fn outcome(done: Done) -> JsonTree {
    match done {
        Done::Read(v) => v@,
        Done::Written(_) => JsonTree::Object(map!["ok"@ => JsonTree::Bool(true)]),
        Done::Bumped(version, _) => JsonTree::Object(
            map!["version"@ => JsonTree::Str(version@)],
        ),
    }
}

/// The answer to a tool call.
pub fn tool_text(done: Done) -> (r: String)
    ensures
        r@ == json_pretty(outcome(done)),
{
    let mut members: Vec<(String, Json)> = Vec::new();
    match done {
        Done::Read(v) => to_pretty(v),
        Done::Written(_) => {
            push_member(&mut members, "ok", Json::Bool(true));
            to_pretty(Json::Object(members))
        },
        Done::Bumped(version, _) => {
            push_member(&mut members, "version", Json::String(version));
            to_pretty(Json::Object(members))
        },
    }
}

/// The line that the command line prints.
pub open spec fn line_spec(done: Done) -> Seq<char> {
    match done {
        Done::Read(v) => json_text(v@),
        Done::Written(_) => "{\"ok\":true}"@,
        Done::Bumped(version, _) => "{\"version\":\""@ + version@ + "\"}"@,
    }
}

/// The line that the command line prints. It is one line of text; a version has no line feed.
pub fn output_line(done: Done) -> (r: String)
    ensures
        r@ == line_spec(done),
        (done matches Done::Bumped(version, _) ==> !version@.contains('\n')) ==> !r@.contains('\n'),
{
    proof {
        reveal_strlit("{\"ok\":true}");
        reveal_strlit("{\"version\":\"");
        reveal_strlit("\"}");
    }
    match done {
        Done::Read(v) => to_text(v),
        Done::Written(_) => "{\"ok\":true}".to_owned(),
        Done::Bumped(version, _) => around("{\"version\":\"", version.as_str(), "\"}"),
    }
}

/// Reading gives the value that is read of the key, or of the whole front matter without one, with
/// types exactly where they are asked for, and changes nothing. It fails only on what is no YAML.
pub proof fn read_requests_read(
    path: String,
    key: Option<String>,
    typed: bool,
    text: Seq<char>,
    now: Seq<char>,
    r: Result<Done, MetaError>,
)
    requires
        perform_gives(Request::Read { path, key, typed }, text, now, r),
    ensures
        document_entries(text) is None ==> (r matches Err(MetaError::InvalidYaml(_))),
        document_entries(text) is Some ==> match r {
            Ok(Done::Read(v)) => {
                &&& key is None && !typed ==> read_spec(text, None) == Some(v@)
                &&& key is None && typed ==> read_typed_spec(text, None) == Some(v@)
                &&& key is Some && !typed ==> read_spec(text, Some(key->0@)) == Some(v@)
                &&& key is Some && typed ==> read_typed_spec(text, Some(key->0@)) == Some(v@)
            },
            _ => false,
        },
{
}

/// Writing gives the new text of the file after the very updates that were given, with the time
/// exactly where it is asked for.
pub proof fn write_requests_write(
    path: String,
    updates: Vec<(String, Json)>,
    touch_updated: bool,
    text: Seq<char>,
    now: Seq<char>,
    r: Result<Done, MetaError>,
)
    requires
        perform_gives(Request::Write { path, updates, touch_updated }, text, now, r),
    ensures
        match r {
            Ok(Done::Written(written)) => {
                &&& touch_updated ==> write_gives(text, updates_of(updates@, Some(now)), Ok(written))
                &&& !touch_updated ==> write_gives(text, updates_of(updates@, None), Ok(written))
            },
            Ok(_) => false,
            Err(e) => {
                &&& touch_updated ==> write_gives(text, updates_of(updates@, Some(now)), Err(e))
                &&& !touch_updated ==> write_gives(text, updates_of(updates@, None), Err(e))
            },
        },
{
}

/// Bumping gives the new version and the new text of the file.
pub proof fn bump_requests_bump(
    path: String,
    level: String,
    text: Seq<char>,
    now: Seq<char>,
    r: Result<Done, MetaError>,
)
    requires
        perform_gives(Request::Bump { path, level }, text, now, r),
    ensures
        match r {
            Ok(Done::Bumped(version, written)) => bump_gives(text, level@, now, Ok((version, written))),
            Ok(_) => false,
            Err(e) => bump_gives(text, level@, now, Err(e)),
        },
        request_overflows(Request::Bump { path, level }, text) <==> version_overflows(text, level@),
{
}

/// Only a bump can raise a version beyond 64 bits, and only a read, or a write without the time,
/// does not rest on the time.
pub proof fn requests_by_kind(request: Request, text: Seq<char>)
    ensures
        request is Read ==> !timed(request) && !request_overflows(request, text),
        request is Write ==> !request_overflows(request, text) && (timed(request) <==>
            request->touch_updated),
        request is Bump ==> timed(request),
        match request {
            Request::Read { path, .. } => request@.path() == path@,
            Request::Write { path, .. } => request@.path() == path@,
            Request::Bump { path, .. } => request@.path() == path@,
        },
{
}

/// What a tool call answers and what the command line prints: the value that was read, that a write
/// is done, or the new version.
pub proof fn answers_say_what_was_done(done: Done, name: Seq<char>)
    ensures
        done matches Done::Read(v) ==> outcome(done) == v@ && line_spec(done) == json_text(v@),
        done is Written ==> {
            &&& outcome(done) is Object
            &&& outcome(done)->Object_0.dom().contains(name) <==> name == "ok"@
            &&& outcome(done)->Object_0["ok"@] == JsonTree::Bool(true)
            &&& line_spec(done) == "{\"ok\":true}"@
        },
        done matches Done::Bumped(version, _) ==> {
            &&& outcome(done) is Object
            &&& outcome(done)->Object_0.dom().contains(name) <==> name == "version"@
            &&& outcome(done)->Object_0["version"@] == JsonTree::Str(version@)
            &&& line_spec(done) == "{\"version\":\""@ + version@ + "\"}"@
        },
{
}

} // verus!
