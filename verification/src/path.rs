//! Where the file of a request is.

use vstd::prelude::*;

use crate::meta::key_view;
use crate::text::chars_of;

verus! {

/// A letter of ASCII.
pub open spec fn is_letter(c: char) -> bool {
    'a' <= c <= 'z' || 'A' <= c <= 'Z'
}

/// A path that says by itself where it starts: at the root, which a slash or a backslash stands
/// for, or on a drive, which a letter and a colon name.
pub open spec fn is_absolute(path: Seq<char>) -> bool {
    ||| path.len() > 0 && (path[0] == '/' || path[0] == '\\')
    ||| path.len() > 1 && is_letter(path[0]) && path[1] == ':'
}

/// The path with the home directory in place of `~` where it starts with `~/` and there is a home
/// directory.
pub open spec fn expanded(s: Seq<char>, home: Option<Seq<char>>) -> Seq<char> {
    match home {
        Some(home) => if s.len() >= 2 && s[0] == '~' && s[1] == '/' {
            home + s.skip(1)
        } else {
            s
        },
        None => s,
    }
}

/// The absolute path that `s` names: expanded, and from the directory `current` on where it is not
/// absolute by itself.
pub open spec fn path_spec(
    s: Seq<char>,
    home: Option<Seq<char>>,
    current: Seq<char>,
) -> Seq<char> {
    if is_absolute(expanded(s, home)) {
        expanded(s, home)
    } else {
        current.push('/') + expanded(s, home)
    }
}

/// Whether a path says by itself where it starts.
fn stands_alone(path: &str) -> (r: bool)
    ensures
        r == is_absolute(path@),
{
    let cs = chars_of(path);
    if cs.len() == 0 {
        return false;
    }
    let c = cs[0];
    c == '/' || c == '\\' || (cs.len() > 1 && (('a' <= c && c <= 'z') || ('A' <= c && c <= 'Z'))
        && cs[1] == ':')
}

/// The absolute path that `s` names, where `home` is the home directory, if there is one, and
/// `current` the current directory.
pub fn path_of(s: &str, home: Option<&str>, current: &str) -> (r: String)
    ensures
        r@ == path_spec(s@, key_view(home), current@),
        is_absolute(current@) ==> is_absolute(r@),
{
    let cs = chars_of(s);
    let mut path = String::new();
    let mut from: usize = 0;
    if let Some(home) = home {
        if cs.len() >= 2 && cs[0] == '~' && cs[1] == '/' {
            path.append(home);
            from = 1;
        }
    }
    let ghost start = path@;
    let mut i: usize = from;
    while i < cs.len()
        invariant
            from <= i <= cs@.len(),
            path@ == start + cs@.subrange(from as int, i as int),
        decreases cs@.len() - i,
    {
        path.push(cs[i]);
        i += 1;
        assert(path@ =~= start + cs@.subrange(from as int, i as int));
    }
    assert(path@ =~= expanded(s@, key_view(home)));
    if stands_alone(path.as_str()) {
        path
    } else {
        let mut out = current.to_owned();
        out.push('/');
        out.append(path.as_str());
        out
    }
}

/// A path that says by itself where it starts is taken as it is.
pub proof fn absolute_paths_stay(s: Seq<char>, home: Option<Seq<char>>, current: Seq<char>)
    requires
        is_absolute(s),
    ensures
        path_spec(s, home, current) == s,
{
}

/// A path below the home directory stays below it, however many slashes follow the tilde.
pub proof fn tilde_stays_below_home(tail: Seq<char>, home: Seq<char>, current: Seq<char>)
    requires
        is_absolute(home),
    ensures
        path_spec(seq!['~', '/'] + tail, Some(home), current) == home.push('/') + tail,
{
    assert(home + (seq!['~', '/'] + tail).skip(1) =~= home.push('/') + tail);
}

/// Which paths say by themselves where they start.
pub proof fn absolute_paths_by_form(s: Seq<char>)
    ensures
        s.len() > 0 && (s[0] == '/' || s[0] == '\\') ==> is_absolute(s),
        s.len() > 1 && s[1] == ':' && ('a' <= s[0] <= 'z' || 'A' <= s[0] <= 'Z') ==> is_absolute(s),
        is_absolute(s) ==> s.len() > 0 && (s[0] == '/' || s[0] == '\\' || (s.len() > 1 && s[1] == ':'
            && ('a' <= s[0] <= 'z' || 'A' <= s[0] <= 'Z'))),
{
}

/// Any other path starts at the current directory. A tilde and a slash stand for the home directory
/// only where there is one; no other tilde does.
pub proof fn relative_paths_start_at_the_current_directory(
    s: Seq<char>,
    tail: Seq<char>,
    home: Seq<char>,
    current: Seq<char>,
)
    ensures
        !is_absolute(s) ==> path_spec(s, None, current) == current + seq!['/'] + s,
        !is_absolute(s) && !(s.len() > 1 && s[0] == '~' && s[1] == '/') ==> path_spec(
            s,
            Some(home),
            current,
        ) == current + seq!['/'] + s,
        !is_absolute(home + seq!['/'] + tail) ==> path_spec(seq!['~', '/'] + tail, Some(home), current)
            == current + seq!['/'] + home + seq!['/'] + tail,
{
    assert(current.push('/') + s =~= current + seq!['/'] + s);
    let t = seq!['~', '/'] + tail;
    assert(home + t.skip(1) =~= home + seq!['/'] + tail);
    assert(current.push('/') + (home + t.skip(1)) =~= current + seq!['/'] + home + seq!['/'] + tail);
}

} // verus!
