//! Paths as texts.

use crate::text;
use crate::text::chars_of;
use vstd::prelude::*;

verus! {

/// The directory of this program's files, below the user's own.
pub const APP_DIR: &'static str = "health-widget";

/// The path of `name`, which is relative, in the directory `dir`.
pub open spec fn join_of(dir: Seq<char>, name: Seq<char>) -> Seq<char> {
    if dir.len() == 0 {
        name
    } else if dir.last() == '/' {
        dir + name
    } else {
        dir + "/"@ + name
    }
}

/// A path begins with its directory, ends with its name, and has one slash
/// between them, whether the directory ends in one or not.
pub proof fn path_holds_both(dir: Seq<char>, name: Seq<char>)
    ensures
        dir.len() == 0 ==> join_of(dir, name) == name,
        dir.len() > 0 && dir.last() != '/' ==> join_of(dir, name) == dir + seq!['/'] + name
            && join_of(dir.push('/'), name) == join_of(dir, name),
{
    reveal_strlit("/");
    assert("/"@ =~= seq!['/']);
    assert(dir.push('/') + name =~= dir + seq!['/'] + name);
}

/// The path of `name`, which is relative, in the directory `dir`.
pub fn join(dir: &str, name: &str) -> (r: String)
    ensures
        r@ == join_of(dir@, name@),
{
    let chars = chars_of(dir);
    let mut path = dir.to_owned();
    if chars.len() > 0 && chars[chars.len() - 1] != '/' {
        path.append("/");
    }
    path.append(name);
    assert(path@ =~= join_of(dir@, name@));
    path
}

/// The path of `name` in this program's directory below `base`, where there is
/// one.
pub open spec fn in_app_of(base: Option<Seq<char>>, name: Seq<char>) -> Option<Seq<char>> {
    match base {
        Some(b) => Some(join_of(join_of(b, APP_DIR@), name)),
        None => None,
    }
}

/// The path of `name` in this program's directory below `base`.
pub fn in_app(base: Option<&str>, name: &str) -> (r: Option<String>)
    ensures
        text::opt_text(r) == in_app_of(text::opt_str(base), name@),
{
    match base {
        Some(b) => Some(join(join(b, APP_DIR).as_str(), name)),
        None => None,
    }
}

} // verus!
