//! Whether the screen is being shared.

use crate::audio;
use crate::audio::dump_objects;
use crate::json;
use crate::json::{Json, Tree};
use crate::text;
use crate::text::{chars_of, contains, lossy, same_str};
use vstd::prelude::*;

verus! {

/// Whether it can be found out: one of the two tools is there.
pub fn available(pw_dump: bool, busctl: bool) -> (r: bool)
    ensures
        r == (pw_dump || busctl),
{
    pw_dump || busctl
}

/// An object that is a running stream of the screen.
pub open spec fn is_screencast(o: Tree) -> bool {
    json::text_field_of(o, "type"@) == Some("PipeWire:Interface:Node"@) && match json::field_of(o, "info"@) {
        Some(info) => json::text_field_of(info, "state"@) == Some("running"@) && match json::field_of(
            info,
            "props"@,
        ) {
            Some(props) => json::text_field_of(props, "media.class"@) == Some("Stream/Output/Video"@),
            None => false,
        },
        None => false,
    }
}

/// A stream of the screen counts while it runs, and nothing else does.
pub proof fn only_running_streams_count(o: Tree)
    ensures
        is_screencast(o) ==> json::field_of(o, "type"@) == Some(
            Tree::Text("PipeWire:Interface:Node"@),
        ) && (json::field_of(o, "info"@) matches Some(info) && json::field_of(info, "state"@)
            == Some(Tree::Text("running"@)) && (json::field_of(info, "props"@) matches Some(props)
            && json::field_of(props, "media.class"@) == Some(Tree::Text("Stream/Output/Video"@)))),
        forall|info: Tree, props: Tree|
            json::field_of(o, "type"@) == Some(Tree::Text("PipeWire:Interface:Node"@))
                && json::field_of(o, "info"@) == Some(info) && json::field_of(info, "state"@)
                == Some(Tree::Text("running"@)) && json::field_of(info, "props"@) == Some(props)
                && #[trigger] json::field_of(props, "media.class"@) == Some(
                Tree::Text("Stream/Output/Video"@),
            ) && #[trigger] json::field_of(info, "props"@) is Some ==> is_screencast(o),
{
}

/// The screen counts as shared wherever a session of either kind is listed,
/// whatever is listed around it, and one stream among the objects is enough.
pub proof fn one_sign_is_enough(a: Seq<char>, b: Seq<char>, objs: Seq<Tree>, i: int)
    ensures
        has_session(a + "/org/gnome/Mutter/ScreenCast/Session"@ + b),
        has_session(a + "/org/gnome/Mutter/RemoteDesktop/Session"@ + b),
        0 <= i < objs.len() && is_screencast(objs[i]) ==> any_screencast(objs),
        !any_screencast(Seq::empty()),
{
    text::parts_are_found(a, "/org/gnome/Mutter/ScreenCast/Session"@, b);
    text::parts_are_found(a, "/org/gnome/Mutter/RemoteDesktop/Session"@, b);
}

/// One of the objects is a running stream of the screen.
pub open spec fn any_screencast(objs: Seq<Tree>) -> bool {
    exists|i: int| 0 <= i < objs.len() && is_screencast(#[trigger] objs[i])
}

fn is_text(o: &Json, key: &str, value: &str) -> (r: bool)
    ensures
        r == (json::text_field_of(o@, key@) == Some(value@)),
{
    match o.text_field(key) {
        Some(t) => same_str(t, value),
        None => false,
    }
}

fn screencast(o: &Json) -> (r: bool)
    ensures
        r == is_screencast(o@),
{
    if !is_text(o, "type", "PipeWire:Interface:Node") {
        return false;
    }
    match o.get("info") {
        Some(info) => is_text(info, "state", "running") && match info.get("props") {
            Some(props) => is_text(props, "media.class", "Stream/Output/Video"),
            None => false,
        },
        None => false,
    }
}

/// Whether one of the objects is a running stream of the screen.
pub fn objects_show_screencast(objs: &Vec<Json>) -> (r: bool)
    ensures
        r == any_screencast(json::trees(objs@)),
{
    let ghost all = json::trees(objs@);
    let mut i: usize = 0;
    while i < objs.len()
        invariant
            i <= objs@.len(),
            all == json::trees(objs@),
            forall|k: int| 0 <= k < i ==> !is_screencast(#[trigger] all[k]),
        decreases objs.len() - i,
    {
        assert(all[i as int] == objs@[i as int]@);
        if screencast(&objs[i]) {
            return true;
        }
        i = i + 1;
    }
    false
}

/// A tree of the other desktop's services that has a session.
pub open spec fn has_session(tree: Seq<char>) -> bool {
    text::contains_of(tree, "/org/gnome/Mutter/ScreenCast/Session"@) || text::contains_of(
        tree,
        "/org/gnome/Mutter/RemoteDesktop/Session"@,
    )
}

/// Whether the tree of the other desktop's services has a session.
pub fn mutter_screencast_active(tree: &str) -> (r: bool)
    ensures
        r == has_session(tree@),
{
    let chars = chars_of(tree);
    contains(chars.as_slice(), chars_of("/org/gnome/Mutter/ScreenCast/Session").as_slice())
        || contains(
        chars.as_slice(),
        chars_of("/org/gnome/Mutter/RemoteDesktop/Session").as_slice(),
    )
}

/// Whether the screen is being shared, from what the two tools printed; nothing
/// of one that failed.
pub fn screencast_active(objects: Option<&[u8]>, tree: Option<&[u8]>) -> (r: bool)
    ensures
        r == (any_screencast(audio::objects_in(audio::opt_bytes(objects))) || match tree {
            Some(bytes) => has_session(text::lossy_of(bytes@)),
            None => false,
        }),
{
    if objects_show_screencast(&dump_objects(objects)) {
        return true;
    }
    match tree {
        Some(bytes) => mutter_screencast_active(lossy(bytes).as_str()),
        None => false,
    }
}

} // verus!
