//! Whether the autopilot sends notices.

use crate::json;
use crate::json::{Json, Tree};
use crate::paths;
use crate::paths::join;
use vstd::prelude::*;

verus! {

/// The file of the switch, in the autopilot's directory for data.
pub const FLAG_FILE: &'static str = "notify.json";

/// The path of the switch.
pub fn flag_path(data_dir: &str) -> (r: String)
    ensures
        r@ == paths::join_of(data_dir@, FLAG_FILE@),
{
    join(data_dir, FLAG_FILE)
}

/// The switch in a document: on where it does not say.
pub open spec fn enabled_of(document: Option<Tree>) -> bool {
    match document {
        Some(t) => match json::field_of(t, "enabled"@) {
            Some(v) => match json::bool_of(v) {
                Some(b) => b,
                None => true,
            },
            None => true,
        },
        None => true,
    }
}

/// The switch in a document.
pub fn enabled(document: Option<&Json>) -> (r: bool)
    ensures
        r == enabled_of(
            match document {
                Some(j) => Some(j@),
                None => None,
            },
        ),
{
    match document {
        Some(j) => match j.get("enabled") {
            Some(v) => match v.as_bool() {
                Some(b) => b,
                None => true,
            },
            None => true,
        },
        None => true,
    }
}

/// Whether notices are sent, from what the switch's file holds: they are where
/// there is no file, or it does not say.
pub fn read_enabled(source: Option<&str>) -> (r: bool)
    ensures
        r == match source {
            Some(s) => enabled_of(json::document_of(s@)),
            None => true,
        },
{
    match source {
        Some(s) => match json::read(s) {
            Some(j) => enabled(Some(&j)),
            None => true,
        },
        None => true,
    }
}

/// The switch as a document.
pub open spec fn flag_of(value: bool) -> Tree {
    Tree::Object(json::object_of(seq![("enabled"@, Tree::Bool(value))]))
}

/// The switch that was set is the switch that is read.
pub proof fn flag_reads_back(value: bool)
    ensures
        enabled_of(Some(flag_of(value))) == value,
        json::proper(flag_of(value)) && json::whole(flag_of(value)) && json::nested(
            flag_of(value),
            100,
        ),
{
    let pairs = seq![("enabled"@, Tree::Bool(value))];
    let none = Seq::<(Seq<char>, Tree)>::empty();
    assert(pairs.drop_last() =~= none);
    assert(json::object_of(none) =~= none);
    json::put_then_lookup(none, "enabled"@, Tree::Bool(value), "enabled"@);
    assert forall|i: int| 0 <= i < pairs.len() implies json::proper((#[trigger] pairs[i]).1)
        && json::whole(pairs[i].1) && json::nested(pairs[i].1, 99) by {}
    json::object_is_proper(pairs);
    json::object_is_whole(pairs, 100);
}

proof fn lemma_flag_text(value: bool)
    ensures
        json::plain_text(flag_of(value)) == Some(
            if value {
                "{\"enabled\":true}"@
            } else {
                "{\"enabled\":false}"@
            },
        ),
{
    let pairs = seq![("enabled"@, Tree::Bool(value))];
    let none = Seq::<(Seq<char>, Tree)>::empty();
    assert(pairs.drop_last() =~= none);
    assert(json::object_of(none) =~= none);
    assert(json::object_of(pairs) =~= pairs);
    reveal_strlit("enabled");
    reveal_strlit("{");
    reveal_strlit("}");
    reveal_strlit("\"");
    reveal_strlit("\":");
    reveal_strlit("true");
    reveal_strlit("false");
    reveal_strlit("{\"enabled\":true}");
    reveal_strlit("{\"enabled\":false}");
    assert(json::bare("enabled"@));
    assert(json::entries_text(none) == Some(Seq::<char>::empty()));
    let written = json::plain_text(flag_of(value))->Some_0;
    if value {
        assert(written =~= "{\"enabled\":true}"@);
    } else {
        assert(written =~= "{\"enabled\":false}"@);
    }
}

/// What the switch's file holds once it is set: reading it gives the value back.
pub fn set_enabled(value: bool) -> (r: String)
    ensures
        r@ == if value {
            "{\"enabled\":true}"@
        } else {
            "{\"enabled\":false}"@
        },
        enabled_of(json::document_of(r@)) == value,
{
    let mut pairs: Vec<(String, Json)> = Vec::new();
    pairs.push(("enabled".to_owned(), Json::Bool(value)));
    assert(json::entries(pairs@) =~= seq![("enabled"@, Tree::Bool(value))]);
    proof {
        flag_reads_back(value);
        lemma_flag_text(value);
    }
    json::write(&json::object(pairs))
}

} // verus!
