//! The counts that a smart speaker is told.

use crate::clock::{Duration, SECOND};
use crate::json;
use crate::json::{Json, Tree};
use crate::paths;
use crate::pilot_summary::Summary;
use crate::telemetry;
use crate::text;
use crate::text::{chars_of, lossy, trimmed};
use vstd::prelude::*;

verus! {

/// Counts that have not changed are told again after so many seconds.
pub const HEARTBEAT_SECS: u64 = 1200;

/// Where the counts are sent, and the word that lets them in.
#[derive(Debug, PartialEq)]
pub struct Cfg {
    pub url: String,
    pub token: String,
}

/// Where the settings are kept, below the user's configuration.
pub fn cfg_path(config_dir: Option<&str>) -> (r: Option<String>)
    ensures
        text::opt_text(r) == paths::in_app_of(text::opt_str(config_dir), "alice.json"@),
{
    paths::in_app(config_dir, "alice.json")
}

/// The settings in a document: both fields are texts that are not empty.
pub open spec fn cfg_of(doc: Tree) -> Option<(Seq<char>, Seq<char>)> {
    match (json::text_field_of(doc, "url"@), json::text_field_of(doc, "token"@)) {
        (Some(url), Some(token)) => if url.len() > 0 && token.len() > 0 {
            Some((url, token))
        } else {
            None
        },
        _ => None,
    }
}

/// There are settings only where both are texts that say something, and each is
/// the one of its name.
pub proof fn both_settings_are_needed(doc: Tree, url: Seq<char>, token: Seq<char>)
    ensures
        json::field_of(doc, "url"@) == Some(Tree::Text(url)) && json::field_of(doc, "token"@)
            == Some(Tree::Text(token)) && url.len() > 0 && token.len() > 0 <==> cfg_of(doc)
            == Some((url, token)) && url.len() > 0 && token.len() > 0,
        json::field_of(doc, "url"@) == Some(Tree::Text(Seq::empty())) ==> cfg_of(doc) is None,
        json::field_of(doc, "token"@) == Some(Tree::Text(Seq::empty())) ==> cfg_of(doc) is None,
        json::field_of(doc, "url"@) is None || json::field_of(doc, "token"@) is None ==> cfg_of(doc)
            is None,
{
}

/// The settings in a document.
pub fn read_cfg(doc: &Json) -> (r: Option<Cfg>)
    ensures
        match r {
            Some(c) => cfg_of(doc@) == Some((c.url@, c.token@)),
            None => cfg_of(doc@) is None,
        },
{
    match doc.text_field("url") {
        Some(url) => match doc.text_field("token") {
            Some(token) => if chars_of(url).len() > 0 && chars_of(token).len() > 0 {
                Some(Cfg { url: url.to_owned(), token: token.to_owned() })
            } else {
                None
            },
            None => None,
        },
        None => None,
    }
}

/// The settings in the text of a file.
pub fn parse_cfg(raw: &str) -> (r: Option<Cfg>)
    ensures
        match r {
            Some(c) => json::document_of(raw@) matches Some(doc) && cfg_of(doc) == Some(
                (c.url@, c.token@),
            ),
            None => json::document_of(raw@) matches Some(doc) ==> cfg_of(doc) is None,
        },
{
    match json::read(raw) {
        Some(doc) => read_cfg(&doc),
        None => None,
    }
}

/// The applications of today in all profiles.
pub open spec fn applied_sum(sums: Seq<Summary>) -> int
    decreases sums.len(),
{
    if sums.len() == 0 {
        0
    } else {
        applied_sum(sums.drop_last()) + sums.last().applied_today
    }
}

/// The limits of all profiles.
pub open spec fn limit_sum(sums: Seq<Summary>) -> int
    decreases sums.len(),
{
    if sums.len() == 0 {
        0
    } else {
        limit_sum(sums.drop_last()) + sums.last().daily_limit
    }
}

/// Every profile counts, once: its applications to the applications and its limit
/// to the limits.
pub proof fn every_profile_counts(a: Seq<Summary>, s: Summary, b: Seq<Summary>)
    ensures
        applied_sum(a + seq![s] + b) == applied_sum(a) + s.applied_today + applied_sum(b),
        limit_sum(a + seq![s] + b) == limit_sum(a) + s.daily_limit + limit_sum(b),
        applied_sum(Seq::empty()) == 0 && limit_sum(Seq::empty()) == 0,
    decreases b.len(),
{
    let all = a + seq![s] + b;
    if b.len() > 0 {
        every_profile_counts(a, s, b.drop_last());
        assert(all.drop_last() =~= a + seq![s] + b.drop_last());
    } else {
        assert(all.drop_last() =~= a);
    }
}

/// The sums can be counted, from the first profile to the last.
pub open spec fn countable(sums: Seq<Summary>) -> bool {
    forall|i: int|
        0 <= i <= sums.len() ==> i64::MIN <= applied_sum(#[trigger] sums.take(i)) <= i64::MAX
            && i64::MIN <= limit_sum(sums.take(i)) <= i64::MAX
}

/// The applications of today and their limit, in all profiles; nothing where
/// there is none.
pub fn totals(sums: &[Summary]) -> (r: Option<(i64, i64)>)
    requires
        countable(sums@),
    ensures
        match r {
            Some((applied, limit)) => sums@.len() > 0 && applied == applied_sum(sums@) && limit
                == limit_sum(sums@),
            None => sums@.len() == 0,
        },
{
    if sums.len() == 0 {
        return None;
    }
    let mut applied: i64 = 0;
    let mut limit: i64 = 0;
    let mut i: usize = 0;
    assert(sums@.take(0) =~= Seq::empty());
    while i < sums.len()
        invariant
            i <= sums@.len(),
            countable(sums@),
            applied == applied_sum(sums@.take(i as int)),
            limit == limit_sum(sums@.take(i as int)),
        decreases sums.len() - i,
    {
        assert(sums@.take(i + 1).drop_last() =~= sums@.take(i as int));
        assert(sums@.take(i + 1).last() == sums@[i as int]);
        applied = applied + sums[i].applied_today;
        limit = limit + sums[i].daily_limit;
        i = i + 1;
    }
    assert(sums@.take(sums@.len() as int) =~= sums@);
    Some((applied, limit))
}

pub open spec fn pushes_of(prev: Option<i64>, cur: i64, since_last: int) -> bool {
    match prev {
        None => true,
        Some(p) => p != cur || since_last >= HEARTBEAT_SECS * SECOND,
    }
}

/// A change is told at once, and what has not changed every twenty minutes, not
/// more often.
pub proof fn changes_are_told_at_once(prev: i64, cur: i64, since_last: int)
    ensures
        pushes_of(None, cur, since_last),
        prev != cur ==> pushes_of(Some(prev), cur, since_last),
        pushes_of(Some(cur), cur, since_last) <==> since_last >= 20 * 60 * 1_000_000_000,
{
}

/// Whether the count is told: the first one, one that has changed, and one that
/// has not after twenty minutes.
pub fn should_push(prev: Option<i64>, cur: i64, since_last: Duration) -> (r: bool)
    ensures
        r == pushes_of(prev, cur, since_last@),
{
    match prev {
        None => true,
        Some(p) => p != cur || since_last.at_least(HEARTBEAT_SECS),
    }
}

/// What is sent.
pub open spec fn body_of(token: Seq<char>, applied: i64, limit: i64, date: Seq<char>) -> Tree {
    Tree::Object(
        json::object_of(
            seq![
                ("token"@, Tree::Text(token)),
                ("applied_today"@, telemetry::number_of(applied as int)),
                ("daily_limit"@, telemetry::number_of(limit as int)),
                ("date"@, Tree::Text(date)),
            ],
        ),
    )
}

/// What is sent: the token, the counts and the date.
pub fn body(cfg: &Cfg, applied: i64, limit: i64, date: &str) -> (r: String)
    ensures
        r@ == json::written_of(body_of(cfg.token@, applied, limit, date@)),
        json::document_of(r@) == Some(body_of(cfg.token@, applied, limit, date@)),
{
    let mut pairs: Vec<(String, Json)> = Vec::new();
    pairs.push(("token".to_owned(), telemetry::text(cfg.token.as_str())));
    pairs.push(("applied_today".to_owned(), telemetry::number(applied)));
    pairs.push(("daily_limit".to_owned(), telemetry::number(limit)));
    pairs.push(("date".to_owned(), telemetry::text(date)));
    let ghost all = seq![
        ("token"@, Tree::Text(cfg.token@)),
        ("applied_today"@, telemetry::number_of(applied as int)),
        ("daily_limit"@, telemetry::number_of(limit as int)),
        ("date"@, Tree::Text(date@)),
    ];
    assert(json::entries(pairs@) =~= all);
    proof {
        assert forall|i: int| 0 <= i < all.len() implies json::proper((#[trigger] all[i]).1)
            && json::whole(all[i].1) && json::nested(all[i].1, 99) by {}
        json::object_is_whole(all, 100);
    }
    assert forall|i: int| 0 <= i < pairs@.len() implies json::proper(
        (#[trigger] pairs@[i]).1@,
    ) by {
        assert(all[i].1 == pairs@[i].1@);
    }
    json::write(&json::object(pairs))
}

/// The date that the clock's tool printed, nothing where it failed.
pub fn today(printed: Option<&[u8]>) -> (r: String)
    ensures
        r@ == match printed {
            Some(bytes) => text::trim_of(text::lossy_of(bytes@)),
            None => Seq::empty(),
        },
{
    match printed {
        Some(bytes) => trimmed(lossy(bytes).as_str()),
        None => {
            let s = String::new();
            assert(s@ =~= Seq::empty());
            s
        },
    }
}

} // verus!
