//! What the autopilot has done, as it sums it up.

use crate::text;
use crate::text::{chars_of, lines, push_to, starts, string_of, trim_start};
use vstd::prelude::*;

verus! {

/// A count since the last look, and in all.
#[derive(Debug, Clone, Copy, PartialEq, Eq)]
pub struct Counter {
    pub turn: i64,
    pub total: i64,
}

/// A group of searches, and how many new finds it has.
#[derive(Debug, PartialEq)]
pub struct Group {
    pub name: String,
    pub new: i64,
}

/// What the autopilot has done.
#[derive(Debug, PartialEq)]
pub struct Summary {
    pub applied: Counter,
    pub replies: Counter,
    pub captcha: Counter,
    pub forms: Counter,
    pub http_403: Counter,
    pub expired: Counter,
    pub groups: Vec<Group>,
    pub unenriched: i64,
    pub pool_total: i64,
    pub found_today: i64,
    pub enriched_today: i64,
    pub last_scan_date: Option<String>,
    pub top: Vec<String>,
    pub ranked: i64,
    pub applied_today: i64,
    pub daily_limit: i64,
}

impl Default for Counter {
    fn default() -> (r: Counter)
        ensures
            r.turn == 0,
            r.total == 0,
    {
        Counter { turn: 0, total: 0 }
    }
}

impl Default for Summary {
    fn default() -> (r: Summary)
        ensures
            r.groups@.len() == 0,
            r.top@.len() == 0,
            r.last_scan_date is None,
            r.unenriched == 0 && r.pool_total == 0 && r.found_today == 0 && r.enriched_today == 0
                && r.ranked == 0 && r.applied_today == 0 && r.daily_limit == 0,
            r.applied == (Counter { turn: 0, total: 0 }),
            r.replies == (Counter { turn: 0, total: 0 }),
            r.captcha == (Counter { turn: 0, total: 0 }),
            r.forms == (Counter { turn: 0, total: 0 }),
            r.http_403 == (Counter { turn: 0, total: 0 }),
            r.expired == (Counter { turn: 0, total: 0 }),
    {
        Summary {
            applied: Counter { turn: 0, total: 0 },
            replies: Counter { turn: 0, total: 0 },
            captcha: Counter { turn: 0, total: 0 },
            forms: Counter { turn: 0, total: 0 },
            http_403: Counter { turn: 0, total: 0 },
            expired: Counter { turn: 0, total: 0 },
            groups: Vec::new(),
            unenriched: 0,
            pool_total: 0,
            found_today: 0,
            enriched_today: 0,
            last_scan_date: None,
            top: Vec::new(),
            ranked: 0,
            applied_today: 0,
            daily_limit: 0,
        }
    }
}

pub open spec fn summary_args_of(profile: Seq<char>, since: Option<Seq<char>>) -> Seq<Seq<char>> {
    seq!["summary"@, "--profile"@, profile] + match since {
        Some(s) => seq!["--since"@, s],
        None => Seq::empty(),
    }
}

/// A summary is asked for by its profile, and by its beginning only where one is
/// given; each stands right behind the word that names it.
pub proof fn summary_is_asked_by_its_profile(profile: Seq<char>, since: Seq<char>)
    ensures
        summary_args_of(profile, None).len() == 3,
        summary_args_of(profile, Some(since)).take(3) == summary_args_of(profile, None),
        summary_args_of(profile, None)[0] == "summary"@,
        summary_args_of(profile, None)[1] == "--profile"@ && summary_args_of(profile, None)[2]
            == profile,
        summary_args_of(profile, Some(since))[3] == "--since"@ && summary_args_of(
            profile,
            Some(since),
        )[4] == since,
{
    assert(summary_args_of(profile, Some(since)).take(3) =~= summary_args_of(profile, None));
}

/// What asks the autopilot for a summary of a profile, since a moment where one
/// is given.
pub fn summary_args(profile: &str, since: Option<&str>) -> (r: Vec<String>)
    ensures
        text::texts(r@) == summary_args_of(profile@, text::opt_str(since)),
{
    let mut args: Vec<String> = Vec::new();
    assert(text::texts(args@) =~= Seq::empty());
    push_to(&mut args, "summary");
    push_to(&mut args, "--profile");
    push_to(&mut args, profile);
    if let Some(s) = since {
        push_to(&mut args, "--since");
        push_to(&mut args, s);
    }
    assert(text::texts(args@) =~= seq!["summary"@, "--profile"@, profile@] + match text::opt_str(since) {
        Some(s) => seq!["--since"@, s],
        None => Seq::empty(),
    });
    args
}

/// The last of the lines that begins an object.
pub open spec fn last_object(ls: Seq<Seq<char>>) -> Option<Seq<char>>
    decreases ls.len(),
{
    if ls.len() == 0 {
        None
    } else if text::starts_of(text::trim_start_of(ls.last()), "{"@) {
        Some(ls.last())
    } else {
        last_object(ls.drop_last())
    }
}

/// The last line that begins an object counts, whatever stands before it, and
/// whatever other lines stand behind it.
pub proof fn last_object_counts(ls: Seq<Seq<char>>, line: Seq<char>)
    ensures
        text::starts_of(text::trim_start_of(line), "{"@) ==> last_object(ls.push(line)) == Some(
            line,
        ),
        !text::starts_of(text::trim_start_of(line), "{"@) ==> last_object(ls.push(line))
            == last_object(ls),
        last_object(Seq::empty()) is None,
{
    assert(ls.push(line).drop_last() =~= ls);
}

/// The line with the summary in what the autopilot printed: the last that
/// begins an object.
pub fn summary_line(printed: &str) -> (r: Option<String>)
    ensures
        text::opt_text(r) == last_object(text::lines_of(printed@)),
{
    let chars = chars_of(printed);
    let brace = chars_of("{");
    let ls = lines(chars.as_slice());
    let ghost all = text::lines_of(printed@);
    let mut i: usize = ls.len();
    assert(all.take(i as int) =~= all);
    while i > 0
        invariant
            i <= ls@.len(),
            all == text::views(ls@),
            brace@ == "{"@,
            last_object(all) == last_object(all.take(i as int)),
            all == text::lines_of(printed@),
        decreases i,
    {
        assert(all.take(i as int).last() == ls@[i - 1]@);
        assert(all.take(i as int).drop_last() =~= all.take(i - 1));
        if starts(trim_start(ls[i - 1]), brace.as_slice()) {
            return Some(string_of(ls[i - 1]));
        }
        i = i - 1;
    }
    None
}

} // verus!
