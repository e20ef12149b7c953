//! The log of events: one JSON record a line, and how records are shown.

use crate::json;
use crate::json::{Json, Tree, put};
use crate::text::{cat4, chars_of, join, pad_right, padded, same_str, starts, string_of};
use vstd::prelude::*;

verus! {

/// A log file of this size is put aside before the next run writes to it.
pub const MAX_BYTES: u64 = 5242880;

/// The width that an event's name takes when a record is shown.
pub const NAME_WIDTH: usize = 22;

/// What happened, with its details.
pub struct Event {
    pub name: String,
    pub fields: Json,
}

/// What an event says.
pub struct EventView {
    pub name: Seq<char>,
    pub fields: Tree,
}

impl View for Event {
    type V = EventView;

    open spec fn view(&self) -> EventView {
        EventView { name: self.name@, fields: self.fields@ }
    }
}

/// The event `name` with the details `pairs`, as it is meant.
pub open spec fn event_of(name: Seq<char>, pairs: Seq<(Seq<char>, Tree)>) -> EventView {
    EventView { name, fields: Tree::Object(json::object_of(pairs)) }
}

/// A whole number in JSON.
pub open spec fn number_of(n: int) -> Tree {
    if n < 0 {
        Tree::Int(n as i64)
    } else {
        Tree::UInt(n as u64)
    }
}

/// A text or nothing, in JSON.
pub open spec fn text_or_null_of(t: Option<Seq<char>>) -> Tree {
    match t {
        Some(s) => Tree::Text(s),
        None => Tree::Null,
    }
}

/// The whole number `n` in JSON.
pub fn number(n: i64) -> (r: Json)
    ensures
        r@ == number_of(n as int),
        json::proper(r@),
{
    if n < 0 {
        Json::Int(n)
    } else {
        Json::UInt(n as u64)
    }
}

/// A text in JSON.
pub fn text(s: &str) -> (r: Json)
    ensures
        r@ == Tree::Text(s@),
        json::proper(r@),
{
    Json::Text(s.to_owned())
}

/// A text or nothing, in JSON.
pub fn text_or_null(s: Option<&str>) -> (r: Json)
    ensures
        r@ == text_or_null_of(crate::text::opt_str(s)),
        json::proper(r@),
{
    match s {
        Some(t) => Json::Text(t.to_owned()),
        None => Json::Null,
    }
}

/// The event `name` with the details `pairs`.
pub fn event(name: &str, pairs: Vec<(String, Json)>) -> (r: Event)
    ensures
        r@ == event_of(name@, json::entries(pairs@)),
        (forall|i: int| 0 <= i < pairs@.len() ==> json::proper((#[trigger] pairs@[i]).1@)) ==> json::proper(
            r.fields@,
        ),
{
    Event { name: name.to_owned(), fields: json::object(pairs) }
}

/// A failure, with its message.
pub fn error(name: &str, err: &str) -> (r: Event)
    ensures
        r@ == event_of(name@, seq![("err"@, Tree::Text(err@))]),
        json::proper(r.fields@),
{
    let mut pairs: Vec<(String, Json)> = Vec::new();
    pairs.push(("err".to_owned(), text(err)));
    assert(json::entries(pairs@) =~= seq![("err"@, Tree::Text(err@))]);
    event(name, pairs)
}

// ---------------------------------------------------------------------------
// Records
// ---------------------------------------------------------------------------

/// The entries of `base` with those of `more` set over them, in turn.
pub open spec fn merge_of(
    base: Seq<(Seq<char>, Tree)>,
    more: Seq<(Seq<char>, Tree)>,
) -> Seq<(Seq<char>, Tree)>
    decreases more.len(),
{
    if more.len() == 0 {
        base
    } else {
        json::put_of(merge_of(base, more.drop_last()), more.last().0, more.last().1)
    }
}

/// The entries that every record has.
pub open spec fn stamp_of(ts: i64, ev: Seq<char>) -> Seq<(Seq<char>, Tree)> {
    json::put_of(json::put_of(Seq::empty(), "ts"@, number_of(ts as int)), "ev"@, Tree::Text(ev))
}

/// The record of an event: its time, its name, and its details where they are
/// an object.
pub open spec fn record_of(ts: i64, ev: Seq<char>, fields: Tree) -> Tree {
    match fields {
        Tree::Object(es) => Tree::Object(merge_of(stamp_of(ts, ev), es)),
        _ => Tree::Object(stamp_of(ts, ev)),
    }
}

proof fn lemma_stamp(ts: i64, ev: Seq<char>)
    ensures
        json::proper(Tree::Object(stamp_of(ts, ev))),
        json::whole(Tree::Object(stamp_of(ts, ev))),
        json::nested(Tree::Object(stamp_of(ts, ev)), 100),
{
    let none = Seq::<(Seq<char>, Tree)>::empty();
    let n = number_of(ts as int);
    let one = json::put_of(none, "ts"@, n);
    assert(json::proper(Tree::Object(none)));
    assert(json::proper(n) && json::whole(n) && json::nested(n, 99));
    assert(json::whole(Tree::Object(none)) && json::nested(Tree::Object(none), 100));
    json::put_is_proper(none, "ts"@, n);
    json::put_is_whole(none, "ts"@, n, 100);
    json::put_is_proper(one, "ev"@, Tree::Text(ev));
    json::put_is_whole(one, "ev"@, Tree::Text(ev), 100);
}

proof fn lemma_merge_proper(base: Seq<(Seq<char>, Tree)>, more: Seq<(Seq<char>, Tree)>)
    requires
        json::proper(Tree::Object(base)),
        forall|i: int| 0 <= i < more.len() ==> json::proper((#[trigger] more[i]).1),
    ensures
        json::proper(Tree::Object(merge_of(base, more))),
    decreases more.len(),
{
    if more.len() > 0 {
        let init = more.drop_last();
        assert forall|i: int| 0 <= i < init.len() implies json::proper((#[trigger] init[i]).1) by {
            assert(init[i] == more[i]);
        }
        lemma_merge_proper(base, init);
        assert(json::proper(more[more.len() - 1].1));
        json::put_is_proper(merge_of(base, init), more.last().0, more.last().1);
    }
}

proof fn lemma_merge_whole(base: Seq<(Seq<char>, Tree)>, more: Seq<(Seq<char>, Tree)>)
    requires
        json::whole(Tree::Object(base)),
        json::nested(Tree::Object(base), 100),
        forall|i: int| 0 <= i < more.len() ==> json::whole((#[trigger] more[i]).1),
        forall|i: int| 0 <= i < more.len() ==> json::nested((#[trigger] more[i]).1, 99),
    ensures
        json::whole(Tree::Object(merge_of(base, more))),
        json::nested(Tree::Object(merge_of(base, more)), 100),
    decreases more.len(),
{
    if more.len() > 0 {
        let init = more.drop_last();
        assert forall|i: int| 0 <= i < init.len() implies json::whole((#[trigger] init[i]).1) && json::nested(
            init[i].1,
            99,
        ) by {
            assert(init[i] == more[i]);
        }
        lemma_merge_whole(base, init);
        assert(json::whole(more[more.len() - 1].1) && json::nested(more[more.len() - 1].1, 99));
        json::put_is_whole(merge_of(base, init), more.last().0, more.last().1, 100);
    }
}

/// A record is a proper document, and one that can be read back where its
/// details can.
pub proof fn record_is_proper(ts: i64, ev: Seq<char>, fields: Tree)
    requires
        json::proper(fields),
    ensures
        json::proper(record_of(ts, ev, fields)),
        json::whole(fields) && json::nested(fields, 100) ==> json::whole(record_of(ts, ev, fields)) && json::nested(
            record_of(ts, ev, fields),
            100,
        ),
{
    lemma_stamp(ts, ev);
    match fields {
        Tree::Object(es) => {
            assert forall|i: int| 0 <= i < es.len() implies json::proper((#[trigger] es[i]).1) by {}
            lemma_merge_proper(stamp_of(ts, ev), es);
            if json::whole(fields) && json::nested(fields, 100) {
                assert forall|i: int| 0 <= i < es.len() implies json::whole((#[trigger] es[i]).1)
                    && json::nested(es[i].1, 99) by {}
                lemma_merge_whole(stamp_of(ts, ev), es);
            }
        },
        _ => {},
    }
}

proof fn lemma_lookup_last(es: Seq<(Seq<char>, Tree)>, key: Seq<char>)
    requires
        es.len() > 0,
        json::ascending(es),
    ensures
        json::lookup(es, key) == if es.last().0 == key {
            Some(es.last().1)
        } else {
            json::lookup(es.drop_last(), key)
        },
    decreases es.len(),
{
    if es.len() == 1 {
        assert(json::lookup(es.skip(1), key) is None);
    } else {
        let rest = es.skip(1);
        assert forall|i: int, j: int| 0 <= i < j < rest.len() implies json::before(
            #[trigger] rest[i].0,
            #[trigger] rest[j].0,
        ) by {
            assert(json::before(es[i + 1].0, es[j + 1].0));
        }
        lemma_lookup_last(rest, key);
        assert(rest.drop_last() =~= es.drop_last().skip(1));
        assert(rest.last() == es.last());
        assert(es.drop_last()[0] == es[0]);
        if es[0].0 == key && es.last().0 == key {
            assert(json::before(es[0].0, es[es.len() - 1].0));
            json::lemma_before_irreflexive(key);
        }
    }
}

proof fn lemma_merge_lookup(
    base: Seq<(Seq<char>, Tree)>,
    more: Seq<(Seq<char>, Tree)>,
    key: Seq<char>,
)
    requires
        json::ascending(more),
    ensures
        json::lookup(merge_of(base, more), key) == match json::lookup(more, key) {
            Some(v) => Some(v),
            None => json::lookup(base, key),
        },
    decreases more.len(),
{
    if more.len() > 0 {
        let init = more.drop_last();
        assert(json::ascending(init)) by {
            assert forall|i: int, j: int| 0 <= i < j < init.len() implies json::before(
                #[trigger] init[i].0,
                #[trigger] init[j].0,
            ) by {
                assert(json::before(more[i].0, more[j].0));
            }
        }
        lemma_merge_lookup(base, init, key);
        lemma_lookup_last(more, key);
        json::put_then_lookup(merge_of(base, init), more.last().0, more.last().1, key);
    }
}

/// A record holds every detail of its event under the detail's name, and under
/// `ts` and `ev`, where no detail has that name, the time and the name.
pub proof fn record_holds_its_event(ts: i64, ev: Seq<char>, fields: Tree, key: Seq<char>)
    requires
        json::proper(fields),
    ensures
        json::field_of(record_of(ts, ev, fields), key) == match json::field_of(fields, key) {
            Some(v) => Some(v),
            None => if key == "ev"@ {
                Some(Tree::Text(ev))
            } else if key == "ts"@ {
                Some(number_of(ts as int))
            } else {
                None
            },
        },
{
    let none = Seq::<(Seq<char>, Tree)>::empty();
    let one = json::put_of(none, "ts"@, number_of(ts as int));
    json::put_then_lookup(none, "ts"@, number_of(ts as int), key);
    json::put_then_lookup(one, "ev"@, Tree::Text(ev), key);
    match fields {
        Tree::Object(es) => {
            lemma_merge_lookup(stamp_of(ts, ev), es, key);
        },
        _ => {},
    }
}

/// The line of the log for an event. Where the details have whole numbers only,
/// and are not nested too deep, reading the line gives the record back.
pub fn build_record(ts: i64, ev: &str, fields: Json) -> (r: String)
    requires
        json::proper(fields@),
    ensures
        r@ == json::written_of(record_of(ts, ev@, fields@)),
        json::whole(fields@) && json::nested(fields@, 100) ==> json::document_of(r@) == Some(
            record_of(ts, ev@, fields@),
        ),
{
    let ghost all = fields@;
    proof {
        record_is_proper(ts, ev@, all);
    }
    let mut obj: Vec<(String, Json)> = Vec::new();
    assert(json::entries(obj@) =~= Seq::empty());
    put(&mut obj, "ts".to_owned(), number(ts));
    put(&mut obj, "ev".to_owned(), text(ev));
    if let Json::Object(m) = fields {
        let ghost es = json::entries(m@);
        proof {
            json::lemma_entries(fields, m);
        }
        assert(es.take(0) =~= Seq::empty());
        for pair in it: m
            invariant
                it.seq() == m@,
                es == json::entries(m@),
                json::entries(obj@) == merge_of(stamp_of(ts, ev@), es.take(it.index() as int)),
        {
            let ghost k = it.index() as int;
            assert(es.take(k + 1).drop_last() =~= es.take(k));
            assert(es.take(k + 1).last() == (m@[k].0@, m@[k].1@));
            put(&mut obj, pair.0, pair.1);
        }
        assert(es.take(es.len() as int) =~= es);
    }
    let record = Json::Object(obj);
    proof {
        json::lemma_entries(record, obj);
    }
    json::write(&record)
}

/// Whether the log is kept: it is unless the setting says no.
pub fn enabled(setting: Option<&str>) -> (r: bool)
    ensures
        r == (crate::text::opt_str(setting) != Some("0"@)),
{
    match setting {
        Some(s) => !same_str(s, "0"),
        None => true,
    }
}

/// The first event of a run.
pub fn started(version: &str, pid: u32) -> (r: Event)
    ensures
        r@ == event_of(
            "app.start"@,
            seq![("version"@, Tree::Text(version@)), ("pid"@, number_of(pid as int))],
        ),
        json::proper(r.fields@),
{
    let mut pairs: Vec<(String, Json)> = Vec::new();
    pairs.push(("version".to_owned(), text(version)));
    pairs.push(("pid".to_owned(), number(pid as i64)));
    assert(json::entries(pairs@) =~= seq![
        ("version"@, Tree::Text(version@)),
        ("pid"@, number_of(pid as int)),
    ]);
    event("app.start", pairs)
}

pub open spec fn rotates(size: nat) -> bool {
    size >= MAX_BYTES
}

/// A log is put aside from five mebibytes on.
pub proof fn large_logs_are_put_aside(size: nat)
    ensures
        rotates(size) <==> size >= 5 * 1024 * 1024,
{
}

/// Whether a log of this size is put aside.
pub fn should_rotate(size: u64) -> (r: bool)
    ensures
        r == rotates(size as nat),
{
    size >= MAX_BYTES
}

// ---------------------------------------------------------------------------
// Showing records
// ---------------------------------------------------------------------------

/// A moment in local time, by the parts of the C library's `tm`: years since
/// 1900, months since January.
#[derive(Debug, Clone, Copy, PartialEq, Eq)]
pub struct Tm {
    pub tm_year: i32,
    pub tm_mon: i32,
    pub tm_mday: i32,
    pub tm_hour: i32,
    pub tm_min: i32,
    pub tm_sec: i32,
}

/// A date: four digits of the year, two of the month and two of the day.
pub open spec fn date_of(tm: Tm) -> Seq<char> {
    crate::text::padded_of(tm.tm_year + 1900, 4) + "-"@ + crate::text::padded_of(tm.tm_mon + 1, 2)
        + "-"@ + crate::text::padded_of(tm.tm_mday as int, 2)
}

/// A time of day: two digits each for the hour, the minute and the second.
pub open spec fn time_of(tm: Tm) -> Seq<char> {
    crate::text::padded_of(tm.tm_hour as int, 2) + ":"@ + crate::text::padded_of(
        tm.tm_min as int,
        2,
    ) + ":"@ + crate::text::padded_of(tm.tm_sec as int, 2)
}

pub open spec fn fmt_local_of(tm: Tm) -> Seq<char> {
    date_of(tm) + " "@ + time_of(tm)
}

/// The date and the time of day.
pub fn fmt_local(tm: &Tm) -> (r: String)
    ensures
        r@ == fmt_local_of(*tm),
{
    let mut s = padded(tm.tm_year as i64 + 1900, 4);
    s.append("-");
    s.append(padded(tm.tm_mon as i64 + 1, 2).as_str());
    s.append("-");
    s.append(padded(tm.tm_mday as i64, 2).as_str());
    s.append(" ");
    let mut t = padded(tm.tm_hour as i64, 2);
    t.append(":");
    t.append(padded(tm.tm_min as i64, 2).as_str());
    t.append(":");
    t.append(padded(tm.tm_sec as i64, 2).as_str());
    s.append(t.as_str());
    s
}

/// The time of a record in whole seconds, towards zero.
pub open spec fn record_secs_of(v: Tree) -> int {
    let ts = record_ts_of(v);
    if ts < 0 {
        -((-ts) / 1000)
    } else {
        ts / 1000
    }
}

pub open spec fn record_ts_of(v: Tree) -> int {
    match json::field_of(v, "ts"@) {
        Some(t) => match json::i64_of(t) {
            Some(n) => n as int,
            None => 0,
        },
        None => 0,
    }
}

/// A record's time is less than a second off, towards the epoch, and one without
/// a time is of the epoch.
pub proof fn seconds_are_cut_towards_the_epoch(v: Tree, n: u64, m: i64)
    ensures
        json::field_of(v, "ts"@) == Some(Tree::UInt(n)) && n <= i64::MAX ==> 0 <= n - 1000
            * record_secs_of(v) < 1000,
        json::field_of(v, "ts"@) == Some(Tree::Int(m)) && m < 0 ==> -1000 < m - 1000
            * record_secs_of(v) <= 0,
        json::field_of(v, "ts"@) is None ==> record_secs_of(v) == 0,
{
}

/// The time of a record in whole seconds since the epoch, 0 where it has none.
pub fn record_secs(v: &Json) -> (r: i64)
    ensures
        r == record_secs_of(v@),
{
    let ts: i64 = match v.get("ts") {
        Some(t) => match t.as_i64() {
            Some(n) => n,
            None => 0,
        },
        None => 0,
    };
    ts / 1000
}

/// A detail as it is shown: a text without quotes, anything else as JSON.
pub open spec fn detail_of(v: Tree) -> Seq<char> {
    match v {
        Tree::Text(s) => s,
        Tree::Float(s) => s,
        _ => match json::plain_text(v) {
            Some(s) => s,
            None => json::written_of(v),
        },
    }
}

/// The details of a record, each behind a space and its name.
pub open spec fn details_of(es: Seq<(Seq<char>, Tree)>) -> Seq<char>
    decreases es.len(),
{
    if es.len() == 0 {
        Seq::empty()
    } else {
        let e = es.last();
        let init = details_of(es.drop_last());
        if e.0 == "ts"@ || e.0 == "ev"@ {
            init
        } else {
            init + (" "@ + e.0 + "="@ + detail_of(e.1))
        }
    }
}

/// Every detail of a record is shown behind its name, in the order of the names;
/// its time and its name are no details.
pub proof fn details_are_shown_in_order(
    a: Seq<(Seq<char>, Tree)>,
    key: Seq<char>,
    t: Seq<char>,
    b: Seq<(Seq<char>, Tree)>,
)
    ensures
        key != "ts"@ && key != "ev"@ ==> details_of(a + seq![(key, Tree::Text(t))] + b)
            == details_of(a) + (" "@ + key + "="@ + t) + details_of(b),
        key == "ts"@ || key == "ev"@ ==> details_of(a + seq![(key, Tree::Text(t))] + b)
            == details_of(a) + details_of(b),
    decreases b.len(),
{
    let e = (key, Tree::Text(t));
    let s = a + seq![e] + b;
    if b.len() > 0 {
        details_are_shown_in_order(a, key, t, b.drop_last());
        assert(s.drop_last() =~= a + seq![e] + b.drop_last());
        assert(s.last() == b.last());
        let last = b.last();
        let piece = " "@ + last.0 + "="@ + detail_of(last.1);
        if key != "ts"@ && key != "ev"@ {
            assert(details_of(s) =~= details_of(a) + (" "@ + key + "="@ + t) + details_of(b));
        } else {
            assert(details_of(s) =~= details_of(a) + details_of(b));
        }
    } else {
        assert(s.drop_last() =~= a && s.last() == e);
        assert(b =~= Seq::empty());
        assert(details_of(b) =~= Seq::<char>::empty());
        if key != "ts"@ && key != "ev"@ {
            assert(details_of(s) =~= details_of(a) + (" "@ + key + "="@ + t) + details_of(b));
        } else {
            assert(details_of(s) =~= details_of(a) + details_of(b));
        }
    }
}

/// A record as it is shown, when its time in local time is `tm`.
pub open spec fn render_of(v: Tree, tm: Tm) -> Seq<char> {
    let ev = match json::text_field_of(v, "ev"@) {
        Some(s) => s,
        None => "?"@,
    };
    let extra = match v {
        Tree::Object(es) => details_of(es),
        _ => Seq::empty(),
    };
    fmt_local_of(tm) + "  "@ + crate::text::pad_right_of(ev, NAME_WIDTH as nat) + extra
}

/// A record is shown by its time, its name in a column of 22 characters, and its
/// details; one without a name has a question mark there.
pub proof fn record_is_shown_by_time_and_name(es: Seq<(Seq<char>, Tree)>, tm: Tm, ev: Seq<char>)
    ensures
        json::lookup(es, "ev"@) == Some(Tree::Text(ev)) ==> render_of(Tree::Object(es), tm)
            == date_of(tm) + " "@ + time_of(tm) + "  "@ + crate::text::pad_right_of(ev, 22)
            + details_of(es),
        json::lookup(es, "ev"@) is None ==> render_of(Tree::Object(es), tm) == date_of(tm) + " "@
            + time_of(tm) + "  "@ + crate::text::pad_right_of("?"@, 22) + details_of(es),
{
}

/// A record as it is shown: its time, its name and its details.
pub fn render(v: &Json, tm: &Tm) -> (r: String)
    requires
        json::proper(v@),
    ensures
        r@ == render_of(v@, *tm),
{
    let ev = match v.text_field("ev") {
        Some(s) => s,
        None => "?",
    };
    let mut extra = String::new();
    if let Json::Object(obj) = v {
        let ghost es = json::entries(obj@);
        proof {
            json::lemma_entries(*v, *obj);
        }
        let mut i: usize = 0;
        assert(es.take(0) =~= Seq::empty());
        while i < obj.len()
            invariant
                i <= obj@.len(),
                es == json::entries(obj@),
                v@ == Tree::Object(es),
                json::proper(v@),
                extra@ == details_of(es.take(i as int)),
            decreases obj.len() - i,
        {
            let ghost part = es.take(i + 1);
            assert(part.drop_last() =~= es.take(i as int));
            assert(es[i as int] == (obj@[i as int].0@, obj@[i as int].1@) && json::proper(es[i as int].1));
            let name = obj[i].0.as_str();
            if !same_str(name, "ts") && !same_str(name, "ev") {
                let s = match &obj[i].1 {
                    Json::Text(s) => s.clone(),
                    Json::Float(f) => f.text(),
                    other => json::write(other),
                };
                extra.append(cat4(" ", name, "=", s.as_str()).as_str());
            }
            i = i + 1;
        }
        assert(es.take(es.len() as int) =~= es);
    }
    cat4(
        fmt_local(tm).as_str(),
        "  ",
        pad_right(ev, NAME_WIDTH).as_str(),
        extra.as_str(),
    )
}

/// The documents in the lines of a log. A line that is none is passed over.
pub open spec fn documents_of(lines: Seq<Seq<char>>) -> Seq<Tree>
    decreases lines.len(),
{
    if lines.len() == 0 {
        Seq::empty()
    } else {
        let init = documents_of(lines.drop_last());
        match json::document_of(lines.last()) {
            Some(t) => init.push(t),
            None => init,
        }
    }
}

/// The records in the text of a log.
pub fn records(log: &str) -> (r: Vec<Json>)
    ensures
        json::trees(r@) == documents_of(crate::text::lines_of(log@)),
        forall|i: int| 0 <= i < r@.len() ==> json::proper((#[trigger] r@[i])@),
{
    let chars = chars_of(log);
    let lines = crate::text::lines(chars.as_slice());
    let ghost all = crate::text::lines_of(log@);
    let mut out: Vec<Json> = Vec::new();
    let mut i: usize = 0;
    assert(all.take(0) =~= Seq::empty());
    assert(json::trees(out@) =~= Seq::empty());
    while i < lines.len()
        invariant
            i <= lines@.len(),
            all == crate::text::views(lines@),
            json::trees(out@) == documents_of(all.take(i as int)),
            forall|k: int| 0 <= k < out@.len() ==> json::proper((#[trigger] out@[k])@),
        decreases lines.len() - i,
    {
        assert(all.take(i + 1).drop_last() =~= all.take(i as int));
        assert(all.take(i + 1).last() == lines@[i as int]@);
        let line = string_of(lines[i]);
        let ghost before = json::trees(out@);
        if let Some(v) = json::read(line.as_str()) {
            out.push(v);
            assert(json::trees(out@) =~= before.push(v@));
        }
        i = i + 1;
    }
    assert(all.take(all.len() as int) =~= all);
    out
}

/// The shown lines that begin with `prefix`, or all of them.
pub open spec fn shown_of(
    records: Seq<Tree>,
    times: Seq<Tm>,
    prefix: Option<Seq<char>>,
) -> Seq<Seq<char>>
    decreases records.len(),
{
    if records.len() == 0 {
        Seq::empty()
    } else {
        let init = shown_of(records.drop_last(), times, prefix);
        let line = render_of(records.last(), times[records.len() - 1]);
        if prefix is None || crate::text::starts_of(line, prefix->Some_0) {
            init.push(line)
        } else {
            init
        }
    }
}

/// Of one day, all records are shown that begin with it, and no others; of all
/// days, every record, each as it is rendered.
pub proof fn records_of_the_day_are_shown(
    records: Seq<Tree>,
    times: Seq<Tm>,
    prefix: Seq<char>,
    i: int,
    line: Seq<char>,
)
    requires
        times.len() >= records.len(),
        0 <= i < records.len(),
    ensures
        shown_of(records, times, None).len() == records.len(),
        shown_of(records, times, None)[i] == render_of(records[i], times[i]),
        crate::text::starts_of(render_of(records[i], times[i]), prefix) ==> shown_of(
            records,
            times,
            Some(prefix),
        ).contains(render_of(records[i], times[i])),
        shown_of(records, times, Some(prefix)).contains(line) ==> crate::text::starts_of(
            line,
            prefix,
        ) && shown_of(records, times, None).contains(line),
    decreases records.len(),
{
    let init = records.drop_last();
    let last = render_of(records.last(), times[records.len() - 1]);
    let most = shown_of(init, times, Some(prefix));
    let part = shown_of(records, times, Some(prefix));
    let before = shown_of(init, times, None);
    let all = shown_of(records, times, None);
    if init.len() > 0 {
        records_of_the_day_are_shown(
            init,
            times,
            prefix,
            if i < init.len() {
                i
            } else {
                0
            },
            line,
        );
    }
    assert(before.len() == init.len());
    assert(all =~= before.push(last));
    assert(all[before.len() as int] == last);
    if i < init.len() {
        let r = render_of(records[i], times[i]);
        assert(init[i] == records[i]);
        if crate::text::starts_of(r, prefix) {
            let j = choose|j: int| 0 <= j < most.len() && most[j] == r;
            assert(part[j] == r);
        }
    } else if crate::text::starts_of(last, prefix) {
        assert(part[most.len() as int] == last);
    }
    if part.contains(line) {
        let j = choose|j: int| 0 <= j < part.len() && part[j] == line;
        if j < most.len() {
            assert(most[j] == line);
            assert(most.contains(line));
            let k = choose|k: int| 0 <= k < before.len() && before[k] == line;
            assert(all[k] == line);
        }
    }
}

/// The first ten characters of the moment `tm`, which are its date where the
/// year has four digits.
pub open spec fn today_prefix_of(tm: Tm) -> Seq<char> {
    fmt_local_of(tm).take(10)
}

proof fn lemma_padded_len(n: int, width: nat)
    ensures
        crate::text::padded_of(n, width).len() >= width,
{
    let d = if n < 0 {
        crate::text::decimal_of((-n) as nat)
    } else {
        crate::text::decimal_of(n as nat)
    };
    reveal_strlit("-");
}

/// A moment is of today exactly where it has today's date, whatever the time of
/// day, as long as the years have four digits.
pub proof fn today_is_the_date(now: Tm, then: Tm)
    requires
        date_of(now).len() == 10,
        date_of(then).len() == 10,
    ensures
        today_prefix_of(now) == date_of(now),
        crate::text::starts_of(fmt_local_of(then), today_prefix_of(now)) <==> date_of(then)
            == date_of(now),
{
    assert(today_prefix_of(now) =~= date_of(now));
    assert(fmt_local_of(then).subrange(0, 10) =~= date_of(then));
}

pub fn today_prefix(now: &Tm) -> (r: String)
    ensures
        r@ == today_prefix_of(*now),
{
    let s = fmt_local(now);
    let chars = chars_of(s.as_str());
    proof {
        lemma_padded_len(now.tm_year + 1900, 4);
        lemma_padded_len(now.tm_mon + 1, 2);
        lemma_padded_len(now.tm_mday as int, 2);
        reveal_strlit("-");
    }
    let r = string_of(vstd::slice::slice_subrange(chars.as_slice(), 0, 10));
    assert(r@ =~= today_prefix_of(*now));
    r
}

/// The last `limit` of the lines.
pub open spec fn last_of(lines: Seq<Seq<char>>, limit: nat) -> Seq<Seq<char>> {
    if lines.len() <= limit {
        lines
    } else {
        lines.skip(lines.len() - limit)
    }
}

/// No more lines are shown than the limit, and they are the last ones, in their
/// order.
pub proof fn last_lines_are_shown(lines: Seq<Seq<char>>, limit: nat, i: int)
    ensures
        last_of(lines, limit).len() == if lines.len() < limit {
            lines.len()
        } else {
            limit
        },
        0 <= i < last_of(lines, limit).len() ==> last_of(lines, limit)[last_of(lines, limit).len()
            - 1 - i] == lines[lines.len() - 1 - i],
{
}

/// The last `limit` records as they are shown, of one day where `today` is a
/// moment of that day. `times` holds the time of each record in local time.
pub fn dump(records: &Vec<Json>, times: &Vec<Tm>, limit: usize, today: Option<Tm>) -> (r: String)
    requires
        records@.len() == times@.len(),
        forall|i: int| 0 <= i < records@.len() ==> json::proper((#[trigger] records@[i])@),
    ensures
        r@ == crate::text::join_of(
            last_of(
                shown_of(
                    json::trees(records@),
                    times@,
                    match today {
                        Some(t) => Some(today_prefix_of(t)),
                        None => None,
                    },
                ),
                limit as nat,
            ),
            "\n"@,
        ),
{
    let prefix: Option<Vec<char>> = match today {
        Some(t) => Some(chars_of(today_prefix(&t).as_str())),
        None => None,
    };
    let ghost want = match today {
        Some(t) => Some(today_prefix_of(t)),
        None => None,
    };
    let ghost all = json::trees(records@);
    let mut shown: Vec<String> = Vec::new();
    let mut i: usize = 0;
    assert(all.take(0) =~= Seq::empty());
    assert(crate::text::texts(shown@) =~= Seq::empty());
    while i < records.len()
        invariant
            i <= records@.len(),
            records@.len() == times@.len(),
            all == json::trees(records@),
            forall|k: int| 0 <= k < records@.len() ==> json::proper((#[trigger] records@[k])@),
            want == match prefix {
                Some(p) => Some(p@),
                None => None::<Seq<char>>,
            },
            crate::text::texts(shown@) == shown_of(all.take(i as int), times@, want),
        decreases records.len() - i,
    {
        assert(all.take(i + 1).drop_last() =~= all.take(i as int));
        assert(all.take(i + 1).last() == records@[i as int]@);
        let line = render(&records[i], &times[i]);
        let ghost before = crate::text::texts(shown@);
        let keep = match &prefix {
            Some(p) => starts(chars_of(line.as_str()).as_slice(), p.as_slice()),
            None => true,
        };
        if keep {
            shown.push(line);
            assert(crate::text::texts(shown@) =~= before.push(line@));
        }
        i = i + 1;
    }
    assert(all.take(all.len() as int) =~= all);
    let start: usize = if shown.len() <= limit {
        0
    } else {
        shown.len() - limit
    };
    let mut tail: Vec<String> = Vec::new();
    let mut k: usize = start;
    let ghost lines = crate::text::texts(shown@);
    while k < shown.len()
        invariant
            start <= k <= shown@.len(),
            lines == crate::text::texts(shown@),
            crate::text::texts(tail@) == lines.subrange(start as int, k as int),
        decreases shown.len() - k,
    {
        let ghost before = crate::text::texts(tail@);
        tail.push(shown[k].clone());
        assert(crate::text::texts(tail@) =~= before.push(lines[k as int]));
        k = k + 1;
        assert(crate::text::texts(tail@) =~= lines.subrange(start as int, k as int));
    }
    assert(crate::text::texts(tail@) =~= last_of(lines, limit as nat));
    join(&tail, "\n")
}

} // verus!
