//! The agent on another machine: what its orchestrator prints, what is asked of
//! it and what it reports.

use crate::text;
use crate::text::{
    cat, chars_of, contains, ends, join, push_to, split, split_once, string_of, strip_prefix,
    strip_suffix, trim, trim_end, trimmed,
};
use std::collections::VecDeque;
use vstd::prelude::*;

verus! {

/// So many of the latest lines are kept.
pub const LOG_CAP: usize = 40;

/// What the orchestrator prints when a task is done.
pub const DONE: &'static str = "— готово —";

// ---------------------------------------------------------------------------
// The log
// ---------------------------------------------------------------------------

/// The latest lines, and how many there have been in all.
pub struct Log {
    pub lines: VecDeque<String>,
    pub total: u64,
}

/// The lines that stay when another one comes: the first leaves where there is
/// no room.
pub open spec fn room_of(lines: Seq<String>) -> Seq<String> {
    if lines.len() >= LOG_CAP {
        lines.skip(1)
    } else {
        lines
    }
}

/// The latest lines of all that there have been.
pub open spec fn latest_of(history: Seq<String>) -> Seq<String> {
    if history.len() <= LOG_CAP {
        history
    } else {
        history.skip(history.len() - LOG_CAP)
    }
}

impl Log {
    pub open spec fn wf(&self) -> bool {
        self.lines@.len() <= self.total
    }

    /// The log of `history`.
    pub open spec fn holds(&self, history: Seq<String>) -> bool {
        self.lines@ == latest_of(history) && self.total == history.len()
    }

    /// The lines from the number `cursor` on, as far as they are kept.
    pub open spec fn since_of(&self, cursor: int) -> Seq<String> {
        let dropped = self.total - self.lines@.len();
        if cursor <= dropped {
            self.lines@
        } else if cursor >= self.total {
            Seq::empty()
        } else {
            self.lines@.skip(cursor - dropped)
        }
    }

    pub fn new() -> (r: Log)
        ensures
            r.wf(),
            r.lines@ == Seq::<String>::empty(),
            r.total == 0,
    {
        Log { lines: VecDeque::new(), total: 0 }
    }

    /// Puts a line behind the others, of which the first leaves where there is
    /// no room.
    pub fn push(&mut self, line: String)
        requires
            old(self).wf(),
            old(self).total < u64::MAX,
        ensures
            final(self).wf(),
            final(self).total == old(self).total + 1,
            final(self).lines@ == room_of(old(self).lines@).push(line),
    {
        if self.lines.len() >= LOG_CAP {
            self.lines.pop_front();
            assert(self.lines@ =~= old(self).lines@.skip(1));
        }
        self.lines.push_back(line);
        self.total = self.total + 1;
    }

    /// The lines from the number `cursor` on, and the number of the next one.
    pub fn since(&self, cursor: u64) -> (r: (Vec<String>, u64))
        requires
            self.wf(),
        ensures
            r.0@ == self.since_of(cursor as int),
            r.1 == self.total,
    {
        let dropped: u64 = self.total - self.lines.len() as u64;
        let from: u64 = if cursor < dropped {
            dropped
        } else {
            cursor
        };
        let mut fresh: Vec<String> = Vec::new();
        let n: usize = self.lines.len();
        if from >= self.total {
            if n == 0 {
                assert(fresh@ =~= self.since_of(cursor as int));
            }
            return (fresh, self.total);
        }
        let start: usize = (from - dropped) as usize;
        let mut i: usize = start;
        while i < n
            invariant
                start <= i <= n,
                n == self.lines@.len(),
                fresh@ == self.lines@.subrange(start as int, i as int),
            decreases n - i,
        {
            fresh.push(self.lines[i].clone());
            i = i + 1;
            assert(fresh@ =~= self.lines@.subrange(start as int, i as int));
        }
        assert(fresh@ =~= self.since_of(cursor as int));
        (fresh, self.total)
    }
}

/// A log stays the log of all that there has been, whatever is put into it.
pub proof fn log_keeps_its_history(history: Seq<String>, line: String)
    ensures
        latest_of(history.push(line)) == if latest_of(history).len() >= LOG_CAP {
            latest_of(history).skip(1).push(line)
        } else {
            latest_of(history).push(line)
        },
{
    if history.len() >= LOG_CAP {
        assert(latest_of(history.push(line)) =~= latest_of(history).skip(1).push(line));
    }
}

/// Who asks again with the number that was handed out sees what has come since,
/// each line once, as far as it is kept.
pub proof fn since_shows_what_is_new(log: Log, history: Seq<String>, cursor: int)
    requires
        log.holds(history),
        0 <= cursor <= history.len(),
    ensures
        log.since_of(cursor) == if cursor < history.len() - LOG_CAP {
            history.skip(history.len() - LOG_CAP)
        } else {
            history.skip(cursor)
        },
{
    assert(log.since_of(cursor) =~= if cursor < history.len() - LOG_CAP {
        history.skip(history.len() - LOG_CAP)
    } else {
        history.skip(cursor)
    });
}

/// The texts that are not empty.
pub open spec fn filled(ls: Seq<Seq<char>>) -> Seq<Seq<char>>
    decreases ls.len(),
{
    if ls.len() == 0 {
        ls
    } else if ls.last().len() > 0 {
        filled(ls.drop_last()).push(ls.last())
    } else {
        filled(ls.drop_last())
    }
}

/// What an orchestrator that ended at once has said: its last two lines.
pub open spec fn last_words_of(ls: Seq<Seq<char>>) -> Seq<char> {
    let tail = filled(
        if ls.len() <= 2 {
            ls
        } else {
            ls.skip(ls.len() - 2)
        },
    );
    if tail.len() == 0 {
        "оркестратор сразу умер"@
    } else {
        text::join_of(tail, " / "@)
    }
}

/// The last words are those of the last two lines, of the last one where the
/// other is empty.
pub proof fn last_two_lines_are_told(ls: Seq<Seq<char>>, a: Seq<char>, b: Seq<char>)
    ensures
        a.len() > 0 && b.len() > 0 ==> last_words_of(ls.push(a).push(b)) == a + " / "@ + b,
        a.len() == 0 && b.len() > 0 ==> last_words_of(ls.push(a).push(b)) == b,
        a.len() > 0 && b.len() == 0 ==> last_words_of(ls.push(a).push(b)) == a,
        a.len() == 0 && b.len() == 0 ==> last_words_of(ls.push(a).push(b))
            == "оркестратор сразу умер"@,
        b.len() > 0 ==> last_words_of(seq![b]) == b,
        last_words_of(Seq::empty()) == "оркестратор сразу умер"@,
{
    let all = ls.push(a).push(b);
    let two = seq![a, b];
    assert(all.len() > 2 ==> all.skip(all.len() - 2) =~= two);
    assert(all.len() == 2 ==> all =~= two);
    assert(two.drop_last() =~= seq![a]);
    assert(seq![a].drop_last() =~= Seq::<Seq<char>>::empty());
    assert(seq![b].drop_last() =~= Seq::<Seq<char>>::empty());
    let none = Seq::<Seq<char>>::empty();
    assert(filled(none) == none);
    assert(filled(seq![a]) =~= if a.len() > 0 {
        seq![a]
    } else {
        none
    });
    assert(filled(seq![b]) =~= if b.len() > 0 {
        seq![b]
    } else {
        none
    });
    assert(filled(two) =~= filled(seq![a]) + filled(seq![b]));
    reveal_with_fuel(text::join_of, 4);
    assert(text::join_of(seq![a], " / "@) =~= a);
    assert(text::join_of(seq![b], " / "@) =~= b);
    assert(text::join_of(two, " / "@) =~= a + " / "@ + b);
    if all.len() > 0 {
        assert(filled(two) =~= if a.len() > 0 && b.len() > 0 {
            two
        } else {
            filled(seq![a]) + filled(seq![b])
        });
    }
}

/// What an orchestrator that ended at once has said.
pub fn last_words(log: &Log) -> (r: String)
    ensures
        r@ == last_words_of(text::texts(log.lines@)),
{
    let n: usize = log.lines.len();
    let start: usize = if n <= 2 {
        0
    } else {
        n - 2
    };
    let ghost all = text::texts(log.lines@);
    let ghost tail = if all.len() <= 2 {
        all
    } else {
        all.skip(all.len() - 2)
    };
    let mut words: Vec<String> = Vec::new();
    let mut i: usize = start;
    assert(tail.take(0) =~= Seq::empty());
    assert(text::texts(words@) =~= Seq::empty());
    while i < n
        invariant
            start <= i <= n,
            n == log.lines@.len(),
            start == if n <= 2 {
                0
            } else {
                n - 2
            },
            all == text::texts(log.lines@),
            tail == if all.len() <= 2 {
                all
            } else {
                all.skip(all.len() - 2)
            },
            text::texts(words@) == filled(tail.take(i - start)),
        decreases n - i,
    {
        let ghost k = i - start;
        assert(tail.take(k + 1).drop_last() =~= tail.take(k));
        assert(tail.take(k + 1).last() == log.lines@[i as int]@);
        if chars_of(log.lines[i].as_str()).len() > 0 {
            push_to(&mut words, log.lines[i].as_str());
        }
        i = i + 1;
    }
    assert(tail.take(n - start) =~= tail);
    if words.len() == 0 {
        "оркестратор сразу умер".to_owned()
    } else {
        join(&words, " / ")
    }
}

// ---------------------------------------------------------------------------
// What is printed
// ---------------------------------------------------------------------------

/// A line without a prompt before it and white space behind it.
pub open spec fn tidy_of(line: Seq<char>) -> Seq<char> {
    let t = text::trim_end_of(line);
    text::trim_end_of(
        match text::strip_prefix_of(t, "> "@) {
            Some(rest) => rest,
            None => t,
        },
    )
}

/// A line without a prompt before it and white space behind it.
pub fn tidy(line: &str) -> (r: String)
    ensures
        r@ == tidy_of(line@),
{
    let chars = chars_of(line);
    let t = trim_end(chars.as_slice());
    let prompt = chars_of("> ");
    let rest = match strip_prefix(t, prompt.as_slice()) {
        Some(rest) => rest,
        None => t,
    };
    string_of(trim_end(rest))
}

/// A prompt before a line and white space behind it do not count; without these
/// a line is kept as it is.
pub proof fn prompt_does_not_count(line: Seq<char>)
    requires
        line.len() > 0 && !text::is_space_of(line.last()),
    ensures
        tidy_of("> "@ + line) == line,
        !text::starts_of(line, "> "@) ==> tidy_of(line) == line,
        tidy_of(line).len() > 0 ==> !text::is_space_of(tidy_of(line).last()),
{
    let p = "> "@ + line;
    assert(p.last() == line.last());
    text::parts_are_found(Seq::empty(), "> "@, line);
    text::lemma_trim_end(match text::strip_prefix_of(line, "> "@) {
        Some(rest) => rest,
        None => line,
    });
}

/// A problem that a check has found.
#[derive(Debug, PartialEq)]
pub struct Alert {
    pub id: String,
    pub text: String,
    pub when: String,
}

pub open spec fn alphanumeric(c: char) -> bool {
    ('0' <= c && c <= '9') || ('a' <= c && c <= 'z') || ('A' <= c && c <= 'Z')
}

/// The number of a check is written with the letters and digits of ASCII, all of
/// them and no others.
pub proof fn letters_and_digits_number_a_check(c: char)
    ensures
        alphanumeric(c)
            <==> "0123456789abcdefghijklmnopqrstuvwxyzABCDEFGHIJKLMNOPQRSTUVWXYZ"@.contains(c),
{
    reveal_strlit("0123456789abcdefghijklmnopqrstuvwxyzABCDEFGHIJKLMNOPQRSTUVWXYZ");
    let all = "0123456789abcdefghijklmnopqrstuvwxyzABCDEFGHIJKLMNOPQRSTUVWXYZ"@;
    assert(all.len() == 62);
    let n = c as int;
    if alphanumeric(c) {
        if '0' <= c && c <= '9' {
            assert(all[n - 48] == c);
        } else if 'a' <= c && c <= 'z' {
            assert(all[n - 97 + 10] == c);
        } else {
            assert(all[n - 65 + 36] == c);
        }
    }
    if all.contains(c) {
        let k = choose|k: int| 0 <= k < all.len() && all[k] == c;
        assert(alphanumeric(all[k]));
    }
}

/// The number of a check and the problem that it has found, where a line says
/// so.
pub open spec fn parse_alert_of(line: Seq<char>) -> Option<(Seq<char>, Seq<char>)> {
    match text::strip_prefix_of(text::trim_of(line), "⚠ проверка "@) {
        Some(rest) => match text::split_once_of(rest, ":"@) {
            Some((a, b)) => {
                let id = text::trim_of(a);
                let what = text::trim_of(b);
                if id.len() > 0 && what.len() > 0 && (forall|i: int|
                    0 <= i < id.len() ==> alphanumeric(#[trigger] id[i])) {
                    Some((id, what))
                } else {
                    None
                }
            },
            None => None,
        },
        None => None,
    }
}

/// A problem that is reported is heard: its number and what it is, as they were
/// written.
pub proof fn reported_problem_is_heard(id: Seq<char>, what: Seq<char>)
    requires
        id.len() > 0,
        forall|i: int| 0 <= i < id.len() ==> alphanumeric(#[trigger] id[i]),
        what.len() > 0 && text::trim_of(what) == what,
    ensures
        parse_alert_of("⚠ проверка "@ + id + seq![':'] + (seq![' '] + what)) == Some((id, what)),
{
    let head = "⚠ проверка "@;
    let none = Seq::<char>::empty();
    let tail = seq![' '] + what;
    let rest = id + seq![':'] + tail;
    let line = head + id + seq![':'] + tail;
    text::lemma_trim(what);
    assert(line =~= head + rest);
    assert(text::trim_of(line) == line) by {
        reveal_strlit("⚠ проверка ");
        assert(line[0] == '⚠' && line.last() == what.last());
        text::trim_takes_only_space(none, line, none);
        assert(none + line + none =~= line);
    }
    assert(text::strip_prefix_of(line, head) == Some(rest)) by {
        text::parts_are_found(none, head, rest);
    }
    assert(text::split_once_of(rest, ":"@) == Some((id, tail))) by {
        reveal_strlit(":");
        assert(":"@ =~= seq![':']);
        assert forall|i: int| 0 <= i < id.len() implies id[i] != ':' by {
            assert(alphanumeric(id[i]));
        }
        text::split_once_cuts_at_one_place(id, ':', tail);
    }
    assert(text::trim_of(id) == id) by {
        assert(alphanumeric(id[0]) && alphanumeric(id[id.len() - 1]));
        text::trim_takes_only_space(none, id, none);
        assert(none + id + none =~= id);
    }
    assert(text::trim_of(tail) == what) by {
        text::trim_takes_only_space(seq![' '], what, none);
        assert(seq![' '] + what + none =~= tail);
    }
}

/// What is heard as a problem has a number of letters and digits, and says
/// something.
pub proof fn only_problems_are_heard(line: Seq<char>)
    ensures
        parse_alert_of(line) matches Some((id, what)) ==> {
            &&& id.len() > 0 && what.len() > 0
            &&& forall|i: int| 0 <= i < id.len() ==> alphanumeric(#[trigger] id[i])
            &&& text::starts_of(text::trim_of(line), "⚠ проверка "@)
        },
{
}

/// The number of a check and the problem that it has found, where a line says
/// so.
pub fn parse_alert(line: &str) -> (r: Option<(String, String)>)
    ensures
        match r {
            Some((id, what)) => parse_alert_of(line@) == Some((id@, what@)),
            None => parse_alert_of(line@) is None,
        },
{
    let chars = chars_of(line);
    let mark = chars_of("⚠ проверка ");
    let colon = chars_of(":");
    let rest = match strip_prefix(trim(chars.as_slice()), mark.as_slice()) {
        Some(rest) => rest,
        None => return None,
    };
    let (a, b) = match split_once(rest, colon.as_slice()) {
        Some(pair) => pair,
        None => return None,
    };
    let id = trim(a);
    let what = trim(b);
    if id.len() == 0 || what.len() == 0 {
        return None;
    }
    let mut i: usize = 0;
    while i < id.len()
        invariant
            i <= id@.len(),
            id@.len() > 0,
            what@.len() > 0,
            id@ == text::trim_of(a@),
            what@ == text::trim_of(b@),
            text::strip_prefix_of(text::trim_of(line@), "⚠ проверка "@) == Some(rest@),
            text::split_once_of(rest@, ":"@) == Some((a@, b@)),
            forall|k: int| 0 <= k < i ==> alphanumeric(#[trigger] id@[k]),
        decreases id.len() - i,
    {
        let c: char = id[i];
        if !(('0' <= c && c <= '9') || ('a' <= c && c <= 'z') || ('A' <= c && c <= 'Z')) {
            assert(!alphanumeric(id@[i as int]));
            return None;
        }
        i = i + 1;
    }
    Some((string_of(id), string_of(what)))
}

// ---------------------------------------------------------------------------
// The agent
// ---------------------------------------------------------------------------

/// The problem `what` of the check `id`, found at the time `when`.
pub open spec fn alert_of(id: String, what: String, when: String) -> Alert {
    Alert { id, text: what, when }
}

/// A problem is kept under the number of its check, with its words and its time.
pub proof fn problem_keeps_its_words(id: String, what: String, when: String)
    ensures
        alert_of(id, what, when).id@ == id@,
        alert_of(id, what, when).text@ == what@,
        alert_of(id, what, when).when@ == when@,
{
}

/// What is known of the agent.
pub struct Agent {
    pub log: Log,
    pub linked: bool,
    pub peer: String,
    pub busy: bool,
    pub alerts: Vec<Alert>,
}

/// What a line says of the link to the other machine: that it is there, with
/// its name, or that it is gone.
pub enum LinkNews {
    Up(Seq<char>),
    Down,
    Same,
}

pub open spec fn link_news(t: Seq<char>) -> LinkNews {
    match text::strip_suffix_of(t, " на связи"@) {
        Some(host) => LinkNews::Up(host),
        None => if text::contains_of(t, "на связи, инструментов"@) {
            LinkNews::Up(text::split_of(t, ' ')[0])
        } else if text::ends_of(t, "отключился"@) {
            LinkNews::Down
        } else {
            LinkNews::Same
        },
    }
}

/// What is handed to the orchestrator for a task.
pub open spec fn task_of(linked: bool, task: Seq<char>) -> Option<Seq<char>> {
    if text::trim_of(task).len() == 0 || !linked {
        None
    } else {
        Some(text::trim_of(task))
    }
}

/// No task goes out without a link, and none that says nothing; what goes out is
/// the task, white space round it aside.
pub proof fn tasks_need_a_link(task: Seq<char>)
    ensures
        task_of(false, task) is None,
        task_of(true, task) matches Some(t) ==> t.len() > 0 && !text::is_space_of(t[0])
            && !text::is_space_of(t.last()),
        task.len() > 0 && text::trim_of(task) == task ==> task_of(true, task) == Some(task),
        task_of(true, Seq::empty()) is None,
{
    text::lemma_trim(task);
}

/// What is printed of the link is heard: that a machine is there, by its name,
/// with or without what it can do, and that it has gone.
pub proof fn link_is_heard(host: Seq<char>, tail: Seq<char>)
    ensures
        link_news(host + " на связи"@) == LinkNews::Up(host),
        !host.contains(' ') && !text::ends_of(
            host + " на связи, инструментов"@ + tail,
            " на связи"@,
        ) ==> link_news(host + " на связи, инструментов"@ + tail) == LinkNews::Up(host),
        !text::contains_of(host + "отключился"@, "на связи, инструментов"@) ==> link_news(
            host + "отключился"@,
        ) == LinkNews::Down,
{
    text::parts_are_found(host, " на связи"@, Seq::empty());
    let tools = "на связи, инструментов"@;
    let mark = " на связи, инструментов"@;
    reveal_strlit(" на связи, инструментов");
    reveal_strlit("на связи, инструментов");
    assert(mark =~= seq![' '] + tools);
    let line = host + mark + tail;
    assert(line =~= (host + seq![' ']) + tools + tail);
    text::parts_are_found(host + seq![' '], tools, tail);
    assert(line =~= host + seq![' '] + (tools + tail));
    if !host.contains(' ') {
        text::split_cuts_at_the_first(host, ' ', tools + tail);
    }
    let off = host + "отключился"@;
    text::parts_are_found(host, "отключился"@, Seq::empty());
    reveal_strlit("отключился");
    reveal_strlit(" на связи");
    if text::ends_of(off, " на связи"@) {
        assert(off.last() == 'я');
        assert(" на связи"@.len() == 9 && " на связи"@[8] == 'и');
        assert(off.subrange(off.len() - 9, off.len() as int)[8] == off[off.len() - 1]);
    }
}

/// The line `t`, tidied, was heard: it makes `a` into `b`, and `r` is the problem
/// that it reports.
pub open spec fn told(a: Agent, t: Seq<char>, b: Agent, r: Option<(String, String)>) -> bool {
    let news = link_news(t);
    let done = text::contains_of(t, DONE@);
    let shown = t.len() > 0 && !done;
    &&& b.linked == if t.len() == 0 {
        a.linked
    } else {
        match news {
            LinkNews::Up(_) => true,
            LinkNews::Down => false,
            LinkNews::Same => a.linked,
        }
    }
    &&& b.peer@ == match news {
        LinkNews::Up(host) => if t.len() > 0 {
            host
        } else {
            a.peer@
        },
        _ => a.peer@,
    }
    &&& b.busy == (a.busy && (t.len() == 0 || !(news is Down || done)))
    &&& b.log.total == a.log.total + if shown {
        1int
    } else {
        0int
    }
    &&& if shown {
        &&& b.log.lines@.last()@ == t
        &&& b.log.lines@ == room_of(a.log.lines@).push(b.log.lines@.last())
    } else {
        b.log == a.log
    }
    &&& match r {
        Some((id, what)) => shown && parse_alert_of(t) == Some((id@, what@)),
        None => !shown || parse_alert_of(t) is None,
    }
}

/// An agent is busy until the mark of the end is heard or its machine has gone,
/// and nothing that is heard makes it busy. A machine that comes is linked under
/// its name, and one that goes is not linked any more. All that is heard goes to
/// the log, but for the mark.
pub proof fn mark_of_the_end_frees_the_agent(
    a: Agent,
    x: Seq<char>,
    y: Seq<char>,
    b: Agent,
    r: Option<(String, String)>,
    t: Seq<char>,
    c: Agent,
)
    requires
        told(a, x + DONE@ + y, b, r),
        told(a, t, c, r),
        t.len() > 0,
        !text::contains_of(t, DONE@),
    ensures
        !b.busy && b.log == a.log && r is None,
        !a.busy ==> !c.busy,
        a.busy ==> (c.busy <==> !(link_news(t) is Down)),
        link_news(t) matches LinkNews::Up(host) ==> c.linked && c.peer@ == host,
        link_news(t) is Down ==> !c.linked && c.peer@ == a.peer@,
        link_news(t) is Same ==> c.linked == a.linked && c.peer@ == a.peer@,
        c.log.total == a.log.total + 1 && c.log.lines@.last()@ == t,
{
    text::parts_are_found(x, DONE@, y);
    reveal_strlit("— готово —");
    assert(DONE@.len() > 0);
}

impl Agent {
    pub open spec fn wf(&self) -> bool {
        self.log.wf()
    }

    pub fn new() -> (r: Agent)
        ensures
            r.wf(),
            r.log.total == 0,
            r.log.lines@ == Seq::<String>::empty(),
            !r.linked,
            !r.busy,
            r.peer@ == Seq::<char>::empty(),
            r.alerts@ == Seq::<Alert>::empty(),
    {
        let r = Agent {
            log: Log::new(),
            linked: false,
            peer: String::new(),
            busy: false,
            alerts: Vec::new(),
        };
        assert(r.peer@ =~= Seq::empty());
        r
    }

    /// Takes in a line that the orchestrator printed: whether the machine is
    /// linked, whether the task is done, and what goes to the log. A problem
    /// that a check has found comes back.
    pub fn heard(&mut self, line: &str) -> (r: Option<(String, String)>)
        requires
            old(self).wf(),
            old(self).log.total < u64::MAX,
        ensures
            final(self).wf(),
            final(self).alerts == old(self).alerts,
            told(*old(self), tidy_of(line@), *final(self), r),
    {
        let said = tidy(line);
        let chars = chars_of(said.as_str());
        if chars.len() == 0 {
            return None;
        }
        let t = chars.as_slice();
        let suffix = chars_of(" на связи");
        let tools = chars_of("на связи, инструментов");
        let gone = chars_of("отключился");
        let done = chars_of(DONE);
        if let Some(host) = strip_suffix(t, suffix.as_slice()) {
            self.linked = true;
            self.peer = string_of(host);
        } else if contains(t, tools.as_slice()) {
            self.linked = true;
            let parts = split(t, ' ');
            proof {
                text::lemma_split_nonempty(t@, ' ');
            }
            assert(text::views(parts@)[0] == parts@[0]@);
            self.peer = string_of(parts[0]);
        } else if ends(t, gone.as_slice()) {
            self.linked = false;
            self.busy = false;
        }
        if contains(t, done.as_slice()) {
            self.busy = false;
            return None;
        }
        let alert = parse_alert(said.as_str());
        self.log.push(said);
        alert
    }

    /// Keeps a problem that a check has found, with the time.
    pub fn add_alert(&mut self, id: String, what: String, when: String)
        ensures
            final(self).alerts@ == old(self).alerts@.push(alert_of(id, what, when)),
            *final(self) == (Agent { alerts: final(self).alerts, ..*old(self) }),
    {
        self.alerts.push(Alert { id, text: what, when });
    }

    /// The problems that were kept; each is handed out once.
    pub fn take_alerts(&mut self) -> (r: Vec<Alert>)
        ensures
            r@ == old(self).alerts@,
            final(self).alerts@ == Seq::<Alert>::empty(),
            *final(self) == (Agent { alerts: final(self).alerts, ..*old(self) }),
    {
        let mut out: Vec<Alert> = Vec::new();
        out.append(&mut self.alerts);
        assert(out@ =~= old(self).alerts@);
        out
    }

    /// The orchestrator has ended.
    pub fn ended(&mut self)
        ensures
            *final(self) == (Agent { linked: false, busy: false, ..*old(self) }),
    {
        self.linked = false;
        self.busy = false;
    }

    /// What is handed to the orchestrator for a task: nothing where the task is
    /// empty or the machine is not linked.
    pub fn task_line(&self, task: &str) -> (r: Option<String>)
        ensures
            text::opt_text(r) == task_of(self.linked, task@),
    {
        let t = trimmed(task);
        if chars_of(t.as_str()).len() == 0 || !self.linked {
            None
        } else {
            Some(t)
        }
    }

    /// A task was handed to the orchestrator.
    pub fn sent(&mut self, task: &str)
        requires
            old(self).wf(),
            old(self).log.total < u64::MAX,
        ensures
            final(self).wf(),
            final(self).busy,
            final(self).linked == old(self).linked,
            final(self).peer == old(self).peer,
            final(self).alerts == old(self).alerts,
            final(self).log.total == old(self).log.total + 1,
            final(self).log.lines@.last()@ == "▸ "@ + task@,
            final(self).log.lines@ == room_of(old(self).log.lines@).push(
                final(self).log.lines@.last(),
            ),
    {
        self.busy = true;
        self.note(cat("▸ ", task));
    }

    /// The orchestrator was told to stop the task.
    pub fn stop_sent(&mut self)
        requires
            old(self).wf(),
            old(self).log.total < u64::MAX,
        ensures
            final(self).wf(),
            final(self).busy == old(self).busy,
            final(self).linked == old(self).linked,
            final(self).peer == old(self).peer,
            final(self).alerts == old(self).alerts,
            final(self).log.total == old(self).log.total + 1,
            final(self).log.lines@.last()@ == "▪ стоп"@,
            final(self).log.lines@ == room_of(old(self).log.lines@).push(
                final(self).log.lines@.last(),
            ),
    {
        self.note("▪ стоп".to_owned());
    }

    fn note(&mut self, line: String)
        requires
            old(self).wf(),
            old(self).log.total < u64::MAX,
        ensures
            final(self).wf(),
            final(self).busy == old(self).busy,
            final(self).linked == old(self).linked,
            final(self).peer == old(self).peer,
            final(self).alerts == old(self).alerts,
            final(self).log.total == old(self).log.total + 1,
            final(self).log.lines@ == room_of(old(self).log.lines@).push(line),
    {
        self.log.push(line);
    }
}

/// The command line by which a stray orchestrator is found.
pub fn stray_pattern(python: &str) -> (r: String)
    ensures
        r@ == python@ + " -u server/orchestrator.py"@,
{
    cat(python, " -u server/orchestrator.py")
}

} // verus!
