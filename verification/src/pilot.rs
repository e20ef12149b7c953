//! The autopilot as a process.

use crate::clock::{Duration, SECOND};
use crate::text;
use crate::text::{as_opt_str, cat, decimal_u64, push_to};
use std::collections::VecDeque;
use vstd::prelude::*;

verus! {

/// So many of the latest lines are kept.
pub const LOG_CAP: usize = 6;

/// A process is given so many seconds to leave.
pub const STOP_GRACE_SECS: u64 = 3;

/// A look every so many milliseconds.
pub const STOP_POLL_MS: u64 = 100;

/// What the autopilot does.
#[derive(Debug, Clone, PartialEq, Eq)]
pub enum Phase {
    Chat,
    Apply,
    Scan(String),
    ScanAll,
    Enrich,
}

impl Phase {
    /// The same phase.
    pub open spec fn same(self, other: Phase) -> bool {
        match (self, other) {
            (Phase::Chat, Phase::Chat) => true,
            (Phase::Apply, Phase::Apply) => true,
            (Phase::Scan(a), Phase::Scan(b)) => a@ == b@,
            (Phase::ScanAll, Phase::ScanAll) => true,
            (Phase::Enrich, Phase::Enrich) => true,
            _ => false,
        }
    }

    /// Whether both are the same phase.
    pub fn is(&self, other: &Phase) -> (r: bool)
        ensures
            r == self.same(*other),
    {
        match (self, other) {
            (Phase::Chat, Phase::Chat) => true,
            (Phase::Apply, Phase::Apply) => true,
            (Phase::Scan(a), Phase::Scan(b)) => text::same_str(a.as_str(), b.as_str()),
            (Phase::ScanAll, Phase::ScanAll) => true,
            (Phase::Enrich, Phase::Enrich) => true,
            _ => false,
        }
    }

    /// The phase once more.
    pub fn copy(&self) -> (r: Phase)
        ensures
            self.same(r),
    {
        match self {
            Phase::Chat => Phase::Chat,
            Phase::Apply => Phase::Apply,
            Phase::Scan(g) => Phase::Scan(g.clone()),
            Phase::ScanAll => Phase::ScanAll,
            Phase::Enrich => Phase::Enrich,
        }
    }

    pub open spec fn args_of(self) -> Seq<Seq<char>> {
        match self {
            Phase::Chat => seq!["--chat"@],
            Phase::Apply => seq!["--apply"@],
            Phase::Scan(g) => seq!["--scan"@, "--group"@, g@],
            Phase::ScanAll => seq!["--scan"@],
            Phase::Enrich => seq!["--enrich"@],
        }
    }

    /// The words that ask for the phase.
    pub fn args(&self) -> (r: Vec<String>)
        ensures
            text::texts(r@) == self.args_of(),
    {
        let mut v: Vec<String> = Vec::new();
        assert(text::texts(v@) =~= Seq::empty());
        match self {
            Phase::Chat => push_to(&mut v, "--chat"),
            Phase::Apply => push_to(&mut v, "--apply"),
            Phase::Scan(g) => {
                push_to(&mut v, "--scan");
                push_to(&mut v, "--group");
                push_to(&mut v, g.as_str());
            },
            Phase::ScanAll => push_to(&mut v, "--scan"),
            Phase::Enrich => push_to(&mut v, "--enrich"),
        }
        assert(text::texts(v@) =~= self.args_of());
        v
    }
}

/// The words of the command that starts the autopilot.
pub open spec fn run_args_of(profile: Option<Seq<char>>, phase: Phase) -> Seq<Seq<char>> {
    match profile {
        Some(p) => seq!["run"@, "--profile"@, p] + phase.args_of(),
        None => seq!["run"@] + phase.args_of(),
    }
}

/// The words of the command that starts the autopilot.
pub fn run_args(profile: Option<&str>, phase: &Phase) -> (r: Vec<String>)
    ensures
        text::texts(r@) == run_args_of(text::opt_str(profile), *phase),
{
    let mut v: Vec<String> = Vec::new();
    assert(text::texts(v@) =~= Seq::empty());
    push_to(&mut v, "run");
    if let Some(p) = profile {
        push_to(&mut v, "--profile");
        push_to(&mut v, p);
    }
    let ghost head = text::texts(v@);
    let words = phase.args();
    let ghost all = text::texts(words@);
    let mut i: usize = 0;
    assert(text::texts(v@) =~= head + all.take(0));
    while i < words.len()
        invariant
            i <= words@.len(),
            all == text::texts(words@),
            text::texts(v@) == head + all.take(i as int),
        decreases words.len() - i,
    {
        push_to(&mut v, words[i].as_str());
        assert(all[i as int] == words@[i as int]@);
        assert(text::texts(v@) =~= head + all.take(i + 1));
        i = i + 1;
    }
    assert(all.take(all.len() as int) =~= all);
    assert(text::texts(v@) =~= run_args_of(text::opt_str(profile), *phase));
    v
}

/// The profile is named right behind the word that asks for it, and the words of
/// the phase stand at the end; no two phases are asked for by the same words.
pub proof fn phases_are_told_apart(profile: Seq<char>, a: Phase, b: Phase)
    ensures
        run_args_of(Some(profile), a)[0] == "run"@ && run_args_of(None, a)[0] == "run"@,
        run_args_of(Some(profile), a)[1] == "--profile"@ && run_args_of(Some(profile), a)[2]
            == profile,
        run_args_of(Some(profile), a).skip(3) == run_args_of(None, a).skip(1),
        run_args_of(None, a) == run_args_of(None, b) ==> a.same(b),
        a matches Phase::Scan(g) ==> run_args_of(None, a).last() == g@,
{
    reveal_strlit("--chat");
    reveal_strlit("--apply");
    reveal_strlit("--scan");
    reveal_strlit("--enrich");
    assert("--chat"@[2] == 'c' && "--apply"@[2] == 'a' && "--scan"@[2] == 's' && "--enrich"@[2]
        == 'e');
    let x = run_args_of(None, a);
    let y = run_args_of(None, b);
    assert(run_args_of(Some(profile), a).skip(3) =~= a.args_of());
    assert(x.skip(1) =~= a.args_of());
    assert(y.skip(1) =~= b.args_of());
    if x == y {
        assert(a.args_of()[0] == b.args_of()[0]);
        assert(a.args_of().len() == b.args_of().len());
        if a is Scan && b is Scan {
            assert(a.args_of()[2] == b.args_of()[2]);
        }
    }
}

/// The environment says how alike a vacancy has to be only where that is set,
/// and asks for the newest first only where they come first.
pub proof fn environment_says_what_is_set(s: Seq<char>, fresh: bool, v: Seq<char>)
    ensures
        environment_of(Some(s), fresh).contains(("MIN_SIMILARITY"@, v)) <==> v == s,
        !environment_of(None, fresh).contains(("MIN_SIMILARITY"@, v)),
        environment_of(Some(s), fresh).contains(("APPLY_ORDER"@, v)) <==> fresh && v == "fresh"@,
        environment_of(None, fresh).contains(("APPLY_ORDER"@, v)) <==> fresh && v == "fresh"@,
{
    reveal_strlit("MIN_SIMILARITY");
    reveal_strlit("APPLY_ORDER");
    assert("MIN_SIMILARITY"@.len() == 14 && "APPLY_ORDER"@.len() == 11);
    let a = environment_of(Some(s), fresh);
    let b = environment_of(None, fresh);
    assert(a[0] == ("MIN_SIMILARITY"@, s));
    if fresh {
        assert(a[1] == ("APPLY_ORDER"@, "fresh"@));
        assert(b[0] == ("APPLY_ORDER"@, "fresh"@));
    }
}

/// What the command finds in its environment: how alike a vacancy has to be,
/// where that is said, and that the newest come first, where they do.
pub open spec fn environment_of(similarity: Option<Seq<char>>, fresh: bool) -> Seq<
    (Seq<char>, Seq<char>),
> {
    (match similarity {
        Some(s) => seq![("MIN_SIMILARITY"@, s)],
        None => Seq::empty(),
    }) + (if fresh {
        seq![("APPLY_ORDER"@, "fresh"@)]
    } else {
        Seq::empty()
    })
}

/// The names and values of variables.
pub open spec fn variable_views(v: Seq<(&str, &str)>) -> Seq<(Seq<char>, Seq<char>)> {
    v.map_values(|p: (&str, &str)| (p.0@, p.1@))
}

/// What the command finds in its environment.
pub fn environment(similarity: Option<&str>, fresh: bool) -> (r: Vec<(&str, &str)>)
    ensures
        variable_views(r@) == environment_of(text::opt_str(similarity), fresh),
{
    let mut v: Vec<(&str, &str)> = Vec::new();
    if let Some(s) = similarity {
        v.push(("MIN_SIMILARITY", s));
    }
    if fresh {
        v.push(("APPLY_ORDER", "fresh"));
    }
    assert(variable_views(v@) =~= environment_of(text::opt_str(similarity), fresh));
    v
}

/// The words of the command that looks how far the search is.
pub fn refresh_scan_status(profile: &str) -> (r: Vec<String>)
    ensures
        text::texts(r@) == seq!["scan-status"@, "--profile"@, profile@],
{
    let mut v: Vec<String> = Vec::new();
    push_to(&mut v, "scan-status");
    push_to(&mut v, "--profile");
    push_to(&mut v, profile);
    assert(text::texts(v@) =~= seq!["scan-status"@, "--profile"@, profile@]);
    v
}

/// An autopilot that was started: what it does and for whom, what is known of
/// it, and its latest lines. `min_sim` is the bit pattern of an `f32`.
pub struct Pilot {
    pub phase: Phase,
    pub profile: Option<String>,
    pub min_sim: u32,
    pub apply_fresh: bool,
    pub paused: bool,
    pub log: VecDeque<String>,
}

/// The latest of the lines.
pub open spec fn latest(lines: Seq<Seq<char>>) -> Seq<Seq<char>> {
    if lines.len() > LOG_CAP {
        lines.skip(lines.len() - LOG_CAP)
    } else {
        lines
    }
}

/// The lines that are kept once one more was heard.
pub open spec fn heard_of(log: Seq<Seq<char>>, line: Seq<char>) -> Seq<Seq<char>> {
    if log.len() >= LOG_CAP {
        log.skip(1).push(line)
    } else {
        log.push(line)
    }
}

/// Line by line, the latest lines are kept.
pub proof fn log_keeps_the_latest(lines: Seq<Seq<char>>, line: Seq<char>)
    ensures
        heard_of(latest(lines), line) == latest(lines.push(line)),
        latest(lines).len() <= LOG_CAP,
{
    assert(heard_of(latest(lines), line) =~= latest(lines.push(line)));
}

/// The words that send a signal to a process.
pub open spec fn kill_args_of(signal: Seq<char>, target: Seq<char>) -> Seq<Seq<char>> {
    seq![signal, target]
}

fn kill_args(signal: &str, target: &str) -> (r: Vec<String>)
    ensures
        text::texts(r@) == kill_args_of(signal@, target@),
{
    let mut v: Vec<String> = Vec::new();
    push_to(&mut v, signal);
    push_to(&mut v, target);
    assert(text::texts(v@) =~= kill_args_of(signal@, target@));
    v
}

/// The words of an optional command.
pub open spec fn opt_texts(o: Option<Vec<String>>) -> Option<Seq<Seq<char>>> {
    match o {
        Some(v) => Some(text::texts(v@)),
        None => None,
    }
}

impl Pilot {
    /// An autopilot that has just been started. `min_similarity` is the bit
    /// pattern of an `f32`, none of it being zero.
    pub fn start(phase: Phase, profile: Option<&str>, min_similarity: Option<u32>, apply_fresh: bool) -> (r:
        Pilot)
        ensures
            r.phase.same(phase),
            text::opt_text(r.profile) == text::opt_str(profile),
            r.min_sim == match min_similarity {
                Some(bits) => bits,
                None => 0,
            },
            r.apply_fresh == apply_fresh,
            !r.paused,
            text::texts(r.log@) == Seq::<Seq<char>>::empty(),
    {
        let log: VecDeque<String> = VecDeque::new();
        assert(text::texts(log@) =~= Seq::empty());
        Pilot {
            phase,
            profile: match profile {
                Some(p) => Some(p.to_owned()),
                None => None,
            },
            min_sim: match min_similarity {
                Some(bits) => bits,
                None => 0,
            },
            apply_fresh,
            paused: false,
            log,
        }
    }

    /// The autopilot has said a line.
    pub fn heard(&mut self, line: String)
        ensures
            text::texts(final(self).log@) == heard_of(text::texts(old(self).log@), line@),
            final(self).phase == old(self).phase,
            final(self).profile == old(self).profile,
            final(self).min_sim == old(self).min_sim,
            final(self).apply_fresh == old(self).apply_fresh,
            final(self).paused == old(self).paused,
    {
        let ghost all = text::texts(self.log@);
        if self.log.len() >= LOG_CAP {
            let _ = self.log.pop_front();
        }
        self.log.push_back(line);
        assert(text::texts(self.log@) =~= heard_of(all, line@));
    }

    pub fn min_sim(&self) -> (r: u32)
        ensures
            r == self.min_sim,
    {
        self.min_sim
    }

    pub fn apply_fresh(&self) -> (r: bool)
        ensures
            r == self.apply_fresh,
    {
        self.apply_fresh
    }

    pub fn phase(&self) -> (r: &Phase)
        ensures
            *r == self.phase,
    {
        &self.phase
    }

    pub fn profile(&self) -> (r: Option<&str>)
        ensures
            text::opt_str(r) == text::opt_text(self.profile),
    {
        as_opt_str(&self.profile)
    }

    /// The latest line, where one was heard.
    pub fn last_line(&self) -> (r: Option<String>)
        ensures
            text::opt_text(r) == if self.log@.len() > 0 {
                Some(self.log@.last()@)
            } else {
                None
            },
    {
        let n: usize = self.log.len();
        if n > 0 {
            Some(self.log[n - 1].clone())
        } else {
            None
        }
    }

    pub fn is_paused(&self) -> (r: bool)
        ensures
            r == self.paused,
    {
        self.paused
    }

    /// Lets the autopilot pause: the words that tell it, none where it does
    /// already. `pid` is its process.
    pub fn pause(&mut self, pid: u32) -> (r: Option<Vec<String>>)
        ensures
            opt_texts(r) == if old(self).paused {
                None
            } else {
                Some(kill_args_of("-USR1"@, text::decimal_of(pid as nat)))
            },
            *final(self) == (Pilot { paused: true, ..*old(self) }),
    {
        if self.paused {
            return None;
        }
        self.paused = true;
        Some(kill_args("-USR1", decimal_u64(pid as u64).as_str()))
    }

    /// Lets the autopilot go on: the words that tell it, none where it does
    /// already.
    pub fn resume(&mut self, pid: u32) -> (r: Option<Vec<String>>)
        ensures
            opt_texts(r) == if old(self).paused {
                Some(kill_args_of("-USR2"@, text::decimal_of(pid as nat)))
            } else {
                None
            },
            *final(self) == (Pilot { paused: false, ..*old(self) }),
    {
        if !self.paused {
            return None;
        }
        self.paused = false;
        Some(kill_args("-USR2", decimal_u64(pid as u64).as_str()))
    }
}

/// What is done so that a process leaves.
#[derive(Debug, PartialEq, Eq)]
pub enum Stop {
    /// It has left.
    Gone,
    /// It is asked to, by these words.
    Ask(Vec<String>),
    /// It is waited for.
    Wait { pause_ms: u64 },
    /// It and its children are killed, by these words.
    Kill(Vec<String>),
}

/// What is done so that the process `pid` leaves: `exited` is whether it has,
/// and `asked` how long ago it was asked to. It is asked once, waited for, and
/// killed where it stays.
pub fn stop(pid: u32, exited: bool, asked: Option<Duration>) -> (r: Stop)
    ensures
        match r {
            Stop::Gone => exited,
            Stop::Ask(v) => {
                &&& !exited && asked is None
                &&& text::texts(v@) == kill_args_of("-TERM"@, text::decimal_of(pid as nat))
            },
            Stop::Wait { pause_ms } => {
                &&& !exited
                &&& asked matches Some(d) && d@ < STOP_GRACE_SECS * SECOND
                &&& pause_ms == STOP_POLL_MS
            },
            Stop::Kill(v) => {
                &&& !exited
                &&& asked matches Some(d) && d@ >= STOP_GRACE_SECS * SECOND
                &&& text::texts(v@) == kill_args_of("-KILL"@, "-"@ + text::decimal_of(pid as nat))
            },
        },
{
    if exited {
        return Stop::Gone;
    }
    match asked {
        None => Stop::Ask(kill_args("-TERM", decimal_u64(pid as u64).as_str())),
        Some(d) => if d.at_least(STOP_GRACE_SECS) {
            Stop::Kill(kill_args("-KILL", cat("-", decimal_u64(pid as u64).as_str()).as_str()))
        } else {
            Stop::Wait { pause_ms: STOP_POLL_MS }
        },
    }
}

} // verus!
