//! Only one copy of the program runs: a new one takes the place of the old.

use crate::clock::{Duration, SECOND};
use crate::json;
use crate::json::{Json, Tree};
use crate::paths;
use crate::paths::join;
use crate::telemetry;
use crate::telemetry::Event;
use crate::text;
use crate::text::{cat3, chars_of, decimal_i64, parse_i32, trim};
use vstd::prelude::*;

verus! {

/// The old copy is given so many seconds to leave.
pub const LOCK_WAIT_SECS: u64 = 15;

/// The old copy's helper is given so many seconds to leave.
pub const WHISPER_WAIT_SECS: u64 = 10;

/// A look every so many milliseconds.
pub const POLL_MS: u64 = 200;

/// After a kill, a pause of so many milliseconds.
pub const KILLED_MS: u64 = 500;

/// The file that the running copy has locked.
pub const LOCK_FILE: &'static str = "health-widget.lock";

/// The path of the lock: in the directory of the session, or among the temporary
/// files.
pub fn lock_path(runtime_dir: Option<&str>, temp_dir: &str) -> (r: String)
    ensures
        r@ == paths::join_of(
            match runtime_dir {
                Some(d) => d@,
                None => temp_dir@,
            },
            LOCK_FILE@,
        ),
{
    match runtime_dir {
        Some(d) => join(d, LOCK_FILE),
        None => join(temp_dir, LOCK_FILE),
    }
}

/// The number of the process that wrote the lock, where it can be read.
pub open spec fn old_pid_of(written: Seq<char>) -> Option<int> {
    text::parse_signed_of(text::trim_of(written), i32::MIN as int, i32::MAX as int)
}

/// The number of the process that wrote the lock.
pub fn old_pid(written: &str) -> (r: Option<i32>)
    ensures
        match r {
            Some(n) => old_pid_of(written@) == Some(n as int),
            None => old_pid_of(written@) is None,
        },
{
    let chars = chars_of(written);
    parse_i32(trim(chars.as_slice()))
}

/// The number that a process writes into the lock is read back.
pub proof fn pid_reads_back(pid: i32)
    ensures
        old_pid_of(text::decimal_int_of(pid as int)) == Some(pid as int),
{
    let d = text::decimal_int_of(pid as int);
    text::decimal_reads_back(pid as int);
    text::lemma_decimal(
        (if pid < 0 {
            -pid
        } else {
            pid as int
        }) as nat,
    );
    assert(!text::is_space_of(d[0]));
    assert(!text::is_space_of(d.last()));
}

/// The process that a signal goes to: none where its number could mean more
/// than one process, or the first of the system.
pub open spec fn target_of(pid: Option<i32>) -> Option<i32> {
    match pid {
        Some(n) if n > 1 => pid,
        _ => None,
    }
}

fn target(pid: Option<i32>) -> (r: Option<i32>)
    ensures
        r == target_of(pid),
{
    match pid {
        Some(n) => if n > 1 {
            pid
        } else {
            None
        },
        None => None,
    }
}

/// What the new copy does next.
#[derive(Debug, PartialEq, Eq)]
pub enum Step {
    /// It has the lock.
    Own,
    /// It waits, and tries again.
    Wait { pause_ms: u64 },
    /// It kills the process, where there is one, waits, and tries once more.
    Kill { pid: Option<i32>, pause_ms: u64 },
    /// It gives up, and says why.
    Quit(String),
}

/// What the new copy does next, over texts.
pub enum StepView {
    Own,
    Wait { pause_ms: u64 },
    Kill { pid: Option<i32>, pause_ms: u64 },
    Quit(Seq<char>),
}

impl View for Step {
    type V = StepView;

    open spec fn view(&self) -> StepView {
        match *self {
            Step::Own => StepView::Own,
            Step::Wait { pause_ms } => StepView::Wait { pause_ms },
            Step::Kill { pid, pause_ms } => StepView::Kill { pid, pause_ms },
            Step::Quit(m) => StepView::Quit(m@),
        }
    }
}

/// The new copy while the old one has the lock.
pub struct Takeover {
    pub old_pid: Option<i32>,
    pub killed: bool,
}

/// The message of a copy that gives up.
pub open spec fn quit_of(pid: Option<i32>) -> Seq<char> {
    "health-widget: не удалось перехватить замок у PID "@ + match pid {
        Some(n) => "Some("@ + text::decimal_int_of(n as int) + ")"@,
        None => "None"@,
    } + ", выходим"@
}

fn quit(pid: Option<i32>) -> (r: String)
    ensures
        r@ == quit_of(pid),
{
    let shown = match pid {
        Some(n) => cat3("Some(", decimal_i64(n as i64).as_str(), ")"),
        None => "None".to_owned(),
    };
    cat3("health-widget: не удалось перехватить замок у PID ", shown.as_str(), ", выходим")
}

impl Takeover {
    /// The old copy has the lock; `written` is what it wrote there. The second
    /// result is the process that is asked to leave.
    pub fn new(written: &str) -> (r: (Takeover, Option<i32>))
        ensures
            match r.0.old_pid {
                Some(n) => old_pid_of(written@) == Some(n as int),
                None => old_pid_of(written@) is None,
            },
            !r.0.killed,
            r.1 == target_of(r.0.old_pid),
    {
        let pid = old_pid(written);
        (Takeover { old_pid: pid, killed: false }, target(pid))
    }

    /// What is done once the lock was tried again, `waited` after the old copy
    /// was asked to leave.
    pub open spec fn step_of(self, locked: bool, waited: int) -> StepView {
        if locked {
            StepView::Own
        } else if self.killed {
            StepView::Quit(quit_of(self.old_pid))
        } else if waited >= LOCK_WAIT_SECS * SECOND {
            StepView::Kill { pid: target_of(self.old_pid), pause_ms: KILLED_MS }
        } else {
            StepView::Wait { pause_ms: POLL_MS }
        }
    }

    /// The lock was tried again, `waited` after the old copy was asked to leave:
    /// `locked` is whether the new copy has it. It waits for a while, then kills
    /// the old copy, and where even that does not help it gives up.
    pub fn tried(&mut self, locked: bool, waited: &Duration) -> (r: Step)
        ensures
            final(self).old_pid == old(self).old_pid,
            r@ == old(self).step_of(locked, waited@),
            final(self).killed == (old(self).killed || r is Kill),
    {
        if locked {
            return Step::Own;
        }
        if self.killed {
            return Step::Quit(quit(self.old_pid));
        }
        if waited.at_least(LOCK_WAIT_SECS) {
            self.killed = true;
            return Step::Kill { pid: target(self.old_pid), pause_ms: KILLED_MS };
        }
        Step::Wait { pause_ms: POLL_MS }
    }

    /// What the log says once the new copy has taken the place of the old.
    pub fn replaced(&self) -> (r: Event)
        ensures
            r@ == telemetry::event_of("app.replaced_old"@, seq![("old_pid"@, pid_tree(self.old_pid))]),
            json::proper(r.fields@),
    {
        let mut pairs: Vec<(String, Json)> = Vec::new();
        let value = match self.old_pid {
            Some(n) => telemetry::number(n as i64),
            None => Json::Null,
        };
        pairs.push(("old_pid".to_owned(), value));
        assert(json::entries(pairs@) =~= seq![("old_pid"@, pid_tree(self.old_pid))]);
        telemetry::event("app.replaced_old", pairs)
    }
}

/// The number of a process in a record.
pub open spec fn pid_tree(pid: Option<i32>) -> Tree {
    match pid {
        Some(n) => telemetry::number_of(n as int),
        None => Tree::Null,
    }
}

/// A signal goes to no process but one whose number is above 1.
pub proof fn signals_are_aimed(pid: Option<i32>)
    ensures
        target_of(pid) matches Some(n) ==> n > 1 && pid == Some(n),
{
}

/// Once the old copy was given its time, the next try kills it, and the one
/// after that is the last.
pub proof fn takeover_ends(t: Takeover, waited: int)
    ensures
        !t.killed && waited >= LOCK_WAIT_SECS * SECOND ==> t.step_of(false, waited) is Kill,
        t.killed ==> t.step_of(false, waited) is Quit,
        t.step_of(true, waited) is Own,
{
}

/// The old copy is not killed before it was given a quarter of a minute, nor
/// twice, and never a process whose number is not above 1; the new copy leaves
/// only where it has killed and still has no lock.
pub proof fn old_copy_is_given_its_time(t: Takeover, locked: bool, waited: int)
    ensures
        t.step_of(locked, waited) matches StepView::Kill { pid, pause_ms } ==> {
            &&& waited >= 15_000_000_000
            &&& !t.killed && !locked
            &&& pid == if t.old_pid is Some && t.old_pid->0 > 1 {
                t.old_pid
            } else {
                None
            }
        },
        waited < 15_000_000_000 && !t.killed && !locked ==> t.step_of(locked, waited) is Wait,
        t.step_of(locked, waited) is Quit <==> t.killed && !locked,
        t.step_of(locked, waited) is Own <==> locked,
{
}

/// What is done about the old copy's helper.
pub enum Orphan {
    /// It is gone; what the log says where it was waited for.
    Gone(Option<Event>),
    /// It is waited for.
    Wait { pause_ms: u64 },
    /// It is killed; what the log says.
    Kill { event: Event, pause_ms: u64 },
}

/// What is done about the old copy's helper: `waited` since the first look,
/// `looked` whether this is not the first, and `alive` whether it still runs.
pub fn orphan(looked: bool, alive: bool, waited: &Duration, pattern: &str) -> (r: Orphan)
    ensures
        match r {
            Orphan::Gone(None) => !alive && !looked,
            Orphan::Gone(Some(e)) => {
                &&& !alive && looked
                &&& e@ == telemetry::event_of("stt.orphan_waited"@, Seq::empty())
                &&& json::proper(e.fields@)
            },
            Orphan::Wait { pause_ms } => {
                &&& alive && waited@ < WHISPER_WAIT_SECS * SECOND
                &&& pause_ms == POLL_MS
            },
            Orphan::Kill { event, pause_ms } => {
                &&& alive && waited@ >= WHISPER_WAIT_SECS * SECOND
                &&& event@ == telemetry::event_of(
                    "stt.orphan_killed"@,
                    seq![("err"@, Tree::Text(pattern@))],
                )
                &&& json::proper(event.fields@)
                &&& pause_ms == KILLED_MS
            },
        },
{
    if !alive {
        if !looked {
            return Orphan::Gone(None);
        }
        let pairs: Vec<(String, Json)> = Vec::new();
        assert(json::entries(pairs@) =~= Seq::empty());
        return Orphan::Gone(Some(telemetry::event("stt.orphan_waited", pairs)));
    }
    if waited.at_least(WHISPER_WAIT_SECS) {
        return Orphan::Kill {
            event: telemetry::error("stt.orphan_killed", pattern),
            pause_ms: KILLED_MS,
        };
    }
    Orphan::Wait { pause_ms: POLL_MS }
}

} // verus!
