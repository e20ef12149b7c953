//! Speech recognition: what its process says, when it is started, and what is
//! done when it fails.

use crate::clock;
use crate::clock::{Duration, SECOND};
use crate::json;
use crate::json::{Json, Tree};
use crate::paths;
use crate::telemetry;
use crate::telemetry::{Event, EventView};
use crate::text;
use crate::text::{
    cat, cat3, cat5, chars_of, decimal_u64, find, lines, parse_u64, same_str, string_of, trim,
};
use std::collections::VecDeque;
use vstd::prelude::*;
use vstd::slice::slice_subrange;

verus! {

/// The channel of the microphone.
pub const CH_MIC: &'static str = "🎤 я";

/// The channel of what is heard in a call.
pub const CH_ZOOM: &'static str = "🔊 телемост";

/// The channel of the microphone in the browser.
pub const CH_WEB: &'static str = "🌐 веб";

/// So many characters of recognised speech are kept.
pub const MAX_FINALS: usize = 50_000;

/// So many of the latest phrases wait to be shown.
pub const FRESH_CAP: usize = 32;

pub const RETRY_MIN_SECS: u64 = 5;

pub const RETRY_MAX_SECS: u64 = 60;

/// The pause after the process has died young too often, in seconds.
pub const RETRY_COLD_SECS: u64 = 300;

/// So many seconds pass between two starts, in all channels together.
pub const WARMUP_SECS: u64 = 25;

/// A process that fails before so many seconds died young.
pub const DIED_YOUNG_SECS: u64 = 20;

/// A recogniser that is to leave is waited for so many seconds, with a look every
/// so many milliseconds.
pub const LINGER_SECS: u64 = 10;

pub const LINGER_POLL_MS: u64 = 100;

pub const YOUNG_STREAK_MAX: u32 = 3;

/// The microphone leaves so much memory of the graphics card free for the
/// browser's channel.
pub const WEB_RESERVE_MIB: u64 = 5000;

/// So much memory of the graphics card has to be free by default.
pub const MIN_FREE_MIB: u64 = 5000;

// ---------------------------------------------------------------------------
// The switch
// ---------------------------------------------------------------------------

/// Whether speech is recognised at all.
pub struct Switch {
    pub on: bool,
}

pub fn set_enabled(switch: &mut Switch, on: bool)
    ensures
        final(switch).on == on,
{
    switch.on = on;
}

pub fn is_enabled(switch: &Switch) -> (r: bool)
    ensures
        r == switch.on,
{
    switch.on
}

/// Where the script of the recogniser is kept, below the user's data.
pub fn script_path(data_dir: Option<&str>) -> (r: Option<String>)
    ensures
        text::opt_text(r) == paths::in_app_of(text::opt_str(data_dir), "whisper_stream.py"@),
{
    paths::in_app(data_dir, "whisper_stream.py")
}

pub open spec fn python_path_of(chosen: Option<Seq<char>>, data_dir: Option<Seq<char>>) -> Option<
    Seq<char>,
> {
    match chosen {
        Some(p) => Some(p),
        None => match paths::in_app_of(data_dir, "venv-whisper"@) {
            Some(v) => Some(paths::join_of(paths::join_of(v, "bin"@), "python"@)),
            None => None,
        },
    }
}

/// The interpreter that runs the recogniser: the one that was chosen, or that
/// of the program's own environment.
pub fn python_path(chosen: Option<&str>, data_dir: Option<&str>) -> (r: Option<String>)
    ensures
        text::opt_text(r) == python_path_of(text::opt_str(chosen), text::opt_str(data_dir)),
{
    match chosen {
        Some(p) => Some(p.to_owned()),
        None => match paths::in_app(data_dir, "venv-whisper") {
            Some(v) => Some(paths::join(paths::join(v.as_str(), "bin").as_str(), "python")),
            None => None,
        },
    }
}

/// The model of the recogniser: the one that was chosen, or the large one.
pub fn model_spec(chosen: Option<&str>) -> (r: String)
    ensures
        r@ == match chosen {
            Some(m) => m@,
            None => "large-v3"@,
        },
{
    match chosen {
        Some(m) => m.to_owned(),
        None => "large-v3".to_owned(),
    }
}

// ---------------------------------------------------------------------------
// What was said
// ---------------------------------------------------------------------------

/// What remains of a text of at most `max` characters: its end, from the next
/// word on. With no room at all only the first word goes.
pub open spec fn trim_head_of(s: Seq<char>, max: nat) -> Seq<char> {
    if s.len() <= max {
        s
    } else {
        let tail = if max == 0 {
            s
        } else {
            s.skip(s.len() - max)
        };
        match text::find_of(tail, " "@) {
            Some(i) => tail.skip(i + 1),
            None => tail,
        }
    }
}

/// What remains of a text fits, and is the end of it.
pub proof fn trim_head_fits(s: Seq<char>, max: nat)
    requires
        max > 0,
    ensures
        trim_head_of(s, max).len() <= max,
        exists|i: int| 0 <= i <= s.len() && trim_head_of(s, max) == #[trigger] s.skip(i),
{
    let r = trim_head_of(s, max);
    if s.len() <= max {
        assert(r =~= s.skip(0));
    } else {
        let cut = s.len() - max;
        let tail = s.skip(cut);
        text::lemma_find_from(tail, " "@, 0);
        match text::find_of(tail, " "@) {
            Some(i) => {
                reveal_strlit(" ");
                assert(r =~= s.skip(cut + i + 1));
            },
            None => {},
        }
    }
}

/// No more goes than has to: a text that fits stays, and of one that does not
/// what remains begins with the first whole word that fits, or, where there is
/// no space, with the first character that fits.
pub proof fn trim_head_keeps_what_it_can(s: Seq<char>, max: nat)
    requires
        max > 0,
    ensures
        s.len() <= max ==> trim_head_of(s, max) == s,
        s.len() > max ==> exists|i: int|
            {
                &&& s.len() - max <= i <= s.len()
                &&& trim_head_of(s, max) == #[trigger] s.skip(i)
                &&& forall|j: int| s.len() - max <= j < i - 1 ==> s[j] != ' '
                &&& if i == s.len() - max {
                    forall|j: int| i <= j < s.len() ==> s[j] != ' '
                } else {
                    s[i - 1] == ' '
                }
            },
{
    if s.len() > max {
        let from = s.len() - max;
        let tail = s.skip(from);
        reveal_strlit(" ");
        text::lemma_find_from(tail, " "@, 0);
        match text::find_of(tail, " "@) {
            Some(k) => {
                assert(tail.subrange(k, k + 1)[0] == tail[k]);
                assert forall|j: int| from <= j < from + k implies s[j] != ' ' by {
                    if s[j] == ' ' {
                        assert(tail.subrange(j - from, j - from + 1) =~= " "@);
                        assert(text::occurs_at(tail, " "@, j - from));
                    }
                }
                assert(tail.skip(k + 1) =~= s.skip(from + k + 1));
            },
            None => {
                assert forall|j: int| from <= j < s.len() implies s[j] != ' ' by {
                    if s[j] == ' ' {
                        assert(tail.subrange(j - from, j - from + 1) =~= " "@);
                        assert(text::occurs_at(tail, " "@, j - from));
                    }
                }
                assert(tail == s.skip(from));
            },
        }
    }
}

/// Drops the beginning of a text that is longer than `max` characters, up to
/// the next word.
pub fn trim_head(s: &mut String, max: usize)
    ensures
        final(s)@ == trim_head_of(old(s)@, max as nat),
{
    let chars = chars_of(s.as_str());
    let n: usize = chars.len();
    if n <= max {
        return;
    }
    let cut: usize = if max == 0 {
        0
    } else {
        n - max
    };
    let tail = slice_subrange(chars.as_slice(), cut, n);
    assert(tail@ =~= if max == 0 {
        old(s)@
    } else {
        old(s)@.skip(n - max)
    });
    let space = chars_of(" ");
    proof {
        reveal_strlit(" ");
    }
    let r = match find(tail, space.as_slice()) {
        Some(i) => {
            let left = slice_subrange(tail, i + 1, tail.len());
            assert(left@ =~= tail@.skip(i + 1));
            string_of(left)
        },
        None => string_of(tail),
    };
    *s = r;
}

/// Speech that was recognised: what is settled, and what may still change.
pub struct Transcript {
    pub finals: String,
    pub partial: String,
}

/// All that one channel has recognised.
pub struct Speech {
    pub transcript: Transcript,
    /// The latest phrases, to be shown.
    pub fresh: VecDeque<String>,
    /// Counts what the recogniser has said.
    pub out_seq: u64,
}

/// What a channel has recognised.
pub struct SpeechView {
    pub finals: Seq<char>,
    pub partial: Seq<char>,
    pub fresh: Seq<Seq<char>>,
    pub out_seq: u64,
}

impl View for Speech {
    type V = SpeechView;

    open spec fn view(&self) -> SpeechView {
        SpeechView {
            finals: self.transcript.finals@,
            partial: self.transcript.partial@,
            fresh: text::texts(self.fresh@),
            out_seq: self.out_seq,
        }
    }
}

/// `t` behind the latest phrases, of which the first leaves where there is no
/// room.
pub open spec fn freshened(fresh: Seq<Seq<char>>, t: Seq<char>) -> Seq<Seq<char>> {
    if fresh.len() >= FRESH_CAP {
        fresh.skip(1).push(t)
    } else {
        fresh.push(t)
    }
}

/// The settled text with the phrase `t` behind it.
pub open spec fn lengthened(finals: Seq<char>, t: Seq<char>) -> Seq<char> {
    trim_head_of(
        if finals.len() > 0 {
            finals + " "@ + t
        } else {
            t
        },
        MAX_FINALS as nat,
    )
}

/// What the recogniser has said, taken in: a guess replaces the last one, a
/// phrase is settled.
pub open spec fn taken_in(s: SpeechView, v: Tree) -> SpeechView {
    let heard = SpeechView { out_seq: s.out_seq.wrapping_add(1), ..s };
    match json::text_field_of(v, "partial"@) {
        Some(p) => SpeechView { partial: p, ..heard },
        None => match json::text_field_of(v, "final"@) {
            Some(t) => SpeechView {
                finals: lengthened(s.finals, t),
                partial: Seq::empty(),
                fresh: freshened(s.fresh, t),
                ..heard
            },
            None => heard,
        },
    }
}

/// The phrase that was settled.
pub open spec fn settled_phrase(v: Tree) -> Option<Seq<char>> {
    match json::text_field_of(v, "partial"@) {
        Some(_) => None,
        None => json::text_field_of(v, "final"@),
    }
}

/// A guess replaces the last guess and settles nothing. A phrase is settled: it
/// stands at the end of the text and of the latest phrases, it is handed back,
/// and no guess is left. What says neither changes nothing that is shown.
pub proof fn guesses_pass_and_phrases_stay(s: SpeechView, v: Tree)
    ensures
        json::text_field_of(v, "partial"@) matches Some(p) ==> taken_in(s, v).partial == p
            && taken_in(s, v).finals == s.finals && taken_in(s, v).fresh == s.fresh
            && settled_phrase(v) is None,
        json::text_field_of(v, "partial"@) is None ==> (json::text_field_of(v, "final"@) matches Some(
            t,
        ) ==> {
            let r = taken_in(s, v);
            &&& settled_phrase(v) == Some(t)
            &&& r.partial.len() == 0
            &&& r.fresh.len() > 0 && r.fresh.last() == t
            &&& s.fresh.len() < 32 ==> r.fresh.drop_last() == s.fresh
            &&& s.finals.len() == 0 && t.len() <= 50_000 ==> r.finals == t
            &&& s.finals.len() > 0 && s.finals.len() + 1 + t.len() <= 50_000 ==> r.finals
                == s.finals + seq![' '] + t
        }),
        json::text_field_of(v, "partial"@) is None && json::text_field_of(v, "final"@) is None
            ==> taken_in(s, v) == (SpeechView { out_seq: taken_in(s, v).out_seq, ..s })
            && settled_phrase(v) is None,
        taken_in(s, v).out_seq != s.out_seq,
        s.out_seq < u64::MAX ==> taken_in(s, v).out_seq == s.out_seq + 1,
{
    reveal_strlit(" ");
    assert(" "@ =~= seq![' ']);
    if json::text_field_of(v, "partial"@) is None && json::text_field_of(v, "final"@) is Some {
        let t = json::text_field_of(v, "final"@)->Some_0;
        assert(s.fresh.push(t).drop_last() =~= s.fresh);
    }
}

/// The latest phrases stay within their bound.
pub proof fn fresh_stays_bounded(s: SpeechView, v: Tree)
    requires
        s.fresh.len() <= FRESH_CAP,
    ensures
        taken_in(s, v).fresh.len() <= FRESH_CAP,
{
}

/// The settled text stays within its bound.
pub proof fn finals_stay_bounded(s: SpeechView, v: Tree)
    requires
        s.finals.len() <= MAX_FINALS,
    ensures
        taken_in(s, v).finals.len() <= MAX_FINALS,
{
    match json::text_field_of(v, "final"@) {
        Some(t) => {
            trim_head_fits(
                if s.finals.len() > 0 {
                    s.finals + " "@ + t
                } else {
                    t
                },
                MAX_FINALS as nat,
            );
        },
        None => {},
    }
}

impl Speech {
    pub fn new() -> (r: Speech)
        ensures
            r@ == (SpeechView {
                finals: Seq::empty(),
                partial: Seq::empty(),
                fresh: Seq::empty(),
                out_seq: 0,
            }),
    {
        let fresh: VecDeque<String> = VecDeque::new();
        assert(text::texts(fresh@) =~= Seq::empty());
        let r = Speech {
            transcript: Transcript { finals: String::new(), partial: String::new() },
            fresh,
            out_seq: 0,
        };
        assert(r@.finals =~= Seq::empty() && r@.partial =~= Seq::empty());
        r
    }

    /// Takes in what the recogniser said; a phrase that was settled is handed
    /// back for the log.
    pub fn apply(&mut self, v: &Json) -> (r: Option<String>)
        ensures
            final(self)@ == taken_in(old(self)@, v@),
            text::opt_text(r) == settled_phrase(v@),
    {
        self.out_seq = self.out_seq.wrapping_add(1);
        if let Some(p) = v.text_field("partial") {
            self.transcript.partial = p.to_owned();
            None
        } else if let Some(t) = v.text_field("final") {
            let ghost was = self.fresh@;
            let longer = if chars_of(self.transcript.finals.as_str()).len() > 0 {
                cat3(self.transcript.finals.as_str(), " ", t)
            } else {
                t.to_owned()
            };
            let mut finals = longer;
            trim_head(&mut finals, MAX_FINALS);
            self.transcript.finals = finals;
            self.transcript.partial = String::new();
            if self.fresh.len() >= FRESH_CAP {
                self.fresh.pop_front();
                assert(text::texts(self.fresh@) =~= text::texts(was).skip(1));
            }
            let ghost rest = self.fresh@;
            self.fresh.push_back(t.to_owned());
            assert(text::texts(self.fresh@) =~= text::texts(rest).push(t@));
            assert(self@.partial =~= Seq::empty());
            assert(self@ == taken_in(old(self)@, v@));
            Some(t.to_owned())
        } else {
            None
        }
    }

    /// Takes in a line that the recogniser printed. A line that is no document
    /// is passed over.
    pub fn heard(&mut self, line: &str) -> (r: Option<String>)
        ensures
            match json::document_of(line@) {
                Some(v) => final(self)@ == taken_in(old(self)@, v) && text::opt_text(r)
                    == settled_phrase(v),
                None => *final(self) == *old(self) && r is None,
            },
    {
        match json::read(line) {
            Some(v) => self.apply(&v),
            None => None,
        }
    }

    /// What is settled, and what may still change.
    pub fn text(&self) -> (r: (String, String))
        ensures
            r.0@ == self@.finals,
            r.1@ == self@.partial,
    {
        (self.transcript.finals.clone(), self.transcript.partial.clone())
    }

    /// Forgets what was said.
    pub fn clear(&mut self)
        ensures
            final(self)@ == (SpeechView {
                finals: Seq::empty(),
                partial: Seq::empty(),
                ..old(self)@
            }),
    {
        self.transcript.finals = String::new();
        self.transcript.partial = String::new();
        assert(self@.finals =~= Seq::empty() && self@.partial =~= Seq::empty());
    }
}

// ---------------------------------------------------------------------------
// Whether to start
// ---------------------------------------------------------------------------

/// Why the recogniser was not started, and when to try again where that is
/// known.
pub struct StartFail {
    pub why: String,
    pub retry_in: Option<Duration>,
}

impl StartFail {
    /// A failure after which nothing is known of when to try again.
    pub fn hard(why: String) -> (r: StartFail)
        ensures
            r.why@ == why@,
            r.retry_in is None,
    {
        StartFail { why, retry_in: None }
    }
}

/// Whether enough time has passed since the last start in any channel.
pub fn start_gate(since: Option<Duration>) -> (r: Result<(), StartFail>)
    ensures
        match since {
            Some(d) if d@ < WARMUP_SECS * SECOND => r matches Err(f) && (f.why@
                == "жду прогрева соседнего канала"@) && (f.retry_in matches Some(left) && left@
                == WARMUP_SECS * SECOND - d@),
            _ => r is Ok,
        },
{
    match since {
        Some(d) => if d.at_least(WARMUP_SECS) {
            Ok(())
        } else {
            let left = Duration::from_secs(WARMUP_SECS).minus(&d);
            Err(
                StartFail { why: "жду прогрева соседнего канала".to_owned(), retry_in: Some(left) },
            )
        },
        None => Ok(()),
    }
}

/// The least of the numbers that stand alone on a line.
pub open spec fn least_number_of(ls: Seq<Seq<char>>) -> Option<nat>
    decreases ls.len(),
{
    if ls.len() == 0 {
        None
    } else {
        let init = least_number_of(ls.drop_last());
        match text::parse_unsigned_of(text::trim_of(ls.last()), u64::MAX as nat) {
            Some(n) => match init {
                Some(m) if m <= n => Some(m),
                _ => Some(n),
            },
            None => init,
        }
    }
}

/// What is found is one of the numbers, and none of them is less; where there
/// is a number, one is found.
pub proof fn least_is_least(ls: Seq<Seq<char>>)
    ensures
        least_number_of(ls) matches Some(n) ==> (exists|i: int|
            0 <= i < ls.len() && text::parse_unsigned_of(
                text::trim_of(#[trigger] ls[i]),
                u64::MAX as nat,
            ) == Some(n)),
        forall|i: int|
            0 <= i < ls.len() ==> (text::parse_unsigned_of(
                text::trim_of(#[trigger] ls[i]),
                u64::MAX as nat,
            ) matches Some(m) ==> (least_number_of(ls) matches Some(n) && n <= m)),
    decreases ls.len(),
{
    if ls.len() > 0 {
        let init = ls.drop_last();
        least_is_least(init);
        assert(ls[ls.len() - 1] == ls.last());
        match least_number_of(ls) {
            Some(n) => {
                if least_number_of(init) == Some(n) {
                    let i = choose|i: int|
                        0 <= i < init.len() && text::parse_unsigned_of(
                            text::trim_of(#[trigger] init[i]),
                            u64::MAX as nat,
                        ) == Some(n);
                    assert(ls[i] == init[i]);
                }
            },
            None => {},
        }
        assert forall|i: int| 0 <= i < ls.len() implies (text::parse_unsigned_of(
            text::trim_of(#[trigger] ls[i]),
            u64::MAX as nat,
        ) matches Some(m) ==> (least_number_of(ls) matches Some(n) && n <= m)) by {
            if i < init.len() {
                assert(ls[i] == init[i]);
            }
        }
    }
}

/// The least free memory of the graphics cards, in what their tool printed.
pub fn parse_free_mib(s: &str) -> (r: Option<u64>)
    ensures
        match r {
            Some(n) => least_number_of(text::lines_of(s@)) == Some(n as nat),
            None => least_number_of(text::lines_of(s@)) is None,
        },
{
    let chars = chars_of(s);
    let ls = lines(chars.as_slice());
    let ghost all = text::lines_of(s@);
    let mut least: Option<u64> = None;
    let mut i: usize = 0;
    assert(all.take(0) =~= Seq::empty());
    while i < ls.len()
        invariant
            i <= ls@.len(),
            all == text::views(ls@),
            match least {
                Some(n) => least_number_of(all.take(i as int)) == Some(n as nat),
                None => least_number_of(all.take(i as int)) is None,
            },
        decreases ls.len() - i,
    {
        assert(all.take(i + 1).drop_last() =~= all.take(i as int));
        assert(all.take(i + 1).last() == ls@[i as int]@);
        if let Some(n) = parse_u64(trim(ls[i])) {
            least = match least {
                Some(m) => if m <= n {
                    Some(m)
                } else {
                    Some(n)
                },
                None => Some(n),
            };
        }
        i = i + 1;
    }
    assert(all.take(all.len() as int) =~= all);
    least
}

/// How much memory of the graphics card has to be free: what was set, where it
/// is a number.
pub fn min_free_mib(set: Option<&str>) -> (r: u64)
    ensures
        r == match set {
            Some(v) => match text::parse_unsigned_of(v@, u64::MAX as nat) {
                Some(n) => n as u64,
                None => MIN_FREE_MIB,
            },
            None => MIN_FREE_MIB,
        },
{
    match set {
        Some(v) => match parse_u64(chars_of(v).as_slice()) {
            Some(n) => n,
            None => MIN_FREE_MIB,
        },
        None => MIN_FREE_MIB,
    }
}

pub open spec fn need_mib_of(channel: Seq<char>, base: nat) -> nat {
    if channel == CH_MIC@ {
        base + WEB_RESERVE_MIB as nat
    } else {
        base
    }
}

/// How much memory a channel needs to start: the microphone leaves room for
/// the browser.
pub fn need_mib(channel: &str, base: u64) -> (r: u64)
    requires
        need_mib_of(channel@, base as nat) <= u64::MAX,
    ensures
        r == need_mib_of(channel@, base as nat),
{
    if same_str(channel, CH_MIC) {
        base + WEB_RESERVE_MIB
    } else {
        base
    }
}

/// Why there is too little memory, in words.
pub open spec fn vram_reason_of(free: nat, need: nat, base: nat) -> Seq<char> {
    if need > base {
        "мало VRAM ("@ + text::decimal_of(free) + " < "@ + text::decimal_of(need)
            + " МиБ, держу место под веб-канал)"@
    } else {
        "мало VRAM ("@ + text::decimal_of(free) + " МиБ < "@ + text::decimal_of(need) + " МиБ)"@
    }
}

/// Whether there is memory enough for a channel. Where nothing is known of the
/// memory, there is.
pub fn vram_gate(free: Option<u64>, channel: &str, base: u64) -> (r: Result<(), StartFail>)
    requires
        free is Some ==> need_mib_of(channel@, base as nat) <= u64::MAX,
    ensures
        match free {
            Some(f) if f < need_mib_of(channel@, base as nat) => r matches Err(e) && e.why@
                == vram_reason_of(f as nat, need_mib_of(channel@, base as nat), base as nat)
                && e.retry_in is None,
            _ => r is Ok,
        },
{
    match free {
        Some(f) => {
            let need = need_mib(channel, base);
            if f >= need {
                return Ok(());
            }
            let have = decimal_u64(f);
            let want = decimal_u64(need);
            let why = if need > base {
                cat5(
                    "мало VRAM (",
                    have.as_str(),
                    " < ",
                    want.as_str(),
                    " МиБ, держу место под веб-канал)",
                )
            } else {
                cat5("мало VRAM (", have.as_str(), " МиБ < ", want.as_str(), " МиБ)")
            };
            Err(StartFail::hard(why))
        },
        None => Ok(()),
    }
}

/// The command that starts the recogniser: its interpreter, its script and its
/// model.
#[derive(Debug, PartialEq)]
pub struct StartPlan {
    pub python: String,
    pub script: String,
    pub model: String,
}

/// How long ago, where it ever was.
pub open spec fn ago(since: Option<Duration>) -> Option<int> {
    match since {
        Some(d) => Some(d@),
        None => None,
    }
}

/// Whether a channel was started a moment ago.
pub open spec fn warming(since: Option<int>) -> bool {
    since is Some && since->Some_0 < WARMUP_SECS * SECOND
}

/// Why the recogniser is not started, and how long is waited where that is
/// known. `since` is when any channel was last started, `free` the memory that
/// is free.
pub open spec fn start_fault(
    since: Option<int>,
    free: Option<u64>,
    channel: Seq<char>,
    base: nat,
    python: bool,
    script: bool,
) -> Option<(Seq<char>, Option<int>)> {
    if warming(since) {
        Some(
            (
                "жду прогрева соседнего канала"@,
                Some(WARMUP_SECS * SECOND - since->Some_0),
            ),
        )
    } else if free is Some && free->Some_0 < need_mib_of(channel, base) {
        Some((vram_reason_of(free->Some_0 as nat, need_mib_of(channel, base), base), None))
    } else if !python {
        Some(("нет venv-whisper"@, None))
    } else if !script {
        Some(("нет whisper_stream.py"@, None))
    } else {
        None
    }
}

/// The recogniser is never started while another warms up, with less memory
/// than it needs, or with a part of it missing; the microphone leaves as much
/// again for the browser. Otherwise it is started. Where another warms up, it is
/// said when that has been long enough.
pub proof fn start_needs_room_and_rest(
    since: Option<int>,
    free: Option<u64>,
    channel: Seq<char>,
    base: nat,
    python: bool,
    script: bool,
)
    ensures
        start_fault(since, free, channel, base, python, script) is None <==> {
            &&& since matches Some(d) ==> d >= 25 * SECOND
            &&& free matches Some(f) ==> f >= base && (channel == CH_MIC@ ==> f >= base + 5000)
            &&& python
            &&& script
        },
        start_fault(since, free, channel, base, python, script) matches Some((_, Some(left)))
            ==> left > 0 && since->Some_0 + left == 25 * SECOND,
        (since matches Some(d) && d < 25 * SECOND) <==> (start_fault(
            since,
            free,
            channel,
            base,
            python,
            script,
        ) matches Some((_, Some(_)))),
{
}

/// Only the microphone leaves room for the browser: the other channels start
/// with just what is asked.
pub proof fn only_the_microphone_leaves_room(base: nat)
    ensures
        need_mib_of(CH_MIC@, base) == need_mib_of(CH_WEB@, base) + 5000,
        need_mib_of(CH_ZOOM@, base) == base,
        need_mib_of(CH_WEB@, base) == base,
{
    reveal_strlit("🎤 я");
    reveal_strlit("🔊 телемост");
    reveal_strlit("🌐 веб");
    assert(CH_MIC@.len() == 3 && CH_ZOOM@.len() == 10 && CH_WEB@.len() == 5);
}

/// The command that starts the recogniser, or why it is not started: another
/// channel was started a moment ago, there is too little memory, or a part of it
/// is missing.
pub fn start(
    since: Option<Duration>,
    free: Option<u64>,
    channel: &str,
    base: u64,
    python: Option<String>,
    model: String,
    script: Option<String>,
) -> (r: Result<StartPlan, StartFail>)
    requires
        free is Some && !warming(ago(since)) ==> need_mib_of(channel@, base as nat) <= u64::MAX,
    ensures
        ({
            let fault = start_fault(
                ago(since),
                free,
                channel@,
                base as nat,
                python is Some,
                script is Some,
            );
            match r {
                Ok(plan) => {
                    &&& fault is None
                    &&& free matches Some(f) ==> f >= base && (channel@ == CH_MIC@ ==> f >= base
                        + WEB_RESERVE_MIB)
                    &&& text::opt_text(python) == Some(plan.python@)
                    &&& text::opt_text(script) == Some(plan.script@)
                    &&& plan.model@ == model@
                },
                Err(f) => fault == Some(
                    (
                        f.why@,
                        match f.retry_in {
                            Some(d) => Some(d@),
                            None => None,
                        },
                    ),
                ),
            }
        }),
{
    match start_gate(since) {
        Ok(_) => {},
        Err(f) => {
            return Err(f);
        },
    }
    match vram_gate(free, channel, base) {
        Ok(_) => {},
        Err(f) => {
            return Err(f);
        },
    }
    let python = match python {
        Some(p) => p,
        None => {
            return Err(StartFail::hard("нет venv-whisper".to_owned()));
        },
    };
    let script = match script {
        Some(s) => s,
        None => {
            return Err(StartFail::hard("нет whisper_stream.py".to_owned()));
        },
    };
    Ok(StartPlan { python, script, model })
}

/// What the log says of a start.
pub fn start_event(channel: &str, model: &str) -> (r: Event)
    ensures
        r@ == telemetry::event_of(
            "stt.start"@,
            seq![("channel"@, Tree::Text(channel@)), ("model"@, Tree::Text(model@))],
        ),
        json::proper(r.fields@),
{
    let mut pairs: Vec<(String, Json)> = Vec::new();
    pairs.push(("channel".to_owned(), telemetry::text(channel)));
    pairs.push(("model".to_owned(), telemetry::text(model)));
    assert(json::entries(pairs@) =~= seq![
        ("channel"@, Tree::Text(channel@)),
        ("model"@, Tree::Text(model@)),
    ]);
    telemetry::event("stt.start", pairs)
}

/// What the log says of a line that the recogniser complained with, nothing
/// where it is only white space.
pub fn complaint(channel: &str, pid: u32, line: &str) -> (r: Option<Event>)
    ensures
        match r {
            Some(e) => {
                &&& text::trim_of(line@).len() > 0
                &&& e@ == telemetry::event_of(
                    "stt.stderr"@,
                    seq![
                        ("channel"@, Tree::Text(channel@)),
                        ("pid"@, telemetry::number_of(pid as int)),
                        ("line"@, Tree::Text(line@)),
                    ],
                )
                &&& json::proper(e.fields@)
            },
            None => text::trim_of(line@).len() == 0,
        },
{
    let chars = chars_of(line);
    if trim(chars.as_slice()).len() == 0 {
        return None;
    }
    let mut pairs: Vec<(String, Json)> = Vec::new();
    pairs.push(("channel".to_owned(), telemetry::text(channel)));
    pairs.push(("pid".to_owned(), telemetry::number(pid as i64)));
    pairs.push(("line".to_owned(), telemetry::text(line)));
    assert(json::entries(pairs@) =~= seq![
        ("channel"@, Tree::Text(channel@)),
        ("pid"@, telemetry::number_of(pid as int)),
        ("line"@, Tree::Text(line@)),
    ]);
    Some(telemetry::event("stt.stderr", pairs))
}

/// What the log says once the recogniser's words have ended: by themselves, or
/// because they could not be read.
pub fn reader_ended(channel: &str, unreadable: bool) -> (r: Event)
    ensures
        r@ == telemetry::event_of(
            "stt.reader.end"@,
            seq![
                ("channel"@, Tree::Text(channel@)),
                (
                    "reason"@,
                    Tree::Text(
                        if unreadable {
                            "read_err"@
                        } else {
                            "eof"@
                        },
                    ),
                ),
            ],
        ),
        json::proper(r.fields@),
{
    let reason = if unreadable {
        "read_err"
    } else {
        "eof"
    };
    let mut pairs: Vec<(String, Json)> = Vec::new();
    pairs.push(("channel".to_owned(), telemetry::text(channel)));
    pairs.push(("reason".to_owned(), telemetry::text(reason)));
    assert(json::entries(pairs@) =~= seq![
        ("channel"@, Tree::Text(channel@)),
        ("reason"@, Tree::Text(reason@)),
    ]);
    telemetry::event("stt.reader.end", pairs)
}

/// What is done about a recogniser that is to leave.
pub enum Linger {
    /// It has left, or nothing can be learned of it.
    Gone,
    /// It is waited for.
    Wait,
    /// It has stayed too long; what the log says.
    TimedOut(Event),
}

/// What is done about a recogniser that is to leave: `running` is whether it
/// still runs, and `waited` how long it was waited for.
pub fn linger(channel: &str, running: bool, waited: &Duration) -> (r: Linger)
    ensures
        match r {
            Linger::Gone => waited@ < LINGER_SECS * SECOND && !running,
            Linger::Wait => waited@ < LINGER_SECS * SECOND && running,
            Linger::TimedOut(e) => {
                &&& waited@ >= LINGER_SECS * SECOND
                &&& e@ == telemetry::event_of(
                    "stt.linger.timeout"@,
                    seq![("channel"@, Tree::Text(channel@))],
                )
                &&& json::proper(e.fields@)
            },
        },
{
    if waited.at_least(LINGER_SECS) {
        let mut pairs: Vec<(String, Json)> = Vec::new();
        pairs.push(("channel".to_owned(), telemetry::text(channel)));
        assert(json::entries(pairs@) =~= seq![("channel"@, Tree::Text(channel@))]);
        return Linger::TimedOut(telemetry::event("stt.linger.timeout", pairs));
    }
    if running {
        Linger::Wait
    } else {
        Linger::Gone
    }
}

// ---------------------------------------------------------------------------
// Health
// ---------------------------------------------------------------------------

/// How the recogniser of a channel is.
#[derive(Debug, PartialEq)]
pub enum Health {
    Off,
    Starting,
    Warmup,
    Live,
    Down(String),
}

/// How the recogniser of a channel is, as a mathematical value.
pub enum HealthView {
    Off,
    Starting,
    Warmup,
    Live,
    Down(Seq<char>),
}

impl View for Health {
    type V = HealthView;

    open spec fn view(&self) -> HealthView {
        match self {
            Health::Off => HealthView::Off,
            Health::Starting => HealthView::Starting,
            Health::Warmup => HealthView::Warmup,
            Health::Live => HealthView::Live,
            Health::Down(why) => HealthView::Down(why@),
        }
    }
}

impl Health {
    /// What stands in the window: that recognition is down, and why.
    pub fn label(&self) -> (r: Option<String>)
        ensures
            text::opt_text(r) == match self@ {
                HealthView::Down(why) => Some("⚠ распознавание не работает: "@ + why),
                _ => None,
            },
    {
        match self {
            Health::Down(why) => Some(cat("⚠ распознавание не работает: ", why.as_str())),
            _ => None,
        }
    }

    /// A copy.
    pub fn copy(&self) -> (r: Health)
        ensures
            r@ == self@,
    {
        match self {
            Health::Off => Health::Off,
            Health::Starting => Health::Starting,
            Health::Warmup => Health::Warmup,
            Health::Live => Health::Live,
            Health::Down(why) => Health::Down(why.clone()),
        }
    }

    fn same(&self, other: &Health) -> (r: bool)
        ensures
            r == (self@ == other@),
    {
        match (self, other) {
            (Health::Off, Health::Off) => true,
            (Health::Starting, Health::Starting) => true,
            (Health::Warmup, Health::Warmup) => true,
            (Health::Live, Health::Live) => true,
            (Health::Down(a), Health::Down(b)) => same_str(a.as_str(), b.as_str()),
            _ => false,
        }
    }
}

/// A way in which a running recogniser fails.
#[derive(Debug, Clone, Copy, PartialEq, Eq, Structural)]
pub enum Fault {
    Died,
    Stalled,
}

pub open spec fn fault_why(f: Fault) -> Seq<char> {
    match f {
        Fault::Died => "процесс распознавания упал"@,
        Fault::Stalled => "нет ответа от распознавания"@,
    }
}

pub open spec fn fault_kind(f: Fault) -> Seq<char> {
    match f {
        Fault::Died => "died"@,
        Fault::Stalled => "stall"@,
    }
}

pub open spec fn fault_of(dead: bool, stalled: bool) -> Option<Fault> {
    if dead {
        Some(Fault::Died)
    } else if stalled {
        Some(Fault::Stalled)
    } else {
        None
    }
}

/// A process that has ended has died, whether it answered or not; one that runs
/// fails only by not answering. The two are told apart, in the log and in the
/// window.
pub proof fn faults_are_told_apart(dead: bool, stalled: bool)
    ensures
        fault_of(true, stalled) == Some(Fault::Died),
        fault_of(false, true) == Some(Fault::Stalled),
        fault_of(dead, stalled) is None <==> !dead && !stalled,
        fault_kind(Fault::Died) == "died"@ && fault_kind(Fault::Stalled) == "stall"@,
        fault_why(Fault::Died) == "процесс распознавания упал"@,
        fault_why(Fault::Stalled) == "нет ответа от распознавания"@,
{
}

impl Fault {
    /// The fault of a recogniser: its process has ended, or it does not answer.
    pub fn of(dead: bool, stalled: bool) -> (r: Option<Fault>)
        ensures
            r == fault_of(dead, stalled),
    {
        if dead {
            Some(Fault::Died)
        } else if stalled {
            Some(Fault::Stalled)
        } else {
            None
        }
    }

    fn why(&self) -> (r: &'static str)
        ensures
            r@ == fault_why(*self),
    {
        match self {
            Fault::Died => "процесс распознавания упал",
            Fault::Stalled => "нет ответа от распознавания",
        }
    }

    fn kind(&self) -> (r: &'static str)
        ensures
            r@ == fault_kind(*self),
    {
        match self {
            Fault::Died => "died",
            Fault::Stalled => "stall",
        }
    }
}

pub open spec fn next_delay_of(cur: int) -> int {
    if 2 * cur > RETRY_MAX_SECS * SECOND {
        RETRY_MAX_SECS * SECOND
    } else {
        2 * cur
    }
}

/// The pause after the pause `cur`: twice as long, a minute at most.
pub fn next_delay(cur: Duration) -> (r: Duration)
    ensures
        r@ == next_delay_of(cur@),
{
    cur.doubled_upto(RETRY_MAX_SECS)
}

/// The pause after `n` failures.
pub open spec fn delay_after(n: nat) -> int
    decreases n,
{
    if n == 0 {
        RETRY_MIN_SECS * SECOND
    } else {
        next_delay_of(delay_after((n - 1) as nat))
    }
}

/// The pauses double from five seconds, and are a minute from the fourth
/// failure on.
pub proof fn retry_backs_off_and_caps(n: nat)
    ensures
        RETRY_MIN_SECS * SECOND <= delay_after(n) <= RETRY_MAX_SECS * SECOND,
        n <= 3 ==> delay_after(n) == RETRY_MIN_SECS * SECOND * vstd::arithmetic::power2::pow2(n),
        n >= 4 ==> delay_after(n) == RETRY_MAX_SECS * SECOND,
    decreases n,
{
    vstd::arithmetic::power2::lemma2_to64();
    if n > 0 {
        retry_backs_off_and_caps((n - 1) as nat);
    }
    if n > 4 {
        assert(delay_after((n - 1) as nat) == RETRY_MAX_SECS * SECOND);
    }
}

/// What a fault at the age `age` brings: whether the recogniser has died young
/// too often, how often it has in a row from now on, how long is waited, and how
/// long after the next fault.
pub open spec fn after_fault(delay: int, streak: nat, age: int) -> (bool, nat, int, int) {
    let young = age < DIED_YOUNG_SECS * SECOND;
    let cold = young && streak + 1 >= YOUNG_STREAK_MAX;
    if cold {
        (true, 0, RETRY_COLD_SECS * SECOND, RETRY_MIN_SECS * SECOND)
    } else {
        (
            false,
            if young {
                streak + 1
            } else {
                0
            },
            delay,
            next_delay_of(delay),
        )
    }
}

/// A recogniser that dies within twenty seconds three times in a row rests five
/// minutes, and not before; one that has lived longer starts the count anew and
/// is tried again after the pause that was due.
pub proof fn dying_young_is_given_rest(delay: int, age: int, again: int, third: int)
    ensures
        ({
            let one = after_fault(delay, 0, age);
            let two = after_fault(one.3, one.1, again);
            let three = after_fault(two.3, two.1, third);
            &&& !one.0 && one.2 == delay
            &&& age < 20 * SECOND && again < 20 * SECOND && third < 20 * SECOND ==> three.0
                && three.2 == 300 * SECOND && three.1 == 0 && three.3 == 5 * SECOND
            &&& !two.0 && two.2 == one.3
            &&& three.0 ==> age < 20 * SECOND && again < 20 * SECOND && third < 20 * SECOND
        }),
        forall|streak: nat|
            age >= 20 * SECOND ==> (#[trigger] after_fault(delay, streak, age)).1 == 0
                && after_fault(delay, streak, age).2 == delay,
        0 <= delay <= 60 * SECOND ==> delay <= after_fault(delay, 0, age).3 <= 60 * SECOND,
{
}

/// The report of a change of health.
pub open spec fn health_event_of(channel: Seq<char>, h: HealthView) -> EventView {
    let status = match h {
        HealthView::Off => "off"@,
        HealthView::Starting => "starting"@,
        HealthView::Warmup => "warmup"@,
        HealthView::Live => "live"@,
        HealthView::Down(_) => "down"@,
    };
    let why = match h {
        HealthView::Down(w) => w,
        _ => Seq::empty(),
    };
    telemetry::event_of(
        "stt.health"@,
        seq![
            ("channel"@, Tree::Text(channel)),
            ("status"@, Tree::Text(status)),
            ("why"@, Tree::Text(why)),
        ],
    )
}

/// The state of health in the log.
pub proof fn health_is_told_by_its_name(channel: Seq<char>, why: Seq<char>)
    ensures
        json::field_of(health_event_of(channel, HealthView::Live).fields, "status"@) == Some(
            Tree::Text("live"@),
        ),
        json::field_of(health_event_of(channel, HealthView::Warmup).fields, "status"@) == Some(
            Tree::Text("warmup"@),
        ),
        json::field_of(health_event_of(channel, HealthView::Off).fields, "status"@) == Some(
            Tree::Text("off"@),
        ),
        json::field_of(health_event_of(channel, HealthView::Starting).fields, "status"@) == Some(
            Tree::Text("starting"@),
        ),
        json::field_of(health_event_of(channel, HealthView::Down(why)).fields, "status"@) == Some(
            Tree::Text("down"@),
        ),
        json::field_of(health_event_of(channel, HealthView::Down(why)).fields, "why"@) == Some(
            Tree::Text(why),
        ),
        json::field_of(health_event_of(channel, HealthView::Down(why)).fields, "channel"@) == Some(
            Tree::Text(channel),
        ),
{
    lemma_health_fields(channel, "live"@, Seq::empty());
    lemma_health_fields(channel, "warmup"@, Seq::empty());
    lemma_health_fields(channel, "off"@, Seq::empty());
    lemma_health_fields(channel, "starting"@, Seq::empty());
    lemma_health_fields(channel, "down"@, why);
}

proof fn lemma_health_fields(channel: Seq<char>, status: Seq<char>, why: Seq<char>)
    ensures
        ({
            let es = json::object_of(
                seq![
                    ("channel"@, Tree::Text(channel)),
                    ("status"@, Tree::Text(status)),
                    ("why"@, Tree::Text(why)),
                ],
            );
            &&& json::lookup(es, "channel"@) == Some(Tree::Text(channel))
            &&& json::lookup(es, "status"@) == Some(Tree::Text(status))
            &&& json::lookup(es, "why"@) == Some(Tree::Text(why))
        }),
{
    reveal_strlit("channel");
    reveal_strlit("status");
    reveal_strlit("why");
    assert("channel"@.len() == 7 && "status"@.len() == 6 && "why"@.len() == 3);
    let none = Seq::<(Seq<char>, Tree)>::empty();
    let a = none.push(("channel"@, Tree::Text(channel)));
    let b = a.push(("status"@, Tree::Text(status)));
    let c = b.push(("why"@, Tree::Text(why)));
    assert(c =~= seq![
        ("channel"@, Tree::Text(channel)),
        ("status"@, Tree::Text(status)),
        ("why"@, Tree::Text(why)),
    ]);
    json::last_pair_counts(none, "channel"@, Tree::Text(channel), "channel"@);
    json::last_pair_counts(a, "status"@, Tree::Text(status), "channel"@);
    json::last_pair_counts(a, "status"@, Tree::Text(status), "status"@);
    json::last_pair_counts(b, "why"@, Tree::Text(why), "channel"@);
    json::last_pair_counts(b, "why"@, Tree::Text(why), "status"@);
    json::last_pair_counts(b, "why"@, Tree::Text(why), "why"@);
}

/// Whether the recogniser of a channel is on.
pub open spec fn on_of(want: bool, switch: bool, env: Option<Seq<char>>) -> bool {
    want && switch && env != Some("0"@)
}

/// Any of the three turns the recogniser off: that it is not wanted, that
/// recognition is off, and that the environment says 0; nothing else does.
pub proof fn any_of_three_turns_it_off(want: bool, switch: bool, env: Option<Seq<char>>)
    ensures
        !on_of(false, switch, env),
        !on_of(want, false, env),
        !on_of(want, switch, Some("0"@)),
        on_of(true, true, None),
        env != Some("0"@) ==> on_of(true, true, env),
{
}

/// What a start that failed brings: how the recogniser is, how long is waited,
/// and how long after the next failure. `retry` is how long is waited where that
/// is known.
pub open spec fn after_failed_start(delay: int, why: Seq<char>, retry: Option<int>) -> (
    HealthView,
    int,
    int,
) {
    match retry {
        Some(d) => (HealthView::Warmup, d, delay),
        None => (HealthView::Down(why), delay, next_delay_of(delay)),
    }
}

/// To wait for another channel is no failure: the next one is waited for no
/// longer than before. A failure is told with its reason, and waited for longer
/// each time, a minute at most.
pub proof fn waiting_is_no_failure(delay: int, why: Seq<char>, d: int)
    requires
        0 < delay <= 60 * SECOND,
    ensures
        after_failed_start(delay, why, Some(d)).0 is Warmup,
        after_failed_start(delay, why, Some(d)).1 == d,
        after_failed_start(delay, why, Some(d)).2 == delay,
        after_failed_start(delay, why, None).0 == HealthView::Down(why),
        after_failed_start(delay, why, None).1 == delay,
        after_failed_start(delay, why, None).2 == if delay <= 30 * SECOND {
            2 * delay
        } else {
            60 * SECOND
        },
{
}

/// When the recogniser of a channel is started, and how it is. Times are
/// counted from the program's start.
pub struct Stt {
    pub enabled: bool,
    pub health: Health,
    /// No start before this moment.
    pub next: Duration,
    /// The pause after the next failure.
    pub delay: Duration,
    /// How often in a row the process has died young.
    pub young_streak: u32,
}

impl Stt {
    pub open spec fn wf(&self) -> bool {
        &&& self.delay@ <= RETRY_MAX_SECS * SECOND
        &&& self.young_streak < YOUNG_STREAK_MAX
    }

    /// The recogniser of a channel: on where it is wanted, recognition is on,
    /// and the environment does not say 0.
    pub fn new(want: bool, switch: &Switch, env: Option<&str>, now: Duration) -> (r: Stt)
        ensures
            r.wf(),
            r.enabled == on_of(want, switch.on, text::opt_str(env)),
            r.health@ == if r.enabled {
                HealthView::Starting
            } else {
                HealthView::Off
            },
            r.next == now,
            r.delay@ == RETRY_MIN_SECS * SECOND,
            r.young_streak == 0,
    {
        let off = match env {
            Some(v) => same_str(v, "0"),
            None => false,
        };
        let enabled = want && is_enabled(switch) && !off;
        Stt {
            enabled,
            health: if enabled {
                Health::Starting
            } else {
                Health::Off
            },
            next: now,
            delay: Duration::from_secs(RETRY_MIN_SECS),
            young_streak: 0,
        }
    }

    /// Whether to start the recogniser now, where it does not run.
    pub fn may_start(&self, now: Duration) -> (r: bool)
        ensures
            r == (self.enabled && now@ >= self.next@),
    {
        self.enabled && now.at_least_as(&self.next)
    }

    fn set_health(&mut self, channel: &str, next: Health) -> (r: Option<Event>)
        ensures
            final(self).health@ == next@,
            *final(self) == (Stt { health: final(self).health, ..*old(self) }),
            r is None <==> old(self).health@ == next@,
            r matches Some(e) ==> e@ == health_event_of(channel@, next@),
    {
        if self.health.same(&next) {
            return None;
        }
        let status = match &next {
            Health::Off => "off",
            Health::Starting => "starting",
            Health::Warmup => "warmup",
            Health::Live => "live",
            Health::Down(_) => "down",
        };
        let why = match &next {
            Health::Down(w) => w.clone(),
            _ => String::new(),
        };
        proof {
            if !(next@ is Down) {
                assert(why@ =~= Seq::<char>::empty());
            }
        }
        let mut pairs: Vec<(String, Json)> = Vec::new();
        pairs.push(("channel".to_owned(), telemetry::text(channel)));
        pairs.push(("status".to_owned(), telemetry::text(status)));
        pairs.push(("why".to_owned(), telemetry::text(why.as_str())));
        assert(json::entries(pairs@) =~= seq![
            ("channel"@, Tree::Text(channel@)),
            ("status"@, Tree::Text(status@)),
            ("why"@, Tree::Text(why@)),
        ]);
        self.health = next;
        Some(telemetry::event("stt.health", pairs))
    }

    fn schedule_retry(&mut self, now: Duration)
        requires
            old(self).wf(),
            clock::in_time(now@, RETRY_MAX_SECS),
        ensures
            final(self).wf(),
            final(self).next@ == now@ + old(self).delay@,
            final(self).delay@ == next_delay_of(old(self).delay@),
            *final(self) == (Stt { next: final(self).next, delay: final(self).delay, ..*old(self) }),
    {
        self.next = now.plus(&self.delay);
        self.delay = next_delay(self.delay);
    }

    /// The recogniser was started: the report of the change of health.
    pub fn started(&mut self, channel: &str, now: Duration) -> (r: Option<Event>)
        requires
            old(self).wf(),
        ensures
            final(self).wf(),
            final(self).enabled == old(self).enabled,
            final(self).young_streak == old(self).young_streak,
            final(self).next == now,
            final(self).delay@ == RETRY_MIN_SECS * SECOND,
            final(self).health@ == HealthView::Live,
            r is None <==> old(self).health@ == HealthView::Live,
            r matches Some(e) ==> e@ == health_event_of(channel@, HealthView::Live),
    {
        self.delay = Duration::from_secs(RETRY_MIN_SECS);
        self.next = now;
        self.set_health(channel, Health::Live)
    }

    /// The recogniser was not started. Where it is known when to try again it
    /// is warming up, and no failure counts.
    pub fn start_failed(&mut self, channel: &str, fail: StartFail, now: Duration) -> (r: Option<
        Event,
    >)
        requires
            old(self).wf(),
            clock::in_time(now@, RETRY_MAX_SECS),
            fail.retry_in matches Some(d) ==> now@ + d@ < 0x1_0000_0000_0000_0000 * SECOND,
        ensures
            final(self).wf(),
            final(self).enabled == old(self).enabled,
            final(self).young_streak == old(self).young_streak,
            ({
                let (h, pause, delay) = after_failed_start(
                    old(self).delay@,
                    fail.why@,
                    match fail.retry_in {
                        Some(d) => Some(d@),
                        None => None,
                    },
                );
                &&& final(self).health@ == h
                &&& r is None <==> old(self).health@ == h
                &&& r matches Some(e) ==> e@ == health_event_of(channel@, h)
                &&& final(self).next@ == now@ + pause
                &&& final(self).delay@ == delay
                &&& fail.retry_in is Some ==> final(self).delay == old(self).delay
            }),
    {
        match fail.retry_in {
            Some(d) => {
                let r = self.set_health(channel, Health::Warmup);
                self.next = now.plus(&d);
                r
            },
            None => {
                let r = self.set_health(channel, Health::Down(fail.why));
                self.schedule_retry(now);
                r
            },
        }
    }

    /// The recogniser failed, at the age `age`: the report of it, and of the
    /// change of health. One that has died young three times in a row gets a
    /// long pause.
    pub fn faulted(&mut self, channel: &str, fault: Fault, age: Duration, now: Duration) -> (r: (
        Event,
        Option<Event>,
    ))
        requires
            old(self).wf(),
            clock::in_time(now@, RETRY_COLD_SECS),
        ensures
            final(self).wf(),
            final(self).enabled == old(self).enabled,
            ({
                let young = age@ < DIED_YOUNG_SECS * SECOND;
                let (cold, streak, pause, delay) = after_fault(
                    old(self).delay@,
                    old(self).young_streak as nat,
                    age@,
                );
                let h = if cold {
                    HealthView::Down("распознавание падает на старте, пауза 5 мин"@)
                } else {
                    HealthView::Down(fault_why(fault))
                };
                &&& r.0@ == telemetry::event_of(
                    "stt.fault"@,
                    seq![
                        ("channel"@, Tree::Text(channel@)),
                        ("kind"@, Tree::Text(fault_kind(fault))),
                        ("young"@, Tree::Bool(young)),
                    ],
                )
                &&& final(self).health@ == h
                &&& r.1 is None <==> old(self).health@ == h
                &&& r.1 matches Some(e) ==> e@ == health_event_of(channel@, h)
                &&& final(self).young_streak == streak
                &&& final(self).next@ == now@ + pause
                &&& final(self).delay@ == delay
            }),
    {
        let young = !age.at_least(DIED_YOUNG_SECS);
        let mut pairs: Vec<(String, Json)> = Vec::new();
        pairs.push(("channel".to_owned(), telemetry::text(channel)));
        pairs.push(("kind".to_owned(), telemetry::text(fault.kind())));
        pairs.push(("young".to_owned(), Json::Bool(young)));
        assert(json::entries(pairs@) =~= seq![
            ("channel"@, Tree::Text(channel@)),
            ("kind"@, Tree::Text(fault_kind(fault))),
            ("young"@, Tree::Bool(young)),
        ]);
        let report = telemetry::event("stt.fault", pairs);
        let streak: u32 = if young {
            self.young_streak + 1
        } else {
            0
        };
        if streak >= YOUNG_STREAK_MAX {
            let changed = self.set_health(
                channel,
                Health::Down("распознавание падает на старте, пауза 5 мин".to_owned()),
            );
            self.next = now.plus(&Duration::from_secs(RETRY_COLD_SECS));
            self.delay = Duration::from_secs(RETRY_MIN_SECS);
            self.young_streak = 0;
            (report, changed)
        } else {
            self.young_streak = streak;
            let changed = self.set_health(channel, Health::Down(fault.why().to_owned()));
            self.schedule_retry(now);
            (report, changed)
        }
    }
}

} // verus!
