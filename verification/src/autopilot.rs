//! The autopilot in the window: what is wanted of it, and what is shown of it.

use crate::hr_reply::HrReplyState;
use crate::json;
use crate::json::{Json, Tree};
use crate::paths;
use crate::paths::join;
use crate::pilot::{Phase, Pilot};
use crate::pilot_scan::{ScanGroup, ScanStatus};
use crate::pilot_stats::PilotStats;
use crate::telemetry;
use crate::telemetry::Event;
use crate::text;
use crate::text::{as_opt_str, cat, cat3, cat5, decimal_i64, quoted, same_opt, same_str};
use vstd::prelude::*;

verus! {

/// The profile that is used where none was chosen.
pub const DEFAULT_PROFILE: &'static str = "fullstack";

/// How strict it is where nothing was chosen.
pub const DEFAULT_STRICTNESS: &'static str = "medium";

/// What is told where the autopilot does not start.
pub const START_FAILED: &'static str = "не удалось запустить автопилот";

/// The profiles: what each is called, and how it is shown.
pub open spec fn profiles_of() -> Seq<(Seq<char>, Seq<char>)> {
    seq![
        ("fullstack"@, "Fullstack"@),
        ("back"@, "Backend"@),
        ("bulat"@, "Булат"@),
    ]
}

/// The names and labels of a list.
pub open spec fn pair_views(v: Seq<(&str, &str)>) -> Seq<(Seq<char>, Seq<char>)> {
    v.map_values(|p: (&str, &str)| (p.0@, p.1@))
}

/// The profiles.
pub fn profiles() -> (r: Vec<(&'static str, &'static str)>)
    ensures
        pair_views(r@) == profiles_of(),
{
    let mut v: Vec<(&'static str, &'static str)> = Vec::new();
    v.push(("fullstack", "Fullstack"));
    v.push(("back", "Backend"));
    v.push(("bulat", "Булат"));
    assert(pair_views(v@) =~= profiles_of());
    v
}

/// How a profile is shown.
pub open spec fn profile_label_of(profile: Seq<char>) -> Seq<char> {
    if profile == "back"@ {
        "Backend"@
    } else if profile == "bulat"@ {
        "Булат"@
    } else {
        "Fullstack"@
    }
}

/// Every profile is shown by the label that stands beside it in the list, and
/// one that is not in the list as the first of them.
pub proof fn profile_is_shown_by_its_label(i: int, profile: Seq<char>)
    ensures
        0 <= i < profiles_of().len() ==> profile_label_of(profiles_of()[i].0) == profiles_of()[i].1,
        (forall|j: int| 0 <= j < profiles_of().len() ==> (#[trigger] profiles_of()[j]).0 != profile)
            ==> profile_label_of(profile) == profiles_of()[0].1,
        profiles_of()[0].0 == DEFAULT_PROFILE@,
{
    reveal_strlit("fullstack");
    reveal_strlit("back");
    reveal_strlit("bulat");
    assert("fullstack"@.len() == 9 && "back"@.len() == 4 && "bulat"@.len() == 5);
    assert(profiles_of()[1].0 == "back"@ && profiles_of()[2].0 == "bulat"@);
}

/// How strict it can be: what it is called, how it is shown, and the threshold.
/// The threshold is the bit pattern of an `f32`, and its text has two decimals.
#[derive(Debug, Clone, Copy, PartialEq, Eq)]
pub struct Strictness {
    pub key: &'static str,
    pub label: &'static str,
    pub bits: u32,
    pub shown: &'static str,
}

/// The name, the label, the threshold and its text of each way to be strict.
pub open spec fn levels(v: Seq<Strictness>) -> Seq<(Seq<char>, Seq<char>, u32, Seq<char>)> {
    v.map_values(|s: Strictness| (s.key@, s.label@, s.bits, s.shown@))
}

/// The three ways to be strict.
pub open spec fn levels_of() -> Seq<(Seq<char>, Seq<char>, u32, Seq<char>)> {
    seq![
        ("strict"@, "Строго"@, 0x3F0C_CCCDu32, "0.55"@),
        ("medium"@, "Средне"@, 0x3F00_0000u32, "0.50"@),
        ("any"@, "Любые"@, 0u32, "0.00"@),
    ]
}

/// The three ways to be strict.
pub fn strictness_levels() -> (r: Vec<Strictness>)
    ensures
        levels(r@) == levels_of(),
{
    let mut v: Vec<Strictness> = Vec::new();
    v.push(Strictness { key: "strict", label: "Строго", bits: 0x3F0C_CCCD, shown: "0.55" });
    v.push(Strictness { key: "medium", label: "Средне", bits: 0x3F00_0000, shown: "0.50" });
    v.push(Strictness { key: "any", label: "Любые", bits: 0, shown: "0.00" });
    v
}

/// What is told of a threshold: there is none where it is zero.
pub fn threshold_hint(s: &Strictness) -> (r: String)
    ensures
        r@ == if s.bits > 0 {
            "Порог ≥ "@ + s.shown@ + " — только достаточно близкие вакансии"@
        } else {
            "Без порога — откликаться на весь пул (по убыванию похожести)"@
        },
{
    if s.bits > 0 {
        cat3("Порог ≥ ", s.shown, " — только достаточно близкие вакансии")
    } else {
        "Без порога — откликаться на весь пул (по убыванию похожести)".to_owned()
    }
}

/// The threshold of a way to be strict, as the bit pattern of an `f32`: zero of
/// one that is not known.
pub open spec fn min_sim_of(strictness: Seq<char>) -> u32 {
    if strictness == "strict"@ {
        0x3F0C_CCCD
    } else if strictness == "medium"@ {
        0x3F00_0000
    } else {
        0
    }
}

/// The threshold that is used is the one that the chosen way shows. The bits of
/// thresholds are in the order of the thresholds: each way asks for more than
/// the next, the last for nothing, and so does one that is not known.
pub proof fn threshold_is_the_one_shown(i: int, strictness: Seq<char>)
    ensures
        0 <= i < 3 ==> min_sim_of(levels_of()[i].0) == levels_of()[i].2,
        min_sim_of("strict"@) > min_sim_of("medium"@) > min_sim_of("any"@),
        min_sim_of("any"@) == 0,
        min_sim_of(strictness) > 0 ==> strictness == "strict"@ || strictness == "medium"@,
{
    reveal_strlit("strict");
    reveal_strlit("medium");
    reveal_strlit("any");
    assert("strict"@[0] == 's' && "medium"@[0] == 'm' && "any"@[0] == 'a');
}

/// What is wanted of the autopilot, for whom and how strictly, and what was last
/// told of it.
pub struct Autopilot {
    pub want: Option<Phase>,
    pub profile: String,
    pub strictness: String,
    pub status: String,
}

/// What was clicked: each at most once.
pub struct Clicks {
    pub profile: Option<String>,
    pub strictness: Option<String>,
    pub want: Option<Option<Phase>>,
    pub pause: bool,
}

/// What is done about a click.
#[derive(Debug, Clone, Copy, PartialEq, Eq, Structural)]
pub enum Deed {
    /// The counts of the old profile are forgotten, and where the autopilot is
    /// wanted it is brought in line.
    Profile { reconcile: bool },
    /// The autopilot is brought in line where it applies for vacancies.
    Strictness { reconcile: bool },
    /// The autopilot is brought in line.
    Want,
    /// The autopilot pauses, or goes on.
    Pause,
}

/// What has to be done so that the autopilot is as it is wanted.
pub enum Reconcile {
    /// It is.
    Nothing,
    /// It is stopped; what the log says.
    Stop(Event),
    /// It is started, after the one that runs was stopped. The threshold is the
    /// bit pattern of an `f32`.
    Start { phase: Phase, profile: String, min_sim: u32 },
}

/// Two phases are the same, or neither is there.
pub open spec fn same_want(a: Option<Phase>, b: Option<Phase>) -> bool {
    match (a, b) {
        (Some(x), Some(y)) => x.same(y),
        (None, None) => true,
        _ => false,
    }
}

/// A phase in the log.
pub open spec fn phase_text_of(p: Phase) -> Seq<char> {
    match p {
        Phase::Chat => "Chat"@,
        Phase::Apply => "Apply"@,
        Phase::Scan(g) => "Scan("@ + text::quoted_of(g@) + ")"@,
        Phase::ScanAll => "ScanAll"@,
        Phase::Enrich => "Enrich"@,
    }
}

/// A phase in the log.
pub fn phase_text(p: &Phase) -> (r: String)
    ensures
        r@ == phase_text_of(*p),
{
    match p {
        Phase::Chat => "Chat".to_owned(),
        Phase::Apply => "Apply".to_owned(),
        Phase::Scan(g) => cat3("Scan(", quoted(g.as_str()).as_str(), ")"),
        Phase::ScanAll => "ScanAll".to_owned(),
        Phase::Enrich => "Enrich".to_owned(),
    }
}

/// A phase is logged by its name, and a search of one group by the group too.
pub proof fn phases_are_logged_by_name(group: String)
    ensures
        phase_text_of(Phase::Chat) == "Chat"@,
        phase_text_of(Phase::Apply) == "Apply"@,
        phase_text_of(Phase::ScanAll) == "ScanAll"@,
        phase_text_of(Phase::Enrich) == "Enrich"@,
        text::starts_of(phase_text_of(Phase::Scan(group)), "Scan("@),
        text::contains_of(phase_text_of(Phase::Scan(group)), text::quoted_of(group@)),
{
    let q = text::quoted_of(group@);
    text::parts_are_found("Scan("@, q, ")"@);
    text::parts_are_found(Seq::empty(), "Scan("@, q + ")"@);
    assert("Scan("@ + q + ")"@ =~= "Scan("@ + (q + ")"@));
}

/// What is told once an autopilot has left by itself.
pub open spec fn exit_text(p: Phase) -> Seq<char> {
    match p {
        Phase::Scan(_) => "скан завершён"@,
        Phase::ScanAll => "скан завершён"@,
        Phase::Enrich => "обогащение завершено"@,
        _ => "автопилот остановлен"@,
    }
}

/// A search that has ended says so, of one group as of all; so does the look at
/// vacancies, and whatever else ends is stopped.
pub proof fn end_says_what_has_ended(group: String)
    ensures
        exit_text(Phase::Scan(group)) == exit_text(Phase::ScanAll),
        exit_text(Phase::ScanAll) == "скан завершён"@,
        exit_text(Phase::Enrich) == "обогащение завершено"@,
        exit_text(Phase::Chat) == exit_text(Phase::Apply),
        exit_text(Phase::Apply) == "автопилот остановлен"@,
{
}

impl Autopilot {
    /// Nothing is wanted yet; `profile` and `strictness` are what was saved.
    pub fn new(profile: Option<&str>, strictness: Option<&str>) -> (r: Autopilot)
        ensures
            r.want is None,
            r.profile@ == match profile {
                Some(p) => p@,
                None => DEFAULT_PROFILE@,
            },
            r.strictness@ == match strictness {
                Some(s) => s@,
                None => DEFAULT_STRICTNESS@,
            },
            r.status@ == Seq::<char>::empty(),
    {
        let r = Autopilot {
            want: None,
            profile: match profile {
                Some(p) => p.to_owned(),
                None => DEFAULT_PROFILE.to_owned(),
            },
            strictness: match strictness {
                Some(s) => s.to_owned(),
                None => DEFAULT_STRICTNESS.to_owned(),
            },
            status: String::new(),
        };
        assert(r.status@ =~= Seq::empty());
        r
    }

    /// The threshold, as the bit pattern of an `f32`.
    pub fn min_sim(&self) -> (r: u32)
        ensures
            r == min_sim_of(self.strictness@),
    {
        if same_str(self.strictness.as_str(), "strict") {
            0x3F0C_CCCD
        } else if same_str(self.strictness.as_str(), "medium") {
            0x3F00_0000
        } else {
            0
        }
    }

    /// How the profile is shown.
    pub fn profile_label(&self) -> (r: &'static str)
        ensures
            r@ == profile_label_of(self.profile@),
    {
        if same_str(self.profile.as_str(), "back") {
            "Backend"
        } else if same_str(self.profile.as_str(), "bulat") {
            "Булат"
        } else {
            "Fullstack"
        }
    }

    /// The phase is wanted.
    pub open spec fn wants_of(self, phase: Phase) -> bool {
        match self.want {
            Some(w) => w.same(phase),
            None => false,
        }
    }

    /// Whether the phase is wanted.
    pub fn wants(&self, phase: &Phase) -> (r: bool)
        ensures
            r == self.wants_of(*phase),
    {
        match &self.want {
            Some(w) => w.is(phase),
            None => false,
        }
    }

    /// What is wanted once the button of a phase was clicked: the phase, and
    /// nothing where it was wanted already.
    pub fn toggled(&self, phase: &Phase) -> (r: Option<Phase>)
        ensures
            same_want(r, toggled_of(self.want, *phase)),
    {
        if self.wants(phase) {
            None
        } else {
            Some(phase.copy())
        }
    }

    /// An autopilot that is as it is wanted.
    pub open spec fn fits(self, phase: Phase, p: Pilot) -> bool {
        &&& p.phase.same(phase)
        &&& text::opt_text(p.profile) == Some(self.profile@)
        &&& p.min_sim == min_sim_of(self.strictness@)
    }

    /// `r` is what has to be done, while `running` runs.
    pub open spec fn reconciled(self, running: Option<Pilot>, r: Reconcile) -> bool {
        match (self.want, running) {
            (None, None) => r is Nothing,
            (None, Some(_)) => r matches Reconcile::Stop(e) && e@ == telemetry::event_of(
                "pilot.stop"@,
                Seq::empty(),
            ) && json::proper(e.fields@),
            (Some(w), Some(p)) if self.fits(w, p) => r is Nothing,
            (Some(w), _) => r matches Reconcile::Start { phase, profile, min_sim } && w.same(phase)
                && profile@ == self.profile@ && min_sim == min_sim_of(self.strictness@),
        }
    }

    /// What has to be done so that the autopilot is as it is wanted; `running`
    /// is the one that runs.
    pub fn reconcile(&self, running: Option<&Pilot>) -> (r: Reconcile)
        ensures
            self.reconciled(
                match running {
                    Some(p) => Some(*p),
                    None => None,
                },
                r,
            ),
    {
        let wanted = match &self.want {
            Some(w) => w,
            None => {
                if running.is_none() {
                    return Reconcile::Nothing;
                }
                let pairs: Vec<(String, Json)> = Vec::new();
                assert(json::entries(pairs@) =~= Seq::empty());
                return Reconcile::Stop(telemetry::event("pilot.stop", pairs));
            },
        };
        if let Some(p) = running {
            if p.phase.is(wanted) && same_opt(
                as_opt_str(&p.profile),
                Some(self.profile.as_str()),
            ) && p.min_sim == self.min_sim() {
                return Reconcile::Nothing;
            }
        }
        Reconcile::Start {
            phase: wanted.copy(),
            profile: self.profile.clone(),
            min_sim: self.min_sim(),
        }
    }

    /// An autopilot was started, or not: what the log says. Where it was not,
    /// nothing is wanted any more, and it is told.
    pub fn started(&mut self, phase: &Phase, ok: bool) -> (r: Event)
        ensures
            final(self).profile@ == old(self).profile@,
            final(self).strictness@ == old(self).strictness@,
            json::proper(r.fields@),
            if ok {
                &&& final(self).want == old(self).want
                &&& final(self).status@ == Seq::<char>::empty()
                &&& r@ == telemetry::event_of(
                    "pilot.spawn"@,
                    seq![
                        ("phase"@, Tree::Text(phase_text_of(*phase))),
                        ("profile"@, Tree::Text(old(self).profile@)),
                    ],
                )
            } else {
                &&& final(self).want is None
                &&& final(self).status@ == START_FAILED@
                &&& r@ == telemetry::event_of(
                    "pilot.fail"@,
                    seq![("err"@, Tree::Text(START_FAILED@))],
                )
            },
    {
        if !ok {
            self.want = None;
            self.status = START_FAILED.to_owned();
            return telemetry::error("pilot.fail", START_FAILED);
        }
        self.status = String::new();
        assert(self.status@ =~= Seq::empty());
        let mut pairs: Vec<(String, Json)> = Vec::new();
        pairs.push(("phase".to_owned(), Json::Text(phase_text(phase))));
        pairs.push(("profile".to_owned(), Json::Text(self.profile.clone())));
        assert(json::entries(pairs@) =~= seq![
            ("phase"@, Tree::Text(phase_text_of(*phase))),
            ("profile"@, Tree::Text(self.profile@)),
        ]);
        telemetry::event("pilot.spawn", pairs)
    }

    /// The autopilot has left by itself: nothing is wanted any more, and why is
    /// told. What the log says.
    pub fn exited(&mut self, phase: &Phase) -> (r: Event)
        ensures
            final(self).want is None,
            final(self).status@ == exit_text(*phase),
            final(self).profile@ == old(self).profile@,
            final(self).strictness@ == old(self).strictness@,
            r@ == telemetry::event_of(
                "pilot.exit"@,
                seq![("reason"@, Tree::Text(exit_text(*phase)))],
            ),
            json::proper(r.fields@),
    {
        let reason = match phase {
            Phase::Scan(_) => "скан завершён",
            Phase::ScanAll => "скан завершён",
            Phase::Enrich => "обогащение завершено",
            _ => "автопилот остановлен",
        };
        self.want = None;
        self.status = reason.to_owned();
        let mut pairs: Vec<(String, Json)> = Vec::new();
        pairs.push(("reason".to_owned(), Json::Text(reason.to_owned())));
        assert(json::entries(pairs@) =~= seq![("reason"@, Tree::Text(reason@))]);
        telemetry::event("pilot.exit", pairs)
    }

    /// Takes the first of the clicks that is left, in this order: the profile,
    /// the strictness, what is wanted, the pause. What is done about it, nothing
    /// where no click is left.
    pub fn next(&mut self, clicks: &mut Clicks) -> (r: Option<Deed>)
        ensures
            final(self).status@ == old(self).status@,
            taken(*old(self), *old(clicks), *final(self), *final(clicks), r),
    {
        if let Some(p) = clicks.profile.take() {
            self.profile = p;
            return Some(Deed::Profile { reconcile: self.want.is_some() });
        }
        if let Some(s) = clicks.strictness.take() {
            self.strictness = s;
            return Some(Deed::Strictness { reconcile: self.wants(&Phase::Apply) });
        }
        if let Some(w) = clicks.want.take() {
            self.want = w;
            return Some(Deed::Want);
        }
        if clicks.pause {
            clicks.pause = false;
            return Some(Deed::Pause);
        }
        None
    }

    /// What is told of the autopilot: that it pauses, or the latest line of the
    /// one that runs, or what was last told.
    pub fn status_line(&self, running: Option<&Pilot>) -> (r: String)
        ensures
            r@ == match running {
                Some(p) => status_of(self.status@, true, p.paused, text::texts(p.log@)),
                None => status_of(self.status@, false, false, Seq::empty()),
            },
    {
        if let Some(p) = running {
            if p.is_paused() {
                return "⏸ на паузе".to_owned();
            }
            if let Some(line) = p.last_line() {
                return line;
            }
        }
        self.status.clone()
    }
}

/// What is told of an autopilot: `status` was last told of it, and `log` are the
/// lines of the one that runs.
pub open spec fn status_of(
    status: Seq<char>,
    runs: bool,
    paused: bool,
    log: Seq<Seq<char>>,
) -> Seq<char> {
    if runs && paused {
        "⏸ на паузе"@
    } else if runs && log.len() > 0 {
        log.last()
    } else {
        status
    }
}

/// A pause is told whatever was said before it; without one the latest line is
/// told, and what was told before only while no line was heard.
pub proof fn latest_word_is_told(status: Seq<char>, log: Seq<Seq<char>>, line: Seq<char>)
    ensures
        status_of(status, true, false, log.push(line)) == line,
        status_of(status, true, true, log) == status_of(line, true, true, log.push(line)),
        status_of(status, true, true, log) == "⏸ на паузе"@,
        status_of(status, true, false, Seq::empty()) == status,
        status_of(status, false, false, log) == status,
{
}

/// `r` is what is done about the first of the clicks `c`, which leaves `d`, and
/// makes `a` into `b`.
pub open spec fn taken(a: Autopilot, c: Clicks, b: Autopilot, d: Clicks, r: Option<Deed>) -> bool {
    match (c.profile, c.strictness, c.want) {
        (Some(p), _, _) => {
            &&& r == Some(Deed::Profile { reconcile: a.want is Some })
            &&& b.profile@ == p@
            &&& b.strictness@ == a.strictness@
            &&& b.want == a.want
            &&& d == (Clicks { profile: None, ..c })
        },
        (None, Some(s), _) => {
            &&& r == Some(Deed::Strictness { reconcile: a.wants_of(Phase::Apply) })
            &&& b.profile@ == a.profile@
            &&& b.strictness@ == s@
            &&& b.want == a.want
            &&& d == (Clicks { strictness: None, ..c })
        },
        (None, None, Some(w)) => {
            &&& r == Some(Deed::Want)
            &&& b.profile@ == a.profile@
            &&& b.strictness@ == a.strictness@
            &&& b.want == w
            &&& d == (Clicks { want: None, ..c })
        },
        (None, None, None) => {
            &&& r == if c.pause {
                Some(Deed::Pause)
            } else {
                None
            }
            &&& b.profile@ == a.profile@
            &&& b.strictness@ == a.strictness@
            &&& b.want == a.want
            &&& d == (Clicks { pause: false, ..c })
        },
    }
}

/// How many clicks are left.
pub open spec fn clicks_left(c: Clicks) -> int {
    (if c.profile is Some {
        1int
    } else {
        0
    }) + (if c.strictness is Some {
        1int
    } else {
        0
    }) + (if c.want is Some {
        1int
    } else {
        0
    }) + (if c.pause {
        1int
    } else {
        0
    })
}

/// Every click is taken, one at a time, until none is left. Each changes what it
/// is about and nothing else, and what runs is brought in line wherever the
/// click concerns it: a profile whatever runs, a strictness only where
/// applications are sent.
pub proof fn clicks_are_taken_one_by_one(
    a: Autopilot,
    c: Clicks,
    b: Autopilot,
    d: Clicks,
    r: Option<Deed>,
)
    requires
        taken(a, c, b, d, r),
    ensures
        r is None <==> clicks_left(c) == 0,
        r is Some ==> clicks_left(d) == clicks_left(c) - 1,
        b.profile@ != a.profile@ ==> r is Some && r->0 is Profile,
        b.strictness@ != a.strictness@ ==> r is Some && r->0 is Strictness,
        b.want != a.want ==> r == Some(Deed::Want),
        r matches Some(Deed::Profile { reconcile }) ==> (reconcile <==> a.want is Some) && Some(
            b.profile@,
        ) == text::opt_text(c.profile),
        r matches Some(Deed::Strictness { reconcile }) ==> (reconcile <==> (a.want matches Some(w)
            && w is Apply)) && Some(b.strictness@) == text::opt_text(c.strictness),
        r == Some(Deed::Want) ==> Some(b.want) == c.want,
{
}

/// An autopilot that was started as it was wanted is as it is wanted: nothing
/// has to be done again.
pub proof fn reconcile_settles(a: Autopilot, phase: Phase, p: Pilot)
    requires
        a.want matches Some(w) && w.same(phase),
        p.phase.same(phase),
        text::opt_text(p.profile) == Some(a.profile@),
        p.min_sim == min_sim_of(a.strictness@),
    ensures
        a.want matches Some(w) && a.fits(w, p),
{
}

/// Where nothing is wanted nothing runs on, and where something is wanted what
/// runs afterwards does just that, for the chosen profile and as strictly as was
/// chosen. What already does so is left alone.
pub proof fn reconcile_leads_to_what_is_wanted(a: Autopilot, running: Option<Pilot>, r: Reconcile)
    requires
        a.reconciled(running, r),
    ensures
        match r {
            Reconcile::Nothing => match running {
                Some(p) => (a.want matches Some(w) && p.phase.same(w)) && text::opt_text(p.profile)
                    == Some(a.profile@) && p.min_sim == min_sim_of(a.strictness@),
                None => a.want is None,
            },
            Reconcile::Stop(_) => a.want is None && running is Some,
            Reconcile::Start { phase, profile, min_sim } => {
                &&& a.want matches Some(w) && w.same(phase)
                &&& profile@ == a.profile@
                &&& min_sim == min_sim_of(a.strictness@)
                &&& running matches Some(p) ==> !(phase.same(p.phase) && text::opt_text(p.profile)
                    == Some(profile@) && p.min_sim == min_sim)
            },
        },
{
}

/// What is wanted once the button of a phase was clicked.
pub open spec fn toggled_of(want: Option<Phase>, phase: Phase) -> Option<Phase> {
    if same_want(want, Some(phase)) {
        None
    } else {
        Some(phase)
    }
}

/// The button of a phase switches it: it is wanted after a click exactly where
/// it was not before.
pub proof fn button_switches(want: Option<Phase>, phase: Phase)
    ensures
        same_want(toggled_of(want, phase), Some(phase)) != same_want(want, Some(phase)),
{
}

pub open spec fn pause_button_of(paused: bool) -> (Seq<char>, Seq<char>) {
    if paused {
        ("▶ Продолжить"@, "Снять паузу — продолжить с того же места"@)
    } else {
        ("⏸ Пауза"@, "Заморозить автопилот на месте (браузер не закрывается)"@)
    }
}

pub open spec fn apply_button_of(applying: bool) -> (Seq<char>, Seq<char>) {
    if applying {
        ("⏹ Стоп"@, "Остановить отклики"@)
    } else {
        ("▶ Начать"@, "Начать отклики по соответствию резюме (с выбранной строгостью)"@)
    }
}

pub open spec fn notify_label_of(on: bool) -> Seq<char> {
    if on {
        "🔔 Уведомления: вкл"@
    } else {
        "🔕 Уведомления: выкл"@
    }
}

/// A button shows what a click does, not what is: a triangle where it lets
/// something begin or go on, two bars where it lets it pause, a square where it
/// stops it. The bell shows what is.
pub proof fn buttons_show_what_they_do(on: bool)
    ensures
        pause_button_of(true).0[0] == '▶' && pause_button_of(true).1[0] == 'С',
        pause_button_of(false).0[0] == '⏸' && pause_button_of(false).1[0] == 'З',
        apply_button_of(true).0[0] == '⏹' && apply_button_of(true).1[0] == 'О',
        apply_button_of(false).0[0] == '▶' && apply_button_of(false).1[0] == 'Н',
        notify_label_of(on)[0] == '🔔' <==> on,
        text::ends_of(notify_label_of(on), " вкл"@) <==> on,
        text::ends_of(notify_label_of(on), " выкл"@) <==> !on,
{
    reveal_strlit("▶ Продолжить");
    reveal_strlit("Снять паузу — продолжить с того же места");
    reveal_strlit("⏸ Пауза");
    reveal_strlit("Заморозить автопилот на месте (браузер не закрывается)");
    reveal_strlit("⏹ Стоп");
    reveal_strlit("Остановить отклики");
    reveal_strlit("▶ Начать");
    reveal_strlit("Начать отклики по соответствию резюме (с выбранной строгостью)");
    reveal_strlit("🔔 Уведомления: вкл");
    reveal_strlit("🔕 Уведомления: выкл");
    reveal_strlit(" вкл");
    reveal_strlit(" выкл");
    let a = "🔔 Уведомления: вкл"@;
    let b = "🔕 Уведомления: выкл"@;
    assert(a.len() == 18 && b.len() == 19 && " вкл"@.len() == 4 && " выкл"@.len() == 5);
    assert(a.subrange(14, 18) =~= " вкл"@);
    assert(b.subrange(14, 19) =~= " выкл"@);
    assert(a.subrange(13, 18)[0] == ':');
    assert(b.subrange(15, 19)[0] == 'в');
}

/// The label of the button that pauses, and what is told of it.
pub fn pause_button(paused: bool) -> (r: (&'static str, &'static str))
    ensures
        (r.0@, r.1@) == pause_button_of(paused),
{
    if paused {
        ("▶ Продолжить", "Снять паузу — продолжить с того же места")
    } else {
        ("⏸ Пауза", "Заморозить автопилот на месте (браузер не закрывается)")
    }
}

/// The label of the button that starts the applications, and what is told of it.
pub fn apply_button(applying: bool) -> (r: (&'static str, &'static str))
    ensures
        (r.0@, r.1@) == apply_button_of(applying),
{
    if applying {
        ("⏹ Стоп", "Остановить отклики")
    } else {
        ("▶ Начать", "Начать отклики по соответствию резюме (с выбранной строгостью)")
    }
}

/// The label of the switch of notices.
pub fn notify_label(on: bool) -> (r: &'static str)
    ensures
        r@ == notify_label_of(on),
{
    if on {
        "🔔 Уведомления: вкл"
    } else {
        "🔕 Уведомления: выкл"
    }
}

pub open spec fn hr_line_of(s: HrReplyState) -> Option<Seq<char>> {
    match s {
        HrReplyState::Idle => None,
        HrReplyState::Running => Some("думаю…"@),
        HrReplyState::Done => Some("✓ ответ в буфере"@),
        HrReplyState::Error(e) => Some(e@),
    }
}

/// A failure is told in its own words, an answer by a tick, and nothing before
/// one was asked for.
pub proof fn answer_is_told_by_its_end(s: HrReplyState)
    ensures
        hr_line_of(s) is None <==> s is Idle,
        s matches HrReplyState::Error(e) ==> hr_line_of(s) == Some(e@),
        s is Done ==> hr_line_of(s)->0[0] == '✓',
        s is Running ==> hr_line_of(s)->0.last() == '…',
{
    reveal_strlit("✓ ответ в буфере");
    reveal_strlit("думаю…");
}

/// What is told of the answer to the other side's staff, nothing where none was
/// asked for.
pub fn hr_line(s: &HrReplyState) -> (r: Option<&str>)
    ensures
        text::opt_str(r) == hr_line_of(*s),
{
    match s {
        HrReplyState::Idle => None,
        HrReplyState::Running => Some("думаю…"),
        HrReplyState::Done => Some("✓ ответ в буфере"),
        HrReplyState::Error(e) => Some(e.as_str()),
    }
}

/// How many vacancies wait in groups.
pub open spec fn pending_sum(groups: Seq<ScanGroup>) -> int
    decreases groups.len(),
{
    if groups.len() == 0 {
        0
    } else {
        pending_sum(groups.drop_last()) + groups.last().pending
    }
}

/// Every sum of the first groups can be counted.
pub open spec fn sums_fit(groups: Seq<ScanGroup>) -> bool {
    forall|n: int|
        0 <= n <= groups.len() ==> i64::MIN <= pending_sum(#[trigger] groups.take(n)) <= i64::MAX
}

/// The vacancies of all groups are those of each: no group is left out, and none
/// counts twice.
pub proof fn groups_are_all_counted(a: Seq<ScanGroup>, g: ScanGroup, b: Seq<ScanGroup>)
    ensures
        pending_sum(a + seq![g] + b) == pending_sum(a) + g.pending + pending_sum(b),
        pending_sum(Seq::empty()) == 0,
    decreases b.len(),
{
    let s = a + seq![g] + b;
    if b.len() > 0 {
        groups_are_all_counted(a, g, b.drop_last());
        assert(s.drop_last() =~= a + seq![g] + b.drop_last());
    } else {
        assert(s.drop_last() =~= a);
    }
}

/// The label of the button that searches all groups, with how many vacancies
/// wait in them; nothing where there is no group.
pub fn all_groups_label(scan: &ScanStatus) -> (r: Option<String>)
    requires
        sums_fit(scan.groups@),
    ensures
        text::opt_text(r) == if scan.groups@.len() == 0 {
            None
        } else {
            Some(
                "🔎 Все группы ("@ + text::decimal_int_of(pending_sum(scan.groups@)) + ")"@,
            )
        },
{
    if scan.groups.len() == 0 {
        return None;
    }
    let mut total: i64 = 0;
    let mut i: usize = 0;
    assert(scan.groups@.take(0) =~= Seq::empty());
    while i < scan.groups.len()
        invariant
            i <= scan.groups@.len(),
            sums_fit(scan.groups@),
            total == pending_sum(scan.groups@.take(i as int)),
        decreases scan.groups.len() - i,
    {
        assert(scan.groups@.take(i + 1).drop_last() =~= scan.groups@.take(i as int));
        assert(i64::MIN <= pending_sum(scan.groups@.take(i + 1)) <= i64::MAX);
        total = total + scan.groups[i].pending;
        i = i + 1;
    }
    assert(scan.groups@.take(scan.groups@.len() as int) =~= scan.groups@);
    Some(cat3("🔎 Все группы (", decimal_i64(total).as_str(), ")"))
}

/// The label of the button that searches one group.
pub fn group_label(g: &ScanGroup) -> (r: String)
    ensures
        r@ == "🔎 "@ + g.name@ + " ("@ + text::decimal_int_of(g.pending as int) + ")"@,
{
    cat5("🔎 ", g.name.as_str(), " (", decimal_i64(g.pending).as_str(), ")")
}

pub open spec fn enrich_of(unenriched: int, active: bool) -> Option<Seq<char>> {
    if active || unenriched > 0 {
        Some("✨ Дообогатить ("@ + text::decimal_int_of(unenriched) + ")"@)
    } else {
        None
    }
}

/// The button is there while there is something to look at, and while that is
/// done, and says how much is left.
pub proof fn button_stays_while_there_is_work(unenriched: int, active: bool)
    ensures
        unenriched > 0 ==> enrich_of(unenriched, active) is Some,
        enrich_of(unenriched, true) is Some,
        unenriched <= 0 ==> enrich_of(unenriched, false) is None,
        enrich_of(unenriched, active) matches Some(t) ==> text::contains_of(
            t,
            text::decimal_int_of(unenriched),
        ),
{
    text::parts_are_found("✨ Дообогатить ("@, text::decimal_int_of(unenriched), ")"@);
}

/// The label of the button that looks at vacancies, where it is shown: there are
/// some left, or they are being looked at.
pub fn enrich_label(scan: &ScanStatus, active: bool) -> (r: Option<String>)
    ensures
        text::opt_text(r) == enrich_of(scan.unenriched as int, active),
{
    if active || scan.unenriched > 0 {
        Some(cat3("✨ Дообогатить (", decimal_i64(scan.unenriched).as_str(), ")"))
    } else {
        None
    }
}

/// The two lines of counts.
pub fn stats_lines(s: &PilotStats) -> (r: (String, String))
    ensures
        r.0@ == "📨 откликов: "@ + text::decimal_int_of(s.applied_total as int) + " (сегодня "@
            + text::decimal_int_of(s.applied_today as int) + ")"@,
        r.1@ == "💬 чатов обработано: "@ + text::decimal_int_of(s.chats_acted as int),
{
    (
        cat5(
            "📨 откликов: ",
            decimal_i64(s.applied_total).as_str(),
            " (сегодня ",
            decimal_i64(s.applied_today).as_str(),
            ")",
        ),
        cat("💬 чатов обработано: ", decimal_i64(s.chats_acted).as_str()),
    )
}

/// The file of a profile's counts, in the autopilot's directory.
pub fn profile_stats_path(autopilot_dir: &str, profile: &str) -> (r: String)
    ensures
        r@ == paths::join_of(
            paths::join_of(autopilot_dir@, "data"@),
            "stats-"@ + profile@ + ".json"@,
        ),
{
    join(join(autopilot_dir, "data").as_str(), cat3("stats-", profile, ".json").as_str())
}

} // verus!
