//! The sound in the window: what is listened to, and what is kept of a call.

use crate::audio::Device;
use crate::json;
use crate::json::{Json, Tree};
use crate::telemetry;
use crate::telemetry::Event;
use crate::text;
use crate::text::{as_opt_str, chars_of, same_opt, same_str};
use crate::transcribe::{CH_MIC, CH_ZOOM};
use vstd::prelude::*;

verus! {

/// What is shown of a sound that is off.
pub const OFF: &'static str = "⊘ выключено";

/// What is shown of the usual microphone, and of everything that sounds.
pub const DEFAULT_MIC: &'static str = "🎤 по умолчанию";

pub const DEFAULT_ZOOM: &'static str = "🔊 весь вывод";

/// The files of a call's two tracks.
pub const MIC_FILE: &'static str = "mic.wav";

pub const ZOOM_FILE: &'static str = "zoom.wav";

/// The two sounds.
#[derive(Debug, Clone, Copy, PartialEq, Eq, Structural)]
pub enum Side {
    Mic,
    Zoom,
}

/// Which of the sounds are on, and where they come from.
pub struct Sound {
    pub mic_on: bool,
    pub zoom_on: bool,
    pub mic_target: Option<String>,
    pub prog_target: Option<String>,
}

/// What was clicked.
pub struct SoundClicks {
    pub refresh: bool,
    pub refresh_mic: bool,
    pub new_mic: Option<Option<String>>,
    pub new_prog: Option<Option<String>>,
    pub mic_off: bool,
    pub zoom_off: bool,
    pub toggle_mic: bool,
    pub toggle_zoom: bool,
}

/// What is done about a click.
#[derive(Debug, Clone, Copy, PartialEq, Eq, Structural)]
pub enum SoundDeed {
    /// The microphones are listed again.
    ListMics,
    /// The microphones and the programs are listed again.
    ListAll,
    /// A sound is started, from where it comes now.
    Start(Side),
    /// A sound is stopped.
    Stop(Side),
}

/// A device's label in a list, the target itself where none has it.
pub open spec fn label_in(target: Seq<char>, list: Seq<Device>) -> Seq<char>
    decreases list.len(),
{
    if list.len() == 0 {
        target
    } else if list[0].target@ == target {
        list[0].label@
    } else {
        label_in(target, list.skip(1))
    }
}

/// What is shown of where a sound comes from.
pub open spec fn device_label_of(
    target: Option<Seq<char>>,
    list: Seq<Device>,
    default: Seq<char>,
) -> Seq<char> {
    match target {
        None => default,
        Some(t) => label_in(t, list),
    }
}

/// A device that is in the list is shown by its label, the first of its target;
/// one that is not is shown by its target, and no choice by the default.
pub proof fn device_is_shown_by_its_label(list: Seq<Device>, i: int, default: Seq<char>, t: Seq<char>)
    requires
        0 <= i < list.len(),
        forall|j: int| 0 <= j < i ==> (#[trigger] list[j]).target@ != list[i].target@,
    ensures
        device_label_of(Some(list[i].target@), list, default) == list[i].label@,
        device_label_of(None, list, default) == default,
        (forall|j: int| 0 <= j < list.len() ==> (#[trigger] list[j]).target@ != t)
            ==> device_label_of(Some(t), list, default) == t,
    decreases list.len(),
{
    if i > 0 {
        assert(list[0].target@ != list[i].target@);
        let rest = list.skip(1);
        assert forall|j: int| 0 <= j < i - 1 implies (#[trigger] rest[j]).target@
            != rest[i - 1].target@ by {
            assert(rest[j] == list[j + 1]);
        }
        device_is_shown_by_its_label(rest, i - 1, default, t);
    }
    if forall|j: int| 0 <= j < list.len() ==> (#[trigger] list[j]).target@ != t {
        lemma_label_absent(list, t);
    }
}

proof fn lemma_label_absent(list: Seq<Device>, t: Seq<char>)
    requires
        forall|j: int| 0 <= j < list.len() ==> (#[trigger] list[j]).target@ != t,
    ensures
        label_in(t, list) == t,
    decreases list.len(),
{
    if list.len() > 0 {
        assert(list[0].target@ != t);
        let rest = list.skip(1);
        assert forall|j: int| 0 <= j < rest.len() implies (#[trigger] rest[j]).target@ != t by {
            assert(rest[j] == list[j + 1]);
        }
        lemma_label_absent(rest, t);
    }
}

/// What is shown of where a sound comes from.
pub fn device_label(target: &Option<String>, list: &Vec<Device>, default: &str) -> (r: String)
    ensures
        r@ == device_label_of(text::opt_text(*target), list@, default@),
{
    let t = match target {
        None => {
            return default.to_owned();
        },
        Some(t) => t,
    };
    let mut i: usize = 0;
    assert(list@.skip(0) =~= list@);
    while i < list.len()
        invariant
            i <= list@.len(),
            label_in(t@, list@) == label_in(t@, list@.skip(i as int)),
            text::opt_text(*target) == Some(t@),
        decreases list.len() - i,
    {
        assert(list@.skip(i as int)[0] == list@[i as int]);
        assert(list@.skip(i as int).skip(1) =~= list@.skip(i + 1));
        if same_str(list[i].target.as_str(), t.as_str()) {
            return list[i].label.clone();
        }
        i = i + 1;
    }
    t.clone()
}

/// What is shown of a sound.
pub open spec fn shown_of(
    on: bool,
    side: Side,
    target: Option<Seq<char>>,
    list: Seq<Device>,
) -> Seq<char> {
    if on {
        device_label_of(
            target,
            list,
            match side {
                Side::Mic => DEFAULT_MIC@,
                Side::Zoom => DEFAULT_ZOOM@,
            },
        )
    } else {
        OFF@
    }
}

/// A source is marked in the list.
pub open spec fn selected_of(
    on: bool,
    chosen: Option<Seq<char>>,
    target: Option<Seq<char>>,
) -> bool {
    on && chosen == target
}

/// Where everything that sounds is taken from.
pub open spec fn program_source_of(
    chosen: Option<Seq<char>>,
    usual: Option<Seq<char>>,
) -> Option<Seq<char>> {
    match chosen {
        Some(t) => Some(t),
        None => usual,
    }
}

/// A sound that is off is shown so, and no source of it is marked; of one that is
/// on the chosen source is, and no other. Without a choice the usual source of
/// that sound is shown, and taken.
pub proof fn chosen_source_is_marked(
    side: Side,
    list: Seq<Device>,
    chosen: Option<Seq<char>>,
    target: Option<Seq<char>>,
    t: Seq<char>,
)
    ensures
        shown_of(false, side, chosen, list) == "⊘ выключено"@,
        !selected_of(false, chosen, target),
        selected_of(true, chosen, target) <==> chosen == target,
        shown_of(true, Side::Mic, None, list) == "🎤 по умолчанию"@,
        shown_of(true, Side::Zoom, None, list) == "🔊 весь вывод"@,
        shown_of(true, Side::Mic, Some(t), list) == shown_of(true, Side::Zoom, Some(t), list),
        program_source_of(Some(t), target) == Some(t),
        program_source_of(None, target) == target,
{
}

impl Sound {
    pub open spec fn is_on(self, side: Side) -> bool {
        match side {
            Side::Mic => self.mic_on,
            Side::Zoom => self.zoom_on,
        }
    }

    pub open spec fn target_of(self, side: Side) -> Option<Seq<char>> {
        match side {
            Side::Mic => text::opt_text(self.mic_target),
            Side::Zoom => text::opt_text(self.prog_target),
        }
    }

    /// What is shown of a sound.
    pub fn shown(&self, side: Side, list: &Vec<Device>) -> (r: String)
        ensures
            r@ == shown_of(self.is_on(side), side, self.target_of(side), list@),
    {
        match side {
            Side::Mic => if self.mic_on {
                device_label(&self.mic_target, list, DEFAULT_MIC)
            } else {
                OFF.to_owned()
            },
            Side::Zoom => if self.zoom_on {
                device_label(&self.prog_target, list, DEFAULT_ZOOM)
            } else {
                OFF.to_owned()
            },
        }
    }

    /// Whether a source is marked in the list: it is the one that is listened to,
    /// and `None` is the usual one.
    pub fn selected(&self, side: Side, target: Option<&str>) -> (r: bool)
        ensures
            r == selected_of(self.is_on(side), self.target_of(side), text::opt_str(target)),
    {
        match side {
            Side::Mic => self.mic_on && same_opt(as_opt_str(&self.mic_target), target),
            Side::Zoom => self.zoom_on && same_opt(as_opt_str(&self.prog_target), target),
        }
    }

    /// Takes the first of the clicks that is left: the lists first, then a new
    /// source, then what was turned off, then what was switched. What is done
    /// about it, nothing where no click is left.
    pub fn next(&mut self, clicks: &mut SoundClicks) -> (r: Option<SoundDeed>)
        ensures
            final(self).mic_on == old(self).mic_on,
            final(self).zoom_on == old(self).zoom_on,
            *final(clicks) == rest_of(*old(clicks)),
            clicked(*old(self), *old(clicks), *final(self), r),
    {
        if clicks.refresh {
            clicks.refresh = false;
            return Some(SoundDeed::ListAll);
        }
        if clicks.refresh_mic {
            clicks.refresh_mic = false;
            return Some(SoundDeed::ListMics);
        }
        if let Some(t) = clicks.new_mic.take() {
            self.mic_target = t;
            return Some(SoundDeed::Start(Side::Mic));
        }
        if let Some(t) = clicks.new_prog.take() {
            self.prog_target = t;
            return Some(SoundDeed::Start(Side::Zoom));
        }
        if clicks.mic_off {
            clicks.mic_off = false;
            return Some(SoundDeed::Stop(Side::Mic));
        }
        if clicks.zoom_off {
            clicks.zoom_off = false;
            return Some(SoundDeed::Stop(Side::Zoom));
        }
        if clicks.toggle_mic {
            clicks.toggle_mic = false;
            return Some(
                if self.mic_on {
                    SoundDeed::Stop(Side::Mic)
                } else {
                    SoundDeed::Start(Side::Mic)
                },
            );
        }
        if clicks.toggle_zoom {
            clicks.toggle_zoom = false;
            return Some(
                if self.zoom_on {
                    SoundDeed::Stop(Side::Zoom)
                } else {
                    SoundDeed::Start(Side::Zoom)
                },
            );
        }
        None
    }

    /// A sound was started, which can fail, or stopped.
    pub fn is_now(&mut self, side: Side, on: bool)
        ensures
            final(self).is_on(side) == on,
            side == Side::Mic ==> final(self).zoom_on == old(self).zoom_on,
            side == Side::Zoom ==> final(self).mic_on == old(self).mic_on,
            final(self).target_of(Side::Mic) == old(self).target_of(Side::Mic),
            final(self).target_of(Side::Zoom) == old(self).target_of(Side::Zoom),
    {
        match side {
            Side::Mic => {
                self.mic_on = on;
            },
            Side::Zoom => {
                self.zoom_on = on;
            },
        }
    }

    /// Where everything that sounds is taken from: what was chosen, or the usual
    /// output.
    pub fn program_source(&self, default_monitor: Option<&str>) -> (r: Option<String>)
        ensures
            text::opt_text(r) == program_source_of(
                self.target_of(Side::Zoom),
                text::opt_str(default_monitor),
            ),
    {
        match &self.prog_target {
            Some(t) => Some(t.clone()),
            None => match default_monitor {
                Some(m) => Some(m.to_owned()),
                None => None,
            },
        }
    }
}

/// `r` is what is done about the first of the clicks `c`, which makes `a` into
/// `b`.
pub open spec fn clicked(a: Sound, c: SoundClicks, b: Sound, r: Option<SoundDeed>) -> bool {
    let kept = b.target_of(Side::Mic) == a.target_of(Side::Mic) && b.target_of(Side::Zoom)
        == a.target_of(Side::Zoom);
    if c.refresh {
        &&& r == Some(SoundDeed::ListAll)
        &&& kept
    } else if c.refresh_mic {
        &&& r == Some(SoundDeed::ListMics)
        &&& kept
    } else if c.new_mic is Some {
        &&& r == Some(SoundDeed::Start(Side::Mic))
        &&& b.target_of(Side::Mic) == text::opt_text(c.new_mic->Some_0)
        &&& b.target_of(Side::Zoom) == a.target_of(Side::Zoom)
    } else if c.new_prog is Some {
        &&& r == Some(SoundDeed::Start(Side::Zoom))
        &&& b.target_of(Side::Zoom) == text::opt_text(c.new_prog->Some_0)
        &&& b.target_of(Side::Mic) == a.target_of(Side::Mic)
    } else if c.mic_off {
        &&& r == Some(SoundDeed::Stop(Side::Mic))
        &&& kept
    } else if c.zoom_off {
        &&& r == Some(SoundDeed::Stop(Side::Zoom))
        &&& kept
    } else if c.toggle_mic {
        &&& r == Some(switched(Side::Mic, a.mic_on))
        &&& kept
    } else if c.toggle_zoom {
        &&& r == Some(switched(Side::Zoom, a.zoom_on))
        &&& kept
    } else {
        &&& r is None
        &&& kept
    }
}

/// A click on one sound does nothing to the other. A sound is started where a
/// source was chosen for it, or where it is switched while it is off, and stopped
/// where it is turned off, or switched while it is on; what it is listened to
/// from changes by a choice alone. Something is done exactly where something was
/// clicked.
pub proof fn sounds_are_kept_apart(a: Sound, c: SoundClicks, b: Sound, r: Option<SoundDeed>)
    requires
        clicked(a, c, b, r),
    ensures
        r is None <==> clicks_left(c) == 0,
        r == Some(SoundDeed::Start(Side::Mic)) ==> c.new_mic is Some || (c.toggle_mic && !a.mic_on),
        r == Some(SoundDeed::Start(Side::Zoom)) ==> c.new_prog is Some || (c.toggle_zoom
            && !a.zoom_on),
        r == Some(SoundDeed::Stop(Side::Mic)) ==> c.mic_off || (c.toggle_mic && a.mic_on),
        r == Some(SoundDeed::Stop(Side::Zoom)) ==> c.zoom_off || (c.toggle_zoom && a.zoom_on),
        r == Some(SoundDeed::ListAll) <==> c.refresh,
        r == Some(SoundDeed::ListMics) ==> c.refresh_mic,
        text::opt_text(b.mic_target) != text::opt_text(a.mic_target) ==> r == Some(
            SoundDeed::Start(Side::Mic),
        ) && (c.new_mic matches Some(t) && text::opt_text(b.mic_target) == text::opt_text(t)),
        text::opt_text(b.prog_target) != text::opt_text(a.prog_target) ==> r == Some(
            SoundDeed::Start(Side::Zoom),
        ) && (c.new_prog matches Some(t) && text::opt_text(b.prog_target) == text::opt_text(t)),
        clicks_left(c) == 1 && c.toggle_mic ==> r == Some(
            if a.mic_on {
                SoundDeed::Stop(Side::Mic)
            } else {
                SoundDeed::Start(Side::Mic)
            },
        ),
        clicks_left(c) == 1 && c.toggle_zoom ==> r == Some(
            if a.zoom_on {
                SoundDeed::Stop(Side::Zoom)
            } else {
                SoundDeed::Start(Side::Zoom)
            },
        ),
        clicks_left(c) == 1 && c.new_mic is Some ==> text::opt_text(b.mic_target) == text::opt_text(
            c.new_mic->0,
        ),
        clicks_left(c) == 1 && c.new_prog is Some ==> text::opt_text(b.prog_target)
            == text::opt_text(c.new_prog->0),
{
}

/// What is done about a switch.
pub open spec fn switched(side: Side, on: bool) -> SoundDeed {
    if on {
        SoundDeed::Stop(side)
    } else {
        SoundDeed::Start(side)
    }
}

/// The clicks that are left once the first was taken.
pub open spec fn rest_of(c: SoundClicks) -> SoundClicks {
    if c.refresh {
        SoundClicks { refresh: false, ..c }
    } else if c.refresh_mic {
        SoundClicks { refresh_mic: false, ..c }
    } else if c.new_mic is Some {
        SoundClicks { new_mic: None, ..c }
    } else if c.new_prog is Some {
        SoundClicks { new_prog: None, ..c }
    } else if c.mic_off {
        SoundClicks { mic_off: false, ..c }
    } else if c.zoom_off {
        SoundClicks { zoom_off: false, ..c }
    } else if c.toggle_mic {
        SoundClicks { toggle_mic: false, ..c }
    } else {
        SoundClicks { toggle_zoom: false, ..c }
    }
}

/// How many clicks are left.
pub open spec fn clicks_left(c: SoundClicks) -> nat {
    (if c.refresh {
        1nat
    } else {
        0
    }) + (if c.refresh_mic {
        1nat
    } else {
        0
    }) + (if c.new_mic is Some {
        1nat
    } else {
        0
    }) + (if c.new_prog is Some {
        1nat
    } else {
        0
    }) + (if c.mic_off {
        1nat
    } else {
        0
    }) + (if c.zoom_off {
        1nat
    } else {
        0
    }) + (if c.toggle_mic {
        1nat
    } else {
        0
    }) + (if c.toggle_zoom {
        1nat
    } else {
        0
    })
}

/// The clicks are taken one by one, until none is left.
pub proof fn clicks_are_taken_one_by_one(c: SoundClicks)
    ensures
        clicks_left(c) > 0 ==> clicks_left(rest_of(c)) + 1 == clicks_left(c),
        clicks_left(c) == 0 ==> rest_of(c) == c,
{
}

// ---------------------------------------------------------------------------
// Calls
// ---------------------------------------------------------------------------

/// The click that something is done about is the one that is taken away.
pub proof fn done_click_is_taken_away(a: Sound, c: SoundClicks, b: Sound, r: Option<SoundDeed>)
    requires
        clicked(a, c, b, r),
    ensures
        ({
            let d = rest_of(c);
            &&& c.refresh && !d.refresh ==> r == Some(SoundDeed::ListAll)
            &&& c.refresh_mic && !d.refresh_mic ==> r == Some(SoundDeed::ListMics)
            &&& c.new_mic is Some && d.new_mic is None ==> r == Some(SoundDeed::Start(Side::Mic))
                && text::opt_text(b.mic_target) == text::opt_text(c.new_mic->0)
            &&& c.new_prog is Some && d.new_prog is None ==> r == Some(SoundDeed::Start(Side::Zoom))
                && text::opt_text(b.prog_target) == text::opt_text(c.new_prog->0)
            &&& c.mic_off && !d.mic_off ==> r == Some(SoundDeed::Stop(Side::Mic))
            &&& c.zoom_off && !d.zoom_off ==> r == Some(SoundDeed::Stop(Side::Zoom))
            &&& c.toggle_mic && !d.toggle_mic ==> r == Some(
                if a.mic_on {
                    SoundDeed::Stop(Side::Mic)
                } else {
                    SoundDeed::Start(Side::Mic)
                },
            )
            &&& c.toggle_zoom && !d.toggle_zoom ==> r == Some(
                if a.zoom_on {
                    SoundDeed::Stop(Side::Zoom)
                } else {
                    SoundDeed::Start(Side::Zoom)
                },
            )
        }),
{
}

/// A call that goes on.
#[derive(Debug, PartialEq, Eq)]
pub struct ActiveCall {
    pub id: i64,
    pub name: String,
}

/// What a call is called: the time, where the clock could be read.
pub fn call_name(stamp: Option<String>) -> (r: String)
    ensures
        r@ == match stamp {
            Some(s) => s@,
            None => "кол"@,
        },
{
    match stamp {
        Some(s) => s,
        None => "кол".to_owned(),
    }
}

/// The details of a call in the log.
pub open spec fn call_pairs(id: i64, name: Seq<char>) -> Seq<(Seq<char>, Tree)> {
    seq![("id"@, telemetry::number_of(id as int)), ("name"@, Tree::Text(name))]
}

fn call_event(event: &str, id: i64, name: &str) -> (r: Event)
    ensures
        r@ == telemetry::event_of(event@, call_pairs(id, name@)),
        json::proper(r.fields@),
{
    let mut pairs: Vec<(String, Json)> = Vec::new();
    pairs.push(("id".to_owned(), telemetry::number(id)));
    pairs.push(("name".to_owned(), Json::Text(name.to_owned())));
    assert(json::entries(pairs@) =~= call_pairs(id, name@));
    telemetry::event(event, pairs)
}

/// The log holds the number and the name of a call.
pub proof fn call_is_logged_by_number_and_name(ev: Seq<char>, id: i64, name: Seq<char>)
    ensures
        json::field_of(telemetry::event_of(ev, call_pairs(id, name)).fields, "id"@) == Some(
            if id < 0 {
                Tree::Int(id)
            } else {
                Tree::UInt(id as u64)
            },
        ),
        json::field_of(telemetry::event_of(ev, call_pairs(id, name)).fields, "name"@) == Some(
            Tree::Text(name),
        ),
{
    reveal_strlit("id");
    reveal_strlit("name");
    assert("id"@.len() == 2 && "name"@.len() == 4);
    let none = Seq::<(Seq<char>, Tree)>::empty();
    let n = telemetry::number_of(id as int);
    let a = none.push(("id"@, n));
    assert(a.push(("name"@, Tree::Text(name))) =~= call_pairs(id, name));
    json::last_pair_counts(none, "id"@, n, "id"@);
    json::last_pair_counts(a, "name"@, Tree::Text(name), "id"@);
    json::last_pair_counts(a, "name"@, Tree::Text(name), "name"@);
}

/// A call was started: the call that goes on, and what the log says. Nothing
/// where it got no number.
pub fn start_call(id: Option<i64>, name: String) -> (r: Option<(ActiveCall, Event)>)
    ensures
        match (r, id) {
            (Some((call, e)), Some(n)) => {
                &&& call.id == n
                &&& call.name@ == name@
                &&& e@ == telemetry::event_of("call.start"@, call_pairs(n, name@))
                &&& json::proper(e.fields@)
            },
            (None, None) => true,
            _ => false,
        },
{
    match id {
        Some(n) => {
            let e = call_event("call.start", n, name.as_str());
            Some((ActiveCall { id: n, name }, e))
        },
        None => None,
    }
}

/// A call has ended: what the log says.
pub fn end_call(call: &ActiveCall) -> (r: Event)
    ensures
        r@ == telemetry::event_of("call.end"@, call_pairs(call.id, call.name@)),
        json::proper(r.fields@),
{
    call_event("call.end", call.id, call.name.as_str())
}

/// The tracks that have to be recorded now: of each sound that is on and is not
/// recorded yet, its channel and its file.
pub open spec fn tracks_of(mic: Option<bool>, zoom: Option<bool>) -> Seq<(Side, Seq<char>, Seq<char>)> {
    (if mic == Some(false) {
        seq![(Side::Mic, CH_MIC@, MIC_FILE@)]
    } else {
        Seq::empty()
    }) + (if zoom == Some(false) {
        seq![(Side::Zoom, CH_ZOOM@, ZOOM_FILE@)]
    } else {
        Seq::empty()
    })
}

/// A track is begun for each sound that is on and has none, in its own file, and
/// for no other.
pub proof fn each_sound_has_its_track(
    mic: Option<bool>,
    zoom: Option<bool>,
    t: (Side, Seq<char>, Seq<char>),
)
    ensures
        tracks_of(mic, zoom).contains(t) ==> (t.0 == Side::Mic && mic == Some(false) && t.1
            == CH_MIC@ && t.2 == "mic.wav"@) || (t.0 == Side::Zoom && zoom == Some(false) && t.1
            == CH_ZOOM@ && t.2 == "zoom.wav"@),
        mic == Some(false) ==> tracks_of(mic, zoom).contains((Side::Mic, CH_MIC@, "mic.wav"@)),
        zoom == Some(false) ==> tracks_of(mic, zoom).contains((Side::Zoom, CH_ZOOM@, "zoom.wav"@)),
        tracks_of(mic, zoom).len() == (if mic == Some(false) {
            1int
        } else {
            0
        }) + (if zoom == Some(false) {
            1int
        } else {
            0
        }),
{
    let ts = tracks_of(mic, zoom);
    if mic == Some(false) {
        assert(ts[0] == (Side::Mic, CH_MIC@, "mic.wav"@));
    }
    if zoom == Some(false) {
        assert(ts[ts.len() - 1] == (Side::Zoom, CH_ZOOM@, "zoom.wav"@));
    }
}

/// The channels and files of tracks.
pub open spec fn track_views(v: Seq<(Side, &str, &str)>) -> Seq<(Side, Seq<char>, Seq<char>)> {
    v.map_values(|t: (Side, &str, &str)| (t.0, t.1@, t.2@))
}

/// The tracks that have to be recorded now. Of each sound: whether it is
/// recorded, nothing where it is off.
pub fn missing_tracks(mic: Option<bool>, zoom: Option<bool>) -> (r: Vec<
    (Side, &'static str, &'static str),
>)
    ensures
        track_views(r@) == tracks_of(mic, zoom),
{
    let mut v: Vec<(Side, &'static str, &'static str)> = Vec::new();
    if let Some(recorded) = mic {
        if !recorded {
            v.push((Side::Mic, CH_MIC, MIC_FILE));
        }
    }
    if let Some(recorded) = zoom {
        if !recorded {
            v.push((Side::Zoom, CH_ZOOM, ZOOM_FILE));
        }
    }
    assert(track_views(v@) =~= tracks_of(mic, zoom));
    v
}

pub open spec fn call_button_of(recording: bool) -> (Seq<char>, Seq<char>) {
    if recording {
        ("⏹ Завершить"@, "Остановить запись и сохранить кол"@)
    } else {
        ("🔴 Кол"@, "Начать запись звонка: звук обоих каналов + текст"@)
    }
}

/// The button of a call shows what a click does: a square where it ends the
/// call, a red dot where it begins one.
pub proof fn call_button_shows_what_it_does(recording: bool)
    ensures
        call_button_of(recording).0[0] == '⏹' <==> recording,
        call_button_of(recording).0[0] == '🔴' <==> !recording,
        call_button_of(recording).1[0] == 'О' <==> recording,
{
    reveal_strlit("⏹ Завершить");
    reveal_strlit("🔴 Кол");
    reveal_strlit("Остановить запись и сохранить кол");
    reveal_strlit("Начать запись звонка: звук обоих каналов + текст");
}

/// The button of a call: its label, and what is told of it.
pub fn call_button(recording: bool) -> (r: (&'static str, &'static str))
    ensures
        (r.0@, r.1@) == call_button_of(recording),
{
    if recording {
        ("⏹ Завершить", "Остановить запись и сохранить кол")
    } else {
        ("🔴 Кол", "Начать запись звонка: звук обоих каналов + текст")
    }
}

// ---------------------------------------------------------------------------
// Keys
// ---------------------------------------------------------------------------

/// The keys that were pressed since they were last looked at.
#[derive(Debug, Clone, Copy, PartialEq, Eq, Structural)]
pub struct TranscriptKeys {
    pub clear_mic: bool,
    pub clear_zoom: bool,
    pub copy_mic: bool,
    pub copy_zoom: bool,
    pub clear_chat: bool,
}

/// What is done about a key.
pub enum KeyDeed {
    /// The text of a sound is forgotten.
    Clear(Side),
    /// The text is copied, and asked about; what the log says.
    Copy { text: String, event: Event },
    /// The conversation is forgotten.
    ClearChat,
}

/// What the log says of a text that was copied; its length is in bytes.
pub open spec fn copy_event(channel: Seq<char>, said: Seq<char>) -> telemetry::EventView {
    telemetry::event_of(
        "keys.copy"@,
        seq![
            ("channel"@, Tree::Text(channel)),
            ("len"@, telemetry::number_of(vstd::utf8::encode_utf8(said).len() as int)),
        ],
    )
}

/// The text of a sound is copied, where there is some.
pub fn copied(channel: &str, said: Option<&str>) -> (r: Option<KeyDeed>)
    ensures
        match said {
            Some(s) if s@.len() > 0 => r matches Some(KeyDeed::Copy { text, event }) && text@ == s@
                && event@ == copy_event(channel@, s@) && json::proper(event.fields@),
            _ => r is None,
        },
{
    let s = match said {
        Some(s) => s,
        None => {
            return None;
        },
    };
    if chars_of(s).len() == 0 {
        return None;
    }
    let n: usize = s.as_bytes().len();
    let mut pairs: Vec<(String, Json)> = Vec::new();
    pairs.push(("channel".to_owned(), Json::Text(channel.to_owned())));
    pairs.push(("len".to_owned(), Json::UInt(n as u64)));
    assert(json::entries(pairs@) =~= seq![
        ("channel"@, Tree::Text(channel@)),
        ("len"@, telemetry::number_of(vstd::utf8::encode_utf8(s@).len() as int)),
    ]);
    Some(KeyDeed::Copy { text: s.to_owned(), event: telemetry::event("keys.copy", pairs) })
}

/// `d` is the copy of a text of a channel, nothing where there is none.
pub open spec fn is_copy(d: Option<KeyDeed>, channel: Seq<char>, said: Option<Seq<char>>) -> bool {
    match said {
        Some(s) if s.len() > 0 => d matches Some(KeyDeed::Copy { text, event }) && text@ == s
            && event@ == copy_event(channel, s) && json::proper(event.fields@),
        _ => d is None,
    }
}

/// `r` is what is done about the first of the keys `k`, which leaves `l`.
pub open spec fn keyed(
    k: TranscriptKeys,
    l: TranscriptKeys,
    mic: Option<Seq<char>>,
    zoom: Option<Seq<char>>,
    r: (Option<KeyDeed>, bool),
) -> bool {
    if k.clear_mic {
        &&& l == (TranscriptKeys { clear_mic: false, ..k })
        &&& r.1
        &&& r.0 == Some(KeyDeed::Clear(Side::Mic))
    } else if k.clear_zoom {
        &&& l == (TranscriptKeys { clear_zoom: false, ..k })
        &&& r.1
        &&& r.0 == Some(KeyDeed::Clear(Side::Zoom))
    } else if k.copy_mic {
        &&& l == (TranscriptKeys { copy_mic: false, ..k })
        &&& r.1
        &&& is_copy(r.0, CH_MIC@, mic)
    } else if k.copy_zoom {
        &&& l == (TranscriptKeys { copy_zoom: false, ..k })
        &&& r.1
        &&& is_copy(r.0, CH_ZOOM@, zoom)
    } else if k.clear_chat {
        &&& l == (TranscriptKeys { clear_chat: false, ..k })
        &&& r.1
        &&& r.0 == Some(KeyDeed::ClearChat)
    } else {
        &&& l == k
        &&& !r.1
        &&& r.0 is None
    }
}

/// Each key does what it is for, and to its own sound: a text that is copied is
/// the one of the sound whose key was pressed, whole, and nothing is forgotten
/// without its key. A key that is left is always taken.
pub proof fn keys_act_on_their_own_sound(
    k: TranscriptKeys,
    l: TranscriptKeys,
    mic: Option<Seq<char>>,
    zoom: Option<Seq<char>>,
    r: (Option<KeyDeed>, bool),
)
    requires
        keyed(k, l, mic, zoom, r),
    ensures
        r.1 <==> k.clear_mic || k.clear_zoom || k.copy_mic || k.copy_zoom || k.clear_chat,
        r.1 ==> l != k,
        r.0 == Some(KeyDeed::Clear(Side::Mic)) ==> k.clear_mic && !l.clear_mic,
        r.0 == Some(KeyDeed::Clear(Side::Zoom)) ==> k.clear_zoom && !l.clear_zoom,
        r.0 == Some(KeyDeed::ClearChat) ==> k.clear_chat && !l.clear_chat,
        r.0 matches Some(KeyDeed::Copy { text, event }) ==> text@.len() > 0 && ((k.copy_mic
            && !l.copy_mic && mic == Some(text@)) || (k.copy_zoom && !l.copy_zoom && zoom == Some(
            text@,
        ))),
        k.copy_mic && !k.clear_mic && !k.clear_zoom && (mic matches Some(s) && s.len() > 0) ==> (
        r.0 matches Some(KeyDeed::Copy { text, event }) && mic == Some(text@)),
        k.copy_zoom && !k.copy_mic && !k.clear_mic && !k.clear_zoom && (zoom matches Some(s)
            && s.len() > 0) ==> (r.0 matches Some(KeyDeed::Copy { text, event }) && zoom == Some(
            text@,
        )),
{
}

/// Takes the first of the keys that is left. What is done about it, nothing where
/// nothing is; the second result is whether a key was left. `mic` and `zoom` are
/// the texts of the sounds that are on.
pub fn next_key(keys: &mut TranscriptKeys, mic: Option<&str>, zoom: Option<&str>) -> (r: (
    Option<KeyDeed>,
    bool,
))
    ensures
        keyed(*old(keys), *final(keys), text::opt_str(mic), text::opt_str(zoom), r),
{
    if keys.clear_mic {
        keys.clear_mic = false;
        return (Some(KeyDeed::Clear(Side::Mic)), true);
    }
    if keys.clear_zoom {
        keys.clear_zoom = false;
        return (Some(KeyDeed::Clear(Side::Zoom)), true);
    }
    if keys.copy_mic {
        keys.copy_mic = false;
        return (copied(CH_MIC, mic), true);
    }
    if keys.copy_zoom {
        keys.copy_zoom = false;
        return (copied(CH_ZOOM, zoom), true);
    }
    if keys.clear_chat {
        keys.clear_chat = false;
        return (Some(KeyDeed::ClearChat), true);
    }
    (None, false)
}

/// The part of a text that was marked: the characters from `start` to `end`.
pub open spec fn marked_of(said: Seq<char>, start: int, end: int) -> Seq<char> {
    if start >= said.len() || start >= end {
        Seq::empty()
    } else if end > said.len() {
        said.skip(start)
    } else {
        said.subrange(start, end)
    }
}

/// What was marked is what stands between the two places, as far as the text
/// goes.
pub proof fn marked_part_is_copied(a: Seq<char>, m: Seq<char>, b: Seq<char>, beyond: int)
    requires
        beyond >= a.len() + m.len(),
    ensures
        marked_of(a + m + b, a.len() as int, (a.len() + m.len()) as int) == m,
        marked_of(a + m, a.len() as int, beyond) == m,
        marked_of(a, beyond, beyond + 1).len() == 0,
{
    assert((a + m + b).subrange(a.len() as int, (a.len() + m.len()) as int) =~= m);
    assert((a + m).skip(a.len() as int) =~= m);
    assert((a + m).subrange(a.len() as int, (a + m).len() as int) =~= m);
    assert(marked_of(a + m + b, a.len() as int, (a.len() + m.len()) as int) =~= m);
    assert(marked_of(a + m, a.len() as int, beyond) =~= m);
}

/// The part of a text that was marked, nothing where it is empty.
pub fn marked(said: &str, start: usize, end: usize) -> (r: Option<String>)
    ensures
        text::opt_text(r) == if marked_of(said@, start as int, end as int).len() == 0 {
            None
        } else {
            Some(marked_of(said@, start as int, end as int))
        },
{
    let chars = chars_of(said);
    let n: usize = chars.len();
    if start >= n || start >= end {
        return None;
    }
    let stop: usize = if end > n {
        n
    } else {
        end
    };
    let part = vstd::slice::slice_subrange(chars.as_slice(), start, stop);
    assert(part@ =~= marked_of(said@, start as int, end as int));
    Some(text::string_of(part))
}

} // verus!
