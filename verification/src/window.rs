//! The window: when it is seen, moved, saved and drawn again, and what is asked
//! through it.

use crate::clock::{Duration, MILLI};
use crate::data::Metrics;
use crate::json;
use crate::json::{Json, Tree};
use crate::screenshot::ShotStatus;
use crate::telemetry;
use crate::telemetry::Event;
use crate::text;
use crate::text::{cat, cat3, cat5, chars_of, decimal_u64, trimmed};
use crate::theme;
use crate::theme::Color;
use vstd::prelude::*;

verus! {

/// A step of the window, in pixels.
pub const WINDOW_MOVE_STEP: i32 = 40;

/// What changed is saved once it has stayed so for so many milliseconds.
pub const SAVE_AFTER_MS: u64 = 700;

/// The window is drawn again after so many milliseconds while sound is drawn,
/// and otherwise after so many.
pub const REPAINT_SOUND_MS: u64 = 33;

pub const REPAINT_IDLE_MS: u64 = 500;

/// A new window is put in its place after so many milliseconds, so often, with
/// a pause of so many milliseconds.
pub const PLACE_AFTER_MS: u64 = 800;

pub const PLACE_TIMES: u32 = 2;

pub const PLACE_PAUSE_MS: u64 = 600;

// ---------------------------------------------------------------------------
// Visibility
// ---------------------------------------------------------------------------

/// The window is to be seen: the user wants it, and it need not hide.
pub open spec fn wants_visible(user: bool, auto_hide: bool, sharing: bool) -> bool {
    user && !(auto_hide && sharing)
}

/// Whether the window is to be seen; and where that has changed, what the log
/// says.
pub fn visibility(user: bool, auto_hide: bool, sharing: bool, now: bool) -> (r: (bool, Option<Event>))
    ensures
        r.0 == wants_visible(user, auto_hide, sharing),
        match r.1 {
            Some(e) => {
                &&& r.0 != now
                &&& e@ == telemetry::event_of("vis.change"@, seq![("visible"@, Tree::Bool(r.0))])
                &&& json::proper(e.fields@)
            },
            None => r.0 == now,
        },
{
    let want = user && !(auto_hide && sharing);
    if want == now {
        return (want, None);
    }
    let mut pairs: Vec<(String, Json)> = Vec::new();
    pairs.push(("visible".to_owned(), Json::Bool(want)));
    assert(json::entries(pairs@) =~= seq![("visible"@, Tree::Bool(want))]);
    (want, Some(telemetry::event("vis.change", pairs)))
}

/// A window that hides is never seen while the screen is shared, and otherwise
/// the user decides.
pub proof fn hides_while_sharing(user: bool, auto_hide: bool, sharing: bool)
    ensures
        auto_hide && sharing ==> !wants_visible(user, auto_hide, sharing),
        !(auto_hide && sharing) ==> wants_visible(user, auto_hide, sharing) == user,
{
}

/// What a signal asks for.
#[derive(Debug, Clone, Copy, PartialEq, Eq, Structural)]
pub enum Signalled {
    Shot,
    CursorWarp,
    ToggleVisible,
}

pub open spec fn signalled_of(signal: i32, shot: i32, cursor_warp: i32) -> Signalled {
    if signal == shot {
        Signalled::Shot
    } else if signal == cursor_warp {
        Signalled::CursorWarp
    } else {
        Signalled::ToggleVisible
    }
}

/// Each signal asks for its own, and every other for the window to be hidden or
/// shown.
pub proof fn each_signal_asks_for_its_own(signal: i32, shot: i32, cursor_warp: i32)
    requires
        shot != cursor_warp,
    ensures
        signalled_of(signal, shot, cursor_warp) == Signalled::Shot <==> signal == shot,
        signalled_of(signal, shot, cursor_warp) == Signalled::CursorWarp <==> signal == cursor_warp,
{
}

/// What a signal asks for: a picture, the cursor, and otherwise that the window
/// is hidden or shown.
pub fn on_signal(signal: i32, shot: i32, cursor_warp: i32) -> (r: Signalled)
    ensures
        r == signalled_of(signal, shot, cursor_warp),
{
    if signal == shot {
        Signalled::Shot
    } else if signal == cursor_warp {
        Signalled::CursorWarp
    } else {
        Signalled::ToggleVisible
    }
}

pub open spec fn places_of(pinned: bool, place_known: bool) -> bool {
    pinned || place_known
}

pub open spec fn pin_hint_of(pinned: bool) -> Seq<char> {
    if pinned {
        "Закреплено поверх всех — открепить"@
    } else {
        "Закрепить поверх всех окон"@
    }
}

/// Either reason is enough to put a window in its place, and one that is pinned
/// is told apart from one that can be.
pub proof fn either_reason_places_the_window(pinned: bool, place_known: bool)
    ensures
        places_of(true, place_known),
        places_of(pinned, true),
        !places_of(false, false),
        text::ends_of(pin_hint_of(pinned), "открепить"@) <==> pinned,
{
    reveal_strlit("Закреплено поверх всех — открепить");
    reveal_strlit("Закрепить поверх всех окон");
    reveal_strlit("открепить");
    let a = "Закреплено поверх всех — открепить"@;
    let b = "Закрепить поверх всех окон"@;
    let e = "открепить"@;
    assert(e.len() == 9 && a.len() == 34 && b.len() == 26);
    assert(a.subrange(25, 34) =~= e);
    assert(b.subrange(17, 26)[8] == b[25]);
    assert(b[25] == 'н' && e[8] == 'ь');
}

/// Whether a new window is put in its place: it was kept above the others, or
/// its place is known.
pub fn places_window(pinned: bool, place_known: bool) -> (r: bool)
    ensures
        r == places_of(pinned, place_known),
{
    pinned || place_known
}

/// What is told of the pin.
pub fn pin_hint(pinned: bool) -> (r: &'static str)
    ensures
        r@ == pin_hint_of(pinned),
{
    if pinned {
        "Закреплено поверх всех — открепить"
    } else {
        "Закрепить поверх всех окон"
    }
}

pub open spec fn repaint_of(visible: bool, sound: bool) -> u64 {
    if visible && sound {
        REPAINT_SOUND_MS
    } else {
        REPAINT_IDLE_MS
    }
}

/// The window is drawn often only where sound is seen: thirty times a second,
/// and otherwise twice.
pub proof fn drawn_often_where_sound_is_seen(visible: bool, sound: bool)
    ensures
        repaint_of(visible, sound) < repaint_of(!visible, sound) ==> visible && sound,
        repaint_of(true, true) == 33,
        repaint_of(false, sound) == 500 && repaint_of(visible, false) == 500,
{
}

/// When the window is drawn again by itself.
pub fn repaint_ms(visible: bool, sound: bool) -> (r: u64)
    ensures
        r == repaint_of(visible, sound),
{
    if visible && sound {
        REPAINT_SOUND_MS
    } else {
        REPAINT_IDLE_MS
    }
}

// ---------------------------------------------------------------------------
// Saving
// ---------------------------------------------------------------------------

/// When the settings of the window last changed.
pub struct Saver {
    pub stable_since: Duration,
}

/// Since when the settings have stayed the same, once they were looked at.
pub open spec fn stable_after(since: int, now: int, changed: bool) -> int {
    if changed {
        now
    } else {
        since
    }
}

/// Whether the settings are saved.
pub open spec fn saves_of(unsaved: bool, since: int, now: int) -> bool {
    unsaved && now - since > SAVE_AFTER_MS * MILLI
}

/// What is being changed is not saved; what has stayed the same for more than
/// seven tenths of a second is, once, and what is saved is not saved again.
pub proof fn settled_settings_are_saved(since: int, now: int, later: int)
    requires
        since <= now <= later,
    ensures
        !saves_of(true, stable_after(since, now, true), now),
        saves_of(true, stable_after(stable_after(since, now, true), later, false), later) <==> later
            - now > 700_000_000,
        !saves_of(false, since, now),
{
}

impl Saver {
    /// The settings were looked at: `changed` is whether they are not as they
    /// were, and `unsaved` whether they are not as they were saved. Whether they
    /// are saved now: once they have stayed the same for a while.
    pub fn look(&mut self, now: Duration, changed: bool, unsaved: bool) -> (r: bool)
        requires
            old(self).stable_since@ <= now@,
        ensures
            final(self).stable_since@ == stable_after(old(self).stable_since@, now@, changed),
            r == saves_of(unsaved, final(self).stable_since@, now@),
    {
        if changed {
            self.stable_since = now;
        }
        let since = now.minus(&self.stable_since);
        let limit = Duration::from_millis(SAVE_AFTER_MS);
        unsaved && !limit.at_least_as(&since)
    }
}

pub open spec fn reload_metrics_of(last: Option<(u64, u32)>, now: Option<(u64, u32)>) -> bool {
    now is Some && now != last
}

pub open spec fn reload_counts_of(last: Option<(u64, u32)>, now: Option<(u64, u32)>) -> bool {
    now != last
}

/// A file that was not changed is not read again, one that was is; one that is
/// gone leaves the figures as they are, but not the counts.
pub proof fn changed_files_are_read_again(last: Option<(u64, u32)>, now: (u64, u32))
    ensures
        !reload_metrics_of(last, last) && !reload_counts_of(last, last),
        last != Some(now) ==> reload_metrics_of(last, Some(now)) && reload_counts_of(
            last,
            Some(now),
        ),
        !reload_metrics_of(last, None),
        last is Some ==> reload_counts_of(last, None),
{
}

/// Whether a file is read again: it is there, and it was changed since.
pub fn reload_metrics(last: Option<(u64, u32)>, now: Option<(u64, u32)>) -> (r: bool)
    ensures
        r == reload_metrics_of(last, now),
{
    match (last, now) {
        (Some(a), Some(b)) => !(a.0 == b.0 && a.1 == b.1),
        (None, Some(_)) => true,
        (_, None) => false,
    }
}

/// Whether a file is read again: it was changed since, or has come or gone.
pub fn reload_counts(last: Option<(u64, u32)>, now: Option<(u64, u32)>) -> (r: bool)
    ensures
        r == reload_counts_of(last, now),
{
    match (last, now) {
        (Some(a), Some(b)) => !(a.0 == b.0 && a.1 == b.1),
        (None, None) => false,
        _ => true,
    }
}

// ---------------------------------------------------------------------------
// Moving
// ---------------------------------------------------------------------------

/// What is done about steps of the window.
#[derive(Debug, Clone, Copy, PartialEq, Eq, Structural)]
pub enum Moved {
    /// There were none.
    Nothing,
    /// They are put back: the window is being moved.
    PutBack { dx: i32, dy: i32 },
    /// The window is moved, by so many pixels.
    By { dx: i32, dy: i32 },
}

pub open spec fn moved_of(dx: i32, dy: i32, busy: bool) -> Moved {
    if dx == 0 && dy == 0 {
        Moved::Nothing
    } else if busy {
        Moved::PutBack { dx, dy }
    } else {
        Moved::By { dx: (dx * WINDOW_MOVE_STEP) as i32, dy: (dy * WINDOW_MOVE_STEP) as i32 }
    }
}

/// No step is lost: while the window is being moved the steps are put back as
/// they are, and otherwise it is moved by forty pixels for each, in its
/// direction.
pub proof fn no_step_is_lost(dx: i32, dy: i32)
    requires
        -10_000_000 <= dx <= 10_000_000,
        -10_000_000 <= dy <= 10_000_000,
    ensures
        moved_of(dx, dy, true) is Nothing <==> dx == 0 && dy == 0,
        moved_of(dx, dy, false) is Nothing <==> dx == 0 && dy == 0,
        moved_of(dx, dy, true) matches Moved::PutBack { dx: x, dy: y } ==> x == dx && y == dy,
        !(moved_of(dx, dy, true) is By),
        !(moved_of(dx, dy, false) is PutBack),
        moved_of(dx, dy, false) matches Moved::By { dx: x, dy: y } ==> x == 40 * dx && y == 40 * dy,
{
}

/// What is done about steps of the window; `busy` is whether it is being moved.
pub fn window_move(dx: i32, dy: i32, busy: bool) -> (r: Moved)
    requires
        !busy ==> i32::MIN <= dx * WINDOW_MOVE_STEP <= i32::MAX,
        !busy ==> i32::MIN <= dy * WINDOW_MOVE_STEP <= i32::MAX,
    ensures
        r == moved_of(dx, dy, busy),
{
    if dx == 0 && dy == 0 {
        Moved::Nothing
    } else if busy {
        Moved::PutBack { dx, dy }
    } else {
        Moved::By { dx: dx * WINDOW_MOVE_STEP, dy: dy * WINDOW_MOVE_STEP }
    }
}

/// What is done about the cursor.
#[derive(Debug, Clone, Copy, PartialEq, Eq, Structural)]
pub enum Warp {
    /// It goes back to where it was.
    Back,
    /// Where it is is kept, and it goes to the window.
    ToWindow,
}

pub open spec fn warp_of(kept: bool) -> Warp {
    if kept {
        Warp::Back
    } else {
        Warp::ToWindow
    }
}

/// The cursor goes to the window and back in turn: back only where it is known
/// where it was, and to the window only where it was not sent there.
pub proof fn cursor_goes_there_and_back(kept: bool)
    ensures
        warp_of(kept) == Warp::Back <==> kept,
        warp_of(warp_of(kept) == Warp::ToWindow) != warp_of(kept),
{
}

/// What is done about the cursor: it goes back where it was sent to the window
/// before. `kept` is whether it is known where it was.
pub fn cursor_warp(kept: bool) -> (r: Warp)
    ensures
        r == warp_of(kept),
{
    if kept {
        Warp::Back
    } else {
        Warp::ToWindow
    }
}

// ---------------------------------------------------------------------------
// Pictures of the screen
// ---------------------------------------------------------------------------

/// The two points between which a picture is taken, as far as they were marked.
#[derive(Debug, PartialEq, Eq)]
pub struct Marking {
    pub active: bool,
    pub points: Vec<(u32, u32)>,
}

/// The part of the screen between two points: its place and its size.
pub open spec fn area_of(a: (u32, u32), b: (u32, u32)) -> (int, int, int, int) {
    let x = if a.0 < b.0 {
        a.0
    } else {
        b.0
    };
    let y = if a.1 < b.1 {
        a.1
    } else {
        b.1
    };
    let w = if a.0 < b.0 {
        b.0 - a.0
    } else {
        a.0 - b.0
    };
    let h = if a.1 < b.1 {
        b.1 - a.1
    } else {
        a.1 - b.1
    };
    (x as int, y as int, w, h)
}

/// Both points are corners of the part of the screen between them, whichever
/// comes first.
pub proof fn area_spans_both_points(a: (u32, u32), b: (u32, u32))
    ensures
        area_of(a, b) == area_of(b, a),
        ({
            let (x, y, w, h) = area_of(a, b);
            &&& (a.0 == x && b.0 == x + w) || (b.0 == x && a.0 == x + w)
            &&& (a.1 == y && b.1 == y + h) || (b.1 == y && a.1 == y + h)
        }),
{
}

/// What comes of a look at the screen while it is marked.
#[derive(Debug, Clone, Copy, PartialEq, Eq, Structural)]
pub enum Marked {
    /// It goes on.
    More,
    /// It was given up.
    Cancelled,
    /// The part of the screen was marked: its place and its size.
    Area { x: u32, y: u32, w: u32, h: u32 },
}

/// `r` is what comes of a look at the screen, which makes `a` into `b`.
pub open spec fn marked(
    a: Marking,
    escape: bool,
    click: Option<(u32, u32)>,
    b: Marking,
    r: Marked,
) -> bool {
    if escape {
        &&& r == Marked::Cancelled
        &&& !b.active
        &&& b.points@.len() == 0
    } else {
        match click {
            None => r == Marked::More && b == a,
            Some(p) => if a.points@.len() == 0 {
                &&& r == Marked::More
                &&& b.active == a.active
                &&& b.points@ == seq![p]
            } else {
                &&& r matches Marked::Area { x, y, w, h } && (
                    x as int,
                    y as int,
                    w as int,
                    h as int,
                ) == area_of(a.points@[0], p)
                &&& !b.active
                &&& b.points@.len() == 0
            },
        }
    }
}

/// It takes two clicks to mark a part of the screen, whatever looks without a
/// click come between them, and the part lies between just these two points. It
/// can be given up at any time, and then nothing of it is left.
pub proof fn two_clicks_mark(
    a: Marking,
    p: (u32, u32),
    b: Marking,
    c: Marking,
    q: (u32, u32),
    d: Marking,
    r: Marked,
    e: Marking,
    gone: Marked,
)
    requires
        a.points@.len() == 0,
        marked(a, false, Some(p), b, Marked::More),
        marked(b, false, None, c, Marked::More),
        marked(c, false, Some(q), d, r),
        marked(c, true, Some(q), e, gone),
    ensures
        b.points@ == seq![p] && b.active == a.active,
        r matches Marked::Area { x, y, w, h } && (p.0 == x || p.0 == x + w) && (q.0 == x || q.0 == x
            + w) && (p.1 == y || p.1 == y + h) && (q.1 == y || q.1 == y + h) && (w == 0 <==> p.0
            == q.0) && (h == 0 <==> p.1 == q.1),
        !d.active && d.points@.len() == 0,
        gone == Marked::Cancelled && !e.active && e.points@.len() == 0,
{
    area_spans_both_points(p, q);
}

impl Marking {
    pub fn new() -> (r: Marking)
        ensures
            !r.active,
            r.points@ == Seq::<(u32, u32)>::empty(),
    {
        Marking { active: false, points: Vec::new() }
    }

    /// A picture was asked for: it is marked from the start, unless it is being
    /// marked. What the log says, nothing where nothing changes.
    pub fn request(&mut self) -> (r: Option<Event>)
        ensures
            if old(self).active {
                r is None && *final(self) == *old(self)
            } else {
                &&& final(self).active
                &&& final(self).points@ == Seq::<(u32, u32)>::empty()
                &&& r matches Some(e) && e@ == telemetry::event_of("shot.request"@, Seq::empty())
                    && json::proper(e.fields@)
            },
    {
        if self.active {
            return None;
        }
        self.active = true;
        self.points = Vec::new();
        let pairs: Vec<(String, Json)> = Vec::new();
        assert(json::entries(pairs@) =~= Seq::empty());
        Some(telemetry::event("shot.request", pairs))
    }

    /// The screen was looked at: `escape` is whether it was given up, and `click`
    /// the point that was clicked.
    pub fn look(&mut self, escape: bool, click: Option<(u32, u32)>) -> (r: Marked)
        requires
            old(self).points@.len() < 2,
        ensures
            marked(*old(self), escape, click, *final(self), r),
    {
        if escape {
            self.active = false;
            self.points = Vec::new();
            return Marked::Cancelled;
        }
        let b = match click {
            Some(p) => p,
            None => {
                return Marked::More;
            },
        };
        if self.points.len() == 0 {
            self.points.push(b);
            assert(self.points@ =~= seq![b]);
            return Marked::More;
        }
        let a = self.points[0];
        self.active = false;
        self.points = Vec::new();
        let (x, w): (u32, u32) = if a.0 < b.0 {
            (a.0, b.0 - a.0)
        } else {
            (b.0, a.0 - b.0)
        };
        let (y, h): (u32, u32) = if a.1 < b.1 {
            (a.1, b.1 - a.1)
        } else {
            (b.1, a.1 - b.1)
        };
        Marked::Area { x, y, w, h }
    }
}

pub open spec fn shot_line_of(s: ShotStatus, name: Option<Seq<char>>) -> Option<(Seq<char>, Color)> {
    match s {
        ShotStatus::Idle => None,
        ShotStatus::Marking => Some(("⧗ кликни две точки…"@, theme::rgb_of(210, 200, 120))),
        ShotStatus::Working => Some(("⧗ режу…"@, theme::rgb_of(210, 200, 120))),
        ShotStatus::Saved(_) => Some(
            (
                "✔ "@ + match name {
                    Some(n) => n,
                    None => "сохранено"@,
                },
                theme::rgb_of(120, 200, 120),
            ),
        ),
        ShotStatus::Cancelled => Some(("отменено"@, theme::rgb_of(160, 160, 160))),
        ShotStatus::Failed(e) => Some(("✖ "@ + e@, theme::rgb_of(230, 120, 120))),
    }
}

/// What went wrong with a picture is told in its own words and in red, what was
/// saved by its name and in green; what goes on is told in the same colour
/// throughout.
pub proof fn pictures_are_told_by_their_end(s: ShotStatus, name: Seq<char>, other: Option<Seq<char>>)
    ensures
        s matches ShotStatus::Failed(e) ==> (shot_line_of(s, other) matches Some((t, c))
            && text::ends_of(t, e@) && c.r > c.g && c.r > c.b),
        s is Saved ==> (shot_line_of(s, Some(name)) matches Some((t, c)) && text::ends_of(t, name)
            && c.g > c.r && c.g > c.b),
        s is Idle <==> shot_line_of(s, other) is None,
        s is Marking || s is Working ==> (shot_line_of(s, other) matches Some((t, c)) && c
            == theme::rgb_of(210, 200, 120) && text::starts_of(t, "⧗ "@)),
        s is Cancelled ==> (shot_line_of(s, other) matches Some((t, c)) && c.r == c.g && c.g
            == c.b && c.r == 160),
        shot_line_of(s, other) matches Some((t, c)) ==> c.a == 255,
        s is Failed ==> (shot_line_of(s, other) matches Some((t, c)) && theme::code_of(c)
            == 0xE6_7878),
        s is Saved ==> (shot_line_of(s, other) matches Some((t, c)) && theme::code_of(c)
            == 0x78_C878),
{
    if let ShotStatus::Failed(e) = s {
        text::parts_are_found("✖ "@, e@, Seq::empty());
    }
    text::parts_are_found("✔ "@, name, Seq::empty());
    reveal_strlit("⧗ ");
    reveal_strlit("⧗ режу…");
    reveal_strlit("⧗ кликни две точки…");
    assert("⧗ режу…"@.subrange(0, 2) =~= "⧗ "@);
    assert("⧗ кликни две точки…"@.subrange(0, 2) =~= "⧗ "@);
}

/// What is told of a picture, and in which colour; nothing where none was asked
/// for. `name` is the name of the file that was saved.
pub fn shot_line(s: &ShotStatus, name: Option<&str>) -> (r: Option<(String, Color)>)
    ensures
        match r {
            Some((t, c)) => shot_line_of(*s, text::opt_str(name)) == Some((t@, c)),
            None => shot_line_of(*s, text::opt_str(name)) is None,
        },
{
    match s {
        ShotStatus::Idle => None,
        ShotStatus::Marking => Some(
            ("⧗ кликни две точки…".to_owned(), Color { r: 210, g: 200, b: 120, a: 255 }),
        ),
        ShotStatus::Working => Some(
            ("⧗ режу…".to_owned(), Color { r: 210, g: 200, b: 120, a: 255 }),
        ),
        ShotStatus::Saved(_) => {
            let shown = match name {
                Some(n) => n,
                None => "сохранено",
            };
            Some((cat("✔ ", shown), Color { r: 120, g: 200, b: 120, a: 255 }))
        },
        ShotStatus::Cancelled => Some(
            ("отменено".to_owned(), Color { r: 160, g: 160, b: 160, a: 255 }),
        ),
        ShotStatus::Failed(e) => Some(
            (cat("✖ ", e.as_str()), Color { r: 230, g: 120, b: 120, a: 255 }),
        ),
    }
}

// ---------------------------------------------------------------------------
// Figures
// ---------------------------------------------------------------------------

pub open spec fn note_of(items: nat, titled: bool, path: Seq<char>) -> (bool, Option<Seq<char>>) {
    (
        items > 0 || !titled,
        if items == 0 && !titled {
            Some("нет данных: "@ + path)
        } else {
            None
        },
    )
}

/// Figures are always shown, and a note of where they were looked for stands
/// there only where there are none, and nothing above them says why.
pub proof fn missing_figures_are_told(items: nat, titled: bool, path: Seq<char>)
    ensures
        items > 0 ==> note_of(items, titled, path) == (true, None::<Seq<char>>),
        note_of(0, true, path) == (false, None::<Seq<char>>),
        note_of(0, false, path).0 && (note_of(0, false, path).1 matches Some(t) && text::ends_of(
            t,
            path,
        )),
{
    text::parts_are_found("нет данных: "@, path, Seq::empty());
}

/// Whether the figures are shown: there are some, or nothing stands above them;
/// and what is told where there are none.
pub fn metrics_note(m: &Metrics, path: &str) -> (r: (bool, Option<String>))
    ensures
        (r.0, text::opt_text(r.1)) == note_of(m.items@.len(), m.title is Some, path@),
{
    if m.items.len() > 0 {
        (true, None)
    } else if m.title.is_none() {
        (true, Some(cat("нет данных: ", path)))
    } else {
        (false, None)
    }
}

// ---------------------------------------------------------------------------
// Questions
// ---------------------------------------------------------------------------

/// A question that is to be asked, without the white space around it, and what
/// the log says: nothing is asked where that is empty, or an answer is awaited.
pub fn ask(question: &str, waiting: bool, profile: &str) -> (r: Option<(String, Event)>)
    ensures
        match r {
            Some((q, e)) => {
                &&& !waiting
                &&& q@ == text::trim_of(question@)
                &&& q@.len() > 0
                &&& e@ == telemetry::event_of(
                    "chat.ask"@,
                    seq![
                        (
                            "len"@,
                            telemetry::number_of(vstd::utf8::encode_utf8(q@).len() as int),
                        ),
                        ("profile"@, Tree::Text(profile@)),
                    ],
                )
                &&& json::proper(e.fields@)
            },
            None => waiting || text::trim_of(question@).len() == 0,
        },
{
    let q = trimmed(question);
    if chars_of(q.as_str()).len() == 0 || waiting {
        return None;
    }
    let n: usize = q.as_str().as_bytes().len();
    let mut pairs: Vec<(String, Json)> = Vec::new();
    pairs.push(("len".to_owned(), Json::UInt(n as u64)));
    pairs.push(("profile".to_owned(), Json::Text(profile.to_owned())));
    assert(json::entries(pairs@) =~= seq![
        ("len"@, telemetry::number_of(vstd::utf8::encode_utf8(q@).len() as int)),
        ("profile"@, Tree::Text(profile@)),
    ]);
    Some((q, telemetry::event("chat.ask", pairs)))
}

/// What the assistant is shown to say: its answer, or a warning of what went
/// wrong.
pub fn answered(result: Result<String, String>) -> (r: String)
    ensures
        r@ == match result {
            Ok(answer) => answer@,
            Err(e) => "⚠ "@ + e@,
        },
{
    match result {
        Ok(answer) => answer,
        Err(e) => cat("⚠ ", e.as_str()),
    }
}

// ---------------------------------------------------------------------------
// A new start
// ---------------------------------------------------------------------------

/// The words of the shell that builds the program, where its sources are known,
/// and starts it once this process is gone.
pub open spec fn restart_of(pid: u32, exe: Seq<char>, build: Option<(Seq<char>, Seq<char>)>) -> Seq<
    char,
> {
    "while kill -0 "@ + text::decimal_of(pid as nat) + " 2>/dev/null; do sleep 0.1; done; "@
        + match build {
        Some((manifest, log)) => "cargo build --release --manifest-path '"@ + manifest + "' > '"@
            + log + "' 2>&1; "@,
        None => Seq::empty(),
    } + ("exec '"@ + exe + "'"@)
}

/// The words of the shell that builds the program and starts it again. `build`
/// is the manifest and the file that the build's words go to.
pub fn restart_script(pid: u32, exe: &str, build: Option<(&str, &str)>) -> (r: String)
    ensures
        r@ == restart_of(
            pid,
            exe@,
            match build {
                Some((m, l)) => Some((m@, l@)),
                None => None,
            },
        ),
{
    let mut s = cat3(
        "while kill -0 ",
        decimal_u64(pid as u64).as_str(),
        " 2>/dev/null; do sleep 0.1; done; ",
    );
    let made = match build {
        Some((manifest, log)) => cat5(
            "cargo build --release --manifest-path '",
            manifest,
            "' > '",
            log,
            "' 2>&1; ",
        ),
        None => String::new(),
    };
    s.append(made.as_str());
    s.append(cat3("exec '", exe, "'").as_str());
    assert(s@ =~= restart_of(
        pid,
        exe@,
        match build {
            Some((m, l)) => Some((m@, l@)),
            None => None,
        },
    ));
    s
}

} // verus!
