//! The face that tells what the autopilot is doing.

use crate::clock::{Duration, SECOND};
use crate::text;
use crate::text::{
    cat, cat3, cat4, chars_of, contains, decimal_u64, is_space, lower, split_once, string_of, trim,
    trim_start, trimmed, two_digits,
};
use crate::theme::{Color, Palette};
use vstd::prelude::*;
use vstd::slice::slice_subrange;

verus! {

/// A step has to last so many seconds before its age is shown.
pub const AGE_SHOWN_SECS: u64 = 3;

/// A face that talks is drawn again after so many milliseconds.
pub const TALK_REPAINT_MS: u64 = 80;

/// What the autopilot is doing.
#[derive(Debug, Clone, Copy, PartialEq, Eq, Structural)]
pub enum Mood {
    Idle,
    Reading,
    Thinking,
    Sending,
    Waiting,
    Happy,
    Alarm,
}

/// What the face says, and how it looks.
#[derive(Debug, Clone, PartialEq)]
pub struct Remark {
    pub mood: Mood,
    pub text: String,
}

/// How an eye is drawn.
#[derive(Debug, Clone, Copy, PartialEq, Eq, Structural)]
pub enum Eye {
    Crossed,
    Arched,
    Shut,
    Looking,
    Round,
}

/// How the mouth is drawn; an open one moves while the face talks.
#[derive(Debug, Clone, Copy, PartialEq, Eq, Structural)]
pub enum Mouth {
    Smile,
    Line,
    Open { moves: bool },
}

impl Mood {
    pub open spec fn color_of(self, pal: Palette) -> Color {
        match self {
            Mood::Idle => pal.dim,
            Mood::Reading => pal.info,
            Mood::Thinking => pal.accent,
            Mood::Sending => pal.info,
            Mood::Waiting => pal.warn,
            Mood::Happy => pal.ok,
            Mood::Alarm => pal.err,
        }
    }

    /// The colour of the face.
    pub fn color(self, pal: &Palette) -> (r: Color)
        ensures
            r == self.color_of(*pal),
    {
        match self {
            Mood::Idle => pal.dim,
            Mood::Reading => pal.info,
            Mood::Thinking => pal.accent,
            Mood::Sending => pal.info,
            Mood::Waiting => pal.warn,
            Mood::Happy => pal.ok,
            Mood::Alarm => pal.err,
        }
    }

    pub open spec fn talks_of(self) -> bool {
        self != Mood::Idle && self != Mood::Waiting
    }

    pub open spec fn eye_of(self, shut: bool) -> Eye {
        match self {
            Mood::Alarm => Eye::Crossed,
            Mood::Happy => Eye::Arched,
            _ if shut => Eye::Shut,
            Mood::Thinking => Eye::Looking,
            _ => Eye::Round,
        }
    }

    pub open spec fn mouth_of(self) -> Mouth {
        match self {
            Mood::Happy => Mouth::Smile,
            Mood::Waiting => Mouth::Line,
            Mood::Idle => (Mouth::Open { moves: false }),
            _ => (Mouth::Open { moves: true }),
        }
    }

    pub open spec fn repaint_of(self) -> Option<u64> {
        if self.talks_of() {
            Some(TALK_REPAINT_MS)
        } else {
            None
        }
    }

    /// Whether the face talks.
    pub fn talks(self) -> (r: bool)
        ensures
            r == self.talks_of(),
    {
        match self {
            Mood::Idle => false,
            Mood::Waiting => false,
            _ => true,
        }
    }

    pub open spec fn icon_of(self) -> Seq<char> {
        match self {
            Mood::Idle => "💤"@,
            Mood::Reading => "📄"@,
            Mood::Thinking => "💭"@,
            Mood::Sending => "📨"@,
            Mood::Waiting => "⏳"@,
            Mood::Happy => "✅"@,
            Mood::Alarm => "⚠"@,
        }
    }

    /// The sign that stands before what the face says.
    pub fn icon(self) -> (r: &'static str)
        ensures
            r@ == self.icon_of(),
    {
        match self {
            Mood::Idle => "💤",
            Mood::Reading => "📄",
            Mood::Thinking => "💭",
            Mood::Sending => "📨",
            Mood::Waiting => "⏳",
            Mood::Happy => "✅",
            Mood::Alarm => "⚠",
        }
    }

    /// How the eyes are drawn. `shut` is whether they are blinking.
    pub fn eye(self, shut: bool) -> (r: Eye)
        ensures
            r == self.eye_of(shut),
    {
        match self {
            Mood::Alarm => Eye::Crossed,
            Mood::Happy => Eye::Arched,
            Mood::Thinking => if shut {
                Eye::Shut
            } else {
                Eye::Looking
            },
            _ => if shut {
                Eye::Shut
            } else {
                Eye::Round
            },
        }
    }

    /// How the mouth is drawn.
    pub fn mouth(self) -> (r: Mouth)
        ensures
            r == self.mouth_of(),
    {
        match self {
            Mood::Happy => Mouth::Smile,
            Mood::Waiting => Mouth::Line,
            _ => Mouth::Open { moves: self.talks() },
        }
    }

    /// When the face is drawn again by itself: soon where it talks.
    pub fn repaint_ms(self) -> (r: Option<u64>)
        ensures
            r == self.repaint_of(),
    {
        if self.talks() {
            Some(TALK_REPAINT_MS)
        } else {
            None
        }
    }
}

/// A face that talks moves, and is drawn again twelve times a second; one that
/// rests is drawn when something else is. An open mouth moves exactly where the
/// face talks. Only a face that is neither glad nor alarmed blinks.
pub proof fn talking_face_moves(m: Mood, shut: bool)
    ensures
        m.talks_of() <==> m.repaint_of() == Some(80u64),
        !m.talks_of() <==> m.repaint_of() is None,
        !m.talks_of() <==> m == Mood::Idle || m == Mood::Waiting,
        m.mouth_of() matches Mouth::Open { moves } ==> moves == m.talks_of(),
        m.mouth_of() == Mouth::Smile <==> m == Mood::Happy,
        m.mouth_of() == Mouth::Line <==> m == Mood::Waiting,
        m.eye_of(true) == Eye::Shut <==> m != Mood::Happy && m != Mood::Alarm,
        m.eye_of(false) != Eye::Shut,
        m.eye_of(shut) == Eye::Arched <==> m == Mood::Happy,
        m.eye_of(shut) == Eye::Crossed <==> m == Mood::Alarm,
        m.eye_of(shut) == Eye::Looking <==> m == Mood::Thinking && !shut,
{
}

/// A face has the colour of what it tells, and a sign that no other mood has.
pub proof fn face_shows_its_mood(pal: Palette, m: Mood, n: Mood)
    ensures
        Mood::Alarm.color_of(pal) == pal.err,
        Mood::Waiting.color_of(pal) == pal.warn,
        Mood::Happy.color_of(pal) == pal.ok,
        Mood::Thinking.color_of(pal) == pal.accent,
        Mood::Idle.color_of(pal) == pal.dim,
        Mood::Reading.color_of(pal) == pal.info && Mood::Sending.color_of(pal) == pal.info,
        m.icon_of() == n.icon_of() ==> m == n,
        Mood::Alarm.icon_of() == seq!['⚠'],
        Mood::Happy.icon_of() == seq!['✅'],
        Mood::Waiting.icon_of() == seq!['⏳'],
        Mood::Idle.icon_of() == seq!['💤'],
        Mood::Reading.icon_of() == seq!['📄'],
        Mood::Thinking.icon_of() == seq!['💭'],
        Mood::Sending.icon_of() == seq!['📨'],
{
    reveal_strlit("💤");
    reveal_strlit("📄");
    reveal_strlit("💭");
    reveal_strlit("📨");
    reveal_strlit("⏳");
    reveal_strlit("✅");
    reveal_strlit("⚠");
    assert(Mood::Alarm.icon_of() =~= seq!['⚠']);
    assert(Mood::Happy.icon_of() =~= seq!['✅']);
    assert(Mood::Waiting.icon_of() =~= seq!['⏳']);
    assert(Mood::Idle.icon_of() =~= seq!['💤']);
    assert(Mood::Reading.icon_of() =~= seq!['📄']);
    assert(Mood::Thinking.icon_of() =~= seq!['💭']);
    assert(Mood::Sending.icon_of() =~= seq!['📨']);
    assert(m.icon_of()[0] == n.icon_of()[0] ==> m == n);
}

/// Whether `char::is_alphanumeric` takes a character for a letter or a digit.
pub uninterp spec fn alphanumeric_of(c: char) -> bool;

/// `char::is_alphanumeric`: whether a character is a letter or a digit of any
/// script.
#[verifier::external_body]
fn is_alphanumeric(c: char) -> (r: bool)
    ensures
        r == alphanumeric_of(c),
{
    c.is_alphanumeric()
}

/// A character that stands for a picture; `letter` is whether it is a letter or
/// a digit.
pub open spec fn is_icon_of(c: char, letter: bool) -> bool {
    c as u32 > 0x2000 && !letter && !text::is_space_of(c) && c != '«' && c != '—'
}

/// Neither a letter or digit nor white space nor a dash stands for a picture, and
/// nothing that is written with the common alphabets does; what else there is
/// does.
pub proof fn letters_are_no_pictures(c: char)
    ensures
        !is_icon_of(c, true),
        text::is_space_of(c) ==> !is_icon_of(c, false),
        c as u32 <= 0x2000 ==> !is_icon_of(c, false),
        !is_icon_of('—', false) && !is_icon_of('«', false),
        c as u32 > 0x2000 && !text::is_space_of(c) && c != '—' ==> is_icon_of(c, false),
{
}

/// Whether a character stands for a picture; `letter` is whether it is a letter
/// or a digit.
pub fn stands_for_picture(c: char, letter: bool) -> (r: bool)
    ensures
        r == is_icon_of(c, letter),
{
    (c as u32) > 0x2000 && !letter && !is_space(c) && c != '«' && c != '—'
}

/// Whether a character stands for a picture.
pub fn is_icon(c: char) -> (r: bool)
    ensures
        r == is_icon_of(c, alphanumeric_of(c)),
{
    stands_for_picture(c, is_alphanumeric(c))
}

/// A text without the pictures at its start.
pub open spec fn without_icons(s: Seq<char>) -> Seq<char>
    decreases s.len(),
    via without_icons_ends
{
    let rest = text::trim_start_of(s);
    if rest.len() > 0 && is_icon_of(rest[0], alphanumeric_of(rest[0])) {
        without_icons(rest.skip(1))
    } else {
        rest
    }
}

#[via_fn]
proof fn without_icons_ends(s: Seq<char>) {
    text::lemma_trim_start(s);
}

/// A text without the pictures at its start starts with neither a picture nor
/// white space.
pub proof fn no_picture_leads(s: Seq<char>)
    ensures
        ({
            let r = without_icons(s);
            r.len() > 0 ==> !text::is_space_of(r[0]) && !is_icon_of(r[0], alphanumeric_of(r[0]))
        }),
    decreases s.len(),
{
    text::lemma_trim_start(s);
    let rest = text::trim_start_of(s);
    if rest.len() > 0 && is_icon_of(rest[0], alphanumeric_of(rest[0])) {
        no_picture_leads(rest.skip(1));
    }
}

/// To take the pictures away twice is to do it once.
pub proof fn pictures_go_at_once(s: Seq<char>)
    ensures
        without_icons(without_icons(s)) == without_icons(s),
{
    no_picture_leads(s);
}

/// A text without the pictures at its start.
pub fn without_lead_icon(text: &str) -> (r: String)
    ensures
        r@ == without_icons(text@),
{
    let chars = chars_of(text);
    let mut rest = trim_start(chars.as_slice());
    proof {
        text::lemma_trim_start(text@);
    }
    while rest.len() > 0 && is_icon(rest[0])
        invariant
            without_icons(text@) == without_icons(rest@),
            text::trim_start_of(rest@) == rest@,
        decreases rest@.len(),
    {
        let tail = slice_subrange(rest, 1, rest.len());
        assert(tail@ =~= rest@.skip(1));
        proof {
            text::lemma_trim_start(tail@);
            assert(without_icons(rest@) == without_icons(tail@));
        }
        rest = trim_start(tail);
        assert(text::trim_start_of(rest@) == rest@);
        assert(without_icons(tail@) == without_icons(rest@));
    }
    string_of(rest)
}

/// The characters of a text that can be drawn: `drawn` says it of each, and
/// white space always can.
pub open spec fn renderable_of(s: Seq<char>, drawn: Seq<bool>) -> Seq<char>
    decreases s.len(),
{
    if s.len() == 0 {
        s
    } else if text::is_space_of(s.last()) || drawn[s.len() - 1] {
        renderable_of(s.drop_last(), drawn).push(s.last())
    } else {
        renderable_of(s.drop_last(), drawn)
    }
}

/// What can be drawn is kept whole and in its order; what cannot is left out, but
/// for white space.
pub proof fn drawable_text_is_kept(s: Seq<char>, drawn: Seq<bool>, c: char, can: bool)
    requires
        drawn.len() == s.len(),
    ensures
        renderable_of(s.push(c), drawn.push(can)) == if can || text::is_space_of(c) {
            renderable_of(s, drawn).push(c)
        } else {
            renderable_of(s, drawn)
        },
        (forall|i: int| 0 <= i < s.len() ==> #[trigger] drawn[i]) ==> renderable_of(s, drawn) == s,
{
    assert(s.push(c).drop_last() =~= s);
    lemma_renderable_prefix(s, drawn, drawn.push(can));
    if forall|i: int| 0 <= i < s.len() ==> #[trigger] drawn[i] {
        lemma_all_drawn(s, drawn);
    }
}

proof fn lemma_renderable_prefix(s: Seq<char>, a: Seq<bool>, b: Seq<bool>)
    requires
        a.len() >= s.len(),
        b.len() >= s.len(),
        forall|i: int| 0 <= i < s.len() ==> a[i] == b[i],
    ensures
        renderable_of(s, a) == renderable_of(s, b),
    decreases s.len(),
{
    if s.len() > 0 {
        lemma_renderable_prefix(s.drop_last(), a, b);
    }
}

proof fn lemma_all_drawn(s: Seq<char>, drawn: Seq<bool>)
    requires
        drawn.len() >= s.len(),
        forall|i: int| 0 <= i < s.len() ==> #[trigger] drawn[i],
    ensures
        renderable_of(s, drawn) == s,
    decreases s.len(),
{
    if s.len() > 0 {
        lemma_all_drawn(s.drop_last(), drawn);
        assert(drawn[s.len() - 1]);
        assert(s.drop_last().push(s.last()) =~= s);
    }
}

/// The characters of a text that can be drawn; `drawn` says it of each.
pub fn renderable(s: &str, drawn: &Vec<bool>) -> (r: String)
    requires
        drawn@.len() == s@.len(),
    ensures
        r@ == renderable_of(s@, drawn@),
{
    let chars = chars_of(s);
    let mut kept: Vec<char> = Vec::new();
    let mut i: usize = 0;
    assert(s@.take(0) =~= Seq::empty());
    while i < chars.len()
        invariant
            i <= chars@.len(),
            chars@ == s@,
            drawn@.len() == s@.len(),
            kept@ == renderable_of(s@.take(i as int), drawn@),
        decreases chars.len() - i,
    {
        assert(s@.take(i + 1).drop_last() =~= s@.take(i as int));
        if is_space(chars[i]) || drawn[i] {
            kept.push(chars[i]);
        }
        i = i + 1;
    }
    assert(s@.take(s@.len() as int) =~= s@);
    string_of(kept.as_slice())
}

/// The sign before what the face says: a dot where it cannot be drawn.
pub open spec fn lead_of(mood: Mood, drawn: bool) -> Seq<char> {
    if drawn {
        mood.icon_of()
    } else {
        "•"@
    }
}

/// The sign before what the face says: a dot where it cannot be drawn.
pub fn lead(mood: Mood, drawn: bool) -> (r: &'static str)
    ensures
        r@ == lead_of(mood, drawn),
{
    if drawn {
        mood.icon()
    } else {
        "•"
    }
}

/// The sign, and behind it what can be drawn of the text without the pictures at
/// its start. `icon_drawn` is whether the sign can be drawn, and `shown` what can
/// be of the text.
pub fn with_icon(mood: Mood, icon_drawn: bool, shown: &str) -> (r: String)
    ensures
        r@ == lead_of(mood, icon_drawn) + " "@ + shown@,
{
    cat3(lead(mood, icon_drawn), " ", shown)
}

/// What stands in the bubble beside the face: the age too where the step has
/// lasted for a while.
pub fn bubble(mood: Mood, icon_drawn: bool, shown: &str, age: Duration) -> (r: String)
    ensures
        r@ == if age@ / SECOND as int >= AGE_SHOWN_SECS {
            lead_of(mood, icon_drawn) + " "@ + shown@ + ("  · "@ + human_age_of(
                age@ / SECOND as int,
            ))
        } else {
            lead_of(mood, icon_drawn) + " "@ + shown@
        },
{
    let mut said = with_icon(mood, icon_drawn, shown);
    if age.as_secs() >= AGE_SHOWN_SECS {
        said.append(cat("  · ", human_age(age).as_str()).as_str());
    }
    said
}

/// What is said of a line that names what it is about behind a colon.
pub open spec fn after_colon_of(line: Seq<char>, prefix: Seq<char>) -> Seq<char> {
    match text::split_once_of(line, ": "@) {
        Some((_, what)) if text::trim_of(what).len() > 0 => prefix + ": "@ + text::trim_of(what),
        _ => prefix,
    }
}

/// What is said of a line that names what it is about behind a colon.
pub fn after_colon(line: &str, prefix: &str) -> (r: String)
    ensures
        r@ == after_colon_of(line@, prefix@),
{
    let chars = chars_of(line);
    match split_once(chars.as_slice(), chars_of(": ").as_slice()) {
        Some((_, what)) => {
            let what = trim(what);
            if what.len() > 0 {
                cat3(prefix, ": ", string_of(what).as_str())
            } else {
                prefix.to_owned()
            }
        },
        None => prefix.to_owned(),
    }
}

/// A line without the white space around it.
pub fn strip_marks(line: &str) -> (r: String)
    ensures
        r@ == text::trim_of(line@),
{
    trimmed(line)
}

/// What the face makes of a line; `l` is the line in lower case.
pub open spec fn remark_of(l: Seq<char>, line: Seq<char>) -> (Mood, Seq<char>) {
    if text::contains_of(l, "капч"@) {
        (Mood::Alarm, "Капча! Реши её в браузере — я жду"@)
    } else if text::contains_of(l, "пауза"@) || text::contains_of(l, "сплю"@) {
        (Mood::Waiting, text::trim_of(line))
    } else if text::contains_of(l, "открываю вакансию"@) {
        (Mood::Reading, after_colon_of(line, "Читаю вакансию"@))
    } else if text::contains_of(l, "открываю форму"@) {
        (Mood::Reading, after_colon_of(line, "Открываю форму отклика"@))
    } else if text::contains_of(l, "пишу письмо"@) {
        (Mood::Thinking, after_colon_of(line, "Сочиняю письмо"@))
    } else if text::contains_of(l, "правлю письмо"@) {
        (Mood::Thinking, after_colon_of(line, "Причёсываю письмо"@))
    } else if text::contains_of(l, "вопрос"@) {
        (Mood::Thinking, "Отвечаю на вопросы работодателя"@)
    } else if text::contains_of(l, "отправляю отклик"@) {
        (Mood::Sending, after_colon_of(line, "Отправляю отклик"@))
    } else if text::contains_of(l, "откликнулся"@) || text::contains_of(l, "обогащено"@) {
        (Mood::Happy, text::trim_of(line))
    } else if text::contains_of(l, "скан"@) || text::contains_of(l, "выдаче"@) {
        (Mood::Reading, text::trim_of(line))
    } else if text::contains_of(l, "лимит"@) || text::contains_of(l, "недоступна"@)
        || text::contains_of(l, "пропускаю"@) {
        (Mood::Waiting, text::trim_of(line))
    } else if text::contains_of(l, "ошибка"@) || text::contains_of(l, "не удалось"@) {
        (Mood::Alarm, text::trim_of(line))
    } else if text::trim_of(line).len() == 0 {
        (Mood::Idle, "Стою без дела"@)
    } else {
        (Mood::Thinking, text::trim_of(line))
    }
}

fn has(l: &Vec<char>, word: &str) -> (r: bool)
    ensures
        r == text::contains_of(l@, word@),
{
    contains(l.as_slice(), chars_of(word).as_slice())
}

fn say(mood: Mood, said: String) -> (r: Remark)
    ensures
        r.mood == mood,
        r.text@ == said@,
{
    Remark { mood, text: said }
}

/// A captcha alarms whatever else the line says, and behind that a pause counts
/// before the rest. A line that says nothing known is thought about as it is, and
/// an empty one is idled over.
pub proof fn captcha_comes_first(a: Seq<char>, b: Seq<char>, line: Seq<char>)
    ensures
        remark_of(a + "капч"@ + b, line).0 == Mood::Alarm,
        !text::contains_of(a + "пауза"@ + b, "капч"@) ==> remark_of(a + "пауза"@ + b, line) == (
            Mood::Waiting,
            text::trim_of(line),
        ),
        !text::contains_of(a + "сплю"@ + b, "капч"@) ==> remark_of(a + "сплю"@ + b, line) == (
            Mood::Waiting,
            text::trim_of(line),
        ),
        remark_of(b, line).0 == Mood::Idle ==> text::trim_of(line).len() == 0,
        remark_of(b, line).0 == Mood::Happy ==> text::contains_of(b, "откликнулся"@)
            || text::contains_of(b, "обогащено"@),
        remark_of(b, line).0 == Mood::Sending ==> text::contains_of(b, "отправляю отклик"@),
        remark_of(b, line).0 == Mood::Alarm ==> text::contains_of(b, "капч"@) || text::contains_of(
            b,
            "ошибка"@,
        ) || text::contains_of(b, "не удалось"@),
{
    text::parts_are_found(a, "капч"@, b);
    text::parts_are_found(a, "пауза"@, b);
    text::parts_are_found(a, "сплю"@, b);
}

/// What the face makes of a line; `lowered` is the line in lower case.
pub fn remark_lowered(lowered: &str, line: &str) -> (r: Remark)
    ensures
        (r.mood, r.text@) == remark_of(lowered@, line@),
{
    let l = chars_of(lowered);
    if has(&l, "капч") {
        return say(Mood::Alarm, "Капча! Реши её в браузере — я жду".to_owned());
    }
    if has(&l, "пауза") || has(&l, "сплю") {
        return say(Mood::Waiting, strip_marks(line));
    }
    if has(&l, "открываю вакансию") {
        return say(Mood::Reading, after_colon(line, "Читаю вакансию"));
    }
    if has(&l, "открываю форму") {
        return say(Mood::Reading, after_colon(line, "Открываю форму отклика"));
    }
    if has(&l, "пишу письмо") {
        return say(Mood::Thinking, after_colon(line, "Сочиняю письмо"));
    }
    if has(&l, "правлю письмо") {
        return say(Mood::Thinking, after_colon(line, "Причёсываю письмо"));
    }
    if has(&l, "вопрос") {
        return say(Mood::Thinking, "Отвечаю на вопросы работодателя".to_owned());
    }
    if has(&l, "отправляю отклик") {
        return say(Mood::Sending, after_colon(line, "Отправляю отклик"));
    }
    if has(&l, "откликнулся") || has(&l, "обогащено") {
        return say(Mood::Happy, strip_marks(line));
    }
    if has(&l, "скан") || has(&l, "выдаче") {
        return say(Mood::Reading, strip_marks(line));
    }
    if has(&l, "лимит") || has(&l, "недоступна") || has(&l, "пропускаю") {
        return say(Mood::Waiting, strip_marks(line));
    }
    if has(&l, "ошибка") || has(&l, "не удалось") {
        return say(Mood::Alarm, strip_marks(line));
    }
    let plain = strip_marks(line);
    if chars_of(plain.as_str()).len() == 0 {
        return say(Mood::Idle, "Стою без дела".to_owned());
    }
    say(Mood::Thinking, plain)
}

/// What the face makes of a line of the autopilot's log.
pub fn remark(line: &str) -> (r: Remark)
    ensures
        (r.mood, r.text@) == remark_of(text::lower_of(line@), line@),
{
    remark_lowered(lower(line).as_str(), line)
}

/// Minutes in words; none for fewer than none.
pub open spec fn human_gap_of(minutes: int) -> Seq<char> {
    let m = if minutes > 0 {
        minutes
    } else {
        0
    };
    if m < 60 {
        text::decimal_of(m as nat) + "м"@
    } else if m % 60 == 0 {
        text::decimal_of((m / 60) as nat) + "ч"@
    } else {
        text::decimal_of((m / 60) as nat) + "ч"@ + text::two_digits_of((m % 60) as nat) + "м"@
    }
}

/// Minutes are told as whole hours and what is left of the last one, which has
/// two digits; fewer than none as none.
pub proof fn hours_and_minutes_are_told(h: nat, m: nat)
    requires
        m < 60,
    ensures
        human_gap_of(m as int) == text::decimal_of(m) + "м"@,
        h > 0 ==> human_gap_of((60 * h) as int) == text::decimal_of(h) + "ч"@,
        h > 0 && m > 0 ==> human_gap_of((60 * h + m) as int) == text::decimal_of(h) + "ч"@
            + text::two_digits_of(m) + "м"@,
        human_gap_of(-(m as int)) == text::decimal_of(0) + "м"@,
        human_age_of(m as int) == text::decimal_of(m) + "с"@,
        h > 0 ==> human_age_of((60 * h + m) as int) == text::decimal_of(h) + "м"@
            + text::two_digits_of(m) + "с"@,
{
}

/// Minutes in words.
pub fn human_gap(minutes: i64) -> (r: String)
    ensures
        r@ == human_gap_of(minutes as int),
{
    let m: u64 = if minutes > 0 {
        minutes as u64
    } else {
        0
    };
    if m < 60 {
        cat(decimal_u64(m).as_str(), "м")
    } else if m % 60 == 0 {
        cat(decimal_u64(m / 60).as_str(), "ч")
    } else {
        cat4(decimal_u64(m / 60).as_str(), "ч", two_digits(m % 60).as_str(), "м")
    }
}

/// Seconds in words.
pub open spec fn human_age_of(secs: int) -> Seq<char> {
    if secs < 60 {
        text::decimal_of(secs as nat) + "с"@
    } else {
        text::decimal_of((secs / 60) as nat) + "м"@ + text::two_digits_of((secs % 60) as nat) + "с"@
    }
}

/// A length of time in words.
pub fn human_age(age: Duration) -> (r: String)
    ensures
        r@ == human_age_of(age@ / SECOND as int),
{
    let s: u64 = age.as_secs();
    if s < 60 {
        cat(decimal_u64(s).as_str(), "с")
    } else {
        cat4(decimal_u64(s / 60).as_str(), "м", two_digits(s % 60).as_str(), "с")
    }
}

} // verus!
