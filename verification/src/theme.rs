//! The two looks of the window.

use crate::text::same_str;
use vstd::prelude::*;

verus! {

/// The look of the window.
#[derive(Debug, Clone, Copy, PartialEq, Eq, Structural)]
pub enum Theme {
    Dark,
    Light,
}

/// A colour as it is blended: its parts are multiplied by its opacity.
#[derive(Debug, Clone, Copy, PartialEq, Eq, Structural)]
pub struct Color {
    pub r: u8,
    pub g: u8,
    pub b: u8,
    pub a: u8,
}

/// The colours of a look.
#[derive(Debug, Clone, Copy, PartialEq, Eq, Structural)]
pub struct Palette {
    pub bg: Color,
    pub panel: Color,
    pub card: Color,
    pub border: Color,
    pub grid: Color,
    pub accent: Color,
    pub text: Color,
    pub muted: Color,
    pub dim: Color,
    pub ok: Color,
    pub info: Color,
    pub warn: Color,
    pub err: Color,
    pub focus: Color,
}

/// An opaque colour.
pub open spec fn rgb_of(r: u8, g: u8, b: u8) -> Color {
    Color { r, g, b, a: 255 }
}

/// The colour `c` is the colour of the parts `r`, `g` and `b` with the opacity
/// `a` as it is blended: the opacity is the same, an opaque one has its parts,
/// and one that is not seen is black. A part that is not there stays away, and
/// parts that are equal stay so.
pub open spec fn shaded(c: Color, r: u8, g: u8, b: u8, a: u8) -> bool {
    &&& c.a == a
    &&& a == 255 ==> c == rgb_of(r, g, b)
    &&& a == 0 ==> c == (Color { r: 0, g: 0, b: 0, a: 0 })
    &&& r == 0 ==> c.r == 0
    &&& g == 0 ==> c.g == 0
    &&& b == 0 ==> c.b == 0
    &&& r == g ==> c.r == c.g
    &&& g == b ==> c.g == c.b
    &&& r == b ==> c.r == c.b
}

fn rgb(r: u8, g: u8, b: u8) -> (c: Color)
    ensures
        c == rgb_of(r, g, b),
{
    Color { r, g, b, a: 255 }
}

/// `egui::Color32::from_rgba_unmultiplied`: a colour with an opacity as it is
/// blended. Of one that is neither opaque nor unseen the other parts are not
/// stated: they come from the power function of the machine's floating point,
/// whose last digits are not the same everywhere.
#[verifier::external_body]
fn rgba_unmultiplied(r: u8, g: u8, b: u8, a: u8) -> (c: Color)
    ensures
        shaded(c, r, g, b, a),
{
    let [r, g, b, a] = egui::Color32::from_rgba_unmultiplied(r, g, b, a).to_array();
    Color { r, g, b, a }
}

impl Theme {
    pub open spec fn toggled_of(self) -> Theme {
        match self {
            Theme::Dark => Theme::Light,
            Theme::Light => Theme::Dark,
        }
    }

    pub open spec fn icon_of(self) -> Seq<char> {
        match self {
            Theme::Dark => "🌞"@,
            Theme::Light => "🌙"@,
        }
    }

    pub open spec fn hint_of(self) -> Seq<char> {
        match self {
            Theme::Dark => "Светлая тема"@,
            Theme::Light => "Тёмная тема"@,
        }
    }

    /// `r` are the colours of the look, with a background of the opacity
    /// `bg_alpha`.
    pub open spec fn painted(self, bg_alpha: u8, r: Palette) -> bool {
        &&& r.focus == rgb_of(26, 115, 232)
        &&& match self {
            Theme::Dark => {
                &&& shaded(r.bg, 18, 18, 22, bg_alpha)
                &&& shaded(r.card, 255, 255, 255, 6)
                &&& r.panel == rgb_of(10, 12, 16)
                &&& r.border == rgb_of(58, 63, 78)
                &&& r.grid == rgb_of(40, 44, 52)
                &&& r.accent == rgb_of(180, 200, 255)
                &&& r.text == rgb_of(205, 210, 220)
                &&& r.muted == rgb_of(135, 141, 152)
                &&& r.dim == rgb_of(90, 96, 108)
                &&& r.ok == rgb_of(120, 210, 150)
                &&& r.info == rgb_of(130, 180, 250)
                &&& r.warn == rgb_of(210, 200, 120)
                &&& r.err == rgb_of(230, 120, 120)
            },
            Theme::Light => {
                &&& shaded(r.bg, 245, 246, 248, bg_alpha)
                &&& shaded(r.card, 0, 0, 0, 12)
                &&& r.panel == rgb_of(226, 229, 234)
                &&& r.border == rgb_of(196, 202, 212)
                &&& r.grid == rgb_of(206, 211, 219)
                &&& r.accent == rgb_of(38, 90, 200)
                &&& r.text == rgb_of(28, 32, 40)
                &&& r.muted == rgb_of(92, 102, 116)
                &&& r.dim == rgb_of(140, 148, 160)
                &&& r.ok == rgb_of(30, 140, 72)
                &&& r.info == rgb_of(40, 108, 210)
                &&& r.warn == rgb_of(158, 120, 12)
                &&& r.err == rgb_of(200, 56, 56)
            },
        }
    }

    pub fn toggled(self) -> (r: Theme)
        ensures
            r == self.toggled_of(),
    {
        match self {
            Theme::Dark => Theme::Light,
            Theme::Light => Theme::Dark,
        }
    }

    /// The sign of the look that a click brings.
    pub fn icon(self) -> (r: &'static str)
        ensures
            r@ == self.icon_of(),
    {
        match self {
            Theme::Dark => "🌞",
            Theme::Light => "🌙",
        }
    }

    /// The look that a click brings, in words.
    pub fn hint(self) -> (r: &'static str)
        ensures
            r@ == self.hint_of(),
    {
        match self {
            Theme::Dark => "Светлая тема",
            Theme::Light => "Тёмная тема",
        }
    }

    pub open spec fn label_of(self) -> Seq<char> {
        match self {
            Theme::Dark => "dark"@,
            Theme::Light => "light"@,
        }
    }

    /// What the look is saved as.
    pub fn label(self) -> (r: &'static str)
        ensures
            r@ == self.label_of(),
    {
        match self {
            Theme::Dark => "dark",
            Theme::Light => "light",
        }
    }

    pub open spec fn from_label_of(s: Seq<char>) -> Theme {
        if s == "light"@ {
            Theme::Light
        } else {
            Theme::Dark
        }
    }

    /// The look that was saved.
    pub fn from_label(s: &str) -> (r: Theme)
        ensures
            r == Theme::from_label_of(s@),
    {
        if same_str(s, "light") {
            Theme::Light
        } else {
            Theme::Dark
        }
    }

    /// The colours of the look. The background has the opacity `bg_alpha`.
    pub fn palette(self, bg_alpha: u8) -> (r: Palette)
        ensures
            self.painted(bg_alpha, r),
    {
        match self {
            Theme::Dark => Palette {
                bg: rgba_unmultiplied(18, 18, 22, bg_alpha),
                panel: rgb(10, 12, 16),
                card: rgba_unmultiplied(255, 255, 255, 6),
                border: rgb(58, 63, 78),
                grid: rgb(40, 44, 52),
                accent: rgb(180, 200, 255),
                text: rgb(205, 210, 220),
                muted: rgb(135, 141, 152),
                dim: rgb(90, 96, 108),
                ok: rgb(120, 210, 150),
                info: rgb(130, 180, 250),
                warn: rgb(210, 200, 120),
                err: rgb(230, 120, 120),
                focus: rgb(26, 115, 232),
            },
            Theme::Light => Palette {
                bg: rgba_unmultiplied(245, 246, 248, bg_alpha),
                panel: rgb(226, 229, 234),
                card: rgba_unmultiplied(0, 0, 0, 12),
                border: rgb(196, 202, 212),
                grid: rgb(206, 211, 219),
                accent: rgb(38, 90, 200),
                text: rgb(28, 32, 40),
                muted: rgb(92, 102, 116),
                dim: rgb(140, 148, 160),
                ok: rgb(30, 140, 72),
                info: rgb(40, 108, 210),
                warn: rgb(158, 120, 12),
                err: rgb(200, 56, 56),
                focus: rgb(26, 115, 232),
            },
        }
    }
}

/// A click brings the other look, and its sign and its words are of the look that
/// it brings: the sun and the bright one from the dark, the moon and the dark one
/// from the bright.
pub proof fn click_brings_what_it_shows(t: Theme)
    ensures
        t.toggled_of() != t,
        t.toggled_of().toggled_of() == t,
        t.toggled_of() == Theme::Light <==> t.icon_of() == seq!['🌞'],
        t.toggled_of() == Theme::Dark <==> t.icon_of() == seq!['🌙'],
        t.toggled_of() == Theme::Light <==> t.hint_of()[0] == 'С',
        t.toggled_of() == Theme::Dark <==> t.hint_of()[0] == 'Т',
{
    reveal_strlit("🌞");
    reveal_strlit("🌙");
    reveal_strlit("Светлая тема");
    reveal_strlit("Тёмная тема");
    assert("🌞"@ =~= seq!['🌞']);
    assert("🌙"@ =~= seq!['🌙']);
    assert(seq!['🌞'][0] != seq!['🌙'][0]);
}

/// The number that an opaque colour has where it is written down: two digits each
/// for its red, its green and its blue.
pub open spec fn code_of(c: Color) -> int {
    c.r * 0x1_0000 + c.g * 0x100 + c.b
}

/// Each look has its colours, by their numbers.
pub proof fn looks_have_their_colours(t: Theme, bg_alpha: u8, p: Palette)
    requires
        t.painted(bg_alpha, p),
    ensures
        code_of(p.focus) == 0x1A_73E8,
        t == Theme::Dark ==> code_of(p.panel) == 0x0A_0C10 && code_of(p.border) == 0x3A_3F4E
            && code_of(p.grid) == 0x28_2C34 && code_of(p.accent) == 0xB4_C8FF && code_of(p.text)
            == 0xCD_D2DC && code_of(p.muted) == 0x87_8D98 && code_of(p.dim) == 0x5A_606C && code_of(
            p.ok,
        ) == 0x78_D296 && code_of(p.info) == 0x82_B4FA && code_of(p.warn) == 0xD2_C878 && code_of(
            p.err,
        ) == 0xE6_7878,
        t == Theme::Light ==> code_of(p.panel) == 0xE2_E5EA && code_of(p.border) == 0xC4_CAD4
            && code_of(p.grid) == 0xCE_D3DB && code_of(p.accent) == 0x26_5AC8 && code_of(p.text)
            == 0x1C_2028 && code_of(p.muted) == 0x5C_6674 && code_of(p.dim) == 0x8C_94A0 && code_of(
            p.ok,
        ) == 0x1E_8C48 && code_of(p.info) == 0x28_6CD2 && code_of(p.warn) == 0x9E_780C && code_of(
            p.err,
        ) == 0xC8_3838,
        t == Theme::Dark && bg_alpha == 255 ==> code_of(p.bg) == 0x12_1216,
        t == Theme::Light && bg_alpha == 255 ==> code_of(p.bg) == 0xF5_F6F8,
{
}

/// What is written stands out from what it is written on: it is bright on dark,
/// and dark on bright, the less the less it matters. What went well is green,
/// what went wrong red, a warning yellow and a notice blue, and only the
/// background and the cards let something through.
pub proof fn writing_stands_out(t: Theme, bg_alpha: u8, p: Palette)
    requires
        t.painted(bg_alpha, p),
    ensures
        t == Theme::Dark ==> p.panel.g < p.grid.g < p.border.g < p.dim.g < p.muted.g < p.text.g,
        t == Theme::Light ==> p.panel.g > p.grid.g > p.border.g > p.dim.g > p.muted.g > p.text.g,
        p.ok.g > p.ok.r && p.ok.g > p.ok.b,
        p.err.r > p.err.g && p.err.g == p.err.b,
        p.warn.r > p.warn.g > p.warn.b,
        p.info.b > p.info.g > p.info.r,
        p.accent.b > p.accent.g > p.accent.r,
        p.focus.b > p.focus.g > p.focus.r,
        p.bg.a == bg_alpha && 0 < p.card.a < 20,
        p.panel.a == 255 && p.border.a == 255 && p.grid.a == 255 && p.accent.a == 255,
        p.text.a == 255 && p.muted.a == 255 && p.dim.a == 255 && p.focus.a == 255,
        p.ok.a == 255 && p.info.a == 255 && p.warn.a == 255 && p.err.a == 255,
{
}

/// The look that was saved is the look that is read.
pub proof fn label_reads_back(t: Theme)
    ensures
        Theme::from_label_of(t.label_of()) == t,
{
    reveal_strlit("light");
    reveal_strlit("dark");
    assert("light"@.len() == 5 && "dark"@.len() == 4);
}

} // verus!
