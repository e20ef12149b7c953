//! The band of the screen that is recorded.

use crate::json;
use crate::json::{Json, Tree};
use crate::text;
use crate::text::{chars_of, decimal_i64, decimal_u64, same_opt, utf8_text};
use vstd::prelude::*;

verus! {

/// The width of what is recorded, in pixels.
pub const TARGET_OUT_WIDTH: u32 = 2500;

/// The size of a screen in logical pixels where it is not known.
pub const FALLBACK_W_LG: u32 = 4096;

pub const FALLBACK_H_LG: u32 = 1728;

/// The largest even number that is not above `v`.
pub open spec fn even_of(v: int) -> int {
    v - v % 2
}

/// The largest even number that is not above `v`.
pub fn even(v: u32) -> (r: u32)
    ensures
        r == even_of(v as int),
{
    v - v % 2
}

/// The band of a screen of `w` by `h`: as wide as is wanted and there is room
/// for, of full height, in the middle. All of its numbers are even.
pub open spec fn band_of(w: int, h: int, target: int) -> (int, int, int, int) {
    let width = even_of(
        if target < w {
            target
        } else {
            w
        },
    );
    (even_of((w - width) / 2), 0, width, even_of(h))
}

/// The band of a screen: its place, its width and its height.
pub fn band(w_lg: u32, h_lg: u32, target_lg: u32) -> (r: (i32, i32, u32, u32))
    ensures
        ({
            let b = band_of(w_lg as int, h_lg as int, target_lg as int);
            r.0 == b.0 && r.1 == b.1 && r.2 == b.2 && r.3 == b.3
        }),
{
    let w = even(
        if target_lg < w_lg {
            target_lg
        } else {
            w_lg
        },
    );
    let h = even(h_lg);
    let x = even((w_lg - w) / 2);
    (x as i32, 0, w, h)
}

/// The band lies within the screen, and its numbers are even.
pub proof fn band_lies_within(w: int, h: int, target: int)
    requires
        0 <= w,
        0 <= h,
        0 <= target,
    ensures
        ({
            let (x, y, bw, bh) = band_of(w, h, target);
            &&& 0 <= x && x + bw <= w
            &&& 0 <= y && y + bh <= h
            &&& x % 2 == 0 && y % 2 == 0 && bw % 2 == 0 && bh % 2 == 0
        }),
{
}

// ---------------------------------------------------------------------------
// The screen
// ---------------------------------------------------------------------------

/// The band is as wide as was wanted, or as the screen, but for one pixel where
/// that is odd; it has the screen's full height, but for one, and the same room
/// on both sides, but for the same reason.
pub proof fn band_lies_in_the_middle(w: int, h: int, target: int)
    requires
        0 <= w,
        0 <= h,
        0 <= target,
    ensures
        ({
            let (x, y, bw, bh) = band_of(w, h, target);
            &&& bw <= target && bw <= w
            &&& bw + 1 >= target || bw + 1 >= w
            &&& y == 0 && h - 1 <= bh
            &&& -1 <= (w - bw - x) - x <= 3
        }),
{
}

/// A number of a document as a text, nothing of what is no number.
pub open spec fn number_text_of(t: Tree) -> Option<Seq<char>> {
    match t {
        Tree::UInt(n) => Some(text::decimal_of(n as nat)),
        Tree::Int(n) => Some(text::decimal_int_of(n as int)),
        Tree::Float(s) => Some(s),
        _ => None,
    }
}

/// A digit other than zero, in a number's text up to its exponent.
pub open spec fn has_value(s: Seq<char>) -> bool
    decreases s.len(),
{
    if s.len() == 0 || s[0] == 'e' || s[0] == 'E' {
        false
    } else if '1' <= s[0] && s[0] <= '9' {
        true
    } else {
        has_value(s.skip(1))
    }
}

/// A number's text is that of a number above zero.
pub open spec fn above_zero(s: Seq<char>) -> bool {
    s.len() > 0 && s[0] != '-' && has_value(s)
}

/// The mode that a screen has, with its number.
pub open spec fn mode_in(modes: Seq<Tree>, id: Seq<char>) -> Option<Tree>
    decreases modes.len(),
{
    if modes.len() == 0 {
        None
    } else if json::text_field_of(modes[0], "id"@) == Some(id) {
        Some(modes[0])
    } else {
        mode_in(modes.skip(1), id)
    }
}

/// The width and the height of a mode, as texts.
pub open spec fn size_of(mode: Tree) -> Option<(Seq<char>, Seq<char>)> {
    match json::field_of(mode, "size"@) {
        Some(size) => match (json::field_of(size, "width"@), json::field_of(size, "height"@)) {
            (Some(w), Some(h)) => match (number_text_of(w), number_text_of(h)) {
                (Some(a), Some(b)) => Some((a, b)),
                _ => None,
            },
            _ => None,
        },
        None => None,
    }
}

/// How much a screen is enlarged, as a text: not at all where nothing is said.
pub open spec fn scale_of(output: Tree) -> Seq<char> {
    match json::field_of(output, "scale"@) {
        Some(s) => match number_text_of(s) {
            Some(t) => t,
            None => "1"@,
        },
        None => "1"@,
    }
}

/// The first screen that is on and whose mode is listed: its width, its height
/// and how much it is enlarged, as texts. Nothing where a screen before it does
/// not say what its mode is.
pub open spec fn screen_of(outputs: Seq<Tree>) -> Option<(Seq<char>, Seq<char>, Seq<char>)>
    decreases outputs.len(),
{
    if outputs.len() == 0 {
        None
    } else {
        let o = outputs[0];
        let on = match json::field_of(o, "enabled"@) {
            Some(e) => json::bool_of(e) == Some(true),
            None => false,
        };
        if !on || !above_zero(scale_of(o)) {
            screen_of(outputs.skip(1))
        } else {
            match (json::text_field_of(o, "currentModeId"@), json::field_of(o, "modes"@)) {
                (Some(id), Some(Tree::List(modes))) => match mode_in(modes, id) {
                    Some(mode) => match size_of(mode) {
                        Some((w, h)) => Some((w, h, scale_of(o))),
                        None => None,
                    },
                    None => screen_of(outputs.skip(1)),
                },
                _ => None,
            }
        }
    }
}

/// A screen that is off is passed over, and the first that is on tells its own
/// size, in the mode that it has, and how much it is enlarged.
pub proof fn first_screen_that_is_on_counts(
    o: Tree,
    rest: Seq<Tree>,
    id: Seq<char>,
    modes: Seq<Tree>,
    w: u64,
    h: u64,
    size: Tree,
    i: int,
    s: Seq<char>,
)
    requires
        json::field_of(o, "currentModeId"@) == Some(Tree::Text(id)),
        json::field_of(o, "modes"@) == Some(Tree::List(modes)),
        0 <= i < modes.len(),
        json::field_of(modes[i], "id"@) == Some(Tree::Text(id)),
        forall|j: int|
            0 <= j < i ==> json::field_of(#[trigger] modes[j], "id"@) != Some(Tree::Text(id)),
        json::field_of(modes[i], "size"@) == Some(size),
        json::field_of(size, "width"@) == Some(Tree::UInt(w)),
        json::field_of(size, "height"@) == Some(Tree::UInt(h)),
    ensures
        json::field_of(o, "enabled"@) == Some(Tree::Bool(false)) || json::field_of(
            o,
            "enabled"@,
        ) is None ==> screen_of(seq![o] + rest) == screen_of(rest),
        json::field_of(o, "enabled"@) == Some(Tree::Bool(true)) && (json::field_of(
            o,
            "scale"@,
        ) is None || json::field_of(o, "scale"@) == Some(Tree::Null)) ==> screen_of(seq![o] + rest) == Some(
            (text::decimal_of(w as nat), text::decimal_of(h as nat), "1"@),
        ),
        json::field_of(o, "enabled"@) == Some(Tree::Bool(true)) && json::field_of(o, "scale"@)
            == Some(Tree::Float(s)) && above_zero(s) ==> screen_of(seq![o] + rest) == Some(
            (text::decimal_of(w as nat), text::decimal_of(h as nat), s),
        ),
{
    assert((seq![o] + rest).skip(1) =~= rest);
    lemma_mode_in(modes, id, i);
    reveal_strlit("1");
    assert("1"@[0] == '1');
    assert(above_zero("1"@));
}

proof fn lemma_mode_in(modes: Seq<Tree>, id: Seq<char>, i: int)
    requires
        0 <= i < modes.len(),
        json::field_of(modes[i], "id"@) == Some(Tree::Text(id)),
        forall|j: int|
            0 <= j < i ==> json::field_of(#[trigger] modes[j], "id"@) != Some(Tree::Text(id)),
    ensures
        mode_in(modes, id) == Some(modes[i]),
    decreases modes.len(),
{
    if i > 0 {
        assert(json::field_of(modes[0], "id"@) != Some(Tree::Text(id)));
        let rest = modes.skip(1);
        assert forall|j: int| 0 <= j < i - 1 implies json::field_of(#[trigger] rest[j], "id"@)
            != Some(Tree::Text(id)) by {
            assert(rest[j] == modes[j + 1]);
        }
        lemma_mode_in(rest, id, i - 1);
    }
}

/// A whole number is above zero exactly where it is not nought, and one with a
/// sign before it is not.
pub proof fn nought_is_not_above_zero(n: nat, s: Seq<char>)
    ensures
        above_zero(text::decimal_of(n)) <==> n > 0,
        !above_zero(seq!['-'] + s),
{
    lemma_value_of_decimal(n);
    text::lemma_decimal(n);
    assert((seq!['-'] + s)[0] == '-');
}

proof fn lemma_value_of_decimal(n: nat)
    ensures
        has_value(text::decimal_of(n)) <==> n > 0,
    decreases n,
{
    let d = text::decimal_of(n);
    if n < 10 {
        assert(d =~= seq![text::digit_char(n)]);
        assert(d.skip(1) =~= Seq::<char>::empty());
        assert(!has_value(d.skip(1)));
    } else {
        let head = text::decimal_of(n / 10);
        lemma_value_of_decimal(n / 10);
        text::lemma_decimal(n / 10);
        lemma_value_stays(head, text::digit_char(n % 10));
    }
}

proof fn lemma_value_stays(s: Seq<char>, c: char)
    requires
        has_value(s),
    ensures
        has_value(s.push(c)),
    decreases s.len(),
{
    let t = s.push(c);
    assert(t[0] == s[0]);
    if !('1' <= s[0] && s[0] <= '9') {
        lemma_value_stays(s.skip(1), c);
        assert(t.skip(1) =~= s.skip(1).push(c));
    }
}

/// The screen in a document of screens.
pub open spec fn screen_in(document: Tree) -> Option<(Seq<char>, Seq<char>, Seq<char>)> {
    match json::field_of(document, "outputs"@) {
        Some(Tree::List(outputs)) => screen_of(outputs),
        _ => None,
    }
}

fn number_text(j: &Json) -> (r: Option<String>)
    ensures
        text::opt_text(r) == number_text_of(j@),
{
    match j {
        Json::UInt(n) => Some(decimal_u64(*n)),
        Json::Int(n) => Some(decimal_i64(*n)),
        Json::Float(f) => Some(f.text()),
        _ => None,
    }
}

fn positive(s: &str) -> (r: bool)
    ensures
        r == above_zero(s@),
{
    let chars = chars_of(s);
    if chars.len() == 0 || chars[0] == '-' {
        return false;
    }
    let mut i: usize = 0;
    assert(s@.skip(0) =~= s@);
    while i < chars.len()
        invariant
            i <= chars@.len(),
            chars@ == s@,
            s@.len() > 0 && s@[0] != '-',
            has_value(s@) == has_value(s@.skip(i as int)),
        decreases chars.len() - i,
    {
        assert(s@.skip(i as int)[0] == s@[i as int]);
        assert(s@.skip(i as int).skip(1) =~= s@.skip(i + 1));
        let c = chars[i];
        if c == 'e' || c == 'E' {
            return false;
        }
        if '1' <= c && c <= '9' {
            return true;
        }
        i = i + 1;
    }
    false
}

fn scale(output: &Json) -> (r: String)
    ensures
        r@ == scale_of(output@),
{
    match output.get("scale") {
        Some(s) => match number_text(s) {
            Some(t) => t,
            None => "1".to_owned(),
        },
        None => "1".to_owned(),
    }
}

fn size(mode: &Json) -> (r: Option<(String, String)>)
    ensures
        match r {
            Some((w, h)) => size_of(mode@) == Some((w@, h@)),
            None => size_of(mode@) is None,
        },
{
    match mode.get("size") {
        Some(size) => match (size.get("width"), size.get("height")) {
            (Some(w), Some(h)) => match (number_text(w), number_text(h)) {
                (Some(a), Some(b)) => Some((a, b)),
                _ => None,
            },
            _ => None,
        },
        None => None,
    }
}

fn find_mode<'a>(modes: &'a Vec<Json>, id: &str) -> (r: Option<&'a Json>)
    ensures
        match r {
            Some(m) => mode_in(json::trees(modes@), id@) == Some(m@),
            None => mode_in(json::trees(modes@), id@) is None,
        },
{
    let ghost all = json::trees(modes@);
    let mut i: usize = 0;
    assert(all.skip(0) =~= all);
    while i < modes.len()
        invariant
            i <= modes@.len(),
            all == json::trees(modes@),
            mode_in(all, id@) == mode_in(all.skip(i as int), id@),
        decreases modes.len() - i,
    {
        assert(all.skip(i as int)[0] == modes@[i as int]@);
        assert(all.skip(i as int).skip(1) =~= all.skip(i + 1));
        if same_opt(modes[i].text_field("id"), Some(id)) {
            return Some(&modes[i]);
        }
        i = i + 1;
    }
    None
}

/// The screen in what was printed: nothing where nothing was, or where that is no
/// document.
pub open spec fn screen_printed_of(printed: Option<Seq<u8>>) -> Option<
    (Seq<char>, Seq<char>, Seq<char>),
> {
    match printed {
        Some(bytes) if vstd::utf8::valid_utf8(bytes) => match json::document_of(
            vstd::utf8::decode_utf8(bytes),
        ) {
            Some(document) => screen_in(document),
            None => None,
        },
        _ => None,
    }
}

/// The screen in what was printed: its width, its height and how much it is
/// enlarged, as texts.
pub fn screen_printed(printed: Option<&[u8]>) -> (r: Option<(String, String, String)>)
    ensures
        screen_printed_of(
            match printed {
                Some(bytes) => Some(bytes@),
                None => None,
            },
        ) == match r {
            Some((w, h, s)) => Some((w@, h@, s@)),
            None => None,
        },
{
    let bytes = match printed {
        Some(b) => b,
        None => {
            return None;
        },
    };
    match utf8_text(bytes) {
        Some(said) => match json::read(said.as_str()) {
            Some(document) => screen(&document),
            None => None,
        },
        None => None,
    }
}

/// The screen in a document of screens: its width, its height and how much it is
/// enlarged, as texts.
pub fn screen(document: &Json) -> (r: Option<(String, String, String)>)
    ensures
        match r {
            Some((w, h, s)) => screen_in(document@) == Some((w@, h@, s@)),
            None => screen_in(document@) is None,
        },
{
    let outputs = match document.get("outputs") {
        Some(Json::List(v)) => v,
        _ => {
            return None;
        },
    };
    let ghost all = json::trees(outputs@);
    assert(Json::List(*outputs)@->List_0 =~= all);
    let mut i: usize = 0;
    assert(all.skip(0) =~= all);
    while i < outputs.len()
        invariant
            i <= outputs@.len(),
            all == json::trees(outputs@),
            screen_in(document@) == screen_of(all),
            screen_of(all) == screen_of(all.skip(i as int)),
        decreases outputs.len() - i,
    {
        let o = &outputs[i];
        assert(all.skip(i as int)[0] == o@);
        assert(all.skip(i as int).skip(1) =~= all.skip(i + 1));
        let on = match o.get("enabled") {
            Some(e) => match e.as_bool() {
                Some(b) => b,
                None => false,
            },
            None => false,
        };
        let s = scale(o);
        if on && positive(s.as_str()) {
            let id = match o.text_field("currentModeId") {
                Some(id) => id,
                None => {
                    return None;
                },
            };
            let modes = match o.get("modes") {
                Some(Json::List(v)) => v,
                _ => {
                    return None;
                },
            };
            assert(Json::List(*modes)@->List_0 =~= json::trees(modes@));
            if let Some(mode) = find_mode(modes, id) {
                return match size(mode) {
                    Some((w, h)) => Some((w, h, s)),
                    None => None,
                };
            }
        }
        i = i + 1;
    }
    None
}

} // verus!
