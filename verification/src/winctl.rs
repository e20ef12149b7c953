//! Scripts for the window manager, what it says of windows, and typing.

use crate::text;
use crate::text::{
    cat, cat3, chars_of, contains, decimal_i64, find, is_digit, lines, parse_i32, split, string_of,
    trimmed, words,
};
use vstd::prelude::*;
use vstd::slice::slice_subrange;

verus! {

/// The class of this program's windows.
pub const RESOURCE_CLASS: &'static str = "health-widget";

/// The title of the window that shows clippings.
pub const CLIP_CAPTION: &'static str = "hw-clip";

/// A script for the window manager, and the word that its file is named with.
#[derive(Debug, PartialEq)]
pub struct Script {
    pub tag: String,
    pub body: String,
}

/// The beginning of a script that goes through all windows.
pub open spec fn loop_head() -> Seq<char> {
    "var l = workspace.windowList ? workspace.windowList() : workspace.clientList();\nfor (var i = 0; i < l.length; i++) { var w = l[i];\nif (w && w.resourceClass && String(w.resourceClass) === \""@
        + RESOURCE_CLASS@
}

/// A script that does `inner` with the main window.
pub open spec fn for_our_window_of(inner: Seq<char>) -> Seq<char> {
    loop_head() + "\" && String(w.caption) !== \""@ + CLIP_CAPTION@ + "\") { "@ + inner
        + " } }\n"@
}

/// A script that does `inner` with the window of clippings.
pub open spec fn for_clip_window_of(inner: Seq<char>) -> Seq<char> {
    loop_head() + "\" && String(w.caption) === \""@ + CLIP_CAPTION@ + "\") { "@ + inner
        + " } }\n"@
}

fn head() -> (r: String)
    ensures
        r@ == loop_head(),
{
    cat(
        "var l = workspace.windowList ? workspace.windowList() : workspace.clientList();\nfor (var i = 0; i < l.length; i++) { var w = l[i];\nif (w && w.resourceClass && String(w.resourceClass) === \"",
        RESOURCE_CLASS,
    )
}

/// A script that does `inner` with the main window.
pub fn for_our_window(inner: &str) -> (r: String)
    ensures
        r@ == for_our_window_of(inner@),
{
    let mut s = head();
    s.append("\" && String(w.caption) !== \"");
    s.append(CLIP_CAPTION);
    s.append("\") { ");
    s.append(inner);
    s.append(" } }\n");
    s
}

/// A script that does `inner` with the window of clippings.
pub fn for_clip_window(inner: &str) -> (r: String)
    ensures
        r@ == for_clip_window_of(inner@),
{
    let mut s = head();
    s.append("\" && String(w.caption) === \"");
    s.append(CLIP_CAPTION);
    s.append("\") { ");
    s.append(inner);
    s.append(" } }\n");
    s
}

/// The script that puts the window of clippings at a place.
pub open spec fn clip_position_of(x: int, y: int) -> Seq<char> {
    for_clip_window_of(
        "w.keepAbove = true; var g = w.frameGeometry; w.frameGeometry = { x: "@
            + text::decimal_int_of(x) + ", y: "@ + text::decimal_int_of(y)
            + ", width: g.width, height: g.height }; var g2 = w.frameGeometry; print(\"HWC-GEOM \" + Math.round(g2.x) + \" \" + Math.round(g2.y));"@,
    )
}

/// The script that keeps the main window above others, or not.
pub open spec fn keep_above_of(on: bool) -> Seq<char> {
    for_our_window_of(
        "w.keepAbove = "@ + (if on {
            "true"@
        } else {
            "false"@
        }) + ";"@,
    )
}

/// The script that puts the main window at a place.
pub open spec fn position_of(x: int, y: int) -> Seq<char> {
    for_our_window_of(
        "var g = w.frameGeometry; w.frameGeometry = { x: "@ + text::decimal_int_of(x) + ", y: "@
            + text::decimal_int_of(y) + report(),
    )
}

/// The script that moves the main window.
pub open spec fn move_of(dx: int, dy: int) -> Seq<char> {
    for_our_window_of(
        "var g = w.frameGeometry; w.frameGeometry = { x: g.x + "@ + text::decimal_int_of(dx)
            + ", y: g.y + "@ + text::decimal_int_of(dy) + report(),
    )
}

/// A script moves the window that it is for, and no other: the main one is the
/// one that does not have the title of the window of clippings. It sets the
/// column to the first number and the row to the second, or adds them to what
/// they are.
pub proof fn scripts_name_their_window_and_place(x: int, y: int)
    ensures
        text::contains_of(
            position_of(x, y),
            "\" && String(w.caption) !== \""@ + "hw-clip"@ + "\") { "@
                + "var g = w.frameGeometry; w.frameGeometry = { x: "@ + text::decimal_int_of(x)
                + ", y: "@ + text::decimal_int_of(y) + report(),
        ),
        text::contains_of(
            move_of(x, y),
            "\" && String(w.caption) !== \""@ + "hw-clip"@ + "\") { "@
                + "var g = w.frameGeometry; w.frameGeometry = { x: g.x + "@ + text::decimal_int_of(x)
                + ", y: g.y + "@ + text::decimal_int_of(y) + report(),
        ),
        text::contains_of(
            clip_position_of(x, y),
            "\" && String(w.caption) === \""@ + "hw-clip"@ + "\") { "@
                + "w.keepAbove = true; var g = w.frameGeometry; w.frameGeometry = { x: "@
                + text::decimal_int_of(x) + ", y: "@ + text::decimal_int_of(y),
        ),
        text::contains_of(
            keep_above_of(true),
            "\" && String(w.caption) !== \""@ + "hw-clip"@ + "\") { "@ + "w.keepAbove = "@
                + "true"@ + ";"@,
        ),
        text::contains_of(
            keep_above_of(false),
            "\" && String(w.caption) !== \""@ + "hw-clip"@ + "\") { "@ + "w.keepAbove = "@
                + "false"@ + ";"@,
        ),
{
    let end = " } }\n"@;
    let main = "\" && String(w.caption) !== \""@ + "hw-clip"@ + "\") { "@;
    let clip = "\" && String(w.caption) === \""@ + "hw-clip"@ + "\") { "@;
    let a = main + "var g = w.frameGeometry; w.frameGeometry = { x: "@ + text::decimal_int_of(x)
        + ", y: "@ + text::decimal_int_of(y) + report();
    text::parts_are_found(loop_head(), a, end);
    assert(position_of(x, y) =~= loop_head() + a + end);
    let b = main + "var g = w.frameGeometry; w.frameGeometry = { x: g.x + "@
        + text::decimal_int_of(x) + ", y: g.y + "@ + text::decimal_int_of(y) + report();
    text::parts_are_found(loop_head(), b, end);
    assert(move_of(x, y) =~= loop_head() + b + end);
    let c = clip + "w.keepAbove = true; var g = w.frameGeometry; w.frameGeometry = { x: "@
        + text::decimal_int_of(x) + ", y: "@ + text::decimal_int_of(y);
    let rest = ", width: g.width, height: g.height }; var g2 = w.frameGeometry; print(\"HWC-GEOM \" + Math.round(g2.x) + \" \" + Math.round(g2.y));"@
        + end;
    text::parts_are_found(loop_head(), c, rest);
    assert(clip_position_of(x, y) =~= loop_head() + c + rest);
    let d = main + "w.keepAbove = "@ + "true"@ + ";"@;
    text::parts_are_found(loop_head(), d, end);
    assert(keep_above_of(true) =~= loop_head() + d + end);
    let e = main + "w.keepAbove = "@ + "false"@ + ";"@;
    text::parts_are_found(loop_head(), e, end);
    assert(keep_above_of(false) =~= loop_head() + e + end);
}

/// The script that puts the window of clippings at a place, above others, and
/// says where it is.
pub fn set_clip_position(x: i32, y: i32) -> (r: Script)
    ensures
        r.tag@ == "clipmove"@,
        r.body@ == clip_position_of(x as int, y as int),
{
    let mut s = cat(
        "w.keepAbove = true; var g = w.frameGeometry; w.frameGeometry = { x: ",
        decimal_i64(x as i64).as_str(),
    );
    s.append(", y: ");
    s.append(decimal_i64(y as i64).as_str());
    s.append(
        ", width: g.width, height: g.height }; var g2 = w.frameGeometry; print(\"HWC-GEOM \" + Math.round(g2.x) + \" \" + Math.round(g2.y));",
    );
    Script { tag: "clipmove".to_owned(), body: for_clip_window(s.as_str()) }
}

/// The script that keeps the main window above others, or not.
pub fn set_keep_above(on: bool) -> (r: Script)
    ensures
        r.tag@ == "keepabove"@,
        r.body@ == keep_above_of(on),
{
    let s = cat3(
        "w.keepAbove = ",
        if on {
            "true"
        } else {
            "false"
        },
        ";",
    );
    Script { tag: "keepabove".to_owned(), body: for_our_window(s.as_str()) }
}

/// What the scripts that move the main window end with: it says where it is.
pub open spec fn report() -> Seq<char> {
    ", width: g.width, height: g.height }; var g2 = w.frameGeometry; print(\"HW-GEOM x=\" + Math.round(g2.x) + \" y=\" + Math.round(g2.y));"@
}

/// The script that puts the main window at a place.
pub fn set_position(x: i32, y: i32) -> (r: Script)
    ensures
        r.tag@ == "move"@,
        r.body@ == position_of(x as int, y as int),
{
    let mut s = cat(
        "var g = w.frameGeometry; w.frameGeometry = { x: ",
        decimal_i64(x as i64).as_str(),
    );
    s.append(", y: ");
    s.append(decimal_i64(y as i64).as_str());
    s.append(
        ", width: g.width, height: g.height }; var g2 = w.frameGeometry; print(\"HW-GEOM x=\" + Math.round(g2.x) + \" y=\" + Math.round(g2.y));",
    );
    Script { tag: "move".to_owned(), body: for_our_window(s.as_str()) }
}

/// The script that moves the main window.
pub fn move_by(dx: i32, dy: i32) -> (r: Script)
    ensures
        r.tag@ == "moveby"@,
        r.body@ == move_of(dx as int, dy as int),
{
    let mut s = cat(
        "var g = w.frameGeometry; w.frameGeometry = { x: g.x + ",
        decimal_i64(dx as i64).as_str(),
    );
    s.append(", y: g.y + ");
    s.append(decimal_i64(dy as i64).as_str());
    s.append(
        ", width: g.width, height: g.height }; var g2 = w.frameGeometry; print(\"HW-GEOM x=\" + Math.round(g2.x) + \" y=\" + Math.round(g2.y));",
    );
    Script { tag: "moveby".to_owned(), body: for_our_window(s.as_str()) }
}

/// The script that says where the middle of the main window is, as parts of the
/// screen.
pub fn widget_center_script() -> (r: Script)
    ensures
        r.tag@ == "wnorm"@,
        r.body@ == "var s = workspace.virtualScreenSize;\n"@ + loop_head()
            + "\" && String(w.caption) !== \""@ + CLIP_CAPTION@
            + "\") {\nvar g = w.frameGeometry;\nprint(\"HW-WNORM \" + ((g.x + g.width / 2) / s.width) + \" \" + ((g.y + g.height / 2) / s.height)); } }\n"@,
{
    let mut s = cat("var s = workspace.virtualScreenSize;\n", head().as_str());
    s.append("\" && String(w.caption) !== \"");
    s.append(CLIP_CAPTION);
    s.append(
        "\") {\nvar g = w.frameGeometry;\nprint(\"HW-WNORM \" + ((g.x + g.width / 2) / s.width) + \" \" + ((g.y + g.height / 2) / s.height)); } }\n",
    );
    Script { tag: "wnorm".to_owned(), body: s }
}

/// The script that says where the cursor is, as parts of the screen.
pub fn cursor_script() -> (r: Script)
    ensures
        r.tag@ == "cnorm"@,
        r.body@
            == "var s = workspace.virtualScreenSize; print(\"HW-CNORM \" + (workspace.cursorPos.x / s.width) + \" \" + (workspace.cursorPos.y / s.height));"@,
{
    Script {
        tag: "cnorm".to_owned(),
        body: "var s = workspace.virtualScreenSize; print(\"HW-CNORM \" + (workspace.cursorPos.x / s.width) + \" \" + (workspace.cursorPos.y / s.height));".to_owned(),
    }
}

/// The object of a script that was loaded under the number that was said.
pub open spec fn script_object_of(said: Seq<char>) -> Option<Seq<char>> {
    if text::parse_signed_of(text::trim_of(said), i32::MIN as int, i32::MAX as int) is Some {
        Some("/Scripting/Script"@ + text::trim_of(said))
    } else {
        None
    }
}

/// The object of a script that was loaded under the number that was said.
pub fn script_object(said: &str) -> (r: Option<String>)
    ensures
        text::opt_text(r) == script_object_of(said@),
{
    let id = trimmed(said);
    match parse_i32(chars_of(id.as_str()).as_slice()) {
        Some(_) => Some(cat("/Scripting/Script", id.as_str())),
        None => None,
    }
}

// ---------------------------------------------------------------------------
// Where windows are
// ---------------------------------------------------------------------------

/// Where a window is.
#[derive(Debug, Clone, Copy, PartialEq, Eq)]
pub enum GeomEvent {
    Main(i32, i32),
    Clip(i32, i32),
}

/// How many characters at the beginning are digits or minus signs.
pub open spec fn number_len(s: Seq<char>) -> nat
    decreases s.len(),
{
    if s.len() > 0 && (text::is_digit_of(s[0]) || s[0] == '-') {
        1 + number_len(s.skip(1))
    } else {
        0
    }
}

/// The number behind the first place where `key` stands.
pub open spec fn parse_field_of(line: Seq<char>, key: Seq<char>) -> Option<int> {
    match text::find_of(line, key) {
        Some(i) => {
            let rest = line.skip(i + key.len());
            text::parse_signed_of(
                rest.take(number_len(rest) as int),
                i32::MIN as int,
                i32::MAX as int,
            )
        },
        None => None,
    }
}

/// The number behind the first place where `key` stands.
pub fn parse_field(line: &str, key: &str) -> (r: Option<i32>)
    ensures
        match r {
            Some(n) => parse_field_of(line@, key@) == Some(n as int),
            None => parse_field_of(line@, key@) is None,
        },
{
    let chars = chars_of(line);
    let name = chars_of(key);
    match find(chars.as_slice(), name.as_slice()) {
        Some(i) => {
            let rest = slice_subrange(chars.as_slice(), i + name.len(), chars.len());
            assert(rest@ =~= line@.skip(i + key@.len()));
            let mut n: usize = 0;
            assert(rest@.skip(0) =~= rest@);
            while n < rest.len() && (is_digit(rest[n]) || rest[n] == '-')
                invariant
                    n <= rest@.len(),
                    number_len(rest@) == n + number_len(rest@.skip(n as int)),
                decreases rest.len() - n,
            {
                assert(rest@.skip(n as int)[0] == rest@[n as int]);
                assert(rest@.skip(n as int).skip(1) =~= rest@.skip(n + 1));
                n = n + 1;
            }
            proof {
                if n < rest@.len() {
                    assert(rest@.skip(n as int)[0] == rest@[n as int]);
                }
                assert(number_len(rest@.skip(n as int)) == 0);
            }
            let token = slice_subrange(rest, 0, n);
            assert(token@ =~= rest@.take(n as int));
            parse_i32(token)
        },
        None => None,
    }
}

/// The two numbers that stand behind the first place where `mark` stands, as
/// words.
pub open spec fn two_words_of(line: Seq<char>, mark: Seq<char>) -> Option<(Seq<char>, Seq<char>)> {
    match text::find_of(line, mark) {
        Some(i) => {
            let ws = text::words_of(line.skip(i + mark.len()));
            if ws.len() >= 2 {
                Some((ws[0], ws[1]))
            } else {
                None
            }
        },
        None => None,
    }
}

fn two_words(line: &[char], mark: &[char]) -> (r: Option<(Vec<char>, Vec<char>)>)
    ensures
        match r {
            Some((a, b)) => two_words_of(line@, mark@) == Some((a@, b@)),
            None => two_words_of(line@, mark@) is None,
        },
{
    match find(line, mark) {
        Some(i) => {
            let rest = slice_subrange(line, i + mark.len(), line.len());
            assert(rest@ =~= line@.skip(i + mark@.len()));
            let ws = words(rest);
            if ws.len() >= 2 {
                assert(text::views(ws@)[0] == ws@[0]@ && text::views(ws@)[1] == ws@[1]@);
                let a = string_of(ws[0]);
                let b = string_of(ws[1]);
                Some((chars_of(a.as_str()), chars_of(b.as_str())))
            } else {
                None
            }
        },
        None => None,
    }
}

pub open spec fn i32_of(s: Seq<char>) -> Option<int> {
    text::parse_signed_of(s, i32::MIN as int, i32::MAX as int)
}

/// Where a window is, in a line of the journal.
pub open spec fn parse_geom_of(line: Seq<char>) -> Option<GeomEvent> {
    if text::contains_of(line, "HWC-GEOM "@) {
        match two_words_of(line, "HWC-GEOM "@) {
            Some((a, b)) => match (i32_of(a), i32_of(b)) {
                (Some(x), Some(y)) => Some(GeomEvent::Clip(x as i32, y as i32)),
                _ => None,
            },
            None => None,
        }
    } else {
        match text::find_of(line, "HW-GEOM "@) {
            Some(i) => match (
                parse_field_of(line.skip(i), "x="@),
                parse_field_of(line.skip(i), "y="@),
            ) {
                (Some(x), Some(y)) => Some(GeomEvent::Main(x as i32, y as i32)),
                _ => None,
            },
            None => None,
        }
    }
}

/// Where a window is, in a line of the journal.
pub fn parse_geom_line(line: &str) -> (r: Option<GeomEvent>)
    ensures
        r == parse_geom_of(line@),
{
    let chars = chars_of(line);
    let clip = chars_of("HWC-GEOM ");
    let main = chars_of("HW-GEOM ");
    if contains(chars.as_slice(), clip.as_slice()) {
        return match two_words(chars.as_slice(), clip.as_slice()) {
            Some((a, b)) => match parse_i32(a.as_slice()) {
                Some(x) => match parse_i32(b.as_slice()) {
                    Some(y) => Some(GeomEvent::Clip(x, y)),
                    None => None,
                },
                None => None,
            },
            None => None,
        };
    }
    match find(chars.as_slice(), main.as_slice()) {
        Some(i) => {
            let tail = slice_subrange(chars.as_slice(), i, chars.len());
            assert(tail@ =~= line@.skip(i as int));
            let rest = string_of(tail);
            match parse_field(rest.as_str(), "x=") {
                Some(x) => match parse_field(rest.as_str(), "y=") {
                    Some(y) => Some(GeomEvent::Main(x, y)),
                    None => None,
                },
                None => None,
            }
        },
        None => None,
    }
}

/// A character that a number is written with.
pub open spec fn of_number(c: char) -> bool {
    text::is_digit_of(c) || c == '-'
}

proof fn lemma_number(n: int)
    ensures
        text::decimal_int_of(n).len() > 0,
        forall|i: int|
            0 <= i < text::decimal_int_of(n).len() ==> of_number(
                #[trigger] text::decimal_int_of(n)[i],
            ),
        text::signed_of(text::decimal_int_of(n)) == Some(n),
{
    text::decimal_reads_back(n);
    text::lemma_decimal(
        (if n < 0 {
            -n
        } else {
            n
        }) as nat,
    );
}

proof fn lemma_number_len(d: Seq<char>, tail: Seq<char>)
    requires
        forall|i: int| 0 <= i < d.len() ==> of_number(#[trigger] d[i]),
        tail.len() > 0 ==> !of_number(tail[0]),
    ensures
        number_len(d + tail) == d.len(),
    decreases d.len(),
{
    if d.len() == 0 {
        assert(d + tail =~= tail);
    } else {
        assert((d + tail)[0] == d[0]);
        assert((d + tail).skip(1) =~= d.skip(1) + tail);
        assert forall|i: int| 0 <= i < d.skip(1).len() implies of_number(
            #[trigger] d.skip(1)[i],
        ) by {
            assert(d.skip(1)[i] == d[i + 1]);
        }
        lemma_number_len(d.skip(1), tail);
    }
}

/// A text stands first where its first character does.
proof fn lemma_first(h: Seq<char>, n: Seq<char>, i: int)
    requires
        n.len() > 0,
        text::occurs_at(h, n, i),
        forall|j: int| 0 <= j < i ==> #[trigger] h[j] != n[0],
    ensures
        text::find_of(h, n) == Some(i),
{
    text::lemma_find_from(h, n, 0);
    assert forall|j: int| 0 <= j < i implies !#[trigger] text::occurs_at(h, n, j) by {
        if text::occurs_at(h, n, j) {
            assert(h.subrange(j, j + n.len())[0] == h[j]);
        }
    }
}

/// A mark that begins with `H` and holds no other stands first behind a text
/// that does not hold it.
proof fn lemma_marked(before: Seq<char>, line: Seq<char>, mark: Seq<char>)
    requires
        mark.len() > 0,
        mark[0] == 'H',
        forall|i: int| 0 < i < mark.len() ==> #[trigger] mark[i] != 'H',
        line.len() > 0,
        line[0] == 'H',
        !text::contains_of(before, mark),
    ensures
        forall|j: int|
            0 <= j < before.len() ==> !#[trigger] text::occurs_at(before + line, mark, j),
        text::starts_of(line, mark) ==> text::find_of(before + line, mark) == Some(
            before.len() as int,
        ),
{
    let all = before + line;
    let b = before.len() as int;
    text::lemma_find_from(before, mark, 0);
    text::lemma_find_from(all, mark, 0);
    assert forall|j: int| 0 <= j < b implies !#[trigger] text::occurs_at(all, mark, j) by {
        if text::occurs_at(all, mark, j) {
            let here = all.subrange(j, j + mark.len());
            if j + mark.len() <= b {
                assert(before.subrange(j, j + mark.len()) =~= here);
                assert(text::occurs_at(before, mark, j));
            } else {
                assert(here[b - j] == all[b]);
                assert(mark[b - j] == 'H');
            }
        }
    }
    if text::starts_of(line, mark) {
        assert(all.subrange(b, b + mark.len()) =~= line.subrange(0, mark.len() as int));
        assert(text::occurs_at(all, mark, b));
    }
}

/// What the scripts print of the main window.
pub open spec fn main_line(x: int, y: int) -> Seq<char> {
    "HW-GEOM x="@ + text::decimal_int_of(x) + " y="@ + text::decimal_int_of(y)
}

/// What the script prints of the window of clippings.
pub open spec fn clip_line(x: int, y: int) -> Seq<char> {
    "HWC-GEOM "@ + text::decimal_int_of(x) + " "@ + text::decimal_int_of(y)
}

/// A number is read behind its key where the key's first character does not
/// stand before.
proof fn lemma_field(head: Seq<char>, key: Seq<char>, n: i32, tail: Seq<char>)
    requires
        key.len() > 0,
        forall|j: int| 0 <= j < head.len() ==> #[trigger] head[j] != key[0],
        tail.len() > 0 ==> !of_number(tail[0]),
    ensures
        parse_field_of(head + key + text::decimal_int_of(n as int) + tail, key) == Some(n as int),
{
    let d = text::decimal_int_of(n as int);
    let line = head + key + d + tail;
    let at = head.len() as int;
    lemma_number(n as int);
    assert(line.subrange(at, at + key.len()) =~= key);
    assert forall|j: int| 0 <= j < at implies #[trigger] line[j] != key[0] by {
        assert(line[j] == head[j]);
    }
    lemma_first(line, key, at);
    assert(line.skip(at + key.len()) =~= d + tail);
    lemma_number_len(d, tail);
    assert((d + tail).take(d.len() as int) =~= d);
}

proof fn lemma_main_line(x: i32, y: i32)
    ensures
        ({
            let line = main_line(x as int, y as int);
            &&& line.len() > 8
            &&& text::starts_of(line, "HW-GEOM "@)
            &&& line[0] == 'H'
            &&& line[2] == '-'
            &&& forall|j: int| 0 < j < line.len() ==> #[trigger] line[j] != 'H'
            &&& parse_field_of(line, "x="@) == Some(x as int)
            &&& parse_field_of(line, "y="@) == Some(y as int)
        }),
{
    let dx = text::decimal_int_of(x as int);
    let dy = text::decimal_int_of(y as int);
    let line = main_line(x as int, y as int);
    lemma_number(x as int);
    lemma_number(y as int);
    reveal_strlit("HW-GEOM x=");
    reveal_strlit("HW-GEOM ");
    reveal_strlit(" y=");
    reveal_strlit("x=");
    reveal_strlit("y=");
    let n = dx.len() as int;
    assert(line.len() == 10 + n + 3 + dy.len());
    assert forall|j: int| 10 <= j < 10 + n implies #[trigger] line[j] == dx[j - 10] by {}
    assert forall|j: int| 13 + n <= j < line.len() implies #[trigger] line[j] == dy[j - 13 - n] by {}
    assert forall|j: int| 0 < j < line.len() implies #[trigger] line[j] != 'H' by {
        if 10 <= j < 10 + n {
            assert(of_number(dx[j - 10]));
        } else if j >= 13 + n {
            assert(of_number(dy[j - 13 - n]));
        }
    }
    assert(line.subrange(0, 8) =~= "HW-GEOM "@);
    let none = Seq::<char>::empty();
    assert(line =~= "HW-GEOM "@ + "x="@ + dx + (" y="@ + dy));
    lemma_field("HW-GEOM "@, "x="@, x, " y="@ + dy);
    let head = "HW-GEOM x="@ + dx + seq![' '];
    assert(line =~= head + "y="@ + dy + none);
    assert forall|j: int| 0 <= j < head.len() implies #[trigger] head[j] != 'y' by {
        if 10 <= j < 10 + n {
            assert(of_number(dx[j - 10]));
        }
    }
    lemma_field(head, "y="@, y, none);
}

/// The place of the main window that a script prints is read back behind any
/// text that does not hold one of the two marks.
pub proof fn main_place_reads_back(before: Seq<char>, x: i32, y: i32)
    requires
        !text::contains_of(before, "HW-GEOM "@),
        !text::contains_of(before, "HWC-GEOM "@),
    ensures
        parse_geom_of(before + main_line(x as int, y as int)) == Some(GeomEvent::Main(x, y)),
{
    let line = main_line(x as int, y as int);
    let all = before + line;
    let b = before.len() as int;
    let other = "HWC-GEOM "@;
    lemma_main_line(x, y);
    reveal_strlit("HW-GEOM ");
    reveal_strlit("HWC-GEOM ");
    text::lemma_find_from(all, other, 0);
    lemma_marked(before, line, other);
    assert forall|j: int| 0 <= j implies !#[trigger] text::occurs_at(all, other, j) by {
        if j >= b && text::occurs_at(all, other, j) {
            let here = all.subrange(j, j + 9);
            assert(here[0] == line[j - b]);
            assert(here[2] == line[j + 2 - b]);
        }
    }
    lemma_marked(before, line, "HW-GEOM "@);
    assert(all.skip(b) =~= line);
}

proof fn lemma_word_goes_on(s: Seq<char>, t: Seq<char>)
    requires
        forall|i: int| 0 <= i < t.len() ==> !text::is_space_of(#[trigger] t[i]),
    ensures
        text::words_run(s + t) == (text::words_run(s).0, text::words_run(s).1 + t),
    decreases t.len(),
{
    if t.len() == 0 {
        assert(s + t =~= s);
        assert(text::words_run(s).1 + t =~= text::words_run(s).1);
    } else {
        assert forall|i: int| 0 <= i < t.drop_last().len() implies !text::is_space_of(
            #[trigger] t.drop_last()[i],
        ) by {
            assert(t.drop_last()[i] == t[i]);
        }
        lemma_word_goes_on(s, t.drop_last());
        assert((s + t).drop_last() =~= s + t.drop_last());
        assert(!text::is_space_of(t[t.len() - 1]));
        assert((text::words_run(s).1 + t.drop_last()).push(t.last()) =~= text::words_run(s).1 + t);
    }
}

/// The place of the window of clippings that a script prints is read back behind
/// any text that does not hold its mark.
pub proof fn clip_place_reads_back(before: Seq<char>, x: i32, y: i32)
    requires
        !text::contains_of(before, "HWC-GEOM "@),
    ensures
        parse_geom_of(before + clip_line(x as int, y as int)) == Some(GeomEvent::Clip(x, y)),
{
    let dx = text::decimal_int_of(x as int);
    let dy = text::decimal_int_of(y as int);
    let line = before + clip_line(x as int, y as int);
    lemma_number(x as int);
    lemma_number(y as int);
    reveal_strlit("HWC-GEOM ");
    reveal_strlit(" ");
    let b = before.len() as int;
    let printed = clip_line(x as int, y as int);
    assert(printed.subrange(0, 9) =~= "HWC-GEOM "@);
    lemma_marked(before, printed, "HWC-GEOM "@);
    let rest = line.skip(b + 9);
    let nothing = Seq::<char>::empty();
    assert(rest =~= (nothing + dx) + " "@ + dy);
    assert forall|i: int| 0 <= i < dx.len() implies !text::is_space_of(#[trigger] dx[i]) by {
        assert(of_number(dx[i]));
    }
    assert forall|i: int| 0 <= i < dy.len() implies !text::is_space_of(#[trigger] dy[i]) by {
        assert(of_number(dy[i]));
    }
    lemma_word_goes_on(nothing, dx);
    let first = (nothing + dx) + " "@;
    assert(first.drop_last() =~= nothing + dx);
    assert(nothing + dx =~= dx);
    assert(text::words_run(first) == (seq![dx], nothing)) by {
        assert(text::is_space_of(' '));
        assert(Seq::<Seq<char>>::empty().push(dx) =~= seq![dx]);
    }
    lemma_word_goes_on(first, dy);
    assert(nothing + dy =~= dy);
    assert(text::words_of(rest) =~= seq![dx, dy]);
}

/// The last of the lines that holds `mark`.
pub open spec fn last_with(ls: Seq<Seq<char>>, mark: Seq<char>) -> Option<Seq<char>>
    decreases ls.len(),
{
    if ls.len() == 0 {
        None
    } else if text::contains_of(ls.last(), mark) {
        Some(ls.last())
    } else {
        last_with(ls.drop_last(), mark)
    }
}

/// The last line that holds the mark counts, whatever stands before it, and
/// whatever other lines stand behind it.
pub proof fn last_mark_counts(ls: Seq<Seq<char>>, line: Seq<char>, mark: Seq<char>)
    ensures
        text::contains_of(line, mark) ==> last_with(ls.push(line), mark) == Some(line),
        !text::contains_of(line, mark) ==> last_with(ls.push(line), mark) == last_with(ls, mark),
        last_with(Seq::empty(), mark) is None,
{
    assert(ls.push(line).drop_last() =~= ls);
}

/// The two words behind `mark` in the last line of the journal that holds it.
pub open spec fn marked_of(journal: Seq<char>, mark: Seq<char>) -> Option<(Seq<char>, Seq<char>)> {
    match last_with(text::lines_of(journal), mark) {
        Some(line) => two_words_of(line, mark),
        None => None,
    }
}

/// The two words behind `mark` in the last line of the journal that holds it.
pub fn marked_words(journal: &str, mark: &str) -> (r: Option<(String, String)>)
    ensures
        match r {
            Some((a, b)) => marked_of(journal@, mark@) == Some((a@, b@)),
            None => marked_of(journal@, mark@) is None,
        },
{
    let chars = chars_of(journal);
    let sign = chars_of(mark);
    let ls = lines(chars.as_slice());
    let ghost all = text::lines_of(journal@);
    let mut i: usize = ls.len();
    assert(all.take(i as int) =~= all);
    while i > 0
        invariant
            i <= ls@.len(),
            all == text::views(ls@),
            all == text::lines_of(journal@),
            sign@ == mark@,
            last_with(all, mark@) == last_with(all.take(i as int), mark@),
        decreases i,
    {
        assert(all.take(i as int).last() == ls@[i - 1]@);
        assert(all.take(i as int).drop_last() =~= all.take(i - 1));
        if contains(ls[i - 1], sign.as_slice()) {
            return match two_words(ls[i - 1], sign.as_slice()) {
                Some((a, b)) => Some((string_of(a.as_slice()), string_of(b.as_slice()))),
                None => None,
            };
        }
        i = i - 1;
    }
    None
}

// ---------------------------------------------------------------------------
// Typing
// ---------------------------------------------------------------------------

/// What types the lines: each is typed, unless it is empty, and the next one
/// begins with the return key.
pub open spec fn typing_of(ls: Seq<Seq<char>>) -> Seq<char>
    decreases ls.len(),
{
    if ls.len() == 0 {
        Seq::empty()
    } else {
        typing_of(ls.drop_last()) + (if ls.len() > 1 {
            "key enter\n"@
        } else {
            Seq::empty()
        }) + (if ls.last().len() > 0 {
            "type "@ + ls.last() + "\n"@
        } else {
            Seq::empty()
        })
    }
}

/// What the commands in `ls` type.
pub open spec fn typed_by(ls: Seq<Seq<char>>) -> Seq<char>
    decreases ls.len(),
{
    if ls.len() == 0 {
        Seq::empty()
    } else {
        typed_by(ls.drop_last()) + (if ls.last() == "key enter"@ {
            "\n"@
        } else {
            ls.last().skip(5)
        })
    }
}

proof fn lemma_command(s: Seq<char>, done: Seq<Seq<char>>, line: Seq<char>)
    requires
        text::split_of(s, '\n') == done.push(Seq::<char>::empty()),
        !line.contains('\n'),
    ensures
        text::split_of(s + line, '\n') == done.push(line),
        text::split_of(s + line + "\n"@, '\n') == done.push(line).push(Seq::<char>::empty()),
    decreases line.len(),
{
    reveal_strlit("\n");
    if line.len() == 0 {
        assert(s + line =~= s);
        assert(line =~= Seq::<char>::empty());
    } else {
        let init = line.drop_last();
        assert(!init.contains('\n')) by {
            assert forall|i: int| 0 <= i < init.len() implies init[i] != '\n' by {
                assert(line.contains(line[i]));
            }
        }
        lemma_command(s, done, init);
        assert((s + line).drop_last() =~= s + init);
        assert(line.contains(line[line.len() - 1]));
        assert((s + line).last() == line.last());
        assert(done.push(init).drop_last() =~= done);
        assert(init.push(line.last()) =~= line);
    }
    let t = s + line + "\n"@;
    assert(t.drop_last() =~= s + line);
    assert(t.last() == '\n');
}

proof fn lemma_typing(ls: Seq<Seq<char>>) -> (done: Seq<Seq<char>>)
    requires
        forall|i: int| 0 <= i < ls.len() ==> !(#[trigger] ls[i]).contains('\n'),
    ensures
        text::split_of(typing_of(ls), '\n') == done.push(Seq::<char>::empty()),
        typed_by(done) == text::join_of(ls, "\n"@),
    decreases ls.len(),
{
    reveal_strlit("\n");
    reveal_strlit("key enter");
    reveal_strlit("key enter\n");
    reveal_strlit("type ");
    let nothing = Seq::<char>::empty();
    if ls.len() == 0 {
        assert(Seq::<Seq<char>>::empty().push(nothing) =~= seq![nothing]);
        Seq::empty()
    } else {
        let init = ls.drop_last();
        assert forall|i: int| 0 <= i < init.len() implies !(#[trigger] init[i]).contains('\n') by {
            assert(init[i] == ls[i]);
        }
        let before = lemma_typing(init);
        let a = typing_of(init);
        let mid = if ls.len() > 1 {
            before.push("key enter"@)
        } else {
            before
        };
        let b = if ls.len() > 1 {
            a + "key enter\n"@
        } else {
            a
        };
        if ls.len() > 1 {
            assert(!"key enter"@.contains('\n'));
            lemma_command(a, before, "key enter"@);
            assert(a + "key enter"@ + "\n"@ =~= b);
            assert(mid.drop_last() =~= before);
        } else {
            assert(init =~= Seq::empty());
            assert(text::join_of(init, "\n"@) =~= nothing);
        }
        let last = ls.last();
        assert(!ls[ls.len() - 1].contains('\n'));
        assert(typed_by(mid) + last =~= text::join_of(ls, "\n"@));
        if last.len() == 0 {
            assert(typing_of(ls) =~= b);
            assert(typed_by(mid) + last =~= typed_by(mid));
            mid
        } else {
            let line = "type "@ + last;
            assert(!line.contains('\n')) by {
                assert forall|i: int| 0 <= i < line.len() implies line[i] != '\n' by {
                    if i >= 5 {
                        assert(line[i] == last[i - 5]);
                        assert(last.contains(last[i - 5]));
                    }
                }
            }
            lemma_command(b, mid, line);
            assert(typing_of(ls) =~= b + line + "\n"@);
            let done = mid.push(line);
            assert(done.drop_last() =~= mid);
            assert(line[0] == 't');
            assert("key enter"@[0] == 'k');
            assert(line.skip(5) =~= last);
            done
        }
    }
}

/// The commands that type a text type just that text.
pub proof fn what_is_typed_is_the_text(t: Seq<char>)
    ensures
        ({
            let commands = text::split_of(typing_of(text::split_of(t, '\n')), '\n');
            &&& commands.len() > 0
            &&& commands.last().len() == 0
            &&& typed_by(commands.drop_last()) == t
        }),
{
    reveal_strlit("\n");
    text::pieces_are_clean(t, '\n');
    text::split_then_join(t, '\n');
    assert("\n"@ =~= seq!['\n']);
    let done = lemma_typing(text::split_of(t, '\n'));
    assert(done.push(Seq::<char>::empty()).drop_last() =~= done);
}

/// The commands that type a text.
pub fn type_text(t: &str) -> (r: String)
    ensures
        r@ == typing_of(text::split_of(t@, '\n')),
{
    let chars = chars_of(t);
    let ls = split(chars.as_slice(), '\n');
    let ghost all = text::split_of(t@, '\n');
    let mut script = String::new();
    let mut i: usize = 0;
    assert(all.take(0) =~= Seq::empty());
    assert(script@ =~= Seq::empty());
    while i < ls.len()
        invariant
            i <= ls@.len(),
            all == text::views(ls@),
            script@ == typing_of(all.take(i as int)),
        decreases ls.len() - i,
    {
        let ghost was = script@;
        assert(all.take(i + 1).drop_last() =~= all.take(i as int));
        assert(all.take(i + 1).last() == ls@[i as int]@);
        if i > 0 {
            script.append("key enter\n");
        }
        if ls[i].len() > 0 {
            script.append("type ");
            script.append(string_of(ls[i]).as_str());
            script.append("\n");
        }
        assert(script@ =~= typing_of(all.take(i + 1)));
        i = i + 1;
    }
    assert(all.take(all.len() as int) =~= all);
    script
}

} // verus!
