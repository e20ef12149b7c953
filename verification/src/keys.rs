//! Keys by the numbers that the kernel has for them, and typing with them.

use crate::text::chars_of;
use vstd::prelude::*;

verus! {

pub const KEY_1: u16 = 2;

pub const KEY_2: u16 = 3;

pub const KEY_3: u16 = 4;

pub const KEY_4: u16 = 5;

pub const KEY_5: u16 = 6;

pub const KEY_0: u16 = 11;

pub const KEY_TAB: u16 = 15;

pub const KEY_Q: u16 = 16;

pub const KEY_W: u16 = 17;

pub const KEY_E: u16 = 18;

pub const KEY_R: u16 = 19;

pub const KEY_Y: u16 = 21;

pub const KEY_U: u16 = 22;

pub const KEY_LEFTCTRL: u16 = 29;

pub const KEY_A: u16 = 30;

pub const KEY_S: u16 = 31;

pub const KEY_D: u16 = 32;

pub const KEY_F: u16 = 33;

pub const KEY_J: u16 = 36;

pub const KEY_LEFTSHIFT: u16 = 42;

pub const KEY_Z: u16 = 44;

pub const KEY_X: u16 = 45;

pub const KEY_C: u16 = 46;

pub const KEY_LEFTALT: u16 = 56;

pub const KEY_SPACE: u16 = 57;

pub const KEY_CAPSLOCK: u16 = 58;

pub const KEY_UP: u16 = 103;

pub const KEY_LEFT: u16 = 105;

pub const KEY_RIGHT: u16 = 106;

pub const KEY_DOWN: u16 = 108;

pub const KEY_F13: u16 = 183;

pub const KEY_F14: u16 = 184;

pub const KEY_F15: u16 = 185;

pub const KEY_F16: u16 = 186;

pub const KEY_F17: u16 = 187;

pub const KEY_F18: u16 = 188;

pub const KEY_F19: u16 = 189;

pub const KEY_F20: u16 = 190;

pub const KEY_F21: u16 = 191;

pub const KEY_F22: u16 = 192;

pub const KEY_F23: u16 = 193;

pub const KEY_F24: u16 = 194;

pub const REL_WHEEL: u16 = 8;

/// The place of a letter on the keyboard, row by row.
pub open spec fn letter_key_of(c: char) -> Option<u16> {
    match c {
        'q' => Some(16),
        'w' => Some(17),
        'e' => Some(18),
        'r' => Some(19),
        't' => Some(20),
        'y' => Some(21),
        'u' => Some(22),
        'i' => Some(23),
        'o' => Some(24),
        'p' => Some(25),
        'a' => Some(30),
        's' => Some(31),
        'd' => Some(32),
        'f' => Some(33),
        'g' => Some(34),
        'h' => Some(35),
        'j' => Some(36),
        'k' => Some(37),
        'l' => Some(38),
        'z' => Some(44),
        'x' => Some(45),
        'c' => Some(46),
        'v' => Some(47),
        'b' => Some(48),
        'n' => Some(49),
        'm' => Some(50),
        _ => None,
    }
}

/// The key of a small letter, a digit or the space.
pub open spec fn key_of(c: char) -> Option<u16> {
    if '1' <= c && c <= '9' {
        Some((c as int - 47) as u16)
    } else if c == '0' {
        Some(KEY_0)
    } else if c == ' ' {
        Some(KEY_SPACE)
    } else {
        letter_key_of(c)
    }
}

/// The keys of a row stand side by side: the digits from the second key on, the
/// letters of the three rows from the keys of `q`, `a` and `z` on. No two
/// characters share a key.
pub proof fn rows_stand_side_by_side(i: int, a: char, b: char)
    ensures
        0 <= i < 10 ==> key_of("1234567890"@[i]) == Some((2 + i) as u16),
        0 <= i < 10 ==> key_of("qwertyuiop"@[i]) == Some((16 + i) as u16),
        0 <= i < 9 ==> key_of("asdfghjkl"@[i]) == Some((30 + i) as u16),
        0 <= i < 7 ==> key_of("zxcvbnm"@[i]) == Some((44 + i) as u16),
        key_of(' ') == Some(57u16),
        key_of(a) is Some && key_of(a) == key_of(b) ==> a == b,
        key_of(a) is Some ==> a == ' ' || ('a' <= a && a <= 'z') || ('0' <= a && a <= '9'),
{
    reveal_strlit("1234567890");
    reveal_strlit("qwertyuiop");
    reveal_strlit("asdfghjkl");
    reveal_strlit("zxcvbnm");
}

/// The key of a small letter, a digit or the space, and whether it needs the
/// shift key, which none of them does.
pub fn char_to_key(c: char) -> (r: Option<(u16, bool)>)
    ensures
        r == match key_of(c) {
            Some(k) => Some((k, false)),
            None => None,
        },
{
    if '1' <= c && c <= '9' {
        return Some((((c as u32) - 47) as u16, false));
    }
    let k: u16 = match c {
        '0' => KEY_0,
        ' ' => KEY_SPACE,
        'q' => 16,
        'w' => 17,
        'e' => 18,
        'r' => 19,
        't' => 20,
        'y' => 21,
        'u' => 22,
        'i' => 23,
        'o' => 24,
        'p' => 25,
        'a' => 30,
        's' => 31,
        'd' => 32,
        'f' => 33,
        'g' => 34,
        'h' => 35,
        'j' => 36,
        'k' => 37,
        'l' => 38,
        'z' => 44,
        'x' => 45,
        'c' => 46,
        'v' => 47,
        'b' => 48,
        'n' => 49,
        'm' => 50,
        _ => return None,
    };
    Some((k, false))
}

/// The keys of the characters that have one, in their order.
pub open spec fn keys_of(s: Seq<char>) -> Seq<u16>
    decreases s.len(),
{
    if s.len() == 0 {
        Seq::empty()
    } else {
        match key_of(s.last()) {
            Some(k) => keys_of(s.drop_last()).push(k),
            None => keys_of(s.drop_last()),
        }
    }
}

proof fn lemma_keys(s: Seq<char>)
    requires
        forall|i: int| 0 <= i < s.len() ==> key_of(#[trigger] s[i]) is Some,
    ensures
        keys_of(s).len() == s.len(),
        forall|i: int| 0 <= i < s.len() ==> Some(#[trigger] keys_of(s)[i]) == key_of(s[i]),
    decreases s.len(),
{
    if s.len() > 0 {
        assert forall|i: int| 0 <= i < s.drop_last().len() implies key_of(
            #[trigger] s.drop_last()[i],
        ) is Some by {
            assert(s.drop_last()[i] == s[i]);
        }
        assert(key_of(s[s.len() - 1]) is Some);
        lemma_keys(s.drop_last());
    }
}

/// The keys that a text is typed with: those of the letters, the digits and the
/// space, which are all that a character has.
pub fn typing_keys() -> (r: Vec<u16>)
    ensures
        r@ == keys_of("abcdefghijklmnopqrstuvwxyz0123456789 "@),
        r@.len() == 37,
        r@.contains(KEY_SPACE),
        forall|c: char| key_of(c) is Some ==> r@.contains(#[trigger] key_of(c)->Some_0),
{
    let chars = chars_of("abcdefghijklmnopqrstuvwxyz0123456789 ");
    let mut out: Vec<u16> = Vec::new();
    let mut i: usize = 0;
    assert(chars@.take(0) =~= Seq::empty());
    while i < chars.len()
        invariant
            i <= chars@.len(),
            out@ == keys_of(chars@.take(i as int)),
        decreases chars.len() - i,
    {
        assert(chars@.take(i + 1).drop_last() =~= chars@.take(i as int));
        if let Some((k, _)) = char_to_key(chars[i]) {
            out.push(k);
        }
        i = i + 1;
    }
    assert(chars@.take(chars@.len() as int) =~= chars@);
    proof {
        reveal_strlit("abcdefghijklmnopqrstuvwxyz0123456789 ");
        lemma_keys(chars@);
        assert forall|c: char| key_of(c) is Some implies out@.contains(
            #[trigger] key_of(c)->Some_0,
        ) by {
            let i = if 'a' <= c && c <= 'z' {
                c as int - 97
            } else if '0' <= c && c <= '9' {
                c as int - 22
            } else {
                36
            };
            assert(chars@[i] == c);
            assert(out@[i] == key_of(c)->Some_0);
        }
        assert(key_of(' ') == Some(KEY_SPACE));
    }
    out
}

pub open spec fn is_capital(c: char) -> bool {
    'A' <= c && c <= 'Z'
}

/// A letter of ASCII in small.
pub open spec fn small_of(c: char) -> char {
    if is_capital(c) {
        (c as int + 32) as char
    } else {
        c
    }
}

/// A letter of ASCII in small.
pub fn small(c: char) -> (r: char)
    ensures
        r == small_of(c),
{
    if 'A' <= c && c <= 'Z' {
        ((c as u32 + 32) as u8) as char
    } else {
        c
    }
}

/// The presses and releases that type a character: 1 is a press, 0 a release.
/// A capital is typed with the shift key held.
pub open spec fn strokes_of(c: char) -> Seq<(u16, i32)> {
    match key_of(small_of(c)) {
        Some(k) => if is_capital(c) {
            seq![(KEY_LEFTSHIFT, 1i32), (k, 1i32), (k, 0i32), (KEY_LEFTSHIFT, 0i32)]
        } else {
            seq![(k, 1i32), (k, 0i32)]
        },
        None => Seq::empty(),
    }
}

/// A capital is typed as its small letter with the shift key held, and anything
/// else without it; what has a key is pressed and let go.
pub proof fn capitals_are_typed_with_shift(c: char)
    ensures
        is_capital(c) ==> strokes_of(c) == seq![(42u16, 1i32)] + strokes_of(small_of(c)) + seq![
            (42u16, 0i32),
        ],
        !is_capital(c) && key_of(c) is Some ==> strokes_of(c) == seq![
            (key_of(c)->0, 1i32),
            (key_of(c)->0, 0i32),
        ],
        !is_capital(c) && key_of(c) is None ==> strokes_of(c).len() == 0,
        is_capital(c) ==> key_of(small_of(c)) is Some,
{
    let s = small_of(c);
    if is_capital(c) {
        assert(c as int + 32 == s as int);
        assert('a' <= s && s <= 'z');
        assert(!is_capital(s));
        assert(key_of(s) is Some);
        assert(strokes_of(c) =~= seq![(42u16, 1i32)] + strokes_of(s) + seq![(42u16, 0i32)]);
    }
}

/// The presses and releases that type a character.
pub fn strokes(c: char) -> (r: Vec<(u16, i32)>)
    ensures
        r@ == strokes_of(c),
{
    let capital = 'A' <= c && c <= 'Z';
    let mut out: Vec<(u16, i32)> = Vec::new();
    if let Some((k, _)) = char_to_key(small(c)) {
        if capital {
            out.push((KEY_LEFTSHIFT, 1));
        }
        out.push((k, 1));
        out.push((k, 0));
        if capital {
            out.push((KEY_LEFTSHIFT, 0));
        }
    }
    assert(out@ =~= strokes_of(c));
    out
}

pub open spec fn pause_of(i: int) -> int {
    30 + (i * 17) % 90
}

/// A pause is of 30 to 119 milliseconds, 17 longer than the one before or, where
/// that is too long, as much shorter as makes up for it.
pub proof fn pauses_vary(i: int)
    requires
        i >= 0,
    ensures
        pause_of(0) == 30,
        30 <= pause_of(i) < 120,
        pause_of(i + 1) == if pause_of(i) + 17 < 120 {
            pause_of(i) + 17
        } else {
            pause_of(i) + 17 - 90
        },
{
}

/// The pause after the character at place `i` of a text, in milliseconds: it
/// varies as a hand does.
pub fn pause_ms(i: u64) -> (r: u64)
    requires
        i * 17 <= u64::MAX,
    ensures
        r == pause_of(i as int),
{
    30 + (i * 17) % 90
}

/// The presses of keys, one after the other, and their releases, in reverse.
pub open spec fn chord_of(ks: Seq<u16>) -> Seq<(u16, i32)> {
    ks.map_values(|k: u16| (k, 1i32)) + ks.reverse().map_values(|k: u16| (k, 0i32))
}

/// Each key of a chord is pressed, and released in reverse: what was pressed
/// first is released last.
pub proof fn chord_lets_go(ks: Seq<u16>, i: int)
    requires
        0 <= i < ks.len(),
    ensures
        chord_of(ks).len() == 2 * ks.len(),
        chord_of(ks)[i] == (ks[i], 1i32),
        chord_of(ks)[2 * ks.len() - 1 - i] == (ks[i], 0i32),
{
}

/// The presses and releases of a letter with the control and alt keys held.
pub fn combo(letter: u16) -> (r: Vec<(u16, i32)>)
    ensures
        r@ == chord_of(seq![KEY_LEFTCTRL, KEY_LEFTALT, letter]),
{
    let mut out: Vec<(u16, i32)> = Vec::new();
    out.push((KEY_LEFTCTRL, 1));
    out.push((KEY_LEFTALT, 1));
    out.push((letter, 1));
    out.push((letter, 0));
    out.push((KEY_LEFTALT, 0));
    out.push((KEY_LEFTCTRL, 0));
    assert(out@ =~= chord_of(seq![KEY_LEFTCTRL, KEY_LEFTALT, letter]));
    out
}

/// A key combination that can be had: its name, its number in the desktop and
/// the key of its letter.
pub struct Candidate {
    pub name: &'static str,
    pub qt: i32,
    pub key: u16,
}

pub open spec fn candidate_views(v: Seq<Candidate>) -> Seq<(Seq<char>, i32, u16)> {
    v.map_values(|c: Candidate| (c.name@, c.qt, c.key))
}

/// The key combinations that are tried: of each its name, its number in the
/// desktop and the key of its letter.
pub open spec fn candidates_of() -> Seq<(Seq<char>, i32, u16)> {
    seq![
        ("Ctrl+Alt+Y"@, 0x0C00_0059i32, KEY_Y),
        ("Ctrl+Alt+U"@, 0x0C00_0055i32, KEY_U),
        ("Ctrl+Alt+J"@, 0x0C00_004Ai32, KEY_J),
    ]
}

/// The number of a combination is that of its letter with the two held keys, the
/// key that is pressed is the letter's, and the name ends with it.
pub proof fn combination_is_of_its_letter(i: int)
    requires
        0 <= i < 3,
    ensures
        ({
            let (name, qt, key) = candidates_of()[i];
            &&& is_capital(name.last())
            &&& qt == 0x0C00_0000 + name.last() as int
            &&& key_of(small_of(name.last())) == Some(key)
        }),
        candidates_of().len() == 3,
{
    reveal_strlit("Ctrl+Alt+Y");
    reveal_strlit("Ctrl+Alt+U");
    reveal_strlit("Ctrl+Alt+J");
    assert("Ctrl+Alt+Y"@.last() == 'Y' && "Ctrl+Alt+U"@.last() == 'U' && "Ctrl+Alt+J"@.last()
        == 'J');
}

/// The key combinations that are tried, in turn.
pub fn candidates() -> (r: Vec<Candidate>)
    ensures
        candidate_views(r@) == candidates_of(),
{
    let mut v: Vec<Candidate> = Vec::new();
    v.push(Candidate { name: "Ctrl+Alt+Y", qt: 0x0C00_0059, key: KEY_Y });
    v.push(Candidate { name: "Ctrl+Alt+U", qt: 0x0C00_0055, key: KEY_U });
    v.push(Candidate { name: "Ctrl+Alt+J", qt: 0x0C00_004A, key: KEY_J });
    assert(candidate_views(v@) =~= candidates_of());
    v
}

} // verus!
