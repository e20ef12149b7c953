//! The keypad: what its keys do, what they are turned into, and its light.

use crate::json;
use crate::json::{Json, Tree};
use crate::keys::{
    KEY_1, KEY_2, KEY_3, KEY_4, KEY_5, KEY_A, KEY_C, KEY_CAPSLOCK, KEY_D, KEY_DOWN, KEY_E, KEY_F,
    KEY_F13, KEY_F14, KEY_F15, KEY_F16, KEY_F17, KEY_F18, KEY_F19, KEY_F20, KEY_F21, KEY_F22,
    KEY_F23, KEY_F24, KEY_LEFT, KEY_LEFTALT, KEY_LEFTCTRL, KEY_LEFTSHIFT, KEY_Q, KEY_R, KEY_RIGHT,
    KEY_S, KEY_SPACE, KEY_TAB, KEY_UP, KEY_W, KEY_X, KEY_Z, REL_WHEEL,
};
use crate::telemetry;
use crate::telemetry::Event;
use crate::text;
use crate::text::{cat, chars_of, contains};
use vstd::prelude::*;

verus! {

pub const VENDOR: u16 = 0x1532;

pub const PRODUCT: u16 = 0x0244;

pub const EV_KEY: u16 = 1;

pub const EV_SYN: u16 = 0;

pub const TRANSACTION_ID: u8 = 0x1F;

pub open spec fn is_keypad_of(vendor: u16, product: u16) -> bool {
    vendor == VENDOR && product == PRODUCT
}

/// One device alone is the keypad, by the number of its maker and its own.
pub proof fn one_device_is_the_keypad(vendor: u16, product: u16)
    ensures
        is_keypad_of(0x1532, 0x0244),
        is_keypad_of(vendor, product) ==> vendor == 0x1532 && product == 0x0244,
{
}

/// Whether a device is the keypad.
pub fn is_keypad(vendor: u16, product: u16) -> (r: bool)
    ensures
        r == is_keypad_of(vendor, product),
{
    vendor == VENDOR && product == PRODUCT
}

// ---------------------------------------------------------------------------
// Keys
// ---------------------------------------------------------------------------

/// The keys that a key of the pad is turned into.
pub open spec fn mapped_of(code: u16) -> Option<Seq<u16>> {
    if code == KEY_1 {
        Some(seq![KEY_F13])
    } else if code == KEY_5 {
        Some(seq![KEY_F17])
    } else if code == KEY_TAB {
        Some(seq![KEY_F18])
    } else if code == KEY_Q {
        Some(seq![KEY_F19])
    } else if code == KEY_E {
        Some(seq![KEY_F21])
    } else if code == KEY_R {
        Some(seq![KEY_F22])
    } else if code == KEY_CAPSLOCK {
        Some(seq![KEY_F23])
    } else if code == KEY_A {
        Some(seq![KEY_F24])
    } else if code == KEY_S {
        Some(seq![KEY_LEFTCTRL, KEY_F13])
    } else if code == KEY_D {
        Some(seq![KEY_LEFTCTRL, KEY_F14])
    } else if code == KEY_F {
        Some(seq![KEY_LEFTCTRL, KEY_F15])
    } else if code == KEY_LEFTSHIFT {
        Some(seq![KEY_LEFTCTRL, KEY_F16])
    } else if code == KEY_Z {
        Some(seq![KEY_LEFTCTRL, KEY_F17])
    } else if code == KEY_X {
        Some(seq![KEY_LEFTCTRL, KEY_F18])
    } else if code == KEY_C {
        Some(seq![KEY_LEFTCTRL, KEY_F19])
    } else if code == KEY_SPACE {
        Some(seq![KEY_LEFTCTRL, KEY_F20])
    } else if code == KEY_LEFTALT {
        Some(seq![KEY_LEFTCTRL, KEY_F21])
    } else if code == KEY_UP || code == KEY_DOWN || code == KEY_LEFT || code == KEY_RIGHT {
        Some(seq![code])
    } else {
        None
    }
}

/// The keys of the pad in their rows, without the arrows.
pub open spec fn pad_of() -> Seq<u16> {
    seq![
        KEY_1, KEY_2, KEY_3, KEY_4, KEY_5,
        KEY_TAB, KEY_Q, KEY_W, KEY_E, KEY_R,
        KEY_CAPSLOCK, KEY_A, KEY_S, KEY_D, KEY_F,
        KEY_LEFTSHIFT, KEY_Z, KEY_X, KEY_C,
        KEY_SPACE, KEY_LEFTALT,
    ]
}

/// The keys of the pad are turned into F13 to F24 in the order of their rows,
/// and then, with the control key, into F13 and on again, but for those that are
/// only asked for something. No two keys are turned into the same, and an arrow
/// stays what it is.
pub proof fn rows_are_numbered(i: int, a: u16, b: u16)
    ensures
        0 <= i < pad_of().len() && mapped_of(pad_of()[i]) is Some ==> mapped_of(pad_of()[i])
            == Some(
            if i < 12 {
                seq![(KEY_F13 + i) as u16]
            } else {
                seq![KEY_LEFTCTRL, (KEY_F13 + i - 12) as u16]
            },
        ),
        0 <= i < pad_of().len() ==> (mapped_of(pad_of()[i]) is None <==> i == 1 || i == 2 || i == 3
            || i == 7),
        mapped_of(a) is Some && mapped_of(a) == mapped_of(b) ==> a == b,
        dpad_of(a) is Some ==> mapped_of(a) == Some(seq![a]),
        mapped_of(a) is Some ==> dpad_of(a) is Some || pad_of().contains(a),
{
    let p = pad_of();
    assert(p[0] == KEY_1 && p[1] == KEY_2 && p[2] == KEY_3 && p[3] == KEY_4 && p[4] == KEY_5);
    assert(p[5] == KEY_TAB && p[6] == KEY_Q && p[7] == KEY_W && p[8] == KEY_E && p[9] == KEY_R);
    assert(p[10] == KEY_CAPSLOCK && p[11] == KEY_A && p[12] == KEY_S && p[13] == KEY_D && p[14]
        == KEY_F);
    assert(p[15] == KEY_LEFTSHIFT && p[16] == KEY_Z && p[17] == KEY_X && p[18] == KEY_C && p[19]
        == KEY_SPACE && p[20] == KEY_LEFTALT);
    if mapped_of(a) is Some && mapped_of(a) == mapped_of(b) {
        let x = mapped_of(a)->0;
        let y = mapped_of(b)->0;
        assert(x.len() == y.len());
        assert(x[0] == y[0]);
        if x.len() == 2 {
            assert(x[1] == y[1]);
        }
    }
}

/// A key that stands alone, or with the control key before it.
fn keys(with_ctrl: bool, code: u16) -> (r: Vec<u16>)
    ensures
        r@ == if with_ctrl {
            seq![KEY_LEFTCTRL, code]
        } else {
            seq![code]
        },
{
    let mut v: Vec<u16> = Vec::new();
    if with_ctrl {
        v.push(KEY_LEFTCTRL);
    }
    v.push(code);
    assert(v@ =~= if with_ctrl {
        seq![KEY_LEFTCTRL, code]
    } else {
        seq![code]
    });
    v
}

/// The keys that a key of the pad is turned into.
pub fn mapped(code: u16) -> (r: Option<Vec<u16>>)
    ensures
        match r {
            Some(v) => mapped_of(code) == Some(v@),
            None => mapped_of(code) is None,
        },
{
    if code == KEY_1 {
        Some(keys(false, KEY_F13))
    } else if code == KEY_5 {
        Some(keys(false, KEY_F17))
    } else if code == KEY_TAB {
        Some(keys(false, KEY_F18))
    } else if code == KEY_Q {
        Some(keys(false, KEY_F19))
    } else if code == KEY_E {
        Some(keys(false, KEY_F21))
    } else if code == KEY_R {
        Some(keys(false, KEY_F22))
    } else if code == KEY_CAPSLOCK {
        Some(keys(false, KEY_F23))
    } else if code == KEY_A {
        Some(keys(false, KEY_F24))
    } else if code == KEY_S {
        Some(keys(true, KEY_F13))
    } else if code == KEY_D {
        Some(keys(true, KEY_F14))
    } else if code == KEY_F {
        Some(keys(true, KEY_F15))
    } else if code == KEY_LEFTSHIFT {
        Some(keys(true, KEY_F16))
    } else if code == KEY_Z {
        Some(keys(true, KEY_F17))
    } else if code == KEY_X {
        Some(keys(true, KEY_F18))
    } else if code == KEY_C {
        Some(keys(true, KEY_F19))
    } else if code == KEY_SPACE {
        Some(keys(true, KEY_F20))
    } else if code == KEY_LEFTALT {
        Some(keys(true, KEY_F21))
    } else if code == KEY_UP || code == KEY_DOWN || code == KEY_LEFT || code == KEY_RIGHT {
        Some(keys(false, code))
    } else {
        None
    }
}

/// A key that the virtual keyboard has: control, the arrows, and F13 to F24.
pub open spec fn is_output(code: u16) -> bool {
    code == KEY_LEFTCTRL || code == KEY_UP || code == KEY_DOWN || code == KEY_LEFT || code
        == KEY_RIGHT || KEY_F13 <= code <= KEY_F24
}

/// The keys that the virtual keyboard has.
pub fn output_keys() -> (r: Vec<u16>)
    ensures
        forall|code: u16| r@.contains(code) <==> is_output(code),
{
    let mut v: Vec<u16> = Vec::new();
    v.push(KEY_LEFTCTRL);
    v.push(KEY_UP);
    v.push(KEY_DOWN);
    v.push(KEY_LEFT);
    v.push(KEY_RIGHT);
    let mut code: u16 = KEY_F13;
    while code <= KEY_F24
        invariant
            KEY_F13 <= code <= KEY_F24 + 1,
            v@.len() == 5 + (code - KEY_F13),
            v@[0] == KEY_LEFTCTRL,
            v@[1] == KEY_UP,
            v@[2] == KEY_DOWN,
            v@[3] == KEY_LEFT,
            v@[4] == KEY_RIGHT,
            forall|i: int| 5 <= i < v@.len() ==> #[trigger] v@[i] == KEY_F13 + (i - 5),
        decreases KEY_F24 + 1 - code,
    {
        v.push(code);
        code = code + 1;
    }
    assert forall|c: u16| v@.contains(c) <==> is_output(c) by {
        if is_output(c) {
            if KEY_F13 <= c <= KEY_F24 {
                assert(v@[5 + (c - KEY_F13)] == c);
            } else {
                assert(v@[0] == c || v@[1] == c || v@[2] == c || v@[3] == c || v@[4] == c);
            }
        }
    }
    v
}

/// The virtual keyboard has every key that a key of the pad is turned into.
pub proof fn every_mapped_key_can_be_sent(code: u16, i: int)
    ensures
        mapped_of(code) matches Some(out) ==> 0 <= i < out.len() ==> is_output(out[i]),
{
}

/// How far an arrow key moves the window.
pub open spec fn dpad_of(code: u16) -> Option<(i32, i32)> {
    if code == KEY_UP {
        Some((1i32, 0i32))
    } else if code == KEY_DOWN {
        Some((-1i32, 0i32))
    } else if code == KEY_LEFT {
        Some((0i32, -1i32))
    } else if code == KEY_RIGHT {
        Some((0i32, 1i32))
    } else {
        None
    }
}

/// How far an arrow key moves the window. The pad lies on its side.
pub fn dpad_delta(code: u16) -> (r: Option<(i32, i32)>)
    ensures
        r == dpad_of(code),
{
    if code == KEY_UP {
        Some((1, 0))
    } else if code == KEY_DOWN {
        Some((-1, 0))
    } else if code == KEY_LEFT {
        Some((0, -1))
    } else if code == KEY_RIGHT {
        Some((0, 1))
    } else {
        None
    }
}

/// What a key of the pad asks the window to do.
#[derive(Debug, Clone, Copy, PartialEq, Eq, Structural)]
pub enum Wish {
    SendZoomSecond,
    Shot,
    MoveNext,
    SendMic,
    SendZoom,
    SendMicSecond,
    ClearChat,
    PasteCode,
    SwitchProvider,
}

/// What a key of the pad asks the window to do.
pub open spec fn wish_of(code: u16) -> Option<Wish> {
    if code == KEY_W {
        Some(Wish::SendZoomSecond)
    } else if code == KEY_5 {
        Some(Wish::Shot)
    } else if code == KEY_SPACE {
        Some(Wish::MoveNext)
    } else if code == KEY_2 {
        Some(Wish::SendMic)
    } else if code == KEY_Q {
        Some(Wish::SendZoom)
    } else if code == KEY_3 {
        Some(Wish::SendMicSecond)
    } else if code == KEY_A {
        Some(Wish::ClearChat)
    } else if code == KEY_R {
        Some(Wish::PasteCode)
    } else if code == KEY_4 {
        Some(Wish::SwitchProvider)
    } else {
        None
    }
}

fn wish(code: u16) -> (r: Option<Wish>)
    ensures
        r == wish_of(code),
{
    if code == KEY_W {
        Some(Wish::SendZoomSecond)
    } else if code == KEY_5 {
        Some(Wish::Shot)
    } else if code == KEY_SPACE {
        Some(Wish::MoveNext)
    } else if code == KEY_2 {
        Some(Wish::SendMic)
    } else if code == KEY_Q {
        Some(Wish::SendZoom)
    } else if code == KEY_3 {
        Some(Wish::SendMicSecond)
    } else if code == KEY_A {
        Some(Wish::ClearChat)
    } else if code == KEY_R {
        Some(Wish::PasteCode)
    } else if code == KEY_4 {
        Some(Wish::SwitchProvider)
    } else {
        None
    }
}

/// Each wish has one key of its own, and no other key asks for it.
pub proof fn each_wish_has_its_key(code: u16)
    ensures
        wish_of(code) == Some(Wish::SendMic) <==> code == KEY_2,
        wish_of(code) == Some(Wish::SendMicSecond) <==> code == KEY_3,
        wish_of(code) == Some(Wish::SwitchProvider) <==> code == KEY_4,
        wish_of(code) == Some(Wish::Shot) <==> code == KEY_5,
        wish_of(code) == Some(Wish::SendZoom) <==> code == KEY_Q,
        wish_of(code) == Some(Wish::SendZoomSecond) <==> code == KEY_W,
        wish_of(code) == Some(Wish::PasteCode) <==> code == KEY_R,
        wish_of(code) == Some(Wish::ClearChat) <==> code == KEY_A,
        wish_of(code) == Some(Wish::MoveNext) <==> code == KEY_SPACE,
        wish_of(code) is Some ==> dpad_of(code) is None,
{
}

/// The pad lies on its side: its up is the window's right. Opposite arrows undo
/// each other, an arrow moves by one step along one line, and no other key moves
/// the window.
pub proof fn arrows_lie_on_their_side(code: u16)
    ensures
        dpad_of(KEY_UP) == Some((1i32, 0i32)),
        dpad_of(KEY_RIGHT) == Some((0i32, 1i32)),
        dpad_of(KEY_DOWN) == Some((-1i32, 0i32)),
        dpad_of(KEY_LEFT) == Some((0i32, -1i32)),
        dpad_of(code) is Some <==> code == KEY_UP || code == KEY_DOWN || code == KEY_LEFT || code
            == KEY_RIGHT,
{
}

/// What is done with a key of the pad.
pub enum Action {
    /// Nothing.
    Nothing,
    /// The window is moved.
    Move(i32, i32),
    /// The window is asked for something.
    Ask(Wish),
    /// Keys are pressed or released: type, code and value of each event.
    Emit(Vec<(u16, u16, i32)>),
    /// The key is not known, which is reported.
    Unknown(Event),
}

/// The name that `evdev` has for a key.
pub uninterp spec fn key_name_of(code: u16) -> Seq<char>;

/// The `Debug` name of an `evdev::KeyCode`. The name of a given key is fixed
/// and has the name `key_name_of`.
#[verifier::external_body]
fn key_name(code: u16) -> (r: String)
    ensures
        r@ == key_name_of(code),
{
    format!("{:?}", evdev::KeyCode(code))
}

/// The events for the keys `codes`: in their order for a press, in reverse
/// otherwise, and the mark of their end.
pub open spec fn emit_of(codes: Seq<u16>, value: i32) -> Seq<(u16, u16, i32)> {
    let order = if value == 1 {
        codes
    } else {
        codes.reverse()
    };
    order.map_values(|c: u16| (EV_KEY, c, value)).push((EV_SYN, 0u16, 0i32))
}

/// Keys that were pressed together are released in reverse.
pub proof fn release_reverses_press(codes: Seq<u16>, i: int)
    requires
        0 <= i < codes.len(),
    ensures
        emit_of(codes, 1)[i].1 == codes[i],
        emit_of(codes, 0)[codes.len() - 1 - i].1 == codes[i],
        emit_of(codes, 1).len() == emit_of(codes, 0).len(),
{
}

/// The events for the keys `codes`.
pub fn emit(codes: &Vec<u16>, value: i32) -> (r: Vec<(u16, u16, i32)>)
    ensures
        r@ == emit_of(codes@, value),
{
    let mut evs: Vec<(u16, u16, i32)> = Vec::new();
    let n: usize = codes.len();
    let ghost order = if value == 1 {
        codes@
    } else {
        codes@.reverse()
    };
    let ghost all = order.map_values(|c: u16| (EV_KEY, c, value));
    let mut i: usize = 0;
    while i < n
        invariant
            i <= n,
            n == codes@.len(),
            order == if value == 1 {
                codes@
            } else {
                codes@.reverse()
            },
            all == order.map_values(|c: u16| (EV_KEY, c, value)),
            evs@ == all.take(i as int),
        decreases n - i,
    {
        let c: u16 = if value == 1 {
            codes[i]
        } else {
            codes[n - 1 - i]
        };
        evs.push((EV_KEY, c, value));
        assert(order[i as int] == c);
        i = i + 1;
        assert(evs@ =~= all.take(i as int));
    }
    evs.push((EV_SYN, 0, 0));
    assert(evs@ =~= emit_of(codes@, value));
    evs
}

/// `r` is what is done with the key `code`.
pub open spec fn handled(code: u16, value: i32, r: Action) -> bool {
    match dpad_of(code) {
        Some((dx, dy)) => if value != 0 {
            r == Action::Move(dx, dy)
        } else {
            r == Action::Nothing
        },
        None => match wish_of(code) {
            Some(w) => if value == 1 {
                r == Action::Ask(w)
            } else {
                r == Action::Nothing
            },
            None => match mapped_of(code) {
                Some(out) => r matches Action::Emit(evs) && evs@ == emit_of(out, value),
                None => if value == 1 {
                    r matches Action::Unknown(e) && e@ == telemetry::event_of(
                        "tartarus.unknown_key"@,
                        seq![
                            ("code"@, Tree::UInt(code as u64)),
                            ("name"@, Tree::Text(key_name_of(code))),
                        ],
                    )
                } else {
                    r == Action::Nothing
                },
            },
        },
    }
}

/// Every event carries its value, and the mark of the end stands behind them
/// all, and nowhere else.
pub proof fn events_carry_their_value(codes: Seq<u16>, value: i32, i: int)
    ensures
        emit_of(codes, value).len() == codes.len() + 1,
        emit_of(codes, value).last() == (0u16, 0u16, 0i32),
        0 <= i < codes.len() ==> emit_of(codes, value)[i].0 == 1 && emit_of(codes, value)[i].2
            == value,
{
}

/// What is asked for is asked for once a press, not while the key is held or let
/// go. A held arrow moves on, and one that is let go does not. Keys that are
/// pressed for a key of the pad are let go with it, the same keys in reverse.
pub proof fn press_and_release_belong_together(
    code: u16,
    pressed: Action,
    held: Action,
    released: Action,
    i: int,
)
    requires
        handled(code, 1, pressed),
        handled(code, 2, held),
        handled(code, 0, released),
    ensures
        !(held is Ask) && !(released is Ask) && !(held is Unknown) && !(released is Unknown),
        !(released is Move) && (pressed is Move <==> held is Move),
        pressed is Move ==> pressed == held && released is Nothing,
        pressed is Ask <==> wish_of(code) is Some,
        !(pressed is Nothing),
        pressed matches Action::Unknown(e) ==> e@.name == "tartarus.unknown_key"@ && json::field_of(
            e@.fields,
            "code"@,
        ) == Some(Tree::UInt(code as u64)) && json::field_of(e@.fields, "name"@) == Some(
            Tree::Text(key_name_of(code)),
        ),
        pressed is Emit <==> released is Emit,
        (pressed matches Action::Emit(down) && released matches Action::Emit(up) && 0 <= i
            < down@.len() - 1) ==> {
            let down = pressed->Emit_0@;
            let up = released->Emit_0@;
            &&& down.len() == up.len()
            &&& down[i].2 == 1 && up[i].2 == 0
            &&& down[i].1 == up[up.len() - 2 - i].1
        },
{
    each_wish_has_its_key(code);
    if let Action::Unknown(e) = pressed {
        let number = Tree::UInt(code as u64);
        let name = Tree::Text(key_name_of(code));
        reveal_strlit("code");
        reveal_strlit("name");
        assert("code"@[0] == 'c' && "name"@[0] == 'n');
        let none = Seq::<(Seq<char>, Tree)>::empty();
        let a = none.push(("code"@, number));
        assert(a.push(("name"@, name)) =~= seq![("code"@, number), ("name"@, name)]);
        json::last_pair_counts(none, "code"@, number, "code"@);
        json::last_pair_counts(a, "name"@, name, "code"@);
        json::last_pair_counts(a, "name"@, name, "name"@);
    }
    if let Action::Emit(down) = pressed {
        let out = mapped_of(code)->0;
        if 0 <= i < down@.len() - 1 {
            release_reverses_press(out, i);
            events_carry_their_value(out, 1, i);
            events_carry_their_value(out, 0, i);
        }
    }
}

/// What is done with the key `code` when it is pressed, repeated or released:
/// 1, 2 or 0. The arrows move the window; some keys ask for something when they
/// are pressed; the others are turned into other keys.
pub fn handle_key(code: u16, value: i32) -> (r: Action)
    ensures
        handled(code, value, r),
{
    if let Some((dx, dy)) = dpad_delta(code) {
        return if value != 0 {
            Action::Move(dx, dy)
        } else {
            Action::Nothing
        };
    }
    if let Some(w) = wish(code) {
        return if value == 1 {
            Action::Ask(w)
        } else {
            Action::Nothing
        };
    }
    match mapped(code) {
        Some(out) => Action::Emit(emit(&out, value)),
        None => if value == 1 {
            let name = key_name(code);
            let mut pairs: Vec<(String, Json)> = Vec::new();
            pairs.push(("code".to_owned(), Json::UInt(code as u64)));
            pairs.push(("name".to_owned(), telemetry::text(name.as_str())));
            assert(json::entries(pairs@) =~= seq![
                ("code"@, Tree::UInt(code as u64)),
                ("name"@, Tree::Text(key_name_of(code))),
            ]);
            Action::Unknown(telemetry::event("tartarus.unknown_key", pairs))
        } else {
            Action::Nothing
        },
    }
}

pub open spec fn wheel_of(code: u16, value: i32) -> Option<i32> {
    if code == REL_WHEEL && value != 0 {
        Some(value)
    } else {
        None
    }
}

/// The wheel is heard as far as it was turned and in its direction; nothing else
/// is taken for it.
pub proof fn only_the_wheel_turns(code: u16, value: i32)
    ensures
        value != 0 ==> wheel_of(8, value) == Some(value),
        wheel_of(code, value) is Some ==> code == 8 && value != 0,
{
}

/// How far the wheel was turned, where it was.
pub fn wheel_step(code: u16, value: i32) -> (r: Option<i32>)
    ensures
        r == wheel_of(code, value),
{
    if code == REL_WHEEL && value != 0 {
        Some(value)
    } else {
        None
    }
}

// ---------------------------------------------------------------------------
// The light
// ---------------------------------------------------------------------------

/// All bytes together, by exclusive or.
pub open spec fn xor_of(b: Seq<u8>) -> u8
    decreases b.len(),
{
    if b.len() == 0 {
        0
    } else {
        xor_of(b.drop_last()) ^ b.last()
    }
}

/// Each byte changes the checksum by itself, wherever it stands; nothing at all
/// has none.
pub proof fn every_byte_is_checked(a: Seq<u8>, x: u8)
    ensures
        xor_of(Seq::empty()) == 0,
        xor_of(a.push(x)) == xor_of(a) ^ x,
        xor_of(a.push(x).push(x)) == xor_of(a),
{
    let y = xor_of(a);
    assert(a.push(x).drop_last() =~= a);
    assert(a.push(x).push(x).drop_last() =~= a.push(x));
    assert((y ^ x) ^ x == y) by (bit_vector);
}

/// The byte `i` of a command before its checksum.
pub open spec fn report_byte(class: u8, id: u8, data: Seq<u8>, i: int) -> u8 {
    if i == 1 {
        TRANSACTION_ID
    } else if i == 5 {
        data.len() as u8
    } else if i == 6 {
        class
    } else if i == 7 {
        id
    } else if 8 <= i < 8 + data.len() {
        data[i - 8]
    } else {
        0
    }
}

/// A command without its checksum.
pub open spec fn body_of(class: u8, id: u8, data: Seq<u8>) -> Seq<u8> {
    Seq::new(88, |i: int| report_byte(class, id, data, i))
}

/// A command to the keypad: its checksum is made of all but its first two
/// bytes.
pub open spec fn razer_report_of(class: u8, id: u8, data: Seq<u8>) -> Seq<u8> {
    let body = body_of(class, id, data);
    body + seq![xor_of(body.skip(2)), 0u8]
}

/// A command to the keypad.
pub fn razer_report(class: u8, id: u8, data: &[u8]) -> (r: Vec<u8>)
    requires
        data@.len() <= 80,
    ensures
        r@ == razer_report_of(class, id, data@),
        r@.len() == 90,
{
    let ghost body = body_of(class, id, data@);
    let n: usize = data.len();
    let mut out: Vec<u8> = Vec::new();
    let mut crc: u8 = 0;
    let mut i: usize = 0;
    assert(body.skip(2).take(0) =~= Seq::empty());
    while i < 88
        invariant
            i <= 88,
            n == data@.len(),
            n <= 80,
            body == body_of(class, id, data@),
            out@ == body.take(i as int),
            crc == xor_of(
                body.skip(2).take(
                    if i < 2 {
                        0
                    } else {
                        i - 2
                    },
                ),
            ),
        decreases 88 - i,
    {
        let b: u8 = if i == 1 {
            TRANSACTION_ID
        } else if i == 5 {
            n as u8
        } else if i == 6 {
            class
        } else if i == 7 {
            id
        } else if 8 <= i && i < 8 + n {
            data[i - 8]
        } else {
            0
        };
        assert(body[i as int] == b);
        out.push(b);
        if i >= 2 {
            assert(body.skip(2).take(i - 1).drop_last() =~= body.skip(2).take(i - 2));
            assert(body.skip(2).take(i - 1).last() == b);
            crc = crc ^ b;
        }
        i = i + 1;
        assert(out@ =~= body.take(i as int));
    }
    assert(body.skip(2).take(86) =~= body.skip(2));
    out.push(crc);
    out.push(0);
    assert(out@ =~= razer_report_of(class, id, data@));
    out
}

/// A command holds what it was made of, each in its place, and nothing else; its
/// checksum cancels all that stands from the third byte on.
pub proof fn command_holds_its_data(class: u8, id: u8, data: Seq<u8>, i: int)
    requires
        data.len() <= 80,
    ensures
        ({
            let r = razer_report_of(class, id, data);
            &&& r.len() == 90
            &&& r[0] == 0 && r[1] == 0x1F && r[2] == 0 && r[3] == 0 && r[4] == 0
            &&& r[5] == data.len() && r[6] == class && r[7] == id
            &&& 0 <= i < data.len() ==> r[8 + i] == data[i]
            &&& 8 + data.len() <= i < 88 ==> r[i] == 0
            &&& r[89] == 0
            &&& xor_of(r.subrange(2, 89)) == 0
        }),
{
    let body = body_of(class, id, data);
    let r = razer_report_of(class, id, data);
    let x = xor_of(body.skip(2));
    let t = r.subrange(2, 89);
    assert(t.drop_last() =~= body.skip(2));
    assert(t.last() == x);
    assert(x ^ x == 0) by (bit_vector);
}

/// The command that lights the keypad in one colour.
pub open spec fn color_of(r: u8, g: u8, b: u8) -> Seq<u8> {
    razer_report_of(
        0x0F,
        0x02,
        seq![0x01u8, 0x05u8, 0x01u8, 0x00u8, 0x00u8, 0x01u8, r, g, b],
    )
}

/// The colour stands at the end of the command's nine bytes of data, red before
/// green before blue, and two colours differ in nothing but these and the
/// checksum.
pub proof fn colour_stands_in_its_place(r: u8, g: u8, b: u8, i: int)
    ensures
        color_of(r, g, b)[5] == 9,
        color_of(r, g, b)[14] == r,
        color_of(r, g, b)[15] == g,
        color_of(r, g, b)[16] == b,
        0 <= i < 90 && i != 14 && i != 15 && i != 16 && i != 88 ==> color_of(r, g, b)[i]
            == color_of(0, 0, 0)[i],
{
}

/// The command that lights the keypad in one colour.
pub fn static_color(r: u8, g: u8, b: u8) -> (report: Vec<u8>)
    ensures
        report@ == color_of(r, g, b),
        report@.len() == 90,
{
    let mut data: Vec<u8> = Vec::new();
    data.push(0x01);
    data.push(0x05);
    data.push(0x01);
    data.push(0x00);
    data.push(0x00);
    data.push(0x01);
    data.push(r);
    data.push(g);
    data.push(b);
    assert(data@ =~= seq![0x01u8, 0x05u8, 0x01u8, 0x00u8, 0x00u8, 0x01u8, r, g, b]);
    razer_report(0x0F, 0x02, data.as_slice())
}

/// What is handed to the kernel for a command: a 0 before it.
pub fn feature_buffer(report: &Vec<u8>) -> (r: Vec<u8>)
    ensures
        r@ == seq![0u8] + report@,
{
    let mut buf: Vec<u8> = Vec::new();
    buf.push(0);
    crate::bytes::push_all(&mut buf, report.as_slice());
    assert(buf@ =~= seq![0u8] + report@);
    buf
}

pub open spec fn feature_number(len: u32) -> u64 {
    ((3u32 << 30) | (len << 16) | (0x48u32 << 8) | 0x06u32) as u64
}

/// The number says how long the command is, above what says that it is handed
/// to the device.
pub proof fn number_says_the_length(len: u32)
    requires
        len < 0x4000,
    ensures
        feature_number(len) == 0xC000_4806 + len * 0x1_0000,
{
    assert(((3u32 << 30) | (len << 16) | (0x48u32 << 8) | 0x06u32) == 0xC000_4806u32 + len
        * 0x1_0000u32) by (bit_vector)
        requires
            len < 0x4000u32,
    ;
}

/// The number of the control that hands a command of `len` bytes to the device.
pub fn hidiocsfeature(len: u32) -> (r: u64)
    ensures
        r == feature_number(len),
{
    ((3u32 << 30) | (len << 16) | (0x48u32 << 8) | 0x06u32) as u64
}

/// A device node: its name, and where it lies among the devices.
pub struct Node {
    pub name: String,
    pub place: String,
}

/// A node that takes commands to the keypad.
pub open spec fn takes_commands(place: Seq<char>) -> bool {
    text::contains_of(place, "1532:0244"@) && text::contains_of(place, ":1.2/"@)
}

/// The first name, in the order of names, of the nodes that take commands.
pub open spec fn control_of(nodes: Seq<(Seq<char>, Seq<char>)>) -> Option<Seq<char>>
    decreases nodes.len(),
{
    if nodes.len() == 0 {
        None
    } else {
        let best = control_of(nodes.drop_last());
        let (name, place) = nodes.last();
        if !takes_commands(place) {
            best
        } else {
            match best {
                Some(b) if !json::before(name, b) => Some(b),
                _ => Some(name),
            }
        }
    }
}

/// The node that takes commands to the keypad is one that does, the first of
/// them by name; there is none only where no node takes them.
pub proof fn first_node_takes_the_commands(nodes: Seq<(Seq<char>, Seq<char>)>)
    ensures
        match control_of(nodes) {
            Some(name) => {
                &&& exists|i: int|
                    0 <= i < nodes.len() && (#[trigger] nodes[i]).0 == name && takes_commands(
                        nodes[i].1,
                    )
                &&& forall|i: int|
                    0 <= i < nodes.len() && takes_commands((#[trigger] nodes[i]).1)
                        ==> !json::before(nodes[i].0, name)
            },
            None => forall|i: int|
                0 <= i < nodes.len() ==> !takes_commands((#[trigger] nodes[i]).1),
        },
    decreases nodes.len(),
{
    if nodes.len() > 0 {
        let init = nodes.drop_last();
        first_node_takes_the_commands(init);
        let last = nodes.last();
        assert(nodes[nodes.len() - 1] == last);
        assert forall|i: int| 0 <= i < init.len() implies #[trigger] init[i] == nodes[i] by {}
        match control_of(nodes) {
            Some(name) => {
                if control_of(init) == Some(name) {
                    let i = choose|i: int|
                        0 <= i < init.len() && (#[trigger] init[i]).0 == name && takes_commands(
                            init[i].1,
                        );
                    assert(nodes[i].0 == name);
                }
                json::lemma_before_irreflexive(name);
                assert forall|i: int|
                    0 <= i < nodes.len() && takes_commands((#[trigger] nodes[i]).1) implies
                    !json::before(nodes[i].0, name) by {
                    if i < init.len() {
                        assert(init[i] == nodes[i]);
                        if let Some(b) = control_of(init) {
                            if b != name && json::before(nodes[i].0, name) {
                                json::lemma_before_trans(nodes[i].0, name, b);
                            }
                        }
                    }
                }
            },
            None => {
                assert forall|i: int| 0 <= i < nodes.len() implies !takes_commands(
                    (#[trigger] nodes[i]).1,
                ) by {
                    if i < init.len() {
                        assert(init[i] == nodes[i]);
                    }
                }
            },
        }
    }
}

/// What nodes are.
pub open spec fn node_views(v: Seq<Node>) -> Seq<(Seq<char>, Seq<char>)> {
    v.map_values(|n: Node| (n.name@, n.place@))
}

/// The path of the node that takes commands to the keypad.
pub fn control_node(nodes: &Vec<Node>) -> (r: Option<String>)
    ensures
        text::opt_text(r) == match control_of(node_views(nodes@)) {
            Some(name) => Some("/dev/"@ + name),
            None => None,
        },
{
    let ghost all = node_views(nodes@);
    let id = chars_of("1532:0244");
    let port = chars_of(":1.2/");
    let mut best: Option<String> = None;
    let mut i: usize = 0;
    assert(all.take(0) =~= Seq::empty());
    while i < nodes.len()
        invariant
            i <= nodes@.len(),
            all == node_views(nodes@),
            id@ == "1532:0244"@,
            port@ == ":1.2/"@,
            text::opt_text(best) == control_of(all.take(i as int)),
        decreases nodes.len() - i,
    {
        assert(all.take(i + 1).drop_last() =~= all.take(i as int));
        assert(all.take(i + 1).last() == (nodes@[i as int].name@, nodes@[i as int].place@));
        let place = chars_of(nodes[i].place.as_str());
        if contains(place.as_slice(), id.as_slice()) && contains(place.as_slice(), port.as_slice()) {
            let better = match &best {
                Some(b) => json::comes_before(
                    chars_of(nodes[i].name.as_str()).as_slice(),
                    chars_of(b.as_str()).as_slice(),
                ),
                None => true,
            };
            if better {
                best = Some(nodes[i].name.clone());
            }
        }
        i = i + 1;
    }
    assert(all.take(all.len() as int) =~= all);
    match best {
        Some(name) => Some(cat("/dev/", name.as_str())),
        None => None,
    }
}

} // verus!
