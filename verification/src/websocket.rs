//! The stream of recognised speech to a browser: frames, the answer to the
//! handshake, and the messages.

use crate::bytes;
use crate::bytes::{push_all, push_be16, push_be64};
use crate::json;
use crate::json::{Json, Tree};
use crate::telemetry;
use crate::text;
use crate::text::{cat, chars_of, same_str, starts, string_of};
use vstd::prelude::*;
use vstd::slice::slice_subrange;

verus! {

/// What is put behind a client's key before it is hashed.
pub const WS_GUID: &'static str = "258EAFA5-E914-47DA-95CA-C5AB0DC85B11";

/// The time between two looks at what was said, in milliseconds.
pub const WS_TICK_MS: u64 = 300;

/// After so many looks with nothing to say the client hears a sign of life.
pub const WS_HEARTBEAT_TICKS: u32 = 30;

/// The length of the hash of a key.
pub const DIGEST_LEN: usize = 20;

// ---------------------------------------------------------------------------
// Base 64
// ---------------------------------------------------------------------------

/// The character that stands for six bits.
pub open spec fn symbol_of(n: int) -> char {
    if n < 26 {
        (65 + n) as char
    } else if n < 52 {
        (71 + n) as char
    } else if n < 62 {
        (n - 4) as char
    } else if n == 62 {
        '+'
    } else {
        '/'
    }
}

/// The four characters of three bytes; where there are fewer, the last ones
/// fill up.
pub open spec fn group_of(b: Seq<u8>) -> Seq<char> {
    let n = b[0] * 0x1_0000 + (if b.len() > 1 {
        b[1] * 0x100
    } else {
        0
    }) + (if b.len() > 2 {
        b[2] as int
    } else {
        0
    });
    seq![
        symbol_of(n / 0x4_0000),
        symbol_of(n / 0x1000 % 64),
        if b.len() > 1 {
            symbol_of(n / 64 % 64)
        } else {
            '='
        },
        if b.len() > 2 {
            symbol_of(n % 64)
        } else {
            '='
        },
    ]
}

/// Bytes in base 64, group by group.
pub open spec fn b64_of(data: Seq<u8>) -> Seq<char>
    decreases data.len(),
{
    if data.len() == 0 {
        Seq::empty()
    } else if data.len() <= 3 {
        group_of(data)
    } else {
        group_of(data.take(3)) + b64_of(data.skip(3))
    }
}

/// Base 64 takes four characters for each three bytes that are begun.
pub proof fn b64_len(data: Seq<u8>)
    ensures
        b64_of(data).len() == (data.len() + 2) / 3 * 4,
    decreases data.len(),
{
    if data.len() > 3 {
        b64_len(data.skip(3));
    }
}

/// The six bits that a character stands for; one that fills up stands for none.
pub open spec fn bits_of(c: char) -> int {
    let n = c as int;
    if 65 <= n <= 90 {
        n - 65
    } else if 97 <= n <= 122 {
        n - 71
    } else if 48 <= n <= 57 {
        n + 4
    } else if c == '+' {
        62
    } else if c == '/' {
        63
    } else {
        0
    }
}

/// The bytes in four characters.
pub open spec fn group_bytes(g: Seq<char>) -> Seq<u8> {
    let n = bits_of(g[0]) * 0x4_0000 + bits_of(g[1]) * 0x1000 + bits_of(g[2]) * 64 + bits_of(g[3]);
    let all = seq![(n / 0x1_0000) as u8, (n / 0x100 % 0x100) as u8, (n % 0x100) as u8];
    if g[2] == '=' {
        all.take(1)
    } else if g[3] == '=' {
        all.take(2)
    } else {
        all
    }
}

/// The bytes in base 64, group by group.
pub open spec fn b64_bytes(s: Seq<char>) -> Seq<u8>
    decreases s.len(),
{
    if s.len() < 4 {
        Seq::empty()
    } else {
        group_bytes(s.take(4)) + b64_bytes(s.skip(4))
    }
}

proof fn lemma_symbol(n: int)
    requires
        0 <= n < 64,
    ensures
        bits_of(symbol_of(n)) == n,
        symbol_of(n) != '=',
{
}

proof fn lemma_parts(n: int)
    requires
        0 <= n,
    ensures
        n == (n / 0x4_0000) * 0x4_0000 + (n / 0x1000 % 64) * 0x1000 + (n / 64 % 64) * 64 + n % 64,
{
    vstd::arithmetic::div_mod::lemma_div_denominator(n, 64, 64);
    vstd::arithmetic::div_mod::lemma_div_denominator(n, 0x1000, 64);
    let m = n / 64;
    let k = n / 0x1000;
    assert(m / 64 == k);
    assert(k / 64 == n / 0x4_0000);
}

proof fn lemma_eights(a: int, b: int, c: int)
    requires
        0 <= a < 0x100,
        0 <= b < 0x100,
        0 <= c < 0x100,
    ensures
        ({
            let n = a * 0x1_0000 + b * 0x100 + c;
            &&& n / 0x1_0000 == a
            &&& n / 0x100 % 0x100 == b
            &&& n % 0x100 == c
        }),
{
    let n = a * 0x1_0000 + b * 0x100 + c;
    assert(n / 0x100 == a * 0x100 + b);
}

proof fn lemma_sixes(a: int, b: int, c: int)
    requires
        0 <= a < 0x100,
        0 <= b < 0x100,
        0 <= c < 0x100,
    ensures
        ({
            let n = a * 0x1_0000 + b * 0x100 + c;
            &&& 0 <= n / 0x4_0000 < 64
            &&& c == 0 ==> n % 64 == 0
            &&& b == 0 && c == 0 ==> n / 64 % 64 == 0
        }),
{
    let n = a * 0x1_0000 + b * 0x100 + c;
    if c == 0 {
        assert(n == 64 * (a * 0x400 + b * 4));
        if b == 0 {
            assert(n / 64 == 64 * (a * 16));
        }
    }
}

proof fn lemma_group(b: Seq<u8>)
    requires
        1 <= b.len() <= 3,
    ensures
        group_of(b).len() == 4,
        group_bytes(group_of(b)) == b,
{
    let b1: int = if b.len() > 1 {
        b[1] as int
    } else {
        0
    };
    let b2: int = if b.len() > 2 {
        b[2] as int
    } else {
        0
    };
    let n = b[0] * 0x1_0000 + b1 * 0x100 + b2;
    lemma_sixes(b[0] as int, b1, b2);
    lemma_eights(b[0] as int, b1, b2);
    lemma_parts(n);
    lemma_symbol(n / 0x4_0000);
    lemma_symbol(n / 0x1000 % 64);
    lemma_symbol(n / 64 % 64);
    lemma_symbol(n % 64);
    let g = group_of(b);
    assert(bits_of('=') == 0);
    assert(bits_of(g[0]) == n / 0x4_0000);
    assert(bits_of(g[1]) == n / 0x1000 % 64);
    assert(bits_of(g[2]) == n / 64 % 64);
    assert(bits_of(g[3]) == n % 64);
    assert(bits_of(g[0]) * 0x4_0000 + bits_of(g[1]) * 0x1000 + bits_of(g[2]) * 64 + bits_of(g[3])
        == n);
    assert(group_bytes(g) =~= b);
}

/// What was written in base 64 reads back.
pub proof fn b64_reads_back(data: Seq<u8>)
    ensures
        b64_bytes(b64_of(data)) == data,
    decreases data.len(),
{
    if data.len() == 0 {
    } else if data.len() <= 3 {
        lemma_group(data);
        let s = b64_of(data);
        assert(s.take(4) =~= s);
        assert(b64_bytes(s.skip(4)) =~= Seq::empty());
        assert(b64_bytes(s) =~= data);
    } else {
        lemma_group(data.take(3));
        b64_reads_back(data.skip(3));
        let s = b64_of(data);
        assert(s.take(4) =~= group_of(data.take(3)));
        assert(s.skip(4) =~= b64_of(data.skip(3)));
        assert(data.take(3) + data.skip(3) =~= data);
    }
}

fn symbol(n: u32) -> (r: char)
    requires
        n < 64,
    ensures
        r == symbol_of(n as int),
{
    if n < 26 {
        (65 + n as u8) as char
    } else if n < 52 {
        (71 + n as u8) as char
    } else if n < 62 {
        (n as u8 - 4) as char
    } else if n == 62 {
        '+'
    } else {
        '/'
    }
}

/// Bytes in base 64.
pub fn b64(data: &[u8]) -> (r: String)
    ensures
        r@ == b64_of(data@),
{
    let mut s = String::new();
    let mut i: usize = 0;
    assert(s@ + b64_of(data@.skip(0)) =~= b64_of(data@)) by {
        assert(data@.skip(0) =~= data@);
    }
    let len: usize = data.len();
    while i < len
        invariant
            i <= len,
            len == data@.len(),
            s@ + b64_of(data@.skip(i as int)) == b64_of(data@),
        decreases len - i,
    {
        let left: usize = len - i;
        let ghost rest = data@.skip(i as int);
        let ghost group = if rest.len() <= 3 {
            rest
        } else {
            rest.take(3)
        };
        let b0: u32 = data[i] as u32;
        let b1: u32 = if left > 1 {
            data[i + 1] as u32
        } else {
            0
        };
        let b2: u32 = if left > 2 {
            data[i + 2] as u32
        } else {
            0
        };
        let n: u32 = b0 * 0x1_0000 + b1 * 0x100 + b2;
        assert(group[0] == data@[i as int]);
        if left > 1 {
            assert(group[1] == data@[i + 1]);
        }
        if left > 2 {
            assert(group[2] == data@[i + 2]);
        }
        let ghost was = s@;
        s.push(symbol(n / 0x4_0000));
        s.push(symbol(n / 0x1000 % 64));
        s.push(
            if left > 1 {
                symbol(n / 64 % 64)
            } else {
                '='
            },
        );
        s.push(
            if left > 2 {
                symbol(n % 64)
            } else {
                '='
            },
        );
        assert(s@ =~= was + group_of(group));
        if left > 3 {
            assert(rest.skip(3) =~= data@.skip(i + 3));
            assert(was + (group_of(group) + b64_of(data@.skip(i + 3))) =~= s@ + b64_of(
                data@.skip(i + 3),
            ));
            i = i + 3;
        } else {
            i = len;
            assert(data@.skip(len as int) =~= Seq::empty());
            assert(s@ + b64_of(data@.skip(len as int)) =~= was + group_of(group));
        }
    }
    assert(data@.skip(len as int) =~= Seq::empty());
    assert(s@ + Seq::<char>::empty() =~= s@);
    s
}

/// What is hashed for a client's key.
pub fn accept_input(key: &str) -> (r: String)
    ensures
        r@ == key@ + WS_GUID@,
{
    cat(key, WS_GUID)
}

/// The answer to a client's key, from the hash of it, which has a fixed
/// length.
pub fn ws_accept(digest: Option<&[u8]>) -> (r: Option<String>)
    ensures
        text::opt_text(r) == match digest {
            Some(d) if d@.len() == DIGEST_LEN => Some(b64_of(d@)),
            _ => None,
        },
{
    match digest {
        Some(d) => if d.len() == DIGEST_LEN {
            Some(b64(d))
        } else {
            None
        },
        None => None,
    }
}

// ---------------------------------------------------------------------------
// Frames
// ---------------------------------------------------------------------------

/// A frame that holds a whole text.
pub open spec fn frame_of(payload: Seq<u8>) -> Seq<u8> {
    let n = payload.len();
    seq![0x81u8] + (if n < 126 {
        seq![n as u8]
    } else if n <= 0xFFFF {
        seq![126u8] + bytes::be16_of(n as u16)
    } else {
        seq![127u8] + bytes::be64_of(n as u64)
    }) + payload
}

/// What a reader takes for the payload of a frame: the length stands in one
/// byte, or in the two or eight that follow it.
pub open spec fn payload_of(frame: Seq<u8>) -> Option<Seq<u8>> {
    if frame.len() < 2 || frame[0] != 0x81 {
        None
    } else if frame[1] < 126 {
        Some(frame.subrange(2, 2 + frame[1]))
    } else if frame[1] == 126 {
        Some(frame.subrange(4, 4 + bytes::from_be(frame, 2, 2)))
    } else {
        Some(frame.subrange(10, 10 + bytes::from_be(frame, 2, 8)))
    }
}

/// A reader gets out of a frame what was put into it.
pub proof fn frame_reads_back(payload: Seq<u8>)
    requires
        payload.len() <= u64::MAX,
    ensures
        payload_of(frame_of(payload)) == Some(payload),
{
    let f = frame_of(payload);
    let n = payload.len() as int;
    if n < 126 {
        assert(f.subrange(2, 2 + n) =~= payload);
    } else if n <= 0xFFFF {
        assert(f.subrange(2, 4) =~= bytes::be16_of(n as u16));
        crate::bytes::be_reads_back(f, 2, n as u16, 0);
        assert(f.subrange(4, 4 + n) =~= payload);
    } else {
        assert(f.subrange(2, 10) =~= bytes::be64_of(n as u64));
        crate::bytes::be_reads_back(f, 2, 0, n as u64);
        assert(f.subrange(10, 10 + n) =~= payload);
    }
}

/// A frame that holds a whole text.
pub fn ws_text_frame(payload: &[u8]) -> (r: Vec<u8>)
    ensures
        r@ == frame_of(payload@),
{
    let mut f: Vec<u8> = Vec::new();
    f.push(0x81);
    let n: usize = payload.len();
    if n < 126 {
        f.push(n as u8);
    } else if n <= 0xFFFF {
        f.push(126);
        push_be16(&mut f, n as u16);
    } else {
        f.push(127);
        push_be64(&mut f, n as u64);
    }
    push_all(&mut f, payload);
    assert(f@ =~= frame_of(payload@));
    f
}

// ---------------------------------------------------------------------------
// Messages
// ---------------------------------------------------------------------------

/// What the client has been told.
pub struct ZoomSent {
    pub started: bool,
    pub on: bool,
    pub finals: String,
    pub partial: String,
}

/// What the client has been told, as a mathematical value.
pub struct SentView {
    pub started: bool,
    pub on: bool,
    pub finals: Seq<char>,
    pub partial: Seq<char>,
}

impl View for ZoomSent {
    type V = SentView;

    open spec fn view(&self) -> SentView {
        SentView {
            started: self.started,
            on: self.on,
            finals: self.finals@,
            partial: self.partial@,
        }
    }
}

impl Default for ZoomSent {
    fn default() -> (r: ZoomSent)
        ensures
            !r.started,
            !r.on,
            r.finals@ == Seq::<char>::empty(),
            r.partial@ == Seq::<char>::empty(),
    {
        let r = ZoomSent {
            started: false,
            on: false,
            finals: String::new(),
            partial: String::new(),
        };
        assert(r.finals@ =~= Seq::empty() && r.partial@ =~= Seq::empty());
        r
    }
}

/// The message that nothing is listened to, or a sign of life.
pub open spec fn state_msg(on: bool) -> Tree {
    Tree::Object(json::object_of(seq![("on"@, Tree::Bool(on))]))
}

/// The message with all of the text.
pub open spec fn full_msg(finals: Seq<char>, partial: Seq<char>) -> Tree {
    Tree::Object(
        json::object_of(
            seq![
                ("on"@, Tree::Bool(true)),
                ("full"@, Tree::Text(finals)),
                ("partial"@, Tree::Text(partial)),
            ],
        ),
    )
}

/// The message with what is new in the text.
pub open spec fn add_msg(add: Seq<char>, partial: Seq<char>) -> Tree {
    Tree::Object(
        json::object_of(
            seq![
                ("on"@, Tree::Bool(true)),
                ("add"@, Tree::Text(add)),
                ("partial"@, Tree::Text(partial)),
            ],
        ),
    )
}

/// What is said to a client next, and what it has been told then: all of the
/// text at first and where it is not a continuation, otherwise what is new;
/// nothing where nothing has changed.
pub open spec fn zoom_msg_of(
    sent: SentView,
    on: bool,
    finals: Seq<char>,
    partial: Seq<char>,
) -> (SentView, Option<Tree>) {
    if !on {
        (
            SentView { started: true, on: false, finals: Seq::empty(), partial: Seq::empty() },
            if !sent.started || sent.on {
                Some(state_msg(false))
            } else {
                None
            },
        )
    } else {
        (
            SentView { started: true, on: true, finals, partial },
            if !sent.started || !sent.on || !text::starts_of(finals, sent.finals) {
                Some(full_msg(finals, partial))
            } else if finals.len() == sent.finals.len() && partial == sent.partial {
                None
            } else {
                Some(add_msg(finals.skip(sent.finals.len() as int), partial))
            },
        )
    }
}

fn bool_pair(key: &str, value: bool) -> (r: (String, Json))
    ensures
        (r.0@, r.1@) == (key@, Tree::Bool(value)),
        json::proper(r.1@),
{
    (key.to_owned(), Json::Bool(value))
}

fn text_pair(key: &str, value: &str) -> (r: (String, Json))
    ensures
        (r.0@, r.1@) == (key@, Tree::Text(value@)),
        json::proper(r.1@),
{
    (key.to_owned(), telemetry::text(value))
}

/// Every entry is a text or a truth value.
pub open spec fn simple(pairs: Seq<(Seq<char>, Tree)>) -> bool {
    forall|i: int|
        0 <= i < pairs.len() ==> (#[trigger] pairs[i]).1 is Bool || pairs[i].1 is Text
}

proof fn lemma_simple(pairs: Seq<(Seq<char>, Tree)>)
    requires
        simple(pairs),
    ensures
        simple(json::object_of(pairs)),
        json::proper(Tree::Object(json::object_of(pairs))),
        json::whole(Tree::Object(json::object_of(pairs))),
        json::nested(Tree::Object(json::object_of(pairs)), 100),
    decreases pairs.len(),
{
    if pairs.len() > 0 {
        let init = pairs.drop_last();
        assert(simple(init)) by {
            assert forall|i: int| 0 <= i < init.len() implies (#[trigger] init[i]).1 is Bool
                || init[i].1 is Text by {
                assert(init[i] == pairs[i]);
            }
        }
        lemma_simple(init);
        let es = json::object_of(init);
        let last = pairs[pairs.len() - 1];
        json::lemma_put_members(es, last.0, last.1);
        json::put_is_proper(es, last.0, last.1);
        let r = json::object_of(pairs);
        assert forall|i: int| 0 <= i < r.len() implies (#[trigger] r[i]).1 is Bool
            || r[i].1 is Text by {
            if r[i] != last {
                let j = choose|j: int| 0 <= j < es.len() && es[j] == r[i];
                assert(es[j].1 is Bool || es[j].1 is Text);
            }
        }
    }
    let r = json::object_of(pairs);
    assert forall|i: int| 0 <= i < r.len() implies json::whole((#[trigger] r[i]).1) && json::nested(
        r[i].1,
        99,
    ) by {
        assert(r[i].1 is Bool || r[i].1 is Text);
    }
    assert(json::ascending(r));
}

fn message(pairs: Vec<(String, Json)>) -> (r: String)
    requires
        simple(json::entries(pairs@)),
    ensures
        r@ == json::written_of(Tree::Object(json::object_of(json::entries(pairs@)))),
        json::document_of(r@) == Some(Tree::Object(json::object_of(json::entries(pairs@)))),
{
    proof {
        lemma_simple(json::entries(pairs@));
    }
    let doc = json::object(pairs);
    json::write(&doc)
}

fn state_text(on: bool) -> (r: String)
    ensures
        r@ == json::written_of(state_msg(on)),
        json::document_of(r@) == Some(state_msg(on)),
{
    let mut pairs: Vec<(String, Json)> = Vec::new();
    pairs.push(bool_pair("on", on));
    assert(json::entries(pairs@) =~= seq![("on"@, Tree::Bool(on))]);
    message(pairs)
}

fn full_text(finals: &str, partial: &str) -> (r: String)
    ensures
        r@ == json::written_of(full_msg(finals@, partial@)),
        json::document_of(r@) == Some(full_msg(finals@, partial@)),
{
    let mut pairs: Vec<(String, Json)> = Vec::new();
    pairs.push(bool_pair("on", true));
    pairs.push(text_pair("full", finals));
    pairs.push(text_pair("partial", partial));
    assert(json::entries(pairs@) =~= seq![
        ("on"@, Tree::Bool(true)),
        ("full"@, Tree::Text(finals@)),
        ("partial"@, Tree::Text(partial@)),
    ]);
    message(pairs)
}

fn add_text(add: &str, partial: &str) -> (r: String)
    ensures
        r@ == json::written_of(add_msg(add@, partial@)),
        json::document_of(r@) == Some(add_msg(add@, partial@)),
{
    let mut pairs: Vec<(String, Json)> = Vec::new();
    pairs.push(bool_pair("on", true));
    pairs.push(text_pair("add", add));
    pairs.push(text_pair("partial", partial));
    assert(json::entries(pairs@) =~= seq![
        ("on"@, Tree::Bool(true)),
        ("add"@, Tree::Text(add@)),
        ("partial"@, Tree::Text(partial@)),
    ]);
    message(pairs)
}

/// What is said to a client next.
pub fn zoom_msg(sent: &mut ZoomSent, on: bool, finals: &str, partial: &str) -> (r: Option<String>)
    ensures
        ({
            let (next, msg) = zoom_msg_of(old(sent)@, on, finals@, partial@);
            &&& final(sent)@ == next
            &&& r is Some <==> msg is Some
            &&& r matches Some(m) ==> m@ == json::written_of(msg->Some_0) && json::document_of(m@) == msg
        }),
{
    let first = !sent.started;
    sent.started = true;
    if !on {
        let was_on = sent.on;
        sent.on = false;
        sent.finals = String::new();
        sent.partial = String::new();
        assert(sent@.finals =~= Seq::empty() && sent@.partial =~= Seq::empty());
        return if first || was_on {
            Some(state_text(false))
        } else {
            None
        };
    }
    let now = chars_of(finals);
    let before = chars_of(sent.finals.as_str());
    if first || !sent.on || !starts(now.as_slice(), before.as_slice()) {
        sent.on = true;
        sent.finals = finals.to_owned();
        sent.partial = partial.to_owned();
        return Some(full_text(finals, partial));
    }
    if now.len() == before.len() && same_str(partial, sent.partial.as_str()) {
        assert(finals@ =~= finals@.subrange(0, before@.len() as int));
        return None;
    }
    let add = string_of(slice_subrange(now.as_slice(), before.len(), now.len()));
    assert(add@ =~= finals@.skip(before@.len() as int));
    sent.finals = finals.to_owned();
    sent.partial = partial.to_owned();
    Some(add_text(add.as_str(), partial))
}

/// What a client knows.
pub struct ClientView {
    pub on: bool,
    pub finals: Seq<char>,
    pub partial: Seq<char>,
}

/// What a client knows after a message: all of the text replaces what it has,
/// what is new is put behind it, and a sign of life changes nothing.
pub open spec fn client_after(c: ClientView, msg: Tree) -> ClientView {
    let on = json::field_of(msg, "on"@) == Some(Tree::Bool(true));
    let finals = match json::text_field_of(msg, "full"@) {
        Some(f) => f,
        None => match json::text_field_of(msg, "add"@) {
            Some(a) => c.finals + a,
            None => c.finals,
        },
    };
    let partial = match json::text_field_of(msg, "partial"@) {
        Some(p) => p,
        None => c.partial,
    };
    ClientView { on, finals, partial }
}

/// A client knows what it has been told.
pub open spec fn in_step(c: ClientView, sent: SentView) -> bool {
    c.on == sent.on && (sent.on ==> c.finals == sent.finals && c.partial == sent.partial)
}

proof fn lemma_fields(msg: Tree, on: bool, key: Seq<char>, text: Seq<char>, partial: Seq<char>)
    requires
        key == "full"@ || key == "add"@,
        msg == Tree::Object(
            json::object_of(
                seq![
                    ("on"@, Tree::Bool(on)),
                    (key, Tree::Text(text)),
                    ("partial"@, Tree::Text(partial)),
                ],
            ),
        ),
    ensures
        json::field_of(msg, "on"@) == Some(Tree::Bool(on)),
        json::text_field_of(msg, "partial"@) == Some(partial),
        json::text_field_of(msg, key) == Some(text),
        key == "add"@ ==> json::text_field_of(msg, "full"@) is None,
{
    reveal_strlit("on");
    reveal_strlit("full");
    reveal_strlit("add");
    reveal_strlit("partial");
    assert("on"@.len() == 2 && "full"@.len() == 4 && "add"@.len() == 3 && "partial"@.len() == 7);
    let none = Seq::<(Seq<char>, Tree)>::empty();
    let p1 = seq![("on"@, Tree::Bool(on))];
    let p2 = p1.push((key, Tree::Text(text)));
    let p3 = p2.push(("partial"@, Tree::Text(partial)));
    assert(p3 =~= seq![
        ("on"@, Tree::Bool(on)),
        (key, Tree::Text(text)),
        ("partial"@, Tree::Text(partial)),
    ]);
    assert(p1.drop_last() =~= none && p2.drop_last() =~= p1 && p3.drop_last() =~= p2);
    let o1 = json::object_of(p1);
    let o2 = json::object_of(p2);
    assert(json::object_of(none) =~= none);
    assert(o1 == json::put_of(none, "on"@, Tree::Bool(on)));
    assert(o2 == json::put_of(o1, key, Tree::Text(text)));
    assert(json::object_of(p3) == json::put_of(o2, "partial"@, Tree::Text(partial)));
    json::put_then_lookup(none, "on"@, Tree::Bool(on), "full"@);
    json::put_then_lookup(none, "on"@, Tree::Bool(on), "add"@);
    json::put_then_lookup(o1, key, Tree::Text(text), "on"@);
    json::put_then_lookup(o1, key, Tree::Text(text), "full"@);
    json::put_then_lookup(o2, "partial"@, Tree::Text(partial), "on"@);
    json::put_then_lookup(o2, "partial"@, Tree::Text(partial), key);
    json::put_then_lookup(o2, "partial"@, Tree::Text(partial), "full"@);
}

proof fn lemma_state_fields(on: bool)
    ensures
        json::field_of(state_msg(on), "on"@) == Some(Tree::Bool(on)),
        json::text_field_of(state_msg(on), "full"@) is None,
        json::text_field_of(state_msg(on), "add"@) is None,
        json::text_field_of(state_msg(on), "partial"@) is None,
{
    reveal_strlit("on");
    reveal_strlit("full");
    reveal_strlit("add");
    reveal_strlit("partial");
    assert("on"@.len() == 2 && "full"@.len() == 4 && "add"@.len() == 3 && "partial"@.len() == 7);
    let none = Seq::<(Seq<char>, Tree)>::empty();
    let p1 = seq![("on"@, Tree::Bool(on))];
    assert(p1.drop_last() =~= none);
    assert(json::object_of(none) =~= none);
    assert(json::object_of(p1) == json::put_of(none, "on"@, Tree::Bool(on)));
    json::put_then_lookup(none, "on"@, Tree::Bool(on), "full"@);
    json::put_then_lookup(none, "on"@, Tree::Bool(on), "add"@);
    json::put_then_lookup(none, "on"@, Tree::Bool(on), "partial"@);
}

/// A client that takes every message knows the text as it is: it is in step
/// with what it has been told after each look, whatever was said before the
/// first one.
pub proof fn client_keeps_in_step(
    c: ClientView,
    sent: SentView,
    on: bool,
    finals: Seq<char>,
    partial: Seq<char>,
)
    requires
        sent.started ==> in_step(c, sent),
    ensures
        ({
            let (next, msg) = zoom_msg_of(sent, on, finals, partial);
            let after = match msg {
                Some(m) => client_after(c, m),
                None => c,
            };
            &&& in_step(after, next)
            &&& after.on == on
            &&& on ==> after.finals == finals && after.partial == partial
        }),
{
    let (next, msg) = zoom_msg_of(sent, on, finals, partial);
    lemma_state_fields(false);
    lemma_fields(full_msg(finals, partial), true, "full"@, finals, partial);
    let add = finals.skip(sent.finals.len() as int);
    lemma_fields(add_msg(add, partial), true, "add"@, add, partial);
    if on && sent.started && sent.on && text::starts_of(finals, sent.finals) {
        assert(finals =~= sent.finals + add);
        if finals.len() == sent.finals.len() {
            assert(finals =~= sent.finals);
        }
    }
}

/// A sign of life leaves a client in step.
pub proof fn heartbeat_keeps_in_step(c: ClientView, sent: SentView)
    requires
        in_step(c, sent),
    ensures
        in_step(client_after(c, state_msg(sent.on)), sent),
{
    lemma_state_fields(sent.on);
}

/// What is sent at a look, what the client has been told then, and the looks in
/// a row without a message.
pub open spec fn tick_of(
    sent: SentView,
    quiet: nat,
    on: bool,
    finals: Seq<char>,
    partial: Seq<char>,
) -> (SentView, Option<Tree>, nat) {
    let (next, msg) = zoom_msg_of(sent, on, finals, partial);
    let out = match msg {
        Some(m) => Some(m),
        None => if quiet >= WS_HEARTBEAT_TICKS {
            Some(state_msg(next.on))
        } else {
            None
        },
    };
    (
        next,
        out,
        if out is Some {
            0
        } else {
            quiet + 1
        },
    )
}

/// A client that takes all that is sent is in step after every look. It hears
/// something at the latest after thirty looks without a message, and nothing
/// twice without need.
pub proof fn client_is_never_left_alone(
    c: ClientView,
    sent: SentView,
    quiet: nat,
    on: bool,
    finals: Seq<char>,
    partial: Seq<char>,
)
    requires
        sent.started ==> in_step(c, sent),
    ensures
        ({
            let (next, out, looks) = tick_of(sent, quiet, on, finals, partial);
            let after = match out {
                Some(m) => client_after(c, m),
                None => c,
            };
            &&& in_step(after, next)
            &&& after.on == on
            &&& on ==> after.finals == finals && after.partial == partial
            &&& quiet >= 30 ==> out is Some
            &&& out is None ==> looks == quiet + 1 && quiet < 30
            &&& out is Some ==> looks == 0
            &&& quiet < 30 && sent.started && sent.on == on && (on ==> sent.finals == finals
                && sent.partial == partial) ==> out is None
        }),
{
    client_keeps_in_step(c, sent, on, finals, partial);
    let (next, msg) = zoom_msg_of(sent, on, finals, partial);
    if msg is None {
        heartbeat_keeps_in_step(c, next);
    }
    if on && sent.finals == finals {
        assert(finals.subrange(0, finals.len() as int) =~= finals);
    }
}

/// What is sent at a look: a message, or a sign of life after many looks
/// without one. `quiet` counts those looks.
pub fn zoom_tick(
    sent: &mut ZoomSent,
    quiet: u32,
    on: bool,
    finals: &str,
    partial: &str,
) -> (r: (Option<String>, u32))
    requires
        quiet <= WS_HEARTBEAT_TICKS,
    ensures
        ({
            let (next, out, looks) = tick_of(old(sent)@, quiet as nat, on, finals@, partial@);
            &&& final(sent)@ == next
            &&& r.0 is Some <==> out is Some
            &&& r.0 matches Some(m) ==> m@ == json::written_of(out->Some_0) && json::document_of(m@)
                == out
            &&& r.1 == looks
        }),
        r.1 <= WS_HEARTBEAT_TICKS,
{
    match zoom_msg(sent, on, finals, partial) {
        Some(m) => (Some(m), 0),
        None => if quiet >= WS_HEARTBEAT_TICKS {
            (Some(state_text(sent.on)), 0)
        } else {
            (None, quiet + 1)
        },
    }
}

} // verus!
