//! The picture that speaks: pixels, lines, phrases and the frames of a virtual
//! camera.

use crate::bytes;
use crate::bytes::push_le32;
use crate::config::MouthBox;
use crate::float;
use crate::text;
use crate::text::{cat, cat3, chars_of, find, lossy, string_of};
use vstd::prelude::*;
use vstd::slice::slice_subrange;

verus! {

// ---------------------------------------------------------------------------
// Errors
// ---------------------------------------------------------------------------

/// Why the picture cannot be shown.
#[derive(Debug, PartialEq)]
pub enum AvatarError {
    NoDevice(String),
    Svg(String),
    Format(String),
    Io(String),
}

impl AvatarError {
    pub open spec fn message_of(&self) -> Seq<char> {
        match self {
            AvatarError::NoDevice(p) => "нет устройства "@ + p@,
            AvatarError::Svg(e) => "SVG: "@ + e@,
            AvatarError::Format(e) => "формат: "@ + e@,
            AvatarError::Io(e) => "io: "@ + e@,
        }
    }

    /// The error in words.
    pub fn message(&self) -> (r: String)
        ensures
            r@ == self.message_of(),
    {
        match self {
            AvatarError::NoDevice(p) => cat("нет устройства ", p.as_str()),
            AvatarError::Svg(e) => cat("SVG: ", e.as_str()),
            AvatarError::Format(e) => cat("формат: ", e.as_str()),
            AvatarError::Io(e) => cat("io: ", e.as_str()),
        }
    }
}

/// An error says what failed, and ends with what was told of it.
pub proof fn errors_say_what_failed(e: AvatarError)
    ensures
        match e {
            AvatarError::NoDevice(p) => text::starts_of(e.message_of(), "нет устройства "@)
                && text::ends_of(e.message_of(), p@),
            AvatarError::Svg(why) => text::starts_of(e.message_of(), "SVG: "@) && text::ends_of(
                e.message_of(),
                why@,
            ),
            AvatarError::Format(why) => text::starts_of(e.message_of(), "формат: "@)
                && text::ends_of(e.message_of(), why@),
            AvatarError::Io(why) => text::starts_of(e.message_of(), "io: "@) && text::ends_of(
                e.message_of(),
                why@,
            ),
        },
{
    match e {
        AvatarError::NoDevice(p) => {
            text::parts_are_found("нет устройства "@, p@, Seq::empty());
            text::parts_are_found(Seq::empty(), "нет устройства "@, p@);
        },
        AvatarError::Svg(why) => {
            text::parts_are_found("SVG: "@, why@, Seq::empty());
            text::parts_are_found(Seq::empty(), "SVG: "@, why@);
        },
        AvatarError::Format(why) => {
            text::parts_are_found("формат: "@, why@, Seq::empty());
            text::parts_are_found(Seq::empty(), "формат: "@, why@);
        },
        AvatarError::Io(why) => {
            text::parts_are_found("io: "@, why@, Seq::empty());
            text::parts_are_found(Seq::empty(), "io: "@, why@);
        },
    }
}

/// Why the picture cannot be shown, of what was tried in turn: to find the
/// device, to read the file, to draw it, to open the camera and to set its
/// format. What comes first counts; `None` stands for what went well or was not
/// tried yet.
pub fn start_fault(
    device_there: bool,
    device: &str,
    read: Option<&str>,
    drawn: Option<&str>,
    opened: Option<&str>,
    format: Option<&str>,
) -> (r: Option<AvatarError>)
    ensures
        match r {
            Some(AvatarError::NoDevice(d)) => !device_there && d@ == device@,
            Some(AvatarError::Io(e)) => {
                &&& device_there
                &&& match read {
                    Some(why) => e@ == why@,
                    None => drawn is None && (opened matches Some(why) && e@ == why@),
                }
            },
            Some(AvatarError::Svg(e)) => {
                &&& device_there && read is None
                &&& drawn matches Some(why) && e@ == why@
            },
            Some(AvatarError::Format(e)) => {
                &&& device_there && read is None && drawn is None && opened is None
                &&& format matches Some(why) && e@ == why@
            },
            None => device_there && read is None && drawn is None && opened is None && format
                is None,
        },
{
    if !device_there {
        return Some(AvatarError::NoDevice(device.to_owned()));
    }
    if let Some(why) = read {
        return Some(AvatarError::Io(why.to_owned()));
    }
    if let Some(why) = drawn {
        return Some(AvatarError::Svg(why.to_owned()));
    }
    if let Some(why) = opened {
        return Some(AvatarError::Io(why.to_owned()));
    }
    match format {
        Some(why) => Some(AvatarError::Format(why.to_owned())),
        None => None,
    }
}

/// So many frames in a row have to fail for a report.
pub const FAIL_STREAK: u32 = 30;

/// How many frames in a row could not be written.
pub open spec fn streak_of(streak: nat, ok: bool) -> nat {
    if ok {
        0
    } else {
        streak + 1
    }
}

/// Whether they are reported.
pub open spec fn reports_of(streak: nat, ok: bool) -> bool {
    !ok && streak + 1 == FAIL_STREAK
}

/// A report is made once in a row of failures, with the thirtieth of them, and
/// a frame that is written ends the row.
pub proof fn thirty_failures_are_reported_once(streak: nat)
    ensures
        reports_of(streak, false) <==> streak_of(streak, false) == 30,
        !reports_of(streak, true),
        streak_of(streak, true) == 0,
        streak_of(streak, false) == streak + 1,
{
}

/// Counts frames that could not be written in a row; the second part is
/// whether to report them.
pub fn frame_written(streak: u32, ok: bool) -> (r: (u32, bool))
    requires
        streak < u32::MAX,
    ensures
        r.0 == streak_of(streak as nat, ok),
        r.1 == reports_of(streak as nat, ok),
{
    if ok {
        (0, false)
    } else {
        (streak + 1, streak + 1 == FAIL_STREAK)
    }
}

// ---------------------------------------------------------------------------
// The drawing
// ---------------------------------------------------------------------------

/// A drawing without the first path that is named `id`, from its beginning to
/// the next end of an element; nothing where there is no such path.
pub open spec fn strip_path_of(s: Seq<char>, id: Seq<char>) -> Option<Seq<char>> {
    match text::find_of(s, "<path id=\""@ + id + "\""@) {
        Some(start) => match text::find_of(s.skip(start), "/>"@) {
            Some(rel) => Some(s.take(start) + s.skip(start + rel + 2)),
            None => None,
        },
        None => None,
    }
}

/// All that stands before the path and behind its end is kept, in its order, and
/// nothing of the path is. A drawing without such a path gives none.
pub proof fn only_the_path_is_taken_out(a: Seq<char>, id: Seq<char>, m: Seq<char>, b: Seq<char>)
    requires
        ({
            let head = "<path id=\""@ + id + "\""@;
            let tail = head + m + "/>"@ + b;
            &&& text::find_of(a + tail, head) == Some(a.len() as int)
            &&& text::find_of(tail, "/>"@) == Some((head.len() + m.len()) as int)
        }),
    ensures
        strip_path_of(a + (("<path id=\""@ + id + "\""@) + m + "/>"@ + b), id) == Some(a + b),
        !text::contains_of(b, "<path id=\""@ + id + "\""@) ==> strip_path_of(b, id) is None,
{
    let head = "<path id=\""@ + id + "\""@;
    let tail = head + m + "/>"@ + b;
    let s = a + tail;
    reveal_strlit("/>");
    assert(s.skip(a.len() as int) =~= tail);
    assert(s.take(a.len() as int) =~= a);
    assert(s.skip(a.len() + (head.len() + m.len()) as int + 2) =~= b);
}

/// A drawing without the first path that is named `id`.
pub fn strip_path(s: &str, id: &str) -> (r: Option<String>)
    ensures
        text::opt_text(r) == strip_path_of(s@, id@),
{
    let chars = chars_of(s);
    let needle = chars_of(cat3("<path id=\"", id, "\"").as_str());
    let close = chars_of("/>");
    proof {
        reveal_strlit("/>");
    }
    match find(chars.as_slice(), needle.as_slice()) {
        Some(start) => {
            let rest = slice_subrange(chars.as_slice(), start, chars.len());
            assert(rest@ =~= s@.skip(start as int));
            match find(rest, close.as_slice()) {
                Some(rel) => {
                    let mut out = string_of(slice_subrange(chars.as_slice(), 0, start));
                    let tail = string_of(
                        slice_subrange(chars.as_slice(), start + rel + 2, chars.len()),
                    );
                    out.append(tail.as_str());
                    assert(out@ =~= s@.take(start as int) + s@.skip(start + rel + 2));
                    Some(out)
                },
                None => None,
            }
        },
        None => None,
    }
}

/// The bytes of a drawing without the first path that is named `id`, as they
/// are where there is none.
pub fn strip_element_by_id(svg: &[u8], id: &str) -> (r: Vec<u8>)
    ensures
        r@ == match strip_path_of(text::lossy_of(svg@), id@) {
            Some(t) => vstd::utf8::encode_utf8(t),
            None => svg@,
        },
{
    match strip_path(lossy(svg).as_str(), id) {
        Some(t) => {
            let mut out: Vec<u8> = Vec::new();
            crate::bytes::push_str(&mut out, t.as_str());
            assert(out@ =~= vstd::utf8::encode_utf8(t@));
            out
        },
        None => {
            let mut out: Vec<u8> = Vec::new();
            crate::bytes::push_all(&mut out, svg);
            assert(out@ =~= svg@);
            out
        },
    }
}

// ---------------------------------------------------------------------------
// Mirroring
// ---------------------------------------------------------------------------

/// The place in the source of the byte `i` of a mirrored picture of `w` pixels
/// a row.
pub open spec fn mirror_at(w: int, i: int) -> int {
    let row = i / (4 * w);
    let col = i % (4 * w) / 4;
    row * (4 * w) + (w - 1 - col) * 4 + i % 4
}

/// A picture of `h` rows of `w` pixels, mirrored from side to side. What
/// follows the picture is black.
pub open spec fn flip_of(src: Seq<u8>, w: int, h: int) -> Seq<u8> {
    Seq::new(
        src.len(),
        |i: int|
            if i < w * h * 4 {
                src[mirror_at(w, i)]
            } else {
                0
            },
    )
}

proof fn lemma_mirror(w: int, h: int, row: int, col: int, k: int)
    requires
        0 <= row < h,
        0 <= col < w,
        0 <= k < 4,
    ensures
        ({
            let i = row * (4 * w) + col * 4 + k;
            &&& 0 <= i < w * h * 4
            &&& i / (4 * w) == row
            &&& i % (4 * w) == col * 4 + k
            &&& i % 4 == k
            &&& mirror_at(w, i) == row * (4 * w) + (w - 1 - col) * 4 + k
            &&& 0 <= mirror_at(w, i) < w * h * 4
        }),
{
    let i = row * (4 * w) + col * 4 + k;
    let rest = col * 4 + k;
    assert(0 <= rest < 4 * w);
    assert(row * (4 * w) >= 0) by (nonlinear_arith)
        requires
            row >= 0,
            w > 0,
    ;
    assert((row + 1) * (4 * w) <= w * h * 4) by (nonlinear_arith)
        requires
            row + 1 <= h,
            w > 0,
    ;
    assert((row + 1) * (4 * w) == row * (4 * w) + 4 * w) by (nonlinear_arith);
    vstd::arithmetic::div_mod::lemma_fundamental_div_mod_converse(i, 4 * w, row, rest);
    assert(row * (4 * w) == 4 * (row * w)) by (nonlinear_arith);
    assert(i % 4 == k);
}

/// A picture that is mirrored twice is as it was.
pub proof fn flip_twice_is_nothing(src: Seq<u8>, w: int, h: int)
    requires
        w >= 0,
        h >= 0,
        src.len() == w * h * 4,
    ensures
        flip_of(flip_of(src, w, h), w, h) == src,
{
    let once = flip_of(src, w, h);
    let twice = flip_of(once, w, h);
    assert forall|i: int| 0 <= i < src.len() implies #[trigger] twice[i] == src[i] by {
        assert(w > 0 && h > 0) by (nonlinear_arith)
            requires
                0 <= i < w * h * 4,
                w >= 0,
                h >= 0,
        ;
        let row = i / (4 * w);
        let rest = i % (4 * w);
        let col = rest / 4;
        let k = rest % 4;
        vstd::arithmetic::div_mod::lemma_fundamental_div_mod(i, 4 * w);
        assert((4 * w) * row == row * (4 * w)) by (nonlinear_arith);
        assert(0 <= row < h) by (nonlinear_arith)
            requires
                i == row * (4 * w) + rest,
                0 <= rest < 4 * w,
                0 <= i < w * h * 4,
                w > 0,
        ;
        lemma_mirror(w, h, row, col, k);
        lemma_mirror(w, h, row, w - 1 - col, k);
    }
    assert(twice =~= src);
}

/// Every pixel of a mirrored picture is the one that stands as far from the other
/// side of its row, all four bytes of it.
pub proof fn mirrored_pixel_stands_opposite(src: Seq<u8>, w: int, h: int, row: int, col: int, k: int)
    requires
        0 <= row < h,
        0 <= col < w,
        0 <= k < 4,
        src.len() >= w * h * 4,
    ensures
        flip_of(src, w, h)[row * (4 * w) + col * 4 + k] == src[row * (4 * w) + (w - 1 - col) * 4
            + k],
{
    lemma_mirror(w, h, row, col, k);
}

/// A picture of `height` rows of `width` pixels, mirrored from side to side.
pub fn flip_h_rgba(src: &[u8], width: u32, height: u32) -> (r: Vec<u8>)
    requires
        width * height * 4 <= src@.len(),
    ensures
        r@ == flip_of(src@, width as int, height as int),
{
    let w: usize = width as usize;
    let h: usize = height as usize;
    let size: usize = src.len();
    let ghost total = width * height * 4;
    let mut out: Vec<u8> = Vec::new();
    let mut row: usize = 0;
    assert(0 * (4 * w) == 0);
    while row < h
        invariant
            row <= h,
            w == width,
            h == height,
            total == w * h * 4,
            total <= src@.len(),
            size == src@.len(),
            out@.len() == row * (4 * w),
            forall|i: int| 0 <= i < out@.len() ==> #[trigger] out@[i] == src@[mirror_at(
                w as int,
                i,
            )],
        decreases h - row,
    {
        let mut col: usize = 0;
        proof {
            assert((row + 1) * (4 * w) <= total) by (nonlinear_arith)
                requires
                    row + 1 <= h,
                    total == w * h * 4,
                    w >= 0,
            ;
            assert((row + 1) * (4 * w) == row * (4 * w) + 4 * w) by (nonlinear_arith);
        }
        let base: usize = out.len();
        while col < w
            invariant
                col <= w,
                row < h,
                w == width,
                h == height,
                total == w * h * 4,
                total <= src@.len(),
            size == src@.len(),
                base == row * (4 * w),
                base + 4 * w <= total,
                out@.len() == base + 4 * col,
                forall|i: int| 0 <= i < out@.len() ==> #[trigger] out@[i] == src@[mirror_at(
                    w as int,
                    i,
                )],
            decreases w - col,
        {
            let from: usize = base + 4 * (w - 1 - col);
            proof {
                lemma_mirror(w as int, h as int, row as int, col as int, 0);
                lemma_mirror(w as int, h as int, row as int, col as int, 1);
                lemma_mirror(w as int, h as int, row as int, col as int, 2);
                lemma_mirror(w as int, h as int, row as int, col as int, 3);
            }
            out.push(src[from]);
            out.push(src[from + 1]);
            out.push(src[from + 2]);
            out.push(src[from + 3]);
            col = col + 1;
        }
        row = row + 1;
    }
    proof {
        assert(h * (4 * w) == total) by (nonlinear_arith)
            requires
                total == w * h * 4,
        ;
    }
    while out.len() < size
        invariant
            total == width * height * 4,
            size == src@.len(),
            total <= out@.len() <= size,
            forall|i: int| 0 <= i < total ==> #[trigger] out@[i] == src@[mirror_at(
                width as int,
                i,
            )],
            forall|i: int| total <= i < out@.len() ==> #[trigger] out@[i] == 0,
        decreases size - out.len(),
    {
        out.push(0);
    }
    assert(out@ =~= flip_of(src@, width as int, height as int));
    out
}

// ---------------------------------------------------------------------------
// Colours of a video frame
// ---------------------------------------------------------------------------

/// A number in single precision, in units of 2 to the power of -27.
pub open spec fn single(n: int) -> int {
    float::round_int_of(n, 24)
}

/// The brightness of a colour: 0.299 r + 0.587 g + 0.114 b in single precision,
/// in units of 2 to the power of -27.
pub open spec fn luma_of(r: int, g: int, b: int) -> int {
    single(single(single(40131100 * r) + single(78785808 * g)) + single(15300821 * b))
}

/// 128 - 0.168736 r - 0.331264 g + 0.5 b in single precision, in units of 2 to
/// the power of -27.
pub open spec fn chroma_u_of(r: int, g: int, b: int) -> int {
    single(
        single(single(17179869184 - single(22647362 * r)) - single(44461500 * g)) + single(
            67108864 * b,
        ),
    )
}

/// 128 + 0.5 r - 0.418688 g - 0.081312 b in single precision, in units of 2 to
/// the power of -27.
pub open spec fn chroma_v_of(r: int, g: int, b: int) -> int {
    single(
        single(single(17179869184 + single(67108864 * r)) - single(56195352 * g)) - single(
            10913512 * b,
        ),
    )
}

/// `n` parts of `unit`, rounded to a whole number of 0 to 255.
pub open spec fn clamp_of(n: int, unit: int) -> int {
    let v = if n < 0 {
        0
    } else {
        (2 * n + unit) / (2 * unit)
    };
    if v > 255 {
        255
    } else {
        v
    }
}

/// The four bytes of two pixels that stand side by side, the first at byte `i`:
/// the brightness of each, and between them what they share of the colour.
#[verifier::opaque]
pub open spec fn pair_of(rgba: Seq<u8>, i: int) -> Seq<u8> {
    let (r0, g0, b0) = (rgba[i] as int, rgba[i + 1] as int, rgba[i + 2] as int);
    let (r1, g1, b1) = (rgba[i + 4] as int, rgba[i + 5] as int, rgba[i + 6] as int);
    seq![
        clamp_of(luma_of(r0, g0, b0), 0x800_0000) as u8,
        clamp_of(single(chroma_u_of(r0, g0, b0) + chroma_u_of(r1, g1, b1)), 0x1000_0000) as u8,
        clamp_of(luma_of(r1, g1, b1), 0x800_0000) as u8,
        clamp_of(single(chroma_v_of(r0, g0, b0) + chroma_v_of(r1, g1, b1)), 0x1000_0000) as u8,
    ]
}

/// The pairs of a row whose first pixel is the pixel `base`.
pub open spec fn row_of(rgba: Seq<u8>, base: int, pairs: nat) -> Seq<u8>
    decreases pairs,
{
    if pairs == 0 {
        Seq::empty()
    } else {
        row_of(rgba, base, (pairs - 1) as nat) + pair_of(rgba, 4 * (base + 2 * (pairs - 1)))
    }
}

/// The pairs of the first `h` rows of `w` pixels. A last pixel without a
/// partner is left out.
pub open spec fn rows_of(rgba: Seq<u8>, w: int, h: nat) -> Seq<u8>
    decreases h,
{
    if h == 0 {
        Seq::empty()
    } else {
        rows_of(rgba, w, (h - 1) as nat) + row_of(rgba, (h - 1) * w, (w / 2) as nat)
    }
}

/// A picture as a video frame of two bytes a pixel. What the pairs do not fill
/// is 0.
pub open spec fn yuyv_of(rgba: Seq<u8>, w: int, h: int) -> Seq<u8> {
    let rows = rows_of(rgba, w, h as nat);
    rows + Seq::new((w * h * 2 - rows.len()) as nat, |i: int| 0u8)
}

proof fn lemma_row_len(rgba: Seq<u8>, base: int, pairs: nat)
    ensures
        row_of(rgba, base, pairs).len() == 4 * pairs,
    decreases pairs,
{
    if pairs > 0 {
        lemma_row_len(rgba, base, (pairs - 1) as nat);
        lemma_pair_len(rgba, 4 * (base + 2 * (pairs - 1)));
    }
}

proof fn lemma_pair_len(rgba: Seq<u8>, i: int)
    ensures
        pair_of(rgba, i).len() == 4,
{
    reveal(pair_of);
}

proof fn lemma_rows_len(rgba: Seq<u8>, w: int, h: nat)
    requires
        w >= 0,
    ensures
        rows_of(rgba, w, h).len() == h * (4 * (w / 2)),
        rows_of(rgba, w, h).len() <= w * h * 2,
    decreases h,
{
    let p = 4 * (w / 2);
    if h > 0 {
        lemma_rows_len(rgba, w, (h - 1) as nat);
        lemma_row_len(rgba, (h - 1) * w, (w / 2) as nat);
        assert(h * p == (h - 1) * p + p) by (nonlinear_arith);
    } else {
        assert(h * p == 0) by (nonlinear_arith)
            requires
                h == 0,
        ;
    }
    assert(h * p <= w * h * 2) by (nonlinear_arith)
        requires
            0 <= p <= 2 * w,
            h >= 0,
    ;
}

/// A video frame has two bytes a pixel.
pub proof fn yuyv_len(rgba: Seq<u8>, w: int, h: int)
    requires
        w >= 0,
        h >= 0,
    ensures
        yuyv_of(rgba, w, h).len() == w * h * 2,
{
    lemma_rows_len(rgba, w, h as nat);
}

/// Every pair of pixels has its four bytes of the frame, pair by pair and row by
/// row.
pub proof fn pairs_stand_in_place(rgba: Seq<u8>, w: int, h: nat, row: int, pair: int)
    requires
        w >= 0,
        0 <= row < h,
        0 <= pair < w / 2,
    ensures
        yuyv_of(rgba, w, h as int).subrange(
            4 * (row * (w / 2) + pair),
            4 * (row * (w / 2) + pair) + 4,
        ) == pair_of(rgba, 4 * (row * w + 2 * pair)),
{
    lemma_pair_placed(rgba, w, h, row, pair);
    lemma_rows_len(rgba, w, h);
    let all = yuyv_of(rgba, w, h as int);
    let at = 4 * (row * (w / 2) + pair);
    assert(all.subrange(at, at + 4) =~= rows_of(rgba, w, h).subrange(at, at + 4));
}

proof fn lemma_pair_placed(rgba: Seq<u8>, w: int, h: nat, row: int, pair: int)
    requires
        w >= 0,
        0 <= row < h,
        0 <= pair < w / 2,
    ensures
        ({
            let at = 4 * (row * (w / 2) + pair);
            &&& 0 <= at && at + 4 <= rows_of(rgba, w, h).len()
            &&& rows_of(rgba, w, h).subrange(at, at + 4) == pair_of(rgba, 4 * (row * w + 2 * pair))
        }),
    decreases h,
{
    let g = (h - 1) as nat;
    let p = w / 2;
    let at = 4 * (row * p + pair);
    let init = rows_of(rgba, w, g);
    let last = row_of(rgba, g * w, p as nat);
    let r = rows_of(rgba, w, h);
    lemma_rows_len(rgba, w, g);
    lemma_row_len(rgba, g * w, p as nat);
    assert(g * (4 * p) == 4 * (g * p)) by (nonlinear_arith);
    assert(row * p >= 0) by (nonlinear_arith)
        requires
            row >= 0,
            p >= 0,
    ;
    if row < g {
        lemma_pair_placed(rgba, w, g, row, pair);
        assert(r.subrange(at, at + 4) =~= init.subrange(at, at + 4));
    } else {
        assert(row * p == g * p);
        lemma_row_pair(rgba, g * w, p as nat, pair);
        assert(r.subrange(at, at + 4) =~= last.subrange(4 * pair, 4 * pair + 4));
    }
}

proof fn lemma_row_pair(rgba: Seq<u8>, base: int, pairs: nat, pair: int)
    requires
        0 <= pair < pairs,
    ensures
        row_of(rgba, base, pairs).len() == 4 * pairs,
        row_of(rgba, base, pairs).subrange(4 * pair, 4 * pair + 4) == pair_of(
            rgba,
            4 * (base + 2 * pair),
        ),
    decreases pairs,
{
    let k = (pairs - 1) as nat;
    let init = row_of(rgba, base, k);
    let r = row_of(rgba, base, pairs);
    lemma_row_len(rgba, base, pairs);
    lemma_row_len(rgba, base, k);
    lemma_pair_len(rgba, 4 * (base + 2 * (pairs - 1)));
    if pair < k {
        lemma_row_pair(rgba, base, k, pair);
        assert(r.subrange(4 * pair, 4 * pair + 4) =~= init.subrange(4 * pair, 4 * pair + 4));
    } else {
        assert(r.subrange(4 * pair, 4 * pair + 4) =~= pair_of(rgba, 4 * (base + 2 * pair)));
    }
}

fn to_single(n: i64) -> (r: i64)
    requires
        -0x100_0000_0000_0000 < n < 0x100_0000_0000_0000,
    ensures
        r == single(n as int),
        n >= 0 ==> 0 <= r <= 2 * n,
        n <= 0 ==> 2 * n <= r <= 0,
{
    proof {
        float::lemma_round_bound(
            (if n < 0 {
                -n
            } else {
                n as int
            }) as nat,
            24,
        );
    }
    if n < 0 {
        -(float::round((-n) as u128, 24) as i64)
    } else {
        float::round(n as u128, 24) as i64
    }
}

fn luma(r: u8, g: u8, b: u8) -> (n: i64)
    ensures
        n == luma_of(r as int, g as int, b as int),
        -0x100_0000_0000 < n < 0x100_0000_0000,
{
    let x = to_single(40131100 * r as i64);
    let y = to_single(78785808 * g as i64);
    let z = to_single(15300821 * b as i64);
    to_single(to_single(x + y) + z)
}

fn chroma_u(r: u8, g: u8, b: u8) -> (n: i64)
    ensures
        n == chroma_u_of(r as int, g as int, b as int),
        -0x1000_0000_0000 < n < 0x1000_0000_0000,
{
    let x = to_single(22647362 * r as i64);
    let y = to_single(44461500 * g as i64);
    let z = to_single(67108864 * b as i64);
    to_single(to_single(to_single(17179869184 - x) - y) + z)
}

fn chroma_v(r: u8, g: u8, b: u8) -> (n: i64)
    ensures
        n == chroma_v_of(r as int, g as int, b as int),
        -0x1000_0000_0000 < n < 0x1000_0000_0000,
{
    let x = to_single(67108864 * r as i64);
    let y = to_single(56195352 * g as i64);
    let z = to_single(10913512 * b as i64);
    to_single(to_single(to_single(17179869184 + x) - y) - z)
}

fn clamp_u8(n: i64, unit: i64) -> (r: u8)
    requires
        -0x100_0000_0000_0000 < n < 0x100_0000_0000_0000,
        0 < unit <= 0x1000_0000,
    ensures
        r == clamp_of(n as int, unit as int),
{
    if n < 0 {
        return 0;
    }
    let v: i64 = (2 * n + unit) / (2 * unit);
    proof {
        assert(v >= 0) by (nonlinear_arith)
            requires
                v == (2 * n + unit) / (2 * unit),
                n >= 0,
                unit > 0,
        ;
    }
    if v > 255 {
        255
    } else {
        v as u8
    }
}

fn push_pair(out: &mut Vec<u8>, rgba: &[u8], i: usize)
    requires
        i + 7 <= rgba@.len(),
    ensures
        final(out)@ == old(out)@ + pair_of(rgba@, i as int),
{
    let (r0, g0, b0) = (rgba[i], rgba[i + 1], rgba[i + 2]);
    let (r1, g1, b1) = (rgba[i + 4], rgba[i + 5], rgba[i + 6]);
    let u = to_single(chroma_u(r0, g0, b0) + chroma_u(r1, g1, b1));
    let v = to_single(chroma_v(r0, g0, b0) + chroma_v(r1, g1, b1));
    out.push(clamp_u8(luma(r0, g0, b0), 0x800_0000));
    out.push(clamp_u8(u, 0x1000_0000));
    out.push(clamp_u8(luma(r1, g1, b1), 0x800_0000));
    out.push(clamp_u8(v, 0x1000_0000));
    proof {
        reveal(pair_of);
    }
    assert(out@ =~= old(out)@ + pair_of(rgba@, i as int));
}

/// The last byte that the pairs of a picture are made of lies within it.
pub open spec fn has_pairs(len: int, w: int, h: int) -> bool {
    w < 2 || h == 0 || 4 * ((h - 1) * w + 2 * (w / 2) - 2) + 7 <= len
}

/// A picture of `height` rows of `width` pixels as a video frame of two bytes a
/// pixel.
pub fn rgba_to_yuyv(rgba: &[u8], width: u32, height: u32) -> (r: Vec<u8>)
    requires
        has_pairs(rgba@.len() as int, width as int, height as int),
        width * height * 2 <= usize::MAX,
    ensures
        r@ == yuyv_of(rgba@, width as int, height as int),
{
    let w: usize = width as usize;
    let h: usize = height as usize;
    let pairs: usize = w / 2;
    let size: usize = rgba.len();
    let mut out: Vec<u8> = Vec::new();
    let mut row: usize = 0;
    let mut base: usize = 0;
    let ghost rows = rows_of(rgba@, w as int, h as nat);
    while row < h
        invariant
            row <= h,
            w == width,
            h == height,
            pairs == w / 2,
            size == rgba@.len(),
            has_pairs(size as int, w as int, h as int),
            w * h * 2 <= usize::MAX,
            base == row * w,
            out@ == rows_of(rgba@, w as int, row as nat),
        decreases h - row,
    {
        let ghost before = out@;
        let mut p: usize = 0;
        assert(before + row_of(rgba@, base as int, 0) =~= before);
        proof {
            assert(row * w <= (h - 1) * w) by (nonlinear_arith)
                requires
                    row <= h - 1,
                    w >= 0,
            ;
            assert((row + 1) * w == row * w + w) by (nonlinear_arith);
            assert((row + 1) * w <= h * w) by (nonlinear_arith)
                requires
                    row + 1 <= h,
                    w >= 0,
            ;
            assert(w * h * 2 == 2 * (h * w)) by (nonlinear_arith);
        }
        while p < pairs
            invariant
                p <= pairs,
                row < h,
                w == width,
                h == height,
                pairs == w / 2,
                size == rgba@.len(),
                has_pairs(size as int, w as int, h as int),
                base == row * w,
                row * w <= (h - 1) * w,
                out@ == before + row_of(rgba@, base as int, p as nat),
            decreases pairs - p,
        {
            let i: usize = 4 * (base + 2 * p);
            push_pair(&mut out, rgba, i);
            p = p + 1;
            assert(out@ =~= before + row_of(rgba@, base as int, p as nat));
        }
        base = base + w;
        row = row + 1;
        proof {
            assert((row - 1) * w == base - w);
        }
    }
    proof {
        lemma_rows_len(rgba@, w as int, h as nat);
    }
    let total: usize = (width as u64 * height as u64 * 2) as usize;
    let ghost made = out@.len();
    while out.len() < total
        invariant
            made == rows.len(),
            made <= out@.len() <= total,
            out@ == rows + Seq::new((out@.len() - made) as nat, |i: int| 0u8),
        decreases total - out.len(),
    {
        out.push(0);
        assert(out@ =~= rows + Seq::new((out@.len() - made) as nat, |i: int| 0u8));
    }
    out
}

// ---------------------------------------------------------------------------
// Lines
// ---------------------------------------------------------------------------

/// The picture with the pixel at column `x` and row `y` in `color`, where it
/// lies within.
pub open spec fn put_px_of(
    rgba: Seq<u8>,
    width: int,
    x: int,
    y: int,
    color: (u8, u8, u8),
) -> Seq<u8> {
    let i = (y * width + x) * 4;
    if x < 0 || y < 0 || x >= width || i + 3 >= rgba.len() {
        rgba
    } else {
        rgba.update(i, color.0).update(i + 1, color.1).update(i + 2, color.2).update(i + 3, 255)
    }
}

/// The place of the pixel can be counted, where it is not left out.
pub open spec fn countable(width: int, x: int, y: int) -> bool {
    0 <= x < width && 0 <= y ==> (y * width + x) * 4 <= u32::MAX
}

/// Sets the pixel at column `x` and row `y`, where it lies within the picture.
pub fn put_px(rgba: &mut Vec<u8>, width: u32, x: i32, y: i32, color: (u8, u8, u8))
    requires
        countable(width as int, x as int, y as int),
    ensures
        final(rgba)@ == put_px_of(old(rgba)@, width as int, x as int, y as int, color),
{
    if x < 0 || y < 0 || x as u32 >= width {
        return;
    }
    proof {
        assert(0 <= y * width) by (nonlinear_arith)
            requires
                y >= 0,
                width >= 0,
        ;
    }
    let at: u32 = (y as u32 * width + x as u32) * 4;
    let len: usize = rgba.len();
    if at as u64 + 3 >= len as u64 {
        return;
    }
    let i: usize = at as usize;
    rgba.set(i, color.0);
    rgba.set(i + 1, color.1);
    rgba.set(i + 2, color.2);
    rgba.set(i + 3, 255);
}

/// How far a line is off after `x` steps across and `y` steps up or down, of
/// `d` and `h`.
pub open spec fn error_of(d: int, h: int, x: int, y: int) -> int {
    d * (y + 1) - h * (x + 1)
}

/// Whether the next step goes across.
pub open spec fn across(d: int, h: int, x: int, y: int) -> bool {
    2 * error_of(d, h, x, y) >= -h
}

/// Whether the next step goes up or down.
pub open spec fn along(d: int, h: int, x: int, y: int) -> bool {
    2 * error_of(d, h, x, y) <= d
}

/// A line that is not at its end goes on, and never past it.
pub proof fn lemma_step(d: int, h: int, x: int, y: int)
    requires
        0 <= x <= d,
        0 <= y <= h,
        x < d || y < h,
    ensures
        across(d, h, x, y) || along(d, h, x, y),
        across(d, h, x, y) ==> x < d,
        along(d, h, x, y) ==> y < h,
{
    if x == d {
        assert(2 * (d * (y + 1) - h * (d + 1)) < -h) by (nonlinear_arith)
            requires
                0 <= y < h,
                0 <= d,
        ;
    }
    if y == h {
        assert(2 * (d * (h + 1) - h * (x + 1)) > d) by (nonlinear_arith)
            requires
                0 <= x < d,
                0 <= h,
        ;
    }
}

/// The points of a line from `(x, y)` to `(d, h)`, as steps from its beginning:
/// each next one is one step across, one up or down, or both.
pub open spec fn steps_of(d: int, h: int, x: int, y: int) -> Seq<(int, int)>
    decreases (d - x) + (h - y),
{
    if !(0 <= x <= d && 0 <= y <= h) {
        Seq::empty()
    } else if x == d && y == h {
        seq![(x, y)]
    } else {
        proof {
            lemma_step(d, h, x, y);
        }
        seq![(x, y)] + steps_of(
            d,
            h,
            if across(d, h, x, y) {
                x + 1
            } else {
                x
            },
            if along(d, h, x, y) {
                y + 1
            } else {
                y
            },
        )
    }
}

pub open spec fn distance(a: int, b: int) -> int {
    if a < b {
        b - a
    } else {
        a - b
    }
}

/// From `a` towards `b`, so many steps.
pub open spec fn towards(a: int, b: int, steps: int) -> int {
    if a < b {
        a + steps
    } else {
        a - steps
    }
}

/// The points of the line from `a` to `b`.
pub open spec fn line_of(a: (int, int), b: (int, int)) -> Seq<(int, int)> {
    steps_of(distance(a.0, b.0), distance(a.1, b.1), 0, 0).map_values(
        |s: (int, int)| (towards(a.0, b.0, s.0), towards(a.1, b.1, s.1)),
    )
}

proof fn lemma_steps(d: int, h: int, x: int, y: int)
    requires
        0 <= x <= d,
        0 <= y <= h,
    ensures
        steps_of(d, h, x, y).len() > 0,
        steps_of(d, h, x, y)[0] == (x, y),
        steps_of(d, h, x, y).last() == (d, h),
        forall|i: int|
            0 <= i < steps_of(d, h, x, y).len() ==> x <= (#[trigger] steps_of(d, h, x, y)[i]).0 <= d
                && y <= steps_of(d, h, x, y)[i].1 <= h,
        forall|i: int|
            0 <= i < steps_of(d, h, x, y).len() - 1 ==> {
                let p = #[trigger] steps_of(d, h, x, y)[i];
                let q = steps_of(d, h, x, y)[i + 1];
                &&& p.0 <= q.0 <= p.0 + 1
                &&& p.1 <= q.1 <= p.1 + 1
                &&& p != q
            },
    decreases (d - x) + (h - y),
{
    let s = steps_of(d, h, x, y);
    if x < d || y < h {
        lemma_step(d, h, x, y);
        let x1 = if across(d, h, x, y) {
            x + 1
        } else {
            x
        };
        let y1 = if along(d, h, x, y) {
            y + 1
        } else {
            y
        };
        lemma_steps(d, h, x1, y1);
        let rest = steps_of(d, h, x1, y1);
        assert(s =~= seq![(x, y)] + rest);
        assert(s.last() == rest.last());
        assert forall|i: int| 0 <= i < s.len() implies x <= (#[trigger] s[i]).0 <= d && y <= s[i].1
            <= h by {
            if i > 0 {
                assert(s[i] == rest[i - 1]);
            }
        }
        assert forall|i: int| 0 <= i < s.len() - 1 implies {
            let p = #[trigger] s[i];
            let q = s[i + 1];
            &&& p.0 <= q.0 <= p.0 + 1
            &&& p.1 <= q.1 <= p.1 + 1
            &&& p != q
        } by {
            if i > 0 {
                assert(s[i] == rest[i - 1] && s[i + 1] == rest[i]);
            } else {
                assert(s[1] == rest[0]);
            }
        }
    }
}

/// How far a line is below the straight one, in parts: it is never off by more
/// than half a step.
pub open spec fn near(d: int, h: int, x: int, y: int) -> bool {
    let off = 2 * (d * y - h * x);
    if d >= h {
        -d <= off <= d
    } else {
        -h <= off <= h
    }
}

proof fn lemma_steps_len(d: int, h: int, x: int, y: int)
    requires
        0 <= x <= d,
        0 <= y <= h,
        near(d, h, x, y),
    ensures
        steps_of(d, h, x, y).len() == 1 + if d >= h {
            d - x
        } else {
            h - y
        },
    decreases (d - x) + (h - y),
{
    let f = d * y - h * x;
    assert(d * (y + 1) == d * y + d) by (nonlinear_arith);
    assert(h * (x + 1) == h * x + h) by (nonlinear_arith);
    assert(error_of(d, h, x, y) == f + d - h);
    if d >= h && x == d {
        assert(y == h) by (nonlinear_arith)
            requires
                -d <= 2 * (d * y - h * d),
                0 <= y <= h <= d,
        ;
    }
    if d < h && y == h {
        assert(x == d) by (nonlinear_arith)
            requires
                2 * (d * h - h * x) <= h,
                0 <= x <= d < h,
        ;
    }
    if x < d || y < h {
        lemma_step(d, h, x, y);
        lemma_steps_len(
            d,
            h,
            if across(d, h, x, y) {
                x + 1
            } else {
                x
            },
            if along(d, h, x, y) {
                y + 1
            } else {
                y
            },
        );
    }
}

proof fn lemma_neighbours(a: (int, int), b: (int, int), i: int)
    requires
        0 <= i < line_of(a, b).len() - 1,
    ensures
        distance(line_of(a, b)[i].0, line_of(a, b)[i + 1].0) <= 1,
        distance(line_of(a, b)[i].1, line_of(a, b)[i + 1].1) <= 1,
        line_of(a, b)[i] != line_of(a, b)[i + 1],
{
    let d = distance(a.0, b.0);
    let h = distance(a.1, b.1);
    lemma_steps(d, h, 0, 0);
    let p = steps_of(d, h, 0, 0)[i];
    let q = steps_of(d, h, 0, 0)[i + 1];
    assert(p.0 <= q.0 <= p.0 + 1 && p.1 <= q.1 <= p.1 + 1 && p != q);
}

proof fn lemma_line_len(a: (int, int), b: (int, int))
    ensures
        line_of(a, b).len() == 1 + if distance(a.0, b.0) >= distance(a.1, b.1) {
            distance(a.0, b.0)
        } else {
            distance(a.1, b.1)
        },
{
    let d = distance(a.0, b.0);
    let h = distance(a.1, b.1);
    assert(near(d, h, 0, 0));
    lemma_steps_len(d, h, 0, 0);
}

/// A line begins at its first end, ends at its last, goes from each point to a
/// neighbour of it, and never leaves the box between the ends. It has no more
/// points than that takes.
pub proof fn line_joins_its_ends(a: (int, int), b: (int, int))
    ensures
        line_of(a, b).len() == 1 + if distance(a.0, b.0) >= distance(a.1, b.1) {
            distance(a.0, b.0)
        } else {
            distance(a.1, b.1)
        },
        line_of(a, b)[0] == a,
        line_of(a, b).last() == b,
        forall|i: int|
            0 <= i < line_of(a, b).len() ==> {
                let p = #[trigger] line_of(a, b)[i];
                &&& distance(a.0, p.0) <= distance(a.0, b.0)
                &&& distance(p.0, b.0) <= distance(a.0, b.0)
                &&& distance(a.1, p.1) <= distance(a.1, b.1)
                &&& distance(p.1, b.1) <= distance(a.1, b.1)
            },
        forall|i: int|
            0 <= i < line_of(a, b).len() - 1 ==> {
                let p = #[trigger] line_of(a, b)[i];
                let q = line_of(a, b)[i + 1];
                &&& distance(p.0, q.0) <= 1
                &&& distance(p.1, q.1) <= 1
                &&& p != q
            },
{
    lemma_line_len(a, b);
    assert(line_of(a, b)[0] == a && line_of(a, b).last() == b) by {
        lemma_steps(distance(a.0, b.0), distance(a.1, b.1), 0, 0);
    }
    assert forall|i: int| 0 <= i < line_of(a, b).len() - 1 implies {
        let p = #[trigger] line_of(a, b)[i];
        let q = line_of(a, b)[i + 1];
        &&& distance(p.0, q.0) <= 1
        &&& distance(p.1, q.1) <= 1
        &&& p != q
    } by {
        lemma_neighbours(a, b, i);
    }
    assert forall|i: int| 0 <= i < line_of(a, b).len() implies {
        let p = #[trigger] line_of(a, b)[i];
        &&& distance(a.0, p.0) <= distance(a.0, b.0)
        &&& distance(p.0, b.0) <= distance(a.0, b.0)
        &&& distance(a.1, p.1) <= distance(a.1, b.1)
        &&& distance(p.1, b.1) <= distance(a.1, b.1)
    } by {
        lemma_steps(distance(a.0, b.0), distance(a.1, b.1), 0, 0);
        let s = steps_of(distance(a.0, b.0), distance(a.1, b.1), 0, 0)[i];
        assert(0 <= s.0 <= distance(a.0, b.0) && 0 <= s.1 <= distance(a.1, b.1));
    }
}

/// The picture with each of the points in `color`, in turn.
pub open spec fn draw_of(
    rgba: Seq<u8>,
    width: int,
    points: Seq<(int, int)>,
    color: (u8, u8, u8),
) -> Seq<u8>
    decreases points.len(),
{
    if points.len() == 0 {
        rgba
    } else {
        draw_of(
            put_px_of(rgba, width, points[0].0, points[0].1, color),
            width,
            points.skip(1),
            color,
        )
    }
}

/// The byte `i` belongs to the pixel at the point `p`, which lies within the
/// picture.
pub open spec fn in_pixel(len: int, width: int, p: (int, int), i: int) -> bool {
    let at = (p.1 * width + p.0) * 4;
    0 <= p.0 < width && 0 <= p.1 && at + 4 <= len && at <= i < at + 4
}

/// Each point that lies within the picture gets the colour, and is opaque; every
/// other pixel stays as it was.
pub proof fn points_alone_are_coloured(
    rgba: Seq<u8>,
    width: int,
    points: Seq<(int, int)>,
    color: (u8, u8, u8),
    i: int,
)
    requires
        0 <= i < rgba.len(),
    ensures
        draw_of(rgba, width, points, color).len() == rgba.len(),
        (exists|k: int|
            0 <= k < points.len() && in_pixel(rgba.len() as int, width, #[trigger] points[k], i))
            ==> draw_of(rgba, width, points, color)[i] == if i % 4 == 0 {
            color.0
        } else if i % 4 == 1 {
            color.1
        } else if i % 4 == 2 {
            color.2
        } else {
            255
        },
        (forall|k: int|
            0 <= k < points.len() ==> !in_pixel(rgba.len() as int, width, #[trigger] points[k], i))
            ==> draw_of(rgba, width, points, color)[i] == rgba[i],
    decreases points.len(),
{
    if points.len() > 0 {
        let p = points[0];
        let one = put_px_of(rgba, width, p.0, p.1, color);
        let rest = points.skip(1);
        assert(one.len() == rgba.len());
        if 0 <= p.0 < width && 0 <= p.1 {
            assert(0 <= (p.1 * width + p.0) * 4) by (nonlinear_arith)
                requires
                    0 <= p.0,
                    0 < width,
                    0 <= p.1,
            ;
        }
        points_alone_are_coloured(one, width, rest, color, i);
        assert forall|k: int| 0 <= k < rest.len() implies #[trigger] rest[k] == points[k + 1] by {}
        if forall|k: int|
            0 <= k < rest.len() ==> !in_pixel(rgba.len() as int, width, #[trigger] rest[k], i) {
            if exists|k: int|
                0 <= k < points.len() && in_pixel(
                    rgba.len() as int,
                    width,
                    #[trigger] points[k],
                    i,
                ) {
                let k = choose|k: int|
                    0 <= k < points.len() && in_pixel(
                        rgba.len() as int,
                        width,
                        #[trigger] points[k],
                        i,
                    );
                if k > 0 {
                    assert(rest[k - 1] == points[k]);
                }
                assert(k == 0);
            } else {
                assert(!in_pixel(rgba.len() as int, width, points[0], i));
            }
        } else {
            let k = choose|k: int|
                0 <= k < rest.len() && in_pixel(rgba.len() as int, width, #[trigger] rest[k], i);
            assert(points[k + 1] == rest[k]);
        }
    }
}

/// The places of all the points can be counted, as far as they are not left
/// out.
pub open spec fn all_countable(width: int, points: Seq<(int, int)>) -> bool {
    forall|i: int|
        0 <= i < points.len() ==> countable(
            width,
            (#[trigger] points[i]).0,
            points[i].1,
        )
}

/// Draws the line from `a` to `b`.
pub fn draw_line(
    rgba: &mut Vec<u8>,
    width: u32,
    a: (i32, i32),
    b: (i32, i32),
    color: (u8, u8, u8),
)
    requires
        all_countable(
            width as int,
            line_of((a.0 as int, a.1 as int), (b.0 as int, b.1 as int)),
        ),
    ensures
        final(rgba)@ == draw_of(
            old(rgba)@,
            width as int,
            line_of((a.0 as int, a.1 as int), (b.0 as int, b.1 as int)),
            color,
        ),
{
    let ghost ga = (a.0 as int, a.1 as int);
    let ghost gb = (b.0 as int, b.1 as int);
    let right = a.0 < b.0;
    let down = a.1 < b.1;
    let dx: i64 = if right {
        b.0 as i64 - a.0 as i64
    } else {
        a.0 as i64 - b.0 as i64
    };
    let dy: i64 = if down {
        b.1 as i64 - a.1 as i64
    } else {
        a.1 as i64 - b.1 as i64
    };
    let mut x: i64 = 0;
    let mut y: i64 = 0;
    let mut err: i64 = dx - dy;
    let ghost all = line_of(ga, gb);
    let ghost place = |s: (int, int)| (towards(ga.0, gb.0, s.0), towards(ga.1, gb.1, s.1));
    assert(error_of(dx as int, dy as int, 0, 0) == dx - dy) by (nonlinear_arith)
        requires
            error_of(dx as int, dy as int, 0, 0) == dx * (0 + 1) - dy * (0 + 1),
    ;
    loop
        invariant
            ga == (a.0 as int, a.1 as int),
            gb == (b.0 as int, b.1 as int),
            all == line_of(ga, gb),
            right == (a.0 < b.0),
            down == (a.1 < b.1),
            dx == distance(ga.0, gb.0),
            dy == distance(ga.1, gb.1),
            0 <= x <= dx,
            0 <= y <= dy,
            err == error_of(dx as int, dy as int, x as int, y as int),
            -2 * dy <= err <= 2 * dx,
            place == (|s: (int, int)| (towards(ga.0, gb.0, s.0), towards(ga.1, gb.1, s.1))),
            all_countable(
                width as int,
                steps_of(dx as int, dy as int, x as int, y as int).map_values(place),
            ),
            draw_of(old(rgba)@, width as int, all, color) == draw_of(
                rgba@,
                width as int,
                steps_of(dx as int, dy as int, x as int, y as int).map_values(place),
                color,
            ),
        decreases (dx - x) + (dy - y),
    {
        let px: i32 = if right {
            (a.0 as i64 + x) as i32
        } else {
            (a.0 as i64 - x) as i32
        };
        let py: i32 = if down {
            (a.1 as i64 + y) as i32
        } else {
            (a.1 as i64 - y) as i32
        };
        let ghost here = steps_of(dx as int, dy as int, x as int, y as int);
        let ghost points = here.map_values(place);
        proof {
            assert(here[0] == (x as int, y as int));
            assert(points[0] == (px as int, py as int));
        }
        let ghost before = rgba@;
        put_px(rgba, width, px, py, color);
        assert(draw_of(before, width as int, points, color) == draw_of(
            rgba@,
            width as int,
            points.skip(1),
            color,
        ));
        if x == dx && y == dy {
            assert(points.skip(1) =~= Seq::empty());
            assert(draw_of(rgba@, width as int, points.skip(1), color) == rgba@);
            return;
        }
        proof {
            lemma_step(dx as int, dy as int, x as int, y as int);
            let x1 = if across(dx as int, dy as int, x as int, y as int) {
                x + 1
            } else {
                x as int
            };
            let y1 = if along(dx as int, dy as int, x as int, y as int) {
                y + 1
            } else {
                y as int
            };
            let next = steps_of(dx as int, dy as int, x1, y1).map_values(place);
            assert(points.skip(1) =~= next);
            assert forall|i: int| 0 <= i < next.len() implies countable(
                width as int,
                (#[trigger] next[i]).0,
                next[i].1,
            ) by {
                assert(points.skip(1)[i] == points[i + 1]);
            }
            assert(dx * (y + 1 + 1) == dx * (y + 1) + dx) by (nonlinear_arith);
            assert(dy * (x + 1 + 1) == dy * (x + 1) + dy) by (nonlinear_arith);
        }
        let e2: i64 = 2 * err;
        if e2 >= -dy {
            err = err - dy;
            x = x + 1;
        }
        if e2 <= dx {
            err = err + dx;
            y = y + 1;
        }
    }
}

// ---------------------------------------------------------------------------
// The mouth
// ---------------------------------------------------------------------------

/// Which of `len` samples is drawn in the column `col` of `n`.
pub open spec fn sample_index_of(col: int, len: int, n: int) -> int {
    let i = col * len / n;
    if i > len - 1 {
        len - 1
    } else {
        i
    }
}

/// The samples are spread over the columns in their order: from the first on,
/// never past the last, and one for one where there are as many.
pub proof fn samples_are_spread_in_order(a: int, b: int, len: int, n: int)
    requires
        0 <= a <= b < n,
        0 < len,
    ensures
        sample_index_of(0, len, n) == 0,
        0 <= sample_index_of(a, len, n) <= sample_index_of(b, len, n) < len,
        sample_index_of(a, n, n) == a,
        sample_index_of(a, len, n) * n <= a * len < (sample_index_of(a, len, n) + 1) * n,
{
    assert(0 * len == 0);
    assert(a * len <= b * len) by (nonlinear_arith)
        requires
            a <= b,
            0 < len,
    ;
    assert(0 <= a * len) by (nonlinear_arith)
        requires
            0 <= a,
            0 < len,
    ;
    vstd::arithmetic::div_mod::lemma_div_is_ordered(a * len, b * len, n);
    vstd::arithmetic::div_mod::lemma_div_is_ordered(0, a * len, n);
    assert(b * len < n * len) by (nonlinear_arith)
        requires
            b < n,
            0 < len,
    ;
    assert(n * len == len * n) by (nonlinear_arith);
    vstd::arithmetic::div_mod::lemma_fundamental_div_mod(a * len, n);
    vstd::arithmetic::div_mod::lemma_fundamental_div_mod(b * len, n);
    let q = b * len / n;
    let p = a * len / n;
    assert(q < len) by (nonlinear_arith)
        requires
            n * q <= b * len,
            b * len < n * len,
            0 < n,
    ;
    assert(n * p == p * n) by (nonlinear_arith);
    assert((p + 1) * n == p * n + n) by (nonlinear_arith);
    vstd::arithmetic::div_mod::lemma_div_by_multiple(a, n);
}

/// Which of `len` samples is drawn in the column `col` of `n`.
pub fn sample_index(col: usize, len: usize, n: usize) -> (r: usize)
    requires
        len > 0,
        n > 0,
        col * len <= usize::MAX,
    ensures
        r == sample_index_of(col as int, len as int, n as int),
        r < len,
{
    let i: usize = col * len / n;
    if i > len - 1 {
        len - 1
    } else {
        i
    }
}

/// The first row of a line of the given thickness, counted from its middle.
pub open spec fn thick_from(thickness: int) -> int {
    let t = if thickness < 1 {
        1
    } else {
        thickness
    };
    -(t / 2)
}

/// The last row of a line of the given thickness, counted from its middle.
pub open spec fn thick_to(thickness: int) -> int {
    let t = if thickness < 1 {
        1
    } else {
        thickness
    };
    t - 1 - t / 2
}

/// A line has as many rows as its thickness says, one at least, and they lie
/// about its middle.
pub proof fn thick_line_lies_about_its_middle(thickness: int)
    ensures
        thick_to(thickness) - thick_from(thickness) + 1 == if thickness < 1 {
            1
        } else {
            thickness
        },
        thick_from(thickness) <= 0 <= thick_to(thickness),
        0 <= -thick_from(thickness) - thick_to(thickness) <= 1,
{
}

/// The picture with `n` lines from `p` to `q` below each other, the first `lo`
/// rows down.
pub open spec fn thick_of(
    rgba: Seq<u8>,
    width: int,
    p: (int, int),
    q: (int, int),
    lo: int,
    n: nat,
    color: (u8, u8, u8),
) -> Seq<u8>
    decreases n,
{
    if n == 0 {
        rgba
    } else {
        let off = lo + n - 1;
        draw_of(
            thick_of(rgba, width, p, q, lo, (n - 1) as nat, color),
            width,
            line_of((p.0, p.1 + off), (q.0, q.1 + off)),
            color,
        )
    }
}

/// The picture with the curve through the heights `ys` of the columns from `x`
/// on, as far as the column `n`.
pub open spec fn curve_of(
    rgba: Seq<u8>,
    width: int,
    x: int,
    ys: Seq<i32>,
    n: nat,
    thickness: int,
    color: (u8, u8, u8),
) -> Seq<u8>
    decreases n,
{
    if n <= 1 {
        rgba
    } else {
        thick_of(
            curve_of(rgba, width, x, ys, (n - 1) as nat, thickness, color),
            width,
            (x + n - 2, ys[n - 2] as int),
            (x + n - 1, ys[n - 1] as int),
            thick_from(thickness),
            (thick_to(thickness) - thick_from(thickness) + 1) as nat,
            color,
        )
    }
}

/// The pixel at the point `p` has the colour, where it lies within the picture.
pub open spec fn coloured(rgba: Seq<u8>, width: int, p: (int, int), color: (u8, u8, u8)) -> bool {
    let at = (p.1 * width + p.0) * 4;
    0 <= p.0 < width && 0 <= p.1 && at + 4 <= rgba.len() ==> rgba[at] == color.0 && rgba[at + 1]
        == color.1 && rgba[at + 2] == color.2 && rgba[at + 3] == 255
}

/// The curve passes through the height of each of its columns, in its whole
/// thickness.
pub proof fn curve_passes_through_its_heights(
    rgba: Seq<u8>,
    width: int,
    x: int,
    ys: Seq<i32>,
    n: nat,
    thickness: int,
    color: (u8, u8, u8),
    col: int,
    off: int,
)
    requires
        2 <= n,
        0 <= col < n,
        thick_from(thickness) <= off <= thick_to(thickness),
    ensures
        coloured(
            curve_of(rgba, width, x, ys, n, thickness, color),
            width,
            (x + col, ys[col] + off),
            color,
        ),
        coloured(
            curve_of(rgba, width, x, ys, n, thickness, color),
            width,
            (x + col, ys[col] as int),
            color,
        ),
    decreases n,
{
    thick_line_lies_about_its_middle(thickness);
    let lo = thick_from(thickness);
    let k = (thick_to(thickness) - lo + 1) as nat;
    let init = curve_of(rgba, width, x, ys, (n - 1) as nat, thickness, color);
    let p = (x + n - 2, ys[n - 2] as int);
    let q = (x + n - 1, ys[n - 1] as int);
    if col < n - 2 {
        curve_passes_through_its_heights(
            rgba,
            width,
            x,
            ys,
            (n - 1) as nat,
            thickness,
            color,
            col,
            off,
        );
        lemma_thick_keeps(init, width, p, q, lo, k, color, (x + col, ys[col] + off));
        lemma_thick_keeps(init, width, p, q, lo, k, color, (x + col, ys[col] as int));
    } else {
        lemma_thick_colours(init, width, p, q, lo, k, color, off);
        lemma_thick_colours(init, width, p, q, lo, k, color, 0);
    }
}

proof fn lemma_draw_keeps(
    rgba: Seq<u8>,
    width: int,
    points: Seq<(int, int)>,
    color: (u8, u8, u8),
    p: (int, int),
)
    requires
        coloured(rgba, width, p, color),
    ensures
        draw_of(rgba, width, points, color).len() == rgba.len(),
        coloured(draw_of(rgba, width, points, color), width, p, color),
{
    let at = (p.1 * width + p.0) * 4;
    lemma_draw_len(rgba, width, points, color);
    if 0 <= p.0 < width && 0 <= p.1 && at + 4 <= rgba.len() {
        assert(0 <= at) by (nonlinear_arith)
            requires
                0 <= p.0,
                0 < width,
                0 <= p.1,
                at == (p.1 * width + p.0) * 4,
        ;
        points_alone_are_coloured(rgba, width, points, color, at);
        points_alone_are_coloured(rgba, width, points, color, at + 1);
        points_alone_are_coloured(rgba, width, points, color, at + 2);
        points_alone_are_coloured(rgba, width, points, color, at + 3);
    }
}

proof fn lemma_draw_len(
    rgba: Seq<u8>,
    width: int,
    points: Seq<(int, int)>,
    color: (u8, u8, u8),
)
    ensures
        draw_of(rgba, width, points, color).len() == rgba.len(),
    decreases points.len(),
{
    if points.len() > 0 {
        lemma_draw_len(
            put_px_of(rgba, width, points[0].0, points[0].1, color),
            width,
            points.skip(1),
            color,
        );
    }
}

proof fn lemma_draw_colours(
    rgba: Seq<u8>,
    width: int,
    points: Seq<(int, int)>,
    color: (u8, u8, u8),
    k: int,
)
    requires
        0 <= k < points.len(),
    ensures
        coloured(draw_of(rgba, width, points, color), width, points[k], color),
{
    let p = points[k];
    let at = (p.1 * width + p.0) * 4;
    lemma_draw_len(rgba, width, points, color);
    if 0 <= p.0 < width && 0 <= p.1 && at + 4 <= rgba.len() {
        assert(0 <= at) by (nonlinear_arith)
            requires
                0 <= p.0,
                0 < width,
                0 <= p.1,
                at == (p.1 * width + p.0) * 4,
        ;
        assert(in_pixel(rgba.len() as int, width, points[k], at));
        assert(in_pixel(rgba.len() as int, width, points[k], at + 1));
        assert(in_pixel(rgba.len() as int, width, points[k], at + 2));
        assert(in_pixel(rgba.len() as int, width, points[k], at + 3));
        points_alone_are_coloured(rgba, width, points, color, at);
        points_alone_are_coloured(rgba, width, points, color, at + 1);
        points_alone_are_coloured(rgba, width, points, color, at + 2);
        points_alone_are_coloured(rgba, width, points, color, at + 3);
    }
}

proof fn lemma_thick_keeps(
    rgba: Seq<u8>,
    width: int,
    p: (int, int),
    q: (int, int),
    lo: int,
    n: nat,
    color: (u8, u8, u8),
    point: (int, int),
)
    requires
        coloured(rgba, width, point, color),
    ensures
        coloured(thick_of(rgba, width, p, q, lo, n, color), width, point, color),
    decreases n,
{
    if n > 0 {
        lemma_thick_keeps(rgba, width, p, q, lo, (n - 1) as nat, color, point);
        let off = lo + n - 1;
        lemma_draw_keeps(
            thick_of(rgba, width, p, q, lo, (n - 1) as nat, color),
            width,
            line_of((p.0, p.1 + off), (q.0, q.1 + off)),
            color,
            point,
        );
    }
}

proof fn lemma_thick_colours(
    rgba: Seq<u8>,
    width: int,
    p: (int, int),
    q: (int, int),
    lo: int,
    n: nat,
    color: (u8, u8, u8),
    off: int,
)
    requires
        lo <= off < lo + n,
    ensures
        coloured(thick_of(rgba, width, p, q, lo, n, color), width, (p.0, p.1 + off), color),
        coloured(thick_of(rgba, width, p, q, lo, n, color), width, (q.0, q.1 + off), color),
    decreases n,
{
    let last = lo + n - 1;
    let init = thick_of(rgba, width, p, q, lo, (n - 1) as nat, color);
    let line = line_of((p.0, p.1 + last), (q.0, q.1 + last));
    if off == last {
        line_joins_its_ends((p.0, p.1 + last), (q.0, q.1 + last));
        lemma_draw_colours(init, width, line, color, 0);
        lemma_draw_colours(init, width, line, color, line.len() - 1);
    } else {
        lemma_thick_colours(rgba, width, p, q, lo, (n - 1) as nat, color, off);
        lemma_draw_keeps(init, width, line, color, (p.0, p.1 + off));
        lemma_draw_keeps(init, width, line, color, (q.0, q.1 + off));
    }
}

/// The line to the column `col` of the curve, `off` rows down, can be drawn.
pub open spec fn stroke_fits(width: int, x: int, ys: Seq<i32>, col: int, off: int) -> bool {
    &&& i32::MIN <= ys[col - 1] + off <= i32::MAX
    &&& i32::MIN <= ys[col] + off <= i32::MAX
    &&& all_countable(
        width,
        line_of((x + col - 1, ys[col - 1] + off), (x + col, ys[col] + off)),
    )
}

/// Draws the curve of the mouth through the heights `ys`, one for each of its
/// columns.
pub fn draw_scope(
    rgba: &mut Vec<u8>,
    width: u32,
    mouth: &MouthBox,
    ys: &[i32],
    color: (u8, u8, u8),
    thickness: u32,
)
    requires
        mouth.x + ys@.len() <= i32::MAX,
        thickness <= i32::MAX,
        forall|col: int, off: int|
            1 <= col < ys@.len() && thick_from(thickness as int) <= off <= thick_to(
                thickness as int,
            ) ==> #[trigger] stroke_fits(width as int, mouth.x as int, ys@, col, off),
    ensures
        final(rgba)@ == curve_of(
            old(rgba)@,
            width as int,
            mouth.x as int,
            ys@,
            ys@.len(),
            thickness as int,
            color,
        ),
{
    let t: i32 = if thickness < 1 {
        1
    } else {
        thickness as i32
    };
    let lo: i32 = -(t / 2);
    let hi: i32 = t - 1 - t / 2;
    let n: usize = ys.len();
    let x: i32 = mouth.x as i32;
    if n == 0 {
        return;
    }
    let mut col: usize = 1;
    while col < n
        invariant
            1 <= col <= n,
            n == ys@.len(),
            x == mouth.x,
            x + n <= i32::MAX,
            lo == thick_from(thickness as int),
            hi == thick_to(thickness as int),
            lo <= 0 <= hi,
            hi < i32::MAX,
            forall|c: int, o: int|
                1 <= c < ys@.len() && lo <= o <= hi ==> #[trigger] stroke_fits(
                    width as int,
                    x as int,
                    ys@,
                    c,
                    o,
                ),
            rgba@ == curve_of(
                old(rgba)@,
                width as int,
                x as int,
                ys@,
                col as nat,
                thickness as int,
                color,
            ),
        decreases n - col,
    {
        let ghost before = rgba@;
        let ghost p = (x + col - 1, ys@[col - 1] as int);
        let ghost q = (x + col, ys@[col as int] as int);
        let mut off: i32 = lo;
        while off <= hi
            invariant
                1 <= col < n,
                n == ys@.len(),
                x + n <= i32::MAX,
                0 <= x,
                lo <= 0 <= hi,
                hi < i32::MAX,
                lo <= off <= hi + 1,
                forall|c: int, o: int|
                    1 <= c < ys@.len() && lo <= o <= hi ==> #[trigger] stroke_fits(
                        width as int,
                        x as int,
                        ys@,
                        c,
                        o,
                    ),
                p == (x + col - 1, ys@[col - 1] as int),
                q == (x + col, ys@[col as int] as int),
                rgba@ == thick_of(before, width as int, p, q, lo as int, (off - lo) as nat, color),
            decreases hi + 1 - off,
        {
            assert(stroke_fits(width as int, x as int, ys@, col as int, off as int));
            let a: (i32, i32) = (x + (col - 1) as i32, ys[col - 1] + off);
            let b: (i32, i32) = (x + col as i32, ys[col] + off);
            draw_line(rgba, width, a, b, color);
            off = off + 1;
        }
        col = col + 1;
    }
}

// ---------------------------------------------------------------------------
// Phrases
// ---------------------------------------------------------------------------

/// A character as it is written in a drawing.
pub open spec fn escape_char(c: char) -> Seq<char> {
    if c == '&' {
        "&amp;"@
    } else if c == '<' {
        "&lt;"@
    } else if c == '>' {
        "&gt;"@
    } else if c == '"' {
        "&quot;"@
    } else {
        seq![c]
    }
}

/// A text as it is written in a drawing.
pub open spec fn escape_of(s: Seq<char>) -> Seq<char>
    decreases s.len(),
{
    if s.len() == 0 {
        s
    } else {
        escape_of(s.drop_last()) + escape_char(s.last())
    }
}

/// A text is written character by character: pieces are written as they are one
/// behind the other. Of a written text no character ends an attribute or begins
/// an element.
pub proof fn written_text_stays_a_text(a: Seq<char>, b: Seq<char>)
    ensures
        escape_of(a + b) == escape_of(a) + escape_of(b),
        !escape_of(a).contains('<') && !escape_of(a).contains('>') && !escape_of(a).contains('"'),
        escape_of(seq!['&']) == "&amp;"@,
        escape_of(seq!['<']) == "&lt;"@,
        escape_of(seq!['>']) == "&gt;"@,
        escape_of(seq!['"']) == "&quot;"@,
        forall|c: char|
            c != '&' && c != '<' && c != '>' && c != '"' ==> #[trigger] escape_of(seq![c]) == seq![
                c,
            ],
    decreases b.len(),
{
    if b.len() > 0 {
        written_text_stays_a_text(a, b.drop_last());
        assert((a + b).drop_last() =~= a + b.drop_last());
        assert(escape_of(a + b) =~= escape_of(a) + escape_of(b));
    } else {
        assert(a + b =~= a);
        assert(escape_of(a) + escape_of(b) =~= escape_of(a));
        lemma_escaped_clean(a);
    }
    assert forall|c: char| #[trigger] escape_of(seq![c]) == escape_char(c) by {
        let s = seq![c];
        assert(s.drop_last() =~= Seq::<char>::empty() && s.last() == c);
        assert(escape_of(s) == escape_of(s.drop_last()) + escape_char(c));
        assert(escape_of(s) =~= escape_char(c));
    }
}

proof fn lemma_escaped_clean(s: Seq<char>)
    ensures
        !escape_of(s).contains('<') && !escape_of(s).contains('>') && !escape_of(s).contains('"'),
    decreases s.len(),
{
    if s.len() > 0 {
        let init = escape_of(s.drop_last());
        let last = escape_char(s.last());
        lemma_escaped_clean(s.drop_last());
        reveal_strlit("&amp;");
        reveal_strlit("&lt;");
        reveal_strlit("&gt;");
        reveal_strlit("&quot;");
        assert forall|i: int| 0 <= i < escape_of(s).len() implies escape_of(s)[i] != '<'
            && escape_of(s)[i] != '>' && escape_of(s)[i] != '"' by {
            if i < init.len() {
                assert(escape_of(s)[i] == init[i]);
                assert(init.contains(init[i]));
            } else {
                assert(escape_of(s)[i] == last[i - init.len()]);
            }
        }
    }
}

/// A text as it is written in a drawing.
pub fn xml_escape(s: &str) -> (r: String)
    ensures
        r@ == escape_of(s@),
{
    let chars = chars_of(s);
    let mut out = String::new();
    let mut i: usize = 0;
    assert(s@.take(0) =~= Seq::empty());
    assert(out@ =~= escape_of(s@.take(0)));
    while i < chars.len()
        invariant
            i <= chars@.len(),
            chars@ == s@,
            out@ == escape_of(s@.take(i as int)),
        decreases chars.len() - i,
    {
        assert(s@.take(i + 1).drop_last() =~= s@.take(i as int));
        let c: char = chars[i];
        let ghost was = out@;
        if c == '&' {
            out.append("&amp;");
        } else if c == '<' {
            out.append("&lt;");
        } else if c == '>' {
            out.append("&gt;");
        } else if c == '"' {
            out.append("&quot;");
        } else {
            out.push(c);
            assert(out@ =~= was + seq![c]);
        }
        i = i + 1;
    }
    assert(s@.take(s@.len() as int) =~= s@);
    out
}

/// A generator of numbers that look random.
pub struct Rng {
    pub state: u64,
}

/// The state after the state `x`.
pub open spec fn xorshift(x: u64) -> u64 {
    let a = x ^ (x << 13);
    let b = a ^ (a >> 7);
    b ^ (b << 17)
}

/// A generator that is not stuck at 0 never gets there.
pub proof fn rng_never_sticks(x: u64)
    requires
        x != 0,
    ensures
        xorshift(x) != 0,
{
    let a = x ^ (x << 13);
    assert(a != 0) by (bit_vector)
        requires
            x != 0,
            a == x ^ (x << 13),
    ;
    let b = a ^ (a >> 7);
    assert(b != 0) by (bit_vector)
        requires
            a != 0,
            b == a ^ (a >> 7),
    ;
    assert(b ^ (b << 17) != 0) by (bit_vector)
        requires
            b != 0,
    ;
}

/// The number that a state gives: the upper half of the next one.
pub open spec fn number_of(x: u64) -> u32 {
    (xorshift(x) >> 32) as u32
}

/// The state that a generator starts from.
pub open spec fn seed_of(nanos: Option<u64>) -> u64 {
    match nanos {
        Some(n) => n | 1,
        None => 0x9E37_79B9_7F4A_7C15,
    }
}

/// The state before is found again from the one behind it: by undoing a shift by
/// 17, one by 7 the other way and one by 13. So no state comes behind two others.
/// The number is the upper half of the state, and a generator starts from the
/// time, made odd.
pub proof fn states_do_not_meet(x: u64)
    ensures
        ({
            let y = xorshift(x);
            let b = y ^ (y << 17) ^ (y << 34) ^ (y << 51);
            let c = b ^ (b >> 7);
            let d = c ^ (c >> 14);
            let e = d ^ (d >> 28);
            let a = e ^ (e >> 56);
            let f = a ^ (a << 13);
            let g = f ^ (f << 26);
            g ^ (g << 52) == x
        }),
        number_of(x) == xorshift(x) / 0x1_0000_0000,
        seed_of(Some(x)) == x || seed_of(Some(x)) == x + 1,
        seed_of(Some(x)) % 2 == 1,
{
    let y = xorshift(x);
    assert({
        let p = x ^ (x << 13);
        let q = p ^ (p >> 7);
        let y = q ^ (q << 17);
        let b = y ^ (y << 17) ^ (y << 34) ^ (y << 51);
        b == q
    }) by (bit_vector);
    let p = x ^ (x << 13);
    let q = p ^ (p >> 7);
    assert({
        let c = q ^ (q >> 7);
        let d = c ^ (c >> 14);
        let e = d ^ (d >> 28);
        e ^ (e >> 56) == p
    }) by (bit_vector)
        requires
            q == p ^ (p >> 7),
    ;
    assert({
        let f = p ^ (p << 13);
        let g = f ^ (f << 26);
        g ^ (g << 52) == x
    }) by (bit_vector)
        requires
            p == x ^ (x << 13),
    ;
    assert((y >> 32) as u32 == y / 0x1_0000_0000) by (bit_vector);
    assert((x | 1 == x || x | 1 == x + 1) && (x | 1) % 2 == 1) by (bit_vector);
}

/// The number in `lo..hi` that the state `x` gives, `lo` where there is none.
pub open spec fn range_of(x: u64, lo: int, hi: int) -> int {
    if hi <= lo {
        lo
    } else {
        lo + ((xorshift(x) >> 32) as u32) as int % (hi - lo)
    }
}

/// The state after a number in `lo..hi` was drawn.
pub open spec fn range_next(x: u64, lo: int, hi: int) -> u64 {
    if hi <= lo {
        x
    } else {
        xorshift(x)
    }
}

/// A number within bounds is the drawn one, folded into them: it moves with the
/// bounds, and where there is nothing between them none is drawn.
pub proof fn drawn_number_is_folded(x: u64, lo: int, n: int, by: int)
    requires
        n > 0,
    ensures
        range_of(x, 0, n) == number_of(x) as int % n,
        range_of(x, lo + by, lo + by + n) == range_of(x, lo, lo + n) + by,
        lo <= range_of(x, lo, lo + n) < lo + n,
        range_next(x, lo, lo + n) == xorshift(x),
        range_of(x, lo, lo) == lo && range_next(x, lo, lo) == x,
{
    vstd::arithmetic::div_mod::lemma_mod_bound(number_of(x) as int, n);
}

impl Rng {
    /// A generator that starts from the time `nanos`, where it is known.
    pub fn seed(nanos: Option<u64>) -> (r: Rng)
        ensures
            r.state == seed_of(nanos),
            r.state != 0,
    {
        match nanos {
            Some(n) => {
                assert(n | 1 != 0) by (bit_vector);
                Rng { state: n | 1 }
            },
            None => Rng { state: 0x9E37_79B9_7F4A_7C15 },
        }
    }

    pub fn next_u32(&mut self) -> (r: u32)
        ensures
            final(self).state == xorshift(old(self).state),
            r == number_of(old(self).state),
    {
        let x: u64 = self.state;
        let a: u64 = x ^ (x << 13);
        let b: u64 = a ^ (a >> 7);
        let c: u64 = b ^ (b << 17);
        self.state = c;
        (c >> 32) as u32
    }

    /// A number in `lo..hi`, `lo` where there is none.
    pub fn range(&mut self, lo: i32, hi: i32) -> (r: i32)
        requires
            hi - lo <= i32::MAX,
        ensures
            r == range_of(old(self).state, lo as int, hi as int),
            final(self).state == range_next(old(self).state, lo as int, hi as int),
            lo < hi ==> lo <= r < hi,
    {
        if hi <= lo {
            return lo;
        }
        let n: u32 = (hi - lo) as u32;
        let k: u32 = self.next_u32() % n;
        lo + k as i32
    }
}

/// A phrase in the picture: where it stands, and how much of each of its
/// pixels is covered.
pub struct Phrase {
    pub x: u32,
    pub y: u32,
    pub w: u32,
    pub h: u32,
    pub alpha: Vec<u8>,
}

/// How much of each pixel is covered.
pub open spec fn alpha_of(rgba: Seq<u8>) -> Seq<u8> {
    Seq::new((rgba.len() / 4) as nat, |i: int| rgba[4 * i + 3])
}

/// The column where a phrase of the width `w` begins in a frame of the width
/// `fw`.
pub open spec fn column_of(w: int, fw: int, x: u64) -> int {
    let c = range_of(x, 6, fw - w - 6);
    if c < 0 {
        0
    } else {
        c
    }
}

/// The row where a phrase of the height `h` begins in a frame of the height
/// `fh`.
pub open spec fn row_at(h: int, fh: int, x: u64) -> int {
    if fh - h - 6 > 6 {
        range_of(x, 6, fh - h - 6)
    } else {
        0
    }
}

/// A phrase of `w` by `h` pixels can be shown in a frame of the width `fw`.
pub open spec fn fits_of(w: int, h: int, fw: int) -> bool {
    w != 0 && h != 0 && w < fw
}

/// Where a phrase begins, and the state of the generator then.
pub open spec fn place_of(w: int, h: int, fw: int, fh: int, x: u64) -> (int, int, u64) {
    let next = range_next(x, 6, fw - w - 6);
    (
        column_of(w, fw, x),
        row_at(h, fh, next),
        if fh - h - 6 > 6 {
            range_next(next, 6, fh - h - 6)
        } else {
            next
        },
    )
}

/// A phrase keeps away from the edges of its frame wherever there is room for
/// that, and has a number of its own for each of its two places; one that is
/// wider than its frame is not shown.
pub proof fn phrase_keeps_from_the_edges(w: int, h: int, fw: int, fh: int, x: u64)
    requires
        0 < w && 0 < h,
    ensures
        ({
            let (col, row, next) = place_of(w, h, fw, fh, x);
            &&& w + 12 < fw ==> 6 <= col && col + w < fw - 6
            &&& h + 12 < fh ==> 6 <= row && row + h < fh - 6
            &&& h + 12 >= fh ==> row == 0
            &&& w + 12 >= fw ==> col == 6
            &&& w + 12 < fw ==> col == 6 + number_of(x) as int % (fw - w - 12)
            &&& w + 12 < fw && h + 12 < fh ==> row == 6 + number_of(xorshift(x)) as int % (fh - h
                - 12) && next == xorshift(xorshift(x))
        }),
        fits_of(w, h, fw) <==> w < fw,
        !fits_of(0, h, fw) && !fits_of(w, 0, fw),
{
    let n = number_of(x) as int;
    let m = number_of(xorshift(x)) as int;
    if w + 12 < fw {
        vstd::arithmetic::div_mod::lemma_mod_bound(n, fw - w - 12);
    }
    if h + 12 < fh {
        vstd::arithmetic::div_mod::lemma_mod_bound(n, fh - h - 12);
        vstd::arithmetic::div_mod::lemma_mod_bound(m, fh - h - 12);
    }
}

impl Phrase {
    /// Places a phrase that is drawn in `rgba`, of `w` by `h` pixels, in a frame
    /// of `fw` by `fh`. There is none without pixels, nor one that is too wide.
    pub fn spawn(w: u32, h: u32, rgba: &[u8], fw: u32, fh: u32, rng: &mut Rng) -> (r: Option<
        Phrase,
    >)
        requires
            fw <= i32::MAX,
            fh <= i32::MAX,
            h <= i32::MAX - 6,
        ensures
            r is None <==> !fits_of(w as int, h as int, fw as int),
            r is None ==> *final(rng) == *old(rng),
            r matches Some(p) ==> {
                &&& p.w == w && p.h == h
                &&& p.alpha@ == alpha_of(rgba@)
                &&& (p.x as int, p.y as int, final(rng).state) == place_of(
                    w as int,
                    h as int,
                    fw as int,
                    fh as int,
                    old(rng).state,
                )
            },
    {
        if w == 0 || h == 0 || w >= fw {
            return None;
        }
        let mut alpha: Vec<u8> = Vec::new();
        let size: usize = rgba.len();
        let n: usize = size / 4;
        let mut i: usize = 0;
        while i < n
            invariant
                i <= n,
                size == rgba@.len(),
                n == size / 4,
                alpha@ == alpha_of(rgba@).take(i as int),
            decreases n - i,
        {
            alpha.push(rgba[4 * i + 3]);
            i = i + 1;
            assert(alpha@ =~= alpha_of(rgba@).take(i as int));
        }
        assert(alpha@ =~= alpha_of(rgba@));
        let c: i32 = rng.range(6, (fw - w) as i32 - 6);
        let x: u32 = if c < 0 {
            0
        } else {
            c as u32
        };
        let ymax: i32 = fh as i32 - h as i32 - 6;
        let y: u32 = if ymax > 6 {
            rng.range(6, ymax) as u32
        } else {
            0
        };
        Some(Phrase { x, y, w, h, alpha })
    }

    /// The byte `i` of a frame of `fw` by `fh` pixels with the phrase over it:
    /// only the background is covered, each pixel in the shade of its coverage.
    pub open spec fn over(
        &self,
        frame: Seq<u8>,
        fw: int,
        fh: int,
        shades: Seq<(u8, u8, u8)>,
        i: int,
    ) -> u8 {
        let p = i / 4;
        let dx = p % fw;
        let dy = p / fw;
        let a = self.alpha@[(dy - self.y) * self.w + (dx - self.x)];
        let bare = frame[4 * p] == 0x2b && frame[4 * p + 1] == 0x2b && frame[4 * p + 2] == 0x2b;
        if 0 <= i < fw * fh * 4 && self.x <= dx < self.x + self.w && self.y <= dy < self.y + self.h
            && a != 0 && bare && i % 4 < 3 {
            let shade = shades[a as int];
            if i % 4 == 0 {
                shade.0
            } else if i % 4 == 1 {
                shade.1
            } else {
                shade.2
            }
        } else {
            frame[i]
        }
    }

    /// The frame of `fw` by `fh` pixels with the phrase over it. `shades` holds
    /// the colour for each degree of coverage.
    pub fn composite(&self, frame: &[u8], fw: u32, fh: u32, shades: &Vec<(u8, u8, u8)>) -> (r: Vec<
        u8,
    >)
        requires
            shades@.len() == 256,
            self.alpha@.len() >= self.w * self.h,
            frame@.len() >= fw * fh * 4,
        ensures
            r@.len() == frame@.len(),
            forall|i: int|
                0 <= i < frame@.len() ==> #[trigger] r@[i] == self.over(
                    frame@,
                    fw as int,
                    fh as int,
                    shades@,
                    i,
                ),
    {
        let size: usize = frame.len();
        let covered: usize = self.alpha.len();
        let mut out: Vec<u8> = Vec::new();
        let ghost total = fw * fh * 4;
        let mut dy: u32 = 0;
        assert(0 * (4 * fw) == 0);
        while dy < fh
            invariant
                dy <= fh,
                size == frame@.len(),
                total == fw * fh * 4,
                total <= size,
                shades@.len() == 256,
                covered == self.alpha@.len(),
                covered >= self.w * self.h,
                out@.len() == dy * (4 * fw),
                forall|i: int|
                    0 <= i < out@.len() ==> #[trigger] out@[i] == self.over(
                        frame@,
                        fw as int,
                        fh as int,
                        shades@,
                        i,
                    ),
            decreases fh - dy,
        {
            let mut dx: u32 = 0;
            let base: usize = out.len();
            proof {
                assert((dy + 1) * (4 * fw) <= total) by (nonlinear_arith)
                    requires
                        dy + 1 <= fh,
                        total == fw * fh * 4,
                        fw >= 0,
                ;
                assert((dy + 1) * (4 * fw) == dy * (4 * fw) + 4 * fw) by (nonlinear_arith);
            }
            while dx < fw
                invariant
                    dx <= fw,
                    dy < fh,
                    size == frame@.len(),
                    total == fw * fh * 4,
                    total <= size,
                    shades@.len() == 256,
                    covered == self.alpha@.len(),
                    covered >= self.w * self.h,
                    base == dy * (4 * fw),
                    base + 4 * fw <= total,
                    out@.len() == base + 4 * dx,
                    forall|i: int|
                        0 <= i < out@.len() ==> #[trigger] out@[i] == self.over(
                            frame@,
                            fw as int,
                            fh as int,
                            shades@,
                            i,
                        ),
                decreases fw - dx,
            {
                let at: usize = base + 4 * dx as usize;
                proof {
                    lemma_pixel(fw as int, fh as int, dy as int, dx as int, at as int);
                }
                let inside = self.x <= dx && dx - self.x < self.w && self.y <= dy && dy - self.y
                    < self.h;
                let mut a: u8 = 0;
                if inside {
                    proof {
                        let (sx, sy) = (dx - self.x, dy - self.y);
                        assert(0 <= sy * self.w) by (nonlinear_arith)
                            requires
                                sy >= 0,
                        ;
                        assert((sy + 1) * self.w <= self.w * self.h) by (nonlinear_arith)
                            requires
                                0 <= sy < self.h,
                        ;
                        assert((sy + 1) * self.w == sy * self.w + self.w) by (nonlinear_arith);
                    }
                    a = self.alpha[(dy - self.y) as usize * self.w as usize + (dx
                        - self.x) as usize];
                }
                let bare = frame[at] == 0x2b && frame[at + 1] == 0x2b && frame[at + 2] == 0x2b;
                if inside && a != 0 && bare {
                    let shade = shades[a as usize];
                    out.push(shade.0);
                    out.push(shade.1);
                    out.push(shade.2);
                } else {
                    out.push(frame[at]);
                    out.push(frame[at + 1]);
                    out.push(frame[at + 2]);
                }
                out.push(frame[at + 3]);
                assert(forall|i: int|
                    at <= i < at + 4 ==> #[trigger] out@[i] == self.over(
                        frame@,
                        fw as int,
                        fh as int,
                        shades@,
                        i,
                    ));
                dx = dx + 1;
            }
            dy = dy + 1;
        }
        proof {
            assert(fh * (4 * fw) == total) by (nonlinear_arith)
                requires
                    total == fw * fh * 4,
            ;
        }
        let mut j: usize = out.len();
        while j < size
            invariant
                size == frame@.len(),
                total == fw * fh * 4,
                total <= j <= size,
                out@.len() == j,
                forall|i: int|
                    0 <= i < out@.len() ==> #[trigger] out@[i] == self.over(
                        frame@,
                        fw as int,
                        fh as int,
                        shades@,
                        i,
                    ),
            decreases size - j,
        {
            out.push(frame[j]);
            j = j + 1;
        }
        out
    }
}

proof fn lemma_pixel(fw: int, fh: int, dy: int, dx: int, at: int)
    requires
        0 <= dx < fw,
        0 <= dy < fh,
        at == dy * (4 * fw) + 4 * dx,
    ensures
        forall|i: int|
            at <= i < at + 4 ==> {
                &&& #[trigger] (i / 4) == dy * fw + dx
                &&& (i / 4) % fw == dx
                &&& (i / 4) / fw == dy
                &&& 4 * (i / 4) == at
                &&& i % 4 == i - at
            },
        0 <= at,
        at + 4 <= fw * fh * 4,
{
    assert(dy * (4 * fw) == 4 * (dy * fw)) by (nonlinear_arith);
    assert(dy * fw >= 0) by (nonlinear_arith)
        requires
            dy >= 0,
            fw > 0,
    ;
    assert((dy + 1) * fw <= fw * fh) by (nonlinear_arith)
        requires
            dy + 1 <= fh,
            fw > 0,
    ;
    assert((dy + 1) * fw == dy * fw + fw) by (nonlinear_arith);
    let p = dy * fw + dx;
    vstd::arithmetic::div_mod::lemma_fundamental_div_mod_converse(p, fw, dy, dx);
    assert(fw * fh * 4 == 4 * (fw * fh)) by (nonlinear_arith);
}

// ---------------------------------------------------------------------------
// The virtual camera
// ---------------------------------------------------------------------------

pub const V4L2_BUF_TYPE_VIDEO_OUTPUT: u32 = 2;

pub const V4L2_FIELD_NONE: u32 = 1;

pub const V4L2_COLORSPACE_SRGB: u32 = 8;

pub const V4L2_PIX_FMT_YUYV: u32 = 0x56595559;

/// The format of a video stream, as the kernel takes it.
pub struct V4l2Format {
    pub type_: u32,
    pub pad: u32,
    pub raw: [u8; 200],
}

/// The number of a control that the kernel reads from and writes to.
pub open spec fn iowr_of(ty: u8, nr: u8, size: u64) -> u64 {
    (3u64 << 30) | (size << 16) | ((ty as u64) << 8) | (nr as u64)
}

/// The number of a control that the kernel reads from and writes to.
pub fn iowr(ty: u8, nr: u8, size: u64) -> (r: u64)
    ensures
        r == iowr_of(ty, nr, size),
{
    (3u64 << 30) | (size << 16) | ((ty as u64) << 8) | (nr as u64)
}

/// The number says what is controlled, by whom, and how many bytes are handed
/// over.
pub proof fn control_says_its_size(ty: u8, nr: u8, size: u64)
    requires
        size < 0x4000,
    ensures
        iowr_of(ty, nr, size) == 0xC000_0000 + size * 0x1_0000 + ty * 0x100 + nr,
{
    let t = ty as u64;
    let n = nr as u64;
    assert((3u64 << 30) | (size << 16) | (t << 8) | n == 0xC000_0000u64 + size * 0x1_0000u64 + t
        * 0x100u64 + n) by (bit_vector)
        requires
            size < 0x4000u64,
            t < 0x100u64,
            n < 0x100u64,
    ;
}

/// The bytes of the part of the format that describes the pixels.
pub open spec fn pix_format_of(width: u32, height: u32) -> Seq<u8> {
    bytes::le32_of(width) + bytes::le32_of(height) + bytes::le32_of(V4L2_PIX_FMT_YUYV) + bytes::le32_of(V4L2_FIELD_NONE)
        + bytes::le32_of((width * 2) as u32) + bytes::le32_of((width * height * 2) as u32) + bytes::le32_of(
        V4L2_COLORSPACE_SRGB,
    ) + bytes::le32_of(0) + bytes::le32_of(0) + bytes::le32_of(0) + bytes::le32_of(0) + bytes::le32_of(0)
}

/// The kernel reads from the format the size of a frame, its two bytes a pixel, a
/// row at a time and in all, and that it is not interlaced.
pub proof fn format_tells_the_size(width: u32, height: u32)
    requires
        width * height * 2 <= u32::MAX,
        width * 2 <= u32::MAX,
    ensures
        ({
            let f = pix_format_of(width, height);
            &&& f.len() == 48
            &&& bytes::from_le32(f.subrange(0, 4)) == width
            &&& bytes::from_le32(f.subrange(4, 8)) == height
            &&& bytes::from_le32(f.subrange(8, 12)) == 0x5659_5559
            &&& bytes::from_le32(f.subrange(12, 16)) == 1
            &&& bytes::from_le32(f.subrange(16, 20)) == 2 * width
            &&& bytes::from_le32(f.subrange(20, 24)) == 2 * (width * height)
            &&& bytes::from_le32(f.subrange(24, 28)) == 8
            &&& forall|i: int| 28 <= i < 48 ==> #[trigger] f[i] == 0
        }),
{
    let f = pix_format_of(width, height);
    let row = (width * 2) as u32;
    let all = (width * height * 2) as u32;
    bytes::le32_reads_back(width);
    bytes::le32_reads_back(height);
    bytes::le32_reads_back(0x5659_5559);
    bytes::le32_reads_back(1);
    bytes::le32_reads_back(row);
    bytes::le32_reads_back(all);
    bytes::le32_reads_back(8);
    assert(f.subrange(0, 4) =~= bytes::le32_of(width));
    assert(f.subrange(4, 8) =~= bytes::le32_of(height));
    assert(f.subrange(8, 12) =~= bytes::le32_of(0x5659_5559));
    assert(f.subrange(12, 16) =~= bytes::le32_of(1));
    assert(f.subrange(16, 20) =~= bytes::le32_of(row));
    assert(f.subrange(20, 24) =~= bytes::le32_of(all));
    assert(f.subrange(24, 28) =~= bytes::le32_of(8));
}

/// The bytes of the part of the format that describes the pixels of frames of
/// `width` by `height`, of a machine that has the least significant byte first.
pub fn pix_format(width: u32, height: u32) -> (r: Vec<u8>)
    requires
        width * 2 <= u32::MAX,
        width * height * 2 <= u32::MAX,
    ensures
        r@ == pix_format_of(width, height),
        r@.len() == 48,
{
    let mut out: Vec<u8> = Vec::new();
    push_le32(&mut out, width);
    assert(out@ =~= bytes::le32_of(width));
    push_le32(&mut out, height);
    push_le32(&mut out, V4L2_PIX_FMT_YUYV);
    push_le32(&mut out, V4L2_FIELD_NONE);
    push_le32(&mut out, width * 2);
    push_le32(&mut out, (width as u64 * height as u64 * 2) as u32);
    push_le32(&mut out, V4L2_COLORSPACE_SRGB);
    push_le32(&mut out, 0);
    push_le32(&mut out, 0);
    push_le32(&mut out, 0);
    push_le32(&mut out, 0);
    push_le32(&mut out, 0);
    out
}

/// Whether a frame was written whole: the bytes that were written, and those
/// that it has.
pub fn frame_complete(written: usize, len: usize) -> (r: bool)
    ensures
        r == (written == len),
{
    written == len
}

/// A phrase covers the bare background within its own box and nothing else, each
/// pixel by the shade of its coverage; the opacity of a pixel stays as it is.
pub proof fn phrase_covers_the_background_alone(
    p: Phrase,
    frame: Seq<u8>,
    fw: int,
    fh: int,
    shades: Seq<(u8, u8, u8)>,
    col: int,
    row: int,
)
    requires
        0 <= col < fw,
        0 <= row < fh,
        frame.len() >= fw * fh * 4,
    ensures
        ({
            let at = row * (4 * fw) + 4 * col;
            let inside = p.x <= col < p.x + p.w && p.y <= row < p.y + p.h;
            let a = p.alpha@[(row - p.y) * p.w + (col - p.x)];
            let bare = frame[at] == 0x2b && frame[at + 1] == 0x2b && frame[at + 2] == 0x2b;
            &&& p.over(frame, fw, fh, shades, at + 3) == frame[at + 3]
            &&& !inside || !bare || a == 0 ==> p.over(frame, fw, fh, shades, at) == frame[at]
                && p.over(frame, fw, fh, shades, at + 1) == frame[at + 1] && p.over(
                frame,
                fw,
                fh,
                shades,
                at + 2,
            ) == frame[at + 2]
            &&& inside && bare && a != 0 ==> shades[a as int] == (
                p.over(frame, fw, fh, shades, at),
                p.over(frame, fw, fh, shades, at + 1),
                p.over(frame, fw, fh, shades, at + 2),
            )
        }),
{
    let at = row * (4 * fw) + 4 * col;
    lemma_pixel(fw, fh, row, col, at);
    assert(at / 4 == row * fw + col && (at + 1) / 4 == row * fw + col);
    assert((at + 2) / 4 == row * fw + col && (at + 3) / 4 == row * fw + col);
}

} // verus!
