//! Pixels from the window manager.

use crate::screenshot;
use crate::text;
use crate::text::{cat, decimal_u64};
use vstd::prelude::*;

verus! {

/// What the window manager says of the pixels that it gave.
#[derive(Debug, Clone, Copy, PartialEq, Eq)]
pub struct Meta {
    pub width: Option<u32>,
    pub height: Option<u32>,
    pub stride: Option<u32>,
    pub format: Option<u32>,
}

/// A picture: four bytes for each pixel, red, green, blue and opacity.
#[derive(Debug, PartialEq, Eq)]
pub struct RgbaImage {
    pub width: u32,
    pub height: u32,
    pub rgba: Vec<u8>,
}

/// A part of the screen is asked for only where it is not empty.
pub fn check_area(w: u32, h: u32) -> (r: Result<(), String>)
    ensures
        match r {
            Ok(_) => screenshot::takes_picture(w, h),
            Err(m) => !screenshot::takes_picture(w, h) && m@ == "нулевая область"@,
        },
{
    if w == 0 || h == 0 {
        Err("нулевая область".to_owned())
    } else {
        Ok(())
    }
}

/// A number of the reply: as it stands, or the bits of one with a sign.
pub fn get_u32(unsigned: Option<u32>, signed: Option<i32>) -> (r: Option<u32>)
    ensures
        r == match (unsigned, signed) {
            (Some(n), _) => Some(n),
            (None, Some(n)) => Some(n as u32),
            (None, None) => None,
        },
{
    match unsigned {
        Some(n) => Some(n),
        None => match signed {
            Some(n) => Some(
                #[verifier::truncate]
                (n as u32),
            ),
            None => None,
        },
    }
}

/// The bytes between the starts of two rows: four for a pixel where nothing is
/// said.
pub open spec fn stride_of(meta: Meta) -> int {
    match meta.stride {
        Some(s) => s as int,
        None => meta.width->Some_0 * 4,
    }
}

/// A format that has red first.
pub open spec fn red_first(format: Option<u32>) -> bool {
    match format {
        Some(f) => 17 <= f <= 19,
        None => false,
    }
}

/// The pixel at a place of the bytes.
pub open spec fn pixel_of(bytes: Seq<u8>, p: int, rgba: bool) -> Seq<u8> {
    if rgba {
        seq![bytes[p], bytes[p + 1], bytes[p + 2], bytes[p + 3]]
    } else {
        seq![bytes[p + 2], bytes[p + 1], bytes[p], bytes[p + 3]]
    }
}

/// The first `w` pixels of the row that starts at `base`.
pub open spec fn row_of(bytes: Seq<u8>, base: int, w: nat, rgba: bool) -> Seq<u8>
    decreases w,
{
    if w == 0 {
        Seq::empty()
    } else {
        row_of(bytes, base, (w - 1) as nat, rgba) + pixel_of(bytes, base + 4 * (w - 1), rgba)
    }
}

/// The first `h` rows of `w` pixels.
pub open spec fn rows_of(bytes: Seq<u8>, w: nat, h: nat, stride: int, rgba: bool) -> Seq<u8>
    decreases h,
{
    if h == 0 {
        Seq::empty()
    } else {
        rows_of(bytes, w, (h - 1) as nat, stride, rgba) + row_of(
            bytes,
            (h - 1) * stride,
            w,
            rgba,
        )
    }
}

proof fn lemma_row(bytes: Seq<u8>, base: int, w: nat, rgba: bool, col: int)
    ensures
        row_of(bytes, base, w, rgba).len() == 4 * w,
        0 <= col < w ==> row_of(bytes, base, w, rgba).subrange(4 * col, 4 * col + 4) == pixel_of(
            bytes,
            base + 4 * col,
            rgba,
        ),
    decreases w,
{
    if w > 0 {
        let init = row_of(bytes, base, (w - 1) as nat, rgba);
        let r = row_of(bytes, base, w, rgba);
        lemma_row(bytes, base, (w - 1) as nat, rgba, col);
        if 0 <= col < w - 1 {
            assert(r.subrange(4 * col, 4 * col + 4) =~= init.subrange(4 * col, 4 * col + 4));
        } else if col == w - 1 {
            assert(r.subrange(4 * col, 4 * col + 4) =~= pixel_of(bytes, base + 4 * col, rgba));
        }
    }
}

/// A pixel keeps its green and its opacity in either order, and has its red and
/// its blue where the order says. Rows that say nothing of their length follow
/// one another without a gap.
pub proof fn orders_differ_in_red_and_blue(bytes: Seq<u8>, p: int, meta: Meta)
    ensures
        ({
            let a = pixel_of(bytes, p, true);
            let b = pixel_of(bytes, p, false);
            &&& a.len() == 4 && b.len() == 4
            &&& a[0] == bytes[p] && a[2] == bytes[p + 2]
            &&& b[2] == bytes[p] && b[0] == bytes[p + 2]
            &&& a[1] == bytes[p + 1] && b[1] == bytes[p + 1]
            &&& a[3] == bytes[p + 3] && b[3] == bytes[p + 3]
        }),
        meta.stride matches Some(s) ==> stride_of(meta) == s,
        meta.stride is None && (meta.width matches Some(w)) ==> stride_of(meta) == 4
            * meta.width->0,
        meta.format matches Some(f) ==> (red_first(meta.format) <==> f == 17 || f == 18 || f == 19),
        meta.format is None ==> !red_first(meta.format) && format_of(meta) == 0,
        meta.format matches Some(f) ==> format_of(meta) == f,
{
}

/// A picture has four bytes for each pixel, and every pixel stands in its place:
/// what stands in the picture at a column and a row is the pixel of the bytes at
/// that column and row.
pub proof fn pixels_stand_in_place(
    bytes: Seq<u8>,
    w: nat,
    h: nat,
    stride: int,
    rgba: bool,
    col: int,
    row: int,
)
    ensures
        rows_of(bytes, w, h, stride, rgba).len() == 4 * (w * h),
        0 <= col < w && 0 <= row < h ==> rows_of(bytes, w, h, stride, rgba).subrange(
            4 * (row * w + col),
            4 * (row * w + col) + 4,
        ) == pixel_of(bytes, row * stride + 4 * col, rgba),
    decreases h,
{
    if h > 0 {
        let g = (h - 1) as nat;
        let init = rows_of(bytes, w, g, stride, rgba);
        let last = row_of(bytes, g * stride, w, rgba);
        let r = rows_of(bytes, w, h, stride, rgba);
        pixels_stand_in_place(bytes, w, g, stride, rgba, col, row);
        lemma_row(bytes, g * stride, w, rgba, col);
        assert(w * h == w * g + w) by (nonlinear_arith)
            requires
                h == g + 1,
        ;
        if 0 <= col < w && 0 <= row < g {
            let at = 4 * (row * w + col);
            assert(0 <= at && row * w + col + 1 <= w * g) by (nonlinear_arith)
                requires
                    0 <= row,
                    row + 1 <= g,
                    0 <= col,
                    col < w,
                    at == 4 * (row * w + col),
            ;
            assert(r.subrange(at, at + 4) =~= init.subrange(at, at + 4));
        } else if 0 <= col < w && row == g {
            let at = 4 * (row * w + col);
            assert(row * w == w * g) by (nonlinear_arith)
                requires
                    row == g,
            ;
            assert(r.subrange(at, at + 4) =~= last.subrange(4 * col, 4 * col + 4));
        }
    } else {
        assert(w * h == 0) by (nonlinear_arith)
            requires
                h == 0,
        ;
    }
}

/// The bytes of a picture hold every row: the last one needs no more than its
/// pixels.
pub open spec fn rows_fit(len: int, w: int, h: int, stride: int) -> bool {
    w == 0 || h == 0 || (h - 1) * stride + 4 * w <= len
}

/// The picture in bytes that hold every row. A format that does not have red
/// first has blue first.
pub fn build_rgba(bytes: &[u8], width: u32, height: u32, stride: u32, format: u32) -> (r: RgbaImage)
    requires
        rows_fit(bytes@.len() as int, width as int, height as int, stride as int),
        4 * (width * height) <= usize::MAX,
    ensures
        r.width == width,
        r.height == height,
        r.rgba@ == rows_of(
            bytes@,
            width as nat,
            height as nat,
            stride as int,
            red_first(Some(format)),
        ),
{
    let red = 17 <= format && format <= 19;
    let mut rgba: Vec<u8> = Vec::new();
    let size: usize = bytes.len();
    let mut row: u32 = 0;
    while row < height
        invariant
            row <= height,
            size == bytes@.len(),
            rows_fit(size as int, width as int, height as int, stride as int),
            rgba@ == rows_of(bytes@, width as nat, row as nat, stride as int, red),
        decreases height - row,
    {
        let ghost before = rgba@;
        assert(before + row_of(bytes@, row * stride, 0, red) =~= before);
        let mut col: u32 = 0;
        while col < width
            invariant
                row < height,
                col <= width,
                size == bytes@.len(),
                rows_fit(size as int, width as int, height as int, stride as int),
                rgba@ == before + row_of(bytes@, row * stride, col as nat, red),
            decreases width - col,
        {
            assert(0 <= row * stride && row * stride <= (height - 1) * stride) by (nonlinear_arith)
                requires
                    0 <= row,
                    row <= height - 1,
                    0 <= stride,
            ;
            let p: usize = row as usize * stride as usize + 4 * col as usize;
            if red {
                rgba.push(bytes[p]);
                rgba.push(bytes[p + 1]);
                rgba.push(bytes[p + 2]);
            } else {
                rgba.push(bytes[p + 2]);
                rgba.push(bytes[p + 1]);
                rgba.push(bytes[p]);
            }
            rgba.push(bytes[p + 3]);
            assert(rgba@ =~= before + (row_of(bytes@, row * stride, col as nat, red) + pixel_of(
                bytes@,
                p as int,
                red,
            )));
            col = col + 1;
        }
        row = row + 1;
    }
    RgbaImage { width, height, rgba }
}

/// The message of a reply with too few bytes.
pub open spec fn too_few_of(len: int, need: int, w: int, h: int, stride: int, format: int) -> Seq<
    char,
> {
    "мало данных: "@ + text::decimal_of(len as nat) + " из "@ + text::decimal_of(need as nat)
        + " (w="@ + text::decimal_of(w as nat) + " h="@ + text::decimal_of(h as nat) + " stride="@
        + text::decimal_of(stride as nat) + " fmt="@ + text::decimal_of(format as nat) + ")"@
}

fn too_few(len: usize, need: u64, w: u32, h: u32, stride: u32, format: u32) -> (r: String)
    ensures
        r@ == too_few_of(
            len as int,
            need as int,
            w as int,
            h as int,
            stride as int,
            format as int,
        ),
{
    let mut m = cat("мало данных: ", decimal_u64(len as u64).as_str());
    m.append(" из ");
    m.append(decimal_u64(need).as_str());
    m.append(" (w=");
    m.append(decimal_u64(w as u64).as_str());
    m.append(" h=");
    m.append(decimal_u64(h as u64).as_str());
    m.append(" stride=");
    m.append(decimal_u64(stride as u64).as_str());
    m.append(" fmt=");
    m.append(decimal_u64(format as u64).as_str());
    m.append(")");
    m
}

pub open spec fn format_of(meta: Meta) -> u32 {
    match meta.format {
        Some(f) => f,
        None => 0,
    }
}

/// A reply whose picture can be made: the length of a row can be counted, and
/// where there are as many bytes as it says, so can the pixels, and the bytes
/// hold every row.
pub open spec fn sound(meta: Meta, len: int) -> bool {
    match (meta.width, meta.height) {
        (Some(w), Some(h)) => {
            let stride = stride_of(meta);
            &&& stride <= u32::MAX
            &&& len >= stride * h ==> {
                &&& 4 * (w * h) <= usize::MAX
                &&& rows_fit(len, w as int, h as int, stride)
            }
        },
        _ => true,
    }
}

/// `r` is the picture in a reply of the window manager, or what is wrong with it.
pub open spec fn pictured(bytes: Seq<u8>, meta: Meta, r: Result<RgbaImage, String>) -> bool {
    match r {
        Ok(img) => {
            &&& meta.width == Some(img.width)
            &&& meta.height == Some(img.height)
            &&& bytes.len() >= stride_of(meta) * img.height
            &&& img.rgba@ == rows_of(
                bytes,
                img.width as nat,
                img.height as nat,
                stride_of(meta),
                red_first(Some(format_of(meta))),
            )
        },
        Err(m) => match (meta.width, meta.height) {
            (None, _) => m@ == "нет width в ответе"@,
            (Some(_), None) => m@ == "нет height в ответе"@,
            (Some(w), Some(h)) => {
                &&& bytes.len() < stride_of(meta) * h
                &&& m@ == too_few_of(
                    bytes.len() as int,
                    stride_of(meta) * h,
                    w as int,
                    h as int,
                    stride_of(meta),
                    format_of(meta) as int,
                )
            },
        },
    }
}

/// A picture has the width and the height that were said, and each of its pixels
/// is the one that stands in the reply at that column and row: its green and its
/// opacity in their places, red and blue in the order of the format. There is a
/// picture exactly where both sizes were said and there are bytes enough.
pub proof fn picture_shows_the_reply(
    bytes: Seq<u8>,
    meta: Meta,
    r: Result<RgbaImage, String>,
    col: int,
    row: int,
)
    requires
        pictured(bytes, meta, r),
    ensures
        r is Ok <==> meta.width is Some && meta.height is Some && bytes.len() >= stride_of(meta)
            * meta.height->0,
        r matches Ok(img) ==> {
            let p = row * stride_of(meta) + 4 * col;
            let at = 4 * (row * img.width + col);
            let red_is_first = meta.format == Some(17u32) || meta.format == Some(18u32)
                || meta.format == Some(19u32);
            &&& meta.width == Some(img.width) && meta.height == Some(img.height)
            &&& img.rgba@.len() == 4 * (img.width * img.height)
            &&& 0 <= col < img.width && 0 <= row < img.height ==> {
                &&& img.rgba@[at + 1] == bytes[p + 1] && img.rgba@[at + 3] == bytes[p + 3]
                &&& red_is_first ==> img.rgba@[at] == bytes[p] && img.rgba@[at + 2] == bytes[p + 2]
                &&& !red_is_first ==> img.rgba@[at] == bytes[p + 2] && img.rgba@[at + 2] == bytes[p]
            }
        },
{
    if let Ok(img) = r {
        let w = img.width as nat;
        let h = img.height as nat;
        let first = red_first(Some(format_of(meta)));
        pixels_stand_in_place(bytes, w, h, stride_of(meta), first, col, row);
        if 0 <= col < w && 0 <= row < h {
            let at = 4 * (row * w + col);
            let px = img.rgba@.subrange(at, at + 4);
            assert(0 <= at && at + 4 <= 4 * (w * h)) by (nonlinear_arith)
                requires
                    0 <= col < w,
                    0 <= row < h,
                    at == 4 * (row * w + col),
            ;
            assert(px[0] == img.rgba@[at] && px[1] == img.rgba@[at + 1]);
            assert(px[2] == img.rgba@[at + 2] && px[3] == img.rgba@[at + 3]);
        }
    }
}

/// The picture in a reply of the window manager, or what is wrong with it.
pub fn picture(bytes: &[u8], meta: &Meta) -> (r: Result<RgbaImage, String>)
    requires
        sound(*meta, bytes@.len() as int),
    ensures
        pictured(bytes@, *meta, r),
{
    let width = match meta.width {
        Some(w) => w,
        None => {
            return Err("нет width в ответе".to_owned());
        },
    };
    let height = match meta.height {
        Some(h) => h,
        None => {
            return Err("нет height в ответе".to_owned());
        },
    };
    let stride: u32 = match meta.stride {
        Some(s) => s,
        None => width * 4,
    };
    let format: u32 = match meta.format {
        Some(f) => f,
        None => 0,
    };
    assert(stride as int * height as int <= 0xFFFF_FFFF * 0xFFFF_FFFF) by (nonlinear_arith)
        requires
            0 <= stride <= 0xFFFF_FFFF,
            0 <= height <= 0xFFFF_FFFF,
    ;
    assert(0 <= stride as int * height as int) by (nonlinear_arith)
        requires
            0 <= stride,
            0 <= height,
    ;
    let need: u64 = stride as u64 * height as u64;
    if (bytes.len() as u64) < need {
        return Err(too_few(bytes.len(), need, width, height, stride, format));
    }
    Ok(build_rgba(bytes, width, height, stride, format))
}

} // verus!
