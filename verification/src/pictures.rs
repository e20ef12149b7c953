//! Pictures that a browser sends: their formats, their size and their pixels.

use crate::float;
use crate::text;
use crate::text::{chars_of, same, split, trim};
use vstd::prelude::*;

verus! {

/// The most bytes that a picture may have.
pub const IMG_MAX: usize = 8388608;

/// The longest side of a picture that is shown.
pub const IMG_FIT: u32 = 1600;

/// The format of a picture.
#[derive(Debug, Clone, Copy, PartialEq, Eq, Structural)]
pub enum ImageFormat {
    Png,
    Jpeg,
    WebP,
}

/// The pixels of a picture, four bytes each, and its width and height.
#[derive(Debug, PartialEq)]
pub struct Picture {
    pub size: [usize; 2],
    pub rgba: Vec<u8>,
}

/// The pixels of a picture, as a mathematical value.
pub struct PictureView {
    pub width: int,
    pub height: int,
    pub rgba: Seq<u8>,
}

impl View for Picture {
    type V = PictureView;

    open spec fn view(&self) -> PictureView {
        PictureView {
            width: self.size@[0] as int,
            height: self.size@[1] as int,
            rgba: self.rgba@,
        }
    }
}

/// The format that a content type names, parameters aside.
pub open spec fn img_format_of(content_type: Seq<char>) -> Option<ImageFormat> {
    let kind = text::trim_of(text::split_of(content_type, ';')[0]);
    if kind == "image/png"@ {
        Some(ImageFormat::Png)
    } else if kind == "image/jpeg"@ {
        Some(ImageFormat::Jpeg)
    } else if kind == "image/webp"@ {
        Some(ImageFormat::WebP)
    } else {
        None
    }
}

/// A format is named by its kind alone, whatever parameters stand behind it, and
/// no other kind is a picture.
pub proof fn kind_names_the_format(kind: Seq<char>, params: Seq<char>)
    requires
        !kind.contains(';'),
        text::trim_of(kind) == kind,
    ensures
        img_format_of(kind + seq![';'] + params) == img_format_of(kind),
        img_format_of(kind) == Some(ImageFormat::Png) <==> kind == "image/png"@,
        img_format_of(kind) == Some(ImageFormat::Jpeg) <==> kind == "image/jpeg"@,
        img_format_of(kind) == Some(ImageFormat::WebP) <==> kind == "image/webp"@,
{
    text::split_cuts_at_the_first(kind, ';', params);
    reveal_strlit("image/png");
    reveal_strlit("image/jpeg");
    reveal_strlit("image/webp");
    assert("image/png"@[6] == 'p' && "image/jpeg"@[6] == 'j' && "image/webp"@[6] == 'w');
}

/// A picture that has too many bytes.
pub open spec fn too_large(len: nat) -> bool {
    len > IMG_MAX
}

/// A picture of eight mebibytes is taken, and one of a byte more is not.
pub proof fn eight_mebibytes_are_taken(len: nat)
    ensures
        too_large(len) <==> len > 8 * 1024 * 1024,
{
}

/// The format that a content type names.
pub fn img_format(content_type: &str) -> (r: Option<ImageFormat>)
    ensures
        r == img_format_of(content_type@),
{
    let chars = chars_of(content_type);
    let parts = split(chars.as_slice(), ';');
    proof {
        text::lemma_split_nonempty(content_type@, ';');
    }
    let kind = trim(parts[0]);
    assert(text::views(parts@)[0] == parts@[0]@);
    if same(kind, chars_of("image/png").as_slice()) {
        Some(ImageFormat::Png)
    } else if same(kind, chars_of("image/jpeg").as_slice()) {
        Some(ImageFormat::Jpeg)
    } else if same(kind, chars_of("image/webp").as_slice()) {
        Some(ImageFormat::WebP)
    } else {
        None
    }
}

// ---------------------------------------------------------------------------
// The size
// ---------------------------------------------------------------------------

/// 2 to the power of 87, the unit that ratios are counted in.
pub const RATIO_UNIT: u128 = 0x80_0000_0000_0000_0000_0000;

/// Half of the unit.
pub const RATIO_HALF: u128 = 0x40_0000_0000_0000_0000_0000;

/// `max / side` in double precision, in parts of `RATIO_UNIT`. The last bit
/// that is counted stands for all that follow it.
pub open spec fn ratio_of(max: int, side: int) -> nat {
    let scaled = max * RATIO_HALF;
    let exact = 2 * (scaled / side) + if scaled % side == 0 {
        0int
    } else {
        1int
    };
    float::round_of(exact as nat, 53)
}

/// By how much a picture is scaled down: by the smaller of the two ratios.
pub open spec fn scale_of(w: int, h: int, max: int) -> nat {
    if w == 0 {
        ratio_of(max, h)
    } else if h == 0 || ratio_of(max, w) <= ratio_of(max, h) {
        ratio_of(max, w)
    } else {
        ratio_of(max, h)
    }
}

/// A side times `k`, in double precision, to the nearest whole number; 1 at
/// least.
pub open spec fn side_of(side: int, k: nat) -> int {
    let product = float::round_of((side * k) as nat, 53);
    let n = (product + RATIO_HALF) / RATIO_UNIT as int;
    if n < 1 {
        1
    } else if n > u32::MAX {
        u32::MAX as int
    } else {
        n
    }
}

/// The size at which a picture is shown: as it is where it fits, otherwise
/// scaled down so that it does.
pub open spec fn fit_of(w: int, h: int, max: int) -> (int, int) {
    if w <= max && h <= max {
        (w, h)
    } else {
        let k = scale_of(w, h, max);
        (side_of(w, k), side_of(h, k))
    }
}

proof fn lemma_ratio(max: int, side: int)
    requires
        0 <= max <= u32::MAX,
        0 < side <= u32::MAX,
    ensures
        side * ratio_of(max, side) <= 4 * max * RATIO_HALF + 2 * side,
        ratio_of(max, side) <= 4 * max * RATIO_HALF + 2,
{
    let scaled = max * RATIO_HALF;
    let q = scaled / side;
    let exact = 2 * q + if scaled % side == 0 {
        0int
    } else {
        1int
    };
    assert(q >= 0 && side * q <= scaled) by {
        vstd::arithmetic::div_mod::lemma_fundamental_div_mod(scaled, side);
        vstd::arithmetic::div_mod::lemma_div_pos_is_pos(scaled, side);
    }
    float::lemma_round_bound(exact as nat, 53);
    let r = ratio_of(max, side);
    assert(r <= 4 * q + 2);
    assert(side * r <= side * (4 * q + 2)) by (nonlinear_arith)
        requires
            r <= 4 * q + 2,
            side > 0,
    ;
    assert(side * (4 * q + 2) == 4 * (side * q) + 2 * side) by (nonlinear_arith);
    assert(q <= side * q) by (nonlinear_arith)
        requires
            q >= 0,
            side >= 1,
    ;
}

proof fn lemma_side_fits(max: int, side: int, k: nat)
    requires
        1 <= max <= u32::MAX,
        0 < side <= u32::MAX,
        k <= ratio_of(max, side),
    ensures
        side_of(side, k) <= max,
{
    let b = 0x20_0000_0000_0000int;
    assert(vstd::arithmetic::power2::pow2(53) == b) by {
        vstd::arithmetic::power2::lemma2_to64();
        vstd::arithmetic::power2::lemma_pow2_adds(32, 21);
    }
    lemma_ratio_above(max, side, k);
    assert(side * k >= 0) by (nonlinear_arith)
        requires
            side > 0,
            k >= 0,
    ;
    float::lemma_round_close((side * k) as nat, 53);
    let p = float::round_of((side * k) as nat, 53) as int;
    assert(b * p <= b * (side * k) + side * k);
    assert(p + RATIO_HALF < (max + 1) * RATIO_UNIT);
}

/// A ratio is as near to the exact one as double precision gets, and that of a
/// shorter side is not smaller but by that.
proof fn lemma_ratio_near(max: int, side: int, long: int)
    requires
        1 <= max <= u32::MAX,
        0 < side <= long <= u32::MAX,
    ensures
        ({
            let b = 0x20_0000_0000_0000int;
            (b - 1) * (max * RATIO_UNIT - long) <= b * (long * ratio_of(max, side))
        }),
{
    let b = 0x20_0000_0000_0000int;
    assert(vstd::arithmetic::power2::pow2(53) == b) by {
        vstd::arithmetic::power2::lemma2_to64();
        vstd::arithmetic::power2::lemma_pow2_adds(32, 21);
    }
    let scaled = max * RATIO_HALF;
    let q = scaled / side;
    let rem = scaled % side;
    let e = 2 * q + if rem == 0 {
        0int
    } else {
        1int
    };
    assert(q >= 0 && scaled == side * q + rem && 0 <= rem < side) by {
        vstd::arithmetic::div_mod::lemma_fundamental_div_mod(scaled, side);
        vstd::arithmetic::div_mod::lemma_div_pos_is_pos(scaled, side);
        vstd::arithmetic::div_mod::lemma_mod_bound(scaled, side);
    }
    assert(2 * scaled - side <= side * e) by (nonlinear_arith)
        requires
            scaled == side * q + rem,
            0 <= rem < side,
            e == 2 * q + if rem == 0 {
                0int
            } else {
                1int
            },
    ;
    assert(side * e <= long * e) by (nonlinear_arith)
        requires
            side <= long,
            e >= 0,
    ;
    float::lemma_round_close(e as nat, 53);
    let r = ratio_of(max, side) as int;
    assert((b - 1) * (long * e) <= b * (long * r)) by (nonlinear_arith)
        requires
            b * e <= b * r + e,
            long > 0,
    ;
    assert((b - 1) * (2 * scaled - long) <= (b - 1) * (long * e)) by (nonlinear_arith)
        requires
            2 * scaled - long <= long * e,
            b > 1,
    ;
}

proof fn lemma_ratio_above(max: int, side: int, k: nat)
    requires
        1 <= max <= u32::MAX,
        0 < side <= u32::MAX,
        k <= ratio_of(max, side),
    ensures
        0x20_0000_0000_0000 * (side * k) <= 0x20_0000_0000_0001 * (max * RATIO_UNIT + side),
{
    let b = 0x20_0000_0000_0000int;
    assert(vstd::arithmetic::power2::pow2(53) == b) by {
        vstd::arithmetic::power2::lemma2_to64();
        vstd::arithmetic::power2::lemma_pow2_adds(32, 21);
    }
    let scaled = max * RATIO_HALF;
    let q = scaled / side;
    let e = 2 * q + if scaled % side == 0 {
        0int
    } else {
        1int
    };
    assert(q >= 0 && side * q <= scaled) by {
        vstd::arithmetic::div_mod::lemma_fundamental_div_mod(scaled, side);
        vstd::arithmetic::div_mod::lemma_div_pos_is_pos(scaled, side);
    }
    assert(side * e <= 2 * scaled + side) by (nonlinear_arith)
        requires
            side * q <= scaled,
            0 <= e <= 2 * q + 1,
            side > 0,
    ;
    float::lemma_round_close(e as nat, 53);
    let r = ratio_of(max, side) as int;
    assert(b * (side * k) <= (b + 1) * (side * e)) by (nonlinear_arith)
        requires
            b * r <= b * e + e,
            0 <= k <= r,
            side > 0,
            b > 0,
    ;
}

/// The longer side becomes the limit.
proof fn lemma_long_side(max: int, long: int, k: nat)
    requires
        1 <= max < long <= u32::MAX,
        k <= ratio_of(max, long),
        ({
            let b = 0x20_0000_0000_0000int;
            (b - 1) * (max * RATIO_UNIT - long) <= b * (long * k)
        }),
    ensures
        side_of(long, k) == max,
{
    lemma_side_fits(max, long, k);
    let b = 0x20_0000_0000_0000int;
    assert(vstd::arithmetic::power2::pow2(53) == b) by {
        vstd::arithmetic::power2::lemma2_to64();
        vstd::arithmetic::power2::lemma_pow2_adds(32, 21);
    }
    assert(long * k >= 0) by (nonlinear_arith)
        requires
            long > 0,
            k >= 0,
    ;
    let x = long * k;
    float::lemma_round_close(x as nat, 53);
    let p = float::round_of(x as nat, 53) as int;
    assert(b * x <= b * p + x);
    let goal = max * RATIO_UNIT;
    assert(p + RATIO_HALF >= goal);
}

/// What a side becomes is less than a pixel off from what the ratio of the
/// longer side gives, unless it is the least that is shown.
proof fn lemma_short_side(max: int, short: int, long: int, k: nat)
    requires
        1 <= max < long <= u32::MAX,
        0 < short <= long,
        k <= ratio_of(max, long),
        ({
            let b = 0x20_0000_0000_0000int;
            (b - 1) * (max * RATIO_UNIT - long) <= b * (long * k)
        }),
    ensures
        side_of(short, k) * long < short * max + long,
        short * max - long < side_of(short, k) * long,
{
    let b = 0x20_0000_0000_0000int;
    let u = RATIO_UNIT as int;
    let c = 0x10_0000_0000_0000_0000int;
    assert(vstd::arithmetic::power2::pow2(53) == b) by {
        vstd::arithmetic::power2::lemma2_to64();
        vstd::arithmetic::power2::lemma_pow2_adds(32, 21);
    }
    lemma_ratio_above(max, long, k);
    let full = long * k;
    assert(-c <= full - max * u <= c);
    let x = short * k;
    assert(0 <= x <= full) by (nonlinear_arith)
        requires
            0 < short <= long,
            k >= 0,
            x == short * k,
            full == long * k,
    ;
    float::lemma_round_close(x as nat, 53);
    let p = float::round_of(x as nat, 53) as int;
    assert(-c <= p - x <= c);
    let n = (p + RATIO_HALF) / u;
    assert(n * u <= p + RATIO_HALF < n * u + u);
    let off = n * u - x;
    assert(-(u + 4 * c) < 2 * off < u + 4 * c);
    assert(x * long == short * full) by (nonlinear_arith)
        requires
            x == short * k,
            full == long * k,
    ;
    let d = n * long - short * max;
    let gap = full - max * u;
    assert(d * u == off * long + short * gap) by (nonlinear_arith)
        requires
            d == n * long - short * max,
            off == n * u - x,
            x * long == short * full,
            gap == full - max * u,
    ;
    assert(-(c * long) <= short * gap <= c * long) by (nonlinear_arith)
        requires
            -c <= gap <= c,
            0 < short <= long,
            c >= 0,
    ;
    assert(2 * (d * u) < (u + 6 * c) * long) by (nonlinear_arith)
        requires
            2 * off < u + 4 * c,
            d * u == off * long + short * gap,
            short * gap <= c * long,
            long > 0,
    ;
    assert(-((u + 6 * c) * long) < 2 * (d * u)) by (nonlinear_arith)
        requires
            -(u + 4 * c) < 2 * off,
            d * u == off * long + short * gap,
            -(c * long) <= short * gap,
            long > 0,
    ;
    assert(-long < d < long) by (nonlinear_arith)
        requires
            2 * (d * u) < (u + 6 * c) * long,
            -((u + 6 * c) * long) < 2 * (d * u),
            6 * c < u,
            long > 0,
            u > 0,
    ;
    assert(short * max > 0) by (nonlinear_arith)
        requires
            short > 0,
            max > 0,
    ;
    lemma_least(max, long, short, k, n);
}

/// The same holds where no pixel would be left.
proof fn lemma_least(max: int, long: int, short: int, k: nat, n: int)
    requires
        1 <= max < long <= u32::MAX,
        0 < short <= long,
        n == (float::round_of((short * k) as nat, 53) + RATIO_HALF) / RATIO_UNIT as int,
        -long < n * long - short * max < long,
        short * max > 0,
    ensures
        side_of(short, k) * long < short * max + long,
        short * max - long < side_of(short, k) * long,
{
    assert(n <= max) by (nonlinear_arith)
        requires
            n * long - short * max < long,
            0 < short <= long,
            max >= 1,
    ;
    if n < 1 {
        assert(n * long <= 0) by (nonlinear_arith)
            requires
                n <= 0,
                long > 0,
        ;
    }
}

/// A picture that is shown fits. One that has to be made smaller keeps its
/// ratio: the longer side becomes the limit, and the other is less than a pixel
/// off from what that takes. What was made to fit stays as it is.
pub proof fn shown_pictures_fit(w: int, h: int, max: int)
    requires
        0 <= w <= u32::MAX,
        0 <= h <= u32::MAX,
        1 <= max <= u32::MAX,
    ensures
        fit_of(w, h, max).0 <= max,
        fit_of(w, h, max).1 <= max,
        w >= 1 && h >= 1 ==> fit_of(w, h, max).0 >= 1 && fit_of(w, h, max).1 >= 1,
        w <= max && h <= max ==> fit_of(w, h, max) == (w, h),
        w > max && w >= h ==> fit_of(w, h, max).0 == max,
        h > max && h >= w ==> fit_of(w, h, max).1 == max,
        w > max && w >= h >= 1 ==> h * max - w < fit_of(w, h, max).1 * w < h * max + w,
        h > max && h >= w >= 1 ==> w * max - h < fit_of(w, h, max).0 * h < w * max + h,
        fit_of(fit_of(w, h, max).0, fit_of(w, h, max).1, max) == fit_of(w, h, max),
{
    if w > max || h > max {
        let k = scale_of(w, h, max);
        if w > 0 {
            lemma_side_fits(max, w, k);
        } else {
            assert(w * k == 0) by (nonlinear_arith)
                requires
                    w == 0,
            ;
            float::lemma_round_bound(0, 53);
        }
        if h > 0 {
            lemma_side_fits(max, h, k);
        } else {
            assert(h * k == 0) by (nonlinear_arith)
                requires
                    h == 0,
            ;
            float::lemma_round_bound(0, 53);
        }
        let long = if w >= h {
            w
        } else {
            h
        };
        lemma_ratio_near(max, long, long);
        if w > 0 {
            lemma_ratio_near(max, w, long);
        }
        if h > 0 {
            lemma_ratio_near(max, h, long);
        }
        lemma_long_side(max, long, k);
        if w > 0 && h > 0 {
            lemma_short_side(
                max,
                if w >= h {
                    h
                } else {
                    w
                },
                long,
                k,
            );
        }
    }
}

fn ratio(max: u32, side: u32) -> (r: u128)
    requires
        side > 0,
    ensures
        r == ratio_of(max as int, side as int),
{
    let scaled: u128 = max as u128 * RATIO_HALF;
    let sticky: u128 = if scaled % side as u128 == 0 {
        0
    } else {
        1
    };
    proof {
        vstd::arithmetic::div_mod::lemma_div_is_ordered_by_denominator(
            scaled as int,
            1,
            side as int,
        );
        assert(scaled as int / 1 == scaled);
    }
    let exact: u128 = 2 * (scaled / side as u128) + sticky;
    float::round(exact, 53)
}

fn scaled_side(side: u32, k: u128) -> (r: u32)
    requires
        side * k < 0x4000_0000_0000_0000_0000_0000_0000_0000,
    ensures
        r == side_of(side as int, k as nat),
{
    proof {
        float::lemma_round_bound((side * k) as nat, 53);
        assert(0 <= side * k) by (nonlinear_arith);
    }
    let product: u128 = float::round(side as u128 * k, 53);
    let n: u128 = (product + RATIO_HALF) / RATIO_UNIT;
    if n < 1 {
        1
    } else if n > 0xffff_ffff {
        u32::MAX
    } else {
        n as u32
    }
}

/// The size at which a picture of `w` by `h` pixels is shown.
pub fn fit(w: u32, h: u32, max: u32) -> (r: (u32, u32))
    ensures
        r.0 == fit_of(w as int, h as int, max as int).0,
        r.1 == fit_of(w as int, h as int, max as int).1,
{
    if w <= max && h <= max {
        return (w, h);
    }
    proof {
        if w > 0 {
            lemma_ratio(max as int, w as int);
        }
        if h > 0 {
            lemma_ratio(max as int, h as int);
        }
    }
    let k: u128 = if w == 0 {
        ratio(max, h)
    } else if h == 0 {
        ratio(max, w)
    } else {
        let a = ratio(max, w);
        let b = ratio(max, h);
        if a <= b {
            a
        } else {
            b
        }
    };
    proof {
        if w > 0 {
            assert(w * k <= w * ratio_of(max as int, w as int)) by (nonlinear_arith)
                requires
                    k <= ratio_of(max as int, w as int),
            ;
        }
        if h > 0 {
            assert(h * k <= h * ratio_of(max as int, h as int)) by (nonlinear_arith)
                requires
                    k <= ratio_of(max as int, h as int),
            ;
        }
    }
    (scaled_side(w, k), scaled_side(h, k))
}

// ---------------------------------------------------------------------------
// The pixels
// ---------------------------------------------------------------------------

/// A decoded picture of the `image` crate.
#[verifier::external_type_specification]
#[verifier::external_body]
pub struct ExDynamicImage(image::DynamicImage);

/// The picture that `image::load_from_memory_with_format` decodes.
pub uninterp spec fn decoded_of(body: Seq<u8>, format: ImageFormat) -> Option<image::DynamicImage>;

/// The width and height of a decoded picture.
pub uninterp spec fn dimensions_of(img: image::DynamicImage) -> (u32, u32);

/// The picture that `DynamicImage::resize` makes with the triangle filter.
pub uninterp spec fn resized_of(img: image::DynamicImage, w: u32, h: u32) -> image::DynamicImage;

/// The pixels that `DynamicImage::to_rgba8` gives.
pub uninterp spec fn rgba8_of(img: image::DynamicImage) -> PictureView;

/// `image::load_from_memory_with_format`: decodes a picture, or gives nothing
/// where the bytes are none of that format.
#[verifier::external_body]
fn decode(body: &[u8], format: ImageFormat) -> (r: Option<image::DynamicImage>)
    ensures
        r == decoded_of(body@, format),
{
    let f = match format {
        ImageFormat::Png => image::ImageFormat::Png,
        ImageFormat::Jpeg => image::ImageFormat::Jpeg,
        ImageFormat::WebP => image::ImageFormat::WebP,
    };
    image::load_from_memory_with_format(body, f).ok()
}

/// `DynamicImage::width` and `height`.
#[verifier::external_body]
fn dimensions(img: &image::DynamicImage) -> (r: (u32, u32))
    ensures
        r == dimensions_of(*img),
{
    (img.width(), img.height())
}

/// `DynamicImage::resize` with the triangle filter: the picture scaled to the
/// largest size of the same shape that fits. One side of it is then as long as
/// it may be, unless the picture has no pixels at all.
#[verifier::external_body]
fn resize(img: &image::DynamicImage, w: u32, h: u32) -> (r: image::DynamicImage)
    requires
        1 <= w <= IMG_FIT,
        1 <= h <= IMG_FIT,
    ensures
        r == resized_of(*img, w, h),
        1 <= dimensions_of(r).0 <= w,
        1 <= dimensions_of(r).1 <= h,
        dimensions_of(*img).0 > 0 && dimensions_of(*img).1 > 0 ==> dimensions_of(r).0 == w
            || dimensions_of(r).1 == h,
{
    img.resize(w, h, image::imageops::FilterType::Triangle)
}

/// `DynamicImage::to_rgba8`: the pixels row by row, four bytes each.
#[verifier::external_body]
fn to_rgba8(img: &image::DynamicImage) -> (r: Picture)
    ensures
        r@ == rgba8_of(*img),
        r@.width == dimensions_of(*img).0,
        r@.height == dimensions_of(*img).1,
        r@.rgba.len() == r@.width * r@.height * 4,
{
    let rgba = img.to_rgba8();
    Picture {
        size: [rgba.width() as usize, rgba.height() as usize],
        rgba: rgba.pixels().flat_map(|p| p.0).collect(),
    }
}

/// The pixels of `shown` are those of `plain` as they are blended: the opacity
/// of each is the same, an opaque one has its colour, and one that is not seen
/// is black. A part that is not there stays away, and equal parts of equal
/// opacity stay equal.
pub open spec fn blended(plain: Seq<u8>, shown: Seq<u8>) -> bool {
    &&& shown.len() == plain.len()
    &&& forall|i: int|
        #![trigger shown[i]]
        0 <= i < plain.len() ==> {
            let a = plain[i / 4 * 4 + 3];
            &&& i % 4 == 3 ==> shown[i] == plain[i]
            &&& a == 255 ==> shown[i] == plain[i]
            &&& a == 0 ==> shown[i] == 0
            &&& plain[i] == 0 ==> shown[i] == 0
        }
    &&& forall|i: int, j: int|
        #![trigger shown[i], shown[j]]
        0 <= i < plain.len() && 0 <= j < plain.len() && i % 4 != 3 && j % 4 != 3 && plain[i]
            == plain[j] && plain[i / 4 * 4 + 3] == plain[j / 4 * 4 + 3] ==> shown[i] == shown[j]
}

/// `egui::ColorImage::from_rgba_unmultiplied`: the pixels with their colours
/// multiplied by their opacity. Of a pixel that is neither opaque nor unseen
/// the other parts are not stated: they come from the power function of the
/// machine's floating point, whose last digits are not the same everywhere.
#[verifier::external_body]
fn blend(plain: &Picture) -> (r: Picture)
    requires
        plain@.rgba.len() == plain@.width * plain@.height * 4,
    ensures
        r@.width == plain@.width,
        r@.height == plain@.height,
        blended(plain@.rgba, r@.rgba),
{
    let img = egui::ColorImage::from_rgba_unmultiplied(plain.size, &plain.rgba);
    Picture { size: img.size, rgba: img.pixels.iter().flat_map(|p| p.to_array()).collect() }
}

/// A decoded picture at the size at which it is shown.
pub open spec fn shown_of(img: image::DynamicImage) -> image::DynamicImage {
    let (w, h) = dimensions_of(img);
    let (tw, th) = fit_of(w as int, h as int, IMG_FIT as int);
    if (tw, th) == (w as int, h as int) {
        img
    } else {
        resized_of(img, tw as u32, th as u32)
    }
}

/// The picture `p` shows a decoded one: its pixels as they are blended, at their
/// own size where that fits, and otherwise at the largest one that does.
pub open spec fn shows(p: PictureView, img: image::DynamicImage) -> bool {
    let (w, h) = dimensions_of(img);
    let (tw, th) = fit_of(w as int, h as int, IMG_FIT as int);
    &&& p.width == rgba8_of(shown_of(img)).width
    &&& p.height == rgba8_of(shown_of(img)).height
    &&& blended(rgba8_of(shown_of(img)).rgba, p.rgba)
    &&& p.rgba.len() == p.width * p.height * 4
    &&& p.width <= tw <= IMG_FIT && p.height <= th <= IMG_FIT
    &&& w <= IMG_FIT && h <= IMG_FIT ==> p.width == w && p.height == h
    &&& w > 0 && h > 0 ==> p.width == tw || p.height == th
}

/// A picture is shown with no side longer than 1600 pixels, and at its own size
/// wherever that is so already.
pub proof fn shown_at_a_size_that_fits(p: PictureView, img: image::DynamicImage)
    requires
        shows(p, img),
    ensures
        p.width <= 1600 && p.height <= 1600,
        dimensions_of(img).0 <= 1600 && dimensions_of(img).1 <= 1600 ==> p.width == dimensions_of(
            img,
        ).0 && p.height == dimensions_of(img).1 && blended(rgba8_of(img).rgba, p.rgba),
        dimensions_of(img).0 > 1600 && dimensions_of(img).0 >= dimensions_of(img).1 >= 1 ==> p.width
            == 1600 || p.height == fit_of(
            dimensions_of(img).0 as int,
            dimensions_of(img).1 as int,
            1600,
        ).1,
{
    shown_pictures_fit(dimensions_of(img).0 as int, dimensions_of(img).1 as int, 1600);
}

/// The pixels to show of a decoded picture.
pub fn show_image(img: image::DynamicImage) -> (r: Picture)
    ensures
        shows(r@, img),
{
    let (w, h) = dimensions(&img);
    let (tw, th) = fit(w, h, IMG_FIT);
    proof {
        shown_pictures_fit(w as int, h as int, IMG_FIT as int);
    }
    let plain = if tw == w && th == h {
        to_rgba8(&img)
    } else {
        to_rgba8(&resize(&img, tw, th))
    };
    blend(&plain)
}

/// The pixels to show of a picture that was sent, or the status of the answer
/// where it is refused: 413 where it is too large, 415 where it is no picture
/// of a known format.
pub fn decode_image(body: &[u8], content_type: &str) -> (r: Result<Picture, u16>)
    ensures
        too_large(body@.len()) ==> r == Err::<Picture, u16>(413),
        !too_large(body@.len()) ==> match img_format_of(content_type@) {
            None => r == Err::<Picture, u16>(415),
            Some(format) => match decoded_of(body@, format) {
                None => r == Err::<Picture, u16>(415),
                Some(img) => r matches Ok(p) && shows(p@, img),
            },
        },
{
    if body.len() > IMG_MAX {
        return Err(413);
    }
    match img_format(content_type) {
        Some(format) => match decode(body, format) {
            Some(img) => Ok(show_image(img)),
            None => Err(415),
        },
        None => Err(415),
    }
}

} // verus!
