//! Pictures, and the talking one.

use health_widget::avatar::{
    draw_line, draw_scope, flip_h_rgba, frame_complete, frame_written, iowr, pix_format, put_px,
    rgba_to_yuyv, sample_index, start_fault, strip_element_by_id, xml_escape, AvatarError, Phrase,
    Rng, V4l2Format,
};
use health_widget::config::MouthBox;
use health_widget::pictures::{decode_image, fit, img_format, show_image, ImageFormat};

#[test]
fn white_pixels_map_to_full_luma_neutral_chroma() {
    let rgba = vec![255u8; 2 * 4];
    let yuyv = rgba_to_yuyv(&rgba, 2, 1);
    assert_eq!(yuyv.len(), 2 * 2);
    assert_eq!(yuyv[0], 255);
    assert_eq!(yuyv[2], 255);
    assert_eq!(yuyv[1], 128);
    assert_eq!(yuyv[3], 128);
}

#[test]
fn black_pixels_map_to_zero_luma() {
    let rgba = vec![0u8, 0, 0, 255, 0, 0, 0, 255];
    let yuyv = rgba_to_yuyv(&rgba, 2, 1);
    assert_eq!(yuyv[0], 0);
    assert_eq!(yuyv[2], 0);
    assert_eq!(yuyv[1], 128);
    assert_eq!(yuyv[3], 128);
}

fn px(rgba: &[u8], w: u32, x: u32, y: u32) -> [u8; 3] {
    let i = ((y * w + x) * 4) as usize;
    [rgba[i], rgba[i + 1], rgba[i + 2]]
}

fn rows(mouth: &MouthBox, samples: &[f32], gain: f32) -> Vec<i32> {
    let cy = mouth.y as i32 + mouth.h as i32 / 2;
    let half = mouth.h as f32 * 0.5;
    let n = mouth.w.max(1) as usize;
    (0..n)
        .map(|col| {
            let v = (samples[sample_index(col, samples.len(), n)] * gain).clamp(-1.0, 1.0);
            cy - (v * half) as i32
        })
        .collect()
}

#[test]
fn silence_draws_flat_line_at_center() {
    let (w, h) = (40u32, 40u32);
    let mut rgba = vec![0u8; (w * h * 4) as usize];
    let mouth = MouthBox { x: 10, y: 10, w: 20, h: 20 };
    draw_scope(&mut rgba, w, &mouth, &rows(&mouth, &[0.0; 64], 6.0), (200, 0, 0), 1);
    assert_eq!(px(&rgba, w, 20, 20), [200, 0, 0]);
    assert_eq!(px(&rgba, w, 2, 2), [0, 0, 0]);
}

#[test]
fn loud_sample_leaves_center_row_for_some_column() {
    let (w, h) = (40u32, 40u32);
    let mut rgba = vec![0u8; (w * h * 4) as usize];
    let mouth = MouthBox { x: 10, y: 10, w: 20, h: 20 };
    let mut samples = vec![0.0f32; 20];
    samples[10] = 1.0;
    draw_scope(&mut rgba, w, &mouth, &rows(&mouth, &samples, 6.0), (200, 0, 0), 1);
    let mut off_center_hit = false;
    for y in 10..30 {
        if y != 20 && px(&rgba, w, 20, y) == [200, 0, 0] {
            off_center_hit = true;
        }
    }
    assert!(off_center_hit);
}

#[test]
fn v4l2_format_matches_kernel_abi_size() {
    assert_eq!(std::mem::size_of::<V4l2Format>(), 208);
}

#[test]
fn colours_are_what_floating_point_makes_of_them() {
    fn clamp_u8(v: f32) -> u8 {
        v.round().clamp(0.0, 255.0) as u8
    }
    fn luma(r: f32, g: f32, b: f32) -> f32 {
        0.299 * r + 0.587 * g + 0.114 * b
    }
    fn chroma_u(r: f32, g: f32, b: f32) -> f32 {
        128.0 - 0.168736 * r - 0.331264 * g + 0.5 * b
    }
    fn chroma_v(r: f32, g: f32, b: f32) -> f32 {
        128.0 + 0.5 * r - 0.418688 * g - 0.081312 * b
    }
    let mut seed = 12345u32;
    let mut next = || {
        seed = seed.wrapping_mul(1664525).wrapping_add(1013904223);
        (seed >> 24) as u8
    };
    for _ in 0..20_000 {
        let rgba = [next(), next(), next(), 255, next(), next(), next(), 255];
        let got = rgba_to_yuyv(&rgba, 2, 1);
        let (r0, g0, b0) = (rgba[0] as f32, rgba[1] as f32, rgba[2] as f32);
        let (r1, g1, b1) = (rgba[4] as f32, rgba[5] as f32, rgba[6] as f32);
        let y0 = luma(r0, g0, b0);
        let y1 = luma(r1, g1, b1);
        assert_eq!(got[0], clamp_u8(y0), "{rgba:?}");
        assert_eq!(got[2], clamp_u8(y1), "{rgba:?}");
        let u = clamp_u8((chroma_u(r0, g0, b0) + chroma_u(r1, g1, b1)) * 0.5);
        let v = clamp_u8((chroma_v(r0, g0, b0) + chroma_v(r1, g1, b1)) * 0.5);
        assert_eq!(got[1], u, "{rgba:?}");
        assert_eq!(got[3], v, "{rgba:?}");
    }
}

#[test]
fn flipping_twice_changes_nothing() {
    let src: Vec<u8> = (0..3 * 2 * 4).collect();
    let once = flip_h_rgba(&src, 3, 2);
    assert_eq!(&once[0..4], &src[8..12]);
    assert_eq!(&once[12..16], &src[20..24]);
    assert_eq!(flip_h_rgba(&once, 3, 2), src);
}

#[test]
fn pixels_outside_are_not_drawn() {
    let mut rgba = vec![0u8; 4 * 4 * 4];
    put_px(&mut rgba, 4, 1, 2, (1, 2, 3));
    assert_eq!(px(&rgba, 4, 1, 2), [1, 2, 3]);
    let before = rgba.clone();
    put_px(&mut rgba, 4, -1, 0, (9, 9, 9));
    put_px(&mut rgba, 4, 0, -1, (9, 9, 9));
    put_px(&mut rgba, 4, 0, 100, (9, 9, 9));
    assert_eq!(rgba, before);
}

#[test]
fn a_line_joins_its_ends() {
    let mut rgba = vec![0u8; 10 * 10 * 4];
    draw_line(&mut rgba, 10, (1, 1), (8, 5), (7, 7, 7));
    assert_eq!(px(&rgba, 10, 1, 1), [7, 7, 7]);
    assert_eq!(px(&rgba, 10, 8, 5), [7, 7, 7]);
    for x in 1..=8 {
        assert!((0..10).any(|y| px(&rgba, 10, x, y) == [7, 7, 7]), "column {x}");
    }
    let drawn = rgba.chunks(4).filter(|p| p[0] == 7).count();
    assert_eq!(drawn, 8);
    let before = rgba.clone();
    draw_line(&mut rgba, 10, (40, i32::MAX - 2), (41, i32::MAX), (9, 9, 9));
    assert_eq!(rgba, before);
}

#[test]
fn the_first_fault_counts() {
    assert_eq!(start_fault(true, "d", None, None, None, None), None);
    assert_eq!(
        start_fault(false, "d", Some("r"), Some("s"), Some("o"), Some("f")),
        Some(AvatarError::NoDevice("d".to_string()))
    );
    assert_eq!(
        start_fault(true, "d", Some("r"), Some("s"), Some("o"), Some("f")),
        Some(AvatarError::Io("r".to_string()))
    );
    assert_eq!(
        start_fault(true, "d", None, Some("s"), Some("o"), Some("f")),
        Some(AvatarError::Svg("s".to_string()))
    );
    assert_eq!(
        start_fault(true, "d", None, None, Some("o"), Some("f")),
        Some(AvatarError::Io("o".to_string()))
    );
    assert_eq!(
        start_fault(true, "d", None, None, None, Some("f")),
        Some(AvatarError::Format("f".to_string()))
    );
}

#[test]
fn an_element_is_taken_out_by_its_name() {
    let svg = br#"<svg><path id="a" d="M0 0"/><path id="mouth" d="M1 1"/></svg>"#;
    let got = String::from_utf8(strip_element_by_id(svg, "mouth")).unwrap();
    assert!(!got.contains("mouth"), "{got}");
    assert!(got.contains("id=\"a\""));
    assert_eq!(strip_element_by_id(svg, "nose"), svg.to_vec());
}

#[test]
fn xml_is_escaped() {
    assert_eq!(xml_escape("a<b>&\"c\""), "a&lt;b&gt;&amp;&quot;c&quot;");
}

#[test]
fn chance_never_sticks_and_stays_in_range() {
    let mut r = Rng::seed(Some(0));
    let mut seen = Vec::new();
    for _ in 0..100 {
        let n = r.range(3, 9);
        assert!((3..9).contains(&n));
        seen.push(n);
        assert_ne!(r.state, 0);
    }
    seen.dedup();
    assert!(seen.len() > 10);
    let mut a = Rng::seed(Some(7));
    let mut b = Rng::seed(Some(7));
    assert_eq!(a.next_u32(), b.next_u32());
}

#[test]
fn a_phrase_that_does_not_fit_is_not_shown() {
    let mut r = Rng::seed(Some(7));
    let rgba = vec![255u8; 4 * 4 * 4];
    let p = Phrase::spawn(4, 4, &rgba, 640, 480, &mut r).expect("fits");
    assert!(p.x + p.w <= 640 && p.y + p.h <= 480);
    assert!(Phrase::spawn(4, 4, &rgba, 3, 3, &mut r).is_none());
}

#[test]
fn requests_to_the_camera_are_numbered_as_the_kernel_does() {
    assert_eq!(iowr(b'V', 5, 208), 0xC0D0_5605);
    let f = pix_format(640, 480);
    assert_eq!(&f[0..4], &640u32.to_le_bytes());
    assert_eq!(&f[4..8], &480u32.to_le_bytes());
    assert_eq!(&f[8..12], b"YUYV");
}

#[test]
fn frames_are_counted_as_lost_only_in_a_row() {
    assert_eq!(frame_written(0, true).0, 0);
    assert_eq!(frame_written(0, false).0, 1);
    assert_eq!(frame_written(5, true).0, 0);
    assert!(frame_complete(10, 10));
    assert!(!frame_complete(9, 10));
}

#[test]
fn faults_of_the_picture_say_what_they_are() {
    for e in [
        AvatarError::NoDevice("x".to_string()),
        AvatarError::Svg("x".to_string()),
        AvatarError::Format("x".to_string()),
        AvatarError::Io("x".to_string()),
    ] {
        assert!(e.message().contains('x'));
    }
}

#[test]
fn img_format_from_content_type() {
    assert_eq!(img_format("image/png"), Some(ImageFormat::Png));
    assert_eq!(img_format("image/jpeg; charset=utf-8"), Some(ImageFormat::Jpeg));
    assert_eq!(img_format("image/webp"), Some(ImageFormat::WebP));
    assert_eq!(img_format("text/html"), None);
}

#[test]
fn fit_downscales_preserving_ratio() {
    assert_eq!(fit(4000, 3000, 1600), (1600, 1200));
    assert_eq!(fit(3000, 4000, 1600), (1200, 1600));
    assert_eq!(fit(800, 600, 1600), (800, 600));
}

#[test]
fn fit_is_what_floating_point_makes_of_it() {
    let mut seed = 99u32;
    let mut next = || {
        seed = seed.wrapping_mul(1664525).wrapping_add(1013904223);
        (seed >> 16) + 1
    };
    for _ in 0..20_000 {
        let (w, h) = (next(), next());
        let max = 1600u32;
        let expected = if w <= max && h <= max {
            (w, h)
        } else {
            let k = max as f64 / w.max(h) as f64;
            (((w as f64 * k).round() as u32).max(1), ((h as f64 * k).round() as u32).max(1))
        };
        assert_eq!(fit(w, h, max), expected, "{w} {h}");
        let (a, b) = fit(w, h, max);
        assert_eq!(fit(a, b, max), (a, b));
        assert!(w.max(h) <= max || a.max(b) == max, "{w} {h}");
    }
}

#[test]
fn decode_rejects_garbage_and_accepts_png() {
    assert_eq!(decode_image(b"mus", "image/png").err(), Some(415));
    assert_eq!(decode_image(b"x", "text/plain").err(), Some(415));
    let mut png = Vec::new();
    image::DynamicImage::new_rgba8(2, 2)
        .write_to(&mut std::io::Cursor::new(&mut png), image::ImageFormat::Png)
        .unwrap();
    let img = decode_image(&png, "image/png").unwrap();
    assert_eq!(img.size, [2, 2]);
}

#[test]
fn large_pictures_are_made_smaller() {
    let shown = show_image(image::DynamicImage::new_rgba8(3200, 10));
    assert_eq!(shown.size, [1600, 5]);
    assert_eq!(shown.rgba.len(), 1600 * 5 * 4);
}

#[test]
fn parts_that_are_not_there_stay_away() {
    let mut img = image::RgbaImage::new(1, 1);
    img.put_pixel(0, 0, image::Rgba([0, 90, 90, 100]));
    let shown = show_image(image::DynamicImage::ImageRgba8(img));
    assert_eq!(shown.rgba[0], 0);
    assert_eq!(shown.rgba[1], shown.rgba[2]);
    assert!(shown.rgba[1] > 0 && shown.rgba[1] < 90);
    assert_eq!(shown.rgba[3], 100);
}

#[test]
fn opaque_pixels_are_shown_as_they_are() {
    let mut img = image::RgbaImage::new(1, 2);
    img.put_pixel(0, 0, image::Rgba([10, 20, 30, 255]));
    img.put_pixel(0, 1, image::Rgba([10, 20, 30, 0]));
    let shown = show_image(image::DynamicImage::ImageRgba8(img));
    assert_eq!(shown.rgba, vec![10, 20, 30, 255, 0, 0, 0, 0]);
}
