//! The microphone in the browser.

use health_widget::calls_web::parse_range;
use health_widget::clock::Duration;
use health_widget::webmic::{
    content_type, hint, hint_url, hosts, ip_from_addr_line, lan_ip, msg_from, needs_token,
    new_token, path, pcm_from_le, public_ip, query_param, rate_from_url, reply_body, route,
    starts_stt, static_file, status, stops_stt, token_from, token_ok, wg_dev_from, Post, Route, Shared,
    LINES_CAP, MSG_MAX,
};
use health_widget::websocket::{
    accept_input, b64, ws_accept, ws_text_frame, zoom_msg, zoom_tick, ZoomSent, WS_HEARTBEAT_TICKS,
};

#[test]
fn range_forms_parse_into_inclusive_bounds() {
    assert_eq!(parse_range("bytes=0-499", 1000), Some((0, 499)));
    assert_eq!(parse_range("bytes=500-", 1000), Some((500, 999)));
    assert_eq!(parse_range("bytes=-500", 1000), Some((500, 999)));
    assert_eq!(parse_range("bytes=0-99999", 1000), Some((0, 999)));
}

#[test]
fn broken_or_unsatisfiable_ranges_are_rejected() {
    assert_eq!(parse_range("байты пожалуйста", 1000), None);
    assert_eq!(parse_range("bytes=abc-def", 1000), None);
    assert_eq!(parse_range("bytes=999999-", 1000), None);
    assert_eq!(parse_range("bytes=0-10,20-30", 1000), None);
    assert_eq!(parse_range("bytes=0-0", 0), None);
}

#[test]
fn ranges_at_their_edges() {
    assert_eq!(parse_range("bytes=999-", 1000), Some((999, 999)));
    assert_eq!(parse_range("bytes=1000-", 1000), None);
    assert_eq!(parse_range("bytes=5-4", 1000), None);
    assert_eq!(parse_range("bytes=-5000", 1000), Some((0, 999)));
    assert_eq!(parse_range("bytes=-0", 1000), None);
    assert_eq!(parse_range("bytes=-", 1000), None);
}

#[test]
fn pcm_decodes_le_floats() {
    let mut b = Vec::new();
    b.extend_from_slice(&0.5f32.to_le_bytes());
    b.extend_from_slice(&(-1.0f32).to_le_bytes());
    b.push(7);
    let got: Vec<f32> = pcm_from_le(&b).into_iter().map(f32::from_bits).collect();
    assert_eq!(got, vec![0.5, -1.0]);
}

#[test]
fn rate_parsed_from_query() {
    assert_eq!(rate_from_url("/api/audio?rate=44100&seq=3"), 44100);
    assert_eq!(rate_from_url("/api/audio?seq=3"), 48000);
    assert_eq!(rate_from_url("/api/audio?rate=999999"), 48000);
    assert_eq!(rate_from_url("/api/audio"), 48000);
}

#[test]
fn token_required_paths() {
    assert!(needs_token("/"));
    assert!(needs_token("/index.html"));
    assert!(needs_token("/api/audio"));
    assert!(!needs_token("/worklet.js"));
    assert!(!needs_token("/assets/index-abc.js"));
}

#[test]
fn token_check() {
    assert!(token_ok("/?t=secret", "secret"));
    assert!(token_ok("/api/audio?rate=1&t=secret", "secret"));
    assert!(!token_ok("/?t=wrong", "secret"));
    assert!(!token_ok("/", "secret"));
}

#[test]
fn msg_parsing() {
    assert_eq!(msg_from("привет".as_bytes()), Ok("привет".to_string()));
    assert_eq!(msg_from(b"  \n "), Err(400));
    assert_eq!(msg_from(&[0xff, 0xfe]), Err(400));
    assert_eq!(msg_from(&vec![b'a'; MSG_MAX + 1]), Err(413));
}

#[test]
fn posts_capped_at_30() {
    let mut sh = Shared::default();
    for i in 0..31 {
        sh.push_post(|id| Post::Text(id, format!("m{i}")));
    }
    assert_eq!(sh.posts.len(), 30);
    assert!(matches!(sh.posts.front(), Some(Post::Text(2, _))));
    assert!(matches!(sh.posts.back(), Some(Post::Text(31, _))));
}

#[test]
fn clear_undo_said_keeps_fresh_lines() {
    let mut sh = Shared::default();
    sh.lines.push_back("раз".to_string());
    sh.lines.push_back("два".to_string());
    sh.partial = "хвост".to_string();
    sh.clear_said();
    assert!(sh.lines.is_empty());
    assert!(sh.partial.is_empty());
    sh.lines.push_back("три".to_string());
    sh.undo_said();
    assert_eq!(
        sh.lines.iter().map(String::as_str).collect::<Vec<_>>(),
        ["раз", "два", "три"]
    );
    sh.undo_said();
    assert_eq!(sh.lines.len(), 3);
}

#[test]
fn clear_of_empty_feed_keeps_stash() {
    let mut sh = Shared::default();
    sh.lines.push_back("раз".to_string());
    sh.clear_said();
    sh.clear_said();
    sh.undo_said();
    assert_eq!(
        sh.lines.iter().map(String::as_str).collect::<Vec<_>>(),
        ["раз"]
    );
}

#[test]
fn clear_undo_sent_restores_posts_before_new() {
    let mut sh = Shared::default();
    sh.push_post(|id| Post::Text(id, "раз".to_string()));
    sh.push_post(|id| Post::Text(id, "два".to_string()));
    sh.clear_sent();
    assert!(sh.posts.is_empty());
    sh.push_post(|id| Post::Text(id, "три".to_string()));
    sh.undo_sent();
    assert_eq!(sh.posts.len(), 3);
    assert!(matches!(sh.posts.front(), Some(Post::Text(1, _))));
    assert!(matches!(sh.posts.back(), Some(Post::Text(3, _))));
    sh.undo_sent();
    assert_eq!(sh.posts.len(), 3);
}

#[test]
fn b64_can_be_read_back() {
    let alphabet = "ABCDEFGHIJKLMNOPQRSTUVWXYZabcdefghijklmnopqrstuvwxyz0123456789+/";
    for len in 0..10usize {
        let data: Vec<u8> = (0..len).map(|i| (i * 83 + len * 29 + 250) as u8).collect();
        let mut back: Vec<u8> = Vec::new();
        let written: Vec<char> = b64(&data).chars().collect();
        for g in written.chunks(4) {
            let n = g
                .iter()
                .fold(0usize, |n, c| n * 64 + alphabet.find(*c).unwrap_or(0));
            let fill = g.iter().filter(|c| **c == '=').count();
            let bytes = [(n >> 16) as u8, (n >> 8) as u8, n as u8];
            back.extend_from_slice(&bytes[..3 - fill]);
        }
        assert_eq!(back, data);
    }
}

#[test]
fn b64_vectors() {
    assert_eq!(b64(b""), "");
    assert_eq!(b64(b"f"), "Zg==");
    assert_eq!(b64(b"fo"), "Zm8=");
    assert_eq!(b64(b"foo"), "Zm9v");
    assert_eq!(b64(b"foobar"), "Zm9vYmFy");
}

#[test]
fn ws_accept_rfc_vector() {
    assert_eq!(
        accept_input("dGhlIHNhbXBsZSBub25jZQ=="),
        "dGhlIHNhbXBsZSBub25jZQ==258EAFA5-E914-47DA-95CA-C5AB0DC85B11"
    );
    let digest = [
        0xb3, 0x7a, 0x4f, 0x2c, 0xc0, 0x62, 0x4f, 0x16, 0x90, 0xf6, 0x46, 0x06, 0xcf, 0x38, 0x59,
        0x45, 0xb2, 0xbe, 0xc4, 0xea,
    ];
    assert_eq!(ws_accept(Some(&digest)).as_deref(), Some("s3pPLMBiTxaQ9kYGzzhZRbK+xOo="));
    assert_eq!(ws_accept(Some(&digest[1..])), None);
    assert_eq!(ws_accept(None), None);
}

#[test]
fn ws_frame_lengths() {
    let small = ws_text_frame(&[b'a'; 5]);
    assert_eq!(&small[..2], &[0x81, 5]);
    assert_eq!(small.len(), 7);
    let mid = ws_text_frame(&[b'a'; 300]);
    assert_eq!(&mid[..4], &[0x81, 126, 1, 44]);
    assert_eq!(mid.len(), 304);
    let big = ws_text_frame(&[b'a'; 70_000]);
    assert_eq!(big[1], 127);
    assert_eq!(&big[2..10], &70_000u64.to_be_bytes());
    assert_eq!(big.len(), 70_010);
}

#[test]
fn zoom_msg_protocol() {
    let mut sent = ZoomSent::default();
    assert_eq!(
        zoom_msg(&mut sent, false, "", "").as_deref(),
        Some(r#"{"on":false}"#)
    );
    assert_eq!(zoom_msg(&mut sent, false, "", ""), None);
    assert_eq!(
        zoom_msg(&mut sent, true, "привет", "ми").as_deref(),
        Some(r#"{"full":"привет","on":true,"partial":"ми"}"#)
    );
    assert_eq!(zoom_msg(&mut sent, true, "привет", "ми"), None);
    assert_eq!(
        zoom_msg(&mut sent, true, "привет мир", "").as_deref(),
        Some(r#"{"add":" мир","on":true,"partial":""}"#)
    );
    assert_eq!(
        zoom_msg(&mut sent, true, "обрезано", "").as_deref(),
        Some(r#"{"full":"обрезано","on":true,"partial":""}"#)
    );
    assert_eq!(
        zoom_msg(&mut sent, false, "", "").as_deref(),
        Some(r#"{"on":false}"#)
    );
    assert_eq!(
        zoom_msg(&mut sent, true, "", "").as_deref(),
        Some(r#"{"full":"","on":true,"partial":""}"#)
    );
}

#[test]
fn zoom_msg_first_tick_on() {
    let mut sent = ZoomSent::default();
    assert_eq!(
        zoom_msg(&mut sent, true, "старт", "").as_deref(),
        Some(r#"{"full":"старт","on":true,"partial":""}"#)
    );
}

#[test]
fn a_quiet_connection_is_kept_alive() {
    let mut sent = ZoomSent::default();
    assert!(zoom_tick(&mut sent, 0, true, "a", "").0.is_some());
    assert_eq!(zoom_tick(&mut sent, 3, true, "a", ""), (None, 4));
    assert_eq!(
        zoom_tick(&mut sent, WS_HEARTBEAT_TICKS, true, "a", ""),
        (Some(r#"{"on":true}"#.to_string()), 0)
    );
}

#[test]
fn wg_dev_parsed_from_link_line() {
    let out = "19: linux-ultra: <POINTOPOINT,NOARP,UP,LOWER_UP> mtu 1420 qdisc noqueue state UNKNOWN mode DEFAULT group default qlen 1000\\    link/none \n";
    assert_eq!(wg_dev_from(out), Some("linux-ultra".to_string()));
    assert_eq!(wg_dev_from(""), None);
}

#[test]
fn ip_parsed_from_addr_line() {
    let out = "19: linux-ultra    inet 10.8.0.9/32 scope global linux-ultra\\       valid_lft forever preferred_lft forever\n";
    assert_eq!(ip_from_addr_line(out), Some("10.8.0.9".to_string()));
    assert_eq!(ip_from_addr_line(""), None);
}

#[test]
fn hint_url_format() {
    assert_eq!(
        hint_url("203.0.113.7", "abc123"),
        "https://203.0.113.7:8787/?t=abc123"
    );
}

#[test]
fn static_rejects_traversal() {
    assert!(static_file("/../etc/passwd").is_none());
    assert!(static_file("/a/../../etc/passwd").is_none());
}

#[test]
fn content_types() {
    assert_eq!(content_type("index.html"), "text/html; charset=utf-8");
    assert_eq!(content_type("assets/app.js"), "application/javascript");
    assert_eq!(content_type("x.bin"), "application/octet-stream");
}

#[test]
fn files_are_served_below_the_root() {
    let (file, kind) = static_file("/").unwrap();
    assert_eq!((file.as_str(), kind), ("index.html", "text/html; charset=utf-8"));
    let (file, _) = static_file("/assets/app.js").unwrap();
    assert_eq!(file, "assets/app.js");
}

#[test]
fn requests_go_where_they_belong() {
    assert_eq!(route(true, "/api/audio?t=s", Some("s")), Route::Audio);
    assert_eq!(route(true, "/api/audio?t=x", Some("s")), Route::Forbidden);
    assert_eq!(route(false, "/worklet.js", Some("s")), Route::Static);
    assert_eq!(route(true, "/api/msg", None), Route::Msg);
    assert_eq!(status(Route::Forbidden, true), Some(403));
    assert_eq!(status(Route::Audio, false), Some(200));
    assert_eq!((status(Route::Zoom, true), status(Route::Zoom, false)), (Some(101), Some(400)));
    assert_eq!((status(Route::Static, true), status(Route::Static, false)), (Some(200), Some(404)));
    assert_eq!(status(Route::Img, true), None);
    assert_eq!(path("/a?b=c"), "/a");
    assert_eq!(query_param("/a?b=c&d=", "d").as_deref(), Some(""));
    assert_eq!(query_param("/a?b=c", "x"), None);
    assert_eq!(reply_body(200), r#"{"ok":true}"#);
    assert_eq!(reply_body(415), r#"{"ok":false}"#);
}

#[test]
fn addresses_are_told_to_the_user() {
    assert_eq!(public_ip("203.0.113.7\n").as_deref(), Some("203.0.113.7"));
    assert_eq!(public_ip("<html>"), None);
    assert_eq!(lan_ip("192.168.1.2 10.0.0.1 \n").as_deref(), Some("192.168.1.2"));
    assert_eq!(lan_ip(" \n"), None);
    let hs = hosts(None, Some("10.8.0.9"), None, Some("192.168.1.2"));
    assert!(hs.contains(&"10.8.0.9".to_string()));
    assert!(hint(&hs, Some("abc")).contains("t=abc"));
    assert_eq!(token_from(" x \n").as_deref(), Some("x"));
    assert_eq!(new_token(true, b" ab12 \n"), Ok("ab12".to_string()));
    assert_eq!(token_from("ab12").as_deref(), Some("ab12"));
    assert_eq!(new_token(true, b" \n"), Err("пустой токен".to_string()));
    assert_eq!(new_token(false, b"x"), Err("openssl rand не отработал".to_string()));
}

#[test]
fn the_browser_sends_and_edits() {
    let mut sh = Shared::default();
    assert_eq!(sh.on_msg("привет".as_bytes()), 200);
    assert_eq!(sh.on_msg(b" "), 400);
    assert_eq!(sh.posts.len(), 1);
    assert_eq!(sh.on_img(b"mus", "image/png"), 415);
    assert_eq!(sh.on_edit(false, Some("sent")), 200);
    assert!(sh.posts.is_empty());
    assert_eq!(sh.on_edit(true, Some("sent")), 200);
    assert_eq!(sh.posts.len(), 1);
    assert_ne!(sh.on_edit(true, Some("что-то")), 200);
}

#[test]
fn what_the_browser_says_is_shown() {
    let mut sh = Shared::default();
    let now = Duration::from_secs(10);
    let many: Vec<String> = (0..LINES_CAP + 3).map(|i| format!("л{i}")).collect();
    let reply = sh.on_audio(&many, "хвост", true, Some(now));
    assert!(reply.contains("\"partial\":\"хвост\""), "{reply}");
    assert_eq!(sh.lines.len(), LINES_CAP);
    assert!(sh.stt_on);
    assert!(sh.client_active(now));
    sh.stt_stopped();
    assert!(!sh.stt_on && sh.partial.is_empty());
    assert!(starts_stt(1, false) && !starts_stt(1, true) && !starts_stt(0, false));
    assert!(!stops_stt(true, None));
    assert!(!stops_stt(false, Some(Duration::from_secs(100_000))));
    assert!(stops_stt(true, Some(Duration::from_secs(100_000))));
}
