//! The figures, the log and what is read of the settings.

use health_widget::clock::Duration;
use health_widget::config::{alpha, env_bool, AvatarCfg, Config, Overrides};
use health_widget::data::{
    load, parse, value_to_string, RawMetric, StructuredDoc, BROKEN_TITLE,
};
use health_widget::frames::{band, screen, screen_printed};
use health_widget::json::{from_value, object, read, Json};
use health_widget::telemetry::{
    build_record, dump, enabled, fmt_local, records, render, should_rotate, started, Tm, MAX_BYTES,
};

/// The file where it says what stands above the figures, as the program reads
/// it.
fn structured(text: &str) -> Option<StructuredDoc> {
    let v: serde_json::Value = serde_json::from_str(text).ok()?;
    let title = match v.get("title") {
        None | Some(serde_json::Value::Null) => None,
        Some(t) => Some(t.as_str()?.to_string()),
    };
    let mut metrics = Vec::new();
    for m in v.get("metrics")?.as_array()? {
        metrics.push(RawMetric {
            label: m.get("label")?.as_str()?.to_string(),
            value: from_value(m.get("value")?),
        });
    }
    Some(StructuredDoc { title, metrics })
}

#[test]
fn structured_format_keeps_title_and_order() {
    let text = r#"{"title":"Здоровье","metrics":[
            {"label":"Пульс","value":"62 bpm"},
            {"label":"Шаги","value":8420}
        ]}"#;
    let m = parse(text, structured(text).as_ref()).expect("должно распарситься");
    assert_eq!(m.title.as_deref(), Some("Здоровье"));
    assert_eq!(m.items.len(), 2);
    assert_eq!(m.items[0].label, "Пульс");
    assert_eq!(m.items[0].value, "62 bpm");
    assert_eq!(m.items[1].value, "8420");
}

#[test]
fn flat_object_has_no_title_and_sorts_keys() {
    let text = r#"{"steps":8420,"hr":62}"#;
    let m = parse(text, structured(text).as_ref()).expect("плоский объект");
    assert!(m.title.is_none());
    let labels: Vec<&str> = m.items.iter().map(|i| i.label.as_str()).collect();
    assert_eq!(labels, ["hr", "steps"]);
}

#[test]
fn null_value_becomes_dash() {
    assert_eq!(value_to_string(&Json::Null), "—");
}

#[test]
fn string_value_has_no_quotes() {
    let v = Json::Text("7ч 10м".to_string());
    assert_eq!(value_to_string(&v), "7ч 10м");
}

#[test]
fn invalid_json_returns_none() {
    assert!(parse("не json вовсе", structured("не json вовсе").as_ref()).is_none());
    assert!(parse("[1,2,3]", structured("[1,2,3]").as_ref()).is_none());
}

#[test]
fn values_are_shown_as_they_are_written() {
    assert_eq!(value_to_string(&read("1.50").unwrap()), "1.5");
    assert_eq!(value_to_string(&read("-12").unwrap()), "-12");
    assert_eq!(value_to_string(&read("true").unwrap()), "true");
    for text in ["51.2481783755054035", "51.24817837550540", "1.7976931348623157e308", "5e-324"] {
        let value: serde_json::Value = serde_json::from_str(text).unwrap();
        let j = read(text).unwrap();
        assert_eq!(value_to_string(&j), value.to_string(), "{text}");
        assert_eq!(health_widget::json::write(&from_value(&value)), value.to_string(), "{text}");
        let inside = format!("{{\"a\":[{text}]}}");
        let whole: serde_json::Value = serde_json::from_str(&inside).unwrap();
        assert_eq!(health_widget::json::write(&read(&inside).unwrap()), whole.to_string());
    }
    assert_eq!(value_to_string(&read("51.2481783755054035").unwrap()), "51.248178375505404");
    assert_eq!(value_to_string(&read("[1, true]").unwrap()), "[1,true]");
    assert_eq!(value_to_string(&read("{\"b\":1,\"a\":-2}").unwrap()), "{\"a\":-2,\"b\":1}");
    assert_eq!(value_to_string(&Json::Bool(false)), "false");
}

#[test]
fn a_broken_file_says_so_and_a_missing_one_shows_nothing() {
    let broken = load(Some("nonsense"), None);
    assert_eq!(broken.title.as_deref(), Some(BROKEN_TITLE));
    assert!(broken.items.is_empty());
    let missing = load(None, None);
    assert!(missing.title.is_none() && missing.items.is_empty());
}

#[test]
fn documents_are_read_and_written_back() {
    for text in [
        "null",
        "{\"a\":[1,-2,{\"b\":\"ы\\\"\"}],\"c\":true}",
        "18446744073709551615",
        "-9223372036854775808",
        "\"\\u0001\"",
    ] {
        let j = read(text).unwrap();
        assert_eq!(health_widget::json::write(&j), text);
        assert_eq!(read(&health_widget::json::write(&j)).unwrap(), j);
    }
    assert!(read("{").is_none());
    assert_eq!(
        object(vec![
            ("b".to_string(), Json::UInt(1)),
            ("a".to_string(), Json::Null),
            ("b".to_string(), Json::UInt(2)),
        ]),
        Json::Object(vec![("a".to_string(), Json::Null), ("b".to_string(), Json::UInt(2))])
    );
}

#[test]
fn record_has_ts_ev_and_merges_fields() {
    let fields = object(vec![("target".to_string(), Json::Text("mic0".to_string()))]);
    let r = build_record(1720526400123, "audio.mic.start", fields);
    let v: serde_json::Value = serde_json::from_str(&r).unwrap();
    assert_eq!(v["ts"], 1720526400123i64);
    assert_eq!(v["ev"], "audio.mic.start");
    assert_eq!(v["target"], "mic0");
}

#[test]
fn record_without_fields_ok() {
    let r = build_record(1, "app.shutdown", object(vec![]));
    let v: serde_json::Value = serde_json::from_str(&r).unwrap();
    assert_eq!(v["ev"], "app.shutdown");
    assert!(v.get("target").is_none());
}

#[test]
fn non_object_fields_ignored() {
    let list = Json::List(vec![Json::UInt(1), Json::UInt(2), Json::UInt(3)]);
    let r = build_record(1, "x", list);
    let v: serde_json::Value = serde_json::from_str(&r).unwrap();
    assert_eq!(v["ev"], "x");
}

#[test]
fn rotate_threshold() {
    assert!(!should_rotate(0));
    assert!(!should_rotate(MAX_BYTES - 1));
    assert!(should_rotate(MAX_BYTES));
}

fn tm(hour: i32) -> Tm {
    Tm { tm_year: 126, tm_mon: 7, tm_mday: 4, tm_hour: hour, tm_min: 5, tm_sec: 6 }
}

#[test]
fn levels_are_written_and_shown_as_they_are() {
    let text = r#"{"peak":51.2481783755054035,"rms":0.0123}"#;
    let r = build_record(1, "audio.level", read(text).unwrap());
    assert_eq!(r, r#"{"ev":"audio.level","peak":51.248178375505404,"rms":0.0123,"ts":1}"#);
    let v: serde_json::Value = serde_json::from_str(text).unwrap();
    let s = render(&from_value(&v), &tm(3));
    assert!(s.ends_with(" peak=51.248178375505404 rms=0.0123"), "{s}");
}

#[test]
fn render_puts_time_event_and_fields() {
    let v = object(vec![
        ("ts".to_string(), Json::UInt(0)),
        ("ev".to_string(), Json::Text("pilot.spawn".to_string())),
        ("profile".to_string(), Json::Text("back".to_string())),
    ]);
    let s = render(&v, &tm(3));
    assert!(s.contains("pilot.spawn"));
    assert!(s.contains("profile=back"));
    assert!(s.starts_with(&fmt_local(&tm(3))));
    assert_eq!(fmt_local(&tm(3)), "2026-08-04 03:05:06");
}

#[test]
fn the_latest_records_of_the_day_are_shown() {
    let log = "{\"ev\":\"a\",\"ts\":1}\nnonsense\n{\"ev\":\"b\",\"ts\":2}\n{\"ev\":\"c\",\"ts\":3}\n";
    let rs = records(log);
    assert_eq!(rs.len(), 3);
    let times = vec![tm(1), tm(2), tm(3)];
    let all = dump(&rs, &times, 2, None);
    assert!(!all.contains("01:05:06") && all.contains("02:05:06") && all.contains("03:05:06"));
    let other = Tm { tm_mday: 5, ..tm(0) };
    assert!(!dump(&rs, &times, 10, Some(other)).contains("05:06"));
}

#[test]
fn the_log_is_kept_unless_it_is_turned_off() {
    assert!(enabled(None));
    assert!(enabled(Some("1")));
    assert!(!enabled(Some("0")));
    let e = started("0.1.0", 42);
    assert_eq!(e.name, "app.start");
    assert_eq!(e.fields.text_field("version"), Some("0.1.0"));
    assert_eq!(e.fields.get("pid").and_then(|p| p.as_u64()), Some(42));
}

fn nothing_said() -> Overrides {
    Overrides {
        json: None,
        x: None,
        y: None,
        width: None,
        height: None,
        bg_alpha: None,
        click_through: None,
        auto_hide: None,
        autopilot_dir: None,
        autopilot_bin: None,
        avatar_svg: None,
        avatar_device: None,
        avatar_gain: None,
    }
}

#[test]
fn avatar_defaults_are_sane() {
    let c = AvatarCfg::default(None);
    assert_eq!(c.device, "/dev/video10");
    assert_eq!(c.width, 640);
    assert_eq!(c.height, 480);
    assert_eq!(c.fps, 30);
    assert_eq!(c.scope_color, [220, 30, 20]);
    assert!(c.mouth.w > 0 && c.mouth.h > 0);
    assert!(c.mouth.x + c.mouth.w <= c.width);
    assert!(c.mouth.y + c.mouth.h <= c.height);
}

#[test]
fn settings_have_their_usual_values() {
    let c = Config::load(&nothing_said(), Some("/home/u"), Some("/home/u/.config"));
    assert_eq!(c.json_path, "/home/u/.config/health-widget/metrics.json");
    assert_eq!(f32::from_bits(c.x), 40.0);
    assert_eq!(f32::from_bits(c.y), 60.0);
    assert_eq!(f32::from_bits(c.width), 260.0);
    assert_eq!(f32::from_bits(c.height), 200.0);
    assert_eq!(f32::from_bits(c.avatar.scope_gain), 6.0);
    assert_eq!(c.bg_alpha, 220);
    assert!(!c.click_through && !c.auto_hide_on_share);
    assert_eq!(c.detect_poll, Duration::from_millis(1000));
    assert_eq!(c.autopilot_dir, "/home/u/projects/work-autopilot");
    assert_eq!(c.autopilot_bin, "/home/u/projects/work-autopilot/.venv/bin/autopilot");
    assert_eq!(c.avatar.svg_path, "/home/u/Pictures/panda.svg");
    assert_eq!(Config::load(&nothing_said(), None, None).json_path, "./health-widget/metrics.json");
}

#[test]
fn the_environment_overrides_settings() {
    let mut env = nothing_said();
    env.autopilot_dir = Some("/a".to_string());
    env.click_through = Some(" YES ".to_string());
    env.auto_hide = Some("perhaps".to_string());
    env.bg_alpha = Some(99.9f32.to_bits());
    env.avatar_gain = Some(2.0f32.to_bits());
    let c = Config::load(&env, None, None);
    assert_eq!(c.autopilot_bin, "/a/.venv/bin/autopilot");
    assert!(c.click_through && !c.auto_hide_on_share);
    assert_eq!(c.bg_alpha, 99);
    assert_eq!(f32::from_bits(c.avatar.scope_gain), 2.0);
}

#[test]
fn words_for_yes_and_no() {
    for w in ["1", "true", "Yes", " oN\n"] {
        assert_eq!(env_bool(w), Some(true));
    }
    for w in ["0", "FALSE", "no", "off"] {
        assert_eq!(env_bool(w), Some(false));
    }
    assert_eq!(env_bool(""), None);
    assert_eq!(env_bool("да"), None);
}

#[test]
fn opacity_is_what_floating_point_makes_of_it() {
    let mut cases = vec![
        0.0f32, -0.0, -1.0, 0.999, 1.0, 1.5, 127.9, 128.0, 254.999, 255.0, 255.5, 256.0, 1e9,
        f32::INFINITY, f32::NEG_INFINITY, f32::NAN, -f32::NAN, 1e-40,
    ];
    for i in 0..2560 {
        cases.push(i as f32 / 10.0);
    }
    for v in cases {
        assert_eq!(alpha(v.to_bits()), v.clamp(0.0, 255.0) as u8, "{v}");
    }
}

#[test]
fn band_is_centered_even_and_clamped() {
    assert_eq!(band(4096, 1728, 2000), (1048, 0, 2000, 1728));
    assert_eq!(band(4096, 1728, 2001), (1048, 0, 2000, 1728));
    assert_eq!(band(4096, 1728, 9000), (0, 0, 4096, 1728));
    assert_eq!(band(1001, 999, 2000), (0, 0, 1000, 998));
}

fn screen_text(text: &str) -> Option<(String, String, String)> {
    let r = screen(&read(text).unwrap());
    assert_eq!(screen_printed(Some(text.as_bytes())), r);
    r
}

#[test]
fn no_screen_is_found_in_what_is_no_document() {
    assert_eq!(screen_printed(None), None);
    assert_eq!(screen_printed(Some(b"{")), None);
    assert_eq!(screen_printed(Some(&[0xff, 0x7b])), None);
}

#[test]
fn the_first_screen_that_is_on_counts() {
    let on = r#"{"outputs":[{"enabled":false},{"enabled":true,"scale":0},{"enabled":true,"scale":1.25,"currentModeId":"7","modes":[{"id":"6"},{"id":"7","size":{"width":5120,"height":2160}}]}]}"#;
    assert_eq!(
        screen_text(on),
        Some(("5120".to_string(), "2160".to_string(), "1.25".to_string()))
    );
    assert_eq!(screen_text(r#"{"outputs":[]}"#), None);
    assert_eq!(screen_text(r#"{"outputs":[{"enabled":true}]}"#), None);
    let unlisted = r#"{"outputs":[{"enabled":true,"currentModeId":"1","modes":[]},{"enabled":true,"scale":-0.5},{"enabled":true,"currentModeId":"2","modes":[{"id":"2","size":{"width":8,"height":6}}]}]}"#;
    assert_eq!(
        screen_text(unlisted),
        Some(("8".to_string(), "6".to_string(), "1".to_string()))
    );
}
