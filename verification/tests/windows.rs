//! The window manager, the helper on the other machine, and the keys.

use evdev::KeyCode;
use health_widget::keys::{candidates, char_to_key, combo, pause_ms, strokes, typing_keys};
use health_widget::screencast::{
    audio_devices, gst_args, load_token, next_token, portal_result, request_path, unique_sender,
};
use health_widget::tartarus::{
    control_node, dpad_delta, emit, feature_buffer, handle_key, hidiocsfeature, is_keypad, mapped,
    output_keys, razer_report, static_color, Action, Node,
};
use health_widget::winagent::{last_words, parse_alert, stray_pattern, tidy, Agent, Log};
use health_widget::winctl::{
    marked_words, move_by, parse_field, parse_geom_line, script_object, set_keep_above,
    set_position, type_text, GeomEvent,
};

#[test]
fn what_is_typed_can_be_read_from_the_commands() {
    assert_eq!(type_text("a b\n\nкот"), "type a b\nkey enter\nkey enter\ntype кот\n");
    assert_eq!(type_text("key enter"), "type key enter\n");
    assert_eq!(type_text(""), "");
    assert_eq!(type_text("\n"), "key enter\n");
}

#[test]
fn printed_places_are_read_back() {
    for (x, y) in [(0, 0), (-5, 7), (i32::MAX, i32::MIN)] {
        assert_eq!(
            parse_geom_line(&format!("HWHC: HW-GEOM x={x} y={y}")),
            Some(GeomEvent::Main(x, y))
        );
        assert_eq!(
            parse_geom_line(&format!("js: HWC-GEOM {x} {y}")),
            Some(GeomEvent::Clip(x, y))
        );
    }
}

#[test]
fn a_chord_lets_go_in_reverse() {
    let c = combo(30);
    for i in 0..3 {
        assert_eq!(c[i].1, 1);
        assert_eq!(c[5 - i], (c[i].0, 0));
    }
    assert_eq!(c.len(), 6);
}

#[test]
fn alert_line_becomes_notification() {
    let (id, text) = parse_alert("⚠ проверка a1b2c3: файл не сохранился, окно «Ошибка»")
        .expect("строка проверки разбирается");
    assert_eq!(id, "a1b2c3");
    assert_eq!(text, "файл не сохранился, окно «Ошибка»");

    assert!(parse_alert("✓ проверка a1b2c3: чисто").is_none(), "чистый итог не уведомление");
    assert!(parse_alert("  [1/25] uia.tree {}").is_none(), "обычный шаг не уведомление");
    assert!(parse_alert("⚠ проверка a1b2c3:").is_none(), "без текста уведомления нет");
}

#[test]
fn geom_line_main_window() {
    assert_eq!(
        parse_geom_line("js: HW-GEOM x=1512 y=139"),
        Some(GeomEvent::Main(1512, 139))
    );
}

#[test]
fn geom_line_clip_window() {
    assert_eq!(
        parse_geom_line("js: HWC-GEOM 1918 -7"),
        Some(GeomEvent::Clip(1918, -7))
    );
}

#[test]
fn geom_line_other_is_none() {
    assert_eq!(parse_geom_line("obычная строка журнала"), None);
}

#[test]
fn reads_positive_int_after_key() {
    let line = "HW-GEOM x=1918 y=741";
    assert_eq!(parse_field(line, "x="), Some(1918));
    assert_eq!(parse_field(line, "y="), Some(741));
}

#[test]
fn reads_negative_int() {
    assert_eq!(parse_field("x=-5 y=10", "x="), Some(-5));
}

#[test]
fn missing_key_is_none() {
    assert_eq!(parse_field("нет координат", "x="), None);
}

#[test]
fn non_numeric_value_is_none() {
    assert_eq!(parse_field("x=abc", "x="), None);
}

#[test]
fn scripts_move_the_window() {
    let s = set_position(12, -7);
    assert!(s.body.contains("12") && s.body.contains("-7"));
    assert_ne!(set_keep_above(true).body, set_keep_above(false).body);
    assert!(move_by(40, 0).body.contains("40"));
    assert_eq!(script_object("nonsense"), None);
    assert_eq!(script_object(" 12\n").as_deref(), Some("/Scripting/Script12"));
    assert_eq!(marked_words("", "HW"), None);
    assert!(type_text("привет").contains("привет"));
}

#[test]
fn captures_log_and_detects_link() {
    let mut a = Agent::new();
    a.heard("fake-win на связи, инструментов: 13");
    assert!(a.linked, "должен увидеть подключение ноута");
    assert_eq!(a.peer, "fake-win");
    let (lines, _) = a.log.since(0);
    assert!(lines.iter().any(|l| l.contains("инструментов")));
}

#[test]
fn task_rejected_without_link() {
    let a = Agent::new();
    assert!(a.task_line("что-нибудь").is_none(), "без ноута задача не должна уходить");
}

#[test]
fn done_marker_clears_busy() {
    let mut a = Agent::new();
    a.heard("fake-win на связи, инструментов: 3");
    assert!(a.task_line("задача").is_some());
    a.sent("задача");
    assert!(a.busy, "сразу после отправки агент занят");
    assert_eq!(a.log.since(0).0.last().map(String::as_str), Some("▸ задача"));
    a.heard("[1] uia.tree");
    a.heard("— готово —");
    assert!(!a.busy, "маркер конца должен снять «занят»");
    let (lines, _) = a.log.since(0);
    assert!(!lines.iter().any(|l| l.contains("готово")), "маркер не показываем в ленте");
}

#[test]
fn alerts_collected_from_stream_once() {
    let mut a = Agent::new();
    a.heard("fake-win на связи, инструментов: 3");
    for line in ["⚠ проверка ff01aa: не то окно", "✓ проверка ff02bb: чисто"] {
        if let Some((id, what)) = a.heard(line) {
            a.add_alert(id, what, "12:00".to_string());
        }
    }
    let got = a.take_alerts();
    assert_eq!(got.len(), 1, "в список идут только проблемы");
    assert_eq!(got[0].id, "ff01aa");
    assert!(a.take_alerts().is_empty(), "повторно то же уведомление не выдаётся");
}

#[test]
fn the_log_shows_what_is_new() {
    let mut log = Log::new();
    for i in 0..5 {
        log.push(format!("строка {i}"));
    }
    let (all, at) = log.since(0);
    assert_eq!(all.len(), 5);
    log.push("новая".to_string());
    assert_eq!(log.since(at).0, ["новая"]);
    assert!(last_words(&log).contains("новая"));
    assert_eq!(tidy("x"), "x");
    assert!(stray_pattern("/usr/bin/python").contains("/usr/bin/python"));
}

#[test]
fn keys_have_the_kernels_numbers() {
    let cases = [
        ('a', KeyCode::KEY_A),
        ('z', KeyCode::KEY_Z),
        ('0', KeyCode::KEY_0),
        ('1', KeyCode::KEY_1),
        ('9', KeyCode::KEY_9),
        (' ', KeyCode::KEY_SPACE),
    ];
    for (c, k) in cases {
        assert_eq!(char_to_key(c).map(|p| p.0), Some(k.code()), "{c}");
        assert_eq!(strokes(c), vec![(k.code(), 1), (k.code(), 0)]);
    }
    let shift = KeyCode::KEY_LEFTSHIFT.code();
    assert_eq!(
        strokes('A'),
        vec![(shift, 1), (KeyCode::KEY_A.code(), 1), (KeyCode::KEY_A.code(), 0), (shift, 0)]
    );
    assert!(strokes('ж').is_empty());
    let typing = typing_keys();
    assert_eq!(typing.len(), 37);
    assert!(typing.contains(&KeyCode::KEY_SPACE.code()));
    for c in ('a'..='z').chain('0'..='9').chain([' ']) {
        assert!(typing.contains(&char_to_key(c).unwrap().0), "{c}");
    }
    let names: Vec<&str> = candidates().iter().map(|c| c.name).collect();
    assert_eq!(names, ["Ctrl+Alt+Y", "Ctrl+Alt+U", "Ctrl+Alt+J"]);
    assert!(combo(KeyCode::KEY_A.code()).iter().any(|e| *e == (KeyCode::KEY_A.code(), 1)));
    assert!(pause_ms(0) > 0);
}

#[test]
fn the_keypad_sends_what_it_maps() {
    let outs = output_keys();
    for code in 0..600u16 {
        if let Some(keys) = mapped(code) {
            assert!(keys.iter().all(|k| outs.contains(k)), "{code}");
            let down = emit(&keys, 1);
            let up = emit(&keys, 0);
            assert_eq!(down.first().map(|e| e.1), keys.first().copied());
            assert_eq!(down.len(), up.len());
        }
    }
    assert!(!is_keypad(0, 0));
    assert!(matches!(handle_key(599, 2), Action::Nothing | Action::Unknown(_)));
    assert_eq!(dpad_delta(evdev::KeyCode::KEY_A.code()), None);
}

#[test]
fn an_unknown_key_is_told_by_its_name() {
    let code = evdev::KeyCode::KEY_MICMUTE.code();
    if let Action::Unknown(e) = handle_key(code, 1) {
        let text = format!("{:?}", e.fields);
        assert!(text.contains("KEY_MICMUTE"), "{text}");
    } else {
        panic!("is not mapped");
    }
}

#[test]
fn reports_to_the_keypad_are_checked() {
    let r = razer_report(3, 10, &[1, 2, 3]);
    assert_eq!(r.len(), 90);
    let crc = r[2..88].iter().fold(0u8, |a, b| a ^ b);
    assert_eq!(r[88], crc);
    assert_eq!(static_color(1, 2, 3).len(), 90);
    assert_eq!(feature_buffer(&r).len(), 91);
    assert_eq!(hidiocsfeature(91), 0xC05B_4806);
    assert_eq!(control_node(&vec![]), None);
    let n = Node { name: "x".to_string(), place: "y".to_string() };
    assert_eq!(control_node(&vec![n]), None);
}

#[test]
fn a_recording_is_asked_of_the_portal() {
    assert_ne!(next_token(1, 2), next_token(1, 3));
    assert_eq!(unique_sender(":1.42"), "1_42");
    assert_eq!(
        request_path("1_42", "t"),
        "/org/freedesktop/portal/desktop/request/1_42/t"
    );
    assert_eq!(portal_result(0), Ok(()));
    assert_eq!(portal_result(2), Err("портал отклонил (код 2)".to_string()));
    assert_eq!(load_token(" x \n").as_deref(), Some("x"));
    assert_eq!(load_token("x").as_deref(), Some("x"));
    assert_eq!(load_token("  "), None);
    let silent = gst_args(5, 7, "/r.mkv", None, &vec![]);
    assert!(silent.contains(&"location=/r.mkv".to_string()));
    assert!(silent.contains(&"nvh264enc".to_string()));
    assert!(!silent.contains(&"audiomixer".to_string()));
    let devices = audio_devices(None, Some("sink"), Some("mic"));
    let loud = gst_args(5, 7, "/r.mkv", Some("x264enc"), &devices);
    assert_eq!(loud.iter().filter(|a| a.starts_with("device=")).count(), devices.len());
    assert!(loud.contains(&"fd=5".to_string()) && loud.contains(&"path=7".to_string()));
}
