//! Recognition of speech, and the recording of sound.

use health_widget::clock::Duration;
use health_widget::json::read;
use health_widget::recorder::{quantize, WavRecorder};
use health_widget::transcribe::{
    complaint, is_enabled, linger, min_free_mib, model_spec, need_mib, next_delay, parse_free_mib,
    python_path, reader_ended, script_path, set_enabled, start, start_event, start_gate, trim_head,
    vram_gate, Fault, Health, Linger, Speech, StartFail, Stt, Switch, CH_MIC, CH_WEB, CH_ZOOM,
    FRESH_CAP, MAX_FINALS, RETRY_MAX_SECS, RETRY_MIN_SECS, WEB_RESERVE_MIB,
};

#[test]
fn mic_yields_vram_to_web_channel() {
    let free = min_free_mib(None);
    let base = need_mib(CH_ZOOM, free);
    assert_eq!(need_mib(CH_WEB, free), base, "веб не уступает");
    assert_eq!(
        need_mib(CH_MIC, free),
        base + WEB_RESERVE_MIB,
        "микрофон стартует только если остаётся место под веб"
    );
}

#[test]
fn retry_backs_off_and_caps() {
    let mut d = Duration::from_secs(RETRY_MIN_SECS);
    for _ in 0..10 {
        d = next_delay(d);
    }
    assert_eq!(d, Duration::from_secs(RETRY_MAX_SECS));
    assert_eq!(next_delay(Duration::from_secs(RETRY_MIN_SECS)), Duration::from_secs(10));
}

#[test]
fn disabled_stt_never_spawns() {
    let stt = Stt::new(false, &Switch { on: true }, None, Duration::zero());
    assert!(!stt.may_start(Duration::from_secs(1)));
    assert_eq!(stt.health, Health::Off);
    assert_eq!(Speech::new().text(), (String::new(), String::new()));
}

#[test]
fn down_health_has_visible_label() {
    assert!(Health::Down("мало VRAM".into()).label().is_some());
    assert_eq!(Health::Live.label(), None);
    assert_eq!(Health::Off.label(), None);
    assert_eq!(Health::Starting.label(), None);
    assert_eq!(Health::Warmup.label(), None);
}

#[test]
fn parse_single_gpu() {
    assert_eq!(parse_free_mib("11650\n"), Some(11650));
}

#[test]
fn parse_multi_gpu_takes_min() {
    assert_eq!(parse_free_mib("11650\n 512 \n"), Some(512));
}

#[test]
fn parse_garbage_is_none() {
    assert_eq!(parse_free_mib("N/A\n"), None);
    assert_eq!(parse_free_mib(""), None);
}

#[test]
fn short_string_unchanged() {
    let mut s = "коротко".to_string();
    trim_head(&mut s, 100);
    assert_eq!(s, "коротко");
}

#[test]
fn trims_head_to_word_boundary() {
    let mut s = "one two three".to_string();
    trim_head(&mut s, 5);
    assert_eq!(s, "three");
}

#[test]
fn unicode_boundary_no_panic() {
    let mut s = "аб вг де".to_string();
    trim_head(&mut s, 2);
    assert_eq!(s, "де");
    assert_eq!(s.chars().count(), 2);
}

#[test]
fn the_switch_turns_recognition_off() {
    let mut s = Switch { on: true };
    set_enabled(&mut s, false);
    assert!(!is_enabled(&s));
    set_enabled(&mut s, true);
    assert!(is_enabled(&s));
}

#[test]
fn what_is_said_is_collected() {
    let mut s = Speech::new();
    assert_eq!(s.heard("not json"), None);
    assert_eq!(s.out_seq, 0);
    assert_eq!(s.heard(r#"{"partial":"при"}"#), None);
    assert_eq!(s.text(), (String::new(), "при".to_string()));
    assert_eq!(s.heard(r#"{"final":"привет"}"#).as_deref(), Some("привет"));
    assert_eq!(s.apply(&read(r#"{"final":"мир"}"#).unwrap()).as_deref(), Some("мир"));
    assert_eq!(s.text(), ("привет мир".to_string(), String::new()));
    assert_eq!(s.out_seq, 3);
    for i in 0..40 {
        s.heard(&format!("{{\"final\":\"{i}\"}}"));
    }
    assert_eq!(s.fresh.len(), FRESH_CAP);
    assert_eq!(s.fresh.back().map(String::as_str), Some("39"));
    s.heard(&format!("{{\"final\":\"{}\"}}", "я ".repeat(MAX_FINALS)));
    assert!(s.transcript.finals.chars().count() <= MAX_FINALS);
    s.clear();
    assert_eq!(s.text(), (String::new(), String::new()));
}

#[test]
fn parts_of_the_recogniser_are_where_they_are_kept() {
    assert_eq!(script_path(Some("/d")).as_deref(), Some("/d/health-widget/whisper_stream.py"));
    assert_eq!(script_path(None), None);
    assert_eq!(
        python_path(None, Some("/d")).as_deref(),
        Some("/d/health-widget/venv-whisper/bin/python")
    );
    assert_eq!(python_path(Some("/p"), None).as_deref(), Some("/p"));
    assert_eq!(model_spec(None), "large-v3");
    assert_eq!(min_free_mib(Some("x")), min_free_mib(None));
    assert_eq!(min_free_mib(Some("7")), 7);
}

#[test]
fn a_start_has_to_wait_for_the_other_channel() {
    let f = start_gate(Some(Duration::from_secs(10))).err().expect("too soon");
    assert_eq!(f.why, "жду прогрева соседнего канала");
    assert_eq!(f.retry_in, Some(Duration::from_secs(15)));
    assert!(start_gate(Some(Duration::from_secs(25))).is_ok());
    assert!(start_gate(None).is_ok());
}

#[test]
fn a_start_needs_memory() {
    assert_eq!(
        vram_gate(Some(100), CH_ZOOM, 5000).err().unwrap().why,
        "мало VRAM (100 МиБ < 5000 МиБ)"
    );
    assert_eq!(
        vram_gate(Some(100), CH_MIC, 5000).err().unwrap().why,
        "мало VRAM (100 < 10000 МиБ, держу место под веб-канал)"
    );
    assert!(vram_gate(None, CH_MIC, 5000).is_ok());
}

#[test]
fn a_start_says_what_is_missing() {
    let plan = |python: Option<&str>, script: Option<&str>| {
        start(
            None,
            None,
            CH_ZOOM,
            5000,
            python.map(str::to_string),
            "m".to_string(),
            script.map(str::to_string),
        )
    };
    assert_eq!(plan(None, Some("s")).err().unwrap().why, "нет venv-whisper");
    assert_eq!(plan(Some("p"), None).err().unwrap().why, "нет whisper_stream.py");
    let p = plan(Some("p"), Some("s")).ok().unwrap();
    assert_eq!((p.python.as_str(), p.script.as_str(), p.model.as_str()), ("p", "s", "m"));
    assert!(start(
        Some(Duration::from_secs(1)),
        Some(0),
        CH_ZOOM,
        5000,
        None,
        "m".to_string(),
        None
    )
    .err()
    .unwrap()
    .retry_in
    .is_some());
}

#[test]
fn faults_make_the_next_start_wait() {
    let now = Duration::from_secs(1000);
    let mut stt = Stt::new(true, &Switch { on: true }, None, now);
    assert!(stt.may_start(now));
    assert!(stt.started("к", now).is_some());
    assert_eq!(stt.health, Health::Live);
    let (e, changed) = stt.faulted("к", Fault::Died, Duration::from_secs(3), now);
    assert_eq!(e.name, "stt.fault");
    assert!(changed.is_some());
    assert!(!stt.may_start(now));
    assert!(stt.may_start(Duration::from_secs(1005)));
    stt.faulted("к", Fault::Stalled, Duration::from_secs(3), now);
    stt.faulted("к", Fault::Died, Duration::from_secs(3), now);
    assert_eq!(stt.health, Health::Down("распознавание падает на старте, пауза 5 мин".into()));
    assert!(!stt.may_start(Duration::from_secs(1299)));
    assert!(stt.may_start(Duration::from_secs(1300)));
    let r = stt.start_failed("к", StartFail::hard("нет".to_string()), now);
    assert!(r.is_some());
    assert_eq!(stt.health, Health::Down("нет".into()));
    assert_eq!(Fault::of(true, true), Some(Fault::Died));
    assert_eq!(Fault::of(false, false), None);
}

#[test]
fn the_recognisers_life_is_in_the_log() {
    assert_eq!(start_event("к", "m").fields.text_field("model"), Some("m"));
    assert_eq!(complaint("к", 7, "  ").map(|e| e.name), None);
    let e = complaint("к", 7, "oops").unwrap();
    assert_eq!(e.fields.text_field("line"), Some("oops"));
    assert_eq!(reader_ended("к", true).fields.text_field("reason"), Some("read_err"));
    assert_eq!(reader_ended("к", false).fields.text_field("reason"), Some("eof"));
    assert!(matches!(linger("к", false, &Duration::zero()), Linger::Gone));
    assert!(matches!(linger("к", true, &Duration::from_secs(9)), Linger::Wait));
    assert!(matches!(linger("к", true, &Duration::from_secs(10)), Linger::TimedOut(_)));
}

#[test]
fn writes_valid_wav_header_and_sizes() {
    let samples = [0.0f32, 0.5, -0.5, 1.0, -1.0].map(f32::to_bits);
    let mut w = WavRecorder::create();
    let mut b = WavRecorder::header(44100, 0);
    let data = WavRecorder::encode(&samples);
    w.written(data.len());
    b.extend_from_slice(&data);
    let ((at_riff, riff), (at_data, size)) = w.finalize();
    b[at_riff as usize..at_riff as usize + 4].copy_from_slice(&riff);
    b[at_data as usize..at_data as usize + 4].copy_from_slice(&size);

    assert_eq!(&b[0..4], b"RIFF");
    assert_eq!(&b[8..12], b"WAVE");
    assert_eq!(&b[36..40], b"data");
    assert_eq!(u16::from_le_bytes([b[22], b[23]]), 1);
    assert_eq!(u16::from_le_bytes([b[34], b[35]]), 16);
    assert_eq!(u32::from_le_bytes([b[24], b[25], b[26], b[27]]), 44100);
    let data = u32::from_le_bytes([b[40], b[41], b[42], b[43]]);
    let riff = u32::from_le_bytes([b[4], b[5], b[6], b[7]]);
    assert_eq!(data, 10, "размер data-чанка");
    assert_eq!(riff, 46, "RIFF size = 36 + data");
    assert_eq!(b.len() as u32, 44 + data, "файл = заголовок + данные");
}

#[test]
fn samples_are_what_floating_point_makes_of_them() {
    let mut cases = vec![
        0.0f32, -0.0, 0.5, -0.5, 1.0, -1.0, 1.5, -1.5, 2e-5, 3.0518e-5, -3.0518e-5, 0.99999, 1e-40,
        f32::INFINITY, f32::NEG_INFINITY, f32::NAN, f32::MIN_POSITIVE,
    ];
    let mut seed = 7u32;
    for _ in 0..50_000 {
        seed = seed.wrapping_mul(1664525).wrapping_add(1013904223);
        cases.push((seed as f32 / u32::MAX as f32) * 2.2 - 1.1);
    }
    for s in cases {
        assert_eq!(quantize(s.to_bits()), (s.clamp(-1.0, 1.0) * 32767.0) as i16, "{s}");
    }
}
