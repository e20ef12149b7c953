//! Capture of sound.

use health_widget::audio::{
    base_key, has_signal, jabra_target, keep_latest, list_mics, list_programs, match_program,
    parse_mics, parse_playing_sink, parse_programs, playing_sink, program_target_now, record_args,
    resolve_program, spawn_backoff_ms, track_silence, words, Capture, Device, Level, Listening,
    SoundChange, Source, Watch, LEVEL_PERIOD_SECS, SILENCE_AFTER_SECS, SPAWN_BACKOFF_MAX_MS,
    SPAWN_BACKOFF_MIN_MS,
};
use health_widget::clock::Duration;
use health_widget::json::{object, Json};
use std::collections::VecDeque;

fn text(s: &str) -> Json {
    Json::Text(s.to_string())
}

fn obj(pairs: Vec<(&str, Json)>) -> Json {
    object(pairs.into_iter().map(|(k, v)| (k.to_string(), v)).collect())
}

fn bits(samples: &[f32]) -> Vec<u32> {
    samples.iter().map(|s| s.to_bits()).collect()
}

fn device(key: &str, target: &str) -> Device {
    Device { target: target.to_string(), key: key.to_string(), label: key.to_string() }
}

fn stream(id: u64, serial: u64, app: &str, media: &str, state: &str) -> Json {
    obj(vec![
        ("id", Json::UInt(id)),
        ("type", text("PipeWire:Interface:Node")),
        (
            "info",
            obj(vec![
                ("state", text(state)),
                (
                    "props",
                    obj(vec![
                        ("media.class", text("Stream/Output/Audio")),
                        ("object.serial", Json::UInt(serial)),
                        ("application.name", text(app)),
                        ("media.name", text(media)),
                    ]),
                ),
            ]),
        ),
    ])
}

fn sink(id: u64, name: &str) -> Json {
    obj(vec![
        ("id", Json::UInt(id)),
        ("type", text("PipeWire:Interface:Node")),
        (
            "info",
            obj(vec![
                ("state", text("idle")),
                (
                    "props",
                    obj(vec![("media.class", text("Audio/Sink")), ("node.name", text(name))]),
                ),
            ]),
        ),
    ])
}

fn link(out: u64, inp: u64) -> Json {
    obj(vec![
        ("type", text("PipeWire:Interface:Link")),
        (
            "info",
            obj(vec![(
                "props",
                obj(vec![("link.output.node", Json::UInt(out)), ("link.input.node", Json::UInt(inp))]),
            )]),
        ),
    ])
}

#[test]
fn record_args_program_target() {
    let a = record_args(Some("244"), false);
    assert_eq!(
        a,
        ["--rate", "44100", "--channels", "1", "--format", "f32", "--target", "244", "-"]
    );
}

#[test]
fn record_args_default_sink_monitor() {
    let a = record_args(None, true);
    assert_eq!(
        a,
        [
            "--rate",
            "44100",
            "--channels",
            "1",
            "--format",
            "f32",
            "-P",
            "{ stream.capture.sink = true }",
            "-"
        ]
    );
}

#[test]
fn idle_program_still_listed() {
    let objs = vec![stream(40, 230, "Google Chrome", "Playback", "idle")];
    let got = parse_programs(&objs);
    assert_eq!(got.len(), 1, "молчащая вкладка обязана быть в списке");
    assert_eq!(got[0].key, "🔊 Google Chrome — Playback");
}

#[test]
fn duplicate_programs_get_distinct_keys() {
    let objs = vec![
        stream(41, 231, "Google Chrome", "Playback", "running"),
        stream(40, 230, "Google Chrome", "Playback", "running"),
    ];
    let got = parse_programs(&objs);
    assert_eq!(got[0].target, "230", "порядок стабилен по serial");
    assert_eq!(got[0].key, "🔊 Google Chrome — Playback #1");
    assert_eq!(got[1].key, "🔊 Google Chrome — Playback #2");
    assert_eq!(got[0].label, got[0].key);
    assert_ne!(got[0].key, got[1].key, "две вкладки не должны сливаться в один ключ");
}

#[test]
fn single_program_keeps_plain_key() {
    let objs = vec![stream(40, 230, "Google Chrome", "Playback", "running")];
    assert_eq!(parse_programs(&objs)[0].key, "🔊 Google Chrome — Playback");
}

#[test]
fn playing_sink_is_where_sound_goes_not_default() {
    let objs = vec![
        sink(71, "alsa_output.hdmi-stereo"),
        sink(81, "alsa_output.jabra"),
        stream(40, 230, "Google Chrome", "Playback", "running"),
        link(40, 81),
    ];
    assert_eq!(parse_playing_sink(&objs).as_deref(), Some("alsa_output.jabra"));
}

#[test]
fn idle_stream_does_not_pick_sink() {
    let objs = vec![
        sink(71, "alsa_output.hdmi-stereo"),
        stream(40, 230, "Google Chrome", "Playback", "idle"),
        link(40, 71),
    ];
    assert_eq!(parse_playing_sink(&objs), None, "молчащий поток не выбирает синк");
}

#[test]
fn busiest_sink_wins() {
    let objs = vec![
        sink(71, "alsa_output.hdmi-stereo"),
        sink(81, "alsa_output.jabra"),
        stream(40, 230, "Google Chrome", "Playback", "running"),
        stream(42, 232, "Google Chrome", "Playback", "running"),
        stream(44, 234, "Telegram", "", "running"),
        link(40, 81),
        link(42, 81),
        link(44, 71),
    ];
    assert_eq!(parse_playing_sink(&objs).as_deref(), Some("alsa_output.jabra"));
}

#[test]
fn saved_key_survives_second_tab_appearing() {
    let list = parse_programs(&[
        stream(40, 230, "Google Chrome", "Playback", "running"),
        stream(41, 231, "Google Chrome", "Playback", "running"),
    ]);
    let d = match_program(&list, "🔊 Google Chrome — Playback")
        .expect("сохранённый ключ без номера обязан найтись");
    assert_eq!(d.target, "230");
}

#[test]
fn exact_numbered_key_wins_over_base() {
    let list = parse_programs(&[
        stream(40, 230, "Google Chrome", "Playback", "running"),
        stream(41, 231, "Google Chrome", "Playback", "running"),
    ]);
    let d = match_program(&list, "🔊 Google Chrome — Playback #2").unwrap();
    assert_eq!(d.target, "231");
}

#[test]
fn other_program_never_matches() {
    let list = parse_programs(&[stream(40, 230, "Telegram", "Playback", "running")]);
    assert!(match_program(&list, "🔊 Google Chrome — Playback").is_none());
}

#[test]
fn base_key_strips_only_numeric_suffix() {
    assert_eq!(base_key("🔊 Chrome — Playback #2"), "🔊 Chrome — Playback");
    assert_eq!(base_key("🔊 Chrome — Playback"), "🔊 Chrome — Playback");
    assert_eq!(base_key("🔊 Chrome — Track #1 hits"), "🔊 Chrome — Track #1 hits");
}

#[test]
fn waiting_for_program_is_visible_in_ui() {
    let n = Listening::WaitingFor("🔊 Google Chrome — Playback".to_string()).notice();
    assert!(n.unwrap().contains("Google Chrome"));
    assert_eq!(Listening::Sink.notice(), None);
    assert_eq!(Listening::Device.notice(), None);
}

#[test]
fn reopened_tab_gets_new_serial_and_forces_rebind() {
    let key = "🔊 Google Chrome — Playback";
    let before = parse_programs(&[stream(40, 180, "Google Chrome", "Playback", "running")]);
    assert_eq!(program_target_now(&before, key).as_deref(), Some("180"));

    let after = parse_programs(&[stream(127, 277, "Google Chrome", "Playback", "running")]);
    assert_eq!(
        program_target_now(&after, key).as_deref(),
        Some("277"),
        "перезакрытая вкладка живёт под новым serial"
    );
    assert_ne!(program_target_now(&after, key).as_deref(), Some("180"));
}

#[test]
fn closed_tab_leaves_no_target() {
    let key = "🔊 Google Chrome — Playback";
    assert_eq!(program_target_now(&parse_programs(&[]), key), None);
}

#[test]
fn spawn_backoff_grows_and_caps() {
    assert_eq!(spawn_backoff_ms(0), SPAWN_BACKOFF_MIN_MS);
    assert_eq!(spawn_backoff_ms(1), 2000);
    assert_eq!(spawn_backoff_ms(3), 8000);
    assert_eq!(spawn_backoff_ms(99), SPAWN_BACKOFF_MAX_MS);
}

#[test]
fn silence_reported_once_and_cleared_on_sound() {
    assert_eq!(track_silence(false, Duration::from_secs(30), false), None);
    assert_eq!(
        track_silence(false, Duration::from_secs(SILENCE_AFTER_SECS), false),
        Some(SoundChange::Lost(60)),
        "минута тишины обязана попасть в телеметрию"
    );
    assert_eq!(
        track_silence(false, Duration::from_secs(600), true),
        None,
        "повторно не спамим"
    );
    assert_eq!(
        track_silence(true, Duration::from_secs(600), true),
        Some(SoundChange::Back(600))
    );
    assert_eq!(track_silence(true, Duration::from_secs(1), false), None);
}

#[test]
fn level_keeps_the_peak_and_counts_from_anew() {
    let mut l = Level::new();
    l.add(&bits(&[0.5, -0.5, 0.25, -0.5]));
    assert_eq!(l.take(), (0.5f32.to_bits(), 4));
    assert_eq!(l.take(), (0, 0), "после отправки счётчики обнуляются");
}

#[test]
fn level_passes_garbage_by() {
    let mut l = Level::new();
    l.add(&bits(&[f32::NAN, 0.5, f32::INFINITY, -0.5]));
    assert_eq!(l.take(), (0.5f32.to_bits(), 2));
}

#[test]
fn level_not_due_without_samples() {
    let l = Level::new();
    assert!(!l.due(Duration::zero()));
    assert!(!l.due(Duration::from_secs(100_000)));
}

#[test]
fn silent_level_reports_rarely_loud_often() {
    let mut quiet = Level::new();
    quiet.add(&bits(&[0.0; 64]));
    assert!(!quiet.due(Duration::from_secs(LEVEL_PERIOD_SECS)), "тишина не должна писаться каждые 10 с");
    assert!(quiet.due(Duration::from_secs(SILENCE_AFTER_SECS)), "но раз в минуту отметиться обязана");

    let mut loud = Level::new();
    loud.add(&bits(&[0.3; 64]));
    assert!(loud.due(Duration::from_secs(LEVEL_PERIOD_SECS)), "звук пишем каждые 10 с");
}

#[test]
fn signal_detection_ignores_digital_silence() {
    assert!(!has_signal(&bits(&[0.0; 512])));
    assert!(!has_signal(&bits(&[5e-5, -5e-5])));
    assert!(has_signal(&bits(&[0.0, 0.002, 0.0])));
}

#[test]
fn signal_is_what_floating_point_says() {
    for s in [1e-4f32, -1e-4, 1.0000001e-4, 9.999999e-5, f32::NAN, f32::INFINITY, -0.3, 0.0, -0.0] {
        assert_eq!(has_signal(&[s.to_bits()]), s.abs() > 1e-4, "{s}");
    }
}

#[test]
fn the_latest_samples_are_kept() {
    let mut ring: VecDeque<u32> = VecDeque::new();
    let first: Vec<u32> = (0..3000).collect();
    keep_latest(&mut ring, &first);
    keep_latest(&mut ring, &[7, 8]);
    let n = ring.len();
    assert_eq!(ring[n - 1], 8);
    assert_eq!(ring[n - 2], 7);
    assert_eq!(ring[n - 3], 2999);
    assert_eq!(ring[0] as usize, 3000 + 2 - n);
}

#[test]
fn framing_keeps_what_makes_no_sample() {
    let mut c = Capture::new();
    let a = c.received("к", &[0, 0, 0]);
    assert!(a.samples.is_empty());
    assert!(a.first.is_some());
    let b = c.received("к", &[63, 1]);
    assert_eq!(b.samples, vec![0.5f32.to_bits()]);
    assert!(b.first.is_none());
    assert_eq!(c.acc, vec![1]);
    assert_eq!(words(&[0, 0, 0, 63, 0, 0, 128, 191]), bits(&[0.5, -1.0]));
}

#[test]
fn failed_starts_wait_longer_each_time() {
    let mut c = Capture::new();
    assert_eq!(c.spawn_failed(), spawn_backoff_ms(1));
    assert_eq!(c.spawn_failed(), spawn_backoff_ms(2));
    assert_eq!(c.fails, 2);
}

#[test]
fn microphones_are_read_from_their_list() {
    let listing = "Source #1\n\tName: alsa_input.usb-Jabra\n\tDescription: Jabra Link 380\n\tMonitor of Sink: n/a\n\nSource #2\n\tName: alsa_output.hdmi.monitor\n\tDescription: Monitor of HDMI\n\tMonitor of Sink: alsa_output.hdmi\n";
    let mics = parse_mics(listing);
    assert_eq!(mics.iter().map(|d| d.target.as_str()).collect::<Vec<_>>(), ["alsa_input.usb-Jabra"]);
    assert_eq!(list_mics(Some(listing.as_bytes())).len(), 1);
    assert!(list_mics(None).is_empty());
    assert_eq!(jabra_target(&mics).as_deref(), Some("alsa_input.usb-Jabra"));
    assert_eq!(jabra_target(&vec![device("x", "alsa_input.other")]), None);
}

#[test]
fn programs_are_read_from_what_was_printed() {
    let printed = br#"[{"id":40,"type":"PipeWire:Interface:Node","info":{"state":"running","props":{"media.class":"Stream/Output/Audio","object.serial":230,"application.name":"Telegram","media.name":"Playback"}}}]"#;
    assert_eq!(resolve_program(Some(printed), "🔊 Telegram — Playback").as_deref(), Some("230"));
    assert_eq!(list_programs(Some(printed)).len(), 1);
    assert!(list_programs(Some(b"nonsense")).is_empty());
    assert!(list_programs(Some(&[0xff, 0xfe])).is_empty());
    assert!(list_programs(None).is_empty());
    assert_eq!(playing_sink(Some(printed)), None);
}

#[test]
fn a_program_that_is_not_there_is_waited_for() {
    let source = Source::program(Some("🔊 Telegram — Playback"));
    let plan = source.spawn("к", &[], &[]);
    assert_eq!(plan.target, None);
    assert!(plan.capture_sink);
    assert_eq!(plan.listening, Listening::WaitingFor("🔊 Telegram — Playback".to_string()));
}

#[test]
fn a_moved_sink_is_told_only_when_it_stays() {
    let objs = vec![
        sink(71, "hdmi"),
        sink(81, "jabra"),
        stream(40, 230, "Chrome", "Playback", "running"),
        link(40, 81),
    ];
    let mut w = Watch::start(Listening::Sink, Some("hdmi".to_string())).expect("is watched");
    assert!(w.look("к", &objs).is_none(), "one look moves nothing");
    assert!(w.look("к", &[]).is_none(), "and what was seen is forgotten");
    assert!(w.look("к", &objs).is_none());
    let e = w.look("к", &objs).expect("it has stayed");
    assert_eq!(e.fields.text_field("channel"), Some("к"));
    assert!(Watch::start(Listening::Device, None).is_none());
}
