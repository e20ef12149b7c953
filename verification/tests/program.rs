//! The program around the window: its autopilot, its calls, its files.

use health_widget::call_store::{Stored, StoredCall};
use health_widget::autopilot::{
    all_groups_label, apply_button, enrich_label, group_label, hr_line, notify_label, pause_button,
    phase_text, profile_stats_path, profiles, stats_lines, strictness_levels, threshold_hint,
    Autopilot, Clicks, Deed, Reconcile, START_FAILED,
};
use health_widget::awake::{Awake, Request};
use health_widget::clip;
use health_widget::cli::{capture_report, command, exported, Command};
use health_widget::clock::Duration;
use health_widget::detect::{available, screencast_active};
use health_widget::hr_reply::HrReplyState;
use health_widget::instance::{lock_path, old_pid, orphan, Orphan, Step, Takeover};
use health_widget::kwin_shot::{check_area, get_u32, picture, Meta};
use health_widget::mux::{
    after_rename, after_tool, glue_args, glue_fault, pending, select_pending, Entry, Glue,
    GlueStatus, GlueStep,
};
use health_widget::pilot::{
    environment, refresh_scan_status, run_args, stop, Phase, Pilot, Stop, LOG_CAP,
};
use health_widget::pilot_notify::{flag_path, read_enabled, set_enabled};
use health_widget::pilot_scan::{ScanGroup, ScanStatus};
use health_widget::pilot_stats::PilotStats;
use health_widget::pilot_summary::{summary_args, summary_line, Summary};
use health_widget::screenshot::{ensure_registered, grab, shot_path, ShotStatus};
use health_widget::sound::{
    call_button, call_name, device_label, end_call, marked, missing_tracks, next_key, start_call,
    KeyDeed, Side, Sound, SoundClicks, SoundDeed, TranscriptKeys,
};
use health_widget::transcript_log::{
    call_dir, call_not_found, calls_dir, db_path, export_dir, export_text, missing_notice,
    missing, needs_call_column, sanitize, track_name, Line, TranscriptLog,
};
use health_widget::window::{
    answered, ask, metrics_note, on_signal, pin_hint, places_window, reload_counts, reload_metrics,
    repaint_ms, restart_script, shot_line, visibility, window_move, Marked, Marking, Moved, Saver,
    Signalled,
};

#[test]
fn strips_single_trailing_newline() {
    assert_eq!(clip::strip_trailing_newline("текст\n".to_string()), "текст");
}

#[test]
fn keeps_inner_newlines() {
    assert_eq!(clip::strip_trailing_newline("a\nb\n".to_string()), "a\nb");
}

#[test]
fn empty_stays_empty() {
    assert_eq!(clip::strip_trailing_newline(String::new()), "");
}

#[test]
fn the_clipboard_is_filled_by_what_can_take_it() {
    assert_eq!(clip::get(Some("а\n\n".as_bytes())).as_deref(), Some("а\n"));
    assert_eq!(clip::get(Some(&[0xff, b'\n'])).as_deref(), Some("\u{fffd}"));
    assert_eq!(clip::get(None), None);
    assert_eq!(clip::set("x", None), clip::Way::Manager);
    assert_eq!(clip::set(&"я".repeat(50_000), None), clip::Way::Tool);
    assert_eq!(clip::set(&"a".repeat(99_999), None), clip::Way::Manager);
    assert_eq!(clip::set("x", Some(false)), clip::Way::Tool);
    assert_eq!(clip::set("x", Some(true)), clip::Way::Done);
}

fn entry(name: &str, files: &[&str]) -> Entry {
    Entry {
        path: format!("/calls/{name}"),
        name: Some(name.to_string()),
        is_dir: true,
        combined: files.contains(&"combined.mp4"),
        mic: files.contains(&"mic.wav"),
        zoom: files.contains(&"zoom.wav"),
        frame: files.contains(&"frames"),
    }
}

fn file(name: &str) -> Entry {
    Entry { is_dir: false, ..entry(name, &[]) }
}

#[test]
fn pending_filters_active_glued_and_empty() {
    let entries = vec![
        entry("4", &["zoom.wav"]),
        entry("2", &["mic.wav", "zoom.wav", "combined.mp4"]),
        entry("3", &["screen.mkv"]),
        entry("1", &["mic.wav", "zoom.wav"]),
        entry("5", &["mic.wav"]),
        file("notanumber"),
    ];
    assert_eq!(select_pending(&entries, Some(5)), vec!["/calls/1", "/calls/4"]);
    assert_eq!(pending(Some(&entries), None).len(), 3);
    assert!(pending(None, None).is_empty());
}

#[test]
fn pending_includes_frames_and_filters_rest() {
    let entries = vec![
        entry("1", &["mic.wav", "zoom.wav"]),
        entry("2", &["mic.wav", "zoom.wav", "combined.mp4"]),
        entry("3", &["screen.mkv"]),
        entry("4", &["zoom.wav"]),
        entry("5", &["mic.wav"]),
        entry("6", &["frames"]),
        entry("7", &["frames", "combined.mp4"]),
    ];
    assert_eq!(select_pending(&entries, Some(5)), vec!["/calls/1", "/calls/4", "/calls/6"]);
}

#[test]
fn calls_with_the_same_number_keep_their_order() {
    let entries = vec![
        entry("10", &["mic.wav"]),
        entry("01", &["mic.wav"]),
        entry("+1", &["mic.wav"]),
        entry("1", &["mic.wav"]),
        entry("-3", &["zoom.wav"]),
    ];
    assert_eq!(
        select_pending(&entries, None),
        vec!["/calls/-3", "/calls/01", "/calls/+1", "/calls/1", "/calls/10"]
    );
}

#[test]
fn parts_of_a_call_are_put_together() {
    assert_eq!(glue_args("/c", false, false, false).unwrap_err(), "нет ни кадров, ни аудиодорожек");
    assert_eq!(
        glue_args("/c", true, true, true).unwrap().join(" "),
        "-y -hide_banner -loglevel error -framerate 1 -pattern_type glob -i /c/frames/*.jpg -i /c/mic.wav -i /c/zoom.wav -filter_complex [1:a][2:a]amix=inputs=2:normalize=0[a] -map 0:v -map [a] -c:v libx264 -pix_fmt yuv420p -c:a aac /c/combined.mp4.part"
    );
    assert_eq!(
        glue_args("/c", false, true, false).unwrap().join(" "),
        "-y -hide_banner -loglevel error -i /c/zoom.wav -map 0:a -c:a aac /c/combined.mp4.part"
    );
    assert_eq!(
        glue_args("/c", true, false, true).unwrap().join(" "),
        "-y -hide_banner -loglevel error -framerate 1 -pattern_type glob -i /c/frames/*.jpg -i /c/mic.wav -map 0:v -map 1:a -c:v libx264 -pix_fmt yuv420p -c:a aac /c/combined.mp4.part"
    );
    assert_eq!(glue_fault(None).as_deref(), Some("нет ffmpeg"));
    assert_eq!(glue_fault(Some((true, b"x"))), None);
    assert_eq!(glue_fault(Some((false, b"a\nb\n"))).as_deref(), Some("b"));
    assert_eq!(glue_fault(Some((false, b""))).as_deref(), Some("ffmpeg упал"));
    assert_eq!(after_tool(None), (None, Some("нет ffmpeg".to_string())));
    assert_eq!(after_tool(Some((true, b"x"))), (Some(GlueStep::Rename), None));
    assert_eq!(
        after_tool(Some((false, b"a\nb\n"))),
        (Some(GlueStep::RemovePart), Some("b".to_string()))
    );
    assert_eq!(after_rename(None), Ok(GlueStep::RemoveFrames));
    assert_eq!(after_rename(Some("занято")), Err("rename: занято".to_string()));
}

#[test]
fn putting_together_goes_on_past_faults() {
    assert_eq!(Glue::new(0).status(), GlueStatus::Done(0));
    let mut g = Glue::new(3);
    assert_eq!(g.status(), GlueStatus::Working { done: 0, total: 3 });
    assert_eq!(g.tried(Ok(())).0, GlueStatus::Working { done: 1, total: 3 });
    let (s, e) = g.tried(Err("сломан".to_string()));
    assert_eq!(s, GlueStatus::Working { done: 2, total: 3 });
    assert_eq!(e.unwrap().name, "mux.fail");
    assert_eq!(g.tried(Ok(())).0, GlueStatus::Done(2));
    let mut g = Glue::new(2);
    assert_eq!(g.tried(Err("нет ffmpeg".to_string())).0, GlueStatus::Failed("нет ffmpeg".to_string()));
}

#[test]
fn phases_are_asked_for_by_words() {
    assert_eq!(run_args(None, &Phase::Chat), ["run", "--chat"]);
    assert_eq!(run_args(Some("back"), &Phase::Apply), ["run", "--profile", "back", "--apply"]);
    assert_eq!(
        run_args(None, &Phase::Scan("go".to_string())),
        ["run", "--scan", "--group", "go"]
    );
    assert_eq!(run_args(None, &Phase::ScanAll), ["run", "--scan"]);
    assert_eq!(run_args(None, &Phase::Enrich), ["run", "--enrich"]);
    assert_eq!(refresh_scan_status("back"), ["scan-status", "--profile", "back"]);
    assert_eq!(
        environment(Some("0.5"), true),
        vec![("MIN_SIMILARITY", "0.5"), ("APPLY_ORDER", "fresh")]
    );
    assert!(environment(None, false).is_empty());
}

#[test]
fn an_autopilot_keeps_its_latest_lines_and_pauses() {
    let mut p = Pilot::start(Phase::Apply, Some("back"), Some(0.5f32.to_bits()), true);
    assert_eq!(p.last_line(), None);
    for i in 0..10 {
        p.heard(format!("строка {i}"));
    }
    assert_eq!(p.log.len(), LOG_CAP);
    assert_eq!(p.log[0], "строка 4");
    assert_eq!(p.last_line().as_deref(), Some("строка 9"));
    assert_eq!(p.pause(42), Some(vec!["-USR1".to_string(), "42".to_string()]));
    assert!(p.is_paused());
    assert_eq!(p.pause(42), None);
    assert_eq!(p.resume(42), Some(vec!["-USR2".to_string(), "42".to_string()]));
    assert_eq!(p.resume(42), None);
    assert_eq!(p.profile(), Some("back"));
    assert_eq!(p.phase(), &Phase::Apply);
    assert!(p.apply_fresh());
    assert_eq!(f32::from_bits(p.min_sim()), 0.5);
    assert_eq!(f32::from_bits(Pilot::start(Phase::Chat, None, None, false).min_sim()), 0.0);
}

#[test]
fn a_process_is_asked_before_it_is_killed() {
    let s = |w: &[&str]| w.iter().map(|x| x.to_string()).collect::<Vec<_>>();
    assert_eq!(stop(42, true, None), Stop::Gone);
    assert_eq!(stop(42, false, None), Stop::Ask(s(&["-TERM", "42"])));
    assert_eq!(
        stop(42, false, Some(Duration::from_millis(2999))),
        Stop::Wait { pause_ms: 100 }
    );
    assert_eq!(stop(42, false, Some(Duration::from_secs(3))), Stop::Kill(s(&["-KILL", "-42"])));
}

#[test]
fn missing_file_means_enabled() {
    assert!(read_enabled(None));
    assert!(read_enabled(Some("broken")));
    assert!(read_enabled(Some("{}")));
    assert!(read_enabled(Some(r#"{"enabled":"no"}"#)));
}

#[test]
fn roundtrip() {
    assert!(!read_enabled(Some(&set_enabled(false))));
    assert!(read_enabled(Some(&set_enabled(true))));
    assert_eq!(set_enabled(true), r#"{"enabled":true}"#);
    assert_eq!(flag_path("/d"), "/d/notify.json");
}

#[test]
fn a_summary_is_asked_for_and_found() {
    let js = r#"{"applied":{"turn":12,"total":340}}"#;
    let printed = format!("шум\n  {js}\nещё шум\n");
    assert_eq!(summary_line(&printed).map(|l| l.trim().to_string()).as_deref(), Some(js));
    assert_eq!(summary_line("ничего"), None);
    assert!(summary_args("back", Some("2026-07-24")).contains(&"--since".to_string()));
    assert!(!summary_args("back", None).contains(&"--since".to_string()));
    let s = Summary::default();
    assert_eq!((s.groups.len(), s.daily_limit), (0, 0));
    for c in [s.applied, s.replies, s.captcha, s.forms, s.http_403, s.expired] {
        assert_eq!((c.turn, c.total), (0, 0));
    }
    assert_eq!(s.last_scan_date, None);
}

#[test]
fn the_autopilot_is_brought_in_line() {
    let mut a = Autopilot::new(None, None);
    assert_eq!((a.profile.as_str(), a.strictness.as_str()), ("fullstack", "medium"));
    assert!(matches!(a.reconcile(None), Reconcile::Nothing));
    a.want = a.toggled(&Phase::Apply);
    assert!(a.wants(&Phase::Apply) && !a.wants(&Phase::Chat));
    let Reconcile::Start { phase, profile, min_sim } = a.reconcile(None) else {
        panic!("has to start")
    };
    assert_eq!(f32::from_bits(min_sim), 0.50);
    let p = Pilot::start(phase.clone(), Some(&profile), Some(min_sim), false);
    let e = a.started(&phase, true);
    assert_eq!(e.fields.text_field("phase"), Some("Apply"));
    assert!(matches!(a.reconcile(Some(&p)), Reconcile::Nothing), "nothing is left to do");
    a.strictness = "strict".to_string();
    assert_eq!(f32::from_bits(a.min_sim()), 0.55);
    assert!(matches!(a.reconcile(Some(&p)), Reconcile::Start { .. }));
    a.want = a.toggled(&Phase::Apply);
    assert!(a.want.is_none());
    assert!(matches!(a.reconcile(Some(&p)), Reconcile::Stop(_)));
    a.want = Some(Phase::Scan("a\"b".to_string()));
    assert_eq!(a.started(&Phase::Chat, false).name, "pilot.fail");
    assert_eq!((a.want.is_none(), a.status.as_str()), (true, START_FAILED));
    assert_eq!(phase_text(&Phase::Scan("a\"b".to_string())), format!("{:?}", Phase::Scan("a\"b".to_string())));
}

#[test]
fn an_autopilot_that_leaves_says_why() {
    let mut a = Autopilot::new(Some("back"), Some("any"));
    a.want = Some(Phase::ScanAll);
    let e = a.exited(&Phase::ScanAll);
    assert_eq!(e.fields.text_field("reason"), Some("скан завершён"));
    assert_eq!(a.status_line(None), "скан завершён");
    a.exited(&Phase::Enrich);
    assert_eq!(a.status, "обогащение завершено");
    a.exited(&Phase::Chat);
    assert_eq!(a.status, "автопилот остановлен");
    let mut p = Pilot::start(Phase::Chat, None, None, false);
    assert_eq!(a.status_line(Some(&p)), "автопилот остановлен");
    p.heard("иду".to_string());
    assert_eq!(a.status_line(Some(&p)), "иду");
    p.pause(1);
    assert_eq!(a.status_line(Some(&p)), "⏸ на паузе");
    assert_eq!((a.profile_label(), f32::from_bits(a.min_sim())), ("Backend", 0.0));
}

#[test]
fn clicks_on_the_autopilot_are_taken_in_order() {
    let mut a = Autopilot::new(None, None);
    a.want = Some(Phase::Apply);
    let mut c = Clicks {
        profile: Some("bulat".to_string()),
        strictness: Some("any".to_string()),
        want: Some(None),
        pause: true,
    };
    assert_eq!(a.next(&mut c), Some(Deed::Profile { reconcile: true }));
    assert_eq!(a.next(&mut c), Some(Deed::Strictness { reconcile: true }));
    assert_eq!(a.next(&mut c), Some(Deed::Want));
    assert_eq!(a.next(&mut c), Some(Deed::Pause));
    assert_eq!(a.next(&mut c), None);
    assert_eq!((a.profile_label(), a.want.is_none()), ("Булат", true));
}

#[test]
fn the_autopilots_labels() {
    let scan = ScanStatus {
        groups: vec![
            ScanGroup { name: "Go".to_string(), pending: 8 },
            ScanGroup { name: "Rust".to_string(), pending: -2 },
        ],
        unenriched: 0,
    };
    assert_eq!(all_groups_label(&scan).as_deref(), Some("🔎 Все группы (6)"));
    assert_eq!(all_groups_label(&ScanStatus::default()), None);
    assert_eq!(group_label(&scan.groups[0]), "🔎 Go (8)");
    assert_eq!(enrich_label(&scan, false), None);
    assert_eq!(enrich_label(&scan, true).as_deref(), Some("✨ Дообогатить (0)"));
    let s = PilotStats { applied_total: 3, applied_today: 1, daily_limit: 200, chats_acted: 7 };
    assert_eq!(
        stats_lines(&s),
        ("📨 откликов: 3 (сегодня 1)".to_string(), "💬 чатов обработано: 7".to_string())
    );
    for l in strictness_levels() {
        assert_eq!(l.shown, format!("{:.2}", f32::from_bits(l.bits)));
    }
    assert_eq!(
        threshold_hint(&strictness_levels()[0]),
        "Порог ≥ 0.55 — только достаточно близкие вакансии"
    );
    assert!(threshold_hint(&strictness_levels()[2]).starts_with("Без порога"));
    assert_eq!(profiles().len(), 3);
    assert_eq!(profile_stats_path("/a", "back"), "/a/data/stats-back.json");
    assert_eq!(pause_button(true).0, "▶ Продолжить");
    assert_eq!(apply_button(false).0, "▶ Начать");
    assert_eq!(notify_label(false), "🔕 Уведомления: выкл");
    assert_eq!(hr_line(&HrReplyState::Idle), None);
    assert_eq!(hr_line(&HrReplyState::Error("e".to_string())), Some("e"));
}

#[test]
fn the_screen_saver_stays_away_once() {
    let mut a = Awake::new();
    assert_eq!(a.set(false), Request::Nothing);
    assert_eq!(a.set(true), Request::Inhibit);
    a.inhibited(Some(7));
    assert_eq!(a.set(true), Request::Nothing);
    assert_eq!(a.set(false), Request::UnInhibit(7));
    assert_eq!(a.set(false), Request::Nothing);
}

#[test]
fn a_shared_screen_is_seen() {
    let on = br#"[{"type":"PipeWire:Interface:Node","info":{"state":"running","props":{"media.class":"Stream/Output/Video"}}}]"#;
    let idle = br#"[{"type":"PipeWire:Interface:Node","info":{"state":"idle","props":{"media.class":"Stream/Output/Video"}}}]"#;
    assert!(screencast_active(Some(on), None));
    assert!(!screencast_active(Some(idle), Some(b"/org/gnome/Mutter")));
    assert!(screencast_active(None, Some(b"x/org/gnome/Mutter/RemoteDesktop/Session/1")));
    assert!(screencast_active(Some(b"broken"), Some(b"/org/gnome/Mutter/ScreenCast/Session/u1")));
    assert!(available(false, true) && !available(false, false));
}

#[test]
fn a_new_copy_takes_the_place_of_the_old() {
    assert_eq!(old_pid(" 123\n"), Some(123));
    assert_eq!(old_pid("x"), None);
    for pid in [0, 1, 4242, i32::MAX, -7] {
        assert_eq!(old_pid(&pid.to_string()), Some(pid));
    }
    assert_eq!(lock_path(Some("/run/u"), "/tmp"), "/run/u/health-widget.lock");
    assert_eq!(lock_path(None, "/tmp"), "/tmp/health-widget.lock");
    let (mut t, asked) = Takeover::new("123");
    assert_eq!(asked, Some(123));
    assert_eq!(t.tried(false, &Duration::from_secs(1)), Step::Wait { pause_ms: 200 });
    assert_eq!(
        t.tried(false, &Duration::from_secs(15)),
        Step::Kill { pid: Some(123), pause_ms: 500 }
    );
    assert_eq!(
        t.tried(false, &Duration::from_secs(16)),
        Step::Quit("health-widget: не удалось перехватить замок у PID Some(123), выходим".to_string())
    );
    assert_eq!(t.tried(true, &Duration::from_secs(16)), Step::Own);
    assert_eq!(t.replaced().fields.get("old_pid").and_then(|p| p.as_i64()), Some(123));
    let (mut first, asked) = Takeover::new("1");
    assert_eq!(asked, None, "the first process is left alone");
    assert_eq!(
        first.tried(false, &Duration::from_secs(20)),
        Step::Kill { pid: None, pause_ms: 500 }
    );
    assert_eq!(Takeover::new("-5").1, None);
}

#[test]
fn the_old_copys_helper_is_waited_for() {
    assert!(matches!(orphan(false, false, &Duration::zero(), "p"), Orphan::Gone(None)));
    assert!(matches!(orphan(true, false, &Duration::zero(), "p"), Orphan::Gone(Some(_))));
    assert!(matches!(orphan(false, true, &Duration::from_secs(9), "p"), Orphan::Wait { pause_ms: 200 }));
    let Orphan::Kill { event, .. } = orphan(true, true, &Duration::from_secs(10), "p") else {
        panic!("is killed")
    };
    assert_eq!(event.fields.text_field("err"), Some("p"));
}

#[test]
fn pixels_are_put_in_their_places() {
    let meta = Meta { width: Some(2), height: Some(2), stride: Some(10), format: Some(5) };
    let mut bytes = vec![0u8; 20];
    bytes[0..8].copy_from_slice(&[1, 2, 3, 4, 5, 6, 7, 8]);
    bytes[10..18].copy_from_slice(&[11, 12, 13, 14, 15, 16, 17, 18]);
    let img = picture(&bytes, &meta).unwrap();
    assert_eq!(
        img.rgba,
        vec![3, 2, 1, 4, 7, 6, 5, 8, 13, 12, 11, 14, 17, 16, 15, 18]
    );
    let red = picture(&bytes, &Meta { format: Some(17), ..meta }).unwrap();
    assert_eq!(&red.rgba[0..8], &[1, 2, 3, 4, 5, 6, 7, 8]);
    assert_eq!(
        picture(&bytes[..19], &meta).unwrap_err(),
        "мало данных: 19 из 20 (w=2 h=2 stride=10 fmt=5)"
    );
    assert_eq!(picture(&bytes, &Meta { width: None, ..meta }).unwrap_err(), "нет width в ответе");
    assert_eq!(picture(&bytes, &Meta { height: None, ..meta }).unwrap_err(), "нет height в ответе");
    assert_eq!(check_area(0, 5).unwrap_err(), "нулевая область");
    assert_eq!(get_u32(None, Some(-1)), Some(u32::MAX));
    assert_eq!(get_u32(Some(3), Some(-1)), Some(3));
}

#[test]
fn a_picture_needs_a_place() {
    assert_eq!(grab(0, 5, Some("/d")).unwrap_err(), ShotStatus::Cancelled);
    assert_eq!(grab(5, 5, None).unwrap_err(), ShotStatus::Failed("нет data-dir".to_string()));
    assert_eq!(grab(5, 5, Some("/d")).unwrap(), "/d/health-widget/screenshots");
    assert_eq!(shot_path("/s", Some("2026")), "/s/2026.png");
    assert_eq!(shot_path("/s", None), "/s/shot.png");
    let entry = ensure_registered("/bin/hw", None).unwrap();
    assert!(entry.contains("\nExec=/bin/hw\n"));
    assert_eq!(ensure_registered("/bin/hw", Some(&entry)), None);
}

fn said(ts: &str, text: &str) -> Line {
    Line { ts: ts.to_string(), channel: "к".to_string(), text: text.to_string() }
}

#[test]
fn what_was_said_is_kept_with_its_call() {
    let mut log = TranscriptLog::open("сеанс".to_string());
    assert_eq!(log.append("к", "  "), None);
    assert_eq!(log.append("к", " привет ").unwrap().call_id, None);
    assert_eq!(log.start_call(None), None);
    assert_eq!(log.start_call(Some(7)), Some(7));
    let row = log.append("к", " привет ").unwrap();
    assert_eq!((row.call_id, row.text.as_str(), row.session.as_str()), (Some(7), "привет", "сеанс"));
    let mut stored = Stored::new();
    stored.calls.push(stored_call(7, "план"));
    stored.calls.push(stored_call(9, "другой"));
    log.end_call(8, &mut stored, "t8");
    assert_eq!(log.current_call, Some(7));
    assert_eq!(stored.calls[0].ended, None);
    log.end_call(7, &mut stored, "t1");
    assert_eq!(log.current_call, None);
    assert_eq!(log.append("к", "после").unwrap().call_id, None);
    assert_eq!(stored.calls[0].ended.as_deref(), Some("t1"));
    log.end_call(7, &mut stored, "t2");
    assert_eq!(stored.calls[0].ended.as_deref(), Some("t1"));
    assert_eq!(stored.calls[1], stored_call(9, "другой"));
}

fn stored_call(id: i64, name: &str) -> StoredCall {
    StoredCall { id, name: name.to_string(), started: "s".to_string(), ended: None }
}

#[test]
fn calls_are_listed_in_order_with_their_tracks() {
    let mut stored = Stored::new();
    assert_eq!(TranscriptLog::list_calls(&stored), "");
    stored.calls.push(stored_call(12, "второй"));
    stored.calls.push(stored_call(3, "планёрка"));
    stored.calls[0].ended = Some("e".to_string());
    stored.said = vec![3, 12, 3, 4];
    TranscriptLog::add_track(&mut stored, 3, "zoom", "/z.wav");
    TranscriptLog::add_track(&mut stored, 3, "mic", "/old.wav");
    TranscriptLog::add_track(&mut stored, 12, "mic", "/other.wav");
    TranscriptLog::add_track(&mut stored, 3, "mic", "/m.wav");
    assert_eq!(
        TranscriptLog::list_calls(&stored),
        "#3  «планёрка»  s → …  (2 строк текста)\n    mic: /m.wav\n    zoom: /z.wav\n\
         #12  «второй»  s → e  (1 строк текста)\n    mic: /other.wav\n"
    );
    let tracks = stored.tracks_in(3);
    assert_eq!(missing(&tracks, &vec![true, true]), Vec::<String>::new());
    assert_eq!(missing(&tracks, &vec![true, false]), ["/z.wav"]);
    assert_eq!(track_name(Some("z.wav")), "z.wav");
    assert_eq!(track_name(None), "track.wav");
    assert_eq!(stored.said_in(5), 0);
}

#[test]
fn what_was_said_is_shown() {
    let lines = vec![said("t1", "раз"), said("t2", "два")];
    assert_eq!(TranscriptLog::dump(&lines), "[t1] к: раз\n[t2] к: два\n");
    assert_eq!(TranscriptLog::dump(&vec![]), "");
    assert_eq!(
        export_text(3, "план", "s", "e", &lines),
        "Кол #3: план\ns → e\n\n[t1] к: раз\n[t2] к: два\n"
    );
    assert_eq!(call_not_found(9), "кол #9 не найден");
    assert_eq!(missing_notice(&vec![]), None);
    assert_eq!(
        missing_notice(&vec!["a".to_string(), "b".to_string()]).as_deref(),
        Some("⚠ не найдены файлы дорожек: a, b")
    );
}

#[test]
fn names_of_calls_become_names_of_directories() {
    assert_eq!(sanitize(" план: A/B? "), "план_AB");
    assert_eq!(sanitize("***"), "без_названия");
    assert_eq!(sanitize("__a b__"), "a_b");
    for name in [" план: A/B? ", "***", "__a b__"] {
        assert_eq!(sanitize(&sanitize(name)), sanitize(name));
    }
    assert_eq!(sanitize(" \t"), "без_названия");
    assert_eq!(export_dir(3, "a b", "/x"), "/x/3-a_b");
    assert_eq!(db_path(Some("/d")).as_deref(), Some("/d/health-widget/transcripts.db"));
    assert_eq!(calls_dir(Some("/d")).as_deref(), Some("/d/health-widget/calls"));
    assert_eq!(call_dir(Some("/d"), -4).as_deref(), Some("/d/health-widget/calls/-4"));
    assert_eq!(call_dir(None, 4), None);
    assert!(needs_call_column(Some(&vec!["id".to_string()])));
    assert!(!needs_call_column(Some(&vec!["id".to_string(), "call_id".to_string()])));
    assert!(!needs_call_column(None));
}

fn no_clicks() -> SoundClicks {
    SoundClicks {
        refresh: false,
        refresh_mic: false,
        new_mic: None,
        new_prog: None,
        mic_off: false,
        zoom_off: false,
        toggle_mic: false,
        toggle_zoom: false,
    }
}

#[test]
fn clicks_on_the_sound_are_taken_in_order() {
    let mut s = Sound { mic_on: true, zoom_on: false, mic_target: None, prog_target: None };
    let mut c = SoundClicks {
        toggle_zoom: true,
        toggle_mic: true,
        new_mic: Some(Some("m".to_string())),
        refresh: true,
        ..no_clicks()
    };
    assert_eq!(s.next(&mut c), Some(SoundDeed::ListAll));
    assert_eq!(s.next(&mut c), Some(SoundDeed::Start(Side::Mic)));
    assert_eq!(s.mic_target.as_deref(), Some("m"));
    assert_eq!(s.next(&mut c), Some(SoundDeed::Stop(Side::Mic)));
    assert_eq!(s.next(&mut c), Some(SoundDeed::Start(Side::Zoom)));
    assert_eq!(s.next(&mut c), None);
    s.is_now(Side::Mic, false);
    s.is_now(Side::Zoom, true);
    assert!(!s.mic_on && s.zoom_on);
    assert_eq!(s.program_source(Some("вывод")).as_deref(), Some("вывод"));
}

#[test]
fn sources_of_sound_are_named() {
    let list = vec![health_widget::audio::Device {
        target: "t".to_string(),
        key: "k".to_string(),
        label: "Ярлык".to_string(),
    }];
    assert_eq!(device_label(&Some("t".to_string()), &list, "d"), "Ярлык");
    assert_eq!(device_label(&Some("x".to_string()), &list, "d"), "x");
    assert_eq!(device_label(&None, &list, "d"), "d");
    let s = Sound { mic_on: true, zoom_on: false, mic_target: Some("t".to_string()), prog_target: None };
    assert_eq!(s.shown(Side::Mic, &list), "Ярлык");
    assert_eq!(s.shown(Side::Zoom, &list), "⊘ выключено");
    assert!(s.selected(Side::Mic, Some("t")) && !s.selected(Side::Mic, None));
    assert!(!s.selected(Side::Zoom, None));
}

#[test]
fn calls_start_and_end_in_the_log() {
    let (call, e) = start_call(Some(5), call_name(None)).unwrap();
    assert_eq!((call.id, call.name.as_str()), (5, "кол"));
    assert_eq!(e.name, "call.start");
    assert_eq!(end_call(&call).fields.get("id").and_then(|v| v.as_i64()), Some(5));
    assert!(start_call(None, "x".to_string()).is_none());
    assert_eq!(missing_tracks(Some(false), Some(true)), vec![(Side::Mic, "🎤 я", "mic.wav")]);
    assert_eq!(missing_tracks(None, Some(false)), vec![(Side::Zoom, "🔊 телемост", "zoom.wav")]);
    assert_eq!(call_button(true).0, "⏹ Завершить");
}

#[test]
fn keys_act_on_what_was_said() {
    let mut k = TranscriptKeys {
        clear_mic: true,
        clear_zoom: false,
        copy_mic: true,
        copy_zoom: true,
        clear_chat: true,
    };
    assert!(matches!(next_key(&mut k, Some("я"), Some("")), (Some(KeyDeed::Clear(Side::Mic)), true)));
    let (Some(KeyDeed::Copy { text, event }), true) = next_key(&mut k, Some("я"), Some("")) else {
        panic!("is copied")
    };
    assert_eq!(text, "я");
    assert_eq!(event.fields.get("len").and_then(|n| n.as_u64()), Some(2), "bytes are counted");
    assert!(matches!(next_key(&mut k, Some("я"), Some("")), (None, true)));
    assert!(matches!(next_key(&mut k, None, None), (Some(KeyDeed::ClearChat), true)));
    assert!(matches!(next_key(&mut k, None, None), (None, false)));
    assert_eq!(marked("привет", 1, 3).as_deref(), Some("ри"));
    assert_eq!(marked("привет", 4, 99).as_deref(), Some("ет"));
    assert_eq!(marked("привет", 3, 3), None);
    assert_eq!(marked("привет", 9, 12), None);
}

#[test]
fn the_window_hides_while_the_screen_is_shared() {
    assert_eq!(visibility(true, true, true, false).0, false);
    assert!(visibility(true, true, true, false).1.is_none());
    let (v, e) = visibility(true, false, true, false);
    assert!(v);
    assert_eq!(e.unwrap().fields.get("visible").and_then(|b| b.as_bool()), Some(true));
    assert_eq!(on_signal(12, 12, 36), Signalled::Shot);
    assert_eq!(on_signal(36, 12, 36), Signalled::CursorWarp);
    assert_eq!(on_signal(10, 12, 36), Signalled::ToggleVisible);
    assert!(places_window(false, true) && !places_window(false, false));
    assert_eq!(pin_hint(true), "Закреплено поверх всех — открепить");
    assert_eq!((repaint_ms(true, true), repaint_ms(false, true)), (33, 500));
}

#[test]
fn settings_are_saved_once_they_stay() {
    let mut s = Saver { stable_since: Duration::zero() };
    assert!(!s.look(Duration::from_millis(1000), true, true));
    assert!(!s.look(Duration::from_millis(1700), false, true));
    assert!(s.look(Duration::from_millis(1701), false, true));
    assert!(!s.look(Duration::from_millis(9000), false, false));
    assert!(reload_metrics(None, Some((1, 0))) && !reload_metrics(Some((1, 0)), Some((1, 0))));
    assert!(!reload_metrics(Some((1, 0)), None));
    assert!(reload_counts(Some((1, 0)), None) && !reload_counts(None, None));
    assert!(reload_counts(Some((1, 0)), Some((1, 1))));
}

#[test]
fn the_window_is_moved_in_steps() {
    assert_eq!(window_move(0, 0, true), Moved::Nothing);
    assert_eq!(window_move(1, -2, true), Moved::PutBack { dx: 1, dy: -2 });
    assert_eq!(window_move(1, -2, false), Moved::By { dx: 40, dy: -80 });
}

#[test]
fn two_points_mark_a_part_of_the_screen() {
    let mut m = Marking::new();
    assert!(m.request().is_some());
    assert!(m.request().is_none());
    assert_eq!(m.look(false, None), Marked::More);
    assert_eq!(m.look(false, Some((10, 50))), Marked::More);
    assert_eq!(m.look(false, Some((30, 20))), Marked::Area { x: 10, y: 20, w: 20, h: 30 });
    assert!(!m.active);
    m.request();
    m.look(false, Some((1, 1)));
    assert_eq!(m.look(true, Some((2, 2))), Marked::Cancelled);
    assert!(m.points.is_empty());
    assert_eq!(shot_line(&ShotStatus::Idle, None), None);
    assert_eq!(shot_line(&ShotStatus::Saved("/x/a.png".to_string()), Some("a.png")).unwrap().0, "✔ a.png");
    assert_eq!(shot_line(&ShotStatus::Failed("e".to_string()), None).unwrap().0, "✖ e");
    let gray = shot_line(&ShotStatus::Cancelled, None).unwrap().1;
    assert_eq!([gray.r, gray.g, gray.b, gray.a], egui::Color32::GRAY.to_array());
}

#[test]
fn questions_are_asked_one_at_a_time() {
    assert!(ask("  ", false, "p").is_none());
    assert!(ask("x", true, "p").is_none());
    let (q, e) = ask(" да ", false, "back").unwrap();
    assert_eq!(q, "да");
    assert_eq!(e.fields.get("len").and_then(|n| n.as_u64()), Some(4));
    assert_eq!(answered(Ok("a".to_string())), "a");
    assert_eq!(answered(Err("e".to_string())), "⚠ e");
}

#[test]
fn the_program_is_built_and_started_again() {
    assert_eq!(
        restart_script(7, "/bin/hw", Some(("/p/Cargo.toml", "/p/target/restart-build.log"))),
        "while kill -0 7 2>/dev/null; do sleep 0.1; done; cargo build --release --manifest-path '/p/Cargo.toml' > '/p/target/restart-build.log' 2>&1; exec '/bin/hw'"
    );
    assert_eq!(
        restart_script(7, "/bin/hw", None),
        "while kill -0 7 2>/dev/null; do sleep 0.1; done; exec '/bin/hw'"
    );
}

#[test]
fn figures_that_are_missing_are_told() {
    let none = health_widget::data::load(None, None);
    assert_eq!(metrics_note(&none, "/m.json"), (true, Some("нет данных: /m.json".to_string())));
    let broken = health_widget::data::load(Some("x"), None);
    assert_eq!(metrics_note(&broken, "/m.json"), (false, None));
}

#[test]
fn words_ask_for_commands() {
    let words = |w: &[&str]| w.iter().map(|x| x.to_string()).collect::<Vec<_>>();
    assert_eq!(command(&words(&[])), Command::Run);
    assert_eq!(command(&words(&["--что-то"])), Command::Run);
    assert_eq!(command(&words(&["--grab-test"])), Command::GrabTest);
    assert_eq!(command(&words(&["-V"])), Command::Version);
    assert_eq!(command(&words(&["--version"])), Command::Version);
    assert_eq!(command(&words(&["--transcript"])), Command::Transcript { today: false });
    assert_eq!(command(&words(&["--transcript-today"])), Command::Transcript { today: true });
    assert_eq!(command(&words(&["--calls"])), Command::Calls);
    assert_eq!(command(&words(&["--export"])), Command::ExportUsage);
    assert_eq!(command(&words(&["--export", "x"])), Command::ExportUsage);
    assert_eq!(
        command(&words(&["--export", "7"])),
        Command::Export { id: 7, dest: "tmp".to_string() }
    );
    assert_eq!(
        command(&words(&["--export", "-7", "/x"])),
        Command::Export { id: -7, dest: "/x".to_string() }
    );
    assert_eq!(command(&words(&["--check-capture"])), Command::CheckCapture);
    assert_eq!(
        command(&words(&["--telemetry"])),
        Command::Telemetry { today: false, limit: 200 }
    );
    assert_eq!(
        command(&words(&["--telemetry-today", "5"])),
        Command::Telemetry { today: true, limit: 5 }
    );
    assert_eq!(exported(7, "/x"), "кол #7 выгружен в /x");
    assert_eq!(capture_report(true).1, 0);
    assert_eq!(capture_report(false), ("захват экрана: не обнаружен", 1));
}
