//! The report of the day's count.

use health_widget::alice::{body, cfg_path, parse_cfg, should_push, today, totals, Cfg};
use health_widget::clock::Duration;
use health_widget::pilot_summary::Summary;

fn sum(applied: i64, limit: i64) -> Summary {
    Summary { applied_today: applied, daily_limit: limit, ..Default::default() }
}

#[test]
fn totals_sum_across_profiles() {
    let got = totals(&[sum(9, 100), sum(5, 100)]);
    assert_eq!(got, Some((14, 200)));
}

#[test]
fn totals_of_nothing_is_none() {
    assert_eq!(totals(&[]), None);
}

#[test]
fn first_push_always_happens() {
    assert!(should_push(None, 0, Duration::from_secs(0)));
}

#[test]
fn changed_value_pushes_immediately() {
    assert!(should_push(Some(13), 14, Duration::from_secs(60)));
}

#[test]
fn same_value_stays_quiet_for_a_while() {
    assert!(!should_push(Some(14), 14, Duration::from_secs(5 * 60)));
}

#[test]
fn same_value_pushes_as_heartbeat_after_twenty_minutes() {
    assert!(should_push(Some(14), 14, Duration::from_secs(21 * 60)));
}

#[test]
fn heartbeat_comes_at_twenty_minutes_sharp() {
    assert!(should_push(Some(14), 14, Duration::from_secs(20 * 60)));
    assert!(!should_push(Some(14), 14, Duration::new(20 * 60 - 1, 999_999_999)));
}

#[test]
fn body_carries_token_and_counts() {
    let cfg = Cfg { url: "u".to_string(), token: "s3cret".to_string() };
    let js: serde_json::Value = serde_json::from_str(&body(&cfg, 14, 200, "2026-08-04")).unwrap();
    assert_eq!(js["token"], "s3cret");
    assert_eq!(js["applied_today"], 14);
    assert_eq!(js["daily_limit"], 200);
    assert_eq!(js["date"], "2026-08-04");
}

#[test]
fn body_is_written_in_the_order_of_its_names() {
    let cfg = Cfg { url: "u".to_string(), token: "t\"".to_string() };
    assert_eq!(
        body(&cfg, -3, 200, "2026-08-04"),
        "{\"applied_today\":-3,\"daily_limit\":200,\"date\":\"2026-08-04\",\"token\":\"t\\\"\"}"
    );
}

#[test]
fn today_is_what_the_clock_printed() {
    assert_eq!(today(Some(b"2026-08-04\n")), "2026-08-04");
    assert_eq!(today(None), "");
}

#[test]
fn cfg_parses_url_and_token() {
    let cfg = parse_cfg(r#"{"url":"https://x/y","token":"t"}"#).unwrap();
    assert_eq!(cfg.url, "https://x/y");
    assert_eq!(cfg.token, "t");
}

#[test]
fn cfg_without_url_is_rejected() {
    assert!(parse_cfg(r#"{"token":"t"}"#).is_none());
}

#[test]
fn cfg_lies_in_the_programs_directory() {
    assert!(cfg_path(Some("/home/u/.config")).unwrap().starts_with("/home/u/.config/health-widget/"));
    assert_eq!(cfg_path(None), None);
}
