use chrono::{DateTime, Local, TimeZone};
use trove_collector::activity::{ActivityEvent, ActivityLive, WatchConfig, Watcher};
use trove_collector::moment::Moment;
use trove_collector::sampler::{frontmost_window, Sample, WindowInfo};
use trove_collector::vault::{Vault, VaultError};

fn local(h: u32, m: u32, s: u32) -> DateTime<Local> {
    Local.with_ymd_and_hms(2026, 6, 10, h, m, s).unwrap()
}

fn moment(t: DateTime<Local>) -> Moment {
    Moment::new(t.timestamp(), t.timestamp_subsec_nanos(), t.offset().local_minus_utc()).unwrap()
}

fn at(h: u32, m: u32, s: u32) -> Moment {
    moment(local(h, m, s))
}

fn active(app: &str, title: &str) -> Sample {
    Sample { app: app.into(), bundle_id: String::new(), title: title.into(), idle_ms: 0 }
}

fn idle(app: &str, title: &str, secs: i64) -> Sample {
    Sample { idle_ms: secs * 1000, ..active(app, title) }
}

fn cfg() -> WatchConfig {
    WatchConfig { afk_threshold_ms: 120_000, max_gap_secs: 30 }
}

#[test]
fn merges_same_app_and_splits_on_change() {
    let mut w = Watcher::new(cfg());
    assert!(w.tick(at(9, 0, 0), &active("Code", "a.rs")).is_empty());
    assert!(w.tick(at(9, 0, 5), &active("Code", "a.rs")).is_empty());
    let closed = w.tick(at(9, 0, 10), &active("Safari", "Hacker News"));
    assert_eq!(closed.len(), 1);
    assert_eq!(closed[0].app, "Code");
    assert_eq!(closed[0].seconds, 10);
    assert!(!closed[0].afk);
    let cur = w.current(at(9, 0, 15)).unwrap();
    assert_eq!(cur.app, "Safari");
    assert_eq!(cur.seconds, 5);
}

#[test]
fn title_change_splits_within_same_app() {
    let mut w = Watcher::new(cfg());
    w.tick(at(9, 0, 0), &active("Code", "a.rs"));
    let closed = w.tick(at(9, 0, 5), &active("Code", "b.rs"));
    assert_eq!(closed.len(), 1);
    assert_eq!(closed[0].title, "a.rs");
}

#[test]
fn afk_backdates_to_last_input() {
    let mut w = Watcher::new(cfg());
    w.tick(at(9, 0, 0), &active("Code", "a.rs"));
    for ((h, m, s), secs) in [
        ((9, 0, 30), 30),
        ((9, 1, 0), 0),
        ((9, 1, 30), 30),
        ((9, 2, 0), 60),
        ((9, 2, 30), 90),
    ] {
        assert!(w.tick(at(h, m, s), &idle("Code", "a.rs", secs)).is_empty());
    }
    let closed = w.tick(at(9, 3, 0), &idle("Code", "a.rs", 120));
    assert_eq!(closed.len(), 1);
    assert_eq!(closed[0].app, "Code");
    assert_eq!(closed[0].seconds, 60, "active span ends when input stopped");
    let afk = w.current(at(9, 3, 0)).unwrap();
    assert!(afk.afk);
    assert_eq!(afk.app, "");
    assert_eq!(afk.seconds, 120);
}

#[test]
fn long_gap_closes_without_billing_the_gap() {
    let mut w = Watcher::new(cfg());
    w.tick(at(9, 0, 0), &active("Code", "a.rs"));
    w.tick(at(9, 0, 5), &active("Code", "a.rs"));
    let closed = w.tick(at(9, 10, 5), &active("Code", "a.rs"));
    assert_eq!(closed.len(), 1);
    assert_eq!(closed[0].seconds, 5);
    assert_eq!(w.current(at(9, 10, 10)).unwrap().seconds, 5);
}

/// The exact line shape that the app's reader expects.
#[test]
fn vault_round_trip_is_byte_exact() {
    let v = Vault::open("/vaults/activity".into());
    let mut w = Watcher::new(cfg());
    w.tick(at(9, 0, 0), &active("Code", "a.rs"));
    w.tick(at(9, 0, 30), &active("Code", "a.rs"));
    let mut events = w.tick(at(9, 1, 0), &active("Safari", "news"));
    events.extend(w.flush(at(9, 1, 30)));
    let plan = v.append_activity_events(&events).unwrap();
    assert_eq!(plan.len(), 1);
    assert_eq!(plan[0].path, "/vaults/activity/activity/2026-06-10.jsonl");
    assert_eq!(plan[0].day, "2026-06-10");
    assert!(!plan[0].flock);

    let s = local(9, 0, 0).to_rfc3339();
    let e = local(9, 1, 0).to_rfc3339();
    let e2 = local(9, 1, 30).to_rfc3339();
    assert_eq!(
        plan[0].text,
        format!(
            "{{\"start\":\"{s}\",\"end\":\"{e}\",\"seconds\":60,\"app\":\"Code\",\
             \"bundle_id\":\"\",\"title\":\"a.rs\",\"afk\":false}}\n\
             {{\"start\":\"{e}\",\"end\":\"{e2}\",\"seconds\":30,\"app\":\"Safari\",\
             \"bundle_id\":\"\",\"title\":\"news\",\"afk\":false}}\n"
        )
    );
    let back = v.read_day_jsonl(Some(plan[0].text.clone()));
    assert_eq!(back.len(), 2);
}

#[test]
fn titles_are_escaped_and_stay_on_their_line() {
    let e = ActivityEvent {
        start: "2026-06-10T09:00:00-07:00".into(),
        end: "2026-06-10T09:00:05-07:00".into(),
        seconds: 5,
        app: "Code".into(),
        bundle_id: String::new(),
        title: "say \"hi\"\nü\t\\\r\u{8}\u{c}\u{0}\u{1f}\u{7f}".into(),
        afk: false,
    };
    assert_eq!(
        e.to_line(),
        "{\"start\":\"2026-06-10T09:00:00-07:00\",\"end\":\"2026-06-10T09:00:05-07:00\",\
         \"seconds\":5,\"app\":\"Code\",\"bundle_id\":\"\",\
         \"title\":\"say \\\"hi\\\"\\nü\\t\\\\\\r\\b\\f\\u0000\\u001f\u{7f}\",\"afk\":false}"
    );
}

#[test]
fn an_undated_event_is_refused() {
    let e = ActivityEvent {
        start: "soon".into(),
        end: "later".into(),
        seconds: 5,
        app: "Code".into(),
        bundle_id: String::new(),
        title: String::new(),
        afk: false,
    };
    let v = Vault::open("/v".into());
    match v.append_activity_events(&vec![e]) {
        Err(VaultError::NoDatePrefix { dir, ts }) => {
            assert_eq!(dir, "activity");
            assert_eq!(ts, "soon");
        }
        other => panic!("{other:?}"),
    }
}

#[test]
fn away_starts_at_the_given_offset() {
    let now = Moment::new(1_781_000_400, 500_000_000, -25_200).unwrap();
    let mut w = Watcher::new(cfg());
    w.tick_at(now, &idle("Code", "a.rs", 200), -25_200);
    let later = Moment::new(1_781_000_410, 500_000_000, -25_200).unwrap();
    let e = w.current(later).unwrap();
    assert!(e.afk);
    assert_eq!(e.title, "");
    let t = DateTime::parse_from_rfc3339(&e.start).unwrap();
    assert_eq!(t.timestamp(), 1_781_000_200);
    assert_eq!(t.timestamp_subsec_millis(), 500);
    assert_eq!(e.seconds, 210);
}

#[test]
fn turning_the_stream_off_closes_out_the_open_event() {
    let mut live = ActivityLive::new();
    assert!(live.tick(at(9, 0, 0), &active("Code", "a.rs"), true).is_empty());
    assert!(live.accepts(at(9, 0, 5), &active("Code", "a.rs")));
    let closed = live.tick(at(9, 0, 5), &active("Safari", ""), false);
    assert_eq!(closed.len(), 1);
    assert_eq!(closed[0].app, "Code");
    assert_eq!(closed[0].seconds, 5);
    assert!(live.current(at(9, 0, 10)).is_none());
    assert!(live.tick(at(9, 0, 10), &active("Safari", ""), false).is_empty());
    assert!(live.shutdown(at(9, 0, 15)).is_empty());
}

#[test]
fn a_clock_set_back_while_away_is_no_failure() {
    let mut w = Watcher::new(WatchConfig::default());
    w.tick(at(9, 10, 0), &active("Code", ""));
    assert!(w.accepts(at(9, 0, 0), &idle("Code", "", 300)));
    assert!(w.tick(at(9, 0, 0), &idle("Code", "", 300)).is_empty());
    let away = w.current(at(9, 0, 0)).unwrap();
    assert!(away.afk);
    assert_eq!(away.seconds, 0);
    assert_eq!(away.start, local(9, 10, 0).to_rfc3339(), "never before the open event began");
    assert_eq!(w.flush(at(9, 10, 20)).unwrap().seconds, 20);
}

#[test]
fn an_input_outside_the_calendar_is_not_accepted() {
    let w = Watcher::new(cfg());
    let mut s = active("Code", "");
    s.idle_ms = i64::MAX;
    assert!(!w.accepts(at(9, 0, 0), &s));
}

#[test]
fn the_front_window_is_the_first_normal_one_with_an_owner() {
    let w = |layer: Option<i64>, owner: &str, title: &str| WindowInfo {
        layer,
        owner: owner.into(),
        title: title.into(),
    };
    let windows = vec![
        w(Some(25), "Dock", "menu"),
        w(None, "Ghost", "none"),
        w(Some(0), "", "nameless"),
        w(Some(0), "Code", "a.rs"),
        w(Some(0), "Safari", "news"),
    ];
    let s = frontmost_window(&windows, 1500);
    assert_eq!(s.app, "Code");
    assert_eq!(s.title, "a.rs");
    assert_eq!(s.bundle_id, "");
    assert_eq!(s.idle_ms, 1500);
    let none = frontmost_window(&vec![], 7);
    assert_eq!(none.app, "");
    assert_eq!(none.title, "");
    assert_eq!(none.idle_ms, 7);
}

#[test]
fn lines_tell_events_apart() {
    let e = |app: &str, title: &str| ActivityEvent {
        start: "2026-06-10T09:00:00-07:00".into(),
        end: "2026-06-10T09:00:05-07:00".into(),
        seconds: 5,
        app: app.into(),
        bundle_id: String::new(),
        title: title.into(),
        afk: false,
    };
    let forged = e("a\",\"bundle_id\":\"\",\"title\":\"b", "");
    assert_ne!(forged.to_line(), e("a", "b").to_line());
    assert_ne!(e("a\\", "").to_line(), e("a\\\\", "").to_line());
    assert_ne!(e("\n", "").to_line(), e("\\n", "").to_line());
}

#[test]
fn a_local_day_has_one_file() {
    // Midnight at seven hours behind, on 2026-06-11.
    let midnight = 1_781_161_200;
    let v = Vault::open("/v".into());
    let mut w = Watcher::new(WatchConfig { afk_threshold_ms: 120_000, max_gap_secs: 100_000 });
    let mut events = Vec::new();
    for (secs, app) in [(-20, "A"), (-10, "B"), (0, "C"), (10, "D"), (86_399, "E"), (86_410, "F")] {
        let now = Moment::new(midnight + secs, 0, -25_200).unwrap();
        events.extend(w.tick(now, &active(app, "")));
    }
    let plan = v.append_activity_events(&events).unwrap();
    let lines: Vec<(String, usize)> =
        plan.iter().map(|a| (a.day.clone(), a.text.lines().count())).collect();
    assert_eq!(lines, vec![("2026-06-10".to_string(), 2), ("2026-06-11".to_string(), 3)]);
}
