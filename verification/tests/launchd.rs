use chrono::DateTime;
use trove_collector::activity::ActivityEvent;
use trove_collector::cli::{command, vault_root, CliError, Command, RootChoice};
use trove_collector::launchd::{
    collector_status, fresh_age, install_status, is_fresh, logs_dir, native_host_manifest,
    plist_body, plist_path, restart_begin, restart_failure, restart_step, service_domain,
    service_target, vault_status, RestartAction, RestartEvent, RestartStage,
};
use trove_collector::moment::{seconds_since_text, Moment};
use trove_collector::vault::{Heartbeat, IntegrationSettings};

#[test]
fn the_agents_files() {
    assert_eq!(
        plist_path("/Users/a"),
        "/Users/a/Library/LaunchAgents/com.davidwills.trove-collector.plist"
    );
    assert_eq!(logs_dir("/Users/a"), "/Users/a/Library/Logs/trove");
    let body = plist_body("/bin/trove", "/logs");
    assert!(body.starts_with("<?xml version=\"1.0\" encoding=\"UTF-8\"?>\n<!DOCTYPE plist PUBLIC"));
    assert!(body.contains("    <key>Label</key><string>com.davidwills.trove-collector</string>\n"));
    assert!(body.contains("        <string>/bin/trove</string>\n        <string>run</string>\n"));
    assert!(body.contains("    <key>StandardErrorPath</key><string>/logs/trove-collector.err.log</string>\n"));
    assert!(body.ends_with("</dict>\n</plist>\n"));
}

#[test]
fn the_host_manifest_is_pretty_json() {
    let body = native_host_manifest("/bin/\"trove\"");
    let v: serde_json::Value = serde_json::from_str(&body).unwrap();
    assert_eq!(v["name"], "com.davidwills.trove");
    assert_eq!(v["path"], "/bin/\"trove\"");
    assert_eq!(v["allowed_origins"][0], "chrome-extension://inhhdcdmfoiodfkipnheoiejdegipgpb/");
    assert_eq!(v["type"], "stdio");
    assert_eq!(serde_json::to_string_pretty(&v).unwrap(), body);
}

#[test]
fn service_names() {
    assert_eq!(service_domain(501), "gui/501");
    assert_eq!(service_target(0), "gui/0/com.davidwills.trove-collector");
}

#[test]
fn a_restart_waits_for_the_old_service() {
    let (mut stage, mut action) = restart_begin();
    let mut looks = 0;
    while let RestartAction::Look { .. } = action {
        looks += 1;
        (stage, action) = restart_step(stage, RestartEvent::Loaded(true)).unwrap();
    }
    assert_eq!(looks, 50);
    assert_eq!(action, RestartAction::Start { sleep_ms: 100 });
    assert!(restart_step(stage, RestartEvent::Loaded(true)).is_none());
    let mut starts = 0;
    while let RestartAction::Start { .. } = action {
        starts += 1;
        (stage, action) = restart_step(stage, RestartEvent::Attempted(false)).unwrap();
        assert_eq!(action, RestartAction::Look { sleep_ms: 0 });
        (stage, action) = restart_step(stage, RestartEvent::Loaded(false)).unwrap();
    }
    assert_eq!(starts, 10);
    assert_eq!(action, RestartAction::GiveUp);
    assert_eq!(stage, RestartStage::Over);
    assert_eq!(
        restart_failure(" 5: Input/output error\n"),
        "launchctl bootstrap failed after retries: 5: Input/output error"
    );
}

#[test]
fn a_restart_succeeds() {
    let (stage, _) = restart_begin();
    let (stage, action) = restart_step(stage, RestartEvent::Loaded(false)).unwrap();
    assert_eq!(action, RestartAction::Start { sleep_ms: 0 });
    assert_eq!(
        restart_step(stage, RestartEvent::Attempted(true)),
        Some((RestartStage::Over, RestartAction::Done))
    );
    let (stage, _) = restart_step(stage, RestartEvent::Attempted(false)).unwrap();
    assert_eq!(
        restart_step(stage, RestartEvent::Loaded(true)),
        Some((RestartStage::Over, RestartAction::Kick))
    );
    assert_eq!(
        restart_step(stage, RestartEvent::Loaded(false)).unwrap().1,
        RestartAction::Start { sleep_ms: 200 }
    );
}

fn now() -> Moment {
    Moment::new(1_781_100_015, 900_000_000, 0).unwrap()
}

#[test]
fn freshness() {
    assert!(is_fresh("2026-06-10T07:00:00-07:00", now()), "fifteen seconds and a bit");
    assert!(!is_fresh("2026-06-10T06:59:59-07:00", now()));
    assert!(is_fresh("2027-01-01T00:00:00Z", now()));
    assert!(!is_fresh("yesterday", now()));
    assert!(fresh_age(Some(15)) && !fresh_age(Some(16)) && !fresh_age(None));
}

#[test]
fn a_heartbeat_just_written_is_fresh() {
    let t = Moment::new(1_781_100_000, 0, 19_800).unwrap();
    assert_eq!(t.to_rfc3339(), "2026-06-10T19:30:00+05:30");
    assert!(is_fresh(&t.to_rfc3339(), now()));
    let late = Moment::new(1_781_100_016, 0, 0).unwrap();
    assert!(!is_fresh(&t.to_rfc3339(), late));
}

#[test]
fn install_report() {
    assert_eq!(
        install_status(true, "/p", Some((true, false)), Some("/m")),
        vec![
            "launch agent: installed (/p)",
            "launchd service: loaded",
            "screen recording: not granted (window titles will be empty)",
            "browser extension host: manifest installed (/m)",
        ]
    );
    assert_eq!(
        install_status(false, "/p", None, None),
        vec![
            "launch agent: not installed",
            "browser extension host: manifest not installed (run `trove-collector install`)",
        ]
    );
}

fn beat(current: Option<ActivityEvent>, rss_mb: Option<u64>) -> Option<Heartbeat> {
    Some(Heartbeat {
        pid: 42,
        role: "trove-collector".into(),
        updated: "2026-06-10T07:00:10-07:00".into(),
        current,
        rss_mb,
    })
}

fn doing(app: &str, afk: bool) -> Option<ActivityEvent> {
    Some(ActivityEvent {
        start: String::new(),
        end: String::new(),
        seconds: 0,
        app: app.into(),
        bundle_id: String::new(),
        title: String::new(),
        afk,
    })
}

#[test]
fn vault_report() {
    let s = IntegrationSettings { disabled: vec!["activity".into()], enabled: vec![] };
    assert_eq!(
        vault_status("/v", &beat(doing("Code", false), Some(31)), now(), &s),
        vec![
            "vault: /v",
            "collector: running (pid 42, 31 MB), currently in Code",
            "  activity: off",
            "  music-scrobbler: on",
            "  browser-extension: on",
            "  browser-ads: on",
            "  browser-ads-identify: off",
        ]
    );
    assert_eq!(
        collector_status(&beat(doing("", true), None), true),
        "collector: running (pid 42), currently away"
    );
    assert_eq!(
        collector_status(&beat(None, None), true),
        "collector: running (pid 42), currently idle"
    );
    assert_eq!(
        collector_status(&beat(None, None), false),
        "collector: none (stale heartbeat — last owner likely crashed)"
    );
    assert_eq!(collector_status(&None, false), "collector: none");
}

fn words(w: &[&str]) -> Vec<String> {
    w.iter().map(|s| s.to_string()).collect()
}

#[test]
fn commands() {
    assert!(matches!(command(&words(&[])), Command::Run));
    assert!(matches!(command(&words(&["run", "x"])), Command::Run));
    assert!(matches!(command(&words(&["install"])), Command::Install));
    assert!(matches!(command(&words(&["uninstall"])), Command::Uninstall));
    assert!(matches!(command(&words(&["status"])), Command::Status));
    assert!(matches!(command(&words(&["permission"])), Command::Permission));
    for h in ["help", "--help", "-h"] {
        assert!(matches!(command(&words(&[h])), Command::Help));
    }
    match command(&words(&["chrome-extension://abc/"])) {
        Command::Host { origin } => assert_eq!(origin, "chrome-extension://abc/"),
        other => panic!("{other:?}"),
    }
    match command(&words(&["Run"])) {
        Command::Unknown { name } => assert_eq!(name, "Run"),
        other => panic!("{other:?}"),
    }
}

#[test]
fn the_flag_beats_the_environment() {
    let path = |r: Result<RootChoice, CliError>| match r {
        Ok(RootChoice::At { path }) => path,
        other => panic!("{other:?}"),
    };
    let flag = words(&["--vault", "/a", "--vault", "/b"]);
    assert_eq!(path(vault_root(&flag, Some("/env".into()))), "/a");
    assert_eq!(path(vault_root(&words(&["x"]), Some("/env".into()))), "/env");
    assert!(matches!(vault_root(&words(&[]), Some(String::new())), Ok(RootChoice::Default)));
    assert!(matches!(vault_root(&words(&[]), None), Ok(RootChoice::Default)));
    assert!(matches!(
        vault_root(&words(&["--vault"]), Some("/env".into())),
        Err(CliError::VaultNeedsPath)
    ));
}

#[test]
fn a_timestamp_carries_the_local_date() {
    let text = |secs: i64, offset: i32| Moment::new(secs, 0, offset).unwrap().to_rfc3339();
    assert_eq!(text(0, 0), "1970-01-01T00:00:00+00:00");
    assert_eq!(text(-1, 0), "1969-12-31T23:59:59+00:00");
    assert_eq!(text(0, -1800), "1969-12-31T23:30:00-00:30");
    assert_eq!(text(951_782_400, 0), "2000-02-29T00:00:00+00:00");
    assert_eq!(text(951_782_399, 3600), "2000-02-29T00:59:59+01:00");
    assert_eq!(text(-62_167_219_200, 0), "0000-01-01T00:00:00+00:00");
    assert_eq!(text(253_402_300_799, 0), "9999-12-31T23:59:59+00:00");
    assert_eq!(text(253_402_300_800, 0), "+10000-01-01T00:00:00+00:00");
    assert_eq!(text(-62_167_219_201, 0), "-0001-12-31T23:59:59+00:00");
    assert!(Moment::new(8_210_266_876_800, 0, 0).is_none());
    assert!(Moment::new(0, 1_000_000_000, 0).is_none());
    assert!(Moment::new(0, 0, 86_400).is_none());
}

#[test]
fn moments_are_told_apart() {
    let a = Moment::new(10, 250_000_000, 0).unwrap();
    let b = Moment::new(12, 0, 3600).unwrap();
    assert!(a.before(&b) && !b.before(&a) && !a.before(&a));
    assert_eq!(b.secs_since(&a), 1);
    assert_eq!(a.secs_since(&b), -1);
    assert_eq!(b.millis_since(&a), 1750);
    assert_eq!(a.millis_since(&b), -1750);
    assert_eq!(a.minus_millis(1251), (8, 999_000_000));
    assert_eq!(a.minus_millis(-750), (11, 0));
}

#[test]
fn fractions_and_offsets_are_written_as_they_need() {
    let text = |nanos: u32, offset: i32| Moment::new(45_296, nanos, offset).unwrap().to_rfc3339();
    assert_eq!(text(5_000_000, 0), "1970-01-01T12:34:56.005+00:00");
    assert_eq!(text(5_000, 0), "1970-01-01T12:34:56.000005+00:00");
    assert_eq!(text(5, 0), "1970-01-01T12:34:56.000000005+00:00");
    assert_eq!(text(0, 90), "1970-01-01T12:36:26+00:02");
    assert_eq!(text(0, -45), "1970-01-01T12:34:11-00:01");
    assert_eq!(text(0, -29), "1970-01-01T12:34:27-00:00");
    assert_eq!(text(0, 86_399), "1970-01-02T12:34:55+24:00");
    assert_eq!(text(0, -34_200), "1970-01-01T03:04:56-09:30");
}

#[test]
fn ages_are_counted_as_the_calendar_counts_them() {
    let times = [
        "2026-06-10T07:00:00-07:00",
        "2026-06-10T14:00:15.900000001Z",
        "2026-06-10T14:00:16.5Z",
        "2016-12-31T23:59:60Z",
        "2016-12-31T23:59:60.75Z",
        "2016-12-31T15:59:60.75-08:00",
        "2016-12-31T12:00:60.25Z",
        "0000-01-01T00:00:00+23:59",
        "9999-12-31T23:59:59-23:59",
        "2026-06-10 14:00:00z",
    ];
    for (secs, nanos) in [
        (1_781_100_015, 900_000_000),
        (1_483_228_799, 999_999_999),
        (1_483_228_800, 0),
        (1_483_228_800, 500_000_000),
        (1_483_228_801, 250_000_000),
        (1_483_185_660, 0),
        (1_483_185_661, 0),
        (1_483_180_000, 1),
        (-5_000_000, 7),
    ] {
        let now = Moment::new(secs, nanos, 3600).unwrap();
        let at = DateTime::from_timestamp(secs, nanos).unwrap();
        for t in times {
            let parsed = DateTime::parse_from_rfc3339(t).unwrap();
            let want = at.signed_duration_since(parsed).num_seconds();
            assert_eq!(seconds_since_text(t, now), Some(want), "{t} at {secs}.{nanos:09}");
        }
        assert_eq!(seconds_since_text("2026-06-10", now), None);
    }
}
