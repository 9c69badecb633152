use trove_collector::moment::Moment;
use trove_collector::music::{PlayerEvent, PlayerState, TrackInfo};
use trove_collector::runner::{
    keeps_sleeping, resident_pages, rss_bytes, run_step, Collectors, Control, Phase, RunAction,
    RunEvent, MEMORY_LOG_SECS, SLEEP_SLICE_MS,
};
use trove_collector::sampler::Sample;
use trove_collector::vault::{IntegrationSettings, Vault};

#[test]
fn rss_is_reported_on_supported_platforms() {
    let rss = rss_bytes("5412 1287 975 311 0 420 0\n").expect("rss available");
    assert!(rss > 0);
    assert_eq!(rss, 5_271_552);
}

#[test]
fn odd_memory_statistics_are_no_number() {
    assert_eq!(resident_pages(""), None);
    assert_eq!(resident_pages("12"), None);
    assert_eq!(resident_pages("12 x"), None);
    assert_eq!(resident_pages("12 -3"), None);
    assert_eq!(resident_pages("12 +"), None);
    assert_eq!(resident_pages("12\t+34"), Some(34));
    assert_eq!(resident_pages("  1  18446744073709551615"), Some(u64::MAX));
    assert_eq!(resident_pages("1 18446744073709551616"), None);
    assert_eq!(rss_bytes("1 2"), Some(8192));
}

#[test]
fn the_stop_flag_is_shared() {
    let a = Control::new();
    let b = a.clone();
    assert!(!b.stopped());
    a.stop();
    assert!(a.stopped() && b.stopped());
}

#[test]
fn the_loop_polls_under_the_lock_and_shuts_down_before_it_exits() {
    let (p, a) = run_step(Phase::Unlocked, RunEvent::Started { stopped: false });
    assert_eq!((p, a), (Phase::Unlocked, RunAction::TryLock));
    let (p, a) = run_step(p, RunEvent::LockTried { taken: false, stopped: false });
    assert_eq!((p, a), (Phase::Unlocked, RunAction::Pause));
    let (p, a) = run_step(p, RunEvent::Paused { stopped: false });
    assert_eq!((p, a), (Phase::Unlocked, RunAction::TryLock));
    let (p, a) = run_step(p, RunEvent::LockTried { taken: true, stopped: false });
    assert_eq!((p, a), (Phase::Locked, RunAction::Pause));
    let (p, a) = run_step(p, RunEvent::Paused { stopped: false });
    assert_eq!((p, a), (Phase::Locked, RunAction::Poll));
    let (p, a) = run_step(p, RunEvent::Polled { stopped: false });
    assert_eq!((p, a), (Phase::Locked, RunAction::Pause));
    let (p, a) = run_step(p, RunEvent::Paused { stopped: true });
    assert_eq!((p, a), (Phase::Locked, RunAction::ShutDown));
    let (p, a) = run_step(p, RunEvent::ShutDown { stopped: true });
    assert_eq!((p, a), (Phase::Unlocked, RunAction::Exit));
    assert_eq!(
        run_step(Phase::Unlocked, RunEvent::Started { stopped: true }).1,
        RunAction::Exit
    );
    assert_eq!(
        run_step(Phase::Unlocked, RunEvent::LockTried { taken: true, stopped: true }),
        (Phase::Locked, RunAction::ShutDown)
    );
}

#[test]
fn sleeping_ends_with_the_time_or_the_flag() {
    assert_eq!(SLEEP_SLICE_MS, 250);
    assert!(keeps_sleeping(4750, 5000, false));
    assert!(!keeps_sleeping(5000, 5000, false));
    assert!(!keeps_sleeping(0, 5000, true));
}

fn at(s: i64) -> Moment {
    Moment::new(1_781_100_000 + s, 0, 0).unwrap()
}

fn sample(app: &str) -> Sample {
    Sample { app: app.into(), bundle_id: String::new(), title: String::new(), idle_ms: 0 }
}

fn playing(name: &str) -> PlayerEvent {
    PlayerEvent {
        state: PlayerState::Playing,
        track: Some(TrackInfo {
            name: name.into(),
            artist: String::new(),
            album: String::new(),
            genre: String::new(),
            duration_ms: None,
            persistent_id: String::new(),
        }),
    }
}

#[test]
fn a_poll_ticks_appends_and_beats() {
    let v = Vault::open("/v".into());
    let on = IntegrationSettings::default();
    let mut c = Collectors::new();
    assert!(c.accepts(at(0), &sample("Code")));
    let rss = Some(33 * 1024 * 1024 + 7);
    let o = c.poll(&v, &on, at(0), &sample("Code"), &vec![(at(0), playing("One"))], 42, rss, 0);
    assert!(o.appends.activity.is_none() && o.appends.music.is_none());
    assert!(!o.log_memory);
    assert_eq!(o.heartbeat.path, "/v/.trove/watcher-state.json");
    assert_eq!(
        o.heartbeat.text,
        "{\"pid\":42,\"role\":\"trove-collector\",\"updated\":\"2026-06-10T14:00:00+00:00\",\
         \"current\":{\"start\":\"2026-06-10T14:00:00+00:00\",\"end\":\"2026-06-10T14:00:00+00:00\",\
         \"seconds\":0,\"app\":\"Code\",\"bundle_id\":\"\",\"title\":\"\",\"afk\":false},\"rss_mb\":33}"
    );
    let o = c.poll(
        &v,
        &on,
        at(5),
        &sample("Safari"),
        &vec![(at(5), playing("Two"))],
        42,
        None,
        MEMORY_LOG_SECS,
    );
    assert!(o.log_memory);
    let events = o.appends.activity.unwrap().unwrap();
    assert_eq!(events[0].path, "/v/activity/2026-06-10.jsonl");
    let plays = o.appends.music.unwrap().unwrap();
    assert_eq!(plays[0].rel, "music/plays/2026-06-10.jsonl");
    assert!(plays[0].text.contains("\"track\":\"One\""));
    let last = c.shutdown(&v, at(12), &vec![]);
    assert!(last.activity.unwrap().unwrap()[0].text.contains("\"app\":\"Safari\""));
    assert!(last.music.unwrap().unwrap()[0].text.contains("\"seconds_played\":7"));
}

#[test]
fn collectors_that_are_off_close_out() {
    let v = Vault::open("/v".into());
    let on = IntegrationSettings::default();
    let off = IntegrationSettings {
        disabled: vec!["activity".into(), "music-scrobbler".into()],
        enabled: vec![],
    };
    let mut c = Collectors::new();
    c.poll(&v, &on, at(0), &sample("Code"), &vec![(at(0), playing("One"))], 1, None, 0);
    let o = c.poll(&v, &off, at(8), &sample("Code"), &vec![(at(7), playing("Two"))], 1, None, 0);
    assert!(o.appends.activity.unwrap().unwrap()[0].text.contains("\"seconds\":8"));
    assert!(o.appends.music.unwrap().unwrap()[0].text.contains("\"seconds_played\":8"));
    assert!(o.heartbeat.text.contains("\"current\":null"));
    let o = c.poll(&v, &off, at(9), &sample("Code"), &vec![], 1, None, 0);
    assert!(o.appends.activity.is_none() && o.appends.music.is_none());
}
