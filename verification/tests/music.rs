use chrono::{DateTime, Local, TimeZone};
use trove_collector::moment::Moment;
use trove_collector::music::{
    decode, same_track, MusicLive, Play, PlayerEvent, PlayerInfo, PlayerState, ScrobbleConfig,
    Scrobbler, TrackInfo,
};
use trove_collector::vault::Vault;

fn local(h: u32, m: u32, s: u32) -> DateTime<Local> {
    Local.with_ymd_and_hms(2026, 6, 10, h, m, s).unwrap()
}

fn at(h: u32, m: u32, s: u32) -> Moment {
    let t = local(h, m, s);
    Moment::new(t.timestamp(), t.timestamp_subsec_nanos(), t.offset().local_minus_utc()).unwrap()
}

fn track(name: &str, duration_ms: Option<i64>) -> TrackInfo {
    TrackInfo {
        name: name.into(),
        artist: "Artist".into(),
        album: "Album".into(),
        genre: "Pop".into(),
        duration_ms,
        persistent_id: format!("{:016X}", name.len() as u64),
    }
}

fn playing(t: &TrackInfo) -> PlayerEvent {
    PlayerEvent { state: PlayerState::Playing, track: Some(t.clone()) }
}

fn paused(t: &TrackInfo) -> PlayerEvent {
    PlayerEvent { state: PlayerState::Paused, track: Some(t.clone()) }
}

fn stopped() -> PlayerEvent {
    PlayerEvent { state: PlayerState::Stopped, track: None }
}

fn scrobbler() -> Scrobbler {
    Scrobbler::new(ScrobbleConfig::default())
}

fn play(start: &str, end: &str) -> Play {
    Play {
        start: start.into(),
        end: end.into(),
        seconds_played: 200,
        track: "Take On Me".into(),
        artist: "Artist".into(),
        album: "Album".into(),
        genre: "Pop".into(),
        duration_ms: Some(200_000),
        persistent_id: "000000000000000B".into(),
        full_play: true,
    }
}

#[test]
fn music_append_writes_byte_identical_jsonl() {
    let v = Vault::open("/vaults/music-parity".into());
    let p1 = play("2026-06-10T09:00:00-07:00", "2026-06-10T09:03:20-07:00");
    let mut file = String::new();
    for plan in [
        v.append_music_plays(&vec![p1.clone()]).unwrap(),
        v.append_music_plays(&vec![p1]).unwrap(),
    ] {
        assert_eq!(plan.len(), 1);
        assert_eq!(plan[0].path, "/vaults/music-parity/music/plays/2026-06-10.jsonl");
        file.push_str(&plan[0].text);
    }
    let line = "{\"start\":\"2026-06-10T09:00:00-07:00\",\"end\":\"2026-06-10T09:03:20-07:00\",\
                \"seconds_played\":200,\"track\":\"Take On Me\",\"artist\":\"Artist\",\"album\":\"Album\",\
                \"genre\":\"Pop\",\"duration_secs\":200.0,\"persistent_id\":\"000000000000000B\",\"full_play\":true}";
    assert_eq!(file, format!("{line}\n{line}\n"));
    assert_eq!(v.read_day_jsonl(Some(file)), vec![line, line]);
}

#[test]
fn a_track_of_unknown_length_has_no_duration_field() {
    let mut p = play("2026-06-10T09:00:00-07:00", "2026-06-10T09:03:20-07:00");
    p.duration_ms = None;
    assert!(!p.to_line().contains("duration_secs"));
    p.duration_ms = Some(61_250);
    assert!(p.to_line().contains("\"duration_secs\":61.25,"));
}

#[test]
fn full_play_is_recorded_and_flagged() {
    let mut s = scrobbler();
    let t = track("Take On Me", Some(200_000));
    assert!(s.handle(at(9, 0, 0), &playing(&t)).is_none());
    let play = s.handle(at(9, 3, 20), &stopped()).expect("recorded");
    assert_eq!(play.seconds_played, 200);
    assert!(play.full_play);
}

#[test]
fn skip_is_recorded_as_not_full() {
    let mut s = scrobbler();
    let a = track("Skipped", Some(200_000));
    let b = track("Kept", Some(200_000));
    s.handle(at(9, 0, 0), &playing(&a));
    let skip = s.handle(at(9, 0, 20), &stopped()).expect("skips are data");
    assert!(!skip.full_play);
    assert!(s.handle(at(9, 0, 20), &playing(&b)).is_none());
    let play = s.flush(at(9, 2, 0)).expect("100s of 200s is full");
    assert!(play.full_play);
}

#[test]
fn flicker_below_floor_is_dropped() {
    let mut s = scrobbler();
    let t = track("Flicked Past", Some(200_000));
    s.handle(at(9, 0, 0), &playing(&t));
    assert!(s.handle(at(9, 0, 3), &stopped()).is_none());
}

#[test]
fn pause_resume_accumulates_play_time_only() {
    let mut s = scrobbler();
    let t = track("Paused Song", Some(200_000));
    s.handle(at(9, 0, 0), &playing(&t));
    assert!(s.handle(at(9, 1, 0), &paused(&t)).is_none());
    s.handle(at(9, 10, 0), &playing(&t));
    let play = s.handle(at(9, 10, 40), &stopped()).expect("recorded");
    assert_eq!(play.seconds_played, 100);
    assert_eq!(play.end, local(9, 10, 40).to_rfc3339());
}

#[test]
fn unknown_duration_full_at_thirty_seconds() {
    let mut s = scrobbler();
    let t = track("Radio Stream", None);
    s.handle(at(9, 0, 0), &playing(&t));
    assert!(s.handle(at(9, 0, 35), &stopped()).unwrap().full_play);
}

#[test]
fn four_minutes_of_a_long_track_are_full() {
    let mut s = scrobbler();
    let t = track("Long", Some(3_600_000));
    s.handle(at(9, 0, 0), &playing(&t));
    let p = s.handle(at(9, 4, 0), &stopped()).unwrap();
    assert_eq!(p.seconds_played, 240);
    assert!(p.full_play);
    s.handle(at(10, 0, 0), &playing(&t));
    assert!(!s.handle(at(10, 3, 59), &stopped()).unwrap().full_play);
}

#[test]
fn a_repeated_notification_changes_nothing() {
    let mut s = scrobbler();
    let t = track("Song", Some(200_000));
    s.handle(at(9, 0, 0), &playing(&t));
    assert!(s.handle(at(9, 0, 30), &playing(&t)).is_none());
    assert_eq!(s.handle(at(9, 1, 0), &stopped()).unwrap().seconds_played, 60);
}

#[test]
fn a_track_change_closes_the_play() {
    let mut s = scrobbler();
    s.handle(at(9, 0, 0), &playing(&track("One", None)));
    let p = s.handle(at(9, 0, 40), &playing(&track("Twice", None))).unwrap();
    assert_eq!(p.track, "One");
    assert_eq!(s.flush(at(9, 1, 0)).unwrap().track, "Twice");
    assert!(s.flush(at(9, 2, 0)).is_none());
}

#[test]
fn a_nameless_play_is_not_recorded() {
    let mut s = scrobbler();
    s.handle(at(9, 0, 0), &playing(&track("", None)));
    assert!(s.handle(at(9, 1, 0), &stopped()).is_none());
}

#[test]
fn tracks_are_told_apart_by_their_id() {
    let a = track("One", None);
    let mut b = track("Two", None);
    assert!(same_track(&a, &b), "names of one length have one id here");
    b.persistent_id = "000000000000000F".into();
    assert!(!same_track(&a, &b));
}

#[test]
fn turning_the_stream_off_discards_what_arrives() {
    let mut live = MusicLive::new();
    let t = track("Song", Some(200_000));
    assert!(live.tick(&vec![(at(9, 0, 0), playing(&t))], at(9, 0, 5), true).is_empty());
    let plays = live.tick(&vec![(at(9, 0, 30), stopped())], at(9, 1, 0), false);
    assert_eq!(plays.len(), 1);
    assert_eq!(plays[0].seconds_played, 60);
    assert!(live.tick(&vec![(at(9, 2, 0), playing(&t))], at(9, 2, 5), false).is_empty());
    assert!(live.shutdown(&vec![], at(9, 9, 0)).is_empty());
}

#[test]
fn shutdown_folds_in_what_waits_and_flushes() {
    let mut live = MusicLive::new();
    let a = track("A", Some(200_000));
    let b = track("Bee", Some(200_000));
    live.tick(&vec![(at(9, 0, 0), playing(&a))], at(9, 0, 5), true);
    let plays = live.shutdown(&vec![(at(9, 1, 0), playing(&b))], at(9, 1, 30));
    assert_eq!(plays.len(), 2);
    assert_eq!(plays[0].track, "A");
    assert_eq!(plays[1].track, "Bee");
    assert_eq!(plays[1].seconds_played, 30);
}

fn info(state: &str, name: &str, artist: &str) -> PlayerInfo {
    PlayerInfo {
        state: state.into(),
        name: name.into(),
        artist: artist.into(),
        album: "Album".into(),
        genre: "Pop".into(),
        total_time_ms: Some(61_250),
        persistent_id: Some(-2),
    }
}

#[test]
fn notifications_are_decoded() {
    let none = decode(None);
    assert_eq!(none.state, PlayerState::Stopped);
    assert!(none.track.is_none());
    let e = decode(Some(info("Playing", "Song", "")));
    assert_eq!(e.state, PlayerState::Playing);
    let t = e.track.unwrap();
    assert_eq!(t.persistent_id, "FFFFFFFFFFFFFFFE");
    assert_eq!(t.duration_ms, Some(61_250));
    let mut i = info("Paused", "", "Artist");
    i.persistent_id = Some(0x1234_5678_9ABC_DEF0);
    let e = decode(Some(i));
    assert_eq!(e.state, PlayerState::Paused);
    assert_eq!(e.track.unwrap().persistent_id, "123456789ABCDEF0");
    let mut i = info("Rewinding", "x", "");
    i.persistent_id = None;
    let e = decode(Some(i));
    assert_eq!(e.state, PlayerState::Stopped);
    assert_eq!(e.track.unwrap().persistent_id, "");
    assert!(decode(Some(info("Playing", "", ""))).track.is_none());
}
