use std::collections::HashMap;

use trove_collector::vault::{
    day_key, enabled_in, join, write_atomic, DayRow, Heartbeat, IntegrationSettings, Vault,
    VaultError, LIVE_DIR, LOCK_FILE, SETTINGS_FILE, STATE_FILE,
};

fn rec(ts: &str, n: u32) -> DayRow {
    DayRow { ts: ts.into(), line: format!("{{\"ts\":\"{ts}\",\"n\":{n}}}") }
}

#[test]
fn append_partitions_by_day_and_is_byte_exact() {
    let v = Vault::open("/vaults/append".into());
    let recs = vec![
        rec("2026-06-10T09:00:00-07:00", 1),
        rec("2026-06-11T09:00:00-07:00", 2),
        rec("2026-06-10T10:00:00-07:00", 3),
    ];
    let first = v.append_day_jsonl("stream", &recs, false).unwrap();
    let second = v.append_day_jsonl("stream", &recs[..1].to_vec(), true).unwrap();
    assert_eq!(first.len(), 2);
    assert_eq!(second.len(), 1);
    assert_eq!(first[0].rel, "stream/2026-06-10.jsonl");
    assert_eq!(first[0].path, "/vaults/append/stream/2026-06-10.jsonl");
    assert_eq!(first[1].rel, "stream/2026-06-11.jsonl");
    assert!(!first[0].flock && second[0].flock);
    let d10 = first[0].text.clone() + &second[0].text;
    assert_eq!(
        d10,
        "{\"ts\":\"2026-06-10T09:00:00-07:00\",\"n\":1}\n\
         {\"ts\":\"2026-06-10T10:00:00-07:00\",\"n\":3}\n\
         {\"ts\":\"2026-06-10T09:00:00-07:00\",\"n\":1}\n"
    );
    let back = v.read_day_jsonl(Some(first[1].text.clone()));
    assert_eq!(back, vec![rec("2026-06-11T09:00:00-07:00", 2).line]);
}

#[test]
fn days_come_in_order() {
    let v = Vault::open("/v".into());
    let recs = vec![
        rec("2026-06-12T00:00:00Z", 1),
        rec("2025-12-31T00:00:00Z", 2),
        rec("2026-06-11T00:00:00Z", 3),
        rec("2026-06-12T01:00:00Z", 4),
    ];
    let plan = v.append_day_jsonl("s", &recs, true).unwrap();
    let days: Vec<&str> = plan.iter().map(|a| a.day.as_str()).collect();
    assert_eq!(days, vec!["2025-12-31", "2026-06-11", "2026-06-12"]);
    assert_eq!(v.read_day_jsonl(Some(plan[2].text.clone())).len(), 2);
    assert!(v.append_day_jsonl("s", &vec![], false).unwrap().is_empty());
    assert!(v.append_day_jsonl("../s", &vec![], false).unwrap().is_empty());
}

#[test]
fn malformed_timestamp_writes_nothing() {
    let v = Vault::open("/vaults/malformed".into());
    let recs = vec![rec("2026-06-10T09:00:00-07:00", 1), rec("not a date", 2)];
    assert!(v.append_day_jsonl("stream", &recs, false).is_err());
    match v.append_day_jsonl("stream", &recs, false) {
        Err(VaultError::NoDatePrefix { dir, ts }) => {
            assert_eq!(dir, "stream");
            assert_eq!(ts, "not a date");
        }
        other => panic!("{other:?}"),
    }
}

#[test]
fn day_keys() {
    assert_eq!(day_key("2026-06-10T09:00:00-07:00").as_deref(), Some("2026-06-10"));
    assert_eq!(day_key("2026-06-10").as_deref(), Some("2026-06-10"));
    assert_eq!(day_key("2026-06-1"), None);
    assert_eq!(day_key("2026/06/10"), None);
    assert_eq!(day_key("+12026-06-10"), None);
    assert_eq!(day_key("２026-06-10"), None);
}

#[test]
fn resolve_rejects_escapes() {
    let v = Vault::open("/vaults/resolve".into());
    assert!(v.resolve("../x").is_err());
    assert!(v.resolve("/etc/passwd").is_err());
    assert!(v.resolve("activity/2026-06-10.jsonl").is_ok());
    assert_eq!(v.root(), "/vaults/resolve");
}

#[test]
fn resolve_edges() {
    let v = Vault::open("/v/".into());
    assert_eq!(v.resolve("a/b").unwrap(), "/v/a/b");
    assert_eq!(v.resolve("a..b/..c/d..").unwrap(), "/v/a..b/..c/d..");
    assert_eq!(v.resolve("").unwrap(), "/v/");
    for bad in ["..", "a/..", "a/../b", "/", "a//.."] {
        match v.resolve(bad) {
            Err(VaultError::Escapes { rel }) => assert_eq!(rel, bad),
            other => panic!("{other:?}"),
        }
    }
    match v.append_day_jsonl("../out", &vec![rec("2026-06-10", 1)], false) {
        Err(VaultError::Escapes { rel }) => assert_eq!(rel, "../out/2026-06-10.jsonl"),
        other => panic!("{other:?}"),
    }
    assert!(v.append_day_jsonl("", &vec![rec("2026-06-10", 1)], false).is_err());
    assert_eq!(join("", "a"), "a");
    assert_eq!(join("a", "b"), "a/b");
    assert_eq!(Vault::default_root("/Users/a"), "/Users/a/Documents/Trove");
    assert_eq!(v.marker_dir(), "/v/.trove");
}

#[test]
fn toggles_follow_defaults_and_settings() {
    let v = Vault::open("/vaults/toggles".into());
    assert!(v.integration_enabled(None, "activity"));
    assert!(!v.integration_enabled(None, "browser-ads-identify"), "default off");
    assert!(!v.integration_enabled(None, "not-a-thing"));
    let read = || {
        Some(IntegrationSettings {
            disabled: vec!["activity".into()],
            enabled: vec!["browser-ads-identify".into()],
        })
    };
    assert!(!v.integration_enabled(read(), "activity"));
    assert!(v.integration_enabled(read(), "browser-ads-identify"));
    assert!(v.integration_enabled(read(), "music-scrobbler"));
    assert_eq!(v.settings_path(), "/vaults/toggles/.trove/integrations.json");
}

#[test]
fn unknown_integrations_are_off_whatever_the_settings() {
    let s = IntegrationSettings { disabled: vec![], enabled: vec!["x".into(), "activity".into()] };
    assert!(!enabled_in(&s, "x"));
    assert!(enabled_in(&s, "browser-extension"));
    assert!(enabled_in(&s, "browser-ads"));
    assert!(!enabled_in(&IntegrationSettings::default(), "browser-ads-identify"));
}

#[test]
fn reading_skips_blank_lines_and_line_ends() {
    let v = Vault::open("/v".into());
    let body = "{\"a\":1}\n\n  \t\n{\"b\":2}\r\n\u{3000}\n{\"c\":3}";
    assert_eq!(
        v.read_day_jsonl(Some(body.into())),
        vec!["{\"a\":1}", "{\"b\":2}", "{\"c\":3}"]
    );
    assert!(v.read_day_jsonl(None).is_empty());
    assert!(v.read_day_jsonl(Some(String::new())).is_empty());
    assert_eq!(v.read_day_jsonl(Some("x\r".into())), vec!["x\r"]);
}

#[test]
fn heartbeat_round_trip_and_clear() {
    let v = Vault::open("/vaults/heartbeat".into());
    let mut files: HashMap<String, String> = HashMap::new();
    let read = |files: &HashMap<String, String>| -> Option<serde_json::Value> {
        files.get(&v.heartbeat_path()).and_then(|s| serde_json::from_str(s).ok())
    };
    assert!(read(&files).is_none());
    let w = v.write_heartbeat(&Heartbeat {
        pid: 42,
        role: "trove-collector".into(),
        updated: "2026-06-10T09:00:00-07:00".into(),
        current: None,
        rss_mb: Some(31),
    });
    files.insert(w.path, w.text);
    let h = read(&files).unwrap();
    assert_eq!(h["pid"], 42);
    assert_eq!(h["rss_mb"], 31);
    files.remove(&v.heartbeat_path());
    assert!(read(&files).is_none());
}

#[test]
fn heartbeats_are_byte_exact() {
    let v = Vault::open("/vaults/heartbeat".into());
    let h = Heartbeat {
        pid: 42,
        role: "trove-collector".into(),
        updated: "2026-06-10T09:00:00-07:00".into(),
        current: None,
        rss_mb: Some(31),
    };
    let w = v.write_heartbeat(&h);
    assert_eq!(w.path, "/vaults/heartbeat/.trove/watcher-state.json");
    assert_eq!(w.temp, "/vaults/heartbeat/.trove/watcher-state.json.tmp");
    assert_eq!(
        w.text,
        "{\"pid\":42,\"role\":\"trove-collector\",\"updated\":\"2026-06-10T09:00:00-07:00\",\
         \"current\":null,\"rss_mb\":31}"
    );
    let mut bare = h.clone();
    bare.rss_mb = None;
    assert!(!bare.to_json().contains("rss_mb"));
    let mut other = h.clone();
    other.role = "a\",\"updated\":\"b".into();
    assert_ne!(other.to_json(), h.to_json());
    let back: serde_json::Value = serde_json::from_str(&other.to_json()).unwrap();
    assert_eq!(back["role"], other.role.as_str());
    assert_eq!(back["updated"], h.updated.as_str());
}

#[test]
fn whole_files_are_written_beside_their_place() {
    let w = write_atomic("/a/b".into(), "body".into());
    assert_eq!(w.temp, "/a/b.tmp");
    assert_eq!(w.path, "/a/b");
    assert_eq!(w.text, "body");
}

#[test]
fn every_host_has_its_own_sidecar() {
    let v = Vault::open("/v".into());
    let w = v.write_browser_live("chrome", "7", vec![], 1_781_100_000);
    assert_eq!(w.path, "/v/.trove/live/browser-7.json");
    assert_eq!(w.temp, "/v/.trove/live/browser-7.json.tmp");
    assert_eq!(w.text, "{\"browser\":\"chrome\",\"updated\":1781100000,\"spans\":[]}");
    assert_ne!(v.live_path("7"), v.live_path("8"));
    assert_eq!(v.live_dir(), "/v/.trove/live");
    assert_eq!(v.lock_path(), "/v/.trove/watcher.lock");
    assert_eq!(
        [SETTINGS_FILE, STATE_FILE, LOCK_FILE, LIVE_DIR].map(|f| v.resolve(f).is_ok()),
        [true; 4]
    );
}
