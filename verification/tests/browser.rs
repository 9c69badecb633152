use chrono::{DateTime, Local, TimeZone};
use trove_collector::browser::{
    domain_of, native_host_manifest_path, ExtConfig, ExtSnapshot, TabInfo, TabTracker, EXTENSION_ID,
    NATIVE_HOST_NAME,
};
use trove_collector::moment::Moment;
use trove_collector::vault::Vault;

fn local(h: u32, m: u32, s: u32) -> DateTime<Local> {
    Local.with_ymd_and_hms(2026, 6, 10, h, m, s).unwrap()
}

fn at(h: u32, m: u32, s: u32) -> Moment {
    let t = local(h, m, s);
    Moment::new(t.timestamp(), t.timestamp_subsec_nanos(), t.offset().local_minus_utc()).unwrap()
}

fn tab(url: &str, title: &str) -> TabInfo {
    TabInfo { url: url.into(), title: title.into(), ..Default::default() }
}

fn fg(url: &str, title: &str) -> ExtSnapshot {
    ExtSnapshot {
        focused: true,
        active: Some(tab(url, title)),
        audible: vec![],
        ..Default::default()
    }
}

fn tracker() -> TabTracker {
    TabTracker::new("chrome", ExtConfig::default())
}

#[test]
fn foreground_span_extends_and_closes_on_url_change() {
    let mut t = tracker();
    assert!(t.tick(at(10, 0, 0), &fg("https://a.com/", "A")).is_empty());
    assert!(t.tick(at(10, 0, 5), &fg("https://a.com/", "A")).is_empty());
    let closed = t.tick(at(10, 0, 10), &fg("https://b.com/", "B"));
    assert_eq!(closed.len(), 1);
    let v = &closed[0];
    assert_eq!(v.url, "https://a.com/");
    assert_eq!(v.duration_secs, 10);
    assert_eq!(v.foreground_secs, 10);
    assert_eq!(v.source, "extension");
    assert!(!v.audible);
}

#[test]
fn background_audible_tab_tracks_without_foreground_time() {
    let mut t = tracker();
    let snap = ExtSnapshot {
        focused: true,
        active: Some(tab("https://docs.example/", "Doc")),
        audible: vec![tab("https://www.youtube.com/watch?v=x", "Song")],
        ..Default::default()
    };
    t.tick(at(12, 0, 0), &snap);
    t.tick(at(12, 0, 5), &snap);
    let closed = t.tick(at(12, 0, 10), &fg("https://docs.example/", "Doc"));
    assert_eq!(closed.len(), 1);
    assert!(closed[0].audible);
    assert_eq!(closed[0].duration_secs, 10);
    assert_eq!(closed[0].foreground_secs, 0);
}

#[test]
fn unfocused_active_tab_is_not_engaged() {
    let mut t = tracker();
    let snap = ExtSnapshot {
        focused: false,
        active: Some(tab("https://a.com/", "A")),
        audible: vec![],
        ..Default::default()
    };
    t.tick(at(8, 0, 0), &snap);
    t.tick(at(8, 0, 5), &snap);
    assert!(t.flush().is_empty());
}

#[test]
fn gap_closes_at_last_evidence_not_across_it() {
    let mut t = tracker();
    t.tick(at(10, 0, 0), &fg("https://a.com/", "A"));
    t.tick(at(10, 0, 5), &fg("https://a.com/", "A"));
    let closed = t.tick(at(10, 10, 5), &fg("https://a.com/", "A"));
    assert_eq!(closed.len(), 1);
    assert_eq!(closed[0].duration_secs, 5);
}

#[test]
fn live_reports_open_spans_without_closing_them() {
    let mut t = tracker();
    let snap = ExtSnapshot {
        focused: true,
        active: Some(tab("https://www.youtube.com/watch?v=x", "Video")),
        audible: vec![tab("https://www.youtube.com/watch?v=x", "Video")],
        ..Default::default()
    };
    for i in 0..=6 {
        assert!(t.tick(at(9, 0, i * 5), &snap).is_empty());
    }
    let live = t.live(at(9, 0, 30));
    assert_eq!(live.len(), 1);
    assert_eq!(live[0].duration_secs, 30);
    assert!(live[0].audible && live[0].foreground);
    assert!(t.tick(at(9, 0, 35), &snap).is_empty());
}

#[test]
fn domain_extraction() {
    assert_eq!(domain_of("https://www.Example.com/x?y"), "example.com");
    assert_eq!(domain_of("https://user@host.io:8080/"), "host.io");
    assert_eq!(domain_of("chrome://extensions"), "chrome");
    assert_eq!(domain_of(""), "other");
}

#[test]
fn domain_edges() {
    assert_eq!(domain_of("http://WWW.Example.com"), "www.example.com");
    assert_eq!(domain_of("https:///path"), "https");
    assert_eq!(domain_of("FILE:///etc"), "file");
    assert_eq!(domain_of("example.org/x"), "example.org");
    assert_eq!(domain_of("https://a.com?x=@b.com"), "a.com");
    assert_eq!(domain_of("https://ÄÖ.de/"), "äö.de");
}

/// False and zero extras are not written, and the field order is fixed.
#[test]
fn browser_append_writes_byte_identical_jsonl() {
    let v = Vault::open("/vaults/browser/".into());
    let mut t = tracker();
    let snap = ExtSnapshot {
        focused: true,
        tab_count: 9,
        active: Some(TabInfo {
            url: "https://a.com/".into(),
            title: "A".into(),
            favicon: "https://a.com/f.ico".into(),
            referrer: "https://google.com/".into(),
            transition: "link".into(),
        }),
        audible: vec![],
    };
    t.tick(at(10, 0, 0), &snap);
    t.tick(at(10, 0, 5), &snap);
    let closed = t.tick(at(10, 0, 10), &fg("https://b.com/", "B"));
    let plan = v.append_browser_visits(&closed).unwrap();
    assert_eq!(plan.len(), 1);
    assert_eq!(plan[0].path, "/vaults/browser/browser/2026-06-10.jsonl");
    assert_eq!(plan[0].rel, "browser/2026-06-10.jsonl");
    assert!(plan[0].flock);
    let s = local(10, 0, 0).to_rfc3339();
    assert_eq!(
        plan[0].text,
        format!(
            "{{\"time\":\"{s}\",\"url\":\"https://a.com/\",\"title\":\"A\",\"browser\":\"chrome\",\
             \"profile\":\"\",\"duration_secs\":10,\"source\":\"extension\",\"foreground_secs\":10,\
             \"favicon\":\"https://a.com/f.ico\",\"referrer\":\"https://google.com/\",\
             \"transition\":\"link\",\"tab_count\":9}}\n"
        )
    );
}

#[test]
fn a_url_has_one_span_however_often_it_is_shown() {
    let mut t = tracker();
    let snap = ExtSnapshot {
        focused: true,
        active: Some(tab("https://a.com/", "A")),
        audible: vec![tab("https://a.com/", "A2"), tab("https://a.com/", "A3"), tab("", "none")],
        ..Default::default()
    };
    t.tick(at(10, 0, 0), &snap);
    t.tick(at(10, 0, 5), &snap);
    let live = t.live(at(10, 0, 5));
    assert_eq!(live.len(), 1);
    assert_eq!(live[0].foreground_secs, 5);
    let rows = t.flush();
    assert_eq!(rows.len(), 1);
    assert!(rows[0].audible);
    assert!(t.flush().is_empty());
}

#[test]
fn a_clock_set_back_is_a_gap() {
    let mut t = tracker();
    t.tick(at(10, 0, 0), &fg("https://a.com/", "A"));
    t.tick(at(10, 0, 5), &fg("https://a.com/", "A"));
    let closed = t.tick(at(9, 0, 0), &fg("https://a.com/", "A"));
    assert_eq!(closed.len(), 1);
    assert_eq!(closed[0].duration_secs, 5);
}

#[test]
fn manifest_path_is_the_browsers() {
    assert_eq!(NATIVE_HOST_NAME, "com.davidwills.trove");
    assert_eq!(EXTENSION_ID.len(), 32);
    assert_eq!(
        native_host_manifest_path("/Users/a"),
        "/Users/a/Library/Application Support/Google/Chrome/NativeMessagingHosts/com.davidwills.trove.json"
    );
}
