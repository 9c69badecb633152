use chrono::{DateTime, Local, TimeZone};
use trove_collector::ads::{
    html_unescape, network_of, parse_identity, registrable_of, why_token, AdBatch, AdEvent,
    AdIdentity, CachedIdentity, MAX_RESOLVE_PER_BATCH,
};
use trove_collector::moment::Moment;
use trove_collector::vault::Vault;

fn ms(d: u32, h: u32, m: u32) -> i64 {
    Local.with_ymd_and_hms(2026, 6, d, h, m, 0).unwrap().timestamp_millis()
}

fn event(d: u32, h: u32, frame: &str, landing: &str, viewed_ms: i64, viewed_json: &str) -> AdEvent {
    AdEvent {
        ts_ms: ms(d, h, 0),
        end_ms: ms(d, h, 2),
        page_url: "https://example.com/article".into(),
        frame_url: frame.into(),
        landing_url: landing.into(),
        slot: String::new(),
        viewed_ms,
        viewed_json: viewed_json.into(),
        viewable: viewed_ms >= 1000,
        w: 300,
        h: 250,
        why_url: String::new(),
    }
}

fn moment(t: DateTime<Local>) -> Moment {
    Moment::new(t.timestamp(), t.timestamp_subsec_nanos(), t.offset().local_minus_utc()).unwrap()
}

fn received() -> Moment {
    moment(Local.with_ymd_and_hms(2026, 6, 12, 0, 0, 0).unwrap())
}

fn ident(name: &str, ad_id: &str) -> AdIdentity {
    AdIdentity { name: name.into(), ad_id: ad_id.into() }
}

const WHY: &str = "https://adssettings.google.com/whythisad?source=display&reasons=";

#[test]
fn registrable_reduction() {
    assert_eq!(registrable_of("https://googleads.g.doubleclick.net/pagead/x"), "doubleclick.net");
    assert_eq!(registrable_of("https://shop.example.co.uk/p"), "example.co.uk");
    assert_eq!(registrable_of("about:blank"), "");
}

#[test]
fn registrable_edges() {
    assert_eq!(registrable_of("https://example.com/"), "example.com");
    assert_eq!(registrable_of("https://co.uk/"), "co.uk");
    assert_eq!(registrable_of("https://a.b.shop.com.au/"), "shop.com.au");
    assert_eq!(registrable_of("https://localhost/"), "");
    assert_eq!(registrable_of(""), "");
}

#[test]
fn network_falls_back_to_slot() {
    assert_eq!(network_of("", "google_ads_iframe"), "google");
    assert_eq!(network_of("", ""), "unknown");
}

#[test]
fn network_prefers_the_frame() {
    assert_eq!(network_of("https://ads.example.com/x", "aswift_1"), "example.com");
    assert_eq!(network_of("about:blank", "aswift_1"), "google");
    assert_eq!(network_of("", "div-gpt-ad-7"), "google");
    assert_eq!(network_of("", "my-aswift_1"), "unknown");
}

/// The lines that the app's ads reader expects.
#[test]
fn ads_append_writes_byte_identical_jsonl() {
    let v = Vault::open("/vaults/ads-parity".into());
    let full = event(
        10,
        9,
        "https://googleads.g.doubleclick.net/x",
        "https://www.advertiser.com/promo",
        12_500,
        "12.5",
    );
    let bare = event(10, 9, "", "", 0, "0.0");
    let mut raw = String::new();
    for events in [vec![full, bare.clone()], vec![bare]] {
        let mut batch = AdBatch::new(events, received(), vec![], false);
        assert!(batch.next_fetch().is_none());
        assert!(batch.new_cache().is_none());
        let plan = v.ingest_ad_events(&batch).unwrap();
        assert_eq!(plan.len(), 1);
        assert_eq!(plan[0].path, "/vaults/ads-parity/browser/ads/2026-06-10.jsonl");
        assert!(plan[0].flock);
        raw.push_str(&plan[0].text);
    }

    let ts = Local.with_ymd_and_hms(2026, 6, 10, 9, 0, 0).unwrap().to_rfc3339();
    let end = Local.with_ymd_and_hms(2026, 6, 10, 9, 2, 0).unwrap().to_rfc3339();
    let full_line = format!(
        "{{\"ts\":\"{ts}\",\"end\":\"{end}\",\"page_url\":\"https://example.com/article\",\
         \"frame_url\":\"https://googleads.g.doubleclick.net/x\",\
         \"landing_url\":\"https://www.advertiser.com/promo\",\
         \"network\":\"doubleclick.net\",\"advertiser\":\"advertiser.com\",\
         \"viewed_secs\":12.5,\"viewable\":true,\"w\":300,\"h\":250,\"source\":\"extension\"}}"
    );
    let bare_line = format!(
        "{{\"ts\":\"{ts}\",\"end\":\"{end}\",\"page_url\":\"https://example.com/article\",\
         \"network\":\"unknown\",\"w\":300,\"h\":250,\"source\":\"extension\"}}"
    );
    assert_eq!(raw, format!("{full_line}\n{bare_line}\n{bare_line}\n"));
}

#[test]
fn timestamps_are_sanity_bounded() {
    let v = Vault::open("/vaults/ads-bounds".into());
    let mut e = event(10, 9, "https://googleads.g.doubleclick.net/x", "", 9_999_000, "9999.0");
    e.end_ms = ms(13, 9, 0);
    let batch = AdBatch::new(vec![e], received(), vec![], false);
    let plan = v.ingest_ad_events(&batch).unwrap();
    assert_eq!(plan.len(), 1);
    assert_eq!(plan[0].rel, "browser/ads/2026-06-12.jsonl");
    let rows = v.read_day_jsonl(Some(plan[0].text.clone()));
    assert_eq!(rows.len(), 1);
}

#[test]
fn records_at_fixed_offsets_are_exact() {
    let received = Moment::new(1_781_107_200, 0, 0).unwrap();
    let mut e = event(10, 9, "", "", 250_001, "250.0005");
    e.ts_ms = 1_781_100_000_000;
    e.end_ms = 1_781_100_250_000;
    let r = e.into_record_at(received, -25_200, -25_200);
    assert_eq!(r.ts, "2026-06-10T07:00:00-07:00");
    assert_eq!(r.end, "2026-06-10T07:04:10-07:00");
    assert_eq!(r.viewed_json, "250.0", "never more than the span");
    assert_eq!(r.source, "extension");
    e.viewed_ms = 249_123;
    e.viewed_json = "249.1225".into();
    assert_eq!(e.into_record_at(received, 0, 0).viewed_json, "249.1225");
    e.viewed_ms = -5;
    assert_eq!(e.into_record_at(received, 0, 0).viewed_json, "");
    // Beyond the calendar the record falls back to the time of arrival.
    e.end_ms = i64::MAX;
    e.ts_ms = i64::MIN;
    let r = e.into_record_at(received, 0, 0);
    assert_eq!(r.end, "2026-06-10T16:00:00+00:00");
    assert_eq!(r.ts, r.end);
    // A record that begins after its end begins at its end.
    e.end_ms = 1_781_100_000_500;
    e.ts_ms = 1_781_100_001_000;
    let r = e.into_record_at(received, 0, 3600);
    assert_eq!(r.end, "2026-06-10T14:00:00.500+00:00");
    assert_eq!(r.ts, r.end);
}

#[test]
fn identity_is_read_off_the_page() {
    let html = "<p>Paid for by  Hearts &amp; Science LLC <br><a href=\"https://adstransparency.google.com/advertiser/AR04055566952792326145?x=1\">";
    let id = parse_identity(html).expect("names a payer");
    assert_eq!(id.name, "Hearts & Science LLC");
    assert_eq!(id.ad_id, "AR04055566952792326145");
    assert!(parse_identity("<html><body>About this ad</body></html>").is_none());
    assert!(parse_identity("Paid for by   <").is_none());
    assert!(parse_identity("Paid for by somebody").is_none());
    let id = parse_identity(
        "Paid for by A<a href=\"https://adstransparency.google.com/advertiser/AR12\">",
    )
    .unwrap();
    assert_eq!(id.ad_id, "AR12");
    let id = parse_identity(
        "Paid for by A<a href=\"https://adstransparency.google.com/advertiser/XR12?\">",
    )
    .unwrap();
    assert_eq!(id.ad_id, "");
}

#[test]
fn resolve_overlays_cached_identity_without_network() {
    let v = Vault::open("/vaults/ads-resolve".into());
    assert_eq!(v.identity_cache_path(), "/vaults/ads-resolve/browser/ads/.identities.json");
    let cache = vec![CachedIdentity {
        token: "TOK42".into(),
        identity: ident("Hearts & Science LLC", "AR0405"),
    }];
    let mut e = event(10, 9, "https://googleads.g.doubleclick.net/x", "", 2000, "2.0");
    e.why_url = format!("{WHY}TOK42");
    let mut batch = AdBatch::new(vec![e], received(), cache, true);
    assert!(batch.next_fetch().is_none());
    assert!(batch.new_cache().is_none());
    let plan = v.ingest_ad_events(&batch).unwrap();
    assert_eq!(plan[0].day, "2026-06-10");
    let row: serde_json::Value = serde_json::from_str(plan[0].text.trim_end()).unwrap();
    assert_eq!(row["advertiser"], "Hearts & Science LLC");
    assert_eq!(row["advertiser_id"], "AR0405");
    assert_eq!(why_token("https://x/whythisad?source=display&reasons=ABC&x=1"), "ABC");
}

#[test]
fn tokens_fall_back_to_the_url() {
    assert_eq!(why_token("https://x/?reasons=&y=1"), "https://x/?reasons=&y=1");
    assert_eq!(why_token("https://x/"), "https://x/");
    assert_eq!(why_token("https://x/?reasons=Z"), "Z");
}

#[test]
fn a_page_is_fetched_once_and_a_landing_advertiser_kept() {
    let v = Vault::open("/v".into());
    let mut a = event(10, 9, "", "", 0, "0.0");
    a.why_url = format!("{WHY}A");
    let mut b = event(10, 9, "", "https://shop.example/", 0, "0.0");
    b.why_url = format!("{WHY}B");
    let c = a.clone();
    let mut d = event(10, 9, "", "", 0, "0.0");
    d.why_url = format!("{WHY}D");
    let mut batch = AdBatch::new(vec![a, b, c, d], received(), vec![], true);
    assert_eq!(batch.next_fetch().as_deref(), Some(&*format!("{WHY}A")));
    batch.answer(Some(ident("Payer", "AR1")));
    assert_eq!(batch.next_fetch().as_deref(), Some(&*format!("{WHY}D")));
    batch.answer(None);
    assert!(batch.next_fetch().is_none());
    let cache = batch.new_cache().unwrap();
    assert_eq!(cache.len(), 2);
    assert_eq!(cache[1].token, "D");
    assert_eq!(cache[1].identity.name, "");
    let plan = v.ingest_ad_events(&batch).unwrap();
    let rows = v.read_day_jsonl(Some(plan[0].text.clone()));
    assert!(rows[0].contains("\"advertiser\":\"Payer\",\"advertiser_id\":\"AR1\""));
    assert!(rows[1].contains("\"advertiser\":\"shop.example\""));
    assert!(rows[2].contains("\"advertiser\":\"Payer\""));
    assert!(!rows[3].contains("advertiser"));
}

#[test]
fn fetches_are_capped() {
    let mut events = Vec::new();
    for i in 0..30 {
        let mut e = event(10, 9, "", "", 0, "0.0");
        e.why_url = format!("{WHY}T{i}");
        events.push(e);
    }
    let mut batch = AdBatch::new(events, received(), vec![], true);
    let mut fetched = 0;
    while batch.next_fetch().is_some() {
        fetched += 1;
        batch.answer(None);
    }
    assert_eq!(fetched, MAX_RESOLVE_PER_BATCH);
}

#[test]
fn escapes_are_undone_in_turn() {
    assert_eq!(html_unescape("a &lt;b&gt; &quot;c&quot; &#39;d&#x27;"), "a <b> \"c\" 'd'");
    assert_eq!(html_unescape("&amp;lt;"), "<");
    assert_eq!(html_unescape("plain"), "plain");
}

#[test]
fn a_field_left_out_is_not_made_up_for() {
    let received = Moment::new(1_781_107_200, 0, 0).unwrap();
    let mut e = event(10, 9, "", "", 0, "0.0");
    e.w = 0;
    let a = e.into_record_at(received, 0, 0).to_line();
    e.h = 0;
    e.w = 250;
    let b = e.into_record_at(received, 0, 0).to_line();
    assert!(a.contains("\"h\":250") && !a.contains("\"w\""));
    assert!(b.contains("\"w\":250") && !b.contains("\"h\""));
    assert_ne!(a, b);
}
