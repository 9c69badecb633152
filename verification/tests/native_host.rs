use chrono::{DateTime, Local};
use trove_collector::ads::AdEvent;
use trove_collector::browser::{ExtSnapshot, TabInfo};
use trove_collector::moment::Moment;
use trove_collector::native_host::{
    admitted, ads_batch, frame_length, read_body, read_frame, FrameError, Host, HostMessage,
    LiveAction, Wire, MAX_FRAME_BYTES,
};
use trove_collector::vault::{IntegrationSettings, Vault};

fn moment(t: DateTime<Local>) -> Moment {
    Moment::new(t.timestamp(), t.timestamp_subsec_nanos(), t.offset().local_minus_utc()).unwrap()
}

fn frame(json: &str) -> Vec<u8> {
    let mut out = (json.len() as u32).to_ne_bytes().to_vec();
    out.extend_from_slice(json.as_bytes());
    out
}

fn ads_json(end_ms: i64) -> String {
    format!(
        r#"{{"type":"ads","events":[{{"ts_ms":{},"end_ms":{end_ms},
            "page_url":"https://example.com/","frame_url":"https://googleads.g.doubleclick.net/x",
            "viewed_secs":3.5,"viewable":true,"w":300,"h":250}}]}}"#,
        end_ms - 60_000
    )
}

fn text(v: &serde_json::Value) -> String {
    v.as_str().unwrap_or("").to_string()
}

/// What the extension's messages of these tests say.
fn parse(frame: &[u8]) -> Option<HostMessage> {
    let v: serde_json::Value = serde_json::from_slice(frame).ok()?;
    match v["type"].as_str()? {
        "snapshot" => Some(HostMessage::Snapshot(ExtSnapshot {
            focused: v["focused"].as_bool()?,
            active: None,
            audible: vec![],
            tab_count: v["tab_count"].as_u64()? as u32,
        })),
        "ads" => Some(HostMessage::Ads {
            events: v["events"]
                .as_array()?
                .iter()
                .map(|e| AdEvent {
                    ts_ms: e["ts_ms"].as_i64().unwrap(),
                    end_ms: e["end_ms"].as_i64().unwrap(),
                    page_url: text(&e["page_url"]),
                    frame_url: text(&e["frame_url"]),
                    landing_url: text(&e["landing_url"]),
                    slot: text(&e["slot"]),
                    viewed_ms: (e["viewed_secs"].as_f64().unwrap() * 1000.0) as i64,
                    viewed_json: e["viewed_secs"].to_string(),
                    viewable: e["viewable"].as_bool().unwrap(),
                    w: e["w"].as_u64().unwrap() as u32,
                    h: e["h"].as_u64().unwrap() as u32,
                    why_url: text(&e["why_url"]),
                })
                .collect(),
        }),
        _ => None,
    }
}

/// Serve all messages; returns the lines of the ads stream and whether a
/// sidecar was written.
fn serve(v: &Vault, settings: Option<IntegrationSettings>, wire: Vec<u8>) -> (Vec<String>, bool) {
    let mut host = Host::new("test".into());
    let mut wire = Wire { bytes: wire, at: 0 };
    let mut ads = Vec::new();
    let mut live = false;
    while let Some(frame) = read_frame(&mut wire).unwrap() {
        let now = moment(Local::now());
        match parse(&frame) {
            Some(HostMessage::Snapshot(snap)) => {
                let action = host.snapshot(v, settings.clone(), snap, 0, now, 1);
                assert!(action.append.is_none());
                live = live || matches!(action.live, LiveAction::Write(_));
            }
            Some(HostMessage::Ads { events }) => {
                if let Some(mut batch) = ads_batch(v, settings.clone(), events, now, vec![]) {
                    assert!(batch.next_fetch().is_none());
                    for append in v.ingest_ad_events(&batch).unwrap() {
                        ads.extend(v.read_day_jsonl(Some(append.text)));
                    }
                }
            }
            None => {}
        }
    }
    (ads, live)
}

#[test]
fn serve_dispatches_mixed_messages() {
    let v = Vault::open("/vaults/host-dispatch".into());
    let end_ms = Local::now().timestamp_millis() - 5_000;
    let mut wire = Vec::new();
    wire.extend(frame(r#"{"type":"snapshot","focused":false,"tab_count":3,"active":null,"audible":[]}"#));
    wire.extend(frame(&ads_json(end_ms)));
    wire.extend(frame(r#"{"type":"telepathy","payload":1}"#));
    wire.extend(frame(r#"not json at all"#));
    wire.extend(frame(&ads_json(end_ms + 1_000)));
    let (ads, live) = serve(&v, None, wire);
    assert_eq!(ads.len(), 2, "both ads batches landed despite junk between them");
    let first: serde_json::Value = serde_json::from_str(&ads[0]).unwrap();
    assert_eq!(first["network"], "doubleclick.net");
    assert_eq!(first["viewed_secs"], 3.5);
    assert!(live);
}

#[test]
fn ads_respect_their_own_hub_gate() {
    let v = Vault::open("/vaults/host-gate".into());
    let off = IntegrationSettings { disabled: vec!["browser-ads".into()], enabled: vec![] };
    let wire = frame(&ads_json(Local::now().timestamp_millis()));
    assert!(serve(&v, Some(off), wire).0.is_empty());
    assert!(ads_batch(&v, None, vec![], moment(Local::now()), vec![]).is_none());
}

#[test]
fn frame_round_trip_and_eof() {
    let body = br#"{"focused":true}"#;
    let mut wire = (body.len() as u32).to_ne_bytes().to_vec();
    wire.extend_from_slice(body);
    let mut r = Wire { bytes: wire, at: 0 };
    assert_eq!(read_frame(&mut r).unwrap().as_deref(), Some(&body[..]));
    assert!(read_frame(&mut r).unwrap().is_none(), "clean EOF");
}

#[test]
fn oversized_frame_is_rejected() {
    let mut r = Wire { bytes: (u32::MAX).to_ne_bytes().to_vec(), at: 0 };
    assert!(read_frame(&mut r).is_err());
}

#[test]
fn frames_that_cannot_be_read() {
    let mut r = Wire { bytes: (u32::MAX).to_ne_bytes().to_vec(), at: 0 };
    assert_eq!(read_frame(&mut r), Err(FrameError::Oversized { bytes: u32::MAX }));
    let mut cut = frame("abc");
    cut.pop();
    let mut r = Wire { bytes: cut, at: 0 };
    assert_eq!(read_frame(&mut r), Err(FrameError::Truncated));
    for n in 1..4 {
        let mut r = Wire { bytes: vec![0; n], at: 0 };
        assert_eq!(read_frame(&mut r), Err(FrameError::Truncated), "the input ends in a prefix");
        assert_eq!(r.at, n);
        assert_eq!(frame_length(&vec![0; n]), Err(FrameError::Truncated));
    }
    let mut r = Wire { bytes: vec![], at: 0 };
    assert_eq!(read_frame(&mut r), Ok(None), "clean EOF");
    assert_eq!(r.at, 0);
    assert_eq!(admitted(MAX_FRAME_BYTES), Ok(Some(1_048_576)));
    assert_eq!(admitted(1_048_577), Err(FrameError::Oversized { bytes: 1_048_577 }));
    assert_eq!(frame_length(&vec![]), Ok(None));
    assert_eq!(frame_length(&258u32.to_ne_bytes().to_vec()), Ok(Some(258)));
    let mut r = Wire { bytes: vec![9, 9, 9, 9, 1, 2, 3], at: 0 };
    assert_eq!(read_body(&mut r, 2), Ok(Some(vec![1, 2])));
    assert_eq!(r.at, 6);
}

fn snapshot(url: &str) -> ExtSnapshot {
    ExtSnapshot {
        focused: true,
        active: Some(TabInfo { url: url.into(), title: "T".into(), ..Default::default() }),
        audible: vec![],
        tab_count: 1,
    }
}

#[test]
fn an_idle_machine_has_no_focus() {
    let v = Vault::open("/v".into());
    let mut host = Host::new("9".into());
    let t0 = Moment::new(1_781_100_000, 0, 0).unwrap();
    let t5 = Moment::new(1_781_100_005, 0, 0).unwrap();
    let t10 = Moment::new(1_781_100_010, 0, 0).unwrap();
    let a = host.snapshot(&v, None, snapshot("https://a.com/"), 119_999, t0, 7);
    assert!(a.append.is_none());
    match a.live {
        LiveAction::Write(w) => {
            assert_eq!(w.path, "/v/.trove/live/browser-9.json");
            assert!(w.text.contains("https://a.com/"));
        }
        other => panic!("{other:?}"),
    }
    host.snapshot(&v, None, snapshot("https://a.com/"), 0, t5, 8);
    let a = host.snapshot(&v, None, snapshot("https://a.com/"), 120_000, t10, 9);
    let plan = a.append.unwrap().unwrap();
    assert_eq!(plan[0].rel, "browser/2026-06-10.jsonl");
    assert!(plan[0].text.contains("\"duration_secs\":10"));
}

#[test]
fn turning_the_extension_off_closes_out_and_clears() {
    let v = Vault::open("/v".into());
    let mut host = Host::new("9".into());
    let t0 = Moment::new(1_781_100_000, 0, 0).unwrap();
    let t5 = Moment::new(1_781_100_005, 0, 0).unwrap();
    host.snapshot(&v, None, snapshot("https://a.com/"), 0, t0, 7);
    host.snapshot(&v, None, snapshot("https://a.com/"), 0, t5, 7);
    let off = IntegrationSettings { disabled: vec!["browser-extension".into()], enabled: vec![] };
    let a = host.snapshot(&v, Some(off), snapshot("https://a.com/"), 0, t5, 8);
    assert_eq!(a.append.unwrap().unwrap().len(), 1);
    match a.live {
        LiveAction::Clear { path } => assert_eq!(path, "/v/.trove/live/browser-9.json"),
        other => panic!("{other:?}"),
    }
    assert!(host.close(&v).append.is_none());
}

#[test]
fn audible_tabs_count_on_an_idle_machine() {
    let v = Vault::open("/v".into());
    let mut host = Host::new("9".into());
    let t0 = Moment::new(1_781_100_000, 0, 0).unwrap();
    let mut snap = snapshot("https://a.com/");
    snap.audible = vec![TabInfo { url: "https://song/".into(), ..Default::default() }];
    let a = host.snapshot(&v, None, snap, 500_000, t0, 7);
    match a.live {
        LiveAction::Write(w) => {
            assert!(w.text.contains("https://song/"));
            assert!(!w.text.contains("https://a.com/"));
        }
        other => panic!("{other:?}"),
    }
}
