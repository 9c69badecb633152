//! Browser watcher: folds the extension's snapshots into spans.
//!
//! A URL has an open span while it is *engaged*: the active tab of the focused
//! browser window, or audible in any tab. `duration_secs` is the engaged wall
//! time, `foreground_secs` the part spent as the focused active tab, and
//! `audible` marks spans that played audio at any point.
//!
//! A silence longer than [`ExtConfig::gap_secs`] between two snapshots closes
//! every open span at its last evidence instead of stretching it.

use crate::json::{
    push_flag_field, push_kept_flag_field, push_kept_number_field, push_kept_text_field,
    push_number_field, push_raw, push_text_field,
};
use crate::moment::Moment;
use crate::text::{
    before_any, chars_of, find, lowercase, owned, past_last, same_text, strip_prefix, text_of,
};
use crate::vault::{join, DayAppend, DayRow, RowView, Vault, VaultError};
use crate::{json, moment, text, vault};
use vstd::prelude::*;

verus! {

/// Name of the native messaging host: the stem of its manifest's file name, and
/// what the extension connects to.
pub const NATIVE_HOST_NAME: &'static str = "com.davidwills.trove";

/// The extension's stable id, which the host's manifest has to list.
pub const EXTENSION_ID: &'static str = "inhhdcdmfoiodfkipnheoiejdegipgpb";

/// Where the browser looks up the host's manifest, below the home folder.
pub fn native_host_manifest_path(home: &str) -> (r: String)
    ensures
        r@ == vault::joined(
            vault::joined(
                home@,
                "Library/Application Support/Google/Chrome/NativeMessagingHosts"@,
            ),
            NATIVE_HOST_NAME@ + ".json"@,
        ),
{
    let dir = join(home, "Library/Application Support/Google/Chrome/NativeMessagingHosts");
    let mut name = owned(NATIVE_HOST_NAME);
    name.append(".json");
    join(dir.as_str(), name.as_str())
}

/// Seconds between extension snapshots (the extension's own cadence).
pub const EXT_SNAPSHOT_SECS: u64 = 5;

/// One visit row of the `browser/` stream.
#[derive(Debug, Clone)]
pub struct BrowserVisit {
    /// RFC 3339 local time, e.g. "2026-06-10T14:03:01-07:00".
    pub time: String,
    pub url: String,
    pub title: String,
    /// "chrome" for the one browser that is watched.
    pub browser: String,
    pub profile: String,
    /// Engaged wall seconds.
    pub duration_secs: u64,
    /// Provenance: "extension" for the rows made here.
    pub source: String,
    /// The tab played audio at some point in the span.
    pub audible: bool,
    /// Seconds spent as the active tab of the focused window.
    pub foreground_secs: u64,
    pub favicon: String,
    pub referrer: String,
    pub transition: String,
    pub tab_count: u32,
}

/// One tab as the extension reports it.
#[derive(Debug, Clone, Default, PartialEq)]
pub struct TabInfo {
    pub url: String,
    pub title: String,
    pub favicon: String,
    pub referrer: String,
    pub transition: String,
}

/// One browser snapshot from the extension: who is engaged right now.
#[derive(Debug, Clone, Default)]
pub struct ExtSnapshot {
    pub focused: bool,
    pub active: Option<TabInfo>,
    pub audible: Vec<TabInfo>,
    pub tab_count: u32,
}

/// One currently open span, published for the "watching now" view.
#[derive(Debug, Clone, PartialEq)]
pub struct LiveSpan {
    pub url: String,
    pub title: String,
    pub favicon: String,
    pub duration_secs: u64,
    pub foreground_secs: u64,
    pub audible: bool,
    pub foreground: bool,
}

/// A live sidecar: one host's open spans and when it last wrote.
#[derive(Debug, Clone)]
pub struct LiveState {
    pub browser: String,
    /// Unix seconds when the host wrote this.
    pub updated: u64,
    pub spans: Vec<LiveSpan>,
}

/// Tracker tuning.
#[derive(Debug, Clone, Copy)]
pub struct ExtConfig {
    /// A silence longer than this between snapshots is a gap.
    pub gap_secs: i64,
    /// Spans shorter than this are jitter and dropped.
    pub min_span_secs: i64,
}

/// An open span. One URL has at most one.
struct OpenSpan {
    url: String,
    start: Moment,
    last_seen: Moment,
    title: String,
    favicon: String,
    referrer: String,
    transition: String,
    tab_count: u32,
    foreground_secs: i64,
    /// Was this the focused active tab at the previous snapshot? The time
    /// since is billed to that state.
    fg_last: bool,
    audible_any: bool,
}

/// One engaged URL of a snapshot.
struct Engaged {
    url: String,
    title: String,
    favicon: String,
    referrer: String,
    transition: String,
    fg: bool,
    audible: bool,
}

/// The snapshot-to-span state machine.
pub struct TabTracker {
    config: ExtConfig,
    browser: String,
    spans: Vec<OpenSpan>,
    last_tick: Option<Moment>,
}

// ── the model ───────────────────────────────────────────────────────────────

#[verifier::ext_equal]
pub struct VisitView {
    pub time: Seq<char>,
    pub url: Seq<char>,
    pub title: Seq<char>,
    pub browser: Seq<char>,
    pub profile: Seq<char>,
    pub duration_secs: int,
    pub source: Seq<char>,
    pub audible: bool,
    pub foreground_secs: int,
    pub favicon: Seq<char>,
    pub referrer: Seq<char>,
    pub transition: Seq<char>,
    pub tab_count: u32,
}

#[verifier::ext_equal]
pub struct TabView {
    pub url: Seq<char>,
    pub title: Seq<char>,
    pub favicon: Seq<char>,
    pub referrer: Seq<char>,
    pub transition: Seq<char>,
}

#[verifier::ext_equal]
pub struct SnapshotView {
    pub focused: bool,
    pub active: Option<TabView>,
    pub audible: Seq<TabView>,
    pub tab_count: u32,
}

#[verifier::ext_equal]
pub struct LiveSpanView {
    pub url: Seq<char>,
    pub title: Seq<char>,
    pub favicon: Seq<char>,
    pub duration_secs: int,
    pub foreground_secs: int,
    pub audible: bool,
    pub foreground: bool,
}

#[verifier::ext_equal]
pub struct EngagedView {
    pub url: Seq<char>,
    pub title: Seq<char>,
    pub favicon: Seq<char>,
    pub referrer: Seq<char>,
    pub transition: Seq<char>,
    pub fg: bool,
    pub audible: bool,
}

#[verifier::ext_equal]
pub struct SpanView {
    pub url: Seq<char>,
    pub start: Moment,
    pub last_seen: Moment,
    pub title: Seq<char>,
    pub favicon: Seq<char>,
    pub referrer: Seq<char>,
    pub transition: Seq<char>,
    pub tab_count: u32,
    pub foreground_secs: int,
    pub fg_last: bool,
    pub audible_any: bool,
}

#[verifier::ext_equal]
pub struct TrackerView {
    pub config: ExtConfig,
    pub browser: Seq<char>,
    pub spans: Seq<SpanView>,
    pub last_tick: Option<Moment>,
}

impl View for BrowserVisit {
    type V = VisitView;

    open spec fn view(&self) -> VisitView {
        VisitView {
            time: self.time@,
            url: self.url@,
            title: self.title@,
            browser: self.browser@,
            profile: self.profile@,
            duration_secs: self.duration_secs as int,
            source: self.source@,
            audible: self.audible,
            foreground_secs: self.foreground_secs as int,
            favicon: self.favicon@,
            referrer: self.referrer@,
            transition: self.transition@,
            tab_count: self.tab_count,
        }
    }
}

impl View for TabInfo {
    type V = TabView;

    open spec fn view(&self) -> TabView {
        TabView {
            url: self.url@,
            title: self.title@,
            favicon: self.favicon@,
            referrer: self.referrer@,
            transition: self.transition@,
        }
    }
}

impl View for ExtSnapshot {
    type V = SnapshotView;

    open spec fn view(&self) -> SnapshotView {
        SnapshotView {
            focused: self.focused,
            active: match self.active {
                Some(t) => Some(t@),
                None => None,
            },
            audible: tab_views(self.audible@),
            tab_count: self.tab_count,
        }
    }
}

impl View for LiveSpan {
    type V = LiveSpanView;

    open spec fn view(&self) -> LiveSpanView {
        LiveSpanView {
            url: self.url@,
            title: self.title@,
            favicon: self.favicon@,
            duration_secs: self.duration_secs as int,
            foreground_secs: self.foreground_secs as int,
            audible: self.audible,
            foreground: self.foreground,
        }
    }
}

impl View for Engaged {
    type V = EngagedView;

    closed spec fn view(&self) -> EngagedView {
        EngagedView {
            url: self.url@,
            title: self.title@,
            favicon: self.favicon@,
            referrer: self.referrer@,
            transition: self.transition@,
            fg: self.fg,
            audible: self.audible,
        }
    }
}

impl View for OpenSpan {
    type V = SpanView;

    closed spec fn view(&self) -> SpanView {
        SpanView {
            url: self.url@,
            start: self.start,
            last_seen: self.last_seen,
            title: self.title@,
            favicon: self.favicon@,
            referrer: self.referrer@,
            transition: self.transition@,
            tab_count: self.tab_count,
            foreground_secs: self.foreground_secs as int,
            fg_last: self.fg_last,
            audible_any: self.audible_any,
        }
    }
}

impl View for TabTracker {
    type V = TrackerView;

    closed spec fn view(&self) -> TrackerView {
        TrackerView {
            config: self.config,
            browser: self.browser@,
            spans: span_views(self.spans@),
            last_tick: self.last_tick,
        }
    }
}

pub open spec fn tab_views(s: Seq<TabInfo>) -> Seq<TabView> {
    s.map_values(|t: TabInfo| t@)
}

pub open spec fn visit_views(s: Seq<BrowserVisit>) -> Seq<VisitView> {
    s.map_values(|v: BrowserVisit| v@)
}

pub open spec fn live_views(s: Seq<LiveSpan>) -> Seq<LiveSpanView> {
    s.map_values(|v: LiveSpan| v@)
}

spec fn span_views(s: Seq<OpenSpan>) -> Seq<SpanView> {
    s.map_values(|v: OpenSpan| v@)
}

spec fn engaged_views(s: Seq<Engaged>) -> Seq<EngagedView> {
    s.map_values(|v: Engaged| v@)
}

impl ExtConfig {
    /// A span is never asked to be shorter than nothing.
    pub open spec fn valid(self) -> bool {
        self.min_span_secs >= 0
    }
}

impl TrackerView {
    /// What holds between two snapshots: no URL has two spans, none is empty,
    /// and the last evidence of every open span is the last snapshot.
    pub open spec fn valid(self) -> bool {
        &&& self.config.valid()
        &&& self.last_tick matches Some(t) ==> t.valid()
        &&& forall|i: int| 0 <= i < self.spans.len() ==> #[trigger] span_valid(self.spans[i])
        &&& forall|i: int|
            0 <= i < self.spans.len() ==> Some((#[trigger] self.spans[i]).last_seen)
                == self.last_tick
        &&& distinct_urls(self.spans)
    }
}

pub open spec fn span_valid(s: SpanView) -> bool {
    s.start.valid() && s.last_seen.valid() && s.url.len() > 0 && 0 <= s.foreground_secs <= i64::MAX
}

/// The spans began in years of four digits.
pub open spec fn starts_dated(spans: Seq<SpanView>) -> bool {
    forall|i: int| 0 <= i < spans.len() ==> (#[trigger] spans[i]).start.four_digit_year()
}

/// The visits name the days they started on.
pub open spec fn all_dated(visits: Seq<BrowserVisit>) -> bool {
    forall|i: int| 0 <= i < visits.len() ==> moment::has_date_prefix((#[trigger] visits[i]).time@)
}

pub open spec fn distinct_urls(spans: Seq<SpanView>) -> bool {
    forall|i: int, j: int|
        0 <= i < j < spans.len() ==> (#[trigger] spans[i]).url != (#[trigger] spans[j]).url
}

/// The span of `url`, if it has one.
pub open spec fn span_of(spans: Seq<SpanView>, url: Seq<char>) -> Option<SpanView>
    decreases spans.len(),
{
    if spans.len() == 0 {
        None
    } else if spans.last().url == url {
        Some(spans.last())
    } else {
        span_of(spans.drop_last(), url)
    }
}

/// The position of `url` among the engaged, if it is one.
pub open spec fn engaged_index(engaged: Seq<EngagedView>, url: Seq<char>) -> Option<int>
    decreases engaged.len(),
{
    if engaged.len() == 0 {
        None
    } else if engaged.last().url == url {
        Some(engaged.len() - 1)
    } else {
        engaged_index(engaged.drop_last(), url)
    }
}

/// The focused active tab, engaged in the foreground.
pub open spec fn foreground_tab(snap: SnapshotView) -> Seq<EngagedView> {
    match snap.active {
        Some(a) if snap.focused && a.url.len() > 0 => seq![
            EngagedView {
                url: a.url,
                title: a.title,
                favicon: a.favicon,
                referrer: a.referrer,
                transition: a.transition,
                fg: true,
                audible: false,
            },
        ],
        _ => Seq::empty(),
    }
}

/// `engaged` with one audible tab more: marked if its URL is there already
/// (and lent the tab's icon if it has none), else added.
pub open spec fn with_audible(engaged: Seq<EngagedView>, tab: TabView) -> Seq<EngagedView> {
    if tab.url.len() == 0 {
        engaged
    } else {
        match engaged_index(engaged, tab.url) {
            Some(k) => engaged.update(
                k,
                EngagedView {
                    audible: true,
                    favicon: if engaged[k].favicon.len() == 0 {
                        tab.favicon
                    } else {
                        engaged[k].favicon
                    },
                    ..engaged[k]
                },
            ),
            None => engaged.push(
                EngagedView {
                    url: tab.url,
                    title: tab.title,
                    favicon: tab.favicon,
                    referrer: Seq::empty(),
                    transition: Seq::empty(),
                    fg: false,
                    audible: true,
                },
            ),
        }
    }
}

/// `engaged` with all of `tabs`, audible, in order.
pub open spec fn with_audibles(engaged: Seq<EngagedView>, tabs: Seq<TabView>) -> Seq<EngagedView>
    decreases tabs.len(),
{
    if tabs.len() == 0 {
        engaged
    } else {
        with_audible(with_audibles(engaged, tabs.drop_last()), tabs.last())
    }
}

/// The engaged URLs of a snapshot, one entry each.
pub open spec fn engaged_in(snap: SnapshotView) -> Seq<EngagedView> {
    with_audibles(foreground_tab(snap), snap.audible)
}

/// Whole seconds since the previous snapshot; none before the first.
pub open spec fn elapsed(t: TrackerView, now: Moment) -> int {
    match t.last_tick {
        Some(p) => now.secs_after(p),
        None => 0,
    }
}

/// The snapshots stopped for too long, or the clock went back.
pub open spec fn is_gap(t: TrackerView, now: Moment) -> bool {
    elapsed(t, now) > t.config.gap_secs || elapsed(t, now) < 0
}

/// `s` with `dt` seconds more: foreground time only if it was in front.
pub open spec fn billed(s: SpanView, dt: int) -> SpanView {
    if s.fg_last {
        SpanView {
            foreground_secs: if s.foreground_secs + dt > i64::MAX {
                i64::MAX as int
            } else {
                s.foreground_secs + dt
            },
            ..s
        }
    } else {
        s
    }
}

pub open spec fn all_billed(spans: Seq<SpanView>, dt: int) -> Seq<SpanView> {
    spans.map_values(|s: SpanView| billed(s, dt))
}

/// `s`, seen engaged again at `now`.
pub open spec fn touched(s: SpanView, e: EngagedView, now: Moment) -> SpanView {
    SpanView {
        last_seen: now,
        fg_last: e.fg,
        audible_any: s.audible_any || e.audible,
        title: if e.title.len() == 0 {
            s.title
        } else {
            e.title
        },
        favicon: if e.favicon.len() == 0 {
            s.favicon
        } else {
            e.favicon
        },
        ..s
    }
}

/// A span that begins at `now`.
pub open spec fn opened(e: EngagedView, now: Moment, tab_count: u32) -> SpanView {
    SpanView {
        url: e.url,
        start: now,
        last_seen: now,
        title: e.title,
        favicon: e.favicon,
        referrer: e.referrer,
        transition: e.transition,
        tab_count,
        foreground_secs: 0,
        fg_last: e.fg,
        audible_any: e.audible,
    }
}

/// The spans of `spans` that are still engaged, seen again.
pub open spec fn still_engaged(
    spans: Seq<SpanView>,
    engaged: Seq<EngagedView>,
    now: Moment,
) -> Seq<SpanView>
    decreases spans.len(),
{
    if spans.len() == 0 {
        Seq::empty()
    } else {
        let rest = still_engaged(spans.drop_last(), engaged, now);
        match engaged_index(engaged, spans.last().url) {
            Some(k) => rest.push(touched(spans.last(), engaged[k], now)),
            None => rest,
        }
    }
}

/// The spans of `spans` that are no longer engaged.
pub open spec fn no_longer_engaged(
    spans: Seq<SpanView>,
    engaged: Seq<EngagedView>,
) -> Seq<SpanView>
    decreases spans.len(),
{
    if spans.len() == 0 {
        Seq::empty()
    } else {
        let rest = no_longer_engaged(spans.drop_last(), engaged);
        match engaged_index(engaged, spans.last().url) {
            Some(_) => rest,
            None => rest.push(spans.last()),
        }
    }
}

/// A span for each of `engaged` that has none in `spans`.
pub open spec fn newly_engaged(
    spans: Seq<SpanView>,
    engaged: Seq<EngagedView>,
    now: Moment,
    tab_count: u32,
) -> Seq<SpanView>
    decreases engaged.len(),
{
    if engaged.len() == 0 {
        Seq::empty()
    } else {
        let rest = newly_engaged(spans, engaged.drop_last(), now, tab_count);
        match span_of(spans, engaged.last().url) {
            Some(_) => rest,
            None => rest.push(opened(engaged.last(), now, tab_count)),
        }
    }
}

/// The row of a span that ends at `end`, unless it is too short to keep.
pub open spec fn visit_of(
    config: ExtConfig,
    browser: Seq<char>,
    s: SpanView,
    end: Moment,
) -> Option<VisitView> {
    let secs = end.secs_after(s.start);
    if secs < config.min_span_secs {
        None
    } else {
        Some(
            VisitView {
                time: s.start.text(),
                url: s.url,
                title: s.title,
                browser,
                profile: Seq::empty(),
                duration_secs: secs,
                source: "extension"@,
                audible: s.audible_any,
                foreground_secs: if s.foreground_secs > secs {
                    secs
                } else {
                    s.foreground_secs
                },
                favicon: s.favicon,
                referrer: s.referrer,
                transition: s.transition,
                tab_count: s.tab_count,
            },
        )
    }
}

/// The rows of `spans`, each ended at `end`, or without one at its own last
/// evidence.
pub open spec fn visits_of(
    config: ExtConfig,
    browser: Seq<char>,
    spans: Seq<SpanView>,
    end: Option<Moment>,
) -> Seq<VisitView>
    decreases spans.len(),
{
    if spans.len() == 0 {
        Seq::empty()
    } else {
        let rest = visits_of(config, browser, spans.drop_last(), end);
        let s = spans.last();
        let at = match end {
            Some(e) => e,
            None => s.last_seen,
        };
        match visit_of(config, browser, s, at) {
            Some(v) => rest.push(v),
            None => rest,
        }
    }
}

/// The open spans when a snapshot is folded in: none after a gap, else all of
/// them with the time since the previous snapshot billed.
pub open spec fn carried(t: TrackerView, now: Moment) -> Seq<SpanView> {
    if is_gap(t, now) {
        Seq::empty()
    } else {
        all_billed(t.spans, elapsed(t, now))
    }
}

/// The tracker after a snapshot.
pub open spec fn ticked(t: TrackerView, now: Moment, snap: SnapshotView) -> TrackerView {
    let engaged = engaged_in(snap);
    let spans = carried(t, now);
    TrackerView {
        spans: still_engaged(spans, engaged, now) + newly_engaged(
            spans,
            engaged,
            now,
            snap.tab_count,
        ),
        last_tick: Some(now),
        ..t
    }
}

/// The span of `url` after a snapshot: none unless it is engaged; the one it
/// had, seen again; else a new one.
pub open spec fn span_after(
    t: TrackerView,
    now: Moment,
    snap: SnapshotView,
    url: Seq<char>,
) -> Option<SpanView> {
    let engaged = engaged_in(snap);
    match engaged_index(engaged, url) {
        None => None,
        Some(k) => match span_of(t.spans, url) {
            Some(s) if !is_gap(t, now) => Some(
                touched(billed(s, elapsed(t, now)), engaged[k], now),
            ),
            _ => Some(opened(engaged[k], now, snap.tab_count)),
        },
    }
}

/// The rows that a snapshot closes: after a gap all of them, at their last
/// evidence; else those no longer engaged, now.
pub open spec fn closed_by(t: TrackerView, now: Moment, snap: SnapshotView) -> Seq<VisitView> {
    if is_gap(t, now) {
        visits_of(t.config, t.browser, t.spans, None)
    } else {
        visits_of(
            t.config,
            t.browser,
            no_longer_engaged(carried(t, now), engaged_in(snap)),
            Some(now),
        )
    }
}

/// The live row of an open span against `now`.
pub open spec fn live_of(t: TrackerView, s: SpanView, now: Moment) -> LiveSpanView {
    let pending = if elapsed(t, now) > 0 {
        elapsed(t, now)
    } else {
        0
    };
    let secs = if now.secs_after(s.start) > 0 {
        now.secs_after(s.start)
    } else {
        0
    };
    let fg = s.foreground_secs + if s.fg_last {
        pending
    } else {
        0
    };
    LiveSpanView {
        url: s.url,
        title: s.title,
        favicon: s.favicon,
        duration_secs: secs,
        foreground_secs: if fg > secs {
            secs
        } else {
            fg
        },
        audible: s.audible_any,
        foreground: s.fg_last,
    }
}

// ── facts about the model ───────────────────────────────────────────────────

proof fn lemma_span_of(spans: Seq<SpanView>, url: Seq<char>)
    ensures
        match span_of(spans, url) {
            Some(s) => s.url == url && exists|i: int| 0 <= i < spans.len() && spans[i] == s,
            None => forall|i: int| 0 <= i < spans.len() ==> (#[trigger] spans[i]).url != url,
        },
    decreases spans.len(),
{
    if spans.len() > 0 {
        if spans.last().url == url {
            assert(spans[spans.len() - 1] == spans.last());
        } else {
            let rest = spans.drop_last();
            lemma_span_of(rest, url);
            match span_of(rest, url) {
                Some(s) => {
                    let i = choose|i: int| 0 <= i < rest.len() && rest[i] == s;
                    assert(spans[i] == s);
                },
                None => {
                    assert forall|i: int| 0 <= i < spans.len() implies (#[trigger] spans[i]).url
                        != url by {
                        if i < rest.len() {
                            assert(rest[i] == spans[i]);
                        }
                    }
                },
            }
        }
    }
}

proof fn lemma_engaged_index(engaged: Seq<EngagedView>, url: Seq<char>)
    ensures
        match engaged_index(engaged, url) {
            Some(k) => 0 <= k < engaged.len() && engaged[k].url == url,
            None => forall|i: int| 0 <= i < engaged.len() ==> (#[trigger] engaged[i]).url != url,
        },
    decreases engaged.len(),
{
    if engaged.len() > 0 && engaged.last().url != url {
        let rest = engaged.drop_last();
        lemma_engaged_index(rest, url);
        if engaged_index(rest, url) is None {
            assert forall|i: int| 0 <= i < engaged.len() implies (#[trigger] engaged[i]).url
                != url by {
                if i < rest.len() {
                    assert(rest[i] == engaged[i]);
                }
            }
        }
    }
}

/// No URL is engaged twice, and none is empty.
pub open spec fn engaged_valid(engaged: Seq<EngagedView>) -> bool {
    &&& forall|i: int| 0 <= i < engaged.len() ==> (#[trigger] engaged[i]).url.len() > 0
    &&& forall|i: int, j: int|
        0 <= i < j < engaged.len() ==> (#[trigger] engaged[i]).url != (#[trigger] engaged[j]).url
}

/// One of `tabs` shows `url`.
pub open spec fn shows(tabs: Seq<TabView>, url: Seq<char>) -> bool {
    exists|i: int| 0 <= i < tabs.len() && (#[trigger] tabs[i]).url == url
}

proof fn lemma_with_audibles(engaged: Seq<EngagedView>, tabs: Seq<TabView>)
    requires
        engaged_valid(engaged),
    ensures
        engaged_valid(with_audibles(engaged, tabs)),
        forall|url: Seq<char>|
            (#[trigger] engaged_index(with_audibles(engaged, tabs), url) is Some) <==> (
            engaged_index(engaged, url) is Some || (url.len() > 0 && shows(tabs, url))),
        forall|url: Seq<char>|
            (#[trigger] engaged_index(with_audibles(engaged, tabs), url) matches Some(k) && with_audibles(
                engaged,
                tabs,
            )[k].fg) <==> (engaged_index(engaged, url) matches Some(k) && engaged[k].fg),
    decreases tabs.len(),
{
    if tabs.len() > 0 {
        let front = tabs.drop_last();
        let tab = tabs.last();
        lemma_with_audibles(engaged, front);
        let mid = with_audibles(engaged, front);
        let end = with_audible(mid, tab);
        lemma_engaged_index(mid, tab.url);
        assert forall|url: Seq<char>|
            (#[trigger] engaged_index(end, url) is Some) <==> (engaged_index(mid, url) is Some || (
            url.len() > 0 && tab.url == url)) by {
            lemma_engaged_index(mid, url);
            lemma_engaged_index(end, url);
            match engaged_index(mid, url) {
                Some(k) => {
                    assert(end[k].url == url);
                },
                None => {
                    if url.len() > 0 && tab.url == url {
                        assert(end[end.len() - 1].url == url);
                    }
                },
            }
            if engaged_index(end, url) is Some {
                let k = engaged_index(end, url)->0;
                if k < mid.len() {
                    assert(mid[k].url == end[k].url);
                }
            }
        }
        assert forall|url: Seq<char>|
            (#[trigger] engaged_index(end, url) matches Some(k) && end[k].fg) <==> (engaged_index(
                mid,
                url,
            ) matches Some(k) && mid[k].fg) by {
            lemma_engaged_index(mid, url);
            lemma_engaged_index(end, url);
            if engaged_index(mid, url) is Some {
                let k = engaged_index(mid, url)->0;
                let l = engaged_index(end, url)->0;
                assert(end[k].url == url && end[l].url == url);
                assert(k == l) by {
                    if k < l {
                        assert(end[k].url != end[l].url);
                    } else if l < k {
                        assert(end[l].url != end[k].url);
                    }
                }
            }
        }
        assert forall|url: Seq<char>|
            #[trigger] shows(tabs, url) <==> (tab.url == url || shows(front, url)) by {
            if tab.url == url {
                assert(tabs[tabs.len() - 1].url == url);
            }
            if shows(front, url) {
                let i = choose|i: int| 0 <= i < front.len() && (#[trigger] front[i]).url == url;
                assert(tabs[i].url == url);
            }
            if shows(tabs, url) {
                let i = choose|i: int| 0 <= i < tabs.len() && (#[trigger] tabs[i]).url == url;
                if i < front.len() {
                    assert(front[i].url == url);
                }
            }
        }
    }
}

proof fn lemma_still_engaged(spans: Seq<SpanView>, engaged: Seq<EngagedView>, now: Moment)
    requires
        distinct_urls(spans),
        forall|i: int| 0 <= i < spans.len() ==> #[trigger] span_valid(spans[i]),
        now.valid(),
    ensures
        ({
            let kept = still_engaged(spans, engaged, now);
            &&& distinct_urls(kept)
            &&& forall|i: int|
                0 <= i < kept.len() ==> #[trigger] span_valid(kept[i]) && kept[i].last_seen == now
            &&& forall|url: Seq<char>| #[trigger]
                span_of(kept, url) == (match (span_of(spans, url), engaged_index(engaged, url)) {
                    (Some(s), Some(k)) => Some(touched(s, engaged[k], now)),
                    _ => None,
                })
        }),
    decreases spans.len(),
{
    if spans.len() > 0 {
        let front = spans.drop_last();
        let s = spans.last();
        assert forall|i: int, j: int| 0 <= i < j < front.len() implies (#[trigger] front[i]).url
            != (#[trigger] front[j]).url by {
            assert(spans[i].url != spans[j].url);
        }
        assert forall|i: int| 0 <= i < front.len() implies #[trigger] span_valid(front[i]) by {
            assert(span_valid(spans[i]));
        }
        lemma_still_engaged(front, engaged, now);
        assert(span_valid(spans[spans.len() - 1]));
        let before = still_engaged(front, engaged, now);
        let kept = still_engaged(spans, engaged, now);
        lemma_span_of(front, s.url);
        if span_of(front, s.url) is Some {
            let i = choose|i: int| 0 <= i < front.len() && front[i] == span_of(front, s.url)->0;
            assert(spans[i].url != spans[spans.len() - 1].url);
        }
        lemma_span_of(before, s.url);
        if engaged_index(engaged, s.url) is Some {
            assert(kept.drop_last() =~= before);
            assert(kept.last().url == s.url);
        }
        assert forall|url: Seq<char>| #[trigger]
            span_of(kept, url) == (match (span_of(spans, url), engaged_index(engaged, url)) {
                (Some(s), Some(k)) => Some(touched(s, engaged[k], now)),
                _ => None,
            }) by {
            assert(span_of(before, url) == (match (
                span_of(front, url),
                engaged_index(engaged, url),
            ) {
                (Some(s), Some(k)) => Some(touched(s, engaged[k], now)),
                _ => None,
            }));
        }
    }
}

proof fn lemma_newly_engaged(
    spans: Seq<SpanView>,
    engaged: Seq<EngagedView>,
    now: Moment,
    tab_count: u32,
)
    requires
        engaged_valid(engaged),
        now.valid(),
    ensures
        ({
            let fresh = newly_engaged(spans, engaged, now, tab_count);
            &&& distinct_urls(fresh)
            &&& forall|i: int|
                0 <= i < fresh.len() ==> #[trigger] span_valid(fresh[i]) && fresh[i].last_seen
                    == now
            &&& forall|url: Seq<char>| #[trigger]
                span_of(fresh, url) == (match (span_of(spans, url), engaged_index(engaged, url)) {
                    (None, Some(k)) => Some(opened(engaged[k], now, tab_count)),
                    _ => None,
                })
        }),
    decreases engaged.len(),
{
    if engaged.len() > 0 {
        let front = engaged.drop_last();
        let e = engaged.last();
        assert forall|i: int, j: int| 0 <= i < j < front.len() implies (#[trigger] front[i]).url
            != (#[trigger] front[j]).url by {
            assert(engaged[i].url != engaged[j].url);
        }
        assert forall|i: int| 0 <= i < front.len() implies (#[trigger] front[i]).url.len()
            > 0 by {
            assert(engaged[i].url.len() > 0);
        }
        lemma_newly_engaged(spans, front, now, tab_count);
        assert(engaged[engaged.len() - 1].url.len() > 0);
        let before = newly_engaged(spans, front, now, tab_count);
        let fresh = newly_engaged(spans, engaged, now, tab_count);
        lemma_engaged_index(front, e.url);
        if engaged_index(front, e.url) is Some {
            let k = engaged_index(front, e.url)->0;
            assert(engaged[k].url != engaged[engaged.len() - 1].url);
        }
        lemma_span_of(before, e.url);
        if span_of(spans, e.url) is None {
            assert(fresh.drop_last() =~= before);
            assert(fresh.last().url == e.url);
        }
        assert forall|url: Seq<char>| #[trigger]
            span_of(fresh, url) == (match (span_of(spans, url), engaged_index(engaged, url)) {
                (None, Some(k)) => Some(opened(engaged[k], now, tab_count)),
                _ => None,
            }) by {
            lemma_engaged_index(front, url);
            assert(span_of(before, url) == (match (
                span_of(spans, url),
                engaged_index(front, url),
            ) {
                (None, Some(k)) => Some(opened(front[k], now, tab_count)),
                _ => None,
            }));
        }
    }
}

proof fn lemma_span_of_concat(a: Seq<SpanView>, b: Seq<SpanView>, url: Seq<char>)
    ensures
        span_of(a + b, url) == (if span_of(b, url) is Some {
            span_of(b, url)
        } else {
            span_of(a, url)
        }),
    decreases b.len(),
{
    if b.len() == 0 {
        assert(a + b =~= a);
    } else {
        assert((a + b).drop_last() =~= a + b.drop_last());
        lemma_span_of_concat(a, b.drop_last(), url);
    }
}

proof fn lemma_engaged_in(snap: SnapshotView)
    ensures
        engaged_valid(engaged_in(snap)),
{
    lemma_with_audibles(foreground_tab(snap), snap.audible);
}

proof fn lemma_carried(t: TrackerView, now: Moment)
    requires
        t.valid(),
        now.valid(),
    ensures
        distinct_urls(carried(t, now)),
        forall|i: int|
            0 <= i < carried(t, now).len() ==> #[trigger] span_valid(carried(t, now)[i]),
{
    let c = carried(t, now);
    assert forall|i: int, j: int| 0 <= i < j < c.len() implies (#[trigger] c[i]).url != (
    #[trigger] c[j]).url by {
        assert(t.spans[i].url != t.spans[j].url);
    }
    assert forall|i: int| 0 <= i < c.len() implies #[trigger] span_valid(c[i]) by {
        assert(span_valid(t.spans[i]));
    }
}

proof fn lemma_ticked(t: TrackerView, now: Moment, snap: SnapshotView)
    requires
        t.valid(),
        now.valid(),
    ensures
        ticked(t, now, snap).valid(),
        forall|url: Seq<char>| #[trigger]
            span_of(ticked(t, now, snap).spans, url) == span_after(t, now, snap, url),
{
    let base = carried(t, now);
    let eng = engaged_in(snap);
    lemma_engaged_in(snap);
    lemma_carried(t, now);
    lemma_still_engaged(base, eng, now);
    lemma_newly_engaged(base, eng, now, snap.tab_count);
    let a = still_engaged(base, eng, now);
    let b = newly_engaged(base, eng, now, snap.tab_count);
    let all = ticked(t, now, snap).spans;
    assert(all == a + b);
    assert forall|i: int, j: int| 0 <= i < j < all.len() implies (#[trigger] all[i]).url != (
    #[trigger] all[j]).url by {
        if j < a.len() {
            assert(a[i].url != a[j].url);
        } else if i >= a.len() {
            assert(b[i - a.len()].url != b[j - a.len()].url);
        } else {
            lemma_span_of(a, all[i].url);
            lemma_span_of(b, all[i].url);
            assert(a[i].url == all[i].url);
            assert(span_of(a, all[i].url) is Some);
            assert(span_of(b, all[i].url) is None);
            assert(b[j - a.len()].url != all[i].url);
        }
    }
    assert forall|i: int| 0 <= i < all.len() implies span_valid(all[i]) && (
    #[trigger] all[i]).last_seen == now by {
        if i < a.len() {
            assert(span_valid(a[i]));
        } else {
            assert(span_valid(b[i - a.len()]));
        }
    }
    assert forall|url: Seq<char>| #[trigger] span_of(all, url) == span_after(
        t,
        now,
        snap,
        url,
    ) by {
        lemma_span_of_concat(a, b, url);
        lemma_span_of_billed(t.spans, elapsed(t, now), url);
        assert(span_of(a, url) is Some ==> span_of(base, url) is Some);
        assert(span_of(b, url) is Some ==> span_of(base, url) is None);
    }
}

proof fn lemma_span_of_billed(spans: Seq<SpanView>, dt: int, url: Seq<char>)
    ensures
        span_of(all_billed(spans, dt), url) == (match span_of(spans, url) {
            Some(s) => Some(billed(s, dt)),
            None => None,
        }),
    decreases spans.len(),
{
    if spans.len() > 0 {
        assert(all_billed(spans, dt).drop_last() =~= all_billed(spans.drop_last(), dt));
        lemma_span_of_billed(spans.drop_last(), dt, url);
    }
}

// ── the state machine ───────────────────────────────────────────────────────

impl Default for ExtConfig {
    /// Four missed snapshots are a gap; anything under a second is jitter.
    fn default() -> (r: Self)
        ensures
            r.gap_secs == 20,
            r.min_span_secs == 1,
            r.valid(),
    {
        ExtConfig { gap_secs: (EXT_SNAPSHOT_SECS * 4) as i64, min_span_secs: 1 }
    }
}

/// The position of `url` among the engaged, if it is one.
fn position_of(engaged: &Vec<Engaged>, url: &String) -> (r: Option<usize>)
    ensures
        match r {
            Some(k) => k < engaged@.len() && engaged_index(engaged_views(engaged@), url@) == Some(
                k as int,
            ),
            None => engaged_index(engaged_views(engaged@), url@) is None,
        },
{
    let ghost all = engaged_views(engaged@);
    let mut i: usize = engaged.len();
    assert(all.take(i as int) =~= all);
    while i > 0
        invariant
            i <= engaged@.len(),
            all == engaged_views(engaged@),
            engaged_index(all, url@) == engaged_index(all.take(i as int), url@),
        decreases i,
    {
        assert(all.take(i as int).last() == engaged@[i - 1]@);
        assert(all.take(i as int).drop_last() =~= all.take(i - 1));
        if engaged[i - 1].url == *url {
            return Some(i - 1);
        }
        i = i - 1;
    }
    None
}

/// Has `url` a span among `spans`?
fn has_span(spans: &Vec<OpenSpan>, end: usize, url: &String) -> (r: bool)
    requires
        end <= spans@.len(),
    ensures
        r == (span_of(span_views(spans@.take(end as int)), url@) is Some),
{
    let ghost all = span_views(spans@.take(end as int));
    let mut i: usize = end;
    assert(all.take(i as int) =~= all);
    while i > 0
        invariant
            i <= end <= spans@.len(),
            all == span_views(spans@.take(end as int)),
            span_of(all, url@) == span_of(all.take(i as int), url@),
        decreases i,
    {
        assert(all.take(i as int).last() == spans@[i - 1]@);
        assert(all.take(i as int).drop_last() =~= all.take(i - 1));
        if spans[i - 1].url == *url {
            return true;
        }
        i = i - 1;
    }
    false
}

/// The engaged URLs of a snapshot.
fn engage(snap: &ExtSnapshot) -> (engaged: Vec<Engaged>)
    ensures
        engaged_views(engaged@) == engaged_in(snap@),
{
    let mut engaged: Vec<Engaged> = Vec::new();
    if snap.focused {
        if let Some(a) = &snap.active {
            if !a.url.as_str().is_empty() {
                engaged.push(
                    Engaged {
                        url: a.url.clone(),
                        title: a.title.clone(),
                        favicon: a.favicon.clone(),
                        referrer: a.referrer.clone(),
                        transition: a.transition.clone(),
                        fg: true,
                        audible: false,
                    },
                );
            }
        }
    }
    assert(engaged_views(engaged@) =~= foreground_tab(snap@));
    let ghost tabs = snap@.audible;
    let mut i: usize = 0;
    assert(tabs.take(0) =~= Seq::empty());
    while i < snap.audible.len()
        invariant
            i <= snap.audible@.len(),
            tabs == tab_views(snap.audible@),
            engaged_views(engaged@) == with_audibles(foreground_tab(snap@), tabs.take(i as int)),
        decreases snap.audible@.len() - i,
    {
        let t = &snap.audible[i];
        assert(tabs.take(i + 1).last() == t@);
        assert(tabs.take(i + 1).drop_last() =~= tabs.take(i as int));
        let ghost before = engaged_views(engaged@);
        if !t.url.as_str().is_empty() {
            match position_of(&engaged, &t.url) {
                Some(k) => {
                    let e = &engaged[k];
                    let changed = Engaged {
                        url: e.url.clone(),
                        title: e.title.clone(),
                        favicon: if e.favicon.as_str().is_empty() {
                            t.favicon.clone()
                        } else {
                            e.favicon.clone()
                        },
                        referrer: e.referrer.clone(),
                        transition: e.transition.clone(),
                        fg: e.fg,
                        audible: true,
                    };
                    engaged.set(k, changed);
                },
                None => {
                    engaged.push(
                        Engaged {
                            url: t.url.clone(),
                            title: t.title.clone(),
                            favicon: t.favicon.clone(),
                            referrer: String::new(),
                            transition: String::new(),
                            fg: false,
                            audible: true,
                        },
                    );
                },
            }
        }
        assert(engaged_views(engaged@) =~= with_audible(before, t@));
        i = i + 1;
    }
    assert(tabs.take(tabs.len() as int) =~= tabs);
    engaged
}

impl TabTracker {
    pub fn new(browser: &str, config: ExtConfig) -> (r: TabTracker)
        requires
            config.valid(),
        ensures
            r@ == (TrackerView {
                config,
                browser: browser@,
                spans: Seq::empty(),
                last_tick: None,
            }),
            r@.valid(),
    {
        let r = TabTracker { config, browser: owned(browser), spans: Vec::new(), last_tick: None };
        assert(r@.spans =~= Seq::empty());
        r
    }

    /// End a span at `end`; none if it is too short to keep.
    fn close(&self, s: OpenSpan, end: &Moment) -> (r: Option<BrowserVisit>)
        requires
            self@.config.valid(),
            span_valid(s@),
            end.valid(),
        ensures
            match r {
                Some(v) => visit_of(self@.config, self@.browser, s@, *end) == Some(v@),
                None => visit_of(self@.config, self@.browser, s@, *end) is None,
            },
            s@.start.four_digit_year() ==> (r matches Some(v) ==> moment::has_date_prefix(v.time@)),
    {
        let secs: i64 = end.secs_since(&s.start);
        if secs < self.config.min_span_secs {
            return None;
        }
        let fg: i64 = if s.foreground_secs > secs {
            secs
        } else {
            s.foreground_secs
        };
        let v = BrowserVisit {
            time: s.start.to_rfc3339(),
            url: s.url,
            title: s.title,
            browser: self.browser.clone(),
            profile: String::new(),
            duration_secs: secs as u64,
            source: owned("extension"),
            audible: s.audible_any,
            foreground_secs: fg as u64,
            favicon: s.favicon,
            referrer: s.referrer,
            transition: s.transition,
            tab_count: s.tab_count,
        };
        assert(visit_of(self@.config, self@.browser, s@, *end)->0 =~= v@);
        Some(v)
    }

    /// End all of `spans` at their last evidence.
    fn close_all(&self, spans: Vec<OpenSpan>) -> (closed: Vec<BrowserVisit>)
        requires
            self@.config.valid(),
            forall|i: int| 0 <= i < spans@.len() ==> span_valid(#[trigger] spans@[i]@),
        ensures
            visit_views(closed@) == visits_of(
                self@.config,
                self@.browser,
                span_views(spans@),
                None,
            ),
            starts_dated(span_views(spans@)) ==> all_dated(closed@),
    {
        let mut closed: Vec<BrowserVisit> = Vec::new();
        let ghost all = span_views(spans@);
        assert(all.take(0) =~= Seq::empty());
        for s in it: spans.into_iter()
            invariant
                self@.config.valid(),
                all == span_views(it.seq()),
                forall|i: int| 0 <= i < it.seq().len() ==> span_valid(#[trigger] it.seq()[i]@),
                visit_views(closed@) == visits_of(
                    self@.config,
                    self@.browser,
                    all.take(it.index() as int),
                    None,
                ),
                starts_dated(all) ==> all_dated(closed@),
        {
            assert(s@ == all[it.index() as int]);
            assert(all.take(it.index() + 1).last() == s@);
            assert(all.take(it.index() + 1).drop_last() =~= all.take(it.index() as int));
            let ghost before = visit_views(closed@);
            let end = s.last_seen;
            if let Some(v) = self.close(s, &end) {
                closed.push(v);
                assert(visit_views(closed@) =~= before.push(v@));
            }
        }
        assert(all.take(all.len() as int) =~= all);
        closed
    }

    /// Fold one snapshot in; returns the spans that just closed.
    pub fn tick(&mut self, now: Moment, snap: &ExtSnapshot) -> (closed: Vec<BrowserVisit>)
        requires
            old(self)@.valid(),
            now.valid(),
        ensures
            final(self)@ == ticked(old(self)@, now, snap@),
            visit_views(closed@) == closed_by(old(self)@, now, snap@),
            starts_dated(old(self)@.spans) ==> all_dated(closed@),
            final(self)@.valid(),
    {
        let ghost pre = self@;
        let dt: i64 = match &self.last_tick {
            Some(p) => now.secs_since(p),
            None => 0,
        };
        let gap = dt > self.config.gap_secs || dt < 0;
        assert(dt == elapsed(pre, now));
        assert(gap == is_gap(pre, now));
        let mut spans: Vec<OpenSpan> = Vec::new();
        std::mem::swap(&mut spans, &mut self.spans);
        assert forall|i: int| 0 <= i < spans@.len() implies span_valid(
            #[trigger] spans@[i]@,
        ) by {
            assert(pre.spans[i] == spans@[i]@);
        }
        let mut closed: Vec<BrowserVisit> = Vec::new();
        if gap {
            closed = self.close_all(spans);
            spans = Vec::new();
        }
        let engaged = engage(snap);
        let ghost eng = engaged_in(snap@);
        let ghost base = carried(pre, now);
        let ghost unbilled = span_views(spans@);
        let ghost gap_rows = visit_views(closed@);
        assert(base.len() == unbilled.len());
        assert(base.take(0) =~= Seq::empty());
        let mut kept: Vec<OpenSpan> = Vec::new();
        for s in it: spans.into_iter()
            invariant
                unbilled == span_views(it.seq()),
                base.len() == unbilled.len(),
                !gap ==> 0 <= dt && base == all_billed(unbilled, dt as int),
                gap ==> unbilled.len() == 0,
                forall|i: int| 0 <= i < it.seq().len() ==> span_valid(#[trigger] it.seq()[i]@),
                engaged_views(engaged@) == eng,
                self@.config == pre.config && self@.browser == pre.browser,
                pre.valid(),
                now.valid(),
                span_views(kept@) == still_engaged(base.take(it.index() as int), eng, now),
                visit_views(closed@) == gap_rows + visits_of(
                    pre.config,
                    pre.browser,
                    no_longer_engaged(base.take(it.index() as int), eng),
                    Some(now),
                ),
                starts_dated(pre.spans) ==> starts_dated(unbilled) && all_dated(closed@),
        {
            let ghost n = it.index() as int;
            let mut s = s;
            assert(s@ == unbilled[n]);
            let ghost was = s@;
            if s.fg_last {
                s.foreground_secs = if s.foreground_secs > i64::MAX - dt {
                    i64::MAX
                } else {
                    s.foreground_secs + dt
                };
            }
            assert(s@ == base[n]) by {
                assert(s@ =~= billed(was, dt as int));
            }
            assert(base.take(n + 1).last() == s@);
            assert(base.take(n + 1).drop_last() =~= base.take(n));
            let ghost kept_before = span_views(kept@);
            let ghost rows_before = visit_views(closed@);
            let ghost gone_before = no_longer_engaged(base.take(n), eng);
            match position_of(&engaged, &s.url) {
                Some(k) => {
                    let e = &engaged[k];
                    assert(eng[k as int] == e@);
                    let ghost billed_span = s@;
                    s.last_seen = now;
                    s.fg_last = e.fg;
                    s.audible_any = s.audible_any || e.audible;
                    if !e.title.as_str().is_empty() {
                        s.title = e.title.clone();
                    }
                    if !e.favicon.as_str().is_empty() {
                        s.favicon = e.favicon.clone();
                    }
                    assert(s@ =~= touched(billed_span, e@, now));
                    kept.push(s);
                    assert(span_views(kept@) =~= kept_before.push(s@));
                },
                None => {
                    proof {
                        let gone = gone_before.push(s@);
                        assert(gone.drop_last() =~= gone_before);
                    }
                    if let Some(v) = self.close(s, &now) {
                        closed.push(v);
                        assert(visit_views(closed@) =~= rows_before.push(v@));
                        assert(visit_views(closed@) =~= gap_rows + visits_of(
                            pre.config,
                            pre.browser,
                            gone_before,
                            Some(now),
                        ).push(v@));
                    }
                },
            }
        }
        assert(base.take(base.len() as int) =~= base);
        proof {
            assert(gap ==> gap_rows == closed_by(pre, now, snap@));
            assert(gap ==> visits_of(pre.config, pre.browser, Seq::empty(), Some(now))
                =~= Seq::empty());
            assert(visit_views(closed@) =~= closed_by(pre, now, snap@));
            lemma_ticked(pre, now, snap@);
            lemma_engaged_in(snap@);
            lemma_carried(pre, now);
            lemma_still_engaged(base, eng, now);
        }
        let count: usize = kept.len();
        let ghost seen = still_engaged(base, eng, now);
        assert(eng.take(0) =~= Seq::empty());
        assert(seen + Seq::<SpanView>::empty() =~= seen);
        let mut i: usize = 0;
        while i < engaged.len()
            invariant
                i <= engaged@.len(),
                count <= kept@.len(),
                engaged_views(engaged@) == eng,
                span_views(kept@.take(count as int)) == seen,
                forall|url: Seq<char>|
                    (#[trigger] span_of(seen, url) is Some) == (span_of(base, url) is Some
                        && engaged_index(eng, url) is Some),
                span_views(kept@) == seen + newly_engaged(
                    base,
                    eng.take(i as int),
                    now,
                    snap.tab_count,
                ),
            decreases engaged@.len() - i,
        {
            let e = &engaged[i];
            assert(eng.take(i + 1).last() == e@);
            assert(eng.take(i + 1).drop_last() =~= eng.take(i as int));
            proof {
                lemma_engaged_index(eng, e.url@);
                assert(eng[i as int].url == e.url@);
            }
            let ghost before = span_views(kept@);
            if !has_span(&kept, count, &e.url) {
                let s = OpenSpan {
                    url: e.url.clone(),
                    start: now,
                    last_seen: now,
                    title: e.title.clone(),
                    favicon: e.favicon.clone(),
                    referrer: e.referrer.clone(),
                    transition: e.transition.clone(),
                    tab_count: snap.tab_count,
                    foreground_secs: 0,
                    fg_last: e.fg,
                    audible_any: e.audible,
                };
                let ghost head = kept@.take(count as int);
                kept.push(s);
                assert(kept@.take(count as int) =~= head);
                assert(s@ =~= opened(e@, now, snap.tab_count));
                assert(span_views(kept@) =~= before.push(s@));
                assert(span_views(kept@) =~= seen + newly_engaged(
                    base,
                    eng.take(i as int),
                    now,
                    snap.tab_count,
                ).push(s@));
            }
            i = i + 1;
        }
        assert(eng.take(eng.len() as int) =~= eng);
        self.spans = kept;
        self.last_tick = Some(now);
        assert(self@ =~= ticked(pre, now, snap@));
        closed
    }

    /// Close everything at its last evidence, when the browser disconnects.
    pub fn flush(&mut self) -> (closed: Vec<BrowserVisit>)
        requires
            old(self)@.valid(),
        ensures
            final(self)@ == (TrackerView { spans: Seq::empty(), last_tick: None, ..old(self)@ }),
            visit_views(closed@) == visits_of(
                old(self)@.config,
                old(self)@.browser,
                old(self)@.spans,
                None,
            ),
            starts_dated(old(self)@.spans) ==> all_dated(closed@),
            final(self)@.valid(),
    {
        let ghost pre = self@;
        let mut spans: Vec<OpenSpan> = Vec::new();
        std::mem::swap(&mut spans, &mut self.spans);
        assert forall|i: int| 0 <= i < spans@.len() implies span_valid(
            #[trigger] spans@[i]@,
        ) by {
            assert(pre.spans[i] == spans@[i]@);
        }
        let closed = self.close_all(spans);
        self.last_tick = None;
        assert(self@.spans =~= Seq::empty());
        closed
    }

    /// The currently open spans with their durations against `now`.
    pub fn live(&self, now: Moment) -> (r: Vec<LiveSpan>)
        requires
            self@.valid(),
            now.valid(),
        ensures
            live_views(r@) == self@.spans.map_values(|s: SpanView| live_of(self@, s, now)),
    {
        let mut pending: i64 = match &self.last_tick {
            Some(p) => now.secs_since(p),
            None => 0,
        };
        if pending < 0 {
            pending = 0;
        }
        let ghost whole = self@.spans.map_values(|s: SpanView| live_of(self@, s, now));
        let mut r: Vec<LiveSpan> = Vec::new();
        let mut i: usize = 0;
        while i < self.spans.len()
            invariant
                i <= self.spans@.len(),
                self@.valid(),
                now.valid(),
                pending == (if elapsed(self@, now) > 0 {
                    elapsed(self@, now)
                } else {
                    0
                }),
                whole == self@.spans.map_values(|s: SpanView| live_of(self@, s, now)),
                live_views(r@) == whole.take(i as int),
            decreases self.spans@.len() - i,
        {
            let s = &self.spans[i];
            assert(self@.spans[i as int] == s@);
            assert(span_valid(self@.spans[i as int]));
            let mut secs: i64 = now.secs_since(&s.start);
            if secs < 0 {
                secs = 0;
            }
            let extra: i64 = if s.fg_last {
                pending
            } else {
                0
            };
            let fg: i64 = if s.foreground_secs > secs || extra > secs - s.foreground_secs {
                secs
            } else {
                s.foreground_secs + extra
            };
            let ghost before = live_views(r@);
            let l = LiveSpan {
                url: s.url.clone(),
                title: s.title.clone(),
                favicon: s.favicon.clone(),
                duration_secs: secs as u64,
                foreground_secs: fg as u64,
                audible: s.audible_any,
                foreground: s.fg_last,
            };
            r.push(l);
            assert(l@ =~= live_of(self@, s@, now));
            assert(live_views(r@) =~= before.push(l@));
            assert(whole.take(i + 1) =~= whole.take(i as int).push(whole[i as int]));
            i = i + 1;
        }
        assert(whole.take(whole.len() as int) =~= whole);
        r
    }
}

// ── domains ─────────────────────────────────────────────────────────────────

/// The scheme of a URL and what follows it: what stands before and after the
/// first `://`, or no scheme.
pub open spec fn split_scheme(url: Seq<char>) -> (Seq<char>, Seq<char>) {
    match text::find_from(url, "://"@, 0) {
        Some(i) => (url.take(i), url.skip(i + 3)),
        None => (Seq::empty(), url),
    }
}

/// The host of what follows a scheme: without path, query, fragment, user and
/// port.
pub open spec fn host_of(rest: Seq<char>) -> Seq<char> {
    text::cut_at(text::after_last(text::cut_at(rest, seq!['/', '?', '#']), '@'), seq![':'])
}

/// The domain of a URL: for the web its host in lower case without `www.`;
/// else the name of its scheme.
pub open spec fn domain_text(url: Seq<char>) -> Seq<char> {
    let (scheme, rest) = split_scheme(url);
    let host = host_of(rest);
    if scheme.len() > 0 && scheme != "http"@ && scheme != "https"@ {
        text::lowercase_text(scheme)
    } else if host.len() > 0 {
        text::lowercase_text(text::without_prefix(host, "www."@))
    } else if scheme.len() > 0 {
        scheme
    } else {
        "other"@
    }
}

/// Host of a URL: `https://www.example.com/x` gives `example.com`. Other
/// schemes than those of the web collapse to the scheme name.
pub fn domain_of(url: &str) -> (r: String)
    ensures
        r@ == domain_text(url@),
{
    proof {
        reveal_strlit("://");
    }
    let v = chars_of(url);
    let len: usize = v.len();
    let (scheme, from): (String, usize) = match find(&v, "://", 0) {
        Some(i) => (text_of(&v, 0, i), i + 3),
        None => (String::new(), 0),
    };
    let ghost rest = split_scheme(url@).1;
    assert(scheme@ =~= split_scheme(url@).0);
    assert(rest =~= v@.skip(from as int));
    let web = same_text(scheme.as_str(), "http") || same_text(scheme.as_str(), "https");
    if !scheme.as_str().is_empty() && !web {
        return lowercase(scheme.as_str());
    }
    let rest_text = text_of(&v, from, len);
    assert(rest_text@ =~= rest);
    let authority = before_any(rest_text.as_str(), slash_query_fragment());
    let host_port = past_last(authority.as_str(), '@');
    let mut colon: Vec<char> = Vec::new();
    colon.push(':');
    assert(colon@ =~= seq![':']);
    let host = before_any(host_port.as_str(), colon);
    if host.as_str().is_empty() {
        if scheme.as_str().is_empty() {
            return owned("other");
        }
        return scheme;
    }
    let bare = strip_prefix(host.as_str(), "www.");
    lowercase(bare.as_str())
}

fn slash_query_fragment() -> (r: Vec<char>)
    ensures
        r@ == seq!['/', '?', '#'],
{
    let mut r: Vec<char> = Vec::new();
    r.push('/');
    r.push('?');
    r.push('#');
    assert(r@ =~= seq!['/', '?', '#']);
    r
}

// ── rows ────────────────────────────────────────────────────────────────────

/// The line of a visit, without its line end. What is false, zero or empty
/// among the extras is left out.
pub open spec fn visit_line(v: VisitView) -> Seq<char> {
    json::text_field("{\"time\":"@, v.time) + json::text_field(",\"url\":"@, v.url) + json::text_field(
        ",\"title\":"@,
        v.title,
    ) + json::text_field(",\"browser\":"@, v.browser) + json::text_field(",\"profile\":"@, v.profile)
        + json::number_field(",\"duration_secs\":"@, v.duration_secs) + json::text_field(
        ",\"source\":"@,
        v.source,
    ) + json::kept_flag_field(",\"audible\":"@, v.audible) + json::kept_number_field(
        ",\"foreground_secs\":"@,
        v.foreground_secs,
    ) + json::kept_text_field(",\"favicon\":"@, v.favicon) + json::kept_text_field(
        ",\"referrer\":"@,
        v.referrer,
    ) + json::kept_text_field(",\"transition\":"@, v.transition) + json::kept_number_field(
        ",\"tab_count\":"@,
        v.tab_count as int,
    ) + "}"@
}

impl BrowserVisit {
    /// The line of this visit in its day file.
    pub fn to_line(&self) -> (r: String)
        ensures
            r@ == visit_line(self@),
            json::is_line(r@),
    {
        proof {
            reveal_strlit("{\"time\":");
            reveal_strlit(",\"url\":");
            reveal_strlit(",\"title\":");
            reveal_strlit(",\"browser\":");
            reveal_strlit(",\"profile\":");
            reveal_strlit(",\"duration_secs\":");
            reveal_strlit(",\"source\":");
            reveal_strlit(",\"audible\":");
            reveal_strlit(",\"foreground_secs\":");
            reveal_strlit(",\"favicon\":");
            reveal_strlit(",\"referrer\":");
            reveal_strlit(",\"transition\":");
            reveal_strlit(",\"tab_count\":");
            reveal_strlit("}");
        }
        let mut out = String::new();
        push_text_field(&mut out, "{\"time\":", self.time.as_str());
        assert(out@ =~= json::text_field("{\"time\":"@, self.time@));
        push_text_field(&mut out, ",\"url\":", self.url.as_str());
        push_text_field(&mut out, ",\"title\":", self.title.as_str());
        push_text_field(&mut out, ",\"browser\":", self.browser.as_str());
        push_text_field(&mut out, ",\"profile\":", self.profile.as_str());
        push_number_field(&mut out, ",\"duration_secs\":", self.duration_secs);
        push_text_field(&mut out, ",\"source\":", self.source.as_str());
        push_kept_flag_field(&mut out, ",\"audible\":", self.audible);
        push_kept_number_field(&mut out, ",\"foreground_secs\":", self.foreground_secs);
        push_kept_text_field(&mut out, ",\"favicon\":", self.favicon.as_str());
        push_kept_text_field(&mut out, ",\"referrer\":", self.referrer.as_str());
        push_kept_text_field(&mut out, ",\"transition\":", self.transition.as_str());
        push_kept_number_field(&mut out, ",\"tab_count\":", self.tab_count as u64);
        push_raw(&mut out, "}");
        out
    }
}

/// A live span as the sidecar holds it.
pub open spec fn live_span_text(l: LiveSpanView) -> Seq<char> {
    json::text_field("{\"url\":"@, l.url) + json::text_field(",\"title\":"@, l.title) + json::kept_text_field(
        ",\"favicon\":"@,
        l.favicon,
    ) + json::number_field(",\"duration_secs\":"@, l.duration_secs) + json::number_field(
        ",\"foreground_secs\":"@,
        l.foreground_secs,
    ) + json::flag_field(",\"audible\":"@, l.audible) + json::flag_field(",\"foreground\":"@, l.foreground)
        + "}"@
}

/// The live spans, with commas between them.
pub open spec fn live_spans_text(spans: Seq<LiveSpanView>) -> Seq<char>
    decreases spans.len(),
{
    if spans.len() == 0 {
        Seq::empty()
    } else if spans.len() == 1 {
        live_span_text(spans[0])
    } else {
        live_spans_text(spans.drop_last()) + ","@ + live_span_text(spans.last())
    }
}

/// The body of a live sidecar.
pub open spec fn live_state_text(
    browser: Seq<char>,
    updated: u64,
    spans: Seq<LiveSpanView>,
) -> Seq<char> {
    json::text_field("{\"browser\":"@, browser) + json::number_field(",\"updated\":"@, updated as int)
        + ",\"spans\":["@ + live_spans_text(spans) + "]}"@
}

impl LiveSpan {
    fn to_json(&self) -> (r: String)
        ensures
            r@ == live_span_text(self@),
    {
        let mut out = String::new();
        push_text_field(&mut out, "{\"url\":", self.url.as_str());
        assert(out@ =~= json::text_field("{\"url\":"@, self.url@));
        push_text_field(&mut out, ",\"title\":", self.title.as_str());
        push_kept_text_field(&mut out, ",\"favicon\":", self.favicon.as_str());
        push_number_field(&mut out, ",\"duration_secs\":", self.duration_secs);
        push_number_field(&mut out, ",\"foreground_secs\":", self.foreground_secs);
        push_flag_field(&mut out, ",\"audible\":", self.audible);
        push_flag_field(&mut out, ",\"foreground\":", self.foreground);
        push_raw(&mut out, "}");
        out
    }
}

impl LiveState {
    /// The body of this sidecar.
    pub fn to_json(&self) -> (r: String)
        ensures
            r@ == live_state_text(self.browser@, self.updated, live_views(self.spans@)),
    {
        let ghost all = live_views(self.spans@);
        let mut list = String::new();
        let mut i: usize = 0;
        assert(all.take(0) =~= Seq::empty());
        while i < self.spans.len()
            invariant
                i <= self.spans@.len(),
                all == live_views(self.spans@),
                list@ == live_spans_text(all.take(i as int)),
            decreases self.spans@.len() - i,
        {
            let one = self.spans[i].to_json();
            assert(all.take(i + 1).last() == self.spans@[i as int]@);
            assert(all.take(i + 1).drop_last() =~= all.take(i as int));
            if i > 0 {
                list.append(",");
            }
            list.append(one.as_str());
            assert(i == 0 ==> list@ =~= one@);
            i = i + 1;
        }
        assert(all.take(all.len() as int) =~= all);
        let mut out = String::new();
        push_text_field(&mut out, "{\"browser\":", self.browser.as_str());
        assert(out@ =~= json::text_field("{\"browser\":"@, self.browser@));
        push_number_field(&mut out, ",\"updated\":", self.updated);
        out.append(",\"spans\":[");
        out.append(list.as_str());
        out.append("]}");
        out
    }
}

// ── the stream ──────────────────────────────────────────────────────────────

/// The rows of the stream `browser`: each visit on the day it started.
pub open spec fn visit_rows(visits: Seq<VisitView>) -> Seq<RowView> {
    Seq::new(visits.len(), |i: int| RowView { ts: visits[i].time, line: visit_line(visits[i]) })
}

impl Vault {
    /// Plan the append of visits to the stream `browser`.
    pub fn append_browser_visits(&self, visits: &Vec<BrowserVisit>) -> (r: Result<
        Vec<DayAppend>,
        VaultError,
    >)
        ensures
            vault::appended(self@, "browser"@, visit_rows(visit_views(visits@)), true, r),
            r matches Err(e) ==> e is NoDatePrefix,
            r matches Ok(plan) ==> vault::reads_back(visit_rows(visit_views(visits@)), plan@),
            all_dated(visits@) ==> r is Ok,
    {
        let mut rows: Vec<DayRow> = Vec::new();
        let mut i: usize = 0;
        while i < visits.len()
            invariant
                i <= visits@.len(),
                vault::row_views(rows@) == visit_rows(visit_views(visits@)).take(i as int),
                forall|k: int|
                    0 <= k < i ==> json::is_line(
                        (#[trigger] visit_rows(visit_views(visits@))[k]).line,
                    ),
            decreases visits@.len() - i,
        {
            let ghost before = vault::row_views(rows@);
            rows.push(DayRow { ts: visits[i].time.clone(), line: visits[i].to_line() });
            assert(visit_rows(visit_views(visits@)).take(i + 1) =~= before.push(
                visit_rows(visit_views(visits@))[i as int],
            ));
            assert(vault::row_views(rows@) =~= before.push(visit_rows(visit_views(visits@))[i as int]));
            i = i + 1;
        }
        assert(vault::row_views(rows@) =~= visit_rows(visit_views(visits@)));
        assert(!vault::bad_stream("browser"@)) by {
            reveal_strlit("browser");
            assert(forall|k: int| !#[trigger] vault::parent_at("browser"@, k));
        }
        let r = self.append_day_jsonl("browser", &rows, true);
        proof {
            if all_dated(visits@) {
                assert forall|k: int| 0 <= k < visits@.len() implies moment::has_date_prefix(
                    (#[trigger] visit_rows(visit_views(visits@))[k]).ts,
                ) by {
                    assert(moment::has_date_prefix(visits@[k].time@));
                }
                vault::lemma_none_undated(visit_rows(visit_views(visits@)));
            }
            if r is Ok {
                vault::law_stream_reads_back(
                    self@,
                    "browser"@,
                    visit_rows(visit_views(visits@)),
                    true,
                    r->Ok_0@,
                );
            }
        }
        r
    }
}

// ── laws ────────────────────────────────────────────────────────────────────

/// `url` is the active tab of the focused window.
pub open spec fn in_front(snap: SnapshotView, url: Seq<char>) -> bool {
    snap.focused && (snap.active matches Some(a) && a.url == url)
}

/// What a tracker is after a run of snapshots.
pub open spec fn after_run(t: TrackerView, steps: Seq<(Moment, SnapshotView)>) -> TrackerView
    decreases steps.len(),
{
    if steps.len() == 0 {
        t
    } else {
        ticked(after_run(t, steps.drop_last()), steps.last().0, steps.last().1)
    }
}

/// After a snapshot a URL has an open span exactly when it is engaged: not
/// empty, and in front or audible.
pub proof fn law_open_exactly_while_engaged(
    t: TrackerView,
    now: Moment,
    snap: SnapshotView,
    url: Seq<char>,
)
    requires
        t.valid(),
        now.valid(),
    ensures
        (span_of(ticked(t, now, snap).spans, url) is Some) == (url.len() > 0 && (in_front(
            snap,
            url,
        ) || shows(snap.audible, url))),
{
    lemma_ticked(t, now, snap);
    let front = foreground_tab(snap);
    lemma_with_audibles(front, snap.audible);
    lemma_engaged_index(front, url);
    if url.len() > 0 && in_front(snap, url) {
        assert(front[0].url == url);
    }
}

/// What a snapshot does to the span of each URL.
pub proof fn law_tick_by_url(t: TrackerView, now: Moment, snap: SnapshotView, url: Seq<char>)
    requires
        t.valid(),
        now.valid(),
    ensures
        span_of(ticked(t, now, snap).spans, url) == span_after(t, now, snap, url),
        ticked(t, now, snap).valid(),
{
    lemma_ticked(t, now, snap);
}

proof fn lemma_visits_bounded(
    config: ExtConfig,
    browser: Seq<char>,
    spans: Seq<SpanView>,
    end: Option<Moment>,
)
    requires
        config.valid(),
        forall|i: int| 0 <= i < spans.len() ==> #[trigger] span_valid(spans[i]),
    ensures
        forall|i: int|
            0 <= i < visits_of(config, browser, spans, end).len() ==> row_bounded(
                config,
                #[trigger] visits_of(config, browser, spans, end)[i],
            ),
    decreases spans.len(),
{
    if spans.len() > 0 {
        assert forall|i: int| 0 <= i < spans.drop_last().len() implies #[trigger] span_valid(
            spans.drop_last()[i],
        ) by {
            assert(span_valid(spans[i]));
        }
        assert(span_valid(spans[spans.len() - 1]));
        lemma_visits_bounded(config, browser, spans.drop_last(), end);
        let rest = visits_of(config, browser, spans.drop_last(), end);
        let all = visits_of(config, browser, spans, end);
        assert forall|i: int| 0 <= i < all.len() implies row_bounded(config, #[trigger] all[i]) by {
            if i < rest.len() {
                assert(all[i] == rest[i]);
            }
        }
    }
}

/// A row is at least as long as the shortest span kept, and its foreground
/// time is part of its duration.
pub open spec fn row_bounded(config: ExtConfig, v: VisitView) -> bool {
    config.min_span_secs <= v.duration_secs && 0 <= v.foreground_secs <= v.duration_secs
        && v.source == "extension"@
}

/// Every row that a snapshot closes is long enough to keep, and its foreground
/// time never exceeds its duration.
pub proof fn law_closed_rows_are_bounded(t: TrackerView, now: Moment, snap: SnapshotView)
    requires
        t.valid(),
        now.valid(),
    ensures
        forall|i: int|
            0 <= i < closed_by(t, now, snap).len() ==> row_bounded(
                t.config,
                #[trigger] closed_by(t, now, snap)[i],
            ),
{
    if is_gap(t, now) {
        lemma_visits_bounded(t.config, t.browser, t.spans, None);
    } else {
        lemma_carried(t, now);
        let eng = engaged_in(snap);
        lemma_gone_valid(carried(t, now), eng);
        lemma_visits_bounded(
            t.config,
            t.browser,
            no_longer_engaged(carried(t, now), eng),
            Some(now),
        );
    }
}

/// Every row that a disconnect closes is bounded likewise.
pub proof fn law_flushed_rows_are_bounded(t: TrackerView)
    requires
        t.valid(),
    ensures
        forall|i: int|
            0 <= i < visits_of(t.config, t.browser, t.spans, None).len() ==> row_bounded(
                t.config,
                #[trigger] visits_of(t.config, t.browser, t.spans, None)[i],
            ),
{
    lemma_visits_bounded(t.config, t.browser, t.spans, None);
}

proof fn lemma_gone_valid(spans: Seq<SpanView>, engaged: Seq<EngagedView>)
    requires
        forall|i: int| 0 <= i < spans.len() ==> #[trigger] span_valid(spans[i]),
    ensures
        forall|i: int|
            0 <= i < no_longer_engaged(spans, engaged).len() ==> #[trigger] span_valid(
                no_longer_engaged(spans, engaged)[i],
            ),
    decreases spans.len(),
{
    if spans.len() > 0 {
        assert forall|i: int| 0 <= i < spans.drop_last().len() implies #[trigger] span_valid(
            spans.drop_last()[i],
        ) by {
            assert(span_valid(spans[i]));
        }
        assert(span_valid(spans[spans.len() - 1]));
        lemma_gone_valid(spans.drop_last(), engaged);
        let rest = no_longer_engaged(spans.drop_last(), engaged);
        let all = no_longer_engaged(spans, engaged);
        assert forall|i: int| 0 <= i < all.len() implies #[trigger] span_valid(all[i]) by {
            if i < rest.len() {
                assert(span_valid(rest[i]));
            }
        }
    }
}

/// A gap is billed to nobody: the rows that it closes are those that a
/// disconnect right after the last snapshot would have closed, whatever the
/// time and the snapshot that end it; and every span open afterwards begins
/// with that snapshot.
pub proof fn law_gap_is_not_billed(t: TrackerView, now: Moment, snap: SnapshotView)
    requires
        t.valid(),
        now.valid(),
        is_gap(t, now),
    ensures
        closed_by(t, now, snap) == visits_of(t.config, t.browser, t.spans, None),
        forall|url: Seq<char>|
            #[trigger] span_of(ticked(t, now, snap).spans, url) matches Some(s) ==> s.start == now
                && s.foreground_secs == 0,
{
    lemma_ticked(t, now, snap);
}

/// A span that stays engaged keeps its beginning, and how it was come by.
pub proof fn law_engaged_span_keeps_its_start(
    t: TrackerView,
    now: Moment,
    snap: SnapshotView,
    url: Seq<char>,
)
    requires
        t.valid(),
        now.valid(),
        !is_gap(t, now),
        span_of(t.spans, url) is Some,
        span_of(ticked(t, now, snap).spans, url) is Some,
    ensures
        ({
            let was = span_of(t.spans, url)->0;
            let is = span_of(ticked(t, now, snap).spans, url)->0;
            &&& is.start == was.start
            &&& is.referrer == was.referrer
            &&& is.transition == was.transition
            &&& is.tab_count == was.tab_count
            &&& is.last_seen == now
        }),
{
    lemma_ticked(t, now, snap);
}

/// Background playback is never billed as foreground time: a URL that is
/// opened and seen over a run of snapshots without ever being in front has no
/// foreground seconds.
pub proof fn law_background_is_never_foreground(
    t: TrackerView,
    steps: Seq<(Moment, SnapshotView)>,
    url: Seq<char>,
)
    requires
        t.valid(),
        span_of(t.spans, url) is None,
        forall|i: int| 0 <= i < steps.len() ==> (#[trigger] steps[i]).0.valid(),
        forall|i: int| 0 <= i < steps.len() ==> !in_front((#[trigger] steps[i]).1, url),
    ensures
        after_run(t, steps).valid(),
        span_of(after_run(t, steps).spans, url) matches Some(s) ==> s.foreground_secs == 0
            && !s.fg_last,
    decreases steps.len(),
{
    if steps.len() > 0 {
        let front = steps.drop_last();
        assert forall|i: int| 0 <= i < front.len() implies (#[trigger] front[i]).0.valid()
            && !in_front(front[i].1, url) by {
            assert(steps[i].0.valid());
            assert(!in_front(steps[i].1, url));
        }
        law_background_is_never_foreground(t, front, url);
        let (now, snap) = steps[steps.len() - 1];
        assert(steps[steps.len() - 1].0.valid());
        lemma_ticked(after_run(t, front), now, snap);
        lemma_with_audibles(foreground_tab(snap), snap.audible);
        lemma_engaged_index(foreground_tab(snap), url);
    }
}

/// A live row never shows more foreground time than time.
pub proof fn law_live_rows_are_bounded(t: TrackerView, now: Moment)
    requires
        t.valid(),
        now.valid(),
    ensures
        forall|i: int|
            0 <= i < t.spans.len() ==> 0 <= live_of(
                t,
                #[trigger] t.spans[i],
                now,
            ).foreground_secs <= live_of(t, t.spans[i], now).duration_secs,
{
    assert forall|i: int| 0 <= i < t.spans.len() implies 0 <= live_of(
        t,
        #[trigger] t.spans[i],
        now,
    ).foreground_secs <= live_of(t, t.spans[i], now).duration_secs by {
        assert(span_valid(t.spans[i]));
    }
}

/// `url` is engaged: it is not empty, and in front or audible.
pub open spec fn is_engaged(snap: SnapshotView, url: Seq<char>) -> bool {
    url.len() > 0 && (in_front(snap, url) || shows(snap.audible, url))
}

/// The tab at `i` is the first that shows `url`.
pub open spec fn first_shown(tabs: Seq<TabView>, url: Seq<char>, i: int) -> bool {
    &&& 0 <= i < tabs.len() && tabs[i].url == url
    &&& forall|j: int| 0 <= j < i ==> (#[trigger] tabs[j]).url != url
}

/// The title that a snapshot shows for `url`: that of the tab in front, else of
/// the first audible tab.
pub open spec fn title_shown(
    snap: SnapshotView,
    tabs: Seq<TabView>,
    url: Seq<char>,
    title: Seq<char>,
) -> bool {
    if in_front(snap, url) {
        title == (snap.active->0).title
    } else {
        exists|i: int| #[trigger] first_shown(tabs, url, i) && title == tabs[i].title
    }
}

/// The tab at `i` is the first that shows `url` with an icon.
pub open spec fn first_icon(tabs: Seq<TabView>, url: Seq<char>, i: int) -> bool {
    &&& 0 <= i < tabs.len() && tabs[i].url == url && tabs[i].favicon.len() > 0
    &&& forall|j: int|
        0 <= j < i && (#[trigger] tabs[j]).url == url ==> tabs[j].favicon.len() == 0
}

/// The icon that a snapshot shows for `url`: that of the tab in front, else of
/// the first audible tab that has one.
pub open spec fn icon_shown(
    snap: SnapshotView,
    tabs: Seq<TabView>,
    url: Seq<char>,
    icon: Seq<char>,
) -> bool {
    if in_front(snap, url) && (snap.active->0).favicon.len() > 0 {
        icon == (snap.active->0).favicon
    } else if icon.len() > 0 {
        exists|i: int| #[trigger] first_icon(tabs, url, i) && icon == tabs[i].favicon
    } else {
        forall|i: int| 0 <= i < tabs.len() && (#[trigger] tabs[i]).url == url ==> tabs[i].favicon.len()
            == 0
    }
}

/// What is known of an engaged URL is what the snapshot says of it.
spec fn entry_fits(snap: SnapshotView, tabs: Seq<TabView>, url: Seq<char>, e: EngagedView) -> bool {
    let none = Seq::<char>::empty();
    &&& e.url == url
    &&& e.fg == in_front(snap, url)
    &&& e.audible == shows(tabs, url)
    &&& title_shown(snap, tabs, url, e.title)
    &&& icon_shown(snap, tabs, url, e.favicon)
    &&& e.referrer == (if in_front(snap, url) {
        (snap.active->0).referrer
    } else {
        none
    })
    &&& e.transition == (if in_front(snap, url) {
        (snap.active->0).transition
    } else {
        none
    })
}

proof fn lemma_entry(snap: SnapshotView, tabs: Seq<TabView>, url: Seq<char>)
    ensures
        ({
            let list = with_audibles(foreground_tab(snap), tabs);
            engaged_index(list, url) matches Some(k) ==> entry_fits(snap, tabs, url, list[k])
        }),
    decreases tabs.len(),
{
    let front = foreground_tab(snap);
    let list = with_audibles(front, tabs);
    lemma_with_audibles(front, tabs);
    lemma_engaged_index(list, url);
    lemma_engaged_index(front, url);
    if tabs.len() == 0 {
        assert(!shows(tabs, url));
        if engaged_index(front, url) is Some {
            assert(entry_fits(snap, tabs, url, front[0]));
        }
    } else {
        let less = tabs.drop_last();
        let tab = tabs.last();
        let mid = with_audibles(front, less);
        lemma_entry(snap, less, url);
        lemma_with_audibles(front, less);
        lemma_engaged_index(mid, url);
        lemma_engaged_index(mid, tab.url);
        if engaged_index(list, url) is Some {
            let k = engaged_index(list, url)->0;
            let e = list[k];
            let n = tabs.len() - 1;
            assert(tabs[n] == tab);
            assert(forall|j: int| 0 <= j < n ==> tabs[j] == less[j]);
            if engaged_index(mid, url) is Some {
                let l = engaged_index(mid, url)->0;
                assert(list[l].url == url);
                assert(k == l) by {
                    if k < l {
                        assert(list[k].url != list[l].url);
                    } else if l < k {
                        assert(list[l].url != list[k].url);
                    }
                }
                let was = mid[l];
                lemma_entry_more(snap, tabs, url, was, e);
            } else {
                assert(tab.url == url && k == list.len() - 1);
                lemma_engaged_index(front, url);
                assert(!in_front(snap, url)) by {
                    if in_front(snap, url) {
                        assert(front[0].url == url);
                    }
                }
                assert forall|j: int| 0 <= j < n implies (#[trigger] tabs[j]).url != url by {
                    if tabs[j].url == url {
                        assert(less[j].url == url);
                        assert(shows(less, url));
                    }
                }
                assert(first_shown(tabs, url, n));
                assert(shows(tabs, url));
                if tab.favicon.len() > 0 {
                    assert(first_icon(tabs, url, n));
                }
            }
        }
    }
}

/// One audible tab more leaves what was known of a URL, but for its sound and an
/// icon that was missing.
proof fn lemma_entry_more(
    snap: SnapshotView,
    tabs: Seq<TabView>,
    url: Seq<char>,
    was: EngagedView,
    e: EngagedView,
)
    requires
        tabs.len() > 0,
        url.len() > 0,
        entry_fits(snap, tabs.drop_last(), url, was),
        e == (if tabs.last().url == url {
            EngagedView {
                audible: true,
                favicon: if was.favicon.len() == 0 {
                    tabs.last().favicon
                } else {
                    was.favicon
                },
                ..was
            }
        } else {
            was
        }),
    ensures
        entry_fits(snap, tabs, url, e),
{
    let less = tabs.drop_last();
    let n = tabs.len() - 1;
    assert(forall|j: int| 0 <= j < n ==> tabs[j] == less[j]);
    assert(tabs[n] == tabs.last());
    if shows(less, url) {
        let i = choose|i: int| 0 <= i < less.len() && (#[trigger] less[i]).url == url;
        assert(tabs[i].url == url);
    }
    if tabs[n].url != url && shows(tabs, url) {
        let i = choose|i: int| 0 <= i < tabs.len() && (#[trigger] tabs[i]).url == url;
        assert(less[i].url == url);
    }
    if !in_front(snap, url) {
        let i = choose|i: int| #[trigger] first_shown(less, url, i) && was.title == less[i].title;
        assert(first_shown(tabs, url, i));
    }
    if !(in_front(snap, url) && (snap.active->0).favicon.len() > 0) {
        if was.favicon.len() > 0 {
            let i = choose|i: int| #[trigger]
                first_icon(less, url, i) && was.favicon == less[i].favicon;
            assert(first_icon(tabs, url, i));
        } else {
            assert forall|i: int|
                0 <= i < n && (#[trigger] tabs[i]).url == url implies tabs[i].favicon.len() == 0 by {
                assert(less[i].url == url);
            }
            if tabs[n].url == url && tabs[n].favicon.len() > 0 {
                assert(first_icon(tabs, url, n));
            }
        }
    }
}

/// A snapshot that shows `url` for the first time opens a span for it: it begins
/// and was last seen now, and holds what the snapshot says of the URL.
pub proof fn law_first_sight_opens_a_span(
    t: TrackerView,
    now: Moment,
    snap: SnapshotView,
    url: Seq<char>,
)
    requires
        t.valid(),
        now.valid(),
        is_engaged(snap, url),
        span_of(t.spans, url) is None || (t.last_tick matches Some(p) && (now.secs_after(p) < 0
            || now.secs_after(p) > t.config.gap_secs)),
    ensures
        span_of(ticked(t, now, snap).spans, url) matches Some(s) && {
            &&& s.url == url && s.start == now && s.last_seen == now && s.foreground_secs == 0
            &&& s.fg_last == in_front(snap, url)
            &&& s.audible_any == shows(snap.audible, url)
            &&& title_shown(snap, snap.audible, url, s.title)
            &&& icon_shown(snap, snap.audible, url, s.favicon)
            &&& s.tab_count == snap.tab_count
            &&& in_front(snap, url) ==> s.referrer == (snap.active->0).referrer && s.transition
                == (snap.active->0).transition
            &&& !in_front(snap, url) ==> s.referrer.len() == 0 && s.transition.len() == 0
        },
{
    lemma_ticked(t, now, snap);
    law_open_exactly_while_engaged(t, now, snap, url);
    lemma_entry(snap, snap.audible, url);
}

/// A snapshot that shows `url` again, in time, carries its span on: the time
/// since the snapshot before is foreground time exactly if the URL was in front
/// there, and from now on it is in front exactly if it is the active tab of the
/// focused window now. A title and an icon that are shown replace the old ones.
pub proof fn law_next_sight_carries_the_span_on(
    t: TrackerView,
    now: Moment,
    snap: SnapshotView,
    url: Seq<char>,
)
    requires
        t.valid(),
        now.valid(),
        is_engaged(snap, url),
        span_of(t.spans, url) is Some,
        t.last_tick matches Some(p) && 0 <= now.secs_after(p) <= t.config.gap_secs,
        span_of(t.spans, url)->0.foreground_secs + now.secs_after(t.last_tick->0) <= i64::MAX,
    ensures
        span_of(ticked(t, now, snap).spans, url) matches Some(s) && {
            let was = span_of(t.spans, url)->0;
            &&& s.url == url && s.start == was.start && s.last_seen == now
            &&& s.foreground_secs == was.foreground_secs + (if was.fg_last {
                now.secs_after(t.last_tick->0)
            } else {
                0
            })
            &&& s.fg_last == in_front(snap, url)
            &&& s.audible_any == (was.audible_any || shows(snap.audible, url))
            &&& title_shown(snap, snap.audible, url, s.title) || s.title == was.title
            &&& s.title == was.title || s.title.len() > 0
            &&& forall|title: Seq<char>| #[trigger]
                title_shown(snap, snap.audible, url, title) && title.len() > 0 ==> s.title == title
            &&& forall|icon: Seq<char>| #[trigger]
                icon_shown(snap, snap.audible, url, icon) ==> s.favicon == (if icon.len() > 0 {
                    icon
                } else {
                    was.favicon
                })
            &&& s.tab_count == was.tab_count && s.referrer == was.referrer && s.transition
                == was.transition
        },
{
    lemma_ticked(t, now, snap);
    law_open_exactly_while_engaged(t, now, snap, url);
    lemma_entry(snap, snap.audible, url);
    lemma_span_of(t.spans, url);
    let list = engaged_in(snap);
    assert(engaged_index(list, url) is Some);
    let e = list[engaged_index(list, url)->0];
    assert forall|title: Seq<char>| #[trigger]
        title_shown(snap, snap.audible, url, title) implies title == e.title by {
        lemma_title_unique(snap, snap.audible, url, title, e.title);
    }
    assert forall|icon: Seq<char>| #[trigger]
        icon_shown(snap, snap.audible, url, icon) implies icon =~= e.favicon by {
        lemma_icon_unique(snap, snap.audible, url, icon, e.favicon);
    }
}

proof fn lemma_title_unique(
    snap: SnapshotView,
    tabs: Seq<TabView>,
    url: Seq<char>,
    a: Seq<char>,
    b: Seq<char>,
)
    requires
        title_shown(snap, tabs, url, a),
        title_shown(snap, tabs, url, b),
    ensures
        a == b,
{
    if !in_front(snap, url) {
        let i = choose|i: int| #[trigger] first_shown(tabs, url, i) && a == tabs[i].title;
        let j = choose|j: int| #[trigger] first_shown(tabs, url, j) && b == tabs[j].title;
        assert(i == j);
    }
}

proof fn lemma_icon_unique(
    snap: SnapshotView,
    tabs: Seq<TabView>,
    url: Seq<char>,
    a: Seq<char>,
    b: Seq<char>,
)
    requires
        icon_shown(snap, tabs, url, a),
        icon_shown(snap, tabs, url, b),
    ensures
        a == b,
{
    if !(in_front(snap, url) && (snap.active->0).favicon.len() > 0) {
        if a.len() > 0 && b.len() > 0 {
            let i = choose|i: int| #[trigger] first_icon(tabs, url, i) && a == tabs[i].favicon;
            let j = choose|j: int| #[trigger] first_icon(tabs, url, j) && b == tabs[j].favicon;
            assert(i == j);
        } else if a.len() > 0 {
            let i = choose|i: int| #[trigger] first_icon(tabs, url, i) && a == tabs[i].favicon;
            assert(tabs[i].favicon.len() == 0);
        } else if b.len() > 0 {
            let i = choose|i: int| #[trigger] first_icon(tabs, url, i) && b == tabs[i].favicon;
            assert(tabs[i].favicon.len() == 0);
        } else {
            assert(a =~= b);
        }
    }
}

/// After any snapshot an open span is marked as foreground exactly when its URL
/// is the active tab of the focused window in that snapshot, and so is its live
/// row.
pub proof fn law_foreground_is_the_active_tab(
    t: TrackerView,
    now: Moment,
    snap: SnapshotView,
    i: int,
    later: Moment,
)
    requires
        t.valid(),
        now.valid(),
        0 <= i < ticked(t, now, snap).spans.len(),
    ensures
        ({
            let after = ticked(t, now, snap);
            let url = after.spans[i].url;
            let front = snap.focused && (snap.active matches Some(a) && a.url == url);
            after.spans[i].fg_last == front && live_of(after, after.spans[i], later).foreground
                == front
        }),
{
    lemma_ticked(t, now, snap);
    let after = ticked(t, now, snap);
    let url = after.spans[i].url;
    assert(span_valid(after.spans[i]));
    lemma_span_at(after.spans, i);
    lemma_entry(snap, snap.audible, url);
}

/// Where no two spans have one URL, each is the span of its URL.
proof fn lemma_span_at(spans: Seq<SpanView>, i: int)
    requires
        0 <= i < spans.len(),
        distinct_urls(spans),
    ensures
        span_of(spans, spans[i].url) == Some(spans[i]),
{
    lemma_span_of(spans, spans[i].url);
    let s = span_of(spans, spans[i].url)->0;
    let j = choose|j: int| 0 <= j < spans.len() && spans[j] == s;
    assert(spans[i].url == spans[i].url);
    if i < j {
        assert(spans[i].url != spans[j].url);
    } else if j < i {
        assert(spans[j].url != spans[i].url);
    }
}

/// The seconds of a run in front: the whole seconds between each snapshot and
/// the next, where the earlier one has `url` in front.
pub open spec fn front_seconds(steps: Seq<(Moment, SnapshotView)>, url: Seq<char>) -> int
    decreases steps.len(),
{
    if steps.len() <= 1 {
        0
    } else {
        let before = steps[steps.len() - 2];
        front_seconds(steps.drop_last(), url) + if in_front(before.1, url) {
            steps.last().0.secs_after(before.0)
        } else {
            0
        }
    }
}

/// A run of snapshots in time: none comes too late, and none before the one
/// before it.
pub open spec fn in_time(steps: Seq<(Moment, SnapshotView)>, gap_secs: int) -> bool {
    &&& forall|i: int| 0 <= i < steps.len() ==> (#[trigger] steps[i]).0.valid()
    &&& forall|i: int, j: int|
        #![trigger steps[i], steps[j]]
        0 <= i && j == i + 1 && j < steps.len() ==> 0 <= steps[j].0.secs_after(steps[i].0)
            <= gap_secs
}

/// `url` is engaged all through a run.
pub open spec fn engaged_throughout(steps: Seq<(Moment, SnapshotView)>, url: Seq<char>) -> bool {
    forall|i: int| 0 <= i < steps.len() ==> is_engaged((#[trigger] steps[i]).1, url)
}

/// `url` is audible somewhere in a run.
pub open spec fn heard(steps: Seq<(Moment, SnapshotView)>, url: Seq<char>) -> bool {
    exists|i: int| 0 <= i < steps.len() && shows((#[trigger] steps[i]).1.audible, url)
}

/// What a span is at the end of a run of snapshots that all engage its URL, the
/// first of which opened it: it began with the first and was last seen at the
/// last; its foreground time is the seconds of the run in front; it is in front
/// if the last snapshot has it in front, and was heard if any has it audible.
pub proof fn law_span_of_a_run(
    t: TrackerView,
    steps: Seq<(Moment, SnapshotView)>,
    url: Seq<char>,
)
    requires
        t.valid(),
        span_of(t.spans, url) is None,
        steps.len() > 0,
        in_time(steps, t.config.gap_secs as int),
        engaged_throughout(steps, url),
        front_seconds(steps, url) + t.config.gap_secs <= i64::MAX,
    ensures
        after_run(t, steps).valid(),
        after_run(t, steps).config == t.config && after_run(t, steps).browser == t.browser,
        after_run(t, steps).last_tick == Some(steps.last().0),
        0 <= front_seconds(steps, url),
        span_of(after_run(t, steps).spans, url) matches Some(s) && {
            &&& s.url == url
            &&& s.start == steps[0].0
            &&& s.last_seen == steps.last().0
            &&& s.foreground_secs == front_seconds(steps, url)
            &&& s.fg_last == in_front(steps.last().1, url)
            &&& s.audible_any == heard(steps, url)
            &&& s.tab_count == steps[0].1.tab_count
            &&& in_front(steps[0].1, url) ==> s.referrer == (steps[0].1.active->0).referrer
                && s.transition == (steps[0].1.active->0).transition
            &&& !in_front(steps[0].1, url) ==> s.referrer.len() == 0 && s.transition.len() == 0
        },
    decreases steps.len(),
{
    let less = steps.drop_last();
    let (now, snap) = steps[steps.len() - 1];
    assert(steps[steps.len() - 1].0.valid());
    assert(is_engaged(steps[steps.len() - 1].1, url));
    if steps.len() == 1 {
        assert(after_run(t, less) == t);
        law_first_sight_opens_a_span(t, now, snap, url);
        lemma_ticked(t, now, snap);
        assert(heard(steps, url) == shows(snap.audible, url)) by {
            if shows(snap.audible, url) {
                assert(shows(steps[0].1.audible, url));
            }
        }
    } else {
        let prev = steps[steps.len() - 2];
        assert(less.last() == prev);
        assert(0 <= now.secs_after(prev.0) <= t.config.gap_secs) by {
            let i = steps.len() - 2;
            assert(steps[i] == prev && steps[i + 1] == (now, snap));
        }
        assert(in_time(less, t.config.gap_secs as int)) by {
            assert forall|i: int| 0 <= i < less.len() implies (#[trigger] less[i]).0.valid() by {
                assert(steps[i].0.valid());
            }
            assert forall|i: int, j: int|
                #![trigger less[i], less[j]]
                0 <= i && j == i + 1 && j < less.len() implies 0 <= less[j].0.secs_after(less[i].0)
                <= t.config.gap_secs by {
                assert(steps[i] == less[i] && steps[j] == less[j]);
            }
        }
        assert(engaged_throughout(less, url)) by {
            assert forall|i: int| 0 <= i < less.len() implies is_engaged(
                (#[trigger] less[i]).1,
                url,
            ) by {
                assert(is_engaged(steps[i].1, url));
            }
        }
        law_span_of_a_run(t, less, url);
        let mid = after_run(t, less);
        law_next_sight_carries_the_span_on(mid, now, snap, url);
        lemma_ticked(mid, now, snap);
        assert(heard(steps, url) == (heard(less, url) || shows(snap.audible, url))) by {
            if heard(less, url) {
                let i = choose|i: int|
                    0 <= i < less.len() && shows((#[trigger] less[i]).1.audible, url);
                assert(shows(steps[i].1.audible, url));
            }
            if shows(snap.audible, url) {
                assert(shows(steps[steps.len() - 1].1.audible, url));
            }
            if heard(steps, url) {
                let i = choose|i: int|
                    0 <= i < steps.len() && shows((#[trigger] steps[i]).1.audible, url);
                if i < less.len() {
                    assert(shows(less[i].1.audible, url));
                }
            }
        }
        assert(less[0] == steps[0]);
    }
}

/// The row of the span `s` in `browser`, ended `secs` seconds after it began,
/// with `fg` seconds in front.
pub open spec fn is_row_of(
    v: VisitView,
    s: SpanView,
    browser: Seq<char>,
    secs: int,
    fg: int,
) -> bool {
    &&& v.time == s.start.text()
    &&& v.url == s.url
    &&& v.title == s.title
    &&& v.browser == browser
    &&& v.profile.len() == 0
    &&& v.duration_secs == secs
    &&& v.source == "extension"@
    &&& v.audible == s.audible_any
    &&& v.foreground_secs <= secs && v.foreground_secs <= fg && (v.foreground_secs == secs
        || v.foreground_secs == fg)
    &&& v.favicon == s.favicon
    &&& v.referrer == s.referrer
    &&& v.transition == s.transition
    &&& v.tab_count == s.tab_count
}

/// The rows for `url` are one row that is kept, or none.
pub open spec fn has_row(rows: Seq<VisitView>, url: Seq<char>) -> bool {
    exists|i: int| 0 <= i < rows.len() && (#[trigger] rows[i]).url == url
}

/// The rows of some spans, looked up by their URLs.
pub proof fn lemma_rows_by_url(
    config: ExtConfig,
    browser: Seq<char>,
    spans: Seq<SpanView>,
    end: Option<Moment>,
    url: Seq<char>,
)
    requires
        distinct_urls(spans),
    ensures
        ({
            let rows = visits_of(config, browser, spans, end);
            match span_of(spans, url) {
                Some(s) => {
                    let at = match end {
                        Some(e) => e,
                        None => s.last_seen,
                    };
                    let secs = at.secs_after(s.start);
                    &&& has_row(rows, url) == (secs >= config.min_span_secs)
                    &&& forall|i: int|
                        0 <= i < rows.len() && (#[trigger] rows[i]).url == url ==> is_row_of(
                            rows[i],
                            s,
                            browser,
                            secs,
                            s.foreground_secs,
                        )
                },
                None => !has_row(rows, url),
            }
        }),
    decreases spans.len(),
{
    let rows = visits_of(config, browser, spans, end);
    if spans.len() > 0 {
        let less = spans.drop_last();
        let s = spans.last();
        assert forall|i: int, j: int| 0 <= i < j < less.len() implies (#[trigger] less[i]).url != (
        #[trigger] less[j]).url by {
            assert(spans[i].url != spans[j].url);
        }
        lemma_rows_by_url(config, browser, less, end, url);
        let rest = visits_of(config, browser, less, end);
        lemma_span_of(less, url);
        if s.url == url && span_of(less, url) is Some {
            let i = choose|i: int| 0 <= i < less.len() && less[i] == span_of(less, url)->0;
            assert(spans[i].url != spans[spans.len() - 1].url);
        }
        assert forall|i: int| 0 <= i < rest.len() implies rows[i] == #[trigger] rest[i] by {
        }
        if has_row(rest, url) {
            let i = choose|i: int| 0 <= i < rest.len() && (#[trigger] rest[i]).url == url;
            assert(rows[i].url == url);
        }
        if has_row(rows, url) {
            let i = choose|i: int| 0 <= i < rows.len() && (#[trigger] rows[i]).url == url;
            if i < rest.len() {
                assert(rest[i].url == url);
            }
        }
        if rows.len() > rest.len() {
            assert(rows[rows.len() - 1].url == s.url);
        }
        assert forall|i: int| 0 <= i < rows.len() && (#[trigger] rows[i]).url == url implies (
        span_of(spans, url) is Some) by {
            if i < rest.len() {
                assert(rest[i].url == url);
            }
        }
        if span_of(spans, url) is Some {
            let sp = span_of(spans, url)->0;
            let at = match end {
                Some(e) => e,
                None => sp.last_seen,
            };
            let secs = at.secs_after(sp.start);
            assert forall|i: int| 0 <= i < rows.len() && (#[trigger] rows[i]).url == url implies is_row_of(
            rows[i], sp, browser, secs, sp.foreground_secs) by {
                if i < rest.len() {
                    assert(rest[i].url == url);
                }
            }
        }
    }
}

proof fn lemma_gone_by_url(spans: Seq<SpanView>, engaged: Seq<EngagedView>, url: Seq<char>)
    requires
        distinct_urls(spans),
    ensures
        distinct_urls(no_longer_engaged(spans, engaged)),
        span_of(no_longer_engaged(spans, engaged), url) == (if engaged_index(engaged, url) is None {
            span_of(spans, url)
        } else {
            None
        }),
    decreases spans.len(),
{
    if spans.len() > 0 {
        let less = spans.drop_last();
        let s = spans.last();
        assert forall|i: int, j: int| 0 <= i < j < less.len() implies (#[trigger] less[i]).url != (
        #[trigger] less[j]).url by {
            assert(spans[i].url != spans[j].url);
        }
        lemma_gone_by_url(less, engaged, url);
        let rest = no_longer_engaged(less, engaged);
        let all = no_longer_engaged(spans, engaged);
        if engaged_index(engaged, s.url) is None {
            assert(all.drop_last() =~= rest);
            lemma_gone_by_url(less, engaged, s.url);
            lemma_span_of(less, s.url);
            if span_of(less, s.url) is Some {
                let i = choose|i: int| 0 <= i < less.len() && less[i] == span_of(less, s.url)->0;
                assert(spans[i].url != spans[spans.len() - 1].url);
            }
            lemma_span_of(rest, s.url);
            assert forall|i: int, j: int| 0 <= i < j < all.len() implies (#[trigger] all[i]).url
                != (#[trigger] all[j]).url by {
                if j < rest.len() {
                    assert(rest[i].url != rest[j].url);
                } else {
                    assert(rest[i].url != s.url);
                }
            }
        }
    }
}

/// A span whose URL is no longer engaged, in a snapshot in time, is closed now:
/// it has a row exactly if it is long enough to keep, and that row runs from its
/// beginning to now, with its foreground time and that since the snapshot before
/// if it was in front there.
pub proof fn law_end_of_engagement_closes_the_span(
    t: TrackerView,
    now: Moment,
    snap: SnapshotView,
    url: Seq<char>,
)
    requires
        t.valid(),
        now.valid(),
        !is_engaged(snap, url),
        span_of(t.spans, url) is Some,
        t.last_tick matches Some(p) && 0 <= now.secs_after(p) <= t.config.gap_secs,
        span_of(t.spans, url)->0.foreground_secs + now.secs_after(t.last_tick->0) <= i64::MAX,
    ensures
        ({
            let s = span_of(t.spans, url)->0;
            let rows = closed_by(t, now, snap);
            let secs = now.secs_after(s.start);
            let fg = s.foreground_secs + (if s.fg_last {
                now.secs_after(t.last_tick->0)
            } else {
                0
            });
            &&& has_row(rows, url) == (secs >= t.config.min_span_secs)
            &&& forall|i: int|
                0 <= i < rows.len() && (#[trigger] rows[i]).url == url ==> is_row_of(
                    rows[i],
                    s,
                    t.browser,
                    secs,
                    fg,
                )
            &&& span_of(ticked(t, now, snap).spans, url) is None
        }),
{
    law_open_exactly_while_engaged(t, now, snap, url);
    lemma_ticked(t, now, snap);
    lemma_carried(t, now);
    lemma_span_of_billed(t.spans, elapsed(t, now), url);
    lemma_with_audibles(foreground_tab(snap), snap.audible);
    lemma_gone_by_url(carried(t, now), engaged_in(snap), url);
    lemma_rows_by_url(
        t.config,
        t.browser,
        no_longer_engaged(carried(t, now), engaged_in(snap)),
        Some(now),
        url,
    );
    assert(engaged_index(engaged_in(snap), url) is None);
    let s = span_of(t.spans, url)->0;
    let closing = billed(s, elapsed(t, now));
    let rows = closed_by(t, now, snap);
    assert(span_of(no_longer_engaged(carried(t, now), engaged_in(snap)), url) == Some(closing));
}

/// A snapshot in time closes no other spans: every row is that of a URL that had
/// a span and is not engaged.
pub proof fn law_only_ended_spans_are_closed(
    t: TrackerView,
    now: Moment,
    snap: SnapshotView,
    url: Seq<char>,
)
    requires
        t.valid(),
        now.valid(),
        t.last_tick matches Some(p) ==> 0 <= now.secs_after(p) <= t.config.gap_secs,
        t.config.gap_secs >= 0,
        has_row(closed_by(t, now, snap), url),
    ensures
        span_of(t.spans, url) is Some,
        !is_engaged(snap, url),
{
    lemma_ticked(t, now, snap);
    law_open_exactly_while_engaged(t, now, snap, url);
    lemma_carried(t, now);
    lemma_span_of_billed(t.spans, elapsed(t, now), url);
    lemma_with_audibles(foreground_tab(snap), snap.audible);
    lemma_gone_by_url(carried(t, now), engaged_in(snap), url);
    lemma_rows_by_url(
        t.config,
        t.browser,
        no_longer_engaged(carried(t, now), engaged_in(snap)),
        Some(now),
        url,
    );
    lemma_engaged_index(foreground_tab(snap), url);
    if is_engaged(snap, url) && in_front(snap, url) {
        assert(foreground_tab(snap)[0].url == url);
    }
}

/// A snapshot that comes too late, or before the one before it, closes every
/// span at its last evidence, and so does a disconnect: its row runs from its
/// beginning to when it was last seen, with the foreground time it had.
pub proof fn law_a_gap_closes_at_the_last_evidence(
    t: TrackerView,
    now: Moment,
    snap: SnapshotView,
    url: Seq<char>,
)
    requires
        t.valid(),
        now.valid(),
        t.last_tick matches Some(p) && (now.secs_after(p) < 0 || now.secs_after(p)
            > t.config.gap_secs),
    ensures
        closed_by(t, now, snap) == visits_of(t.config, t.browser, t.spans, None),
        match span_of(t.spans, url) {
            Some(s) => {
                let rows = visits_of(t.config, t.browser, t.spans, None);
                let secs = s.last_seen.secs_after(s.start);
                &&& has_row(rows, url) == (secs >= t.config.min_span_secs)
                &&& forall|i: int|
                    0 <= i < rows.len() && (#[trigger] rows[i]).url == url ==> is_row_of(
                        rows[i],
                        s,
                        t.browser,
                        secs,
                        s.foreground_secs,
                    )
            },
            None => !has_row(closed_by(t, now, snap), url),
        },
{
    lemma_rows_by_url(t.config, t.browser, t.spans, None, url);
}

/// From snapshots to a row: a URL that was engaged all through a run in time,
/// the first snapshot of which opened its span, and is not in the snapshot
/// after it, gets one row if that is long enough. It runs from the first
/// snapshot to the one that ends it; its foreground time is the part of that
/// spent as the active tab of the focused window, up to a rounding of seconds.
pub proof fn law_row_of_a_run(
    t: TrackerView,
    steps: Seq<(Moment, SnapshotView)>,
    now: Moment,
    snap: SnapshotView,
    url: Seq<char>,
)
    requires
        t.valid(),
        span_of(t.spans, url) is None,
        steps.len() > 0,
        in_time(steps.push((now, snap)), t.config.gap_secs as int),
        engaged_throughout(steps, url),
        !is_engaged(snap, url),
        front_seconds(steps, url) + t.config.gap_secs <= i64::MAX,
    ensures
        ({
            let rows = closed_by(after_run(t, steps), now, snap);
            let secs = now.secs_after(steps[0].0);
            let fg = front_seconds(steps.push((now, snap)), url);
            &&& has_row(rows, url) == (secs >= t.config.min_span_secs)
            &&& forall|i: int|
                0 <= i < rows.len() && (#[trigger] rows[i]).url == url ==> {
                    let v = rows[i];
                    &&& v.time == steps[0].0.text() && v.duration_secs == secs
                    &&& v.foreground_secs == (if fg < secs {
                        fg
                    } else {
                        secs
                    })
                    &&& v.audible == heard(steps, url)
                    &&& v.browser == t.browser && v.source == "extension"@ && v.profile.len() == 0
                    &&& v.tab_count == steps[0].1.tab_count
                }
        }),
{
    let all = steps.push((now, snap));
    assert(all.drop_last() =~= steps);
    let n = steps.len() as int;
    assert(all[n] == (now, snap));
    assert(in_time(steps, t.config.gap_secs as int)) by {
        assert forall|i: int| 0 <= i < steps.len() implies (#[trigger] steps[i]).0.valid() by {
            assert(all[i].0.valid());
        }
        assert forall|i: int, j: int|
            #![trigger steps[i], steps[j]]
            0 <= i && j == i + 1 && j < steps.len() implies 0 <= steps[j].0.secs_after(steps[i].0)
            <= t.config.gap_secs by {
            assert(all[i] == steps[i] && all[j] == steps[j]);
        }
    }
    law_span_of_a_run(t, steps, url);
    assert(all[n - 1] == steps.last());
    assert(0 <= now.secs_after(steps.last().0) <= t.config.gap_secs) by {
        assert(all[n - 1].0 == steps.last().0 && all[n].0 == now);
    }
    assert(all[n].0.valid());
    let mid = after_run(t, steps);
    law_end_of_engagement_closes_the_span(mid, now, snap, url);
}

/// What a live row shows: the URL, title and icon of its span, the time since it
/// began, and the foreground time with that since the last snapshot if the span
/// was in front there.
pub proof fn law_live_row_shows_its_span(t: TrackerView, s: SpanView, now: Moment)
    requires
        t.valid(),
        now.valid(),
        span_valid(s),
        t.last_tick matches Some(p) && now.secs_after(p) >= 0,
        now.secs_after(s.start) >= 0,
    ensures
        ({
            let l = live_of(t, s, now);
            let fg = s.foreground_secs + (if s.fg_last {
                now.secs_after(t.last_tick->0)
            } else {
                0
            });
            &&& l.url == s.url && l.title == s.title && l.favicon == s.favicon
            &&& l.duration_secs == now.secs_after(s.start)
            &&& l.foreground_secs <= fg && l.foreground_secs <= l.duration_secs && (
            l.foreground_secs == fg || l.foreground_secs == l.duration_secs)
            &&& l.audible == s.audible_any && l.foreground == s.fg_last
        }),
{
}

/// `s` holds none of the characters that end a host, and no `@`.
pub open spec fn is_host(s: Seq<char>) -> bool {
    forall|i: int|
        0 <= i < s.len() ==> {
            let c = #[trigger] s[i];
            c != '/' && c != '?' && c != '#' && c != '@' && c != ':'
        }
}

/// `s` holds none of the characters that end what stands between the scheme and
/// the path.
pub open spec fn is_authority(s: Seq<char>) -> bool {
    forall|i: int|
        0 <= i < s.len() ==> {
            let c = #[trigger] s[i];
            c != '/' && c != '?' && c != '#'
        }
}

proof fn lemma_split_scheme(scheme: Seq<char>, rest: Seq<char>)
    requires
        !scheme.contains(':'),
    ensures
        split_scheme(scheme + "://"@ + rest) == (scheme, rest),
{
    reveal_strlit("://");
    let url = scheme + "://"@ + rest;
    let n = scheme.len() as int;
    assert(url.subrange(n, n + 3) =~= "://"@);
    assert forall|i: int| 0 <= i < n implies !#[trigger] text::occurs_at(url, "://"@, i) by {
        if text::occurs_at(url, "://"@, i) {
            assert(url.subrange(i, i + 3)[0] == ':');
            assert(scheme[i] == ':');
        }
    }
    text::lemma_first_at(url, "://"@, 0, n);
    assert(url.take(n) =~= scheme);
    assert(url.skip(n + 3) =~= rest);
}

/// The parts around a host: who stands before it, up to an `@`; a port behind
/// it, from a colon; and a path, query or fragment.
pub open spec fn around_host(user: Seq<char>, port: Seq<char>, tail: Seq<char>) -> bool {
    &&& user.len() == 0 || user.last() == '@'
    &&& is_authority(user)
    &&& port.len() == 0 || port[0] == ':'
    &&& is_authority(port) && !port.contains('@')
    &&& tail.len() == 0 || tail[0] == '/' || tail[0] == '?' || tail[0] == '#'
}

proof fn lemma_host_of(user: Seq<char>, host: Seq<char>, port: Seq<char>, tail: Seq<char>)
    requires
        is_host(host),
        around_host(user, port, tail),
    ensures
        host_of(user + host + port + tail) == host,
{
    let stops = seq!['/', '?', '#'];
    assert(stops[0] == '/' && stops[1] == '?' && stops[2] == '#');
    let authority = user + host + port;
    assert forall|i: int| 0 <= i < authority.len() implies !stops.contains(
        #[trigger] authority[i],
    ) by {
        if i < user.len() {
            assert(authority[i] == user[i]);
        } else if i < user.len() + host.len() {
            assert(authority[i] == host[i - user.len()]);
        } else {
            assert(authority[i] == port[i - user.len() - host.len()]);
        }
    }
    text::lemma_cut(authority, tail, stops);
    let rest = host + port;
    assert(!rest.contains('@')) by {
        if rest.contains('@') {
            let i = rest.index_of('@');
            if i < host.len() {
                assert(host[i] == '@');
            } else {
                assert(port[i - host.len()] == '@');
            }
        }
    }
    if user.len() == 0 {
        assert(authority =~= rest);
        text::lemma_no_last(rest, '@');
    } else {
        let who = user.drop_last();
        assert(authority =~= who + seq!['@'] + rest);
        text::lemma_last_of(who, '@', rest);
        assert(authority.skip(user.len() as int) =~= rest);
    }
    let colon = seq![':'];
    assert(colon[0] == ':');
    assert forall|i: int| 0 <= i < host.len() implies !colon.contains(#[trigger] host[i]) by {
    }
    text::lemma_cut(host, port, colon);
}

/// The domain of a web address is its host: in lower case, without a leading
/// `www.`, and without who is before it, its port, path, query and fragment.
pub proof fn law_domain_of_a_web_address(
    scheme: Seq<char>,
    user: Seq<char>,
    host: Seq<char>,
    port: Seq<char>,
    tail: Seq<char>,
)
    requires
        scheme == "http"@ || scheme == "https"@,
        is_host(host) && host.len() > 0,
        around_host(user, port, tail),
    ensures
        ({
            let url = scheme + "://"@ + (user + host + port + tail);
            let bare = !(host.len() >= 4 && host[0] == 'w' && host[1] == 'w' && host[2] == 'w'
                && host[3] == '.');
            domain_text(url) == text::lowercase_text(
                if bare {
                    host
                } else {
                    host.skip(4)
                },
            )
        }),
{
    reveal_strlit("http");
    reveal_strlit("https");
    reveal_strlit("www.");
    lemma_split_scheme(scheme, user + host + port + tail);
    lemma_host_of(user, host, port, tail);
    if text::has_prefix(host, "www."@) {
        let www = host.take(4);
        assert(www[0] == host[0] && www[1] == host[1] && www[2] == host[2] && www[3] == host[3]);
    } else if host.len() >= 4 && host[0] == 'w' && host[1] == 'w' && host[2] == 'w' && host[3]
        == '.' {
        assert(host.take(4) =~= "www."@);
    }
}

/// The domain of any other address is its scheme, in lower case; of a web
/// address without a host the scheme too; and of nothing at all `other`.
pub proof fn law_domain_of_other_addresses(scheme: Seq<char>, rest: Seq<char>)
    requires
        !scheme.contains(':'),
        scheme.len() > 0,
    ensures
        scheme != "http"@ && scheme != "https"@ ==> domain_text(scheme + "://"@ + rest)
            == text::lowercase_text(scheme),
        (scheme == "http"@ || scheme == "https"@) && (rest.len() == 0 || rest[0] == '/')
            ==> domain_text(scheme + "://"@ + rest) == scheme,
        domain_text(Seq::empty()) == "other"@,
{
    reveal_strlit("://");
    lemma_split_scheme(scheme, rest);
    let none = Seq::<char>::empty();
    if rest.len() == 0 || rest[0] == '/' {
        lemma_host_of(none, none, none, rest);
        assert(none + none + none + rest =~= rest);
    }
    text::lemma_nowhere(none, "://"@, 0);
    lemma_host_of(none, none, none, none);
    assert(none + none + none + none =~= none);
}

/// Without a scheme the host stands at the front.
pub proof fn law_domain_without_a_scheme(
    user: Seq<char>,
    host: Seq<char>,
    port: Seq<char>,
    tail: Seq<char>,
)
    requires
        is_host(host) && host.len() > 0,
        around_host(user, port, tail),
        forall|i: int| !#[trigger] text::occurs_at(user + host + port + tail, "://"@, i),
    ensures
        domain_text(user + host + port + tail) == domain_text(
            "https"@ + "://"@ + (user + host + port + tail),
        ),
{
    reveal_strlit("http");
    reveal_strlit("https");
    text::lemma_nowhere(user + host + port + tail, "://"@, 0);
    lemma_host_of(user, host, port, tail);
    lemma_split_scheme("https"@, user + host + port + tail);
}

// ── a line tells its record ────────────────────────────────────────────────

spec fn from_tab_count(v: VisitView) -> Seq<char> {
    json::kept_number_field(",\"tab_count\":"@, v.tab_count as int) + "}"@
}

spec fn from_transition(v: VisitView) -> Seq<char> {
    json::kept_text_field(",\"transition\":"@, v.transition) + from_tab_count(v)
}

spec fn from_referrer(v: VisitView) -> Seq<char> {
    json::kept_text_field(",\"referrer\":"@, v.referrer) + from_transition(v)
}

spec fn from_favicon(v: VisitView) -> Seq<char> {
    json::kept_text_field(",\"favicon\":"@, v.favicon) + from_referrer(v)
}

spec fn from_foreground_secs(v: VisitView) -> Seq<char> {
    json::kept_number_field(",\"foreground_secs\":"@, v.foreground_secs) + from_favicon(v)
}

spec fn from_audible(v: VisitView) -> Seq<char> {
    json::kept_flag_field(",\"audible\":"@, v.audible) + from_foreground_secs(v)
}

spec fn from_source(v: VisitView) -> Seq<char> {
    json::text_field(",\"source\":"@, v.source) + from_audible(v)
}

spec fn from_duration_secs(v: VisitView) -> Seq<char> {
    json::number_field(",\"duration_secs\":"@, v.duration_secs) + from_source(v)
}

spec fn from_profile(v: VisitView) -> Seq<char> {
    json::text_field(",\"profile\":"@, v.profile) + from_duration_secs(v)
}

spec fn from_browser(v: VisitView) -> Seq<char> {
    json::text_field(",\"browser\":"@, v.browser) + from_profile(v)
}

spec fn from_title(v: VisitView) -> Seq<char> {
    json::text_field(",\"title\":"@, v.title) + from_browser(v)
}

spec fn from_url(v: VisitView) -> Seq<char> {
    json::text_field(",\"url\":"@, v.url) + from_title(v)
}

proof fn lemma_line_from_the_front(v: VisitView)
    ensures
        visit_line(v) == json::text_field("{\"time\":"@, v.time) + from_url(v),
{
    let f1 = json::text_field("{\"time\":"@, v.time);
    let f2 = json::text_field(",\"url\":"@, v.url);
    let f3 = json::text_field(",\"title\":"@, v.title);
    let f4 = json::text_field(",\"browser\":"@, v.browser);
    let f5 = json::text_field(",\"profile\":"@, v.profile);
    let f6 = json::number_field(",\"duration_secs\":"@, v.duration_secs);
    let f7 = json::text_field(",\"source\":"@, v.source);
    let f8 = json::kept_flag_field(",\"audible\":"@, v.audible);
    let f9 = json::kept_number_field(",\"foreground_secs\":"@, v.foreground_secs);
    let f10 = json::kept_text_field(",\"favicon\":"@, v.favicon);
    let f11 = json::kept_text_field(",\"referrer\":"@, v.referrer);
    let f12 = json::kept_text_field(",\"transition\":"@, v.transition);
    let f13 = json::kept_number_field(",\"tab_count\":"@, v.tab_count as int);
    let p1 = f1;
    let p2 = p1 + f2;
    let p3 = p2 + f3;
    let p4 = p3 + f4;
    let p5 = p4 + f5;
    let p6 = p5 + f6;
    let p7 = p6 + f7;
    let p8 = p7 + f8;
    let p9 = p8 + f9;
    let p10 = p9 + f10;
    let p11 = p10 + f11;
    let p12 = p11 + f12;
    let p13 = p12 + f13;
    json::lemma_regroup(p12, f13, "}"@);
    json::lemma_regroup(p11, f12, from_tab_count(v));
    json::lemma_regroup(p10, f11, from_transition(v));
    json::lemma_regroup(p9, f10, from_referrer(v));
    json::lemma_regroup(p8, f9, from_favicon(v));
    json::lemma_regroup(p7, f8, from_foreground_secs(v));
    json::lemma_regroup(p6, f7, from_audible(v));
    json::lemma_regroup(p5, f6, from_source(v));
    json::lemma_regroup(p4, f5, from_duration_secs(v));
    json::lemma_regroup(p3, f4, from_profile(v));
    json::lemma_regroup(p2, f3, from_browser(v));
    json::lemma_regroup(p1, f2, from_title(v));
}

/// A field that is left out is not made up for by a later one, and a number is
/// followed by something else.
proof fn lemma_fields_stand_apart(v: VisitView)
    ensures
        !text::has_prefix(from_foreground_secs(v), ",\"audible\":"@),
        !text::has_prefix(from_favicon(v), ",\"foreground_secs\":"@),
        !text::has_prefix(from_referrer(v), ",\"favicon\":"@),
        !text::has_prefix(from_transition(v), ",\"referrer\":"@),
        !text::has_prefix(from_tab_count(v), ",\"transition\":"@),
        !text::has_prefix("}"@, ",\"tab_count\":"@),
        json::ends_number(from_source(v)),
        json::ends_number(from_favicon(v)),
        json::ends_number("}"@),
{
    reveal_strlit(",\"duration_secs\":");
    reveal_strlit(",\"source\":");
    reveal_strlit(",\"audible\":");
    reveal_strlit(",\"foreground_secs\":");
    reveal_strlit(",\"favicon\":");
    reveal_strlit(",\"referrer\":");
    reveal_strlit(",\"transition\":");
    reveal_strlit(",\"tab_count\":");
    reveal_strlit("}");
    json::lemma_kept_fields_are_behind(",\"audible\":"@, Seq::empty(), 0, v.audible);
    json::lemma_kept_fields_are_behind(
        ",\"foreground_secs\":"@,
        Seq::empty(),
        v.foreground_secs,
        false,
    );
    json::lemma_kept_fields_are_behind(",\"favicon\":"@, v.favicon, 0, false);
    json::lemma_kept_fields_are_behind(",\"referrer\":"@, v.referrer, 0, false);
    json::lemma_kept_fields_are_behind(",\"transition\":"@, v.transition, 0, false);
    json::lemma_kept_fields_are_behind(
        ",\"tab_count\":"@,
        Seq::empty(),
        v.tab_count as int,
        false,
    );
    assert(json::number_field(",\"duration_secs\":"@, v.duration_secs).take(
        ",\"duration_secs\":"@.len() as int,
    ) =~= ",\"duration_secs\":"@);
    assert(json::text_field(",\"source\":"@, v.source).take(
        ",\"source\":"@.len() as int,
    ) =~= ",\"source\":"@);
    json::lemma_not_taken_for(
        json::kept_number_field(",\"tab_count\":"@, v.tab_count as int),
        ",\"tab_count\":"@,
        "}"@,
        ",\"audible\":"@,
        2,
    );
    json::lemma_not_taken_for(
        json::kept_text_field(",\"transition\":"@, v.transition),
        ",\"transition\":"@,
        from_tab_count(v),
        ",\"audible\":"@,
        2,
    );
    json::lemma_not_taken_for(
        json::kept_text_field(",\"referrer\":"@, v.referrer),
        ",\"referrer\":"@,
        from_transition(v),
        ",\"audible\":"@,
        2,
    );
    json::lemma_not_taken_for(
        json::kept_text_field(",\"favicon\":"@, v.favicon),
        ",\"favicon\":"@,
        from_referrer(v),
        ",\"audible\":"@,
        2,
    );
    json::lemma_not_taken_for(
        json::kept_number_field(",\"foreground_secs\":"@, v.foreground_secs),
        ",\"foreground_secs\":"@,
        from_favicon(v),
        ",\"audible\":"@,
        2,
    );
    json::lemma_not_taken_for(
        json::kept_number_field(",\"tab_count\":"@, v.tab_count as int),
        ",\"tab_count\":"@,
        "}"@,
        ",\"foreground_secs\":"@,
        2,
    );
    json::lemma_not_taken_for(
        json::kept_text_field(",\"transition\":"@, v.transition),
        ",\"transition\":"@,
        from_tab_count(v),
        ",\"foreground_secs\":"@,
        2,
    );
    json::lemma_not_taken_for(
        json::kept_text_field(",\"referrer\":"@, v.referrer),
        ",\"referrer\":"@,
        from_transition(v),
        ",\"foreground_secs\":"@,
        2,
    );
    json::lemma_not_taken_for(
        json::kept_text_field(",\"favicon\":"@, v.favicon),
        ",\"favicon\":"@,
        from_referrer(v),
        ",\"foreground_secs\":"@,
        3,
    );
    json::lemma_not_taken_for(
        json::kept_number_field(",\"tab_count\":"@, v.tab_count as int),
        ",\"tab_count\":"@,
        "}"@,
        ",\"favicon\":"@,
        2,
    );
    json::lemma_not_taken_for(
        json::kept_text_field(",\"transition\":"@, v.transition),
        ",\"transition\":"@,
        from_tab_count(v),
        ",\"favicon\":"@,
        2,
    );
    json::lemma_not_taken_for(
        json::kept_text_field(",\"referrer\":"@, v.referrer),
        ",\"referrer\":"@,
        from_transition(v),
        ",\"favicon\":"@,
        2,
    );
    json::lemma_not_taken_for(
        json::kept_number_field(",\"tab_count\":"@, v.tab_count as int),
        ",\"tab_count\":"@,
        "}"@,
        ",\"referrer\":"@,
        2,
    );
    json::lemma_not_taken_for(
        json::kept_text_field(",\"transition\":"@, v.transition),
        ",\"transition\":"@,
        from_tab_count(v),
        ",\"referrer\":"@,
        2,
    );
    json::lemma_not_taken_for(
        json::kept_number_field(",\"tab_count\":"@, v.tab_count as int),
        ",\"tab_count\":"@,
        "}"@,
        ",\"transition\":"@,
        3,
    );
    assert(from_source(v)[0] == ',');
    json::lemma_field_ends_number(
        json::kept_number_field(",\"tab_count\":"@, v.tab_count as int),
        ",\"tab_count\":"@,
        "}"@,
    );
    json::lemma_field_ends_number(
        json::kept_text_field(",\"transition\":"@, v.transition),
        ",\"transition\":"@,
        from_tab_count(v),
    );
    json::lemma_field_ends_number(
        json::kept_text_field(",\"referrer\":"@, v.referrer),
        ",\"referrer\":"@,
        from_transition(v),
    );
    json::lemma_field_ends_number(
        json::kept_text_field(",\"favicon\":"@, v.favicon),
        ",\"favicon\":"@,
        from_referrer(v),
    );
}

/// A line tells its visit: no two visits have the same line, though extras that
/// are false, zero or empty are left out.
pub proof fn law_line_tells_the_visit(a: VisitView, b: VisitView)
    requires
        visit_line(a) == visit_line(b),
        0 <= a.duration_secs && 0 <= a.foreground_secs,
        0 <= b.duration_secs && 0 <= b.foreground_secs,
    ensures
        a == b,
{
    lemma_line_from_the_front(a);
    lemma_line_from_the_front(b);
    lemma_fields_stand_apart(a);
    lemma_fields_stand_apart(b);
    json::lemma_text_field_reads_back("{\"time\":"@, a.time, from_url(a), b.time, from_url(b));
    json::lemma_text_field_reads_back(",\"url\":"@, a.url, from_title(a), b.url, from_title(b));
    json::lemma_text_field_reads_back(
        ",\"title\":"@,
        a.title,
        from_browser(a),
        b.title,
        from_browser(b),
    );
    json::lemma_text_field_reads_back(
        ",\"browser\":"@,
        a.browser,
        from_profile(a),
        b.browser,
        from_profile(b),
    );
    json::lemma_text_field_reads_back(
        ",\"profile\":"@,
        a.profile,
        from_duration_secs(a),
        b.profile,
        from_duration_secs(b),
    );
    json::lemma_number_field_reads_back(
        ",\"duration_secs\":"@,
        a.duration_secs,
        from_source(a),
        b.duration_secs,
        from_source(b),
    );
    json::lemma_text_field_reads_back(
        ",\"source\":"@,
        a.source,
        from_audible(a),
        b.source,
        from_audible(b),
    );
    json::lemma_kept_flag_field_reads_back(
        ",\"audible\":"@,
        a.audible,
        from_foreground_secs(a),
        b.audible,
        from_foreground_secs(b),
    );
    json::lemma_kept_number_field_reads_back(
        ",\"foreground_secs\":"@,
        a.foreground_secs,
        from_favicon(a),
        b.foreground_secs,
        from_favicon(b),
    );
    json::lemma_kept_text_field_reads_back(
        ",\"favicon\":"@,
        a.favicon,
        from_referrer(a),
        b.favicon,
        from_referrer(b),
    );
    json::lemma_kept_text_field_reads_back(
        ",\"referrer\":"@,
        a.referrer,
        from_transition(a),
        b.referrer,
        from_transition(b),
    );
    json::lemma_kept_text_field_reads_back(
        ",\"transition\":"@,
        a.transition,
        from_tab_count(a),
        b.transition,
        from_tab_count(b),
    );
    json::lemma_kept_number_field_reads_back(
        ",\"tab_count\":"@,
        a.tab_count as int,
        "}"@,
        b.tab_count as int,
        "}"@,
    );
    assert(a =~= b);
}

/// The line of a visit names its fields, each with its own value; of the extras
/// those that are not false, zero or empty.
#[verifier::rlimit(40)]
pub proof fn law_line_names_its_fields(v: VisitView)
    ensures
        json::has_field(visit_line(v), "time"@, json::json_text(v.time)),
        json::has_field(visit_line(v), "url"@, json::json_text(v.url)),
        json::has_field(visit_line(v), "title"@, json::json_text(v.title)),
        json::has_field(visit_line(v), "browser"@, json::json_text(v.browser)),
        json::has_field(visit_line(v), "profile"@, json::json_text(v.profile)),
        json::has_field(visit_line(v), "duration_secs"@, json::decimal(v.duration_secs as nat)),
        json::has_field(visit_line(v), "source"@, json::json_text(v.source)),
        v.audible ==> json::has_field(visit_line(v), "audible"@, "true"@),
        v.foreground_secs != 0 ==> json::has_field(
            visit_line(v),
            "foreground_secs"@,
            json::decimal(v.foreground_secs as nat),
        ),
        v.favicon.len() > 0 ==> json::has_field(
            visit_line(v),
            "favicon"@,
            json::json_text(v.favicon),
        ),
        v.referrer.len() > 0 ==> json::has_field(
            visit_line(v),
            "referrer"@,
            json::json_text(v.referrer),
        ),
        v.transition.len() > 0 ==> json::has_field(
            visit_line(v),
            "transition"@,
            json::json_text(v.transition),
        ),
        v.tab_count != 0 ==> json::has_field(
            visit_line(v),
            "tab_count"@,
            json::decimal((v.tab_count as int) as nat),
        ),
{
    assert(json::goes_on("}"@)) by {
        reveal_strlit("}");
    }
    assert({
        &&& v.tab_count != 0 ==> json::has_field(
            from_tab_count(v),
            "tab_count"@,
            json::decimal((v.tab_count as int) as nat),
        )
        &&& json::goes_on(from_tab_count(v))
    }) by {
        reveal_strlit(",\"tab_count\":");
        reveal_strlit("tab_count");
        if v.tab_count != 0 {
            json::lemma_field_at_the_front(
                ",\"tab_count\":"@,
                "tab_count"@,
                json::decimal((v.tab_count as int) as nat),
                "}"@,
            );
        } else {
            assert(json::kept_number_field(",\"tab_count\":"@, v.tab_count as int) + "}"@ =~= "}"@);
        }
    }
    json::lemma_fields_behind(
        json::kept_number_field(",\"tab_count\":"@, v.tab_count as int),
        "}"@,
    );
    assert({
        &&& v.transition.len() > 0 ==> json::has_field(
            from_transition(v),
            "transition"@,
            json::json_text(v.transition),
        )
        &&& json::goes_on(from_transition(v))
    }) by {
        reveal_strlit(",\"transition\":");
        reveal_strlit("transition");
        if v.transition.len() > 0 {
            json::lemma_field_at_the_front(
                ",\"transition\":"@,
                "transition"@,
                json::json_text(v.transition),
                from_tab_count(v),
            );
        } else {
            assert(json::kept_text_field(",\"transition\":"@, v.transition) + from_tab_count(v) =~= from_tab_count(v));
        }
    }
    json::lemma_fields_behind(
        json::kept_text_field(",\"transition\":"@, v.transition),
        from_tab_count(v),
    );
    assert({
        &&& v.referrer.len() > 0 ==> json::has_field(
            from_referrer(v),
            "referrer"@,
            json::json_text(v.referrer),
        )
        &&& json::goes_on(from_referrer(v))
    }) by {
        reveal_strlit(",\"referrer\":");
        reveal_strlit("referrer");
        if v.referrer.len() > 0 {
            json::lemma_field_at_the_front(
                ",\"referrer\":"@,
                "referrer"@,
                json::json_text(v.referrer),
                from_transition(v),
            );
        } else {
            assert(json::kept_text_field(",\"referrer\":"@, v.referrer) + from_transition(v) =~= from_transition(v));
        }
    }
    json::lemma_fields_behind(
        json::kept_text_field(",\"referrer\":"@, v.referrer),
        from_transition(v),
    );
    assert({
        &&& v.favicon.len() > 0 ==> json::has_field(
            from_favicon(v),
            "favicon"@,
            json::json_text(v.favicon),
        )
        &&& json::goes_on(from_favicon(v))
    }) by {
        reveal_strlit(",\"favicon\":");
        reveal_strlit("favicon");
        if v.favicon.len() > 0 {
            json::lemma_field_at_the_front(
                ",\"favicon\":"@,
                "favicon"@,
                json::json_text(v.favicon),
                from_referrer(v),
            );
        } else {
            assert(json::kept_text_field(",\"favicon\":"@, v.favicon) + from_referrer(v) =~= from_referrer(v));
        }
    }
    json::lemma_fields_behind(
        json::kept_text_field(",\"favicon\":"@, v.favicon),
        from_referrer(v),
    );
    assert({
        &&& v.foreground_secs != 0 ==> json::has_field(
            from_foreground_secs(v),
            "foreground_secs"@,
            json::decimal(v.foreground_secs as nat),
        )
        &&& json::goes_on(from_foreground_secs(v))
    }) by {
        reveal_strlit(",\"foreground_secs\":");
        reveal_strlit("foreground_secs");
        if v.foreground_secs != 0 {
            json::lemma_field_at_the_front(
                ",\"foreground_secs\":"@,
                "foreground_secs"@,
                json::decimal(v.foreground_secs as nat),
                from_favicon(v),
            );
        } else {
            assert(json::kept_number_field(",\"foreground_secs\":"@, v.foreground_secs) + from_favicon(v) =~= from_favicon(v));
        }
    }
    json::lemma_fields_behind(
        json::kept_number_field(",\"foreground_secs\":"@, v.foreground_secs),
        from_favicon(v),
    );
    assert({
        &&& v.audible ==> json::has_field(
            from_audible(v),
            "audible"@,
            "true"@,
        )
        &&& json::goes_on(from_audible(v))
    }) by {
        reveal_strlit(",\"audible\":");
        reveal_strlit("audible");
        if v.audible {
            json::lemma_field_at_the_front(
                ",\"audible\":"@,
                "audible"@,
                "true"@,
                from_foreground_secs(v),
            );
        } else {
            assert(json::kept_flag_field(",\"audible\":"@, v.audible) + from_foreground_secs(v) =~= from_foreground_secs(v));
        }
    }
    json::lemma_fields_behind(
        json::kept_flag_field(",\"audible\":"@, v.audible),
        from_foreground_secs(v),
    );
    assert({
        &&& json::has_field(
            from_source(v),
            "source"@,
            json::json_text(v.source),
        )
        &&& json::goes_on(from_source(v))
    }) by {
        reveal_strlit(",\"source\":");
        reveal_strlit("source");
        json::lemma_field_at_the_front(
            ",\"source\":"@,
            "source"@,
            json::json_text(v.source),
            from_audible(v),
        );
    }
    json::lemma_fields_behind(json::text_field(",\"source\":"@, v.source), from_audible(v));
    assert({
        &&& json::has_field(
            from_duration_secs(v),
            "duration_secs"@,
            json::decimal(v.duration_secs as nat),
        )
        &&& json::goes_on(from_duration_secs(v))
    }) by {
        reveal_strlit(",\"duration_secs\":");
        reveal_strlit("duration_secs");
        json::lemma_field_at_the_front(
            ",\"duration_secs\":"@,
            "duration_secs"@,
            json::decimal(v.duration_secs as nat),
            from_source(v),
        );
    }
    json::lemma_fields_behind(
        json::number_field(",\"duration_secs\":"@, v.duration_secs),
        from_source(v),
    );
    assert({
        &&& json::has_field(
            from_profile(v),
            "profile"@,
            json::json_text(v.profile),
        )
        &&& json::goes_on(from_profile(v))
    }) by {
        reveal_strlit(",\"profile\":");
        reveal_strlit("profile");
        json::lemma_field_at_the_front(
            ",\"profile\":"@,
            "profile"@,
            json::json_text(v.profile),
            from_duration_secs(v),
        );
    }
    json::lemma_fields_behind(
        json::text_field(",\"profile\":"@, v.profile),
        from_duration_secs(v),
    );
    assert({
        &&& json::has_field(
            from_browser(v),
            "browser"@,
            json::json_text(v.browser),
        )
        &&& json::goes_on(from_browser(v))
    }) by {
        reveal_strlit(",\"browser\":");
        reveal_strlit("browser");
        json::lemma_field_at_the_front(
            ",\"browser\":"@,
            "browser"@,
            json::json_text(v.browser),
            from_profile(v),
        );
    }
    json::lemma_fields_behind(json::text_field(",\"browser\":"@, v.browser), from_profile(v));
    assert({
        &&& json::has_field(
            from_title(v),
            "title"@,
            json::json_text(v.title),
        )
        &&& json::goes_on(from_title(v))
    }) by {
        reveal_strlit(",\"title\":");
        reveal_strlit("title");
        json::lemma_field_at_the_front(
            ",\"title\":"@,
            "title"@,
            json::json_text(v.title),
            from_browser(v),
        );
    }
    json::lemma_fields_behind(json::text_field(",\"title\":"@, v.title), from_browser(v));
    assert({
        &&& json::has_field(
            from_url(v),
            "url"@,
            json::json_text(v.url),
        )
        &&& json::goes_on(from_url(v))
    }) by {
        reveal_strlit(",\"url\":");
        reveal_strlit("url");
        json::lemma_field_at_the_front(
            ",\"url\":"@,
            "url"@,
            json::json_text(v.url),
            from_title(v),
        );
    }
    json::lemma_fields_behind(json::text_field(",\"url\":"@, v.url), from_title(v));
    assert(json::has_field(json::text_field("{\"time\":"@, v.time) + from_url(v), "time"@, json::json_text(v.time))) by {
        reveal_strlit("{\"time\":");
        reveal_strlit("time");
        json::lemma_field_at_the_front(
            "{\"time\":"@,
            "time"@,
            json::json_text(v.time),
            from_url(v),
        );
    }
    json::lemma_fields_behind(json::text_field("{\"time\":"@, v.time), from_url(v));
    lemma_line_from_the_front(v);
}

spec fn live_from_foreground(l: LiveSpanView) -> Seq<char> {
    json::flag_field(",\"foreground\":"@, l.foreground) + "}"@
}

spec fn live_from_audible(l: LiveSpanView) -> Seq<char> {
    json::flag_field(",\"audible\":"@, l.audible) + live_from_foreground(l)
}

spec fn live_from_foreground_secs(l: LiveSpanView) -> Seq<char> {
    json::number_field(",\"foreground_secs\":"@, l.foreground_secs) + live_from_audible(l)
}

spec fn live_from_duration_secs(l: LiveSpanView) -> Seq<char> {
    json::number_field(",\"duration_secs\":"@, l.duration_secs) + live_from_foreground_secs(l)
}

spec fn live_from_favicon(l: LiveSpanView) -> Seq<char> {
    json::kept_text_field(",\"favicon\":"@, l.favicon) + live_from_duration_secs(l)
}

spec fn live_from_title(l: LiveSpanView) -> Seq<char> {
    json::text_field(",\"title\":"@, l.title) + live_from_favicon(l)
}

proof fn lemma_live_span_from_the_front(l: LiveSpanView)
    ensures
        live_span_text(l) == json::text_field("{\"url\":"@, l.url) + live_from_title(l),
{
    let f1 = json::text_field("{\"url\":"@, l.url);
    let f2 = json::text_field(",\"title\":"@, l.title);
    let f3 = json::kept_text_field(",\"favicon\":"@, l.favicon);
    let f4 = json::number_field(",\"duration_secs\":"@, l.duration_secs);
    let f5 = json::number_field(",\"foreground_secs\":"@, l.foreground_secs);
    let f6 = json::flag_field(",\"audible\":"@, l.audible);
    let f7 = json::flag_field(",\"foreground\":"@, l.foreground);
    let p1 = f1;
    let p2 = p1 + f2;
    let p3 = p2 + f3;
    let p4 = p3 + f4;
    let p5 = p4 + f5;
    let p6 = p5 + f6;
    let p7 = p6 + f7;
    json::lemma_regroup(p6, f7, "}"@);
    json::lemma_regroup(p5, f6, live_from_foreground(l));
    json::lemma_regroup(p4, f5, live_from_audible(l));
    json::lemma_regroup(p3, f4, live_from_foreground_secs(l));
    json::lemma_regroup(p2, f3, live_from_duration_secs(l));
    json::lemma_regroup(p1, f2, live_from_favicon(l));
}

/// A live span in a sidecar names its fields, each with its own value; an icon
/// only if there is one.
#[verifier::rlimit(30)]
pub proof fn law_live_span_names_its_fields(l: LiveSpanView)
    ensures
        json::has_field(live_span_text(l), "url"@, json::json_text(l.url)),
        json::has_field(live_span_text(l), "title"@, json::json_text(l.title)),
        l.favicon.len() > 0 ==> json::has_field(
            live_span_text(l),
            "favicon"@,
            json::json_text(l.favicon),
        ),
        json::has_field(
            live_span_text(l),
            "duration_secs"@,
            json::decimal(l.duration_secs as nat),
        ),
        json::has_field(
            live_span_text(l),
            "foreground_secs"@,
            json::decimal(l.foreground_secs as nat),
        ),
        json::has_field(live_span_text(l), "audible"@, json::bool_text(l.audible)),
        json::has_field(live_span_text(l), "foreground"@, json::bool_text(l.foreground)),
{
    assert(json::goes_on("}"@)) by {
        reveal_strlit("}");
    }
    assert(json::has_field(live_from_foreground(l), "foreground"@, json::bool_text(l.foreground)) && json::goes_on(live_from_foreground(l))) by {
        reveal_strlit(",\"foreground\":");
        reveal_strlit("foreground");
        json::lemma_field_at_the_front(
            ",\"foreground\":"@,
            "foreground"@,
            json::bool_text(l.foreground),
            "}"@,
        );
    }
    json::lemma_fields_behind(json::flag_field(",\"foreground\":"@, l.foreground), "}"@);
    assert(json::has_field(live_from_audible(l), "audible"@, json::bool_text(l.audible)) && json::goes_on(live_from_audible(l))) by {
        reveal_strlit(",\"audible\":");
        reveal_strlit("audible");
        json::lemma_field_at_the_front(
            ",\"audible\":"@,
            "audible"@,
            json::bool_text(l.audible),
            live_from_foreground(l),
        );
    }
    json::lemma_fields_behind(
        json::flag_field(",\"audible\":"@, l.audible),
        live_from_foreground(l),
    );
    assert(json::has_field(live_from_foreground_secs(l), "foreground_secs"@, json::decimal(l.foreground_secs as nat)) && json::goes_on(live_from_foreground_secs(l))) by {
        reveal_strlit(",\"foreground_secs\":");
        reveal_strlit("foreground_secs");
        json::lemma_field_at_the_front(
            ",\"foreground_secs\":"@,
            "foreground_secs"@,
            json::decimal(l.foreground_secs as nat),
            live_from_audible(l),
        );
    }
    json::lemma_fields_behind(
        json::number_field(",\"foreground_secs\":"@, l.foreground_secs),
        live_from_audible(l),
    );
    assert(json::has_field(live_from_duration_secs(l), "duration_secs"@, json::decimal(l.duration_secs as nat)) && json::goes_on(live_from_duration_secs(l))) by {
        reveal_strlit(",\"duration_secs\":");
        reveal_strlit("duration_secs");
        json::lemma_field_at_the_front(
            ",\"duration_secs\":"@,
            "duration_secs"@,
            json::decimal(l.duration_secs as nat),
            live_from_foreground_secs(l),
        );
    }
    json::lemma_fields_behind(
        json::number_field(",\"duration_secs\":"@, l.duration_secs),
        live_from_foreground_secs(l),
    );
    assert((l.favicon.len() > 0 ==> json::has_field(live_from_favicon(l), "favicon"@, json::json_text(l.favicon))) && json::goes_on(live_from_favicon(l))) by {
        reveal_strlit(",\"favicon\":");
        reveal_strlit("favicon");
        if l.favicon.len() > 0 {
            json::lemma_field_at_the_front(
                ",\"favicon\":"@,
                "favicon"@,
                json::json_text(l.favicon),
                live_from_duration_secs(l),
            );
        } else {
            assert(json::kept_text_field(",\"favicon\":"@, l.favicon) + live_from_duration_secs(l) =~= live_from_duration_secs(l));
        }
    }
    json::lemma_fields_behind(
        json::kept_text_field(",\"favicon\":"@, l.favicon),
        live_from_duration_secs(l),
    );
    assert(json::has_field(live_from_title(l), "title"@, json::json_text(l.title)) && json::goes_on(live_from_title(l))) by {
        reveal_strlit(",\"title\":");
        reveal_strlit("title");
        json::lemma_field_at_the_front(
            ",\"title\":"@,
            "title"@,
            json::json_text(l.title),
            live_from_favicon(l),
        );
    }
    json::lemma_fields_behind(json::text_field(",\"title\":"@, l.title), live_from_favicon(l));
    assert(json::has_field(json::text_field("{\"url\":"@, l.url) + live_from_title(l), "url"@, json::json_text(l.url))) by {
        reveal_strlit("{\"url\":");
        reveal_strlit("url");
        json::lemma_field_at_the_front(
            "{\"url\":"@,
            "url"@,
            json::json_text(l.url),
            live_from_title(l),
        );
    }
    json::lemma_fields_behind(json::text_field("{\"url\":"@, l.url), live_from_title(l));
    lemma_live_span_from_the_front(l);
}

/// A sidecar says which browser it is of and when it was written, and lists the
/// live spans in their order, with commas between them.
#[verifier::rlimit(30)]
pub proof fn law_sidecar_names_its_fields(
    browser: Seq<char>,
    updated: u64,
    spans: Seq<LiveSpanView>,
    one: LiveSpanView,
)
    ensures
        ({
            let text = live_state_text(browser, updated, spans);
            &&& json::has_field(text, "browser"@, json::json_text(browser))
            &&& json::has_field(text, "updated"@, json::decimal(updated as nat))
            &&& json::has_field(text, "spans"@, seq!['['] + live_spans_text(spans) + seq![']'])
        }),
        live_spans_text(Seq::empty()).len() == 0,
        live_spans_text(seq![one]) == live_span_text(one),
        spans.len() > 0 ==> live_spans_text(spans.push(one)) == live_spans_text(spans) + seq![',']
            + live_span_text(one),
{
    reveal_strlit("{\"browser\":");
    reveal_strlit("browser");
    reveal_strlit(",\"updated\":");
    reveal_strlit("updated");
    reveal_strlit(",\"spans\":[");
    reveal_strlit("spans");
    reveal_strlit("]}");
    reveal_strlit(",");
    let f1 = json::text_field("{\"browser\":"@, browser);
    let f2 = json::number_field(",\"updated\":"@, updated as int);
    let lead = seq![',', '"'] + "spans"@ + seq!['"', ':'];
    let list = seq!['['] + live_spans_text(spans) + seq![']'];
    let end = seq!['}'];
    let t3 = lead + list + end;
    let t2 = f2 + t3;
    let text = live_state_text(browser, updated, spans);
    assert(",\"spans\":["@ =~= lead + seq!['[']);
    assert("]}"@ =~= seq![']'] + end);
    assert(text =~= f1 + t2);
    json::lemma_field_at_the_front(lead, "spans"@, list, end);
    assert(t3[0] == ',');
    json::lemma_field_at_the_front(
        ",\"updated\":"@,
        "updated"@,
        json::decimal(updated as nat),
        t3,
    );
    assert(t2[0] == ',');
    json::lemma_field_at_the_front("{\"browser\":"@, "browser"@, json::json_text(browser), t2);
    json::lemma_fields_behind(f2, t3);
    json::lemma_fields_behind(f1, t2);
    if spans.len() > 0 {
        assert(spans.push(one).drop_last() =~= spans);
        assert(","@ =~= seq![',']);
    }
}

/// A visit is filed as a line of the day on which it began, in the stream
/// `browser`, whose files are locked while they are written.
pub proof fn law_visits_are_filed_by_their_time(
    root: Seq<char>,
    visits: Seq<VisitView>,
    plan: Vec<DayAppend>,
    k: int,
)
    requires
        vault::appended(root, "browser"@, visit_rows(visits), true, Ok(plan)),
        0 <= k < visits.len(),
    ensures
        exists|i: int|
            0 <= i < plan@.len() && {
                let a = #[trigger] plan@[i];
                &&& a.day@ == visits[k].time.take(10)
                &&& a.rel@ == "browser/"@ + visits[k].time.take(10) + ".jsonl"@
                &&& a.flock == true
                &&& exists|j: int|
                    text::occurs_at(a.text@, visit_line(visits[k]) + seq!['\n'], j)
                        && #[trigger] vault::line_start(a.text@, j)
            },
{
    let rows = visit_rows(visits);
    vault::law_a_row_is_a_line_of_its_day(root, "browser"@, rows, true, plan@, k);
    assert("browser/"@ =~= "browser"@ + seq!['/']) by {
        reveal_strlit("browser/");
        reveal_strlit("browser");
    }
    assert(rows[k].ts == visits[k].time && rows[k].line == visit_line(visits[k]));
}

/// The model of a visit has the fields of the visit, each its own.
pub proof fn law_model_of_a_visit(x: BrowserVisit)
    ensures
        x@.time == x.time@,
        x@.url == x.url@,
        x@.title == x.title@,
        x@.browser == x.browser@,
        x@.profile == x.profile@,
        x@.duration_secs == x.duration_secs,
        x@.source == x.source@,
        x@.audible == x.audible,
        x@.foreground_secs == x.foreground_secs,
        x@.favicon == x.favicon@,
        x@.referrer == x.referrer@,
        x@.transition == x.transition@,
        x@.tab_count == x.tab_count,
{
}

/// The model of a tab has the fields of the tab, each its own.
pub proof fn law_model_of_a_tab(x: TabInfo)
    ensures
        x@.url == x.url@,
        x@.title == x.title@,
        x@.favicon == x.favicon@,
        x@.referrer == x.referrer@,
        x@.transition == x.transition@,
{
}

/// The model of a snapshot has the fields of the snapshot, each its own.
pub proof fn law_model_of_a_snapshot(x: ExtSnapshot)
    ensures
        x@.focused == x.focused,
        x@.tab_count == x.tab_count,
        x@.active is None <==> x.active is None,
        x.active matches Some(y) ==> x@.active == Some(y@),
        x@.audible.len() == x.audible@.len(),
        forall|i: int| 0 <= i < x.audible@.len() ==> #[trigger] x@.audible[i] == x.audible@[i]@,
{
}

/// The model of a live span has the fields of the live span, each its own.
pub proof fn law_model_of_a_live_span(x: LiveSpan)
    ensures
        x@.url == x.url@,
        x@.title == x.title@,
        x@.favicon == x.favicon@,
        x@.duration_secs == x.duration_secs,
        x@.foreground_secs == x.foreground_secs,
        x@.audible == x.audible,
        x@.foreground == x.foreground,
{
}

} // verus!
