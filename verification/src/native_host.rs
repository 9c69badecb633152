//! Native messaging host: the receiving end of the browser extension.
//!
//! The browser spawns one host process per profile with the extension and
//! talks to it over its standard input. Protocol: a length prefix of four
//! bytes in the machine's order, then that many bytes of JSON, repeated; the
//! end of the input means disconnect. A snapshot feeds the [`TabTracker`]; a
//! batch of ads goes to the ads stream.

use crate::ads::{AdBatch, AdEvent, CachedIdentity};
use crate::browser::{BrowserVisit, ExtConfig, ExtSnapshot, SnapshotView, TabTracker, TrackerView};
use crate::moment::Moment;
use crate::vault::{
    enabled_in, AtomicWrite, DayAppend, IntegrationSettings, RowView, Vault, VaultError,
};
use crate::{ads, browser, json, vault};
use vstd::prelude::*;

verus! {

/// When the machine has been idle this long, a focused browser window no
/// longer means engagement. Audible playback still counts.
pub const IDLE_GATE_MS: i64 = 120_000;

/// Snapshots are a few hundred bytes; anything near this is corruption.
pub const MAX_FRAME_BYTES: u32 = 1_048_576;

// ── frames ──────────────────────────────────────────────────────────────────

/// Why a frame cannot be read.
#[derive(Debug, Clone, Copy, PartialEq, Eq, Structural)]
pub enum FrameError {
    /// The prefix announces more than [`MAX_FRAME_BYTES`].
    Oversized { bytes: u32 },
    /// The input ends inside a prefix or a body.
    Truncated,
}

/// An input: its bytes, and how many of them have been read.
pub struct Wire {
    pub bytes: Vec<u8>,
    pub at: usize,
}

/// Four bytes as a number, the last one of least weight.
pub open spec fn big_endian(b: Seq<u8>) -> int {
    b[0] * 0x100_0000 + b[1] * 0x1_0000 + b[2] * 0x100 + b[3]
}

/// Four bytes as a number, the first one of least weight.
pub open spec fn little_endian(b: Seq<u8>) -> int {
    b[3] * 0x100_0000 + b[2] * 0x1_0000 + b[1] * 0x100 + b[0]
}

/// `n` is what the prefix says on some machine.
pub open spec fn is_length(prefix: Seq<u8>, n: u32) -> bool {
    n == little_endian(prefix) || n == big_endian(prefix)
}

/// `u32::from_ne_bytes`: the four bytes in the order of the machine, which is
/// one of the two.
#[verifier::external_body]
fn native_length(b0: u8, b1: u8, b2: u8, b3: u8) -> (r: u32)
    ensures
        is_length(seq![b0, b1, b2, b3], r),
{
    u32::from_ne_bytes([b0, b1, b2, b3])
}

/// What a prefix that says `n` asks for: a body of `n` bytes, unless that is too
/// long.
pub open spec fn announced(n: u32) -> Result<Option<u32>, FrameError> {
    if n > MAX_FRAME_BYTES {
        Err(FrameError::Oversized { bytes: n })
    } else {
        Ok(Some(n))
    }
}

/// The length of the frame's body, of what could be read of the four bytes of
/// its prefix; `None` on clean EOF at a frame boundary, where nothing could.
pub fn frame_length(prefix: &Vec<u8>) -> (r: Result<Option<u32>, FrameError>)
    ensures
        prefix@.len() == 0 ==> r == Ok::<Option<u32>, FrameError>(None),
        0 < prefix@.len() < 4 ==> r == Err::<Option<u32>, FrameError>(FrameError::Truncated),
        prefix@.len() >= 4 ==> exists|n: u32| #[trigger]
            is_length(prefix@.take(4), n) && r == announced(n),
{
    if prefix.len() == 0 {
        return Ok(None);
    }
    if prefix.len() < 4 {
        return Err(FrameError::Truncated);
    }
    let n: u32 = native_length(prefix[0], prefix[1], prefix[2], prefix[3]);
    assert(prefix@.take(4) =~= seq![prefix@[0], prefix@[1], prefix@[2], prefix@[3]]);
    assert(is_length(prefix@.take(4), n));
    admitted(n)
}

/// The body that a prefix announces, if it is not too long.
pub fn admitted(n: u32) -> (r: Result<Option<u32>, FrameError>)
    ensures
        r == announced(n),
{
    if n > MAX_FRAME_BYTES {
        Err(FrameError::Oversized { bytes: n })
    } else {
        Ok(Some(n))
    }
}

/// What is left of the input.
pub open spec fn unread(w: Wire) -> Seq<u8> {
    w.bytes@.skip(w.at as int)
}

/// `after` is the input `before` with `n` bytes more read.
pub open spec fn has_read(before: Wire, after: Wire, n: int) -> bool {
    after.bytes@ == before.bytes@ && after.at == before.at + n
}

/// What reading a frame gives, where its prefix says `n`.
pub open spec fn is_frame(
    before: Wire,
    after: Wire,
    n: u32,
    r: Result<Option<Vec<u8>>, FrameError>,
) -> bool {
    if n > MAX_FRAME_BYTES {
        r == Err::<Option<Vec<u8>>, FrameError>(FrameError::Oversized { bytes: n }) && has_read(
            before,
            after,
            4,
        )
    } else if unread(before).len() < 4 + n {
        r == Err::<Option<Vec<u8>>, FrameError>(FrameError::Truncated) && has_read(
            before,
            after,
            unread(before).len() as int,
        )
    } else {
        &&& r matches Ok(Some(body)) && body@ == unread(before).subrange(4, 4 + n)
        &&& has_read(before, after, 4 + n)
    }
}

/// Read the body of `n` bytes behind a prefix.
pub fn read_body(w: &mut Wire, n: u32) -> (r: Result<Option<Vec<u8>>, FrameError>)
    requires
        old(w).at + 4 <= old(w).bytes@.len(),
    ensures
        is_frame(*old(w), *final(w), n, r),
        final(w).at <= final(w).bytes@.len(),
{
    let len: usize = w.bytes.len();
    let from: usize = w.at + 4;
    w.at = from;
    if let Err(e) = admitted(n) {
        return Err(e);
    }
    if ((len - from) as u64) < n as u64 {
        w.at = len;
        return Err(FrameError::Truncated);
    }
    let end: usize = from + n as usize;
    let mut body: Vec<u8> = Vec::new();
    let mut i: usize = from;
    while i < end
        invariant
            from <= i <= end <= w.bytes@.len(),
            body@ == w.bytes@.subrange(from as int, i as int),
        decreases end - i,
    {
        body.push(w.bytes[i]);
        i = i + 1;
    }
    w.at = end;
    assert(body@ =~= unread(*old(w)).subrange(4, 4 + n));
    Ok(Some(body))
}

/// Read one frame; `None` on clean EOF at a frame boundary.
pub fn read_frame(w: &mut Wire) -> (r: Result<Option<Vec<u8>>, FrameError>)
    requires
        old(w).at <= old(w).bytes@.len(),
    ensures
        unread(*old(w)).len() == 0 ==> r == Ok::<Option<Vec<u8>>, FrameError>(None) && has_read(
            *old(w),
            *final(w),
            0,
        ),
        0 < unread(*old(w)).len() < 4 ==> r == Err::<Option<Vec<u8>>, FrameError>(
            FrameError::Truncated,
        ) && has_read(*old(w), *final(w), unread(*old(w)).len() as int),
        unread(*old(w)).len() >= 4 ==> exists|n: u32| #[trigger]
            is_length(unread(*old(w)).take(4), n) && is_frame(*old(w), *final(w), n, r),
        final(w).at <= final(w).bytes@.len(),
{
    let len: usize = w.bytes.len();
    let at: usize = w.at;
    if at == len {
        return Ok(None);
    }
    if len - at < 4 {
        w.at = len;
        return Err(FrameError::Truncated);
    }
    let n: u32 = native_length(w.bytes[at], w.bytes[at + 1], w.bytes[at + 2], w.bytes[at + 3]);
    assert(unread(*w).take(4) =~= seq![
        w.bytes@[at as int],
        w.bytes@[at + 1],
        w.bytes@[at + 2],
        w.bytes@[at + 3],
    ]);
    assert(is_length(unread(*old(w)).take(4), n));
    read_body(w, n)
}

/// Frames are read in turn: behind a prefix that says how long the body is,
/// the body comes out whole, and what stands behind it is left for the next.
pub proof fn law_frames_are_read_in_turn(
    before: Wire,
    after: Wire,
    prefix: Seq<u8>,
    body: Seq<u8>,
    rest: Seq<u8>,
    n: u32,
    r: Result<Option<Vec<u8>>, FrameError>,
)
    requires
        before.at <= before.bytes@.len(),
        unread(before) == prefix + body + rest,
        prefix.len() == 4,
        n == body.len(),
        n <= MAX_FRAME_BYTES,
        is_frame(before, after, n, r),
    ensures
        r matches Ok(Some(got)) && got@ == body,
        unread(after) == rest,
{
    assert(unread(before).subrange(4, 4 + n) =~= body);
    assert(unread(after) =~= unread(before).skip(4 + n));
    assert(unread(before).skip(4 + n) =~= rest);
}

// ── messages ────────────────────────────────────────────────────────────────

/// A message of the extension.
#[derive(Debug, Clone)]
pub enum HostMessage {
    Snapshot(ExtSnapshot),
    Ads { events: Vec<AdEvent> },
}

/// What is to become of the host's "watching now" sidecar.
#[derive(Debug, Clone)]
pub enum LiveAction {
    Clear { path: String },
    Write(AtomicWrite),
}

/// What a snapshot asks to be done: rows to append, if there are any, and the
/// sidecar. A refused append is to be logged: losing one batch beats losing
/// the connection.
#[derive(Debug, Clone)]
pub struct HostAction {
    pub append: Option<Result<Vec<DayAppend>, VaultError>>,
    pub live: LiveAction,
}

/// A connection: the tracker of its browser, and the key of its sidecar.
pub struct Host {
    tracker: TabTracker,
    key: String,
}

#[verifier::ext_equal]
pub struct HostView {
    pub tracker: TrackerView,
    pub key: Seq<char>,
}

impl View for Host {
    type V = HostView;

    closed spec fn view(&self) -> HostView {
        HostView { tracker: self.tracker@, key: self.key@ }
    }
}

/// The snapshot, without focus if the machine is idle.
pub open spec fn gated(snap: SnapshotView, idle_ms: i64) -> SnapshotView {
    SnapshotView { focused: snap.focused && idle_ms < IDLE_GATE_MS, ..snap }
}

/// The tracker with nothing open.
pub open spec fn flushed(t: TrackerView) -> TrackerView {
    TrackerView { spans: Seq::empty(), last_tick: None, ..t }
}

/// The rows of all that is open.
pub open spec fn open_rows(t: TrackerView) -> Seq<RowView> {
    browser::visit_rows(browser::visits_of(t.config, t.browser, t.spans, None))
}

/// The sidecar of `key` is to be removed.
pub open spec fn is_clear(root: Seq<char>, key: Seq<char>, live: LiveAction) -> bool {
    live matches LiveAction::Clear { path } && path@ == vault::live_path(root, key)
}

/// The sidecar of `key` is to show the tracker's open spans at `now`.
pub open spec fn is_publish(
    root: Seq<char>,
    key: Seq<char>,
    t: TrackerView,
    now: Moment,
    updated: u64,
    live: LiveAction,
) -> bool {
    &&& live matches LiveAction::Write(w)
    &&& w.path@ == vault::live_path(root, key)
    &&& w.temp@ == vault::temp_of(w.path@)
    &&& w.text@ == browser::live_state_text(
        "chrome"@,
        updated,
        t.spans.map_values(|s: browser::SpanView| browser::live_of(t, s, now)),
    )
}

fn append(vault: &Vault, rows: &Vec<BrowserVisit>) -> (r: Option<
    Result<Vec<DayAppend>, VaultError>,
>)
    ensures
        vault::is_append(
            vault@,
            "browser"@,
            browser::visit_rows(browser::visit_views(rows@)),
            true,
            r,
        ),
        browser::all_dated(rows@) ==> (r matches Some(a) ==> a is Ok),
{
    if rows.len() == 0 {
        None
    } else {
        Some(vault.append_browser_visits(rows))
    }
}

impl Host {
    /// A new connection. `key` tells the host processes apart.
    pub fn new(key: String) -> (r: Host)
        ensures
            r@.key == key@,
            r@.tracker.browser == "chrome"@,
            r@.tracker.config.gap_secs == 20,
            r@.tracker.config.min_span_secs == 1,
            r@.tracker.spans.len() == 0,
            r@.tracker.last_tick is None,
            r@.tracker.valid(),
    {
        Host { tracker: TabTracker::new("chrome", ExtConfig::default()), key }
    }

    /// A snapshot came in. `settings` is what was just read of the toggle
    /// file, `idle_ms` how long the machine has been idle, `updated` the time
    /// in Unix seconds.
    ///
    /// While the integration is off, what was collected while it was on is
    /// closed out.
    pub fn snapshot(
        &mut self,
        vault: &Vault,
        settings: Option<IntegrationSettings>,
        snap: ExtSnapshot,
        idle_ms: i64,
        now: Moment,
        updated: u64,
    ) -> (r: HostAction)
        requires
            old(self)@.tracker.valid(),
            now.valid(),
        ensures
            ({
                let t = old(self)@.tracker;
                let seen = gated(snap@, idle_ms);
                if vault::is_enabled(vault::in_force(settings), "browser-extension"@) {
                    &&& final(self)@.tracker == browser::ticked(t, now, seen)
                    &&& vault::is_append(
                        vault@,
                        "browser"@,
                        browser::visit_rows(browser::closed_by(t, now, seen)),
                        true,
                        r.append,
                    )
                    &&& is_publish(
                        vault@,
                        old(self)@.key,
                        browser::ticked(t, now, seen),
                        now,
                        updated,
                        r.live,
                    )
                } else {
                    &&& final(self)@.tracker == flushed(t)
                    &&& vault::is_append(vault@, "browser"@, open_rows(t), true, r.append)
                    &&& is_clear(vault@, old(self)@.key, r.live)
                }
            }),
            browser::starts_dated(old(self)@.tracker.spans) ==> (r.append matches Some(a) ==> a is Ok),
            final(self)@.key == old(self)@.key,
            final(self)@.tracker.valid(),
    {
        if !vault.integration_enabled(settings, "browser-extension") {
            return self.close(vault);
        }
        let mut seen = snap;
        if seen.focused && idle_ms >= IDLE_GATE_MS {
            seen.focused = false;
        }
        assert(seen@ =~= gated(snap@, idle_ms));
        let closed = self.tracker.tick(now, &seen);
        let append = append(vault, &closed);
        let spans = self.tracker.live(now);
        let live = LiveAction::Write(
            vault.write_browser_live("chrome", self.key.as_str(), spans, updated),
        );
        HostAction { append, live }
    }

    /// The browser disconnected, or the integration is off: close out all
    /// that is open.
    pub fn close(&mut self, vault: &Vault) -> (r: HostAction)
        requires
            old(self)@.tracker.valid(),
        ensures
            final(self)@.tracker == flushed(old(self)@.tracker),
            final(self)@.key == old(self)@.key,
            vault::is_append(vault@, "browser"@, open_rows(old(self)@.tracker), true, r.append),
            browser::starts_dated(old(self)@.tracker.spans) ==> (r.append matches Some(a) ==> a is Ok),
            is_clear(vault@, old(self)@.key, r.live),
            final(self)@.tracker.valid(),
    {
        let last = self.tracker.flush();
        let append = append(vault, &last);
        HostAction { append, live: LiveAction::Clear { path: vault.live_path(self.key.as_str()) } }
    }
}

/// The batch of ads that came in at `received`, if it is to be appended: there
/// are ads and their own toggle is on. A further toggle lets the batch ask for
/// transparency pages.
pub fn ads_batch(
    vault: &Vault,
    settings: Option<IntegrationSettings>,
    events: Vec<AdEvent>,
    received: Moment,
    cache: Vec<CachedIdentity>,
) -> (r: Option<AdBatch>)
    requires
        received.valid(),
    ensures
        r is Some <==> events@.len() > 0 && vault::is_enabled(vault::in_force(settings), "browser-ads"@),
        r matches Some(b) ==> {
            &&& b@.valid()
            &&& b@.events == ads::event_views(events@)
            &&& b@.cache == ads::cache_views(cache@)
            &&& b@.fetched == 0 && !b@.changed
            &&& b@.at == (if vault::is_enabled(vault::in_force(settings), "browser-ads-identify"@) {
                0
            } else {
                events@.len() as int
            })
            &&& forall|i: int|
                0 <= i < events@.len() ==> ads::is_record_of(
                    events@[i]@,
                    received,
                    #[trigger] b@.records[i],
                )
        },
{
    let toggles = vault.integration_settings(settings);
    if events.len() == 0 || !enabled_in(&toggles, "browser-ads") {
        return None;
    }
    let resolve = enabled_in(&toggles, "browser-ads-identify");
    Some(AdBatch::new(events, received, cache, resolve))
}

// ── laws ────────────────────────────────────────────────────────────────────

/// Turning the extension off leaves nothing open and publishes nothing, and
/// while it stays off no snapshot is recorded.
pub proof fn law_off_means_nothing_is_recorded(t: TrackerView)
    requires
        t.valid(),
    ensures
        flushed(t).valid(),
        open_rows(flushed(t)).len() == 0,
        flushed(flushed(t)) == flushed(t),
{
    assert(browser::visits_of(t.config, t.browser, flushed(t).spans, None).len() == 0);
}

/// An idle machine takes the focus away and nothing else: the tabs that are
/// audible are the same.
pub proof fn law_idle_gate_spares_audible_tabs(snap: SnapshotView, idle_ms: i64)
    ensures
        gated(snap, idle_ms).audible == snap.audible,
        gated(snap, idle_ms).tab_count == snap.tab_count,
        idle_ms < IDLE_GATE_MS ==> gated(snap, idle_ms) == snap,
        idle_ms >= IDLE_GATE_MS ==> !gated(snap, idle_ms).focused,
{
}

/// Without the further toggle no page is fetched: a batch that stands behind
/// its last record, as it does then, asks for nothing and changes nothing.
pub proof fn law_no_fetch_without_the_toggle(b: ads::BatchView)
    requires
        b.valid(),
        b.at == b.events.len(),
    ensures
        !b.asks(),
        b.advanced() == b,
{
}

/// Two minutes without input take the focus from a snapshot; nothing else of it
/// is changed, and before that nothing at all.
pub proof fn law_two_idle_minutes_take_the_focus(snap: SnapshotView, idle_ms: i64)
    ensures
        gated(snap, idle_ms).focused == (snap.focused && idle_ms < 120_000),
        gated(snap, idle_ms).active == snap.active,
        gated(snap, idle_ms).audible == snap.audible,
        gated(snap, idle_ms).tab_count == snap.tab_count,
{
}

/// A sidecar that is published is Chrome's, of the host's own key.
pub proof fn law_published_sidecar_is_the_hosts(
    root: Seq<char>,
    key: Seq<char>,
    t: TrackerView,
    now: Moment,
    updated: u64,
    w: AtomicWrite,
)
    requires
        is_publish(root, key, t, now, updated, LiveAction::Write(w)),
    ensures
        json::has_field(w.text@, "browser"@, json::json_text("chrome"@)),
        json::has_field(w.text@, "updated"@, json::decimal(updated as nat)),
        w.path@ == vault::joined(
            vault::joined(root, ".trove/live"@),
            "browser-"@ + key + ".json"@,
        ),
        w.temp@ == w.path@ + ".tmp"@,
{
    let spans = t.spans.map_values(|s: browser::SpanView| browser::live_of(t, s, now));
    let any = browser::live_of(t, t.spans[0], now);
    browser::law_sidecar_names_its_fields("chrome"@, updated, spans, any);
}

/// A frame of more than a mebibyte is refused, and no shorter one is for its
/// length.
pub proof fn law_a_mebibyte_is_the_limit(n: u32)
    ensures
        announced(n) is Err <==> n > 1024 * 1024,
        announced(n) matches Ok(m) ==> m == Some(n),
        announced(n) matches Err(e) ==> e == (FrameError::Oversized { bytes: n }),
{
}

/// Closing a connection removes its own sidecar.
pub proof fn law_a_closed_host_removes_its_sidecar(
    root: Seq<char>,
    key: Seq<char>,
    live: LiveAction,
)
    requires
        is_clear(root, key, live),
        root.len() > 0,
        root.last() != '/',
    ensures
        live matches LiveAction::Clear { path } && path@ == root + "/.trove/live/browser-"@ + key
            + ".json"@,
{
    vault::law_where_the_files_are(root, key);
}

/// A disconnect, or turning the extension off, closes every span: each that is
/// long enough is appended as its row, ended at its last evidence, and nothing
/// but the browser and the configuration is left.
pub proof fn law_a_flush_closes_every_span(t: TrackerView, url: Seq<char>)
    requires
        t.valid(),
    ensures
        flushed(t).spans.len() == 0 && flushed(t).last_tick is None,
        flushed(t).browser == t.browser && flushed(t).config == t.config,
        browser::span_of(t.spans, url) matches Some(s) ==> {
            let secs = s.last_seen.secs_after(s.start);
            secs >= t.config.min_span_secs ==> exists|i: int, v: browser::VisitView|
                0 <= i < open_rows(t).len() && (#[trigger] open_rows(t)[i]).line
                    == browser::visit_line(v) && open_rows(t)[i].ts == s.start.text()
                    && #[trigger] browser::is_row_of(v, s, t.browser, secs, s.foreground_secs)
        },
{
    browser::lemma_rows_by_url(t.config, t.browser, t.spans, None, url);
    let rows = browser::visits_of(t.config, t.browser, t.spans, None);
    if let Some(s) = browser::span_of(t.spans, url) {
        let secs = s.last_seen.secs_after(s.start);
        if secs >= t.config.min_span_secs {
            let i = choose|i: int| 0 <= i < rows.len() && (#[trigger] rows[i]).url == url;
            assert(open_rows(t)[i].ts == rows[i].time);
            assert(browser::is_row_of(rows[i], s, t.browser, secs, s.foreground_secs));
        }
    }
}

/// The four bytes of a prefix are its length, the first of least weight or the
/// last.
pub proof fn law_four_bytes_are_a_length(b0: u8, b1: u8, b2: u8, b3: u8, n: u32)
    ensures
        is_length(seq![b0, b1, b2, b3], n) <==> n == b0 + 256 * b1 + 65_536 * b2 + 16_777_216 * b3
            || n == b3 + 256 * b2 + 65_536 * b1 + 16_777_216 * b0,
{
}

} // verus!
