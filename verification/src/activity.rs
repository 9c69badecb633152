//! Activity watcher: turns a stream of "what app is frontmost, is the user
//! idle" samples into merged events.
//!
//! Time away from the keyboard is recorded as events with `afk: true` and an
//! empty app, so per-app totals never count idle time.

use crate::json::{push_flag_field, push_number_field, push_raw, push_text_field};
use crate::moment::{zone_offset, Moment, MAX_SECS, MIN_SECS};
use crate::sampler::{Sample, SampleView};
use crate::vault::{DayAppend, DayRow, RowView, Vault, VaultError};
use crate::{json, moment, text, vault};
use vstd::prelude::*;

verus! {

/// Seconds between samples. Also drives the gap heuristic below.
pub const POLL_SECS: u64 = 5;

/// One contiguous span of using a single app and window, or of being away.
#[derive(Debug, Clone)]
pub struct ActivityEvent {
    /// RFC 3339 local time, e.g. "2026-06-10T14:03:01-07:00".
    pub start: String,
    pub end: String,
    pub seconds: u64,
    /// Owning app; empty while away.
    pub app: String,
    pub bundle_id: String,
    pub title: String,
    pub afk: bool,
}

/// Tunables for [`Watcher`].
#[derive(Debug, Clone, Copy)]
pub struct WatchConfig {
    /// Idle milliseconds before the user counts as away.
    pub afk_threshold_ms: i64,
    /// If more than this many seconds pass without a sample (sleep, process
    /// paused), the open event is closed at its last known end.
    pub max_gap_secs: i64,
}

/// The currently open, still growing event.
struct Open {
    start: Moment,
    end: Moment,
    app: String,
    bundle_id: String,
    title: String,
    afk: bool,
}

/// Merges samples into events.
pub struct Watcher {
    cfg: WatchConfig,
    open: Option<Open>,
}

/// The live activity collector: what each poll's sample makes of the watcher.
pub struct ActivityLive {
    watcher: Watcher,
}

// ── the model ───────────────────────────────────────────────────────────────

#[verifier::ext_equal]
pub struct EventView {
    pub start: Seq<char>,
    pub end: Seq<char>,
    pub seconds: int,
    pub app: Seq<char>,
    pub bundle_id: Seq<char>,
    pub title: Seq<char>,
    pub afk: bool,
}

#[verifier::ext_equal]
pub struct OpenView {
    pub start: Moment,
    pub end: Moment,
    pub app: Seq<char>,
    pub bundle_id: Seq<char>,
    pub title: Seq<char>,
    pub afk: bool,
}

#[verifier::ext_equal]
pub struct WatcherView {
    pub cfg: WatchConfig,
    pub open: Option<OpenView>,
}

impl View for ActivityEvent {
    type V = EventView;

    open spec fn view(&self) -> EventView {
        EventView {
            start: self.start@,
            end: self.end@,
            seconds: self.seconds as int,
            app: self.app@,
            bundle_id: self.bundle_id@,
            title: self.title@,
            afk: self.afk,
        }
    }
}

impl View for Open {
    type V = OpenView;

    closed spec fn view(&self) -> OpenView {
        OpenView {
            start: self.start,
            end: self.end,
            app: self.app@,
            bundle_id: self.bundle_id@,
            title: self.title@,
            afk: self.afk,
        }
    }
}

impl View for Watcher {
    type V = WatcherView;

    closed spec fn view(&self) -> WatcherView {
        WatcherView {
            cfg: self.cfg,
            open: match self.open {
                Some(o) => Some(o@),
                None => None,
            },
        }
    }
}

impl View for ActivityLive {
    type V = WatcherView;

    closed spec fn view(&self) -> WatcherView {
        self.watcher@
    }
}

pub open spec fn event_views(s: Seq<ActivityEvent>) -> Seq<EventView> {
    s.map_values(|e: ActivityEvent| e@)
}

impl WatcherView {
    /// The open event lies in the calendar, and names no app while away.
    pub open spec fn valid(self) -> bool {
        self.open matches Some(o) ==> {
            &&& o.start.valid()
            &&& o.end.valid()
            &&& o.afk ==> o.app.len() == 0 && o.bundle_id.len() == 0 && o.title.len() == 0
        }
    }
}

/// The user has been idle long enough to be away.
pub open spec fn is_away(cfg: WatchConfig, s: SampleView) -> bool {
    s.idle_ms >= cfg.afk_threshold_ms
}

/// The samples stopped for so long that the open event is over.
pub open spec fn is_gap(w: WatcherView, now: Moment) -> bool {
    w.open matches Some(o) && now.secs_after(o.end) > w.cfg.max_gap_secs
}

/// The sample shows what the open event shows.
pub open spec fn same_state(o: OpenView, away: bool, s: SampleView) -> bool {
    if away {
        o.afk
    } else {
        !o.afk && o.app == s.app && o.title == s.title
    }
}

/// The open event goes on.
pub open spec fn goes_on(w: WatcherView, now: Moment, s: SampleView) -> bool {
    !is_gap(w, now) && (w.open matches Some(o) && same_state(o, is_away(w.cfg, s), s))
}

/// The instant of the last input, in nanoseconds.
pub open spec fn input_ns(now: Moment, s: SampleView) -> int {
    now.ns() - s.idle_ms * 1_000_000
}

/// The moment `ns` nanoseconds after 1970-01-01T00:00:00Z, at an offset.
pub open spec fn moment_at(ns: int, offset: i32) -> Moment {
    Moment { secs: (ns / 1_000_000_000) as i64, nanos: (ns % 1_000_000_000) as u32, offset }
}

/// The last input, or `now` if that is earlier; `offset` is the local one at the
/// last input.
pub open spec fn last_input(now: Moment, s: SampleView, offset: i32) -> Moment {
    if input_ns(now, s) > now.ns() {
        now
    } else {
        moment_at(input_ns(now, s), offset)
    }
}

/// Where one event ends and the next begins. Going away dates back to the last
/// input, but never to before the open event began, wherever the clock stands.
pub open spec fn boundary(w: WatcherView, now: Moment, s: SampleView, offset: i32) -> Moment {
    if !is_away(w.cfg, s) {
        now
    } else {
        let input = last_input(now, s, offset);
        match w.open {
            Some(o) if !is_gap(w, now) && input.ns() < o.start.ns() => o.start,
            _ => input,
        }
    }
}

/// Where the open event is closed by a sample, if it is.
pub open spec fn closing_end(
    w: WatcherView,
    now: Moment,
    s: SampleView,
    offset: i32,
) -> Option<Moment> {
    match w.open {
        Some(o) if is_gap(w, now) => Some(o.end),
        Some(o) if !goes_on(w, now, s) => Some(boundary(w, now, s, offset)),
        _ => None,
    }
}

/// The event of `o` if it ends at `end`, but never before it began.
pub open spec fn event_of(o: OpenView, end: Moment) -> EventView {
    let last = if end.ns() > o.start.ns() {
        end
    } else {
        o.start
    };
    EventView {
        start: o.start.text(),
        end: last.text(),
        seconds: last.secs_after(o.start),
        app: o.app,
        bundle_id: o.bundle_id,
        title: o.title,
        afk: o.afk,
    }
}

/// The event that ending at `end` yields: none if it has no whole second.
pub open spec fn events_of(o: Option<OpenView>, end: Option<Moment>) -> Seq<EventView> {
    match (o, end) {
        (Some(o), Some(end)) if event_of(o, end).seconds > 0 => seq![event_of(o, end)],
        _ => Seq::empty(),
    }
}

/// The events that a sample closes.
pub open spec fn closed_by(
    w: WatcherView,
    now: Moment,
    s: SampleView,
    offset: i32,
) -> Seq<EventView> {
    events_of(w.open, closing_end(w, now, s, offset))
}

/// The watcher after a sample.
pub open spec fn ticked(w: WatcherView, now: Moment, s: SampleView, offset: i32) -> WatcherView {
    let away = is_away(w.cfg, s);
    WatcherView {
        open: if goes_on(w, now, s) {
            Some(OpenView { end: now, ..w.open->0 })
        } else {
            Some(
                OpenView {
                    start: boundary(w, now, s, offset),
                    end: now,
                    app: if away {
                        Seq::empty()
                    } else {
                        s.app
                    },
                    bundle_id: if away {
                        Seq::empty()
                    } else {
                        s.bundle_id
                    },
                    title: if away {
                        Seq::empty()
                    } else {
                        s.title
                    },
                    afk: away,
                },
            )
        },
        ..w
    }
}

/// The open event, if there is one, began in a year of four digits.
pub open spec fn starts_dated(w: WatcherView) -> bool {
    w.open matches Some(o) ==> o.start.four_digit_year()
}

/// The events name the days they started on.
pub open spec fn all_dated(events: Seq<ActivityEvent>) -> bool {
    forall|i: int| 0 <= i < events.len() ==> moment::has_date_prefix((#[trigger] events[i]).start@)
}

/// A sample can be folded in: where going away dates the boundary back, the
/// last input lies in the calendar.
pub open spec fn can_tick(w: WatcherView, now: Moment, s: SampleView) -> bool {
    is_away(w.cfg, s) && !goes_on(w, now, s) ==> moment::secs_valid(
        input_ns(now, s) / 1_000_000_000,
    )
}

// ── the state machine ───────────────────────────────────────────────────────

impl Default for WatchConfig {
    /// Two minutes without input are away; six missed polls are a gap.
    fn default() -> (r: Self)
        ensures
            r.afk_threshold_ms == 120_000,
            r.max_gap_secs == 30,
    {
        WatchConfig { afk_threshold_ms: 120_000, max_gap_secs: (POLL_SECS * 6) as i64 }
    }
}

impl Open {
    fn to_event(&self, end: &Moment) -> (r: ActivityEvent)
        requires
            self@.start.valid(),
            end.valid(),
        ensures
            r@ == event_of(self@, *end),
            moment::has_date_prefix(r.start@) == self@.start.four_digit_year(),
    {
        let last: Moment = if self.start.before(end) {
            *end
        } else {
            self.start
        };
        let secs: i64 = last.secs_since(&self.start);
        let r = ActivityEvent {
            start: self.start.to_rfc3339(),
            end: last.to_rfc3339(),
            seconds: secs as u64,
            app: self.app.clone(),
            bundle_id: self.bundle_id.clone(),
            title: self.title.clone(),
            afk: self.afk,
        };
        assert(r@ =~= event_of(self@, *end));
        r
    }

    fn shows(&self, away: bool, s: &Sample) -> (r: bool)
        ensures
            r == same_state(self@, away, s@),
    {
        if away {
            self.afk
        } else {
            !self.afk && self.app == s.app && self.title == s.title
        }
    }
}

impl Watcher {
    pub fn new(cfg: WatchConfig) -> (r: Watcher)
        ensures
            r@ == (WatcherView { cfg, open: None }),
            r@.valid(),
    {
        Watcher { cfg, open: None }
    }

    fn gap(&self, now: &Moment) -> (r: bool)
        requires
            self@.valid(),
            now.valid(),
        ensures
            r == is_gap(self@, *now),
    {
        match &self.open {
            Some(o) => now.secs_since(&o.end) > self.cfg.max_gap_secs,
            None => false,
        }
    }

    fn continues(&self, now: &Moment, s: &Sample) -> (r: bool)
        requires
            self@.valid(),
            now.valid(),
        ensures
            r == goes_on(self@, *now, s@),
    {
        if self.gap(now) {
            return false;
        }
        match &self.open {
            Some(o) => o.shows(s.idle_ms >= self.cfg.afk_threshold_ms, s),
            None => false,
        }
    }

    /// Can this sample be folded in? (See [`can_tick`].)
    pub fn accepts(&self, now: Moment, s: &Sample) -> (r: bool)
        requires
            self@.valid(),
            now.valid(),
        ensures
            r == can_tick(self@, now, s@),
    {
        if s.idle_ms < self.cfg.afk_threshold_ms || self.continues(&now, s) {
            return true;
        }
        let (secs, nanos): (i64, u32) = now.minus_millis(s.idle_ms);
        proof {
            lemma_parts(secs as int, nanos as int, input_ns(now, s@));
        }
        MIN_SECS <= secs && secs <= MAX_SECS
    }

    /// Feed one sample taken at `now`, and say what the local offset was at
    /// the last input. Returns the events that just closed.
    pub fn tick_at(&mut self, now: Moment, s: &Sample, offset: i32) -> (closed: Vec<ActivityEvent>)
        requires
            old(self)@.valid(),
            now.valid(),
            can_tick(old(self)@, now, s@),
            moment::offset_valid(offset as int),
        ensures
            final(self)@ == ticked(old(self)@, now, s@, offset),
            event_views(closed@) == closed_by(old(self)@, now, s@, offset),
            starts_dated(old(self)@) ==> all_dated(closed@),
            final(self)@.valid(),
    {
        let ghost pre = self@;
        let away = s.idle_ms >= self.cfg.afk_threshold_ms;
        let mut closed: Vec<ActivityEvent> = Vec::new();
        assert(event_views(closed@) =~= Seq::empty());
        if self.continues(&now, s) {
            if let Some(o) = self.open.take() {
                let mut o = o;
                o.end = now;
                self.open = Some(o);
            }
            assert(self@ =~= ticked(pre, now, s@, offset));
            return closed;
        }
        let gap = self.gap(&now);
        let mut start: Moment = now;
        if away {
            let (secs, nanos): (i64, u32) = now.minus_millis(s.idle_ms);
            proof {
                lemma_parts(secs as int, nanos as int, input_ns(now, s@));
            }
            let input = Moment { secs, nanos, offset };
            assert(input.ns() == input_ns(now, s@));
            if !now.before(&input) {
                start = input;
            }
            if !gap {
                if let Some(o) = &self.open {
                    if start.before(&o.start) {
                        start = o.start;
                    }
                }
            }
        }
        assert(start == boundary(pre, now, s@, offset));
        let ended = if gap {
            match &self.open {
                Some(o) => self.close_at(o.end),
                None => None,
            }
        } else {
            self.close_at(start)
        };
        if let Some(e) = ended {
            closed.push(e);
            assert(event_views(closed@) =~= seq![e@]);
        }
        self.open = Some(
            Open {
                start,
                end: now,
                app: if away {
                    String::new()
                } else {
                    s.app.clone()
                },
                bundle_id: if away {
                    String::new()
                } else {
                    s.bundle_id.clone()
                },
                title: if away {
                    String::new()
                } else {
                    s.title.clone()
                },
                afk: away,
            },
        );
        assert(self@ =~= ticked(pre, now, s@, offset));
        closed
    }

    /// Feed one sample taken at `now`; the time zone that the machine is set
    /// to says what the local offset was at the last input. Returns the events
    /// that just closed; the one in progress is held until its state changes.
    pub fn tick(&mut self, now: Moment, s: &Sample) -> (closed: Vec<ActivityEvent>)
        requires
            old(self)@.valid(),
            now.valid(),
            can_tick(old(self)@, now, s@),
        ensures
            exists|offset: i32| #[trigger]
                moment::offset_valid(offset as int) && final(self)@ == ticked(
                    old(self)@,
                    now,
                    s@,
                    offset,
                ) && event_views(closed@) == closed_by(old(self)@, now, s@, offset),
            starts_dated(old(self)@) ==> all_dated(closed@),
            final(self)@.valid(),
    {
        let (secs, _nanos): (i64, u32) = now.minus_millis(s.idle_ms);
        let offset: i32 = if MIN_SECS <= secs && secs <= MAX_SECS {
            zone_offset(secs)
        } else {
            now.offset
        };
        let closed = self.tick_at(now, s, offset);
        assert(moment::offset_valid(offset as int));
        closed
    }

    /// The in-progress event as of `now`, for the heartbeat's live view.
    pub fn current(&self, now: Moment) -> (r: Option<ActivityEvent>)
        requires
            self@.valid(),
            now.valid(),
        ensures
            match r {
                Some(e) => self@.open matches Some(o) && e@ == event_of(o, now),
                None => self@.open is None,
            },
    {
        match &self.open {
            Some(o) => Some(o.to_event(&now)),
            None => None,
        }
    }

    /// Close the open event, on shutdown for one.
    pub fn flush(&mut self, now: Moment) -> (r: Option<ActivityEvent>)
        requires
            old(self)@.valid(),
            now.valid(),
        ensures
            final(self)@ == (WatcherView { open: None, ..old(self)@ }),
            event_views(one(r)) == events_of(old(self)@.open, Some(now)),
            starts_dated(old(self)@) ==> all_dated(one(r)),
            final(self)@.valid(),
    {
        let r = self.close_at(now);
        self.open = None;
        r
    }

    /// What the open event is if it ends at `end`. Without a whole second it
    /// is dropped.
    fn close_at(&self, end: Moment) -> (r: Option<ActivityEvent>)
        requires
            self@.valid(),
            end.valid(),
        ensures
            event_views(one(r)) == events_of(self@.open, Some(end)),
            starts_dated(self@) ==> all_dated(one(r)),
    {
        if let Some(o) = &self.open {
            let e = o.to_event(&end);
            if e.seconds > 0 {
                assert(event_views(one(Some(e))) =~= seq![e@]);
                return Some(e);
            }
        }
        assert(event_views(one(None::<ActivityEvent>)) =~= Seq::empty());
        None
    }
}

/// The items of an option.
pub open spec fn one<T>(o: Option<T>) -> Seq<T> {
    match o {
        Some(x) => seq![x],
        None => Seq::empty(),
    }
}

proof fn lemma_parts(secs: int, nanos: int, ns: int)
    requires
        0 <= nanos < 1_000_000_000,
        secs * 1_000_000_000 + nanos == ns,
    ensures
        ns / 1_000_000_000 == secs,
        ns % 1_000_000_000 == nanos,
{
}

// ── the live collector ──────────────────────────────────────────────────────

impl ActivityLive {
    pub fn new() -> (r: ActivityLive)
        ensures
            r@ == (WatcherView {
                cfg: WatchConfig { afk_threshold_ms: 120_000, max_gap_secs: 30 },
                open: None,
            }),
            r@.valid(),
    {
        ActivityLive { watcher: Watcher::new(WatchConfig::default()) }
    }

    /// Can this sample be folded in?
    pub fn accepts(&self, now: Moment, s: &Sample) -> (r: bool)
        requires
            self@.valid(),
            now.valid(),
        ensures
            r == can_tick(self@, now, s@),
    {
        self.watcher.accepts(now, s)
    }

    /// One poll. While the stream is off, what was open is closed out rather
    /// than dropped, and the sample is not looked at. Returns the events to
    /// append.
    pub fn tick(&mut self, now: Moment, s: &Sample, enabled: bool) -> (closed: Vec<ActivityEvent>)
        requires
            old(self)@.valid(),
            now.valid(),
            enabled ==> can_tick(old(self)@, now, s@),
        ensures
            enabled ==> exists|offset: i32| #[trigger]
                moment::offset_valid(offset as int) && final(self)@ == ticked(
                    old(self)@,
                    now,
                    s@,
                    offset,
                ) && event_views(closed@) == closed_by(old(self)@, now, s@, offset),
            !enabled ==> final(self)@ == (WatcherView { open: None, ..old(self)@ })
                && event_views(closed@) == events_of(old(self)@.open, Some(now)),
            starts_dated(old(self)@) ==> all_dated(closed@),
            final(self)@.valid(),
    {
        if enabled {
            self.watcher.tick(now, s)
        } else {
            self.shutdown(now)
        }
    }

    /// Close out the open event. Returns the events to append.
    pub fn shutdown(&mut self, now: Moment) -> (closed: Vec<ActivityEvent>)
        requires
            old(self)@.valid(),
            now.valid(),
        ensures
            final(self)@ == (WatcherView { open: None, ..old(self)@ }),
            event_views(closed@) == events_of(old(self)@.open, Some(now)),
            starts_dated(old(self)@) ==> all_dated(closed@),
            final(self)@.valid(),
    {
        let mut closed: Vec<ActivityEvent> = Vec::new();
        let last = self.watcher.flush(now);
        let ghost flushed = event_views(one(last));
        if let Some(e) = last {
            closed.push(e);
        }
        assert(event_views(closed@) =~= flushed);
        closed
    }

    /// The in-progress event as of `now`.
    pub fn current(&self, now: Moment) -> (r: Option<ActivityEvent>)
        requires
            self@.valid(),
            now.valid(),
        ensures
            match r {
                Some(e) => self@.open matches Some(o) && e@ == event_of(o, now),
                None => self@.open is None,
            },
    {
        self.watcher.current(now)
    }
}

// ── rows ────────────────────────────────────────────────────────────────────

/// The line of an event, without its line end.
pub open spec fn event_line(e: EventView) -> Seq<char> {
    json::text_field("{\"start\":"@, e.start) + json::text_field(",\"end\":"@, e.end)
        + json::number_field(",\"seconds\":"@, e.seconds) + json::text_field(
        ",\"app\":"@,
        e.app,
    ) + json::text_field(",\"bundle_id\":"@, e.bundle_id) + json::text_field(
        ",\"title\":"@,
        e.title,
    ) + json::flag_field(",\"afk\":"@, e.afk) + "}"@
}

impl ActivityEvent {
    /// The line of this event in its day file.
    pub fn to_line(&self) -> (r: String)
        ensures
            r@ == event_line(self@),
            json::is_line(r@),
    {
        proof {
            reveal_strlit("{\"start\":");
            reveal_strlit(",\"end\":");
            reveal_strlit(",\"seconds\":");
            reveal_strlit(",\"app\":");
            reveal_strlit(",\"bundle_id\":");
            reveal_strlit(",\"title\":");
            reveal_strlit(",\"afk\":");
            reveal_strlit("}");
        }
        let mut out = String::new();
        push_text_field(&mut out, "{\"start\":", self.start.as_str());
        assert(out@ =~= json::text_field("{\"start\":"@, self.start@));
        push_text_field(&mut out, ",\"end\":", self.end.as_str());
        push_number_field(&mut out, ",\"seconds\":", self.seconds);
        push_text_field(&mut out, ",\"app\":", self.app.as_str());
        push_text_field(&mut out, ",\"bundle_id\":", self.bundle_id.as_str());
        push_text_field(&mut out, ",\"title\":", self.title.as_str());
        push_flag_field(&mut out, ",\"afk\":", self.afk);
        push_raw(&mut out, "}");
        out
    }
}

// ── the stream ──────────────────────────────────────────────────────────────

/// The rows of the stream `activity`: each event on the day it started.
pub open spec fn event_rows(events: Seq<EventView>) -> Seq<RowView> {
    Seq::new(events.len(), |i: int| RowView { ts: events[i].start, line: event_line(events[i]) })
}

impl Vault {
    /// Plan the append of events to the stream `activity`.
    pub fn append_activity_events(&self, events: &Vec<ActivityEvent>) -> (r: Result<
        Vec<DayAppend>,
        VaultError,
    >)
        ensures
            vault::appended(self@, "activity"@, event_rows(event_views(events@)), false, r),
            r matches Err(e) ==> e is NoDatePrefix,
            r matches Ok(plan) ==> vault::reads_back(event_rows(event_views(events@)), plan@),
            all_dated(events@) ==> r is Ok,
    {
        let mut rows: Vec<DayRow> = Vec::new();
        let mut i: usize = 0;
        while i < events.len()
            invariant
                i <= events@.len(),
                vault::row_views(rows@) == event_rows(event_views(events@)).take(i as int),
                forall|k: int|
                    0 <= k < i ==> json::is_line(
                        (#[trigger] event_rows(event_views(events@))[k]).line,
                    ),
            decreases events@.len() - i,
        {
            let ghost before = vault::row_views(rows@);
            rows.push(DayRow { ts: events[i].start.clone(), line: events[i].to_line() });
            assert(event_rows(event_views(events@)).take(i + 1) =~= before.push(
                event_rows(event_views(events@))[i as int],
            ));
            assert(vault::row_views(rows@) =~= before.push(event_rows(event_views(events@))[i as int]));
            i = i + 1;
        }
        assert(vault::row_views(rows@) =~= event_rows(event_views(events@)));
        assert(!vault::bad_stream("activity"@)) by {
            reveal_strlit("activity");
            assert(forall|k: int| !#[trigger] vault::parent_at("activity"@, k));
        }
        let r = self.append_day_jsonl("activity", &rows, false);
        proof {
            if all_dated(events@) {
                assert forall|k: int| 0 <= k < events@.len() implies moment::has_date_prefix(
                    (#[trigger] event_rows(event_views(events@))[k]).ts,
                ) by {
                    assert(moment::has_date_prefix(events@[k].start@));
                }
                vault::lemma_none_undated(event_rows(event_views(events@)));
            }
            if r is Ok {
                vault::law_stream_reads_back(
                    self@,
                    "activity"@,
                    event_rows(event_views(events@)),
                    false,
                    r->Ok_0@,
                );
            }
        }
        r
    }
}

// ── laws ────────────────────────────────────────────────────────────────────

/// Every event that a sample closes has a whole second, and an event of being
/// away names no app and no title: idle time counts towards no app.
pub proof fn law_away_names_no_app(w: WatcherView, now: Moment, s: SampleView, offset: i32)
    requires
        w.valid(),
    ensures
        closed_by(w, now, s, offset).len() <= 1,
        forall|i: int|
            0 <= i < closed_by(w, now, s, offset).len() ==> {
                let e = #[trigger] closed_by(w, now, s, offset)[i];
                e.seconds > 0 && (e.afk ==> e.app.len() == 0 && e.bundle_id.len() == 0
                    && e.title.len() == 0)
            },
{
}

/// A gap is billed to nobody: the open event ends at its last known end,
/// whatever the time and the sample that end the gap.
pub proof fn law_gap_is_not_billed(w: WatcherView, now: Moment, s: SampleView, offset: i32)
    requires
        w.valid(),
        is_gap(w, now),
    ensures
        closed_by(w, now, s, offset) == events_of(w.open, Some((w.open->0).end)),
        !is_away(w.cfg, s) ==> (ticked(w, now, s, offset).open->0).start == now,
{
}

/// Idle time is not billed to the app that was in front: when the user goes
/// away, its event ends when the input stopped, and the time away begins there.
pub proof fn law_away_begins_with_the_last_input(
    w: WatcherView,
    now: Moment,
    s: SampleView,
    offset: i32,
)
    requires
        w.valid(),
        now.valid(),
        can_tick(w, now, s),
        is_away(w.cfg, s),
        !is_gap(w, now),
        s.idle_ms >= 0,
        w.open matches Some(o) && !o.afk && o.start.ns() <= input_ns(now, s),
    ensures
        closing_end(w, now, s, offset) == Some(moment_at(input_ns(now, s), offset)),
        (ticked(w, now, s, offset).open->0).start == moment_at(input_ns(now, s), offset),
        (ticked(w, now, s, offset).open->0).afk,
        moment_at(input_ns(now, s), offset).ns() == input_ns(now, s),
{
}

/// Wherever the clock stands, going away moves the boundary to no time before
/// the open event began, and to no time after `now` unless that event did.
pub proof fn law_away_stays_within_the_open_event(
    w: WatcherView,
    now: Moment,
    s: SampleView,
    offset: i32,
)
    requires
        w.valid(),
        now.valid(),
        can_tick(w, now, s),
        is_away(w.cfg, s),
        !goes_on(w, now, s),
        !is_gap(w, now),
    ensures
        ({
            let at = boundary(w, now, s, offset);
            match w.open {
                Some(o) => o.start.ns() <= at.ns() && (at.ns() <= now.ns() || at == o.start),
                None => at.ns() <= now.ns(),
            }
        }),
{
    assert(moment_at(input_ns(now, s), offset).ns() == input_ns(now, s));
}

/// A sample comes in order: the clock has not gone back since the open event
/// began, and after a gap the last input is not older than the event's end.
pub open spec fn in_order(w: WatcherView, now: Moment, s: SampleView) -> bool {
    &&& now.valid()
    &&& can_tick(w, now, s)
    &&& w.open matches Some(o) ==> {
        &&& o.start.ns() <= o.end.ns() <= now.ns()
        &&& is_gap(w, now) && is_away(w.cfg, s) ==> o.end.ns() <= input_ns(now, s)
    }
}

/// The watcher after a run of samples, each with its offset.
pub open spec fn after_run(w: WatcherView, steps: Seq<(Moment, SampleView, i32)>) -> WatcherView
    decreases steps.len(),
{
    if steps.len() == 0 {
        w
    } else {
        let (now, s, offset) = steps.last();
        ticked(after_run(w, steps.drop_last()), now, s, offset)
    }
}

pub open spec fn total_seconds(events: Seq<EventView>) -> int
    decreases events.len(),
{
    if events.len() == 0 {
        0
    } else {
        total_seconds(events.drop_last()) + events.last().seconds
    }
}

/// The events that a run of samples closes, in order.
pub open spec fn closed_by_run(
    w: WatcherView,
    steps: Seq<(Moment, SampleView, i32)>,
) -> Seq<EventView>
    decreases steps.len(),
{
    if steps.len() == 0 {
        Seq::empty()
    } else {
        let (now, s, offset) = steps.last();
        let before = steps.drop_last();
        closed_by_run(w, before) + closed_by(after_run(w, before), now, s, offset)
    }
}

/// Every sample of a run comes in order.
pub open spec fn run_in_order(w: WatcherView, steps: Seq<(Moment, SampleView, i32)>) -> bool
    decreases steps.len(),
{
    steps.len() > 0 ==> {
        let (now, s, offset) = steps.last();
        let before = steps.drop_last();
        &&& run_in_order(w, before)
        &&& moment::offset_valid(offset as int)
        &&& in_order(after_run(w, before), now, s)
    }
}

proof fn lemma_step_in_order(w: WatcherView, now: Moment, s: SampleView, offset: i32)
    requires
        w.valid(),
        in_order(w, now, s),
        moment::offset_valid(offset as int),
    ensures
        ({
            let next = ticked(w, now, s, offset);
            let open = next.open->0;
            &&& next.valid()
            &&& next.open is Some
            &&& open.start.ns() <= open.end.ns()
            &&& open.end == now
            &&& w.open matches Some(o) ==> total_seconds(closed_by(w, now, s, offset))
                * 1_000_000_000 <= open.start.ns() - o.start.ns()
            &&& w.open is None ==> total_seconds(closed_by(w, now, s, offset)) == 0
        }),
{
    let input = input_ns(now, s);
    if is_away(w.cfg, s) && !goes_on(w, now, s) {
        assert(moment_at(input, offset).ns() == input);
    }
    let rows = closed_by(w, now, s, offset);
    if rows.len() > 0 {
        assert(rows.len() == 1);
        assert(rows.drop_last() =~= Seq::empty());
        assert(total_seconds(rows.drop_last()) == 0);
        assert(total_seconds(rows) == rows[0].seconds);
        let o = w.open->0;
        let end = closing_end(w, now, s, offset)->0;
        let d = end.ns() - o.start.ns();
        assert(d >= 0 ==> (d / 1_000_000_000) * 1_000_000_000 <= d);
    }
}

/// No second is billed twice: over a run of samples in order that begins with
/// an open event, the seconds of all closed events and of the event in
/// progress fit between the beginning of the first and the last sample.
pub proof fn law_no_second_is_billed_twice(
    w: WatcherView,
    steps: Seq<(Moment, SampleView, i32)>,
)
    requires
        w.valid(),
        w.open is Some,
        (w.open->0).start.ns() <= (w.open->0).end.ns(),
        run_in_order(w, steps),
    ensures
        ({
            let last = after_run(w, steps);
            let open = last.open->0;
            &&& last.valid()
            &&& last.open is Some
            &&& (total_seconds(closed_by_run(w, steps)) + event_of(open, open.end).seconds)
                * 1_000_000_000 <= open.end.ns() - (w.open->0).start.ns()
        }),
{
    lemma_run(w, steps);
    let open = after_run(w, steps).open->0;
    let d = open.end.ns() - open.start.ns();
    assert((d / 1_000_000_000) * 1_000_000_000 <= d);
}

proof fn lemma_run(w: WatcherView, steps: Seq<(Moment, SampleView, i32)>)
    requires
        w.valid(),
        w.open is Some,
        (w.open->0).start.ns() <= (w.open->0).end.ns(),
        run_in_order(w, steps),
    ensures
        ({
            let last = after_run(w, steps);
            let open = last.open->0;
            &&& last.valid()
            &&& last.open is Some
            &&& open.start.ns() <= open.end.ns()
            &&& total_seconds(closed_by_run(w, steps)) * 1_000_000_000 <= open.start.ns() - (
            w.open->0).start.ns()
        }),
    decreases steps.len(),
{
    if steps.len() > 0 {
        let (now, s, offset) = steps.last();
        let before = steps.drop_last();
        lemma_run(w, before);
        let mid = after_run(w, before);
        lemma_step_in_order(mid, now, s, offset);
        lemma_total_concat(closed_by_run(w, before), closed_by(mid, now, s, offset));
    }
}

proof fn lemma_total_concat(a: Seq<EventView>, b: Seq<EventView>)
    ensures
        total_seconds(a + b) == total_seconds(a) + total_seconds(b),
    decreases b.len(),
{
    if b.len() == 0 {
        assert(a + b =~= a);
    } else {
        assert((a + b).drop_last() =~= a + b.drop_last());
        lemma_total_concat(a, b.drop_last());
    }
}

/// The event that `o` becomes, ended at `end`, which is not before it began:
/// from its beginning to `end`, with what it shows, and none if that is less
/// than a second.
pub open spec fn is_closed_at(o: OpenView, end: Moment, closed: Seq<EventView>) -> bool {
    let secs = end.secs_after(o.start);
    if secs <= 0 {
        closed.len() == 0
    } else {
        &&& closed.len() == 1
        &&& closed[0].start == o.start.text() && closed[0].end == end.text()
        &&& closed[0].seconds == secs
        &&& closed[0].app == o.app && closed[0].bundle_id == o.bundle_id && closed[0].title
            == o.title
        &&& closed[0].afk == o.afk
    }
}

/// The event that begins at `start` with a sample of someone at the keyboard.
pub open spec fn shows_sample(o: OpenView, start: Moment, now: Moment, s: SampleView) -> bool {
    &&& o.start == start && o.end == now && !o.afk
    &&& o.app == s.app && o.bundle_id == s.bundle_id && o.title == s.title
}

/// The event that begins at `start` with nobody at the keyboard.
pub open spec fn shows_nobody(o: OpenView, start: Moment, now: Moment) -> bool {
    &&& o.start == start && o.end == now && o.afk
    &&& o.app.len() == 0 && o.bundle_id.len() == 0 && o.title.len() == 0
}

/// A sample in time that shows what the open event shows extends that event and
/// closes nothing: both away, or both at the keyboard with the same app and
/// window title.
pub proof fn law_same_state_extends_the_event(
    w: WatcherView,
    now: Moment,
    s: SampleView,
    offset: i32,
)
    requires
        w.valid(),
        w.open matches Some(o) && now.secs_after(o.end) <= w.cfg.max_gap_secs && (if s.idle_ms
            >= w.cfg.afk_threshold_ms {
            o.afk
        } else {
            !o.afk && o.app == s.app && o.title == s.title
        }),
    ensures
        closed_by(w, now, s, offset).len() == 0,
        ticked(w, now, s, offset).cfg == w.cfg,
        ticked(w, now, s, offset).open matches Some(n) && {
            let o = w.open->0;
            &&& n.start == o.start && n.end == now && n.afk == o.afk
            &&& n.app == o.app && n.bundle_id == o.bundle_id && n.title == o.title
        },
{
}

/// A sample in time, of someone at the keyboard, that shows something else ends
/// the open event at the time of the sample, and the new event starts there.
/// So the end of being away is recorded with all of its seconds, and no app's
/// event starts before the sample that first showed it.
pub proof fn law_change_is_at_the_sample(
    w: WatcherView,
    now: Moment,
    s: SampleView,
    offset: i32,
)
    requires
        w.valid(),
        now.valid(),
        s.idle_ms < w.cfg.afk_threshold_ms,
        w.open matches Some(o) && now.secs_after(o.end) <= w.cfg.max_gap_secs && (o.afk || o.app
            != s.app || o.title != s.title),
    ensures
        is_closed_at(w.open->0, now, closed_by(w, now, s, offset)),
        ticked(w, now, s, offset).open matches Some(n) && shows_sample(n, now, now, s),
{
}

/// Going away ends the open event at the last input, and the time away starts
/// there: not before the event began, and not after now.
pub proof fn law_going_away_is_at_the_last_input(
    w: WatcherView,
    now: Moment,
    s: SampleView,
    offset: i32,
)
    requires
        w.valid(),
        now.valid(),
        moment::offset_valid(offset as int),
        can_tick(w, now, s),
        s.idle_ms >= w.cfg.afk_threshold_ms,
        w.open matches Some(o) && now.secs_after(o.end) <= w.cfg.max_gap_secs && o.start.ns()
            <= now.ns() && !o.afk,
    ensures
        ticked(w, now, s, offset).open matches Some(n) && {
            let o = w.open->0;
            let input = now.ns() - s.idle_ms * 1_000_000;
            &&& shows_nobody(n, n.start, now)
            &&& n.start.ns() == (if input < o.start.ns() {
                o.start.ns()
            } else if input > now.ns() {
                now.ns()
            } else {
                input
            })
            &&& n.start == o.start || n.start == now || n.start.offset == offset
            &&& is_closed_at(o, n.start, closed_by(w, now, s, offset))
        },
{
    assert(moment_at(input_ns(now, s), offset).ns() == input_ns(now, s));
}

/// A sample that comes too late closes the open event at its last known end,
/// and begins a new one: now, or with the last input if nobody is there.
pub proof fn law_after_a_gap_a_new_event_begins(
    w: WatcherView,
    now: Moment,
    s: SampleView,
    offset: i32,
)
    requires
        w.valid(),
        now.valid(),
        can_tick(w, now, s),
        w.open matches Some(o) && now.secs_after(o.end) > w.cfg.max_gap_secs && o.start.ns()
            <= o.end.ns(),
    ensures
        is_closed_at(w.open->0, (w.open->0).end, closed_by(w, now, s, offset)),
        ticked(w, now, s, offset).open matches Some(n) && if s.idle_ms < w.cfg.afk_threshold_ms {
            shows_sample(n, now, now, s)
        } else {
            let input = now.ns() - s.idle_ms * 1_000_000;
            shows_nobody(n, n.start, now) && n.start.ns() == (if input > now.ns() {
                now.ns()
            } else {
                input
            })
        },
{
    assert(moment_at(input_ns(now, s), offset).ns() == input_ns(now, s));
}

/// The first sample begins an event and closes nothing.
pub proof fn law_first_sample_begins_an_event(
    w: WatcherView,
    now: Moment,
    s: SampleView,
    offset: i32,
)
    requires
        w.open is None,
        now.valid(),
        can_tick(w, now, s),
    ensures
        closed_by(w, now, s, offset).len() == 0,
        ticked(w, now, s, offset).cfg == w.cfg,
        ticked(w, now, s, offset).open matches Some(n) && if s.idle_ms < w.cfg.afk_threshold_ms {
            shows_sample(n, now, now, s)
        } else {
            let input = now.ns() - s.idle_ms * 1_000_000;
            shows_nobody(n, n.start, now) && n.start.ns() == (if input > now.ns() {
                now.ns()
            } else {
                input
            })
        },
{
    assert(moment_at(input_ns(now, s), offset).ns() == input_ns(now, s));
}

/// Closing out, and the event in progress: the open event ends now.
pub proof fn law_closing_out_ends_the_event_now(o: OpenView, now: Moment)
    requires
        o.start.valid(),
        now.valid(),
        o.start.ns() <= now.ns(),
    ensures
        is_closed_at(o, now, events_of(Some(o), Some(now))),
        events_of(None, Some(now)).len() == 0,
        ({
            let e = event_of(o, now);
            &&& e.start == o.start.text() && e.end == now.text() || o.start.ns() == now.ns()
            &&& e.seconds == now.secs_after(o.start)
            &&& e.app == o.app && e.bundle_id == o.bundle_id && e.title == o.title && e.afk == o.afk
        }),
{
}

/// From samples to an event: an app and window title that a run of samples
/// shows, each in time, with someone at the keyboard, is one event. It begins
/// with the first sample, and a sample in time of something else ends it.
pub proof fn law_event_of_a_stretch(
    w: WatcherView,
    steps: Seq<(Moment, SampleView, i32)>,
    now: Moment,
    s: SampleView,
    offset: i32,
)
    requires
        w.open is None,
        steps.len() > 0,
        one_stretch(w.cfg, steps),
        now.valid(),
        now.secs_after(steps.last().0) <= w.cfg.max_gap_secs,
        s.idle_ms < w.cfg.afk_threshold_ms,
        s.app != steps[0].1.app || s.title != steps[0].1.title,
    ensures
        closed_by_run(w, steps).len() == 0,
        ({
            let closed = closed_by(after_run(w, steps), now, s, offset);
            let secs = now.secs_after(steps[0].0);
            &&& (secs > 0) == (closed.len() == 1)
            &&& closed.len() <= 1
            &&& secs > 0 ==> {
                &&& closed[0].start == steps[0].0.text() && closed[0].end == now.text()
                &&& closed[0].seconds == secs && !closed[0].afk
                &&& closed[0].app == steps[0].1.app && closed[0].title == steps[0].1.title
                &&& closed[0].bundle_id == steps[0].1.bundle_id
            }
        }),
{
    lemma_stretch(w, steps);
    law_change_is_at_the_sample(after_run(w, steps), now, s, offset);
}

/// A run of samples, each in time and with someone at the keyboard, that all
/// show one app and window title.
pub open spec fn one_stretch(cfg: WatchConfig, steps: Seq<(Moment, SampleView, i32)>) -> bool {
    &&& forall|i: int|
        0 <= i < steps.len() ==> (#[trigger] steps[i]).0.valid() && steps[i].1.idle_ms
            < cfg.afk_threshold_ms && steps[i].1.app == steps[0].1.app && steps[i].1.title
            == steps[0].1.title
    &&& forall|i: int, j: int|
        #![trigger steps[i], steps[j]]
        0 <= i && j == i + 1 && j < steps.len() ==> steps[j].0.secs_after(steps[i].0)
            <= cfg.max_gap_secs
}

proof fn lemma_stretch(w: WatcherView, steps: Seq<(Moment, SampleView, i32)>)
    requires
        w.open is None,
        steps.len() > 0,
        one_stretch(w.cfg, steps),
    ensures
        closed_by_run(w, steps).len() == 0,
        after_run(w, steps).valid(),
        after_run(w, steps).cfg == w.cfg,
        after_run(w, steps).open matches Some(o) && {
            &&& o.start == steps[0].0 && o.end == steps.last().0 && !o.afk
            &&& o.app == steps[0].1.app && o.bundle_id == steps[0].1.bundle_id && o.title
                == steps[0].1.title
        },
    decreases steps.len(),
{
    let less = steps.drop_last();
    let last = steps[steps.len() - 1];
    if steps.len() == 1 {
        assert(after_run(w, less) == w);
        assert(closed_by_run(w, less).len() == 0);
        law_first_sample_begins_an_event(w, last.0, last.1, last.2);
    } else {
        assert(less[0] == steps[0]);
        assert forall|i: int| 0 <= i < less.len() implies (#[trigger] less[i]).0.valid()
            && less[i].1.idle_ms < w.cfg.afk_threshold_ms && less[i].1.app == less[0].1.app
            && less[i].1.title == less[0].1.title by {
            assert(steps[i] == less[i]);
        }
        assert forall|i: int, j: int|
            #![trigger less[i], less[j]]
            0 <= i && j == i + 1 && j < less.len() implies less[j].0.secs_after(less[i].0)
            <= w.cfg.max_gap_secs by {
            assert(steps[i] == less[i] && steps[j] == less[j]);
        }
        lemma_stretch(w, less);
        let prev = steps[steps.len() - 2];
        assert(less.last() == prev);
        assert(last.0.secs_after(prev.0) <= w.cfg.max_gap_secs);
        law_same_state_extends_the_event(after_run(w, less), last.0, last.1, last.2);
    }
}

// ── a line tells its record ────────────────────────────────────────────────

spec fn from_afk(e: EventView) -> Seq<char> {
    json::flag_field(",\"afk\":"@, e.afk) + "}"@
}

spec fn from_title(e: EventView) -> Seq<char> {
    json::text_field(",\"title\":"@, e.title) + from_afk(e)
}

spec fn from_bundle_id(e: EventView) -> Seq<char> {
    json::text_field(",\"bundle_id\":"@, e.bundle_id) + from_title(e)
}

spec fn from_app(e: EventView) -> Seq<char> {
    json::text_field(",\"app\":"@, e.app) + from_bundle_id(e)
}

spec fn from_seconds(e: EventView) -> Seq<char> {
    json::number_field(",\"seconds\":"@, e.seconds) + from_app(e)
}

spec fn from_end(e: EventView) -> Seq<char> {
    json::text_field(",\"end\":"@, e.end) + from_seconds(e)
}

proof fn lemma_line_from_the_front(e: EventView)
    ensures
        event_line(e) == json::text_field("{\"start\":"@, e.start) + from_end(e),
{
    let f1 = json::text_field("{\"start\":"@, e.start);
    let f2 = json::text_field(",\"end\":"@, e.end);
    let f3 = json::number_field(",\"seconds\":"@, e.seconds);
    let f4 = json::text_field(",\"app\":"@, e.app);
    let f5 = json::text_field(",\"bundle_id\":"@, e.bundle_id);
    let f6 = json::text_field(",\"title\":"@, e.title);
    let f7 = json::flag_field(",\"afk\":"@, e.afk);
    let p1 = f1;
    let p2 = p1 + f2;
    let p3 = p2 + f3;
    let p4 = p3 + f4;
    let p5 = p4 + f5;
    let p6 = p5 + f6;
    let p7 = p6 + f7;
    json::lemma_regroup(p6, f7, "}"@);
    json::lemma_regroup(p5, f6, from_afk(e));
    json::lemma_regroup(p4, f5, from_title(e));
    json::lemma_regroup(p3, f4, from_bundle_id(e));
    json::lemma_regroup(p2, f3, from_app(e));
    json::lemma_regroup(p1, f2, from_seconds(e));
}

/// What stands behind the line of an event is told from it, whatever it is.
proof fn lemma_line_and_rest(e: EventView, rest: Seq<char>)
    ensures
        event_line(e) + rest == json::text_field("{\"start\":"@, e.start) + (from_end(e) + rest),
        from_end(e) + rest == json::text_field(",\"end\":"@, e.end) + (from_seconds(e) + rest),
        from_seconds(e) + rest == json::number_field(",\"seconds\":"@, e.seconds) + (from_app(e) + rest),
        from_app(e) + rest == json::text_field(",\"app\":"@, e.app) + (from_bundle_id(e) + rest),
        from_bundle_id(e) + rest == json::text_field(",\"bundle_id\":"@, e.bundle_id) + (from_title(e) + rest),
        from_title(e) + rest == json::text_field(",\"title\":"@, e.title) + (from_afk(e) + rest),
        from_afk(e) + rest == json::flag_field(",\"afk\":"@, e.afk) + ("}"@ + rest),
{
    lemma_line_from_the_front(e);
    json::lemma_regroup(json::text_field("{\"start\":"@, e.start), from_end(e), rest);
    json::lemma_regroup(json::text_field(",\"end\":"@, e.end), from_seconds(e), rest);
    json::lemma_regroup(json::number_field(",\"seconds\":"@, e.seconds), from_app(e), rest);
    json::lemma_regroup(json::text_field(",\"app\":"@, e.app), from_bundle_id(e), rest);
    json::lemma_regroup(json::text_field(",\"bundle_id\":"@, e.bundle_id), from_title(e), rest);
    json::lemma_regroup(json::text_field(",\"title\":"@, e.title), from_afk(e), rest);
    json::lemma_regroup(json::flag_field(",\"afk\":"@, e.afk), "}"@, rest);
}

/// The line of an event tells where it ends and which event it is, whatever
/// follows.
pub proof fn law_event_line_reads_back(
    a: EventView,
    ra: Seq<char>,
    b: EventView,
    rb: Seq<char>,
)
    requires
        event_line(a) + ra == event_line(b) + rb,
        0 <= a.seconds,
        0 <= b.seconds,
    ensures
        a == b,
        ra == rb,
{
    lemma_line_and_rest(a, ra);
    lemma_line_and_rest(b, rb);
    reveal_strlit(",\"app\":");
    assert((from_app(a) + ra)[0] == ',' && (from_app(b) + rb)[0] == ',');
    json::lemma_text_field_reads_back(
        "{\"start\":"@,
        a.start,
        from_end(a) + ra,
        b.start,
        from_end(b) + rb,
    );
    json::lemma_text_field_reads_back(
        ",\"end\":"@,
        a.end,
        from_seconds(a) + ra,
        b.end,
        from_seconds(b) + rb,
    );
    json::lemma_number_field_reads_back(
        ",\"seconds\":"@,
        a.seconds,
        from_app(a) + ra,
        b.seconds,
        from_app(b) + rb,
    );
    json::lemma_text_field_reads_back(
        ",\"app\":"@,
        a.app,
        from_bundle_id(a) + ra,
        b.app,
        from_bundle_id(b) + rb,
    );
    json::lemma_text_field_reads_back(
        ",\"bundle_id\":"@,
        a.bundle_id,
        from_title(a) + ra,
        b.bundle_id,
        from_title(b) + rb,
    );
    json::lemma_text_field_reads_back(
        ",\"title\":"@,
        a.title,
        from_afk(a) + ra,
        b.title,
        from_afk(b) + rb,
    );
    json::lemma_flag_field_reads_back(
        ",\"afk\":"@,
        a.afk,
        "}"@ + ra,
        b.afk,
        "}"@ + rb,
    );
    json::lemma_behind("}"@, ra, rb);
    assert(a =~= b);
}

/// A line tells its event: no two events have the same line.
pub proof fn law_line_tells_the_event(a: EventView, b: EventView)
    requires
        event_line(a) == event_line(b),
        0 <= a.seconds,
        0 <= b.seconds,
    ensures
        a == b,
{
    let nothing = Seq::<char>::empty();
    assert(event_line(a) + nothing == event_line(b) + nothing);
    law_event_line_reads_back(a, nothing, b, nothing);
}

/// The line of an event names its fields, each with its own value.
#[verifier::rlimit(30)]
pub proof fn law_line_names_its_fields(e: EventView)
    ensures
        json::has_field(event_line(e), "start"@, json::json_text(e.start)),
        json::has_field(event_line(e), "end"@, json::json_text(e.end)),
        json::has_field(event_line(e), "seconds"@, json::decimal(e.seconds as nat)),
        json::has_field(event_line(e), "app"@, json::json_text(e.app)),
        json::has_field(event_line(e), "bundle_id"@, json::json_text(e.bundle_id)),
        json::has_field(event_line(e), "title"@, json::json_text(e.title)),
        json::has_field(event_line(e), "afk"@, json::bool_text(e.afk)),
{
    assert(json::goes_on("}"@)) by {
        reveal_strlit("}");
    }
    assert({
        &&& json::has_field(
            from_afk(e),
            "afk"@,
            json::bool_text(e.afk),
        )
        &&& json::goes_on(from_afk(e))
    }) by {
        reveal_strlit(",\"afk\":");
        reveal_strlit("afk");
        json::lemma_field_at_the_front(",\"afk\":"@, "afk"@, json::bool_text(e.afk), "}"@);
    }
    json::lemma_fields_behind(json::flag_field(",\"afk\":"@, e.afk), "}"@);
    assert({
        &&& json::has_field(
            from_title(e),
            "title"@,
            json::json_text(e.title),
        )
        &&& json::goes_on(from_title(e))
    }) by {
        reveal_strlit(",\"title\":");
        reveal_strlit("title");
        json::lemma_field_at_the_front(
            ",\"title\":"@,
            "title"@,
            json::json_text(e.title),
            from_afk(e),
        );
    }
    json::lemma_fields_behind(json::text_field(",\"title\":"@, e.title), from_afk(e));
    assert({
        &&& json::has_field(
            from_bundle_id(e),
            "bundle_id"@,
            json::json_text(e.bundle_id),
        )
        &&& json::goes_on(from_bundle_id(e))
    }) by {
        reveal_strlit(",\"bundle_id\":");
        reveal_strlit("bundle_id");
        json::lemma_field_at_the_front(
            ",\"bundle_id\":"@,
            "bundle_id"@,
            json::json_text(e.bundle_id),
            from_title(e),
        );
    }
    json::lemma_fields_behind(json::text_field(",\"bundle_id\":"@, e.bundle_id), from_title(e));
    assert({
        &&& json::has_field(
            from_app(e),
            "app"@,
            json::json_text(e.app),
        )
        &&& json::goes_on(from_app(e))
    }) by {
        reveal_strlit(",\"app\":");
        reveal_strlit("app");
        json::lemma_field_at_the_front(
            ",\"app\":"@,
            "app"@,
            json::json_text(e.app),
            from_bundle_id(e),
        );
    }
    json::lemma_fields_behind(json::text_field(",\"app\":"@, e.app), from_bundle_id(e));
    assert({
        &&& json::has_field(
            from_seconds(e),
            "seconds"@,
            json::decimal(e.seconds as nat),
        )
        &&& json::goes_on(from_seconds(e))
    }) by {
        reveal_strlit(",\"seconds\":");
        reveal_strlit("seconds");
        json::lemma_field_at_the_front(
            ",\"seconds\":"@,
            "seconds"@,
            json::decimal(e.seconds as nat),
            from_app(e),
        );
    }
    json::lemma_fields_behind(json::number_field(",\"seconds\":"@, e.seconds), from_app(e));
    assert({
        &&& json::has_field(
            from_end(e),
            "end"@,
            json::json_text(e.end),
        )
        &&& json::goes_on(from_end(e))
    }) by {
        reveal_strlit(",\"end\":");
        reveal_strlit("end");
        json::lemma_field_at_the_front(
            ",\"end\":"@,
            "end"@,
            json::json_text(e.end),
            from_seconds(e),
        );
    }
    json::lemma_fields_behind(json::text_field(",\"end\":"@, e.end), from_seconds(e));
    assert(json::has_field(json::text_field("{\"start\":"@, e.start) + from_end(e), "start"@, json::json_text(e.start))) by {
        reveal_strlit("{\"start\":");
        reveal_strlit("start");
        json::lemma_field_at_the_front(
            "{\"start\":"@,
            "start"@,
            json::json_text(e.start),
            from_end(e),
        );
    }
    json::lemma_fields_behind(json::text_field("{\"start\":"@, e.start), from_end(e));
    lemma_line_from_the_front(e);
}

/// An event is filed as a line of the day on which it started, in the stream
/// `activity`.
pub proof fn law_events_are_filed_by_their_start(
    root: Seq<char>,
    events: Seq<EventView>,
    plan: Vec<DayAppend>,
    k: int,
)
    requires
        vault::appended(root, "activity"@, event_rows(events), false, Ok(plan)),
        0 <= k < events.len(),
    ensures
        exists|i: int|
            0 <= i < plan@.len() && {
                let a = #[trigger] plan@[i];
                &&& a.day@ == events[k].start.take(10)
                &&& a.rel@ == "activity/"@ + events[k].start.take(10) + ".jsonl"@
                &&& a.flock == false
                &&& exists|j: int|
                    text::occurs_at(a.text@, event_line(events[k]) + seq!['\n'], j)
                        && #[trigger] vault::line_start(a.text@, j)
            },
{
    let rows = event_rows(events);
    vault::law_a_row_is_a_line_of_its_day(root, "activity"@, rows, false, plan@, k);
    assert("activity/"@ =~= "activity"@ + seq!['/']) by {
        reveal_strlit("activity/");
        reveal_strlit("activity");
    }
    assert(rows[k].ts == events[k].start && rows[k].line == event_line(events[k]));
}

/// The model of an event has the fields of the event, each its own.
pub proof fn law_model_of_an_event(x: ActivityEvent)
    ensures
        x@.start == x.start@,
        x@.end == x.end@,
        x@.seconds == x.seconds,
        x@.app == x.app@,
        x@.bundle_id == x.bundle_id@,
        x@.title == x.title@,
        x@.afk == x.afk,
{
}

} // verus!
