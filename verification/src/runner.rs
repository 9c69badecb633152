//! The always-on loop: hold the vault's single-writer lock, tick every live
//! collector each poll, heartbeat, and log memory.
//!
//! Exactly one collector process writes the live streams at a time. The holder
//! of the lock samples, ticks, appends and heartbeats; any other instance
//! retries the lock each poll. What to do next is decided here; locking,
//! sleeping and writing are the caller's.

use crate::activity::{ActivityEvent, ActivityLive, WatcherView};
use crate::moment::Moment;
use crate::music::{MusicLive, Play, ScrobblerView, TimedPlayerEvent};
use crate::sampler::{Sample, SampleView};
use crate::text::{chars_of, is_digit, is_space, owned};
use crate::vault::{
    enabled_in, AtomicWrite, DayAppend, Heartbeat, HeartbeatView, IntegrationSettings, Vault, VaultError,
};
use crate::{activity, json, launchd, moment, music, text, vault};
use std::sync::atomic::{AtomicBool, Ordering};
use std::sync::Arc;
use vstd::prelude::*;

verus! {

/// Seconds between two memory lines in the log.
pub const MEMORY_LOG_SECS: u64 = 600;

/// Sleeping is done in slices of this many milliseconds.
pub const SLEEP_SLICE_MS: u64 = 250;

// ── the stop flag ───────────────────────────────────────────────────────────

/// Shared stop flag for the loop. What a look at it finds depends on the other
/// threads that share it.
#[derive(Clone)]
pub struct Control {
    stop: Arc<AtomicBool>,
}

impl Control {
    /// A flag that is not set.
    pub fn new() -> Control {
        Control { stop: Arc::new(AtomicBool::new(false)) }
    }

    /// Set the flag, for all that share it.
    pub fn stop(&self) {
        self.stop.store(true, Ordering::SeqCst);
    }

    /// Is the flag set?
    pub fn stopped(&self) -> bool {
        self.stop.load(Ordering::SeqCst)
    }
}

// ── what to do next ─────────────────────────────────────────────────────────

/// Does this process hold the vault's lock?
#[derive(Debug, Clone, Copy, PartialEq, Eq, Structural)]
pub enum Phase {
    Unlocked,
    Locked,
}

/// What happened, and whether the stop flag was set when it had.
#[derive(Debug, Clone, Copy, PartialEq, Eq, Structural)]
pub enum RunEvent {
    Started { stopped: bool },
    /// The lock was tried.
    LockTried { taken: bool, stopped: bool },
    Paused { stopped: bool },
    Polled { stopped: bool },
    /// What was open is closed out and the lock given back.
    ShutDown { stopped: bool },
}

/// What the loop does next.
#[derive(Debug, Clone, Copy, PartialEq, Eq, Structural)]
pub enum RunAction {
    TryLock,
    /// Sleep for a poll, or until stop is requested.
    Pause,
    /// Tick the collectors, append and heartbeat.
    Poll,
    /// Close out what is open, remove the heartbeat, give the lock back.
    ShutDown,
    Exit,
}

/// What the loop does after an event, and whether it holds the lock then. An
/// event that cannot happen in a phase leaves the loop where it would be had
/// it just looked at the stop flag.
pub open spec fn next(phase: Phase, event: RunEvent) -> (Phase, RunAction) {
    match (phase, event) {
        (Phase::Unlocked, RunEvent::LockTried { taken: true, stopped }) => (
            Phase::Locked,
            if stopped {
                RunAction::ShutDown
            } else {
                RunAction::Pause
            },
        ),
        (Phase::Unlocked, RunEvent::LockTried { taken: false, stopped: _ }) => (
            Phase::Unlocked,
            RunAction::Pause,
        ),
        (Phase::Locked, RunEvent::ShutDown { stopped }) => (Phase::Unlocked, contend(stopped)),
        (Phase::Unlocked, _) => (Phase::Unlocked, contend(stop_seen(event))),
        (Phase::Locked, RunEvent::Paused { stopped: false }) => (Phase::Locked, RunAction::Poll),
        (Phase::Locked, _) => (
            Phase::Locked,
            if stop_seen(event) {
                RunAction::ShutDown
            } else {
                RunAction::Pause
            },
        ),
    }
}

/// Without the lock: try it, unless stop is requested.
pub open spec fn contend(stopped: bool) -> RunAction {
    if stopped {
        RunAction::Exit
    } else {
        RunAction::TryLock
    }
}

pub open spec fn stop_seen(event: RunEvent) -> bool {
    match event {
        RunEvent::Started { stopped } => stopped,
        RunEvent::LockTried { taken: _, stopped } => stopped,
        RunEvent::Paused { stopped } => stopped,
        RunEvent::Polled { stopped } => stopped,
        RunEvent::ShutDown { stopped } => stopped,
    }
}

fn contending(stopped: bool) -> (r: RunAction)
    ensures
        r == contend(stopped),
{
    if stopped {
        RunAction::Exit
    } else {
        RunAction::TryLock
    }
}

fn holding(stopped: bool) -> (r: RunAction)
    ensures
        r == (if stopped {
            RunAction::ShutDown
        } else {
            RunAction::Pause
        }),
{
    if stopped {
        RunAction::ShutDown
    } else {
        RunAction::Pause
    }
}

/// One step of the loop.
pub fn run_step(phase: Phase, event: RunEvent) -> (r: (Phase, RunAction))
    ensures
        r == next(phase, event),
{
    match phase {
        Phase::Unlocked => match event {
            RunEvent::LockTried { taken, stopped } => if taken {
                (Phase::Locked, holding(stopped))
            } else {
                (Phase::Unlocked, RunAction::Pause)
            },
            RunEvent::Started { stopped } => (Phase::Unlocked, contending(stopped)),
            RunEvent::Paused { stopped } => (Phase::Unlocked, contending(stopped)),
            RunEvent::Polled { stopped } => (Phase::Unlocked, contending(stopped)),
            RunEvent::ShutDown { stopped } => (Phase::Unlocked, contending(stopped)),
        },
        Phase::Locked => match event {
            RunEvent::Paused { stopped } => if stopped {
                (Phase::Locked, RunAction::ShutDown)
            } else {
                (Phase::Locked, RunAction::Poll)
            },
            RunEvent::ShutDown { stopped } => (Phase::Unlocked, contending(stopped)),
            RunEvent::Started { stopped } => (Phase::Locked, holding(stopped)),
            RunEvent::LockTried { taken: _, stopped } => (Phase::Locked, holding(stopped)),
            RunEvent::Polled { stopped } => (Phase::Locked, holding(stopped)),
        },
    }
}

/// Sleeping goes on while the time is not up and stop is not requested.
pub fn keeps_sleeping(elapsed_ms: u64, total_ms: u64, stopped: bool) -> (r: bool)
    ensures
        r == (elapsed_ms < total_ms && !stopped),
{
    elapsed_ms < total_ms && !stopped
}

// ── one poll ────────────────────────────────────────────────────────────────

/// The live collectors.
pub struct Collectors {
    activity: ActivityLive,
    music: MusicLive,
}

#[verifier::ext_equal]
pub struct CollectorsView {
    pub activity: WatcherView,
    pub music: ScrobblerView,
}

impl View for Collectors {
    type V = CollectorsView;

    closed spec fn view(&self) -> CollectorsView {
        CollectorsView { activity: self.activity@, music: self.music@ }
    }
}

impl CollectorsView {
    pub open spec fn valid(self) -> bool {
        self.activity.valid() && self.music.valid()
    }
}

/// What the collectors want to be written: to each stream its records, if
/// there are any. A refused append is to be logged and is never fatal.
#[derive(Debug, Clone)]
pub struct Appends {
    pub activity: Option<Result<Vec<DayAppend>, VaultError>>,
    pub music: Option<Result<Vec<DayAppend>, VaultError>>,
}

/// The outcome of a poll.
#[derive(Debug, Clone)]
pub struct PollOutcome {
    pub appends: Appends,
    pub heartbeat: AtomicWrite,
    /// A memory line is due in the log.
    pub log_memory: bool,
}

/// The records are to be appended to the two live streams.
pub open spec fn are_appends(
    root: Seq<char>,
    events: Seq<activity::EventView>,
    plays: Seq<music::PlayView>,
    a: Appends,
) -> bool {
    &&& vault::is_append(root, "activity"@, activity::event_rows(events), false, a.activity)
    &&& vault::is_append(root, "music/plays"@, music::play_rows(plays), false, a.music)
}

/// No append is refused to a collector whose open record and notifications came
/// in years of four digits.
pub open spec fn none_refused(
    c: CollectorsView,
    events: Seq<TimedPlayerEvent>,
    a: Appends,
) -> bool {
    &&& activity::starts_dated(c.activity) ==> (a.activity matches Some(r) ==> r is Ok)
    &&& music::starts_dated(c.music) && music::times_dated(events) ==> (a.music matches Some(r)
        ==> r is Ok)
}

/// The activity collector went from `before` to `after` in a poll and closed
/// `events`.
pub open spec fn activity_polled(
    before: WatcherView,
    after: WatcherView,
    now: Moment,
    s: SampleView,
    enabled: bool,
    events: Seq<activity::EventView>,
) -> bool {
    if enabled {
        exists|offset: i32| #[trigger]
            moment::offset_valid(offset as int) && after == activity::ticked(before, now, s, offset)
                && events == activity::closed_by(before, now, s, offset)
    } else {
        after == (WatcherView { open: None, ..before }) && events == activity::events_of(
            before.open,
            Some(now),
        )
    }
}

/// What the scrobbler is after a poll.
pub open spec fn music_after(
    before: ScrobblerView,
    batch: Seq<(Moment, music::PlayerEventView)>,
    enabled: bool,
) -> ScrobblerView {
    if enabled {
        music::handled_all(before, batch)
    } else {
        ScrobblerView { open: None, ..before }
    }
}

/// The plays that a poll completes.
pub open spec fn music_plays(
    before: ScrobblerView,
    batch: Seq<(Moment, music::PlayerEventView)>,
    now: Moment,
    enabled: bool,
) -> Seq<music::PlayView> {
    if enabled {
        music::completed_by_all(before, batch)
    } else {
        music::and_play(Seq::empty(), music::closing_play(before, now))
    }
}

/// The heartbeat of a poll.
pub open spec fn beat(
    pid: u32,
    now: Moment,
    open: Option<activity::OpenView>,
    rss: Option<u64>,
) -> HeartbeatView {
    HeartbeatView {
        pid,
        role: "trove-collector"@,
        updated: now.text(),
        current: match open {
            Some(o) => Some(activity::event_of(o, now)),
            None => None,
        },
        rss_mb: match rss {
            Some(b) => Some((b / 1_048_576) as u64),
            None => None,
        },
    }
}

fn append_activity(vault: &Vault, events: &Vec<ActivityEvent>) -> (r: Option<
    Result<Vec<DayAppend>, VaultError>,
>)
    ensures
        vault::is_append(
            vault@,
            "activity"@,
            activity::event_rows(activity::event_views(events@)),
            false,
            r,
        ),
        activity::all_dated(events@) ==> (r matches Some(a) ==> a is Ok),
{
    if events.len() == 0 {
        None
    } else {
        Some(vault.append_activity_events(events))
    }
}

fn append_music(vault: &Vault, plays: &Vec<Play>) -> (r: Option<Result<Vec<DayAppend>, VaultError>>)
    ensures
        vault::is_append(
            vault@,
            "music/plays"@,
            music::play_rows(music::play_views(plays@)),
            false,
            r,
        ),
        music::all_dated(plays@) ==> (r matches Some(a) ==> a is Ok),
{
    if plays.len() == 0 {
        None
    } else {
        Some(vault.append_music_plays(plays))
    }
}

impl Collectors {
    pub fn new() -> (r: Collectors)
        ensures
            r@.activity.open is None,
            r@.activity.cfg.afk_threshold_ms == 120_000,
            r@.activity.cfg.max_gap_secs == 30,
            r@.music.open is None,
            r@.music.cfg.min_record_ms == 5_000,
            r@.music.cfg.full_permille == 500,
            r@.music.cfg.full_ms == 240_000,
            r@.valid(),
    {
        Collectors { activity: ActivityLive::new(), music: MusicLive::new() }
    }

    /// Can this sample be folded in?
    pub fn accepts(&self, now: Moment, sample: &Sample) -> (r: bool)
        requires
            self@.valid(),
            now.valid(),
        ensures
            r == activity::can_tick(self@.activity, now, sample@),
    {
        self.activity.accepts(now, sample)
    }

    /// One poll: tick each collector under its toggle, and say what is to be
    /// written. `rss` is the resident memory of the process in bytes,
    /// `since_log_secs` the time since the last memory line.
    pub fn poll(
        &mut self,
        vault: &Vault,
        settings: &IntegrationSettings,
        now: Moment,
        sample: &Sample,
        events: &Vec<TimedPlayerEvent>,
        pid: u32,
        rss: Option<u64>,
        since_log_secs: u64,
    ) -> (r: PollOutcome)
        requires
            old(self)@.valid(),
            now.valid(),
            vault::is_enabled(settings@, "activity"@) ==> activity::can_tick(
                old(self)@.activity,
                now,
                sample@,
            ),
            forall|i: int| 0 <= i < events@.len() ==> (#[trigger] events@[i]).0.valid(),
        ensures
            exists|closed: Seq<activity::EventView>|
                {
                    &&& activity_polled(
                        old(self)@.activity,
                        final(self)@.activity,
                        now,
                        sample@,
                        vault::is_enabled(settings@, "activity"@),
                        closed,
                    )
                    &&& #[trigger] are_appends(
                        vault@,
                        closed,
                        music_plays(
                            old(self)@.music,
                            music::timed_views(events@),
                            now,
                            vault::is_enabled(settings@, "music-scrobbler"@),
                        ),
                        r.appends,
                    )
                },
            final(self)@.music == music_after(
                old(self)@.music,
                music::timed_views(events@),
                vault::is_enabled(settings@, "music-scrobbler"@),
            ),
            none_refused(old(self)@, events@, r.appends),
            r.heartbeat.path@ == vault::joined(vault@, vault::STATE_FILE@),
            r.heartbeat.temp@ == vault::temp_of(r.heartbeat.path@),
            r.heartbeat.text@ == vault::heartbeat_text(
                beat(pid, now, final(self)@.activity.open, rss),
            ),
            // A reader of the heartbeat finds it live for a few polls and stale
            // after that.
            now.four_digit_year() && now.offset % 60 == 0 ==> forall|later: Moment|
                later.valid() ==> #[trigger] launchd::fresh_at(now.text(), later) == (
                later.secs_after(now) <= launchd::FRESH_SECS),
            r.log_memory == (since_log_secs >= 600),
            final(self)@.valid(),
    {
        let closed = self.activity.tick(now, sample, enabled_in(settings, "activity"));
        let plays = self.music.tick(events, now, enabled_in(settings, "music-scrobbler"));
        let appends = Appends {
            activity: append_activity(vault, &closed),
            music: append_music(vault, &plays),
        };
        let ghost on = vault::is_enabled(settings@, "activity"@);
        let ghost done = activity::event_views(closed@);
        assert(activity_polled(old(self)@.activity, self@.activity, now, sample@, on, done));
        assert(are_appends(
            vault@,
            done,
            music_plays(
                old(self)@.music,
                music::timed_views(events@),
                now,
                vault::is_enabled(settings@, "music-scrobbler"@),
            ),
            appends,
        ));
        let state = Heartbeat {
            pid,
            role: owned("trove-collector"),
            updated: now.to_rfc3339(),
            current: self.activity.current(now),
            rss_mb: match rss {
                Some(b) => Some(b / 1_048_576),
                None => None,
            },
        };
        assert(state@ =~= beat(pid, now, self@.activity.open, rss));
        PollOutcome {
            appends,
            heartbeat: vault.write_heartbeat(&state),
            log_memory: since_log_secs >= MEMORY_LOG_SECS,
        }
    }

    /// Graceful shutdown: close out what is open, and say what is to be
    /// written. `events` are the notifications that were still waiting.
    pub fn shutdown(&mut self, vault: &Vault, now: Moment, events: &Vec<TimedPlayerEvent>) -> (r:
        Appends)
        requires
            old(self)@.valid(),
            now.valid(),
            forall|i: int| 0 <= i < events@.len() ==> (#[trigger] events@[i]).0.valid(),
        ensures
            ({
                let batch = music::timed_views(events@);
                let last = music::handled_all(old(self)@.music, batch);
                &&& are_appends(
                    vault@,
                    activity::events_of(old(self)@.activity.open, Some(now)),
                    music::and_play(
                        music::completed_by_all(old(self)@.music, batch),
                        music::closing_play(last, now),
                    ),
                    r,
                )
                &&& final(self)@.music == (ScrobblerView { open: None, ..last })
            }),
            none_refused(old(self)@, events@, r),
            final(self)@.activity == (WatcherView { open: None, ..old(self)@.activity }),
            final(self)@.valid(),
    {
        let closed = self.activity.shutdown(now);
        let plays = self.music.shutdown(events, now);
        Appends { activity: append_activity(vault, &closed), music: append_music(vault, &plays) }
    }
}

// ── memory ──────────────────────────────────────────────────────────────────

/// The first position at or after `from` that holds white space.
pub open spec fn word_end(s: Seq<char>, from: int) -> int
    decreases s.len() - from,
{
    if from >= s.len() || text::is_space_char(s[from]) {
        from
    } else {
        word_end(s, from + 1)
    }
}

/// The second of the words that white space separates.
pub open spec fn second_word(s: Seq<char>) -> Option<Seq<char>> {
    let first = word_end(s, text::space_end(s, 0));
    let from = text::space_end(s, first);
    if 0 <= from < s.len() {
        Some(s.subrange(from, word_end(s, from)))
    } else {
        None
    }
}

/// The number that decimal digits make.
pub open spec fn digits_value(s: Seq<char>) -> int
    decreases s.len(),
{
    if s.len() == 0 {
        0
    } else {
        digits_value(s.drop_last()) * 10 + (s.last() as u32 - 48)
    }
}

/// The digits of a number: a plus sign before them is left off.
pub open spec fn unsigned_digits(s: Seq<char>) -> Seq<char> {
    if s.len() > 0 && s[0] == '+' {
        s.skip(1)
    } else {
        s
    }
}

/// The number that `s` writes, if it writes one below 2^64.
pub open spec fn number_of(s: Seq<char>) -> Option<u64> {
    let digits = unsigned_digits(s);
    if digits.len() > 0 && (forall|i: int|
        0 <= i < digits.len() ==> text::is_digit_char(#[trigger] digits[i])) && digits_value(digits)
        <= u64::MAX {
        Some(digits_value(digits) as u64)
    } else {
        None
    }
}

/// The resident pages that the process's memory statistics name.
pub open spec fn pages_of(statm: Seq<char>) -> Option<u64> {
    match second_word(statm) {
        Some(word) => number_of(word),
        None => None,
    }
}

proof fn lemma_digits_grow(v: Seq<char>, i: int, n: int)
    requires
        0 <= i <= n <= v.len(),
        forall|k: int| 0 <= k < v.len() ==> text::is_digit_char(#[trigger] v[k]),
    ensures
        0 <= digits_value(v.take(i)) <= digits_value(v.take(n)),
    decreases n,
{
    if n > 0 {
        assert(v.take(n).drop_last() =~= v.take(n - 1));
        assert(text::is_digit_char(v[n - 1]));
        assert(v.take(n).last() == v[n - 1]);
        if i < n {
            lemma_digits_grow(v, i, n - 1);
        } else {
            lemma_digits_grow(v, n - 1, n - 1);
        }
    }
}

fn number_in(v: &Vec<char>, from: usize, to: usize) -> (r: Option<u64>)
    requires
        from <= to <= v@.len(),
    ensures
        r == number_of(v@.subrange(from as int, to as int)),
{
    let ghost word = v@.subrange(from as int, to as int);
    let mut start: usize = from;
    if from < to && v[from] == '+' {
        start = from + 1;
    }
    let ghost digits = unsigned_digits(word);
    assert(digits =~= v@.subrange(start as int, to as int));
    if start == to {
        return None;
    }
    let mut i: usize = start;
    while i < to
        invariant
            start <= i <= to <= v@.len(),
            digits == v@.subrange(start as int, to as int),
            forall|k: int| 0 <= k < i - start ==> text::is_digit_char(#[trigger] digits[k]),
            digits == unsigned_digits(word),
            word == v@.subrange(from as int, to as int),
        decreases to - i,
    {
        if !is_digit(v[i]) {
            assert(!text::is_digit_char(digits[i - start]));
            return None;
        }
        i = i + 1;
    }
    let mut n: u64 = 0;
    i = start;
    assert(digits.take(0) =~= Seq::empty());
    while i < to
        invariant
            start <= i <= to <= v@.len(),
            start < to,
            digits == v@.subrange(start as int, to as int),
            digits == unsigned_digits(word),
            word == v@.subrange(from as int, to as int),
            forall|k: int| 0 <= k < digits.len() ==> text::is_digit_char(#[trigger] digits[k]),
            n == digits_value(digits.take(i - start)),
        decreases to - i,
    {
        let ghost upto = digits.take(i - start + 1);
        assert(upto.drop_last() =~= digits.take(i - start));
        assert(upto.last() == digits[i - start]);
        assert(text::is_digit_char(digits[i - start]));
        let d: u64 = v[i] as u64 - 48;
        proof {
            lemma_digits_grow(digits, i - start + 1, digits.len() as int);
            assert(digits.take(digits.len() as int) =~= digits);
        }
        if n > (u64::MAX - d) / 10 {
            return None;
        }
        n = n * 10 + d;
        i = i + 1;
    }
    assert(digits.take(digits.len() as int) =~= digits);
    Some(n)
}

fn space_end_of(v: &Vec<char>, from: usize) -> (r: usize)
    requires
        from <= v@.len(),
    ensures
        r == text::space_end(v@, from as int),
        from <= r <= v@.len(),
{
    let mut i: usize = from;
    while i < v.len() && is_space(v[i])
        invariant
            from <= i <= v@.len(),
            text::space_end(v@, from as int) == text::space_end(v@, i as int),
        decreases v@.len() - i,
    {
        i = i + 1;
    }
    i
}

fn word_end_of(v: &Vec<char>, from: usize) -> (r: usize)
    requires
        from <= v@.len(),
    ensures
        r == word_end(v@, from as int),
        from <= r <= v@.len(),
{
    let mut i: usize = from;
    while i < v.len() && !is_space(v[i])
        invariant
            from <= i <= v@.len(),
            word_end(v@, from as int) == word_end(v@, i as int),
        decreases v@.len() - i,
    {
        i = i + 1;
    }
    i
}

/// The resident pages of the process, by its memory statistics.
pub fn resident_pages(statm: &str) -> (r: Option<u64>)
    ensures
        r == pages_of(statm@),
{
    let v = chars_of(statm);
    let first: usize = word_end_of(&v, space_end_of(&v, 0));
    let from: usize = space_end_of(&v, first);
    if from == v.len() {
        return None;
    }
    number_in(&v, from, word_end_of(&v, from))
}

/// Resident memory of the process in bytes, by its memory statistics: pages of
/// four kilobytes each.
pub fn rss_bytes(statm: &str) -> (r: Option<u64>)
    requires
        pages_of(statm@) matches Some(n) ==> n * 4096 <= u64::MAX,
    ensures
        r == (match pages_of(statm@) {
            Some(n) => Some((n * 4096) as u64),
            None => None,
        }),
{
    match resident_pages(statm) {
        Some(n) => Some(n * 4096),
        None => None,
    }
}

// ── laws ────────────────────────────────────────────────────────────────────

/// Streams are written under the lock only: the loop polls and shuts down
/// while it holds the lock, and tries the lock and exits while it does not.
pub proof fn law_writes_happen_under_the_lock(phase: Phase, event: RunEvent)
    ensures
        ({
            let (after, action) = next(phase, event);
            &&& action == RunAction::Poll || action == RunAction::ShutDown ==> after
                == Phase::Locked
            &&& action == RunAction::TryLock || action == RunAction::Exit ==> after
                == Phase::Unlocked
        }),
{
}

/// The lock is given back only after what is open was closed out, and taken
/// only by trying it.
pub proof fn law_the_lock_ends_with_a_shutdown(phase: Phase, event: RunEvent)
    ensures
        ({
            let (after, _action) = next(phase, event);
            &&& phase == Phase::Locked && after == Phase::Unlocked ==> event is ShutDown
            &&& phase == Phase::Unlocked && after == Phase::Locked ==> event is LockTried
                && event->taken
        }),
{
}

/// A stop that is seen ends the loop: without the lock at once, but for the
/// pause that ends as soon as it begins; with the lock through a shutdown.
pub proof fn law_stop_ends_the_loop(phase: Phase, event: RunEvent)
    requires
        stop_seen(event),
    ensures
        phase == Phase::Locked && !(event is ShutDown) ==> next(phase, event).1
            == RunAction::ShutDown,
        phase == Phase::Locked && event is ShutDown ==> next(phase, event).1 == RunAction::Exit,
        phase == Phase::Unlocked && !(event is LockTried) ==> next(phase, event).1
            == RunAction::Exit,
{
}

/// Off means off: a collector whose toggle is off has nothing open after a
/// poll, and what was open before is what it gives to be written.
pub proof fn law_off_closes_out(
    before: CollectorsView,
    after: WatcherView,
    now: Moment,
    s: SampleView,
    events: Seq<activity::EventView>,
    batch: Seq<(Moment, music::PlayerEventView)>,
)
    requires
        before.valid(),
        activity_polled(before.activity, after, now, s, false, events),
    ensures
        after.open is None,
        events == activity::events_of(before.activity.open, Some(now)),
        music_after(before.music, batch, false).open is None,
        music_plays(before.music, batch, now, false) == music_plays(
            before.music,
            Seq::empty(),
            now,
            false,
        ),
{
}

/// The loop, event by event. Without the lock: it tries the lock unless stop is
/// requested; a lock that another process holds is waited for; one that it gets
/// it keeps. With the lock: a pause is followed by a poll and a poll by a pause,
/// unless stop is requested; and after a shutdown it is as if it had just begun.
pub proof fn law_the_loop_event_by_event(stopped: bool, taken: bool)
    ensures
        next(Phase::Unlocked, RunEvent::Started { stopped }) == (Phase::Unlocked, if stopped {
            RunAction::Exit
        } else {
            RunAction::TryLock
        }),
        next(Phase::Unlocked, RunEvent::Paused { stopped }) == (Phase::Unlocked, if stopped {
            RunAction::Exit
        } else {
            RunAction::TryLock
        }),
        next(Phase::Unlocked, RunEvent::LockTried { taken: false, stopped }) == (
            Phase::Unlocked,
            RunAction::Pause,
        ),
        next(Phase::Unlocked, RunEvent::LockTried { taken: true, stopped }) == (
            Phase::Locked,
            if stopped {
                RunAction::ShutDown
            } else {
                RunAction::Pause
            },
        ),
        next(Phase::Locked, RunEvent::Paused { stopped }) == (Phase::Locked, if stopped {
            RunAction::ShutDown
        } else {
            RunAction::Poll
        }),
        next(Phase::Locked, RunEvent::Polled { stopped }) == (Phase::Locked, if stopped {
            RunAction::ShutDown
        } else {
            RunAction::Pause
        }),
        next(Phase::Locked, RunEvent::ShutDown { stopped }) == (Phase::Unlocked, if stopped {
            RunAction::Exit
        } else {
            RunAction::TryLock
        }),
{
}

/// A heartbeat tells which process it is of, when it was written, what is going
/// on, and the memory in whole mebibytes.
pub proof fn law_heartbeat_tells_the_poll(
    pid: u32,
    now: Moment,
    open: Option<activity::OpenView>,
    rss: Option<u64>,
)
    ensures
        ({
            let h = beat(pid, now, open, rss);
            &&& h.pid == pid && h.role == "trove-collector"@ && h.updated == now.text()
            &&& h.current is Some == open is Some
            &&& h.current matches Some(e) ==> e.start == (open->0).start.text() && e.app == (
            open->0).app && e.bundle_id == (open->0).bundle_id && e.title == (open->0).title
                && e.afk == (open->0).afk
            &&& h.current matches Some(e) ==> ((open->0).start.ns() < now.ns() ==> e.end
                == now.text() && e.seconds == now.secs_after((open->0).start))
            &&& h.rss_mb is Some == rss is Some
            &&& rss matches Some(b) ==> h.rss_mb->0 * 1_048_576 <= b < (h.rss_mb->0 + 1) * 1_048_576
        }),
{
}

/// The resident pages are the second number of the statistics: digits behind a
/// first word and white space, up to white space or the end.
pub proof fn law_pages_are_the_second_number(
    first: Seq<char>,
    gap: Seq<char>,
    n: u64,
    rest: Seq<char>,
)
    requires
        first.len() > 0,
        forall|i: int| 0 <= i < first.len() ==> !text::is_space_char(#[trigger] first[i]),
        gap.len() > 0,
        text::all_space(gap),
        rest.len() == 0 || text::is_space_char(rest[0]),
    ensures
        pages_of(first + gap + json::decimal(n as nat) + rest) == Some(n),
{
    let digits = json::decimal(n as nat);
    let s = first + gap + digits + rest;
    json::lemma_decimal_digits(n as nat);
    assert forall|i: int| 0 <= i < digits.len() implies !text::is_space_char(
        #[trigger] digits[i],
    ) && digits[i] != '+' by {
        assert(text::is_digit_char(digits[i]));
    }
    let a = first.len() as int;
    let b = a + gap.len();
    let c = b + digits.len();
    assert(!text::is_space_char(first[0]));
    assert(s[0] == first[0]);
    assert(forall|i: int| 0 <= i < a ==> s[i] == first[i]);
    assert(forall|i: int| a <= i < b ==> s[i] == gap[i - a]);
    assert(forall|i: int| b <= i < c ==> s[i] == digits[i - b]);
    assert(s[a] == gap[0]);
    lemma_word_to(s, 0, a);
    lemma_space_to(s, a, b);
    assert(c < s.len() ==> s[c] == rest[0]);
    lemma_word_to(s, b, c);
    assert(s.subrange(b, c) =~= digits);
    assert(digits[0] != '+');
    lemma_digits_of_decimal(n as nat);
}

proof fn lemma_word_to(s: Seq<char>, from: int, to: int)
    requires
        0 <= from <= to <= s.len(),
        forall|i: int| from <= i < to ==> !text::is_space_char(#[trigger] s[i]),
        to < s.len() ==> text::is_space_char(s[to]),
    ensures
        word_end(s, from) == to,
    decreases to - from,
{
    if from < to {
        lemma_word_to(s, from + 1, to);
    }
}

proof fn lemma_space_to(s: Seq<char>, from: int, to: int)
    requires
        0 <= from <= to < s.len(),
        forall|i: int| from <= i < to ==> text::is_space_char(#[trigger] s[i]),
        !text::is_space_char(s[to]),
    ensures
        text::space_end(s, from) == to,
    decreases to - from,
{
    if from < to {
        lemma_space_to(s, from + 1, to);
    }
}

/// The digits of a number make that number.
proof fn lemma_digits_of_decimal(n: nat)
    ensures
        digits_value(json::decimal(n)) == n,
    decreases n,
{
    let d = json::decimal(n);
    if n >= 10 {
        lemma_digits_of_decimal(n / 10);
        assert(d.drop_last() =~= json::decimal(n / 10));
        assert(d.last() as u32 == 48 + n % 10);
    } else {
        assert(d.drop_last() =~= Seq::empty());
        assert(d.last() as u32 == 48 + n);
        assert(digits_value(d.drop_last()) == 0);
    }
}

/// The scrobbler under its toggle: on, it folds the notifications in and gives
/// what they completed; off, it drops them and gives what was open.
pub proof fn law_scrobbler_under_its_toggle(
    before: ScrobblerView,
    batch: Seq<(Moment, music::PlayerEventView)>,
    now: Moment,
)
    ensures
        music_after(before, batch, true) == music::handled_all(before, batch),
        music_plays(before, batch, now, true) == music::completed_by_all(before, batch),
        music_after(before, batch, false).open is None,
        music_after(before, batch, false).cfg == before.cfg,
        music_plays(before, batch, now, false).len() <= 1,
        music::closing_play(before, now) matches Some(p) ==> music_plays(before, batch, now, false)
            =~= seq![p],
        music::closing_play(before, now) is None ==> music_plays(before, batch, now, false).len()
            == 0,
{
}

/// The records of a poll go to the streams `activity` and `music/plays`, whose
/// files nobody else writes. Where there are none there is no append.
pub proof fn law_records_go_to_their_streams(
    root: Seq<char>,
    events: Seq<activity::EventView>,
    plays: Seq<music::PlayView>,
    a: Appends,
    i: int,
)
    requires
        are_appends(root, events, plays, a),
    ensures
        a.activity is Some <==> events.len() > 0,
        a.music is Some <==> plays.len() > 0,
        a.activity matches Some(Ok(plan)) ==> (0 <= i < plan@.len() ==> plan@[i].rel@
            == "activity/"@ + plan@[i].day@ + ".jsonl"@ && !plan@[i].flock),
        a.music matches Some(Ok(plan)) ==> (0 <= i < plan@.len() ==> plan@[i].rel@
            == "music/plays/"@ + plan@[i].day@ + ".jsonl"@ && !plan@[i].flock),
{
    assert("activity/"@ =~= "activity"@ + "/"@) by {
        reveal_strlit("activity/");
        reveal_strlit("activity");
        reveal_strlit("/");
    }
    assert("music/plays/"@ =~= "music/plays"@ + "/"@) by {
        reveal_strlit("music/plays/");
        reveal_strlit("music/plays");
        reveal_strlit("/");
    }
    if let Some(Ok(plan)) = a.activity {
        if 0 <= i < plan@.len() {
            assert(plan@[i]@.rel == plan@[i].rel@ && plan@[i]@.flock == plan@[i].flock);
        }
    }
    if let Some(Ok(plan)) = a.music {
        if 0 <= i < plan@.len() {
            assert(plan@[i]@.rel == plan@[i].rel@ && plan@[i]@.flock == plan@[i].flock);
        }
    }
}

/// Nothing but digits is a number, with at most a plus sign before them, and
/// statistics of one word name no pages.
pub proof fn law_only_digits_are_a_number(s: Seq<char>)
    ensures
        number_of(s) is Some ==> s.len() > 0 && forall|i: int|
            0 <= i < s.len() ==> '0' <= #[trigger] s[i] && s[i] <= '9' || (i == 0 && s[i] == '+'
                && s.len() > 1),
        (forall|i: int| 0 <= i < s.len() ==> !text::is_space_char(#[trigger] s[i])) ==> pages_of(s)
            is None,
{
    if number_of(s) is Some {
        let digits = unsigned_digits(s);
        let lead = s.len() - digits.len();
        assert forall|i: int| 0 <= i < s.len() implies '0' <= #[trigger] s[i] && s[i] <= '9' || (i
            == 0 && s[i] == '+' && s.len() > 1) by {
            if i >= lead {
                assert(text::is_digit_char(digits[i - lead]));
            }
        }
    }
    if forall|i: int| 0 <= i < s.len() ==> !text::is_space_char(#[trigger] s[i]) {
        if s.len() > 0 {
            assert(!text::is_space_char(s[0]));
        }
        lemma_word_to(s, 0, s.len() as int);
    }
}

} // verus!
