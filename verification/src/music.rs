//! Apple Music play history: folds the player's notifications into plays.
//!
//! Every play longer than a small floor is recorded, skips included. The
//! judgment whether it was a full play (half of the track, or four minutes) is
//! stored with it. Time is kept in whole milliseconds.

use crate::json::{
    push_flag_field, push_hex, push_number_field, push_raw, push_seconds_field, push_text_field,
};
use crate::moment::Moment;
use crate::text::same_text;
use crate::vault::{DayAppend, DayRow, RowView, Vault, VaultError};
use crate::{json, moment, text, vault};
use vstd::prelude::*;

verus! {

/// Track metadata carried by a notification.
#[derive(Debug, Clone, PartialEq)]
pub struct TrackInfo {
    pub name: String,
    pub artist: String,
    pub album: String,
    pub genre: String,
    /// Length of the track in milliseconds, if known.
    pub duration_ms: Option<i64>,
    /// The player's persistent ID as uppercase hex; empty if absent.
    pub persistent_id: String,
}

#[derive(Debug, Clone, Copy, PartialEq, Eq, Structural)]
pub enum PlayerState {
    Playing,
    Paused,
    Stopped,
}

/// One notification, decoded. A track change arrives as a bare `Stopped`
/// followed by `Playing` with the new track.
#[derive(Debug, Clone)]
pub struct PlayerEvent {
    pub state: PlayerState,
    pub track: Option<TrackInfo>,
}

/// A decoded notification with its delivery time.
pub type TimedPlayerEvent = (Moment, PlayerEvent);

/// One completed play, full listen or skip.
#[derive(Debug, Clone)]
pub struct Play {
    pub start: String,
    pub end: String,
    pub seconds_played: u64,
    pub track: String,
    pub artist: String,
    pub album: String,
    pub genre: String,
    pub duration_ms: Option<i64>,
    pub persistent_id: String,
    pub full_play: bool,
}

#[derive(Debug, Clone, Copy)]
pub struct ScrobbleConfig {
    /// Plays shorter than this are dropped.
    pub min_record_ms: u64,
    /// Thousandths of the track that make a full play.
    pub full_permille: u32,
    /// A play this long is full, however long the track.
    pub full_ms: u64,
}

/// What makes a full play when the track's length is unknown.
pub const UNKNOWN_DURATION_FULL_MS: u64 = 30_000;

struct OpenPlay {
    track: TrackInfo,
    start: Moment,
    played_ms: u64,
    resumed_at: Option<Moment>,
    last_active: Moment,
}

/// Folds player events into completed plays.
pub struct Scrobbler {
    cfg: ScrobbleConfig,
    open: Option<OpenPlay>,
}

/// The live scrobbler: what each poll's notifications make of the state.
pub struct MusicLive {
    scrobbler: Scrobbler,
}

// ── the model ───────────────────────────────────────────────────────────────

#[verifier::ext_equal]
pub struct TrackView {
    pub name: Seq<char>,
    pub artist: Seq<char>,
    pub album: Seq<char>,
    pub genre: Seq<char>,
    pub duration_ms: Option<i64>,
    pub persistent_id: Seq<char>,
}

#[verifier::ext_equal]
pub struct PlayerEventView {
    pub state: PlayerState,
    pub track: Option<TrackView>,
}

#[verifier::ext_equal]
pub struct PlayView {
    pub start: Seq<char>,
    pub end: Seq<char>,
    pub seconds_played: int,
    pub track: Seq<char>,
    pub artist: Seq<char>,
    pub album: Seq<char>,
    pub genre: Seq<char>,
    pub duration_ms: Option<i64>,
    pub persistent_id: Seq<char>,
    pub full_play: bool,
}

#[verifier::ext_equal]
pub struct OpenPlayView {
    pub track: TrackView,
    pub start: Moment,
    pub played_ms: int,
    pub resumed_at: Option<Moment>,
    pub last_active: Moment,
}

#[verifier::ext_equal]
pub struct ScrobblerView {
    pub cfg: ScrobbleConfig,
    pub open: Option<OpenPlayView>,
}

impl View for TrackInfo {
    type V = TrackView;

    open spec fn view(&self) -> TrackView {
        TrackView {
            name: self.name@,
            artist: self.artist@,
            album: self.album@,
            genre: self.genre@,
            duration_ms: self.duration_ms,
            persistent_id: self.persistent_id@,
        }
    }
}

impl View for PlayerEvent {
    type V = PlayerEventView;

    open spec fn view(&self) -> PlayerEventView {
        PlayerEventView {
            state: self.state,
            track: match self.track {
                Some(t) => Some(t@),
                None => None,
            },
        }
    }
}

impl View for Play {
    type V = PlayView;

    open spec fn view(&self) -> PlayView {
        PlayView {
            start: self.start@,
            end: self.end@,
            seconds_played: self.seconds_played as int,
            track: self.track@,
            artist: self.artist@,
            album: self.album@,
            genre: self.genre@,
            duration_ms: self.duration_ms,
            persistent_id: self.persistent_id@,
            full_play: self.full_play,
        }
    }
}

impl View for OpenPlay {
    type V = OpenPlayView;

    closed spec fn view(&self) -> OpenPlayView {
        OpenPlayView {
            track: self.track@,
            start: self.start,
            played_ms: self.played_ms as int,
            resumed_at: self.resumed_at,
            last_active: self.last_active,
        }
    }
}

impl View for Scrobbler {
    type V = ScrobblerView;

    closed spec fn view(&self) -> ScrobblerView {
        ScrobblerView {
            cfg: self.cfg,
            open: match self.open {
                Some(o) => Some(o@),
                None => None,
            },
        }
    }
}

impl View for MusicLive {
    type V = ScrobblerView;

    closed spec fn view(&self) -> ScrobblerView {
        self.scrobbler@
    }
}

pub open spec fn play_views(s: Seq<Play>) -> Seq<PlayView> {
    s.map_values(|p: Play| p@)
}

pub open spec fn timed_views(s: Seq<TimedPlayerEvent>) -> Seq<(Moment, PlayerEventView)> {
    s.map_values(|e: TimedPlayerEvent| (e.0, e.1@))
}

/// The open play, if there is one, began in a year of four digits.
pub open spec fn starts_dated(w: ScrobblerView) -> bool {
    w.open matches Some(o) ==> o.start.four_digit_year()
}

/// The notifications came in years of four digits.
pub open spec fn times_dated(events: Seq<TimedPlayerEvent>) -> bool {
    forall|i: int| 0 <= i < events.len() ==> (#[trigger] events[i]).0.four_digit_year()
}

/// The plays name the days they started on.
pub open spec fn all_dated(plays: Seq<Play>) -> bool {
    forall|i: int| 0 <= i < plays.len() ==> moment::has_date_prefix((#[trigger] plays[i]).start@)
}

impl ScrobblerView {
    pub open spec fn valid(self) -> bool {
        self.open matches Some(o) ==> {
            &&& o.start.valid()
            &&& o.last_active.valid()
            &&& o.resumed_at matches Some(r) ==> r.valid()
            &&& 0 <= o.played_ms <= u64::MAX
        }
    }
}

/// The same persistent ID where both have one; else the same name, artist and
/// album.
pub open spec fn is_same_track(a: TrackView, b: TrackView) -> bool {
    if a.persistent_id.len() > 0 && b.persistent_id.len() > 0 {
        a.persistent_id == b.persistent_id
    } else {
        a.name == b.name && a.artist == b.artist && a.album == b.album
    }
}

/// Milliseconds from one moment to a later one; none if it is not later.
pub open spec fn millis_between(from: Moment, to: Moment) -> int {
    if to.millis_after(from) > 0 {
        to.millis_after(from)
    } else {
        0
    }
}

pub open spec fn capped(n: int) -> int {
    if n > u64::MAX {
        u64::MAX as int
    } else {
        n
    }
}

/// `o` with the time since it was last resumed counted as played.
pub open spec fn paused(o: OpenPlayView, now: Moment) -> OpenPlayView {
    match o.resumed_at {
        Some(r) => OpenPlayView {
            played_ms: capped(o.played_ms + millis_between(r, now)),
            resumed_at: None,
            last_active: now,
            ..o
        },
        None => o,
    }
}

/// A play of `track` that begins at `now`.
pub open spec fn begun(track: TrackView, now: Moment) -> OpenPlayView {
    OpenPlayView { track, start: now, played_ms: 0, resumed_at: Some(now), last_active: now }
}

/// `o`, reported as playing again.
pub open spec fn resumed(o: OpenPlayView, now: Moment) -> OpenPlayView {
    OpenPlayView {
        resumed_at: match o.resumed_at {
            Some(r) => Some(r),
            None => Some(now),
        },
        last_active: now,
        ..o
    }
}

/// Enough of the track was played: the given part of its length, or the given
/// time; half a minute where the length is unknown.
pub open spec fn is_full_play(cfg: ScrobbleConfig, o: OpenPlayView) -> bool {
    match o.track.duration_ms {
        Some(d) => o.played_ms * 1000 >= d * cfg.full_permille || o.played_ms >= cfg.full_ms,
        None => o.played_ms >= UNKNOWN_DURATION_FULL_MS,
    }
}

/// The play of a paused `o`, rounded to seconds; none without a name or under
/// the floor.
pub open spec fn play_of(cfg: ScrobbleConfig, o: OpenPlayView) -> Option<PlayView> {
    if o.track.name.len() == 0 || o.played_ms < cfg.min_record_ms {
        None
    } else {
        Some(
            PlayView {
                start: o.start.text(),
                end: o.last_active.text(),
                seconds_played: (o.played_ms + 500) / 1000,
                track: o.track.name,
                artist: o.track.artist,
                album: o.track.album,
                genre: o.track.genre,
                duration_ms: o.track.duration_ms,
                persistent_id: o.track.persistent_id,
                full_play: is_full_play(cfg, o),
            },
        )
    }
}

/// What closing at `now` records.
pub open spec fn closing_play(w: ScrobblerView, now: Moment) -> Option<PlayView> {
    match w.open {
        Some(o) => play_of(w.cfg, paused(o, now)),
        None => None,
    }
}

/// The scrobbler after an event.
pub open spec fn handled(w: ScrobblerView, now: Moment, e: PlayerEventView) -> ScrobblerView {
    match e.state {
        PlayerState::Playing => match (e.track, w.open) {
            (None, _) => w,
            (Some(t), Some(o)) if is_same_track(o.track, t) => ScrobblerView {
                open: Some(resumed(o, now)),
                ..w
            },
            (Some(t), _) => ScrobblerView { open: Some(begun(t, now)), ..w },
        },
        PlayerState::Paused => match w.open {
            Some(o) => ScrobblerView { open: Some(paused(o, now)), ..w },
            None => w,
        },
        PlayerState::Stopped => ScrobblerView { open: None, ..w },
    }
}

/// The play that an event completes.
pub open spec fn completed_by(
    w: ScrobblerView,
    now: Moment,
    e: PlayerEventView,
) -> Option<PlayView> {
    match e.state {
        PlayerState::Playing => match (e.track, w.open) {
            (Some(t), Some(o)) if !is_same_track(o.track, t) => closing_play(w, now),
            _ => None,
        },
        PlayerState::Paused => None,
        PlayerState::Stopped => closing_play(w, now),
    }
}

/// The scrobbler after a batch of events.
pub open spec fn handled_all(
    w: ScrobblerView,
    events: Seq<(Moment, PlayerEventView)>,
) -> ScrobblerView
    decreases events.len(),
{
    if events.len() == 0 {
        w
    } else {
        handled(handled_all(w, events.drop_last()), events.last().0, events.last().1)
    }
}

/// `plays` with one more, if there is one.
pub open spec fn and_play(plays: Seq<PlayView>, p: Option<PlayView>) -> Seq<PlayView> {
    match p {
        Some(p) => plays.push(p),
        None => plays,
    }
}

/// The plays that a batch of events completes.
pub open spec fn completed_by_all(
    w: ScrobblerView,
    events: Seq<(Moment, PlayerEventView)>,
) -> Seq<PlayView>
    decreases events.len(),
{
    if events.len() == 0 {
        Seq::empty()
    } else {
        let before = events.drop_last();
        and_play(
            completed_by_all(w, before),
            completed_by(handled_all(w, before), events.last().0, events.last().1),
        )
    }
}

// ── the state machine ───────────────────────────────────────────────────────

impl Default for ScrobbleConfig {
    /// Five seconds are recorded; half the track or four minutes are full.
    fn default() -> (r: Self)
        ensures
            r.min_record_ms == 5_000,
            r.full_permille == 500,
            r.full_ms == 240_000,
    {
        ScrobbleConfig { min_record_ms: 5_000, full_permille: 500, full_ms: 240_000 }
    }
}

impl TrackInfo {
    fn copy(&self) -> (r: TrackInfo)
        ensures
            r@ == self@,
    {
        TrackInfo {
            name: self.name.clone(),
            artist: self.artist.clone(),
            album: self.album.clone(),
            genre: self.genre.clone(),
            duration_ms: self.duration_ms,
            persistent_id: self.persistent_id.clone(),
        }
    }
}

/// Do the two describe the same track?
pub fn same_track(a: &TrackInfo, b: &TrackInfo) -> (r: bool)
    ensures
        r == is_same_track(a@, b@),
{
    if !a.persistent_id.as_str().is_empty() && !b.persistent_id.as_str().is_empty() {
        a.persistent_id == b.persistent_id
    } else {
        a.name == b.name && a.artist == b.artist && a.album == b.album
    }
}

fn millis_from(from: &Moment, to: &Moment) -> (r: u64)
    requires
        from.valid(),
        to.valid(),
    ensures
        r == millis_between(*from, *to),
{
    let d: i64 = to.millis_since(from);
    if d > 0 {
        d as u64
    } else {
        0
    }
}

impl OpenPlay {
    fn pause(self, now: &Moment) -> (r: OpenPlay)
        requires
            now.valid(),
            self@.resumed_at matches Some(r) ==> r.valid(),
        ensures
            r@ == paused(self@, *now),
    {
        let mut o = self;
        if let Some(r) = o.resumed_at {
            o.played_ms = o.played_ms.saturating_add(millis_from(&r, now));
            o.resumed_at = None;
            o.last_active = *now;
        }
        assert(o@ =~= paused(self@, *now));
        o
    }
}

impl Scrobbler {
    pub fn new(cfg: ScrobbleConfig) -> (r: Scrobbler)
        ensures
            r@ == (ScrobblerView { cfg, open: None }),
            r@.valid(),
    {
        Scrobbler { cfg, open: None }
    }

    /// Fold one event in; returns the play that it completed.
    pub fn handle(&mut self, now: Moment, event: &PlayerEvent) -> (r: Option<Play>)
        requires
            old(self)@.valid(),
            now.valid(),
        ensures
            final(self)@ == handled(old(self)@, now, event@),
            match r {
                Some(p) => completed_by(old(self)@, now, event@) == Some(p@),
                None => completed_by(old(self)@, now, event@) is None,
            },
            starts_dated(old(self)@) ==> (r matches Some(p) ==> moment::has_date_prefix(p.start@)),
            final(self)@.valid(),
    {
        let ghost pre = self@;
        match event.state {
            PlayerState::Playing => {
                let track = match &event.track {
                    Some(t) => t,
                    None => {
                        return None;
                    },
                };
                let same = match &self.open {
                    Some(o) => same_track(&o.track, track),
                    None => false,
                };
                if same {
                    if let Some(o) = self.open.take() {
                        let mut o = o;
                        if o.resumed_at.is_none() {
                            o.resumed_at = Some(now);
                        }
                        o.last_active = now;
                        self.open = Some(o);
                    }
                    assert(self@ =~= handled(pre, now, event@));
                    return None;
                }
                let done = self.close(now);
                self.open = Some(
                    OpenPlay {
                        track: track.copy(),
                        start: now,
                        played_ms: 0,
                        resumed_at: Some(now),
                        last_active: now,
                    },
                );
                assert(self@ =~= handled(pre, now, event@));
                done
            },
            PlayerState::Paused => {
                if let Some(o) = self.open.take() {
                    self.open = Some(o.pause(&now));
                }
                assert(self@ =~= handled(pre, now, event@));
                None
            },
            PlayerState::Stopped => self.close(now),
        }
    }

    /// Close the open play, on shutdown for one.
    pub fn flush(&mut self, now: Moment) -> (r: Option<Play>)
        requires
            old(self)@.valid(),
            now.valid(),
        ensures
            final(self)@ == (ScrobblerView { open: None, ..old(self)@ }),
            match r {
                Some(p) => closing_play(old(self)@, now) == Some(p@),
                None => closing_play(old(self)@, now) is None,
            },
            starts_dated(old(self)@) ==> (r matches Some(p) ==> moment::has_date_prefix(p.start@)),
            final(self)@.valid(),
    {
        self.close(now)
    }

    fn close(&mut self, now: Moment) -> (r: Option<Play>)
        requires
            old(self)@.valid(),
            now.valid(),
        ensures
            final(self)@ == (ScrobblerView { open: None, ..old(self)@ }),
            match r {
                Some(p) => closing_play(old(self)@, now) == Some(p@),
                None => closing_play(old(self)@, now) is None,
            },
            starts_dated(old(self)@) ==> (r matches Some(p) ==> moment::has_date_prefix(p.start@)),
    {
        let o = match self.open.take() {
            Some(o) => o.pause(&now),
            None => {
                return None;
            },
        };
        if o.track.name.as_str().is_empty() || o.played_ms < self.cfg.min_record_ms {
            return None;
        }
        let full = self.is_full(&o);
        let rounded: u64 = o.played_ms / 1000 + if o.played_ms % 1000 >= 500 {
            1
        } else {
            0
        };
        let p = Play {
            start: o.start.to_rfc3339(),
            end: o.last_active.to_rfc3339(),
            seconds_played: rounded,
            full_play: full,
            track: o.track.name,
            artist: o.track.artist,
            album: o.track.album,
            genre: o.track.genre,
            duration_ms: o.track.duration_ms,
            persistent_id: o.track.persistent_id,
        };
        assert(play_of(old(self)@.cfg, o@)->0 =~= p@);
        Some(p)
    }

    fn is_full(&self, o: &OpenPlay) -> (r: bool)
        ensures
            r == is_full_play(self@.cfg, o@),
    {
        match o.track.duration_ms {
            Some(d) => {
                let m: u32 = self.cfg.full_permille;
                assert(-0x8000_0000_0000_0000 * 0x1_0000_0000 <= d * m <= 0x8000_0000_0000_0000
                    * 0x1_0000_0000) by (nonlinear_arith)
                    requires
                        -0x8000_0000_0000_0000 <= d <= 0x8000_0000_0000_0000,
                        0 <= m <= 0x1_0000_0000,
                ;
                o.played_ms as i128 * 1000 >= d as i128 * m as i128 || o.played_ms
                    >= self.cfg.full_ms
            },
            None => o.played_ms >= UNKNOWN_DURATION_FULL_MS,
        }
    }
}

// ── the live collector ──────────────────────────────────────────────────────

impl MusicLive {
    pub fn new() -> (r: MusicLive)
        ensures
            r@ == (ScrobblerView {
                cfg: ScrobbleConfig {
                    min_record_ms: 5_000,
                    full_permille: 500,
                    full_ms: 240_000,
                },
                open: None,
            }),
            r@.valid(),
    {
        MusicLive { scrobbler: Scrobbler::new(ScrobbleConfig::default()) }
    }

    /// Fold a batch of notifications in; returns the plays they completed.
    fn drain(&mut self, events: &Vec<TimedPlayerEvent>) -> (plays: Vec<Play>)
        requires
            old(self)@.valid(),
            forall|i: int| 0 <= i < events@.len() ==> (#[trigger] events@[i]).0.valid(),
        ensures
            final(self)@ == handled_all(old(self)@, timed_views(events@)),
            play_views(plays@) == completed_by_all(old(self)@, timed_views(events@)),
            starts_dated(old(self)@) && times_dated(events@) ==> all_dated(plays@) && starts_dated(
                final(self)@,
            ),
            final(self)@.valid(),
    {
        let ghost pre = self@;
        let ghost dated = starts_dated(pre) && times_dated(events@);
        let ghost all = timed_views(events@);
        let mut plays: Vec<Play> = Vec::new();
        assert(all.take(0) =~= Seq::empty());
        assert(play_views(plays@) =~= Seq::empty());
        let mut i: usize = 0;
        while i < events.len()
            invariant
                i <= events@.len(),
                all == timed_views(events@),
                forall|k: int| 0 <= k < events@.len() ==> (#[trigger] events@[k]).0.valid(),
                self@ == handled_all(pre, all.take(i as int)),
                play_views(plays@) == completed_by_all(pre, all.take(i as int)),
                dated ==> times_dated(events@) && all_dated(plays@) && starts_dated(self@),
                self@.valid(),
            decreases events@.len() - i,
        {
            assert(all.take(i + 1).last() == (events@[i as int].0, events@[i as int].1@));
            assert(all.take(i + 1).drop_last() =~= all.take(i as int));
            let ghost before = play_views(plays@);
            assert(events@[i as int].0.valid());
            let ts: Moment = events[i].0;
            if let Some(p) = self.scrobbler.handle(ts, &events[i].1) {
                plays.push(p);
                assert(play_views(plays@) =~= before.push(p@));
            }
            i = i + 1;
        }
        assert(all.take(all.len() as int) =~= all);
        plays
    }

    /// One poll. While the stream is off, what arrived is discarded (turning it
    /// on again must not replay stale player state) and the open play is closed
    /// out. Returns the plays to append.
    pub fn tick(
        &mut self,
        events: &Vec<TimedPlayerEvent>,
        now: Moment,
        enabled: bool,
    ) -> (plays: Vec<Play>)
        requires
            old(self)@.valid(),
            now.valid(),
            forall|i: int| 0 <= i < events@.len() ==> (#[trigger] events@[i]).0.valid(),
        ensures
            enabled ==> final(self)@ == handled_all(old(self)@, timed_views(events@))
                && play_views(plays@) == completed_by_all(old(self)@, timed_views(events@)),
            !enabled ==> final(self)@ == (ScrobblerView { open: None, ..old(self)@ })
                && play_views(plays@) == and_play(Seq::empty(), closing_play(old(self)@, now)),
            starts_dated(old(self)@) && times_dated(events@) ==> all_dated(plays@),
            final(self)@.valid(),
    {
        if enabled {
            self.drain(events)
        } else {
            let mut plays: Vec<Play> = Vec::new();
            if let Some(p) = self.scrobbler.flush(now) {
                plays.push(p);
            }
            assert(play_views(plays@) =~= and_play(Seq::empty(), closing_play(old(self)@, now)));
            plays
        }
    }

    /// Fold the last notifications in and close out the open play. Returns the
    /// plays to append.
    pub fn shutdown(&mut self, events: &Vec<TimedPlayerEvent>, now: Moment) -> (plays: Vec<Play>)
        requires
            old(self)@.valid(),
            now.valid(),
            forall|i: int| 0 <= i < events@.len() ==> (#[trigger] events@[i]).0.valid(),
        ensures
            ({
                let last = handled_all(old(self)@, timed_views(events@));
                &&& final(self)@ == (ScrobblerView { open: None, ..last })
                &&& play_views(plays@) == and_play(
                    completed_by_all(old(self)@, timed_views(events@)),
                    closing_play(last, now),
                )
            }),
            starts_dated(old(self)@) && times_dated(events@) ==> all_dated(plays@),
            final(self)@.valid(),
    {
        let mut plays = self.drain(events);
        let ghost before = play_views(plays@);
        if let Some(p) = self.scrobbler.flush(now) {
            plays.push(p);
            assert(play_views(plays@) =~= before.push(p@));
        }
        plays
    }
}

// ── notifications ───────────────────────────────────────────────────────────

/// What a notification's dictionary holds. A missing text is empty.
#[derive(Debug, Clone)]
pub struct PlayerInfo {
    pub state: String,
    pub name: String,
    pub artist: String,
    pub album: String,
    pub genre: String,
    pub total_time_ms: Option<i64>,
    pub persistent_id: Option<i64>,
}

pub open spec fn state_of(text: Seq<char>) -> PlayerState {
    if text == "Playing"@ {
        PlayerState::Playing
    } else if text == "Paused"@ {
        PlayerState::Paused
    } else {
        PlayerState::Stopped
    }
}

/// The 64 bits of `n`, read without a sign.
pub open spec fn unsigned(n: int) -> int {
    if n < 0 {
        n + 0x1_0000_0000_0000_0000
    } else {
        n
    }
}

/// What a notification says: without a dictionary that playing stopped; with
/// one its state, and a track if it names one or an artist.
pub open spec fn decoded(info: Option<PlayerInfo>) -> PlayerEventView {
    match info {
        None => PlayerEventView { state: PlayerState::Stopped, track: None },
        Some(i) => PlayerEventView {
            state: state_of(i.state@),
            track: if i.name@.len() == 0 && i.artist@.len() == 0 {
                None
            } else {
                Some(
                    TrackView {
                        name: i.name@,
                        artist: i.artist@,
                        album: i.album@,
                        genre: i.genre@,
                        duration_ms: i.total_time_ms,
                        persistent_id: match i.persistent_id {
                            Some(n) => json::hex_text(unsigned(n as int) as nat, 16),
                            None => Seq::empty(),
                        },
                    },
                )
            },
        },
    }
}

/// Decode a notification.
pub fn decode(info: Option<PlayerInfo>) -> (r: PlayerEvent)
    ensures
        r@ == decoded(info),
{
    let i = match info {
        None => {
            return PlayerEvent { state: PlayerState::Stopped, track: None };
        },
        Some(i) => i,
    };
    let state = if same_text(i.state.as_str(), "Playing") {
        PlayerState::Playing
    } else if same_text(i.state.as_str(), "Paused") {
        PlayerState::Paused
    } else {
        PlayerState::Stopped
    };
    if i.name.as_str().is_empty() && i.artist.as_str().is_empty() {
        return PlayerEvent { state, track: None };
    }
    let mut id = String::new();
    if let Some(n) = i.persistent_id {
        let bits: u64 = if n < 0 {
            (n as i128 + 0x1_0000_0000_0000_0000) as u64
        } else {
            n as u64
        };
        push_hex(&mut id, bits, 16);
        assert(id@ =~= json::hex_text(unsigned(n as int) as nat, 16));
    }
    let r = PlayerEvent {
        state,
        track: Some(
            TrackInfo {
                name: i.name,
                artist: i.artist,
                album: i.album,
                genre: i.genre,
                duration_ms: i.total_time_ms,
                persistent_id: id,
            },
        ),
    };
    assert(r@.track->0 =~= decoded(info).track->0);
    r
}

// ── rows ────────────────────────────────────────────────────────────────────

/// The track's length in seconds, left out when unknown.
pub open spec fn duration_field(lead: Seq<char>, millis: Option<i64>) -> Seq<char> {
    match millis {
        Some(n) => lead + json::seconds_text(n as int),
        None => Seq::empty(),
    }
}

/// The line of a play, without its line end.
pub open spec fn play_line(p: PlayView) -> Seq<char> {
    json::text_field("{\"start\":"@, p.start) + json::text_field(",\"end\":"@, p.end)
        + json::number_field(",\"seconds_played\":"@, p.seconds_played) + json::text_field(
        ",\"track\":"@,
        p.track,
    ) + json::text_field(",\"artist\":"@, p.artist) + json::text_field(",\"album\":"@, p.album)
        + json::text_field(",\"genre\":"@, p.genre) + duration_field(
        ",\"duration_secs\":"@,
        p.duration_ms,
    ) + json::text_field(",\"persistent_id\":"@, p.persistent_id) + json::flag_field(
        ",\"full_play\":"@,
        p.full_play,
    ) + "}"@
}

impl Play {
    /// The line of this play in its day file.
    pub fn to_line(&self) -> (r: String)
        ensures
            r@ == play_line(self@),
            json::is_line(r@),
    {
        proof {
            reveal_strlit("{\"start\":");
            reveal_strlit(",\"end\":");
            reveal_strlit(",\"seconds_played\":");
            reveal_strlit(",\"track\":");
            reveal_strlit(",\"artist\":");
            reveal_strlit(",\"album\":");
            reveal_strlit(",\"genre\":");
            reveal_strlit(",\"duration_secs\":");
            reveal_strlit(",\"persistent_id\":");
            reveal_strlit(",\"full_play\":");
            reveal_strlit("}");
        }
        let mut out = String::new();
        push_text_field(&mut out, "{\"start\":", self.start.as_str());
        assert(out@ =~= json::text_field("{\"start\":"@, self.start@));
        push_text_field(&mut out, ",\"end\":", self.end.as_str());
        push_number_field(&mut out, ",\"seconds_played\":", self.seconds_played);
        push_text_field(&mut out, ",\"track\":", self.track.as_str());
        push_text_field(&mut out, ",\"artist\":", self.artist.as_str());
        push_text_field(&mut out, ",\"album\":", self.album.as_str());
        push_text_field(&mut out, ",\"genre\":", self.genre.as_str());
        let ghost before = out@;
        if let Some(n) = self.duration_ms {
            push_seconds_field(&mut out, ",\"duration_secs\":", n);
        }
        assert(out@ =~= before + duration_field(",\"duration_secs\":"@, self.duration_ms));
        push_text_field(&mut out, ",\"persistent_id\":", self.persistent_id.as_str());
        push_flag_field(&mut out, ",\"full_play\":", self.full_play);
        push_raw(&mut out, "}");
        out
    }
}

// ── the stream ──────────────────────────────────────────────────────────────

/// The rows of the stream `music/plays`: each play on the day it started.
pub open spec fn play_rows(plays: Seq<PlayView>) -> Seq<RowView> {
    Seq::new(plays.len(), |i: int| RowView { ts: plays[i].start, line: play_line(plays[i]) })
}

impl Vault {
    /// Plan the append of plays to the stream `music/plays`.
    pub fn append_music_plays(&self, plays: &Vec<Play>) -> (r: Result<
        Vec<DayAppend>,
        VaultError,
    >)
        ensures
            vault::appended(self@, "music/plays"@, play_rows(play_views(plays@)), false, r),
            r matches Err(e) ==> e is NoDatePrefix,
            r matches Ok(plan) ==> vault::reads_back(play_rows(play_views(plays@)), plan@),
            all_dated(plays@) ==> r is Ok,
    {
        let mut rows: Vec<DayRow> = Vec::new();
        let mut i: usize = 0;
        while i < plays.len()
            invariant
                i <= plays@.len(),
                vault::row_views(rows@) == play_rows(play_views(plays@)).take(i as int),
                forall|k: int|
                    0 <= k < i ==> json::is_line(
                        (#[trigger] play_rows(play_views(plays@))[k]).line,
                    ),
            decreases plays@.len() - i,
        {
            let ghost before = vault::row_views(rows@);
            rows.push(DayRow { ts: plays[i].start.clone(), line: plays[i].to_line() });
            assert(play_rows(play_views(plays@)).take(i + 1) =~= before.push(
                play_rows(play_views(plays@))[i as int],
            ));
            assert(vault::row_views(rows@) =~= before.push(play_rows(play_views(plays@))[i as int]));
            i = i + 1;
        }
        assert(vault::row_views(rows@) =~= play_rows(play_views(plays@)));
        assert(!vault::bad_stream("music/plays"@)) by {
            reveal_strlit("music/plays");
            assert(forall|k: int| !#[trigger] vault::parent_at("music/plays"@, k));
        }
        let r = self.append_day_jsonl("music/plays", &rows, false);
        proof {
            if all_dated(plays@) {
                assert forall|k: int| 0 <= k < plays@.len() implies moment::has_date_prefix(
                    (#[trigger] play_rows(play_views(plays@))[k]).ts,
                ) by {
                    assert(moment::has_date_prefix(plays@[k].start@));
                }
                vault::lemma_none_undated(play_rows(play_views(plays@)));
            }
            if r is Ok {
                vault::law_stream_reads_back(
                    self@,
                    "music/plays"@,
                    play_rows(play_views(plays@)),
                    false,
                    r->Ok_0@,
                );
            }
        }
        r
    }
}

// ── laws ────────────────────────────────────────────────────────────────────

/// A closed play is recorded exactly when it has a name and reached the floor,
/// whether it was heard in full or skipped.
pub proof fn law_recorded_from_the_floor_on(w: ScrobblerView, now: Moment)
    requires
        w.valid(),
        now.valid(),
    ensures
        closing_play(w, now) is Some <==> (w.open matches Some(o) && o.track.name.len() > 0
            && paused(o, now).played_ms >= w.cfg.min_record_ms),
{
}

/// Only playing time counts: of a play that is paused at `t1`, resumed at `t2`
/// and stopped at `t3`, what is recorded holds the time up to the pause and the
/// time after the resume, however long the pause was.
pub proof fn law_pause_stops_the_clock(
    w: ScrobblerView,
    t1: Moment,
    t2: Moment,
    t3: Moment,
    pause: PlayerEventView,
    play: PlayerEventView,
)
    requires
        w.valid(),
        t1.valid(),
        t2.valid(),
        t3.valid(),
        pause.state == PlayerState::Paused,
        play.state == PlayerState::Playing,
        w.open matches Some(o) && o.resumed_at is Some && (play.track matches Some(t)
            && is_same_track(o.track, t)),
    ensures
        ({
            let o = w.open->0;
            let heard = capped(
                capped(o.played_ms + millis_between(o.resumed_at->0, t1)) + millis_between(t2, t3),
            );
            let last = handled(handled(w, t1, pause), t2, play);
            &&& completed_by(w, t1, pause) is None
            &&& completed_by(handled(w, t1, pause), t2, play) is None
            &&& closing_play(last, t3) == play_of(
                w.cfg,
                OpenPlayView { played_ms: heard, resumed_at: None, last_active: t3, ..o },
            )
        }),
{
}

/// A notification that repeats what is playing changes nothing of what is
/// recorded in the end.
pub proof fn law_repeated_playing_is_harmless(
    w: ScrobblerView,
    now: Moment,
    end: Moment,
    play: PlayerEventView,
)
    requires
        w.valid(),
        now.valid(),
        end.valid(),
        play.state == PlayerState::Playing,
        w.open matches Some(o) && o.resumed_at is Some && (play.track matches Some(t)
            && is_same_track(o.track, t)),
    ensures
        completed_by(w, now, play) is None,
        closing_play(handled(w, now, play), end) == closing_play(w, end),
{
}

/// A change of track closes the play as a stop would: with or without the stop
/// between, the same is recorded and the same is open.
pub proof fn law_track_change_is_a_stop(
    w: ScrobblerView,
    now: Moment,
    stop: PlayerEventView,
    play: PlayerEventView,
)
    requires
        w.valid(),
        now.valid(),
        stop.state == PlayerState::Stopped,
        play.state == PlayerState::Playing,
        w.open matches Some(o) && (play.track matches Some(t) && !is_same_track(o.track, t)),
    ensures
        completed_by(w, now, play) == completed_by(w, now, stop),
        completed_by(handled(w, now, stop), now, play) is None,
        handled(w, now, play) == handled(handled(w, now, stop), now, play),
{
}

/// With the default settings a play is full exactly when half of the track or
/// four minutes were heard, or half a minute of a track of unknown length.
pub proof fn law_full_play_is_half_or_four_minutes(cfg: ScrobbleConfig, o: OpenPlayView)
    requires
        cfg.full_permille == 500,
        cfg.full_ms == 240_000,
    ensures
        is_full_play(cfg, o) <==> match o.track.duration_ms {
            Some(d) => 2 * o.played_ms >= d || o.played_ms >= 240_000,
            None => o.played_ms >= 30_000,
        },
{
}

/// The playing time fits into the time since the play began.
pub open spec fn fits(w: ScrobblerView) -> bool {
    w.open matches Some(o) ==> {
        let until = match o.resumed_at {
            Some(r) => r,
            None => o.last_active,
        };
        &&& o.start.ns() <= until.ns() <= o.last_active.ns()
        &&& o.played_ms * 1_000_000 <= until.ns() - o.start.ns()
    }
}

/// Events come in order: each not before what is already known.
pub open spec fn in_order(
    w: ScrobblerView,
    events: Seq<(Moment, PlayerEventView)>,
    now: Moment,
) -> bool
    decreases events.len(),
{
    if events.len() == 0 {
        w.open matches Some(o) ==> o.last_active.ns() <= now.ns()
    } else {
        let (ts, _e) = events.last();
        ts.valid() && ts.ns() <= now.ns() && in_order(w, events.drop_last(), ts)
    }
}

proof fn lemma_millis(from: Moment, to: Moment)
    requires
        from.ns() <= to.ns(),
    ensures
        millis_between(from, to) * 1_000_000 <= to.ns() - from.ns(),
{
    let d = to.ns() - from.ns();
    assert((d / 1_000_000) * 1_000_000 <= d);
}

proof fn lemma_fits(w: ScrobblerView, events: Seq<(Moment, PlayerEventView)>, now: Moment)
    requires
        w.valid(),
        fits(w),
        in_order(w, events, now),
    ensures
        handled_all(w, events).valid(),
        fits(handled_all(w, events)),
        handled_all(w, events).open matches Some(o) ==> o.last_active.ns() <= now.ns(),
    decreases events.len(),
{
    if events.len() > 0 {
        let (ts, e) = events.last();
        let before = events.drop_last();
        lemma_fits(w, before, ts);
        if let Some(o) = handled_all(w, before).open {
            if let Some(r) = o.resumed_at {
                lemma_millis(r, ts);
            }
        }
    }
}

/// No play is longer than the time it took: after any events in order, what is
/// played when the play is closed fits between its start and its end.
pub proof fn law_play_fits_its_span(
    w: ScrobblerView,
    events: Seq<(Moment, PlayerEventView)>,
    now: Moment,
)
    requires
        w.valid(),
        fits(w),
        now.valid(),
        in_order(w, events, now),
    ensures
        handled_all(w, events).open matches Some(o) ==> {
            let p = paused(o, now);
            p.played_ms * 1_000_000 <= p.last_active.ns() - p.start.ns()
        },
{
    lemma_fits(w, events, now);
    if let Some(o) = handled_all(w, events).open {
        if let Some(r) = o.resumed_at {
            lemma_millis(r, now);
        }
    }
}

/// The two are reported as the same track: by their ids where both have one,
/// else by name, artist and album.
pub open spec fn one_track(a: TrackView, b: TrackView) -> bool {
    ||| a.persistent_id.len() > 0 && b.persistent_id.len() > 0 && a.persistent_id
        == b.persistent_id
    ||| (a.persistent_id.len() == 0 || b.persistent_id.len() == 0) && a.name == b.name && a.artist
        == b.artist && a.album == b.album
}

/// A track that starts playing, with none open or another one, begins a play: it
/// is that track's, starts now and runs from now.
pub proof fn law_playing_begins_a_play(w: ScrobblerView, now: Moment, e: PlayerEventView)
    requires
        e.state == PlayerState::Playing,
        e.track is Some,
        w.open matches Some(o) ==> !one_track(o.track, e.track->0),
    ensures
        handled(w, now, e).cfg == w.cfg,
        handled(w, now, e).open matches Some(o) && o.track == e.track->0 && o.start == now
            && o.played_ms == 0 && o.resumed_at == Some(now) && o.last_active == now,
        w.open is None ==> completed_by(w, now, e) is None,
{
}

/// The same track playing goes on, or is resumed: the play keeps its track, its
/// start and its playing time, and runs from now if it did not run.
pub proof fn law_playing_again_resumes(w: ScrobblerView, now: Moment, e: PlayerEventView)
    requires
        e.state == PlayerState::Playing,
        e.track is Some,
        w.open matches Some(o) && one_track(o.track, e.track->0),
    ensures
        completed_by(w, now, e) is None,
        handled(w, now, e).cfg == w.cfg,
        handled(w, now, e).open matches Some(o) && {
            let was = w.open->0;
            &&& o.track == was.track && o.start == was.start && o.played_ms == was.played_ms
            &&& o.resumed_at == (if was.resumed_at is Some {
                was.resumed_at
            } else {
                Some(now)
            })
            &&& o.last_active == now
        },
{
}

/// A pause counts the time since the play was resumed and stops the clock; a
/// play that does not run is left as it is. It completes nothing.
pub proof fn law_pause_counts_what_ran(w: ScrobblerView, now: Moment, e: PlayerEventView)
    requires
        w.valid(),
        now.valid(),
        e.state == PlayerState::Paused,
        w.open matches Some(o) && (o.resumed_at matches Some(r) ==> r.ns() <= now.ns() && o.played_ms
            + now.millis_after(r) <= u64::MAX),
    ensures
        completed_by(w, now, e) is None,
        handled(w, now, e).cfg == w.cfg,
        handled(w, now, e).open matches Some(o) && {
            let was = w.open->0;
            &&& o.track == was.track && o.start == was.start && o.resumed_at is None
            &&& o.played_ms == was.played_ms + (match was.resumed_at {
                Some(r) => now.millis_after(r),
                None => 0,
            })
            &&& o.last_active == (if was.resumed_at is Some {
                now
            } else {
                was.last_active
            })
        },
{
}

/// Without a track a report of playing says nothing, and with nothing open a
/// pause and a stop have nothing to do.
pub proof fn law_empty_reports_change_nothing(w: ScrobblerView, now: Moment, e: PlayerEventView)
    requires
        e.state == PlayerState::Playing && e.track is None || e.state != PlayerState::Playing
            && w.open is None,
    ensures
        handled(w, now, e).open == w.open,
        completed_by(w, now, e) is None,
{
}

/// `p` is the play of the track `t` that began at `start`, was last active at
/// `end` and ran for `millis` milliseconds: it carries the metadata of the track
/// field by field, its playing time to the nearest second, and whether that is
/// a full play.
pub open spec fn is_play_of(
    p: PlayView,
    cfg: ScrobbleConfig,
    t: TrackView,
    start: Moment,
    end: Moment,
    millis: int,
) -> bool {
    &&& p.start == start.text()
    &&& p.end == end.text()
    &&& p.track == t.name
    &&& p.artist == t.artist
    &&& p.album == t.album
    &&& p.genre == t.genre
    &&& p.duration_ms == t.duration_ms
    &&& p.persistent_id == t.persistent_id
    &&& millis - 500 < p.seconds_played * 1000 <= millis + 500
    &&& p.full_play == (match t.duration_ms {
        Some(d) => millis * 1000 >= d * cfg.full_permille || millis >= cfg.full_ms,
        None => millis >= 30_000,
    })
}

/// A stop, a change of track, closing out and shutting down all record the open
/// play, if its track has a name and it ran for long enough: with the metadata
/// of its track and the time it ran, up to now if it was running.
pub proof fn law_closing_records_the_open_play(w: ScrobblerView, now: Moment, e: PlayerEventView)
    requires
        w.valid(),
        now.valid(),
        w.open matches Some(o) && (o.resumed_at matches Some(r) ==> r.ns() <= now.ns() && o.played_ms
            + now.millis_after(r) <= u64::MAX),
        e.state == PlayerState::Stopped || (e.state == PlayerState::Playing && e.track is Some
            && !one_track((w.open->0).track, e.track->0)),
    ensures
        completed_by(w, now, e) == closing_play(w, now),
        e.state == PlayerState::Stopped ==> handled(w, now, e).open is None,
        ({
            let o = w.open->0;
            let ran = o.played_ms + (match o.resumed_at {
                Some(r) => now.millis_after(r),
                None => 0,
            });
            let end = if o.resumed_at is Some {
                now
            } else {
                o.last_active
            };
            &&& closing_play(w, now) is Some == (o.track.name.len() > 0 && ran
                >= w.cfg.min_record_ms)
            &&& closing_play(w, now) matches Some(p) ==> is_play_of(
                p,
                w.cfg,
                o.track,
                o.start,
                end,
                ran,
            )
        }),
{
}

/// The events of a run that keep the play of `t` open: pauses, and reports of
/// the same track playing.
pub open spec fn keep_playing(t: TrackView, events: Seq<(Moment, PlayerEventView)>) -> bool {
    forall|i: int|
        0 <= i < events.len() ==> {
            let e = (#[trigger] events[i]).1;
            e.state == PlayerState::Paused || (e.state == PlayerState::Playing && (
            e.track matches Some(x) ==> one_track(t, x)))
        }
}

/// From notifications to a play: whatever pauses and repeated reports come
/// between, the play that is closed in the end carries the metadata of the
/// track that was reported as playing when it began, field by field, and starts
/// there.
pub proof fn law_play_carries_the_track_that_began_it(
    w: ScrobblerView,
    first: Moment,
    began: PlayerEventView,
    events: Seq<(Moment, PlayerEventView)>,
    now: Moment,
)
    requires
        began.state == PlayerState::Playing,
        began.track is Some,
        w.open matches Some(o) ==> !one_track(o.track, began.track->0),
        keep_playing(began.track->0, events),
    ensures
        completed_by_all(handled(w, first, began), events).len() == 0,
        ({
            let t = began.track->0;
            let last = handled_all(handled(w, first, began), events);
            &&& last.open matches Some(o) && o.track == t && o.start == first
            &&& closing_play(last, now) matches Some(p) ==> {
                &&& p.start == first.text()
                &&& p.track == t.name && p.artist == t.artist && p.album == t.album
                &&& p.genre == t.genre && p.duration_ms == t.duration_ms && p.persistent_id
                    == t.persistent_id
            }
            &&& t.name.len() == 0 ==> closing_play(last, now) is None
        }),
    decreases events.len(),
{
    law_playing_begins_a_play(w, first, began);
    if events.len() > 0 {
        let less = events.drop_last();
        assert forall|i: int| 0 <= i < less.len() implies {
            let e = (#[trigger] less[i]).1;
            e.state == PlayerState::Paused || (e.state == PlayerState::Playing && (
            e.track matches Some(x) ==> one_track(began.track->0, x)))
        } by {
            assert(events[i] == less[i]);
        }
        law_play_carries_the_track_that_began_it(w, first, began, less, now);
        let (ts, e) = events[events.len() - 1];
        assert(e.state == PlayerState::Paused || (e.state == PlayerState::Playing && (
        e.track matches Some(x) ==> one_track(began.track->0, x))));
        let mid = handled_all(handled(w, first, began), less);
        assert(completed_by(mid, ts, e) is None);
    }
}

/// A notification's fields become the track's, each its own: without a name and
/// an artist there is no track, and an id is sixteen hexadecimal digits.
pub proof fn law_decoded_fields_are_their_own(i: PlayerInfo)
    ensures
        ({
            let e = decoded(Some(i));
            &&& e.state == PlayerState::Playing <==> i.state@ == "Playing"@
            &&& e.state == PlayerState::Paused <==> i.state@ == "Paused"@
            &&& e.track is None <==> i.name@.len() == 0 && i.artist@.len() == 0
            &&& e.track matches Some(t) ==> {
                &&& t.name == i.name@ && t.artist == i.artist@ && t.album == i.album@
                &&& t.genre == i.genre@ && t.duration_ms == i.total_time_ms
                &&& i.persistent_id is None ==> t.persistent_id.len() == 0
                &&& i.persistent_id matches Some(n) ==> t.persistent_id.len() == 16
                &&& i.persistent_id matches Some(n) ==> (n >= 0 ==> t.persistent_id
                    == json::hex_text(n as nat, 16))
                &&& i.persistent_id matches Some(n) ==> (n < 0 ==> t.persistent_id
                    == json::hex_text((n + 0x1_0000_0000_0000_0000) as nat, 16))
            }
        }),
        decoded(None).state == PlayerState::Stopped && decoded(None).track is None,
{
    reveal_strlit("Playing");
    reveal_strlit("Paused");
    assert("Playing"@.len() == 7 && "Paused"@.len() == 6);
    lemma_hex_len(0, 16);
    if let Some(n) = i.persistent_id {
        lemma_hex_len(unsigned(n as int) as nat, 16);
    }
}

proof fn lemma_hex_len(n: nat, width: nat)
    ensures
        json::hex_text(n, width).len() == width,
    decreases width,
{
    if width > 0 {
        lemma_hex_len(n / 16, (width - 1) as nat);
    }
}

// ── a line tells its record ────────────────────────────────────────────────

proof fn lemma_duration_reads_back(
    lead: Seq<char>,
    a: Option<i64>,
    ra: Seq<char>,
    b: Option<i64>,
    rb: Seq<char>,
)
    requires
        duration_field(lead, a) + ra == duration_field(lead, b) + rb,
        json::ends_number(ra),
        json::ends_number(rb),
        !text::has_prefix(ra, lead),
        !text::has_prefix(rb, lead),
    ensures
        a == b,
        ra == rb,
{
    let empty = Seq::<char>::empty();
    assert(empty + ra =~= ra);
    assert(empty + rb =~= rb);
    if let Some(n) = a {
        let ta = json::seconds_text(n as int);
        json::lemma_regroup(lead, ta, ra);
        if let Some(m) = b {
            let tb = json::seconds_text(m as int);
            json::lemma_regroup(lead, tb, rb);
            json::lemma_behind(lead, ta + ra, tb + rb);
            json::law_seconds_read_back(n as int, ra, m as int, rb);
        } else {
            assert((lead + (ta + ra)).take(lead.len() as int) =~= lead);
        }
    } else if let Some(m) = b {
        let tb = json::seconds_text(m as int);
        json::lemma_regroup(lead, tb, rb);
        assert((lead + (tb + rb)).take(lead.len() as int) =~= lead);
    }
}

spec fn from_full_play(p: PlayView) -> Seq<char> {
    json::flag_field(",\"full_play\":"@, p.full_play) + "}"@
}

spec fn from_persistent_id(p: PlayView) -> Seq<char> {
    json::text_field(",\"persistent_id\":"@, p.persistent_id) + from_full_play(p)
}

spec fn from_duration_ms(p: PlayView) -> Seq<char> {
    duration_field(",\"duration_secs\":"@, p.duration_ms) + from_persistent_id(p)
}

spec fn from_genre(p: PlayView) -> Seq<char> {
    json::text_field(",\"genre\":"@, p.genre) + from_duration_ms(p)
}

spec fn from_album(p: PlayView) -> Seq<char> {
    json::text_field(",\"album\":"@, p.album) + from_genre(p)
}

spec fn from_artist(p: PlayView) -> Seq<char> {
    json::text_field(",\"artist\":"@, p.artist) + from_album(p)
}

spec fn from_track(p: PlayView) -> Seq<char> {
    json::text_field(",\"track\":"@, p.track) + from_artist(p)
}

spec fn from_seconds_played(p: PlayView) -> Seq<char> {
    json::number_field(",\"seconds_played\":"@, p.seconds_played) + from_track(p)
}

spec fn from_end(p: PlayView) -> Seq<char> {
    json::text_field(",\"end\":"@, p.end) + from_seconds_played(p)
}

proof fn lemma_line_from_the_front(p: PlayView)
    ensures
        play_line(p) == json::text_field("{\"start\":"@, p.start) + from_end(p),
{
    let f1 = json::text_field("{\"start\":"@, p.start);
    let f2 = json::text_field(",\"end\":"@, p.end);
    let f3 = json::number_field(",\"seconds_played\":"@, p.seconds_played);
    let f4 = json::text_field(",\"track\":"@, p.track);
    let f5 = json::text_field(",\"artist\":"@, p.artist);
    let f6 = json::text_field(",\"album\":"@, p.album);
    let f7 = json::text_field(",\"genre\":"@, p.genre);
    let f8 = duration_field(",\"duration_secs\":"@, p.duration_ms);
    let f9 = json::text_field(",\"persistent_id\":"@, p.persistent_id);
    let f10 = json::flag_field(",\"full_play\":"@, p.full_play);
    let p1 = f1;
    let p2 = p1 + f2;
    let p3 = p2 + f3;
    let p4 = p3 + f4;
    let p5 = p4 + f5;
    let p6 = p5 + f6;
    let p7 = p6 + f7;
    let p8 = p7 + f8;
    let p9 = p8 + f9;
    let p10 = p9 + f10;
    json::lemma_regroup(p9, f10, "}"@);
    json::lemma_regroup(p8, f9, from_full_play(p));
    json::lemma_regroup(p7, f8, from_persistent_id(p));
    json::lemma_regroup(p6, f7, from_duration_ms(p));
    json::lemma_regroup(p5, f6, from_genre(p));
    json::lemma_regroup(p4, f5, from_album(p));
    json::lemma_regroup(p3, f4, from_artist(p));
    json::lemma_regroup(p2, f3, from_track(p));
    json::lemma_regroup(p1, f2, from_seconds_played(p));
}

/// A field that is left out is not made up for by a later one, and a number is
/// followed by something else.
proof fn lemma_fields_stand_apart(p: PlayView)
    ensures
        !text::has_prefix(from_persistent_id(p), ",\"duration_secs\":"@),
        json::ends_number(from_track(p)),
        json::ends_number(from_persistent_id(p)),
{
    reveal_strlit(",\"seconds_played\":");
    reveal_strlit(",\"track\":");
    reveal_strlit(",\"duration_secs\":");
    reveal_strlit(",\"persistent_id\":");
    reveal_strlit("}");
    if let Some(d) = p.duration_ms {
        let text = ",\"duration_secs\":"@ + json::seconds_text(d as int);
        assert(text.take(",\"duration_secs\":"@.len() as int) =~= ",\"duration_secs\":"@);
    }
    assert(json::number_field(",\"seconds_played\":"@, p.seconds_played).take(
        ",\"seconds_played\":"@.len() as int,
    ) =~= ",\"seconds_played\":"@);
    assert(json::text_field(",\"track\":"@, p.track).take(
        ",\"track\":"@.len() as int,
    ) =~= ",\"track\":"@);
    assert(json::text_field(",\"persistent_id\":"@, p.persistent_id).take(
        ",\"persistent_id\":"@.len() as int,
    ) =~= ",\"persistent_id\":"@);
    json::lemma_begins_otherwise(
        json::text_field(",\"persistent_id\":"@, p.persistent_id),
        ",\"persistent_id\":"@,
        from_full_play(p),
        ",\"duration_secs\":"@,
        2,
    );
    assert(from_track(p)[0] == ',');
    assert(from_persistent_id(p)[0] == ',');
}

/// A line tells its play: no two plays have the same line.
pub proof fn law_line_tells_the_play(a: PlayView, b: PlayView)
    requires
        play_line(a) == play_line(b),
        0 <= a.seconds_played,
        0 <= b.seconds_played,
    ensures
        a == b,
{
    lemma_line_from_the_front(a);
    lemma_line_from_the_front(b);
    lemma_fields_stand_apart(a);
    lemma_fields_stand_apart(b);
    json::lemma_text_field_reads_back("{\"start\":"@, a.start, from_end(a), b.start, from_end(b));
    json::lemma_text_field_reads_back(
        ",\"end\":"@,
        a.end,
        from_seconds_played(a),
        b.end,
        from_seconds_played(b),
    );
    json::lemma_number_field_reads_back(
        ",\"seconds_played\":"@,
        a.seconds_played,
        from_track(a),
        b.seconds_played,
        from_track(b),
    );
    json::lemma_text_field_reads_back(
        ",\"track\":"@,
        a.track,
        from_artist(a),
        b.track,
        from_artist(b),
    );
    json::lemma_text_field_reads_back(
        ",\"artist\":"@,
        a.artist,
        from_album(a),
        b.artist,
        from_album(b),
    );
    json::lemma_text_field_reads_back(
        ",\"album\":"@,
        a.album,
        from_genre(a),
        b.album,
        from_genre(b),
    );
    json::lemma_text_field_reads_back(
        ",\"genre\":"@,
        a.genre,
        from_duration_ms(a),
        b.genre,
        from_duration_ms(b),
    );
    lemma_duration_reads_back(
        ",\"duration_secs\":"@,
        a.duration_ms,
        from_persistent_id(a),
        b.duration_ms,
        from_persistent_id(b),
    );
    json::lemma_text_field_reads_back(
        ",\"persistent_id\":"@,
        a.persistent_id,
        from_full_play(a),
        b.persistent_id,
        from_full_play(b),
    );
    json::lemma_flag_field_reads_back(",\"full_play\":"@, a.full_play, "}"@, b.full_play, "}"@);
    assert(a =~= b);
}

/// The line of a play names its fields, each with its own value.
#[verifier::rlimit(40)]
pub proof fn law_line_names_its_fields(p: PlayView)
    ensures
        json::has_field(play_line(p), "start"@, json::json_text(p.start)),
        json::has_field(play_line(p), "end"@, json::json_text(p.end)),
        json::has_field(play_line(p), "seconds_played"@, json::decimal(p.seconds_played as nat)),
        json::has_field(play_line(p), "track"@, json::json_text(p.track)),
        json::has_field(play_line(p), "artist"@, json::json_text(p.artist)),
        json::has_field(play_line(p), "album"@, json::json_text(p.album)),
        json::has_field(play_line(p), "genre"@, json::json_text(p.genre)),
        p.duration_ms matches Some(d) ==> json::has_field(
            play_line(p),
            "duration_secs"@,
            json::seconds_text(d as int),
        ),
        json::has_field(play_line(p), "persistent_id"@, json::json_text(p.persistent_id)),
        json::has_field(play_line(p), "full_play"@, json::bool_text(p.full_play)),
{
    assert(json::goes_on("}"@)) by {
        reveal_strlit("}");
    }
    assert({
        &&& json::has_field(
            from_full_play(p),
            "full_play"@,
            json::bool_text(p.full_play),
        )
        &&& json::goes_on(from_full_play(p))
    }) by {
        reveal_strlit(",\"full_play\":");
        reveal_strlit("full_play");
        json::lemma_field_at_the_front(
            ",\"full_play\":"@,
            "full_play"@,
            json::bool_text(p.full_play),
            "}"@,
        );
    }
    json::lemma_fields_behind(json::flag_field(",\"full_play\":"@, p.full_play), "}"@);
    assert({
        &&& json::has_field(
            from_persistent_id(p),
            "persistent_id"@,
            json::json_text(p.persistent_id),
        )
        &&& json::goes_on(from_persistent_id(p))
    }) by {
        reveal_strlit(",\"persistent_id\":");
        reveal_strlit("persistent_id");
        json::lemma_field_at_the_front(
            ",\"persistent_id\":"@,
            "persistent_id"@,
            json::json_text(p.persistent_id),
            from_full_play(p),
        );
    }
    json::lemma_fields_behind(
        json::text_field(",\"persistent_id\":"@, p.persistent_id),
        from_full_play(p),
    );
    assert({
        &&& p.duration_ms is Some ==> json::has_field(
            from_duration_ms(p),
            "duration_secs"@,
            json::seconds_text(p.duration_ms->0 as int),
        )
        &&& json::goes_on(from_duration_ms(p))
    }) by {
        reveal_strlit(",\"duration_secs\":");
        reveal_strlit("duration_secs");
        if p.duration_ms is Some {
            json::lemma_field_at_the_front(
                ",\"duration_secs\":"@,
                "duration_secs"@,
                json::seconds_text(p.duration_ms->0 as int),
                from_persistent_id(p),
            );
        } else {
            assert(duration_field(",\"duration_secs\":"@, p.duration_ms) + from_persistent_id(p) =~= from_persistent_id(p));
        }
    }
    json::lemma_fields_behind(
        duration_field(",\"duration_secs\":"@, p.duration_ms),
        from_persistent_id(p),
    );
    assert({
        &&& json::has_field(
            from_genre(p),
            "genre"@,
            json::json_text(p.genre),
        )
        &&& json::goes_on(from_genre(p))
    }) by {
        reveal_strlit(",\"genre\":");
        reveal_strlit("genre");
        json::lemma_field_at_the_front(
            ",\"genre\":"@,
            "genre"@,
            json::json_text(p.genre),
            from_duration_ms(p),
        );
    }
    json::lemma_fields_behind(json::text_field(",\"genre\":"@, p.genre), from_duration_ms(p));
    assert({
        &&& json::has_field(
            from_album(p),
            "album"@,
            json::json_text(p.album),
        )
        &&& json::goes_on(from_album(p))
    }) by {
        reveal_strlit(",\"album\":");
        reveal_strlit("album");
        json::lemma_field_at_the_front(
            ",\"album\":"@,
            "album"@,
            json::json_text(p.album),
            from_genre(p),
        );
    }
    json::lemma_fields_behind(json::text_field(",\"album\":"@, p.album), from_genre(p));
    assert({
        &&& json::has_field(
            from_artist(p),
            "artist"@,
            json::json_text(p.artist),
        )
        &&& json::goes_on(from_artist(p))
    }) by {
        reveal_strlit(",\"artist\":");
        reveal_strlit("artist");
        json::lemma_field_at_the_front(
            ",\"artist\":"@,
            "artist"@,
            json::json_text(p.artist),
            from_album(p),
        );
    }
    json::lemma_fields_behind(json::text_field(",\"artist\":"@, p.artist), from_album(p));
    assert({
        &&& json::has_field(
            from_track(p),
            "track"@,
            json::json_text(p.track),
        )
        &&& json::goes_on(from_track(p))
    }) by {
        reveal_strlit(",\"track\":");
        reveal_strlit("track");
        json::lemma_field_at_the_front(
            ",\"track\":"@,
            "track"@,
            json::json_text(p.track),
            from_artist(p),
        );
    }
    json::lemma_fields_behind(json::text_field(",\"track\":"@, p.track), from_artist(p));
    assert({
        &&& json::has_field(
            from_seconds_played(p),
            "seconds_played"@,
            json::decimal(p.seconds_played as nat),
        )
        &&& json::goes_on(from_seconds_played(p))
    }) by {
        reveal_strlit(",\"seconds_played\":");
        reveal_strlit("seconds_played");
        json::lemma_field_at_the_front(
            ",\"seconds_played\":"@,
            "seconds_played"@,
            json::decimal(p.seconds_played as nat),
            from_track(p),
        );
    }
    json::lemma_fields_behind(
        json::number_field(",\"seconds_played\":"@, p.seconds_played),
        from_track(p),
    );
    assert({
        &&& json::has_field(
            from_end(p),
            "end"@,
            json::json_text(p.end),
        )
        &&& json::goes_on(from_end(p))
    }) by {
        reveal_strlit(",\"end\":");
        reveal_strlit("end");
        json::lemma_field_at_the_front(
            ",\"end\":"@,
            "end"@,
            json::json_text(p.end),
            from_seconds_played(p),
        );
    }
    json::lemma_fields_behind(json::text_field(",\"end\":"@, p.end), from_seconds_played(p));
    assert(json::has_field(json::text_field("{\"start\":"@, p.start) + from_end(p), "start"@, json::json_text(p.start))) by {
        reveal_strlit("{\"start\":");
        reveal_strlit("start");
        json::lemma_field_at_the_front(
            "{\"start\":"@,
            "start"@,
            json::json_text(p.start),
            from_end(p),
        );
    }
    json::lemma_fields_behind(json::text_field("{\"start\":"@, p.start), from_end(p));
    lemma_line_from_the_front(p);
}

/// A play is filed as a line of the day on which it started, in the stream
/// `music/plays`.
pub proof fn law_plays_are_filed_by_their_start(
    root: Seq<char>,
    plays: Seq<PlayView>,
    plan: Vec<DayAppend>,
    k: int,
)
    requires
        vault::appended(root, "music/plays"@, play_rows(plays), false, Ok(plan)),
        0 <= k < plays.len(),
    ensures
        exists|i: int|
            0 <= i < plan@.len() && {
                let a = #[trigger] plan@[i];
                &&& a.day@ == plays[k].start.take(10)
                &&& a.rel@ == "music/plays/"@ + plays[k].start.take(10) + ".jsonl"@
                &&& a.flock == false
                &&& exists|j: int|
                    text::occurs_at(a.text@, play_line(plays[k]) + seq!['\n'], j)
                        && #[trigger] vault::line_start(a.text@, j)
            },
{
    let rows = play_rows(plays);
    vault::law_a_row_is_a_line_of_its_day(root, "music/plays"@, rows, false, plan@, k);
    assert("music/plays/"@ =~= "music/plays"@ + seq!['/']) by {
        reveal_strlit("music/plays/");
        reveal_strlit("music/plays");
    }
    assert(rows[k].ts == plays[k].start && rows[k].line == play_line(plays[k]));
}

/// A batch is handled event by event, in order: two batches one after the other
/// do what one batch of both does, and an empty one does nothing.
pub proof fn law_batches_are_handled_in_turn(
    w: ScrobblerView,
    a: Seq<(Moment, PlayerEventView)>,
    b: Seq<(Moment, PlayerEventView)>,
)
    ensures
        handled_all(w, Seq::empty()) == w,
        completed_by_all(w, Seq::empty()).len() == 0,
        handled_all(w, a + b) == handled_all(handled_all(w, a), b),
        completed_by_all(w, a + b) == completed_by_all(w, a) + completed_by_all(
            handled_all(w, a),
            b,
        ),
    decreases b.len(),
{
    if b.len() == 0 {
        assert(a + b =~= a);
        assert(completed_by_all(w, a) + completed_by_all(handled_all(w, a), b) =~= completed_by_all(
            w,
            a,
        ));
    } else {
        let less = b.drop_last();
        law_batches_are_handled_in_turn(w, a, less);
        assert((a + b).drop_last() =~= a + less);
        assert((a + b).last() == b.last());
        assert(completed_by_all(w, a + b) =~= completed_by_all(w, a) + completed_by_all(
            handled_all(w, a),
            b,
        ));
    }
}

/// A batch of one event is that event.
pub proof fn law_a_batch_of_one_is_its_event(w: ScrobblerView, ts: Moment, e: PlayerEventView)
    ensures
        handled_all(w, seq![(ts, e)]) == handled(w, ts, e),
        completed_by(w, ts, e) matches Some(p) ==> completed_by_all(w, seq![(ts, e)]) == seq![p],
        completed_by(w, ts, e) is None ==> completed_by_all(w, seq![(ts, e)]).len() == 0,
{
    let one = seq![(ts, e)];
    assert(one.drop_last() =~= Seq::empty());
    reveal_with_fuel(handled_all, 2);
    reveal_with_fuel(completed_by_all, 2);
    if let Some(p) = completed_by(w, ts, e) {
        assert(completed_by_all(w, one) =~= seq![p]);
    }
}

/// The model of a track has the fields of the track, each its own.
pub proof fn law_model_of_a_track(x: TrackInfo)
    ensures
        x@.name == x.name@,
        x@.artist == x.artist@,
        x@.album == x.album@,
        x@.genre == x.genre@,
        x@.duration_ms == x.duration_ms,
        x@.persistent_id == x.persistent_id@,
{
}

/// The model of a player event has the fields of the player event, each its own.
pub proof fn law_model_of_a_player_event(x: PlayerEvent)
    ensures
        x@.state == x.state,
        x@.track is None <==> x.track is None,
        x.track matches Some(y) ==> x@.track == Some(y@),
{
}

/// The model of a play has the fields of the play, each its own.
pub proof fn law_model_of_a_play(x: Play)
    ensures
        x@.start == x.start@,
        x@.end == x.end@,
        x@.seconds_played == x.seconds_played,
        x@.track == x.track@,
        x@.artist == x.artist@,
        x@.album == x.album@,
        x@.genre == x.genre@,
        x@.duration_ms == x.duration_ms,
        x@.persistent_id == x.persistent_id@,
        x@.full_play == x.full_play,
{
}

} // verus!
