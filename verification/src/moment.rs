//! Points in time as the collector sees them: an instant, counted in
//! nanoseconds, and the offset from UTC that the local clock showed then.
//!
//! The calendar and the time zone are `chrono`'s: its functions are called
//! here, and what they return is named or bounded.

use chrono::{DateTime, FixedOffset, Local, TimeZone};
use vstd::prelude::*;

verus! {

pub const NANOS_PER_SEC: u32 = 1_000_000_000;

/// The first and the last second (since 1970-01-01T00:00:00Z) of the calendar:
/// -262143-01-01T00:00:00Z and +262142-12-31T23:59:59Z.
pub const MIN_SECS: i64 = -8_334_601_228_800;

pub const MAX_SECS: i64 = 8_210_266_876_799;

/// An instant with the local offset that goes with it.
#[derive(Debug, Clone, Copy)]
pub struct Moment {
    /// Whole seconds since 1970-01-01T00:00:00Z, rounded down.
    pub secs: i64,
    /// Nanoseconds past `secs`.
    pub nanos: u32,
    /// Local time minus UTC, in seconds.
    pub offset: i32,
}

/// `n / d`, rounded towards zero.
pub open spec fn trunc_div(n: int, d: int) -> int {
    if n >= 0 {
        n / d
    } else {
        -((-n) / d)
    }
}

pub open spec fn secs_valid(secs: int) -> bool {
    MIN_SECS <= secs <= MAX_SECS
}

pub open spec fn offset_valid(offset: int) -> bool {
    -86_400 < offset < 86_400
}

impl Moment {
    /// A date of the calendar, with an offset of less than a day.
    pub open spec fn valid(self) -> bool {
        secs_valid(self.secs as int) && self.nanos < NANOS_PER_SEC && offset_valid(
            self.offset as int,
        )
    }

    /// Nanoseconds since 1970-01-01T00:00:00Z.
    pub open spec fn ns(self) -> int {
        self.secs * 1_000_000_000 + self.nanos
    }

    /// Whole seconds from `earlier` to `self`, rounded towards zero.
    pub open spec fn secs_after(self, earlier: Moment) -> int {
        trunc_div(self.ns() - earlier.ns(), 1_000_000_000)
    }

    /// Whole seconds, rounded towards zero, from the instant of `secs` and
    /// `nanos` to `self`. With a billion nanoseconds or more the instant lies in
    /// a leap second behind `secs`, which counts for a moment at a later time
    /// of day.
    pub open spec fn secs_after_instant(self, secs: int, nanos: int) -> int {
        let leap = if nanos >= 1_000_000_000 && self.secs as int % 86_400 > secs % 86_400 {
            1int
        } else {
            0
        };
        trunc_div(
            (self.secs - secs + leap) * 1_000_000_000 + (self.nanos - nanos),
            1_000_000_000,
        )
    }

    /// Whole milliseconds from `earlier` to `self`, rounded towards zero.
    pub open spec fn millis_after(self, earlier: Moment) -> int {
        trunc_div(self.ns() - earlier.ns(), 1_000_000)
    }

    /// The RFC 3339 text of this moment.
    pub open spec fn text(self) -> Seq<char> {
        rfc3339_text(self.secs as int, self.nanos as int, self.offset as int)
    }

    /// The local year has four digits, so that the text begins with a date of
    /// the form `YYYY-MM-DD`.
    pub open spec fn four_digit_year(self) -> bool {
        -62_167_219_200 <= self.secs + self.offset <= 253_402_300_799
    }

    /// The moment with these parts, if they are those of one.
    pub fn new(secs: i64, nanos: u32, offset: i32) -> (r: Option<Moment>)
        ensures
            ({
                let m = Moment { secs, nanos, offset };
                r == (if m.valid() {
                    Some(m)
                } else {
                    None
                })
            }),
    {
        if MIN_SECS <= secs && secs <= MAX_SECS && nanos < NANOS_PER_SEC && -86_400 < offset
            && offset < 86_400 {
            Some(Moment { secs, nanos, offset })
        } else {
            None
        }
    }

    /// Is this instant before `other`?
    pub fn before(&self, other: &Moment) -> (r: bool)
        requires
            self.valid(),
            other.valid(),
        ensures
            r == (self.ns() < other.ns()),
    {
        self.secs < other.secs || (self.secs == other.secs && self.nanos < other.nanos)
    }

    /// Whole seconds from `earlier` to `self`, rounded towards zero.
    pub fn secs_since(&self, earlier: &Moment) -> (r: i64)
        requires
            self.valid(),
            earlier.valid(),
        ensures
            r == self.secs_after(*earlier),
    {
        let ds: i64 = self.secs - earlier.secs;
        proof {
            let d = self.ns() - earlier.ns();
            let dn = self.nanos - earlier.nanos;
            assert(d == ds * 1_000_000_000 + dn);
        }
        if ds > 0 && self.nanos < earlier.nanos {
            ds - 1
        } else if ds < 0 && self.nanos > earlier.nanos {
            ds + 1
        } else {
            ds
        }
    }

    /// Whole milliseconds from `earlier` to `self`, rounded towards zero.
    pub fn millis_since(&self, earlier: &Moment) -> (r: i64)
        requires
            self.valid(),
            earlier.valid(),
        ensures
            r == self.millis_after(*earlier),
    {
        let ds: i64 = self.secs - earlier.secs;
        let dn: i64 = self.nanos as i64 - earlier.nanos as i64;
        proof {
            assert(self.ns() - earlier.ns() == ds * 1_000_000_000 + dn);
        }
        if ds > 0 && dn < 0 {
            let up: u64 = (dn + 1_000_000_000) as u64;
            (ds - 1) * 1000 + (up / 1_000_000) as i64
        } else if ds < 0 && dn > 0 {
            let down: u64 = (1_000_000_000 - dn) as u64;
            (ds + 1) * 1000 - (down / 1_000_000) as i64
        } else if dn >= 0 {
            ds * 1000 + (dn as u64 / 1_000_000) as i64
        } else {
            ds * 1000 - ((-dn) as u64 / 1_000_000) as i64
        }
    }

    /// The instant `millis` milliseconds before this one, as seconds and
    /// nanoseconds.
    pub fn minus_millis(&self, millis: i64) -> (r: (i64, u32))
        requires
            self.valid(),
        ensures
            r.1 < NANOS_PER_SEC,
            r.0 * 1_000_000_000 + r.1 == self.ns() - millis * 1_000_000,
    {
        let (back, part): (i64, u32) = split_millis(millis);
        if self.nanos >= part {
            (self.secs - back, self.nanos - part)
        } else {
            (self.secs - back - 1, self.nanos + NANOS_PER_SEC - part)
        }
    }

    /// The RFC 3339 text of this moment, as the streams carry it.
    pub fn to_rfc3339(&self) -> (r: String)
        requires
            self.valid(),
        ensures
            r@ == self.text(),
            has_date_prefix(r@) == self.four_digit_year(),
            self.four_digit_year() ==> is_rfc3339(
                r@,
                self.secs as int,
                self.nanos as int,
                self.offset as int,
            ) && is_local_date(r@.take(10), self.secs + self.offset),
            self.four_digit_year() && self.offset % 60 == 0 ==> parsed_instant(r@) == Some(
                (self.secs as int, self.nanos as int),
            ),
    {
        let r = rfc3339(self.secs, self.nanos, self.offset);
        proof {
            if self.four_digit_year() {
                lemma_date_of_text(
                    r@,
                    self.secs as int,
                    self.nanos as int,
                    self.offset as int,
                );
            }
        }
        r
    }

    /// Whole seconds from an instant, which may lie in a leap second, to this
    /// moment, rounded towards zero.
    pub fn secs_past(&self, secs: i64, nanos: u32) -> (r: i64)
        requires
            self.valid(),
            secs_valid(secs as int),
            nanos < 2_000_000_000,
        ensures
            r == self.secs_after_instant(secs as int, nanos as int),
    {
        let mut ds: i64 = self.secs - secs;
        if nanos >= NANOS_PER_SEC && second_of_day(self.secs) > second_of_day(secs) {
            ds = ds + 1;
        }
        let dn: i64 = self.nanos as i64 - nanos as i64;
        let d: i128 = ds as i128 * 1_000_000_000 + dn as i128;
        if d >= 0 {
            (d as u128 / 1_000_000_000) as i64
        } else {
            -(((-d) as u128 / 1_000_000_000) as i64)
        }
    }
}

fn second_of_day(secs: i64) -> (r: u64)
    requires
        secs_valid(secs as int),
    ensures
        r == secs as int % 86_400,
{
    // A whole number of days, so that the sum is not negative.
    let up: u64 = (secs + 8_640_000_000_000) as u64;
    up % 86_400
}

/// The whole seconds from the RFC 3339 time `text` to `now`, rounded towards
/// zero; `None` if `text` is no RFC 3339 time.
pub open spec fn age_of(text: Seq<char>, now: Moment) -> Option<int> {
    match parsed_instant(text) {
        Some(t) => Some(now.secs_after_instant(t.0, t.1)),
        None => None,
    }
}

/// How long before `now` the time `text` lies, in whole seconds.
pub fn seconds_since_text(text: &str, now: Moment) -> (r: Option<i64>)
    requires
        now.valid(),
    ensures
        match r {
            Some(n) => age_of(text@, now) == Some(n as int),
            None => age_of(text@, now) is None,
        },
{
    match parse_rfc3339(text) {
        Some((secs, nanos)) => Some(now.secs_past(secs, nanos)),
        None => None,
    }
}

/// `millis` as whole seconds, rounded down, and the nanoseconds left over.
fn split_millis(millis: i64) -> (r: (i64, u32))
    ensures
        r.1 < NANOS_PER_SEC,
        r.0 * 1_000_000_000 + r.1 == millis * 1_000_000,
        -9_223_372_036_854_776 <= r.0 <= 9_223_372_036_854_775,
{
    if millis >= 0 {
        let m: u64 = millis as u64;
        ((m / 1000) as i64, ((m % 1000) * 1_000_000) as u32)
    } else {
        // One more than `millis`, so that the smallest value has a counterpart.
        let m: u64 = (-(millis + 1)) as u64;
        (-((m / 1000) as i64) - 1, ((999 - m % 1000) * 1_000_000) as u32)
    }
}

/// The first ten characters are `YYYY-MM-DD`, with ASCII digits.
pub open spec fn has_date_prefix(s: Seq<char>) -> bool {
    s.len() >= 10 && forall|i: int|
        0 <= i < 10 ==> if i == 4 || i == 7 {
            #[trigger] s[i] == '-'
        } else {
            crate::text::is_digit_char(s[i])
        }
}

// ── dates ───────────────────────────────────────────────────────────────────

pub open spec fn is_leap(y: int) -> bool {
    y % 4 == 0 && (y % 100 != 0 || y % 400 == 0)
}

pub open spec fn days_in_month(y: int, m: int) -> int {
    if m == 2 {
        if is_leap(y) {
            29
        } else {
            28
        }
    } else if m == 4 || m == 6 || m == 9 || m == 11 {
        30
    } else {
        31
    }
}

/// The days of the year `y` before its month `m`.
pub open spec fn days_before_month(y: int, m: int) -> int
    decreases m,
{
    if m <= 1 {
        0
    } else {
        days_before_month(y, m - 1) + days_in_month(y, m - 1)
    }
}

/// The days from 0000-01-01 to the first day of the year `y`.
pub open spec fn days_before_year(y: int) -> int
    decreases y,
{
    if y <= 0 {
        0
    } else {
        days_before_year(y - 1) + if is_leap(y - 1) {
            366int
        } else {
            365
        }
    }
}

/// A day of a year of four digits.
pub open spec fn is_date(y: int, m: int, d: int) -> bool {
    0 <= y <= 9999 && 1 <= m <= 12 && 1 <= d <= days_in_month(y, m)
}

/// The days from 0000-01-01 to the day `d` of the month `m` of the year `y`.
pub open spec fn day_number(y: int, m: int, d: int) -> int {
    days_before_year(y) + days_before_month(y, m) + (d - 1)
}

/// `YYYY-MM-DD`.
pub open spec fn date_text(y: int, m: int, d: int) -> Seq<char> {
    seq![
        digit(y / 1000),
        digit(y / 100 % 10),
        digit(y / 10 % 10),
        digit(y % 10),
        '-',
        digit(m / 10),
        digit(m % 10),
        '-',
        digit(d / 10),
        digit(d % 10),
    ]
}

pub open spec fn digit(n: int) -> char {
    (48 + n) as char
}

/// `date` is the date on which a clock stands `local` seconds past
/// 1970-01-01T00:00:00. The day 1970-01-01 is the one of number 719528.
pub open spec fn is_local_date(date: Seq<char>, local: int) -> bool {
    exists|y: int, m: int, d: int|
        is_date(y, m, d) && day_number(y, m, d) == local / 86_400 + 719_528 && date
            == #[trigger] date_text(y, m, d)
}

/// The last `width` decimal digits of `n`.
pub open spec fn padded(n: int, width: nat) -> Seq<char>
    decreases width,
{
    if width == 0 {
        Seq::empty()
    } else {
        padded(n / 10, (width - 1) as nat).push(digit(n % 10))
    }
}

/// A fraction of a second: none, or as many of three, six and nine digits as it
/// takes.
pub open spec fn fraction_text(nanos: int) -> Seq<char> {
    if nanos == 0 {
        Seq::empty()
    } else if nanos % 1_000_000 == 0 {
        seq!['.'] + padded(nanos / 1_000_000, 3)
    } else if nanos % 1_000 == 0 {
        seq!['.'] + padded(nanos / 1_000, 6)
    } else {
        seq!['.'] + padded(nanos, 9)
    }
}

/// An offset, as hours and minutes, rounded to the nearest minute.
pub open spec fn offset_text(offset: int) -> Seq<char> {
    let n = if offset < 0 {
        -offset
    } else {
        offset
    };
    let minutes = (n + 30) / 60;
    seq![
        if offset < 0 {
            '-'
        } else {
            '+'
        },
    ] + padded(minutes / 60, 2) + seq![':'] + padded(minutes % 60, 2)
}

/// The time of the second `s` of a day.
pub open spec fn time_text(s: int) -> Seq<char> {
    seq!['T'] + padded(s / 3600, 2) + seq![':'] + padded(s / 60 % 60, 2) + seq![':'] + padded(
        s % 60,
        2,
    )
}

/// `text` is the RFC 3339 time of an instant at an offset: the local date, the
/// local time and the offset.
pub open spec fn is_rfc3339(text: Seq<char>, secs: int, nanos: int, offset: int) -> bool {
    let local = secs + offset;
    exists|y: int, m: int, d: int|
        is_date(y, m, d) && day_number(y, m, d) == local / 86_400 + 719_528 && text
            == #[trigger] date_text(y, m, d) + (time_text(local % 86_400) + fraction_text(nanos)
            + offset_text(offset))
}

/// Such a text begins with the local date.
proof fn lemma_date_of_text(text: Seq<char>, secs: int, nanos: int, offset: int)
    requires
        is_rfc3339(text, secs, nanos, offset),
    ensures
        is_local_date(text.take(10), secs + offset),
{
    let local = secs + offset;
    let rest = time_text(local % 86_400) + fraction_text(nanos) + offset_text(offset);
    let (y, m, d) = choose|y: int, m: int, d: int|
        is_date(y, m, d) && day_number(y, m, d) == local / 86_400 + 719_528 && text
            == #[trigger] date_text(y, m, d) + rest;
    assert(text.take(10) =~= date_text(y, m, d));
}

proof fn lemma_months(y: int, m: int, n: int)
    requires
        1 <= m < n <= 13,
    ensures
        0 <= days_before_month(y, m),
        days_before_month(y, m) + days_in_month(y, m) <= days_before_month(y, n),
    decreases n,
{
    if m > 1 {
        lemma_months(y, 1, m);
    }
    if m < n - 1 {
        lemma_months(y, m, n - 1);
    }
}

proof fn lemma_year(y: int)
    ensures
        days_before_month(y, 13) == if is_leap(y) {
            366int
        } else {
            365
        },
{
    reveal_with_fuel(days_before_month, 14);
}

proof fn lemma_years(y: int, z: int)
    requires
        0 <= y < z,
    ensures
        days_before_year(y) + days_before_month(y, 13) <= days_before_year(z),
    decreases z,
{
    lemma_year(y);
    if y < z - 1 {
        lemma_years(y, z - 1);
    }
}

/// A later date has a greater number.
proof fn lemma_later_date(y: int, m: int, d: int, y2: int, m2: int, d2: int)
    requires
        is_date(y, m, d),
        is_date(y2, m2, d2),
        y < y2 || (y == y2 && (m < m2 || (m == m2 && d < d2))),
    ensures
        day_number(y, m, d) < day_number(y2, m2, d2),
{
    lemma_months(y, m, 13);
    if m2 > 1 {
        lemma_months(y2, 1, m2);
    }
    if y < y2 {
        lemma_years(y, y2);
    } else if m < m2 {
        lemma_months(y, m, m2);
    }
}

proof fn lemma_date_text_injective(y: int, m: int, d: int, y2: int, m2: int, d2: int)
    requires
        is_date(y, m, d),
        is_date(y2, m2, d2),
        date_text(y, m, d) == date_text(y2, m2, d2),
    ensures
        y == y2 && m == m2 && d == d2,
{
    let a = date_text(y, m, d);
    let b = date_text(y2, m2, d2);
    assert(a[0] as u32 == 48 + y / 1000 && b[0] as u32 == 48 + y2 / 1000);
    assert(a[1] as u32 == 48 + y / 100 % 10 && b[1] as u32 == 48 + y2 / 100 % 10);
    assert(a[2] as u32 == 48 + y / 10 % 10 && b[2] as u32 == 48 + y2 / 10 % 10);
    assert(a[3] as u32 == 48 + y % 10 && b[3] as u32 == 48 + y2 % 10);
    assert(a[5] as u32 == 48 + m / 10 && b[5] as u32 == 48 + m2 / 10);
    assert(a[6] as u32 == 48 + m % 10 && b[6] as u32 == 48 + m2 % 10);
    assert(a[8] as u32 == 48 + d / 10 && b[8] as u32 == 48 + d2 / 10);
    assert(a[9] as u32 == 48 + d % 10 && b[9] as u32 == 48 + d2 % 10);
}

/// There is one date per day: two local times have the same date exactly when
/// they fall on the same day.
pub proof fn law_one_date_per_local_day(a: Seq<char>, la: int, b: Seq<char>, lb: int)
    requires
        is_local_date(a, la),
        is_local_date(b, lb),
    ensures
        a == b <==> la / 86_400 == lb / 86_400,
{
    let (y, m, d) = choose|y: int, m: int, d: int|
        is_date(y, m, d) && day_number(y, m, d) == la / 86_400 + 719_528 && a
            == #[trigger] date_text(y, m, d);
    let (y2, m2, d2) = choose|y: int, m: int, d: int|
        is_date(y, m, d) && day_number(y, m, d) == lb / 86_400 + 719_528 && b
            == #[trigger] date_text(y, m, d);
    if a == b {
        lemma_date_text_injective(y, m, d, y2, m2, d2);
    }
    if la / 86_400 == lb / 86_400 && !(y == y2 && m == m2 && d == d2) {
        if y < y2 || (y == y2 && (m < m2 || (m == m2 && d < d2))) {
            lemma_later_date(y, m, d, y2, m2, d2);
        } else {
            lemma_later_date(y2, m2, d2, y, m, d);
        }
    }
}

// ── chrono ──────────────────────────────────────────────────────────────────

/// What `chrono::DateTime::to_rfc3339` writes for the instant `secs` and
/// `nanos` at a fixed offset.
pub uninterp spec fn rfc3339_text(secs: int, nanos: int, offset: int) -> Seq<char>;

/// The instant that `chrono::DateTime::parse_from_rfc3339` reads in `text`, as
/// seconds and nanoseconds; `None` if it finds no RFC 3339 time there.
pub uninterp spec fn parsed_instant(text: Seq<char>) -> Option<(int, int)>;

/// `chrono::DateTime::<FixedOffset>::to_rfc3339`. The text begins with
/// `YYYY-MM-DD` exactly when the local year is one of 0 to 9999, and is then
/// made of the local date, the local time and the offset; other years are
/// written with a sign. Such a text, at an offset of whole minutes, is read
/// back by `DateTime::parse_from_rfc3339` as the same instant.
#[verifier::external_body]
fn rfc3339(secs: i64, nanos: u32, offset: i32) -> (r: String)
    requires
        secs_valid(secs as int),
        nanos < NANOS_PER_SEC,
        offset_valid(offset as int),
    ensures
        r@ == rfc3339_text(secs as int, nanos as int, offset as int),
        has_date_prefix(r@) == (-62_167_219_200 <= secs + offset <= 253_402_300_799),
        has_date_prefix(r@) ==> is_rfc3339(r@, secs as int, nanos as int, offset as int),
        has_date_prefix(r@) && offset % 60 == 0 ==> parsed_instant(r@) == Some(
            (secs as int, nanos as int),
        ),
{
    let zone = FixedOffset::east_opt(offset).unwrap();
    DateTime::from_timestamp(secs, nanos).unwrap().with_timezone(&zone).to_rfc3339()
}

/// `chrono::DateTime::parse_from_rfc3339`: the instant that the text names, as
/// seconds and nanoseconds. The instant lies in the calendar; in a leap second
/// it has a billion nanoseconds or more, but less than two.
#[verifier::external_body]
fn parse_rfc3339(text: &str) -> (r: Option<(i64, u32)>)
    ensures
        match r {
            Some(t) => parsed_instant(text@) == Some((t.0 as int, t.1 as int)) && secs_valid(
                t.0 as int,
            ) && t.1 < 2_000_000_000,
            None => parsed_instant(text@) is None,
        },
{
    let parsed = DateTime::parse_from_rfc3339(text).ok();
    parsed.map(|t| (t.timestamp(), t.timestamp_subsec_nanos()))
}

/// `chrono::DateTime::from_timestamp_millis`: the instant `millis`
/// milliseconds after 1970-01-01T00:00:00Z as seconds and nanoseconds, or
/// `None` outside the calendar.
#[verifier::external_body]
pub(crate) fn instant_of_millis(millis: i64) -> (r: Option<(i64, u32)>)
    ensures
        match r {
            Some(t) => t.0 == millis as int / 1000 && t.1 == (millis as int % 1000) * 1_000_000,
            None => true,
        },
        r is Some == secs_valid(millis as int / 1000),
{
    DateTime::from_timestamp_millis(millis).map(|t| (t.timestamp(), t.timestamp_subsec_nanos()))
}

/// The offset that `chrono::Local` gives for the instant `secs`, in the time
/// zone that the machine is set to. Which one that is cannot be said here; it
/// is less than a day.
#[verifier::external_body]
pub(crate) fn zone_offset(secs: i64) -> (r: i32)
    requires
        secs_valid(secs as int),
    ensures
        offset_valid(r as int),
{
    let at = DateTime::from_timestamp(secs, 0).unwrap().naive_utc();
    Local.offset_from_utc_datetime(&at).local_minus_utc()
}

// ── laws ────────────────────────────────────────────────────────────────────

/// Times between moments are counted in whole seconds and milliseconds, without
/// what is left over, forwards and backwards alike.
pub proof fn law_times_are_whole(a: Moment, b: Moment)
    requires
        a.valid(),
        b.valid(),
        a.ns() <= b.ns(),
    ensures
        ({
            let ns = (b.secs - a.secs) * 1_000_000_000 + (b.nanos - a.nanos);
            &&& b.secs_after(a) * 1_000_000_000 <= ns < (b.secs_after(a) + 1) * 1_000_000_000
            &&& b.millis_after(a) * 1_000_000 <= ns < (b.millis_after(a) + 1) * 1_000_000
            &&& a.secs_after(b) == -b.secs_after(a)
            &&& a.millis_after(b) == -b.millis_after(a)
        }),
{
}

/// A moment without a leap second is as old as the time between the two, and a
/// text that carries it tells that age.
pub proof fn law_age_is_the_time_between(text: Seq<char>, then: Moment, now: Moment)
    requires
        then.valid(),
        now.valid(),
        parsed_instant(text) == Some((then.secs as int, then.nanos as int)),
    ensures
        age_of(text, now) == Some(now.secs_after(then)),
{
}

} // verus!
