//! Ad observation stream: the extension's opt-in page observer.
//!
//! One file per local day, keyed by the day the ad record closed, in
//! `browser/ads`. The extension ships raw URLs and epoch timestamps; network
//! and advertiser are derived here, when the record is appended.
//!
//! The opt-in resolver reads the "Paid for by" line off the transparency page
//! that an ad's own link names. Which pages to fetch is decided here; the
//! fetching is the caller's.

use crate::browser::domain_of;
use crate::json::{
    push_kept_flag_field, push_kept_number_field, push_kept_text_field, push_raw,
    push_seconds, push_text_field,
};
use crate::moment::{instant_of_millis, zone_offset, Moment};
use crate::text::{
    before_any, begins_with, chars_of, find, holds, is_alphanumeric, last_before, owned, replace,
    same_text, text_of, trim,
};
use crate::vault::{DayAppend, DayRow, RowView, Vault, VaultError};
use crate::{browser, json, moment, text, vault};
use vstd::prelude::*;

verus! {

/// Cap on transparency fetches per batch of ads.
pub const MAX_RESOLVE_PER_BATCH: u32 = 25;

/// Vault-relative cache of resolved identities, keyed by [`why_token`].
pub const IDENTITY_CACHE: &'static str = "browser/ads/.identities.json";

/// One closed ad record as the extension ships it.
#[derive(Debug, Clone)]
pub struct AdEvent {
    pub ts_ms: i64,
    pub end_ms: i64,
    pub page_url: String,
    pub frame_url: String,
    pub landing_url: String,
    /// Matched prefix of the ad slot's name: says the network where there is
    /// no frame URL.
    pub slot: String,
    /// Reported viewing time in milliseconds, rounded up.
    pub viewed_ms: i64,
    /// Reported viewing time in seconds, as a JSON number.
    pub viewed_json: String,
    pub viewable: bool,
    pub w: u32,
    pub h: u32,
    /// The ad's transparency URL, if it has one. Never stored.
    pub why_url: String,
}

/// One stored ad record.
#[derive(Debug, Clone)]
pub struct AdRecord {
    pub ts: String,
    pub end: String,
    pub page_url: String,
    pub frame_url: String,
    pub landing_url: String,
    pub network: String,
    pub advertiser: String,
    pub advertiser_id: String,
    /// Viewing time in seconds, as a JSON number; empty if there was none.
    pub viewed_json: String,
    pub viewable: bool,
    pub w: u32,
    pub h: u32,
    pub source: String,
}

/// Who paid for an ad.
#[derive(Debug, Clone)]
pub struct AdIdentity {
    /// The display name. Empty means that the page names nobody, which is kept
    /// so that it is not fetched again.
    pub name: String,
    pub ad_id: String,
}

// ── the model ───────────────────────────────────────────────────────────────

#[verifier::ext_equal]
pub struct AdEventView {
    pub ts_ms: i64,
    pub end_ms: i64,
    pub page_url: Seq<char>,
    pub frame_url: Seq<char>,
    pub landing_url: Seq<char>,
    pub slot: Seq<char>,
    pub viewed_ms: i64,
    pub viewed_json: Seq<char>,
    pub viewable: bool,
    pub w: u32,
    pub h: u32,
    pub why_url: Seq<char>,
}

#[verifier::ext_equal]
pub struct AdRecordView {
    pub ts: Seq<char>,
    pub end: Seq<char>,
    pub page_url: Seq<char>,
    pub frame_url: Seq<char>,
    pub landing_url: Seq<char>,
    pub network: Seq<char>,
    pub advertiser: Seq<char>,
    pub advertiser_id: Seq<char>,
    pub viewed_json: Seq<char>,
    pub viewable: bool,
    pub w: u32,
    pub h: u32,
    pub source: Seq<char>,
}

#[verifier::ext_equal]
pub struct IdentityView {
    pub name: Seq<char>,
    pub ad_id: Seq<char>,
}

impl View for AdEvent {
    type V = AdEventView;

    open spec fn view(&self) -> AdEventView {
        AdEventView {
            ts_ms: self.ts_ms,
            end_ms: self.end_ms,
            page_url: self.page_url@,
            frame_url: self.frame_url@,
            landing_url: self.landing_url@,
            slot: self.slot@,
            viewed_ms: self.viewed_ms,
            viewed_json: self.viewed_json@,
            viewable: self.viewable,
            w: self.w,
            h: self.h,
            why_url: self.why_url@,
        }
    }
}

impl View for AdRecord {
    type V = AdRecordView;

    open spec fn view(&self) -> AdRecordView {
        AdRecordView {
            ts: self.ts@,
            end: self.end@,
            page_url: self.page_url@,
            frame_url: self.frame_url@,
            landing_url: self.landing_url@,
            network: self.network@,
            advertiser: self.advertiser@,
            advertiser_id: self.advertiser_id@,
            viewed_json: self.viewed_json@,
            viewable: self.viewable,
            w: self.w,
            h: self.h,
            source: self.source@,
        }
    }
}

impl View for AdIdentity {
    type V = IdentityView;

    open spec fn view(&self) -> IdentityView {
        IdentityView { name: self.name@, ad_id: self.ad_id@ }
    }
}

// ── networks and advertisers ────────────────────────────────────────────────

/// Where the last `n` labels of the host `s` begin: behind the `n`-th dot from
/// the end, or at the start if there are fewer.
pub open spec fn labels_start(s: Seq<char>, n: nat) -> int
    decreases n,
{
    match text::last_position(s, '.') {
        None => 0,
        Some(i) => if n <= 1 {
            i + 1
        } else {
            labels_start(s.take(i), (n - 1) as nat)
        },
    }
}

/// The last `n` labels of the host `s`, or all of them if there are fewer.
pub open spec fn last_labels(s: Seq<char>, n: nat) -> Seq<char> {
    s.skip(labels_start(s, n))
}

/// Two-part public suffixes seen on ad and advertiser domains.
pub open spec fn is_two_part_suffix(s: Seq<char>) -> bool {
    ||| s == "co.uk"@
    ||| s == "com.au"@
    ||| s == "co.jp"@
    ||| s == "co.kr"@
    ||| s == "com.br"@
    ||| s == "co.in"@
    ||| s == "com.tr"@
    ||| s == "net.au"@
    ||| s == "co.nz"@
}

/// The registrable domain of a URL: the last two labels of its host, three
/// where the two are a public suffix; nothing for a host without a dot.
pub open spec fn registrable_text(url: Seq<char>) -> Seq<char> {
    let host = browser::domain_text(url);
    if !host.contains('.') {
        Seq::empty()
    } else if is_two_part_suffix(last_labels(host, 2)) {
        last_labels(host, 3)
    } else {
        last_labels(host, 2)
    }
}

/// The slot names that belong to Google.
pub open spec fn is_google_slot(slot: Seq<char>) -> bool {
    ||| text::has_prefix(slot, "google_ads_iframe"@)
    ||| text::has_prefix(slot, "aswift_"@)
    ||| text::has_prefix(slot, "div-gpt-ad"@)
}

/// The network of an ad: the registrable domain of its frame, or else what its
/// slot says.
pub open spec fn network_text(frame_url: Seq<char>, slot: Seq<char>) -> Seq<char> {
    let from_frame = registrable_text(frame_url);
    if from_frame.len() > 0 {
        from_frame
    } else if is_google_slot(slot) {
        "google"@
    } else {
        "unknown"@
    }
}

fn last_labels_of(host: &str, n: u32) -> (r: String)
    ensures
        r@ == last_labels(host@, n as nat),
{
    let v = chars_of(host);
    let mut end: usize = v.len();
    let mut left: u32 = n;
    assert(v@.take(v@.len() as int) =~= v@);
    loop
        invariant
            end <= v@.len(),
            v@ == host@,
            labels_start(v@, n as nat) == labels_start(v@.take(end as int), left as nat),
        decreases left,
    {
        match last_before(&v, end, '.') {
            None => {
                assert(v@.subrange(0, v@.len() as int) =~= v@.skip(0));
                return text_of(&v, 0, v.len());
            },
            Some(i) => {
                if left <= 1 {
                    assert(v@.subrange(i + 1, v@.len() as int) =~= v@.skip(i + 1));
                    return text_of(&v, i + 1, v.len());
                }
                assert(v@.take(end as int).take(i as int) =~= v@.take(i as int));
                end = i;
                left = left - 1;
            },
        }
    }
}

fn two_part_suffix(s: &str) -> (r: bool)
    ensures
        r == is_two_part_suffix(s@),
{
    same_text(s, "co.uk") || same_text(s, "com.au") || same_text(s, "co.jp") || same_text(
        s,
        "co.kr",
    ) || same_text(s, "com.br") || same_text(s, "co.in") || same_text(s, "com.tr") || same_text(
        s,
        "net.au",
    ) || same_text(s, "co.nz")
}

/// Registrable domain of a URL.
pub fn registrable_of(url: &str) -> (r: String)
    ensures
        r@ == registrable_text(url@),
{
    let host = domain_of(url);
    if !holds(&chars_of(host.as_str()), '.') {
        return String::new();
    }
    let two = last_labels_of(host.as_str(), 2);
    if two_part_suffix(two.as_str()) {
        last_labels_of(host.as_str(), 3)
    } else {
        two
    }
}

/// Network of an ad, by its frame or its slot.
pub fn network_of(frame_url: &str, slot: &str) -> (r: String)
    ensures
        r@ == network_text(frame_url@, slot@),
{
    let from_frame = registrable_of(frame_url);
    if !from_frame.as_str().is_empty() {
        return from_frame;
    }
    if begins_with(slot, "google_ads_iframe") || begins_with(slot, "aswift_") || begins_with(
        slot,
        "div-gpt-ad",
    ) {
        return owned("google");
    }
    owned("unknown")
}

// ── records ─────────────────────────────────────────────────────────────────

/// The moment `millis` after 1970-01-01T00:00:00Z at an offset, or `fallback`
/// where the calendar has no such moment, but never later than `latest`.
pub open spec fn bounded(millis: i64, offset: i32, fallback: Moment, latest: Moment) -> Moment {
    let secs = millis as int / 1000;
    let m = if moment::secs_valid(secs) {
        Moment {
            secs: secs as i64,
            nanos: ((millis as int % 1000) * 1_000_000) as u32,
            offset,
        }
    } else {
        fallback
    };
    if latest.ns() < m.ns() {
        latest
    } else {
        m
    }
}

/// When the ad closed, and when it was first seen.
pub open spec fn ad_end(e: AdEventView, received: Moment, offset: i32) -> Moment {
    bounded(e.end_ms, offset, received, received)
}

pub open spec fn ad_start(e: AdEventView, end: Moment, offset: i32) -> Moment {
    bounded(e.ts_ms, offset, end, end)
}

/// The viewing time of a record, as a JSON number: what was reported, but not
/// more than the record's span; nothing if it is zero or less.
pub open spec fn viewed_text(e: AdEventView, span_ms: int) -> Seq<char> {
    if e.viewed_ms <= 0 || span_ms <= 0 {
        Seq::empty()
    } else if e.viewed_ms > span_ms {
        json::seconds_text(span_ms)
    } else {
        e.viewed_json
    }
}

/// The record of an ad that arrived at `received`, in a zone that has
/// `end_offset` where the ad closed and `start_offset` where it was first seen.
pub open spec fn record_of(
    e: AdEventView,
    received: Moment,
    end_offset: i32,
    start_offset: i32,
) -> AdRecordView {
    let end = ad_end(e, received, end_offset);
    let start = ad_start(e, end, start_offset);
    AdRecordView {
        ts: start.text(),
        end: end.text(),
        page_url: e.page_url,
        frame_url: e.frame_url,
        landing_url: e.landing_url,
        network: network_text(e.frame_url, e.slot),
        advertiser: registrable_text(e.landing_url),
        advertiser_id: Seq::empty(),
        viewed_json: viewed_text(e, end.millis_after(start)),
        viewable: e.viewable,
        w: e.w,
        h: e.h,
        source: "extension"@,
    }
}

/// `r` is the record of `e` in some zone, and names the day on which the ad
/// closed if that lies in a year of four digits.
pub open spec fn is_record_of(e: AdEventView, received: Moment, r: AdRecordView) -> bool {
    exists|end_offset: i32, start_offset: i32|
        moment::offset_valid(end_offset as int) && moment::offset_valid(start_offset as int) && r
            == #[trigger] record_of(e, received, end_offset, start_offset)
            && moment::has_date_prefix(r.end) == ad_end(e, received, end_offset).four_digit_year()
}

fn bounded_at(millis: i64, offset: i32, fallback: Moment, latest: Moment) -> (r: Moment)
    requires
        moment::offset_valid(offset as int),
        fallback.valid(),
        latest.valid(),
    ensures
        r == bounded(millis, offset, fallback, latest),
        r.valid(),
{
    let m = match instant_of_millis(millis) {
        Some((secs, nanos)) => Moment { secs, nanos, offset },
        None => fallback,
    };
    if latest.before(&m) {
        latest
    } else {
        m
    }
}

/// The offset of the local zone at `millis`; where the calendar has no such
/// moment the answer plays no part.
fn offset_at(millis: i64) -> (r: i32)
    ensures
        moment::offset_valid(r as int),
{
    match instant_of_millis(millis) {
        Some((secs, _)) => zone_offset(secs),
        None => 0,
    }
}

impl AdEvent {
    /// The stored record, for given offsets of the local zone.
    pub fn into_record_at(
        &self,
        received: Moment,
        end_offset: i32,
        start_offset: i32,
    ) -> (r: AdRecord)
        requires
            received.valid(),
            moment::offset_valid(end_offset as int),
            moment::offset_valid(start_offset as int),
        ensures
            r@ == record_of(self@, received, end_offset, start_offset),
            moment::has_date_prefix(r.end@) == ad_end(
                self@,
                received,
                end_offset,
            ).four_digit_year(),
            json::unbroken(self.viewed_json@) ==> json::unbroken(r.viewed_json@),
    {
        let end = bounded_at(self.end_ms, end_offset, received, received);
        let start = bounded_at(self.ts_ms, start_offset, end, end);
        let span: i64 = end.millis_since(&start);
        let viewed_json = if self.viewed_ms <= 0 || span <= 0 {
            String::new()
        } else if self.viewed_ms > span {
            let mut t = String::new();
            push_seconds(&mut t, span);
            assert(t@ =~= json::seconds_text(span as int));
            t
        } else {
            self.viewed_json.clone()
        };
        let r = AdRecord {
            ts: start.to_rfc3339(),
            end: end.to_rfc3339(),
            page_url: self.page_url.clone(),
            frame_url: self.frame_url.clone(),
            landing_url: self.landing_url.clone(),
            network: network_of(self.frame_url.as_str(), self.slot.as_str()),
            advertiser: registrable_of(self.landing_url.as_str()),
            advertiser_id: String::new(),
            viewed_json,
            viewable: self.viewable,
            w: self.w,
            h: self.h,
            source: owned("extension"),
        };
        assert(r@ =~= record_of(self@, received, end_offset, start_offset));
        r
    }

    /// The stored record, with its timestamps bounded by the time of arrival:
    /// a wrong browser clock must not file records in the future.
    pub fn into_record(&self, received: Moment) -> (r: AdRecord)
        requires
            received.valid(),
        ensures
            is_record_of(self@, received, r@),
            json::unbroken(self.viewed_json@) ==> json::unbroken(r.viewed_json@),
    {
        let end_offset: i32 = offset_at(self.end_ms);
        let start_offset: i32 = offset_at(self.ts_ms);
        self.into_record_at(received, end_offset, start_offset)
    }
}

/// The line of an ad record, without its line end. What is empty, zero or
/// false among the optional fields is left out.
pub open spec fn record_line(r: AdRecordView) -> Seq<char> {
    json::text_field("{\"ts\":"@, r.ts) + json::text_field(",\"end\":"@, r.end) + json::text_field(
        ",\"page_url\":"@,
        r.page_url,
    ) + json::kept_text_field(",\"frame_url\":"@, r.frame_url) + json::kept_text_field(
        ",\"landing_url\":"@,
        r.landing_url,
    ) + json::text_field(",\"network\":"@, r.network) + json::kept_text_field(
        ",\"advertiser\":"@,
        r.advertiser,
    ) + json::kept_text_field(",\"advertiser_id\":"@, r.advertiser_id) + viewed_field(
        r.viewed_json,
    ) + json::kept_flag_field(",\"viewable\":"@, r.viewable) + json::kept_number_field(
        ",\"w\":"@,
        r.w as int,
    ) + json::kept_number_field(",\"h\":"@, r.h as int) + json::text_field(
        ",\"source\":"@,
        r.source,
    ) + "}"@
}

/// The viewing time, left out where there was none.
pub open spec fn viewed_field(viewed_json: Seq<char>) -> Seq<char> {
    if viewed_json.len() == 0 {
        Seq::empty()
    } else {
        ",\"viewed_secs\":"@ + viewed_json
    }
}

impl AdRecord {
    /// The line of this record in its day file.
    pub fn to_line(&self) -> (r: String)
        ensures
            r@ == record_line(self@),
            json::unbroken(self.viewed_json@) ==> json::is_line(r@),
    {
        proof {
            reveal_strlit("{\"ts\":");
            reveal_strlit(",\"end\":");
            reveal_strlit(",\"page_url\":");
            reveal_strlit(",\"frame_url\":");
            reveal_strlit(",\"landing_url\":");
            reveal_strlit(",\"network\":");
            reveal_strlit(",\"advertiser\":");
            reveal_strlit(",\"advertiser_id\":");
            reveal_strlit(",\"viewed_secs\":");
            reveal_strlit(",\"viewable\":");
            reveal_strlit(",\"w\":");
            reveal_strlit(",\"h\":");
            reveal_strlit(",\"source\":");
            reveal_strlit("}");
        }
        let mut out = String::new();
        push_text_field(&mut out, "{\"ts\":", self.ts.as_str());
        assert(out@ =~= json::text_field("{\"ts\":"@, self.ts@));
        push_text_field(&mut out, ",\"end\":", self.end.as_str());
        push_text_field(&mut out, ",\"page_url\":", self.page_url.as_str());
        push_kept_text_field(&mut out, ",\"frame_url\":", self.frame_url.as_str());
        push_kept_text_field(&mut out, ",\"landing_url\":", self.landing_url.as_str());
        push_text_field(&mut out, ",\"network\":", self.network.as_str());
        push_kept_text_field(&mut out, ",\"advertiser\":", self.advertiser.as_str());
        push_kept_text_field(&mut out, ",\"advertiser_id\":", self.advertiser_id.as_str());
        let ghost before = out@;
        if !self.viewed_json.as_str().is_empty() {
            push_raw(&mut out, ",\"viewed_secs\":");
            push_raw(&mut out, self.viewed_json.as_str());
        }
        assert(out@ =~= before + viewed_field(self.viewed_json@));
        push_kept_flag_field(&mut out, ",\"viewable\":", self.viewable);
        push_kept_number_field(&mut out, ",\"w\":", self.w as u64);
        push_kept_number_field(&mut out, ",\"h\":", self.h as u64);
        push_text_field(&mut out, ",\"source\":", self.source.as_str());
        push_raw(&mut out, "}");
        out
    }
}

// ── identities ──────────────────────────────────────────────────────────────

/// The cache key of a transparency URL: its `reasons` token if it has one that
/// is not empty, else the whole URL.
pub open spec fn token_text(why_url: Seq<char>) -> Seq<char> {
    match text::find_from(why_url, "reasons="@, 0) {
        Some(i) => {
            let token = text::cut_at(why_url.skip(i + 8), seq!['&']);
            if token.len() == 0 {
                why_url
            } else {
                token
            }
        },
        None => why_url,
    }
}

/// What stands in `s` between the first `start` and the next `end`.
pub open spec fn text_between(s: Seq<char>, start: Seq<char>, end: Seq<char>) -> Option<Seq<char>> {
    match text::find_from(s, start, 0) {
        Some(i) => match text::find_from(s, end, i + start.len()) {
            Some(j) => Some(s.subrange(i + start.len(), j)),
            None => None,
        },
        None => None,
    }
}

/// `s` with the common HTML escapes undone, one kind after the other.
pub open spec fn unescaped(s: Seq<char>) -> Seq<char> {
    let a = text::replaced(s, "&amp;"@, "&"@);
    let b = text::replaced(a, "&#39;"@, "'"@);
    let c = text::replaced(b, "&#x27;"@, "'"@);
    let d = text::replaced(c, "&quot;"@, "\""@);
    let e = text::replaced(d, "&lt;"@, "<"@);
    text::replaced(e, "&gt;"@, ">"@)
}

/// The first position at or after `from` without an ASCII letter or digit.
pub open spec fn alphanumeric_end(s: Seq<char>, from: int) -> int
    decreases s.len() - from,
{
    if from >= s.len() || !text::is_alphanumeric_char(s[from]) {
        from
    } else {
        alphanumeric_end(s, from + 1)
    }
}

/// The advertiser id that a page links to: letters and digits that begin with
/// `AR`, or nothing.
pub open spec fn advertiser_id_text(html: Seq<char>) -> Seq<char> {
    let lead = "adstransparency.google.com/advertiser/"@;
    let found = match text_between(html, lead, "?"@) {
        Some(s) => Some(s),
        None => text_between(html, lead, "\""@),
    };
    match found {
        Some(s) => {
            let id = s.take(alphanumeric_end(s, 0));
            if text::has_prefix(id, "AR"@) {
                id
            } else {
                Seq::empty()
            }
        },
        None => Seq::empty(),
    }
}

/// Who paid for the ad, by its transparency page.
pub open spec fn identity_of(html: Seq<char>) -> Option<IdentityView> {
    match text_between(html, "Paid for by "@, "<"@) {
        Some(payer) => {
            let name = unescaped(text::trimmed(payer));
            if name.len() == 0 {
                None
            } else {
                Some(IdentityView { name, ad_id: advertiser_id_text(html) })
            }
        },
        None => None,
    }
}

/// Stable cache key for a transparency URL.
pub fn why_token(why_url: &str) -> (r: String)
    ensures
        r@ == token_text(why_url@),
{
    proof {
        reveal_strlit("reasons=");
    }
    let v = chars_of(why_url);
    let len: usize = v.len();
    match find(&v, "reasons=", 0) {
        Some(i) => {
            let rest = text_of(&v, i + 8, len);
            assert(rest@ =~= why_url@.skip(i + 8));
            let mut stops: Vec<char> = Vec::new();
            stops.push('&');
            assert(stops@ =~= seq!['&']);
            let token = before_any(rest.as_str(), stops);
            if token.as_str().is_empty() {
                owned(why_url)
            } else {
                token
            }
        },
        None => owned(why_url),
    }
}

/// What stands between the first `start` and the next `end`.
pub fn between(v: &Vec<char>, start: &str, end: &str) -> (r: Option<String>)
    ensures
        match r {
            Some(t) => text_between(v@, start@, end@) == Some(t@),
            None => text_between(v@, start@, end@) is None,
        },
{
    let len: usize = v.len();
    match find(v, start, 0) {
        Some(i) => {
            assert(i + start@.len() <= len);
            let from: usize = i + chars_of(start).len();
            match find(v, end, from) {
                Some(j) => Some(text_of(v, from, j)),
                None => None,
            }
        },
        None => None,
    }
}

/// Undo the common HTML escapes.
pub fn html_unescape(s: &str) -> (r: String)
    ensures
        r@ == unescaped(s@),
{
    proof {
        reveal_strlit("&amp;");
        reveal_strlit("&#39;");
        reveal_strlit("&#x27;");
        reveal_strlit("&quot;");
        reveal_strlit("&lt;");
        reveal_strlit("&gt;");
    }
    let a = replace(s, "&amp;", "&");
    let b = replace(a.as_str(), "&#39;", "'");
    let c = replace(b.as_str(), "&#x27;", "'");
    let d = replace(c.as_str(), "&quot;", "\"");
    let e = replace(d.as_str(), "&lt;", "<");
    replace(e.as_str(), "&gt;", ">")
}

fn leading_alphanumerics(s: &str) -> (r: String)
    ensures
        r@ == s@.take(alphanumeric_end(s@, 0)),
{
    let v = chars_of(s);
    let mut i: usize = 0;
    while i < v.len() && is_alphanumeric(v[i])
        invariant
            i <= v@.len(),
            alphanumeric_end(v@, 0) == alphanumeric_end(v@, i as int),
        decreases v@.len() - i,
    {
        i = i + 1;
    }
    assert(v@.subrange(0, i as int) =~= v@.take(i as int));
    text_of(&v, 0, i)
}

/// The identity that a transparency page shows.
pub fn parse_identity(html: &str) -> (r: Option<AdIdentity>)
    ensures
        match r {
            Some(i) => identity_of(html@) == Some(i@),
            None => identity_of(html@) is None,
        },
{
    let v = chars_of(html);
    let payer = match between(&v, "Paid for by ", "<") {
        Some(p) => p,
        None => {
            return None;
        },
    };
    let name = html_unescape(trim(payer.as_str()).as_str());
    if name.as_str().is_empty() {
        return None;
    }
    let found = match between(&v, "adstransparency.google.com/advertiser/", "?") {
        Some(s) => Some(s),
        None => between(&v, "adstransparency.google.com/advertiser/", "\""),
    };
    let ad_id = match found {
        Some(s) => {
            let id = leading_alphanumerics(s.as_str());
            if begins_with(id.as_str(), "AR") {
                id
            } else {
                String::new()
            }
        },
        None => String::new(),
    };
    assert(ad_id@ =~= advertiser_id_text(html@));
    Some(AdIdentity { name, ad_id })
}

// ── resolving ───────────────────────────────────────────────────────────────

/// A resolved identity under its cache key.
#[derive(Debug, Clone)]
pub struct CachedIdentity {
    pub token: String,
    pub identity: AdIdentity,
}

/// A batch of ads on its way into the stream: the records, and how far the
/// resolver has come with them.
pub struct AdBatch {
    events: Vec<AdEvent>,
    records: Vec<AdRecord>,
    cache: Vec<CachedIdentity>,
    at: usize,
    fetched: u32,
    changed: bool,
}

#[verifier::ext_equal]
pub struct CachedView {
    pub token: Seq<char>,
    pub identity: IdentityView,
}

#[verifier::ext_equal]
pub struct BatchView {
    pub events: Seq<AdEventView>,
    pub records: Seq<AdRecordView>,
    /// What is known of whom.
    pub cache: Seq<CachedView>,
    /// The records before this one are done.
    pub at: int,
    pub fetched: int,
    /// The cache holds something new.
    pub changed: bool,
}

impl View for CachedIdentity {
    type V = CachedView;

    open spec fn view(&self) -> CachedView {
        CachedView { token: self.token@, identity: self.identity@ }
    }
}

pub open spec fn event_views(v: Seq<AdEvent>) -> Seq<AdEventView> {
    Seq::new(v.len(), |i: int| v[i]@)
}

pub open spec fn record_views(v: Seq<AdRecord>) -> Seq<AdRecordView> {
    Seq::new(v.len(), |i: int| v[i]@)
}

pub open spec fn cache_views(v: Seq<CachedIdentity>) -> Seq<CachedView> {
    Seq::new(v.len(), |i: int| v[i]@)
}

impl View for AdBatch {
    type V = BatchView;

    closed spec fn view(&self) -> BatchView {
        BatchView {
            events: event_views(self.events@),
            records: record_views(self.records@),
            cache: cache_views(self.cache@),
            at: self.at as int,
            fetched: self.fetched as int,
            changed: self.changed,
        }
    }
}

/// What the cache knows under `token`.
pub open spec fn known(cache: Seq<CachedView>, token: Seq<char>) -> Option<IdentityView>
    decreases cache.len(),
{
    if cache.len() == 0 {
        None
    } else {
        match known(cache.drop_last(), token) {
            Some(id) => Some(id),
            None => if cache.last().token == token {
                Some(cache.last().identity)
            } else {
                None
            },
        }
    }
}

/// The record with the advertiser that the identity names, if it names one.
pub open spec fn overlaid(r: AdRecordView, id: IdentityView) -> AdRecordView {
    if id.name.len() == 0 {
        r
    } else {
        AdRecordView { advertiser: id.name, advertiser_id: id.ad_id, ..r }
    }
}

impl BatchView {
    pub open spec fn valid(self) -> bool {
        &&& self.records.len() == self.events.len()
        &&& 0 <= self.at <= self.records.len()
        &&& 0 <= self.fetched <= MAX_RESOLVE_PER_BATCH
    }

    /// The key under which the current record's page is kept.
    pub open spec fn token(self) -> Seq<char> {
        token_text(self.events[self.at].why_url)
    }

    /// The current record has a transparency page and no advertiser yet: one
    /// that the landing page gave is the clearer signal.
    pub open spec fn wants(self) -> bool {
        &&& 0 <= self.at < self.records.len()
        &&& self.events[self.at].why_url.len() > 0
        &&& self.records[self.at].advertiser.len() == 0
    }

    /// The current record's page has to be fetched.
    pub open spec fn asks(self) -> bool {
        &&& self.wants()
        &&& known(self.cache, self.token()) is None
        &&& self.fetched < MAX_RESOLVE_PER_BATCH
    }

    /// The current record done without a fetch.
    pub open spec fn stepped(self) -> BatchView {
        BatchView {
            records: if self.wants() {
                match known(self.cache, self.token()) {
                    Some(id) => self.records.update(self.at, overlaid(self.records[self.at], id)),
                    None => self.records,
                }
            } else {
                self.records
            },
            at: self.at + 1,
            ..self
        }
    }

    /// All records done up to the first that asks for a page.
    pub open spec fn advanced(self) -> BatchView
        decreases self.records.len() - self.at,
    {
        if self.at >= self.records.len() || self.asks() {
            self
        } else {
            self.stepped().advanced()
        }
    }

    /// The current record done with what came of the fetch. That nothing came
    /// is kept too.
    pub open spec fn answered(self, got: Option<IdentityView>) -> BatchView {
        let id = match got {
            Some(id) => id,
            None => IdentityView { name: Seq::empty(), ad_id: Seq::empty() },
        };
        BatchView {
            records: self.records.update(self.at, overlaid(self.records[self.at], id)),
            cache: self.cache.push(CachedView { token: self.token(), identity: id }),
            at: self.at + 1,
            fetched: self.fetched + 1,
            changed: true,
            ..self
        }
    }
}

fn look_up(cache: &Vec<CachedIdentity>, token: &str) -> (r: Option<usize>)
    ensures
        match r {
            Some(i) => i < cache@.len() && known(cache_views(cache@), token@) == Some(
                cache@[i as int].identity@,
            ),
            None => known(cache_views(cache@), token@) is None,
        },
{
    let ghost all = cache_views(cache@);
    let mut i: usize = 0;
    assert(all.take(0) =~= Seq::empty());
    while i < cache.len()
        invariant
            i <= cache@.len(),
            all == cache_views(cache@),
            known(all.take(i as int), token@) is None,
        decreases cache@.len() - i,
    {
        assert(all.take(i + 1).drop_last() =~= all.take(i as int));
        assert(all.take(i + 1).last() == cache@[i as int]@);
        if same_text(cache[i].token.as_str(), token) {
            proof {
                lemma_known_stays(all, i + 1, token@);
            }
            return Some(i);
        }
        i = i + 1;
    }
    assert(all.take(all.len() as int) =~= all);
    None
}

proof fn lemma_known_stays(cache: Seq<CachedView>, n: int, token: Seq<char>)
    requires
        0 <= n <= cache.len(),
        known(cache.take(n), token) is Some,
    ensures
        known(cache, token) == known(cache.take(n), token),
    decreases cache.len(),
{
    if n < cache.len() {
        assert(cache.drop_last().take(n) =~= cache.take(n));
        lemma_known_stays(cache.drop_last(), n, token);
    } else {
        assert(cache.take(n) =~= cache);
    }
}

fn overlay(r: &AdRecord, id: &AdIdentity) -> (o: AdRecord)
    ensures
        o@ == overlaid(r@, id@),
{
    let named = !id.name.as_str().is_empty();
    AdRecord {
        ts: r.ts.clone(),
        end: r.end.clone(),
        page_url: r.page_url.clone(),
        frame_url: r.frame_url.clone(),
        landing_url: r.landing_url.clone(),
        network: r.network.clone(),
        advertiser: if named {
            id.name.clone()
        } else {
            r.advertiser.clone()
        },
        advertiser_id: if named {
            id.ad_id.clone()
        } else {
            r.advertiser_id.clone()
        },
        viewed_json: r.viewed_json.clone(),
        viewable: r.viewable,
        w: r.w,
        h: r.h,
        source: r.source.clone(),
    }
}

impl AdBatch {
    /// A batch of these records; without `resolve` its records stay as they
    /// are.
    pub fn of(
        events: Vec<AdEvent>,
        records: Vec<AdRecord>,
        cache: Vec<CachedIdentity>,
        resolve: bool,
    ) -> (r: AdBatch)
        requires
            events@.len() == records@.len(),
        ensures
            r@ == (BatchView {
                events: event_views(events@),
                records: record_views(records@),
                cache: cache_views(cache@),
                at: if resolve {
                    0
                } else {
                    records@.len() as int
                },
                fetched: 0,
                changed: false,
            }),
            r@.valid(),
    {
        let at: usize = if resolve {
            0
        } else {
            records.len()
        };
        AdBatch { events, records, cache, at, fetched: 0, changed: false }
    }

    /// The batch of the events that arrived at `received`.
    pub fn new(
        events: Vec<AdEvent>,
        received: Moment,
        cache: Vec<CachedIdentity>,
        resolve: bool,
    ) -> (r: AdBatch)
        requires
            received.valid(),
        ensures
            r@ == (BatchView {
                events: event_views(events@),
                records: r@.records,
                cache: cache_views(cache@),
                at: if resolve {
                    0
                } else {
                    events@.len() as int
                },
                fetched: 0,
                changed: false,
            }),
            forall|i: int|
                0 <= i < events@.len() ==> is_record_of(
                    events@[i]@,
                    received,
                    #[trigger] r@.records[i],
                ),
            r@.valid(),
    {
        let mut records: Vec<AdRecord> = Vec::new();
        let mut i: usize = 0;
        while i < events.len()
            invariant
                i <= events@.len(),
                records@.len() == i,
                received.valid(),
                forall|k: int|
                    0 <= k < i ==> is_record_of(events@[k]@, received, (#[trigger] records@[k])@),
            decreases events@.len() - i,
        {
            records.push(events[i].into_record(received));
            i = i + 1;
        }
        let ghost views = record_views(records@);
        assert forall|k: int| 0 <= k < events@.len() implies is_record_of(
            events@[k]@,
            received,
            #[trigger] views[k],
        ) by {
            assert(views[k] == records@[k]@);
        }
        AdBatch::of(events, records, cache, resolve)
    }

    /// Go on to the next page that has to be fetched, and name it. With `None`
    /// the batch is done; else [`AdBatch::answer`] is due.
    pub fn next_fetch(&mut self) -> (r: Option<String>)
        requires
            old(self)@.valid(),
        ensures
            final(self)@ == old(self)@.advanced(),
            match r {
                Some(url) => final(self)@.asks() && url@
                    == final(self)@.events[final(self)@.at].why_url,
                None => final(self)@.at == final(self)@.records.len(),
            },
            final(self)@.valid(),
    {
        let ghost pre = self@;
        while self.at < self.records.len()
            invariant
                self@.valid(),
                pre == old(self)@,
                pre.advanced() == self@.advanced(),
            decreases self@.records.len() - self@.at,
        {
            let at: usize = self.at;
            let ghost here = self@;
            assert(self.events@[at as int]@ == here.events[at as int]);
            assert(self.records@[at as int]@ == here.records[at as int]);
            if !self.events[at].why_url.as_str().is_empty()
                && self.records[at].advertiser.as_str().is_empty() {
                let token = why_token(self.events[at].why_url.as_str());
                match look_up(&self.cache, token.as_str()) {
                    Some(k) => {
                        let rec = overlay(&self.records[at], &self.cache[k].identity);
                        self.records.set(at, rec);
                        assert(record_views(self.records@) =~= here.records.update(
                            at as int,
                            rec@,
                        ));
                    },
                    None => {
                        if self.fetched < MAX_RESOLVE_PER_BATCH {
                            return Some(self.events[at].why_url.clone());
                        }
                    },
                }
            }
            self.at = at + 1;
            assert(self@ =~= here.stepped());
        }
        None
    }

    /// What came of the fetch that [`AdBatch::next_fetch`] named.
    pub fn answer(&mut self, got: Option<AdIdentity>)
        requires
            old(self)@.valid(),
            old(self)@.asks(),
        ensures
            final(self)@ == old(self)@.answered(
                match got {
                    Some(id) => Some(id@),
                    None => None,
                },
            ),
            final(self)@.valid(),
    {
        let ghost here = self@;
        let at: usize = self.at;
        let len: usize = self.records.len();
        assert(at < len);
        assert(self.events@[at as int]@ == here.events[at as int]);
        assert(self.records@[at as int]@ == here.records[at as int]);
        let identity = match got {
            Some(id) => id,
            None => AdIdentity { name: String::new(), ad_id: String::new() },
        };
        assert(got is None ==> identity@ =~= IdentityView {
            name: Seq::empty(),
            ad_id: Seq::empty(),
        });
        let token = why_token(self.events[at].why_url.as_str());
        let rec = overlay(&self.records[at], &identity);
        self.records.set(at, rec);
        assert(record_views(self.records@) =~= here.records.update(at as int, rec@));
        let entry = CachedIdentity { token, identity };
        self.cache.push(entry);
        assert(cache_views(self.cache@) =~= here.cache.push(entry@));
        self.fetched = self.fetched + 1;
        self.changed = true;
        self.at = at + 1;
    }

    /// The cache as it is to be kept, if it holds something new.
    pub fn new_cache(&self) -> (r: Option<&Vec<CachedIdentity>>)
        ensures
            match r {
                Some(c) => self@.changed && cache_views(c@) == self@.cache,
                None => !self@.changed,
            },
    {
        if self.changed {
            Some(&self.cache)
        } else {
            None
        }
    }
}

// ── the stream ──────────────────────────────────────────────────────────────

/// The rows of the stream `browser/ads`: each record on the day it closed.
pub open spec fn record_rows(records: Seq<AdRecordView>) -> Seq<RowView> {
    Seq::new(
        records.len(),
        |i: int| RowView { ts: records[i].end, line: record_line(records[i]) },
    )
}

impl Vault {
    /// Where the cache of resolved identities is.
    pub fn identity_cache_path(&self) -> (r: String)
        ensures
            r@ == vault::joined(self@, IDENTITY_CACHE@),
    {
        vault::join(self.root(), IDENTITY_CACHE)
    }

    /// Plan the append of a batch's records to the stream `browser/ads`.
    pub fn ingest_ad_events(&self, batch: &AdBatch) -> (r: Result<Vec<DayAppend>, VaultError>)
        ensures
            vault::appended(self@, "browser/ads"@, record_rows(batch@.records), true, r),
            r matches Err(e) ==> e is NoDatePrefix,
            (forall|i: int|
                0 <= i < batch@.records.len() ==> moment::has_date_prefix(
                    (#[trigger] batch@.records[i]).end,
                )) ==> r is Ok,
            r matches Ok(plan) ==> (forall|i: int|
                0 <= i < batch@.records.len() ==> json::unbroken(
                    (#[trigger] batch@.records[i]).viewed_json,
                )) ==> vault::reads_back(record_rows(batch@.records), plan@),
    {
        let records = &batch.records;
        let ghost all = record_rows(batch@.records);
        let ghost whole = forall|k: int|
            0 <= k < batch@.records.len() ==> json::unbroken(
                (#[trigger] batch@.records[k]).viewed_json,
            );
        let mut rows: Vec<DayRow> = Vec::new();
        let mut i: usize = 0;
        while i < records.len()
            invariant
                i <= records@.len(),
                batch@.records == record_views(records@),
                all == record_rows(batch@.records),
                vault::row_views(rows@) == all.take(i as int),
                whole ==> forall|k: int|
                    0 <= k < records@.len() ==> json::unbroken(
                        (#[trigger] batch@.records[k]).viewed_json,
                    ),
                whole ==> forall|k: int| 0 <= k < i ==> json::is_line((#[trigger] all[k]).line),
            decreases records@.len() - i,
        {
            let ghost before = vault::row_views(rows@);
            assert(batch@.records[i as int] == records@[i as int]@);
            rows.push(DayRow { ts: records[i].end.clone(), line: records[i].to_line() });
            assert(all.take(i + 1) =~= before.push(all[i as int]));
            assert(vault::row_views(rows@) =~= before.push(all[i as int]));
            i = i + 1;
        }
        assert(vault::row_views(rows@) =~= all);
        assert(!vault::bad_stream("browser/ads"@)) by {
            reveal_strlit("browser/ads");
            assert(forall|k: int| !#[trigger] vault::parent_at("browser/ads"@, k));
        }
        let r = self.append_day_jsonl("browser/ads", &rows, true);
        proof {
            if forall|k: int|
                0 <= k < batch@.records.len() ==> moment::has_date_prefix(
                    (#[trigger] batch@.records[k]).end,
                ) {
                assert forall|k: int| 0 <= k < all.len() implies moment::has_date_prefix(
                    (#[trigger] all[k]).ts,
                ) by {
                    assert(moment::has_date_prefix(batch@.records[k].end));
                }
                vault::lemma_none_undated(all);
            }
            if r is Ok && whole {
                vault::law_stream_reads_back(self@, "browser/ads"@, all, true, r->Ok_0@);
            }
        }
        r
    }
}

// ── laws ────────────────────────────────────────────────────────────────────

/// No record is filed in the future: an ad closed no later than it arrived,
/// was first seen no later than it closed, and so has no negative span.
pub proof fn law_ad_times_are_bounded(
    e: AdEventView,
    received: Moment,
    end_offset: i32,
    start_offset: i32,
)
    requires
        received.valid(),
        moment::offset_valid(end_offset as int),
        moment::offset_valid(start_offset as int),
    ensures
        ({
            let end = ad_end(e, received, end_offset);
            let start = ad_start(e, end, start_offset);
            &&& start.valid() && end.valid()
            &&& start.ns() <= end.ns() <= received.ns()
            &&& end.millis_after(start) >= 0
        }),
{
}

/// What is stored of the viewing time never exceeds the span of the record: it
/// is the span itself, or a reported time that is positive and fits.
pub proof fn law_viewing_fits_the_span(e: AdEventView, span_ms: int)
    requires
        viewed_text(e, span_ms).len() > 0,
    ensures
        viewed_text(e, span_ms) == json::seconds_text(span_ms) || (viewed_text(e, span_ms)
            == e.viewed_json && 0 < e.viewed_ms <= span_ms),
{
}

/// The registrable domain is the host itself, or a part of it that begins
/// behind a dot; and where there is one, it has a dot.
pub proof fn law_registrable_is_a_suffix(url: Seq<char>)
    ensures
        ({
            let host = browser::domain_text(url);
            let domain = registrable_text(url);
            domain.len() > 0 ==> {
                &&& domain.len() <= host.len()
                &&& domain == host.skip(host.len() - domain.len())
                &&& domain.len() == host.len() || host[host.len() - domain.len() - 1] == '.'
                &&& host.contains('.')
            }
        }),
{
    let host = browser::domain_text(url);
    lemma_labels_behind_a_dot(host, 2);
    lemma_labels_behind_a_dot(host, 3);
}

proof fn lemma_labels_behind_a_dot(s: Seq<char>, n: nat)
    ensures
        0 <= labels_start(s, n) <= s.len(),
        labels_start(s, n) == 0 || s[labels_start(s, n) - 1] == '.',
    decreases n,
{
    text::lemma_last_position(s, '.');
    if let Some(i) = text::last_position(s, '.') {
        if n > 1 {
            lemma_labels_behind_a_dot(s.take(i), (n - 1) as nat);
        }
    }
}

proof fn lemma_advanced(b: BatchView)
    requires
        b.valid(),
    ensures
        b.advanced().valid(),
        b.advanced().at >= b.at,
        b.advanced().events == b.events,
        b.advanced().cache == b.cache,
        b.advanced().fetched == b.fetched,
        b.advanced().changed == b.changed,
        b.advanced().records.len() == b.records.len(),
        b.advanced().at == b.advanced().records.len() || b.advanced().asks(),
        forall|i: int|
            0 <= i < b.records.len() && (#[trigger] b.records[i]).advertiser.len() > 0
                ==> b.advanced().records[i] == b.records[i],
    decreases b.records.len() - b.at,
{
    if b.at < b.records.len() && !b.asks() {
        let next = b.stepped();
        lemma_advanced(next);
        assert forall|i: int|
            0 <= i < b.records.len() && (#[trigger] b.records[i]).advertiser.len()
                > 0 implies b.advanced().records[i] == b.records[i] by {
            assert(next.records[i] == b.records[i]);
        }
    }
}

/// An advertiser that the landing page gave is kept, whatever is fetched.
pub proof fn law_landing_advertiser_is_kept(b: BatchView, got: Option<IdentityView>, i: int)
    requires
        b.valid(),
        0 <= i < b.records.len(),
        b.records[i].advertiser.len() > 0,
    ensures
        b.advanced().records[i] == b.records[i],
        b.asks() ==> b.answered(got).records[i] == b.records[i],
{
    lemma_advanced(b);
}

/// The resolver comes to an end with at most the allowed number of fetches: it
/// goes on to a page or to the end of the batch, each answer counts, and it
/// asks for nothing once the number is reached.
pub proof fn law_fetches_are_capped(b: BatchView, got: Option<IdentityView>)
    requires
        b.valid(),
    ensures
        b.advanced().valid(),
        b.advanced().fetched == b.fetched,
        b.advanced().at == b.advanced().records.len() || b.advanced().asks(),
        b.asks() ==> b.answered(got).valid() && b.answered(got).fetched == b.fetched + 1
            && b.answered(got).at == b.at + 1,
        b.fetched == 25 ==> !b.asks() && b.advanced().at == b.records.len(),
{
    lemma_advanced(b);
}

/// A page is fetched once: what came of it is known from then on, also that it
/// names nobody, and a record with the same key does not ask.
pub proof fn law_no_page_is_fetched_twice(b: BatchView, got: Option<IdentityView>, later: BatchView)
    requires
        b.valid(),
        b.asks(),
        later.valid(),
        remembers(b.answered(got), later),
        later.at < later.records.len(),
        later.token() == b.token(),
    ensures
        known(b.answered(got).cache, b.token()) is Some,
        !later.asks(),
{
    let cache = b.answered(got).cache;
    assert(cache.drop_last() =~= b.cache);
    assert(later.cache.take(cache.len() as int) == cache);
    lemma_known_stays(later.cache, cache.len() as int, b.token());
}

/// What the cache of `a` holds, that of `b` holds too, in the same places.
pub open spec fn remembers(a: BatchView, b: BatchView) -> bool {
    a.cache.len() <= b.cache.len() && b.cache.take(a.cache.len() as int) == a.cache
}

/// No key stands twice in the cache.
pub open spec fn distinct_tokens(cache: Seq<CachedView>) -> bool {
    forall|i: int, j: int|
        0 <= i < j < cache.len() ==> (#[trigger] cache[i]).token != (#[trigger] cache[j]).token
}

proof fn lemma_unknown(cache: Seq<CachedView>, token: Seq<char>, i: int)
    requires
        known(cache, token) is None,
        0 <= i < cache.len(),
    ensures
        cache[i].token != token,
    decreases cache.len(),
{
    if i < cache.len() - 1 {
        lemma_unknown(cache.drop_last(), token, i);
    }
}

/// The resolver forgets nothing and keeps nothing twice: going on leaves the
/// cache as it is, and an answer adds one key that was not there.
pub proof fn law_the_cache_only_grows(b: BatchView, got: Option<IdentityView>)
    requires
        b.valid(),
    ensures
        b.advanced().cache == b.cache,
        b.asks() ==> remembers(b, b.answered(got)) && b.answered(got).cache.len() == b.cache.len()
            + 1,
        b.asks() && distinct_tokens(b.cache) ==> distinct_tokens(b.answered(got).cache),
{
    lemma_advanced(b);
    assert(b.answered(got).cache.take(b.cache.len() as int) =~= b.cache);
    if b.asks() {
        assert forall|i: int| 0 <= i < b.cache.len() implies (#[trigger] b.cache[i]).token
            != b.token() by {
            lemma_unknown(b.cache, b.token(), i);
        }
    }
}

/// Without an ampersand there is nothing to unescape.
pub proof fn law_plain_text_is_unescaped(s: Seq<char>)
    requires
        !s.contains('&'),
    ensures
        unescaped(s) == s,
{
    reveal_strlit("&amp;");
    reveal_strlit("&#39;");
    reveal_strlit("&#x27;");
    reveal_strlit("&quot;");
    reveal_strlit("&lt;");
    reveal_strlit("&gt;");
    lemma_nothing_replaced(s, "&amp;"@, "&"@, 0);
    lemma_nothing_replaced(s, "&#39;"@, "'"@, 0);
    lemma_nothing_replaced(s, "&#x27;"@, "'"@, 0);
    lemma_nothing_replaced(s, "&quot;"@, "\""@, 0);
    lemma_nothing_replaced(s, "&lt;"@, "<"@, 0);
    lemma_nothing_replaced(s, "&gt;"@, ">"@, 0);
    assert(s.skip(0) =~= s);
}

proof fn lemma_nothing_replaced(s: Seq<char>, from: Seq<char>, to: Seq<char>, i: int)
    requires
        !s.contains('&'),
        from.len() > 0,
        from[0] == '&',
        0 <= i <= s.len(),
    ensures
        text::replaced_from(s, from, to, i) == s.skip(i),
    decreases s.len() - i,
{
    if i < s.len() {
        lemma_nothing_replaced(s, from, to, i + 1);
        if text::occurs_at(s, from, i) {
            assert(s.subrange(i, i + from.len())[0] == s[i]);
        }
        assert(seq![s[i]] + s.skip(i + 1) =~= s.skip(i));
    } else {
        assert(s.skip(i) =~= Seq::empty());
    }
}

/// `s` is one label: it has no dot.
pub open spec fn is_label(s: Seq<char>) -> bool {
    !s.contains('.')
}

/// `b.c` is the dotted text of its labels and of no others.
proof fn lemma_two_labels(
    b: Seq<char>,
    c: Seq<char>,
    x: Seq<char>,
    y: Seq<char>,
)
    requires
        is_label(b),
        is_label(c),
        is_label(x),
        is_label(y),
    ensures
        (b + seq!['.'] + c == x + seq!['.'] + y) <==> (b == x && c == y),
{
    let s = b + seq!['.'] + c;
    let t = x + seq!['.'] + y;
    if s == t {
        text::lemma_last_of(b, '.', c);
        text::lemma_last_of(x, '.', y);
        assert(b.len() == x.len());
        assert(s.take(b.len() as int) =~= b);
        assert(t.take(b.len() as int) =~= x);
        assert(s.skip(b.len() as int + 1) =~= c);
        assert(t.skip(b.len() as int + 1) =~= y);
    }
}

proof fn lemma_suffixes(b: Seq<char>, c: Seq<char>)
    requires
        is_label(b),
        is_label(c),
    ensures
        is_two_part_suffix(b + seq!['.'] + c) == (b == "co"@ && (c == "uk"@ || c == "jp"@ || c == "kr"@ || c == "in"@
            || c == "nz"@) || b == "com"@ && (c == "au"@ || c == "br"@ || c == "tr"@) || b
            == "net"@ && c == "au"@),
{
    reveal_strlit("co");
    reveal_strlit("com");
    reveal_strlit("net");
    reveal_strlit("uk");
    reveal_strlit("jp");
    reveal_strlit("kr");
    reveal_strlit("in");
    reveal_strlit("nz");
    reveal_strlit("au");
    reveal_strlit("br");
    reveal_strlit("tr");
    reveal_strlit("co.uk");
    reveal_strlit("com.au");
    reveal_strlit("co.jp");
    reveal_strlit("co.kr");
    reveal_strlit("com.br");
    reveal_strlit("co.in");
    reveal_strlit("com.tr");
    reveal_strlit("net.au");
    reveal_strlit("co.nz");
    assert("co.uk"@ =~= "co"@ + seq!['.'] + "uk"@);
    assert("com.au"@ =~= "com"@ + seq!['.'] + "au"@);
    assert("co.jp"@ =~= "co"@ + seq!['.'] + "jp"@);
    assert("co.kr"@ =~= "co"@ + seq!['.'] + "kr"@);
    assert("com.br"@ =~= "com"@ + seq!['.'] + "br"@);
    assert("co.in"@ =~= "co"@ + seq!['.'] + "in"@);
    assert("com.tr"@ =~= "com"@ + seq!['.'] + "tr"@);
    assert("net.au"@ =~= "net"@ + seq!['.'] + "au"@);
    assert("co.nz"@ =~= "co"@ + seq!['.'] + "nz"@);
    lemma_two_labels(b, c, "co"@, "uk"@);
    lemma_two_labels(b, c, "com"@, "au"@);
    lemma_two_labels(b, c, "co"@, "jp"@);
    lemma_two_labels(b, c, "co"@, "kr"@);
    lemma_two_labels(b, c, "com"@, "br"@);
    lemma_two_labels(b, c, "co"@, "in"@);
    lemma_two_labels(b, c, "com"@, "tr"@);
    lemma_two_labels(b, c, "net"@, "au"@);
    lemma_two_labels(b, c, "co"@, "nz"@);
}

/// The registrable domain of a host of three labels or more: its last two, or
/// its last three where the last two are a public suffix, which are `co.uk`,
/// `co.jp`, `co.kr`, `co.in`, `co.nz`, `com.au`, `com.br`, `com.tr` and `net.au`.
/// `front` is what stands before the last three labels.
pub proof fn law_registrable_has_two_labels_or_three(
    url: Seq<char>,
    front: Seq<char>,
    a: Seq<char>,
    b: Seq<char>,
    c: Seq<char>,
)
    requires
        front.len() == 0 || front.last() == '.',
        is_label(a) && is_label(b) && is_label(c),
        browser::domain_text(url) == front + a + seq!['.'] + b + seq!['.'] + c,
    ensures
        registrable_text(url) == (if b == "co"@ && (c == "uk"@ || c == "jp"@ || c == "kr"@ || c == "in"@
            || c == "nz"@) || b == "com"@ && (c == "au"@ || c == "br"@ || c == "tr"@) || b
            == "net"@ && c == "au"@ {
            a + seq!['.'] + b + seq!['.'] + c
        } else {
            b + seq!['.'] + c
        }),
{
    let host = browser::domain_text(url);
    let n = (front + a).len() as int;
    let ab = front + a + seq!['.'] + b;
    assert(host[n] == '.');
    assert(host.contains('.'));
    text::lemma_last_of(ab, '.', c);
    assert(host.take(ab.len() as int) =~= ab);
    text::lemma_last_of(front + a, '.', b);
    assert(ab.take(n) =~= front + a);
    assert(labels_start(host, 2) == n + 1) by {
        reveal_with_fuel(labels_start, 3);
    }
    assert(last_labels(host, 2) =~= b + seq!['.'] + c);
    lemma_suffixes(b, c);
    assert(labels_start(front + a, 1) == front.len()) by {
        if front.len() == 0 {
            assert(front + a =~= a);
            text::lemma_no_last(a, '.');
        } else {
            let less = front.drop_last();
            assert(front + a =~= less + seq!['.'] + a);
            text::lemma_last_of(less, '.', a);
        }
    }
    assert(labels_start(host, 3) == front.len()) by {
        reveal_with_fuel(labels_start, 4);
    }
    assert(last_labels(host, 3) =~= a + seq!['.'] + b + seq!['.'] + c);
}

/// A host of two labels is its own registrable domain, and one of a single
/// label has none.
pub proof fn law_short_hosts(url: Seq<char>, b: Seq<char>, c: Seq<char>)
    requires
        is_label(b) && is_label(c),
    ensures
        browser::domain_text(url) == b + seq!['.'] + c ==> registrable_text(url) == b + seq!['.']
            + c,
        browser::domain_text(url) == c ==> registrable_text(url).len() == 0,
{
    let host = browser::domain_text(url);
    if host == b + seq!['.'] + c {
        assert(host[b.len() as int] == '.');
        assert(host.contains('.'));
        text::lemma_last_of(b, '.', c);
        assert(host.take(b.len() as int) =~= b);
        text::lemma_no_last(b, '.');
        assert(labels_start(host, 2) == 0 && labels_start(host, 3) == 0) by {
            reveal_with_fuel(labels_start, 4);
        }
        assert(host.skip(0) =~= host);
    }
}

/// The network of an ad is the registrable domain of its frame; without one it
/// is Google for the slots whose names begin as Google's do, and unknown for all
/// others.
pub proof fn law_network_by_frame_or_slot(frame: Seq<char>, slot: Seq<char>, rest: Seq<char>)
    ensures
        registrable_text(frame).len() > 0 ==> network_text(frame, slot) == registrable_text(frame),
        registrable_text(frame).len() == 0 ==> {
            &&& network_text(frame, "google_ads_iframe"@ + rest) == "google"@
            &&& network_text(frame, "aswift_"@ + rest) == "google"@
            &&& network_text(frame, "div-gpt-ad"@ + rest) == "google"@
            &&& network_text(frame, slot) == "google"@ || network_text(frame, slot) == "unknown"@
            &&& slot.len() < 7 ==> network_text(frame, slot) == "unknown"@
            &&& slot.len() > 0 && slot[0] != 'g' && slot[0] != 'a' && slot[0] != 'd'
                ==> network_text(frame, slot) == "unknown"@
        },
{
    reveal_strlit("google_ads_iframe");
    reveal_strlit("aswift_");
    reveal_strlit("div-gpt-ad");
    let g = "google_ads_iframe"@;
    let a = "aswift_"@;
    let d = "div-gpt-ad"@;
    assert((g + rest).take(g.len() as int) =~= g);
    assert((a + rest).take(a.len() as int) =~= a);
    assert((d + rest).take(d.len() as int) =~= d);
    if text::has_prefix(slot, g) {
        assert(slot.take(g.len() as int)[0] == slot[0]);
    }
    if text::has_prefix(slot, a) {
        assert(slot.take(a.len() as int)[0] == slot[0]);
    }
    if text::has_prefix(slot, d) {
        assert(slot.take(d.len() as int)[0] == slot[0]);
    }
}

/// A record closes and begins when the extension says, to the millisecond,
/// unless that is out of order: not after it arrived, and not after it closed.
pub proof fn law_record_has_the_reported_times(
    e: AdEventView,
    received: Moment,
    end_offset: i32,
    start_offset: i32,
)
    requires
        received.valid(),
        moment::offset_valid(end_offset as int),
        moment::offset_valid(start_offset as int),
        moment::secs_valid(e.end_ms as int / 1000),
        moment::secs_valid(e.ts_ms as int / 1000),
    ensures
        ({
            let end = ad_end(e, received, end_offset);
            let start = ad_start(e, end, start_offset);
            let end_ns = e.end_ms * 1_000_000;
            let start_ns = e.ts_ms * 1_000_000;
            let r = record_of(e, received, end_offset, start_offset);
            &&& end.ns() == (if end_ns <= received.ns() {
                end_ns
            } else {
                received.ns()
            })
            &&& start.ns() == (if start_ns <= end.ns() {
                start_ns
            } else {
                end.ns()
            })
            &&& end_ns <= received.ns() ==> end.offset == end_offset
            &&& end_ns > received.ns() ==> end == received
            &&& start_ns <= end.ns() ==> start.offset == start_offset
            &&& start_ns > end.ns() ==> start == end
            &&& r.end == end.text() && r.ts == start.text()
        }),
{
}

/// A time that the calendar does not have falls back: the end to the arrival,
/// the beginning to the end.
pub proof fn law_unreadable_times_fall_back(
    e: AdEventView,
    received: Moment,
    end: Moment,
    offset: i32,
)
    ensures
        !moment::secs_valid(e.end_ms as int / 1000) ==> ad_end(e, received, offset) == received,
        !moment::secs_valid(e.ts_ms as int / 1000) ==> ad_start(e, end, offset) == end,
{
}

/// A record carries what the extension shipped, each field its own, and what is
/// derived from it; no identity is known yet.
pub proof fn law_record_carries_its_event(
    e: AdEventView,
    received: Moment,
    end_offset: i32,
    start_offset: i32,
)
    ensures
        ({
            let r = record_of(e, received, end_offset, start_offset);
            &&& r.page_url == e.page_url && r.frame_url == e.frame_url && r.landing_url
                == e.landing_url
            &&& r.network == network_text(e.frame_url, e.slot)
            &&& r.advertiser == registrable_text(e.landing_url) && r.advertiser_id.len() == 0
            &&& r.viewable == e.viewable && r.w == e.w && r.h == e.h
            &&& r.source == "extension"@
        }),
{
}

/// The viewing time of a record: nothing if none is reported or the record has
/// no span; what is reported if that fits; else the span, in seconds.
pub proof fn law_viewing_time_by_case(e: AdEventView, received: Moment, end_offset: i32, start_offset: i32)
    ensures
        ({
            let end = ad_end(e, received, end_offset);
            let span = end.millis_after(ad_start(e, end, start_offset));
            let viewed = record_of(e, received, end_offset, start_offset).viewed_json;
            &&& e.viewed_ms <= 0 || span <= 0 ==> viewed.len() == 0
            &&& 0 < e.viewed_ms <= span ==> viewed == e.viewed_json
            &&& 0 < span < e.viewed_ms ==> viewed == json::seconds_text(span)
        }),
{
}

/// The key of a transparency page is its `reasons` token: what stands behind the
/// first `reasons=`, up to an ampersand or the end.
pub proof fn law_token_is_the_reasons(front: Seq<char>, token: Seq<char>, rest: Seq<char>)
    requires
        token.len() > 0,
        !token.contains('&'),
        rest.len() == 0 || rest[0] == '&',
        forall|i: int|
            0 <= i < front.len() ==> !#[trigger] text::occurs_at(
                front + "reasons="@ + token + rest,
                "reasons="@,
                i,
            ),
    ensures
        token_text(front + "reasons="@ + token + rest) == token,
{
    reveal_strlit("reasons=");
    let url = front + "reasons="@ + token + rest;
    let n = front.len() as int;
    assert(url.subrange(n, n + 8) =~= "reasons="@);
    text::lemma_first_at(url, "reasons="@, 0, n);
    let behind = url.skip(n + 8);
    assert(behind =~= token + rest);
    assert(seq!['&'][0] == '&');
    assert forall|i: int| 0 <= i < token.len() implies !seq!['&'].contains(#[trigger] token[i]) by {
        assert(token.contains(token[i]));
    }
    text::lemma_cut(token, rest, seq!['&']);
}

/// A URL without the word, or with nothing behind it, is its own key.
pub proof fn law_token_falls_back_to_the_url(url: Seq<char>, front: Seq<char>, rest: Seq<char>)
    requires
        rest.len() == 0 || rest[0] == '&',
        forall|i: int|
            0 <= i < front.len() ==> !#[trigger] text::occurs_at(
                front + "reasons="@ + rest,
                "reasons="@,
                i,
            ),
    ensures
        (forall|i: int| !#[trigger] text::occurs_at(url, "reasons="@, i)) ==> token_text(url) == url,
        token_text(front + "reasons="@ + rest) == front + "reasons="@ + rest,
{
    reveal_strlit("reasons=");
    if forall|i: int| !#[trigger] text::occurs_at(url, "reasons="@, i) {
        text::lemma_nowhere(url, "reasons="@, 0);
    }
    let none = Seq::<char>::empty();
    let whole = front + "reasons="@ + rest;
    let n = front.len() as int;
    assert(whole.subrange(n, n + 8) =~= "reasons="@);
    text::lemma_first_at(whole, "reasons="@, 0, n);
    assert(whole.skip(n + 8) =~= rest);
    assert(none + rest =~= rest);
    assert(seq!['&'][0] == '&');
    text::lemma_cut(none, rest, seq!['&']);
}

/// What a page says between two marks: `m`, where the first mark comes first
/// and the second next behind it.
pub proof fn law_between_is_between(
    front: Seq<char>,
    start: Seq<char>,
    m: Seq<char>,
    end: Seq<char>,
    rest: Seq<char>,
)
    requires
        forall|i: int|
            0 <= i < front.len() ==> !#[trigger] text::occurs_at(
                front + start + m + end + rest,
                start,
                i,
            ),
        forall|i: int|
            (front + start).len() <= i < (front + start + m).len() ==> !#[trigger] text::occurs_at(
                front + start + m + end + rest,
                end,
                i,
            ),
    ensures
        text_between(front + start + m + end + rest, start, end) == Some(m),
{
    let s = front + start + m + end + rest;
    let i = front.len() as int;
    let j = (front + start + m).len() as int;
    assert(s.subrange(i, i + start.len()) =~= start);
    assert(s.subrange(j, j + end.len()) =~= end);
    text::lemma_first_at(s, start, 0, i);
    text::lemma_first_at(s, end, i + start.len(), j);
    assert(s.subrange(i + start.len(), j) =~= m);
}

/// The payer that a page names is what stands between `Paid for by ` and the
/// next tag, without white space around it and with its escapes undone; a page
/// that names none has no identity. The id is that of the advertiser the page
/// links to.
pub proof fn law_payer_is_named_by_the_page(html: Seq<char>, payer: Seq<char>)
    ensures
        text_between(html, "Paid for by "@, "<"@) is None ==> identity_of(html) is None,
        text_between(html, "Paid for by "@, "<"@) == Some(payer) ==> {
            let name = unescaped(text::trimmed(payer));
            &&& identity_of(html) is Some == (name.len() > 0)
            &&& identity_of(html) matches Some(id) ==> id.name == name && id.ad_id
                == advertiser_id_text(html)
        },
        identity_of(html) matches Some(id) ==> id.ad_id.len() == 0 || (id.ad_id.len() >= 2
            && id.ad_id[0] == 'A' && id.ad_id[1] == 'R' && forall|i: int|
            0 <= i < id.ad_id.len() ==> text::is_alphanumeric_char(#[trigger] id.ad_id[i])),
{
    reveal_strlit("AR");
    if identity_of(html) is Some {
        let id = identity_of(html)->0;
        if id.ad_id.len() > 0 {
            assert(id.ad_id.take(2)[0] == 'A' && id.ad_id.take(2)[1] == 'R');
            let lead = "adstransparency.google.com/advertiser/"@;
            let s = match text_between(html, lead, "?"@) {
                Some(s) => s,
                None => text_between(html, lead, "\""@)->0,
            };
            lemma_alphanumerics(s, 0);
        }
    }
}

proof fn lemma_alphanumerics(s: Seq<char>, from: int)
    requires
        0 <= from <= s.len(),
    ensures
        from <= alphanumeric_end(s, from) <= s.len(),
        forall|i: int|
            from <= i < alphanumeric_end(s, from) ==> text::is_alphanumeric_char(#[trigger] s[i]),
    decreases s.len() - from,
{
    if from < s.len() && text::is_alphanumeric_char(s[from]) {
        lemma_alphanumerics(s, from + 1);
    }
}

/// The advertiser id is read behind the link to the advertiser, up to a question
/// mark, or else up to the quote that ends the link.
pub proof fn law_advertiser_id_is_the_links(html: Seq<char>, id: Seq<char>, rest: Seq<char>)
    requires
        forall|i: int| 0 <= i < id.len() ==> text::is_alphanumeric_char(#[trigger] id[i]),
        id.len() >= 2 && id[0] == 'A' && id[1] == 'R',
        rest.len() == 0 || !text::is_alphanumeric_char(rest[0]),
        ({
            let lead = "adstransparency.google.com/advertiser/"@;
            ||| text_between(html, lead, "?"@) == Some(id + rest)
            ||| text_between(html, lead, "?"@) is None && text_between(html, lead, "\""@) == Some(
                id + rest,
            )
        }),
    ensures
        advertiser_id_text(html) == id,
{
    reveal_strlit("AR");
    lemma_alphanumeric_run(id, rest, 0);
    assert((id + rest).take(id.len() as int) =~= id);
    assert(id.take(2) =~= "AR"@);
}

proof fn lemma_alphanumeric_run(id: Seq<char>, rest: Seq<char>, from: int)
    requires
        0 <= from <= id.len(),
        forall|i: int| 0 <= i < id.len() ==> text::is_alphanumeric_char(#[trigger] id[i]),
        rest.len() == 0 || !text::is_alphanumeric_char(rest[0]),
    ensures
        alphanumeric_end(id + rest, from) == id.len(),
    decreases id.len() - from,
{
    let s = id + rest;
    if from < id.len() {
        assert(s[from] == id[from]);
        lemma_alphanumeric_run(id, rest, from + 1);
    } else if rest.len() > 0 {
        assert(s[from] == rest[0]);
    }
}

/// When a page is fetched: for a record that has a transparency page and no
/// advertiser, whose key is not known, while fewer than twenty-five were
/// fetched for the batch.
pub proof fn law_when_a_page_is_fetched(b: BatchView)
    requires
        b.valid(),
        b.at < b.records.len(),
    ensures
        b.asks() == (b.events[b.at].why_url.len() > 0 && b.records[b.at].advertiser.len() == 0
            && known(b.cache, token_text(b.events[b.at].why_url)) is None && b.fetched < 25),
{
}

/// What an answer does: the record gets the name and the id that came, and
/// nothing else of it changes; without a name it stays as it is. What came is
/// kept under the page's key, and counts as one fetch.
pub proof fn law_an_answer_names_the_advertiser(b: BatchView, got: Option<IdentityView>)
    requires
        b.valid(),
        b.asks(),
    ensures
        ({
            let after = b.answered(got);
            let was = b.records[b.at];
            let is = after.records[b.at];
            &&& got matches Some(id) ==> (id.name.len() > 0 ==> is.advertiser == id.name
                && is.advertiser_id == id.ad_id)
            &&& (got matches Some(id) ==> id.name.len() == 0) ==> is == was
            &&& is.ts == was.ts && is.end == was.end && is.page_url == was.page_url
            &&& is.frame_url == was.frame_url && is.landing_url == was.landing_url && is.network
                == was.network
            &&& is.viewed_json == was.viewed_json && is.viewable == was.viewable && is.w == was.w
                && is.h == was.h && is.source == was.source
            &&& forall|i: int|
                0 <= i < b.records.len() && i != b.at ==> #[trigger] after.records[i]
                    == b.records[i]
            &&& after.changed && after.fetched == b.fetched + 1 && after.at == b.at + 1
            &&& after.cache.len() == b.cache.len() + 1
            &&& after.cache.last().token == token_text(b.events[b.at].why_url)
            &&& got matches Some(id) ==> after.cache.last().identity == id
            &&& got is None ==> after.cache.last().identity.name.len() == 0
        }),
{
}

/// What going on does to a record that does not ask: a known identity names its
/// advertiser, if the record wants one; else it stays as it is.
pub proof fn law_a_known_identity_is_used(b: BatchView)
    requires
        b.valid(),
        b.at < b.records.len(),
        !b.asks(),
    ensures
        b.advanced() == b.stepped().advanced(),
        b.stepped().at == b.at + 1,
        ({
            let was = b.records[b.at];
            let is = b.stepped().records[b.at];
            let id = known(b.cache, token_text(b.events[b.at].why_url));
            &&& b.events[b.at].why_url.len() == 0 || was.advertiser.len() > 0 || id is None ==> is
                == was
            &&& b.events[b.at].why_url.len() > 0 && was.advertiser.len() == 0 && (
            id matches Some(x) && x.name.len() > 0) ==> is.advertiser == (id->0).name
                && is.advertiser_id == (id->0).ad_id
        }),
        forall|i: int|
            0 <= i < b.records.len() && i != b.at ==> #[trigger] b.stepped().records[i]
                == b.records[i],
{
}

/// The cache answers with what stands under a key.
pub proof fn law_the_cache_answers_by_key(cache: Seq<CachedView>, i: int)
    requires
        distinct_tokens(cache),
        0 <= i < cache.len(),
    ensures
        known(cache, cache[i].token) == Some(cache[i].identity),
    decreases cache.len(),
{
    let less = cache.drop_last();
    assert forall|k: int, j: int| 0 <= k < j < less.len() implies (#[trigger] less[k]).token != (
    #[trigger] less[j]).token by {
        assert(cache[k].token != cache[j].token);
    }
    if i < less.len() {
        assert(less[i] == cache[i]);
        law_the_cache_answers_by_key(less, i);
    } else if known(less, cache[i].token) is Some {
        lemma_known_somewhere(less, cache[i].token);
        let k = choose|k: int| 0 <= k < less.len() && (#[trigger] less[k]).token == cache[i].token;
        assert(cache[k].token != cache[i].token);
    }
}

proof fn lemma_known_somewhere(cache: Seq<CachedView>, token: Seq<char>)
    requires
        known(cache, token) is Some,
    ensures
        exists|k: int| 0 <= k < cache.len() && (#[trigger] cache[k]).token == token,
    decreases cache.len(),
{
    let less = cache.drop_last();
    if known(less, token) is Some {
        lemma_known_somewhere(less, token);
        let k = choose|k: int| 0 <= k < less.len() && (#[trigger] less[k]).token == token;
        assert(cache[k].token == token);
    } else {
        assert(cache[cache.len() - 1].token == token);
    }
}

// ── a line tells its record ────────────────────────────────────────────────

/// `s` can stand as a number in a line: it holds nothing that would end it.
pub open spec fn is_number_text(s: Seq<char>) -> bool {
    !s.contains(',')
}

proof fn lemma_viewed_reads_back(a: Seq<char>, ra: Seq<char>, b: Seq<char>, rb: Seq<char>)
    requires
        viewed_field(a) + ra == viewed_field(b) + rb,
        is_number_text(a),
        is_number_text(b),
        ra.len() > 0 && ra[0] == ',',
        rb.len() > 0 && rb[0] == ',',
        !text::has_prefix(ra, ",\"viewed_secs\":"@),
        !text::has_prefix(rb, ",\"viewed_secs\":"@),
    ensures
        a == b,
        ra == rb,
{
    let lead = ",\"viewed_secs\":"@;
    let empty = Seq::<char>::empty();
    assert(empty + ra =~= ra);
    assert(empty + rb =~= rb);
    json::lemma_regroup(lead, a, ra);
    json::lemma_regroup(lead, b, rb);
    if a.len() > 0 && b.len() > 0 {
        json::lemma_behind(lead, a + ra, b + rb);
        let x = a + ra;
        let y = b + rb;
        if a.len() < b.len() {
            assert(x[a.len() as int] == ',');
            assert(y[a.len() as int] == b[a.len() as int]);
        }
        if b.len() < a.len() {
            assert(y[b.len() as int] == ',');
            assert(x[b.len() as int] == a[b.len() as int]);
        }
        assert(x.take(a.len() as int) =~= a);
        assert(y.take(b.len() as int) =~= b);
        json::lemma_behind(a, ra, rb);
    } else if a.len() > 0 {
        assert((lead + (a + ra)).take(lead.len() as int) =~= lead);
    } else if b.len() > 0 {
        assert((lead + (b + rb)).take(lead.len() as int) =~= lead);
    } else {
        assert(a =~= b);
    }
}

spec fn from_source(r: AdRecordView) -> Seq<char> {
    json::text_field(",\"source\":"@, r.source) + "}"@
}

spec fn from_h(r: AdRecordView) -> Seq<char> {
    json::kept_number_field(",\"h\":"@, r.h as int) + from_source(r)
}

spec fn from_w(r: AdRecordView) -> Seq<char> {
    json::kept_number_field(",\"w\":"@, r.w as int) + from_h(r)
}

spec fn from_viewable(r: AdRecordView) -> Seq<char> {
    json::kept_flag_field(",\"viewable\":"@, r.viewable) + from_w(r)
}

spec fn from_viewed_json(r: AdRecordView) -> Seq<char> {
    viewed_field(r.viewed_json) + from_viewable(r)
}

spec fn from_advertiser_id(r: AdRecordView) -> Seq<char> {
    json::kept_text_field(",\"advertiser_id\":"@, r.advertiser_id) + from_viewed_json(r)
}

spec fn from_advertiser(r: AdRecordView) -> Seq<char> {
    json::kept_text_field(",\"advertiser\":"@, r.advertiser) + from_advertiser_id(r)
}

spec fn from_network(r: AdRecordView) -> Seq<char> {
    json::text_field(",\"network\":"@, r.network) + from_advertiser(r)
}

spec fn from_landing_url(r: AdRecordView) -> Seq<char> {
    json::kept_text_field(",\"landing_url\":"@, r.landing_url) + from_network(r)
}

spec fn from_frame_url(r: AdRecordView) -> Seq<char> {
    json::kept_text_field(",\"frame_url\":"@, r.frame_url) + from_landing_url(r)
}

spec fn from_page_url(r: AdRecordView) -> Seq<char> {
    json::text_field(",\"page_url\":"@, r.page_url) + from_frame_url(r)
}

spec fn from_end(r: AdRecordView) -> Seq<char> {
    json::text_field(",\"end\":"@, r.end) + from_page_url(r)
}

proof fn lemma_line_from_the_front(r: AdRecordView)
    ensures
        record_line(r) == json::text_field("{\"ts\":"@, r.ts) + from_end(r),
{
    let f1 = json::text_field("{\"ts\":"@, r.ts);
    let f2 = json::text_field(",\"end\":"@, r.end);
    let f3 = json::text_field(",\"page_url\":"@, r.page_url);
    let f4 = json::kept_text_field(",\"frame_url\":"@, r.frame_url);
    let f5 = json::kept_text_field(",\"landing_url\":"@, r.landing_url);
    let f6 = json::text_field(",\"network\":"@, r.network);
    let f7 = json::kept_text_field(",\"advertiser\":"@, r.advertiser);
    let f8 = json::kept_text_field(",\"advertiser_id\":"@, r.advertiser_id);
    let f9 = viewed_field(r.viewed_json);
    let f10 = json::kept_flag_field(",\"viewable\":"@, r.viewable);
    let f11 = json::kept_number_field(",\"w\":"@, r.w as int);
    let f12 = json::kept_number_field(",\"h\":"@, r.h as int);
    let f13 = json::text_field(",\"source\":"@, r.source);
    let p1 = f1;
    let p2 = p1 + f2;
    let p3 = p2 + f3;
    let p4 = p3 + f4;
    let p5 = p4 + f5;
    let p6 = p5 + f6;
    let p7 = p6 + f7;
    let p8 = p7 + f8;
    let p9 = p8 + f9;
    let p10 = p9 + f10;
    let p11 = p10 + f11;
    let p12 = p11 + f12;
    let p13 = p12 + f13;
    json::lemma_regroup(p12, f13, "}"@);
    json::lemma_regroup(p11, f12, from_source(r));
    json::lemma_regroup(p10, f11, from_h(r));
    json::lemma_regroup(p9, f10, from_w(r));
    json::lemma_regroup(p8, f9, from_viewable(r));
    json::lemma_regroup(p7, f8, from_viewed_json(r));
    json::lemma_regroup(p6, f7, from_advertiser_id(r));
    json::lemma_regroup(p5, f6, from_advertiser(r));
    json::lemma_regroup(p4, f5, from_network(r));
    json::lemma_regroup(p3, f4, from_landing_url(r));
    json::lemma_regroup(p2, f3, from_frame_url(r));
    json::lemma_regroup(p1, f2, from_page_url(r));
}

/// A field that is left out is not made up for by a later one, and a number is
/// followed by something else.
proof fn lemma_fields_stand_apart(r: AdRecordView)
    ensures
        !text::has_prefix(from_landing_url(r), ",\"frame_url\":"@),
        !text::has_prefix(from_network(r), ",\"landing_url\":"@),
        !text::has_prefix(from_advertiser_id(r), ",\"advertiser\":"@),
        !text::has_prefix(from_viewed_json(r), ",\"advertiser_id\":"@),
        !text::has_prefix(from_viewable(r), ",\"viewed_secs\":"@),
        !text::has_prefix(from_w(r), ",\"viewable\":"@),
        !text::has_prefix(from_h(r), ",\"w\":"@),
        !text::has_prefix(from_source(r), ",\"h\":"@),
        from_viewable(r).len() > 0 && from_viewable(r)[0] == ',',
        json::ends_number(from_h(r)),
        json::ends_number(from_source(r)),
{
    reveal_strlit(",\"frame_url\":");
    reveal_strlit(",\"landing_url\":");
    reveal_strlit(",\"network\":");
    reveal_strlit(",\"advertiser\":");
    reveal_strlit(",\"advertiser_id\":");
    reveal_strlit(",\"viewed_secs\":");
    reveal_strlit(",\"viewable\":");
    reveal_strlit(",\"w\":");
    reveal_strlit(",\"h\":");
    reveal_strlit(",\"source\":");
    reveal_strlit("}");
    json::lemma_kept_fields_are_behind(",\"frame_url\":"@, r.frame_url, 0, false);
    json::lemma_kept_fields_are_behind(",\"landing_url\":"@, r.landing_url, 0, false);
    json::lemma_kept_fields_are_behind(",\"advertiser\":"@, r.advertiser, 0, false);
    json::lemma_kept_fields_are_behind(",\"advertiser_id\":"@, r.advertiser_id, 0, false);
    assert(viewed_field(r.viewed_json).len() > 0 ==> viewed_field(r.viewed_json).take(
        ",\"viewed_secs\":"@.len() as int,
    ) =~= ",\"viewed_secs\":"@);
    json::lemma_kept_fields_are_behind(",\"viewable\":"@, Seq::empty(), 0, r.viewable);
    json::lemma_kept_fields_are_behind(",\"w\":"@, Seq::empty(), r.w as int, false);
    json::lemma_kept_fields_are_behind(",\"h\":"@, Seq::empty(), r.h as int, false);
    assert(json::text_field(",\"network\":"@, r.network).take(
        ",\"network\":"@.len() as int,
    ) =~= ",\"network\":"@);
    assert(json::text_field(",\"source\":"@, r.source).take(
        ",\"source\":"@.len() as int,
    ) =~= ",\"source\":"@);
    json::lemma_begins_otherwise(
        json::text_field(",\"network\":"@, r.network),
        ",\"network\":"@,
        from_advertiser(r),
        ",\"frame_url\":"@,
        2,
    );
    json::lemma_not_taken_for(
        json::kept_text_field(",\"landing_url\":"@, r.landing_url),
        ",\"landing_url\":"@,
        from_network(r),
        ",\"frame_url\":"@,
        2,
    );
    json::lemma_begins_otherwise(
        json::text_field(",\"network\":"@, r.network),
        ",\"network\":"@,
        from_advertiser(r),
        ",\"landing_url\":"@,
        2,
    );
    json::lemma_begins_otherwise(
        json::text_field(",\"source\":"@, r.source),
        ",\"source\":"@,
        "}"@,
        ",\"advertiser\":"@,
        2,
    );
    json::lemma_not_taken_for(
        json::kept_number_field(",\"h\":"@, r.h as int),
        ",\"h\":"@,
        from_source(r),
        ",\"advertiser\":"@,
        2,
    );
    json::lemma_not_taken_for(
        json::kept_number_field(",\"w\":"@, r.w as int),
        ",\"w\":"@,
        from_h(r),
        ",\"advertiser\":"@,
        2,
    );
    json::lemma_not_taken_for(
        json::kept_flag_field(",\"viewable\":"@, r.viewable),
        ",\"viewable\":"@,
        from_w(r),
        ",\"advertiser\":"@,
        2,
    );
    json::lemma_not_taken_for(
        viewed_field(r.viewed_json),
        ",\"viewed_secs\":"@,
        from_viewable(r),
        ",\"advertiser\":"@,
        2,
    );
    json::lemma_not_taken_for(
        json::kept_text_field(",\"advertiser_id\":"@, r.advertiser_id),
        ",\"advertiser_id\":"@,
        from_viewed_json(r),
        ",\"advertiser\":"@,
        12,
    );
    json::lemma_begins_otherwise(
        json::text_field(",\"source\":"@, r.source),
        ",\"source\":"@,
        "}"@,
        ",\"advertiser_id\":"@,
        2,
    );
    json::lemma_not_taken_for(
        json::kept_number_field(",\"h\":"@, r.h as int),
        ",\"h\":"@,
        from_source(r),
        ",\"advertiser_id\":"@,
        2,
    );
    json::lemma_not_taken_for(
        json::kept_number_field(",\"w\":"@, r.w as int),
        ",\"w\":"@,
        from_h(r),
        ",\"advertiser_id\":"@,
        2,
    );
    json::lemma_not_taken_for(
        json::kept_flag_field(",\"viewable\":"@, r.viewable),
        ",\"viewable\":"@,
        from_w(r),
        ",\"advertiser_id\":"@,
        2,
    );
    json::lemma_not_taken_for(
        viewed_field(r.viewed_json),
        ",\"viewed_secs\":"@,
        from_viewable(r),
        ",\"advertiser_id\":"@,
        2,
    );
    json::lemma_begins_otherwise(
        json::text_field(",\"source\":"@, r.source),
        ",\"source\":"@,
        "}"@,
        ",\"viewed_secs\":"@,
        2,
    );
    json::lemma_not_taken_for(
        json::kept_number_field(",\"h\":"@, r.h as int),
        ",\"h\":"@,
        from_source(r),
        ",\"viewed_secs\":"@,
        2,
    );
    json::lemma_not_taken_for(
        json::kept_number_field(",\"w\":"@, r.w as int),
        ",\"w\":"@,
        from_h(r),
        ",\"viewed_secs\":"@,
        2,
    );
    json::lemma_not_taken_for(
        json::kept_flag_field(",\"viewable\":"@, r.viewable),
        ",\"viewable\":"@,
        from_w(r),
        ",\"viewed_secs\":"@,
        6,
    );
    json::lemma_begins_otherwise(
        json::text_field(",\"source\":"@, r.source),
        ",\"source\":"@,
        "}"@,
        ",\"viewable\":"@,
        2,
    );
    json::lemma_not_taken_for(
        json::kept_number_field(",\"h\":"@, r.h as int),
        ",\"h\":"@,
        from_source(r),
        ",\"viewable\":"@,
        2,
    );
    json::lemma_not_taken_for(
        json::kept_number_field(",\"w\":"@, r.w as int),
        ",\"w\":"@,
        from_h(r),
        ",\"viewable\":"@,
        2,
    );
    json::lemma_begins_otherwise(
        json::text_field(",\"source\":"@, r.source),
        ",\"source\":"@,
        "}"@,
        ",\"w\":"@,
        2,
    );
    json::lemma_not_taken_for(
        json::kept_number_field(",\"h\":"@, r.h as int),
        ",\"h\":"@,
        from_source(r),
        ",\"w\":"@,
        2,
    );
    json::lemma_begins_otherwise(
        json::text_field(",\"source\":"@, r.source),
        ",\"source\":"@,
        "}"@,
        ",\"h\":"@,
        2,
    );
    assert(from_source(r)[0] == ',');
    json::lemma_field_ends_number(
        json::kept_number_field(",\"h\":"@, r.h as int),
        ",\"h\":"@,
        from_source(r),
    );
    json::lemma_field_ends_number(
        json::kept_number_field(",\"w\":"@, r.w as int),
        ",\"w\":"@,
        from_h(r),
    );
    json::lemma_field_ends_number(
        json::kept_flag_field(",\"viewable\":"@, r.viewable),
        ",\"viewable\":"@,
        from_w(r),
    );
}

/// A line tells its record: no two records have the same line, though what is
/// empty, zero or false is left out.
pub proof fn law_line_tells_the_record(a: AdRecordView, b: AdRecordView)
    requires
        record_line(a) == record_line(b),
        is_number_text(a.viewed_json),
        is_number_text(b.viewed_json),
    ensures
        a == b,
{
    lemma_line_from_the_front(a);
    lemma_line_from_the_front(b);
    lemma_fields_stand_apart(a);
    lemma_fields_stand_apart(b);
    json::lemma_text_field_reads_back("{\"ts\":"@, a.ts, from_end(a), b.ts, from_end(b));
    json::lemma_text_field_reads_back(
        ",\"end\":"@,
        a.end,
        from_page_url(a),
        b.end,
        from_page_url(b),
    );
    json::lemma_text_field_reads_back(
        ",\"page_url\":"@,
        a.page_url,
        from_frame_url(a),
        b.page_url,
        from_frame_url(b),
    );
    json::lemma_kept_text_field_reads_back(
        ",\"frame_url\":"@,
        a.frame_url,
        from_landing_url(a),
        b.frame_url,
        from_landing_url(b),
    );
    json::lemma_kept_text_field_reads_back(
        ",\"landing_url\":"@,
        a.landing_url,
        from_network(a),
        b.landing_url,
        from_network(b),
    );
    json::lemma_text_field_reads_back(
        ",\"network\":"@,
        a.network,
        from_advertiser(a),
        b.network,
        from_advertiser(b),
    );
    json::lemma_kept_text_field_reads_back(
        ",\"advertiser\":"@,
        a.advertiser,
        from_advertiser_id(a),
        b.advertiser,
        from_advertiser_id(b),
    );
    json::lemma_kept_text_field_reads_back(
        ",\"advertiser_id\":"@,
        a.advertiser_id,
        from_viewed_json(a),
        b.advertiser_id,
        from_viewed_json(b),
    );
    lemma_viewed_reads_back(a.viewed_json, from_viewable(a), b.viewed_json, from_viewable(b));
    json::lemma_kept_flag_field_reads_back(
        ",\"viewable\":"@,
        a.viewable,
        from_w(a),
        b.viewable,
        from_w(b),
    );
    json::lemma_kept_number_field_reads_back(
        ",\"w\":"@,
        a.w as int,
        from_h(a),
        b.w as int,
        from_h(b),
    );
    json::lemma_kept_number_field_reads_back(
        ",\"h\":"@,
        a.h as int,
        from_source(a),
        b.h as int,
        from_source(b),
    );
    json::lemma_text_field_reads_back(",\"source\":"@, a.source, "}"@, b.source, "}"@);
    assert(a =~= b);
}

proof fn lemma_later_fields(r: AdRecordView)
    ensures
        r.advertiser.len() > 0 ==> json::has_field(
            from_advertiser(r),
            "advertiser"@,
            json::json_text(r.advertiser),
        ),
        r.advertiser_id.len() > 0 ==> json::has_field(
            from_advertiser(r),
            "advertiser_id"@,
            json::json_text(r.advertiser_id),
        ),
        r.viewed_json.len() > 0 ==> json::has_field(
            from_advertiser(r),
            "viewed_secs"@,
            r.viewed_json,
        ),
        r.viewable ==> json::has_field(from_advertiser(r), "viewable"@, "true"@),
        r.w != 0 ==> json::has_field(from_advertiser(r), "w"@, json::decimal((r.w as int) as nat)),
        r.h != 0 ==> json::has_field(from_advertiser(r), "h"@, json::decimal((r.h as int) as nat)),
        json::has_field(from_advertiser(r), "source"@, json::json_text(r.source)),
        json::goes_on(from_advertiser(r)),
{
    assert(json::goes_on("}"@)) by {
        reveal_strlit("}");
    }
    assert({
        &&& json::has_field(
            from_source(r),
            "source"@,
            json::json_text(r.source),
        )
        &&& json::goes_on(from_source(r))
    }) by {
        reveal_strlit(",\"source\":");
        reveal_strlit("source");
        json::lemma_field_at_the_front(
            ",\"source\":"@,
            "source"@,
            json::json_text(r.source),
            "}"@,
        );
    }
    json::lemma_fields_behind(json::text_field(",\"source\":"@, r.source), "}"@);
    assert({
        &&& r.h != 0 ==> json::has_field(
            from_h(r),
            "h"@,
            json::decimal((r.h as int) as nat),
        )
        &&& json::goes_on(from_h(r))
    }) by {
        reveal_strlit(",\"h\":");
        reveal_strlit("h");
        if r.h != 0 {
            json::lemma_field_at_the_front(
                ",\"h\":"@,
                "h"@,
                json::decimal((r.h as int) as nat),
                from_source(r),
            );
        } else {
            assert(json::kept_number_field(",\"h\":"@, r.h as int) + from_source(r) =~= from_source(r));
        }
    }
    json::lemma_fields_behind(json::kept_number_field(",\"h\":"@, r.h as int), from_source(r));
    assert({
        &&& r.w != 0 ==> json::has_field(
            from_w(r),
            "w"@,
            json::decimal((r.w as int) as nat),
        )
        &&& json::goes_on(from_w(r))
    }) by {
        reveal_strlit(",\"w\":");
        reveal_strlit("w");
        if r.w != 0 {
            json::lemma_field_at_the_front(
                ",\"w\":"@,
                "w"@,
                json::decimal((r.w as int) as nat),
                from_h(r),
            );
        } else {
            assert(json::kept_number_field(",\"w\":"@, r.w as int) + from_h(r) =~= from_h(r));
        }
    }
    json::lemma_fields_behind(json::kept_number_field(",\"w\":"@, r.w as int), from_h(r));
    assert({
        &&& r.viewable ==> json::has_field(
            from_viewable(r),
            "viewable"@,
            "true"@,
        )
        &&& json::goes_on(from_viewable(r))
    }) by {
        reveal_strlit(",\"viewable\":");
        reveal_strlit("viewable");
        if r.viewable {
            json::lemma_field_at_the_front(",\"viewable\":"@, "viewable"@, "true"@, from_w(r));
        } else {
            assert(json::kept_flag_field(",\"viewable\":"@, r.viewable) + from_w(r) =~= from_w(r));
        }
    }
    json::lemma_fields_behind(json::kept_flag_field(",\"viewable\":"@, r.viewable), from_w(r));
    assert({
        &&& r.viewed_json.len() > 0 ==> json::has_field(
            from_viewed_json(r),
            "viewed_secs"@,
            r.viewed_json,
        )
        &&& json::goes_on(from_viewed_json(r))
    }) by {
        reveal_strlit(",\"viewed_secs\":");
        reveal_strlit("viewed_secs");
        if r.viewed_json.len() > 0 {
            json::lemma_field_at_the_front(
                ",\"viewed_secs\":"@,
                "viewed_secs"@,
                r.viewed_json,
                from_viewable(r),
            );
        } else {
            assert(viewed_field(r.viewed_json) + from_viewable(r) =~= from_viewable(r));
        }
    }
    json::lemma_fields_behind(viewed_field(r.viewed_json), from_viewable(r));
    assert({
        &&& r.advertiser_id.len() > 0 ==> json::has_field(
            from_advertiser_id(r),
            "advertiser_id"@,
            json::json_text(r.advertiser_id),
        )
        &&& json::goes_on(from_advertiser_id(r))
    }) by {
        reveal_strlit(",\"advertiser_id\":");
        reveal_strlit("advertiser_id");
        if r.advertiser_id.len() > 0 {
            json::lemma_field_at_the_front(
                ",\"advertiser_id\":"@,
                "advertiser_id"@,
                json::json_text(r.advertiser_id),
                from_viewed_json(r),
            );
        } else {
            assert(json::kept_text_field(",\"advertiser_id\":"@, r.advertiser_id) + from_viewed_json(r) =~= from_viewed_json(r));
        }
    }
    json::lemma_fields_behind(
        json::kept_text_field(",\"advertiser_id\":"@, r.advertiser_id),
        from_viewed_json(r),
    );
    assert({
        &&& r.advertiser.len() > 0 ==> json::has_field(
            from_advertiser(r),
            "advertiser"@,
            json::json_text(r.advertiser),
        )
        &&& json::goes_on(from_advertiser(r))
    }) by {
        reveal_strlit(",\"advertiser\":");
        reveal_strlit("advertiser");
        if r.advertiser.len() > 0 {
            json::lemma_field_at_the_front(
                ",\"advertiser\":"@,
                "advertiser"@,
                json::json_text(r.advertiser),
                from_advertiser_id(r),
            );
        } else {
            assert(json::kept_text_field(",\"advertiser\":"@, r.advertiser) + from_advertiser_id(r) =~= from_advertiser_id(r));
        }
    }
    json::lemma_fields_behind(
        json::kept_text_field(",\"advertiser\":"@, r.advertiser),
        from_advertiser_id(r),
    );
}

/// The line of a record names its fields, each with its own value; of the
/// optional ones those that are not empty, zero or false.
#[verifier::rlimit(40)]
pub proof fn law_line_names_its_fields(r: AdRecordView)
    ensures
        json::has_field(record_line(r), "ts"@, json::json_text(r.ts)),
        json::has_field(record_line(r), "end"@, json::json_text(r.end)),
        json::has_field(record_line(r), "page_url"@, json::json_text(r.page_url)),
        r.frame_url.len() > 0 ==> json::has_field(
            record_line(r),
            "frame_url"@,
            json::json_text(r.frame_url),
        ),
        r.landing_url.len() > 0 ==> json::has_field(
            record_line(r),
            "landing_url"@,
            json::json_text(r.landing_url),
        ),
        json::has_field(record_line(r), "network"@, json::json_text(r.network)),
        r.advertiser.len() > 0 ==> json::has_field(
            record_line(r),
            "advertiser"@,
            json::json_text(r.advertiser),
        ),
        r.advertiser_id.len() > 0 ==> json::has_field(
            record_line(r),
            "advertiser_id"@,
            json::json_text(r.advertiser_id),
        ),
        r.viewed_json.len() > 0 ==> json::has_field(
            record_line(r),
            "viewed_secs"@,
            r.viewed_json,
        ),
        r.viewable ==> json::has_field(record_line(r), "viewable"@, "true"@),
        r.w != 0 ==> json::has_field(record_line(r), "w"@, json::decimal((r.w as int) as nat)),
        r.h != 0 ==> json::has_field(record_line(r), "h"@, json::decimal((r.h as int) as nat)),
        json::has_field(record_line(r), "source"@, json::json_text(r.source)),
{
    lemma_later_fields(r);
    assert({
        &&& json::has_field(
            from_network(r),
            "network"@,
            json::json_text(r.network),
        )
        &&& json::goes_on(from_network(r))
    }) by {
        reveal_strlit(",\"network\":");
        reveal_strlit("network");
        json::lemma_field_at_the_front(
            ",\"network\":"@,
            "network"@,
            json::json_text(r.network),
            from_advertiser(r),
        );
    }
    json::lemma_fields_behind(json::text_field(",\"network\":"@, r.network), from_advertiser(r));
    assert({
        &&& r.landing_url.len() > 0 ==> json::has_field(
            from_landing_url(r),
            "landing_url"@,
            json::json_text(r.landing_url),
        )
        &&& json::goes_on(from_landing_url(r))
    }) by {
        reveal_strlit(",\"landing_url\":");
        reveal_strlit("landing_url");
        if r.landing_url.len() > 0 {
            json::lemma_field_at_the_front(
                ",\"landing_url\":"@,
                "landing_url"@,
                json::json_text(r.landing_url),
                from_network(r),
            );
        } else {
            assert(json::kept_text_field(",\"landing_url\":"@, r.landing_url) + from_network(r) =~= from_network(r));
        }
    }
    json::lemma_fields_behind(
        json::kept_text_field(",\"landing_url\":"@, r.landing_url),
        from_network(r),
    );
    assert({
        &&& r.frame_url.len() > 0 ==> json::has_field(
            from_frame_url(r),
            "frame_url"@,
            json::json_text(r.frame_url),
        )
        &&& json::goes_on(from_frame_url(r))
    }) by {
        reveal_strlit(",\"frame_url\":");
        reveal_strlit("frame_url");
        if r.frame_url.len() > 0 {
            json::lemma_field_at_the_front(
                ",\"frame_url\":"@,
                "frame_url"@,
                json::json_text(r.frame_url),
                from_landing_url(r),
            );
        } else {
            assert(json::kept_text_field(",\"frame_url\":"@, r.frame_url) + from_landing_url(r) =~= from_landing_url(r));
        }
    }
    json::lemma_fields_behind(
        json::kept_text_field(",\"frame_url\":"@, r.frame_url),
        from_landing_url(r),
    );
    assert({
        &&& json::has_field(
            from_page_url(r),
            "page_url"@,
            json::json_text(r.page_url),
        )
        &&& json::goes_on(from_page_url(r))
    }) by {
        reveal_strlit(",\"page_url\":");
        reveal_strlit("page_url");
        json::lemma_field_at_the_front(
            ",\"page_url\":"@,
            "page_url"@,
            json::json_text(r.page_url),
            from_frame_url(r),
        );
    }
    json::lemma_fields_behind(json::text_field(",\"page_url\":"@, r.page_url), from_frame_url(r));
    assert({
        &&& json::has_field(
            from_end(r),
            "end"@,
            json::json_text(r.end),
        )
        &&& json::goes_on(from_end(r))
    }) by {
        reveal_strlit(",\"end\":");
        reveal_strlit("end");
        json::lemma_field_at_the_front(
            ",\"end\":"@,
            "end"@,
            json::json_text(r.end),
            from_page_url(r),
        );
    }
    json::lemma_fields_behind(json::text_field(",\"end\":"@, r.end), from_page_url(r));
    assert(json::has_field(json::text_field("{\"ts\":"@, r.ts) + from_end(r), "ts"@, json::json_text(r.ts))) by {
        reveal_strlit("{\"ts\":");
        reveal_strlit("ts");
        json::lemma_field_at_the_front("{\"ts\":"@, "ts"@, json::json_text(r.ts), from_end(r));
    }
    json::lemma_fields_behind(json::text_field("{\"ts\":"@, r.ts), from_end(r));
    lemma_line_from_the_front(r);
}

/// An ad is filed as a line of the day on which it was closed, in the stream
/// `browser/ads`, whose files are locked while they are written.
pub proof fn law_ads_are_filed_by_their_end(
    root: Seq<char>,
    records: Seq<AdRecordView>,
    plan: Vec<DayAppend>,
    k: int,
)
    requires
        vault::appended(root, "browser/ads"@, record_rows(records), true, Ok(plan)),
        0 <= k < records.len(),
    ensures
        exists|i: int|
            0 <= i < plan@.len() && {
                let a = #[trigger] plan@[i];
                &&& a.day@ == records[k].end.take(10)
                &&& a.rel@ == "browser/ads/"@ + records[k].end.take(10) + ".jsonl"@
                &&& a.flock == true
                &&& exists|j: int|
                    text::occurs_at(a.text@, record_line(records[k]) + seq!['\n'], j)
                        && #[trigger] vault::line_start(a.text@, j)
            },
{
    let rows = record_rows(records);
    vault::law_a_row_is_a_line_of_its_day(root, "browser/ads"@, rows, true, plan@, k);
    assert("browser/ads/"@ =~= "browser/ads"@ + seq!['/']) by {
        reveal_strlit("browser/ads/");
        reveal_strlit("browser/ads");
    }
    assert(rows[k].ts == records[k].end && rows[k].line == record_line(records[k]));
}

/// The record of an event carries the event, in whatever zone its times are
/// written.
pub proof fn law_a_record_is_of_its_event(e: AdEventView, received: Moment, r: AdRecordView)
    requires
        is_record_of(e, received, r),
    ensures
        r.page_url == e.page_url && r.frame_url == e.frame_url && r.landing_url == e.landing_url,
        r.network == network_text(e.frame_url, e.slot),
        r.advertiser == registrable_text(e.landing_url) && r.advertiser_id.len() == 0,
        r.viewable == e.viewable && r.w == e.w && r.h == e.h,
        r.source == "extension"@,
        e.viewed_ms <= 0 ==> r.viewed_json.len() == 0,
{
    let (end_offset, start_offset) = choose|end_offset: i32, start_offset: i32|
        moment::offset_valid(end_offset as int) && moment::offset_valid(start_offset as int) && r
            == #[trigger] record_of(e, received, end_offset, start_offset);
    law_record_carries_its_event(e, received, end_offset, start_offset);
    law_viewing_time_by_case(e, received, end_offset, start_offset);
}

/// The model of an ad event has the fields of the ad event, each its own.
pub proof fn law_model_of_an_ad_event(x: AdEvent)
    ensures
        x@.ts_ms == x.ts_ms,
        x@.end_ms == x.end_ms,
        x@.page_url == x.page_url@,
        x@.frame_url == x.frame_url@,
        x@.landing_url == x.landing_url@,
        x@.slot == x.slot@,
        x@.viewed_ms == x.viewed_ms,
        x@.viewed_json == x.viewed_json@,
        x@.viewable == x.viewable,
        x@.w == x.w,
        x@.h == x.h,
        x@.why_url == x.why_url@,
{
}

/// The model of an ad record has the fields of the ad record, each its own.
pub proof fn law_model_of_an_ad_record(x: AdRecord)
    ensures
        x@.ts == x.ts@,
        x@.end == x.end@,
        x@.page_url == x.page_url@,
        x@.frame_url == x.frame_url@,
        x@.landing_url == x.landing_url@,
        x@.network == x.network@,
        x@.advertiser == x.advertiser@,
        x@.advertiser_id == x.advertiser_id@,
        x@.viewed_json == x.viewed_json@,
        x@.viewable == x.viewable,
        x@.w == x.w,
        x@.h == x.h,
        x@.source == x.source@,
{
}

/// The model of an ad identity has the fields of the ad identity, each its own.
pub proof fn law_model_of_an_ad_identity(x: AdIdentity)
    ensures
        x@.name == x.name@,
        x@.ad_id == x.ad_id@,
{
}

/// The model of a cached identity has the fields of the cached identity, each its own.
pub proof fn law_model_of_a_cached_identity(x: CachedIdentity)
    ensures
        x@.token == x.token@,
        x@.identity == x.identity@,
{
}

/// Each escape is undone: where the text holds no other ampersand, it becomes the
/// character that it stands for. An escaped ampersand comes first, so that what
/// it makes with the text behind it is undone too.
pub proof fn law_escapes_are_undone(front: Seq<char>, rest: Seq<char>)
    requires
        !front.contains('&'),
        !rest.contains('&'),
    ensures
        unescaped(front + "&#39;"@ + rest) == front + seq!['\''] + rest,
        unescaped(front + "&#x27;"@ + rest) == front + seq!['\''] + rest,
        unescaped(front + "&quot;"@ + rest) == front + seq!['"'] + rest,
        unescaped(front + "&lt;"@ + rest) == front + seq!['<'] + rest,
        unescaped(front + "&gt;"@ + rest) == front + seq!['>'] + rest,
        !text::has_prefix(rest, "amp;"@) ==> unescaped(front + "&amp;"@ + rest) == unescaped(
            front + "&"@ + rest,
        ),
{
    reveal_strlit("&amp;");
    reveal_strlit("&#39;");
    reveal_strlit("&#x27;");
    reveal_strlit("&quot;");
    reveal_strlit("&lt;");
    reveal_strlit("&gt;");
    reveal_strlit("'");
    reveal_strlit("\"");
    reveal_strlit("<");
    reveal_strlit(">");
    assert("'"@ =~= seq!['\'']);
    assert("\""@ =~= seq!['"']);
    assert("<"@ =~= seq!['<']);
    assert(">"@ =~= seq!['>']);
    lemma_escape_undone(front, "&#39;"@, '\'', rest);
    lemma_escape_undone(front, "&#x27;"@, '\'', rest);
    lemma_escape_undone(front, "&quot;"@, '"', rest);
    lemma_escape_undone(front, "&lt;"@, '<', rest);
    lemma_escape_undone(front, "&gt;"@, '>', rest);
    if !text::has_prefix(rest, "amp;"@) {
        reveal_strlit("&");
        reveal_strlit("amp;");
        assert("&"@ =~= seq!['&']);
        let t = front + "&"@ + rest;
        lemma_escape_found(front, "&amp;"@, "&"@, rest);
        assert forall|i: int| !#[trigger] text::occurs_at(t, "&amp;"@, i) by {
            if text::occurs_at(t, "&amp;"@, i) {
                lemma_where_the_ampersand_is(front, "&"@, rest, "&amp;"@, i);
                assert("&amp;"@.skip(1) =~= "amp;"@);
                assert(t.subrange(i, i + 5).skip(1) =~= rest.subrange(0, 4));
            }
        }
        lemma_never_replaced(t, "&amp;"@, "&"@, 0);
        assert(t.skip(0) =~= t);
    }
}

/// A text that holds one ampersand has an escape only there.
proof fn lemma_where_the_ampersand_is(
    front: Seq<char>,
    k: Seq<char>,
    rest: Seq<char>,
    p: Seq<char>,
    i: int,
)
    requires
        !front.contains('&'),
        !rest.contains('&'),
        k.len() > 0,
        forall|j: int| 0 < j < k.len() ==> #[trigger] k[j] != '&',
        p.len() > 0 && p[0] == '&',
        text::occurs_at(front + k + rest, p, i),
    ensures
        i == front.len(),
{
    let t = front + k + rest;
    let n = front.len() as int;
    assert(t.subrange(i, i + p.len())[0] == t[i]);
    if i < n {
        assert(t[i] == front[i]);
    } else if i >= n + k.len() {
        assert(t[i] == rest[i - n - k.len()]);
    } else {
        assert(t[i] == k[i - n]);
    }
}

proof fn lemma_never_replaced(s: Seq<char>, from: Seq<char>, to: Seq<char>, i: int)
    requires
        from.len() > 0,
        0 <= i <= s.len(),
        forall|j: int| !#[trigger] text::occurs_at(s, from, j),
    ensures
        text::replaced_from(s, from, to, i) == s.skip(i),
    decreases s.len() - i,
{
    if i < s.len() {
        lemma_never_replaced(s, from, to, i + 1);
        assert(!text::occurs_at(s, from, i));
        assert(seq![s[i]] + s.skip(i + 1) =~= s.skip(i));
    } else {
        assert(s.skip(i) =~= Seq::empty());
    }
}

proof fn lemma_escape_found(front: Seq<char>, k: Seq<char>, to: Seq<char>, rest: Seq<char>)
    requires
        !front.contains('&'),
        !rest.contains('&'),
        k.len() > 0 && k[0] == '&',
    ensures
        text::replaced(front + k + rest, k, to) == front + to + rest,
{
    let t = front + k + rest;
    assert forall|i: int| 0 <= i < front.len() implies !#[trigger] text::occurs_at(t, k, i) by {
        if text::occurs_at(t, k, i) {
            assert(t.subrange(i, i + k.len())[0] == t[i]);
            assert(t[i] == front[i]);
        }
    }
    text::law_replacing_goes_from_the_front(front, k, to, rest);
    lemma_nothing_replaced(rest, k, to, 0);
    assert(rest.skip(0) =~= rest);
}

/// The escape `p` is not `k`, and so it is left alone.
proof fn lemma_other_escape(
    front: Seq<char>,
    k: Seq<char>,
    rest: Seq<char>,
    p: Seq<char>,
    to: Seq<char>,
    j: int,
)
    requires
        !front.contains('&'),
        !rest.contains('&'),
        k.len() > 0,
        forall|j: int| 0 < j < k.len() ==> #[trigger] k[j] != '&',
        p.len() > 0 && p[0] == '&',
        0 <= j < k.len() && j < p.len() && k[j] != p[j],
    ensures
        text::replaced(front + k + rest, p, to) == front + k + rest,
{
    let t = front + k + rest;
    assert forall|i: int| !#[trigger] text::occurs_at(t, p, i) by {
        if text::occurs_at(t, p, i) {
            lemma_where_the_ampersand_is(front, k, rest, p, i);
            assert(t.subrange(i, i + p.len())[j] == t[i + j]);
            assert(t[i + j] == k[j]);
        }
    }
    lemma_never_replaced(t, p, to, 0);
    assert(t.skip(0) =~= t);
}

/// Of the escapes other than that of the ampersand, the one that stands there is
/// undone and the others find nothing.
proof fn lemma_escape_undone(front: Seq<char>, k: Seq<char>, c: char, rest: Seq<char>)
    requires
        !front.contains('&'),
        !rest.contains('&'),
        (k == "&#39;"@ || k == "&#x27;"@) && c == '\'' || k == "&quot;"@ && c == '"' || k
            == "&lt;"@ && c == '<' || k == "&gt;"@ && c == '>',
    ensures
        unescaped(front + k + rest) == front + seq![c] + rest,
{
    reveal_strlit("&amp;");
    reveal_strlit("&#39;");
    reveal_strlit("&#x27;");
    reveal_strlit("&quot;");
    reveal_strlit("&lt;");
    reveal_strlit("&gt;");
    reveal_strlit("'");
    reveal_strlit("\"");
    reveal_strlit("<");
    reveal_strlit(">");
    assert("'"@ =~= seq!['\'']);
    assert("\""@ =~= seq!['"']);
    assert("<"@ =~= seq!['<']);
    assert(">"@ =~= seq!['>']);
    let done = front + seq![c] + rest;
    assert(!done.contains('&')) by {
        assert forall|i: int| 0 <= i < done.len() implies done[i] != '&' by {
            if i < front.len() {
                assert(done[i] == front[i]);
            } else if i > front.len() {
                assert(done[i] == rest[i - front.len() - 1]);
            }
        }
    }
    assert(done.skip(0) =~= done);
    lemma_nothing_replaced(done, "&#x27;"@, "'"@, 0);
    lemma_nothing_replaced(done, "&quot;"@, "\""@, 0);
    lemma_nothing_replaced(done, "&lt;"@, "<"@, 0);
    lemma_nothing_replaced(done, "&gt;"@, ">"@, 0);
    lemma_escape_found(front, k, seq![c], rest);
    lemma_other_escape(front, k, rest, "&amp;"@, "&"@, 1);
    if k != "&#39;"@ {
        lemma_other_escape(front, k, rest, "&#39;"@, "'"@, if k == "&#x27;"@ {
            2
        } else {
            1
        });
        if k != "&#x27;"@ {
            lemma_other_escape(front, k, rest, "&#x27;"@, "'"@, 1);
            if k != "&quot;"@ {
                lemma_other_escape(front, k, rest, "&quot;"@, "\""@, 1);
                if k != "&lt;"@ {
                    lemma_other_escape(front, k, rest, "&lt;"@, "<"@, 1);
                }
            }
        }
    }
}

} // verus!
