//! The collector's view of a vault: where its files are, which integrations
//! are on, and what an append writes.
//!
//! A stream is a folder with one file per local day, one JSON object per line,
//! and is only ever appended to. Whatever is rewritten is written beside its
//! place first and renamed into it.

use crate::activity::{ActivityEvent, EventView};
use crate::browser::{LiveSpan, LiveState};
use crate::json::{push_kept_number_option, push_number_field, push_raw, push_text_field};
use crate::text::{chars_of, comes_before, is_digit, is_space, owned, same_text, stop_at, text_of};
use crate::{activity, browser, json, moment, text};
use vstd::prelude::*;

verus! {

/// Hub toggles, shared with the app.
pub const SETTINGS_FILE: &'static str = ".trove/integrations.json";

/// Heartbeat that the app reads to show whether a collector is running.
pub const STATE_FILE: &'static str = ".trove/watcher-state.json";

/// Single-writer lock: one collector process per vault.
pub const LOCK_FILE: &'static str = ".trove/watcher.lock";

/// Short-lived "watching now" files of the browser hosts.
pub const LIVE_DIR: &'static str = ".trove/live";

// ── paths ───────────────────────────────────────────────────────────────────

/// `path` below `base`: a separator between the two, unless `base` is empty or
/// ends in one.
pub open spec fn joined(base: Seq<char>, path: Seq<char>) -> Seq<char> {
    if base.len() == 0 || base.last() == '/' {
        base + path
    } else {
        base.push('/') + path
    }
}

/// One of the parts of `path` that `/` separates starts at `i` and is `..`.
pub open spec fn parent_at(path: Seq<char>, i: int) -> bool {
    &&& 0 <= i && i + 2 <= path.len()
    &&& path[i] == '.' && path[i + 1] == '.'
    &&& i == 0 || path[i - 1] == '/'
    &&& i + 2 == path.len() || path[i + 2] == '/'
}

/// `path` is absolute or has a part `..`.
pub open spec fn escapes(path: Seq<char>) -> bool {
    ||| path.len() > 0 && path[0] == '/'
    ||| exists|i: int| #[trigger] parent_at(path, i)
}

/// Why an append or a path is refused.
#[derive(Debug, Clone)]
pub enum VaultError {
    /// The vault-relative path would leave the vault.
    Escapes { rel: String },
    /// A record for the stream `dir` has a timestamp that names no day.
    NoDatePrefix { dir: String, ts: String },
}

/// A vault: its root, and where things are below it.
#[derive(Debug, Clone)]
pub struct Vault {
    root: String,
}

impl View for Vault {
    type V = Seq<char>;

    closed spec fn view(&self) -> Seq<char> {
        self.root@
    }
}

/// `path` below `base`.
pub fn join(base: &str, path: &str) -> (r: String)
    ensures
        r@ == joined(base@, path@),
{
    let v = chars_of(base);
    let mut r = owned(base);
    let len: usize = v.len();
    if len > 0 && v[len - 1] != '/' {
        r.push('/');
    }
    r.append(path);
    r
}

fn leaves(path: &str) -> (r: bool)
    ensures
        r == escapes(path@),
{
    let v = chars_of(path);
    let len: usize = v.len();
    if len > 0 && v[0] == '/' {
        return true;
    }
    let mut i: usize = 0;
    while i < len
        invariant
            i <= len,
            len == v@.len(),
            v@ == path@,
            forall|k: int| 0 <= k < i ==> !#[trigger] parent_at(path@, k),
        decreases len - i,
    {
        if v[i] == '.' && len - i >= 2 && v[i + 1] == '.' && (i == 0 || v[i - 1] == '/') && (len - i
            == 2 || v[i + 2] == '/') {
            assert(parent_at(path@, i as int));
            return true;
        }
        i = i + 1;
    }
    false
}

impl Vault {
    /// Default place of the vault: `Documents/Trove` in the home folder.
    pub fn default_root(home: &str) -> (r: String)
        ensures
            r@ == joined(joined(home@, "Documents"@), "Trove"@),
    {
        join(join(home, "Documents").as_str(), "Trove")
    }

    /// The vault at `root`. Its folder `.trove`, which `marker_dir` names, has
    /// to be there before anything is written.
    pub fn open(root: String) -> (r: Vault)
        ensures
            r@ == root@,
    {
        Vault { root }
    }

    /// The folder that makes a folder a vault.
    pub fn marker_dir(&self) -> (r: String)
        ensures
            r@ == joined(self@, ".trove"@),
    {
        join(self.root.as_str(), ".trove")
    }

    pub fn root(&self) -> (r: &str)
        ensures
            r@ == self@,
    {
        self.root.as_str()
    }

    /// Resolve a vault-relative path, refusing anything that escapes the root.
    pub fn resolve(&self, rel: &str) -> (r: Result<String, VaultError>)
        ensures
            match r {
                Ok(path) => !escapes(rel@) && path@ == joined(self@, rel@),
                Err(VaultError::Escapes { rel: bad }) => escapes(rel@) && bad@ == rel@,
                Err(_) => false,
            },
    {
        if leaves(rel) {
            return Err(VaultError::Escapes { rel: owned(rel) });
        }
        Ok(join(self.root.as_str(), rel))
    }
}

/// A resolved path stays inside: it begins with the root, goes on behind a
/// separator, and has no part `..` from there on.
pub proof fn law_resolved_stays_inside(root: Seq<char>, rel: Seq<char>)
    requires
        !escapes(rel),
    ensures
        text::has_prefix(joined(root, rel), root),
        root.len() > 0 ==> root.last() == '/' || joined(root, rel)[root.len() as int] == '/',
        forall|i: int| root.len() <= i ==> !#[trigger] parent_at(joined(root, rel), i),
{
    let p = joined(root, rel);
    assert(p.take(root.len() as int) =~= root);
    assert forall|i: int| root.len() <= i implies !#[trigger] parent_at(p, i) by {
        let lead = p.len() - rel.len();
        assert(p.skip(lead) =~= rel);
        if parent_at(p, i) {
            if lead > root.len() {
                assert(p[root.len() as int] == '/');
            }
            assert(i >= lead);
            assert(p[i] == rel[i - lead] && p[i + 1] == rel[i - lead + 1]);
            if i > lead {
                assert(p[i - 1] == rel[i - lead - 1]);
            }
            assert(parent_at(rel, i - lead));
        }
    }
}

// ── hub toggles ─────────────────────────────────────────────────────────────

/// The app's toggle file: `disabled` opts out of integrations that are on by
/// default, `enabled` opts in to those that are off.
#[derive(Debug, Clone)]
pub struct IntegrationSettings {
    pub disabled: Vec<String>,
    pub enabled: Vec<String>,
}

#[verifier::ext_equal]
pub struct SettingsView {
    pub disabled: Seq<Seq<char>>,
    pub enabled: Seq<Seq<char>>,
}

pub open spec fn text_views(v: Seq<String>) -> Seq<Seq<char>> {
    Seq::new(v.len(), |i: int| v[i]@)
}

impl View for IntegrationSettings {
    type V = SettingsView;

    open spec fn view(&self) -> SettingsView {
        SettingsView { disabled: text_views(self.disabled@), enabled: text_views(self.enabled@) }
    }
}

impl Default for IntegrationSettings {
    fn default() -> (r: IntegrationSettings)
        ensures
            r@ == no_settings(),
    {
        let r = IntegrationSettings { disabled: Vec::new(), enabled: Vec::new() };
        assert(r@ =~= no_settings());
        r
    }
}

/// Every toggle at its default.
pub open spec fn no_settings() -> SettingsView {
    SettingsView { disabled: Seq::empty(), enabled: Seq::empty() }
}

/// The integrations that are on unless the settings turn them off.
pub open spec fn on_by_default(id: Seq<char>) -> bool {
    ||| id == "activity"@
    ||| id == "music-scrobbler"@
    ||| id == "browser-extension"@
    ||| id == "browser-ads"@
}

/// The integrations that are off unless the settings turn them on.
pub open spec fn off_by_default(id: Seq<char>) -> bool {
    id == "browser-ads-identify"@
}

/// Whether `id` is on under the settings. Unknown ids are off.
pub open spec fn is_enabled(settings: SettingsView, id: Seq<char>) -> bool {
    if on_by_default(id) {
        !settings.disabled.contains(id)
    } else {
        off_by_default(id) && settings.enabled.contains(id)
    }
}

/// The settings in force: those of the file, or the defaults where it cannot
/// be read.
pub open spec fn in_force(read: Option<IntegrationSettings>) -> SettingsView {
    match read {
        Some(s) => s@,
        None => no_settings(),
    }
}

fn lists(v: &Vec<String>, id: &str) -> (r: bool)
    ensures
        r == text_views(v@).contains(id@),
{
    let mut i: usize = 0;
    while i < v.len()
        invariant
            i <= v@.len(),
            forall|k: int| 0 <= k < i ==> text_views(v@)[k] != id@,
        decreases v@.len() - i,
    {
        if same_text(v[i].as_str(), id) {
            assert(text_views(v@)[i as int] == id@);
            return true;
        }
        i = i + 1;
    }
    false
}

/// The integrations of this collector, each with its default toggle.
fn default_state(id: &str) -> (r: Option<bool>)
    ensures
        r == Some(true) <==> on_by_default(id@),
        r == Some(false) <==> !on_by_default(id@) && off_by_default(id@),
{
    if same_text(id, "activity") || same_text(id, "music-scrobbler") || same_text(
        id,
        "browser-extension",
    ) || same_text(id, "browser-ads") {
        Some(true)
    } else if same_text(id, "browser-ads-identify") {
        Some(false)
    } else {
        None
    }
}

/// Is `id` on under these settings? Unknown ids are off.
pub fn enabled_in(settings: &IntegrationSettings, id: &str) -> (r: bool)
    ensures
        r == is_enabled(settings@, id@),
{
    match default_state(id) {
        Some(true) => !lists(&settings.disabled, id),
        Some(false) => lists(&settings.enabled, id),
        None => false,
    }
}

impl Vault {
    /// Where the toggle file is.
    pub fn settings_path(&self) -> (r: String)
        ensures
            r@ == joined(self@, SETTINGS_FILE@),
    {
        join(self.root.as_str(), SETTINGS_FILE)
    }

    /// The toggles in force, of what was read of the toggle file: a file that
    /// is missing or unreadable means all defaults.
    pub fn integration_settings(&self, read: Option<IntegrationSettings>) -> (r: IntegrationSettings)
        ensures
            r@ == in_force(read),
    {
        match read {
            Some(s) => s,
            None => IntegrationSettings::default(),
        }
    }

    /// Is the integration on, of what was just read of the toggle file?
    pub fn integration_enabled(&self, read: Option<IntegrationSettings>, id: &str) -> (r: bool)
        ensures
            r == is_enabled(in_force(read), id@),
    {
        enabled_in(&self.integration_settings(read), id)
    }
}

/// A toggle decides about its own integration and no other.
pub proof fn law_toggles_are_independent(s: SettingsView, id: Seq<char>, other: Seq<char>)
    requires
        id != other,
    ensures
        is_enabled(SettingsView { disabled: s.disabled.push(other), ..s }, id) == is_enabled(s, id),
        is_enabled(SettingsView { enabled: s.enabled.push(other), ..s }, id) == is_enabled(s, id),
{
    assert(s.disabled.push(other).contains(id) == s.disabled.contains(id)) by {
        lemma_push_other(s.disabled, id, other);
    }
    assert(s.enabled.push(other).contains(id) == s.enabled.contains(id)) by {
        lemma_push_other(s.enabled, id, other);
    }
}

proof fn lemma_push_other(v: Seq<Seq<char>>, id: Seq<char>, other: Seq<char>)
    requires
        id != other,
    ensures
        v.push(other).contains(id) == v.contains(id),
{
    if v.contains(id) {
        let i = v.index_of(id);
        assert(v.push(other)[i] == id);
    }
    if v.push(other).contains(id) {
        let i = v.push(other).index_of(id);
        assert(v[i] == id);
    }
}

// ── day files ───────────────────────────────────────────────────────────────

/// A record on its way into a stream: the timestamp that says which day it
/// belongs to, and its line.
#[derive(Debug, Clone)]
pub struct DayRow {
    pub ts: String,
    pub line: String,
}

#[verifier::ext_equal]
pub struct RowView {
    pub ts: Seq<char>,
    pub line: Seq<char>,
}

impl View for DayRow {
    type V = RowView;

    open spec fn view(&self) -> RowView {
        RowView { ts: self.ts@, line: self.line@ }
    }
}

pub open spec fn row_views(v: Seq<DayRow>) -> Seq<RowView> {
    Seq::new(v.len(), |i: int| v[i]@)
}

/// What is to be appended to one day file.
#[derive(Debug, Clone)]
pub struct DayAppend {
    /// The day, `YYYY-MM-DD`.
    pub day: String,
    /// The file, relative to the vault.
    pub rel: String,
    pub path: String,
    /// Hold an exclusive lock on the file while writing.
    pub flock: bool,
    pub text: String,
}

#[verifier::ext_equal]
pub struct AppendView {
    pub day: Seq<char>,
    pub rel: Seq<char>,
    pub path: Seq<char>,
    pub flock: bool,
    pub text: Seq<char>,
}

impl View for DayAppend {
    type V = AppendView;

    open spec fn view(&self) -> AppendView {
        AppendView {
            day: self.day@,
            rel: self.rel@,
            path: self.path@,
            flock: self.flock,
            text: self.text@,
        }
    }
}

/// The day that a timestamp names, if it names one.
pub open spec fn day_of(ts: Seq<char>) -> Option<Seq<char>> {
    if moment::has_date_prefix(ts) {
        Some(ts.take(10))
    } else {
        None
    }
}

/// The lines of the day's rows, in the order of the rows.
pub open spec fn lines_on(rows: Seq<RowView>, day: Seq<char>) -> Seq<Seq<char>>
    decreases rows.len(),
{
    if rows.len() == 0 {
        Seq::empty()
    } else if day_of(rows.last().ts) == Some(day) {
        lines_on(rows.drop_last(), day).push(rows.last().line)
    } else {
        lines_on(rows.drop_last(), day)
    }
}

/// The lines, each with its line end.
pub open spec fn file_text(lines: Seq<Seq<char>>) -> Seq<char>
    decreases lines.len(),
{
    if lines.len() == 0 {
        Seq::empty()
    } else {
        file_text(lines.drop_last()) + lines.last().push('\n')
    }
}

/// Some row belongs to the day.
pub open spec fn falls_on(rows: Seq<RowView>, day: Seq<char>) -> bool {
    exists|i: int| 0 <= i < rows.len() && day_of((#[trigger] rows[i]).ts) == Some(day)
}

/// The file of a day in the stream `dir`.
pub open spec fn day_rel(dir: Seq<char>, day: Seq<char>) -> Seq<char> {
    dir + "/"@ + day + ".jsonl"@
}

/// What appending the rows to the stream `dir` writes: one append for each day
/// that a row falls on and for no other, in the order of the days, each with
/// all rows of its day.
pub open spec fn appends(
    root: Seq<char>,
    dir: Seq<char>,
    rows: Seq<RowView>,
    flock: bool,
    plan: Seq<DayAppend>,
) -> bool {
    &&& forall|i: int, j: int|
        0 <= i < j < plan.len() ==> text::text_before(
            (#[trigger] plan[i]).day@,
            (#[trigger] plan[j]).day@,
        )
    &&& forall|i: int|
        0 <= i < plan.len() ==> {
            let day = (#[trigger] plan[i]).day@;
            &&& falls_on(rows, day)
            &&& plan[i]@ == AppendView {
                day,
                rel: day_rel(dir, day),
                path: joined(root, day_rel(dir, day)),
                flock,
                text: file_text(lines_on(rows, day)),
            }
        }
    &&& forall|day: Seq<char>| #[trigger]
        falls_on(rows, day) ==> exists|i: int| 0 <= i < plan.len() && (#[trigger] plan[i]).day@ == day
}

/// The first row that names no day.
pub open spec fn first_undated(rows: Seq<RowView>) -> Option<int>
    decreases rows.len(),
{
    if rows.len() == 0 {
        None
    } else {
        match first_undated(rows.drop_last()) {
            Some(i) => Some(i),
            None => if day_of(rows.last().ts) is None {
                Some(rows.len() - 1)
            } else {
                None
            },
        }
    }
}

/// A stream folder that no file may be written below: absolute, or with a part
/// `..`. The empty name counts, since a path below it would begin with `/`.
pub open spec fn bad_stream(dir: Seq<char>) -> bool {
    dir.len() == 0 || escapes(dir)
}

/// The `YYYY-MM-DD` prefix of a timestamp, if it has one.
pub fn day_key(ts: &str) -> (r: Option<String>)
    ensures
        match r {
            Some(day) => day_of(ts@) == Some(day@),
            None => day_of(ts@) is None,
        },
{
    let v = chars_of(ts);
    if v.len() < 10 {
        return None;
    }
    let mut i: usize = 0;
    while i < 10
        invariant
            i <= 10 <= v@.len(),
            v@ == ts@,
            forall|k: int|
                0 <= k < i ==> if k == 4 || k == 7 {
                    #[trigger] v@[k] == '-'
                } else {
                    text::is_digit_char(v@[k])
                },
        decreases 10 - i,
    {
        let fits = if i == 4 || i == 7 {
            v[i] == '-'
        } else {
            is_digit(v[i])
        };
        if !fits {
            assert(!moment::has_date_prefix(ts@)) by {
                let c = ts@[i as int];
            }
            return None;
        }
        i = i + 1;
    }
    let day = text_of(&v, 0, 10);
    assert(day@ =~= ts@.take(10));
    Some(day)
}

/// The day is the earliest that a row falls on.
pub open spec fn is_earliest(rows: Seq<RowView>, day: Seq<char>) -> bool {
    &&& falls_on(rows, day)
    &&& forall|other: Seq<char>| #[trigger]
        falls_on(rows, other) ==> other == day || text::text_before(day, other)
}

/// What an append answers. It is refused as a whole, with the first timestamp
/// that names no day, or else with the path of the first file if the stream's
/// folder is not one to write below.
pub open spec fn appended(
    root: Seq<char>,
    dir: Seq<char>,
    rows: Seq<RowView>,
    flock: bool,
    r: Result<Vec<DayAppend>, VaultError>,
) -> bool {
    match r {
        Ok(plan) => {
            &&& first_undated(rows) is None
            &&& rows.len() == 0 || !bad_stream(dir)
            &&& appends(root, dir, rows, flock, plan@)
        },
        Err(VaultError::NoDatePrefix { dir: d, ts }) => {
            &&& d@ == dir
            &&& first_undated(rows) matches Some(i)
            &&& 0 <= i < rows.len()
            &&& ts@ == rows[i].ts
        },
        Err(VaultError::Escapes { rel }) => {
            &&& first_undated(rows) is None
            &&& rows.len() > 0 && bad_stream(dir)
            &&& exists|day: Seq<char>|
                #![trigger day_rel(dir, day)]
                is_earliest(rows, day) && rel@ == day_rel(dir, day)
        },
    }
}

/// Whether a day file may be written is decided by its stream's folder alone.
proof fn lemma_stream_escapes(dir: Seq<char>, day: Seq<char>)
    requires
        day.len() == 10,
        moment::has_date_prefix(day),
    ensures
        escapes(day_rel(dir, day)) == bad_stream(dir),
{
    reveal_strlit("/");
    reveal_strlit(".jsonl");
    let rel = day_rel(dir, day);
    let n = dir.len() as int;
    assert(rel[n] == '/');
    assert(forall|i: int| 0 <= i < n ==> rel[i] == dir[i]);
    assert forall|i: int| n < i < rel.len() implies rel[i] != '/' by {
        if i < n + 11 {
            assert(rel[i] == day[i - n - 1]);
        } else {
            assert(rel[i] == ".jsonl"@[i - n - 11]);
        }
    }
    assert(rel[n + 1] == day[0]);
    if exists|i: int| #[trigger] parent_at(rel, i) {
        let i = choose|i: int| #[trigger] parent_at(rel, i);
        assert(i + 2 <= n);
        assert(parent_at(dir, i));
    }
    if exists|i: int| #[trigger] parent_at(dir, i) {
        let i = choose|i: int| #[trigger] parent_at(dir, i);
        assert(parent_at(rel, i));
    }
}

proof fn lemma_first_undated(rows: Seq<RowView>, n: int, i: int)
    requires
        0 <= n <= rows.len(),
        first_undated(rows.take(n)) == Some(i),
    ensures
        first_undated(rows) == Some(i),
    decreases rows.len(),
{
    if n < rows.len() {
        assert(rows.drop_last().take(n) =~= rows.take(n));
        lemma_first_undated(rows.drop_last(), n, i);
    } else {
        assert(rows.take(n) =~= rows);
    }
}

proof fn lemma_no_lines(rows: Seq<RowView>, day: Seq<char>)
    requires
        !falls_on(rows, day),
    ensures
        lines_on(rows, day) == Seq::<Seq<char>>::empty(),
    decreases rows.len(),
{
    if rows.len() > 0 {
        let less = rows.drop_last();
        if falls_on(less, day) {
            let i = choose|i: int| 0 <= i < less.len() && day_of((#[trigger] less[i]).ts) == Some(day);
            assert(day_of(rows[i].ts) == Some(day));
        }
        assert(day_of(rows[rows.len() - 1].ts) != Some(day));
        lemma_no_lines(less, day);
    }
}

proof fn lemma_falls_on_push(rows: Seq<RowView>, row: RowView, day: Seq<char>)
    ensures
        falls_on(rows.push(row), day) == (falls_on(rows, day) || day_of(row.ts) == Some(day)),
{
    let more = rows.push(row);
    if falls_on(rows, day) {
        let i = choose|i: int| 0 <= i < rows.len() && day_of((#[trigger] rows[i]).ts) == Some(day);
        assert(more[i] == rows[i]);
    }
    if day_of(row.ts) == Some(day) {
        assert(more[rows.len() as int] == row);
    }
    if falls_on(more, day) {
        let i = choose|i: int| 0 <= i < more.len() && day_of((#[trigger] more[i]).ts) == Some(day);
        if i < rows.len() {
            assert(more[i] == rows[i]);
        }
    }
}

/// One row more: its day's append gets the line, or comes in at its place.
proof fn lemma_row_filed(
    root: Seq<char>,
    dir: Seq<char>,
    rows: Seq<RowView>,
    row: RowView,
    flock: bool,
    plan: Seq<DayAppend>,
    next: Seq<DayAppend>,
    at: int,
)
    requires
        appends(root, dir, rows, flock, plan),
        day_of(row.ts) is Some,
        0 <= at <= plan.len(),
        forall|k: int|
            0 <= k < at ==> text::text_before((#[trigger] plan[k]).day@, day_of(row.ts)->0),
        ({
            let day = day_of(row.ts)->0;
            if at < plan.len() && plan[at].day@ == day {
                &&& next == plan.update(at, next[at])
                &&& next[at]@ == AppendView {
                    text: plan[at].text@ + row.line.push('\n'),
                    ..plan[at]@
                }
            } else {
                &&& at < plan.len() ==> !text::text_before(plan[at].day@, day)
                &&& next == plan.insert(at, next[at])
                &&& next[at]@ == AppendView {
                    day,
                    rel: day_rel(dir, day),
                    path: joined(root, day_rel(dir, day)),
                    flock,
                    text: row.line.push('\n'),
                }
            }
        }),
    ensures
        appends(root, dir, rows.push(row), flock, next),
{
    let day = day_of(row.ts)->0;
    let more = rows.push(row);
    assert(more.drop_last() =~= rows);
    assert forall|d: Seq<char>| #[trigger]
        falls_on(more, d) == (falls_on(rows, d) || d == day) by {
        lemma_falls_on_push(rows, row, d);
    }
    let old_lines = lines_on(rows, day);
    assert(lines_on(more, day) == old_lines.push(row.line));
    assert(old_lines.push(row.line).drop_last() =~= old_lines);
    assert(file_text(lines_on(more, day)) == file_text(old_lines) + row.line.push('\n'));
    let same = at < plan.len() && plan[at].day@ == day;
    if !same {
        assert forall|k: int| at <= k < plan.len() implies text::text_before(
            day,
            (#[trigger] plan[k]).day@,
        ) by {
            assert(day.take(0) =~= plan[at].day@.take(0));
            text::lemma_before_total(day, plan[at].day@, 0);
            if at < k {
                text::lemma_before_transitive(day, plan[at].day@, plan[k].day@, 0);
            }
        }
        text::lemma_before_irreflexive(day, 0);
        assert(!falls_on(rows, day));
        lemma_no_lines(rows, day);
        assert(file_text(lines_on(more, day)) =~= row.line.push('\n'));
    }
    assert forall|i: int, j: int| 0 <= i < j < next.len() implies text::text_before(
        (#[trigger] next[i]).day@,
        (#[trigger] next[j]).day@,
    ) by {
        if !same {
            let a = if i < at {
                i
            } else {
                i - 1
            };
            let b = if j < at {
                j
            } else {
                j - 1
            };
            assert(i != at ==> next[i] == plan[a]);
            assert(j != at ==> next[j] == plan[b]);
        }
    }
    assert forall|i: int| 0 <= i < next.len() implies {
        let d = (#[trigger] next[i]).day@;
        &&& falls_on(more, d)
        &&& next[i]@ == AppendView {
            day: d,
            rel: day_rel(dir, d),
            path: joined(root, day_rel(dir, d)),
            flock,
            text: file_text(lines_on(more, d)),
        }
    } by {
        let k = if same || i < at {
            i
        } else {
            i - 1
        };
        if i != at {
            assert(next[i] == plan[k]);
            if plan[k].day@ == day {
                text::lemma_before_irreflexive(day, 0);
                if same && k > at {
                    assert(text::text_before(plan[at].day@, plan[k].day@));
                }
            }
            assert(plan[k].day@ != day);
            assert(lines_on(more, plan[k].day@) == lines_on(rows, plan[k].day@));
        }
        assert(falls_on(more, next[i].day@) == (falls_on(rows, next[i].day@) || next[i].day@
            == day));
    }
    assert forall|d: Seq<char>| #[trigger] falls_on(more, d) implies exists|i: int|
        0 <= i < next.len() && (#[trigger] next[i]).day@ == d by {
        if d == day {
            assert(next[at].day@ == d);
        } else {
            assert(falls_on(rows, d));
            let k = choose|k: int| 0 <= k < plan.len() && (#[trigger] plan[k]).day@ == d;
            if same || k < at {
                assert(next[k].day@ == d);
            } else {
                assert(next[k + 1] == plan[k]);
            }
        }
    }
}

/// Where the day belongs among the days of the plan.
fn place_of(plan: &Vec<DayAppend>, day: &str) -> (r: usize)
    ensures
        r <= plan@.len(),
        forall|k: int| 0 <= k < r ==> text::text_before((#[trigger] plan@[k]).day@, day@),
        r < plan@.len() ==> !text::text_before(plan@[r as int].day@, day@),
{
    let mut i: usize = 0;
    while i < plan.len() && comes_before(plan[i].day.as_str(), day)
        invariant
            i <= plan@.len(),
            forall|k: int| 0 <= k < i ==> text::text_before((#[trigger] plan@[k]).day@, day@),
        decreases plan@.len() - i,
    {
        i = i + 1;
    }
    i
}

impl Vault {
    /// Plan the append of rows to `<dir>/YYYY-MM-DD.jsonl`, grouped by the day
    /// prefix of their timestamps. With `flock` each file is to be locked
    /// while it is written: for streams with more than one writer process.
    ///
    /// A row whose timestamp has no `YYYY-MM-DD` prefix is an error and fails
    /// the whole call, so that no file is touched.
    pub fn append_day_jsonl(&self, dir: &str, rows: &Vec<DayRow>, flock: bool) -> (r: Result<
        Vec<DayAppend>,
        VaultError,
    >)
        ensures
            appended(self@, dir@, row_views(rows@), flock, r),
    {
        let ghost all = row_views(rows@);
        let mut plan: Vec<DayAppend> = Vec::new();
        let mut i: usize = 0;
        assert(all.take(0) =~= Seq::empty());
        while i < rows.len()
            invariant
                i <= rows@.len(),
                all == row_views(rows@),
                first_undated(all.take(i as int)) is None,
                appends(self@, dir@, all.take(i as int), flock, plan@),
            decreases rows@.len() - i,
        {
            let ghost before = all.take(i as int);
            let ghost row = rows@[i as int]@;
            let ghost was = plan@;
            assert(all.take(i + 1) =~= before.push(row));
            assert(before.push(row).drop_last() =~= before);
            let day = match day_key(rows[i].ts.as_str()) {
                Some(day) => day,
                None => {
                    assert(first_undated(all.take(i + 1)) == Some(i as int));
                    proof {
                        lemma_first_undated(all, i + 1, i as int);
                    }
                    return Err(
                        VaultError::NoDatePrefix { dir: owned(dir), ts: rows[i].ts.clone() },
                    );
                },
            };
            let at: usize = place_of(&plan, day.as_str());
            let mut text = rows[i].line.clone();
            text.push('\n');
            if at < plan.len() && same_text(plan[at].day.as_str(), day.as_str()) {
                let mut append = plan.remove(at);
                append.text.append(text.as_str());
                plan.insert(at, append);
                assert(plan@ =~= was.update(at as int, plan@[at as int]));
            } else {
                let mut rel = owned(dir);
                rel.append("/");
                rel.append(day.as_str());
                rel.append(".jsonl");
                let path = join(self.root.as_str(), rel.as_str());
                plan.insert(at, DayAppend { day, rel, path, flock, text });
            }
            proof {
                lemma_row_filed(self@, dir@, before, row, flock, was, plan@, at as int);
            }
            i = i + 1;
        }
        assert(all.take(all.len() as int) =~= all);
        if plan.len() > 0 {
            let ghost first = plan@[0].day@;
            proof {
                let k = choose|k: int|
                    0 <= k < all.len() && day_of((#[trigger] all[k]).ts) == Some(first);
                assert(first == all[k].ts.take(10));
                lemma_stream_escapes(dir@, first);
            }
            match self.resolve(plan[0].rel.as_str()) {
                Ok(_) => {},
                Err(e) => {
                    proof {
                        assert(is_earliest(all, first)) by {
                            assert forall|other: Seq<char>| #[trigger]
                                falls_on(all, other) implies other == first || text::text_before(
                                first,
                                other,
                            ) by {
                                let k = choose|k: int|
                                    0 <= k < plan@.len() && (#[trigger] plan@[k]).day@ == other;
                            }
                        }
                        assert(plan@[0].rel@ == day_rel(dir@, first));
                    }
                    return Err(e);
                },
            }
        } else {
            proof {
                if rows@.len() > 0 {
                    let day = day_of(all[0].ts);
                    lemma_dated(all, 0);
                    assert(falls_on(all, day->0));
                }
            }
        }
        Ok(plan)
    }
}

/// Where every timestamp names a day, none is the first that does not.
pub proof fn lemma_none_undated(rows: Seq<RowView>)
    requires
        forall|i: int| 0 <= i < rows.len() ==> moment::has_date_prefix((#[trigger] rows[i]).ts),
    ensures
        first_undated(rows) is None,
    decreases rows.len(),
{
    if rows.len() > 0 {
        let less = rows.drop_last();
        assert forall|i: int| 0 <= i < less.len() implies moment::has_date_prefix(
            (#[trigger] less[i]).ts,
        ) by {
            assert(less[i] == rows[i]);
        }
        lemma_none_undated(less);
        assert(moment::has_date_prefix(rows[rows.len() - 1].ts));
    }
}

proof fn lemma_dated(rows: Seq<RowView>, i: int)
    requires
        0 <= i < rows.len(),
        first_undated(rows) is None,
    ensures
        day_of(rows[i].ts) is Some,
    decreases rows.len(),
{
    if i < rows.len() - 1 {
        lemma_dated(rows.drop_last(), i);
    }
}

// ── reading back ────────────────────────────────────────────────────────────

/// Nothing but white space.
pub open spec fn is_blank(s: Seq<char>) -> bool {
    forall|i: int| 0 <= i < s.len() ==> text::is_space_char(#[trigger] s[i])
}

/// What a line that ends at a line feed holds: a carriage return before it
/// belongs to the line end.
pub open spec fn without_return(s: Seq<char>) -> Seq<char> {
    if s.len() > 0 && s.last() == '\r' {
        s.drop_last()
    } else {
        s
    }
}

/// The lines of `body` from position `from` on that are not blank.
pub open spec fn lines_from(body: Seq<char>, from: int) -> Seq<Seq<char>>
    decreases body.len() - from,
    when 0 <= from
{
    let end = text::stop_from(body, seq!['\n'], from);
    if from >= body.len() || end < from {
        Seq::empty()
    } else if end >= body.len() {
        unless_blank(body.subrange(from, body.len() as int))
    } else {
        unless_blank(without_return(body.subrange(from, end))) + lines_from(body, end + 1)
    }
}

/// The line alone, or nothing if it is blank.
pub open spec fn unless_blank(line: Seq<char>) -> Seq<Seq<char>> {
    if is_blank(line) {
        Seq::empty()
    } else {
        seq![line]
    }
}

fn blank(s: &str) -> (r: bool)
    ensures
        r == is_blank(s@),
{
    let v = chars_of(s);
    let mut i: usize = 0;
    while i < v.len()
        invariant
            i <= v@.len(),
            v@ == s@,
            forall|k: int| 0 <= k < i ==> text::is_space_char(#[trigger] v@[k]),
        decreases v@.len() - i,
    {
        if !is_space(v[i]) {
            assert(!text::is_space_char(s@[i as int]));
            return false;
        }
        i = i + 1;
    }
    true
}

/// The lines of `body` that are not blank.
fn lines_of(body: &str) -> (r: Vec<String>)
    ensures
        text_views(r@) == lines_from(body@, 0),
{
    let mut lines: Vec<String> = Vec::new();
    let v = chars_of(body);
    let mut stops: Vec<char> = Vec::new();
    stops.push('\n');
    assert(stops@ =~= seq!['\n']);
    let mut i: usize = 0;
    assert(text_views(lines@) + lines_from(body@, 0) =~= lines_from(body@, 0));
    while i < v.len()
        invariant
            i <= v@.len(),
            v@ == body@,
            stops@ == seq!['\n'],
            text_views(lines@) + lines_from(body@, i as int) == lines_from(body@, 0),
        decreases v@.len() - i,
    {
        let end: usize = stop_at(&v, &stops, i);
        proof {
            text::lemma_stop_bounds(body@, seq!['\n'], i as int);
        }
        let mut upto: usize = end;
        if end < v.len() && end > i && v[end - 1] == '\r' {
            upto = end - 1;
        }
        let line = text_of(&v, i, upto);
        assert(end < v@.len() ==> line@ =~= without_return(body@.subrange(i as int, end as int)));
        let ghost before = text_views(lines@);
        let ghost found = unless_blank(line@);
        if !blank(line.as_str()) {
            lines.push(line);
        }
        assert(text_views(lines@) =~= before + found);
        if end >= v.len() {
            return lines;
        }
        assert(before + (found + lines_from(body@, end + 1)) =~= (before + found) + lines_from(
            body@,
            end + 1,
        ));
        i = end + 1;
    }
    assert(text_views(lines@) + lines_from(body@, i as int) =~= text_views(lines@));
    lines
}

impl Vault {
    /// The records of a day file, in file order: its lines that are not blank. A
    /// missing file has none.
    pub fn read_day_jsonl(&self, body: Option<String>) -> (r: Vec<String>)
        ensures
            text_views(r@) == match body {
                Some(b) => lines_from(b@, 0),
                None => Seq::empty(),
            },
    {
        match body {
            Some(b) => lines_of(b.as_str()),
            None => {
                let r: Vec<String> = Vec::new();
                assert(text_views(r@) =~= Seq::empty());
                r
            },
        }
    }
}

proof fn lemma_stop_behind(a: Seq<char>, b: Seq<char>, from: int)
    requires
        0 <= from <= b.len(),
    ensures
        text::stop_from(a + b, seq!['\n'], a.len() + from) == a.len() + text::stop_from(
            b,
            seq!['\n'],
            from,
        ),
    decreases b.len() - from,
{
    if from < b.len() {
        assert((a + b)[a.len() + from] == b[from]);
        if !seq!['\n'].contains(b[from]) {
            lemma_stop_behind(a, b, from + 1);
        }
    }
}

/// What stands before has no part in the lines from the end of it on.
proof fn lemma_lines_behind(a: Seq<char>, b: Seq<char>, from: int)
    requires
        0 <= from <= b.len(),
    ensures
        lines_from(a + b, a.len() + from) == lines_from(b, from),
    decreases b.len() - from,
{
    let end = text::stop_from(b, seq!['\n'], from);
    lemma_stop_behind(a, b, from);
    text::lemma_stop_bounds(b, seq!['\n'], from);
    if from < b.len() {
        assert((a + b).subrange(a.len() + from, a.len() + end) =~= b.subrange(from, end));
        if end < b.len() {
            lemma_lines_behind(a, b, end + 1);
        }
    }
}

proof fn lemma_stop_before(a: Seq<char>, b: Seq<char>, from: int)
    requires
        0 <= from < a.len(),
        a.last() == '\n',
    ensures
        text::stop_from(a + b, seq!['\n'], from) == text::stop_from(a, seq!['\n'], from),
        text::stop_from(a, seq!['\n'], from) < a.len(),
    decreases a.len() - from,
{
    assert((a + b)[from] == a[from]);
    assert(seq!['\n'][0] == '\n');
    if !seq!['\n'].contains(a[from]) {
        lemma_stop_before(a, b, from + 1);
    }
}

proof fn lemma_lines_before(a: Seq<char>, b: Seq<char>, from: int)
    requires
        0 <= from <= a.len(),
        a.len() == 0 || a.last() == '\n',
    ensures
        lines_from(a + b, from) == lines_from(a, from) + lines_from(b, 0),
    decreases a.len() - from,
{
    if from >= a.len() {
        lemma_lines_behind(a, b, 0);
        assert(lines_from(a, from) + lines_from(b, 0) =~= lines_from(b, 0));
    } else {
        let end = text::stop_from(a, seq!['\n'], from);
        lemma_stop_before(a, b, from);
        text::lemma_stop_bounds(a, seq!['\n'], from);
        assert((a + b).subrange(from, end) =~= a.subrange(from, end));
        lemma_lines_before(a, b, end + 1);
        let line = unless_blank(without_return(a.subrange(from, end)));
        assert(line + (lines_from(a, end + 1) + lines_from(b, 0)) =~= (line + lines_from(a, end + 1))
            + lines_from(b, 0));
    }
}

proof fn lemma_file_text_ends(lines: Seq<Seq<char>>)
    ensures
        file_text(lines).len() == 0 || file_text(lines).last() == '\n',
        lines.len() == 0 <==> file_text(lines).len() == 0,
{
}

/// Appending adds records and changes none: of a file that is empty or ends in
/// a line end, and of any text behind it, a reader gets the file's records and
/// then those of the text.
pub proof fn law_append_keeps_records(body: Seq<char>, added: Seq<char>)
    requires
        body.len() == 0 || body.last() == '\n',
    ensures
        lines_from(body + added, 0) == lines_from(body, 0) + lines_from(added, 0),
{
    lemma_lines_before(body, added, 0);
}

/// A reader gets back what was written: the records of the text that an append
/// writes are its lines, in their order.
pub proof fn law_read_gives_back_what_was_written(lines: Seq<Seq<char>>)
    requires
        forall|i: int| 0 <= i < lines.len() ==> json::is_line(#[trigger] lines[i]),
    ensures
        lines_from(file_text(lines), 0) == lines,
        file_text(lines).len() == 0 || file_text(lines).last() == '\n',
    decreases lines.len(),
{
    lemma_file_text_ends(lines);
    if lines.len() > 0 {
        let less = lines.drop_last();
        let line = lines.last();
        assert forall|i: int| 0 <= i < less.len() implies json::is_line(#[trigger] less[i]) by {
            assert(less[i] == lines[i]);
        }
        law_read_gives_back_what_was_written(less);
        let last = line.push('\n');
        lemma_lines_before(file_text(less), last, 0);
        assert(json::is_line(lines[lines.len() - 1]));
        text::lemma_stop_bounds(last, seq!['\n'], 0);
        let end = text::stop_from(last, seq!['\n'], 0);
        assert(last[line.len() as int] == '\n');
        assert(seq!['\n'][0] == '\n');
        assert(seq!['\n'].contains(last[line.len() as int]));
        if end < line.len() {
            assert(last[end] == line[end]);
            assert(seq!['\n'].contains(last[end]));
        }
        assert(end == line.len());
        assert(last.subrange(0, end) =~= line);
        assert(without_return(line) == line);
        assert(!text::is_space_char(line[0]));
        assert(lines_from(last, end + 1) =~= Seq::empty());
        assert(lines_from(last, 0) =~= seq![line]);
        assert(less + seq![line] =~= lines);
    } else {
        assert(lines_from(file_text(lines), 0) =~= lines);
    }
}

/// A reader gets of every append the lines of its day's rows.
pub open spec fn reads_back(rows: Seq<RowView>, plan: Seq<DayAppend>) -> bool {
    forall|i: int|
        0 <= i < plan.len() ==> lines_from((#[trigger] plan[i]).text@, 0) == lines_on(
            rows,
            plan[i].day@,
        )
}

/// What is to be done with the records of a stream of the collector: nothing
/// if there are none.
pub open spec fn is_append(
    root: Seq<char>,
    dir: Seq<char>,
    rows: Seq<RowView>,
    flock: bool,
    append: Option<Result<Vec<DayAppend>, VaultError>>,
) -> bool {
    match append {
        Some(r) => {
            &&& rows.len() > 0
            &&& appended(root, dir, rows, flock, r)
            &&& r matches Err(e) ==> e is NoDatePrefix
            &&& r matches Ok(plan) ==> reads_back(rows, plan@)
        },
        None => rows.len() == 0,
    }
}

proof fn lemma_lines_on_are_lines(rows: Seq<RowView>, day: Seq<char>)
    requires
        forall|i: int| 0 <= i < rows.len() ==> json::is_line((#[trigger] rows[i]).line),
    ensures
        forall|i: int|
            0 <= i < lines_on(rows, day).len() ==> json::is_line(#[trigger] lines_on(rows, day)[i]),
    decreases rows.len(),
{
    if rows.len() > 0 {
        let less = rows.drop_last();
        assert forall|i: int| 0 <= i < less.len() implies json::is_line((#[trigger] less[i]).line) by {
            assert(less[i] == rows[i]);
        }
        lemma_lines_on_are_lines(less, day);
        assert(json::is_line(rows[rows.len() - 1].line));
        let lines = lines_on(rows, day);
        assert forall|i: int| 0 <= i < lines.len() implies json::is_line(#[trigger] lines[i]) by {
            if i < lines_on(less, day).len() {
                assert(lines[i] == lines_on(less, day)[i]);
            }
        }
    }
}

/// A stream reads back as it was appended: where every row has the line of a
/// record, a reader gets of each day's append the lines of that day's rows.
pub proof fn law_stream_reads_back(
    root: Seq<char>,
    dir: Seq<char>,
    rows: Seq<RowView>,
    flock: bool,
    plan: Seq<DayAppend>,
)
    requires
        appends(root, dir, rows, flock, plan),
        forall|i: int| 0 <= i < rows.len() ==> json::is_line((#[trigger] rows[i]).line),
    ensures
        reads_back(rows, plan),
{
    assert forall|i: int| 0 <= i < plan.len() implies lines_from((#[trigger] plan[i]).text@, 0)
        == lines_on(rows, plan[i].day@) by {
        assert(plan[i]@.text == plan[i].text@);
        lemma_lines_on_are_lines(rows, plan[i].day@);
        law_read_gives_back_what_was_written(lines_on(rows, plan[i].day@));
    }
}

proof fn lemma_lines_on_both(rows: Seq<RowView>, more: Seq<RowView>, day: Seq<char>)
    ensures
        lines_on(rows + more, day) == lines_on(rows, day) + lines_on(more, day),
    decreases more.len(),
{
    if more.len() == 0 {
        assert(rows + more =~= rows);
        assert(lines_on(rows, day) + lines_on(more, day) =~= lines_on(rows, day));
    } else {
        assert((rows + more).drop_last() =~= rows + more.drop_last());
        assert((rows + more).last() == more.last());
        lemma_lines_on_both(rows, more.drop_last(), day);
        let less = lines_on(rows, day) + lines_on(more.drop_last(), day);
        assert(less.push(more.last().line) =~= lines_on(rows, day) + lines_on(
            more.drop_last(),
            day,
        ).push(more.last().line));
    }
}

proof fn lemma_file_text_both(a: Seq<Seq<char>>, b: Seq<Seq<char>>)
    ensures
        file_text(a + b) == file_text(a) + file_text(b),
    decreases b.len(),
{
    if b.len() == 0 {
        assert(a + b =~= a);
        assert(file_text(a) + file_text(b) =~= file_text(a));
    } else {
        assert((a + b).drop_last() =~= a + b.drop_last());
        lemma_file_text_both(a, b.drop_last());
        let last = b.last().push('\n');
        assert(file_text(a) + (file_text(b.drop_last()) + last) =~= (file_text(a) + file_text(
            b.drop_last(),
        )) + last);
    }
}

/// How the rows are split into appends makes no difference: a day file gets
/// from two appends what one append of all the rows would write.
pub proof fn law_two_appends_are_one(rows: Seq<RowView>, more: Seq<RowView>, day: Seq<char>)
    ensures
        file_text(lines_on(rows + more, day)) == file_text(lines_on(rows, day)) + file_text(
            lines_on(more, day),
        ),
{
    lemma_lines_on_both(rows, more, day);
    lemma_file_text_both(lines_on(rows, day), lines_on(more, day));
}

/// Every row is written exactly once: its day has one append and no two have
/// the same day.
pub proof fn law_each_row_has_one_file(
    root: Seq<char>,
    dir: Seq<char>,
    rows: Seq<RowView>,
    flock: bool,
    plan: Seq<DayAppend>,
    k: int,
)
    requires
        appends(root, dir, rows, flock, plan),
        first_undated(rows) is None,
        0 <= k < rows.len(),
    ensures
        exists|i: int|
            0 <= i < plan.len() && day_of(rows[k].ts) == Some((#[trigger] plan[i]).day@),
        forall|i: int, j: int|
            0 <= i < j < plan.len() ==> (#[trigger] plan[i]).day@ != (#[trigger] plan[j]).day@,
{
    lemma_dated(rows, k);
    assert(falls_on(rows, day_of(rows[k].ts)->0));
    assert forall|i: int, j: int| 0 <= i < j < plan.len() implies (#[trigger] plan[i]).day@ != (
    #[trigger] plan[j]).day@ by {
        text::lemma_before_irreflexive(plan[i].day@, 0);
    }
}

/// One file per local day: two rows whose timestamps carry the local date go to
/// the same file of a stream exactly when they fall on the same day.
pub proof fn law_one_file_per_local_day(
    dir: Seq<char>,
    a: Seq<char>,
    la: int,
    b: Seq<char>,
    lb: int,
)
    requires
        moment::has_date_prefix(a) && moment::is_local_date(a.take(10), la),
        moment::has_date_prefix(b) && moment::is_local_date(b.take(10), lb),
    ensures
        day_rel(dir, day_of(a)->0) == day_rel(dir, day_of(b)->0) <==> la / 86_400 == lb / 86_400,
{
    let x = a.take(10);
    let y = b.take(10);
    moment::law_one_date_per_local_day(x, la, y, lb);
    let lead = dir + "/"@;
    let n = lead.len() as int;
    assert(day_rel(dir, x).subrange(n, n + 10) =~= x);
    assert(day_rel(dir, y).subrange(n, n + 10) =~= y);
}

// ── whole files ─────────────────────────────────────────────────────────────

/// A file to be written whole: first beside its place, then renamed into it,
/// so that a reader never sees a part of it.
#[derive(Debug, Clone)]
pub struct AtomicWrite {
    pub temp: String,
    pub path: String,
    pub text: String,
}

/// Behind its last separator, `path` has the name of a file.
pub open spec fn names_file(path: Seq<char>) -> bool {
    let name = text::after_last(path, '/');
    name.len() > 0 && name != "."@ && name != ".."@
}

/// The name that a file has until it is renamed into its place.
pub open spec fn temp_of(path: Seq<char>) -> Seq<char> {
    path + ".tmp"@
}

/// Write a whole file: sibling temp file, then rename over the target.
pub fn write_atomic(path: String, text: String) -> (r: AtomicWrite)
    requires
        names_file(path@),
    ensures
        r.temp@ == temp_of(path@),
        r.path@ == path@,
        r.text@ == text@,
{
    let mut temp = path.clone();
    temp.append(".tmp");
    AtomicWrite { temp, path, text }
}

/// The temp file is another file than its target, in the same folder.
pub proof fn law_temp_file_is_a_sibling(path: Seq<char>)
    ensures
        temp_of(path) != path,
        text::last_position(temp_of(path), '/') == text::last_position(path, '/'),
{
    reveal_strlit(".tmp");
    let p = temp_of(path);
    assert(p.len() == path.len() + 4);
    assert(p.drop_last().drop_last().drop_last().drop_last() =~= path);
    reveal_with_fuel(text::last_position, 5);
}

/// Heartbeat written every poll while collecting. The app reads it, and how
/// fresh it is, to show the collector's status and the event in progress.
/// Removed on graceful shutdown; stale after a crash.
#[derive(Debug, Clone)]
pub struct Heartbeat {
    pub pid: u32,
    /// Always "trove-collector" for this collector.
    pub role: String,
    /// RFC 3339 local time of the last tick.
    pub updated: String,
    /// The activity event in progress, if any.
    pub current: Option<ActivityEvent>,
    /// Resident memory of the collector in megabytes.
    pub rss_mb: Option<u64>,
}

#[verifier::ext_equal]
pub struct HeartbeatView {
    pub pid: u32,
    pub role: Seq<char>,
    pub updated: Seq<char>,
    pub current: Option<EventView>,
    pub rss_mb: Option<u64>,
}

impl View for Heartbeat {
    type V = HeartbeatView;

    open spec fn view(&self) -> HeartbeatView {
        HeartbeatView {
            pid: self.pid,
            role: self.role@,
            updated: self.updated@,
            current: match self.current {
                Some(e) => Some(e@),
                None => None,
            },
            rss_mb: self.rss_mb,
        }
    }
}

/// The body of the heartbeat file.
pub open spec fn heartbeat_text(h: HeartbeatView) -> Seq<char> {
    json::number_field("{\"pid\":"@, h.pid as int) + json::text_field(",\"role\":"@, h.role)
        + json::text_field(",\"updated\":"@, h.updated) + ",\"current\":"@ + current_text(h.current)
        + json::kept_number_option(",\"rss_mb\":"@, h.rss_mb) + "}"@
}

/// The event in progress, as the heartbeat holds it.
pub open spec fn current_text(current: Option<EventView>) -> Seq<char> {
    match current {
        Some(e) => activity::event_line(e),
        None => "null"@,
    }
}

spec fn from_rss(h: HeartbeatView) -> Seq<char> {
    json::kept_number_option(",\"rss_mb\":"@, h.rss_mb) + "}"@
}

spec fn from_current(h: HeartbeatView) -> Seq<char> {
    ",\"current\":"@ + (current_text(h.current) + from_rss(h))
}

spec fn from_updated(h: HeartbeatView) -> Seq<char> {
    json::text_field(",\"updated\":"@, h.updated) + from_current(h)
}

spec fn from_role(h: HeartbeatView) -> Seq<char> {
    json::text_field(",\"role\":"@, h.role) + from_updated(h)
}

proof fn lemma_heartbeat_from_the_front(h: HeartbeatView)
    ensures
        heartbeat_text(h) == json::number_field("{\"pid\":"@, h.pid as int) + from_role(h),
{
    let p1 = json::number_field("{\"pid\":"@, h.pid as int);
    let f2 = json::text_field(",\"role\":"@, h.role);
    let f3 = json::text_field(",\"updated\":"@, h.updated);
    let f4 = ",\"current\":"@;
    let f5 = current_text(h.current);
    let f6 = json::kept_number_option(",\"rss_mb\":"@, h.rss_mb);
    let p2 = p1 + f2;
    let p3 = p2 + f3;
    let p4 = p3 + f4;
    let p5 = p4 + f5;
    json::lemma_regroup(p5, f6, "}"@);
    json::lemma_regroup(p4, f5, from_rss(h));
    json::lemma_regroup(p3, f4, f5 + from_rss(h));
    json::lemma_regroup(p2, f3, from_current(h));
    json::lemma_regroup(p1, f2, from_updated(h));
}

proof fn lemma_current_reads_back(a: HeartbeatView, b: HeartbeatView)
    requires
        current_text(a.current) + from_rss(a) == current_text(b.current) + from_rss(b),
        a.current matches Some(e) ==> 0 <= e.seconds,
        b.current matches Some(e) ==> 0 <= e.seconds,
    ensures
        a.current == b.current,
        from_rss(a) == from_rss(b),
{
    reveal_strlit("null");
    reveal_strlit("{\"start\":");
    assert(a.current is Some ==> (current_text(a.current) + from_rss(a))[0] == '{');
    assert(b.current is Some ==> (current_text(b.current) + from_rss(b))[0] == '{');
    assert(a.current is None ==> (current_text(a.current) + from_rss(a))[0] == 'n');
    assert(b.current is None ==> (current_text(b.current) + from_rss(b))[0] == 'n');
    if let Some(e) = a.current {
        activity::law_event_line_reads_back(e, from_rss(a), b.current->0, from_rss(b));
    } else {
        json::lemma_behind("null"@, from_rss(a), from_rss(b));
    }
}

/// A heartbeat reads back as it was written: no two heartbeats have the same
/// text.
pub proof fn law_text_tells_the_heartbeat(a: HeartbeatView, b: HeartbeatView)
    requires
        heartbeat_text(a) == heartbeat_text(b),
        a.current matches Some(e) ==> 0 <= e.seconds,
        b.current matches Some(e) ==> 0 <= e.seconds,
    ensures
        a == b,
{
    reveal_strlit(",\"role\":");
    reveal_strlit(",\"rss_mb\":");
    reveal_strlit("}");
    lemma_heartbeat_from_the_front(a);
    lemma_heartbeat_from_the_front(b);
    assert(from_role(a)[0] == ',' && from_role(b)[0] == ',');
    json::lemma_number_field_reads_back(
        "{\"pid\":"@,
        a.pid as int,
        from_role(a),
        b.pid as int,
        from_role(b),
    );
    json::lemma_text_field_reads_back(
        ",\"role\":"@,
        a.role,
        from_updated(a),
        b.role,
        from_updated(b),
    );
    json::lemma_text_field_reads_back(
        ",\"updated\":"@,
        a.updated,
        from_current(a),
        b.updated,
        from_current(b),
    );
    json::lemma_behind(
        ",\"current\":"@,
        current_text(a.current) + from_rss(a),
        current_text(b.current) + from_rss(b),
    );
    lemma_current_reads_back(a, b);
    assert(from_rss(a)[0] == if a.rss_mb is Some {
        ','
    } else {
        '}'
    });
    assert(from_rss(b)[0] == if b.rss_mb is Some {
        ','
    } else {
        '}'
    });
    if a.rss_mb is Some {
        json::lemma_number_field_reads_back(
            ",\"rss_mb\":"@,
            a.rss_mb->0 as int,
            "}"@,
            b.rss_mb->0 as int,
            "}"@,
        );
    }
    assert(a =~= b);
}

impl Heartbeat {
    /// The body of the heartbeat file.
    pub fn to_json(&self) -> (r: String)
        ensures
            r@ == heartbeat_text(self@),
    {
        let mut out = String::new();
        push_number_field(&mut out, "{\"pid\":", self.pid as u64);
        assert(out@ =~= json::number_field("{\"pid\":"@, self.pid as int));
        push_text_field(&mut out, ",\"role\":", self.role.as_str());
        push_text_field(&mut out, ",\"updated\":", self.updated.as_str());
        push_raw(&mut out, ",\"current\":");
        match &self.current {
            Some(e) => {
                push_raw(&mut out, e.to_line().as_str());
            },
            None => {
                push_raw(&mut out, "null");
            },
        }
        push_kept_number_option(&mut out, ",\"rss_mb\":", self.rss_mb);
        push_raw(&mut out, "}");
        out
    }
}

/// The sidecar of the browser host `key`.
pub open spec fn live_path(root: Seq<char>, key: Seq<char>) -> Seq<char> {
    joined(joined(root, LIVE_DIR@), "browser-"@ + key + ".json"@)
}

/// What stands behind a separator decides whether a path names a file.
proof fn lemma_after_last(path: Seq<char>, tail: Seq<char>)
    requires
        path.len() >= tail.len(),
        path.skip(path.len() - tail.len()) == tail,
        forall|i: int| 0 <= i < tail.len() ==> tail[i] != '/',
    ensures
        text::after_last(path, '/').len() >= tail.len(),
    decreases tail.len(),
{
    if tail.len() > 0 {
        assert(path.last() == tail.last());
        let p = path.drop_last();
        assert(p.skip(p.len() - (tail.len() - 1)) =~= tail.drop_last());
        lemma_after_last(p, tail.drop_last());
        text::lemma_last_position(p, '/');
    } else {
        text::lemma_last_position(path, '/');
    }
}

proof fn lemma_names_file(path: Seq<char>)
    requires
        path.len() >= 5,
        path.skip(path.len() - 5) == ".json"@,
    ensures
        names_file(path),
{
    reveal_strlit(".json");
    reveal_strlit(".");
    reveal_strlit("..");
    lemma_after_last(path, ".json"@);
}

impl Vault {
    /// Where the lock file is.
    pub fn lock_path(&self) -> (r: String)
        ensures
            r@ == joined(self@, LOCK_FILE@),
    {
        join(self.root.as_str(), LOCK_FILE)
    }

    /// Where the heartbeat is.
    pub fn heartbeat_path(&self) -> (r: String)
        ensures
            r@ == joined(self@, STATE_FILE@),
    {
        join(self.root.as_str(), STATE_FILE)
    }

    /// Replace the heartbeat, atomically, so that the app never reads a torn
    /// file.
    pub fn write_heartbeat(&self, state: &Heartbeat) -> (r: AtomicWrite)
        ensures
            r.path@ == joined(self@, STATE_FILE@),
            r.temp@ == temp_of(r.path@),
            r.text@ == heartbeat_text(state@),
    {
        let path = self.heartbeat_path();
        proof {
            reveal_strlit(".trove/watcher-state.json");
            reveal_strlit(".json");
            assert(path@.skip(path@.len() - 5) =~= ".json"@);
            lemma_names_file(path@);
        }
        write_atomic(path, state.to_json())
    }

    /// The folder of the sidecars.
    pub fn live_dir(&self) -> (r: String)
        ensures
            r@ == joined(self@, LIVE_DIR@),
    {
        join(self.root.as_str(), LIVE_DIR)
    }

    /// Where the sidecar of the host `key` is.
    pub fn live_path(&self, key: &str) -> (r: String)
        ensures
            r@ == live_path(self@, key@),
    {
        let mut name = owned("browser-");
        name.append(key);
        name.append(".json");
        join(self.live_dir().as_str(), name.as_str())
    }

    /// Replace a host's "watching now" sidecar with its open spans. `key`
    /// tells the writers apart, so that concurrent browser profiles do not
    /// clobber each other.
    pub fn write_browser_live(
        &self,
        browser: &str,
        key: &str,
        spans: Vec<LiveSpan>,
        updated: u64,
    ) -> (r: AtomicWrite)
        ensures
            r.path@ == live_path(self@, key@),
            r.temp@ == temp_of(r.path@),
            r.text@ == browser::live_state_text(browser@, updated, browser::live_views(spans@)),
    {
        let path = self.live_path(key);
        proof {
            assert(path@.skip(path@.len() - 5) =~= ".json"@) by {
                reveal_strlit(".json");
            }
            reveal_strlit(".json");
            lemma_names_file(path@);
        }
        let state = LiveState { browser: owned(browser), updated, spans };
        write_atomic(path, state.to_json())
    }
}

/// Two hosts never share a sidecar.
pub proof fn law_hosts_have_their_own_sidecars(root: Seq<char>, a: Seq<char>, b: Seq<char>)
    requires
        a != b,
    ensures
        live_path(root, a) != live_path(root, b),
{
    reveal_strlit("browser-");
    reveal_strlit(".json");
    let dir = joined(root, LIVE_DIR@);
    let p = live_path(root, a);
    let q = live_path(root, b);
    if p == q {
        let lead = p.len() - 5 - a.len();
        assert(p.subrange(lead, p.len() - 5) =~= a);
        assert(q.subrange(lead, q.len() - 5) =~= b);
    }
}

/// What each toggle does, by its name: the activity watcher, the scrobbler, the
/// browser watcher and the ad observer are on unless they are disabled; the
/// lookup of advertisers is on only if it is enabled; nothing else is ever on.
pub proof fn law_toggles_by_name(s: SettingsView, id: Seq<char>)
    ensures
        is_enabled(s, "activity"@) == !s.disabled.contains("activity"@),
        is_enabled(s, "music-scrobbler"@) == !s.disabled.contains("music-scrobbler"@),
        is_enabled(s, "browser-extension"@) == !s.disabled.contains("browser-extension"@),
        is_enabled(s, "browser-ads"@) == !s.disabled.contains("browser-ads"@),
        is_enabled(s, "browser-ads-identify"@) == s.enabled.contains("browser-ads-identify"@),
        id != "activity"@ && id != "music-scrobbler"@ && id != "browser-extension"@ && id
            != "browser-ads"@ && id != "browser-ads-identify"@ ==> !is_enabled(s, id),
        in_force(None).disabled.len() == 0 && in_force(None).enabled.len() == 0,
{
    reveal_strlit("activity");
    reveal_strlit("music-scrobbler");
    reveal_strlit("browser-extension");
    reveal_strlit("browser-ads");
    reveal_strlit("browser-ads-identify");
    assert("activity"@.len() == 8 && "music-scrobbler"@.len() == 15 && "browser-extension"@.len()
        == 17 && "browser-ads"@.len() == 11 && "browser-ads-identify"@.len() == 20);
}

/// What leaves the vault: a path that begins with `/`, and one that has `..` as
/// a part, alone, at the front, in the middle or at the end. A path with neither
/// stays: two dots next to anything but a `/` are part of a name.
pub proof fn law_what_leaves_the_vault(a: Seq<char>, b: Seq<char>)
    ensures
        escapes(seq!['/'] + a),
        escapes(seq!['.', '.']),
        escapes(seq!['.', '.', '/'] + b),
        escapes(a + seq!['/', '.', '.']),
        escapes(a + seq!['/', '.', '.', '/'] + b),
        escapes(a) ==> a.len() > 0 && (a[0] == '/' || exists|i: int|
            0 <= i && i + 1 < a.len() && #[trigger] a[i] == '.' && a[i + 1] == '.' && (i == 0 || a[i
                - 1] == '/') && (i + 2 == a.len() || a[i + 2] == '/')),
{
    assert((seq!['/'] + a)[0] == '/');
    assert(parent_at(seq!['.', '.'], 0));
    assert(parent_at(seq!['.', '.', '/'] + b, 0));
    assert(parent_at(a + seq!['/', '.', '.'], a.len() as int + 1));
    assert(parent_at(a + seq!['/', '.', '.', '/'] + b, a.len() as int + 1));
    if escapes(a) && !(a.len() > 0 && a[0] == '/') {
        let i = choose|i: int| #[trigger] parent_at(a, i);
        assert(a[i] == '.');
    }
}

/// A path goes below a folder behind one separator.
pub proof fn law_joining_adds_one_separator(base: Seq<char>, path: Seq<char>)
    ensures
        joined(Seq::empty(), path) == path,
        joined(base + seq!['/'], path) == base + seq!['/'] + path,
        base.len() > 0 && base.last() != '/' ==> joined(base, path) == base + seq!['/'] + path,
{
    assert(Seq::<char>::empty() + path =~= path);
    assert((base + seq!['/']).last() == '/');
    if base.len() > 0 && base.last() != '/' {
        assert(base.push('/') + path =~= base + seq!['/'] + path);
    }
}

/// A record belongs to the day that its timestamp begins with: four digits, two
/// digits and two digits with dashes between them, whatever follows. Any other
/// timestamp names no day.
pub proof fn law_day_is_the_first_ten(day: Seq<char>, rest: Seq<char>, ts: Seq<char>)
    ensures
        day.len() == 10 && day[4] == '-' && day[7] == '-' && (forall|i: int|
            0 <= i < 10 && i != 4 && i != 7 ==> '0' <= #[trigger] day[i] && day[i] <= '9')
            ==> day_of(day + rest) == Some(day),
        ts.len() < 10 ==> day_of(ts) is None,
        ts.len() >= 10 && (ts[4] != '-' || ts[7] != '-') ==> day_of(ts) is None,
        forall|i: int|
            0 <= i < 10 && i != 4 && i != 7 && i < ts.len() && !('0' <= #[trigger] ts[i] && ts[i]
                <= '9') ==> day_of(ts) is None,
{
    let s = day + rest;
    if day.len() == 10 && day[4] == '-' && day[7] == '-' && (forall|i: int|
        0 <= i < 10 && i != 4 && i != 7 ==> '0' <= #[trigger] day[i] && day[i] <= '9') {
        assert(forall|i: int| 0 <= i < 10 ==> s[i] == day[i]);
        assert(s.take(10) =~= day);
    }
    assert forall|i: int|
        0 <= i < 10 && i != 4 && i != 7 && i < ts.len() && !('0' <= #[trigger] ts[i] && ts[i]
            <= '9') implies day_of(ts) is None by {
        if moment::has_date_prefix(ts) {
            assert(text::is_digit_char(ts[i]));
        }
    }
}

/// The file of a day is named by the day, in the folder of its stream, and gets
/// each of its rows as a line of its own.
pub proof fn law_a_row_is_a_line_of_its_day(
    root: Seq<char>,
    dir: Seq<char>,
    rows: Seq<RowView>,
    flock: bool,
    plan: Seq<DayAppend>,
    k: int,
)
    requires
        appends(root, dir, rows, flock, plan),
        first_undated(rows) is None,
        0 <= k < rows.len(),
    ensures
        exists|i: int|
            0 <= i < plan.len() && {
                let a = #[trigger] plan[i];
                &&& a.day@ == rows[k].ts.take(10)
                &&& a.rel@ == dir + seq!['/'] + rows[k].ts.take(10) + ".jsonl"@
                &&& a.path@ == joined(root, a.rel@)
                &&& a.flock == flock
                &&& exists|j: int|
                    text::occurs_at(a.text@, rows[k].line + seq!['\n'], j) && #[trigger] line_start(
                        a.text@,
                        j,
                    )
            },
{
    reveal_strlit("/");
    lemma_dated(rows, k);
    let day = rows[k].ts.take(10);
    assert(falls_on(rows, day));
    let i = choose|i: int| 0 <= i < plan.len() && (#[trigger] plan[i]).day@ == day;
    let a = plan[i];
    assert(a@.rel == a.rel@ && a@.path == a.path@ && a@.text == a.text@);
    assert("/"@ =~= seq!['/']);
    lemma_line_stands(rows, day, k);
}

/// A line starts at `j`: at the front, or behind a line end.
pub open spec fn line_start(s: Seq<char>, j: int) -> bool {
    j == 0 || (0 < j <= s.len() && s[j - 1] == '\n')
}

proof fn lemma_line_stands(rows: Seq<RowView>, day: Seq<char>, k: int)
    requires
        0 <= k < rows.len(),
        day_of(rows[k].ts) == Some(day),
    ensures
        exists|j: int|
            text::occurs_at(
                file_text(lines_on(rows, day)),
                rows[k].line + seq!['\n'],
                j,
            ) && #[trigger] line_start(file_text(lines_on(rows, day)), j),
    decreases rows.len(),
{
    let less = rows.drop_last();
    let lines = lines_on(rows, day);
    let body = file_text(lines);
    if k == rows.len() - 1 {
        let before = file_text(lines_on(less, day));
        assert(lines.drop_last() =~= lines_on(less, day));
        let line = rows[k].line + seq!['\n'];
        assert(rows[k].line.push('\n') =~= line);
        assert(body =~= before + line);
        let j = before.len() as int;
        assert(body.subrange(j, j + line.len()) =~= line);
        lemma_file_text_ends(lines_on(less, day));
        assert(line_start(body, j));
    } else {
        assert(less[k] == rows[k]);
        lemma_line_stands(less, day, k);
        let before = file_text(lines_on(less, day));
        let j = choose|j: int|
            text::occurs_at(before, rows[k].line + seq!['\n'], j) && #[trigger] line_start(
                before,
                j,
            );
        if day_of(rows.last().ts) == Some(day) {
            assert(lines.drop_last() =~= lines_on(less, day));
        }
        let line = rows[k].line + seq!['\n'];
        assert(body.subrange(j, j + line.len()) =~= before.subrange(j, j + line.len()));
        assert(line_start(body, j));
    }
}

/// Where the collector keeps its own files, below the vault's root.
#[verifier::rlimit(30)]
pub proof fn law_where_the_files_are(root: Seq<char>, key: Seq<char>)
    requires
        root.len() > 0,
        root.last() != '/',
    ensures
        joined(root, SETTINGS_FILE@) == root + "/.trove/integrations.json"@,
        joined(root, STATE_FILE@) == root + "/.trove/watcher-state.json"@,
        joined(root, LOCK_FILE@) == root + "/.trove/watcher.lock"@,
        live_path(root, key) == root + "/.trove/live/browser-"@ + key + ".json"@,
{
    assert("/.trove/integrations.json"@ =~= seq!['/'] + ".trove/integrations.json"@) by {
        reveal_strlit("/.trove/integrations.json");
        reveal_strlit(".trove/integrations.json");
    }
    assert("/.trove/watcher-state.json"@ =~= seq!['/'] + ".trove/watcher-state.json"@) by {
        reveal_strlit("/.trove/watcher-state.json");
        reveal_strlit(".trove/watcher-state.json");
    }
    assert("/.trove/watcher.lock"@ =~= seq!['/'] + ".trove/watcher.lock"@) by {
        reveal_strlit("/.trove/watcher.lock");
        reveal_strlit(".trove/watcher.lock");
    }
    assert("/.trove/live/browser-"@ =~= seq!['/'] + ".trove/live"@ + seq!['/'] + "browser-"@) by {
        reveal_strlit("/.trove/live/browser-");
        reveal_strlit(".trove/live");
        reveal_strlit("browser-");
    }
    law_joining_adds_one_separator(root, ".trove/integrations.json"@);
    law_joining_adds_one_separator(root, ".trove/watcher-state.json"@);
    law_joining_adds_one_separator(root, ".trove/watcher.lock"@);
    law_joining_adds_one_separator(root, ".trove/live"@);
    assert(joined(root, SETTINGS_FILE@) =~= root + "/.trove/integrations.json"@);
    assert(joined(root, STATE_FILE@) =~= root + "/.trove/watcher-state.json"@);
    assert(joined(root, LOCK_FILE@) =~= root + "/.trove/watcher.lock"@);
    let dir = joined(root, ".trove/live"@);
    assert(dir.last() != '/') by {
        reveal_strlit(".trove/live");
    }
    let name = "browser-"@ + key + ".json"@;
    law_joining_adds_one_separator(dir, name);
    assert(joined(dir, name) =~= root + "/.trove/live/browser-"@ + key + ".json"@);
}

/// A day file is read line by line. A line ends at a line feed, or at a
/// carriage return and a line feed, or at the end of the file. One that holds
/// nothing but white space is passed over; every other is a record, as it stands.
pub proof fn law_reading_goes_line_by_line(line: Seq<char>, rest: Seq<char>)
    requires
        forall|i: int| 0 <= i < line.len() ==> #[trigger] line[i] != '\n' && line[i] != '\r',
    ensures
        text::all_space(line) ==> {
            &&& lines_from(line, 0) =~= Seq::empty()
            &&& lines_from(line + seq!['\n'] + rest, 0) =~= lines_from(rest, 0)
            &&& lines_from(line + seq!['\r', '\n'] + rest, 0) =~= lines_from(rest, 0)
        },
        !text::all_space(line) ==> {
            &&& lines_from(line, 0) =~= seq![line]
            &&& lines_from(line + seq!['\n'] + rest, 0) =~= seq![line] + lines_from(rest, 0)
            &&& lines_from(line + seq!['\r', '\n'] + rest, 0) =~= seq![line] + lines_from(rest, 0)
        },
{
    assert(text::all_space(line) == is_blank(line));
    text::lemma_stop_at_rest(line, Seq::empty(), seq!['\n'], 0);
    assert(line + Seq::<char>::empty() =~= line);
    assert(line.subrange(0, line.len() as int) =~= line);
    let nl = seq!['\n'] + rest;
    assert(seq!['\n'][0] == '\n');
    assert(nl[0] == '\n');
    text::lemma_stop_at_rest(line, nl, seq!['\n'], 0);
    let a = line + seq!['\n'] + rest;
    assert(a =~= line + nl);
    assert(a.subrange(0, line.len() as int) =~= line);
    lemma_lines_behind(line + seq!['\n'], rest, 0);
    let ret = line + seq!['\r'];
    text::lemma_stop_at_rest(ret, nl, seq!['\n'], 0);
    let b = line + seq!['\r', '\n'] + rest;
    assert(b =~= ret + nl);
    assert(b.subrange(0, ret.len() as int) =~= ret);
    assert(ret.drop_last() =~= line);
    assert(b =~= (ret + seq!['\n']) + rest);
    lemma_lines_behind(ret + seq!['\n'], rest, 0);
}

/// One row without a date refuses the whole append, and the first of them is
/// the one that is told.
pub proof fn law_an_undated_row_refuses_all(
    root: Seq<char>,
    dir: Seq<char>,
    rows: Seq<RowView>,
    flock: bool,
    r: Result<Vec<DayAppend>, VaultError>,
    k: int,
)
    requires
        appended(root, dir, rows, flock, r),
        0 <= k < rows.len(),
        day_of(rows[k].ts) is None,
        forall|i: int| 0 <= i < k ==> day_of((#[trigger] rows[i]).ts) is Some,
    ensures
        r matches Err(VaultError::NoDatePrefix { dir: d, ts }) && d@ == dir && ts@ == rows[k].ts,
{
    lemma_first_is(rows, k);
}

/// The fields of a heartbeat, by their names.
#[verifier::rlimit(30)]
pub proof fn law_heartbeat_names_its_fields(h: HeartbeatView)
    ensures
        json::has_field(heartbeat_text(h), "pid"@, json::decimal(h.pid as nat)),
        json::has_field(heartbeat_text(h), "role"@, json::json_text(h.role)),
        json::has_field(heartbeat_text(h), "updated"@, json::json_text(h.updated)),
        h.current matches Some(e) ==> json::has_field(
            heartbeat_text(h),
            "current"@,
            activity::event_line(e),
        ),
        h.current is None ==> json::has_field(heartbeat_text(h), "current"@, "null"@),
        h.rss_mb matches Some(m) ==> json::has_field(
            heartbeat_text(h),
            "rss_mb"@,
            json::decimal(m as nat),
        ),
{
    lemma_heartbeat_from_the_front(h);
    assert(json::goes_on("}"@)) by {
        reveal_strlit("}");
    }
    assert(json::goes_on(from_rss(h))) by {
        reveal_strlit(",\"rss_mb\":");
        if h.rss_mb is None {
            assert(from_rss(h) =~= "}"@);
        } else {
            assert(from_rss(h)[0] == ',');
        }
    }
    if let Some(m) = h.rss_mb {
        assert(json::has_field(from_rss(h), "rss_mb"@, json::decimal(m as nat))) by {
            reveal_strlit(",\"rss_mb\":");
            reveal_strlit("rss_mb");
            json::lemma_field_at_the_front(
                ",\"rss_mb\":"@,
                "rss_mb"@,
                json::decimal(m as nat),
                "}"@,
            );
        }
    }
    assert({
        &&& json::has_field(from_current(h), "current"@, current_text(h.current))
        &&& json::goes_on(from_current(h))
    }) by {
        reveal_strlit(",\"current\":");
        reveal_strlit("current");
        json::lemma_field_at_the_front(
            ",\"current\":"@,
            "current"@,
            current_text(h.current),
            from_rss(h),
        );
        json::lemma_regroup(",\"current\":"@, current_text(h.current), from_rss(h));
        assert(from_current(h)[0] == ',');
    }
    json::lemma_fields_behind(",\"current\":"@ + current_text(h.current), from_rss(h));
    json::lemma_regroup(",\"current\":"@, current_text(h.current), from_rss(h));
    assert({
        &&& json::has_field(from_updated(h), "updated"@, json::json_text(h.updated))
        &&& json::goes_on(from_updated(h))
    }) by {
        reveal_strlit(",\"updated\":");
        reveal_strlit("updated");
        json::lemma_field_at_the_front(
            ",\"updated\":"@,
            "updated"@,
            json::json_text(h.updated),
            from_current(h),
        );
        assert(from_updated(h)[0] == ',');
    }
    json::lemma_fields_behind(json::text_field(",\"updated\":"@, h.updated), from_current(h));
    assert({
        &&& json::has_field(from_role(h), "role"@, json::json_text(h.role))
        &&& json::goes_on(from_role(h))
    }) by {
        reveal_strlit(",\"role\":");
        reveal_strlit("role");
        json::lemma_field_at_the_front(
            ",\"role\":"@,
            "role"@,
            json::json_text(h.role),
            from_updated(h),
        );
        assert(from_role(h)[0] == ',');
    }
    json::lemma_fields_behind(json::text_field(",\"role\":"@, h.role), from_updated(h));
    assert(json::has_field(heartbeat_text(h), "pid"@, json::decimal(h.pid as nat))) by {
        reveal_strlit("{\"pid\":");
        reveal_strlit("pid");
        json::lemma_field_at_the_front(
            "{\"pid\":"@,
            "pid"@,
            json::decimal(h.pid as nat),
            from_role(h),
        );
    }
    json::lemma_fields_behind(json::number_field("{\"pid\":"@, h.pid as int), from_role(h));
}

proof fn lemma_first_is(rows: Seq<RowView>, k: int)
    requires
        0 <= k < rows.len(),
        day_of(rows[k].ts) is None,
        forall|i: int| 0 <= i < k ==> day_of((#[trigger] rows[i]).ts) is Some,
    ensures
        first_undated(rows) == Some(k),
{
    let head = rows.take(k);
    assert forall|i: int| 0 <= i < head.len() implies moment::has_date_prefix(
        (#[trigger] head[i]).ts,
    ) by {
        assert(day_of(rows[i].ts) is Some);
    }
    lemma_none_undated(head);
    let upto = rows.take(k + 1);
    assert(upto.drop_last() =~= head);
    lemma_first_undated(rows, k + 1, k);
}

/// A stream whose folder leaves the vault, or has no name, is refused with the
/// file of the earliest day.
pub proof fn law_a_stream_outside_is_refused(
    root: Seq<char>,
    dir: Seq<char>,
    rows: Seq<RowView>,
    flock: bool,
    r: Result<Vec<DayAppend>, VaultError>,
)
    requires
        appended(root, dir, rows, flock, r),
        rows.len() > 0,
        dir.len() == 0 || escapes(dir),
        forall|i: int| 0 <= i < rows.len() ==> day_of((#[trigger] rows[i]).ts) is Some,
    ensures
        r matches Err(VaultError::Escapes { rel }) && exists|j: int|
            0 <= j < rows.len() && rel@ == dir + "/"@ + (#[trigger] rows[j]).ts.take(10)
                + ".jsonl"@ && forall|i: int|
                0 <= i < rows.len() ==> rows[j].ts.take(10) == (#[trigger] rows[i]).ts.take(10)
                    || text::text_before(rows[j].ts.take(10), rows[i].ts.take(10)),
{
    assert forall|i: int| 0 <= i < rows.len() implies moment::has_date_prefix(
        (#[trigger] rows[i]).ts,
    ) by {
        assert(day_of(rows[i].ts) is Some);
    }
    lemma_none_undated(rows);
    let rel = r->Err_0->Escapes_rel;
    let day = choose|day: Seq<char>|
        #![trigger day_rel(dir, day)]
        is_earliest(rows, day) && rel@ == day_rel(dir, day);
    let j = choose|j: int| 0 <= j < rows.len() && day_of((#[trigger] rows[j]).ts) == Some(day);
    assert(rows[j].ts.take(10) == day);
    assert forall|i: int| 0 <= i < rows.len() implies day == (#[trigger] rows[i]).ts.take(10)
        || text::text_before(day, rows[i].ts.take(10)) by {
        assert(day_of(rows[i].ts) == Some(rows[i].ts.take(10)));
        assert(falls_on(rows, rows[i].ts.take(10)));
    }
}

/// The model of the settings has the fields of the settings, each its own.
pub proof fn law_model_of_the_settings(x: IntegrationSettings)
    ensures
        x@.disabled.len() == x.disabled@.len(),
        forall|i: int| 0 <= i < x.disabled@.len() ==> #[trigger] x@.disabled[i] == x.disabled@[i]@,
        x@.enabled.len() == x.enabled@.len(),
        forall|i: int| 0 <= i < x.enabled@.len() ==> #[trigger] x@.enabled[i] == x.enabled@[i]@,
{
}

/// The model of a row has the fields of the row, each its own.
pub proof fn law_model_of_a_row(x: DayRow)
    ensures
        x@.ts == x.ts@,
        x@.line == x.line@,
{
}

/// The model of an append has the fields of the append, each its own.
pub proof fn law_model_of_an_append(x: DayAppend)
    ensures
        x@.day == x.day@,
        x@.rel == x.rel@,
        x@.path == x.path@,
        x@.flock == x.flock,
        x@.text == x.text@,
{
}

/// The model of a heartbeat has the fields of the heartbeat, each its own.
pub proof fn law_model_of_a_heartbeat(x: Heartbeat)
    ensures
        x@.pid == x.pid,
        x@.role == x.role@,
        x@.updated == x.updated@,
        x@.rss_mb == x.rss_mb,
        x@.current is None <==> x.current is None,
        x.current matches Some(y) ==> x@.current == Some(y@),
{
}

} // verus!
