//! The launch agent: its files, the registration of the browser's native
//! messaging host, the way it is restarted, and the status report.
//!
//! Running `launchctl`, reading and writing files are the caller's.

use crate::activity::EventView;
use crate::browser::{EXTENSION_ID, NATIVE_HOST_NAME};
use crate::json::{push_decimal, push_text_field};
use crate::moment::{seconds_since_text, Moment};
use crate::text::{owned, trim};
use crate::vault::{enabled_in, join, Heartbeat, HeartbeatView, IntegrationSettings, SettingsView};
use crate::{json, moment, text, vault};
use vstd::prelude::*;

verus! {

/// The agent's label. The app looks for the property list by this name.
pub const LABEL: &'static str = "com.davidwills.trove-collector";

/// A heartbeat is live for this many seconds: a few polls.
pub const FRESH_SECS: i64 = 15;

// ── files ───────────────────────────────────────────────────────────────────

/// Where the agent's property list is, below the home folder.
pub fn plist_path(home: &str) -> (r: String)
    ensures
        r@ == vault::joined(vault::joined(home@, "Library/LaunchAgents"@), LABEL@ + ".plist"@),
{
    let mut name = owned(LABEL);
    name.append(".plist");
    join(join(home, "Library/LaunchAgents").as_str(), name.as_str())
}

/// Where the agent's logs are, below the home folder.
pub fn logs_dir(home: &str) -> (r: String)
    ensures
        r@ == vault::joined(home@, "Library/Logs/trove"@),
{
    join(home, "Library/Logs/trove")
}

/// The agent's property list: run `exe` at login, keep it alive, log to `logs`.
pub open spec fn plist_text(exe: Seq<char>, logs: Seq<char>) -> Seq<char> {
    "<?xml version=\"1.0\" encoding=\"UTF-8\"?>\n<!DOCTYPE plist PUBLIC \"-//Apple//DTD PLIST 1.0//EN\" \"http://www.apple.com/DTDs/PropertyList-1.0.dtd\">\n<plist version=\"1.0\">\n<dict>\n    <key>Label</key><string>"@
        + LABEL@
        + "</string>\n    <key>ProgramArguments</key>\n    <array>\n        <string>"@ + exe
        + "</string>\n        <string>run</string>\n    </array>\n    <key>RunAtLoad</key><true/>\n    <key>KeepAlive</key><true/>\n    <key>ProcessType</key><string>Background</string>\n    <key>StandardOutPath</key><string>"@
        + logs
        + "/trove-collector.log</string>\n    <key>StandardErrorPath</key><string>"@ + logs
        + "/trove-collector.err.log</string>\n</dict>\n</plist>\n"@
}

/// The body of the agent's property list.
pub fn plist_body(exe: &str, logs: &str) -> (r: String)
    ensures
        r@ == plist_text(exe@, logs@),
{
    let mut out = owned(
        "<?xml version=\"1.0\" encoding=\"UTF-8\"?>\n<!DOCTYPE plist PUBLIC \"-//Apple//DTD PLIST 1.0//EN\" \"http://www.apple.com/DTDs/PropertyList-1.0.dtd\">\n<plist version=\"1.0\">\n<dict>\n    <key>Label</key><string>",
    );
    out.append(LABEL);
    out.append("</string>\n    <key>ProgramArguments</key>\n    <array>\n        <string>");
    out.append(exe);
    out.append(
        "</string>\n        <string>run</string>\n    </array>\n    <key>RunAtLoad</key><true/>\n    <key>KeepAlive</key><true/>\n    <key>ProcessType</key><string>Background</string>\n    <key>StandardOutPath</key><string>",
    );
    out.append(logs);
    out.append("/trove-collector.log</string>\n    <key>StandardErrorPath</key><string>");
    out.append(logs);
    out.append("/trove-collector.err.log</string>\n</dict>\n</plist>\n");
    out
}

/// The registration of `exe` as the extension's native messaging host. No other
/// extension may connect.
pub open spec fn manifest_text(exe: Seq<char>) -> Seq<char> {
    json::text_field(
        "{\n  \"allowed_origins\": [\n    "@,
        "chrome-extension://"@ + EXTENSION_ID@ + "/"@,
    ) + json::text_field(
        "\n  ],\n  \"description\": "@,
        "Trove browser watcher host (writes tab spans into the local vault)"@,
    ) + json::text_field(",\n  \"name\": "@, NATIVE_HOST_NAME@) + json::text_field(
        ",\n  \"path\": "@,
        exe,
    ) + json::text_field(",\n  \"type\": "@, "stdio"@) + "\n}"@
}

/// The body of the native messaging host manifest.
pub fn native_host_manifest(exe: &str) -> (r: String)
    ensures
        r@ == manifest_text(exe@),
{
    let mut origin = owned("chrome-extension://");
    origin.append(EXTENSION_ID);
    origin.append("/");
    let mut out = String::new();
    push_text_field(&mut out, "{\n  \"allowed_origins\": [\n    ", origin.as_str());
    assert(out@ =~= json::text_field("{\n  \"allowed_origins\": [\n    "@, origin@));
    push_text_field(
        &mut out,
        "\n  ],\n  \"description\": ",
        "Trove browser watcher host (writes tab spans into the local vault)",
    );
    push_text_field(&mut out, ",\n  \"name\": ", NATIVE_HOST_NAME);
    push_text_field(&mut out, ",\n  \"path\": ", exe);
    push_text_field(&mut out, ",\n  \"type\": ", "stdio");
    out.append("\n}");
    out
}

// ── restarting ──────────────────────────────────────────────────────────────

/// The user's launchd domain.
pub open spec fn domain_of_user(uid: u32) -> Seq<char> {
    "gui/"@ + json::decimal(uid as nat)
}

/// The domain that the agent lives in.
pub fn service_domain(uid: u32) -> (r: String)
    ensures
        r@ == domain_of_user(uid),
{
    let mut out = owned("gui/");
    push_decimal(&mut out, uid as u64);
    out
}

/// The agent's name within launchd.
pub fn service_target(uid: u32) -> (r: String)
    ensures
        r@ == domain_of_user(uid) + "/"@ + LABEL@,
{
    let mut out = service_domain(uid);
    out.append("/");
    out.append(LABEL);
    out
}

/// Looks at the old service, at most, before it is started anew.
pub const DRAIN_CHECKS: u32 = 50;

/// Attempts to start the service, at most.
pub const BOOTSTRAP_ATTEMPTS: u32 = 10;

/// Where a restart stands. The old service was told to go; it takes a while.
#[derive(Debug, Clone, Copy, PartialEq, Eq, Structural)]
pub enum RestartStage {
    /// Waiting for the old service to be gone, after this many looks.
    Draining { checks: u32 },
    /// Starting, after this many attempts that failed.
    Starting { attempts: u32 },
    /// An attempt failed; there may be a service all the same.
    Failed { attempts: u32 },
    Over,
}

/// What happened.
#[derive(Debug, Clone, Copy, PartialEq, Eq, Structural)]
pub enum RestartEvent {
    /// launchd has, or has not, the service.
    Loaded(bool),
    /// A start was attempted, with or without success.
    Attempted(bool),
}

/// What to do next.
#[derive(Debug, Clone, Copy, PartialEq, Eq, Structural)]
pub enum RestartAction {
    /// Ask launchd whether it has the service, after a sleep.
    Look { sleep_ms: u64 },
    /// Attempt to start the service, after a sleep.
    Start { sleep_ms: u64 },
    /// Kick the service that is there: the restart is done.
    Kick,
    /// The service is started.
    Done,
    /// All attempts failed.
    GiveUp,
}

/// The first stage of a restart: look at once.
pub open spec fn restart_begun() -> (RestartStage, RestartAction) {
    (RestartStage::Draining { checks: 0 }, RestartAction::Look { sleep_ms: 0 })
}

/// What a restart does after an event. `None` for an event that the stage does
/// not wait for.
pub open spec fn restart_next(stage: RestartStage, event: RestartEvent) -> Option<
    (RestartStage, RestartAction),
> {
    match (stage, event) {
        (RestartStage::Draining { checks }, RestartEvent::Loaded(there)) => Some(
            if !there {
                (RestartStage::Starting { attempts: 0 }, RestartAction::Start { sleep_ms: 0 })
            } else if checks + 1 < DRAIN_CHECKS {
                (
                    RestartStage::Draining { checks: (checks + 1) as u32 },
                    RestartAction::Look { sleep_ms: 100 },
                )
            } else {
                (RestartStage::Starting { attempts: 0 }, RestartAction::Start { sleep_ms: 100 })
            },
        ),
        (RestartStage::Starting { attempts }, RestartEvent::Attempted(ok)) => Some(
            if ok {
                (RestartStage::Over, RestartAction::Done)
            } else {
                (RestartStage::Failed { attempts }, RestartAction::Look { sleep_ms: 0 })
            },
        ),
        (RestartStage::Failed { attempts }, RestartEvent::Loaded(there)) => Some(
            if there {
                (RestartStage::Over, RestartAction::Kick)
            } else if attempts + 1 < BOOTSTRAP_ATTEMPTS {
                (
                    RestartStage::Starting { attempts: (attempts + 1) as u32 },
                    RestartAction::Start { sleep_ms: 200 },
                )
            } else {
                (RestartStage::Over, RestartAction::GiveUp)
            },
        ),
        _ => None,
    }
}

/// The stage can come up in a restart.
pub open spec fn stage_valid(stage: RestartStage) -> bool {
    match stage {
        RestartStage::Draining { checks } => checks < DRAIN_CHECKS,
        RestartStage::Starting { attempts } => attempts < BOOTSTRAP_ATTEMPTS,
        RestartStage::Failed { attempts } => attempts < BOOTSTRAP_ATTEMPTS,
        RestartStage::Over => true,
    }
}

/// How many events a restart can still take.
pub open spec fn events_left(stage: RestartStage) -> int {
    match stage {
        RestartStage::Draining { checks } => DRAIN_CHECKS - checks + 2 * BOOTSTRAP_ATTEMPTS,
        RestartStage::Starting { attempts } => 2 * (BOOTSTRAP_ATTEMPTS - attempts),
        RestartStage::Failed { attempts } => 2 * (BOOTSTRAP_ATTEMPTS - attempts) - 1,
        RestartStage::Over => 0,
    }
}

/// Begin a restart, once the old service was told to go.
pub fn restart_begin() -> (r: (RestartStage, RestartAction))
    ensures
        r == restart_begun(),
        stage_valid(r.0),
{
    (RestartStage::Draining { checks: 0 }, RestartAction::Look { sleep_ms: 0 })
}

/// One step of a restart.
pub fn restart_step(stage: RestartStage, event: RestartEvent) -> (r: Option<
    (RestartStage, RestartAction),
>)
    requires
        stage_valid(stage),
    ensures
        r == restart_next(stage, event),
        r matches Some(s) ==> stage_valid(s.0),
{
    match stage {
        RestartStage::Draining { checks } => match event {
            RestartEvent::Loaded(there) => if !there {
                Some(
                    (RestartStage::Starting { attempts: 0 }, RestartAction::Start { sleep_ms: 0 }),
                )
            } else if checks + 1 < DRAIN_CHECKS {
                Some(
                    (
                        RestartStage::Draining { checks: checks + 1 },
                        RestartAction::Look { sleep_ms: 100 },
                    ),
                )
            } else {
                Some(
                    (
                        RestartStage::Starting { attempts: 0 },
                        RestartAction::Start { sleep_ms: 100 },
                    ),
                )
            },
            RestartEvent::Attempted(_) => None,
        },
        RestartStage::Starting { attempts } => match event {
            RestartEvent::Attempted(ok) => if ok {
                Some((RestartStage::Over, RestartAction::Done))
            } else {
                Some((RestartStage::Failed { attempts }, RestartAction::Look { sleep_ms: 0 }))
            },
            RestartEvent::Loaded(_) => None,
        },
        RestartStage::Failed { attempts } => match event {
            RestartEvent::Loaded(there) => if there {
                Some((RestartStage::Over, RestartAction::Kick))
            } else if attempts + 1 < BOOTSTRAP_ATTEMPTS {
                Some(
                    (
                        RestartStage::Starting { attempts: attempts + 1 },
                        RestartAction::Start { sleep_ms: 200 },
                    ),
                )
            } else {
                Some((RestartStage::Over, RestartAction::GiveUp))
            },
            RestartEvent::Attempted(_) => None,
        },
        RestartStage::Over => None,
    }
}

/// What is said of a restart whose attempts all failed, the last of them with
/// the words `stderr`.
pub fn restart_failure(stderr: &str) -> (r: String)
    ensures
        r@ == "launchctl bootstrap failed after retries: "@ + text::trimmed(stderr@),
{
    let mut out = owned("launchctl bootstrap failed after retries: ");
    out.append(trim(stderr).as_str());
    out
}

// ── status ──────────────────────────────────────────────────────────────────

/// A heartbeat of this age is live. One that carries no time is not.
pub open spec fn age_is_fresh(age: Option<int>) -> bool {
    age matches Some(n) && n <= FRESH_SECS
}

/// A heartbeat written at `updated` is live at `now`.
pub open spec fn fresh_at(updated: Seq<char>, now: Moment) -> bool {
    age_is_fresh(moment::age_of(updated, now))
}

/// Is a heartbeat of this age live?
pub fn fresh_age(age: Option<i64>) -> (r: bool)
    ensures
        r == age_is_fresh(
            match age {
                Some(n) => Some(n as int),
                None => None,
            },
        ),
{
    match age {
        Some(n) => n <= FRESH_SECS,
        None => false,
    }
}

/// A heartbeat is live if it was written within a few polls.
pub fn is_fresh(updated: &str, now: Moment) -> (r: bool)
    requires
        now.valid(),
    ensures
        r == fresh_at(updated@, now),
{
    fresh_age(seconds_since_text(updated, now))
}

/// What is said of the agent's property list.
pub open spec fn agent_line(installed: bool, plist: Seq<char>) -> Seq<char> {
    "launch agent: "@ + (if installed {
        "installed ("@ + plist + ")"@
    } else {
        "not installed"@
    })
}

pub open spec fn service_line(loaded: bool) -> Seq<char> {
    "launchd service: "@ + (if loaded {
        "loaded"@
    } else {
        "not loaded"@
    })
}

pub open spec fn recording_line(granted: bool) -> Seq<char> {
    "screen recording: "@ + (if granted {
        "granted"@
    } else {
        "not granted (window titles will be empty)"@
    })
}

/// What is said of the host manifest, of which the path is given if it is
/// there.
pub open spec fn host_line(manifest: Option<Seq<char>>) -> Seq<char> {
    "browser extension host: "@ + (match manifest {
        Some(path) => "manifest installed ("@ + path + ")"@,
        None => "manifest not installed (run `trove-collector install`)"@,
    })
}

/// What is said of the event in progress.
pub open spec fn doing(current: Option<EventView>) -> Seq<char> {
    match current {
        Some(e) => if e.afk {
            "away"@
        } else {
            "in "@ + e.app
        },
        None => "idle"@,
    }
}

/// What is said of the collector, by its heartbeat and whether that is live.
pub open spec fn collector_line(h: Option<HeartbeatView>, fresh: bool) -> Seq<char> {
    match h {
        None => "collector: none"@,
        Some(h) => if !fresh {
            "collector: none (stale heartbeat — last owner likely crashed)"@
        } else {
            "collector: running (pid "@ + json::decimal(h.pid as nat) + (match h.rss_mb {
                Some(m) => ", "@ + json::decimal(m as nat) + " MB"@,
                None => Seq::empty(),
            }) + "), currently "@ + doing(h.current)
        },
    }
}

pub open spec fn toggle_line(settings: SettingsView, id: Seq<char>) -> Seq<char> {
    "  "@ + id + ": "@ + (if vault::is_enabled(settings, id) {
        "on"@
    } else {
        "off"@
    })
}

/// The toggles, one line for each integration.
pub open spec fn toggle_lines(settings: SettingsView) -> Seq<Seq<char>> {
    seq![
        toggle_line(settings, "activity"@),
        toggle_line(settings, "music-scrobbler"@),
        toggle_line(settings, "browser-extension"@),
        toggle_line(settings, "browser-ads"@),
        toggle_line(settings, "browser-ads-identify"@),
    ]
}

fn status_of_agent(installed: bool, plist: &str) -> (r: String)
    ensures
        r@ == agent_line(installed, plist@),
{
    let mut out = owned("launch agent: ");
    if installed {
        out.append("installed (");
        out.append(plist);
        out.append(")");
        assert(out@ =~= "launch agent: "@ + ("installed ("@ + plist@ + ")"@));
    } else {
        out.append("not installed");
    }
    out
}

fn status_of_host(manifest: Option<&str>) -> (r: String)
    ensures
        r@ == host_line(
            match manifest {
                Some(path) => Some(path@),
                None => None,
            },
        ),
{
    let mut out = owned("browser extension host: ");
    match manifest {
        Some(path) => {
            out.append("manifest installed (");
            out.append(path);
            out.append(")");
            assert(out@ =~= "browser extension host: "@ + ("manifest installed ("@ + path@ + ")"@));
        },
        None => {
            out.append("manifest not installed (run `trove-collector install`)");
        },
    }
    out
}

/// The part of the status report on what is installed. What launchd and the
/// screen recording permission say is given where there is such a thing.
pub fn install_status(
    installed: bool,
    plist: &str,
    service: Option<(bool, bool)>,
    manifest: Option<&str>,
) -> (r: Vec<String>)
    ensures
        vault::text_views(r@) == seq![agent_line(installed, plist@)] + (match service {
            Some((loaded, granted)) => seq![service_line(loaded), recording_line(granted)],
            None => Seq::empty(),
        }) + seq![
            host_line(
                match manifest {
                    Some(path) => Some(path@),
                    None => None,
                },
            ),
        ],
{
    let mut lines: Vec<String> = Vec::new();
    lines.push(status_of_agent(installed, plist));
    if let Some((loaded, granted)) = service {
        let mut line = owned("launchd service: ");
        line.append(
            if loaded {
                "loaded"
            } else {
                "not loaded"
            },
        );
        lines.push(line);
        let mut line = owned("screen recording: ");
        line.append(
            if granted {
                "granted"
            } else {
                "not granted (window titles will be empty)"
            },
        );
        lines.push(line);
    }
    lines.push(status_of_host(manifest));
    assert(vault::text_views(lines@) =~= seq![agent_line(installed, plist@)] + (match service {
        Some((loaded, granted)) => seq![service_line(loaded), recording_line(granted)],
        None => Seq::empty(),
    }) + seq![
        host_line(
            match manifest {
                Some(path) => Some(path@),
                None => None,
            },
        ),
    ]);
    lines
}

/// The line of the status report on the collector.
pub fn collector_status(heartbeat: &Option<Heartbeat>, fresh: bool) -> (r: String)
    ensures
        r@ == collector_line(
            match *heartbeat {
                Some(h) => Some(h@),
                None => None,
            },
            fresh,
        ),
{
    let h = match heartbeat {
        None => {
            return owned("collector: none");
        },
        Some(h) => h,
    };
    if !fresh {
        return owned("collector: none (stale heartbeat — last owner likely crashed)");
    }
    let mut out = owned("collector: running (pid ");
    push_decimal(&mut out, h.pid as u64);
    let ghost lead = out@;
    match h.rss_mb {
        Some(m) => {
            out.append(", ");
            push_decimal(&mut out, m);
            out.append(" MB");
            assert(out@ =~= lead + (", "@ + json::decimal(m as nat) + " MB"@));
        },
        None => {
            assert(out@ =~= lead + Seq::<char>::empty());
        },
    }
    out.append("), currently ");
    let ghost lead = out@;
    match &h.current {
        Some(e) => {
            if e.afk {
                out.append("away");
            } else {
                out.append("in ");
                out.append(e.app.as_str());
                assert(out@ =~= lead + ("in "@ + e.app@));
            }
        },
        None => {
            out.append("idle");
        },
    }
    out
}

fn status_of_toggle(settings: &IntegrationSettings, id: &str) -> (r: String)
    ensures
        r@ == toggle_line(settings@, id@),
{
    let mut out = owned("  ");
    out.append(id);
    out.append(": ");
    out.append(
        if enabled_in(settings, id) {
            "on"
        } else {
            "off"
        },
    );
    out
}

/// The part of the status report on the vault.
pub fn vault_status(
    root: &str,
    heartbeat: &Option<Heartbeat>,
    now: Moment,
    settings: &IntegrationSettings,
) -> (r: Vec<String>)
    requires
        now.valid(),
    ensures
        vault::text_views(r@) == seq![
            "vault: "@ + root@,
            match *heartbeat {
                Some(h) => collector_line(Some(h@), fresh_at(h@.updated, now)),
                None => collector_line(None, false),
            },
        ] + toggle_lines(settings@),
{
    let mut lines: Vec<String> = Vec::new();
    let mut line = owned("vault: ");
    line.append(root);
    lines.push(line);
    let fresh = match heartbeat {
        Some(h) => is_fresh(h.updated.as_str(), now),
        None => false,
    };
    lines.push(collector_status(heartbeat, fresh));
    lines.push(status_of_toggle(settings, "activity"));
    lines.push(status_of_toggle(settings, "music-scrobbler"));
    lines.push(status_of_toggle(settings, "browser-extension"));
    lines.push(status_of_toggle(settings, "browser-ads"));
    lines.push(status_of_toggle(settings, "browser-ads-identify"));
    assert(vault::text_views(lines@) =~= seq![
        "vault: "@ + root@,
        match *heartbeat {
            Some(h) => collector_line(Some(h@), fresh_at(h@.updated, now)),
            None => collector_line(None, false),
        },
    ] + toggle_lines(settings@));
    lines
}

// ── laws ────────────────────────────────────────────────────────────────────

/// A restart comes to an end: every event that a stage waits for leaves fewer
/// to come, and a stage that is not over waits for one.
pub proof fn law_restart_ends(stage: RestartStage, event: RestartEvent)
    requires
        stage_valid(stage),
    ensures
        events_left(stage) >= 0,
        restart_next(stage, event) matches Some(s) ==> stage_valid(s.0) && events_left(s.0)
            < events_left(stage),
        !(stage is Over) ==> restart_next(stage, RestartEvent::Loaded(true)) is Some
            || restart_next(stage, RestartEvent::Attempted(true)) is Some,
{
}

/// A restart succeeds exactly by a start that succeeded or by a service that is
/// there after one that did not, and gives up only with neither, after the last
/// attempt.
pub proof fn law_restart_succeeds_with_a_service(stage: RestartStage, event: RestartEvent)
    requires
        stage_valid(stage),
        restart_next(stage, event) is Some,
    ensures
        ({
            let (_, action) = restart_next(stage, event)->0;
            &&& action is Done <==> stage is Starting && event == RestartEvent::Attempted(true)
            &&& action is Kick <==> stage is Failed && event == RestartEvent::Loaded(true)
            &&& action is GiveUp <==> stage == (RestartStage::Failed {
                attempts: (BOOTSTRAP_ATTEMPTS - 1) as u32,
            }) && event == RestartEvent::Loaded(false)
        }),
{
}

/// An entry of a property list: a key, and right behind it its value.
pub open spec fn entry(key: Seq<char>, value: Seq<char>) -> Seq<char> {
    "    <key>"@ + key + "</key>"@ + value + "\n"@
}

/// A string in a property list.
pub open spec fn plist_string(s: Seq<char>) -> Seq<char> {
    "<string>"@ + s + "</string>"@
}

/// The arguments with which the agent is started, in a property list.
pub open spec fn plist_arguments(exe: Seq<char>) -> Seq<char> {
    "\n    <array>\n        "@ + plist_string(exe) + "\n        "@ + plist_string("run"@)
        + "\n    </array>"@
}

/// What a property list maps each of its keys to, in order.
pub open spec fn entries(all: Seq<(Seq<char>, Seq<char>)>) -> Seq<char>
    decreases all.len(),
{
    if all.len() == 0 {
        Seq::empty()
    } else {
        entries(all.drop_last()) + entry(all.last().0, all.last().1)
    }
}

/// The agent's property list is a dictionary of seven keys and no others: the
/// label; the program with its one argument `run`; started at load, and so at
/// login, and kept alive; in the background; and the two logs.
#[verifier::rlimit(30)]
pub proof fn law_plist_maps_its_keys(exe: Seq<char>, logs: Seq<char>)
    ensures
        plist_text(exe, logs) == plist_head() + entries(
            seq![
                ("Label"@, plist_string("com.davidwills.trove-collector"@)),
                ("ProgramArguments"@, plist_arguments(exe)),
                ("RunAtLoad"@, "<true/>"@),
                ("KeepAlive"@, "<true/>"@),
                ("ProcessType"@, plist_string("Background"@)),
                ("StandardOutPath"@, plist_string(logs + "/trove-collector.log"@)),
                ("StandardErrorPath"@, plist_string(logs + "/trove-collector.err.log"@)),
            ],
        ) + "</dict>\n</plist>\n"@,
{
    let label = "com.davidwills.trove-collector"@;
    lemma_plist_label();
    lemma_plist_arguments(exe);
    lemma_plist_flags();
    lemma_plist_logs(logs);
    lemma_plist_assembled(
        plist_head(),
        "    <key>Label</key><string>"@,
        label,
        "</string>\n"@,
        "    <key>ProgramArguments</key>\n    <array>\n        <string>"@,
        exe,
        "</string>\n        <string>run</string>\n    </array>\n"@,
        "    <key>RunAtLoad</key><true/>\n    <key>KeepAlive</key><true/>\n    <key>ProcessType</key><string>Background</string>\n"@,
        "    <key>StandardOutPath</key><string>"@,
        logs,
        "/trove-collector.log"@,
        "    <key>StandardErrorPath</key><string>"@,
        "/trove-collector.err.log"@,
        "</dict>\n</plist>\n"@,
    );
    lemma_seven_entries(
        ("Label"@, plist_string(label)),
        ("ProgramArguments"@, plist_arguments(exe)),
        ("RunAtLoad"@, "<true/>"@),
        ("KeepAlive"@, "<true/>"@),
        ("ProcessType"@, plist_string("Background"@)),
        ("StandardOutPath"@, plist_string(logs + "/trove-collector.log"@)),
        ("StandardErrorPath"@, plist_string(logs + "/trove-collector.err.log"@)),
    );
    let e1 = entry("Label"@, plist_string(label));
    let e2 = entry("ProgramArguments"@, plist_arguments(exe));
    let e3 = entry("RunAtLoad"@, "<true/>"@);
    let e4 = entry("KeepAlive"@, "<true/>"@);
    let e5 = entry("ProcessType"@, plist_string("Background"@));
    json::lemma_regroup(e1 + e2, e3, e4);
    json::lemma_regroup(e1 + e2, e3 + e4, e5);
}

/// What stands before the dictionary.
pub open spec fn plist_head() -> Seq<char> {
    "<?xml version=\"1.0\" encoding=\"UTF-8\"?>\n<!DOCTYPE plist PUBLIC \"-//Apple//DTD PLIST 1.0//EN\" \"http://www.apple.com/DTDs/PropertyList-1.0.dtd\">\n<plist version=\"1.0\">\n<dict>\n"@
}

#[verifier::rlimit(30)]
proof fn lemma_plist_label()
    ensures
        "<?xml version=\"1.0\" encoding=\"UTF-8\"?>\n<!DOCTYPE plist PUBLIC \"-//Apple//DTD PLIST 1.0//EN\" \"http://www.apple.com/DTDs/PropertyList-1.0.dtd\">\n<plist version=\"1.0\">\n<dict>\n    <key>Label</key><string>"@
            == plist_head() + "    <key>Label</key><string>"@,
        "    <key>Label</key><string>"@ + "com.davidwills.trove-collector"@ + "</string>\n"@ == entry(
            "Label"@,
            plist_string("com.davidwills.trove-collector"@),
        ),
{
    reveal_strlit(
        "<?xml version=\"1.0\" encoding=\"UTF-8\"?>\n<!DOCTYPE plist PUBLIC \"-//Apple//DTD PLIST 1.0//EN\" \"http://www.apple.com/DTDs/PropertyList-1.0.dtd\">\n<plist version=\"1.0\">\n<dict>\n",
    );
    reveal_strlit(
        "<?xml version=\"1.0\" encoding=\"UTF-8\"?>\n<!DOCTYPE plist PUBLIC \"-//Apple//DTD PLIST 1.0//EN\" \"http://www.apple.com/DTDs/PropertyList-1.0.dtd\">\n<plist version=\"1.0\">\n<dict>\n    <key>Label</key><string>",
    );
    reveal_strlit("    <key>Label</key><string>");
    reveal_strlit("Label");
    reveal_strlit("    <key>");
    reveal_strlit("</key>");
    reveal_strlit("<string>");
    reveal_strlit("</string>");
    reveal_strlit("\n");
    reveal_strlit("</string>\n");
    assert("<?xml version=\"1.0\" encoding=\"UTF-8\"?>\n<!DOCTYPE plist PUBLIC \"-//Apple//DTD PLIST 1.0//EN\" \"http://www.apple.com/DTDs/PropertyList-1.0.dtd\">\n<plist version=\"1.0\">\n<dict>\n    <key>Label</key><string>"@
        =~= plist_head() + "    <key>Label</key><string>"@);
    let label = "com.davidwills.trove-collector"@;
    assert("    <key>Label</key><string>"@ + label + "</string>\n"@ =~= entry("Label"@, plist_string(label)));
}

#[verifier::rlimit(30)]
proof fn lemma_plist_arguments(exe: Seq<char>)
    ensures
        "</string>\n    <key>ProgramArguments</key>\n    <array>\n        <string>"@ == "</string>\n"@
            + "    <key>ProgramArguments</key>\n    <array>\n        <string>"@,
        "    <key>ProgramArguments</key>\n    <array>\n        <string>"@ + exe
            + "</string>\n        <string>run</string>\n    </array>\n"@ == entry("ProgramArguments"@, plist_arguments(exe)),
{
    reveal_strlit("</string>\n    <key>ProgramArguments</key>\n    <array>\n        <string>");
    reveal_strlit("    <key>ProgramArguments</key>\n    <array>\n        <string>");
    reveal_strlit("</string>\n        <string>run</string>\n    </array>\n");
    reveal_strlit("ProgramArguments");
    reveal_strlit("run");
    reveal_strlit("\n    <array>\n        ");
    reveal_strlit("\n        ");
    reveal_strlit("\n    </array>");
    reveal_strlit("    <key>");
    reveal_strlit("</key>");
    reveal_strlit("<string>");
    reveal_strlit("</string>");
    reveal_strlit("\n");
    reveal_strlit("</string>\n");
    assert("</string>\n    <key>ProgramArguments</key>\n    <array>\n        <string>"@ =~= "</string>\n"@
        + "    <key>ProgramArguments</key>\n    <array>\n        <string>"@);
    assert("    <key>ProgramArguments</key>\n    <array>\n        <string>"@ + exe
        + "</string>\n        <string>run</string>\n    </array>\n"@ =~= entry("ProgramArguments"@, plist_arguments(exe)));
}

#[verifier::rlimit(30)]
proof fn lemma_plist_flags()
    ensures
        "</string>\n        <string>run</string>\n    </array>\n    <key>RunAtLoad</key><true/>\n    <key>KeepAlive</key><true/>\n    <key>ProcessType</key><string>Background</string>\n    <key>StandardOutPath</key><string>"@
            == "</string>\n        <string>run</string>\n    </array>\n"@ + ("    <key>RunAtLoad</key><true/>\n    <key>KeepAlive</key><true/>\n    <key>ProcessType</key><string>Background</string>\n"@
            + "    <key>StandardOutPath</key><string>"@),
        "    <key>RunAtLoad</key><true/>\n    <key>KeepAlive</key><true/>\n    <key>ProcessType</key><string>Background</string>\n"@
            == entry("RunAtLoad"@, "<true/>"@) + entry("KeepAlive"@, "<true/>"@) + entry(
            "ProcessType"@,
            plist_string("Background"@),
        ),
{
    assert("</string>\n        <string>run</string>\n    </array>\n    <key>RunAtLoad</key><true/>\n    <key>KeepAlive</key><true/>\n    <key>ProcessType</key><string>Background</string>\n    <key>StandardOutPath</key><string>"@
        =~= "</string>\n        <string>run</string>\n    </array>\n"@ + ("    <key>RunAtLoad</key><true/>\n    <key>KeepAlive</key><true/>\n    <key>ProcessType</key><string>Background</string>\n"@
        + "    <key>StandardOutPath</key><string>"@)) by {
        reveal_strlit(
            "</string>\n        <string>run</string>\n    </array>\n    <key>RunAtLoad</key><true/>\n    <key>KeepAlive</key><true/>\n    <key>ProcessType</key><string>Background</string>\n    <key>StandardOutPath</key><string>",
        );
        reveal_strlit("</string>\n        <string>run</string>\n    </array>\n");
        reveal_strlit(
            "    <key>RunAtLoad</key><true/>\n    <key>KeepAlive</key><true/>\n    <key>ProcessType</key><string>Background</string>\n",
        );
        reveal_strlit("    <key>StandardOutPath</key><string>");
    }
    reveal_strlit(
        "    <key>RunAtLoad</key><true/>\n    <key>KeepAlive</key><true/>\n    <key>ProcessType</key><string>Background</string>\n",
    );
    reveal_strlit("RunAtLoad");
    reveal_strlit("KeepAlive");
    reveal_strlit("ProcessType");
    reveal_strlit("Background");
    reveal_strlit("<true/>");
    reveal_strlit("    <key>");
    reveal_strlit("</key>");
    reveal_strlit("<string>");
    reveal_strlit("</string>");
    reveal_strlit("\n");
    reveal_strlit("</string>\n");
    assert("    <key>RunAtLoad</key><true/>\n    <key>KeepAlive</key><true/>\n    <key>ProcessType</key><string>Background</string>\n"@
        =~= entry("RunAtLoad"@, "<true/>"@) + entry("KeepAlive"@, "<true/>"@) + entry(
        "ProcessType"@,
        plist_string("Background"@),
    ));
}

#[verifier::rlimit(30)]
proof fn lemma_plist_logs(logs: Seq<char>)
    ensures
        "/trove-collector.log</string>\n    <key>StandardErrorPath</key><string>"@
            == "/trove-collector.log"@ + "</string>\n"@ + "    <key>StandardErrorPath</key><string>"@,
        "/trove-collector.err.log</string>\n</dict>\n</plist>\n"@ == "/trove-collector.err.log"@
            + "</string>\n"@ + "</dict>\n</plist>\n"@,
        "    <key>StandardOutPath</key><string>"@ + logs + ("/trove-collector.log"@ + "</string>\n"@) == entry(
            "StandardOutPath"@,
            plist_string(logs + "/trove-collector.log"@),
        ),
        "    <key>StandardErrorPath</key><string>"@ + logs + ("/trove-collector.err.log"@ + "</string>\n"@) == entry(
            "StandardErrorPath"@,
            plist_string(logs + "/trove-collector.err.log"@),
        ),
{
    reveal_strlit("/trove-collector.log</string>\n    <key>StandardErrorPath</key><string>");
    reveal_strlit("/trove-collector.err.log</string>\n</dict>\n</plist>\n");
    reveal_strlit("/trove-collector.log");
    reveal_strlit("/trove-collector.err.log");
    reveal_strlit("    <key>StandardOutPath</key><string>");
    reveal_strlit("    <key>StandardErrorPath</key><string>");
    reveal_strlit("</dict>\n</plist>\n");
    reveal_strlit("StandardOutPath");
    reveal_strlit("StandardErrorPath");
    reveal_strlit("    <key>");
    reveal_strlit("</key>");
    reveal_strlit("<string>");
    reveal_strlit("</string>");
    reveal_strlit("\n");
    reveal_strlit("</string>\n");
    assert("/trove-collector.log</string>\n    <key>StandardErrorPath</key><string>"@
        =~= "/trove-collector.log"@ + "</string>\n"@ + "    <key>StandardErrorPath</key><string>"@);
    assert("/trove-collector.err.log</string>\n</dict>\n</plist>\n"@ =~= "/trove-collector.err.log"@
        + "</string>\n"@ + "</dict>\n</plist>\n"@);
    assert("    <key>StandardOutPath</key><string>"@ + logs + ("/trove-collector.log"@ + "</string>\n"@) =~= entry(
        "StandardOutPath"@,
        plist_string(logs + "/trove-collector.log"@),
    ));
    assert("    <key>StandardErrorPath</key><string>"@ + logs + ("/trove-collector.err.log"@ + "</string>\n"@) =~= entry(
        "StandardErrorPath"@,
        plist_string(logs + "/trove-collector.err.log"@),
    ));
}

#[verifier::rlimit(30)]
proof fn lemma_plist_assembled(
    head: Seq<char>,
    o1: Seq<char>,
    label: Seq<char>,
    close: Seq<char>,
    o2: Seq<char>,
    exe: Seq<char>,
    c2: Seq<char>,
    mid: Seq<char>,
    o6: Seq<char>,
    logs: Seq<char>,
    log: Seq<char>,
    o7: Seq<char>,
    err: Seq<char>,
    foot: Seq<char>,
)
    ensures
        (head + o1) + label + (close + o2) + exe + (c2 + (mid + o6)) + logs + (log + close + o7)
            + logs + (err + close + foot) == head + ((o1 + label + close) + (o2 + exe + c2) + mid + (
        o6 + logs + (log + close)) + (o7 + logs + (err + close))) + foot,
{
    let e1 = o1 + label + close;
    let e2 = o2 + exe + c2;
    let e6 = o6 + logs + (log + close);
    let e7 = o7 + logs + (err + close);
    let t1 = (head + o1) + label + (close + o2);
    assert(t1 =~= head + e1 + o2);
    let t2 = t1 + exe + (c2 + (mid + o6));
    assert(t2 =~= head + e1 + e2 + mid + o6);
    let t3 = t2 + logs + (log + close + o7);
    assert(t3 =~= head + e1 + e2 + mid + e6 + o7);
    let t4 = t3 + logs + (err + close + foot);
    assert(t4 =~= head + e1 + e2 + mid + e6 + e7 + foot);
    assert(head + e1 + e2 + mid + e6 + e7 =~= head + (e1 + e2 + mid + e6 + e7));
}

proof fn lemma_seven_entries(
    k1: (Seq<char>, Seq<char>),
    k2: (Seq<char>, Seq<char>),
    k3: (Seq<char>, Seq<char>),
    k4: (Seq<char>, Seq<char>),
    k5: (Seq<char>, Seq<char>),
    k6: (Seq<char>, Seq<char>),
    k7: (Seq<char>, Seq<char>),
)
    ensures
        entries(seq![k1, k2, k3, k4, k5, k6, k7]) == entry(k1.0, k1.1) + entry(k2.0, k2.1) + entry(
            k3.0,
            k3.1,
        ) + entry(k4.0, k4.1) + entry(k5.0, k5.1) + entry(k6.0, k6.1) + entry(k7.0, k7.1),
{
    let none = Seq::<(Seq<char>, Seq<char>)>::empty();
    lemma_one_more_entry(none, k1);
    lemma_one_more_entry(seq![k1], k2);
    lemma_one_more_entry(seq![k1, k2], k3);
    lemma_one_more_entry(seq![k1, k2, k3], k4);
    lemma_one_more_entry(seq![k1, k2, k3, k4], k5);
    lemma_one_more_entry(seq![k1, k2, k3, k4, k5], k6);
    lemma_one_more_entry(seq![k1, k2, k3, k4, k5, k6], k7);
    assert(none.push(k1) =~= seq![k1]);
    assert(seq![k1].push(k2) =~= seq![k1, k2]);
    assert(seq![k1, k2].push(k3) =~= seq![k1, k2, k3]);
    assert(seq![k1, k2, k3].push(k4) =~= seq![k1, k2, k3, k4]);
    assert(seq![k1, k2, k3, k4].push(k5) =~= seq![k1, k2, k3, k4, k5]);
    assert(seq![k1, k2, k3, k4, k5].push(k6) =~= seq![k1, k2, k3, k4, k5, k6]);
    assert(seq![k1, k2, k3, k4, k5, k6].push(k7) =~= seq![k1, k2, k3, k4, k5, k6, k7]);
    assert(entries(none) + entry(k1.0, k1.1) =~= entry(k1.0, k1.1));
}

proof fn lemma_one_more_entry(all: Seq<(Seq<char>, Seq<char>)>, k: (Seq<char>, Seq<char>))
    ensures
        entries(all.push(k)) == entries(all) + entry(k.0, k.1),
{
    assert(all.push(k).drop_last() =~= all);
}

/// The text `obj` has a line for `key`, with `value` right behind it.
pub open spec fn has_pretty_field(obj: Seq<char>, key: Seq<char>, value: Seq<char>) -> bool {
    exists|i: int| #[trigger]
        text::occurs_at(obj, "\n  \""@ + key + "\": "@ + value, i)
}

/// The host manifest names the host, tells what it is, where it is and how to
/// talk to it, and admits the one extension.
#[verifier::rlimit(30)]
pub proof fn law_manifest_names_its_fields(exe: Seq<char>)
    ensures
        ({
            let m = manifest_text(exe);
            let origin = "chrome-extension://inhhdcdmfoiodfkipnheoiejdegipgpb/"@;
            &&& has_pretty_field(
                m,
                "allowed_origins"@,
                "[\n    "@ + json::json_text(origin) + "\n  ]"@,
            )
            &&& has_pretty_field(m, "name"@, json::json_text("com.davidwills.trove"@))
            &&& has_pretty_field(m, "path"@, json::json_text(exe))
            &&& has_pretty_field(m, "type"@, json::json_text("stdio"@))
        }),
{
    let origin = "chrome-extension://inhhdcdmfoiodfkipnheoiejdegipgpb/"@;
    assert(origin =~= "chrome-extension://"@ + EXTENSION_ID@ + "/"@) by {
        reveal_strlit("chrome-extension://inhhdcdmfoiodfkipnheoiejdegipgpb/");
        reveal_strlit("chrome-extension://");
        reveal_strlit("inhhdcdmfoiodfkipnheoiejdegipgpb");
        reveal_strlit("/");
    }
    let f1 = json::text_field("{\n  \"allowed_origins\": [\n    "@, origin);
    let what = "Trove browser watcher host (writes tab spans into the local vault)"@;
    let f2 = json::text_field("\n  ],\n  \"description\": "@, what);
    let f3 = json::text_field(",\n  \"name\": "@, NATIVE_HOST_NAME@);
    let f4 = json::text_field(",\n  \"path\": "@, exe);
    let f5 = json::text_field(",\n  \"type\": "@, "stdio"@);
    let m = manifest_text(exe);
    let p2 = f1 + f2;
    let p3 = p2 + f3;
    let p4 = p3 + f4;
    let p5 = p4 + f5;
    assert(m == p5 + "\n}"@);
    reveal_strlit("\n  \"");
    reveal_strlit("\": ");
    assert(has_pretty_field(m, "name"@, json::json_text("com.davidwills.trove"@))) by {
        reveal_strlit(",\n  \"name\": ");
        reveal_strlit("name");
        let value = json::json_text("com.davidwills.trove"@);
        let line = "\n  \""@ + "name"@ + "\": "@ + value;
        assert(f3 =~= seq![','] + line);
        lemma_stands_in(p2, line, f4 + f5 + "\n}"@);
        assert(m =~= p2 + seq![','] + line + (f4 + f5 + "\n}"@));
    }
    assert(has_pretty_field(m, "path"@, json::json_text(exe))) by {
        reveal_strlit(",\n  \"path\": ");
        reveal_strlit("path");
        let line = "\n  \""@ + "path"@ + "\": "@ + json::json_text(exe);
        assert(f4 =~= seq![','] + line);
        lemma_stands_in(p3, line, f5 + "\n}"@);
        assert(m =~= p3 + seq![','] + line + (f5 + "\n}"@));
    }
    assert(has_pretty_field(m, "type"@, json::json_text("stdio"@))) by {
        reveal_strlit(",\n  \"type\": ");
        reveal_strlit("type");
        let line = "\n  \""@ + "type"@ + "\": "@ + json::json_text("stdio"@);
        assert(f5 =~= seq![','] + line);
        lemma_stands_in(p4, line, "\n}"@);
        assert(m =~= p4 + seq![','] + line + "\n}"@);
    }
    assert(has_pretty_field(
        m,
        "allowed_origins"@,
        "[\n    "@ + json::json_text(origin) + "\n  ]"@,
    )) by {
        reveal_strlit("{\n  \"allowed_origins\": [\n    ");
        reveal_strlit("allowed_origins");
        reveal_strlit("[\n    ");
        reveal_strlit("\n  ]");
        reveal_strlit("\n  ],\n  \"description\": ");
        let value = "[\n    "@ + json::json_text(origin) + "\n  ]"@;
        let line = "\n  \""@ + "allowed_origins"@ + "\": "@ + value;
        assert(p2.subrange(1, 1 + (line.len() as int)) =~= line);
        assert(m.subrange(1, 1 + (line.len() as int)) =~= p2.subrange(1, 1 + (line.len() as int)));
        assert(text::occurs_at(m, line, 1));
    }
}

proof fn lemma_stands_in(front: Seq<char>, line: Seq<char>, rest: Seq<char>)
    ensures
        text::occurs_at(front + seq![','] + line + rest, line, front.len() as int + 1),
{
    let s = front + seq![','] + line + rest;
    let n = front.len() as int + 1;
    assert(s.subrange(n, n + line.len()) =~= line);
}

/// A restart looks for the old service up to fifty times, a tenth of a second
/// apart, until it is gone. Then it attempts a start up to ten times, a fifth of
/// a second apart, and after each that failed it looks whether there is a service
/// all the same.
pub proof fn law_restart_by_stage(n: u32)
    ensures
        restart_begun() == (
            RestartStage::Draining { checks: 0 },
            RestartAction::Look { sleep_ms: 0 },
        ),
        restart_next(RestartStage::Draining { checks: n }, RestartEvent::Loaded(false)) == Some(
            (RestartStage::Starting { attempts: 0 }, RestartAction::Start { sleep_ms: 0 }),
        ),
        n < 49 ==> restart_next(RestartStage::Draining { checks: n }, RestartEvent::Loaded(true))
            == Some(
            (
                RestartStage::Draining { checks: (n + 1) as u32 },
                RestartAction::Look { sleep_ms: 100 },
            ),
        ),
        n == 49 ==> restart_next(RestartStage::Draining { checks: n }, RestartEvent::Loaded(true))
            == Some(
            (RestartStage::Starting { attempts: 0 }, RestartAction::Start { sleep_ms: 100 }),
        ),
        restart_next(RestartStage::Starting { attempts: n }, RestartEvent::Attempted(true)) == Some(
            (RestartStage::Over, RestartAction::Done),
        ),
        restart_next(RestartStage::Starting { attempts: n }, RestartEvent::Attempted(false))
            == Some((RestartStage::Failed { attempts: n }, RestartAction::Look { sleep_ms: 0 })),
        restart_next(RestartStage::Failed { attempts: n }, RestartEvent::Loaded(true)) == Some(
            (RestartStage::Over, RestartAction::Kick),
        ),
        n < 9 ==> restart_next(RestartStage::Failed { attempts: n }, RestartEvent::Loaded(false))
            == Some(
            (
                RestartStage::Starting { attempts: (n + 1) as u32 },
                RestartAction::Start { sleep_ms: 200 },
            ),
        ),
        n == 9 ==> restart_next(RestartStage::Failed { attempts: n }, RestartEvent::Loaded(false))
            == Some((RestartStage::Over, RestartAction::GiveUp)),
        stage_valid(RestartStage::Draining { checks: n }) == (n < 50),
        stage_valid(RestartStage::Starting { attempts: n }) == (n < 10),
        stage_valid(RestartStage::Failed { attempts: n }) == (n < 10),
{
}

/// A heartbeat is live for fifteen seconds, and one from the future is. One
/// whose time cannot be read is not.
pub proof fn law_a_heartbeat_lives_fifteen_seconds(updated: Seq<char>, then: Moment, now: Moment)
    requires
        then.valid(),
        now.valid(),
    ensures
        moment::parsed_instant(updated) == Some((then.secs as int, then.nanos as int)) ==> fresh_at(
            updated,
            now,
        ) == (now.ns() - then.ns() < 16 * 1_000_000_000),
        moment::parsed_instant(updated) is None ==> !fresh_at(updated, now),
{
}

/// What the status report says of what is there and of what is not.
#[verifier::rlimit(30)]
pub proof fn law_status_of_what_is_installed(path: Seq<char>)
    ensures
        agent_line(true, path) == "launch agent: installed ("@ + path + ")"@,
        agent_line(false, path) == "launch agent: not installed"@,
        service_line(true) == "launchd service: loaded"@,
        service_line(false) == "launchd service: not loaded"@,
        recording_line(true) == "screen recording: granted"@,
        recording_line(false)
            == "screen recording: not granted (window titles will be empty)"@,
        host_line(Some(path)) == "browser extension host: manifest installed ("@ + path + ")"@,
        host_line(None)
            == "browser extension host: manifest not installed (run `trove-collector install`)"@,
{
    assert(agent_line(true, path) =~= "launch agent: installed ("@ + path + ")"@) by {
        reveal_strlit("launch agent: ");
        reveal_strlit("installed (");
        reveal_strlit("launch agent: installed (");
    }
    assert(agent_line(false, path) =~= "launch agent: not installed"@) by {
        reveal_strlit("launch agent: ");
        reveal_strlit("not installed");
        reveal_strlit("launch agent: not installed");
    }
    assert(service_line(true) =~= "launchd service: loaded"@) by {
        reveal_strlit("launchd service: ");
        reveal_strlit("loaded");
        reveal_strlit("launchd service: loaded");
    }
    assert(service_line(false) =~= "launchd service: not loaded"@) by {
        reveal_strlit("launchd service: ");
        reveal_strlit("not loaded");
        reveal_strlit("launchd service: not loaded");
    }
    assert(recording_line(true) =~= "screen recording: granted"@) by {
        reveal_strlit("screen recording: ");
        reveal_strlit("granted");
        reveal_strlit("screen recording: granted");
    }
    assert(recording_line(false)
        =~= "screen recording: not granted (window titles will be empty)"@) by {
        reveal_strlit("screen recording: ");
        reveal_strlit("not granted (window titles will be empty)");
        reveal_strlit("screen recording: not granted (window titles will be empty)");
    }
    assert(host_line(Some(path)) =~= "browser extension host: manifest installed ("@ + path
        + ")"@) by {
        reveal_strlit("browser extension host: ");
        reveal_strlit("manifest installed (");
        reveal_strlit("browser extension host: manifest installed (");
    }
    assert(host_line(None)
        =~= "browser extension host: manifest not installed (run `trove-collector install`)"@) by {
        reveal_strlit("browser extension host: ");
        reveal_strlit("manifest not installed (run `trove-collector install`)");
        reveal_strlit(
            "browser extension host: manifest not installed (run `trove-collector install`)",
        );
    }
}

/// What the status report says of the collector: running only by a heartbeat
/// that is live, with the process it is of, its memory where that is known, and
/// whether somebody is in an app or away.
pub proof fn law_status_of_the_collector(h: HeartbeatView, e: EventView, m: u64)
    ensures
        collector_line(None, true) == "collector: none"@,
        collector_line(None, false) == "collector: none"@,
        collector_line(Some(h), false)
            == "collector: none (stale heartbeat — last owner likely crashed)"@,
        h.rss_mb is None ==> collector_line(Some(h), true) == "collector: running (pid "@
            + json::decimal(h.pid as nat) + "), currently "@ + doing(h.current),
        h.rss_mb == Some(m) ==> collector_line(Some(h), true) == "collector: running (pid "@
            + json::decimal(h.pid as nat) + ", "@ + json::decimal(m as nat) + " MB), currently "@
            + doing(h.current),
        doing(None) == "idle"@,
        e.afk ==> doing(Some(e)) == "away"@,
        !e.afk ==> doing(Some(e)) == "in "@ + e.app,
{
    let lead = "collector: running (pid "@ + json::decimal(h.pid as nat);
    if h.rss_mb is None {
        assert(lead + Seq::<char>::empty() =~= lead);
    } else {
        let n = json::decimal((h.rss_mb->0) as nat);
        assert(" MB), currently "@ =~= " MB"@ + "), currently "@) by {
            reveal_strlit(" MB), currently ");
            reveal_strlit(" MB");
            reveal_strlit("), currently ");
        }
        assert(lead + (", "@ + n + " MB"@) + "), currently "@ =~= lead + ", "@ + n
            + " MB), currently "@);
    }
}

/// The status report shows each toggle by its name, on or off.
pub proof fn law_status_of_a_toggle(s: SettingsView, id: Seq<char>)
    ensures
        vault::is_enabled(s, id) ==> toggle_line(s, id) == "  "@ + id + ": on"@,
        !vault::is_enabled(s, id) ==> toggle_line(s, id) == "  "@ + id + ": off"@,
        toggle_lines(s).len() == 5,
        toggle_lines(s).contains(toggle_line(s, "activity"@)),
        toggle_lines(s).contains(toggle_line(s, "music-scrobbler"@)),
        toggle_lines(s).contains(toggle_line(s, "browser-extension"@)),
        toggle_lines(s).contains(toggle_line(s, "browser-ads"@)),
        toggle_lines(s).contains(toggle_line(s, "browser-ads-identify"@)),
{
    assert(": on"@ =~= ": "@ + "on"@) by {
        reveal_strlit(": on");
        reveal_strlit(": ");
        reveal_strlit("on");
    }
    assert(": off"@ =~= ": "@ + "off"@) by {
        reveal_strlit(": off");
        reveal_strlit(": ");
        reveal_strlit("off");
    }
    assert("  "@ + id + ": on"@ =~= "  "@ + id + ": "@ + "on"@);
    assert("  "@ + id + ": off"@ =~= "  "@ + id + ": "@ + "off"@);
    let t = toggle_lines(s);
    assert(t[0] == toggle_line(s, "activity"@) && t[1] == toggle_line(s, "music-scrobbler"@) && t[2]
        == toggle_line(s, "browser-extension"@) && t[3] == toggle_line(s, "browser-ads"@) && t[4]
        == toggle_line(s, "browser-ads-identify"@));
}

/// The service is the user's own: below the domain of the graphical session,
/// under the agent's label. Two users have two.
pub proof fn law_a_service_is_one_users(uid: u32, other: u32)
    ensures
        domain_of_user(uid) == "gui/"@ + json::decimal(uid as nat),
        LABEL@ == "com.davidwills.trove-collector"@,
        uid != other ==> domain_of_user(uid) != domain_of_user(other),
{
    if uid != other && domain_of_user(uid) == domain_of_user(other) {
        let a = json::decimal(uid as nat);
        let b = json::decimal(other as nat);
        assert(domain_of_user(uid).skip("gui/"@.len() as int) =~= a);
        assert(domain_of_user(other).skip("gui/"@.len() as int) =~= b);
        assert(a + Seq::<char>::empty() =~= b + Seq::<char>::empty());
        json::law_decimal_reads_back(uid as nat, Seq::empty(), other as nat, Seq::empty());
    }
}

} // verus!
