# trove_collector

The logic of the always-on collector for a Trove vault, written in Verus: what
the collector records, where it records it and what it does next, with
contracts that Verus proves.

| Stream | What |
|---|---|
| `activity/YYYY-MM-DD.jsonl` | which app and window is frontmost, merged into spans, with idle detection |
| `browser/YYYY-MM-DD.jsonl` | per-tab engagement spans: foreground time, background audio |
| `browser/ads/YYYY-MM-DD.jsonl` | display ads seen, with network, size and on-screen time |
| `music/plays/YYYY-MM-DD.jsonl` | every play as it happens, skips included |

## Layout

```
src/activity.rs     samples -> events; the activity stream
src/sampler.rs      one reading of the window list
src/browser.rs      snapshots -> spans; the browser stream; live sidecars
src/ads.rs          ad events -> records; who paid for them; the ads stream
src/music.rs        player notifications -> plays; the music stream
src/vault.rs        paths, toggles, what an append writes, heartbeat
src/native_host.rs  frames, and what a browser message leads to
src/runner.rs       what the loop does next, one poll, resident memory
src/launchd.rs      the launch agent: files, restart, status report
src/cli.rs          the command line
src/json.rs         the JSON that lines are made of
src/moment.rs       points in time, and chrono
src/text.rs         characters and substrings
app/                the program: files, processes, the network, the system
tests/              tests of the library
```

The library holds no handle and touches no file. A function takes what happened
as plain values and returns what is to be done, for `app/` to do. Each module
has a model (`..View` types and spec functions) that its contracts speak of;
functions named `law_..` state what holds across calls. What is not proved is
what the wrappers around `chrono`, `serde_json` and a few functions of `std` say
in their contracts: they are the functions marked `external_body`, and the one
`assume_specification`.
