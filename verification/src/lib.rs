//! The logic of the always-on collector for a Trove vault.
//!
//! The collector writes three streams: what app and window is frontmost
//! (`activity`), what is looked at in the browser (`browser`, and
//! `ads` for observed ads), and what the music player plays
//! (`music`). Each stream is a folder of the vault with one file per local
//! day and one JSON object per line; `vault` says where files are and what an
//! append writes.
//!
//! Nothing here reads or writes: what happened comes in as plain values and
//! what is to be done goes out as plain values. `runner` decides what the loop
//! does next, `native_host` what a browser's message leads to, `launchd` how
//! the agent is installed and restarted, `cli` what the command line asks for.
//! Every public function states in its contract what it returns, over a model
//! that its module defines, and the functions named `law_..` state what holds
//! across calls.

pub mod activity;
pub mod ads;
pub mod browser;
pub mod cli;
pub mod json;
pub mod launchd;
pub mod moment;
pub mod music;
pub mod native_host;
pub mod runner;
pub mod sampler;
pub mod text;
pub mod vault;
