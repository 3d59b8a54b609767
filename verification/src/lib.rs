//! Rules of a single-room voice chat with per-participant recording.

use vstd::prelude::*;

pub mod auth;
pub mod claims;
pub mod clock;
pub mod crypto;
pub mod domain;
pub mod egress;
pub mod events;
pub mod ids;
pub mod json;
pub mod jwt;
pub mod laws;
pub mod log;
pub mod model;
pub mod order;
pub mod pcm;
pub mod recording;
pub mod reply;
pub mod report;
pub mod room;
pub mod rows;
pub mod store;
pub mod table;
pub mod text;
pub mod wav;
pub mod webhook;

verus! {

/// Samples per second of every final track.
pub const SAMPLE_RATE: u32 = 48_000;

} // verus!
