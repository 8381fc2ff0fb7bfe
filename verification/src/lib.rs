//! A verified core for a status-bar lyrics daemon.
//!
//! The crate parses timestamp-tagged (LRC) lyric text into a time-indexed
//! document, extrapolates a player's playback position between updates,
//! selects which of several players should drive the display, and schedules
//! when the displayed line has to change.  All time offsets are carried as
//! whole microseconds; playback rates as parts per thousand.

pub mod dbus;
pub mod lrc;
pub mod manager;
pub mod navidrome;
pub mod netease;
pub mod out;
pub mod parser;
pub mod player;
pub mod provider;
pub mod registry;
pub mod scanner;
pub mod utils;
pub mod text;

use vstd::prelude::*;

verus! {

} // verus!
