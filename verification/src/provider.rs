//! The external lyric providers a user can enable.

use vstd::prelude::*;

verus! {

/// A third-party lyrics source, tried in configuration order when no local
/// source resolves.
#[derive(Debug, Clone, Copy, PartialEq, Eq, Structural)]
pub enum ExternalLrcProvider {
    Navidrome,
    NeteaseCloudMusic,
}

} // verus!
