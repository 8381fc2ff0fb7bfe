//! The active-player policy: which player may drive the display, and which
//! registered player takes over when the current one goes away.

use vstd::prelude::*;

use crate::lrc::Lrc;
use crate::player::{PlaybackStatus, PlayerInformation};
use crate::registry::PlayerRegistry;

verus! {

/// A player is eligible when it is playing — an unknown status counts as
/// playing, there being no stronger signal — and lyrics are knowably
/// obtainable for it.
pub open spec fn spec_is_active(info: PlayerInformation) -> bool {
    (info.status is None || info.status == Some(PlaybackStatus::Playing))
        && info.metadata.entries@.len() > 0
}

pub fn is_player_active(player: &PlayerInformation) -> (r: bool)
    ensures
        r == spec_is_active(*player),
{
    let status_ok = match player.status {
        None => true,
        Some(PlaybackStatus::Playing) => true,
        Some(_) => false,
    };
    status_ok && player.has_lyrics()
}

/// The name and lyrics handed back come from the first registered player
/// that is eligible and whose resolution succeeded.
pub open spec fn spec_selected(
    registry: PlayerRegistry,
    res: Seq<Option<Lrc>>,
    name: Seq<char>,
    lrc: Lrc,
) -> bool {
    exists|i: int|
        0 <= i < registry.players@.len() && spec_is_active(#[trigger] registry.players@[i].info)
            && res[i] == Some(lrc) && name == registry.players@[i].bus@ && (forall|j: int|
            0 <= j < i ==> !(spec_is_active(#[trigger] registry.players@[j].info) && res[j]
                is Some))
}

/// The first index whose player is eligible and whose lyrics resolved.
pub fn find_active_index(registry: &PlayerRegistry, resolutions: &Vec<Option<Lrc>>) -> (r:
    Option<usize>)
    requires
        resolutions@.len() == registry.players@.len(),
    ensures
        match r {
            Some(i) => 0 <= i < registry.players@.len() && spec_is_active(
                registry.players@[i as int].info,
            ) && resolutions@[i as int] is Some && (forall|j: int|
                0 <= j < i ==> !(spec_is_active(#[trigger] registry.players@[j].info)
                    && resolutions@[j] is Some)),
            None => forall|i: int|
                0 <= i < registry.players@.len() ==> !(spec_is_active(
                    #[trigger] registry.players@[i].info,
                ) && resolutions@[i] is Some),
        },
{
    let n = registry.players.len();
    let mut i: usize = 0;
    while i < n
        invariant
            0 <= i <= n,
            n == registry.players@.len(),
            resolutions@.len() == n,
            forall|j: int|
                0 <= j < i ==> !(spec_is_active(#[trigger] registry.players@[j].info)
                    && resolutions@[j] is Some),
        decreases n - i,
    {
        if is_player_active(&registry.players[i].info) && resolutions[i].is_some() {
            return Some(i);
        }
        i = i + 1;
    }
    None
}

/// The first registered player that is eligible and whose lyrics resolved.
/// `resolutions` holds, index for index, what lyric resolution produced for
/// each registered player; the embedding layer fills it in.
pub fn find_active_player_with_lyrics(registry: &PlayerRegistry, resolutions: Vec<Option<Lrc>>)
    -> (r: Option<(String, Lrc)>)
    requires
        resolutions@.len() == registry.players@.len(),
    ensures
        match r {
            Some(pair) => spec_selected(*registry, resolutions@, pair.0@, pair.1),
            None => forall|i: int|
                0 <= i < registry.players@.len() ==> !(spec_is_active(
                    #[trigger] registry.players@[i].info,
                ) && resolutions@[i] is Some),
        },
{
    let idx = find_active_index(registry, &resolutions);
    match idx {
        Some(i) => {
            let mut pool = resolutions;
            let taken = pool.remove(i);
            match taken {
                Some(lrc) => {
                    let name = registry.players[i].bus.clone();
                    proof {
                        let wi = i as int;
                        assert(spec_selected(*registry, resolutions@, name@, lrc)) by {
                            assert(0 <= wi < registry.players@.len() && spec_is_active(
                                registry.players@[wi].info,
                            ) && resolutions@[wi] == Some(lrc) && name@ == registry.players@[
                                wi
                            ].bus@ && (forall|j: int|
                                0 <= j < wi ==> !(spec_is_active(
                                    #[trigger] registry.players@[j].info,
                                ) && resolutions@[j] is Some)));
                        }
                    }
                    Some((name, lrc))
                },
                None => {
                    proof {
                        assert(false);
                    }
                    None
                },
            }
        },
        None => None,
    }
}

} // verus!
