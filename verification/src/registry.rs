//! The player registry: every player currently present on the bus, keyed by
//! its bus name.  Each entry's background listener lives in the embedding
//! layer; the registry holds the state the scheduler reads.

use vstd::prelude::*;

use crate::player::PlayerInformation;
use crate::text::str_eq;

verus! {

/// One registered player.
#[derive(Debug, Clone, PartialEq, Eq)]
pub struct PlayerEntry {
    pub bus: String,
    pub info: PlayerInformation,
}

/// All registered players, in registration order.
#[derive(Debug, Clone, PartialEq, Eq)]
pub struct PlayerRegistry {
    pub players: Vec<PlayerEntry>,
}

impl PlayerRegistry {
    /// Index of the entry registered under `bus`, among entries from `i` on.
    pub open spec fn spec_index_from(self, bus: Seq<char>, i: int) -> Option<int>
        decreases self.players@.len() - i,
    {
        if i < 0 || i >= self.players@.len() {
            None
        } else if self.players@[i].bus@ == bus {
            Some(i)
        } else {
            self.spec_index_from(bus, i + 1)
        }
    }

    /// No two entries share a bus name.
    pub open spec fn wf(self) -> bool {
        forall|i: int, j: int|
            0 <= i < j < self.players@.len() ==> (#[trigger] self.players@[i]).bus@ != (
            #[trigger] self.players@[j]).bus@
    }

    pub fn new() -> (r: PlayerRegistry)
        ensures
            r.players@.len() == 0,
            r.wf(),
    {
        PlayerRegistry { players: Vec::new() }
    }

    /// Index of the entry registered under `bus`, if any.
    pub fn index_of(&self, bus: &str) -> (r: Option<usize>)
        ensures
            r == match self.spec_index_from(bus@, 0) {
                Some(i) => Some(i as usize),
                None => None::<usize>,
            },
    {
        let n = self.players.len();
        let mut i: usize = 0;
        while i < n
            invariant
                0 <= i <= n,
                n == self.players@.len(),
                self.spec_index_from(bus@, i as int) == self.spec_index_from(bus@, 0),
                forall|k: int| 0 <= k < i ==> (#[trigger] self.players@[k]).bus@ != bus@,
            decreases n - i,
        {
            if str_eq(self.players[i].bus.as_str(), bus) {
                return Some(i);
            }
            i = i + 1;
        }
        None
    }

    /// Register a player, replacing any entry already under the same name.
    pub fn insert(&mut self, entry: PlayerEntry)
        requires
            old(self).wf(),
        ensures
            final(self).wf(),
            final(self).spec_index_from(entry.bus@, 0) is Some,
            final(self).players@.last() == entry,
            forall|k: int|
                0 <= k < final(self).players@.len() - 1 ==> exists|j: int|
                    0 <= j < old(self).players@.len() && (#[trigger] final(self).players@[k])
                        == old(self).players@[j],
    {
        let ghost before = self.players@;
        match self.index_of(entry.bus.as_str()) {
            Some(i) => {
                let cap = self.players.len();
                proof {
                    self.lemma_index_from_props(entry.bus@, 0);
                    match self.spec_index_from(entry.bus@, 0) {
                        Some(j) => {
                            assert(0 <= j < cap);
                            assert(i == j as usize);
                            assert(i as int == j);
                            assert(before[i as int].bus@ == entry.bus@);
                        },
                        None => {
                            assert(false);
                        },
                    }
                }
                self.players.remove(i);
                proof {
                    assert(forall|k: int|
                        0 <= k < i ==> (#[trigger] self.players@[k]) == before[k]);
                    assert(forall|k: int|
                        i <= k < self.players@.len() ==> (#[trigger] self.players@[k]) == before[
                            k + 1
                        ]);
                    assert(forall|k: int|
                        0 <= k < self.players@.len() ==> (#[trigger] self.players@[k]).bus@
                            != entry.bus@) by {
                        assert(forall|k: int|
                            0 <= k < before.len() && k != i ==> (#[trigger] before[k]).bus@
                                != entry.bus@);
                    }
                }
            },
            None => {
                proof {
                    self.lemma_index_from_props(entry.bus@, 0);
                }
            },
        }
        let ghost kept = self.players@;
        proof {
            assert(forall|k: int|
                0 <= k < kept.len() ==> (#[trigger] kept[k]).bus@ != entry.bus@);
            assert(forall|k: int|
                0 <= k < kept.len() ==> exists|j: int|
                    0 <= j < before.len() && (#[trigger] kept[k]) == before[j]);
        }
        self.players.push(entry);
        proof {
            let n = self.players@.len() as int;
            assert(self.players@[n - 1] == entry);
            self.lemma_index_from_finds(entry.bus@, 0, n - 1);
            assert(forall|k: int|
                0 <= k < n - 1 ==> (#[trigger] self.players@[k]) == kept[k]);
        }
    }

    /// Remove the entry under `bus`, handing it back.
    pub fn remove(&mut self, bus: &str) -> (r: Option<PlayerEntry>)
        requires
            old(self).wf(),
        ensures
            final(self).wf(),
            match r {
                Some(e) => e.bus@ == bus@ && old(self).spec_index_from(bus@, 0) is Some
                    && final(self).spec_index_from(bus@, 0) is None
                    && final(self).players@.len() == old(self).players@.len() - 1,
                None => old(self).spec_index_from(bus@, 0) is None && *final(self) == *old(self),
            },
    {
        proof {
            self.lemma_index_from_props(bus@, 0);
        }
        let ghost before = self.players@;
        match self.index_of(bus) {
            Some(i) => {
                let cap = self.players.len();
                proof {
                    match self.spec_index_from(bus@, 0) {
                        Some(j) => {
                            assert(0 <= j < cap);
                            assert(i == j as usize);
                            assert(i as int == j);
                            assert(before[i as int].bus@ == bus@);
                        },
                        None => {
                            assert(false);
                        },
                    }
                }
                let e = self.players.remove(i);
                proof {
                    assert(forall|k: int|
                        0 <= k < i ==> (#[trigger] self.players@[k]) == before[k]);
                    assert(forall|k: int|
                        i <= k < self.players@.len() ==> (#[trigger] self.players@[k]) == before[
                            k + 1
                        ]);
                    assert(forall|k: int|
                        0 <= k < self.players@.len() ==> (#[trigger] self.players@[k]).bus@
                            != bus@) by {
                        assert(forall|k: int|
                            0 <= k < before.len() && k != i ==> (#[trigger] before[k]).bus@
                                != bus@);
                    }
                    self.lemma_index_from_none(bus@, 0);
                }
                Some(e)
            },
            None => None,
        }
    }

    /// What a found index means.
    pub proof fn lemma_index_from_props(&self, bus: Seq<char>, i: int)
        requires
            i >= 0,
        ensures
            match self.spec_index_from(bus, i) {
                Some(j) => i <= j < self.players@.len() && self.players@[j].bus@ == bus,
                None => forall|k: int|
                    i <= k < self.players@.len() ==> (#[trigger] self.players@[k]).bus@ != bus,
            },
        decreases self.players@.len() - i,
    {
        if i < self.players@.len() && self.players@[i].bus@ != bus {
            self.lemma_index_from_props(bus, i + 1);
        }
    }

    /// An entry that carries the name is always found.
    pub proof fn lemma_index_from_finds(&self, bus: Seq<char>, i: int, j: int)
        requires
            0 <= i <= j < self.players@.len(),
            self.players@[j].bus@ == bus,
        ensures
            self.spec_index_from(bus, i) is Some,
        decreases j - i,
    {
        if i < j && self.players@[i].bus@ != bus {
            self.lemma_index_from_finds(bus, i + 1, j);
        }
    }

    /// With no entry under the name, the search misses.
    pub proof fn lemma_index_from_none(&self, bus: Seq<char>, i: int)
        requires
            i >= 0,
            forall|k: int|
                i <= k < self.players@.len() ==> (#[trigger] self.players@[k]).bus@ != bus,
        ensures
            self.spec_index_from(bus, i) is None,
        decreases self.players@.len() - i,
    {
        if i < self.players@.len() {
            self.lemma_index_from_none(bus, i + 1);
        }
    }
}

} // verus!
