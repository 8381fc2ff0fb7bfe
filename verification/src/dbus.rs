//! Bus identities: recognising media players among bus names and matching
//! them against the user's allow-list.

use vstd::prelude::*;

use crate::text::{lower_s, str_eq, ascii_eq_ignore_case, str_starts_with};

verus! {

/// What happened to a name on the bus.
#[derive(Debug, Clone, Copy, PartialEq, Eq, Structural)]
pub enum BusActivity {
    Created,
    Destroyed,
}

/// One membership change, parsed from the bus's ownership signal.
#[derive(Debug, Clone, PartialEq, Eq)]
pub struct BusChange {
    pub name: String,
    pub activity: BusActivity,
}

/// Whether a bus name belongs to the media-player namespace.
pub open spec fn spec_is_mpris(n: Seq<char>) -> bool {
    n.len() >= "org.mpris.MediaPlayer2"@.len() && n.take("org.mpris.MediaPlayer2"@.len() as int)
        == "org.mpris.MediaPlayer2"@
}

/// The short player name: the part after the namespace prefix, or the whole
/// name when the dotted prefix is absent.
pub open spec fn spec_player_name(n: Seq<char>) -> Seq<char> {
    let p = "org.mpris.MediaPlayer2."@;
    if n.len() >= p.len() && n.take(p.len() as int) == p {
        n.skip(p.len() as int)
    } else {
        n
    }
}

/// Whether one allow-list entry admits the name: the short player name or
/// the full identity, either exactly or ASCII-case-insensitively.
pub open spec fn spec_matches_one(n: Seq<char>, p: Seq<char>) -> bool {
    ||| spec_player_name(n) == p
    ||| lower_s(spec_player_name(n)) == lower_s(p)
    ||| lower_s(n) == lower_s(p)
    ||| n == "org.mpris.MediaPlayer2."@ + p
}

/// Whether the allow-list admits the name: it must be a media player, and
/// either the list holds the wildcard `all` or some entry matches.
pub open spec fn spec_matches_players(n: Seq<char>, players: Seq<String>) -> bool {
    &&& spec_is_mpris(n)
    &&& ((exists|i: int| 0 <= i < players.len() && (#[trigger] players[i])@ == "all"@) || (
    exists|i: int| 0 <= i < players.len() && spec_matches_one(n, (#[trigger] players[i])@)))
}

fn matches_one(name: &str, pn: &str, p: &str) -> (r: bool)
    requires
        pn@ == spec_player_name(name@),
    ensures
        r == spec_matches_one(name@, p@),
{
    if str_eq(pn, p) {
        return true;
    }
    if ascii_eq_ignore_case(pn, p) {
        return true;
    }
    if ascii_eq_ignore_case(name, p) {
        return true;
    }
    let prefix = "org.mpris.MediaPlayer2.";
    let plen = prefix.unicode_len();
    let nlen = name.unicode_len();
    let whole = nlen >= plen && nlen - plen == p.unicode_len() && str_starts_with(name, prefix)
        && str_eq(name.substring_char(plen, nlen), p);
    proof {
        if whole {
            assert(name@ =~= "org.mpris.MediaPlayer2."@ + p@);
        } else {
            if name@ == "org.mpris.MediaPlayer2."@ + p@ {
                assert(name@.len() == plen + p@.len());
                assert(name@.take(plen as int) =~= "org.mpris.MediaPlayer2."@);
                assert(name@.subrange(plen as int, nlen as int) =~= p@);
            }
        }
    }
    whole
}

impl BusChange {
    pub fn new(name: String, activity: BusActivity) -> (r: BusChange)
        ensures
            r == (BusChange { name, activity }),
    {
        BusChange { name, activity }
    }

    /// An initially-present name enters as a creation.
    pub fn new_existing(name: String) -> (r: BusChange)
        ensures
            r == (BusChange { name, activity: BusActivity::Created }),
    {
        BusChange { name, activity: BusActivity::Created }
    }

    /// Whether the name belongs to the media-player namespace.
    pub fn is_mpris(&self) -> (r: bool)
        ensures
            r == spec_is_mpris(self.name@),
    {
        str_starts_with(self.name.as_str(), "org.mpris.MediaPlayer2")
    }

    /// Whether the allow-list admits this player.
    #[verifier::rlimit(100)]
    #[verifier::spinoff_prover]
    pub fn matches_players(&self, players: &Vec<String>) -> (r: bool)
        ensures
            r == spec_matches_players(self.name@, players@),
    {
        let mpris = self.is_mpris();
        if !mpris {
            return false;
        }
        proof {
            assert(spec_is_mpris(self.name@));
        }
        let n = players.len();
        let mut i: usize = 0;
        while i < n
            invariant
                0 <= i <= n,
                n == players@.len(),
                spec_is_mpris(self.name@),
                forall|k: int| 0 <= k < i ==> (#[trigger] players@[k])@ != "all"@,
            decreases n - i,
        {
            if str_eq(players[i].as_str(), "all") {
                proof {
                    let wi = i as int;
                    assert((players@[wi])@ == "all"@);
                }
                return true;
            }
            i = i + 1;
        }
        let prefix = "org.mpris.MediaPlayer2.";
        let plen = prefix.unicode_len();
        let nlen = self.name.unicode_len();
        let pn: &str = if str_starts_with(self.name.as_str(), prefix) {
            self.name.as_str().substring_char(plen, nlen)
        } else {
            self.name.as_str()
        };
        proof {
            assert(pn@ == spec_player_name(self.name@));
        }
        let mut j: usize = 0;
        while j < n
            invariant
                0 <= j <= n,
                n == players@.len(),
                spec_is_mpris(self.name@),
                pn@ == spec_player_name(self.name@),
                forall|k: int| 0 <= k < j ==> !spec_matches_one(self.name@, (#[trigger] players@[
                    k
                ])@),
            decreases n - j,
        {
            if matches_one(self.name.as_str(), pn, players[j].as_str()) {
                proof {
                    let wj = j as int;
                    assert(spec_matches_one(self.name@, (players@[wj])@));
                }
                return true;
            }
            j = j + 1;
        }
        false
    }
}

} // verus!
