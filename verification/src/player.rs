//! Per-player playback state: typed metadata, the last reported position and
//! when it was captured, the playback rate, and the extrapolated "current
//! position" derived from them.

use vstd::prelude::*;

use crate::lrc::TimeTag;
use crate::text::{
    lower_s, ascii_eq_ignore_case, str_eq, find_s, dec_rep, u64_to_dec, push_char,
};

verus! {

/// Current playback status of a player.
#[derive(Debug, Clone, Copy, PartialEq, Eq, Structural)]
pub enum PlaybackStatus {
    Playing,
    Paused,
    Stopped,
}

impl PlaybackStatus {
    /// Parse a status string, ASCII-case-insensitively; anything but the
    /// three known words is rejected.
    pub fn from_str(s: &str) -> (r: Option<PlaybackStatus>)
        ensures
            match r {
                Some(PlaybackStatus::Playing) => lower_s(s@) == lower_s("playing"@),
                Some(PlaybackStatus::Paused) => lower_s(s@) == lower_s("paused"@),
                Some(PlaybackStatus::Stopped) => lower_s(s@) == lower_s("stopped"@),
                None => lower_s(s@) != lower_s("playing"@) && lower_s(s@) != lower_s("paused"@)
                    && lower_s(s@) != lower_s("stopped"@),
            },
    {
        if ascii_eq_ignore_case(s, "playing") {
            Some(PlaybackStatus::Playing)
        } else if ascii_eq_ignore_case(s, "paused") {
            Some(PlaybackStatus::Paused)
        } else if ascii_eq_ignore_case(s, "stopped") {
            Some(PlaybackStatus::Stopped)
        } else {
            None
        }
    }
}

/// One metadata value, reduced to what the logic reads: text, a signed or
/// unsigned number, or some other shape already rendered for display by the
/// I/O layer.
#[derive(Debug, Clone, PartialEq, Eq)]
pub enum MetadataValue {
    Text(String),
    TextList(Vec<String>),
    Int(i64),
    UInt(u64),
    Rendered(String),
}

/// A player's metadata: a key-to-value listing.  Lookups take the first entry
/// with the asked-for key.
#[derive(Debug, Clone, PartialEq, Eq)]
pub struct Metadata {
    pub entries: Vec<(String, MetadataValue)>,
}

impl Metadata {
    /// The value under `key` among entries from `i` on: the first entry
    /// that carries it.
    pub open spec fn spec_get_from(self, key: Seq<char>, i: int) -> Option<MetadataValue>
        decreases self.entries@.len() - i,
    {
        if i < 0 || i >= self.entries@.len() {
            None
        } else if self.entries@[i].0@ == key {
            Some(self.entries@[i].1)
        } else {
            self.spec_get_from(key, i + 1)
        }
    }

    pub fn new() -> (r: Metadata)
        ensures
            r.entries@.len() == 0,
    {
        Metadata { entries: Vec::new() }
    }

    pub fn get(&self, key: &str) -> (r: Option<&MetadataValue>)
        ensures
            match r {
                Some(v) => self.spec_get_from(key@, 0) == Some(*v),
                None => self.spec_get_from(key@, 0) is None,
            },
    {
        let n = self.entries.len();
        let mut i: usize = 0;
        while i < n
            invariant
                0 <= i <= n,
                n == self.entries@.len(),
                self.spec_get_from(key@, i as int) == self.spec_get_from(key@, 0),
            decreases n - i,
        {
            if str_eq(self.entries[i].0.as_str(), key) {
                return Some(&self.entries[i].1);
            }
            i = i + 1;
        }
        None
    }
}

/// The text under `key`, when that entry is plain text.
pub open spec fn spec_get_text(m: Metadata, key: Seq<char>) -> Option<Seq<char>> {
    match m.spec_get_from(key, 0) {
        Some(MetadataValue::Text(t)) => Some(t@),
        _ => None,
    }
}

/// The declared track length in microseconds, read from `mpris:length`.
/// A signed value is taken bit-for-bit, as the bus hands it over.
pub open spec fn spec_track_length(m: Metadata) -> Option<u64> {
    match m.spec_get_from("mpris:length"@, 0) {
        Some(MetadataValue::Int(v)) => Some(v as u64),
        Some(MetadataValue::UInt(v)) => Some(v),
        _ => None,
    }
}

/// Everything the scheduler knows about one player.
#[derive(Debug, Clone, PartialEq, Eq)]
pub struct PlayerInformation {
    pub metadata: Metadata,
    /// Last reported position, in microseconds (the bus may report it signed).
    pub position: i64,
    /// Monotonic-clock instant, in microseconds, at which `position` was
    /// captured.
    pub position_last_refresh: u64,
    /// Playback rate in parts per thousand, if the player reported one.
    pub rate: Option<u64>,
    pub status: Option<PlaybackStatus>,
}

/// One typed update from a player's listener.
#[derive(Debug, Clone, PartialEq, Eq)]
pub enum PlayerInformationUpdate {
    Metadata(Metadata),
    Rate(u64),
    Status(PlaybackStatus),
    Position(i64, u64),
}

impl PlayerInformation {
    /// A reported rate of zero would stop time, and a negative position has
    /// no meaning: both are clamped away before they reach the state.
    pub open spec fn wf(self) -> bool {
        self.position >= 0 && match self.rate {
            Some(r) => r > 0,
            None => true,
        }
    }

    /// The rate used for extrapolation: as reported, or normal speed.
    pub open spec fn spec_rate(self) -> u64 {
        match self.rate {
            Some(r) => r,
            None => 1000,
        }
    }

    /// Build a fresh state; a negative reported position is clamped to zero.
    pub fn new(metadata: Metadata, position: i64, now: u64, rate: Option<u64>, status: Option<
        PlaybackStatus,
    >) -> (r: PlayerInformation)
        requires
            match rate {
                Some(x) => x > 0,
                None => true,
            },
        ensures
            r == (PlayerInformation {
                metadata,
                position: if position >= 0 {
                    position
                } else {
                    0
                },
                position_last_refresh: now,
                rate,
                status,
            }),
            r.wf(),
    {
        let position = if position >= 0 {
            position
        } else {
            0
        };
        PlayerInformation { metadata, position, position_last_refresh: now, rate, status }
    }

    /// Replace the one field an update carries.
    pub fn apply_update(&mut self, update: PlayerInformationUpdate)
        requires
            old(self).wf(),
            match update {
                PlayerInformationUpdate::Rate(r) => r > 0,
                _ => true,
            },
        ensures
            final(self).wf(),
            match update {
                PlayerInformationUpdate::Metadata(m) => *final(self) == (PlayerInformation {
                    metadata: m,
                    ..*old(self)
                }),
                PlayerInformationUpdate::Rate(r) => *final(self) == (PlayerInformation {
                    rate: Some(r),
                    ..*old(self)
                }),
                PlayerInformationUpdate::Status(st) => *final(self) == (PlayerInformation {
                    status: Some(st),
                    ..*old(self)
                }),
                PlayerInformationUpdate::Position(p, at) => *final(self) == (PlayerInformation {
                    position: if p >= 0 {
                        p
                    } else {
                        0
                    },
                    position_last_refresh: at,
                    ..*old(self)
                }),
            },
    {
        match update {
            PlayerInformationUpdate::Metadata(m) => {
                self.metadata = m;
            },
            PlayerInformationUpdate::Rate(r) => {
                self.rate = Some(r);
            },
            PlayerInformationUpdate::Status(st) => {
                self.status = Some(st);
            },
            PlayerInformationUpdate::Position(p, at) => {
                self.position = if p >= 0 {
                    p
                } else {
                    0
                };
                self.position_last_refresh = at;
            },
        }
    }
}

/// Wall-clock time accrued since the last refresh, scaled by the rate; zero
/// unless the player is playing, and zero again if the clock ran backwards.
pub open spec fn spec_elapsed(info: PlayerInformation, now: u64) -> int {
    if info.status == Some(PlaybackStatus::Playing) && now >= info.position_last_refresh {
        (now - info.position_last_refresh) * 1000 / info.spec_rate() as int
    } else {
        0
    }
}

/// The extrapolated absolute position: last reported position plus scaled
/// elapsed time, saturating at the top of the microsecond range.
pub open spec fn spec_total_elapsed(info: PlayerInformation, now: u64) -> int {
    let total = info.position + spec_elapsed(info, now);
    if total > u64::MAX {
        u64::MAX as int
    } else {
        total
    }
}

/// The extrapolated position clamped to the declared track length, when one
/// is known — a looping player would otherwise drift past the end.
pub open spec fn spec_current_timetag(info: PlayerInformation, now: u64) -> int {
    let t = spec_total_elapsed(info, now);
    match spec_track_length(info.metadata) {
        Some(l) => if t > l {
            l as int
        } else {
            t
        },
        None => t,
    }
}

impl PlayerInformation {
    /// The declared track length, if the metadata carries one.
    pub fn track_length(&self) -> (r: Option<u64>)
        ensures
            r == spec_track_length(self.metadata),
    {
        match self.metadata.get("mpris:length") {
            Some(MetadataValue::Int(v)) => Some(*v as u64),
            Some(MetadataValue::UInt(v)) => Some(*v),
            _ => None,
        }
    }

    /// The extrapolated absolute position at `now`.
    pub fn calculate_total_elapsed(&self, now: u64) -> (r: u64)
        requires
            self.wf(),
        ensures
            r == spec_total_elapsed(*self, now),
    {
        let playing = match self.status {
            Some(PlaybackStatus::Playing) => true,
            _ => false,
        };
        let rate: u64 = match self.rate {
            Some(r) => r,
            None => 1000,
        };
        let elapsed: u128 = if playing && now >= self.position_last_refresh {
            (now - self.position_last_refresh) as u128 * 1000 / rate as u128
        } else {
            0
        };
        let total: u128 = self.position as u128 + elapsed;
        if total > u64::MAX as u128 {
            u64::MAX
        } else {
            total as u64
        }
    }

    /// The position to display at `now`: extrapolated, and clamped to the
    /// track length when one is known.
    pub fn get_current_timetag(&self, now: u64) -> (r: TimeTag)
        requires
            self.wf(),
        ensures
            r.0 == spec_current_timetag(*self, now),
    {
        let total = self.calculate_total_elapsed(now);
        match self.track_length() {
            Some(l) => if total > l {
                TimeTag(l)
            } else {
                TimeTag(total)
            },
            None => TimeTag(total),
        }
    }

    /// How many times the song has wrapped around its declared length, and
    /// the position inside the current pass.  Without a usable length the
    /// count is zero and the position the raw extrapolation.
    pub fn get_loop_count(&self, now: u64) -> (r: (u32, u64))
        requires
            self.wf(),
        ensures
            ({
                let total = spec_total_elapsed(*self, now);
                match spec_track_length(self.metadata) {
                    Some(l) => l > 0 ==> r.0 == (if total / l as int > u32::MAX {
                        u32::MAX as int
                    } else {
                        total / l as int
                    }) && r.1 == total % l as int,
                    None => true,
                }
            }),
            ({
                let total = spec_total_elapsed(*self, now);
                let has_len = match spec_track_length(self.metadata) {
                    Some(l) => l > 0,
                    None => false,
                };
                has_len || (r.0 == 0 && r.1 == total)
            }),
    {
        let total = self.calculate_total_elapsed(now);
        match self.track_length() {
            Some(l) => {
                if l > 0 {
                    let loops: u64 = total / l;
                    let count: u32 = if loops > u32::MAX as u64 {
                        u32::MAX
                    } else {
                        loops as u32
                    };
                    (count, total % l)
                } else {
                    (0, total)
                }
            },
            None => (0, total),
        }
    }

    /// Rebase the position at `now`: store the extrapolated position and make
    /// `now` the new capture instant.  Done at a play/pause transition, before
    /// the new status is applied, so that no time leaks across the change.
    pub fn freeze_position(&mut self, now: u64)
        requires
            old(self).wf(),
        ensures
            final(self).wf(),
            final(self).position == if spec_total_elapsed(*old(self), now) > i64::MAX {
                i64::MAX as int
            } else {
                spec_total_elapsed(*old(self), now)
            },
            final(self).position_last_refresh == now,
            final(self).metadata == old(self).metadata,
            final(self).rate == old(self).rate,
            final(self).status == old(self).status,
    {
        let total = self.calculate_total_elapsed(now);
        self.position = if total > i64::MAX as u64 {
            i64::MAX
        } else {
            total as i64
        };
        self.position_last_refresh = now;
    }

    /// Drop the position baseline to zero at `now` — done when a track
    /// change makes the old timing meaningless.
    pub fn reset_baseline(&mut self, now: u64)
        ensures
            *final(self) == (PlayerInformation {
                position: 0,
                position_last_refresh: now,
                ..*old(self)
            }),
    {
        self.position = 0;
        self.position_last_refresh = now;
    }

    /// Whether the text under `xesam:asText` looks like one concatenated
    /// line: non-empty, with no line break except perhaps a final one.
    pub open spec fn spec_single_line(t: Seq<char>) -> bool {
        t.len() > 0 && match find_s(t, '\n') {
            None => true,
            Some(i) => i == t.len() - 1,
        }
    }
}

// ---------------------------------------------------------------------------
// Laws
// ---------------------------------------------------------------------------

/// While a player reports Playing at a fixed rate, the extrapolated position
/// never runs backwards as the wall clock advances, and it never exceeds a
/// declared track length.
pub proof fn lemma_current_timetag_monotonic(info: PlayerInformation, n1: u64, n2: u64)
    requires
        info.wf(),
        n1 <= n2,
    ensures
        spec_current_timetag(info, n1) <= spec_current_timetag(info, n2),
        spec_track_length(info.metadata) matches Some(l) ==> spec_current_timetag(info, n2)
            <= l,
{
    if info.status == Some(PlaybackStatus::Playing) && n2 >= info.position_last_refresh {
        if n1 >= info.position_last_refresh {
            let d1 = (n1 - info.position_last_refresh) * 1000;
            let d2 = (n2 - info.position_last_refresh) * 1000;
            assert(d1 <= d2);
            vstd::arithmetic::div_mod::lemma_div_is_ordered(d1, d2, info.spec_rate() as int);
        } else {
            vstd::arithmetic::div_mod::lemma_div_pos_is_pos(
                (n2 - info.position_last_refresh) * 1000,
                info.spec_rate() as int,
            );
        }
    }
}

/// Once the status is anything but Playing, the extrapolated position no
/// longer depends on the clock: pausing freezes the display position.
pub proof fn lemma_pause_freezes_position(info: PlayerInformation, n1: u64, n2: u64)
    requires
        info.wf(),
        info.status != Some(PlaybackStatus::Playing),
    ensures
        spec_current_timetag(info, n1) == spec_current_timetag(info, n2),
{
}


// ---------------------------------------------------------------------------
// Metadata display
// ---------------------------------------------------------------------------

/// Values longer than this are shown as a size note instead.
pub const MAX_METADATA_VALUE_LEN: usize = 256;

/// Decimal rendering of a signed number.
pub open spec fn spec_i64_str(v: i64) -> Seq<char> {
    if v >= 0 {
        dec_rep(v as int)
    } else {
        seq!['-'] + dec_rep(-(v as int))
    }
}

/// Texts joined with semicolons, as list values are shown.
pub open spec fn spec_join_semi(ts: Seq<Seq<char>>) -> Seq<char>
    decreases ts.len(),
{
    if ts.len() == 0 {
        Seq::empty()
    } else if ts.len() == 1 {
        ts[0]
    } else {
        spec_join_semi(ts.drop_last()) + seq![';'] + ts.last()
    }
}

/// How one metadata value reads.
pub open spec fn display_of(v: MetadataValue) -> Seq<char> {
    match v {
        MetadataValue::Text(t) => t@,
        MetadataValue::TextList(ts) => spec_join_semi(ts@.map_values(|s: String| s@)),
        MetadataValue::Int(n) => spec_i64_str(n),
        MetadataValue::UInt(n) => dec_rep(n as int),
        MetadataValue::Rendered(t) => t@,
    }
}

/// Texts joined with semicolons.
fn join_semi(texts: &Vec<String>) -> (r: String)
    ensures
        r@ == spec_join_semi(texts@.map_values(|s: String| s@)),
{
    let n = texts.len();
    let mut out = String::new();
    let mut i: usize = 0;
    proof {
        assert(texts@.take(0).map_values(|s: String| s@) =~= Seq::<Seq<char>>::empty());
    }
    while i < n
        invariant
            0 <= i <= n,
            n == texts@.len(),
            out@ == spec_join_semi(texts@.take(i as int).map_values(|s: String| s@)),
        decreases n - i,
    {
        proof {
            let m = texts@.take(i + 1).map_values(|s: String| s@);
            assert(m.drop_last() =~= texts@.take(i as int).map_values(|s: String| s@));
            assert(m.last() == texts@[i as int]@);
        }
        if i > 0 {
            push_char(&mut out, ';');
        }
        out.append(texts[i].as_str());
        i = i + 1;
    }
    proof {
        assert(texts@.take(n as int) =~= texts@);
    }
    out
}

/// One `key: value` line; an oversized value (counted in characters) is
/// replaced by a note of its size.
pub open spec fn spec_entry_line(k: Seq<char>, v: MetadataValue) -> Seq<char> {
    let d = display_of(v);
    let shown = if d.len() > MAX_METADATA_VALUE_LEN as int {
        seq!['('] + dec_rep(d.len() as int) + " bytes blob)"@
    } else {
        d
    };
    k + seq![':', ' '] + shown
}

pub open spec fn spec_filtered(k: Seq<char>, filter: Seq<String>) -> bool {
    exists|j: int| 0 <= j < filter.len() && filter[j]@ == k
}

/// The metadata block: one line per entry whose key is not filtered out, in
/// entry order, joined by line breaks.
pub open spec fn spec_format_metadata(
    entries: Seq<(String, MetadataValue)>,
    filter: Seq<String>,
) -> Seq<char>
    decreases entries.len(),
{
    if entries.len() == 0 {
        Seq::empty()
    } else {
        let rest = spec_format_metadata(entries.drop_last(), filter);
        let e = entries.last();
        if spec_filtered(e.0@, filter) {
            rest
        } else if rest.len() == 0 {
            spec_entry_line(e.0@, e.1)
        } else {
            rest + seq!['\n'] + spec_entry_line(e.0@, e.1)
        }
    }
}

/// Decimal rendering of a signed number.
pub fn i64_to_dec(v: i64) -> (r: String)
    ensures
        r@ == spec_i64_str(v),
{
    if v >= 0 {
        u64_to_dec(v as u64)
    } else {
        let m: u64 = (-(v as i128)) as u64;
        let mut out = crate::text::char_to_string('-');
        out.append(u64_to_dec(m).as_str());
        proof {
            assert(out@ =~= seq!['-'] + dec_rep(-(v as int)));
        }
        out
    }
}

/// How one metadata value reads.
pub fn display_value(v: &MetadataValue) -> (r: String)
    ensures
        r@ == display_of(*v),
{
    match v {
        MetadataValue::Text(t) => t.clone(),
        MetadataValue::TextList(ts) => join_semi(ts),
        MetadataValue::Int(n) => i64_to_dec(*n),
        MetadataValue::UInt(n) => u64_to_dec(*n),
        MetadataValue::Rendered(t) => t.clone(),
    }
}

fn key_filtered(key: &str, filter: &Vec<String>) -> (r: bool)
    ensures
        r == spec_filtered(key@, filter@),
{
    let n = filter.len();
    let mut i: usize = 0;
    while i < n
        invariant
            0 <= i <= n,
            n == filter@.len(),
            forall|j: int| 0 <= j < i ==> filter@[j]@ != key@,
        decreases n - i,
    {
        if str_eq(filter[i].as_str(), key) {
            return true;
        }
        i = i + 1;
    }
    false
}

impl PlayerInformation {
    /// The metadata block for the tooltip: every entry whose key is not in
    /// `filter_keys`, one `key: value` line each.
    pub fn format_metadata(&self, filter_keys: &Vec<String>) -> (r: String)
        ensures
            r@ == spec_format_metadata(self.metadata.entries@, filter_keys@),
    {
        let n = self.metadata.entries.len();
        let mut out = String::new();
        let mut i: usize = 0;
        proof {
            assert(self.metadata.entries@.take(0) =~= Seq::<(String, MetadataValue)>::empty());
        }
        while i < n
            invariant
                0 <= i <= n,
                n == self.metadata.entries@.len(),
                out@ == spec_format_metadata(self.metadata.entries@.take(i as int), filter_keys@),
            decreases n - i,
        {
            let ghost pre = self.metadata.entries@.take(i as int);
            proof {
                assert(self.metadata.entries@.take(i + 1).drop_last() =~= pre);
                assert(self.metadata.entries@.take(i + 1).last() == self.metadata.entries@[
                    i as int
                ]);
            }
            let key = &self.metadata.entries[i].0;
            if !key_filtered(key.as_str(), filter_keys) {
                if out.as_str().unicode_len() > 0 {
                    push_char(&mut out, '\n');
                }
                out.append(key.as_str());
                push_char(&mut out, ':');
                push_char(&mut out, ' ');
                let d = display_value(&self.metadata.entries[i].1);
                let dlen = d.as_str().unicode_len();
                if dlen > MAX_METADATA_VALUE_LEN {
                    push_char(&mut out, '(');
                    out.append(u64_to_dec(dlen as u64).as_str());
                    out.append(" bytes blob)");
                } else {
                    out.append(d.as_str());
                }
            }
            i = i + 1;
        }
        proof {
            assert(self.metadata.entries@.take(n as int) =~= self.metadata.entries@);
        }
        out
    }

    /// Whether lyrics are knowably obtainable.  Inline text or a local file
    /// would each do, but as any metadata at all may still let an external
    /// provider answer, every player with metadata counts.
    pub fn has_lyrics(&self) -> (r: bool)
        ensures
            r == (self.metadata.entries@.len() > 0),
    {
        !self.metadata.entries.is_empty()
    }

    /// The text under `key`, cloned out of the metadata.
    pub fn text_value(&self, key: &str) -> (r: Option<String>)
        ensures
            match r {
                Some(t) => spec_get_text(self.metadata, key@) == Some(t@),
                None => spec_get_text(self.metadata, key@) is None,
            },
    {
        match self.metadata.get(key) {
            Some(MetadataValue::Text(t)) => Some(t.clone()),
            _ => None,
        }
    }

    /// The stable track identifier, when the player exposes one.
    pub fn track_id(&self) -> (r: Option<String>)
        ensures
            match r {
                Some(t) => spec_get_text(self.metadata, "mpris:trackid"@) == Some(t@),
                None => spec_get_text(self.metadata, "mpris:trackid"@) is None,
            },
    {
        self.text_value("mpris:trackid")
    }
}


// ---------------------------------------------------------------------------
// Local lyrics resolution
// ---------------------------------------------------------------------------

/// First index at which the two-character separator `" ["` starts, if any.
pub open spec fn find_sep(s: Seq<char>) -> Option<int>
    decreases s.len(),
{
    if s.len() < 2 {
        None
    } else if s[0] == ' ' && s[1] == '[' {
        Some(0)
    } else {
        match find_sep(s.skip(1)) {
            Some(i) => Some(i + 1),
            None => None,
        }
    }
}

/// Rebuild a one-line lyric dump as line-per-tag text: split on `" ["`, give
/// each piece back its `" ["` prefix, and join the pieces with line breaks.
pub open spec fn spec_concat_fix(s: Seq<char>) -> Seq<char>
    decreases s.len(),
    via spec_concat_fix_dec
{
    seq![' ', '['] + match find_sep(s) {
        None => s,
        Some(i) => s.take(i) + seq!['\n'] + spec_concat_fix(s.skip(i + 2)),
    }
}

proof fn lemma_find_sep_props(s: Seq<char>)
    ensures
        match find_sep(s) {
            Some(i) => 0 <= i && i + 2 <= s.len() && s[i] == ' ' && s[i + 1] == '[' && forall|
                k: int,
            | 0 <= k < i ==> !((#[trigger] s[k]) == ' ' && s[k + 1] == '['),
            None => forall|k: int|
                0 <= k <= s.len() - 2 ==> !((#[trigger] s[k]) == ' ' && s[k + 1] == '['),
        },
    decreases s.len(),
{
    if s.len() >= 2 && !(s[0] == ' ' && s[1] == '[') {
        lemma_find_sep_props(s.skip(1));
        assert(forall|k: int| 0 <= k < s.skip(1).len() ==> s.skip(1)[k] == s[k + 1]);
        assert(forall|k: int| 1 <= k < s.len() ==> s[k] == s.skip(1)[k - 1]);
        match find_sep(s.skip(1)) {
            Some(i) => {
                assert(s[i + 1] == s.skip(1)[i]);
                assert(s[i + 2] == s.skip(1)[i + 1]);
                assert(forall|k: int|
                    1 <= k < i + 1 ==> !((#[trigger] s.skip(1)[k - 1]) == ' ' && s.skip(1)[k]
                        == '['));
            },
            None => {
                assert(forall|k: int|
                    1 <= k <= s.len() - 2 ==> !((#[trigger] s.skip(1)[k - 1]) == ' ' && s.skip(
                        1,
                    )[k] == '['));
            },
        }
    }
}

#[via_fn]
proof fn spec_concat_fix_dec(s: Seq<char>) {
    lemma_find_sep_props(s);
}

/// First index at which `" ["` starts, if any.
fn find_sep_exec(s: &str) -> (r: Option<usize>)
    ensures
        r == match find_sep(s@) {
            Some(i) => Some(i as usize),
            None => None::<usize>,
        },
{
    proof {
        lemma_find_sep_props(s@);
    }
    let len = s.unicode_len();
    if len < 2 {
        return None;
    }
    let mut i: usize = 0;
    while i < len - 1 && !(s.get_char(i) == ' ' && s.get_char(i + 1) == '[')
        invariant
            0 <= i <= len - 1,
            len >= 2,
            len == s@.len(),
            forall|k: int| 0 <= k < i ==> !((#[trigger] s@[k]) == ' ' && s@[k + 1] == '['),
        decreases len - i,
    {
        i = i + 1;
    }
    if i < len - 1 {
        proof {
            match find_sep(s@) {
                Some(j) => {
                    assert(!(j < i) && !(i < j));
                },
                None => {
                    assert(false);
                },
            }
        }
        Some(i)
    } else {
        None
    }
}

/// Rebuild a one-line lyric dump as line-per-tag text.
pub fn split_concatenated(s: &str) -> (r: String)
    ensures
        r@ == spec_concat_fix(s@),
    decreases s@.len(),
{
    proof {
        lemma_find_sep_props(s@);
    }
    let len = s.unicode_len();
    let mut out = crate::text::char_to_string(' ');
    push_char(&mut out, '[');
    match find_sep_exec(s) {
        None => {
            out.append(s);
            proof {
                assert(out@ =~= seq![' ', '['] + s@);
            }
            out
        },
        Some(i) => {
            out.append(s.substring_char(0, i));
            push_char(&mut out, '\n');
            let rest = split_concatenated(s.substring_char(i + 2, len));
            out.append(rest.as_str());
            proof {
                assert(out@ =~= seq![' ', '['] + (s@.take(i as int) + seq!['\n']
                    + spec_concat_fix(s@.skip(i + 2))));
            }
            out
        },
    }
}

/// Where the lyrics for a track should come from, given only the player's
/// metadata: multi-line inline text is parsed directly; otherwise a local
/// `file://` path decides between a sidecar file and embedded tags (which of
/// the two is for the I/O layer to see); failing that, one-line inline text
/// is rebuilt and parsed; with nothing else there is no source.
#[derive(Debug, Clone, PartialEq, Eq)]
pub enum LocalLyricsPlan {
    Inline(String),
    FromPath { audio: String, lrc: String },
    InlineConcat(String),
    NoSource,
}

impl PlayerInformation {
    /// Decide where lyrics for the current track can come from.
    pub fn lyrics_plan(&self) -> (r: LocalLyricsPlan)
        ensures
            match r {
                LocalLyricsPlan::Inline(t) => (match spec_get_text(self.metadata, "xesam:asText"@) {
                    Some(tx) => !PlayerInformation::spec_single_line(tx) && t@ == tx,
                    None => false,
                }),
                LocalLyricsPlan::FromPath { audio, lrc } => (match spec_get_text(
                    self.metadata,
                    "xesam:url"@,
                ) {
                    Some(u) => crate::lrc::url_decoded(u).len() >= 7 && crate::lrc::url_decoded(
                        u,
                    ).take(7) == "file://"@ && audio@ == crate::lrc::url_decoded(u).skip(7)
                        && lrc@ == crate::lrc::spec_lrc_path(audio@),
                    None => false,
                }) && (match spec_get_text(self.metadata, "xesam:asText"@) {
                    Some(tx) => PlayerInformation::spec_single_line(tx),
                    None => true,
                }),
                LocalLyricsPlan::InlineConcat(t) => (match spec_get_text(
                    self.metadata,
                    "xesam:asText"@,
                ) {
                    Some(tx) => PlayerInformation::spec_single_line(tx) && t@ == spec_concat_fix(
                        tx,
                    ),
                    None => false,
                }),
                LocalLyricsPlan::NoSource => spec_get_text(self.metadata, "xesam:asText"@)
                    is None,
            },
    {
        let inline = self.text_value("xesam:asText");
        let single: bool = match &inline {
            Some(t) => {
                let tlen = t.as_str().unicode_len();
                proof {
                    crate::text::lemma_find_props(t@, '\n');
                }
                tlen > 0 && match crate::text::find_char(t.as_str(), '\n') {
                    None => true,
                    Some(i) => i == tlen - 1,
                }
            },
            None => false,
        };
        if let Some(t) = &inline {
            if !single {
                return LocalLyricsPlan::Inline(t.clone());
            }
        }
        if let Some(u) = self.text_value("xesam:url") {
            if let Some(audio) = crate::lrc::Lrc::audio_url_to_path(u.as_str()) {
                let lrc = crate::lrc::Lrc::audio_path_to_lrc(audio.as_str());
                return LocalLyricsPlan::FromPath { audio, lrc };
            }
        }
        match inline {
            Some(t) => LocalLyricsPlan::InlineConcat(split_concatenated(t.as_str())),
            None => LocalLyricsPlan::NoSource,
        }
    }
}

} // verus!
