//! The lyrics manager: the single current-player slot, loop-restart
//! bookkeeping, and the scheduler that decides what to display and when the
//! display has to change next.  Every decision comes back as data — renders
//! to emit and a timer action — so the event loop around it stays thin.

use vstd::prelude::*;

use crate::lrc::{Lrc, TimeTag, doc_next, doc_texts, spec_duration_from};
use crate::out::{WaybarCustomModule, html_escaped};
use crate::player::{
    PlayerInformation, PlayerInformationUpdate, Metadata, spec_total_elapsed, spec_track_length,
    spec_format_metadata, spec_get_text, spec_current_timetag,
};
use crate::scanner::spec_is_active;
use crate::text::str_eq;

verus! {

/// A position this close to the start counts as "near the beginning" for
/// loop detection.
pub const LOOP_NEAR_START_MICROS: u64 = 15_000_000;

/// The previous position must lie this far in for a jump back to the start
/// to count as a loop.
pub const LOOP_FAR_IN_MICROS: u64 = 60_000_000;

/// After the lyrics have run out, a backward jump of at least this much
/// counts as a loop.
pub const LOOP_BACKWARD_JUMP_MICROS: u64 = 30_000_000;

/// When the display has to change next: at a known boundary, or never,
/// because the lyrics have run out (kept distinct so that a later loop of
/// the same track can be recognised).
#[derive(Debug, Clone, Copy, PartialEq, Eq, Structural)]
pub enum NextBoundary {
    At(TimeTag),
    Exhausted,
}

/// The player currently driving the display.
#[derive(Debug, Clone, PartialEq, Eq)]
pub struct CurrentPlayerState {
    pub bus: String,
    pub lrc: Lrc,
    pub next_lrc_timetag: NextBoundary,
}

/// What the embedding loop should do with its one display timer.
#[derive(Debug, Clone, Copy, PartialEq, Eq, Structural)]
pub enum TimerAction {
    Keep,
    Disarm,
    ArmIn(u64),
}

/// What one scheduler step asks the embedding loop to do.
#[derive(Debug, Clone, PartialEq, Eq)]
pub struct DisplayEffects {
    pub renders: Vec<WaybarCustomModule>,
    pub timer: TimerAction,
}

/// The scheduler's own state.
#[derive(Debug, Clone, PartialEq, Eq)]
pub struct LyricsManager {
    pub current_player: Option<CurrentPlayerState>,
    pub last_known_position: Option<u64>,
    pub current_track_id: Option<String>,
    pub last_loop_count: Option<u32>,
}

/// The position the display should show: the raw extrapolation, wrapped to
/// zero once it has run past a declared track length.
pub open spec fn spec_shown_position(info: PlayerInformation, now: u64) -> u64
    recommends
        info.position >= 0,
{
    let total = spec_total_elapsed(info, now);
    match spec_track_length(info.metadata) {
        Some(l) => if total > l {
            0u64
        } else {
            total as u64
        },
        None => total as u64,
    }
}

/// Texts joined with single spaces.
pub open spec fn spec_join_space(ts: Seq<Seq<char>>) -> Seq<char>
    decreases ts.len(),
{
    if ts.len() == 0 {
        Seq::empty()
    } else if ts.len() == 1 {
        ts[0]
    } else {
        spec_join_space(ts.drop_last()) + seq![' '] + ts.last()
    }
}

/// The slot's boundary marker after a display at `pos`.
pub open spec fn spec_next_boundary(lrc: Lrc, pos: u64) -> NextBoundary {
    match doc_next(lrc.rep(), pos) {
        Some(b) => NextBoundary::At(TimeTag(b)),
        None => NextBoundary::Exhausted,
    }
}

/// Views of two optional strings, for track-identity comparison.
pub open spec fn opt_str_view(a: Option<String>) -> Option<Seq<char>> {
    match a {
        Some(s) => Some(s@),
        None => None,
    }
}

fn opt_string_eq(a: &Option<String>, b: &Option<String>) -> (r: bool)
    ensures
        r == (opt_str_view(*a) == opt_str_view(*b)),
{
    match (a, b) {
        (None, None) => true,
        (Some(x), Some(y)) => str_eq(x.as_str(), y.as_str()),
        _ => false,
    }
}

/// A version's next boundary always lies past the asked-for time.
proof fn lemma_version_next_gt(v: Seq<(u64, Seq<char>)>, t: u64)
    ensures
        match crate::lrc::version_next(v, t) {
            Some(b) => b > t,
            None => true,
        },
    decreases v.len(),
{
    if v.len() > 0 && !(v.first().0 > t) {
        lemma_version_next_gt(v.skip(1), t);
    }
}

/// The document's next boundary always lies past the asked-for time.
pub proof fn lemma_doc_next_gt(d: Seq<Seq<(u64, Seq<char>)>>, t: u64)
    ensures
        match doc_next(d, t) {
            Some(b) => b > t,
            None => true,
        },
    decreases d.len(),
{
    if d.len() > 0 {
        lemma_doc_next_gt(d.drop_last(), t);
        lemma_version_next_gt(d.last(), t);
    }
}

/// Texts joined with single spaces.
fn join_space(texts: &Vec<String>) -> (r: String)
    ensures
        r@ == spec_join_space(texts@.map_values(|s: String| s@)),
{
    let n = texts.len();
    let mut out = String::new();
    let mut i: usize = 0;
    proof {
        assert(texts@.take(0).map_values(|s: String| s@) =~= Seq::<Seq<char>>::empty());
    }
    while i < n
        invariant
            0 <= i <= n,
            n == texts@.len(),
            out@ == spec_join_space(texts@.take(i as int).map_values(|s: String| s@)),
        decreases n - i,
    {
        proof {
            let m = texts@.take(i + 1).map_values(|s: String| s@);
            assert(m.drop_last() =~= texts@.take(i as int).map_values(|s: String| s@));
            assert(m.last() == texts@[i as int]@);
        }
        if i > 0 {
            crate::text::push_char(&mut out, ' ');
        }
        out.append(texts[i].as_str());
        i = i + 1;
    }
    proof {
        assert(texts@.take(n as int) =~= texts@);
    }
    out
}

impl LyricsManager {
    pub fn new() -> (r: LyricsManager)
        ensures
            r.current_player is None,
            r.last_known_position is None,
            r.current_track_id is None,
            r.last_loop_count is None,
    {
        LyricsManager {
            current_player: None,
            last_known_position: None,
            current_track_id: None,
            last_loop_count: None,
        }
    }

    /// Drop the slot and all bookkeeping; the display is cleared explicitly
    /// so the consumer never shows stale text.
    pub fn clear_state(&mut self) -> (r: DisplayEffects)
        ensures
            final(self).current_player is None,
            final(self).last_known_position is None,
            final(self).current_track_id is None,
            final(self).last_loop_count is None,
            r.renders@.len() == 1,
            r.renders@[0].text is None,
            r.renders@[0].alt is None,
            r.renders@[0].tooltip is None,
            r.renders@[0].class is None,
            r.renders@[0].percentage is None,
            r.timer == TimerAction::Disarm,
    {
        self.current_player = None;
        self.last_known_position = None;
        self.current_track_id = None;
        self.last_loop_count = None;
        let mut renders: Vec<WaybarCustomModule> = Vec::new();
        renders.push(WaybarCustomModule::empty());
        DisplayEffects { renders, timer: TimerAction::Disarm }
    }

    /// Whether the slot's lyrics have run out.
    pub open spec fn spec_exhausted(self) -> bool {
        match self.current_player {
            Some(cp) => cp.next_lrc_timetag is Exhausted,
            None => false,
        }
    }

    /// The loop-restart rule: only a position or metadata update can signal
    /// one, and then either the position sits near the start while the last
    /// known position was well past it, or the lyrics had run out and the
    /// position jumped back sharply.  An ordinary backward seek is neither.
    pub open spec fn spec_loop_restart(
        self,
        current_pos: u64,
        is_position_update: bool,
        is_metadata_update: bool,
    ) -> bool {
        let traditional = current_pos < LOOP_NEAR_START_MICROS && match self.last_known_position {
            Some(p) => p > LOOP_FAR_IN_MICROS,
            None => false,
        };
        let after_end = self.spec_exhausted() && match self.last_known_position {
            Some(p) => p > current_pos && p - current_pos > LOOP_BACKWARD_JUMP_MICROS,
            None => false,
        };
        (is_position_update || is_metadata_update) && (traditional || after_end)
    }

    /// Decide whether an update at `current_pos` signals that the song has
    /// started over.
    pub fn detect_loop_restart(
        &self,
        current_pos: u64,
        is_position_update: bool,
        is_metadata_update: bool,
    ) -> (r: bool)
        ensures
            r == self.spec_loop_restart(current_pos, is_position_update, is_metadata_update),
    {
        if !(is_position_update || is_metadata_update) {
            return false;
        }
        let traditional = current_pos < LOOP_NEAR_START_MICROS && match self.last_known_position {
            Some(p) => p > LOOP_FAR_IN_MICROS,
            None => false,
        };
        let exhausted = match &self.current_player {
            Some(cp) => match cp.next_lrc_timetag {
                NextBoundary::Exhausted => true,
                _ => false,
            },
            None => false,
        };
        let after_end = exhausted && match self.last_known_position {
            Some(p) => p > current_pos && p - current_pos > LOOP_BACKWARD_JUMP_MICROS,
            None => false,
        };
        traditional || after_end
    }

    /// Record the freshest position, when the update carried one.
    pub fn update_position(
        &mut self,
        current_pos: u64,
        is_position_update: bool,
        is_metadata_update: bool,
    )
        ensures
            final(self).last_known_position == if is_position_update || is_metadata_update {
                Some(current_pos)
            } else {
                old(self).last_known_position
            },
            final(self).current_player == old(self).current_player,
            final(self).current_track_id == old(self).current_track_id,
            final(self).last_loop_count == old(self).last_loop_count,
    {
        if is_position_update || is_metadata_update {
            self.last_known_position = Some(current_pos);
        }
    }
}


/// A status-bar update carrying `text` and `tooltip` (escaped) and nothing
/// else.
pub open spec fn render_matches(m: WaybarCustomModule, text: Seq<char>, tooltip: Seq<char>) -> bool {
    &&& m.text matches Some(t) && t@ == html_escaped(text)
    &&& m.alt is None
    &&& m.tooltip matches Some(tt) && tt@ == html_escaped(tooltip)
    &&& m.class is None
    &&& m.percentage is None
}

impl LyricsManager {
    /// Make `bus` the current player showing `lrc`: emit the line at the
    /// player's present position, remember when the display must change
    /// next, and re-arm (or disarm) the timer accordingly.  A change of
    /// track identity resets the loop-detection baseline.  A position past
    /// the declared track length is taken as a loop and wrapped to zero.
    /// When the document is exhausted a second, blank render follows, and
    /// the slot is kept — marked exhausted — so a later loop of the same
    /// track is still recognised.
    pub fn refresh_lyrics_display(
        &mut self,
        bus: String,
        lrc: Lrc,
        info: &PlayerInformation,
        filter_keys: &Vec<String>,
        track_id: Option<String>,
        now: u64,
    ) -> (r: DisplayEffects)
        requires
            info.wf(),
        ensures
            ({
                let pos = spec_shown_position(*info, now);
                let line = spec_join_space(doc_texts(lrc.rep(), pos));
                let tip = spec_format_metadata(info.metadata.entries@, filter_keys@);
                &&& final(self).current_player == Some(
                    CurrentPlayerState { bus, lrc, next_lrc_timetag: spec_next_boundary(lrc, pos) },
                )
                &&& final(self).last_loop_count == old(self).last_loop_count
                &&& final(self).current_track_id == track_id
                &&& final(self).last_known_position == if opt_str_view(old(self).current_track_id)
                    == opt_str_view(track_id) {
                    old(self).last_known_position
                } else {
                    None::<u64>
                }
                &&& r.renders@.len() >= 1 && render_matches(r.renders@[0], line, tip)
                &&& match doc_next(lrc.rep(), pos) {
                    Some(b) => r.renders@.len() == 1 && r.timer == TimerAction::ArmIn(
                        spec_duration_from(TimeTag(b), TimeTag(pos), info.spec_rate()) as u64,
                    ),
                    None => r.renders@.len() == 2 && render_matches(
                        r.renders@[1],
                        Seq::empty(),
                        tip,
                    ) && r.timer == TimerAction::Disarm,
                }
            }),
    {
        if !opt_string_eq(&self.current_track_id, &track_id) {
            self.last_known_position = None;
        }
        self.current_track_id = track_id;
        let total = info.calculate_total_elapsed(now);
        let pos: u64 = match info.track_length() {
            Some(l) => if total > l {
                0
            } else {
                total
            },
            None => total,
        };
        proof {
            assert(pos == spec_shown_position(*info, now));
        }
        let (texts, next) = lrc.get(&TimeTag(pos));
        let joined = join_space(&texts);
        let tooltip = info.format_metadata(filter_keys);
        let main = WaybarCustomModule::new(
            Some(joined.as_str()),
            None,
            Some(tooltip.as_str()),
            None,
            None,
        );
        let mut renders: Vec<WaybarCustomModule> = Vec::new();
        renders.push(main);
        let rate: u64 = match info.rate {
            Some(x) => x,
            None => 1000,
        };
        proof {
            lemma_doc_next_gt(lrc.rep(), pos);
        }
        match next {
            Some(b) => {
                let wait = b.duration_from(&TimeTag(pos), rate);
                self.current_player = Some(
                    CurrentPlayerState { bus, lrc, next_lrc_timetag: NextBoundary::At(b) },
                );
                DisplayEffects { renders, timer: TimerAction::ArmIn(wait) }
            },
            None => {
                self.current_player = Some(
                    CurrentPlayerState { bus, lrc, next_lrc_timetag: NextBoundary::Exhausted },
                );
                let extra = WaybarCustomModule::new(
                    Some(""),
                    None,
                    Some(tooltip.as_str()),
                    None,
                    None,
                );
                renders.push(extra);
                proof {
                    reveal_strlit("");
                    assert(""@ =~= Seq::<char>::empty());
                }
                DisplayEffects { renders, timer: TimerAction::Disarm }
            },
        }
    }
}


/// Everything `refresh_lyrics_display` promises, gathered so that the
/// handlers that end in a refresh can say the same thing.
pub open spec fn spec_refresh_post(
    m0: LyricsManager,
    m1: LyricsManager,
    bus: Seq<char>,
    lrc: Lrc,
    info: PlayerInformation,
    filter: Seq<String>,
    track_id: Option<Seq<char>>,
    now: u64,
    eff: DisplayEffects,
) -> bool {
    let pos = spec_shown_position(info, now);
    let line = spec_join_space(doc_texts(lrc.rep(), pos));
    let tip = spec_format_metadata(info.metadata.entries@, filter);
    &&& m1.current_player matches Some(cp) && cp.bus@ == bus && cp.lrc == lrc
        && cp.next_lrc_timetag == spec_next_boundary(lrc, pos)
    &&& m1.last_loop_count == m0.last_loop_count
    &&& opt_str_view(m1.current_track_id) == track_id
    &&& m1.last_known_position == if opt_str_view(m0.current_track_id) == track_id {
        m0.last_known_position
    } else {
        None::<u64>
    }
    &&& eff.renders@.len() >= 1 && render_matches(eff.renders@[0], line, tip)
    &&& match doc_next(lrc.rep(), pos) {
        Some(b) => eff.renders@.len() == 1 && eff.timer == TimerAction::ArmIn(
            spec_duration_from(TimeTag(b), TimeTag(pos), info.spec_rate()) as u64,
        ),
        None => eff.renders@.len() == 2 && render_matches(eff.renders@[1], Seq::empty(), tip)
            && eff.timer == TimerAction::Disarm,
    }
}

/// The state one typed update leaves a player in: a metadata change resets
/// the position baseline first (the old track's timing must not leak into
/// the new one); a status change freezes the position at the transition
/// instant before the new status lands; a position report is clamped at
/// zero.
pub open spec fn spec_updated_info(
    i0: PlayerInformation,
    update: PlayerInformationUpdate,
    now: u64,
) -> PlayerInformation {
    match update {
        PlayerInformationUpdate::Metadata(m) => PlayerInformation {
            metadata: m,
            position: 0,
            position_last_refresh: now,
            ..i0
        },
        PlayerInformationUpdate::Rate(x) => PlayerInformation { rate: Some(x), ..i0 },
        PlayerInformationUpdate::Status(st) => PlayerInformation {
            position: if spec_total_elapsed(i0, now) > i64::MAX {
                i64::MAX
            } else {
                spec_total_elapsed(i0, now) as i64
            },
            position_last_refresh: now,
            status: Some(st),
            ..i0
        },
        PlayerInformationUpdate::Position(p, at) => PlayerInformation {
            position: if p >= 0 {
                p
            } else {
                0
            },
            position_last_refresh: at,
            ..i0
        },
    }
}

/// Whether the update changed the track behind the player: any of source
/// URL, title, artist or stable track identifier differs.
pub open spec fn spec_track_changed(a: Metadata, b: Metadata) -> bool {
    ||| spec_get_text(a, "xesam:url"@) != spec_get_text(b, "xesam:url"@)
    ||| spec_get_text(a, "xesam:title"@) != spec_get_text(b, "xesam:title"@)
    ||| spec_get_text(a, "xesam:artist"@) != spec_get_text(b, "xesam:artist"@)
    ||| spec_get_text(a, "mpris:trackid"@) != spec_get_text(b, "mpris:trackid"@)
}

/// Whether `bus` is the player driving the display.
pub open spec fn spec_is_current(m: LyricsManager, bus: Seq<char>) -> bool {
    match m.current_player {
        Some(cp) => cp.bus@ == bus,
        None => false,
    }
}

/// What one player update asks of the embedding loop.
#[derive(Debug, Clone, PartialEq, Eq)]
pub enum PlayerUpdateOutcome {
    /// The display was recomputed from the lyrics already in the slot.
    Refreshed(DisplayEffects),
    /// Only loop-tracking bookkeeping moved; nothing to display.
    Bookkept,
    /// The current player stopped being eligible: run the failover scan.
    Inactive,
    /// The current player changed tracks: resolve lyrics anew, then either
    /// refresh with them or reset the baseline and clear.
    TrackChanged,
    /// A player became eligible while the slot was empty: try to resolve
    /// lyrics for it and refresh on success.
    Activatable,
    /// An update for a player that does not drive the display.
    Ignored,
}

impl LyricsManager {
    /// React to one typed update for `bus`: apply it to the player state
    /// (with the baseline corrections above), then decide what the display
    /// needs — a refresh from the slot's own lyrics on a seek, play/pause or
    /// detected loop; a reload on a track change; a failover when the player
    /// went inactive; an activation attempt when the slot was empty.
    pub fn handle_player_update(
        &mut self,
        bus: &str,
        info: &mut PlayerInformation,
        update: PlayerInformationUpdate,
        now: u64,
        filter_keys: &Vec<String>,
    ) -> (r: PlayerUpdateOutcome)
        requires
            old(info).wf(),
            match update {
                PlayerInformationUpdate::Rate(x) => x > 0,
                _ => true,
            },
        ensures
            ({
                let i1 = spec_updated_info(*old(info), update, now);
                let is_pos = update is Position;
                let is_status = update is Status;
                let is_meta = update is Metadata;
                let active = spec_is_active(i1);
                let cur = spec_is_current(*old(self), bus@);
                let changed = spec_track_changed(old(info).metadata, i1.metadata);
                let pos = spec_current_timetag(i1, now) as u64;
                let looped = old(self).spec_loop_restart(pos, is_pos, is_meta);
                let taken = LyricsManager { current_player: None, ..*old(self) };
                &&& *final(info) == i1
                &&& final(info).wf()
                &&& match r {
                    PlayerUpdateOutcome::Inactive => cur && !active && *final(self) == taken,
                    PlayerUpdateOutcome::TrackChanged => cur && active && changed && *final(self)
                        == taken,
                    PlayerUpdateOutcome::Refreshed(eff) => cur && active && !changed && (is_pos
                        || is_status || looped) && (match old(self).current_player {
                        Some(cp) => exists|mid: LyricsManager|
                            #[trigger] spec_refresh_post(
                                taken,
                                mid,
                                cp.bus@,
                                cp.lrc,
                                i1,
                                filter_keys@,
                                spec_get_text(i1.metadata, "mpris:trackid"@),
                                now,
                                eff,
                            ) && *final(self) == (LyricsManager {
                                last_known_position: if is_pos || is_meta {
                                    Some(pos)
                                } else {
                                    mid.last_known_position
                                },
                                ..mid
                            }),
                        None => false,
                    }),
                    PlayerUpdateOutcome::Bookkept => cur && active && !changed && !(is_pos
                        || is_status || looped) && *final(self) == (LyricsManager {
                        last_known_position: if is_pos || is_meta {
                            Some(pos)
                        } else {
                            old(self).last_known_position
                        },
                        last_loop_count: Some(Self::spec_loop_ordinal(i1, now)),
                        ..*old(self)
                    }),
                    PlayerUpdateOutcome::Activatable => !cur && old(self).current_player is None
                        && active && *final(self) == *old(self),
                    PlayerUpdateOutcome::Ignored => !cur && !(old(self).current_player is None
                        && active) && *final(self) == *old(self),
                }
            }),
    {
        let ghost m0 = *self;
        let old_url = info.text_value("xesam:url");
        let old_title = info.text_value("xesam:title");
        let old_artist = info.text_value("xesam:artist");
        let old_trackid = info.text_value("mpris:trackid");
        let (is_pos, is_status, is_meta) = match &update {
            PlayerInformationUpdate::Position(_, _) => (true, false, false),
            PlayerInformationUpdate::Status(_) => (false, true, false),
            PlayerInformationUpdate::Metadata(_) => (false, false, true),
            PlayerInformationUpdate::Rate(_) => (false, false, false),
        };
        if is_meta {
            info.reset_baseline(now);
        }
        if is_status {
            info.freeze_position(now);
        }
        info.apply_update(update);
        let active = crate::scanner::is_player_active(info);
        let cur = match &self.current_player {
            Some(cp) => str_eq(cp.bus.as_str(), bus),
            None => false,
        };
        if cur {
            if !active {
                self.current_player = None;
                return PlayerUpdateOutcome::Inactive;
            }
            let new_url = info.text_value("xesam:url");
            let new_title = info.text_value("xesam:title");
            let new_artist = info.text_value("xesam:artist");
            let new_trackid = info.text_value("mpris:trackid");
            let changed = !opt_string_eq(&old_url, &new_url) || !opt_string_eq(
                &old_title,
                &new_title,
            ) || !opt_string_eq(&old_artist, &new_artist) || !opt_string_eq(
                &old_trackid,
                &new_trackid,
            );
            if changed {
                self.current_player = None;
                return PlayerUpdateOutcome::TrackChanged;
            }
            let pos = info.get_current_timetag(now).0;
            let looped = self.detect_loop_restart(pos, is_pos, is_meta);
            if is_pos || is_status || looped {
                let cp = match self.current_player.take() {
                    Some(c) => c,
                    None => {
                        proof {
                            assert(false);
                        }
                        return PlayerUpdateOutcome::Ignored;
                    },
                };
                let ghost cpg = cp;
                let ghost g_taken = *self;
                let ghost i1g = *info;
                proof {
                    assert(g_taken == (LyricsManager { current_player: None, ..m0 }));
                }
                let track_id = info.track_id();
                let ghost tid = opt_str_view(track_id);
                proof {
                    assert(tid == spec_get_text(i1g.metadata, "mpris:trackid"@));
                }
                let eff = self.refresh_lyrics_display(
                    cp.bus,
                    cp.lrc,
                    info,
                    filter_keys,
                    track_id,
                    now,
                );
                let ghost mid = *self;
                proof {
                    assert(spec_refresh_post(
                        g_taken,
                        mid,
                        cpg.bus@,
                        cpg.lrc,
                        i1g,
                        filter_keys@,
                        tid,
                        now,
                        eff,
                    ));
                }
                self.update_position(pos, is_pos, is_meta);
                proof {
                    assert(*self == (LyricsManager {
                        last_known_position: if is_pos || is_meta {
                            Some(pos)
                        } else {
                            mid.last_known_position
                        },
                        ..mid
                    }));
                }
                PlayerUpdateOutcome::Refreshed(eff)
            } else {
                self.update_position(pos, is_pos, is_meta);
                let (ordinal, _) = info.get_loop_count(now);
                self.last_loop_count = Some(ordinal);
                PlayerUpdateOutcome::Bookkept
            }
        } else {
            let empty_slot = match &self.current_player {
                Some(_) => false,
                None => true,
            };
            if empty_slot && active {
                PlayerUpdateOutcome::Activatable
            } else {
                PlayerUpdateOutcome::Ignored
            }
        }
    }
}


impl LyricsManager {
    /// The display timer fired: advance to the boundary computed last time,
    /// show the line there, and re-arm for the boundary after it.  When none
    /// is left, show a blank line but keep the slot — marked exhausted — and
    /// let the timer rest.
    pub fn handle_lyrics_timer(&mut self, info: &PlayerInformation, filter_keys: &Vec<String>)
        -> (r: DisplayEffects)
        requires
            info.wf(),
            old(self).current_player matches Some(cp) && cp.next_lrc_timetag is At,
        ensures
            ({
                match old(self).current_player {
                    Some(cp) => match cp.next_lrc_timetag {
                        NextBoundary::At(b) => {
                            let line = spec_join_space(doc_texts(cp.lrc.rep(), b.0));
                            let tip = spec_format_metadata(info.metadata.entries@, filter_keys@);
                            &&& final(self).current_player == Some(
                                CurrentPlayerState {
                                    bus: cp.bus,
                                    lrc: cp.lrc,
                                    next_lrc_timetag: spec_next_boundary(cp.lrc, b.0),
                                },
                            )
                            &&& final(self).last_known_position == old(self).last_known_position
                            &&& final(self).current_track_id == old(self).current_track_id
                            &&& final(self).last_loop_count == old(self).last_loop_count
                            &&& r.renders@.len() >= 1 && render_matches(r.renders@[0], line, tip)
                            &&& match doc_next(cp.lrc.rep(), b.0) {
                                Some(nb) => r.renders@.len() == 1 && r.timer == TimerAction::ArmIn(
                                    spec_duration_from(TimeTag(nb), b, info.spec_rate()) as u64,
                                ),
                                None => r.renders@.len() == 2 && render_matches(
                                    r.renders@[1],
                                    Seq::empty(),
                                    tip,
                                ) && r.timer == TimerAction::Disarm,
                            }
                        },
                        NextBoundary::Exhausted => false,
                    },
                    None => false,
                }
            }),
    {
        let cp = match self.current_player.take() {
            Some(c) => c,
            None => {
                proof {
                    assert(false);
                }
                return DisplayEffects { renders: Vec::new(), timer: TimerAction::Keep };
            },
        };
        let b = match cp.next_lrc_timetag {
            NextBoundary::At(t) => t,
            NextBoundary::Exhausted => {
                proof {
                    assert(false);
                }
                TimeTag(0)
            },
        };
        let CurrentPlayerState { bus, lrc, next_lrc_timetag: _ } = cp;
        let (texts, next) = lrc.get(&b);
        let joined = join_space(&texts);
        let tooltip = info.format_metadata(filter_keys);
        let main = WaybarCustomModule::new(
            Some(joined.as_str()),
            None,
            Some(tooltip.as_str()),
            None,
            None,
        );
        let mut renders: Vec<WaybarCustomModule> = Vec::new();
        renders.push(main);
        let rate: u64 = match info.rate {
            Some(x) => x,
            None => 1000,
        };
        proof {
            lemma_doc_next_gt(lrc.rep(), b.0);
        }
        match next {
            Some(nb) => {
                let wait = nb.duration_from(&b, rate);
                self.current_player = Some(
                    CurrentPlayerState { bus, lrc, next_lrc_timetag: NextBoundary::At(nb) },
                );
                DisplayEffects { renders, timer: TimerAction::ArmIn(wait) }
            },
            None => {
                self.current_player = Some(
                    CurrentPlayerState { bus, lrc, next_lrc_timetag: NextBoundary::Exhausted },
                );
                let extra = WaybarCustomModule::new(
                    Some(""),
                    None,
                    Some(tooltip.as_str()),
                    None,
                    None,
                );
                renders.push(extra);
                proof {
                    reveal_strlit("");
                    assert(""@ =~= Seq::<char>::empty());
                }
                DisplayEffects { renders, timer: TimerAction::Disarm }
            },
        }
    }

    /// Whether the periodic check must force a redisplay: the loop ordinal
    /// grew, or the lyrics had run out and the position jumped back sharply.
    pub open spec fn spec_loop_check_triggers(
        self,
        info: PlayerInformation,
        now: u64,
    ) -> (bool, bool) {
        let total = spec_total_elapsed(info, now);
        let ordinal_grew = match (spec_track_length(info.metadata), self.last_loop_count) {
            (Some(l), Some(lc)) => l > 0 && (if total / l as int > u32::MAX {
                u32::MAX as int
            } else {
                total / l as int
            }) > lc,
            _ => false,
        };
        let calc = spec_current_timetag(info, now);
        let jumped_back = self.spec_exhausted() && match self.last_known_position {
            Some(lp) => lp > calc && lp - calc > LOOP_BACKWARD_JUMP_MICROS,
            None => false,
        };
        (ordinal_grew, jumped_back)
    }

    /// The loop ordinal at `now`: how many whole passes of the declared
    /// track length the extrapolated position amounts to (zero without a
    /// usable length), capped at the counter's range.
    pub open spec fn spec_loop_ordinal(info: PlayerInformation, now: u64) -> u32 {
        let total = spec_total_elapsed(info, now);
        match spec_track_length(info.metadata) {
            Some(l) => if l > 0 {
                if total / l as int > u32::MAX {
                    u32::MAX as u32
                } else {
                    (total / l as int) as u32
                }
            } else {
                0u32
            },
            None => 0u32,
        }
    }

    /// The periodic integrity check for the current player: recompute the
    /// loop ordinal from the extrapolated position; if it grew, rebase the
    /// player inside the current pass and redisplay, and likewise redisplay
    /// after a sharp backward jump once the lyrics had run out.  Either way
    /// the loop-tracking baseline is refreshed.
    #[verifier::rlimit(100)]
    #[verifier::spinoff_prover]
    pub fn handle_loop_check_timer(
        &mut self,
        info: &mut PlayerInformation,
        filter_keys: &Vec<String>,
        now: u64,
    ) -> (r: DisplayEffects)
        requires
            old(info).wf(),
            old(self).current_player is Some,
        ensures
            final(info).wf(),
            ({
                let trig = old(self).spec_loop_check_triggers(*old(info), now);
                let wrapped = trig.0;
                let jumped = trig.1;
                let i1 = if wrapped {
                    PlayerInformation {
                        position: if spec_total_elapsed(*old(info), now) % (spec_track_length(
                            old(info).metadata,
                        ).unwrap() as int) > i64::MAX {
                            i64::MAX
                        } else {
                            (spec_total_elapsed(*old(info), now) % (spec_track_length(
                                old(info).metadata,
                            ).unwrap() as int)) as i64
                        },
                        position_last_refresh: now,
                        ..*old(info)
                    }
                } else {
                    *old(info)
                };
                &&& *final(info) == i1
                &&& final(self).last_loop_count == Some(Self::spec_loop_ordinal(i1, now))
                &&& final(self).last_known_position == Some(spec_current_timetag(i1, now) as u64)
                &&& if wrapped || jumped {
                    match old(self).current_player {
                        Some(cp) => {
                            let pos = spec_shown_position(i1, now);
                            let line = spec_join_space(doc_texts(cp.lrc.rep(), pos));
                            let tip = spec_format_metadata(i1.metadata.entries@, filter_keys@);
                            &&& final(self).current_player == Some(
                                CurrentPlayerState {
                                    bus: cp.bus,
                                    lrc: cp.lrc,
                                    next_lrc_timetag: spec_next_boundary(cp.lrc, pos),
                                },
                            )
                            &&& opt_str_view(final(self).current_track_id) == spec_get_text(
                                i1.metadata,
                                "mpris:trackid"@,
                            )
                            &&& r.renders@.len() >= 1 && render_matches(r.renders@[0], line, tip)
                            &&& match doc_next(cp.lrc.rep(), pos) {
                                Some(b) => r.renders@.len() == 1 && r.timer == TimerAction::ArmIn(
                                    spec_duration_from(
                                        TimeTag(b),
                                        TimeTag(pos),
                                        i1.spec_rate(),
                                    ) as u64,
                                ),
                                None => r.renders@.len() == 2 && render_matches(
                                    r.renders@[1],
                                    Seq::empty(),
                                    tip,
                                ) && r.timer == TimerAction::Disarm,
                            }
                        },
                        None => false,
                    }
                } else {
                    r.renders@.len() == 0 && r.timer == TimerAction::Keep
                        && final(self).current_player == old(self).current_player
                        && final(self).current_track_id == old(self).current_track_id
                }
            }),
    {
        let ghost m0 = *self;
        let (loop_count, pos_in_loop) = info.get_loop_count(now);
        let has_len = match info.track_length() {
            Some(l) => l > 0,
            None => false,
        };
        let wrapped = has_len && match self.last_loop_count {
            Some(lc) => loop_count > lc,
            None => false,
        };
        let calc = info.get_current_timetag(now).0;
        let exhausted = match &self.current_player {
            Some(cp) => match cp.next_lrc_timetag {
                NextBoundary::Exhausted => true,
                _ => false,
            },
            None => false,
        };
        let jumped = exhausted && match self.last_known_position {
            Some(lp) => lp > calc && lp - calc > LOOP_BACKWARD_JUMP_MICROS,
            None => false,
        };
        if wrapped {
            info.position = if pos_in_loop > i64::MAX as u64 {
                i64::MAX
            } else {
                pos_in_loop as i64
            };
            info.position_last_refresh = now;
        }
        let ghost i1g = *info;
        if wrapped || jumped {
            let cp = match self.current_player.take() {
                Some(c) => c,
                None => {
                    proof {
                        assert(false);
                    }
                    return DisplayEffects { renders: Vec::new(), timer: TimerAction::Keep };
                },
            };
            let ghost cpg = cp;
            let ghost g_taken = *self;
            proof {
                assert(g_taken == (LyricsManager { current_player: None, ..m0 }));
            }
            let track_id = info.track_id();
            let ghost tid = opt_str_view(track_id);
            proof {
                assert(tid == spec_get_text(i1g.metadata, "mpris:trackid"@));
            }
            let eff = self.refresh_lyrics_display(
                cp.bus,
                cp.lrc,
                info,
                filter_keys,
                track_id,
                now,
            );
            let ghost mid = *self;
            proof {
                assert(spec_refresh_post(
                    g_taken,
                    mid,
                    cpg.bus@,
                    cpg.lrc,
                    i1g,
                    filter_keys@,
                    tid,
                    now,
                    eff,
                ));
            }
            let (lc2, _) = info.get_loop_count(now);
            let pos2 = info.get_current_timetag(now).0;
            self.last_loop_count = Some(lc2);
            self.last_known_position = Some(pos2);
            proof {
                assert(*self == (LyricsManager {
                    last_loop_count: Some(lc2),
                    last_known_position: Some(pos2),
                    ..mid
                }));
                assert(lc2 == ({
                    let total = spec_total_elapsed(i1g, now);
                    match spec_track_length(i1g.metadata) {
                        Some(l) => if l > 0 {
                            if total / l as int > u32::MAX {
                                u32::MAX as u32
                            } else {
                                (total / l as int) as u32
                            }
                        } else {
                            0u32
                        },
                        None => 0u32,
                    }
                }));
                assert(pos2 == spec_current_timetag(i1g, now) as u64);
            }
            eff
        } else {
            let (lc2, _) = info.get_loop_count(now);
            let pos2 = info.get_current_timetag(now).0;
            self.last_loop_count = Some(lc2);
            self.last_known_position = Some(pos2);
            proof {
                assert(*self == (LyricsManager {
                    last_loop_count: Some(lc2),
                    last_known_position: Some(pos2),
                    ..m0
                }));
                assert(lc2 == ({
                    let total = spec_total_elapsed(i1g, now);
                    match spec_track_length(i1g.metadata) {
                        Some(l) => if l > 0 {
                            if total / l as int > u32::MAX {
                                u32::MAX as u32
                            } else {
                                (total / l as int) as u32
                            }
                        } else {
                            0u32
                        },
                        None => 0u32,
                    }
                }));
                assert(pos2 == spec_current_timetag(i1g, now) as u64);
            }
            DisplayEffects { renders: Vec::new(), timer: TimerAction::Keep }
        }
    }
}

} // verus!
