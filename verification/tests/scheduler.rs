use waylrc::lrc::{Lrc, TimeTag};
use waylrc::manager::{
    DisplayEffects, LyricsManager, NextBoundary, PlayerUpdateOutcome, TimerAction,
};
use waylrc::player::{
    Metadata, MetadataValue, PlaybackStatus, PlayerInformation, PlayerInformationUpdate,
};
use waylrc::registry::{PlayerEntry, PlayerRegistry};
use waylrc::scanner::{find_active_player_with_lyrics, is_player_active};

fn meta(entries: Vec<(&str, MetadataValue)>) -> Metadata {
    Metadata { entries: entries.into_iter().map(|(k, v)| (k.to_string(), v)).collect() }
}

fn playing(title: &str) -> PlayerInformation {
    PlayerInformation::new(
        meta(vec![("xesam:title", MetadataValue::Text(title.to_string()))]),
        0,
        0,
        Some(1000),
        Some(PlaybackStatus::Playing),
    )
}

const DOC: &str = "[00:00.00]When the truth is found to be lies\n[00:06.47]And all the joy within you dies\n[00:13.34]Don't you want somebody to love";

#[test]
fn query_returns_active_line_and_next_boundary() {
    let doc = Lrc::from_reader(DOC);
    let (texts, next) = doc.get(&TimeTag(5_000_000));
    assert_eq!(texts, vec!["When the truth is found to be lies".to_string()]);
    assert_eq!(next, Some(TimeTag(6_470_000)));

    let (texts, next) = doc.get(&TimeTag(13_340_000));
    assert_eq!(texts, vec!["Don't you want somebody to love".to_string()]);
    assert_eq!(next, None);
}

#[test]
fn query_before_first_line_still_names_a_boundary() {
    let doc = Lrc::from_reader("[00:10.00]late start");
    let (texts, next) = doc.get(&TimeTag(2_000_000));
    assert!(texts.is_empty());
    assert_eq!(next, Some(TimeTag(10_000_000)));
}

#[test]
fn loop_restart_flags_sharp_jump_to_start() {
    let mut mgr = LyricsManager::new();
    mgr.last_known_position = Some(170_000_000);
    // a 180s track that jumped back to 3s: a loop, not a seek
    assert!(mgr.detect_loop_restart(3_000_000, true, false));
    // a backward seek of 20s under normal conditions is no loop
    assert!(!mgr.detect_loop_restart(150_000_000, true, false));
    // without a position or metadata update, nothing counts
    assert!(!mgr.detect_loop_restart(3_000_000, false, false));
}

#[test]
fn loop_restart_after_exhausted_lyrics() {
    let mut mgr = LyricsManager::new();
    mgr.current_player = Some(waylrc::manager::CurrentPlayerState {
        bus: "org.mpris.MediaPlayer2.a".to_string(),
        lrc: Lrc::from_reader(DOC),
        next_lrc_timetag: NextBoundary::Exhausted,
    });
    mgr.last_known_position = Some(170_000_000);
    // 40s backwards after the lyrics ran out: a loop
    assert!(mgr.detect_loop_restart(130_000_000, true, false));
    // only 20s backwards: not yet
    assert!(!mgr.detect_loop_restart(155_000_000, true, false));
}

#[test]
fn refresh_shows_line_and_arms_timer() {
    let mut mgr = LyricsManager::new();
    let info = playing("Somebody to Love");
    let eff = mgr.refresh_lyrics_display(
        "org.mpris.MediaPlayer2.a".to_string(),
        Lrc::from_reader(DOC),
        &info,
        &vec![],
        None,
        0,
    );
    assert_eq!(eff.renders.len(), 1);
    assert_eq!(
        eff.renders[0].text,
        Some("When the truth is found to be lies".to_string())
    );
    assert_eq!(eff.timer, TimerAction::ArmIn(6_470_000));
    match &mgr.current_player {
        Some(cp) => assert_eq!(cp.next_lrc_timetag, NextBoundary::At(TimeTag(6_470_000))),
        None => panic!("slot must be filled"),
    }
}

#[test]
fn exhausted_document_keeps_slot_and_blanks_display() {
    let mut mgr = LyricsManager::new();
    let info = playing("Somebody to Love");
    let eff = mgr.refresh_lyrics_display(
        "org.mpris.MediaPlayer2.a".to_string(),
        Lrc::from_reader("[00:01.00]only line"),
        &info,
        &vec![],
        None,
        10_000_000,
    );
    assert_eq!(eff.renders.len(), 2);
    assert_eq!(eff.renders[0].text, Some("only line".to_string()));
    assert_eq!(eff.renders[1].text, Some(String::new()));
    assert_eq!(eff.timer, TimerAction::Disarm);
    match &mgr.current_player {
        Some(cp) => assert_eq!(cp.next_lrc_timetag, NextBoundary::Exhausted),
        None => panic!("slot must be kept for loop detection"),
    }
}

#[test]
fn timer_advances_to_next_boundary() {
    let mut mgr = LyricsManager::new();
    let info = playing("Somebody to Love");
    mgr.refresh_lyrics_display(
        "org.mpris.MediaPlayer2.a".to_string(),
        Lrc::from_reader(DOC),
        &info,
        &vec![],
        None,
        0,
    );
    let eff = mgr.handle_lyrics_timer(&info, &vec![]);
    assert_eq!(
        eff.renders[0].text,
        Some("And all the joy within you dies".to_string())
    );
    assert_eq!(eff.timer, TimerAction::ArmIn(6_870_000));
    let eff = mgr.handle_lyrics_timer(&info, &vec![]);
    assert_eq!(
        eff.renders[0].text,
        Some("Don't you want somebody to love".to_string())
    );
    assert_eq!(eff.timer, TimerAction::Disarm);
    match &mgr.current_player {
        Some(cp) => assert_eq!(cp.next_lrc_timetag, NextBoundary::Exhausted),
        None => panic!("slot must survive exhaustion"),
    }
}

#[test]
fn failover_picks_next_eligible_player() {
    let mut registry = PlayerRegistry::new();
    registry.insert(PlayerEntry {
        bus: "org.mpris.MediaPlayer2.a".to_string(),
        info: playing("First"),
    });
    registry.insert(PlayerEntry {
        bus: "org.mpris.MediaPlayer2.b".to_string(),
        info: playing("Second"),
    });
    let mut mgr = LyricsManager::new();
    let info_a = registry.players[0].info.clone();
    mgr.refresh_lyrics_display(
        "org.mpris.MediaPlayer2.a".to_string(),
        Lrc::from_reader(DOC),
        &info_a,
        &vec![],
        None,
        0,
    );

    // the current player disappears
    let removed = registry.remove("org.mpris.MediaPlayer2.a");
    assert!(removed.is_some());

    // one other eligible player with resolvable lyrics: the slot switches
    // and its current line is rendered at once
    let resolutions = vec![Some(Lrc::from_reader("[00:00.00]Hello from B"))];
    let (bus, lrc) = find_active_player_with_lyrics(&registry, resolutions)
        .expect("the remaining player is eligible");
    assert_eq!(bus, "org.mpris.MediaPlayer2.b");
    let info_b = registry.players[0].info.clone();
    let eff = mgr.refresh_lyrics_display(bus.clone(), lrc, &info_b, &vec![], None, 0);
    assert_eq!(eff.renders[0].text, Some("Hello from B".to_string()));
    match &mgr.current_player {
        Some(cp) => assert_eq!(cp.bus, "org.mpris.MediaPlayer2.b"),
        None => panic!("failover must fill the slot"),
    }

    // no eligible player left: the slot empties and an explicit empty
    // render goes out
    registry.remove("org.mpris.MediaPlayer2.b");
    let none = find_active_player_with_lyrics(&registry, vec![]);
    assert!(none.is_none());
    let eff = mgr.clear_state();
    assert!(mgr.current_player.is_none());
    assert_eq!(eff.renders.len(), 1);
    assert_eq!(eff.renders[0].text, None);
    assert_eq!(eff.timer, TimerAction::Disarm);
}

#[test]
fn inactive_player_is_not_eligible() {
    let mut stopped = playing("x");
    stopped.apply_update(PlayerInformationUpdate::Status(PlaybackStatus::Stopped));
    assert!(!is_player_active(&stopped));
    let unknown = PlayerInformation::new(
        meta(vec![("xesam:title", MetadataValue::Text("y".to_string()))]),
        0,
        0,
        None,
        None,
    );
    assert!(is_player_active(&unknown));
    let empty = PlayerInformation::new(meta(vec![]), 0, 0, None, Some(PlaybackStatus::Playing));
    assert!(!is_player_active(&empty));
}

#[test]
fn seek_update_on_current_player_redisplays() {
    let mut mgr = LyricsManager::new();
    let mut info = playing("Somebody to Love");
    mgr.refresh_lyrics_display(
        "org.mpris.MediaPlayer2.a".to_string(),
        Lrc::from_reader(DOC),
        &info,
        &vec![],
        None,
        0,
    );
    let outcome = mgr.handle_player_update(
        "org.mpris.MediaPlayer2.a",
        &mut info,
        PlayerInformationUpdate::Position(7_000_000, 1_000_000),
        1_000_000,
        &vec![],
    );
    match outcome {
        PlayerUpdateOutcome::Refreshed(eff) => {
            assert_eq!(
                eff.renders[0].text,
                Some("And all the joy within you dies".to_string())
            );
        },
        other => panic!("a seek must redisplay, got {:?}", other),
    }
    assert_eq!(mgr.last_known_position, Some(7_000_000));
}

#[test]
fn track_change_asks_for_new_lyrics() {
    let mut mgr = LyricsManager::new();
    let mut info = playing("Old Title");
    mgr.refresh_lyrics_display(
        "org.mpris.MediaPlayer2.a".to_string(),
        Lrc::from_reader(DOC),
        &info,
        &vec![],
        None,
        0,
    );
    let outcome = mgr.handle_player_update(
        "org.mpris.MediaPlayer2.a",
        &mut info,
        PlayerInformationUpdate::Metadata(meta(vec![(
            "xesam:title",
            MetadataValue::Text("New Title".to_string()),
        )])),
        1_000_000,
        &vec![],
    );
    assert_eq!(outcome, PlayerUpdateOutcome::TrackChanged);
    // the metadata change reset the position baseline
    assert_eq!(info.position, 0);
    assert_eq!(info.position_last_refresh, 1_000_000);
    assert!(mgr.current_player.is_none());
}

#[test]
fn unknown_player_updates_are_ignored() {
    let mut mgr = LyricsManager::new();
    let mut other = playing("Other");
    mgr.refresh_lyrics_display(
        "org.mpris.MediaPlayer2.a".to_string(),
        Lrc::from_reader(DOC),
        &playing("A"),
        &vec![],
        None,
        0,
    );
    let outcome = mgr.handle_player_update(
        "org.mpris.MediaPlayer2.b",
        &mut other,
        PlayerInformationUpdate::Rate(1000),
        0,
        &vec![],
    );
    assert_eq!(outcome, PlayerUpdateOutcome::Ignored);
}

#[test]
fn periodic_check_redisplays_after_silent_loop() {
    let mut mgr = LyricsManager::new();
    // 10s track, position captured at 170s of play: the player looped
    // without reporting anything
    let mut info = PlayerInformation::new(
        meta(vec![
            ("xesam:title", MetadataValue::Text("t".to_string())),
            ("mpris:length", MetadataValue::UInt(10_000_000)),
        ]),
        9_000_000,
        0,
        Some(1000),
        Some(PlaybackStatus::Playing),
    );
    mgr.refresh_lyrics_display(
        "org.mpris.MediaPlayer2.a".to_string(),
        Lrc::from_reader("[00:01.00]line"),
        &info,
        &vec![],
        None,
        0,
    );
    mgr.last_loop_count = Some(0);
    // 3 seconds later the extrapolation passes the track end
    let eff = mgr.handle_loop_check_timer(&mut info, &vec![], 3_000_000);
    assert!(eff.renders.len() >= 1);
    // the player was rebased inside the current pass
    assert_eq!(info.position, 2_000_000);
    assert_eq!(info.position_last_refresh, 3_000_000);
    assert_eq!(mgr.last_loop_count, Some(0));
}

#[test]
fn quiet_check_only_updates_bookkeeping() {
    let mut mgr = LyricsManager::new();
    let mut info = playing("t");
    mgr.refresh_lyrics_display(
        "org.mpris.MediaPlayer2.a".to_string(),
        Lrc::from_reader(DOC),
        &info,
        &vec![],
        None,
        0,
    );
    let eff = mgr.handle_loop_check_timer(&mut info, &vec![], 1_000_000);
    assert_eq!(eff, DisplayEffects { renders: vec![], timer: TimerAction::Keep });
    assert_eq!(mgr.last_known_position, Some(1_000_000));
    assert_eq!(mgr.last_loop_count, Some(0));
}

#[test]
fn inactive_current_player_empties_the_slot() {
    let mut mgr = LyricsManager::new();
    let mut info = playing("t");
    mgr.refresh_lyrics_display(
        "org.mpris.MediaPlayer2.a".to_string(),
        Lrc::from_reader(DOC),
        &info,
        &vec![],
        None,
        0,
    );
    let outcome = mgr.handle_player_update(
        "org.mpris.MediaPlayer2.a",
        &mut info,
        PlayerInformationUpdate::Status(PlaybackStatus::Paused),
        1_000_000,
        &vec![],
    );
    assert_eq!(outcome, PlayerUpdateOutcome::Inactive);
    assert!(mgr.current_player.is_none());
}

#[test]
fn newly_active_player_asks_for_activation() {
    let mut mgr = LyricsManager::new();
    let mut info = PlayerInformation::new(
        meta(vec![("xesam:title", MetadataValue::Text("t".to_string()))]),
        0,
        0,
        None,
        Some(PlaybackStatus::Paused),
    );
    let outcome = mgr.handle_player_update(
        "org.mpris.MediaPlayer2.a",
        &mut info,
        PlayerInformationUpdate::Status(PlaybackStatus::Playing),
        0,
        &vec![],
    );
    assert_eq!(outcome, PlayerUpdateOutcome::Activatable);
}

