use waylrc::player::{
    Metadata, MetadataValue, PlaybackStatus, PlayerInformation, PlayerInformationUpdate,
};

fn meta(entries: Vec<(&str, MetadataValue)>) -> Metadata {
    Metadata { entries: entries.into_iter().map(|(k, v)| (k.to_string(), v)).collect() }
}

fn playing_at(position_secs: i64, captured_at_secs: u64, length_secs: Option<u64>)
    -> PlayerInformation {
    let m = match length_secs {
        Some(l) => meta(vec![("mpris:length", MetadataValue::UInt(l * 1_000_000))]),
        None => meta(vec![]),
    };
    PlayerInformation::new(
        m,
        position_secs * 1_000_000,
        captured_at_secs * 1_000_000,
        Some(1000),
        Some(PlaybackStatus::Playing),
    )
}

#[test]
fn position_extrapolates_while_playing() {
    let info = playing_at(10, 0, None);
    assert_eq!(info.get_current_timetag(0).0, 10_000_000);
    assert_eq!(info.get_current_timetag(5_000_000).0, 15_000_000);
    // non-decreasing as the clock advances
    assert!(info.get_current_timetag(6_000_000).0 >= info.get_current_timetag(5_000_000).0);
}

#[test]
fn position_clamps_to_track_length() {
    let info = playing_at(10, 0, Some(18));
    assert_eq!(info.get_current_timetag(5_000_000).0, 15_000_000);
    // 10s + 20s exceeds the 18s track: clamped
    assert_eq!(info.get_current_timetag(20_000_000).0, 18_000_000);
}

#[test]
fn half_rate_slows_extrapolation() {
    let mut info = playing_at(10, 0, None);
    info.apply_update(PlayerInformationUpdate::Rate(500));
    // 10s wall-clock at half speed adds 20s of track time:
    // elapsed is scaled by 1000/rate
    assert_eq!(info.get_current_timetag(10_000_000).0, 30_000_000);
}

#[test]
fn pause_freezes_position() {
    let mut info = playing_at(10, 0, None);
    // the transition instant: freeze, then the new status
    info.freeze_position(5_000_000);
    info.apply_update(PlayerInformationUpdate::Status(PlaybackStatus::Paused));
    assert_eq!(info.get_current_timetag(5_000_000).0, 15_000_000);
    // much later, still frozen
    assert_eq!(info.get_current_timetag(500_000_000).0, 15_000_000);
}

#[test]
fn loop_count_wraps_position() {
    let info = playing_at(170, 0, Some(180));
    // 170s + 13s = 183s on a 180s track: one full pass, 3s into the next
    let (count, in_loop) = info.get_loop_count(13_000_000);
    assert_eq!(count, 1);
    assert_eq!(in_loop, 3_000_000);
}

#[test]
fn negative_position_is_clamped() {
    let info = PlayerInformation::new(meta(vec![]), -5, 0, None, None);
    assert_eq!(info.position, 0);
}

#[test]
fn status_strings_parse_case_insensitively() {
    assert_eq!(PlaybackStatus::from_str("Playing"), Some(PlaybackStatus::Playing));
    assert_eq!(PlaybackStatus::from_str("PAUSED"), Some(PlaybackStatus::Paused));
    assert_eq!(PlaybackStatus::from_str("stopped"), Some(PlaybackStatus::Stopped));
    assert_eq!(PlaybackStatus::from_str("Buffering"), None);
}

#[test]
fn metadata_block_filters_and_formats() {
    let info = PlayerInformation::new(
        meta(vec![
            ("xesam:title", MetadataValue::Text("Song".to_string())),
            ("xesam:asText", MetadataValue::Text("secret".to_string())),
            ("mpris:length", MetadataValue::UInt(200)),
            ("xesam:artist", MetadataValue::TextList(vec![
                "A".to_string(),
                "B".to_string(),
            ])),
        ]),
        0,
        0,
        None,
        None,
    );
    let block = info.format_metadata(&vec!["xesam:asText".to_string()]);
    assert_eq!(block, "xesam:title: Song\nmpris:length: 200\nxesam:artist: A;B");
}

#[test]
fn oversized_values_become_size_notes() {
    let blob = "x".repeat(300);
    let info = PlayerInformation::new(
        meta(vec![("cover", MetadataValue::Text(blob))]),
        0,
        0,
        None,
        None,
    );
    assert_eq!(info.format_metadata(&vec![]), "cover: (300 bytes blob)");
}

#[test]
fn signed_values_format_with_sign() {
    let info = PlayerInformation::new(
        meta(vec![("offset", MetadataValue::Int(-42))]),
        0,
        0,
        None,
        None,
    );
    assert_eq!(info.format_metadata(&vec![]), "offset: -42");
}

#[test]
fn update_replaces_one_field() {
    let mut info = playing_at(0, 0, None);
    info.apply_update(PlayerInformationUpdate::Position(7_000_000, 3_000_000));
    assert_eq!(info.position, 7_000_000);
    assert_eq!(info.position_last_refresh, 3_000_000);
    assert_eq!(info.status, Some(PlaybackStatus::Playing));
}
