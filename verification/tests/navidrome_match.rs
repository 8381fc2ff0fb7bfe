use waylrc::navidrome::{
    calculate_similarity, convert_to_lrc, is_duration_similar, is_similar, generate_auth_params,
    lyrics_from_response, select_best_song, LyricsLine, LyricsList, Song, StructuredLyrics,
    SubsonicResponseData, TrackMetadata,
};

#[test]
fn test_is_similar() {
    assert!(is_similar("Hello World", "hello world"));
    assert!(is_similar("Test Song", "Test"));
    assert!(is_similar("Artist Name", "artist"));
    assert!(!is_similar("Completely Different", "Nothing Similar"));
}

#[test]
fn test_is_duration_similar() {
    assert!(is_duration_similar(180, 185));
    assert!(is_duration_similar(200, 190));
    assert!(!is_duration_similar(180, 200));
    assert!(is_duration_similar(120, 120));
}

#[test]
fn test_calculate_similarity_with_duration() {
    let metadata = TrackMetadata {
        title: "Test Song".to_string(),
        artist: "Test Artist".to_string(),
        album: Some("Test Album".to_string()),
        duration: Some(180),
    };

    let song = Song {
        id: "1".to_string(),
        title: "Test Song".to_string(),
        artist: Some("Test Artist".to_string()),
        album: Some("Test Album".to_string()),
        duration: Some(185),
    };

    let similarity = calculate_similarity(&metadata, &song);
    assert_eq!(similarity, (75, 75));
}

#[test]
fn test_convert_to_lrc() {
    let lyrics = vec![
        LyricsLine { start: Some(0), value: "First line".to_string() },
        LyricsLine { start: Some(4020), value: "煌く水面の上を".to_string() },
        LyricsLine { start: Some(8640), value: "夢中で風切り翔る".to_string() },
        LyricsLine { start: Some(22290), value: "僕はそう小さなツバメ".to_string() },
    ];

    let result = convert_to_lrc(&lyrics);
    let expected =
        "[00:00.00]First line\n[00:04.02]煌く水面の上を\n[00:08.64]夢中で風切り翔る\n[00:22.29]僕はそう小さなツバメ";
    assert_eq!(result, expected);
}

#[test]
fn untimed_lines_stay_bare() {
    let lyrics = vec![
        LyricsLine { start: None, value: "plain".to_string() },
        LyricsLine { start: Some(61_500), value: "timed".to_string() },
    ];
    assert_eq!(convert_to_lrc(&lyrics), "plain\n[01:01.50]timed");
}

#[test]
fn best_song_needs_majority_similarity() {
    let metadata = TrackMetadata {
        title: "Blue Train".to_string(),
        artist: "John Coltrane".to_string(),
        album: None,
        duration: None,
    };
    let songs = vec![
        Song {
            id: "a".to_string(),
            title: "Something Else".to_string(),
            artist: Some("Nobody".to_string()),
            album: None,
            duration: None,
        },
        Song {
            id: "b".to_string(),
            title: "Blue Train".to_string(),
            artist: Some("John Coltrane".to_string()),
            album: None,
            duration: None,
        },
    ];
    assert_eq!(select_best_song(&metadata, &songs), Some(1));

    let nothing = vec![Song {
        id: "c".to_string(),
        title: "Unrelated".to_string(),
        artist: Some("Else".to_string()),
        album: None,
        duration: None,
    }];
    assert_eq!(select_best_song(&metadata, &nothing), None);
}

#[test]
fn lyrics_response_needs_ok_status_and_content() {
    let good = SubsonicResponseData {
        status: "ok".to_string(),
        lyrics_list: Some(LyricsList {
            structured_lyrics: vec![StructuredLyrics {
                line: vec![LyricsLine { start: Some(1000), value: "hello".to_string() }],
                synced: Some(true),
            }],
        }),
    };
    assert_eq!(lyrics_from_response(&good), Some("[00:01.00]hello".to_string()));

    let failed = SubsonicResponseData { status: "failed".to_string(), lyrics_list: None };
    assert_eq!(lyrics_from_response(&failed), None);

    let empty = SubsonicResponseData {
        status: "ok".to_string(),
        lyrics_list: Some(LyricsList { structured_lyrics: vec![] }),
    };
    assert_eq!(lyrics_from_response(&empty), None);
}

#[test]
fn auth_params_carry_salted_digest() {
    // md5("abc") is well known; the token must be the digest of password
    // then salt, not the inputs themselves.
    let params = generate_auth_params("user", "ab", "c");
    assert_eq!(params.len(), 5);
    assert_eq!(params[0], ("u".to_string(), "user".to_string()));
    assert_eq!(params[1], ("t".to_string(), "900150983cd24fb0d6963f7d28e17f72".to_string()));
    assert_eq!(params[2], ("s".to_string(), "c".to_string()));
    assert_eq!(params[3], ("v".to_string(), "1.16.1".to_string()));
    assert_eq!(params[4], ("c".to_string(), "waylrc".to_string()));
}
