use waylrc::dbus::{BusActivity, BusChange};
use waylrc::lrc::{Lrc, LrcLine, TimeTag};
use waylrc::netease::{levenshtein_distance, parse_netease_lyric_line};
use waylrc::out::WaybarCustomModule;
use waylrc::parser::{Line, LineFromStr, TimeTagFromStr};
use waylrc::player::{
    LocalLyricsPlan, Metadata, MetadataValue, PlayerInformation, split_concatenated,
};
use waylrc::utils::extract_str;

fn meta(entries: Vec<(&str, MetadataValue)>) -> Metadata {
    Metadata { entries: entries.into_iter().map(|(k, v)| (k.to_string(), v)).collect() }
}

#[test]
fn time_tags_accept_both_fraction_widths() {
    let line = LrcLine::from_str("[01:02.5]text");
    assert_eq!(line.time, vec![TimeTag(62_500_000)]);
    assert_eq!(line.text, "text");

    let line = LrcLine::from_str("[00:00.123456]precise");
    assert_eq!(line.time, vec![TimeTag(123_456)]);
}

#[test]
fn malformed_tags_stay_in_the_text() {
    let line = LrcLine::from_str("[not a tag]words");
    assert!(line.time.is_empty());
    assert_eq!(line.text, "[not a tag]words");
}

#[test]
fn multiple_tags_share_one_text() {
    let line = LrcLine::from_str("[00:01.00][00:02.00]chorus");
    assert_eq!(line.time, vec![TimeTag(1_000_000), TimeTag(2_000_000)]);
    assert_eq!(line.text, "chorus");
}

#[test]
fn plain_lines_join_the_previous_entry() {
    let doc = Lrc::from_reader("[00:01.00]first half\nsecond half");
    assert_eq!(
        doc,
        Lrc(vec![vec![(TimeTag(1_000_000), "first half second half".to_string())]])
    );
}

#[test]
fn out_of_order_tag_opens_a_new_version() {
    let doc = Lrc::from_reader("[00:10.00]ten\n[00:02.00]two");
    assert_eq!(
        doc,
        Lrc(vec![
            vec![(TimeTag(10_000_000), "ten".to_string())],
            vec![(TimeTag(2_000_000), "two".to_string())],
        ])
    );
}

#[test]
fn parser_reports_what_failed() {
    match Line::from_str("   ") {
        Err(LineFromStr::EmptyText) => {},
        other => panic!("blank lines are empty, got {:?}", other),
    }
    match Line::from_str("no brackets") {
        Err(LineFromStr::NoTag) => {},
        other => panic!("untagged lines have no tag, got {:?}", other),
    }
    match Line::from_str("[12.00]missing colon") {
        Err(LineFromStr::InvalidTimeTag(TimeTagFromStr::InvalidFormat(s))) => {
            assert_eq!(s, "12.00");
        },
        other => panic!("a tag without a colon is a format error, got {:?}", other),
    }
    match Line::from_str("[aa:12.00]bad minutes") {
        Err(LineFromStr::InvalidTimeTag(TimeTagFromStr::InvalidInteger(s))) => {
            assert_eq!(s, "aa");
        },
        other => panic!("non-digit minutes are an integer error, got {:?}", other),
    }
    match Line::from_str("[00:ss.00]bad seconds") {
        Err(LineFromStr::InvalidTimeTag(TimeTagFromStr::InvalidFloat(s))) => {
            assert_eq!(s, "ss.00");
        },
        other => panic!("non-digit seconds are a float error, got {:?}", other),
    }
    match Line::from_str("[00:05.00]   ") {
        Err(LineFromStr::EmptyText) => {},
        other => panic!("a tag without text is empty, got {:?}", other),
    }
}

#[test]
fn file_urls_decode_to_paths() {
    assert_eq!(
        Lrc::audio_url_to_path("file:///music/a%20song.flac"),
        Some("/music/a song.flac".to_string())
    );
    assert_eq!(Lrc::audio_url_to_path("https://example.invalid/x.mp3"), None);
}

#[test]
fn sidecar_path_swaps_the_extension() {
    assert_eq!(Lrc::audio_path_to_lrc("/music/a song.flac"), "/music/a song.lrc");
    assert_eq!(Lrc::audio_path_to_lrc("/music/noext"), "/music/noext.lrc");
    assert_eq!(Lrc::audio_path_to_lrc("/mu.sic/track.mp3"), "/mu.sic/track.lrc");
    assert_eq!(Lrc::audio_path_to_lrc("/music/.hidden"), "/music/.hidden.lrc");
}

#[test]
fn lyrics_plan_prefers_inline_then_files() {
    let inline = PlayerInformation::new(
        meta(vec![("xesam:asText", MetadataValue::Text("[00:01.00]a\n[00:02.00]b".to_string()))]),
        0,
        0,
        None,
        None,
    );
    assert_eq!(
        inline.lyrics_plan(),
        LocalLyricsPlan::Inline("[00:01.00]a\n[00:02.00]b".to_string())
    );

    let file = PlayerInformation::new(
        meta(vec![("xesam:url", MetadataValue::Text("file:///m/t.mp3".to_string()))]),
        0,
        0,
        None,
        None,
    );
    assert_eq!(
        file.lyrics_plan(),
        LocalLyricsPlan::FromPath { audio: "/m/t.mp3".to_string(), lrc: "/m/t.lrc".to_string() }
    );

    let concat = PlayerInformation::new(
        meta(vec![("xesam:asText", MetadataValue::Text("[00:01.00]a [00:02.00]b".to_string()))]),
        0,
        0,
        None,
        None,
    );
    assert_eq!(
        concat.lyrics_plan(),
        LocalLyricsPlan::InlineConcat(" [[00:01.00]a\n [00:02.00]b".to_string())
    );

    let nothing = PlayerInformation::new(meta(vec![]), 0, 0, None, None);
    assert_eq!(nothing.lyrics_plan(), LocalLyricsPlan::NoSource);
}

#[test]
fn concatenated_dump_regains_line_structure() {
    assert_eq!(split_concatenated("x [a]y [b]z"), " [x\n [a]y\n [b]z");
    assert_eq!(split_concatenated("plain"), " [plain");
}

#[test]
fn bus_names_match_the_allow_list() {
    let change = BusChange::new(
        "org.mpris.MediaPlayer2.vlc".to_string(),
        BusActivity::Created,
    );
    assert!(change.is_mpris());
    assert!(change.matches_players(&vec!["all".to_string()]));
    assert!(change.matches_players(&vec!["vlc".to_string()]));
    assert!(change.matches_players(&vec!["VLC".to_string()]));
    assert!(change.matches_players(&vec!["org.mpris.MediaPlayer2.vlc".to_string()]));
    assert!(!change.matches_players(&vec!["mpv".to_string()]));

    let other = BusChange::new_existing("org.freedesktop.Notifications".to_string());
    assert_eq!(other.activity, BusActivity::Created);
    assert!(!other.is_mpris());
    assert!(!other.matches_players(&vec!["all".to_string()]));
}

#[test]
fn renders_escape_markup() {
    let module = WaybarCustomModule::new(
        Some("a <b> & c"),
        None,
        Some("title: x"),
        None,
        Some(50),
    );
    assert_eq!(module.text, Some("a &lt;b&gt; &amp; c".to_string()));
    assert_eq!(module.alt, None);
    assert_eq!(module.tooltip, Some("title: x".to_string()));
    assert_eq!(module.percentage, Some(50));
    let empty = WaybarCustomModule::empty();
    assert_eq!(empty.text, None);
    assert_eq!(empty.percentage, None);
}

#[test]
fn netease_lines_parse_with_millisecond_fractions() {
    let line = parse_netease_lyric_line("[01:02.345]hello").expect("well-formed");
    assert_eq!(line.time, vec![TimeTag(62_345_000)]);
    assert_eq!(line.text, "hello");
    assert!(parse_netease_lyric_line("   ").is_none());
    assert!(parse_netease_lyric_line("no tag here").is_none());
    assert!(parse_netease_lyric_line("[1:2]no dot").is_none());
}

#[test]
fn edit_distance_counts_single_edits() {
    assert_eq!(levenshtein_distance("kitten", "sitting"), 3);
    assert_eq!(levenshtein_distance("", "abc"), 3);
    assert_eq!(levenshtein_distance("same", "same"), 0);
    assert_eq!(levenshtein_distance("abc", "abd"), 1);
}

#[test]
fn extract_str_reads_only_plain_text() {
    let t = MetadataValue::Text("x".to_string());
    assert_eq!(extract_str(&t), Some(&"x".to_string()));
    let n = MetadataValue::Int(4);
    assert_eq!(extract_str(&n), None);
}
