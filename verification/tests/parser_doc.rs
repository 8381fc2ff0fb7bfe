use waylrc::parser::{Line, Lrc, TimeTag};

#[test]
fn tests_example() {
    const LYRIC: &str = "[00:12.00]Line 1 lyrics\n[00:17.20]Line 2 lyrics";

    let lrc = Lrc::from_reader(LYRIC);

    assert_eq!(
        lrc,
        Lrc(vec![vec![
            Line { time: TimeTag(12_000_000), text: "Line 1 lyrics".to_string() },
            Line { time: TimeTag(17_200_000), text: "Line 2 lyrics".to_string() },
        ]])
    );
}

#[test]
fn repeating_lyrics_regression() {
    const LYRIC: &str = "[00:12.00]Line 1 lyrics\n[00:21.10][00:45.10]Repeating lyrics (e.g. chorus)";

    let lrc = Lrc::from_reader(LYRIC);

    assert_eq!(
        lrc,
        Lrc(vec![vec![
            Line { time: TimeTag(12_000_000), text: "Line 1 lyrics".to_string() },
            Line {
                time: TimeTag(21_100_000),
                text: "Repeating lyrics (e.g. chorus)".to_string(),
            },
            Line {
                time: TimeTag(45_100_000),
                text: "Repeating lyrics (e.g. chorus)".to_string(),
            },
        ]])
    );
}

#[test]
fn malformed_tags_keep_their_lines() {
    // a bracketed run that is no time tag makes the line plain text:
    // joined to the previous line, or opening the version at time zero
    let lrc = Lrc::from_reader("[00:12.00]aa\n[ar: X]");
    assert_eq!(
        lrc,
        Lrc(vec![vec![Line { time: TimeTag(12_000_000), text: "aa [ar: X]".to_string() }]])
    );

    let lrc = Lrc::from_reader("[ar: X]\n[00:02.00]bb");
    assert_eq!(
        lrc,
        Lrc(vec![vec![
            Line { time: TimeTag(0), text: "[ar: X]".to_string() },
            Line { time: TimeTag(2_000_000), text: "bb".to_string() },
        ]])
    );
}

#[test]
fn tests_walaoke_extension() {
    const LYRIC: &str = "[00:12.00]Line 1 lyrics\n[00:17.20]F: Line 2 lyrics\n[00:21.10]M: Line 3 lyrics\n[00:24.00]Line 4 lyrics\n[00:28.25]D: Line 5 lyrics\n[00:29.02]Line 6 lyrics";

    let lrc = Lrc::from_reader(LYRIC);

    assert_eq!(
        lrc,
        Lrc(vec![vec![
            Line { time: TimeTag(12_000_000), text: "Line 1 lyrics".to_string() },
            Line { time: TimeTag(17_200_000), text: "Line 2 lyrics".to_string() },
            Line { time: TimeTag(21_100_000), text: "Line 3 lyrics".to_string() },
            Line { time: TimeTag(24_000_000), text: "Line 4 lyrics".to_string() },
            Line { time: TimeTag(28_250_000), text: "Line 5 lyrics".to_string() },
            Line { time: TimeTag(29_020_000), text: "Line 6 lyrics".to_string() },
        ]])
    );
}

#[test]
fn tests_exhanced_lrc() {
    const LYRIC: &str = "[ar: Jefferson Airplane]\n[al: Surrealistic Pillow]\n[au: Jefferson Airplane]\n[length: 2:58]\n[by: lrc-maker]\n[ti: Somebody to Love]\n\n[00:00.00] <00:00.04> When <00:00.16> the <00:00.82> truth <00:01.29> is <00:01.63> found <00:03.09> to <00:03.37> be <00:05.92> lies \n[00:06.47] <00:07.67> And <00:07.94> all <00:08.36> the <00:08.63> joy <00:10.28> within <00:10.53> you <00:13.09> dies \n[00:13.34] <00:14.32> Don't <00:14.73> you <00:15.14> want <00:15.57> somebody <00:16.09> to <00:16.46> love";

    let lrc = Lrc::from_reader(LYRIC);

    assert_eq!(
        lrc,
        Lrc(vec![vec![
            Line { time: TimeTag(0), text: "When the truth is found to be lies".to_string() },
            Line {
                time: TimeTag(6_470_000),
                text: "And all the joy within you dies".to_string(),
            },
            Line {
                time: TimeTag(13_340_000),
                text: "Don't you want somebody to love".to_string(),
            },
        ]])
    );
}
