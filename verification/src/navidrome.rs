//! The Navidrome (Subsonic) lyrics provider: matching a track against
//! search results, turning structured lyrics into LRC text, and the
//! authentication parameters the API wants.  The HTTP calls themselves live
//! in the embedding layer.

use vstd::prelude::*;

use crate::player::{Metadata, MetadataValue};
use crate::provider::ExternalLrcProvider;
use crate::text::{
    contains_s, contains_str, trim_s, trim, dec_rep, digit_char, u64_to_dec, digit_char_exec,
    push_char,
};

verus! {

/// Connection details for a Navidrome server.
#[derive(Debug, Clone, PartialEq, Eq)]
pub struct NavidromeConfig {
    pub server_url: String,
    pub username: String,
    pub password: String,
}

/// The track the player is on, reduced to what the search needs.
#[derive(Debug, Clone, PartialEq, Eq)]
pub struct TrackMetadata {
    pub title: String,
    pub artist: String,
    pub album: Option<String>,
    /// Duration in whole seconds.
    pub duration: Option<u32>,
}

/// A Subsonic lyrics reply.
#[derive(Debug, Clone, PartialEq, Eq)]
pub struct SubsonicResponse {
    pub subsonic_response: SubsonicResponseData,
}

#[derive(Debug, Clone, PartialEq, Eq)]
pub struct SubsonicResponseData {
    pub status: String,
    pub lyrics_list: Option<LyricsList>,
}

#[derive(Debug, Clone, PartialEq, Eq)]
pub struct LyricsList {
    pub structured_lyrics: Vec<StructuredLyrics>,
}

#[derive(Debug, Clone, PartialEq, Eq)]
pub struct StructuredLyrics {
    pub line: Vec<LyricsLine>,
    pub synced: Option<bool>,
}

/// One lyric line with an optional start offset in milliseconds.
#[derive(Debug, Clone, PartialEq, Eq)]
pub struct LyricsLine {
    pub start: Option<u64>,
    pub value: String,
}

/// A Subsonic search reply.
#[derive(Debug, Clone, PartialEq, Eq)]
pub struct SearchResponse {
    pub subsonic_response: SearchResponseData,
}

#[derive(Debug, Clone, PartialEq, Eq)]
pub struct SearchResponseData {
    pub status: String,
    pub search_result3: Option<SearchResult>,
}

#[derive(Debug, Clone, PartialEq, Eq)]
pub struct SearchResult {
    pub song: Vec<Song>,
}

#[derive(Debug, Clone, PartialEq, Eq)]
pub struct Song {
    pub id: String,
    pub title: String,
    pub artist: Option<String>,
    pub album: Option<String>,
    pub duration: Option<u32>,
}

/// What `str::to_lowercase` yields: the result depends on the characters
/// alone.
pub uninterp spec fn lower_of(s: Seq<char>) -> Seq<char>;

/// Relies on `str::to_lowercase`: Unicode-lowercases the text; an empty
/// string stays empty.
#[verifier::external_body]
fn lowercase(s: &str) -> (r: String)
    ensures
        r@ == lower_of(s@),
        s@.len() == 0 ==> r@.len() == 0,
{
    s.to_lowercase()
}

/// Two names count as similar when, lowercased and trimmed, they are equal
/// or one contains the other.
pub open spec fn spec_is_similar(a: Seq<char>, b: Seq<char>) -> bool {
    let an = trim_s(lower_of(a));
    let bn = trim_s(lower_of(b));
    an == bn || contains_s(an, bn) || contains_s(bn, an)
}

/// Whether two names are similar, case-insensitively.
pub fn is_similar(a: &str, b: &str) -> (r: bool)
    ensures
        r == spec_is_similar(a@, b@),
{
    let al = lowercase(a);
    let bl = lowercase(b);
    let an = trim(al.as_str());
    let bn = trim(bl.as_str());
    if crate::text::str_eq(an, bn) {
        return true;
    }
    contains_str(an, bn) || contains_str(bn, an)
}

/// Whether two durations lie within ten seconds of each other.
pub fn is_duration_similar(duration1: u32, duration2: u32) -> (r: bool)
    ensures
        r == (if duration1 >= duration2 {
            duration1 - duration2 <= 10
        } else {
            duration2 - duration1 <= 10
        }),
{
    let diff = if duration1 > duration2 {
        duration1 - duration2
    } else {
        duration2 - duration1
    };
    diff <= 10
}

/// The weighted similarity of a search result, as a fraction: matched weight
/// over total weight, both in tenths.  Title weighs 3, artist 2, album 1
/// (only when both sides name one), duration 1.5 (only when both sides have
/// one, within ten seconds).
pub open spec fn spec_similarity(m: TrackMetadata, song: Song) -> (u32, u32) {
    let t_score: u32 = if spec_is_similar(m.title@, song.title@) {
        30u32
    } else {
        0u32
    };
    let a_score: u32 = match song.artist {
        Some(sa) => if spec_is_similar(m.artist@, sa@) {
            20u32
        } else {
            0u32
        },
        None => 0u32,
    };
    let al_w: u32 = match (m.album, song.album) {
        (Some(_), Some(_)) => 10u32,
        _ => 0u32,
    };
    let al_score: u32 = match (m.album, song.album) {
        (Some(ma), Some(sa)) => if spec_is_similar(ma@, sa@) {
            10u32
        } else {
            0u32
        },
        _ => 0u32,
    };
    let d_w: u32 = match (m.duration, song.duration) {
        (Some(_), Some(_)) => 15u32,
        _ => 0u32,
    };
    let d_score: u32 = match (m.duration, song.duration) {
        (Some(md), Some(sd)) => if (if md >= sd {
            md - sd <= 10
        } else {
            sd - md <= 10
        }) {
            15u32
        } else {
            0u32
        },
        _ => 0u32,
    };
    (
        (t_score + a_score + al_score + d_score) as u32,
        (30 + 20 + al_w + d_w) as u32,
    )
}

/// The weighted similarity of a search result as a fraction `(score,
/// weight)`, both in tenths of the configured weights.
pub fn calculate_similarity(metadata: &TrackMetadata, song: &Song) -> (r: (u32, u32))
    ensures
        r == spec_similarity(*metadata, *song),
{
    let mut score: u32 = 0;
    let mut total: u32 = 50;
    if is_similar(metadata.title.as_str(), song.title.as_str()) {
        score = score + 30;
    }
    if let Some(sa) = &song.artist {
        if is_similar(metadata.artist.as_str(), sa.as_str()) {
            score = score + 20;
        }
    }
    if let (Some(ma), Some(sa)) = (&metadata.album, &song.album) {
        total = total + 10;
        if is_similar(ma.as_str(), sa.as_str()) {
            score = score + 10;
        }
    }
    if let (Some(md), Some(sd)) = (&metadata.duration, &song.duration) {
        total = total + 15;
        if is_duration_similar(*md, *sd) {
            score = score + 15;
        }
    }
    (score, total)
}

/// Whether a fraction exceeds one half.
pub open spec fn above_half(f: (u32, u32)) -> bool {
    2 * f.0 > f.1
}

/// Whether the left fraction is strictly larger.
pub open spec fn frac_gt(a: (u32, u32), b: (u32, u32)) -> bool {
    a.0 * b.1 > b.0 * a.1
}

/// A candidate no better than the old best is no better than a new best
/// that beats the old one.
proof fn lemma_frac_dominates(j0: u32, j1: u32, b0: u32, b1: u32, s0: u32, s1: u32)
    by (nonlinear_arith)
    requires
        j1 > 0,
        b1 > 0,
        s1 > 0,
        j0 * b1 <= b0 * j1,
        s0 * b1 > b0 * s1,
    ensures
        j0 * s1 < s0 * j1,
{
}

/// The index of the best-matching song: similarity above one half, and no
/// earlier candidate ties it nor any candidate beats it.
pub fn select_best_song(metadata: &TrackMetadata, songs: &Vec<Song>) -> (r: Option<usize>)
    ensures
        match r {
            Some(i) => 0 <= i < songs@.len() && above_half(
                spec_similarity(*metadata, songs@[i as int]),
            ) && (forall|j: int|
                0 <= j < i ==> !frac_gt(
                    spec_similarity(*metadata, #[trigger] songs@[j]),
                    spec_similarity(*metadata, songs@[i as int]),
                ) || !above_half(spec_similarity(*metadata, songs@[j]))) && (forall|j: int|
                i < j < songs@.len() ==> !frac_gt(
                    spec_similarity(*metadata, #[trigger] songs@[j]),
                    spec_similarity(*metadata, songs@[i as int]),
                ) || !above_half(spec_similarity(*metadata, songs@[j]))),
            None => forall|j: int|
                0 <= j < songs@.len() ==> !above_half(
                    spec_similarity(*metadata, #[trigger] songs@[j]),
                ),
        },
{
    let n = songs.len();
    let mut best: Option<usize> = None;
    let mut i: usize = 0;
    while i < n
        invariant
            0 <= i <= n,
            n == songs@.len(),
            match best {
                Some(bi) => 0 <= bi < i && above_half(
                    spec_similarity(*metadata, songs@[bi as int]),
                ) && (forall|j: int|
                    0 <= j < i ==> !frac_gt(
                        spec_similarity(*metadata, #[trigger] songs@[j]),
                        spec_similarity(*metadata, songs@[bi as int]),
                    ) || !above_half(spec_similarity(*metadata, songs@[j]))),
                None => forall|j: int|
                    0 <= j < i ==> !above_half(spec_similarity(*metadata, #[trigger] songs@[j])),
            },
        decreases n - i,
    {
        let s = calculate_similarity(metadata, &songs[i]);
        proof {
            assert(forall|j: int|
                0 <= j < n ==> (#[trigger] spec_similarity(*metadata, songs@[j])).1 >= 50);
        }
        if 2 * s.0 > s.1 {
            best = match best {
                None => Some(i),
                Some(bi) => {
                    let b = calculate_similarity(metadata, &songs[bi]);
                    proof {
                        assert(s.0 as int * b.1 as int <= u32::MAX as int * u32::MAX as int)
                            by (nonlinear_arith)
                            requires
                                s.0 <= u32::MAX,
                                b.1 <= u32::MAX,
                        ;
                        assert(b.0 as int * s.1 as int <= u32::MAX as int * u32::MAX as int)
                            by (nonlinear_arith)
                            requires
                                b.0 <= u32::MAX,
                                s.1 <= u32::MAX,
                        ;
                    }
                    let lhs: u64 = s.0 as u64 * b.1 as u64;
                    let rhs: u64 = b.0 as u64 * s.1 as u64;
                    if lhs > rhs {
                        proof {
                            let si = spec_similarity(*metadata, songs@[i as int]);
                            let sb = spec_similarity(*metadata, songs@[bi as int]);
                            assert forall|j: int|
                                0 <= j < i + 1 implies !frac_gt(
                                #[trigger] spec_similarity(*metadata, songs@[j]),
                                si,
                            ) || !above_half(spec_similarity(*metadata, songs@[j])) by {
                                let sj = spec_similarity(*metadata, songs@[j]);
                                if j < i && above_half(sj) {
                                    if !frac_gt(sj, sb) {
                                        lemma_frac_dominates(
                                            sj.0,
                                            sj.1,
                                            sb.0,
                                            sb.1,
                                            si.0,
                                            si.1,
                                        );
                                    }
                                }
                            }
                        }
                        Some(i)
                    } else {
                        Some(bi)
                    }
                },
            };
        }
        i = i + 1;
    }
    best
}

/// Two-digit zero-padded decimal.
pub open spec fn pad2(n: int) -> Seq<char> {
    if n < 10 {
        seq!['0', digit_char(n)]
    } else {
        dec_rep(n)
    }
}

fn pad2_exec(n: u64) -> (r: String)
    ensures
        r@ == pad2(n as int),
{
    if n < 10 {
        let mut out = crate::text::char_to_string('0');
        push_char(&mut out, digit_char_exec(n));
        proof {
            assert(out@ =~= seq!['0', digit_char(n as int)]);
        }
        out
    } else {
        u64_to_dec(n)
    }
}

/// One structured line as LRC text: a timed line gains a `[mm:ss.cc]` tag
/// from its millisecond offset; an untimed one stays bare.
pub open spec fn spec_lrc_line_text(l: LyricsLine) -> Seq<char> {
    match l.start {
        Some(ms) => {
            let tc = ms / 10;
            let minutes = tc / 6000;
            let rem = tc % 6000;
            seq!['['] + pad2(minutes as int) + seq![':'] + pad2((rem / 100) as int) + seq!['.']
                + pad2((rem % 100) as int) + seq![']'] + l.value@
        },
        None => l.value@,
    }
}

/// Lines joined with line breaks.
pub open spec fn spec_convert_to_lrc(lines: Seq<LyricsLine>) -> Seq<char>
    decreases lines.len(),
{
    if lines.len() == 0 {
        Seq::empty()
    } else if lines.len() == 1 {
        spec_lrc_line_text(lines[0])
    } else {
        spec_convert_to_lrc(lines.drop_last()) + seq!['\n'] + spec_lrc_line_text(lines.last())
    }
}

/// Render structured lyrics as LRC text.
pub fn convert_to_lrc(lyrics: &Vec<LyricsLine>) -> (r: String)
    ensures
        r@ == spec_convert_to_lrc(lyrics@),
{
    let n = lyrics.len();
    let mut out = String::new();
    let mut i: usize = 0;
    proof {
        assert(lyrics@.take(0) =~= Seq::<LyricsLine>::empty());
    }
    while i < n
        invariant
            0 <= i <= n,
            n == lyrics@.len(),
            out@ == spec_convert_to_lrc(lyrics@.take(i as int)),
        decreases n - i,
    {
        proof {
            assert(lyrics@.take(i + 1).drop_last() =~= lyrics@.take(i as int));
            assert(lyrics@.take(i + 1).last() == lyrics@[i as int]);
        }
        if i > 0 {
            push_char(&mut out, '\n');
        }
        match &lyrics[i].start {
            Some(ms) => {
                let tc = *ms / 10;
                let minutes = tc / 6000;
                let rem = tc % 6000;
                push_char(&mut out, '[');
                out.append(pad2_exec(minutes).as_str());
                push_char(&mut out, ':');
                out.append(pad2_exec(rem / 100).as_str());
                push_char(&mut out, '.');
                out.append(pad2_exec(rem % 100).as_str());
                push_char(&mut out, ']');
                out.append(lyrics[i].value.as_str());
            },
            None => {
                out.append(lyrics[i].value.as_str());
            },
        }
        i = i + 1;
    }
    proof {
        assert(lyrics@.take(n as int) =~= lyrics@);
    }
    out
}

/// The LRC text inside a lyrics reply: the call must have succeeded, some
/// structured lyrics must be present, the first set is rendered, and a
/// rendering that is blank after trimming counts as nothing.
pub fn lyrics_from_response(resp: &SubsonicResponseData) -> (r: Option<String>)
    ensures
        match r {
            Some(text) => resp.status@ == "ok"@ && (match resp.lyrics_list {
                Some(ll) => ll.structured_lyrics@.len() > 0 && text@ == spec_convert_to_lrc(
                    ll.structured_lyrics@[0].line@,
                ) && trim_s(text@).len() > 0,
                None => false,
            }),
            None => resp.status@ != "ok"@ || (match resp.lyrics_list {
                Some(ll) => ll.structured_lyrics@.len() == 0 || trim_s(
                    spec_convert_to_lrc(ll.structured_lyrics@[0].line@),
                ).len() == 0,
                None => true,
            }),
        },
{
    if !crate::text::str_eq(resp.status.as_str(), "ok") {
        return None;
    }
    let ll = match &resp.lyrics_list {
        Some(ll) => ll,
        None => {
            return None;
        },
    };
    if ll.structured_lyrics.is_empty() {
        return None;
    }
    let text = convert_to_lrc(&ll.structured_lyrics[0].line);
    if trim(text.as_str()).unicode_len() == 0 {
        return None;
    }
    Some(text)
}

/// What hex-rendering the MD5 digest of a text yields: the result depends on
/// the characters alone.
pub uninterp spec fn md5_hex_of(s: Seq<char>) -> Seq<char>;

/// Relies on `md5::compute` and the digest's `LowerHex` rendering: a
/// sixteen-byte digest of the input, written as thirty-two hex digits.
#[verifier::external_body]
fn md5_hex_token(s: &str) -> (r: String)
    ensures
        r@ == md5_hex_of(s@),
        r@.len() == 32,
{
    let mut out = String::new();
    let digest = md5::compute(s.as_bytes());
    out.push_str(&format!("{:x}", digest));
    out
}

/// The authentication parameters of a Subsonic request: user, salted token
/// (the MD5 of password then salt, in hex), the salt, protocol version and
/// client name.
pub fn generate_auth_params(username: &str, password: &str, salt: &str) -> (r: Vec<
    (String, String),
>)
    ensures
        r@.len() == 5,
        r@[0].0@ == "u"@ && r@[0].1@ == username@,
        r@[1].0@ == "t"@ && r@[1].1@ == md5_hex_of(password@ + salt@),
        r@[2].0@ == "s"@ && r@[2].1@ == salt@,
        r@[3].0@ == "v"@ && r@[3].1@ == "1.16.1"@,
        r@[4].0@ == "c"@ && r@[4].1@ == "waylrc"@,
{
    let mut token_input = password.to_owned();
    token_input.append(salt);
    let token = md5_hex_token(token_input.as_str());
    let mut out: Vec<(String, String)> = Vec::new();
    out.push(("u".to_owned(), username.to_owned()));
    out.push(("t".to_owned(), token));
    out.push(("s".to_owned(), salt.to_owned()));
    out.push(("v".to_owned(), "1.16.1".to_owned()));
    out.push(("c".to_owned(), "waylrc".to_owned()));
    out
}

/// The track metadata the search needs, read from the player's typed
/// metadata: a title and an artist must be there (the artist may come from
/// the album artist, a list counts by its first name), the album is
/// optional, and the duration falls back from `mpris:length` (microseconds)
/// to `xesam:duration` (seconds).
pub fn extract_metadata(metadata: &Metadata) -> (r: Option<TrackMetadata>)
    ensures
        match r {
            Some(t) => {
                &&& spec_string_value(*metadata, "xesam:title"@) == Some(t.title@)
                &&& Some(t.artist@) == (match spec_string_value(*metadata, "xesam:artist"@) {
                    Some(a) => Some(a),
                    None => spec_string_value(*metadata, "xesam:albumArtist"@),
                })
                &&& (match t.album {
                    Some(al) => spec_string_value(*metadata, "xesam:album"@) == Some(al@),
                    None => spec_string_value(*metadata, "xesam:album"@) is None,
                })
                &&& t.duration == spec_duration_value(*metadata)
            },
            None => spec_string_value(*metadata, "xesam:title"@) is None || (spec_string_value(
                *metadata,
                "xesam:artist"@,
            ) is None && spec_string_value(*metadata, "xesam:albumArtist"@) is None),
        },
{
    let title = match get_string_value(metadata, "xesam:title") {
        Some(t) => t,
        None => {
            return None;
        },
    };
    let artist = match get_string_value(metadata, "xesam:artist") {
        Some(a) => a,
        None => match get_string_value(metadata, "xesam:albumArtist") {
            Some(a) => a,
            None => {
                return None;
            },
        },
    };
    let album = get_string_value(metadata, "xesam:album");
    let duration = get_duration_value(metadata);
    Some(TrackMetadata { title, artist, album, duration })
}

/// The text under a key: a plain string, or the first name of a list.
pub open spec fn spec_string_value(m: Metadata, key: Seq<char>) -> Option<Seq<char>> {
    match m.spec_get_from(key, 0) {
        Some(MetadataValue::Text(t)) => Some(t@),
        Some(MetadataValue::TextList(ts)) => if ts@.len() > 0 {
            Some(ts@[0]@)
        } else {
            None
        },
        _ => None,
    }
}

fn get_string_value(metadata: &Metadata, key: &str) -> (r: Option<String>)
    ensures
        match r {
            Some(t) => spec_string_value(*metadata, key@) == Some(t@),
            None => spec_string_value(*metadata, key@) is None,
        },
{
    match metadata.get(key) {
        Some(MetadataValue::Text(t)) => Some(t.clone()),
        Some(MetadataValue::TextList(ts)) => {
            if ts.len() > 0 {
                Some(ts[0].clone())
            } else {
                None
            }
        },
        _ => None,
    }
}

/// The track duration in seconds, by the same fallback.
pub open spec fn spec_duration_value(m: Metadata) -> Option<u32> {
    match m.spec_get_from("mpris:length"@, 0) {
        Some(MetadataValue::UInt(us)) => Some(
            if us / 1_000_000 > u32::MAX {
                u32::MAX
            } else {
                (us / 1_000_000) as u32
            },
        ),
        _ => match m.spec_get_from("xesam:duration"@, 0) {
            Some(MetadataValue::UInt(v)) => Some(
                if v > u32::MAX {
                    u32::MAX
                } else {
                    v as u32
                },
            ),
            Some(MetadataValue::Int(v)) => if v > 0 {
                Some(
                    if v > u32::MAX {
                        u32::MAX
                    } else {
                        v as u32
                    },
                )
            } else {
                None
            },
            _ => None,
        },
    }
}

/// The track duration in seconds: `mpris:length` is in microseconds,
/// `xesam:duration` in seconds; values that are not positive numbers do not
/// count.
fn get_duration_value(metadata: &Metadata) -> (r: Option<u32>)
    ensures
        r == spec_duration_value(*metadata),
{
    match metadata.get("mpris:length") {
        Some(MetadataValue::UInt(us)) => {
            let secs = *us / 1_000_000;
            return Some(
                if secs > u32::MAX as u64 {
                    u32::MAX
                } else {
                    secs as u32
                },
            );
        },
        _ => {},
    }
    match metadata.get("xesam:duration") {
        Some(MetadataValue::UInt(v)) => Some(
            if *v > u32::MAX as u64 {
                u32::MAX
            } else {
                *v as u32
            },
        ),
        Some(MetadataValue::Int(v)) => {
            if *v > 0 {
                let v64 = *v as u64;
                Some(
                    if v64 > u32::MAX as u64 {
                        u32::MAX
                    } else {
                        v64 as u32
                    },
                )
            } else {
                None
            }
        },
        _ => None,
    }
}

/// The Navidrome configuration, when the provider is enabled and every
/// setting is present.
pub fn setup_navidrome_config(
    external_lrc_providers: &Vec<ExternalLrcProvider>,
    navidrome_server_url: Option<String>,
    navidrome_username: Option<String>,
    navidrome_password: Option<String>,
) -> (r: Option<NavidromeConfig>)
    ensures
        match r {
            Some(cfg) => {
                &&& exists|i: int|
                    0 <= i < external_lrc_providers@.len() && external_lrc_providers@[i]
                        == ExternalLrcProvider::Navidrome
                &&& navidrome_server_url matches Some(u) && cfg.server_url == u
                &&& navidrome_username matches Some(nm) && cfg.username == nm
                &&& navidrome_password matches Some(p) && cfg.password == p
            },
            None => (forall|i: int|
                0 <= i < external_lrc_providers@.len() ==> #[trigger] external_lrc_providers@[i]
                    != ExternalLrcProvider::Navidrome) || navidrome_server_url is None
                || navidrome_username is None || navidrome_password is None,
        },
{
    let n = external_lrc_providers.len();
    let mut found = false;
    let mut i: usize = 0;
    while i < n
        invariant
            0 <= i <= n,
            n == external_lrc_providers@.len(),
            found == exists|k: int|
                0 <= k < i && #[trigger] external_lrc_providers@[k]
                    == ExternalLrcProvider::Navidrome,
        decreases n - i,
    {
        match external_lrc_providers[i] {
            ExternalLrcProvider::Navidrome => {
                proof {
                    let wi = i as int;
                    assert(0 <= wi < i + 1 && external_lrc_providers@[wi]
                        == ExternalLrcProvider::Navidrome);
                }
                found = true;
            },
            _ => {},
        }
        i = i + 1;
    }
    if !found {
        return None;
    }
    match (navidrome_server_url, navidrome_username, navidrome_password) {
        (Some(server_url), Some(username), Some(password)) => Some(
            NavidromeConfig { server_url, username, password },
        ),
        _ => None,
    }
}

} // verus!
