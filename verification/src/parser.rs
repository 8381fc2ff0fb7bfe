//! A second LRC parser: versions held as plain line lists, and named errors
//! for the ways a line can be rejected.

use vstd::prelude::*;

use crate::lrc::{spec_parse_secs, parse_secs, strip_rep2, strip_prefix_rep};
use crate::text::{
    all_digits, digits_val, find_s, find_char, parse_digits, trim_s, trim, is_ws, is_ws_exec,
    is_digit_c, is_digit_exec, lemma_find_props, lemma_digits_val_bound,
};

verus! {

/// A time offset from the start of the song, in whole microseconds.
#[derive(Debug, Clone, Copy, PartialEq, Eq, Structural)]
pub struct TimeTag(pub u64);

/// A line of lyrics with its time tag.
#[derive(Debug, Clone, PartialEq, Eq)]
pub struct Line {
    pub time: TimeTag,
    pub text: String,
}

/// The parsed document: a list of versions, each a list of lines held in
/// increasing time order.
#[derive(Debug, Clone, PartialEq, Eq)]
pub struct Lrc(pub Vec<Vec<Line>>);

/// Why a time tag fails to parse; each variant carries the offending text.
#[derive(Debug, Clone, PartialEq, Eq)]
pub enum TimeTagFromStr {
    InvalidFormat(String),
    InvalidInteger(String),
    InvalidFloat(String),
}

/// Why a whole line fails to parse.
#[derive(Debug, Clone, PartialEq, Eq)]
pub enum LineFromStr {
    NoTag,
    InvalidTimeTag(TimeTagFromStr),
    EmptyText,
}

/// The outcome of parsing a time tag, classified as the errors are.
pub ghost enum TagParse {
    Accepted(u64),
    BadFormat,
    BadInt,
    BadFloat,
}

/// The outcome of parsing a line: a run of leading time tags with the
/// cleaned display text, or one of the ways the line fails.
pub ghost enum LineParse {
    Accepted(Seq<u64>, Seq<char>),
    NoTag,
    BadTag,
    Empty,
}

/// Classify a `mm:ss.xx` tag: not one colon is a format error, bad minutes an
/// integer error, a bad seconds field (or a value beyond the microsecond
/// range) a float error.
pub open spec fn spec_tag_parse(s: Seq<char>) -> TagParse {
    match find_s(s, ':') {
        None => TagParse::BadFormat,
        Some(i) => {
            let mins = s.take(i);
            let secs = s.skip(i + 1);
            if find_s(secs, ':') is Some {
                TagParse::BadFormat
            } else if !(mins.len() > 0 && all_digits(mins) && digits_val(mins) <= u64::MAX) {
                TagParse::BadInt
            } else {
                match spec_parse_secs(secs) {
                    None => TagParse::BadFloat,
                    Some(micros) => {
                        let total = digits_val(mins) * 60_000_000 + micros;
                        if total <= u64::MAX {
                            TagParse::Accepted(total as u64)
                        } else {
                            TagParse::BadFloat
                        }
                    },
                }
            }
        },
    }
}

impl TimeTag {
    /// Parse a `mm:ss.xx` time tag, reporting which part was at fault.
    pub fn from_str(s: &str) -> (r: Result<TimeTag, TimeTagFromStr>)
        ensures
            match r {
                Ok(t) => spec_tag_parse(s@) == TagParse::Accepted(t.0),
                Err(TimeTagFromStr::InvalidFormat(p)) => spec_tag_parse(s@) is BadFormat && p@
                    == s@,
                Err(TimeTagFromStr::InvalidInteger(p)) => spec_tag_parse(s@) is BadInt && (
                exists|i: int| find_s(s@, ':') == Some(i) && p@ == s@.take(i)),
                Err(TimeTagFromStr::InvalidFloat(p)) => spec_tag_parse(s@) is BadFloat && (
                exists|i: int| find_s(s@, ':') == Some(i) && p@ == s@.skip(i + 1)),
            },
    {
        let len = s.unicode_len();
        proof {
            lemma_find_props(s@, ':');
        }
        let i = match find_char(s, ':') {
            Some(i) => i,
            None => {
                return Err(TimeTagFromStr::InvalidFormat(s.to_owned()));
            },
        };
        let mins = s.substring_char(0, i);
        let secs = s.substring_char(i + 1, len);
        if find_char(secs, ':').is_some() {
            return Err(TimeTagFromStr::InvalidFormat(s.to_owned()));
        }
        let mins_val = match parse_digits(mins) {
            Some(v) => v,
            None => {
                return Err(TimeTagFromStr::InvalidInteger(mins.to_owned()));
            },
        };
        let secs_micros: u128 = match parse_secs(secs) {
            Some(v) => v,
            None => {
                return Err(TimeTagFromStr::InvalidFloat(secs.to_owned()));
            },
        };
        let total: u128 = mins_val as u128 * 60_000_000 + secs_micros;
        if total > u64::MAX as u128 {
            return Err(TimeTagFromStr::InvalidFloat(secs.to_owned()));
        }
        Ok(TimeTag(total as u64))
    }
}

/// Whether `s` starts with an inline `<dd:dd.dd>` word-timing marker.
pub open spec fn is_a2_at(s: Seq<char>) -> bool {
    s.len() >= 10 && s[0] == '<' && is_digit_c(s[1]) && is_digit_c(s[2]) && s[3] == ':'
        && is_digit_c(s[4]) && is_digit_c(s[5]) && s[6] == '.' && is_digit_c(s[7]) && is_digit_c(
        s[8],
    ) && s[9] == '>'
}

/// Remove every `<dd:dd.dd>` marker, each together with one following
/// whitespace character if present, scanning left to right.
pub open spec fn spec_strip_a2(s: Seq<char>) -> Seq<char>
    decreases s.len(),
{
    if s.len() == 0 {
        s
    } else if is_a2_at(s) {
        let rest = s.skip(10);
        if rest.len() > 0 && is_ws(rest[0]) {
            spec_strip_a2(rest.skip(1))
        } else {
            spec_strip_a2(rest)
        }
    } else {
        seq![s[0]] + spec_strip_a2(s.skip(1))
    }
}

fn is_a2_at_exec(s: &str, len: usize) -> (r: bool)
    requires
        len == s@.len(),
    ensures
        r == is_a2_at(s@),
{
    len >= 10 && s.get_char(0) == '<' && is_digit_exec(s.get_char(1)) && is_digit_exec(
        s.get_char(2),
    ) && s.get_char(3) == ':' && is_digit_exec(s.get_char(4)) && is_digit_exec(s.get_char(5))
        && s.get_char(6) == '.' && is_digit_exec(s.get_char(7)) && is_digit_exec(s.get_char(8))
        && s.get_char(9) == '>'
}

/// Remove every inline `<dd:dd.dd>` word-timing marker.
fn strip_a2(s: &str) -> (r: String)
    ensures
        r@ == spec_strip_a2(s@),
    decreases s@.len(),
{
    let len = s.unicode_len();
    if len == 0 {
        let e = String::new();
        proof {
            assert(e@ =~= s@);
        }
        return e;
    }
    if is_a2_at_exec(s, len) {
        let rest = s.substring_char(10, len);
        let rlen = len - 10;
        if rlen > 0 && is_ws_exec(rest.get_char(0)) {
            let out = strip_a2(rest.substring_char(1, rlen));
            proof {
                assert(rest@.subrange(1, rlen as int) =~= s@.skip(10).skip(1));
            }
            out
        } else {
            strip_a2(rest)
        }
    } else {
        let out = crate::text::char_to_string(s.get_char(0)).concat(
            strip_a2(s.substring_char(1, len)).as_str(),
        );
        proof {
            assert(out@ =~= seq![s@[0]] + spec_strip_a2(s@.skip(1)));
        }
        out
    }
}

/// Classify a whole line.  The format is `[mm:ss.xx]...text`: the whole run
/// of leading bracketed time tags is collected, and the text keeps only what
/// survives vocal-tag stripping, marker removal and trimming.  A line whose
/// first bracketed run is not a valid tag is a tag error; one with no
/// bracketed run at all has no tag.
pub open spec fn spec_line_from_str(s: Seq<char>) -> LineParse {
    let t = trim_s(s);
    if t.len() == 0 {
        LineParse::Empty
    } else {
        let run = crate::lrc::spec_collect_tags(t);
        if run.0.len() == 0 {
            if t[0] == '[' && find_s(t, ']') is Some {
                LineParse::BadTag
            } else {
                LineParse::NoTag
            }
        } else {
            let cleaned = trim_s(
                spec_strip_a2(strip_rep2(strip_rep2(strip_rep2(run.1, 'F'), 'M'), 'D')),
            );
            if cleaned.len() == 0 {
                LineParse::Empty
            } else {
                LineParse::Accepted(run.0, cleaned)
            }
        }
    }
}

/// Parse one source line into its full run of time tags and the cleaned
/// display text.
pub fn parse_line(s: &str) -> (r: Result<(Vec<TimeTag>, String), LineFromStr>)
    ensures
        match r {
            Ok(p) => (spec_line_from_str(s@) matches LineParse::Accepted(tags, text)
                && p.0@.map_values(|x: TimeTag| x.0) == tags && p.1@ == text) && p.0@.len() > 0,
            Err(LineFromStr::NoTag) => spec_line_from_str(s@) is NoTag,
            Err(LineFromStr::EmptyText) => spec_line_from_str(s@) is Empty,
            Err(LineFromStr::InvalidTimeTag(_)) => spec_line_from_str(s@) is BadTag,
        },
{
    let t = trim(s);
    let tlen = t.unicode_len();
    if tlen == 0 {
        return Err(LineFromStr::EmptyText);
    }
    let (raw_tags, rest) = crate::lrc::collect_tags(t);
    if raw_tags.len() == 0 {
        if t.get_char(0) != '[' {
            return Err(LineFromStr::NoTag);
        }
        proof {
            lemma_find_props(t@, ']');
        }
        let i = match find_char(t, ']') {
            Some(i) => i,
            None => {
                return Err(LineFromStr::NoTag);
            },
        };
        // the run came back empty, so the first bracketed segment is not a
        // valid time tag; parse it once more to name what was wrong with it
        match TimeTag::from_str(t.substring_char(1, i)) {
            Ok(_) => Err(
                LineFromStr::InvalidTimeTag(
                    TimeTagFromStr::InvalidFormat(t.substring_char(1, i).to_owned()),
                ),
            ),
            Err(e) => Err(LineFromStr::InvalidTimeTag(e)),
        }
    } else {
        let ghost stags = crate::lrc::spec_collect_tags(t@).0;
        let n = raw_tags.len();
        let mut time: Vec<TimeTag> = Vec::new();
        let mut k: usize = 0;
        while k < n
            invariant
                0 <= k <= n,
                n == raw_tags@.len(),
                raw_tags@.map_values(|x: crate::lrc::TimeTag| x.0) == stags,
                stags.len() == n,
                time@.len() == k,
                forall|j: int| 0 <= j < k ==> (#[trigger] time@[j]).0 == stags[j],
            decreases n - k,
        {
            time.push(TimeTag(raw_tags[k].0));
            proof {
                assert(raw_tags@.map_values(|x: crate::lrc::TimeTag| x.0)[k as int]
                    == raw_tags@[k as int].0);
            }
            k = k + 1;
        }
        proof {
            assert(time@.map_values(|x: TimeTag| x.0) =~= stags);
        }
        let body = strip_prefix_rep(rest, 'F');
        let body = strip_prefix_rep(body, 'M');
        let body = strip_prefix_rep(body, 'D');
        let cleaned = strip_a2(body);
        let cleaned = trim(cleaned.as_str());
        if cleaned.unicode_len() == 0 {
            return Err(LineFromStr::EmptyText);
        }
        Ok((time, cleaned.to_owned()))
    }
}

impl Line {
    /// Parse one line and keep its first tag: the line shown when a caller
    /// wants a single entry.
    pub fn from_str(s: &str) -> (r: Result<Line, LineFromStr>)
        ensures
            match r {
                Ok(l) => (spec_line_from_str(s@) matches LineParse::Accepted(tags, text)
                    && tags.len() >= 1 && l.time.0 == tags[0] && l.text@ == text),
                Err(LineFromStr::NoTag) => spec_line_from_str(s@) is NoTag,
                Err(LineFromStr::EmptyText) => spec_line_from_str(s@) is Empty,
                Err(LineFromStr::InvalidTimeTag(_)) => spec_line_from_str(s@) is BadTag,
            },
    {
        match parse_line(s) {
            Ok((tags, text)) => Ok(Line { time: tags[0], text }),
            Err(e) => Err(e),
        }
    }

    /// Append wrapped continuation text to the line, space-joined.
    pub fn push_text(&mut self, text: &str)
        ensures
            final(self).time == old(self).time,
            final(self).text@ == old(self).text@ + seq![' '] + text@,
    {
        crate::text::push_char(&mut self.text, ' ');
        self.text.append(text);
        proof {
            assert(self.text@ =~= old(self).text@ + seq![' '] + text@);
        }
    }
}


// ---------------------------------------------------------------------------
// The document
// ---------------------------------------------------------------------------

/// A version as mathematical pairs of microseconds and character sequences.
pub open spec fn line_rep(v: Seq<Line>) -> Seq<(u64, Seq<char>)> {
    v.map(|_i: int, l: Line| (l.time.0, l.text@))
}

/// A whole document in the same shape.
pub open spec fn pdoc_rep(d: Seq<Vec<Line>>) -> Seq<Seq<(u64, Seq<char>)>> {
    d.map(|_i: int, v: Vec<Line>| line_rep(v@))
}

impl Lrc {
    pub open spec fn rep(self) -> Seq<Seq<(u64, Seq<char>)>> {
        pdoc_rep(self.0@)
    }
}

/// Fold one raw source line into the document.  A line with one tag inserts
/// into the last version, or begins a new one when its time falls below the
/// version's latest key; a line with several tags inserts the same text at
/// every tag in the current version; a line with no usable tag — none at
/// all, or a malformed one — is treated as plain text: joined,
/// space-separated, to the previous line, or opening the version as a
/// zero-time entry; a blank line changes nothing.
pub open spec fn spec_parser_apply(
    d: Seq<Seq<(u64, Seq<char>)>>,
    raw: Seq<char>,
) -> Seq<Seq<(u64, Seq<char>)>>
    recommends
        d.len() > 0,
{
    match spec_line_from_str(raw) {
        LineParse::Accepted(tags, text) => {
            let lastv = d.last();
            if tags.len() == 1 {
                if lastv.len() > 0 && lastv.last().0 > tags[0] {
                    d.push(seq![(tags[0], text)])
                } else {
                    d.update(d.len() - 1, crate::lrc::spec_insert(lastv, tags[0], text))
                }
            } else {
                d.update(d.len() - 1, crate::lrc::spec_insert_all(lastv, tags, text))
            }
        },
        LineParse::Empty => d,
        _ => {
            let lastv = d.last();
            if lastv.len() == 0 {
                d.update(d.len() - 1, seq![(0u64, raw)])
            } else {
                let e = lastv.last();
                d.update(d.len() - 1, lastv.update(lastv.len() - 1, (e.0, e.1 + seq![' '] + raw)))
            }
        },
    }
}

/// Fold a run of raw source lines into the document.
pub open spec fn spec_parser_lines(
    d: Seq<Seq<(u64, Seq<char>)>>,
    lines: Seq<Seq<char>>,
) -> Seq<Seq<(u64, Seq<char>)>>
    decreases lines.len(),
{
    if lines.len() == 0 {
        d
    } else {
        spec_parser_lines(spec_parser_apply(d, lines[0]), lines.skip(1))
    }
}

/// What parsing a whole input yields: start with one empty version and fold
/// each line in.
pub open spec fn spec_parser_from_str(s: Seq<char>) -> Seq<Seq<(u64, Seq<char>)>> {
    spec_parser_lines(seq![Seq::empty()], crate::lrc::spec_lines(s))
}

/// Insert `(t, txt)` into a version held as a time-sorted line list.
fn insert_line_entry(v: &mut Vec<Line>, t: TimeTag, txt: String)
    ensures
        line_rep(final(v)@) == crate::lrc::spec_insert(line_rep(old(v)@), t.0, txt@),
{
    let ghost vr = line_rep(old(v)@);
    let mut i: usize = v.len();
    while i > 0 && v[i - 1].time.0 > t.0
        invariant
            0 <= i <= v@.len(),
            v@ == old(v)@,
            forall|k: int| i <= k < v@.len() ==> v@[k].time.0 > t.0,
        decreases i,
    {
        i = i - 1;
    }
    proof {
        assert(forall|k: int| 0 <= k < vr.len() ==> (#[trigger] vr[k]) == (
            v@[k].time.0,
            v@[k].text@,
        ));
        crate::lrc::lemma_insert_at(vr, t.0, txt@, i as int);
    }
    if i > 0 && v[i - 1].time.0 == t.0 {
        v.remove(i - 1);
        v.insert(i - 1, Line { time: t, text: txt });
        proof {
            assert(line_rep(v@) =~= vr.update(i - 1, (t.0, txt@)));
        }
    } else {
        v.insert(i, Line { time: t, text: txt });
        proof {
            assert(line_rep(v@) =~= vr.take(i as int) + seq![(t.0, txt@)] + vr.skip(i as int));
        }
    }
}

impl Lrc {
    /// Parse a whole LRC text, line by line.
    pub fn from_reader(s: &str) -> (r: Lrc)
        ensures
            r.rep() == spec_parser_from_str(s@),
            r.rep().len() > 0,
    {
        let mut doc: Vec<Vec<Line>> = Vec::new();
        doc.push(Vec::new());
        proof {
            assert(pdoc_rep(doc@) =~= seq![Seq::<(u64, Seq<char>)>::empty()]) by {
                assert(pdoc_rep(doc@).len() == 1);
                assert(pdoc_rep(doc@)[0] =~= Seq::<(u64, Seq<char>)>::empty());
            }
        }
        let mut rem: &str = s;
        let mut rlen = rem.unicode_len();
        while rlen > 0
            invariant
                rlen == rem@.len(),
                doc@.len() > 0,
                spec_parser_lines(pdoc_rep(doc@), crate::lrc::spec_lines(rem@))
                    == spec_parser_lines(
                    seq![Seq::<(u64, Seq<char>)>::empty()],
                    crate::lrc::spec_lines(s@),
                ),
            decreases rlen,
        {
            proof {
                lemma_find_props(rem@, '\n');
            }
            let (line_raw, next_rem): (&str, &str) = match find_char(rem, '\n') {
                Some(i) => (rem.substring_char(0, i), rem.substring_char(i + 1, rlen)),
                None => (rem, rem.substring_char(rlen, rlen)),
            };
            let llen = line_raw.unicode_len();
            let line_str: &str = if llen > 0 && line_raw.get_char(llen - 1) == '\r' {
                let ls = line_raw.substring_char(0, llen - 1);
                proof {
                    assert(line_raw@.drop_last() =~= line_raw@.subrange(
                        0,
                        line_raw@.len() - 1,
                    ));
                }
                ls
            } else {
                line_raw
            };
            proof {
                assert(line_str@ == crate::lrc::strip_cr(line_raw@));
                match find_s(rem@, '\n') {
                    Some(i) => {
                        assert(line_raw@ =~= rem@.take(i));
                        assert(next_rem@ =~= rem@.skip(i + 1));
                    },
                    None => {
                        assert(next_rem@ =~= Seq::<char>::empty());
                        assert(crate::lrc::spec_lines(next_rem@) =~= Seq::<Seq<char>>::empty());
                    },
                }
                assert(crate::lrc::spec_lines(rem@)[0] == line_str@);
                assert(crate::lrc::spec_lines(rem@).skip(1) =~= crate::lrc::spec_lines(next_rem@));
            }
            let ghost d0 = pdoc_rep(doc@);
            match parse_line(line_str) {
                Ok((tags, text)) => {
                    let ghost stags = tags@.map_values(|x: TimeTag| x.0);
                    let ghost stext = text@;
                    let mut lastv = match doc.pop() {
                        Some(v) => v,
                        None => {
                            proof {
                                assert(false);
                            }
                            Vec::new()
                        },
                    };
                    proof {
                        assert(line_rep(lastv@) == d0.last());
                        assert(pdoc_rep(doc@) =~= d0.drop_last());
                    }
                    if tags.len() == 1 {
                        let t0 = tags[0];
                        proof {
                            assert(t0.0 == stags[0]);
                        }
                        let split = lastv.len() > 0 && lastv[lastv.len() - 1].time.0 > t0.0;
                        proof {
                            if lastv.len() > 0 {
                                assert(line_rep(lastv@).last() == (
                                    lastv@[lastv@.len() - 1].time.0,
                                    lastv@[lastv@.len() - 1].text@,
                                ));
                            }
                        }
                        if split {
                            doc.push(lastv);
                            let mut nv: Vec<Line> = Vec::new();
                            nv.push(Line { time: t0, text });
                            proof {
                                assert(line_rep(nv@) =~= seq![(t0.0, stext)]);
                            }
                            doc.push(nv);
                            proof {
                                assert(pdoc_rep(doc@) =~= d0.push(seq![(t0.0, stext)]));
                                assert(pdoc_rep(doc@) =~= spec_parser_apply(d0, line_str@));
                            }
                        } else {
                            insert_line_entry(&mut lastv, t0, text);
                            doc.push(lastv);
                            proof {
                                assert(pdoc_rep(doc@) =~= d0.update(
                                    d0.len() - 1,
                                    crate::lrc::spec_insert(d0.last(), t0.0, stext),
                                ));
                                assert(pdoc_rep(doc@) =~= spec_parser_apply(d0, line_str@));
                            }
                        }
                    } else {
                        let n = tags.len();
                        proof {
                            assert(stags.skip(0) =~= stags);
                        }
                        let mut k: usize = 0;
                        while k < n
                            invariant
                                0 <= k <= n,
                                n == tags@.len(),
                                stags == tags@.map_values(|x: TimeTag| x.0),
                                stext == text@,
                                crate::lrc::spec_insert_all(
                                    line_rep(lastv@),
                                    stags.skip(k as int),
                                    stext,
                                ) == crate::lrc::spec_insert_all(d0.last(), stags, stext),
                            decreases n - k,
                        {
                            let tk = tags[k];
                            let ghost before = line_rep(lastv@);
                            insert_line_entry(&mut lastv, tk, text.clone());
                            proof {
                                assert(stags.skip(k as int)[0] == tk.0);
                                assert(stags.skip(k as int).skip(1) =~= stags.skip(k + 1));
                                assert(crate::lrc::spec_insert_all(
                                    before,
                                    stags.skip(k as int),
                                    stext,
                                ) == crate::lrc::spec_insert_all(
                                    crate::lrc::spec_insert(before, tk.0, stext),
                                    stags.skip(k + 1),
                                    stext,
                                ));
                            }
                            k = k + 1;
                        }
                        proof {
                            assert(stags.skip(n as int) =~= Seq::<u64>::empty());
                        }
                        doc.push(lastv);
                        proof {
                            assert(pdoc_rep(doc@) =~= d0.update(
                                d0.len() - 1,
                                crate::lrc::spec_insert_all(d0.last(), stags, stext),
                            ));
                            assert(pdoc_rep(doc@) =~= spec_parser_apply(d0, line_str@));
                        }
                    }
                },
                Err(LineFromStr::EmptyText) => {
                    proof {
                        assert(pdoc_rep(doc@) == spec_parser_apply(d0, line_str@));
                    }
                },
                Err(_) => {
                    // no usable tag: the line is plain text
                    let mut lastv = match doc.pop() {
                        Some(v) => v,
                        None => {
                            proof {
                                assert(false);
                            }
                            Vec::new()
                        },
                    };
                    proof {
                        assert(line_rep(lastv@) == d0.last());
                        assert(pdoc_rep(doc@) =~= d0.drop_last());
                    }
                    if lastv.len() == 0 {
                        lastv.push(Line { time: TimeTag(0), text: line_str.to_owned() });
                        proof {
                            assert(line_rep(lastv@) =~= seq![(0u64, line_str@)]);
                        }
                        doc.push(lastv);
                        proof {
                            assert(pdoc_rep(doc@) =~= d0.update(
                                d0.len() - 1,
                                seq![(0u64, line_str@)],
                            ));
                            assert(pdoc_rep(doc@) =~= spec_parser_apply(d0, line_str@));
                        }
                    } else {
                        let mut e = match lastv.pop() {
                            Some(e) => e,
                            None => {
                                proof {
                                    assert(false);
                                }
                                Line { time: TimeTag(0), text: String::new() }
                            },
                        };
                        e.push_text(line_str);
                        lastv.push(e);
                        doc.push(lastv);
                        proof {
                            assert(line_rep(lastv@) =~= d0.last().update(
                                d0.last().len() - 1,
                                (d0.last().last().0, d0.last().last().1 + seq![' '] + line_str@),
                            ));
                            assert(pdoc_rep(doc@) =~= d0.update(
                                d0.len() - 1,
                                d0.last().update(
                                    d0.last().len() - 1,
                                    (
                                        d0.last().last().0,
                                        d0.last().last().1 + seq![' '] + line_str@,
                                    ),
                                ),
                            ));
                            assert(pdoc_rep(doc@) =~= spec_parser_apply(d0, line_str@));
                        }
                    }
                },
            }
            rem = next_rem;
            rlen = rem.unicode_len();
        }
        proof {
            assert(crate::lrc::spec_lines(rem@) =~= Seq::<Seq<char>>::empty());
        }
        Lrc(doc)
    }

    /// Parse a whole LRC text.
    pub fn from_str(s: &str) -> (r: Lrc)
        ensures
            r.rep() == spec_parser_from_str(s@),
            r.rep().len() > 0,
    {
        Lrc::from_reader(s)
    }
}

// ---------------------------------------------------------------------------
// Queries
// ---------------------------------------------------------------------------

/// How many leading lines of a version lie at or before `t`.
pub open spec fn prefix_end(v: Seq<(u64, Seq<char>)>, t: u64) -> int
    decreases v.len(),
{
    if v.len() == 0 {
        0
    } else if v[0].0 > t {
        0
    } else {
        1 + prefix_end(v.skip(1), t)
    }
}

/// The line each version shows at `t`: the last line of its prefix at or
/// before `t`.
pub open spec fn pdoc_texts(d: Seq<Seq<(u64, Seq<char>)>>, t: u64) -> Seq<(u64, Seq<char>)>
    decreases d.len(),
{
    if d.len() == 0 {
        Seq::empty()
    } else {
        let v = d.last();
        let i = prefix_end(v, t);
        pdoc_texts(d.drop_last(), t) + if i > 0 {
            seq![v[i - 1]]
        } else {
            Seq::empty()
        }
    }
}

/// The earliest next boundary over all versions: each version's first line
/// past its prefix, the smallest of them.
pub open spec fn pdoc_next(d: Seq<Seq<(u64, Seq<char>)>>, t: u64) -> Option<u64>
    decreases d.len(),
{
    if d.len() == 0 {
        None
    } else {
        let v = d.last();
        let i = prefix_end(v, t);
        crate::lrc::opt_min(
            pdoc_next(d.drop_last(), t),
            if i < v.len() {
                Some(v[i].0)
            } else {
                None
            },
        )
    }
}

/// A forward scan that stopped at `i` has walked exactly the prefix.
proof fn lemma_prefix_end_at(v: Seq<(u64, Seq<char>)>, t: u64, i: int)
    requires
        0 <= i <= v.len(),
        forall|k: int| 0 <= k < i ==> v[k].0 <= t,
        i < v.len() ==> v[i].0 > t,
    ensures
        prefix_end(v, t) == i,
    decreases i,
{
    if i == 0 {
    } else {
        assert(v[0].0 <= t);
        assert(forall|k: int| 0 <= k < i - 1 ==> v.skip(1)[k] == v[k + 1]);
        if i < v.len() {
            assert(v.skip(1)[i - 1] == v[i]);
        }
        lemma_prefix_end_at(v.skip(1), t, i - 1);
    }
}

impl Lrc {
    /// The lines to show at `time` (one per version whose prefix has begun)
    /// and the earliest next boundary, if any version still has one.
    pub fn get_lyrics(&self, time: TimeTag) -> (r: (Vec<Line>, Option<TimeTag>))
        ensures
            r.0@.map_values(|l: Line| (l.time.0, l.text@)) == pdoc_texts(self.rep(), time.0),
            match r.1 {
                Some(tt) => pdoc_next(self.rep(), time.0) == Some(tt.0),
                None => pdoc_next(self.rep(), time.0) is None,
            },
    {
        let t = time.0;
        let n = self.0.len();
        let mut lines: Vec<Line> = Vec::new();
        let mut next: Option<TimeTag> = None;
        let ghost rep = self.rep();
        proof {
            assert(lines@.map_values(|l: Line| (l.time.0, l.text@)) =~= pdoc_texts(
                rep.take(0),
                t,
            ));
        }
        let mut k: usize = 0;
        while k < n
            invariant
                0 <= k <= n,
                n == self.0@.len(),
                rep == self.rep(),
                rep.len() == n,
                lines@.map_values(|l: Line| (l.time.0, l.text@)) == pdoc_texts(
                    rep.take(k as int),
                    t,
                ),
                match next {
                    Some(tt) => pdoc_next(rep.take(k as int), t) == Some(tt.0),
                    None => pdoc_next(rep.take(k as int), t) is None,
                },
            decreases n - k,
        {
            let ver: &Vec<Line> = &self.0[k];
            let ghost vr = rep[k as int];
            proof {
                assert(vr == line_rep(ver@));
                assert(forall|m: int| 0 <= m < ver@.len() ==> (#[trigger] vr[m]) == (
                    ver@[m].time.0,
                    ver@[m].text@,
                ));
            }
            let vlen = ver.len();
            let mut i: usize = 0;
            while i < vlen && ver[i].time.0 <= t
                invariant
                    0 <= i <= vlen,
                    vlen == ver@.len(),
                    vr == line_rep(ver@),
                    forall|m: int| 0 <= m < i ==> ver@[m].time.0 <= t,
                decreases vlen - i,
            {
                i = i + 1;
            }
            proof {
                assert(forall|m: int| 0 <= m < i ==> (#[trigger] vr[m]).0 <= t);
                if i < vlen {
                    assert(vr[i as int].0 > t);
                }
                lemma_prefix_end_at(vr, t, i as int);
            }
            if i > 0 {
                lines.push(Line { time: ver[i - 1].time, text: ver[i - 1].text.clone() });
            }
            if i < vlen {
                let cand = ver[i].time;
                next = match next {
                    None => Some(cand),
                    Some(cur) => if cand.0 < cur.0 {
                        Some(cand)
                    } else {
                        Some(cur)
                    },
                };
            }
            proof {
                assert(rep.take(k + 1).drop_last() =~= rep.take(k as int));
                assert(rep.take(k + 1).last() == vr);
                assert(lines@.map_values(|l: Line| (l.time.0, l.text@)) =~= pdoc_texts(
                    rep.take(k + 1),
                    t,
                ));
            }
            k = k + 1;
        }
        proof {
            assert(rep.take(n as int) =~= rep);
        }
        (lines, next)
    }
}

} // verus!
