//! A small parser for LRC files and the time-indexed document it produces.

use vstd::prelude::*;

use crate::text::{
    all_digits, digits_val, find_s, pow10, lemma_digits_val_bound, find_char, parse_digits,
    trim_start_s, trim_start, lemma_trim_start_len, lemma_find_props, rfind_s,
};

verus! {

/// A playback rate expressed in parts per thousand (1000 = normal speed).
pub const RATE_UNIT: u64 = 1000;

/// A time offset from the start of the song, in whole microseconds.
#[derive(Debug, Clone, Copy, PartialEq, Eq, Structural)]
pub struct TimeTag(pub u64);

/// Wall-clock time needed to travel from `from` to `self` at `rate`
/// (parts per thousand), in microseconds, saturating at `u64::MAX`.
pub open spec fn spec_duration_from(to: TimeTag, from: TimeTag, rate: u64) -> int
    recommends
        from.0 <= to.0,
        rate > 0,
{
    let exact = (to.0 - from.0) * RATE_UNIT / rate as int;
    if exact > u64::MAX {
        u64::MAX as int
    } else {
        exact
    }
}

/// Microseconds contributed by the fractional digits of a seconds field:
/// the first six digits, right-padded with zeros.
pub open spec fn frac_micros(fp: Seq<char>) -> int {
    if fp.len() >= 6 {
        digits_val(fp.take(6))
    } else {
        digits_val(fp) * pow10(6 - fp.len() as int)
    }
}

/// The seconds field of a time tag (`ss`, `ss.`, `ss.xx` or `.xx`),
/// as microseconds.
pub open spec fn spec_parse_secs(s: Seq<char>) -> Option<int> {
    match find_s(s, '.') {
        None => if s.len() > 0 && all_digits(s) {
            Some(digits_val(s) * 1_000_000)
        } else {
            None
        },
        Some(j) => {
            let ip = s.take(j);
            let fp = s.skip(j + 1);
            if find_s(fp, '.') is Some {
                None
            } else if !(all_digits(ip) && all_digits(fp)) {
                None
            } else if ip.len() == 0 && fp.len() == 0 {
                None
            } else {
                Some(digits_val(ip) * 1_000_000 + frac_micros(fp))
            }
        },
    }
}

/// A `mm:ss.xx` time tag as microseconds from the start of the song.
/// Only values that fit a `u64` count as valid.
pub open spec fn spec_parse_timetag(s: Seq<char>) -> Option<u64> {
    match find_s(s, ':') {
        None => None,
        Some(i) => {
            let mins = s.take(i);
            let secs = s.skip(i + 1);
            if find_s(secs, ':') is Some {
                None
            } else if !(mins.len() > 0 && all_digits(mins)) {
                None
            } else {
                match spec_parse_secs(secs) {
                    None => None,
                    Some(micros) => {
                        let total = digits_val(mins) * 60_000_000 + micros;
                        if total <= u64::MAX {
                            Some(total as u64)
                        } else {
                            None
                        }
                    },
                }
            }
        },
    }
}

/// The fractional part of a seconds field stays below one second.
proof fn lemma_frac_micros_bound(fp: Seq<char>)
    requires
        all_digits(fp),
    ensures
        0 <= frac_micros(fp) < 1_000_000,
{
    reveal_with_fuel(pow10, 7);
    if fp.len() >= 6 {
        assert(all_digits(fp.take(6))) by {
            assert(forall|k: int| 0 <= k < 6 ==> fp.take(6)[k] == #[trigger] fp[k]);
        }
        lemma_digits_val_bound(fp.take(6));
    } else {
        lemma_digits_val_bound(fp);
        let n = fp.len() as int;
        assert(pow10(6) == 1_000_000 && pow10(5) == 100_000 && pow10(4) == 10_000 && pow10(3)
            == 1_000 && pow10(2) == 100 && pow10(1) == 10);
        if n == 0 {
            assert(frac_micros(fp) == digits_val(fp) * 1_000_000);
        } else if n == 1 {
            assert(frac_micros(fp) == digits_val(fp) * 100_000);
        } else if n == 2 {
            assert(frac_micros(fp) == digits_val(fp) * 10_000);
        } else if n == 3 {
            assert(frac_micros(fp) == digits_val(fp) * 1_000);
        } else if n == 4 {
            assert(frac_micros(fp) == digits_val(fp) * 100);
        } else {
            assert(frac_micros(fp) == digits_val(fp) * 10);
        }
    }
}

/// A valid seconds field never has a negative value.
proof fn lemma_parse_secs_nonneg(s: Seq<char>)
    ensures
        match spec_parse_secs(s) {
            Some(v) => v >= 0,
            None => true,
        },
{
    match find_s(s, '.') {
        None => {
            if s.len() > 0 && all_digits(s) {
                lemma_digits_val_bound(s);
            }
        },
        Some(j) => {
            let ip = s.take(j);
            let fp = s.skip(j + 1);
            if all_digits(ip) {
                lemma_digits_val_bound(ip);
            }
            if all_digits(fp) {
                lemma_frac_micros_bound(fp);
            }
        },
    }
}

/// Parse the seconds field; `None` also stands for a value too large for the
/// whole tag to fit (the caller rejects those anyway).
pub(crate) fn parse_secs(s: &str) -> (r: Option<u128>)
    ensures
        match r {
            Some(v) => spec_parse_secs(s@) == Some(v as int) && v <= u64::MAX as u128 * 1_000_000
                + 1_000_000,
            None => match spec_parse_secs(s@) {
                Some(v) => v > u64::MAX,
                None => true,
            },
        },
{
    let len = s.unicode_len();
    match find_char(s, '.') {
        None => {
            match parse_digits(s) {
                Some(v) => Some(v as u128 * 1_000_000),
                None => {
                    proof {
                        if s@.len() > 0 && all_digits(s@) {
                            lemma_digits_val_bound(s@);
                        }
                    }
                    None
                },
            }
        },
        Some(j) => {
            proof {
                crate::text::lemma_find_props(s@, '.');
            }
            let ip = s.substring_char(0, j);
            let fp = s.substring_char(j + 1, len);
            if find_char(fp, '.').is_some() {
                return None;
            }
            let fplen = fp.unicode_len();
            if j == 0 && fplen == 0 {
                return None;
            }
            let ip_val: u64 = if j == 0 {
                proof {
                    assert(ip@ =~= Seq::<char>::empty());
                }
                0u64
            } else {
                match parse_digits(ip) {
                    Some(v) => v,
                    None => {
                        proof {
                            if all_digits(fp@) {
                                lemma_frac_micros_bound(fp@);
                            }
                            if all_digits(ip@) && ip@.len() > 0 {
                                lemma_digits_val_bound(ip@);
                            }
                        }
                        return None;
                    },
                }
            };
            let frac_scaled: u64 = if fplen == 0 {
                proof {
                    assert(fp@ =~= Seq::<char>::empty());
                    assert(pow10(6) == 1_000_000) by {
                        reveal_with_fuel(pow10, 7);
                    }
                    assert(frac_micros(fp@) == digits_val(fp@) * 1_000_000);
                    assert(digits_val(fp@) == 0);
                    assert(frac_micros(fp@) == 0);
                }
                0u64
            } else if fplen >= 6 {
                if !crate::text::all_digits_check(fp) {
                    return None;
                }
                let fp6 = fp.substring_char(0, 6);
                proof {
                    assert(fp6@ =~= fp@.take(6));
                    assert(all_digits(fp6@)) by {
                        assert(forall|k: int| 0 <= k < 6 ==> fp6@[k] == #[trigger] fp@[k]);
                    }
                    lemma_digits_val_bound(fp6@);
                    assert(pow10(6) == 1_000_000) by {
                        reveal_with_fuel(pow10, 7);
                    }
                }
                match parse_digits(fp6) {
                    Some(v) => v,
                    None => {
                        proof {
                            assert(false);
                        }
                        return None;
                    },
                }
            } else {
                match parse_digits(fp) {
                    Some(v) => {
                        proof {
                            lemma_digits_val_bound(fp@);
                            reveal_with_fuel(pow10, 7);
                        }
                        if fplen == 5 {
                            v * 10
                        } else if fplen == 4 {
                            v * 100
                        } else if fplen == 3 {
                            v * 1_000
                        } else if fplen == 2 {
                            v * 10_000
                        } else {
                            v * 100_000
                        }
                    },
                    None => {
                        proof {
                            assert(!all_digits(fp@)) by {
                                if all_digits(fp@) {
                                    lemma_digits_val_bound(fp@);
                                    reveal_with_fuel(pow10, 7);
                                }
                            }
                        }
                        return None;
                    },
                }
            };
            proof {
                lemma_frac_micros_bound(fp@);
                assert(pow10(5) == 100_000 && pow10(4) == 10_000 && pow10(3) == 1_000 && pow10(2)
                    == 100 && pow10(1) == 10) by {
                    reveal_with_fuel(pow10, 7);
                }
                assert(frac_scaled == frac_micros(fp@));
            }
            Some(ip_val as u128 * 1_000_000 + frac_scaled as u128)
        },
    }
}

impl TimeTag {
    /// Parse a `mm:ss.xx` time tag.
    pub fn parse(s: &str) -> (r: Option<TimeTag>)
        ensures
            match r {
                Some(t) => spec_parse_timetag(s@) == Some(t.0),
                None => spec_parse_timetag(s@) is None,
            },
    {
        let len = s.unicode_len();
        let i = match find_char(s, ':') {
            Some(i) => i,
            None => {
                return None;
            },
        };
        proof {
            crate::text::lemma_find_props(s@, ':');
        }
        let mins = s.substring_char(0, i);
        let secs = s.substring_char(i + 1, len);
        if find_char(secs, ':').is_some() {
            return None;
        }
        let mins_val = match parse_digits(mins) {
            Some(v) => v,
            None => {
                proof {
                    if mins@.len() > 0 && all_digits(mins@) {
                        lemma_digits_val_bound(mins@);
                    }
                    lemma_parse_secs_nonneg(secs@);
                }
                return None;
            },
        };
        let secs_micros: u128 = match parse_secs(secs) {
            Some(v) => v,
            None => {
                return None;
            },
        };
        let total: u128 = mins_val as u128 * 60_000_000 + secs_micros;
        if total > u64::MAX as u128 {
            return None;
        }
        Some(TimeTag(total as u64))
    }

    /// How long the player needs to reach `self` starting at `from`, when it
    /// advances `rate` thousandths of a microsecond per microsecond.
    pub fn duration_from(&self, from: &Self, rate: u64) -> (r: u64)
        requires
            from.0 <= self.0,
            rate > 0,
        ensures
            r == spec_duration_from(*self, *from, rate),
    {
        let diff: u64 = self.0 - from.0;
        assert(diff as u128 * RATE_UNIT as u128 <= u64::MAX as u128 * RATE_UNIT as u128)
            by (nonlinear_arith)
            requires
                diff <= u64::MAX,
        ;
        let scaled: u128 = diff as u128 * RATE_UNIT as u128 / rate as u128;
        if scaled > u64::MAX as u128 {
            u64::MAX
        } else {
            scaled as u64
        }
    }
}


/// One parsed source line: its leading time tags and the display text.
#[derive(Debug, Clone, PartialEq, Eq)]
pub struct LrcLine {
    pub time: Vec<TimeTag>,
    pub text: String,
}

/// The bracketed time tags at the start of a line, and what follows them.
/// Whitespace before each tag is skipped; an unparsable tag ends the run and
/// stays part of the text.
pub open spec fn spec_collect_tags(s: Seq<char>) -> (Seq<u64>, Seq<char>)
    decreases s.len(),
    via spec_collect_tags_dec
{
    let t = trim_start_s(s);
    if t.len() == 0 {
        (Seq::empty(), t)
    } else {
        match find_s(t, ']') {
            None => (Seq::empty(), t),
            Some(i) => {
                if i >= 1 && t[0] == '[' {
                    match spec_parse_timetag(t.subrange(1, i)) {
                        Some(v) => {
                            let r = spec_collect_tags(t.skip(i + 1));
                            (seq![v] + r.0, r.1)
                        },
                        None => (Seq::empty(), t),
                    }
                } else {
                    (Seq::empty(), t)
                }
            },
        }
    }
}

#[via_fn]
proof fn spec_collect_tags_dec(s: Seq<char>) {
    lemma_trim_start_len(s);
    lemma_find_props(trim_start_s(s), ']');
}

/// Repeatedly strip a leading `c:` marker (a vocal-part tag).
pub open spec fn strip_rep2(s: Seq<char>, c: char) -> Seq<char>
    decreases s.len(),
{
    if s.len() >= 2 && s[0] == c && s[1] == ':' {
        strip_rep2(s.skip(2), c)
    } else {
        s
    }
}

/// Remove inline `<mm:ss.xx>` word-timing markers.  A valid marker is dropped
/// together with the whitespace run after it (the first following
/// non-whitespace character is kept); anything else between angle brackets is
/// kept verbatim.
pub open spec fn spec_strip_inline(s: Seq<char>) -> Seq<char>
    decreases s.len(),
    via spec_strip_inline_dec
{
    if s.len() == 0 {
        s
    } else if s[0] != '<' {
        seq![s[0]] + spec_strip_inline(s.skip(1))
    } else {
        let inner = s.skip(1);
        let tag = match find_s(inner, '>') {
            Some(i) => inner.take(i),
            None => inner,
        };
        let rest = match find_s(inner, '>') {
            Some(i) => inner.skip(i + 1),
            None => Seq::<char>::empty(),
        };
        if spec_parse_timetag(tag) is Some {
            let t = trim_start_s(rest);
            if t.len() > 0 {
                seq![t[0]] + spec_strip_inline(t.skip(1))
            } else {
                Seq::empty()
            }
        } else {
            seq!['<'] + tag + seq!['>'] + spec_strip_inline(rest)
        }
    }
}

#[via_fn]
proof fn spec_strip_inline_dec(s: Seq<char>) {
    if s.len() > 0 && s[0] == '<' {
        let inner = s.skip(1);
        lemma_find_props(inner, '>');
        match find_s(inner, '>') {
            Some(i) => {
                lemma_trim_start_len(inner.skip(i + 1));
            },
            None => {
                lemma_trim_start_len(Seq::<char>::empty());
            },
        }
    }
}

/// Display text of a line: vocal-part tags, leading whitespace and inline
/// timing markers removed.
pub open spec fn spec_line_text(rest: Seq<char>) -> Seq<char> {
    spec_strip_inline(trim_start_s(strip_rep2(strip_rep2(strip_rep2(rest, 'F'), 'M'), 'D')))
}

/// What `LrcLine::from_str` produces: the tag run and the cleaned-up text.
pub open spec fn spec_lrc_line(s: Seq<char>) -> (Seq<u64>, Seq<char>) {
    let r = spec_collect_tags(s);
    (r.0, spec_line_text(r.1))
}

/// The bracketed time tags at the start of a line, and the remaining text.
pub(crate) fn collect_tags<'a>(s: &'a str) -> (r: (Vec<TimeTag>, &'a str))
    ensures
        r.0@.map_values(|t: TimeTag| t.0) == spec_collect_tags(s@).0,
        r.1@ == spec_collect_tags(s@).1,
    decreases s@.len(),
{
    let t = trim_start(s);
    proof {
        lemma_trim_start_len(s@);
    }
    let tlen = t.unicode_len();
    if tlen == 0 {
        let empty: Vec<TimeTag> = Vec::new();
        proof {
            assert(empty@.map_values(|x: TimeTag| x.0) =~= Seq::<u64>::empty());
        }
        return (empty, t);
    }
    match find_char(t, ']') {
        None => {
            let empty: Vec<TimeTag> = Vec::new();
            proof {
                assert(empty@.map_values(|x: TimeTag| x.0) =~= Seq::<u64>::empty());
            }
            (empty, t)
        },
        Some(i) => {
            proof {
                lemma_find_props(t@, ']');
            }
            if i >= 1 && t.get_char(0) == '[' {
                match TimeTag::parse(t.substring_char(1, i)) {
                    Some(tag) => {
                        let rest = t.substring_char(i + 1, tlen);
                        let (mut tags, txt) = collect_tags(rest);
                        tags.insert(0, tag);
                        proof {
                            assert(tags@.map_values(|x: TimeTag| x.0) =~= seq![tag.0]
                                + spec_collect_tags(rest@).0);
                        }
                        (tags, txt)
                    },
                    None => {
                        let empty: Vec<TimeTag> = Vec::new();
                        proof {
                            assert(empty@.map_values(|x: TimeTag| x.0) =~= Seq::<u64>::empty());
                        }
                        (empty, t)
                    },
                }
            } else {
                let empty: Vec<TimeTag> = Vec::new();
                proof {
                    assert(empty@.map_values(|x: TimeTag| x.0) =~= Seq::<u64>::empty());
                }
                (empty, t)
            }
        },
    }
}

/// Repeatedly strip a leading `c:` marker.
pub(crate) fn strip_prefix_rep<'a>(s: &'a str, c: char) -> (r: &'a str)
    ensures
        r@ == strip_rep2(s@, c),
{
    let mut cur = s;
    let mut len = cur.unicode_len();
    while len >= 2 && cur.get_char(0) == c && cur.get_char(1) == ':'
        invariant
            len == cur@.len(),
            strip_rep2(cur@, c) == strip_rep2(s@, c),
        decreases len,
    {
        cur = cur.substring_char(2, len);
        len = len - 2;
    }
    cur
}

/// Remove inline `<mm:ss.xx>` word-timing markers.
fn strip_inline(s: &str) -> (r: String)
    ensures
        r@ == spec_strip_inline(s@),
    decreases s@.len(),
{
    let len = s.unicode_len();
    if len == 0 {
        let e = String::new();
        proof {
            assert(e@ =~= s@);
        }
        return e;
    }
    let c0 = s.get_char(0);
    if c0 != '<' {
        let rest = strip_inline(s.substring_char(1, len));
        let out = crate::text::char_to_string(c0).concat(rest.as_str());
        proof {
            assert(s@.subrange(1, len as int) =~= s@.skip(1));
            assert(out@ =~= seq![s@[0]] + spec_strip_inline(s@.skip(1)));
            assert(spec_strip_inline(s@) == seq![s@[0]] + spec_strip_inline(s@.skip(1)));
        }
        out
    } else {
        let inner = s.substring_char(1, len);
        let ilen = len - 1;
        proof {
            assert(inner@ =~= s@.skip(1));
            lemma_find_props(inner@, '>');
        }
        let (tag, rest): (&str, &str) = match find_char(inner, '>') {
            Some(i) => (inner.substring_char(0, i), inner.substring_char(i + 1, ilen)),
            None => (inner, inner.substring_char(ilen, ilen)),
        };
        proof {
            match find_s(inner@, '>') {
                Some(i) => {
                    assert(tag@ =~= inner@.take(i));
                    assert(rest@ =~= inner@.skip(i + 1));
                },
                None => {
                    assert(tag@ == inner@);
                    assert(rest@ =~= Seq::<char>::empty());
                },
            }
        }
        if TimeTag::parse(tag).is_some() {
            let t = trim_start(rest);
            proof {
                lemma_trim_start_len(rest@);
            }
            let tl = t.unicode_len();
            if tl > 0 {
                let rec = strip_inline(t.substring_char(1, tl));
                let out = crate::text::char_to_string(t.get_char(0)).concat(rec.as_str());
                proof {
                    assert(out@ =~= seq![trim_start_s(rest@)[0]] + spec_strip_inline(
                        trim_start_s(rest@).skip(1)));
                }
                out
            } else {
                let e = String::new();
                proof {
                    assert(e@ =~= Seq::<char>::empty());
                }
                e
            }
        } else {
            let rec = strip_inline(rest);
            let mut out = crate::text::char_to_string('<');
            out.append(tag);
            crate::text::push_char(&mut out, '>');
            out.append(rec.as_str());
            proof {
                assert(out@ =~= seq!['<'] + tag@ + seq!['>'] + spec_strip_inline(rest@));
                assert(spec_strip_inline(s@) == seq!['<'] + tag@ + seq!['>'] + spec_strip_inline(
                    rest@));
            }
            out
        }
    }
}

impl LrcLine {
    /// Parse one source line: leading time tags, then the display text with
    /// vocal-part and inline-timing markers removed.
    pub fn from_str(s: &str) -> (r: LrcLine)
        ensures
            r.time@.map_values(|t: TimeTag| t.0) == spec_lrc_line(s@).0,
            r.text@ == spec_lrc_line(s@).1,
    {
        let (time, rest) = collect_tags(s);
        let rest = strip_prefix_rep(rest, 'F');
        let rest = strip_prefix_rep(rest, 'M');
        let rest = strip_prefix_rep(rest, 'D');
        let rest = trim_start(rest);
        let text = strip_inline(rest);
        LrcLine { time, text }
    }
}


// ---------------------------------------------------------------------------
// The document
// ---------------------------------------------------------------------------

/// The parsed document: an ordered list of versions.  Each version is a list
/// of `(time, text)` lines held in strictly increasing time order.
#[derive(Debug, Clone, PartialEq, Eq)]
pub struct Lrc(pub Vec<Vec<(TimeTag, String)>>);

/// A version as mathematical pairs of microseconds and character sequences.
pub open spec fn version_rep(v: Seq<(TimeTag, String)>) -> Seq<(u64, Seq<char>)> {
    v.map(|_i: int, p: (TimeTag, String)| (p.0.0, p.1@))
}

/// A whole document in the same shape.
pub open spec fn doc_rep(d: Seq<Vec<(TimeTag, String)>>) -> Seq<Seq<(u64, Seq<char>)>> {
    d.map(|_i: int, v: Vec<(TimeTag, String)>| version_rep(v@))
}

pub open spec fn version_sorted(v: Seq<(u64, Seq<char>)>) -> bool {
    forall|i: int, j: int| 0 <= i < j < v.len() ==> v[i].0 < v[j].0
}

pub open spec fn doc_sorted(d: Seq<Seq<(u64, Seq<char>)>>) -> bool {
    forall|k: int| 0 <= k < d.len() ==> version_sorted(#[trigger] d[k])
}

impl Lrc {
    pub open spec fn rep(self) -> Seq<Seq<(u64, Seq<char>)>> {
        doc_rep(self.0@)
    }

    /// Well-formed: every version's keys strictly increase.
    pub open spec fn wf(self) -> bool {
        self.rep().len() > 0 && doc_sorted(self.rep())
    }
}

/// Insert `(t, txt)` into a version, keeping time order; an existing line at
/// the same time is overwritten.
pub open spec fn spec_insert(v: Seq<(u64, Seq<char>)>, t: u64, txt: Seq<char>) -> Seq<
    (u64, Seq<char>),
>
    decreases v.len(),
{
    if v.len() == 0 {
        seq![(t, txt)]
    } else if v.last().0 < t {
        v.push((t, txt))
    } else if v.last().0 == t {
        v.update(v.len() - 1, (t, txt))
    } else {
        spec_insert(v.drop_last(), t, txt).push(v.last())
    }
}

/// Where `spec_insert` puts the new pair, position by position.
pub(crate) proof fn lemma_insert_at(v: Seq<(u64, Seq<char>)>, t: u64, txt: Seq<char>, i: int)
    requires
        0 <= i <= v.len(),
        forall|k: int| i <= k < v.len() ==> v[k].0 > t,
        i > 0 ==> v[i - 1].0 <= t,
    ensures
        spec_insert(v, t, txt) == if i > 0 && v[i - 1].0 == t {
            v.update(i - 1, (t, txt))
        } else {
            v.take(i) + seq![(t, txt)] + v.skip(i)
        },
    decreases v.len(),
{
    if i == v.len() {
        if v.len() == 0 {
            assert(spec_insert(v, t, txt) =~= v.take(i) + seq![(t, txt)] + v.skip(i));
        } else if v.last().0 < t {
            assert(v.push((t, txt)) =~= v.take(i) + seq![(t, txt)] + v.skip(i));
        } else {
            assert(v.last().0 == t);
        }
    } else {
        assert(v[v.len() - 1].0 > t);
        lemma_insert_at(v.drop_last(), t, txt, i);
        if i > 0 && v[i - 1].0 == t {
            assert(v.drop_last()[i - 1].0 == t);
            assert(spec_insert(v.drop_last(), t, txt).push(v.last()) =~= v.update(i - 1, (t, txt)));
        } else {
            assert((v.drop_last().take(i) + seq![(t, txt)] + v.drop_last().skip(i)).push(v.last())
                =~= v.take(i) + seq![(t, txt)] + v.skip(i));
        }
    }
}

/// Inserting keeps a version sorted; every key of the result is the new key
/// or one that was already there.
proof fn lemma_insert_sorted(v: Seq<(u64, Seq<char>)>, t: u64, txt: Seq<char>)
    requires
        version_sorted(v),
    ensures
        version_sorted(spec_insert(v, t, txt)),
        forall|m: int|
            0 <= m < spec_insert(v, t, txt).len() ==> (#[trigger] spec_insert(v, t, txt)[m].0) == t
                || exists|j: int| 0 <= j < v.len() && v[j].0 == spec_insert(v, t, txt)[m].0,
    decreases v.len(),
{
    let r = spec_insert(v, t, txt);
    if v.len() == 0 {
    } else if v.last().0 < t {
        assert(forall|i: int| 0 <= i < v.len() ==> (#[trigger] v[i].0) <= v[v.len() - 1].0);
        assert(version_sorted(r));
        assert(forall|m: int| 0 <= m < v.len() ==> r[m] == v[m]);
    } else if v.last().0 == t {
        assert(forall|m: int| 0 <= m < r.len() && m != v.len() - 1 ==> r[m] == v[m]);
        assert(version_sorted(r));
    } else {
        assert(version_sorted(v.drop_last())) by {
            assert(forall|i: int, j: int|
                0 <= i < j < v.len() - 1 ==> v.drop_last()[i] == v[i] && v.drop_last()[j] == v[j]);
        }
        lemma_insert_sorted(v.drop_last(), t, txt);
        let rr = spec_insert(v.drop_last(), t, txt);
        assert(forall|m: int| 0 <= m < rr.len() ==> (#[trigger] rr[m].0) < v.last().0) by {
            assert(forall|j: int| 0 <= j < v.len() - 1 ==> (#[trigger] v.drop_last()[j].0) == v[j].0
                && v[j].0 < v[v.len() - 1].0);
        }
        assert(version_sorted(r));
        assert(forall|m: int| 0 <= m < rr.len() ==> r[m] == rr[m]);
        assert(forall|j: int| 0 <= j < v.len() - 1 ==> v.drop_last()[j].0 == v[j].0);
    }
}

/// Insert the same text at each tag of a run, left to right.
pub open spec fn spec_insert_all(
    v: Seq<(u64, Seq<char>)>,
    tags: Seq<u64>,
    txt: Seq<char>,
) -> Seq<(u64, Seq<char>)>
    decreases tags.len(),
{
    if tags.len() == 0 {
        v
    } else {
        spec_insert_all(spec_insert(v, tags[0], txt), tags.skip(1), txt)
    }
}

proof fn lemma_insert_all_sorted(v: Seq<(u64, Seq<char>)>, tags: Seq<u64>, txt: Seq<char>)
    requires
        version_sorted(v),
    ensures
        version_sorted(spec_insert_all(v, tags, txt)),
    decreases tags.len(),
{
    if tags.len() > 0 {
        lemma_insert_sorted(v, tags[0], txt);
        lemma_insert_all_sorted(spec_insert(v, tags[0], txt), tags.skip(1), txt);
    }
}

/// Fold one parsed line into the document: no tag joins the text,
/// space-separated, to the last line (or opens the version at time zero),
/// one tag inserts (starting a new version on a backward jump), several tags
/// insert the same text at each time.
pub open spec fn spec_apply_line(
    d: Seq<Seq<(u64, Seq<char>)>>,
    tags: Seq<u64>,
    txt: Seq<char>,
) -> Seq<Seq<(u64, Seq<char>)>>
    recommends
        d.len() > 0,
{
    let lastv = d.last();
    if tags.len() == 0 {
        if lastv.len() > 0 {
            let e = lastv.last();
            d.update(d.len() - 1, lastv.update(lastv.len() - 1, (e.0, e.1 + seq![' '] + txt)))
        } else {
            d.update(d.len() - 1, spec_insert(lastv, 0, txt))
        }
    } else if tags.len() == 1 {
        if lastv.len() > 0 && lastv.last().0 > tags[0] {
            d.push(seq![(tags[0], txt)])
        } else {
            d.update(d.len() - 1, spec_insert(lastv, tags[0], txt))
        }
    } else {
        d.update(d.len() - 1, spec_insert_all(lastv, tags, txt))
    }
}

proof fn lemma_apply_line_wf(d: Seq<Seq<(u64, Seq<char>)>>, tags: Seq<u64>, txt: Seq<char>)
    requires
        d.len() > 0,
        doc_sorted(d),
    ensures
        spec_apply_line(d, tags, txt).len() > 0,
        doc_sorted(spec_apply_line(d, tags, txt)),
{
    let lastv = d.last();
    assert(version_sorted(lastv));
    if tags.len() == 0 {
        if lastv.len() > 0 {
            let e = lastv.last();
            let nv = lastv.update(lastv.len() - 1, (e.0, e.1 + txt));
            assert(version_sorted(nv)) by {
                assert(forall|m: int| 0 <= m < nv.len() ==> (#[trigger] nv[m].0) == lastv[m].0);
            }
        } else {
            lemma_insert_sorted(lastv, 0, txt);
        }
    } else if tags.len() == 1 {
        if lastv.len() > 0 && lastv.last().0 > tags[0] {
            assert(version_sorted(seq![(tags[0], txt)]));
        } else {
            lemma_insert_sorted(lastv, tags[0], txt);
        }
    } else {
        lemma_insert_all_sorted(lastv, tags, txt);
    }
}

/// Trailing carriage return removed, as line readers do.
pub open spec fn strip_cr(x: Seq<char>) -> Seq<char> {
    if x.len() > 0 && x.last() == '\r' {
        x.drop_last()
    } else {
        x
    }
}

/// The input split into lines at `\n`, each without a trailing `\r`.
pub open spec fn spec_lines(s: Seq<char>) -> Seq<Seq<char>>
    decreases s.len(),
    via spec_lines_dec
{
    if s.len() == 0 {
        Seq::empty()
    } else {
        match find_s(s, '\n') {
            Some(i) => seq![strip_cr(s.take(i))] + spec_lines(s.skip(i + 1)),
            None => seq![strip_cr(s)],
        }
    }
}

#[via_fn]
proof fn spec_lines_dec(s: Seq<char>) {
    lemma_find_props(s, '\n');
}

/// Fold a run of source lines into the document.
pub open spec fn spec_apply_lines(
    d: Seq<Seq<(u64, Seq<char>)>>,
    lines: Seq<Seq<char>>,
) -> Seq<Seq<(u64, Seq<char>)>>
    decreases lines.len(),
{
    if lines.len() == 0 {
        d
    } else {
        let line = spec_lrc_line(lines[0]);
        spec_apply_lines(spec_apply_line(d, line.0, line.1), lines.skip(1))
    }
}

proof fn lemma_apply_lines_wf(d: Seq<Seq<(u64, Seq<char>)>>, lines: Seq<Seq<char>>)
    requires
        d.len() > 0,
        doc_sorted(d),
    ensures
        spec_apply_lines(d, lines).len() > 0,
        doc_sorted(spec_apply_lines(d, lines)),
    decreases lines.len(),
{
    if lines.len() > 0 {
        let line = spec_lrc_line(lines[0]);
        lemma_apply_line_wf(d, line.0, line.1);
        lemma_apply_lines_wf(spec_apply_line(d, line.0, line.1), lines.skip(1));
    }
}

/// What parsing a whole input yields: start with one empty version and fold
/// each line in.
pub open spec fn spec_from_reader(s: Seq<char>) -> Seq<Seq<(u64, Seq<char>)>> {
    spec_apply_lines(seq![Seq::empty()], spec_lines(s))
}

/// Insert `(t, txt)` into a version held as a sorted vector.
fn insert_line(v: &mut Vec<(TimeTag, String)>, t: TimeTag, txt: String)
    ensures
        version_rep(final(v)@) == spec_insert(version_rep(old(v)@), t.0, txt@),
{
    let ghost vr = version_rep(old(v)@);
    let mut i: usize = v.len();
    while i > 0 && v[i - 1].0.0 > t.0
        invariant
            0 <= i <= v@.len(),
            v@ == old(v)@,
            forall|k: int| i <= k < v@.len() ==> v@[k].0.0 > t.0,
        decreases i,
    {
        i = i - 1;
    }
    proof {
        assert(forall|k: int| 0 <= k < vr.len() ==> (#[trigger] vr[k]) == (v@[k].0.0, v@[k].1@));
        lemma_insert_at(vr, t.0, txt@, i as int);
    }
    if i > 0 && v[i - 1].0.0 == t.0 {
        v.remove(i - 1);
        v.insert(i - 1, (t, txt));
        proof {
            assert(version_rep(v@) =~= vr.update(i - 1, (t.0, txt@)));
        }
    } else {
        v.insert(i, (t, txt));
        proof {
            assert(version_rep(v@) =~= vr.take(i as int) + seq![(t.0, txt@)] + vr.skip(i as int));
        }
    }
}

/// Fold one parsed line into the document.
fn apply_line(doc: &mut Vec<Vec<(TimeTag, String)>>, line: LrcLine)
    requires
        old(doc)@.len() > 0,
    ensures
        final(doc)@.len() > 0,
        doc_rep(final(doc)@) == spec_apply_line(
            doc_rep(old(doc)@),
            line.time@.map_values(|t: TimeTag| t.0),
            line.text@,
        ),
{
    let ghost d0 = doc_rep(old(doc)@);
    let ghost tags = line.time@.map_values(|t: TimeTag| t.0);
    let n = line.time.len();
    let mut lastv = match doc.pop() {
        Some(v) => v,
        None => {
            proof {
                assert(false);
            }
            Vec::new()
        },
    };
    proof {
        assert(version_rep(lastv@) == d0.last());
        assert(doc_rep(doc@) =~= d0.drop_last());
    }
    if n == 0 {
        if lastv.len() > 0 {
            let e = match lastv.pop() {
                Some(e) => e,
                None => {
                    proof {
                        assert(false);
                    }
                    (TimeTag(0), String::new())
                },
            };
            let (et, mut es) = e;
            crate::text::push_char(&mut es, ' ');
            es.append(line.text.as_str());
            proof {
                assert(es@ =~= d0.last().last().1 + seq![' '] + line.text@);
            }
            lastv.push((et, es));
            proof {
                assert(version_rep(lastv@) =~= d0.last().update(
                    d0.last().len() - 1,
                    (d0.last().last().0, d0.last().last().1 + seq![' '] + line.text@),
                ));
            }
        } else {
            lastv.push((TimeTag(0), line.text));
            proof {
                assert(version_rep(lastv@) =~= spec_insert(d0.last(), 0, line.text@));
            }
        }
        doc.push(lastv);
        proof {
            assert(doc_rep(doc@) =~= spec_apply_line(d0, tags, line.text@));
        }
    } else if n == 1 {
        let t = line.time[0];
        proof {
            assert(tags[0] == t.0);
        }
        if lastv.len() > 0 && lastv[lastv.len() - 1].0.0 > t.0 {
            doc.push(lastv);
            let mut nv: Vec<(TimeTag, String)> = Vec::new();
            nv.push((t, line.text));
            doc.push(nv);
            proof {
                assert(version_rep(nv@) =~= seq![(t.0, line.text@)]);
                assert(doc_rep(doc@) =~= spec_apply_line(d0, tags, line.text@));
            }
        } else {
            insert_line(&mut lastv, t, line.text);
            doc.push(lastv);
            proof {
                assert(doc_rep(doc@) =~= spec_apply_line(d0, tags, line.text@));
            }
        }
    } else {
        let ghost txt = line.text@;
        proof {
            assert(tags.skip(0) =~= tags);
        }
        let mut i: usize = 0;
        while i < n
            invariant
                0 <= i <= n,
                n == line.time@.len(),
                tags == line.time@.map_values(|t: TimeTag| t.0),
                txt == line.text@,
                spec_insert_all(version_rep(lastv@), tags.skip(i as int), txt) == spec_insert_all(
                    d0.last(),
                    tags,
                    txt,
                ),
            decreases n - i,
        {
            let t = line.time[i];
            let ghost before = version_rep(lastv@);
            insert_line(&mut lastv, t, line.text.clone());
            proof {
                assert(tags.skip(i as int)[0] == t.0);
                assert(tags.skip(i as int).skip(1) =~= tags.skip(i + 1));
                assert(spec_insert_all(before, tags.skip(i as int), txt) == spec_insert_all(
                    spec_insert(before, t.0, txt),
                    tags.skip(i + 1),
                    txt,
                ));
            }
            i = i + 1;
        }
        proof {
            assert(tags.skip(n as int) =~= Seq::<u64>::empty());
        }
        doc.push(lastv);
        proof {
            assert(doc_rep(doc@) =~= spec_apply_line(d0, tags, line.text@));
        }
    }
}

impl Lrc {
    /// Parse a whole LRC text.
    pub fn from_reader(s: &str) -> (r: Lrc)
        ensures
            r.rep() == spec_from_reader(s@),
            r.wf(),
    {
        let mut doc: Vec<Vec<(TimeTag, String)>> = Vec::new();
        doc.push(Vec::new());
        proof {
            assert(doc_rep(doc@) =~= seq![Seq::<(u64, Seq<char>)>::empty()]) by {
                assert(doc_rep(doc@).len() == 1);
                assert(doc_rep(doc@)[0] =~= Seq::<(u64, Seq<char>)>::empty());
            }
        }
        let mut rem: &str = s;
        let mut rlen = rem.unicode_len();
        while rlen > 0
            invariant
                rlen == rem@.len(),
                doc@.len() > 0,
                spec_apply_lines(doc_rep(doc@), spec_lines(rem@)) == spec_from_reader(s@),
            decreases rlen,
        {
            proof {
                lemma_find_props(rem@, '\n');
            }
            let (line_raw, next_rem): (&str, &str) = match find_char(rem, '\n') {
                Some(i) => (rem.substring_char(0, i), rem.substring_char(i + 1, rlen)),
                None => (rem, rem.substring_char(rlen, rlen)),
            };
            let llen = line_raw.unicode_len();
            let line_str: &str = if llen > 0 && line_raw.get_char(llen - 1) == '\r' {
                let ls = line_raw.substring_char(0, llen - 1);
                proof {
                    assert(line_raw@.drop_last() =~= line_raw@.subrange(
                        0,
                        line_raw@.len() - 1,
                    ));
                }
                ls
            } else {
                line_raw
            };
            proof {
                assert(line_str@ == strip_cr(line_raw@));
                match find_s(rem@, '\n') {
                    Some(i) => {
                        assert(line_raw@ =~= rem@.take(i));
                        assert(next_rem@ =~= rem@.skip(i + 1));
                        assert(spec_lines(rem@) == seq![strip_cr(rem@.take(i))] + spec_lines(
                            rem@.skip(i + 1),
                        ));
                    },
                    None => {
                        assert(next_rem@ =~= Seq::<char>::empty());
                        assert(spec_lines(rem@) == seq![strip_cr(rem@)]);
                        assert(spec_lines(next_rem@) =~= Seq::<Seq<char>>::empty());
                    },
                }
                assert(spec_lines(rem@)[0] == line_str@);
                assert(spec_lines(rem@).skip(1) =~= spec_lines(next_rem@));
            }
            let parsed = LrcLine::from_str(line_str);
            apply_line(&mut doc, parsed);
            rem = next_rem;
            rlen = rem.unicode_len();
        }
        proof {
            assert(spec_lines(rem@) =~= Seq::<Seq<char>>::empty());
            assert(doc_rep(doc@) == spec_from_reader(s@));
            assert(doc_sorted(seq![Seq::<(u64, Seq<char>)>::empty()]));
            lemma_apply_lines_wf(seq![Seq::<(u64, Seq<char>)>::empty()], spec_lines(s@));
        }
        Lrc(doc)
    }
}


// ---------------------------------------------------------------------------
// Queries
// ---------------------------------------------------------------------------

/// The line of one version active at `t`: the entry nearest the end whose
/// time is at most `t` (the greatest such key once the version is sorted).
pub open spec fn version_active(v: Seq<(u64, Seq<char>)>, t: u64) -> Option<(u64, Seq<char>)>
    decreases v.len(),
{
    if v.len() == 0 {
        None
    } else if v.last().0 <= t {
        Some(v.last())
    } else {
        version_active(v.drop_last(), t)
    }
}

/// The next boundary of one version: the first entry whose time exceeds `t`
/// (the smallest such key once the version is sorted).
pub open spec fn version_next(v: Seq<(u64, Seq<char>)>, t: u64) -> Option<u64>
    decreases v.len(),
{
    if v.len() == 0 {
        None
    } else if v.first().0 > t {
        Some(v.first().0)
    } else {
        version_next(v.skip(1), t)
    }
}

pub open spec fn opt_min(a: Option<u64>, b: Option<u64>) -> Option<u64> {
    match (a, b) {
        (Option::None, x) => x,
        (Option::Some(x), Option::None) => Some(x),
        (Option::Some(x), Option::Some(y)) => if x <= y {
            Some(x)
        } else {
            Some(y)
        },
    }
}

/// The texts active at `t`, one per version that has an active line,
/// in version order.
pub open spec fn doc_texts(d: Seq<Seq<(u64, Seq<char>)>>, t: u64) -> Seq<Seq<char>>
    decreases d.len(),
{
    if d.len() == 0 {
        Seq::empty()
    } else {
        doc_texts(d.drop_last(), t) + match version_active(d.last(), t) {
            Some(e) => seq![e.1],
            None => Seq::empty(),
        }
    }
}

/// The earliest next boundary over all versions, if any version still has one.
pub open spec fn doc_next(d: Seq<Seq<(u64, Seq<char>)>>, t: u64) -> Option<u64>
    decreases d.len(),
{
    if d.len() == 0 {
        None
    } else {
        opt_min(doc_next(d.drop_last(), t), version_next(d.last(), t))
    }
}

/// The latest active time over all versions, if any version has started.
pub open spec fn doc_floor(d: Seq<Seq<(u64, Seq<char>)>>, t: u64) -> Option<u64>
    decreases d.len(),
{
    if d.len() == 0 {
        None
    } else {
        let f = doc_floor(d.drop_last(), t);
        match version_active(d.last(), t) {
            Some(e) => match f {
                None => Some(e.0),
                Some(b) => if e.0 > b {
                    Some(e.0)
                } else {
                    Some(b)
                },
            },
            None => f,
        }
    }
}

/// A backward scan that stopped at `j` has found the active line.
proof fn lemma_version_active_at(v: Seq<(u64, Seq<char>)>, t: u64, j: int)
    requires
        0 <= j <= v.len(),
        forall|k: int| j <= k < v.len() ==> v[k].0 > t,
        j > 0 ==> v[j - 1].0 <= t,
    ensures
        version_active(v, t) == if j > 0 {
            Some(v[j - 1])
        } else {
            None::<(u64, Seq<char>)>
        },
    decreases v.len(),
{
    if j < v.len() {
        assert(v[v.len() - 1].0 > t);
        assert(forall|k: int| j <= k < v.len() - 1 ==> v.drop_last()[k] == v[k]);
        if j > 0 {
            assert(v.drop_last()[j - 1] == v[j - 1]);
        }
        lemma_version_active_at(v.drop_last(), t, j);
    }
}

/// A forward scan that stopped at `i` has found the next boundary.
proof fn lemma_version_next_at(v: Seq<(u64, Seq<char>)>, t: u64, i: int)
    requires
        0 <= i <= v.len(),
        forall|k: int| 0 <= k < i ==> v[k].0 <= t,
    ensures
        version_next(v, t) == if i < v.len() && v[i].0 > t {
            Some(v[i].0)
        } else if i < v.len() {
            version_next(v.skip(i), t)
        } else {
            None::<u64>
        },
    decreases i,
{
    if i == 0 {
        if v.len() > 0 && !(v[0].0 > t) {
            assert(v.skip(0) =~= v);
        } else if v.len() > 0 {
            assert(v.first() == v[0]);
        }
    } else {
        assert(v[0].0 <= t);
        assert(forall|k: int| 0 <= k < i - 1 ==> v.skip(1)[k] == v[k + 1]);
        lemma_version_next_at(v.skip(1), t, i - 1);
        assert(v.skip(1).skip(i - 1) =~= v.skip(i));
        if i < v.len() {
            assert(v.skip(1)[i - 1] == v[i]);
        }
    }
}

impl Lrc {
    /// The lines to show at `time` (one per version that has started) and the
    /// earliest future boundary, if any version still has one.
    pub fn get(&self, time: &TimeTag) -> (r: (Vec<String>, Option<TimeTag>))
        ensures
            r.0@.map_values(|x: String| x@) == doc_texts(self.rep(), time.0),
            match r.1 {
                Some(tt) => doc_next(self.rep(), time.0) == Some(tt.0),
                None => doc_next(self.rep(), time.0) is None,
            },
    {
        let t = time.0;
        let n = self.0.len();
        let mut texts: Vec<String> = Vec::new();
        let mut next: Option<TimeTag> = None;
        let ghost rep = self.rep();
        proof {
            assert(texts@.map_values(|x: String| x@) =~= doc_texts(rep.take(0), t));
        }
        let mut k: usize = 0;
        while k < n
            invariant
                0 <= k <= n,
                n == self.0@.len(),
                rep == self.rep(),
                rep.len() == n,
                texts@.map_values(|x: String| x@) == doc_texts(rep.take(k as int), t),
                match next {
                    Some(tt) => doc_next(rep.take(k as int), t) == Some(tt.0),
                    None => doc_next(rep.take(k as int), t) is None,
                },
            decreases n - k,
        {
            let ver: &Vec<(TimeTag, String)> = &self.0[k];
            let ghost vr = rep[k as int];
            proof {
                assert(vr == version_rep(ver@));
                assert(forall|m: int| 0 <= m < ver@.len() ==> (#[trigger] vr[m]) == (
                    ver@[m].0.0,
                    ver@[m].1@,
                ));
            }
            let vlen = ver.len();
            // active line: scan from the end
            let mut j: usize = vlen;
            while j > 0 && ver[j - 1].0.0 > t
                invariant
                    0 <= j <= vlen,
                    vlen == ver@.len(),
                    vr == version_rep(ver@),
                    forall|m: int| j <= m < ver@.len() ==> ver@[m].0.0 > t,
                decreases j,
            {
                j = j - 1;
            }
            proof {
                assert(forall|m: int| j <= m < vr.len() ==> (#[trigger] vr[m]).0 > t);
                lemma_version_active_at(vr, t, j as int);
            }
            if j > 0 {
                texts.push(ver[j - 1].1.clone());
            }
            // next boundary: scan from the start
            let mut i: usize = 0;
            while i < vlen && ver[i].0.0 <= t
                invariant
                    0 <= i <= vlen,
                    vlen == ver@.len(),
                    vr == version_rep(ver@),
                    forall|m: int| 0 <= m < i ==> ver@[m].0.0 <= t,
                decreases vlen - i,
            {
                i = i + 1;
            }
            proof {
                assert(forall|m: int| 0 <= m < i ==> (#[trigger] vr[m]).0 <= t);
                lemma_version_next_at(vr, t, i as int);
            }
            let ghost old_next = next;
            if i < vlen {
                let cand = ver[i].0;
                next = match next {
                    None => Some(cand),
                    Some(cur) => if cand.0 < cur.0 {
                        Some(cand)
                    } else {
                        Some(cur)
                    },
                };
            }
            proof {
                assert(rep.take(k + 1).drop_last() =~= rep.take(k as int));
                assert(rep.take(k + 1).last() == vr);
                assert(texts@.map_values(|x: String| x@) =~= doc_texts(rep.take(k + 1), t));
            }
            k = k + 1;
        }
        proof {
            assert(rep.take(n as int) =~= rep);
        }
        (texts, next)
    }

    /// The time of the latest line at or before `time`, or `time` itself when
    /// no version has started yet.
    pub fn floor(&self, time: TimeTag) -> (r: TimeTag)
        ensures
            r.0 == match doc_floor(self.rep(), time.0) {
                Some(b) => b,
                None => time.0,
            },
    {
        let t = time.0;
        let n = self.0.len();
        let ghost rep = self.rep();
        let mut best: Option<u64> = None;
        let mut k: usize = 0;
        proof {
            assert(rep.take(0) =~= Seq::<Seq<(u64, Seq<char>)>>::empty());
        }
        while k < n
            invariant
                0 <= k <= n,
                n == self.0@.len(),
                rep == self.rep(),
                rep.len() == n,
                match best {
                    Some(b) => doc_floor(rep.take(k as int), t) == Some(b),
                    None => doc_floor(rep.take(k as int), t) is None,
                },
            decreases n - k,
        {
            let ver: &Vec<(TimeTag, String)> = &self.0[k];
            let ghost vr = rep[k as int];
            proof {
                assert(vr == version_rep(ver@));
                assert(forall|m: int| 0 <= m < ver@.len() ==> (#[trigger] vr[m]) == (
                    ver@[m].0.0,
                    ver@[m].1@,
                ));
            }
            let vlen = ver.len();
            let mut j: usize = vlen;
            while j > 0 && ver[j - 1].0.0 > t
                invariant
                    0 <= j <= vlen,
                    vlen == ver@.len(),
                    vr == version_rep(ver@),
                    forall|m: int| j <= m < ver@.len() ==> ver@[m].0.0 > t,
                decreases j,
            {
                j = j - 1;
            }
            proof {
                assert(forall|m: int| j <= m < vr.len() ==> (#[trigger] vr[m]).0 > t);
                lemma_version_active_at(vr, t, j as int);
            }
            if j > 0 {
                let key = ver[j - 1].0.0;
                best = match best {
                    None => Some(key),
                    Some(b) => if key > b {
                        Some(key)
                    } else {
                        Some(b)
                    },
                };
            }
            proof {
                assert(rep.take(k + 1).drop_last() =~= rep.take(k as int));
                assert(rep.take(k + 1).last() == vr);
            }
            k = k + 1;
        }
        proof {
            assert(rep.take(n as int) =~= rep);
        }
        match best {
            Some(b) => TimeTag(b),
            None => TimeTag(t),
        }
    }
}


// ---------------------------------------------------------------------------
// Paths and URLs
// ---------------------------------------------------------------------------

/// What `urlencoding::decode` yields on success: the percent-decoded text.
pub uninterp spec fn url_decoded(s: Seq<char>) -> Seq<char>;

/// Relies on `urlencoding::decode`: percent-decodes a UTF-8 string; its
/// result depends on the input alone, and a string without `%` comes back
/// unchanged.  `None` stands for its invalid-UTF-8 error.
#[verifier::external_body]
fn url_decode(s: &str) -> (r: Option<String>)
    ensures
        match r {
            Some(d) => d@ == url_decoded(s@) && (find_s(s@, '%') is None ==> d@ == s@),
            None => find_s(s@, '%') is Some,
        },
{
    match urlencoding::decode(s) {
        Ok(c) => Some(c.into_owned()),
        Err(_) => None,
    }
}

/// Whether `s` starts with the `file://` scheme.
fn has_file_scheme(s: &str) -> (r: bool)
    ensures
        r == (s@.len() >= 7 && s@.take(7) == "file://"@),
{
    proof {
        reveal_strlit("file://");
    }
    let len = s.unicode_len();
    if len < 7 {
        return false;
    }
    let r = s.get_char(0) == 'f' && s.get_char(1) == 'i' && s.get_char(2) == 'l' && s.get_char(3)
        == 'e' && s.get_char(4) == ':' && s.get_char(5) == '/' && s.get_char(6) == '/';
    proof {
        if r {
            assert(s@.take(7) =~= "file://"@);
        } else {
            assert(s@.take(7) != "file://"@) by {
                if s@.take(7) == "file://"@ {
                    assert(s@[0] == "file://"@[0]);
                    assert(s@[1] == "file://"@[1]);
                    assert(s@[2] == "file://"@[2]);
                    assert(s@[3] == "file://"@[3]);
                    assert(s@[4] == "file://"@[4]);
                    assert(s@[5] == "file://"@[5]);
                    assert(s@[6] == "file://"@[6]);
                }
            }
        }
    }
    r
}

/// Replace a path's extension with `lrc`: everything from the final dot of
/// the last path component on (a dot that starts the component does not
/// count) makes way for `.lrc`; a component without a dot just gains it.
pub open spec fn spec_lrc_path(p: Seq<char>) -> Seq<char> {
    let name_start: int = match rfind_s(p, '/') {
        Some(i) => i + 1,
        None => 0,
    };
    let name = p.skip(name_start);
    let stem_end: int = match rfind_s(name, '.') {
        Some(j) => if j > 0 {
            name_start + j
        } else {
            p.len() as int
        },
        None => p.len() as int,
    };
    p.take(stem_end) + ".lrc"@
}

impl Lrc {
    /// The local filesystem path behind a `file://` URL, percent-decoded.
    /// Any other scheme, and text the decoder rejects, yield `None`.
    pub fn audio_url_to_path(url: &str) -> (r: Option<String>)
        ensures
            match r {
                Some(p) => url_decoded(url@).len() >= 7 && url_decoded(url@).take(7) == "file://"@
                    && p@ == url_decoded(url@).skip(7),
                None => find_s(url@, '%') is Some || !(url_decoded(url@).len() >= 7
                    && url_decoded(url@).take(7) == "file://"@),
            },
            (find_s(url@, '%') is None && url@.len() >= 7 && url@.take(7) == "file://"@)
                ==> (r matches Some(p) && p@ == url@.skip(7)),
    {
        match url_decode(url) {
            None => None,
            Some(d) => {
                if has_file_scheme(d.as_str()) {
                    let dlen = d.as_str().unicode_len();
                    Some(d.as_str().substring_char(7, dlen).to_owned())
                } else {
                    None
                }
            },
        }
    }

    /// The sidecar lyrics path beside an audio file: same path, `.lrc`
    /// extension.
    pub fn audio_path_to_lrc(path: &str) -> (r: String)
        ensures
            r@ == spec_lrc_path(path@),
    {
        let len = path.unicode_len();
        proof {
            crate::text::lemma_rfind_props(path@, '/');
        }
        let name_start: usize = match crate::text::rfind_char(path, '/') {
            Some(i) => i + 1,
            None => 0,
        };
        let name = path.substring_char(name_start, len);
        proof {
            crate::text::lemma_rfind_props(name@, '.');
        }
        let stem_end: usize = match crate::text::rfind_char(name, '.') {
            Some(j) => if j > 0 {
                name_start + j
            } else {
                len
            },
            None => len,
        };
        let mut out = path.substring_char(0, stem_end).to_owned();
        out.append(".lrc");
        out
    }
}

} // verus!
