//! The NetEase lyrics provider's compute side: parsing its `[mm:ss.xxx]`
//! lyric lines and the edit distance its fuzzy matching rests on.  The API
//! calls themselves live in the embedding layer.

use vstd::prelude::*;

use crate::lrc::{LrcLine, TimeTag};
use crate::text::{all_digits, digits_val, find_s, find_char, parse_digits, trim_s, trim,
    lemma_find_props, lemma_digits_val_bound};

verus! {

/// A NetEase lyric line: `[mm:ss.xxx]text`, the fraction in milliseconds.
/// The line parses when it is not blank, a closing bracket follows the
/// opening one, the tag splits at one colon and one dot into three plain
/// numbers, and the resulting time fits the microsecond range.
pub open spec fn spec_netease_line(s: Seq<char>) -> Option<(u64, Seq<char>)> {
    if trim_s(s).len() == 0 {
        None
    } else {
        match find_s(s, ']') {
            None => None,
            Some(i) => if i < 1 {
                None
            } else {
                let tag = s.subrange(1, i);
                let text = s.skip(i + 1);
                match find_s(tag, ':') {
                    None => None,
                    Some(c) => {
                        let mins = tag.take(c);
                        let rest = tag.skip(c + 1);
                        if find_s(rest, ':') is Some {
                            None
                        } else {
                            match find_s(rest, '.') {
                                None => None,
                                Some(d) => {
                                    let secs = rest.take(d);
                                    let frac = rest.skip(d + 1);
                                    if find_s(frac, '.') is Some {
                                        None
                                    } else if !(mins.len() > 0 && all_digits(mins) && digits_val(
                                        mins,
                                    ) <= u64::MAX && secs.len() > 0 && all_digits(secs)
                                        && digits_val(secs) <= u64::MAX && frac.len() > 0
                                        && all_digits(frac) && digits_val(frac) <= u64::MAX) {
                                        None
                                    } else {
                                        let micros = (digits_val(mins) * 60_000 + digits_val(secs)
                                            * 1_000 + digits_val(frac)) * 1_000;
                                        if micros <= u64::MAX {
                                            Some((micros as u64, text))
                                        } else {
                                            None
                                        }
                                    }
                                },
                            }
                        }
                    },
                }
            },
        }
    }
}

/// Parse one NetEase lyric line into a timed line.
pub fn parse_netease_lyric_line(line: &str) -> (r: Option<LrcLine>)
    ensures
        match r {
            Some(l) => (match spec_netease_line(line@) {
                Some(p) => l.time@.len() == 1 && l.time@[0].0 == p.0 && l.text@ == p.1,
                None => false,
            }),
            None => spec_netease_line(line@) is None,
        },
{
    let len = line.unicode_len();
    if trim(line).unicode_len() == 0 {
        return None;
    }
    proof {
        lemma_find_props(line@, ']');
    }
    let i = match find_char(line, ']') {
        Some(i) => i,
        None => {
            return None;
        },
    };
    if i < 1 {
        return None;
    }
    let tag = line.substring_char(1, i);
    let text = line.substring_char(i + 1, len);
    proof {
        lemma_find_props(tag@, ':');
    }
    let c = match find_char(tag, ':') {
        Some(c) => c,
        None => {
            return None;
        },
    };
    let taglen = i - 1;
    let mins = tag.substring_char(0, c);
    let rest = tag.substring_char(c + 1, taglen);
    if find_char(rest, ':').is_some() {
        return None;
    }
    proof {
        lemma_find_props(rest@, '.');
    }
    let d = match find_char(rest, '.') {
        Some(d) => d,
        None => {
            return None;
        },
    };
    let restlen = taglen - c - 1;
    let secs = rest.substring_char(0, d);
    let frac = rest.substring_char(d + 1, restlen);
    if find_char(frac, '.').is_some() {
        return None;
    }
    let m = match parse_digits(mins) {
        Some(v) => v,
        None => {
            proof {
                if mins@.len() > 0 && all_digits(mins@) {
                    lemma_digits_val_bound(mins@);
                }
            }
            return None;
        },
    };
    let sv = match parse_digits(secs) {
        Some(v) => v,
        None => {
            proof {
                if secs@.len() > 0 && all_digits(secs@) {
                    lemma_digits_val_bound(secs@);
                }
            }
            return None;
        },
    };
    let f = match parse_digits(frac) {
        Some(v) => v,
        None => {
            proof {
                if frac@.len() > 0 && all_digits(frac@) {
                    lemma_digits_val_bound(frac@);
                }
            }
            return None;
        },
    };
    let micros: u128 = (m as u128 * 60_000 + sv as u128 * 1_000 + f as u128) * 1_000;
    if micros > u64::MAX as u128 {
        return None;
    }
    let mut time: Vec<TimeTag> = Vec::new();
    time.push(TimeTag(micros as u64));
    proof {
        assert(time@.map_values(|t: TimeTag| t.0) =~= seq![micros as u64]);
    }
    Some(LrcLine { time, text: text.to_owned() })
}

/// The edit distance between two texts: insertions, deletions and
/// replacements, one each.
pub open spec fn spec_levenshtein(a: Seq<char>, b: Seq<char>) -> int
    decreases a.len() + b.len(),
{
    if a.len() == 0 {
        b.len() as int
    } else if b.len() == 0 {
        a.len() as int
    } else {
        let del = spec_levenshtein(a.drop_last(), b) + 1;
        let ins = spec_levenshtein(a, b.drop_last()) + 1;
        let sub = spec_levenshtein(a.drop_last(), b.drop_last()) + if a.last() == b.last() {
            0int
        } else {
            1int
        };
        let m = if del <= ins {
            del
        } else {
            ins
        };
        if m <= sub {
            m
        } else {
            sub
        }
    }
}

/// The distance never exceeds the two lengths together.
proof fn lemma_levenshtein_bound(a: Seq<char>, b: Seq<char>)
    ensures
        0 <= spec_levenshtein(a, b) <= a.len() + b.len(),
    decreases a.len() + b.len(),
{
    if a.len() > 0 && b.len() > 0 {
        lemma_levenshtein_bound(a.drop_last(), b);
        lemma_levenshtein_bound(a, b.drop_last());
        lemma_levenshtein_bound(a.drop_last(), b.drop_last());
    }
}

/// The edit distance between two texts.
pub fn levenshtein_distance(a: &str, b: &str) -> (r: usize)
    requires
        a@.len() + b@.len() < usize::MAX,
    ensures
        r == spec_levenshtein(a@, b@),
{
    let alen = a.unicode_len();
    let blen = b.unicode_len();
    if alen == 0 {
        return blen;
    }
    if blen == 0 {
        return alen;
    }
    let mut rows: Vec<Vec<usize>> = Vec::new();
    let mut row0: Vec<usize> = Vec::new();
    let mut j: usize = 0;
    while j <= blen
        invariant
            0 <= j <= blen + 1,
            blen == b@.len(),
            blen < usize::MAX,
            row0@.len() == j,
            forall|k: int| 0 <= k < j ==> row0@[k] == k,
        decreases blen + 1 - j,
    {
        row0.push(j);
        j = j + 1;
    }
    proof {
        assert(forall|k: int|
            0 <= k <= b@.len() ==> spec_levenshtein(a@.take(0), b@.take(k)) == k) by {
            assert(forall|k: int| 0 <= k <= b@.len() ==> (a@.take(0).len() == 0 && b@.take(
                k,
            ).len() == k));
        }
    }
    rows.push(row0);
    let mut i: usize = 1;
    while i <= alen
        invariant
            1 <= i <= alen + 1,
            alen == a@.len(),
            blen == b@.len(),
            alen + blen < usize::MAX,
            1 <= blen,
            rows@.len() == i,
            forall|ii: int|
                0 <= ii < i ==> (#[trigger] rows@[ii])@.len() == blen + 1,
            forall|ii: int, jj: int|
                0 <= ii < i && 0 <= jj <= blen ==> #[trigger] (rows@[ii])@[jj]
                    == spec_levenshtein(a@.take(ii), b@.take(jj)),
        decreases alen + 1 - i,
    {
        let mut cur: Vec<usize> = Vec::new();
        cur.push(i);
        proof {
            assert(a@.take(i as int).len() == i);
            assert(b@.take(0).len() == 0);
            assert(spec_levenshtein(a@.take(i as int), b@.take(0)) == i);
            lemma_levenshtein_bound(a@, b@);
        }
        let mut jj: usize = 1;
        while jj <= blen
            invariant
                1 <= jj <= blen + 1,
                1 <= i <= alen,
                alen == a@.len(),
                blen == b@.len(),
                alen + blen < usize::MAX,
                rows@.len() == i,
                forall|ii: int|
                    0 <= ii < i ==> (#[trigger] rows@[ii])@.len() == blen + 1,
                forall|ii: int, kk: int|
                    0 <= ii < i && 0 <= kk <= blen ==> #[trigger] (rows@[ii])@[kk]
                        == spec_levenshtein(a@.take(ii), b@.take(kk)),
                cur@.len() == jj,
                forall|kk: int|
                    0 <= kk < jj ==> cur@[kk] == spec_levenshtein(
                        a@.take(i as int),
                        b@.take(kk),
                    ),
            decreases blen + 1 - jj,
        {
            let cost: usize = if a.get_char(i - 1) == b.get_char(jj - 1) {
                0
            } else {
                1
            };
            proof {
                lemma_levenshtein_bound(a@.take(i - 1), b@.take(jj as int));
                lemma_levenshtein_bound(a@.take(i as int), b@.take(jj - 1));
                lemma_levenshtein_bound(a@.take(i - 1), b@.take(jj - 1));
                assert(a@.take(i as int).drop_last() =~= a@.take(i - 1));
                assert(b@.take(jj as int).drop_last() =~= b@.take(jj - 1));
                assert(a@.take(i as int).last() == a@[i - 1]);
                assert(b@.take(jj as int).last() == b@[jj - 1]);
            }
            let del = rows[i - 1][jj] + 1;
            let ins = cur[jj - 1] + 1;
            let sub = rows[i - 1][jj - 1] + cost;
            let m = if del <= ins {
                del
            } else {
                ins
            };
            let v = if m <= sub {
                m
            } else {
                sub
            };
            cur.push(v);
            jj = jj + 1;
        }
        rows.push(cur);
        i = i + 1;
    }
    proof {
        assert(a@.take(alen as int) =~= a@);
        assert(b@.take(blen as int) =~= b@);
    }
    rows[alen][blen]
}

} // verus!
