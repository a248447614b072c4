//! Synced-lyrics parsing and lookup.
//!
//! The LRC line format is `[MM:SS.xx] text` (or `[MM:SS.xxx] text`): a
//! timestamp of plain decimal digits in brackets, then the line's words.
//! Parsing collects every line with a valid timestamp and non-empty text and
//! orders them by time; lookup finds the line being sung at a playback
//! position by binary search.

use vstd::prelude::*;
use vstd::seq_lib::*;
use vstd::string::StrSliceExecFns;

use crate::text::{
    all_digits, chars_to_string, dec_value, first_idx, parse_u64_chars, str_to_chars, subvec,
    find_char_from, trim_chars, trim_spec,
};
use vstd::string::StringExecFns;

verus! {

/// A single line of lyrics with its timestamp.
#[derive(Debug, Clone)]
pub struct LyricLine {
    pub timestamp_ms: u64,
    pub text: String,
}

/// Parsed synced lyrics for a track, ordered by timestamp.
#[derive(Debug, Clone)]
pub struct SyncedLyrics {
    pub lines: Vec<LyricLine>,
}

/// Lyrics fetch status for UI feedback.
#[derive(Debug, Clone)]
pub enum LyricsStatus {
    Loading,
    Available(SyncedLyrics),
    NotFound,
    Error(String),
}

/// The value of a run of decimal digits, when it is non-empty, all digits,
/// and fits a `u64`.
pub open spec fn parse_number_spec(s: Seq<char>) -> Option<int> {
    if s.len() > 0 && all_digits(s, s.len() as int) && dec_value(s, s.len() as int) <= u64::MAX {
        Some(dec_value(s, s.len() as int))
    } else {
        None
    }
}

/// Milliseconds encoded by the fraction digits: two digits are centiseconds,
/// three are milliseconds, any other length counts as zero.
pub open spec fn frac_ms_spec(f: Seq<char>, fv: int) -> int {
    if f.len() == 2 {
        fv * 10
    } else if f.len() == 3 {
        fv
    } else {
        0
    }
}

/// The timestamp in milliseconds.
pub open spec fn timestamp_of(mv: int, sv: int, fm: int) -> int {
    (mv * 60 + sv) * 1000 + fm
}

/// One LRC line: `[MM:SS.xx] text` or `[MM:SS.xxx] text`, with plain decimal
/// digit fields, parsed to (milliseconds, trimmed text). Lines that do not
/// fit the shape, or whose timestamp does not fit a `u64`, parse to nothing.
pub open spec fn parse_timestamp_spec(s: Seq<char>) -> Option<(int, Seq<char>)> {
    if s.len() == 0 || s[0] != '[' {
        None
    } else {
        let rb = first_idx(s, ']');
        if rb == s.len() {
            None
        } else {
            let inner = s.subrange(1, rb);
            let text = trim_spec(s.subrange(rb + 1, s.len() as int));
            let p = first_idx(inner, ':');
            if p == inner.len() {
                None
            } else {
                let mpart = inner.subrange(0, p);
                let rest = inner.subrange(p + 1, inner.len() as int);
                if first_idx(rest, ':') < rest.len() {
                    None
                } else {
                    let q = first_idx(rest, '.');
                    if q == rest.len() {
                        None
                    } else {
                        let spart = rest.subrange(0, q);
                        let fpart = rest.subrange(q + 1, rest.len() as int);
                        if first_idx(fpart, '.') < fpart.len() {
                            None
                        } else {
                            match (parse_number_spec(mpart), parse_number_spec(spart),
                            parse_number_spec(fpart)) {
                                (Some(mv), Some(sv), Some(fv)) => {
                                    let ts = timestamp_of(mv, sv, frac_ms_spec(fpart, fv));
                                    if ts <= u64::MAX {
                                        Some((ts, text))
                                    } else {
                                        None
                                    }
                                },
                                _ => None,
                            }
                        }
                    }
                }
            }
        }
    }
}

/// The input split at newlines, each segment without its terminator.
pub open spec fn split_lines_spec(s: Seq<char>) -> Seq<Seq<char>>
    decreases s.len(),
{
    let p = first_idx(s, '\n');
    if 0 <= p < s.len() {
        seq![s.take(p)] + split_lines_spec(s.skip(p + 1))
    } else {
        seq![s]
    }
}

/// The (timestamp, text) pairs of the segments that parse and carry
/// non-empty text, in input order.
pub open spec fn parsed_entries(ls: Seq<Seq<char>>) -> Seq<(int, Seq<char>)>
    decreases ls.len(),
{
    if ls.len() == 0 {
        Seq::empty()
    } else {
        let rest = parsed_entries(ls.skip(1));
        match parse_timestamp_spec(trim_spec(ls[0])) {
            Some(e) => if e.1.len() > 0 {
                seq![e] + rest
            } else {
                rest
            },
            None => rest,
        }
    }
}

/// The abstract content of a lyric line.
pub open spec fn entry_of(l: LyricLine) -> (int, Seq<char>) {
    (l.timestamp_ms as int, l.text@)
}

/// Lines are in non-decreasing timestamp order.
pub open spec fn lines_sorted(ls: Seq<LyricLine>) -> bool {
    forall|i: int, j: int|
        0 <= i <= j < ls.len() ==> #[trigger] ls[i].timestamp_ms <= #[trigger] ls[j].timestamp_ms
}

/// Parses one trimmed LRC line held as characters.
#[verifier::rlimit(80)]
fn parse_timestamp_chars(v: &Vec<char>) -> (r: Option<(u64, String)>)
    ensures
        match r {
            Some(e) => parse_timestamp_spec(v@) == Some((e.0 as int, e.1@)),
            None => parse_timestamp_spec(v@) is None,
        },
{
    let len = v.len();
    if len == 0 || v[0] != '[' {
        return None;
    }
    let rb = find_char_from(v, ']', 0, len);
    proof {
        assert(v@.subrange(0, len as int) =~= v@);
    }
    if rb == len {
        return None;
    }
    let inner = subvec(v, 1, rb);
    let inner_len = inner.len();
    proof {
        assert(inner@.subrange(0, inner_len as int) =~= inner@);
    }
    let p = find_char_from(&inner, ':', 0, inner_len);
    if p == inner_len {
        return None;
    }
    let mpart = subvec(&inner, 0, p);
    let rest = subvec(&inner, p + 1, inner_len);
    let rest_len = rest.len();
    proof {
        assert(rest@.subrange(0, rest_len as int) =~= rest@);
    }
    if find_char_from(&rest, ':', 0, rest_len) < rest_len {
        return None;
    }
    let q = find_char_from(&rest, '.', 0, rest_len);
    if q == rest_len {
        return None;
    }
    let spart = subvec(&rest, 0, q);
    let fpart = subvec(&rest, q + 1, rest_len);
    let fpart_len = fpart.len();
    proof {
        assert(fpart@.subrange(0, fpart_len as int) =~= fpart@);
    }
    if find_char_from(&fpart, '.', 0, fpart_len) < fpart_len {
        return None;
    }
    let mv = match parse_u64_chars(&mpart) {
        Some(x) => x,
        None => {
            return None;
        },
    };
    let sv = match parse_u64_chars(&spart) {
        Some(x) => x,
        None => {
            return None;
        },
    };
    let fv = match parse_u64_chars(&fpart) {
        Some(x) => x,
        None => {
            return None;
        },
    };
    let fm: u64 = if fpart_len == 2 {
        proof {
            assert(dec_value(fpart@, 2) == dec_value(fpart@, 1) * 10 + crate::text::digit_val(
                fpart@[1],
            ));
            assert(dec_value(fpart@, 1) == dec_value(fpart@, 0) * 10 + crate::text::digit_val(
                fpart@[0],
            ));
        }
        fv * 10
    } else if fpart_len == 3 {
        fv
    } else {
        0
    };
    let a = match mv.checked_mul(60) {
        Some(x) => x,
        None => {
            proof {
                lemma_timestamp_grows(mv as int, sv as int, fm as int);
            }
            return None;
        },
    };
    let b = match a.checked_add(sv) {
        Some(x) => x,
        None => {
            proof {
                lemma_timestamp_grows(mv as int, sv as int, fm as int);
            }
            return None;
        },
    };
    let c = match b.checked_mul(1000) {
        Some(x) => x,
        None => {
            proof {
                lemma_timestamp_grows(mv as int, sv as int, fm as int);
            }
            return None;
        },
    };
    let ts = match c.checked_add(fm) {
        Some(x) => x,
        None => {
            proof {
                lemma_timestamp_grows(mv as int, sv as int, fm as int);
            }
            return None;
        },
    };
    let tail = subvec(v, rb + 1, len);
    let trimmed = trim_chars(&tail);
    let text = chars_to_string(&trimmed);
    Some((ts, text))
}

/// The timestamp grows with each of its parts: used to show that a checked
/// arithmetic failure means the timestamp cannot fit a `u64`.
proof fn lemma_timestamp_grows(mv: int, sv: int, fm: int)
    requires
        0 <= mv,
        0 <= sv,
        0 <= fm,
    ensures
        timestamp_of(mv, sv, fm) >= mv * 60,
        timestamp_of(mv, sv, fm) >= mv * 60 + sv,
        timestamp_of(mv, sv, fm) >= (mv * 60 + sv) * 1000,
{
    assert((mv * 60 + sv) * 1000 >= mv * 60 + sv) by (nonlinear_arith)
        requires
            0 <= mv,
            0 <= sv,
    ;
}

/// Public form of the line parser, for callers holding a string.
pub fn parse_timestamp_line(line: &str) -> (r: Option<(u64, String)>)
    ensures
        match r {
            Some(e) => parse_timestamp_spec(line@) == Some((e.0 as int, e.1@)),
            None => parse_timestamp_spec(line@) is None,
        },
{
    let chars = str_to_chars(line);
    parse_timestamp_chars(&chars)
}

/// The abstract contents of a run of lyric lines.
pub open spec fn entries_of(ls: Seq<LyricLine>) -> Seq<(int, Seq<char>)> {
    ls.map_values(|l: LyricLine| entry_of(l))
}

/// Sorts lyric lines by timestamp (insertion sort). Keeps exactly the same
/// lines, as a multiset of (timestamp, text) pairs.
fn sort_by_timestamp(v: &mut Vec<LyricLine>)
    ensures
        final(v)@.len() == old(v)@.len(),
        lines_sorted(final(v)@),
        entries_of(final(v)@).to_multiset() == entries_of(old(v)@).to_multiset(),
{
    broadcast use vstd::seq_lib::to_multiset_insert;
    broadcast use vstd::seq_lib::group_to_multiset_ensures;

    let len = v.len();
    if len <= 1 {
        return ;
    }
    let mut i: usize = 1;
    while i < len
        invariant
            1 <= i <= len,
            len == v@.len(),
            lines_sorted(v@.take(i as int)),
            entries_of(v@).to_multiset() == entries_of(old(v)@).to_multiset(),
        decreases len - i,
    {
        let ghost before = v@;
        let x = v.remove(i);
        proof {
            assert(entries_of(before).remove(i as int) =~= entries_of(v@));
            assert(entries_of(before)[i as int] == entry_of(x));
            entries_of(before).to_multiset_ensures();
            assert(entries_of(before).remove(i as int).to_multiset() == entries_of(
                before,
            ).to_multiset().remove(entries_of(before)[i as int]));
        }
        let mut j: usize = 0;
        while j < i && v[j].timestamp_ms <= x.timestamp_ms
            invariant
                j <= i,
                i < len,
                len == v@.len() + 1,
                forall|q: int| 0 <= q < j ==> #[trigger] v@[q].timestamp_ms <= x.timestamp_ms,
            decreases i - j,
        {
            j = j + 1;
        }
        let ghost removed = v@;
        let ghost xl = x;
        v.insert(j, x);
        proof {
            assert(entries_of(removed).insert(j as int, entry_of(xl)) =~= entries_of(v@));
            vstd::seq_lib::to_multiset_insert(entries_of(removed), j as int, entry_of(xl));
            assert(entries_of(removed).insert(j as int, entry_of(xl)).to_multiset() == entries_of(
                removed,
            ).to_multiset().insert(entry_of(xl)));
            assert(entries_of(before).contains(entry_of(xl))) by {
                assert(entries_of(before)[i as int] == entry_of(xl));
            }
            assert(entries_of(before).to_multiset().count(entry_of(xl)) > 0);
            assert(entries_of(before).to_multiset().remove(entry_of(xl)).insert(entry_of(xl))
                =~= entries_of(before).to_multiset());
            // Element mapping of the insertion, for the sortedness proof.
            before.remove_ensures(i as int);
            removed.insert_ensures(j as int, xl);
            assert(forall|q: int| 0 <= q < i ==> #[trigger] removed[q] == before[q]);
            assert forall|a: int, b: int|
                0 <= a <= b < i + 1 implies #[trigger] v@.take(i + 1)[a].timestamp_ms
                <= #[trigger] v@.take(i + 1)[b].timestamp_ms by {
                assert(forall|q: int|
                    0 <= q < j ==> #[trigger] v@[q] == before[q]);
                assert(v@[j as int] == xl);
                assert(forall|q: int|
                    j < q <= i ==> #[trigger] v@[q] == before[q - 1]);
                assert forall|q: int| 0 <= q < j implies #[trigger] before[q].timestamp_ms
                    <= xl.timestamp_ms by {
                    assert(removed[q].timestamp_ms <= xl.timestamp_ms);
                }
                if j < i {
                    assert(before[j as int].timestamp_ms > xl.timestamp_ms);
                }
            }
        }
        i = i + 1;
    }
    proof {
        assert(v@.take(len as int) =~= v@);
    }
}

impl SyncedLyrics {
    /// Parses a whole LRC text: every line with a valid timestamp and
    /// non-empty words becomes one lyric line, and the result is ordered by
    /// timestamp. Returns nothing when no line qualifies.
    pub fn parse(lrc_text: &str) -> (r: Option<SyncedLyrics>)
        ensures
            match r {
                Some(ly) => {
                    &&& parsed_entries(split_lines_spec(lrc_text@)).len() > 0
                    &&& ly.lines@.len() == parsed_entries(split_lines_spec(lrc_text@)).len()
                    &&& lines_sorted(ly.lines@)
                    &&& entries_of(ly.lines@).to_multiset() == parsed_entries(
                        split_lines_spec(lrc_text@),
                    ).to_multiset()
                },
                None => parsed_entries(split_lines_spec(lrc_text@)).len() == 0,
            },
    {
        let chars = str_to_chars(lrc_text);
        let len = chars.len();
        let ghost total = parsed_entries(split_lines_spec(chars@));
        let mut lines: Vec<LyricLine> = Vec::new();
        let mut pos: usize = 0;
        let mut done = false;
        proof {
            assert(chars@.skip(0) =~= chars@);
            assert(entries_of(lines@) =~= Seq::<(int, Seq<char>)>::empty());
            assert(Seq::<(int, Seq<char>)>::empty() + total =~= total);
        }
        while !done
            invariant
                pos <= len,
                len == chars@.len(),
                chars@ == lrc_text@,
                total == parsed_entries(split_lines_spec(chars@)),
                !done ==> entries_of(lines@) + parsed_entries(
                    split_lines_spec(chars@.skip(pos as int)),
                ) == total,
                done ==> entries_of(lines@) == total,
            decreases (if done { 0int } else { len - pos + 1 }),
        {
            let nl = find_char_from(&chars, '\n', pos, len);
            let segment = subvec(&chars, pos, nl);
            let ghost sub = chars@.skip(pos as int);
            let ghost ls = split_lines_spec(sub);
            proof {
                assert(chars@.subrange(pos as int, len as int) =~= sub);
                crate::text::lemma_first_idx(sub, '\n');
                assert(first_idx(sub, '\n') == nl - pos);
                if nl < len {
                    assert(sub.take(nl - pos) =~= segment@);
                    assert(sub.skip(nl - pos + 1) =~= chars@.skip(nl + 1));
                    assert(ls == seq![segment@] + split_lines_spec(chars@.skip(nl + 1)));
                    assert(ls[0] == segment@);
                    assert(ls.skip(1) =~~= split_lines_spec(chars@.skip(nl + 1)));
                } else {
                    assert(segment@ =~= sub);
                    assert(ls == seq![sub]);
                    assert(ls[0] == segment@);
                    assert(ls.skip(1) =~~= Seq::<Seq<char>>::empty());
                    assert(parsed_entries(ls.skip(1)) =~~= Seq::<(int, Seq<char>)>::empty());
                }
            }
            let trimmed = trim_chars(&segment);
            let ghost lines_before = lines@;
            let ghost rest_entries = parsed_entries(ls.skip(1));
            match parse_timestamp_chars(&trimmed) {
                Some(entry) => {
                    let keep = !entry.1.as_str().is_empty();
                    let ghost e = (entry.0 as int, entry.1@);
                    proof {
                        assert(trimmed@ == trim_spec(ls[0]));
                        assert(parse_timestamp_spec(trim_spec(ls[0])) == Some(e));
                    }
                    if keep {
                        lines.push(LyricLine { timestamp_ms: entry.0, text: entry.1 });
                        proof {
                            assert(lines@ =~= lines_before.push(lines@[lines@.len() - 1]));
                            assert(entries_of(lines@) =~~= entries_of(lines_before).push(e));
                            assert(parsed_entries(ls) == seq![e] + rest_entries);
                            assert(entries_of(lines_before).push(e) + rest_entries
                                =~~= entries_of(lines_before) + (seq![e] + rest_entries));
                        }
                    } else {
                        proof {
                            assert(e.1.len() == 0);
                            assert(parsed_entries(ls) == rest_entries);
                        }
                    }
                },
                None => {
                    proof {
                        assert(trimmed@ == trim_spec(ls[0]));
                        assert(parsed_entries(ls) == rest_entries);
                    }
                },
            }
            if nl < len {
                pos = nl + 1;
            } else {
                proof {
                    assert(entries_of(lines@) + rest_entries =~~= entries_of(lines@));
                }
                done = true;
            }
        }
        if lines.len() == 0 {
            proof {
                assert(entries_of(lines@) =~= Seq::<(int, Seq<char>)>::empty());
            }
            return None;
        }
        sort_by_timestamp(&mut lines);
        Some(SyncedLyrics { lines })
    }

    /// The index of the line being sung at `progress_ms`: the last line whose
    /// timestamp is at or before the position, or nothing while still ahead
    /// of the first line (or with no lines at all). Binary search.
    pub fn current_line_index(&self, progress_ms: u64) -> (r: Option<usize>)
        requires
            lines_sorted(self.lines@),
        ensures
            match r {
                Some(i) => {
                    &&& i < self.lines@.len()
                    &&& self.lines@[i as int].timestamp_ms <= progress_ms
                    &&& i + 1 < self.lines@.len() ==> self.lines@[i + 1].timestamp_ms > progress_ms
                },
                None => self.lines@.len() == 0 || self.lines@[0].timestamp_ms > progress_ms,
            },
    {
        let len = self.lines.len();
        if len == 0 {
            return None;
        }
        let mut lo: usize = 0;
        let mut hi: usize = len;
        while lo < hi
            invariant
                lo <= hi <= len,
                len == self.lines@.len(),
                lines_sorted(self.lines@),
                forall|q: int| 0 <= q < lo ==> #[trigger] self.lines@[q].timestamp_ms <= progress_ms,
                forall|q: int| hi <= q < len ==> #[trigger] self.lines@[q].timestamp_ms > progress_ms,
            decreases hi - lo,
        {
            let mid = lo + (hi - lo) / 2;
            if self.lines[mid].timestamp_ms <= progress_ms {
                proof {
                    assert(forall|q: int|
                        0 <= q <= mid ==> #[trigger] self.lines@[q].timestamp_ms <= progress_ms);
                }
                lo = mid + 1;
            } else {
                hi = mid;
            }
        }
        if lo == 0 {
            None
        } else {
            Some(lo - 1)
        }
    }
}


/// What the URL encoder returns for a given text: percent-encoding depends on
/// the characters alone.
pub uninterp spec fn url_encoded(s: Seq<char>) -> Seq<char>;

/// Relies on urlencoding::encode: percent-encodes every byte except
/// alphanumerics and `-`, `_`, `.`, `~`; the result is a function of the
/// input text alone.
#[verifier::external_body]
fn url_encode(s: &str) -> (r: String)
    ensures
        r@ == url_encoded(s@),
        s@.len() == 0 ==> r@.len() == 0,
{
    urlencoding::encode(s).into_owned()
}

/// The decimal digits of `n`, most significant first.
pub open spec fn dec_digits(n: nat) -> Seq<char>
    decreases n,
{
    if n < 10 {
        seq![(((48 + n) as u8) as char)]
    } else {
        dec_digits(n / 10).push((((48 + n % 10) as u8) as char))
    }
}

/// Appends the decimal digits of `n` to `out`.
fn push_decimal(n: u64, out: &mut Vec<char>)
    ensures
        final(out)@ == old(out)@ + dec_digits(n as nat),
    decreases n,
{
    if n >= 10 {
        push_decimal(n / 10, out);
    }
    let ghost mid = out@;
    let d: u8 = 48 + (n % 10) as u8;
    out.push(d as char);
    proof {
        if n < 10 {
            assert(out@ =~= old(out)@ + dec_digits(n as nat));
        } else {
            assert(mid == old(out)@ + dec_digits((n / 10) as nat));
            assert(out@ =~= old(out)@ + dec_digits(n as nat));
        }
    }
}

/// `n` written in decimal.
pub fn u64_to_decimal(n: u64) -> (r: String)
    ensures
        r@ == dec_digits(n as nat),
{
    let mut digits: Vec<char> = Vec::new();
    push_decimal(n, &mut digits);
    proof {
        assert(digits@ =~= dec_digits(n as nat));
    }
    chars_to_string(&digits)
}

/// The lyrics service's exact-match query for a track: every text field
/// percent-encoded, the duration in whole seconds.
pub fn build_lyrics_url(track: &str, artist: &str, album: &str, duration_secs: u64) -> (r: String)
    ensures
        r@ == "https://lrclib.net/api/get?track_name="@ + url_encoded(track@)
            + "&artist_name="@ + url_encoded(artist@) + "&album_name="@ + url_encoded(album@)
            + "&duration="@ + dec_digits(duration_secs as nat),
{
    let mut url = String::from_str("https://lrclib.net/api/get?track_name=");
    let t = url_encode(track);
    url.append(t.as_str());
    url.append("&artist_name=");
    let a = url_encode(artist);
    url.append(a.as_str());
    url.append("&album_name=");
    let b = url_encode(album);
    url.append(b.as_str());
    url.append("&duration=");
    let d = u64_to_decimal(duration_secs);
    url.append(d.as_str());
    url
}

/// The lyrics service's search query, the fallback when the exact match
/// finds nothing.
pub fn build_lyrics_search_url(track: &str, artist: &str) -> (r: String)
    ensures
        r@ == "https://lrclib.net/api/search?track_name="@ + url_encoded(track@)
            + "&artist_name="@ + url_encoded(artist@),
{
    let mut url = String::from_str("https://lrclib.net/api/search?track_name=");
    let t = url_encode(track);
    url.append(t.as_str());
    url.append("&artist_name=");
    let a = url_encode(artist);
    url.append(a.as_str());
    url
}

} // verus!
