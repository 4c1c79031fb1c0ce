//! Timed lyrics: splitting a document into lines, reading `[mm:ss.hh] text`
//! lines, and planning the per-character delays of playback.

use vstd::prelude::*;
use vstd::string::StrSliceExecFns;
use crate::text::{index_of, find_char, lemma_index_of_bounds};
use crate::timestamp::{is_digit, parse_timestamp, timestamp_centis};

verus! {

/// A line ending at a `\n` loses one `\r` before it.
pub open spec fn strip_cr(l: Seq<char>) -> Seq<char> {
    if l.len() > 0 && l.last() == '\r' {
        l.drop_last()
    } else {
        l
    }
}

/// The lines of a document: split at each `\n`, with `\r\n` also ending a
/// line; a final line ending is optional and an empty document has no lines.
pub open spec fn lines_of(s: Seq<char>) -> Seq<Seq<char>>
    decreases s.len(),
{
    if s.len() == 0 {
        Seq::empty()
    } else {
        let k = index_of(s, '\n');
        if 0 <= k && k < s.len() {
            seq![strip_cr(s.take(k))] + lines_of(s.skip(k + 1))
        } else {
            seq![s]
        }
    }
}

pub open spec fn views(v: Seq<String>) -> Seq<Seq<char>> {
    v.map_values(|x: String| x@)
}

/// Splits a document into its lines.
pub fn split_lines(s: &str) -> (r: Vec<String>)
    ensures
        views(r@) == lines_of(s@),
{
    let mut out: Vec<String> = Vec::new();
    let mut rest: &str = s;
    while rest.unicode_len() > 0
        invariant
            views(out@) + lines_of(rest@) == lines_of(s@),
        decreases rest@.len(),
    {
        let n = rest.unicode_len();
        proof {
            lemma_index_of_bounds(rest@, '\n');
        }
        match find_char(rest, '\n') {
            Some(k) => {
                let piece = rest.substring_char(0, k);
                let line = if k > 0 && piece.get_char(k - 1) == '\r' {
                    piece.substring_char(0, k - 1)
                } else {
                    piece
                };
                assert(line@ == strip_cr(rest@.take(k as int)));
                let ghost before = views(out@);
                out.push(line.to_owned());
                assert(views(out@) =~= before.push(line@));
                let next = rest.substring_char(k + 1, n);
                assert(lines_of(rest@) == seq![line@] + lines_of(next@));
                assert(views(out@) + lines_of(next@) =~= before + lines_of(rest@));
                rest = next;
            },
            None => {
                let ghost before = views(out@);
                out.push(rest.to_owned());
                assert(views(out@) =~= before.push(rest@));
                assert(views(out@) =~= before + lines_of(rest@));
                rest = rest.substring_char(n, n);
                assert(views(out@) + lines_of(rest@) =~= views(out@));
            },
        }
    }
    assert(lines_of(rest@) =~= Seq::<Seq<char>>::empty());
    assert(views(out@) + lines_of(rest@) =~= views(out@));
    out
}

/// Unicode white space.
pub open spec fn is_space(c: char) -> bool {
    ('\u{9}' <= c && c <= '\u{d}') || c == ' ' || c == '\u{85}' || c == '\u{a0}' || c
        == '\u{1680}' || ('\u{2000}' <= c && c <= '\u{200a}') || c == '\u{2028}' || c
        == '\u{2029}' || c == '\u{202f}' || c == '\u{205f}' || c == '\u{3000}'
}

pub fn space(c: char) -> (r: bool)
    ensures
        r == is_space(c),
{
    ('\u{9}' <= c && c <= '\u{d}') || c == ' ' || c == '\u{85}' || c == '\u{a0}' || c
        == '\u{1680}' || ('\u{2000}' <= c && c <= '\u{200a}') || c == '\u{2028}' || c
        == '\u{2029}' || c == '\u{202f}' || c == '\u{205f}' || c == '\u{3000}'
}

/// A `[dd:dd.dd]` tag starts at position `i` of `s`.
pub open spec fn tag_at(s: Seq<char>, i: int) -> bool {
    &&& 0 <= i
    &&& i + 10 <= s.len()
    &&& s[i] == '['
    &&& is_digit(s[i + 1])
    &&& is_digit(s[i + 2])
    &&& s[i + 3] == ':'
    &&& is_digit(s[i + 4])
    &&& is_digit(s[i + 5])
    &&& s[i + 6] == '.'
    &&& is_digit(s[i + 7])
    &&& is_digit(s[i + 8])
    &&& s[i + 9] == ']'
}

/// A tag at `i` followed by at least one more character.
pub open spec fn timed_at(s: Seq<char>, i: int) -> bool {
    tag_at(s, i) && i + 10 < s.len()
}

/// The first position at or after `i` where `timed_at` holds, or -1.
pub open spec fn first_timed_from(s: Seq<char>, i: int) -> int
    decreases s.len() - i,
{
    if i < 0 || i >= s.len() {
        -1
    } else if timed_at(s, i) {
        i
    } else {
        first_timed_from(s, i + 1)
    }
}

/// From `j`, past white space, but never past the last character.
pub open spec fn skip_spaces(s: Seq<char>, j: int) -> int
    decreases s.len() - j,
{
    if j < 0 || j >= s.len() - 1 || !is_space(s[j]) {
        j
    } else {
        skip_spaces(s, j + 1)
    }
}

/// A timed line: the leftmost `[mm:ss.hh]` tag that has text after it gives
/// the time (in hundredths of a second); the text is what follows, without
/// leading white space, keeping at least one character.
pub open spec fn timed_line(s: Seq<char>) -> Option<(nat, Seq<char>)> {
    let i = first_timed_from(s, 0);
    if i < 0 {
        None
    } else {
        Some((timestamp_centis(s.subrange(i + 1, i + 9)), s.skip(skip_spaces(s, i + 10))))
    }
}

pub proof fn lemma_first_timed(s: Seq<char>, from: int, k: int)
    requires
        0 <= from <= k <= s.len(),
        forall|j: int| from <= j < k ==> !timed_at(s, j),
        k < s.len() ==> timed_at(s, k),
    ensures
        first_timed_from(s, from) == (if k < s.len() { k } else { -1 }),
    decreases k - from,
{
    if from < k {
        lemma_first_timed(s, from + 1, k);
    }
}

fn digit(c: char) -> (r: bool)
    ensures
        r == is_digit(c),
{
    '0' <= c && c <= '9'
}

fn timed_at_exec(s: &str, n: usize, i: usize) -> (r: bool)
    requires
        n == s@.len(),
    ensures
        r == timed_at(s@, i as int),
{
    if i >= n || n - i <= 10 {
        return false;
    }
    s.get_char(i) == '[' && digit(s.get_char(i + 1)) && digit(s.get_char(i + 2)) && s.get_char(
        i + 3,
    ) == ':' && digit(s.get_char(i + 4)) && digit(s.get_char(i + 5)) && s.get_char(i + 6) == '.'
        && digit(s.get_char(i + 7)) && digit(s.get_char(i + 8)) && s.get_char(i + 9) == ']'
}

/// One line of lyrics with its time, in hundredths of a second.
pub struct TimedLine {
    pub centis: u64,
    pub text: String,
}

/// Reads a `[mm:ss.hh] text` line; `None` when the line has no such tag.
pub fn parse_timed_line(line: &str) -> (r: Option<TimedLine>)
    ensures
        match r {
            Some(t) => timed_line(line@) == Some((t.centis as nat, t.text@)) && t.centis
                <= 6000 * u32::MAX + 100 * u32::MAX + u32::MAX,
            None => timed_line(line@) is None,
        },
{
    let n = line.unicode_len();
    let mut i: usize = 0;
    while i < n
        invariant
            n == line@.len(),
            i <= n,
            forall|j: int| 0 <= j < i ==> !timed_at(line@, j),
        decreases n - i,
    {
        if timed_at_exec(line, n, i) {
            proof {
                lemma_first_timed(line@, 0, i as int);
            }
            let centis = parse_timestamp(line.substring_char(i + 1, i + 9));
            let mut j: usize = i + 10;
            while j < n - 1 && space(line.get_char(j))
                invariant
                    n == line@.len(),
                    i + 10 <= j < n,
                    skip_spaces(line@, j as int) == skip_spaces(line@, i + 10),
                decreases n - j,
            {
                j = j + 1;
            }
            let text = line.substring_char(j, n);
            assert(text@ =~= line@.skip(j as int));
            return Some(TimedLine { centis, text: text.to_owned() });
        }
        i = i + 1;
    }
    proof {
        lemma_first_timed(line@, 0, n as int);
    }
    None
}

/// The timed lines among `ls`, in order; lines without a tag are dropped.
pub open spec fn timed_lines(ls: Seq<Seq<char>>) -> Seq<(nat, Seq<char>)>
    decreases ls.len(),
{
    if ls.len() == 0 {
        Seq::empty()
    } else {
        let prev = timed_lines(ls.drop_last());
        match timed_line(ls.last()) {
            Some(t) => prev.push(t),
            None => prev,
        }
    }
}

/// Milliseconds between two times in hundredths (0 when the second is not
/// later), shared out over `count` characters (at least one).
pub open spec fn char_delay_ms(t0: nat, t1: nat, count: nat) -> nat {
    let total: nat = if t1 > t0 {
        ((t1 - t0) * 10) as nat
    } else {
        0
    };
    let n: nat = if count == 0 {
        1
    } else {
        count
    };
    total / n
}

/// Delay in milliseconds between the characters of a line shown at `t0` whose
/// successor is shown at `t1` (both in hundredths of a second).
pub fn char_delay(t0: u64, t1: u64, count: usize) -> (r: u64)
    requires
        t1 <= u64::MAX / 10,
    ensures
        r as nat == char_delay_ms(t0 as nat, t1 as nat, count as nat),
{
    let total: u64 = if t1 > t0 {
        (t1 - t0) * 10
    } else {
        0
    };
    let n: u64 = if count == 0 {
        1
    } else {
        count as u64
    };
    total / n
}

/// One line of playback: shown at `expected_centis`, its characters printed
/// `char_delay_ms` apart.
pub struct PlayLine {
    pub expected_centis: u64,
    pub text: String,
    pub char_delay_ms: u64,
}

/// What to play: the wait before the first line, and the lines to show.
pub struct Playback {
    pub lead_in_centis: Option<u64>,
    pub lines: Vec<PlayLine>,
}

/// The plan that the timed lines `t` call for: the first line's time as lead
/// in, then each timed line but the last, paced to end when the next begins.
pub open spec fn plan_matches(p: Playback, t: Seq<(nat, Seq<char>)>) -> bool {
    &&& (if t.len() == 0 {
        p.lead_in_centis is None
    } else {
        p.lead_in_centis == Some(t[0].0 as u64) && t[0].0 <= u64::MAX
    })
    &&& p.lines@.len() == (if t.len() == 0 {
        0
    } else {
        t.len() - 1
    })
    &&& forall|i: int|
        0 <= i < p.lines@.len() ==> {
            &&& #[trigger] p.lines@[i].expected_centis as nat == t[i].0
            &&& p.lines@[i].text@ == t[i].1
            &&& p.lines@[i].char_delay_ms as nat == char_delay_ms(t[i].0, t[i + 1].0, t[i].1.len())
        }
}

/// Plans playback of the given lines.
pub fn plan_lines(lines: &Vec<String>) -> (r: Playback)
    ensures
        plan_matches(r, timed_lines(views(lines@))),
{
    let mut timed: Vec<TimedLine> = Vec::new();
    let mut i: usize = 0;
    while i < lines.len()
        invariant
            i <= lines@.len(),
            timed@.len() == timed_lines(views(lines@).take(i as int)).len(),
            forall|k: int|
                0 <= k < timed@.len() ==> {
                    &&& (#[trigger] timed@[k]).centis as nat == timed_lines(
                        views(lines@).take(i as int),
                    )[k].0
                    &&& timed@[k].text@ == timed_lines(views(lines@).take(i as int))[k].1
                    &&& timed@[k].centis <= 6000 * u32::MAX + 100 * u32::MAX + u32::MAX
                },
        decreases lines@.len() - i,
    {
        let ghost ls = views(lines@);
        assert(ls.take(i + 1).drop_last() =~= ls.take(i as int));
        assert(ls.take(i + 1).last() == lines@[i as int]@);
        match parse_timed_line(lines[i].as_str()) {
            Some(t) => {
                timed.push(t);
            },
            None => {},
        }
        i = i + 1;
    }
    assert(views(lines@).take(lines@.len() as int) =~= views(lines@));
    let ghost t = timed_lines(views(lines@));
    let lead_in_centis = if timed.len() > 0 {
        assert(timed@[0].centis as nat == t[0].0);
        Some(timed[0].centis)
    } else {
        None
    };
    let mut out: Vec<PlayLine> = Vec::new();
    let last: usize = if timed.len() > 0 {
        timed.len() - 1
    } else {
        0
    };
    let mut k: usize = 0;
    while k < last
        invariant
            timed@.len() == t.len(),
            last == (if t.len() == 0 { 0 } else { t.len() - 1 }),
            k <= last,
            k == out@.len(),
            forall|m: int|
                0 <= m < timed@.len() ==> {
                    &&& (#[trigger] timed@[m]).centis as nat == t[m].0
                    &&& timed@[m].text@ == t[m].1
                    &&& timed@[m].centis <= 6000 * u32::MAX + 100 * u32::MAX + u32::MAX
                },
            forall|m: int|
                0 <= m < out@.len() ==> {
                    &&& #[trigger] out@[m].expected_centis as nat == t[m].0
                    &&& out@[m].text@ == t[m].1
                    &&& out@[m].char_delay_ms as nat == char_delay_ms(t[m].0, t[m + 1].0, t[m].1.len())
                },
        decreases timed@.len() - k,
    {
        let text = timed[k].text.clone();
        let count = text.as_str().unicode_len();
        let delay = char_delay(timed[k].centis, timed[k + 1].centis, count);
        out.push(PlayLine { expected_centis: timed[k].centis, text, char_delay_ms: delay });
        k = k + 1;
    }
    let r = Playback { lead_in_centis, lines: out };
    assert(r.lines@.len() == (if t.len() == 0 { 0 } else { t.len() - 1 }));
    assert forall|m: int| 0 <= m < r.lines@.len() implies {
        &&& #[trigger] r.lines@[m].expected_centis as nat == t[m].0
        &&& r.lines@[m].text@ == t[m].1
        &&& r.lines@[m].char_delay_ms as nat == char_delay_ms(t[m].0, t[m + 1].0, t[m].1.len())
    } by {
        assert(out@[m].expected_centis as nat == t[m].0);
    }
    proof {
        if t.len() > 0 {
            assert(r.lead_in_centis == Some(t[0].0 as u64));
            assert(t[0].0 <= u64::MAX);
        } else {
            assert(r.lead_in_centis is None);
        }
        assert(plan_matches(r, t));
    }
    r
}

/// Plans playback of a lyrics document.
pub fn plan_playback(lyrics: &str) -> (r: Playback)
    ensures
        plan_matches(r, timed_lines(lines_of(lyrics@))),
{
    let lines = split_lines(lyrics);
    plan_lines(&lines)
}

} // verus!
