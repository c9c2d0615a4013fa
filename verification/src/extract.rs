//! Step extraction: scanning a raw explanation text for blocks bounded by a
//! fixed three-character delimiter marker and collecting the trimmed block
//! contents in order of appearance.

use vstd::prelude::*;
use vstd::string::StrSliceExecFns;
use vstd::string::StringExecFns;

verus! {

/// Whitespace as `str::trim` sees it: the Unicode `White_Space` characters.
pub open spec fn is_space(c: char) -> bool {
    c == ' ' || c == '\t' || c == '\n' || c == '\r'
        || c == '\u{000B}' || c == '\u{000C}' || c == '\u{0085}' || c == '\u{00A0}'
        || c == '\u{1680}'
        || c == '\u{2000}' || c == '\u{2001}' || c == '\u{2002}' || c == '\u{2003}'
        || c == '\u{2004}' || c == '\u{2005}' || c == '\u{2006}' || c == '\u{2007}'
        || c == '\u{2008}' || c == '\u{2009}' || c == '\u{200A}'
        || c == '\u{2028}' || c == '\u{2029}' || c == '\u{202F}' || c == '\u{205F}'
        || c == '\u{3000}'
}

pub fn is_space_char(c: char) -> (r: bool)
    ensures
        r == is_space(c),
{
    c == ' ' || c == '\t' || c == '\n' || c == '\r'
        || c == '\u{000B}' || c == '\u{000C}' || c == '\u{0085}' || c == '\u{00A0}'
        || c == '\u{1680}'
        || c == '\u{2000}' || c == '\u{2001}' || c == '\u{2002}' || c == '\u{2003}'
        || c == '\u{2004}' || c == '\u{2005}' || c == '\u{2006}' || c == '\u{2007}'
        || c == '\u{2008}' || c == '\u{2009}' || c == '\u{200A}'
        || c == '\u{2028}' || c == '\u{2029}' || c == '\u{202F}' || c == '\u{205F}'
        || c == '\u{3000}'
}

/// The text with its leading whitespace removed.
pub open spec fn trim_start_spec(s: Seq<char>) -> Seq<char>
    decreases s.len(),
{
    if s.len() > 0 && is_space(s[0]) {
        trim_start_spec(s.drop_first())
    } else {
        s
    }
}

/// The text with its trailing whitespace removed.
pub open spec fn trim_end_spec(s: Seq<char>) -> Seq<char>
    decreases s.len(),
{
    if s.len() > 0 && is_space(s.last()) {
        trim_end_spec(s.drop_last())
    } else {
        s
    }
}

/// The text with leading and trailing whitespace removed, as `str::trim`
/// computes it.
pub open spec fn trim_spec(s: Seq<char>) -> Seq<char> {
    trim_end_spec(trim_start_spec(s))
}

/// The delimiter marker: three consecutive backquote characters starting at
/// position `i`.
pub open spec fn is_marker_at(s: Seq<char>, i: int) -> bool {
    &&& 0 <= i
    &&& i + 3 <= s.len()
    &&& s[i] == '`'
    &&& s[i + 1] == '`'
    &&& s[i + 2] == '`'
}

/// The left-to-right scan over the text from position `i`. `inside` says
/// whether an opening marker has been seen without its closing partner yet;
/// `start` is then the position just after that opening marker. Each closed
/// marker pair contributes the trimmed text strictly between the two markers;
/// a trailing unterminated block contributes nothing. Markers are consumed
/// greedily: a match at `i` moves the scan to `i + 3`.
pub open spec fn scan(s: Seq<char>, i: int, inside: bool, start: int) -> Seq<Seq<char>>
    recommends
        0 <= i,
        inside ==> 0 <= start <= i,
    decreases s.len() - i,
{
    if i + 3 > s.len() {
        Seq::empty()
    } else if is_marker_at(s, i) {
        if !inside {
            scan(s, i + 3, true, i + 3)
        } else {
            seq![trim_spec(s.subrange(start, i))] + scan(s, i + 3, false, 0)
        }
    } else {
        scan(s, i + 1, inside, start)
    }
}

/// The ordered sequence of steps extracted from `s`: the scan started at the
/// beginning of the text, outside any block.
pub open spec fn extract_spec(s: Seq<char>) -> Seq<Seq<char>> {
    scan(s, 0, false, 0)
}

/// The positions of the delimiter-marker occurrences in `s` at or after
/// position `i`, found greedily left to right: a match at `p` is followed by
/// the next search at `p + 3`, so occurrences never overlap.
pub open spec fn marker_positions_from(s: Seq<char>, i: int) -> Seq<int>
    recommends
        0 <= i,
    decreases s.len() - i,
{
    if i + 3 > s.len() {
        Seq::empty()
    } else if is_marker_at(s, i) {
        seq![i] + marker_positions_from(s, i + 3)
    } else {
        marker_positions_from(s, i + 1)
    }
}

/// All the delimiter-marker occurrences in `s`, in order.
pub open spec fn marker_positions(s: Seq<char>) -> Seq<int> {
    marker_positions_from(s, 0)
}

/// Remove leading and trailing whitespace from `s`.
pub fn trim_str(s: &str) -> (r: String)
    ensures
        r@ == trim_spec(s@),
{
    let n = s.unicode_len();
    let mut lo: usize = 0;
    while lo < n && is_space_char(s.get_char(lo))
        invariant
            0 <= lo <= n,
            n == s@.len(),
            forall|j: int| 0 <= j < lo ==> is_space(s@[j]),
        decreases n - lo,
    {
        lo += 1;
    }
    let mut hi: usize = n;
    while hi > lo && is_space_char(s.get_char(hi - 1))
        invariant
            lo <= hi <= n,
            n == s@.len(),
            forall|j: int| 0 <= j < lo ==> is_space(s@[j]),
            forall|j: int| hi <= j < n ==> is_space(s@[j]),
        decreases hi,
    {
        hi -= 1;
    }
    proof {
        lemma_trim_start_bound(s@, lo as int);
        lemma_trim_end_bound(s@.subrange(lo as int, s@.len() as int), hi - lo);
        assert(s@.subrange(lo as int, s@.len() as int).subrange(0, hi - lo)
            =~= s@.subrange(lo as int, hi as int));
    }
    String::from_str(s.substring_char(lo, hi))
}

/// Removing leading whitespace keeps exactly the tail that begins at the
/// first non-whitespace position.
proof fn lemma_trim_start_bound(s: Seq<char>, lo: int)
    requires
        0 <= lo <= s.len(),
        forall|j: int| 0 <= j < lo ==> is_space(s[j]),
        lo < s.len() ==> !is_space(s[lo]),
    ensures
        trim_start_spec(s) =~= s.subrange(lo, s.len() as int),
    decreases s.len(),
{
    if s.len() > 0 && is_space(s[0]) {
        lemma_trim_start_bound(s.drop_first(), lo - 1);
        assert(s.drop_first().subrange(lo - 1, s.drop_first().len() as int)
            =~= s.subrange(lo, s.len() as int));
    }
}

/// Removing trailing whitespace keeps exactly the head that ends at the last
/// non-whitespace position.
proof fn lemma_trim_end_bound(s: Seq<char>, hi: int)
    requires
        0 <= hi <= s.len(),
        forall|j: int| hi <= j < s.len() ==> is_space(s[j]),
        hi > 0 ==> !is_space(s[hi - 1]),
    ensures
        trim_end_spec(s) =~= s.subrange(0, hi),
    decreases s.len(),
{
    if s.len() > 0 && is_space(s.last()) {
        lemma_trim_end_bound(s.drop_last(), hi);
        assert(s.drop_last().subrange(0, hi) =~= s.subrange(0, hi));
    }
}

/// Scan the text left to right for occurrences of the three-backquote
/// delimiter marker; every fully closed pair of markers appends the trimmed
/// text strictly between them to the result, in order of appearance. A final
/// unterminated block is dropped.
pub fn extract_and_append(text: &str) -> (result: Vec<String>)
    ensures
        result.deep_view() == extract_spec(text@),
{
    let n = text.unicode_len();
    let mut result: Vec<String> = Vec::new();
    let mut i: usize = 0;
    let mut inside: bool = false;
    let mut start: usize = 0;
    while 3 <= n && i <= n - 3
        invariant
            n == text@.len(),
            0 <= i <= n || n < 3,
            inside ==> start <= i,
            result.deep_view() + scan(text@, i as int, inside, if inside { start as int } else { 0 })
                == extract_spec(text@),
        decreases n - i,
    {
        if text.get_char(i) == '`' && text.get_char(i + 1) == '`' && text.get_char(i + 2) == '`' {
            if !inside {
                inside = true;
                start = i + 3;
            } else {
                let piece = trim_str(text.substring_char(start, i));
                let ghost prev = result.deep_view();
                result.push(piece);
                proof {
                    assert(result.deep_view() =~= prev + seq![trim_spec(text@.subrange(start as int, i as int))]);
                }
                inside = false;
            }
            i += 3;
        } else {
            i += 1;
        }
    }
    proof {
        assert(result.deep_view() =~= extract_spec(text@));
    }
    result
}

/// How the scan relates to the greedy marker occurrences: outside a block it
/// yields one trimmed segment per closed pair of the remaining markers; inside
/// a block the first remaining marker closes the pending segment at `start`.
proof fn lemma_scan_markers(s: Seq<char>, i: int, inside: bool, start: int)
    requires
        0 <= i,
        inside ==> 0 <= start <= i,
    ensures
        ({
            let r = scan(s, i, inside, start);
            let ps = marker_positions_from(s, i);
            if !inside {
                r.len() == ps.len() / 2 && (forall|k: int|
                    0 <= k < r.len() ==> r[k] == trim_spec(
                        s.subrange(ps[2 * k] + 3, ps[2 * k + 1]),
                    ))
            } else {
                r.len() == (ps.len() + 1) / 2 && (ps.len() > 0 ==> r[0] == trim_spec(
                    s.subrange(start, ps[0]),
                )) && (forall|k: int|
                    1 <= k < r.len() ==> r[k] == trim_spec(
                        s.subrange(ps[2 * k - 1] + 3, ps[2 * k]),
                    ))
            }
        }),
    decreases s.len() - i,
{
    let r = scan(s, i, inside, start);
    let ps = marker_positions_from(s, i);
    if i + 3 > s.len() {
        // nothing left to match: no marker, no segment
    } else if is_marker_at(s, i) {
        let ps2 = marker_positions_from(s, i + 3);
        assert(ps == seq![i] + ps2);
        assert(forall|j: int| 1 <= j < ps.len() ==> ps[j] == ps2[j - 1]);
        if !inside {
            let r2 = scan(s, i + 3, true, i + 3);
            lemma_scan_markers(s, i + 3, true, i + 3);
            assert(r == r2);
            assert forall|k: int| 0 <= k < r.len() implies r[k] == trim_spec(
                s.subrange(ps[2 * k] + 3, ps[2 * k + 1]),
            ) by {
                if k == 0 {
                    assert(ps[0] == i);
                    assert(r2[0] == trim_spec(s.subrange(i + 3, ps2[0])));
                } else {
                    assert(r2[k] == trim_spec(s.subrange(ps2[2 * k - 1] + 3, ps2[2 * k])));
                }
            }
        } else {
            let r2 = scan(s, i + 3, false, 0);
            lemma_scan_markers(s, i + 3, false, 0);
            assert(r == seq![trim_spec(s.subrange(start, i))] + r2);
            assert(r[0] == trim_spec(s.subrange(start, ps[0])));
            assert forall|k: int| 1 <= k < r.len() implies r[k] == trim_spec(
                s.subrange(ps[2 * k - 1] + 3, ps[2 * k]),
            ) by {
                assert(r[k] == r2[k - 1]);
                assert(r2[k - 1] == trim_spec(s.subrange(ps2[2 * (k - 1)] + 3, ps2[2 * (k - 1) + 1])));
                assert(ps[2 * k - 1] == ps2[2 * k - 2]);
                assert(ps[2 * k] == ps2[2 * k - 1]);
            }
        }
    } else {
        lemma_scan_markers(s, i + 1, inside, start);
    }
}

/// Each recorded position is a genuine occurrence of the delimiter marker,
/// at or after the scan position, and successive occurrences are at least
/// the marker's width apart: the greedy matches never overlap.
proof fn lemma_marker_positions_from_markers(s: Seq<char>, i: int)
    requires
        0 <= i,
    ensures
        forall|k: int|
            0 <= k < marker_positions_from(s, i).len() ==> is_marker_at(
                s,
                #[trigger] marker_positions_from(s, i)[k],
            ) && marker_positions_from(s, i)[k] >= i,
        forall|k: int|
            0 <= k && k + 1 < marker_positions_from(s, i).len()
                ==> #[trigger] marker_positions_from(s, i)[k] + 3 <= marker_positions_from(
                s,
                i,
            )[k + 1],
    decreases s.len() - i,
{
    let ps = marker_positions_from(s, i);
    if i + 3 > s.len() {
        // no occurrence is left
    } else if is_marker_at(s, i) {
        let ps2 = marker_positions_from(s, i + 3);
        lemma_marker_positions_from_markers(s, i + 3);
        assert(ps =~= seq![i] + ps2);
        assert forall|k: int| 0 <= k < ps.len() implies is_marker_at(s, ps[k]) && ps[k] >= i by {
            if k >= 1 {
                assert(ps[k] == ps2[k - 1]);
            }
        }
        assert forall|k: int| 0 <= k && k + 1 < ps.len() implies #[trigger] ps[k] + 3 <= ps[k + 1] by {
            if k == 0 {
                assert(ps[1] == ps2[0]);
            } else {
                assert(ps[k] == ps2[k - 1]);
                assert(ps[k + 1] == ps2[k]);
            }
        }
    } else {
        let ps2 = marker_positions_from(s, i + 1);
        lemma_marker_positions_from_markers(s, i + 1);
        assert(ps == ps2);
        assert forall|k: int| 0 <= k < ps.len() implies is_marker_at(s, ps[k]) && ps[k] >= i by {
            assert(is_marker_at(s, ps2[k]) && ps2[k] >= i + 1);
        }
        assert forall|k: int| 0 <= k && k + 1 < ps.len() implies #[trigger] ps[k] + 3 <= ps[k + 1] by {
            assert(ps2[k] + 3 <= ps2[k + 1]);
        }
    }
}

/// The marker occurrences of a text are genuine markers, in increasing
/// order, and never overlap: each starts at least three characters after the
/// one before it.
pub proof fn lemma_marker_positions_are_markers(s: Seq<char>)
    ensures
        forall|k: int|
            0 <= k < marker_positions(s).len() ==> is_marker_at(
                s,
                #[trigger] marker_positions(s)[k],
            ),
        forall|k: int|
            0 <= k && k + 1 < marker_positions(s).len() ==> #[trigger] marker_positions(s)[k] + 3
                <= marker_positions(s)[k + 1],
{
    lemma_marker_positions_from_markers(s, 0);
}

/// Extraction well-formedness: the text's greedy delimiter-marker occurrences,
/// taken in consecutive pairs left to right, determine the extracted steps
/// exactly. With `2k` or `2k + 1` occurrences there are exactly `k` steps, and
/// step `k` is the trimmed text strictly between the markers of pair `k`; the
/// content after a trailing unpaired marker is dropped.
pub proof fn lemma_extract_well_formed(s: Seq<char>)
    ensures
        extract_spec(s).len() == marker_positions(s).len() / 2,
        forall|k: int|
            0 <= k < extract_spec(s).len() ==> extract_spec(s)[k] == trim_spec(
                s.subrange(marker_positions(s)[2 * k] + 3, marker_positions(s)[2 * k + 1]),
            ),
{
    lemma_scan_markers(s, 0, false, 0);
}

} // verus!
