//! Line splitting and the time-window / substring filter.
//!
//! A decoded file is a sequence of bytes; it is split into lines the way a
//! buffered line reader does it: lines end at a newline byte, a carriage
//! return directly before a newline is dropped, and a last line without a
//! newline is kept as it stands.  The scanner then walks the lines in order:
//! a line whose 19-byte prefix does not parse is skipped silently, a line
//! whose timestamp lies past the window's upper bound stops the scan of this
//! line source (its lines are assumed to be in non-decreasing timestamp
//! order; an out-of-order source silently loses matches past that point),
//! and a line in the window is kept when it contains the pattern as a
//! literal, case-sensitive substring.
use vstd::prelude::*;
use vstd::slice::slice_to_vec;
use crate::timestamp::{parse_timestamp, parse_timestamp_spec, ts_before, ts_before_or_equal,
    ts_le, ts_lt, Timestamp, TimestampView};

verus! {

/// Does `needle` stand in `hay` starting at position `i`?
pub open spec fn matches_at(hay: Seq<u8>, needle: Seq<u8>, i: int) -> bool {
    &&& 0 <= i
    &&& i + needle.len() <= hay.len()
    &&& hay.subrange(i, i + needle.len()) == needle
}

/// Literal substring containment; an empty needle is contained everywhere.
pub open spec fn contains_seq(hay: Seq<u8>, needle: Seq<u8>) -> bool {
    exists|i: int| matches_at(hay, needle, i)
}

/// Does `needle` stand in `hay` at position `i`?  Executable form.
fn slice_matches_at(hay: &[u8], needle: &[u8], i: usize) -> (r: bool)
    requires
        i + needle@.len() <= hay@.len() <= usize::MAX,
    ensures
        r == matches_at(hay@, needle@, i as int),
{
    let m: usize = needle.len();
    let mut j: usize = 0;
    while j < m
        invariant
            m == needle@.len(),
            i + m <= hay@.len() <= usize::MAX,
            j <= m,
            forall|k: int| 0 <= k < j ==> hay@[i + k] == needle@[k],
        decreases m - j,
    {
        if hay[i + j] != needle[j] {
            proof {
                assert(hay@.subrange(i as int, i + needle@.len())[j as int] != needle@[j as int]);
            }
            return false;
        }
        j = j + 1;
    }
    proof {
        assert(hay@.subrange(i as int, i + needle@.len()) =~= needle@);
    }
    true
}

/// Does `hay` contain `needle` as a contiguous run of bytes?
pub fn contains_subslice(hay: &[u8], needle: &[u8]) -> (r: bool)
    ensures
        r == contains_seq(hay@, needle@),
{
    let n: usize = hay.len();
    let m: usize = needle.len();
    if m > n {
        proof {
            assert(forall|i: int| !matches_at(hay@, needle@, i));
        }
        return false;
    }
    if m == 0 {
        proof {
            assert(hay@.subrange(0, 0) =~= needle@);
            assert(matches_at(hay@, needle@, 0));
        }
        return true;
    }
    let mut i: usize = 0;
    while i <= n - m
        invariant
            n == hay@.len(),
            m == needle@.len(),
            1 <= m <= n,
            i <= n - m + 1,
            forall|k: int| 0 <= k < i ==> !matches_at(hay@, needle@, k),
        decreases n - i,
    {
        if slice_matches_at(hay, needle, i) {
            return true;
        }
        i = i + 1;
    }
    proof {
        assert(forall|k: int| matches_at(hay@, needle@, k) ==> 0 <= k <= n - m);
    }
    false
}

/// Drops one carriage return from the end of a line, if present.
pub open spec fn strip_cr(l: Seq<u8>) -> Seq<u8> {
    if l.len() > 0 && l.last() == 13 {
        l.drop_last()
    } else {
        l
    }
}

/// Line splitting with the current, still-unterminated line carried along:
/// a newline ends the current line (dropping a carriage return just before
/// it), and a non-empty last line is kept without stripping.
pub open spec fn split_acc(b: Seq<u8>, cur: Seq<u8>) -> Seq<Seq<u8>>
    decreases b.len(),
{
    if b.len() == 0 {
        if cur.len() == 0 {
            Seq::empty()
        } else {
            seq![cur]
        }
    } else if b[0] == 10 {
        seq![strip_cr(cur)] + split_acc(b.drop_first(), Seq::empty())
    } else {
        split_acc(b.drop_first(), cur.push(b[0]))
    }
}

/// The lines of a byte sequence, as a buffered line reader yields them.
pub open spec fn lines_of(b: Seq<u8>) -> Seq<Seq<u8>> {
    split_acc(b, Seq::empty())
}

/// Splits `content` into its lines.
pub fn split_lines(content: &[u8]) -> (lines: Vec<Vec<u8>>)
    ensures
        lines.deep_view() == lines_of(content@),
{
    let n: usize = content.len();
    let mut out: Vec<Vec<u8>> = Vec::new();
    let mut cur: Vec<u8> = Vec::new();
    let mut i: usize = 0;
    proof {
        assert(content@.skip(0) =~= content@);
        assert(out.deep_view() =~= Seq::<Seq<u8>>::empty());
        assert(Seq::<Seq<u8>>::empty() + lines_of(content@) =~= lines_of(content@));
    }
    while i < n
        invariant
            n == content@.len(),
            i <= n,
            lines_of(content@) == out.deep_view() + split_acc(content@.skip(i as int), cur@),
        decreases n - i,
    {
        let b = content[i];
        proof {
            assert(content@.skip(i as int)[0] == content@[i as int]);
            assert(content@.skip(i as int).drop_first() =~= content@.skip(i + 1));
        }
        if b == 10 {
            let ghost prev_out = out.deep_view();
            let ghost prev_cur = cur@;
            let mut line = cur;
            if line.len() > 0 && line[line.len() - 1] == 13 {
                line.pop();
            }
            proof {
                assert(line@ == strip_cr(prev_cur));
            }
            out.push(line);
            cur = Vec::new();
            proof {
                assert(out.deep_view() =~~= prev_out + seq![strip_cr(prev_cur)]);
            }
        } else {
            cur.push(b);
        }
        i = i + 1;
    }
    proof {
        assert(content@.skip(n as int) =~= Seq::<u8>::empty());
    }
    if cur.len() > 0 {
        let ghost prev_out = out.deep_view();
        let ghost last_cur = cur@;
        out.push(cur);
        proof {
            assert(out.deep_view() =~~= prev_out + seq![last_cur]);
        }
    } else {
        proof {
            assert(out.deep_view() + Seq::<Seq<u8>>::empty() =~= out.deep_view());
        }
    }
    out
}

/// What scanning a line source yields: unparsable prefixes are skipped, the
/// first timestamp past `end` stops the scan, and an in-window line that
/// contains `pat` is kept.
pub open spec fn scan_spec(
    lines: Seq<Seq<u8>>,
    start: TimestampView,
    end: TimestampView,
    pat: Seq<u8>,
) -> Seq<Seq<u8>>
    decreases lines.len(),
{
    if lines.len() == 0 {
        Seq::empty()
    } else {
        let l = lines[0];
        match parse_timestamp_spec(l) {
            Option::None => scan_spec(lines.drop_first(), start, end, pat),
            Option::Some(ts) => if ts_lt(end, ts) {
                Seq::empty()
            } else if ts_le(start, ts) && contains_seq(l, pat) {
                seq![l] + scan_spec(lines.drop_first(), start, end, pat)
            } else {
                scan_spec(lines.drop_first(), start, end, pat)
            },
        }
    }
}

/// A line the scanner may keep: its prefix parses, its timestamp lies in
/// the window, and it contains the pattern.
pub open spec fn kept_line_ok(
    l: Seq<u8>,
    start: TimestampView,
    end: TimestampView,
    pat: Seq<u8>,
) -> bool {
    match parse_timestamp_spec(l) {
        Option::Some(ts) => ts_le(start, ts) && ts_le(ts, end) && contains_seq(l, pat),
        Option::None => false,
    }
}

/// Every line the scan keeps parses, lies in the window and contains the
/// pattern; in particular a line shorter than 19 bytes, or with an
/// unparsable prefix, is never matched, under any pattern.
pub proof fn lemma_scan_keeps_only_wellformed(
    lines: Seq<Seq<u8>>,
    start: TimestampView,
    end: TimestampView,
    pat: Seq<u8>,
)
    ensures
        forall|k: int|
            0 <= k < scan_spec(lines, start, end, pat).len() ==> kept_line_ok(
                #[trigger] scan_spec(lines, start, end, pat)[k],
                start,
                end,
                pat,
            ),
    decreases lines.len(),
{
    if lines.len() == 0 {
    } else {
        lemma_scan_keeps_only_wellformed(lines.drop_first(), start, end, pat);
        let l = lines[0];
        let out = scan_spec(lines, start, end, pat);
        let rest = scan_spec(lines.drop_first(), start, end, pat);
        match parse_timestamp_spec(l) {
            Option::Some(ts) => {
                if ts_lt(end, ts) {
                } else if ts_le(start, ts) && contains_seq(l, pat) {
                    assert forall|k: int| 0 <= k < out.len() implies kept_line_ok(
                        out[k],
                        start,
                        end,
                        pat,
                    ) by {
                        if k == 0 {
                            assert(out[0] == l);
                        } else {
                            assert(out[k] == rest[k - 1]);
                        }
                    }
                } else {
                    assert forall|k: int| 0 <= k < out.len() implies kept_line_ok(
                        out[k],
                        start,
                        end,
                        pat,
                    ) by {
                        assert(out[k] == rest[k]);
                    }
                }
            },
            Option::None => {
                assert forall|k: int| 0 <= k < out.len() implies kept_line_ok(
                    out[k],
                    start,
                    end,
                    pat,
                ) by {
                    assert(out[k] == rest[k]);
                }
            },
        }
    }
}

/// Once a line's timestamp lies past the window's upper bound, no later
/// line of the same source is inspected: the scan of the whole source
/// equals the scan of the lines before that point, even where a later
/// line would otherwise match.
pub proof fn lemma_scan_early_exit(
    lines: Seq<Seq<u8>>,
    start: TimestampView,
    end: TimestampView,
    pat: Seq<u8>,
    i: int,
)
    requires
        0 <= i < lines.len(),
        parse_timestamp_spec(lines[i]) is Some,
        ts_lt(end, parse_timestamp_spec(lines[i])->Some_0),
    ensures
        scan_spec(lines, start, end, pat) == scan_spec(lines.take(i), start, end, pat),
    decreases i,
{
    if i == 0 {
        assert(lines.take(0) =~= Seq::<Seq<u8>>::empty());
        match parse_timestamp_spec(lines[0]) {
            Option::Some(ts) => {
                assert(scan_spec(lines, start, end, pat) =~= Seq::<Seq<u8>>::empty());
            },
            Option::None => {
                assert(false);
            },
        }
    } else {
        let rest = lines.drop_first();
        assert(rest[i - 1] == lines[i]);
        lemma_scan_early_exit(rest, start, end, pat, i - 1);
        assert(lines.take(i)[0] == lines[0]);
        assert(lines.take(i).drop_first() =~= rest.take(i - 1));
    }
}

/// Scans `lines` in order and returns the lines whose timestamp falls in
/// `[start, end]` and which contain `pattern`, stopping at the first line
/// whose timestamp lies past `end`.
pub fn scan_lines(lines: &Vec<Vec<u8>>, start: &Timestamp, end: &Timestamp, pattern: &[u8]) -> (matched:
    Vec<Vec<u8>>)
    ensures
        matched.deep_view() == scan_spec(lines.deep_view(), start@, end@, pattern@),
{
    let ghost all: Seq<Seq<u8>> = lines.deep_view();
    let mut matched: Vec<Vec<u8>> = Vec::new();
    let n: usize = lines.len();
    let mut i: usize = 0;
    let mut stopped: bool = false;
    proof {
        assert(all.skip(0) =~= all);
        assert(matched.deep_view() =~= Seq::<Seq<u8>>::empty());
        assert(Seq::<Seq<u8>>::empty() + scan_spec(all, start@, end@, pattern@) =~= scan_spec(
            all,
            start@,
            end@,
            pattern@,
        ));
    }
    while i < n && !stopped
        invariant
            n == lines@.len(),
            i <= n,
            all == lines.deep_view(),
            stopped ==> matched.deep_view() == scan_spec(all, start@, end@, pattern@),
            !stopped ==> scan_spec(all, start@, end@, pattern@) == matched.deep_view() + scan_spec(
                all.skip(i as int),
                start@,
                end@,
                pattern@,
            ),
        decreases n - i,
    {
        let line = &lines[i];
        proof {
            assert(all.skip(i as int)[0] == all[i as int]);
            assert(all.skip(i as int).drop_first() =~= all.skip(i + 1));
            assert(all[i as int] == lines@[i as int].deep_view());
            assert(lines@[i as int].deep_view() == lines@[i as int]@);
        }
        match parse_timestamp(line.as_slice()) {
            Option::Some(ts) => {
                if ts_before(end, &ts) {
                    stopped = true;
                } else {
                    if ts_before_or_equal(start, &ts) && contains_subslice(
                        line.as_slice(),
                        pattern,
                    ) {
                        let ghost prev = matched.deep_view();
                        matched.push(slice_to_vec(line.as_slice()));
                        proof {
                            assert(matched.deep_view() =~~= prev + seq![all[i as int]]);
                            assert(prev + (seq![all[i as int]] + scan_spec(
                                all.skip(i + 1),
                                start@,
                                end@,
                                pattern@,
                            )) =~= matched.deep_view() + scan_spec(
                                all.skip(i + 1),
                                start@,
                                end@,
                                pattern@,
                            ));
                        }
                    }
                }
            },
            Option::None => {},
        }
        i = i + 1;
    }
    proof {
        if !stopped {
            assert(all.skip(n as int) =~= Seq::<Seq<u8>>::empty());
            assert(matched.deep_view() + Seq::<Seq<u8>>::empty() =~= matched.deep_view());
        }
    }
    matched
}

} // verus!
