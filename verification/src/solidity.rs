//! The source index: byte-offset to line/column translation and excerpt
//! extraction for one source file.
//!
//! An index is the increasing sequence of byte offsets at which the lines of
//! a file begin.  An empty file has an empty index; translating through an
//! empty index yields the origin `(0, 0)`, the deliberate fallback position
//! for files whose text is unavailable.

use vstd::prelude::*;

verus! {

/// The line-break starts contributed by the newlines of `text`: every
/// position right after a `\n`.
pub open spec fn breaks(text: Seq<u8>) -> Seq<int>
    decreases text.len(),
{
    if text.len() == 0 {
        Seq::empty()
    } else {
        breaks(text.drop_last()) + if text.last() == 10 {
            seq![text.len() as int]
        } else {
            Seq::empty()
        }
    }
}

/// The byte offset at which each line of `text` starts: offset `0` for the
/// first line, then one entry per newline.  Empty text has no lines.
pub open spec fn line_starts(text: Seq<u8>) -> Seq<int> {
    if text.len() == 0 {
        Seq::empty()
    } else {
        seq![0int] + breaks(text)
    }
}

/// An index of machine integers carries exactly the given line starts.
pub open spec fn starts_match(ls: Seq<usize>, s: Seq<int>) -> bool {
    ls.len() == s.len() && forall|i: int| 0 <= i < ls.len() ==> ls[i] == s[i]
}

/// Well-formedness of an index: strictly increasing, starting at offset 0.
pub open spec fn index_wf(ls: Seq<usize>) -> bool {
    &&& forall|i: int, j: int| 0 <= i < j < ls.len() ==> ls[i] < ls[j]
    &&& ls.len() > 0 ==> ls[0] == 0
}

/// How many index entries lie at or before `o`.
pub open spec fn count_le(ls: Seq<usize>, o: usize) -> int
    decreases ls.len(),
{
    if ls.len() == 0 {
        0
    } else {
        count_le(ls.drop_last(), o) + if ls.last() <= o {
            1int
        } else {
            0int
        }
    }
}

/// The line (1-based) that a well-formed index assigns to offset `o`,
/// and the start offset of that line.
pub open spec fn spec_line_of(ls: Seq<usize>, o: usize) -> int {
    count_le(ls, o)
}

/// The column is the distance from the start of the line.
pub open spec fn spec_column_of(ls: Seq<usize>, o: usize) -> int {
    o - ls[spec_line_of(ls, o) - 1]
}

proof fn lemma_count_le_bounds(ls: Seq<usize>, o: usize)
    ensures
        0 <= count_le(ls, o) <= ls.len(),
    decreases ls.len(),
{
    if ls.len() > 0 {
        lemma_count_le_bounds(ls.drop_last(), o);
    }
}

/// In a sorted index the entries at or before `o` form a prefix.
proof fn lemma_count_le_split(ls: Seq<usize>, o: usize)
    requires
        forall|i: int, j: int| 0 <= i < j < ls.len() ==> ls[i] < ls[j],
    ensures
        0 <= count_le(ls, o) <= ls.len(),
        forall|i: int| 0 <= i < count_le(ls, o) ==> ls[i] <= o,
        forall|i: int| count_le(ls, o) <= i < ls.len() ==> ls[i] > o,
    decreases ls.len(),
{
    lemma_count_le_bounds(ls, o);
    if ls.len() > 0 {
        let pre = ls.drop_last();
        assert(forall|i: int| 0 <= i < pre.len() ==> #[trigger] pre[i] == ls[i]);
        assert(forall|i: int, j: int| 0 <= i < j < pre.len() ==> pre[i] < pre[j]);
        lemma_count_le_split(pre, o);
        lemma_count_le_bounds(pre, o);
        if ls.last() <= o {
            // everything before the last entry is smaller still
            assert(forall|i: int| 0 <= i < ls.len() - 1 ==> #[trigger] ls[i] < ls[ls.len() - 1]);
            assert(count_le(pre, o) == pre.len()) by {
                if count_le(pre, o) < pre.len() {
                    assert(pre[count_le(pre, o)] > o);
                }
            }
            assert(count_le(ls, o) == ls.len());
            assert forall|i: int| 0 <= i < count_le(ls, o) implies ls[i] <= o by {
                if i < ls.len() - 1 {
                    assert(pre[i] <= o);
                } else {
                    assert(ls[i] == ls.last());
                }
            }
        } else {
            assert(count_le(ls, o) == count_le(pre, o));
            assert forall|i: int| 0 <= i < count_le(ls, o) implies ls[i] <= o by {
                assert(pre[i] <= o);
            }
            assert forall|i: int| count_le(ls, o) <= i < ls.len() implies ls[i] > o by {
                if i < ls.len() - 1 {
                    assert(pre[i] > o);
                }
            }
        }
    }
}

/// Build the line index of a file: a scan recording the cumulative byte
/// offset at the start of each line.
pub fn build_source_map(text: &Vec<u8>) -> (r: Vec<usize>)
    ensures
        starts_match(r@, line_starts(text@)),
        index_wf(r@),
        forall|i: int| 0 <= i < r@.len() ==> #[trigger] r@[i] <= text@.len(),
{
    let n = text.len();
    let mut r: Vec<usize> = Vec::new();
    if n == 0 {
        proof {
            assert(starts_match(r@, line_starts(text@)));
        }
        return r;
    }
    r.push(0);
    let mut i: usize = 0;
    proof {
        assert(breaks(text@.take(0)) =~= Seq::<int>::empty());
        assert(starts_match(r@, seq![0int] + breaks(text@.take(0))));
    }
    while i < n
        invariant
            i <= n,
            n == text@.len(),
            starts_match(r@, seq![0int] + breaks(text@.take(i as int))),
            r@.len() > 0 && r@[0] == 0,
            forall|a: int, b: int| 0 <= a < b < r@.len() ==> r@[a] < r@[b],
            forall|a: int| 0 <= a < r@.len() ==> #[trigger] r@[a] <= i,
        decreases n - i,
    {
        proof {
            assert(text@.take(i + 1).drop_last() =~= text@.take(i as int));
            assert(text@.take(i + 1).last() == text@[i as int]);
        }
        if text[i] == 10 {
            r.push(i + 1);
            proof {
                assert(breaks(text@.take(i + 1)) =~= breaks(text@.take(i as int)) + seq![
                    (i + 1) as int,
                ]);
                assert(starts_match(r@, seq![0int] + breaks(text@.take(i + 1))));
            }
        } else {
            proof {
                assert(breaks(text@.take(i + 1)) =~= breaks(text@.take(i as int)));
            }
        }
        i += 1;
    }
    proof {
        assert(text@.take(n as int) =~= text@);
    }
    r
}

/// Translate a byte offset to a 1-based line and 0-based column: the line is
/// the largest recorded line start at or before the offset.  An empty index
/// translates everything to the origin `(0, 0)`.
pub fn get_position(offset: usize, line_starts: &Vec<usize>) -> (r: (usize, usize))
    requires
        index_wf(line_starts@),
    ensures
        line_starts@.len() == 0 ==> r == (0usize, 0usize),
        line_starts@.len() > 0 ==> {
            &&& r.0 == spec_line_of(line_starts@, offset)
            &&& 1 <= r.0 <= line_starts@.len()
            &&& line_starts@[r.0 - 1] <= offset
            &&& r.1 == offset - line_starts@[r.0 - 1]
            &&& r.0 < line_starts@.len() ==> offset < line_starts@[r.0 as int]
        },
{
    let n = line_starts.len();
    if n == 0 {
        return (0, 0);
    }
    proof {
        lemma_count_le_split(line_starts@, offset);
    }
    let mut lo: usize = 0;
    let mut hi: usize = n - 1;
    while lo < hi
        invariant
            lo <= hi < n,
            n == line_starts@.len(),
            index_wf(line_starts@),
            line_starts@[lo as int] <= offset,
            forall|j: int| hi < j < n ==> line_starts@[j] > offset,
        decreases hi - lo,
    {
        let mid = lo + (hi - lo + 1) / 2;
        if line_starts[mid] <= offset {
            lo = mid;
        } else {
            hi = mid - 1;
        }
    }
    proof {
        let c = count_le(line_starts@, offset);
        assert(line_starts@[lo as int] <= offset);
        assert(lo < c) by {
            if c <= lo {
                assert(line_starts@[lo as int] > offset);
            }
        }
        assert(c <= lo + 1) by {
            if lo + 1 < c {
                assert(line_starts@[lo + 1] <= offset);
            }
        }
    }
    (lo + 1, offset - line_starts[lo])
}

/// Extract the exact `length`-byte excerpt starting at `offset`, or nothing
/// at all when the range leaves the text.
pub fn get_finding_content(text: &Vec<u8>, offset: usize, length: usize) -> (r: Vec<u8>)
    ensures
        offset + length <= text@.len() ==> r@ == text@.subrange(
            offset as int,
            offset + length,
        ),
        offset + length > text@.len() ==> r@ == Seq::<u8>::empty(),
{
    let mut r: Vec<u8> = Vec::new();
    let tlen = text.len();
    if length > tlen || offset > tlen - length {
        return r;
    }
    let mut i: usize = 0;
    while i < length
        invariant
            i <= length,
            tlen == text@.len(),
            offset + length <= tlen,
            r@ == text@.subrange(offset as int, offset + i),
        decreases length - i,
    {
        r.push(text[offset + i]);
        proof {
            assert(r@ =~= text@.subrange(offset as int, offset + i + 1));
        }
        i += 1;
    }
    r
}

/// The byte offset that a (1-based line, 0-based column) pair denotes in the
/// index of `text`.
pub open spec fn spec_offset_of(text: Seq<u8>, line: int, column: int) -> int {
    line_starts(text)[line - 1] + column
}

/// Position round-trip: translating a valid byte offset of a text to a
/// (line, column) pair and re-deriving the byte offset of that pair from the
/// same text gives the original offset back; the pair itself is in range,
/// with the column inside its line.
pub proof fn lemma_position_round_trip(text: Seq<u8>, ls: Seq<usize>, o: usize)
    requires
        o < text.len(),
        starts_match(ls, line_starts(text)),
        index_wf(ls),
    ensures
        ({
            let line = spec_line_of(ls, o);
            let column = spec_column_of(ls, o);
            &&& 1 <= line <= ls.len()
            &&& 0 <= column
            &&& spec_offset_of(text, line, column) == o
            &&& line < ls.len() ==> o < ls[line as int]
        }),
{
    lemma_count_le_split(ls, o);
    let line = spec_line_of(ls, o);
    assert(ls.len() == line_starts(text).len());
    assert(ls.len() > 0) by {
        assert(line_starts(text).len() > 0);
    }
    assert(ls[0] == 0);
    assert(line >= 1) by {
        if line == 0 {
            assert(ls[0] > o);
        }
    }
    assert(ls[line - 1] == line_starts(text)[line - 1]);
}


/// How many line starts lie at or before `o`, over the mathematical index.
pub open spec fn count_le_i(ls: Seq<int>, o: int) -> int
    decreases ls.len(),
{
    if ls.len() == 0 {
        0
    } else {
        count_le_i(ls.drop_last(), o) + if ls.last() <= o {
            1int
        } else {
            0int
        }
    }
}

/// The (line, column) pair the index of `text` assigns to offset `o`:
/// 1-based line and 0-based column, or the origin for an empty index.
pub open spec fn spec_position_of(text: Seq<u8>, o: int) -> (int, int) {
    let ls = line_starts(text);
    if ls.len() == 0 {
        (0int, 0int)
    } else {
        let line = count_le_i(ls, o);
        (line, o - ls[line - 1])
    }
}

/// The excerpt of `length` bytes at `offset`, or nothing when the range
/// leaves the text.
pub open spec fn spec_excerpt(text: Seq<u8>, offset: int, length: int) -> Seq<u8> {
    if 0 <= offset && 0 <= length && offset + length <= text.len() {
        text.subrange(offset, offset + length)
    } else {
        Seq::empty()
    }
}

/// A machine index carrying the line starts counts them the same way.
pub proof fn lemma_count_le_match(u: Seq<usize>, s: Seq<int>, o: usize)
    requires
        starts_match(u, s),
    ensures
        count_le(u, o) == count_le_i(s, o as int),
    decreases u.len(),
{
    if u.len() > 0 {
        assert(starts_match(u.drop_last(), s.drop_last())) by {
            assert(forall|i: int|
                0 <= i < u.len() - 1 ==> #[trigger] u.drop_last()[i] == u[i]);
            assert(forall|i: int|
                0 <= i < s.len() - 1 ==> #[trigger] s.drop_last()[i] == s[i]);
        }
        lemma_count_le_match(u.drop_last(), s.drop_last(), o);
        assert(u.last() == u[u.len() - 1]);
        assert(s.last() == s[s.len() - 1]);
    }
}

} // verus!
