//! Hunks: maximal contiguous non-matching regions between two sequences.
//!
//! A hunk carries a half-open index range over each side. A well-formed hunk
//! list decomposes the two sequences into an alternation of matched gaps and
//! non-matching hunks; the positions of a matched gap on the two sides are
//! aligned pairwise.

use vstd::prelude::*;

verus! {

/// A maximal contiguous non-matching region: `before_start..before_end` on
/// the first side was replaced by `after_start..after_end` on the second.
/// Either range may be empty (a pure insertion or a pure deletion), never both.
#[derive(Clone, Copy, Debug, PartialEq, Eq, Structural)]
pub struct Hunk {
    pub before_start: usize,
    pub before_end: usize,
    pub after_start: usize,
    pub after_end: usize,
}

impl Hunk {
    /// Builds a hunk from its four range bounds.
    pub fn from_ranges(bs: u32, be: u32, a_lo: u32, a_hi: u32) -> (h: Hunk)
        ensures
            span_of(h) == (bs as int, be as int, a_lo as int, a_hi as int),
    {
        Hunk {
            before_start: bs as usize,
            before_end: be as usize,
            after_start: a_lo as usize,
            after_end: a_hi as usize,
        }
    }
}

/// The four range bounds of a hunk as unbounded integers.
pub open spec fn span_of(h: Hunk) -> (int, int, int, int) {
    (h.before_start as int, h.before_end as int, h.after_start as int, h.after_end as int)
}

/// The spans of a hunk list.
pub open spec fn hunk_spans(hs: Seq<Hunk>) -> Seq<(int, int, int, int)> {
    hs.map_values(|h: Hunk| span_of(h))
}

/// A well-formed list of spans over a pair of sequences of lengths `blen` and
/// `alen`: every span lies within bounds and is non-empty on at least one
/// side; the spans are strictly increasing on both sides, with at least one
/// matched position between consecutive spans; and the matched gaps around
/// the spans have the same length on both sides.
pub open spec fn spans_wf(sp: Seq<(int, int, int, int)>, blen: int, alen: int) -> bool {
    &&& forall|i: int|
        0 <= i < sp.len() ==> {
            &&& 0 <= (#[trigger] sp[i]).0 <= sp[i].1 <= blen
            &&& 0 <= sp[i].2 <= sp[i].3 <= alen
            &&& (sp[i].0 < sp[i].1 || sp[i].2 < sp[i].3)
        }
    &&& forall|i: int|
        0 <= i < sp.len() - 1 ==> {
            &&& (#[trigger] sp[i]).1 < sp[i + 1].0
            &&& sp[i].3 < sp[i + 1].2
            &&& sp[i + 1].0 - sp[i].1 == sp[i + 1].2 - sp[i].3
        }
    &&& sp.len() > 0 ==> sp[0].0 == sp[0].2
    &&& sp.len() > 0 ==> blen - sp[sp.len() - 1].1 == alen - sp[sp.len() - 1].3
    &&& sp.len() == 0 ==> blen == alen
}

/// First position of the matched gap with index `g` on the first side.
/// Gap `g` sits before span `g`; gap `sp.len()` is the suffix gap.
pub open spec fn gap_b_lo(sp: Seq<(int, int, int, int)>, g: int) -> int {
    if g == 0 {
        0
    } else {
        sp[g - 1].1
    }
}

/// One past the last position of matched gap `g` on the first side.
pub open spec fn gap_b_hi(sp: Seq<(int, int, int, int)>, blen: int, g: int) -> int {
    if g == sp.len() {
        blen
    } else {
        sp[g].0
    }
}

/// First position of matched gap `g` on the second side.
pub open spec fn gap_a_lo(sp: Seq<(int, int, int, int)>, g: int) -> int {
    if g == 0 {
        0
    } else {
        sp[g - 1].3
    }
}

/// One past the last position of matched gap `g` on the second side.
pub open spec fn gap_a_hi(sp: Seq<(int, int, int, int)>, alen: int, g: int) -> int {
    if g == sp.len() {
        alen
    } else {
        sp[g].2
    }
}

/// Positions `i` (first side) and `j` (second side) are the same offset into
/// matched gap `g`.
pub open spec fn pair_in_gap(
    sp: Seq<(int, int, int, int)>,
    blen: int,
    alen: int,
    g: int,
    i: int,
    j: int,
) -> bool {
    &&& gap_b_lo(sp, g) <= i < gap_b_hi(sp, blen, g)
    &&& j == gap_a_lo(sp, g) + (i - gap_b_lo(sp, g))
}

/// Positions `i` and `j` are aligned with each other inside some matched gap:
/// the rows there were reported as unchanged by the diff.
pub open spec fn is_matched_pair(
    sp: Seq<(int, int, int, int)>,
    blen: int,
    alen: int,
    i: int,
    j: int,
) -> bool {
    exists|g: int| 0 <= g <= sp.len() && #[trigger] pair_in_gap(sp, blen, alen, g, i, j)
}

/// Span `g` covers position `i` on the first side.
pub open spec fn span_covers_b(sp: Seq<(int, int, int, int)>, g: int, i: int) -> bool {
    sp[g].0 <= i < sp[g].1
}

/// Position `i` of the first side falls inside some span.
pub open spec fn covered_b(sp: Seq<(int, int, int, int)>, i: int) -> bool {
    exists|g: int| 0 <= g < sp.len() && #[trigger] span_covers_b(sp, g, i)
}

/// Position `i` of the first side is aligned with some matched position of
/// the second side.
pub open spec fn matched_b(sp: Seq<(int, int, int, int)>, blen: int, alen: int, i: int) -> bool {
    exists|j: int| #[trigger] is_matched_pair(sp, blen, alen, i, j)
}

/// In a well-formed span list, earlier spans end strictly before later spans
/// begin, on both sides.
pub proof fn lemma_spans_sorted(sp: Seq<(int, int, int, int)>, blen: int, alen: int, x: int, y: int)
    requires
        spans_wf(sp, blen, alen),
        0 <= x < y < sp.len(),
    ensures
        sp[x].1 < sp[y].0,
        sp[x].3 < sp[y].2,
    decreases y - x,
{
    if y == x + 1 {
    } else {
        lemma_spans_sorted(sp, blen, alen, x, y - 1);
    }
}

/// The spans of a well-formed list transposed: each span's two sides
/// swapped, describing the same decomposition seen from the second sequence.
pub open spec fn transpose_spans(sp: Seq<(int, int, int, int)>) -> Seq<(int, int, int, int)> {
    sp.map_values(|t: (int, int, int, int)| (t.2, t.3, t.0, t.1))
}

/// Transposing a well-formed span list swaps the two sides throughout.
pub proof fn lemma_transpose_wf(sp: Seq<(int, int, int, int)>, blen: int, alen: int)
    requires
        spans_wf(sp, blen, alen),
    ensures
        spans_wf(transpose_spans(sp), alen, blen),
{
}

/// A matched pair of the transposed spans is the mirrored matched pair of
/// the original spans.
pub proof fn lemma_transpose_matched(
    sp: Seq<(int, int, int, int)>,
    blen: int,
    alen: int,
    i: int,
    j: int,
)
    requires
        spans_wf(sp, blen, alen),
    ensures
        is_matched_pair(sp, blen, alen, i, j) <==> is_matched_pair(
            transpose_spans(sp),
            alen,
            blen,
            j,
            i,
        ),
{
    let tp = transpose_spans(sp);
    assert forall|g: int| 0 <= g <= sp.len() && #[trigger] pair_in_gap(
        sp,
        blen,
        alen,
        g,
        i,
        j,
    ) implies pair_in_gap(tp, alen, blen, g, j, i) by {
        lemma_gap_lengths_equal(sp, blen, alen, g);
        if g > 0 {
            assert(tp[g - 1] == (sp[g - 1].2, sp[g - 1].3, sp[g - 1].0, sp[g - 1].1));
        }
        if g < sp.len() {
            assert(tp[g] == (sp[g].2, sp[g].3, sp[g].0, sp[g].1));
        }
    }
    assert forall|g: int| 0 <= g <= tp.len() && #[trigger] pair_in_gap(
        tp,
        alen,
        blen,
        g,
        j,
        i,
    ) implies pair_in_gap(sp, blen, alen, g, i, j) by {
        lemma_gap_lengths_equal(sp, blen, alen, g);
        if g > 0 {
            assert(tp[g - 1] == (sp[g - 1].2, sp[g - 1].3, sp[g - 1].0, sp[g - 1].1));
        }
        if g < sp.len() {
            assert(tp[g] == (sp[g].2, sp[g].3, sp[g].0, sp[g].1));
        }
    }
}

/// In a well-formed span list, each matched gap has the same length on the
/// two sides.
pub proof fn lemma_gap_lengths_equal(sp: Seq<(int, int, int, int)>, blen: int, alen: int, g: int)
    requires
        spans_wf(sp, blen, alen),
        0 <= g <= sp.len(),
    ensures
        gap_b_hi(sp, blen, g) - gap_b_lo(sp, g) == gap_a_hi(sp, alen, g) - gap_a_lo(sp, g),
{
    if 0 < g < sp.len() {
        assert(sp[g].0 - sp[g - 1].1 == sp[g].2 - sp[g - 1].3);
    }
}

/// Dropping the last span of a well-formed list leaves a well-formed list
/// over the prefixes that end where the dropped span began.
proof fn lemma_wf_drop_last(sp: Seq<(int, int, int, int)>, blen: int, alen: int)
    requires
        spans_wf(sp, blen, alen),
        sp.len() > 0,
    ensures
        spans_wf(sp.drop_last(), sp[sp.len() - 1].0, sp[sp.len() - 1].2),
{
    let d = sp.drop_last();
    let n = sp.len() as int;
    let blen2 = sp[n - 1].0;
    let alen2 = sp[n - 1].2;
    assert forall|x: int|
        0 <= x < d.len() implies {
            &&& 0 <= (#[trigger] d[x]).0 <= d[x].1 <= blen2
            &&& 0 <= d[x].2 <= d[x].3 <= alen2
            &&& (d[x].0 < d[x].1 || d[x].2 < d[x].3)
        } by {
        assert(d[x] == sp[x]);
        lemma_spans_sorted(sp, blen, alen, x, n - 1);
    }
    assert forall|x: int|
        0 <= x < d.len() - 1 implies {
            &&& (#[trigger] d[x]).1 < d[x + 1].0
            &&& d[x].3 < d[x + 1].2
            &&& d[x + 1].0 - d[x].1 == d[x + 1].2 - d[x].3
        } by {
        assert(d[x] == sp[x]);
        assert(d[x + 1] == sp[x + 1]);
    }
    if d.len() > 0 {
        assert(d[0] == sp[0]);
        assert(d[d.len() - 1] == sp[n - 2]);
        assert(blen2 - sp[n - 2].1 == alen2 - sp[n - 2].3);
    }
}

/// A position of the first side that no span covers is aligned with a
/// matched position of the second side.
proof fn lemma_uncovered_has_partner(sp: Seq<(int, int, int, int)>, blen: int, alen: int, i: int)
    requires
        spans_wf(sp, blen, alen),
        0 <= i < blen,
        !covered_b(sp, i),
    ensures
        exists|j: int|
            0 <= j < alen && (#[trigger] is_matched_pair(sp, blen, alen, i, j)),
    decreases sp.len(),
{
    let n = sp.len() as int;
    if n == 0 {
        assert(pair_in_gap(sp, blen, alen, 0, i, i));
        assert(is_matched_pair(sp, blen, alen, i, i));
    } else if i >= sp[n - 1].1 {
        let j = sp[n - 1].3 + (i - sp[n - 1].1);
        assert(pair_in_gap(sp, blen, alen, n, i, j));
        assert(is_matched_pair(sp, blen, alen, i, j));
    } else {
        assert(!span_covers_b(sp, n - 1, i));
        assert(i < sp[n - 1].0);
        let dropped = sp.drop_last();
        let blen2 = sp[n - 1].0;
        let alen2 = sp[n - 1].2;
        lemma_wf_drop_last(sp, blen, alen);
        assert forall|g: int| 0 <= g < dropped.len() implies !(#[trigger] span_covers_b(
            dropped,
            g,
            i,
        )) by {
            assert(dropped[g] == sp[g]);
            assert(!span_covers_b(sp, g, i));
        }
        lemma_uncovered_has_partner(dropped, blen2, alen2, i);
        let j = choose|j: int|
            0 <= j < alen2 && (#[trigger] is_matched_pair(dropped, blen2, alen2, i, j));
        let g = choose|g: int|
            0 <= g <= dropped.len() && #[trigger] pair_in_gap(dropped, blen2, alen2, g, i, j);
        assert(pair_in_gap(sp, blen, alen, g, i, j)) by {
            if g > 0 {
                assert(dropped[g - 1] == sp[g - 1]);
            }
            if g < dropped.len() {
                assert(dropped[g] == sp[g]);
            }
        }
        assert(is_matched_pair(sp, blen, alen, i, j));
        assert(alen2 <= alen);
    }
}

/// A position covered by a span is not part of any matched pair, a position
/// covered by no span has exactly one matched partner, and at most one span
/// covers any position: together with the equal-token guarantee on matched
/// pairs, each position of the first side is accounted for exactly once.
pub proof fn lemma_positions_partitioned(
    sp: Seq<(int, int, int, int)>,
    blen: int,
    alen: int,
    i: int,
)
    requires
        spans_wf(sp, blen, alen),
        0 <= i < blen,
    ensures
        covered_b(sp, i) <==> !matched_b(sp, blen, alen, i),
        covered_b(sp, i) ==> forall|g1: int, g2: int|
            (0 <= g1 < sp.len() && 0 <= g2 < sp.len() && #[trigger] span_covers_b(sp, g1, i)
                && #[trigger] span_covers_b(sp, g2, i)) ==> g1 == g2,
        forall|j1: int, j2: int|
            (#[trigger] is_matched_pair(sp, blen, alen, i, j1) && #[trigger] is_matched_pair(
                sp,
                blen,
                alen,
                i,
                j2,
            )) ==> j1 == j2,
        matched_b(sp, blen, alen, i) ==> exists|j: int|
            0 <= j < alen && #[trigger] is_matched_pair(sp, blen, alen, i, j),
{
    // No gap overlaps any span on the first side.
    assert forall|g: int, g2: int, j: int|
        0 <= g <= sp.len() && 0 <= g2 < sp.len() && #[trigger] pair_in_gap(sp, blen, alen, g, i, j)
            && #[trigger] span_covers_b(sp, g2, i) implies false by {
        if g <= g2 {
            assert(gap_b_hi(sp, blen, g) <= sp[g2].0) by {
                if g < sp.len() && g < g2 {
                    lemma_spans_sorted(sp, blen, alen, g, g2);
                }
            }
        } else {
            assert(sp[g2].1 <= gap_b_lo(sp, g)) by {
                if g2 < g - 1 {
                    lemma_spans_sorted(sp, blen, alen, g2, g - 1);
                }
            }
        }
    }
    if covered_b(sp, i) {
        assert(!matched_b(sp, blen, alen, i));
    } else {
        lemma_uncovered_has_partner(sp, blen, alen, i);
        assert(matched_b(sp, blen, alen, i));
    }
    // Two gaps cannot both contain `i`, and within a gap the partner is
    // fixed by the offset, so the partner is unique.
    assert forall|g1: int, g2: int, j1: int, j2: int|
        0 <= g1 <= sp.len() && 0 <= g2 <= sp.len() && #[trigger] pair_in_gap(
            sp,
            blen,
            alen,
            g1,
            i,
            j1,
        ) && #[trigger] pair_in_gap(sp, blen, alen, g2, i, j2) implies j1 == j2 by {
        if g1 < g2 {
            assert(gap_b_hi(sp, blen, g1) <= gap_b_lo(sp, g2)) by {
                if g1 < g2 - 1 {
                    lemma_spans_sorted(sp, blen, alen, g1, g2 - 1);
                }
            }
        }
        if g2 < g1 {
            assert(gap_b_hi(sp, blen, g2) <= gap_b_lo(sp, g1)) by {
                if g2 < g1 - 1 {
                    lemma_spans_sorted(sp, blen, alen, g2, g1 - 1);
                }
            }
        }
        assert(g1 == g2);
    }
    // Uniqueness of the covering span.
    assert forall|g1: int, g2: int|
        (0 <= g1 < sp.len() && 0 <= g2 < sp.len() && #[trigger] span_covers_b(sp, g1, i)
            && #[trigger] span_covers_b(sp, g2, i)) implies g1 == g2 by {
        if g1 < g2 {
            lemma_spans_sorted(sp, blen, alen, g1, g2);
        }
        if g2 < g1 {
            lemma_spans_sorted(sp, blen, alen, g2, g1);
        }
    }
}

/// Span `g` covers position `j` on the second side.
pub open spec fn span_covers_a(sp: Seq<(int, int, int, int)>, g: int, j: int) -> bool {
    sp[g].2 <= j < sp[g].3
}

/// Position `j` of the second side falls inside some span.
pub open spec fn covered_a(sp: Seq<(int, int, int, int)>, j: int) -> bool {
    exists|g: int| 0 <= g < sp.len() && #[trigger] span_covers_a(sp, g, j)
}

/// Position `j` of the second side is aligned with some matched position of
/// the first side.
pub open spec fn matched_a(sp: Seq<(int, int, int, int)>, blen: int, alen: int, j: int) -> bool {
    exists|i: int| #[trigger] is_matched_pair(sp, blen, alen, i, j)
}

/// The mirror of `lemma_positions_partitioned` for the second side: a
/// position covered by a span is not part of any matched pair, a position
/// covered by no span is matched with exactly one position of the first
/// side, and at most one span covers any position.
pub proof fn lemma_positions_partitioned_target(
    sp: Seq<(int, int, int, int)>,
    blen: int,
    alen: int,
    j: int,
)
    requires
        spans_wf(sp, blen, alen),
        0 <= j < alen,
    ensures
        covered_a(sp, j) <==> !matched_a(sp, blen, alen, j),
        covered_a(sp, j) ==> forall|g1: int, g2: int|
            (0 <= g1 < sp.len() && 0 <= g2 < sp.len() && #[trigger] span_covers_a(sp, g1, j)
                && #[trigger] span_covers_a(sp, g2, j)) ==> g1 == g2,
        forall|i1: int, i2: int|
            (#[trigger] is_matched_pair(sp, blen, alen, i1, j) && #[trigger] is_matched_pair(
                sp,
                blen,
                alen,
                i2,
                j,
            )) ==> i1 == i2,
        matched_a(sp, blen, alen, j) ==> exists|i: int|
            0 <= i < blen && #[trigger] is_matched_pair(sp, blen, alen, i, j),
{
    let tp = transpose_spans(sp);
    lemma_transpose_wf(sp, blen, alen);
    lemma_positions_partitioned(tp, alen, blen, j);
    assert forall|g: int| 0 <= g < sp.len() implies (#[trigger] span_covers_a(sp, g, j)
        <==> span_covers_b(tp, g, j)) by {
        assert(tp[g] == (sp[g].2, sp[g].3, sp[g].0, sp[g].1));
    }
    assert forall|i: int| #[trigger] is_matched_pair(sp, blen, alen, i, j) implies is_matched_pair(
        tp,
        alen,
        blen,
        j,
        i,
    ) by {
        lemma_transpose_matched(sp, blen, alen, i, j);
    }
    assert forall|i: int| #[trigger] is_matched_pair(tp, alen, blen, j, i) implies is_matched_pair(
        sp,
        blen,
        alen,
        i,
        j,
    ) by {
        lemma_transpose_matched(sp, blen, alen, i, j);
    }
    if covered_a(sp, j) {
        let g = choose|g: int| 0 <= g < sp.len() && #[trigger] span_covers_a(sp, g, j);
        assert(span_covers_b(tp, g, j));
        assert(covered_b(tp, j));
    }
    if covered_b(tp, j) {
        let g = choose|g: int| 0 <= g < tp.len() && #[trigger] span_covers_b(tp, g, j);
        assert(span_covers_a(sp, g, j));
        assert(covered_a(sp, j));
    }
    if matched_a(sp, blen, alen, j) {
        let i = choose|i: int| #[trigger] is_matched_pair(sp, blen, alen, i, j);
        assert(is_matched_pair(tp, alen, blen, j, i));
        assert(matched_b(tp, alen, blen, j));
    }
    if matched_b(tp, alen, blen, j) {
        let i = choose|i: int| #[trigger] is_matched_pair(tp, alen, blen, j, i);
        assert(is_matched_pair(sp, blen, alen, i, j));
        assert(matched_a(sp, blen, alen, j));
    }
    if matched_a(sp, blen, alen, j) {
        let i = choose|i: int|
            0 <= i < blen && #[trigger] is_matched_pair(tp, alen, blen, j, i);
        assert(is_matched_pair(sp, blen, alen, i, j));
        assert(0 <= i < blen);
    }
}

/// The two token sequences agree on every matched pair of positions.
pub open spec fn gaps_tokens_equal(
    tb: Seq<u32>,
    ta: Seq<u32>,
    sp: Seq<(int, int, int, int)>,
) -> bool {
    forall|i: int, j: int|
        0 <= i < tb.len() && 0 <= j < ta.len() && #[trigger] is_matched_pair(
            sp,
            tb.len() as int,
            ta.len() as int,
            i,
            j,
        ) ==> tb[i] == ta[j]
}

} // verus!
