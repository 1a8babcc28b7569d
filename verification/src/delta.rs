//! Delta records: classified, position-annotated edits.
//!
//! A delta is one edit of the first sequence into the second: the rows it
//! removes (with their position in the first sequence) and the rows it adds
//! (with their position in the second). Its kind is determined by which of
//! the two sides is empty. Positions are zero-based throughout, for all
//! three kinds alike. Adjacent deletions and insertions arrive merged: a
//! region that removes rows and adds rows is one change record, never a
//! delete followed by an insert, whichever algorithm produced the edit
//! script.

use vstd::prelude::*;

use crate::hunk::covered_a;
use crate::hunk::covered_b;
use crate::hunk::hunk_spans;
use crate::hunk::is_matched_pair;
use crate::hunk::lemma_positions_partitioned;
use crate::hunk::lemma_positions_partitioned_target;
use crate::hunk::matched_a;
use crate::hunk::matched_b;
use crate::hunk::span_covers_a;
use crate::hunk::span_covers_b;
use crate::hunk::span_of;
use crate::hunk::spans_wf;
use crate::hunk::Hunk;

verus! {

/// Classification of a delta record.
#[derive(Clone, Copy, Debug, PartialEq, Eq, Structural)]
pub enum DeltaKind {
    /// Rows were removed: the target side is empty.
    Delete,
    /// Rows were added: the source side is empty.
    Insert,
    /// Rows were replaced: both sides are non-empty.
    Change,
}

impl DeltaKind {
    /// The fixed string tag of this kind.
    pub fn label(&self) -> (r: &'static str)
        ensures
            *self == DeltaKind::Delete ==> r@ == "Delete"@,
            *self == DeltaKind::Insert ==> r@ == "Insert"@,
            *self == DeltaKind::Change ==> r@ == "Change"@,
    {
        match self {
            DeltaKind::Delete => "Delete",
            DeltaKind::Insert => "Insert",
            DeltaKind::Change => "Change",
        }
    }
}

/// One side of a delta: the zero-based index of the first affected row
/// within its original sequence, and the affected rows themselves. For the empty side
/// of a pure delete or insert, `rows` is empty and `position` is where the
/// edit falls in that sequence.
#[derive(Debug, PartialEq)]
pub struct Chunk<T> {
    pub position: usize,
    pub rows: Vec<T>,
}

/// One classified edit record.
#[derive(Debug, PartialEq)]
pub struct Delta<T> {
    pub kind: DeltaKind,
    pub source: Chunk<T>,
    pub target: Chunk<T>,
}

/// The index ranges a delta covers on the two sides.
pub open spec fn delta_span<T>(d: Delta<T>) -> (int, int, int, int) {
    (
        d.source.position as int,
        d.source.position + d.source.rows@.len(),
        d.target.position as int,
        d.target.position + d.target.rows@.len(),
    )
}

/// The spans of a delta list.
pub open spec fn delta_spans<T>(ds: Seq<Delta<T>>) -> Seq<(int, int, int, int)> {
    ds.map_values(|d: Delta<T>| delta_span(d))
}

/// The kind of a delta agrees with which of its sides is empty: delete iff
/// the target side is empty, insert iff the source side is empty, change iff
/// both are non-empty.
pub open spec fn kind_classified<T>(d: Delta<T>) -> bool {
    &&& (d.kind == DeltaKind::Delete <==> d.target.rows@.len() == 0)
    &&& (d.kind == DeltaKind::Insert <==> d.source.rows@.len() == 0)
    &&& (d.kind == DeltaKind::Change <==> d.source.rows@.len() > 0 && d.target.rows@.len() > 0)
}

/// The rows carried by a delta are exactly the rows of the two inputs at the
/// positions its span covers.
pub open spec fn delta_rows_from<T>(b: Seq<T>, a: Seq<T>, d: Delta<T>) -> bool {
    &&& d.source.rows@ == b.subrange(
        d.source.position as int,
        d.source.position + d.source.rows@.len(),
    )
    &&& d.target.rows@ == a.subrange(
        d.target.position as int,
        d.target.position + d.target.rows@.len(),
    )
}

/// The full structural contract of a delta list against the two inputs:
/// well-formed, strictly increasing spans separated by matched gaps of equal
/// length on both sides; every delta classified by emptiness; and every
/// delta carrying exactly the original rows of the region it covers.
pub open spec fn deltas_wf<T>(b: Seq<T>, a: Seq<T>, ds: Seq<Delta<T>>) -> bool {
    &&& spans_wf(delta_spans(ds), b.len() as int, a.len() as int)
    &&& forall|x: int| 0 <= x < ds.len() ==> kind_classified(#[trigger] ds[x])
    &&& forall|x: int| 0 <= x < ds.len() ==> delta_rows_from(b, a, #[trigger] ds[x])
}

/// A delta agrees with a hunk: same spans, correct kind, and rows drawn from
/// the inputs at the hunk's ranges.
pub open spec fn delta_matches_hunk<T>(b: Seq<T>, a: Seq<T>, d: Delta<T>, hk: Hunk) -> bool {
    &&& delta_span(d) == span_of(hk)
    &&& kind_classified(d)
    &&& d.source.rows@ == b.subrange(hk.before_start as int, hk.before_end as int)
    &&& d.target.rows@ == a.subrange(hk.after_start as int, hk.after_end as int)
}

/// Assembles one delta record from its kind, positions and rows.
pub fn build_record<T>(
    kind: DeltaKind,
    src_pos: usize,
    src_rows: Vec<T>,
    tgt_pos: usize,
    tgt_rows: Vec<T>,
) -> (d: Delta<T>)
    ensures
        d.kind == kind,
        d.source.position == src_pos,
        d.source.rows == src_rows,
        d.target.position == tgt_pos,
        d.target.rows == tgt_rows,
{
    Delta {
        kind,
        source: Chunk { position: src_pos, rows: src_rows },
        target: Chunk { position: tgt_pos, rows: tgt_rows },
    }
}

/// Completeness, first side: under the structural contract, a position of
/// the first input is inside a delta's source range exactly when it is part
/// of no matched pair; at most one delta covers it, and a matched position
/// has exactly one partner in the second input.
pub proof fn lemma_deltas_account_source<T>(b: Seq<T>, a: Seq<T>, ds: Seq<Delta<T>>, i: int)
    requires
        deltas_wf(b, a, ds),
        0 <= i < b.len(),
    ensures
        covered_b(delta_spans(ds), i) <==> !matched_b(
            delta_spans(ds),
            b.len() as int,
            a.len() as int,
            i,
        ),
        forall|g1: int, g2: int|
            (0 <= g1 < ds.len() && 0 <= g2 < ds.len() && #[trigger] span_covers_b(
                delta_spans(ds),
                g1,
                i,
            ) && #[trigger] span_covers_b(delta_spans(ds), g2, i)) ==> g1 == g2,
        forall|j1: int, j2: int|
            (#[trigger] is_matched_pair(delta_spans(ds), b.len() as int, a.len() as int, i, j1)
                && #[trigger] is_matched_pair(
                delta_spans(ds),
                b.len() as int,
                a.len() as int,
                i,
                j2,
            )) ==> j1 == j2,
        matched_b(delta_spans(ds), b.len() as int, a.len() as int, i) ==> exists|j: int|
            0 <= j < a.len() && #[trigger] is_matched_pair(
                delta_spans(ds),
                b.len() as int,
                a.len() as int,
                i,
                j,
            ),
{
    lemma_positions_partitioned(delta_spans(ds), b.len() as int, a.len() as int, i);
}

/// Completeness, second side: the mirror of `lemma_deltas_account_source`
/// for the positions of the second input and the deltas' target ranges.
pub proof fn lemma_deltas_account_target<T>(b: Seq<T>, a: Seq<T>, ds: Seq<Delta<T>>, j: int)
    requires
        deltas_wf(b, a, ds),
        0 <= j < a.len(),
    ensures
        covered_a(delta_spans(ds), j) <==> !matched_a(
            delta_spans(ds),
            b.len() as int,
            a.len() as int,
            j,
        ),
        forall|g1: int, g2: int|
            (0 <= g1 < ds.len() && 0 <= g2 < ds.len() && #[trigger] span_covers_a(
                delta_spans(ds),
                g1,
                j,
            ) && #[trigger] span_covers_a(delta_spans(ds), g2, j)) ==> g1 == g2,
        forall|i1: int, i2: int|
            (#[trigger] is_matched_pair(delta_spans(ds), b.len() as int, a.len() as int, i1, j)
                && #[trigger] is_matched_pair(
                delta_spans(ds),
                b.len() as int,
                a.len() as int,
                i2,
                j,
            )) ==> i1 == i2,
        matched_a(delta_spans(ds), b.len() as int, a.len() as int, j) ==> exists|i: int|
            0 <= i < b.len() && #[trigger] is_matched_pair(
                delta_spans(ds),
                b.len() as int,
                a.len() as int,
                i,
                j,
            ),
{
    lemma_positions_partitioned_target(delta_spans(ds), b.len() as int, a.len() as int, j);
}

/// If a list of deltas matches a well-formed list of hunks element by
/// element, the list satisfies the full structural contract.
pub proof fn lemma_deltas_wf_from_hunks<T>(b: Seq<T>, a: Seq<T>, ds: Seq<Delta<T>>, hs: Seq<Hunk>)
    requires
        spans_wf(hunk_spans(hs), b.len() as int, a.len() as int),
        ds.len() == hs.len(),
        forall|x: int| 0 <= x < ds.len() ==> delta_matches_hunk(b, a, #[trigger] ds[x], hs[x]),
    ensures
        deltas_wf(b, a, ds),
        delta_spans(ds) == hunk_spans(hs),
{
    assert(delta_spans(ds) =~= hunk_spans(hs));
}

} // verus!
