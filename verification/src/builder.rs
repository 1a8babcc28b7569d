//! The record builder: turns the hunks of a diff into delta records, moving
//! the affected rows out of the two input sequences.
//!
//! Rows are resolved by direct indexing into the original sequences, never
//! through the interner: duplicate rows at different positions each keep
//! their own position in the output.

use vstd::prelude::*;

use crate::delta::build_record;
use crate::delta::delta_matches_hunk;
use crate::delta::delta_spans;
use crate::delta::deltas_wf;
use crate::delta::lemma_deltas_wf_from_hunks;
use crate::delta::Delta;
use crate::delta::DeltaKind;
use crate::hunk::hunk_spans;
use crate::hunk::spans_wf;
use crate::hunk::Hunk;

verus! {

/// Converts a well-formed hunk list over the two row sequences into delta
/// records, one per hunk, in order: each delta carries the hunk's ranges as
/// positions, the original rows of those ranges, and the kind determined by
/// which range is empty.
pub fn hunks_to_deltas<T>(before: Vec<T>, after: Vec<T>, hunks: &Vec<Hunk>) -> (ds: Vec<Delta<T>>)
    requires
        spans_wf(hunk_spans(hunks@), before@.len() as int, after@.len() as int),
    ensures
        ds@.len() == hunks@.len(),
        delta_spans(ds@) == hunk_spans(hunks@),
        deltas_wf(before@, after@, ds@),
{
    let ghost b0 = before@;
    let ghost a0 = after@;
    let ghost sp = hunk_spans(hunks@);
    let mut b = before;
    let mut a = after;
    let mut rev: Vec<Delta<T>> = Vec::new();
    let n = hunks.len();
    let mut h: usize = n;
    proof {
        assert(b0.take(b0.len() as int) =~= b0);
        assert(a0.take(a0.len() as int) =~= a0);
    }
    while h > 0
        invariant
            n == hunks@.len(),
            spans_wf(sp, b0.len() as int, a0.len() as int),
            sp == hunk_spans(hunks@),
            0 <= h <= n,
            rev@.len() == n - h,
            forall|x: int|
                0 <= x < rev@.len() ==> delta_matches_hunk(
                    b0,
                    a0,
                    #[trigger] rev@[x],
                    hunks@[n - 1 - x],
                ),
            b@ == b0.take(if h == n { b0.len() as int } else { sp[h as int].0 }),
            a@ == a0.take(if h == n { a0.len() as int } else { sp[h as int].2 }),
        decreases h,
    {
        h = h - 1;
        let hk = hunks[h];
        proof {
            assert(sp[h as int] == crate::hunk::span_of(hunks@[h as int]));
            if h + 1 < n {
                assert(sp[h as int].1 < sp[h + 1].0);
                assert(sp[h as int].3 < sp[h + 1].2);
            }
        }
        b.truncate(hk.before_end);
        let src_rows = b.split_off(hk.before_start);
        a.truncate(hk.after_end);
        let tgt_rows = a.split_off(hk.after_start);
        proof {
            assert(src_rows@ =~= b0.subrange(hk.before_start as int, hk.before_end as int));
            assert(tgt_rows@ =~= a0.subrange(hk.after_start as int, hk.after_end as int));
            assert(b@ =~= b0.take(sp[h as int].0));
            assert(a@ =~= a0.take(sp[h as int].2));
        }
        let kind = if tgt_rows.len() == 0 {
            DeltaKind::Delete
        } else if src_rows.len() == 0 {
            DeltaKind::Insert
        } else {
            DeltaKind::Change
        };
        let d = build_record(kind, hk.before_start, src_rows, hk.after_start, tgt_rows);
        rev.push(d);
    }
    let mut ds: Vec<Delta<T>> = Vec::new();
    let ghost total = rev@.len();
    let ghost rev0 = rev@;
    proof {
        assert(rev0.take(rev0.len() as int) =~= rev0);
    }
    while rev.len() > 0
        invariant
            total == n,
            rev0.len() == total,
            n == hunks@.len(),
            spans_wf(sp, b0.len() as int, a0.len() as int),
            sp == hunk_spans(hunks@),
            ds@.len() + rev@.len() == total,
            rev@ == rev0.take(rev@.len() as int),
            forall|x: int|
                0 <= x < rev0.len() ==> delta_matches_hunk(
                    b0,
                    a0,
                    #[trigger] rev0[x],
                    hunks@[n - 1 - x],
                ),
            forall|x: int|
                0 <= x < ds@.len() ==> delta_matches_hunk(b0, a0, #[trigger] ds@[x], hunks@[x]),
        decreases rev@.len(),
    {
        let ghost old_rev = rev@;
        let d = rev.pop().unwrap();
        proof {
            assert(d == rev0[old_rev.len() - 1]);
            assert(rev@ =~= rev0.take(rev@.len() as int));
        }
        ds.push(d);
    }
    proof {
        lemma_deltas_wf_from_hunks(b0, a0, ds@, hunks@);
    }
    ds
}

} // verus!
