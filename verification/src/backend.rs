//! The diff backend: the edit script over the token sequences is computed by
//! the `imara_diff` crate behind one trusted wrapper.

use vstd::prelude::*;

use crate::algorithm::DiffAlgorithm;
use crate::hunk::gaps_tokens_equal;
use crate::hunk::hunk_spans;
use crate::hunk::spans_wf;
use crate::hunk::Hunk;

use imara_diff::Algorithm;
use imara_diff::Diff;
use imara_diff::NoSliderHeuristic;
use imara_diff::Token;

verus! {

/// Relies on `imara_diff::Diff::compute_with`, `Diff::postprocess_with`
/// (with `NoSliderHeuristic`) and `Diff::hunks`.
///
/// `compute_with` marks on each side the positions that the selected
/// algorithm reports as removed/added; the unmarked positions of the two
/// sides carry equal tokens, pairwise in order. `postprocess_with` only
/// slides and merges marked regions over equal tokens, preserving that.
/// `hunks` scans the two mark lists in lockstep and yields the maximal
/// marked regions in strictly increasing order on both sides, with at least
/// one matched position between consecutive hunks, so the matched gaps
/// around the hunks have equal lengths pairwise. `compute_with` strips the
/// common prefix and suffix before either algorithm runs, so equal inputs
/// come back with no marks and no hunks. `compute_with` panics on a side of
/// `i32::MAX` tokens or more; the histogram algorithm indexes its buckets by
/// token value, so every token must be below `num_tokens`, and it sizes a
/// pool at twice `num_tokens` in 32 bits, so `num_tokens` must stay below
/// `i32::MAX` for that product not to overflow.
#[verifier::external_body]
pub(crate) fn imara_hunks(
    algorithm: DiffAlgorithm,
    tb: &Vec<u32>,
    ta: &Vec<u32>,
    num_tokens: u32,
) -> (hs: Vec<Hunk>)
    requires
        tb@.len() < 0x7fff_ffff,
        ta@.len() < 0x7fff_ffff,
        num_tokens <= 0x7fff_ffff,
        forall|i: int| 0 <= i < tb@.len() ==> (#[trigger] tb@[i]) < num_tokens,
        forall|j: int| 0 <= j < ta@.len() ==> (#[trigger] ta@[j]) < num_tokens,
    ensures
        spans_wf(hunk_spans(hs@), tb@.len() as int, ta@.len() as int),
        gaps_tokens_equal(tb@, ta@, hunk_spans(hs@)),
        tb@ == ta@ ==> hs@.len() == 0,
{
    let alg = match algorithm {
        DiffAlgorithm::Histogram => Algorithm::Histogram,
        DiffAlgorithm::Myers => Algorithm::Myers,
    };
    let before: Vec<Token> = tb.iter().map(|&t| Token(t)).collect();
    let after: Vec<Token> = ta.iter().map(|&t| Token(t)).collect();
    let mut diff = Diff::default();
    diff.compute_with(alg, &before, &after, num_tokens);
    diff.postprocess_with(&before, &after, NoSliderHeuristic);
    diff.hunks()
        .map(|h| Hunk::from_ranges(h.before.start, h.before.end, h.after.start, h.after.end))
        .collect()
}

} // verus!
