//! The diff pipeline: interning, edit-script computation, and delta
//! construction, behind one operation.

use vstd::prelude::*;
use vstd::std_specs::cmp::PartialEqSpec;

use crate::algorithm::algorithm_known;
use crate::algorithm::parse_algorithm;
use crate::algorithm::DiffError;
use crate::backend::imara_hunks;
use crate::builder::hunks_to_deltas;
use crate::delta::delta_spans;
use crate::delta::deltas_wf;
use crate::delta::Delta;
use crate::hunk::hunk_spans;
use crate::hunk::is_matched_pair;
use crate::interner::lemma_common_witness;
use crate::interner::lemma_tokens_agree;
use crate::interner::lemma_tokens_len;
use crate::interner::tokenize_pair;
use crate::interner::tokens_of;

verus! {

/// `w` is a common representative for position `i` of `b` and position `j`
/// of `a`: a row of the inputs that each of the two rows either is or
/// compares equal to.
pub open spec fn coequal_witness<T: PartialEq>(b: Seq<T>, a: Seq<T>, i: int, j: int, w: T) -> bool {
    &&& b.contains(w) || a.contains(w)
    &&& (b[i] == w || b[i].eq_spec(&w))
    &&& (a[j] == w || a[j].eq_spec(&w))
}

/// Rows at positions `i` of `b` and `j` of `a` are tied to one common
/// representative row drawn from the inputs.
pub open spec fn rows_coequal<T: PartialEq>(b: Seq<T>, a: Seq<T>, i: int, j: int) -> bool {
    exists|w: T| #[trigger] coequal_witness(b, a, i, j, w)
}

/// Computes the differences between two row sequences as an ordered list of
/// delta records.
///
/// The rows are interned into tokens under the row type's own equality, the
/// named algorithm computes an edit script over the tokens, and the script's
/// non-matching regions come back as deltas, in increasing position order,
/// each carrying the affected original rows of both sides. An unrecognised
/// algorithm name is rejected before any computation starts.
///
/// The contract: a delta list is returned exactly when the algorithm name is
/// known (case-insensitively, `histogram` or `myers`); the list is
/// structurally well-formed over the inputs (`deltas_wf`): spans strictly
/// increasing on both sides, separated by matched gaps of equal length,
/// kinds classified by emptiness, rows drawn from the inputs by position.
/// When the row equality obeys its specification, rows aligned in a matched
/// gap intern to one representative (`rows_coequal`); a sequence diffed
/// against itself yields no deltas, provided its rows equal themselves; and
/// two pointwise-equal sequences yield no deltas, provided the equality is
/// symmetric and transitive.
pub fn diff<T: PartialEq>(before: Vec<T>, after: Vec<T>, algorithm: &str) -> (r: Result<
    Vec<Delta<T>>,
    DiffError,
>)
    requires
        before@.len() + after@.len() < 0x7fff_ffff,
    ensures
        r is Err <==> !algorithm_known(algorithm@),
        r matches Err(e) ==> e == DiffError::UnknownAlgorithm,
        r matches Ok(ds) ==> deltas_wf(before@, after@, ds@),
        T::obeys_eq_spec() ==> (r matches Ok(ds) ==> forall|i: int, j: int|
            0 <= i < before@.len() && 0 <= j < after@.len() && #[trigger] is_matched_pair(
                delta_spans(ds@),
                before@.len() as int,
                after@.len() as int,
                i,
                j,
            ) ==> rows_coequal(before@, after@, i, j)),
        (T::obeys_eq_spec() && algorithm_known(algorithm@) && before@ == after@ && (forall|i: int|
            0 <= i < before@.len() ==> (#[trigger] before@[i]).eq_spec(&before@[i]))) ==> (
        r matches Ok(ds) && ds@.len() == 0),
        (T::obeys_eq_spec() && algorithm_known(algorithm@) && before@.len() == after@.len() && (
        forall|i: int| 0 <= i < before@.len() ==> (#[trigger] before@[i]).eq_spec(&after@[i])) && (
        forall|x: T, y: T| #[trigger] x.eq_spec(&y) ==> y.eq_spec(&x)) && (forall|x: T, y: T, z: T|
            #![trigger x.eq_spec(&y), y.eq_spec(&z)]
            x.eq_spec(&y) && y.eq_spec(&z) ==> x.eq_spec(&z))) ==> (r matches Ok(ds)
            && ds@.len() == 0),
{
    let alg = match parse_algorithm(algorithm) {
        Some(x) => x,
        None => {
            return Err(DiffError::UnknownAlgorithm);
        },
    };
    let (tb, ta, ntok) = tokenize_pair(&before, &after);
    let hs = imara_hunks(alg, &tb, &ta, ntok);
    let ghost s = before@ + after@;
    let ghost blen = before@.len() as int;
    let ghost alen = after@.len() as int;
    proof {
        lemma_tokens_len::<T>(s);
        if T::obeys_eq_spec() {
            // Matched gap positions share a token, hence a representative.
            assert forall|i: int, j: int|
                0 <= i < blen && 0 <= j < alen && #[trigger] is_matched_pair(
                    hunk_spans(hs@),
                    blen,
                    alen,
                    i,
                    j,
                ) implies rows_coequal(before@, after@, i, j) by {
                assert(tb@[i] == ta@[j]);
                assert(tokens_of(s)[i] == tokens_of(s)[blen + j]);
                lemma_common_witness(s, i, blen + j);
                let w = choose|w: T|
                    {
                        &&& #[trigger] s.contains(w)
                        &&& (s[i] == w || s[i].eq_spec(&w))
                        &&& (s[blen + j] == w || s[blen + j].eq_spec(&w))
                    };
                let wi = choose|wi: int| 0 <= wi < s.len() && s[wi] == w;
                if wi < blen {
                    assert(before@[wi] == w);
                    assert(before@.contains(w));
                } else {
                    assert(after@[wi - blen] == w);
                    assert(after@.contains(w));
                }
                assert(s[i] == before@[i]);
                assert(s[blen + j] == after@[j]);
                assert(coequal_witness(before@, after@, i, j, w));
            }
        }
        // A sequence diffed against itself, or against a pointwise-equal
        // sequence, interns to identical token sequences, so the backend
        // reports no hunks.
        if T::obeys_eq_spec() && blen == alen {
            let self_case = before@ == after@ && (forall|i: int|
                0 <= i < blen ==> (#[trigger] before@[i]).eq_spec(&before@[i]));
            let pointwise_case = (forall|i: int|
                0 <= i < blen ==> (#[trigger] before@[i]).eq_spec(&after@[i])) && (forall|
                x: T,
                y: T,
            |
                #[trigger] x.eq_spec(&y) ==> y.eq_spec(&x)) && (forall|x: T, y: T, z: T|
                #![trigger x.eq_spec(&y), y.eq_spec(&z)]
                x.eq_spec(&y) && y.eq_spec(&z) ==> x.eq_spec(&z));
            if self_case || pointwise_case {
                assert forall|j: int, w: T| #![trigger before@[j].eq_spec(&w)]
                    #![trigger after@[j].eq_spec(&w)]
                    0 <= j < blen implies (before@[j].eq_spec(&w) <==> after@[j].eq_spec(
                    &w,
                )) by {
                    if pointwise_case {
                        assert(before@[j].eq_spec(&after@[j]));
                        assert(after@[j].eq_spec(&before@[j]));
                        if before@[j].eq_spec(&w) {
                            assert(after@[j].eq_spec(&w));
                        }
                        if after@[j].eq_spec(&w) {
                            assert(before@[j].eq_spec(&w));
                        }
                    }
                }
                assert forall|j: int| 0 <= j < blen implies #[trigger] after@[j].eq_spec(
                    &before@[j],
                ) by {
                    if pointwise_case {
                        assert(before@[j].eq_spec(&after@[j]));
                    }
                }
                lemma_tokens_agree(before@, after@);
                lemma_tokens_len::<T>(before@);
                assert forall|x: int| 0 <= x < blen implies tb@[x] == ta@[x] by {
                    assert(tb@[x] as int == tokens_of(s)[x]);
                    assert(ta@[x] as int == tokens_of(s)[blen + x]);
                    assert(tokens_of(s) == tokens_of(before@) + tokens_of(before@));
                    assert(tokens_of(s)[x] == tokens_of(before@)[x]);
                    assert(tokens_of(s)[blen + x] == tokens_of(before@)[x]);
                }
                assert(tb@ =~= ta@);
                assert(hs@.len() == 0);
            }
        }
    }
    let ds = hunks_to_deltas(before, after, &hs);
    proof {
        assert(delta_spans(ds@) == hunk_spans(hs@));
    }
    Ok(ds)
}

} // verus!
