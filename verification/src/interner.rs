//! Interning rows into dense integer tokens under the rows' own equality.
//!
//! A row's token is the index of the first representative row it equals, in
//! first-seen order; a row equal to no previous representative becomes a new
//! representative. Equality is the row type's own `==` — never identity, never
//! a hash short-cut — so lookup is a linear scan over the representatives.
//!
//! The spec model: `reps_of(s)` is the representative list after interning
//! the whole sequence `s`, and `tokens_of(s)` assigns every element its
//! token. The executable interner is proved to agree with this model whenever
//! the row type's `==` obeys its specification.

use vstd::prelude::*;
use vstd::std_specs::cmp::PartialEqSpec;

verus! {

/// Index of the first representative in `reps` that `row` equals, in the
/// sense of the row type's own equality; `reps.len()` if it equals none.
pub open spec fn first_match<T: PartialEq>(reps: Seq<T>, row: T) -> int
    decreases reps.len(),
{
    if reps.len() == 0 {
        0
    } else if row.eq_spec(&reps[0]) {
        0
    } else {
        1 + first_match(reps.drop_first(), row)
    }
}

/// The representatives after interning all of `s`, in first-seen order.
pub open spec fn reps_of<T: PartialEq>(s: Seq<T>) -> Seq<T>
    decreases s.len(),
{
    if s.len() == 0 {
        Seq::empty()
    } else {
        let r = reps_of(s.drop_last());
        if first_match(r, s.last()) < r.len() {
            r
        } else {
            r.push(s.last())
        }
    }
}

/// The token assigned to each element of `s`, in order.
pub open spec fn tokens_of<T: PartialEq>(s: Seq<T>) -> Seq<int>
    decreases s.len(),
{
    if s.len() == 0 {
        Seq::empty()
    } else {
        tokens_of(s.drop_last()).push(first_match(reps_of(s.drop_last()), s.last()))
    }
}

/// `first_match` is at most `reps.len()`, nothing below it matches, and the
/// matched representative (if any) does match.
pub proof fn lemma_first_match_bounds<T: PartialEq>(reps: Seq<T>, row: T)
    ensures
        0 <= first_match(reps, row) <= reps.len(),
        forall|i: int|
            0 <= i < first_match(reps, row) ==> !(#[trigger] row.eq_spec(&reps[i])),
        first_match(reps, row) < reps.len() ==> row.eq_spec(&reps[first_match(reps, row)]),
    decreases reps.len(),
{
    if reps.len() == 0 {
    } else if row.eq_spec(&reps[0]) {
    } else {
        lemma_first_match_bounds(reps.drop_first(), row);
        assert forall|i: int|
            0 <= i < first_match(reps, row) implies !(#[trigger] row.eq_spec(&reps[i])) by {
            if i > 0 {
                assert(reps.drop_first()[i - 1] == reps[i]);
            }
        }
        if first_match(reps, row) < reps.len() {
            assert(reps.drop_first()[first_match(reps, row) - 1] == reps[first_match(reps, row)]);
        }
    }
}

/// `first_match` is determined: if nothing below `k` matches and `k` is
/// either a match or the length, then `first_match` is `k`.
pub proof fn lemma_first_match_at<T: PartialEq>(reps: Seq<T>, row: T, k: int)
    requires
        0 <= k <= reps.len(),
        forall|i: int| 0 <= i < k ==> !(#[trigger] row.eq_spec(&reps[i])),
        k < reps.len() ==> row.eq_spec(&reps[k]),
    ensures
        first_match(reps, row) == k,
    decreases reps.len(),
{
    if reps.len() == 0 {
    } else if row.eq_spec(&reps[0]) {
        if k > 0 {
            assert(!row.eq_spec(&reps[0]));
        }
    } else {
        assert(!row.eq_spec(&reps[0]));
        assert(k > 0) by {
            if k == 0 {
                assert(row.eq_spec(&reps[0]));
            }
        }
        assert forall|i: int| 0 <= i < k - 1 implies !(#[trigger] row.eq_spec(
            &reps.drop_first()[i],
        )) by {
            assert(reps.drop_first()[i] == reps[i + 1]);
        }
        if k - 1 < reps.drop_first().len() {
            assert(reps.drop_first()[k - 1] == reps[k]);
        }
        lemma_first_match_at(reps.drop_first(), row, k - 1);
    }
}

/// `tokens_of` assigns one token per element.
pub proof fn lemma_tokens_len<T: PartialEq>(s: Seq<T>)
    ensures
        tokens_of(s).len() == s.len(),
    decreases s.len(),
{
    if s.len() > 0 {
        lemma_tokens_len(s.drop_last());
    }
}

/// Interning a prefix yields a prefix of the representatives and of the
/// token assignment.
pub proof fn lemma_model_prefix<T: PartialEq>(s: Seq<T>, m: int)
    requires
        0 <= m <= s.len(),
    ensures
        reps_of(s.take(m)).len() <= reps_of(s).len(),
        reps_of(s.take(m)) == reps_of(s).take(reps_of(s.take(m)).len() as int),
        tokens_of(s.take(m)) == tokens_of(s).take(m),
    decreases s.len(),
{
    lemma_tokens_len(s);
    lemma_tokens_len(s.take(m));
    if m == s.len() {
        assert(s.take(m) =~= s);
        assert(reps_of(s).take(reps_of(s).len() as int) =~= reps_of(s));
        assert(tokens_of(s).take(m) =~= tokens_of(s));
    } else {
        assert(s.drop_last().take(m) =~= s.take(m));
        lemma_model_prefix(s.drop_last(), m);
        let r = reps_of(s.drop_last());
        assert(reps_of(s.take(m)) == r.take(reps_of(s.take(m)).len() as int));
        if first_match(r, s.last()) < r.len() {
        } else {
            assert(r.push(s.last()).take(r.len() as int) =~= r);
            assert(reps_of(s.take(m)) == reps_of(s).take(reps_of(s.take(m)).len() as int)) by {
                assert(r.push(s.last()).take(reps_of(s.take(m)).len() as int) =~= r.take(
                    reps_of(s.take(m)).len() as int,
                ));
            }
        }
        assert(tokens_of(s.take(m)) == tokens_of(s).take(m)) by {
            assert(tokens_of(s.drop_last()) == tokens_of(s).take(tokens_of(s.drop_last()).len() as int));
            lemma_tokens_len(s.drop_last());
            assert(tokens_of(s).take(m) =~= tokens_of(s.drop_last()).take(m));
        }
    }
}

/// Every representative is an element of the interned sequence.
pub proof fn lemma_reps_elems<T: PartialEq>(s: Seq<T>)
    ensures
        forall|k: int| 0 <= k < reps_of(s).len() ==> s.contains(#[trigger] reps_of(s)[k]),
    decreases s.len(),
{
    if s.len() > 0 {
        lemma_reps_elems(s.drop_last());
        assert forall|k: int| 0 <= k < reps_of(s).len() implies s.contains(
            #[trigger] reps_of(s)[k],
        ) by {
            let r = reps_of(s.drop_last());
            if k < r.len() {
                assert(s.drop_last().contains(r[k]));
                let w = choose|i: int| 0 <= i < s.drop_last().len() && s.drop_last()[i] == r[k];
                assert(s[w] == r[k]);
            } else {
                assert(reps_of(s)[k] == s.last());
                assert(s[s.len() - 1] == s.last());
            }
        }
    }
}

/// The token of position `p` is the first match against the representatives
/// of the strict prefix before `p`.
pub proof fn lemma_token_at<T: PartialEq>(s: Seq<T>, p: int)
    requires
        0 <= p < s.len(),
    ensures
        tokens_of(s)[p] == first_match(reps_of(s.take(p)), s[p]),
    decreases s.len(),
{
    lemma_tokens_len(s);
    if p == s.len() - 1 {
        assert(s.drop_last() =~= s.take(p));
        lemma_tokens_len(s.drop_last());
    } else {
        lemma_token_at(s.drop_last(), p);
        lemma_tokens_len(s.drop_last());
        assert(s.drop_last().take(p) =~= s.take(p));
        assert(s.drop_last()[p] == s[p]);
    }
}

/// A position's token is a valid representative index, and the row there
/// either is that representative or equals it.
pub proof fn lemma_token_rep<T: PartialEq>(s: Seq<T>, p: int)
    requires
        0 <= p < s.len(),
    ensures
        0 <= tokens_of(s)[p] < reps_of(s).len(),
        s[p] == reps_of(s)[tokens_of(s)[p]] || s[p].eq_spec(&reps_of(s)[tokens_of(s)[p]]),
    decreases s.len(),
{
    lemma_token_at(s, p);
    lemma_tokens_len(s);
    let rp = reps_of(s.take(p));
    let t = tokens_of(s)[p];
    lemma_first_match_bounds(rp, s[p]);
    lemma_model_prefix(s, p);
    if t < rp.len() {
        assert(rp[t] == reps_of(s).take(rp.len() as int)[t]);
        assert(s[p].eq_spec(&reps_of(s)[t]));
    } else {
        // The row became a new representative: it appears at index `t`
        // in the representatives of the prefix through `p`.
        assert(s.take(p + 1).drop_last() =~= s.take(p));
        assert(s.take(p + 1).last() == s[p]);
        assert(reps_of(s.take(p + 1)) == rp.push(s[p]));
        lemma_model_prefix(s, p + 1);
        assert(reps_of(s.take(p + 1))[t] == s[p]);
        assert(reps_of(s)[t] == s[p]);
    }
}

/// Two positions with the same token are both equal (or identical) to one
/// common representative row drawn from the sequence itself.
pub proof fn lemma_common_witness<T: PartialEq>(s: Seq<T>, p: int, q: int)
    requires
        0 <= p < s.len(),
        0 <= q < s.len(),
        tokens_of(s)[p] == tokens_of(s)[q],
    ensures
        exists|w: T|
            {
                &&& #[trigger] s.contains(w)
                &&& (s[p] == w || s[p].eq_spec(&w))
                &&& (s[q] == w || s[q].eq_spec(&w))
            },
{
    lemma_token_rep(s, p);
    lemma_token_rep(s, q);
    lemma_reps_elems(s);
    let w = reps_of(s)[tokens_of(s)[p]];
    assert(s.contains(w));
}

/// If each element of `a` is, in the eyes of the row equality, the same as
/// the element of `b` at the same position — it equals `b`'s element, and it
/// equals exactly the rows `b`'s element equals — then interning `b + a`
/// adds no representative beyond those of `b`, and assigns `a` the same
/// tokens as `b`.
pub proof fn lemma_tokens_agree<T: PartialEq>(b: Seq<T>, a: Seq<T>)
    requires
        b.len() == a.len(),
        forall|j: int, w: T| #![trigger b[j].eq_spec(&w)] #![trigger a[j].eq_spec(&w)]
            0 <= j < b.len() ==> (b[j].eq_spec(&w) <==> a[j].eq_spec(&w)),
        forall|j: int| 0 <= j < b.len() ==> #[trigger] a[j].eq_spec(&b[j]),
    ensures
        reps_of(b + a) == reps_of(b),
        tokens_of(b + a) == tokens_of(b) + tokens_of(b),
{
    lemma_tokens_agree_aux(b, a, a.len() as int);
    assert(b + a.take(a.len() as int) =~= b + a);
    lemma_tokens_len(b);
    assert(tokens_of(b).take(a.len() as int) =~= tokens_of(b));
}

proof fn lemma_tokens_agree_aux<T: PartialEq>(b: Seq<T>, a: Seq<T>, n: int)
    requires
        b.len() == a.len(),
        0 <= n <= a.len(),
        forall|j: int, w: T| #![trigger b[j].eq_spec(&w)] #![trigger a[j].eq_spec(&w)]
            0 <= j < b.len() ==> (b[j].eq_spec(&w) <==> a[j].eq_spec(&w)),
        forall|j: int| 0 <= j < b.len() ==> #[trigger] a[j].eq_spec(&b[j]),
    ensures
        reps_of(b + a.take(n)) == reps_of(b),
        tokens_of(b + a.take(n)) == tokens_of(b) + tokens_of(b).take(n),
    decreases n,
{
    lemma_tokens_len(b);
    if n == 0 {
        assert(b + a.take(0) =~= b);
        assert(tokens_of(b) + tokens_of(b).take(0) =~= tokens_of(b));
    } else {
        lemma_tokens_agree_aux(b, a, n - 1);
        let s0 = b + a.take(n - 1);
        let s1 = b + a.take(n);
        assert(s1.drop_last() =~= s0);
        assert(s1.last() == a[n - 1]);
        let r = reps_of(b);
        let rp = reps_of(b.take(n - 1));
        lemma_model_prefix(b, n - 1);
        lemma_token_at(b, n - 1);
        let k = tokens_of(b)[n - 1];
        lemma_first_match_bounds(rp, b[n - 1]);
        // Nothing below `k` matches `a`'s row either.
        assert forall|i: int| 0 <= i < k implies !(#[trigger] a[n - 1].eq_spec(&r[i])) by {
            assert(rp[i] == r[i]);
            assert(!b[n - 1].eq_spec(&rp[i]));
        }
        if k < rp.len() {
            assert(b[n - 1].eq_spec(&rp[k]));
            assert(rp[k] == r[k]);
            assert(a[n - 1].eq_spec(&r[k]));
            lemma_first_match_at(r, a[n - 1], k);
        } else {
            // `b`'s row became representative `k`; `a`'s row equals it.
            assert(b.take(n).drop_last() =~= b.take(n - 1));
            assert(b.take(n).last() == b[n - 1]);
            assert(reps_of(b.take(n)) == rp.push(b[n - 1]));
            lemma_model_prefix(b, n);
            assert(reps_of(b.take(n))[k] == b[n - 1]);
            assert(r[k] == b[n - 1]);
            assert(a[n - 1].eq_spec(&r[k]));
            lemma_first_match_at(r, a[n - 1], k);
        }
        assert(first_match(reps_of(s0), s1.last()) == k);
        assert(k < r.len());
        assert(reps_of(s1) == r);
        assert(tokens_of(s1) == tokens_of(s0).push(k));
        assert(tokens_of(b) + tokens_of(b).take(n) =~= (tokens_of(b) + tokens_of(b).take(n - 1)).push(
            k,
        ));
    }
}

/// Where a representative row lives: an index into one of the two inputs.
#[derive(Clone, Copy, Debug)]
enum RowRef {
    Before(usize),
    After(usize),
}

spec fn ref_ok(rr: RowRef, blen: nat, alen: nat) -> bool {
    match rr {
        RowRef::Before(x) => (x as nat) < blen,
        RowRef::After(x) => (x as nat) < alen,
    }
}

spec fn refs_valid(rs: Seq<RowRef>, blen: nat, alen: nat) -> bool {
    forall|k: int| 0 <= k < rs.len() ==> ref_ok(#[trigger] rs[k], blen, alen)
}

spec fn ref_row<T>(b: Seq<T>, a: Seq<T>, rr: RowRef) -> T {
    match rr {
        RowRef::Before(x) => b[x as int],
        RowRef::After(x) => a[x as int],
    }
}

spec fn rep_rows<T>(b: Seq<T>, a: Seq<T>, rs: Seq<RowRef>) -> Seq<T> {
    rs.map_values(|rr: RowRef| ref_row(b, a, rr))
}

/// The token of `row` against the current representatives: the index of the
/// first representative it compares equal to, or `reps.len()` if none.
fn scan_reps<T: PartialEq>(b: &Vec<T>, a: &Vec<T>, reps: &Vec<RowRef>, row: &T) -> (k: usize)
    requires
        refs_valid(reps@, b@.len(), a@.len()),
    ensures
        k <= reps@.len(),
        T::obeys_eq_spec() ==> k as int == first_match(rep_rows(b@, a@, reps@), *row),
{
    let ghost rrows = rep_rows(b@, a@, reps@);
    let mut k: usize = 0;
    while k < reps.len()
        invariant
            refs_valid(reps@, b@.len(), a@.len()),
            rrows == rep_rows(b@, a@, reps@),
            0 <= k <= reps@.len(),
            T::obeys_eq_spec() ==> forall|i: int|
                0 <= i < k ==> !(#[trigger] (*row).eq_spec(&rrows[i])),
        decreases reps@.len() - k,
    {
        let rr = reps[k];
        proof {
            assert(ref_ok(reps@[k as int], b@.len(), a@.len()));
            assert(rrows[k as int] == ref_row(b@, a@, reps@[k as int]));
        }
        let same: bool = match rr {
            RowRef::Before(x) => *row == b[x],
            RowRef::After(x) => *row == a[x],
        };
        if same {
            proof {
                if T::obeys_eq_spec() {
                    lemma_first_match_at(rrows, *row, k as int);
                }
            }
            return k;
        }
        k = k + 1;
    }
    proof {
        if T::obeys_eq_spec() {
            lemma_first_match_at(rrows, *row, k as int);
        }
    }
    k
}

/// Interns the two row sequences with one shared representative list and
/// returns their token sequences and the number of distinct tokens.
///
/// Tokens are dense: every returned token is below the returned count. When
/// the row equality obeys its specification, the tokens are exactly those of
/// the interning model applied to the concatenation of the two inputs.
pub fn tokenize_pair<T: PartialEq>(b: &Vec<T>, a: &Vec<T>) -> (r: (Vec<u32>, Vec<u32>, u32))
    requires
        b@.len() + a@.len() < 0x7fff_ffff,
    ensures
        r.0@.len() == b@.len(),
        r.1@.len() == a@.len(),
        r.2 as int <= b@.len() + a@.len(),
        forall|i: int| 0 <= i < r.0@.len() ==> (#[trigger] r.0@[i]) < r.2,
        forall|j: int| 0 <= j < r.1@.len() ==> (#[trigger] r.1@[j]) < r.2,
        T::obeys_eq_spec() ==> {
            &&& forall|i: int|
                0 <= i < b@.len() ==> (#[trigger] r.0@[i]) as int == tokens_of(b@ + a@)[i]
            &&& forall|j: int|
                0 <= j < a@.len() ==> (#[trigger] r.1@[j]) as int == tokens_of(b@ + a@)[b@.len()
                    + j]
            &&& r.2 as int == reps_of(b@ + a@).len()
        },
{
    let ghost s = b@ + a@;
    let mut reps: Vec<RowRef> = Vec::new();
    let mut tb: Vec<u32> = Vec::new();
    let mut ta: Vec<u32> = Vec::new();

    let mut i: usize = 0;
    while i < b.len()
        invariant
            b@.len() + a@.len() < 0x7fff_ffff,
            s == b@ + a@,
            0 <= i <= b@.len(),
            tb@.len() == i,
            reps@.len() <= i,
            refs_valid(reps@, b@.len(), a@.len()),
            forall|x: int| 0 <= x < tb@.len() ==> ((#[trigger] tb@[x]) as int) < reps@.len(),
            T::obeys_eq_spec() ==> {
                &&& rep_rows(b@, a@, reps@) == reps_of(s.take(i as int))
                &&& tb@.map_values(|t: u32| t as int) == tokens_of(s.take(i as int))
            },
        decreases b@.len() - i,
    {
        let ghost old_reps = reps@;
        let ghost old_tb = tb@;
        let k = scan_reps(b, a, &reps, &b[i]);
        if k == reps.len() {
            reps.push(RowRef::Before(i));
        }
        tb.push(k as u32);
        proof {
            assert(s.take(i + 1).drop_last() =~= s.take(i as int));
            assert(s.take(i + 1).last() == b@[i as int]);
            if T::obeys_eq_spec() {
                let rp = reps_of(s.take(i as int));
                assert(k as int == first_match(rp, b@[i as int]));
                lemma_first_match_bounds(rp, b@[i as int]);
                if k as int == rp.len() {
                    assert(rep_rows(b@, a@, old_reps.push(RowRef::Before(i))) =~= rp.push(
                        b@[i as int],
                    ));
                    assert(reps_of(s.take(i + 1)) == rp.push(b@[i as int]));
                } else {
                    assert(reps_of(s.take(i + 1)) == rp);
                }
                assert(tokens_of(s.take(i + 1)) == tokens_of(s.take(i as int)).push(k as int));
                assert(tb@.map_values(|t: u32| t as int) =~= old_tb.map_values(
                    |t: u32| t as int,
                ).push(k as int));
            }
        }
        i = i + 1;
    }

    let ghost blen = b@.len() as int;
    proof {
        assert(s.take(blen) =~= b@);
    }

    let mut j: usize = 0;
    while j < a.len()
        invariant
            b@.len() + a@.len() < 0x7fff_ffff,
            s == b@ + a@,
            blen == b@.len(),
            0 <= j <= a@.len(),
            tb@.len() == b@.len(),
            ta@.len() == j,
            reps@.len() <= b@.len() + j,
            refs_valid(reps@, b@.len(), a@.len()),
            forall|x: int| 0 <= x < tb@.len() ==> ((#[trigger] tb@[x]) as int) < reps@.len(),
            forall|x: int| 0 <= x < ta@.len() ==> ((#[trigger] ta@[x]) as int) < reps@.len(),
            T::obeys_eq_spec() ==> {
                &&& rep_rows(b@, a@, reps@) == reps_of(s.take(blen + j))
                &&& tb@.map_values(|t: u32| t as int) + ta@.map_values(|t: u32| t as int)
                    == tokens_of(s.take(blen + j))
            },
        decreases a@.len() - j,
    {
        let ghost old_reps = reps@;
        let ghost old_ta = ta@;
        let k = scan_reps(b, a, &reps, &a[j]);
        if k == reps.len() {
            reps.push(RowRef::After(j));
        }
        ta.push(k as u32);
        proof {
            assert(s.take(blen + j + 1).drop_last() =~= s.take(blen + j));
            assert(s.take(blen + j + 1).last() == a@[j as int]);
            if T::obeys_eq_spec() {
                let rp = reps_of(s.take(blen + j));
                assert(k as int == first_match(rp, a@[j as int]));
                lemma_first_match_bounds(rp, a@[j as int]);
                if k as int == rp.len() {
                    assert(rep_rows(b@, a@, old_reps.push(RowRef::After(j))) =~= rp.push(
                        a@[j as int],
                    ));
                    assert(reps_of(s.take(blen + j + 1)) == rp.push(a@[j as int]));
                } else {
                    assert(reps_of(s.take(blen + j + 1)) == rp);
                }
                assert(tokens_of(s.take(blen + j + 1)) == tokens_of(s.take(blen + j)).push(
                    k as int,
                ));
                assert(tb@.map_values(|t: u32| t as int) + ta@.map_values(|t: u32| t as int)
                    =~= (tb@.map_values(|t: u32| t as int) + old_ta.map_values(|t: u32| t as int)).push(
                    k as int,
                ));
            }
        }
        j = j + 1;
    }

    let ntok: u32 = reps.len() as u32;
    proof {
        assert(s.take(blen + a@.len()) =~= s);
        lemma_tokens_len(s);
        if T::obeys_eq_spec() {
            let model = tb@.map_values(|t: u32| t as int) + ta@.map_values(|t: u32| t as int);
            assert(model == tokens_of(s));
            assert forall|x: int| 0 <= x < b@.len() implies (#[trigger] tb@[x]) as int
                == tokens_of(s)[x] by {
                assert(model[x] == tb@.map_values(|t: u32| t as int)[x]);
            }
            assert forall|x: int| 0 <= x < a@.len() implies (#[trigger] ta@[x]) as int
                == tokens_of(s)[blen + x] by {
                assert(model[blen + x] == ta@.map_values(|t: u32| t as int)[x]);
            }
        }
    }
    (tb, ta, ntok)
}

} // verus!
