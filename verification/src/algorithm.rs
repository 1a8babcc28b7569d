//! Algorithm selection and the library's error type.
//!
//! The set of diff algorithms is a closed enumeration, selected by a
//! case-insensitive name; an unrecognised name is rejected before any
//! computation starts.

use vstd::prelude::*;
use vstd::string::StrSliceExecFns;

verus! {

/// The supported diff algorithms.
#[derive(Clone, Copy, Debug, PartialEq, Eq, Structural)]
pub enum DiffAlgorithm {
    /// Anchors on low-frequency tokens; favours readable diffs.
    Histogram,
    /// The classic shortest-edit-script algorithm.
    Myers,
}

/// Why a diff invocation was rejected.
#[derive(Clone, Copy, Debug, PartialEq, Eq, Structural)]
pub enum DiffError {
    /// The algorithm name is not in the recognised set.
    UnknownAlgorithm,
}

/// `x` matches `y` up to ASCII case, for a lowercase ASCII letter `y`:
/// either the same character, or its uppercase form.
pub open spec fn char_eq_ci(x: char, y: char) -> bool {
    ||| x as int == y as int
    ||| (97 <= y as int <= 122 && x as int + 32 == y as int)
}

/// `s` spells `t` up to ASCII case, where `t` is a lowercase ASCII name.
pub open spec fn name_eq_ci(s: Seq<char>, t: Seq<char>) -> bool {
    s.len() == t.len() && forall|i: int| 0 <= i < s.len() ==> char_eq_ci(#[trigger] s[i], t[i])
}

/// The algorithm selected by a name, if the name is recognised.
pub open spec fn spec_parse_algorithm(s: Seq<char>) -> Option<DiffAlgorithm> {
    if name_eq_ci(s, "histogram"@) {
        Some(DiffAlgorithm::Histogram)
    } else if name_eq_ci(s, "myers"@) {
        Some(DiffAlgorithm::Myers)
    } else {
        None
    }
}

/// Whether a name selects one of the supported algorithms.
pub open spec fn algorithm_known(s: Seq<char>) -> bool {
    spec_parse_algorithm(s) is Some
}

/// Whether `s` spells `t` up to ASCII case, character by character.
fn name_matches_ci(s: &str, t: &str) -> (r: bool)
    ensures
        r == name_eq_ci(s@, t@),
{
    let n: usize = s.unicode_len();
    if n != t.unicode_len() {
        return false;
    }
    let mut i: usize = 0;
    while i < n
        invariant
            n == s@.len(),
            n == t@.len(),
            0 <= i <= n,
            forall|k: int| 0 <= k < i ==> char_eq_ci(#[trigger] s@[k], t@[k]),
        decreases n - i,
    {
        let c: u32 = s.get_char(i) as u32;
        let d: u32 = t.get_char(i) as u32;
        if !(c == d || (97 <= d && d <= 122 && c + 32 == d)) {
            return false;
        }
        i = i + 1;
    }
    true
}

/// Resolves a case-insensitive algorithm name to an algorithm.
pub fn parse_algorithm(s: &str) -> (r: Option<DiffAlgorithm>)
    ensures
        r == spec_parse_algorithm(s@),
{
    if name_matches_ci(s, "histogram") {
        Some(DiffAlgorithm::Histogram)
    } else if name_matches_ci(s, "myers") {
        Some(DiffAlgorithm::Myers)
    } else {
        None
    }
}

impl DiffError {
    /// A short description of the error.
    pub fn message(&self) -> (r: &'static str)
        ensures
            r@ == "unknown algorithm"@,
    {
        "unknown algorithm"
    }
}

} // verus!
