//! The brute-force linear matcher: try every candidate start in order, so the
//! first hit is by construction the leftmost occurrence.

use vstd::prelude::*;

use crate::matching::{is_first_match, no_occurrence_before, occurs_at};

verus! {

use vstd::laws_eq::obeys_concrete_eq;

/// Whether the pattern occurs at candidate start `s`, by a left-to-right
/// element comparison. Bounds are established before any text element is read.
#[verifier::loop_isolation(false)]
fn matches_at<C: PartialEq>(pattern: &[C], text: &[C], s: usize) -> (r: bool)
    requires
        obeys_concrete_eq::<C>(),
        s + pattern@.len() <= text@.len(),
    ensures
        r == occurs_at(pattern@, text@, s as int),
{
    proof {
        reveal(vstd::laws_eq::obeys_concrete_eq);
    }
    let m = pattern.len();
    let n = text.len();
    let mut j: usize = 0;
    while j < m
        invariant
            j <= m,
            forall|jj: int| 0 <= jj < j ==> text@[s + jj] == #[trigger] pattern@[jj],
        decreases m - j,
    {
        if text[s + j] != pattern[j] {
            return false;
        }
        j += 1;
    }
    true
}

/// Brute-force search for the pattern's first occurrence in the text.
///
/// Every candidate start from `0` to `text.len() - pattern.len()` is tried in
/// order; the first full match is returned. An empty pattern matches at `0`;
/// a pattern longer than the text is reported absent without reading past the
/// text's end.
#[verifier::loop_isolation(false)]
pub fn linear_search<C: PartialEq>(pattern: &[C], text: &[C]) -> (r: Option<usize>)
    requires
        obeys_concrete_eq::<C>(),
    ensures
        is_first_match(pattern@, text@, r),
{
    let m = pattern.len();
    let n = text.len();
    if m == 0 {
        return Some(0);
    }
    if m > n {
        return None;
    }
    let mut s: usize = 0;
    while s <= n - m
        invariant
            s <= n - m + 1,
            no_occurrence_before(pattern@, text@, s as int),
        decreases n - m + 1 - s,
    {
        if matches_at(pattern, text, s) {
            return Some(s);
        }
        s += 1;
    }
    assert forall|k: int| !occurs_at(pattern@, text@, k) by {
        if n - m < k {
            assert(k + pattern@.len() > text@.len());
        }
    }
    None
}

} // verus!
