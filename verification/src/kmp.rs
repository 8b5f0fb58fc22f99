//! Knuth-Morris-Pratt: the border (failure) table and the matcher that
//! consumes it.
//!
//! A border of a prefix is a proper prefix of it that is also a suffix of it.
//! The table stores, for every prefix length, the length of its longest
//! border; on a mismatch the matcher re-aligns the pattern by that border
//! instead of restarting, and the table's maximality is exactly what
//! guarantees that no occurrence is skipped.

use vstd::prelude::*;

use crate::matching::{is_first_match, no_occurrence_before, occurs_at};

verus! {

use vstd::laws_eq::obeys_concrete_eq;

/// `b` is the length of a border of the pattern prefix of length `i`: the
/// first `b` elements equal the last `b` elements of that prefix.
pub open spec fn is_border<C>(pat: Seq<C>, i: int, b: int) -> bool {
    &&& 0 <= b <= i <= pat.len()
    &&& forall|j: int| 0 <= j < b ==> #[trigger] pat[j] == pat[i - b + j]
}

/// `b` is the length of the longest proper border of the prefix of length `i`.
pub open spec fn is_longest_proper_border<C>(pat: Seq<C>, i: int, b: int) -> bool {
    &&& is_border(pat, i, b)
    &&& b < i
    &&& forall|b2: int| b < b2 < i ==> !is_border(pat, i, b2)
}

/// A correct border table for the pattern: empty for an empty pattern, and
/// otherwise of length `pat.len() + 1` with entry `i` the longest proper
/// border of the prefix of length `i` (entry `0` is `0` by convention).
pub open spec fn valid_border_table<C>(pat: Seq<C>, t: Seq<usize>) -> bool {
    &&& t.len() == if pat.len() == 0 { 0int } else { pat.len() + 1int }
    &&& t.len() > 0 ==> t[0] == 0
    &&& forall|i: int| 1 <= i < t.len() ==> is_longest_proper_border(pat, i, #[trigger] t[i] as int)
}

/// A border of length `b >= 1` of the prefix of length `i` is exactly a
/// border of length `b - 1` of the prefix of length `i - 1` whose next
/// pattern element matches the prefix's last element.
pub proof fn lemma_border_extend<C>(pat: Seq<C>, i: int, b: int)
    requires
        1 <= b < i,
        i <= pat.len(),
    ensures
        is_border(pat, i, b) <==> (is_border(pat, i - 1, b - 1) && pat[b - 1] == pat[i - 1]),
{
    if is_border(pat, i, b) {
        assert forall|j: int| 0 <= j < b - 1 implies #[trigger] pat[j] == pat[(i - 1) - (b - 1)
            + j] by {
            assert(pat[j] == pat[i - b + j]);
        }
        assert(pat[b - 1] == pat[i - b + (b - 1)]);
    }
    if is_border(pat, i - 1, b - 1) && pat[b - 1] == pat[i - 1] {
        assert forall|j: int| 0 <= j < b implies #[trigger] pat[j] == pat[i - b + j] by {
            if j < b - 1 {
                assert(pat[j] == pat[(i - 1) - (b - 1) + j]);
            }
        }
    }
}

/// A border of a border is a border: borders compose downward.
pub proof fn lemma_border_of_border<C>(pat: Seq<C>, i: int, b: int, c: int)
    requires
        is_border(pat, i, b),
        is_border(pat, b, c),
    ensures
        is_border(pat, i, c),
{
    assert forall|j: int| 0 <= j < c implies #[trigger] pat[j] == pat[i - c + j] by {
        assert(pat[j] == pat[b - c + j]);
        assert(pat[b - c + j] == pat[i - b + (b - c + j)]);
    }
}

/// Of two borders of the same prefix, the shorter is a border of the longer.
/// This is why following the border chain visits every border.
pub proof fn lemma_border_nesting<C>(pat: Seq<C>, i: int, x: int, y: int)
    requires
        is_border(pat, i, x),
        is_border(pat, i, y),
        x <= y,
    ensures
        is_border(pat, y, x),
{
    assert forall|j: int| 0 <= j < x implies #[trigger] pat[j] == pat[y - x + j] by {
        assert(pat[j] == pat[i - x + j]);
        assert(pat[y - x + j] == pat[i - y + (y - x + j)]);
    }
}

/// Builds the border table of the pattern.
///
/// Entries `0` and `1` are `0`; each further entry extends the previous one
/// by following the border chain until the next pattern element matches, in
/// the classical failure-function construction. The table depends on the
/// pattern alone, never on any text.
#[verifier::loop_isolation(false)]
pub fn border_table<C: PartialEq>(pattern: &[C]) -> (r: Vec<usize>)
    requires
        obeys_concrete_eq::<C>(),
    ensures
        valid_border_table(pattern@, r@),
{
    proof {
        reveal(vstd::laws_eq::obeys_concrete_eq);
    }
    let m = pattern.len();
    let mut borders: Vec<usize> = Vec::new();
    if m == 0 {
        return borders;
    }
    borders.push(0);
    borders.push(0);
    let mut i: usize = 1;
    while i < m
        invariant
            1 <= i <= m,
            borders@.len() == i + 1,
            borders@[0] == 0,
            forall|l: int|
                1 <= l <= i ==> is_longest_proper_border(pattern@, l, #[trigger] borders@[l] as int),
        decreases m - i,
    {
        // The next entry is for the prefix of length i + 1, whose last
        // element is pattern[i]. b walks the border chain of the prefix of
        // length i; throughout, no border of the prefix of length i + 1 can
        // be longer than b + 1.
        let mut b = borders[i];
        proof {
            assert forall|c: int| b + 1 < c < i + 1 implies !(#[trigger] is_border(
                pattern@,
                i + 1,
                c,
            )) by {
                if is_border(pattern@, i + 1, c) {
                    lemma_border_extend(pattern@, i + 1, c);
                    assert(is_border(pattern@, i as int, c - 1));
                }
            }
        }
        while pattern[b] != pattern[i] && b != 0
            invariant
                b < i,
                is_border(pattern@, i as int, b as int),
                forall|c: int| b + 1 < c < i + 1 ==> !(#[trigger] is_border(pattern@, i + 1, c)),
            decreases b,
        {
            let b_prev = b;
            b = borders[b];
            proof {
                // b remains a border of the prefix of length i.
                lemma_border_of_border(pattern@, i as int, b_prev as int, b as int);
                // No border of the prefix of length i + 1 may end in a chain
                // position that was skipped.
                assert forall|c: int| b + 1 < c < i + 1 implies !(#[trigger] is_border(
                    pattern@,
                    i + 1,
                    c,
                )) by {
                    if c <= b_prev + 1 && is_border(pattern@, i + 1, c) {
                        lemma_border_extend(pattern@, i + 1, c);
                        if c == b_prev + 1 {
                            // would need the mismatched element to match
                            assert(pattern@[b_prev as int] == pattern@[i as int]);
                        } else {
                            // c - 1 would be a border of the prefix of length
                            // b_prev longer than its longest border b
                            lemma_border_nesting(pattern@, i as int, c - 1, b_prev as int);
                            assert(is_border(pattern@, b_prev as int, c - 1));
                        }
                    }
                }
            }
        }
        if pattern[b] == pattern[i] {
            proof {
                lemma_border_extend(pattern@, i + 1, b + 1);
            }
            borders.push(b + 1);
        } else {
            // here b == 0 and the prefix of length i + 1 has no nonempty border
            proof {
                assert forall|c: int| 0 < c < i + 1 implies !(#[trigger] is_border(pattern@, i + 1, c)) by {
                    if c == 1 && is_border(pattern@, i + 1, c) {
                        lemma_border_extend(pattern@, i + 1, 1);
                    }
                }
            }
            borders.push(0);
        }
        i += 1;
    }
    borders
}

/// No occurrence of the pattern starts inside the stretch that a KMP border
/// shift skips: a start strictly between `t` and `t + p - b` would make the
/// overlap a border of the prefix of length `p` longer than its longest
/// proper border `b`.
proof fn lemma_shift_skips_no_occurrence<C>(
    pat: Seq<C>,
    text: Seq<C>,
    t: int,
    p: int,
    b: int,
    k: int,
)
    requires
        0 <= t,
        0 < p <= pat.len(),
        t + p <= text.len(),
        forall|j: int| 0 <= j < p ==> text[t + j] == #[trigger] pat[j],
        is_longest_proper_border(pat, p, b),
        t < k < t + p - b,
    ensures
        !occurs_at(pat, text, k),
{
    if occurs_at(pat, text, k) {
        let l = t + p - k;
        assert forall|j: int| 0 <= j < l implies #[trigger] pat[j] == pat[p - l + j] by {
            assert(pat[j] == text[k + j]);
            assert(text[t + (k - t + j)] == pat[k - t + j]);
        }
        assert(is_border(pat, p, l));
    }
}

/// KMP search for the pattern's first occurrence in the text, using a border
/// table already built for this pattern.
///
/// The cursor pair is a candidate start `t` and the number `p` of pattern
/// elements already matched there. On a mismatch with `p > 0` the candidate
/// advances by `p - borders[p]` and the first `borders[p]` elements stay
/// matched, so no text element is ever re-read to the left. An empty pattern
/// matches at `0`; a pattern longer than the text is reported absent.
#[verifier::loop_isolation(false)]
pub fn kmp_search<C: PartialEq>(pattern: &[C], text: &[C], borders: &[usize]) -> (r: Option<
    usize,
>)
    requires
        obeys_concrete_eq::<C>(),
        valid_border_table(pattern@, borders@),
    ensures
        is_first_match(pattern@, text@, r),
{
    proof {
        reveal(vstd::laws_eq::obeys_concrete_eq);
    }
    let m = pattern.len();
    let n = text.len();
    if m == 0 {
        return Some(0);
    }
    let mut t: usize = 0;
    let mut p: usize = 0;
    while t + p < n
        invariant
            t + p <= n,
            p < m,
            forall|j: int| 0 <= j < p ==> text@[t + j] == #[trigger] pattern@[j],
            no_occurrence_before(pattern@, text@, t as int),
        decreases 2 * n - 2 * t - p,
    {
        if text[t + p] == pattern[p] {
            p += 1;
            if p == m {
                return Some(t);
            }
        } else if p == 0 {
            proof {
                assert forall|k: int| 0 <= k < t + 1 implies !(#[trigger] occurs_at(pattern@, text@, k)) by {
                    if k == t && occurs_at(pattern@, text@, k) {
                        assert(text@[t as int] == pattern@[0]);
                    }
                }
            }
            t += 1;
        } else {
            let b = borders[p];
            proof {
                assert(is_longest_proper_border(pattern@, p as int, b as int));
                assert forall|k: int| 0 <= k < t + (p - b) implies !(#[trigger] occurs_at(
                    pattern@,
                    text@,
                    k,
                )) by {
                    if k == t && occurs_at(pattern@, text@, k) {
                        assert(text@[t + p] == pattern@[p as int]);
                    }
                    if t < k {
                        lemma_shift_skips_no_occurrence(
                            pattern@,
                            text@,
                            t as int,
                            p as int,
                            b as int,
                            k,
                        );
                    }
                }
                // the matched prefix survives the shift, shortened to b
                assert forall|j: int| 0 <= j < b implies text@[(t + (p - b)) + j]
                    == #[trigger] pattern@[j] by {
                    assert(pattern@[j] == pattern@[p - b + j]);
                    assert(text@[t + (p - b + j)] == pattern@[p - b + j]);
                }
            }
            t += p - b;
            p = b;
        }
    }
    proof {
        assert forall|k: int| !occurs_at(pattern@, text@, k) by {
            if t <= k && occurs_at(pattern@, text@, k) {
                assert(k + pattern@.len() > text@.len());
            }
        }
    }
    None
}

} // verus!
