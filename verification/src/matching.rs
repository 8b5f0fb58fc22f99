//! The mathematical model of substring matching: what it means for a pattern
//! to occur at a position of a text, and what a correct first-match result is.
//! Every search algorithm in this crate promises `is_first_match` of its
//! result, so the lemmas here apply to all of them at once.

use vstd::prelude::*;

verus! {

/// The pattern occurs in the text starting at position `i`: the window fits
/// inside the text and every pattern element equals the text element under it.
pub open spec fn occurs_at<C>(pat: Seq<C>, text: Seq<C>, i: int) -> bool {
    &&& 0 <= i
    &&& i + pat.len() <= text.len()
    &&& forall|j: int| 0 <= j < pat.len() ==> text[i + j] == #[trigger] pat[j]
}

/// No occurrence of the pattern starts strictly before position `i`.
pub open spec fn no_occurrence_before<C>(pat: Seq<C>, text: Seq<C>, i: int) -> bool {
    forall|k: int| 0 <= k < i ==> !occurs_at(pat, text, k)
}

/// A correct search result: `Some(i)` exactly at the leftmost occurrence,
/// `None` exactly when the pattern occurs nowhere in the text.
pub open spec fn is_first_match<C>(pat: Seq<C>, text: Seq<C>, r: Option<usize>) -> bool {
    match r {
        Some(i) => occurs_at(pat, text, i as int) && no_occurrence_before(pat, text, i as int),
        None => forall|k: int| !occurs_at(pat, text, k),
    }
}

/// A first match is unique: any two correct results for the same pattern and
/// text are equal. In particular the linear, KMP and BMH searches, each of
/// which returns a correct result, agree with one another.
pub proof fn lemma_first_match_unique<C>(
    pat: Seq<C>,
    text: Seq<C>,
    r1: Option<usize>,
    r2: Option<usize>,
)
    requires
        is_first_match(pat, text, r1),
        is_first_match(pat, text, r2),
    ensures
        r1 == r2,
{
    match (r1, r2) {
        (Some(i1), Some(i2)) => {
            if i1 < i2 {
                assert(!occurs_at(pat, text, i1 as int));
            }
            if i2 < i1 {
                assert(!occurs_at(pat, text, i2 as int));
            }
        },
        (Some(i1), None) => {
            assert(!occurs_at(pat, text, i1 as int));
        },
        (None, Some(i2)) => {
            assert(!occurs_at(pat, text, i2 as int));
        },
        (None, None) => {},
    }
}

/// A correct result never reports a position to the right of a known
/// occurrence: whenever the pattern occurs at `k`, the search finds some
/// position no larger than `k`.
pub proof fn lemma_first_match_smallest<C>(pat: Seq<C>, text: Seq<C>, r: Option<usize>, k: int)
    requires
        is_first_match(pat, text, r),
        occurs_at(pat, text, k),
    ensures
        r matches Some(i) && i as int <= k,
{
    match r {
        Some(i) => {
            if k < i as int {
                assert(!occurs_at(pat, text, k));
            }
        },
        None => {
            assert(!occurs_at(pat, text, k));
        },
    }
}

/// An empty pattern occurs at position `0` of any text, so a correct search
/// for it returns `Some(0)`.
pub proof fn lemma_empty_pattern_first_match<C>(pat: Seq<C>, text: Seq<C>, r: Option<usize>)
    requires
        pat.len() == 0,
        is_first_match(pat, text, r),
    ensures
        r == Some(0usize),
{
    assert(occurs_at(pat, text, 0));
    match r {
        Some(i) => {
            if 0 < i as int {
                assert(!occurs_at(pat, text, 0));
            }
        },
        None => {
            assert(!occurs_at(pat, text, 0));
        },
    }
}

/// No false negatives at the text's tail: a pattern equal to the text's
/// trailing suffix is found, at `text.len() - pat.len()` or earlier.
pub proof fn lemma_trailing_suffix_found<C>(pat: Seq<C>, text: Seq<C>, r: Option<usize>)
    requires
        pat.len() <= text.len(),
        pat =~= text.subrange(text.len() - pat.len(), text.len() as int),
        is_first_match(pat, text, r),
    ensures
        r matches Some(i) && i as int <= text.len() - pat.len(),
{
    let s = text.len() - pat.len();
    assert forall|j: int| 0 <= j < pat.len() implies text[s + j] == #[trigger] pat[j] by {
        assert(pat[j] == text.subrange(s, text.len() as int)[j]);
    }
    assert(occurs_at(pat, text, s));
    lemma_first_match_smallest(pat, text, r, s);
}

} // verus!
