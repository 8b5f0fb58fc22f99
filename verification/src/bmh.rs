//! Boyer-Moore-Horspool over byte patterns: the bad-character shift table and
//! the matcher that consumes it.
//!
//! The table maps every byte value to a shift distance derived from that
//! byte's rightmost occurrence in the pattern; bytes absent from the pattern
//! get the full pattern length. On a mismatch the matcher advances the window
//! so that the mismatching text byte lines up with its rightmost occurrence
//! in the pattern; bounded below by one so the window always advances, this
//! shift can skip no occurrence.

use vstd::prelude::*;

use crate::matching::{is_first_match, no_occurrence_before, occurs_at};

verus! {

use vstd::pervasive::VecAdditionalExecFns;
use vstd::string::StringSliceAdditionalSpecFns;

/// The index of the last (rightmost) occurrence of `c` in `s`, or `-1` when
/// `c` does not occur in `s`.
pub open spec fn last_index_of(s: Seq<u8>, c: u8) -> int
    decreases s.len(),
{
    if s.len() == 0 {
        -1
    } else if s[s.len() - 1] == c {
        s.len() - 1
    } else {
        last_index_of(s.take(s.len() - 1), c)
    }
}

/// `last_index_of` is what its name says: it lands on an occurrence of `c`,
/// nothing to its right is an occurrence, and `-1` means `c` is absent.
pub proof fn lemma_last_index_of(s: Seq<u8>, c: u8)
    ensures
        -1 <= last_index_of(s, c) < s.len(),
        last_index_of(s, c) >= 0 ==> s[last_index_of(s, c)] == c,
        forall|j: int| last_index_of(s, c) < j < s.len() ==> s[j] != c,
    decreases s.len(),
{
    if s.len() > 0 && s[s.len() - 1] != c {
        let head = s.take(s.len() - 1);
        lemma_last_index_of(head, c);
        assert forall|j: int| last_index_of(s, c) < j < s.len() implies s[j] != c by {
            if j < s.len() - 1 {
                assert(head[j] == s[j]);
            }
        }
    }
}

/// The shift stored for byte `c`: the distance from the pattern's end to the
/// rightmost occurrence of `c`, or the whole pattern length when `c` is
/// absent from the pattern.
pub open spec fn bad_char_entry(pat: Seq<u8>, c: u8) -> int {
    if last_index_of(pat, c) >= 0 {
        pat.len() - 1 - last_index_of(pat, c)
    } else {
        pat.len() as int
    }
}

/// A correct bad-character table for the pattern: one entry per byte value,
/// each the rightmost-occurrence shift for that byte.
pub open spec fn valid_bad_char_table(pat: Seq<u8>, t: Seq<usize>) -> bool {
    &&& t.len() == 256
    &&& forall|c: int| 0 <= c < 256 ==> #[trigger] t[c] as int == bad_char_entry(pat, c as u8)
}

/// The entry for byte `c` after only the first `upto` pattern bytes have been
/// scanned; scanning the whole pattern yields `bad_char_entry`.
spec fn scanned_entry(pat: Seq<u8>, upto: int, c: u8) -> int {
    if last_index_of(pat.take(upto), c) >= 0 {
        pat.len() - 1 - last_index_of(pat.take(upto), c)
    } else {
        pat.len() as int
    }
}

/// Builds the 256-entry bad-character shift table of a byte pattern.
///
/// Every entry starts at the pattern length; scanning the pattern left to
/// right then writes `m - 1 - i` for the byte at position `i`, so a byte
/// occurring more than once keeps the value from its last occurrence.
#[verifier::loop_isolation(false)]
pub fn bad_character_table(pattern: &str) -> (r: Vec<usize>)
    ensures
        valid_bad_char_table(pattern.spec_bytes(), r@),
{
    let bytes = pattern.as_bytes();
    let m = bytes.len();
    let mut table: Vec<usize> = Vec::new();
    let mut k: usize = 0;
    while k < 256
        invariant
            k <= 256,
            table@.len() == k,
            forall|c: int| 0 <= c < k ==> #[trigger] table@[c] == m,
        decreases 256 - k,
    {
        table.push(m);
        k += 1;
    }
    proof {
        assert(bytes@.take(0) =~= Seq::<u8>::empty());
        assert forall|c: int| 0 <= c < 256 implies #[trigger] table@[c] as int == scanned_entry(
            bytes@,
            0,
            c as u8,
        ) by {}
    }
    let mut i: usize = 0;
    while i < m
        invariant
            i <= m,
            table@.len() == 256,
            forall|c: int|
                0 <= c < 256 ==> #[trigger] table@[c] as int == scanned_entry(
                    bytes@,
                    i as int,
                    c as u8,
                ),
        decreases m - i,
    {
        let c = bytes[i];
        let ghost old_table = table@;
        table.set(c as usize, m - 1 - i);
        proof {
            let scanned = bytes@.take(i + 1);
            assert(scanned.take(scanned.len() - 1) =~= bytes@.take(i as int));
            assert(scanned[scanned.len() - 1] == bytes@[i as int]);
            assert forall|c2: int| 0 <= c2 < 256 implies #[trigger] table@[c2] as int
                == scanned_entry(bytes@, i + 1, c2 as u8) by {
                if c2 != c as int {
                    assert(table@[c2] == old_table[c2]);
                }
            }
        }
        i += 1;
    }
    proof {
        assert(bytes@.take(m as int) =~= bytes@);
    }
    table
}

/// No occurrence of the pattern starts inside the stretch that a
/// bad-character shift skips: a start strictly between `t` and
/// `t + (entry - (m - 1 - p))` would place the mismatching text byte on top
/// of a pattern byte to the right of that byte's rightmost occurrence.
proof fn lemma_shift_skips_no_occurrence(pat: Seq<u8>, text: Seq<u8>, t: int, p: int, k: int)
    requires
        0 <= t,
        0 <= p < pat.len(),
        t + pat.len() <= text.len(),
        t < k,
        k + pat.len() <= text.len(),
        k - t < bad_char_entry(pat, text[t + p]) - (pat.len() - 1 - p),
    ensures
        !occurs_at(pat, text, k),
{
    let c = text[t + p];
    lemma_last_index_of(pat, c);
    if occurs_at(pat, text, k) {
        let d = t + p - k;
        assert(pat[d] == text[k + d]);
        assert(pat[d] == c);
    }
}

/// BMH search for the pattern's first occurrence in the text, using a
/// bad-character table already built for this pattern. Both pattern and text
/// are read as bytes and the returned index counts bytes.
///
/// The window is compared right to left; on a mismatch it advances by the
/// mismatching text byte's table entry less the already-matched suffix
/// length, and always by at least one. An empty pattern is reported absent
/// (its table is degenerate and the window comparison is undefined for it);
/// a pattern longer than the text is reported absent without reading past
/// the text's end.
#[verifier::loop_isolation(false)]
pub fn bmh_search(pattern: &str, text: &str, bad_char_table: &[usize]) -> (r: Option<usize>)
    requires
        valid_bad_char_table(pattern.spec_bytes(), bad_char_table@),
    ensures
        pattern.spec_bytes().len() == 0 ==> r is None,
        pattern.spec_bytes().len() > 0 ==> is_first_match(
            pattern.spec_bytes(),
            text.spec_bytes(),
            r,
        ),
{
    let pat = pattern.as_bytes();
    let txt = text.as_bytes();
    let m = pat.len();
    let n = txt.len();
    if m == 0 {
        return None;
    }
    if m > n {
        assert forall|k: int| !occurs_at(pat@, txt@, k) by {
            if 0 <= k && occurs_at(pat@, txt@, k) {
                assert(k + pat@.len() > txt@.len());
            }
        }
        return None;
    }
    let mut t: usize = 0;
    while t <= n - m
        invariant
            t <= n,
            no_occurrence_before(pat@, txt@, t as int),
        decreases n - t,
    {
        // compare the window right to left, while it matches
        let mut p = m - 1;
        while txt[t + p] == pat[p]
            invariant
                p < m,
                forall|j: int| p < j < m ==> txt@[t + j] == #[trigger] pat@[j],
            decreases p,
        {
            if p == 0 {
                // every window byte matched
                assert(occurs_at(pat@, txt@, t as int));
                return Some(t);
            }
            p -= 1;
        }
        // the byte that caused the mismatch decides the shift; the matched
        // suffix is subtracted so the rightmost occurrence lines up with it,
        // and the window always moves at least one step
        let entry = bad_char_table[txt[t + p] as usize];
        let matched = m - 1 - p;
        let shift = if entry > matched {
            entry - matched
        } else {
            1
        };
        proof {
            lemma_last_index_of(pat@, txt@[t + p]);
            assert forall|k: int| 0 <= k < t + shift implies !(#[trigger] occurs_at(
                pat@,
                txt@,
                k,
            )) by {
                if k == t && occurs_at(pat@, txt@, k) {
                    assert(txt@[t + p] == pat@[p as int]);
                }
                if t < k && occurs_at(pat@, txt@, k) {
                    lemma_shift_skips_no_occurrence(pat@, txt@, t as int, p as int, k);
                }
            }
        }
        t += shift;
    }
    assert forall|k: int| !occurs_at(pat@, txt@, k) by {
        if t <= k && occurs_at(pat@, txt@, k) {
            assert(k + pat@.len() > txt@.len());
        }
    }
    None
}

} // verus!
