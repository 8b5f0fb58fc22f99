//! Pattern handles: each wraps one immutable pattern, exposes the search
//! algorithms, and builds the auxiliary table an algorithm needs at most once,
//! on first use, reusing it across searches against different texts. Caching
//! is sound because each table is a function of the pattern alone.

use vstd::prelude::*;

use crate::bmh::{bad_character_table, bmh_search, valid_bad_char_table};
use crate::kmp::{border_table, kmp_search, valid_border_table};
use crate::linear::linear_search;
use crate::matching::is_first_match;

verus! {

use vstd::laws_eq::obeys_concrete_eq;
use vstd::string::StringSliceAdditionalSpecFns;

broadcast use vstd::laws_eq::group_laws_eq;

/// A handle around a generic pattern that memoizes the KMP border table.
pub struct KMPPattern<'s, C> {
    pattern: &'s [C],
    borders: Option<Vec<usize>>,
}

impl<'s, C: PartialEq> KMPPattern<'s, C> {
    /// The wrapped pattern.
    pub closed spec fn pattern_seq(&self) -> Seq<C> {
        self.pattern@
    }

    /// The cache slot is either still empty or holds the pattern's border
    /// table.
    pub closed spec fn wf(&self) -> bool {
        match self.borders {
            Some(b) => valid_border_table(self.pattern@, b@),
            None => true,
        }
    }

    /// Wraps a pattern; no table is built yet.
    pub fn new(pattern: &'s [C]) -> (r: KMPPattern<'s, C>)
        ensures
            r.wf(),
            r.pattern_seq() == pattern@,
    {
        KMPPattern { pattern, borders: None }
    }

    /// Searches the text by the brute-force linear scan.
    pub fn linear(&self, text: &[C]) -> (r: Option<usize>)
        requires
            obeys_concrete_eq::<C>(),
        ensures
            is_first_match(self.pattern_seq(), text@, r),
    {
        linear_search(self.pattern, text)
    }

    /// Searches the text by KMP, building the border table on the first call
    /// and reusing it afterwards.
    pub fn kmp(&mut self, text: &[C]) -> (r: Option<usize>)
        requires
            obeys_concrete_eq::<C>(),
            old(self).wf(),
        ensures
            final(self).wf(),
            final(self).pattern_seq() == old(self).pattern_seq(),
            is_first_match(old(self).pattern_seq(), text@, r),
    {
        if self.borders.is_none() {
            let t = border_table(self.pattern);
            self.borders = Some(t);
        }
        kmp_search(self.pattern, text, self.borders.as_ref().unwrap().as_slice())
    }
}

/// A handle around a byte-string pattern that searches texts bytewise and
/// memoizes both the KMP border table and the BMH bad-character table.
pub struct BMHPattern<'s> {
    u8_kmp: KMPPattern<'s, u8>,
    pattern: &'s str,
    bad_char_table: Option<Vec<usize>>,
}

impl<'s> BMHPattern<'s> {
    /// The wrapped pattern, as the byte sequence all searches use.
    pub closed spec fn pattern_bytes(&self) -> Seq<u8> {
        self.pattern.spec_bytes()
    }

    /// The inner byte handle wraps the same pattern's bytes, and each cache
    /// slot is either still empty or holds its table.
    pub closed spec fn wf(&self) -> bool {
        &&& self.u8_kmp.wf()
        &&& self.u8_kmp.pattern_seq() == self.pattern.spec_bytes()
        &&& match self.bad_char_table {
            Some(t) => valid_bad_char_table(self.pattern.spec_bytes(), t@),
            None => true,
        }
    }

    /// Wraps a pattern; no table is built yet.
    pub fn new<'p: 's>(pattern: &'p str) -> (r: BMHPattern<'s>)
        ensures
            r.wf(),
            r.pattern_bytes() == pattern.spec_bytes(),
    {
        BMHPattern { u8_kmp: KMPPattern::new(pattern.as_bytes()), pattern, bad_char_table: None }
    }

    /// Searches the text's bytes by the brute-force linear scan.
    pub fn linear(&self, text: &str) -> (r: Option<usize>)
        requires
            self.wf(),
        ensures
            is_first_match(self.pattern_bytes(), text.spec_bytes(), r),
    {
        self.u8_kmp.linear(text.as_bytes())
    }

    /// Searches the text's bytes by KMP, building the border table on the
    /// first call and reusing it afterwards.
    pub fn kmp(&mut self, text: &str) -> (r: Option<usize>)
        requires
            old(self).wf(),
        ensures
            final(self).wf(),
            final(self).pattern_bytes() == old(self).pattern_bytes(),
            is_first_match(old(self).pattern_bytes(), text.spec_bytes(), r),
    {
        self.u8_kmp.kmp(text.as_bytes())
    }

    /// Searches the text's bytes by BMH, building the bad-character table on
    /// the first call and reusing it afterwards. An empty pattern is
    /// reported absent, as `bmh_search` has it.
    pub fn bmh(&mut self, text: &str) -> (r: Option<usize>)
        requires
            old(self).wf(),
        ensures
            final(self).wf(),
            final(self).pattern_bytes() == old(self).pattern_bytes(),
            old(self).pattern_bytes().len() == 0 ==> r is None,
            old(self).pattern_bytes().len() > 0 ==> is_first_match(
                old(self).pattern_bytes(),
                text.spec_bytes(),
                r,
            ),
    {
        if self.bad_char_table.is_none() {
            let t = bad_character_table(self.pattern);
            self.bad_char_table = Some(t);
        }
        bmh_search(self.pattern, text, self.bad_char_table.as_ref().unwrap().as_slice())
    }
}

} // verus!
