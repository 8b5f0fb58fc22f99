//! Substring search: a linear scan, Knuth-Morris-Pratt with its border
//! (failure) table, and Boyer-Moore-Horspool with its bad-character shift
//! table, together with pattern handles that build each table once and
//! reuse it across searches.

pub mod bmh;
pub mod handle;
pub mod kmp;
pub mod linear;
pub mod matching;

pub use bmh::{bad_char_entry, bad_character_table, bmh_search, last_index_of, valid_bad_char_table};
pub use handle::{BMHPattern, KMPPattern};
pub use kmp::{border_table, is_border, is_longest_proper_border, kmp_search, valid_border_table};
pub use linear::linear_search;
pub use matching::{is_first_match, no_occurrence_before, occurs_at};
