use substring_search::{
    bad_character_table, bmh_search, border_table, kmp_search, linear_search, BMHPattern,
    KMPPattern,
};

fn search_all_three(pattern: &str, text: &str) -> [Option<usize>; 3] {
    let lin = linear_search(pattern.as_bytes(), text.as_bytes());
    let borders = border_table(pattern.as_bytes());
    let kmp = kmp_search(pattern.as_bytes(), text.as_bytes(), &borders[..]);
    let table = bad_character_table(pattern);
    let bmh = bmh_search(pattern, text, &table[..]);
    [lin, kmp, bmh]
}

#[test]
fn algorithms_agree_on_nonempty_patterns() {
    let patterns = ["a", "b", "ab", "ba", "aa", "aab", "abb", "bab", "aabaa", "abcab", "zz"];
    let texts = ["", "a", "b", "aa", "ab", "abab", "xabb", "aabaabaa", "abcabcabd", "bananaban"];
    for pattern in patterns.iter() {
        for text in texts.iter() {
            let [lin, kmp, bmh] = search_all_three(pattern, text);
            assert_eq!(lin, kmp);
            assert_eq!(lin, bmh);
        }
    }
}

#[test]
fn first_occurrence_is_reported() {
    // the pattern occurs more than once, overlapping included; every
    // algorithm reports the leftmost start
    let [lin, kmp, bmh] = search_all_three("aba", "xabababa");
    assert_eq!(lin, Some(1));
    assert_eq!(kmp, Some(1));
    assert_eq!(bmh, Some(1));
    let [lin, kmp, bmh] = search_all_three("aa", "aaaa");
    assert_eq!(lin, Some(0));
    assert_eq!(kmp, Some(0));
    assert_eq!(bmh, Some(0));
}

#[test]
fn empty_pattern_matches_at_zero_for_linear_and_kmp() {
    let empty: Vec<char> = Vec::new();
    let text: Vec<char> = "abc".chars().collect();
    assert_eq!(linear_search(&empty[..], &text[..]), Some(0));
    let borders = border_table(&empty[..]);
    assert_eq!(kmp_search(&empty[..], &text[..], &borders[..]), Some(0));
    let mut handle = KMPPattern::new(&empty[..]);
    assert_eq!(handle.linear(&text[..]), Some(0));
    assert_eq!(handle.kmp(&text[..]), Some(0));
}

#[test]
fn empty_pattern_is_absent_for_bmh() {
    let table = bad_character_table("");
    assert_eq!(bmh_search("", "abc", &table[..]), None);
    let mut handle = BMHPattern::new("");
    assert_eq!(handle.bmh("abc"), None);
}

#[test]
fn trailing_suffix_is_found() {
    // the pattern is exactly the text's tail, pattern length equal to the
    // remaining text length
    let [lin, kmp, bmh] = search_all_three("hen", "then");
    assert_eq!(lin, Some(1));
    assert_eq!(kmp, Some(1));
    assert_eq!(bmh, Some(1));
    let [lin, kmp, bmh] = search_all_three("then", "then");
    assert_eq!(lin, Some(0));
    assert_eq!(kmp, Some(0));
    assert_eq!(bmh, Some(0));
}

#[test]
fn bmh_finds_match_after_partial_suffix_mismatch() {
    // after 'b' matches at the window end and 'a' mismatches one step in,
    // the shift must not jump past the occurrence one position to the right
    let [lin, kmp, bmh] = search_all_three("abb", "xabb");
    assert_eq!(lin, Some(1));
    assert_eq!(kmp, Some(1));
    assert_eq!(bmh, Some(1));
}

#[test]
fn bmh_terminates_when_mismatching_byte_ends_the_pattern() {
    // the mismatching text byte equals the pattern's last byte, whose table
    // entry is zero; the window must still advance
    let [lin, kmp, bmh] = search_all_three("ba", "aa");
    assert_eq!(lin, None);
    assert_eq!(kmp, None);
    assert_eq!(bmh, None);
}

#[test]
fn pattern_longer_than_text_is_absent() {
    let [lin, kmp, bmh] = search_all_three("abcdef", "abc");
    assert_eq!(lin, None);
    assert_eq!(kmp, None);
    assert_eq!(bmh, None);
}
