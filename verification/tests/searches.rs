use substring_search::{BMHPattern, KMPPattern};

#[test]
fn linear() {
    let cases: [(Option<usize>, &str); 7] = [
        (Some(0), "the"),
        (Some(0), "the dog is"),
        (Some(1), "he "),
        (Some(4), "dog"),
        (Some(16), "dead"),
        (Some(21), "then"),
        (None, "frank"),
    ];
    let text: Vec<char> = "the dog is very dead then".chars().collect();
    for &(want, pattern) in cases.iter() {
        let chars: Vec<char> = pattern.chars().collect();
        let searcher = KMPPattern::new(&chars[..]);
        assert_eq!(searcher.linear(&text[..]), want);
    }
}

#[test]
fn kmp() {
    let cases: [(Option<usize>, &str); 7] = [
        (Some(0), "the"),
        (Some(0), "the dog is"),
        (Some(1), "he "),
        (Some(4), "dog"),
        (Some(16), "dead"),
        (Some(21), "then"),
        (None, "frank"),
    ];
    let text: Vec<char> = "the dog is very dead then".chars().collect();
    for &(want, pattern) in cases.iter() {
        let chars: Vec<char> = pattern.chars().collect();
        let mut searcher = KMPPattern::new(&chars[..]);
        assert_eq!(searcher.kmp(&text[..]), want);
    }
}

#[test]
fn lib_linear() {
    let cases: [(Option<usize>, &str); 7] = [
        (Some(0), "the"),
        (Some(0), "the dog is"),
        (Some(1), "he "),
        (Some(4), "dog"),
        (Some(16), "dead"),
        (Some(21), "then"),
        (None, "frank"),
    ];
    let text = "the dog is very dead then";
    for &(want, pattern) in cases.iter() {
        let searcher = BMHPattern::new(pattern);
        assert_eq!(searcher.linear(text), want);
    }
}

#[test]
fn lib_kmp() {
    let cases: [(Option<usize>, &str); 7] = [
        (Some(0), "the"),
        (Some(0), "the dog is"),
        (Some(1), "he "),
        (Some(4), "dog"),
        (Some(16), "dead"),
        (Some(21), "then"),
        (None, "frank"),
    ];
    let text = "the dog is very dead then";
    for &(want, pattern) in cases.iter() {
        let mut searcher = BMHPattern::new(pattern);
        assert_eq!(searcher.kmp(text), want);
    }
}

#[test]
fn bmh() {
    let cases: [(Option<usize>, &str); 7] = [
        (Some(0), "the"),
        (Some(0), "the dog is"),
        (Some(1), "he "),
        (Some(4), "dog"),
        (Some(16), "dead"),
        (Some(21), "then"),
        (None, "frank"),
    ];
    let text = "the dog is very dead then";
    for &(want, pattern) in cases.iter() {
        let mut searcher = BMHPattern::new(pattern);
        assert_eq!(searcher.bmh(text), want);
    }
}

#[test]
fn handle_reuses_tables_across_texts() {
    let chars: Vec<char> = "aba".chars().collect();
    let mut searcher = KMPPattern::new(&chars[..]);
    let texts = ["ababa", "xxaba", "ab", "", "aab aba"];
    let wants = [Some(0), Some(2), None, None, Some(4)];
    for (text, want) in texts.iter().zip(wants.iter()) {
        let t: Vec<char> = text.chars().collect();
        assert_eq!(searcher.kmp(&t[..]), *want);
    }
    let mut bytewise = BMHPattern::new("aba");
    for (text, want) in texts.iter().zip(wants.iter()) {
        assert_eq!(bytewise.bmh(text), *want);
        assert_eq!(bytewise.kmp(text), *want);
        assert_eq!(bytewise.linear(text), *want);
    }
}

#[test]
fn bmh_indices_count_bytes() {
    // a multi-byte scalar before the match start: the reported index is in
    // byte units
    let mut searcher = BMHPattern::new("da");
    assert_eq!(searcher.bmh("n\u{e9} da"), Some(4));
}
