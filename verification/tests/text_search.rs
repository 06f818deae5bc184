use culture_kernel::text::{contains, join};

#[test]
fn contains_finds_a_pattern_in_the_middle() {
    assert!(contains("xxcurlyy", "curl"));
    assert!(!contains("xxcuryy", "curl"));
    assert!(contains("anything", ""));
    assert!(!contains("", "a"));
}

#[test]
fn join_puts_the_separator_between_items() {
    let items = vec!["a".to_string(), "b".to_string(), "c".to_string()];
    assert_eq!(join(&items, ","), "a,b,c");
    assert_eq!(join(&Vec::new(), ","), "");
}

#[test]
fn contains_compares_characters() {
    assert!(contains("naïve café", "ïve c"));
    assert!(contains("€uro", "€"));
    assert!(!contains("euro", "€"));
    assert!(contains("aaab", "aab"));
    assert!(contains("abc", "abc"));
    assert!(!contains("abc", "abcd"));
    assert!(contains("", ""));
}
