use collector::text::{chars_of, clone_strings, contains_string, replace_all};

#[test]
fn replace_scans_from_the_left_without_overlaps() {
    assert_eq!(replace_all("aaa", "aa", "b"), "ba");
    assert_eq!(replace_all("abcabc", "bc", "X"), "aXaX");
    assert_eq!(replace_all("abc", "zz", "X"), "abc");
    assert_eq!(replace_all("", "a", "X"), "");
}

#[test]
fn replace_with_an_empty_pattern_matches_everywhere() {
    assert_eq!(replace_all("abc", "", "-"), "-a-b-c-");
    assert_eq!(replace_all("", "", "-"), "-");
    assert_eq!(replace_all("abc", "", "-"), "abc".replace("", "-"));
}

#[test]
fn replace_by_itself_changes_nothing() {
    for (s, p) in [("abcabc", "bc"), ("aaaa", "aa"), ("xyz", ""), ("", "q")] {
        assert_eq!(replace_all(s, p, p), s);
    }
}

#[test]
fn replace_handles_non_ascii() {
    assert_eq!(replace_all("été", "é", "e"), "ete");
}

#[test]
fn string_lists() {
    let v = vec!["a".to_string(), "bc".to_string()];
    assert!(contains_string(&v, &"bc".to_string()));
    assert!(!contains_string(&v, &"b".to_string()));
    assert_eq!(clone_strings(&v), v);
    assert_eq!(chars_of("hé"), vec!['h', 'é']);
}
