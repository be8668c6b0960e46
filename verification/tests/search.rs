use icmc_gui::search::{char_index, find_matches, is_whole_word_at, is_whole_word_match, is_word_char};

#[test]
fn find_matches_ignores_ascii_case_by_default() {
    let m = find_matches("Hello hello HELLO", "hello", false, false);
    assert_eq!(m, vec![0..5, 6..11, 12..17]);
}

#[test]
fn find_matches_case_sensitive() {
    let m = find_matches("Hello hello HELLO", "hello", true, false);
    assert_eq!(m, vec![6..11]);
}

#[test]
fn find_matches_whole_word() {
    let m = find_matches("foo foobar _foo foo", "foo", true, true);
    assert_eq!(m, vec![0..3, 16..19]);
}

#[test]
fn find_matches_does_not_overlap() {
    assert_eq!(find_matches("aaaa", "aa", true, false), vec![0..2, 2..4]);
    assert_eq!(find_matches("aaa", "aa", true, false), vec![0..2]);
}

#[test]
fn find_matches_reports_byte_offsets() {
    let text = "héllo wörld";
    let m = find_matches(text, "WÖ", false, false);
    // only ASCII is folded: 'Ö' does not match 'ö'
    assert!(m.is_empty());
    let m = find_matches(text, "wö", false, false);
    assert_eq!(m, vec![7..10]);
    assert_eq!(&text[m[0].clone()], "wö");
}

#[test]
fn find_matches_empty_query_finds_nothing() {
    assert!(find_matches("abc", "", false, false).is_empty());
    assert!(find_matches("", "a", false, false).is_empty());
}

#[test]
fn whole_word_uses_unicode_letters() {
    // 'é' is alphanumeric, so "cafe" inside "écafe" is not a whole word
    assert!(find_matches("écafe cafe", "cafe", true, true) == vec![7..11]);
    let chars: Vec<char> = "a_b c".chars().collect();
    assert!(!is_whole_word_at(&chars, 2, 3));
    assert!(is_whole_word_at(&chars, 4, 5));
    assert!(is_word_char('_') && is_word_char('9') && is_word_char('é') && !is_word_char('-'));
}

#[test]
fn char_index_counts_characters_before_a_byte_offset() {
    assert_eq!(char_index("héllo", 0), 0);
    assert_eq!(char_index("héllo", 3), 2);
    assert_eq!(char_index("héllo", 6), 5);
}

#[test]
fn word_characters() {
    for c in ['a', 'Z', '7', '_', 'é'] {
        assert!(is_word_char(c), "{c}");
    }
    for c in ['-', ' ', '$', '(', ')'] {
        assert!(!is_word_char(c), "{c}");
    }
}

#[test]
fn whole_word_examples() {
    assert!(!is_whole_word_match("a foo_b", 2, 5));
    assert!(is_whole_word_match("(foo)", 1, 4));
    assert!(is_whole_word_match("foo", 0, 3));
    assert!(!is_whole_word_match("éfoo", 2, 5));
    let v = |s: &str| s.chars().collect::<Vec<char>>();
    assert!(!is_whole_word_at(&v("éfoo"), 1, 4));
}

#[test]
fn whole_word_search_filters_plain_search() {
    let text = "foo foobar _foo (foo)";
    let plain = find_matches(text, "foo", true, false);
    let filtered: Vec<_> = plain.into_iter().filter(|r| is_whole_word_match(text, r.start, r.end)).collect();
    assert_eq!(find_matches(text, "foo", true, true), filtered);
    assert_eq!(find_matches("foo foobar _foo", "foo", true, true), vec![0..3]);
}

#[test]
fn ignoring_case_is_folding() {
    let text = "Foo fOO héllo FOO";
    for ww in [false, true] {
        assert_eq!(
            find_matches(text, "foo", false, ww),
            find_matches(&text.to_ascii_lowercase(), "foo", true, ww)
        );
        assert_eq!(find_matches(text, "foo", false, ww), find_matches(text, "FOO", false, ww));
    }
    assert_eq!(find_matches("Foo foo", "foo", false, false), vec![0..3, 4..7]);
    assert_eq!(find_matches("Foo foo", "foo", true, false), vec![4..7]);
}

#[test]
fn plain_search_is_match_indices() {
    for (text, q) in [("aaaa", "aa"), ("abcabcab", "cab"), ("héhéhé", "hé")] {
        let expected: Vec<_> = text.match_indices(q).map(|(i, s)| i..i + s.len()).collect();
        assert_eq!(find_matches(text, q, true, false), expected);
    }
}
