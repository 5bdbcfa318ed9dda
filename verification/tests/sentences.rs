use buttsbot::sentence::{is_space, join, words};

#[test]
fn words_are_cut_at_runs_of_whitespace() {
    assert_eq!(words("hello world"), vec!["hello", "world"]);
    assert_eq!(words("  hello \t\n world\r\x0C"), vec!["hello", "world"]);
    assert_eq!(words("one"), vec!["one"]);
    assert_eq!(words("a b  c   d"), vec!["a", "b", "c", "d"]);
}

#[test]
fn sentence_of_whitespace_has_no_words() {
    assert!(words("").is_empty());
    assert!(words(" ").is_empty());
    assert!(words(" \t\r\n\x0C ").is_empty());
}

#[test]
fn only_ascii_whitespace_separates() {
    assert_eq!(words("a\u{a0}b"), vec!["a\u{a0}b"]);
    assert_eq!(words("a\u{b}b"), vec!["a\u{b}b"]);
    assert_eq!(words("a\u{2003}b c"), vec!["a\u{2003}b", "c"]);
}

#[test]
fn whitespace_is_the_five_characters() {
    for c in [' ', '\t', '\n', '\x0C', '\r'] {
        assert!(is_space(c));
    }
    for c in ['\u{b}', '\u{a0}', 'a', '_', '\0'] {
        assert!(!is_space(c));
    }
}

#[test]
fn words_agree_with_std() {
    for sentence in ["", "  ", "x", " x", "x ", "the quick\tbrown\n\nfox ", "\u{e9}t\u{e9} \u{1f351}"] {
        let expected: Vec<&str> = sentence.split_ascii_whitespace().collect();
        assert_eq!(words(sentence), expected);
    }
}

#[test]
fn join_puts_one_space_between() {
    assert_eq!(join(&vec![]), "");
    assert_eq!(join(&vec!["one"]), "one");
    assert_eq!(join(&vec!["one", "two", "three"]), "one two three");
    assert_eq!(join(&vec!["", ""]), " ");
}

#[test]
fn joining_keeps_the_words() {
    for sentence in ["a  b\tc", " lead and trail ", "single"] {
        let cut = words(sentence);
        let joined = join(&cut);
        assert_eq!(words(&joined), cut);
    }
}
