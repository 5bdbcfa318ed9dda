use buttsbot::buttify::{is_vowel, syllables};

#[test]
fn syllables_test() {
    for (word, expected) in [
        ("banana", vec!["ba", "na", "na"]),
        ("moon", vec!["moon"]),
        ("lemon", vec!["le", "mon"]),
    ] {
        assert_eq!(syllables(word).to_vec(), expected);
    }
}

#[test]
fn wont_panic_on_0_len_str() {
    syllables("");
}

#[test]
fn empty_word_has_one_empty_syllable() {
    assert_eq!(syllables(""), vec![""]);
}

#[test]
fn word_without_vowels_is_one_syllable() {
    assert_eq!(syllables("rhythm"), vec!["rhythm"]);
    assert_eq!(syllables("b"), vec!["b"]);
    assert_eq!(syllables("a"), vec!["a"]);
}

#[test]
fn neighbouring_vowels_and_consonants_make_no_boundary() {
    assert_eq!(syllables("queue"), vec!["queue"]);
    assert_eq!(syllables("street"), vec!["street"]);
    assert_eq!(syllables("beautiful"), vec!["beau", "ti", "ful"]);
}

#[test]
fn single_trailing_consonant_is_absorbed() {
    assert_eq!(syllables("at"), vec!["at"]);
    assert_eq!(syllables("ate"), vec!["a", "te"]);
    assert_eq!(syllables("atm"), vec!["a", "tm"]);
    assert_eq!(syllables("banan"), vec!["ba", "nan"]);
}

#[test]
fn vowels_are_found_in_either_case() {
    assert_eq!(syllables("BANANA"), vec!["BA", "NA", "NA"]);
    assert_eq!(syllables("LeMoN"), vec!["Le", "MoN"]);
}

#[test]
fn y_is_a_consonant() {
    assert!(!is_vowel('y'));
    assert!(!is_vowel('Y'));
    assert_eq!(syllables("mayor"), vec!["ma", "yor"]);
}

#[test]
fn vowels_are_the_ten_letters() {
    for c in ['a', 'e', 'i', 'o', 'u', 'A', 'E', 'I', 'O', 'U'] {
        assert!(is_vowel(c));
    }
    for c in ['b', 'z', 'Q', '0', ' ', '-', '\u{e9}', '\u{fc}'] {
        assert!(!is_vowel(c));
    }
}

#[test]
fn positions_count_characters() {
    assert_eq!(syllables("na\u{ef}ve"), vec!["na", "\u{ef}ve"]);
    assert_eq!(syllables("\u{e9}t\u{e9}"), vec!["\u{e9}t\u{e9}"]);
    assert_eq!(syllables("a\u{df}"), vec!["a\u{df}"]);
    assert_eq!(syllables("\u{df}\u{df}a\u{df}\u{df}"), vec!["\u{df}\u{df}a", "\u{df}\u{df}"]);
}

#[test]
fn syllables_put_together_are_the_word() {
    for word in [
        "", "a", "banana", "moon", "lemon", "strengths", "onomatopoeia", "AEIOU", "x-ray",
        "na\u{ef}ve", "hello world", "\u{1f351}butt\u{1f351}",
    ] {
        let parts = syllables(word);
        assert!(!parts.is_empty());
        assert_eq!(parts.concat(), word);
        if !word.is_empty() {
            assert!(parts.iter().all(|part| !part.is_empty()));
        }
    }
}
