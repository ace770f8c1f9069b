use ask_jira::text::{contains_word, decimal, is_white_space, join, trim};

#[test]
fn white_space_is_the_unicode_property() {
    for c in '\u{0}'..=char::MAX {
        assert_eq!(is_white_space(c), c.is_whitespace(), "{:?}", c);
    }
}

#[test]
fn words_are_whole() {
    assert!(contains_word("WHAT IS NEW IN PROJ TODAY", "PROJ"));
    assert!(contains_word("PROJ", "PROJ"));
    assert!(contains_word("PROJ\tIS FINE", "PROJ"));
    assert!(contains_word("ABOUT\u{3000}PROJ", "PROJ"));
    assert!(!contains_word("PROJECTS", "PROJ"));
    assert!(!contains_word("APROJ", "PROJ"));
    assert!(!contains_word("PROJ-12", "PROJ"));
    assert!(!contains_word("PROJ?", "PROJ"));
    assert!(contains_word("PROJ? PROJ", "PROJ"));
}

#[test]
fn odd_words_are_in_no_text() {
    assert!(!contains_word("A B", ""));
    assert!(!contains_word("", ""));
    assert!(!contains_word("A B", "A B"));
    assert!(!contains_word("A", "AA"));
}

#[test]
fn words_are_those_of_the_standard_library() {
    let texts = ["", " ", "a", " a b  c ", "a\nb\u{2003}c", "äö ü", "x\u{200b}y z"];
    let words = ["", "a", "b", "c", "ü", "x", "z", "x\u{200b}y", "a b"];
    for text in texts {
        for word in words {
            assert_eq!(contains_word(text, word), text.split_whitespace().any(|w| w == word));
        }
    }
}

#[test]
fn trimming_is_that_of_the_standard_library() {
    let texts = ["", " ", "\t\n", "a", " a", "a ", " a b \n", "\u{a0}é\u{2029}", "\u{200b} x"];
    for text in texts {
        assert_eq!(trim(text), text.trim());
    }
}

#[test]
fn trimming_twice_is_trimming_once() {
    assert_eq!(trim(&trim("  project = A \n")), "project = A");
}

#[test]
fn joining_puts_the_separator_between() {
    assert_eq!(join(&vec![], ", "), "");
    assert_eq!(join(&vec!["A".to_string()], ", "), "A");
    let three = vec!["A".to_string(), "".to_string(), "C".to_string()];
    assert_eq!(join(&three, ", "), "A, , C");
}

#[test]
fn numerals_are_decimal() {
    for n in [0, 1, 9, 10, 99, 100, 1234567890, u64::MAX] {
        assert_eq!(decimal(n), n.to_string());
    }
}
