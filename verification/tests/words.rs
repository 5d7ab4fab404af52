use fievar::types::NumAlign;
use fievar::words::{is_valid_identifier, FievarParser};

const ALIGNMENTS: [NumAlign; 3] = [NumAlign::Left, NumAlign::Middle, NumAlign::Right];

#[test]
fn camel_case_words() {
    for db in ALIGNMENTS {
        assert_eq!(FievarParser::parse("aVeryLongName", db), vec!["a", "Very", "Long", "Name"]);
    }
}

#[test]
fn underscores_are_dropped() {
    for db in ALIGNMENTS {
        assert_eq!(FievarParser::parse("access_token", db), vec!["access", "token"]);
        assert_eq!(FievarParser::parse("__a__b__", db), vec!["a", "b"]);
        assert_eq!(FievarParser::parse("_x", db), vec!["x"]);
        assert_eq!(FievarParser::parse("x_", db), vec!["x"]);
    }
}

#[test]
fn only_underscores_give_no_word() {
    for db in ALIGNMENTS {
        assert_eq!(FievarParser::parse("_", db), Vec::<&str>::new());
        assert_eq!(FievarParser::parse("___", db), Vec::<&str>::new());
    }
}

#[test]
fn one_character_is_one_word() {
    for db in ALIGNMENTS {
        assert_eq!(FievarParser::parse("a", db), vec!["a"]);
        assert_eq!(FievarParser::parse("A", db), vec!["A"]);
        assert_eq!(FievarParser::parse("7", db), vec!["7"]);
    }
}

#[test]
fn upper_case_run_gives_its_last_letter_away() {
    for db in ALIGNMENTS {
        assert_eq!(FievarParser::parse("ABCd", db), vec!["AB", "Cd"]);
        assert_eq!(FievarParser::parse("ABC", db), vec!["ABC"]);
        assert_eq!(FievarParser::parse("ABC_d", db), vec!["ABC", "d"]);
        assert_eq!(FievarParser::parse("aBCDe", db), vec!["a", "BC", "De"]);
        assert_eq!(FievarParser::parse("ABc", db), vec!["A", "Bc"]);
    }
}

#[test]
fn digits_between_letters_go_left() {
    assert_eq!(FievarParser::parse("Long2Variant", NumAlign::Left), vec!["Long2", "Variant"]);
    assert_eq!(FievarParser::parse("a12b", NumAlign::Left), vec!["a12", "b"]);
    assert_eq!(FievarParser::parse("A1BCd", NumAlign::Left), vec!["A1", "B", "Cd"]);
}

#[test]
fn digits_between_letters_go_right() {
    assert_eq!(FievarParser::parse("Long3Variant", NumAlign::Right), vec!["Long", "3Variant"]);
    assert_eq!(FievarParser::parse("a12b", NumAlign::Right), vec!["a", "12b"]);
    assert_eq!(FievarParser::parse("a1BCd", NumAlign::Right), vec!["a", "1B", "Cd"]);
    assert_eq!(FievarParser::parse("a1Bc", NumAlign::Right), vec!["a", "1Bc"]);
}

#[test]
fn digits_between_letters_stand_alone() {
    assert_eq!(
        FievarParser::parse("Long4Variant", NumAlign::Middle),
        vec!["Long", "4", "Variant"]
    );
    assert_eq!(FievarParser::parse("a12b", NumAlign::Middle), vec!["a", "12", "b"]);
    assert_eq!(
        FievarParser::parse("a1B__c2_3dEF4", NumAlign::Middle),
        vec!["a", "1", "B", "c", "2", "3", "d", "EF", "4"]
    );
    assert_eq!(FievarParser::parse("abc12", NumAlign::Middle), vec!["abc", "12"]);
    assert_eq!(FievarParser::parse("abc12_x", NumAlign::Middle), vec!["abc", "12", "x"]);
    assert_eq!(FievarParser::parse("AB12", NumAlign::Middle), vec!["AB", "12"]);
    assert_eq!(FievarParser::parse("a1", NumAlign::Middle), vec!["a", "1"]);
}

#[test]
fn standing_alone_every_word_is_digits_only_or_letters_only() {
    for name in ["a1B__c2_3dEF4", "abc12", "12abc", "A1b2C3", "x_9y", "HTTP2Server10", "7"] {
        for word in FievarParser::parse(name, NumAlign::Middle) {
            assert!(
                word.chars().all(|c| c.is_ascii_digit())
                    || word.chars().all(|c| c.is_ascii_alphabetic())
            );
        }
    }
}

#[test]
fn digits_to_the_left_stay_before_an_underscore_or_the_end() {
    assert_eq!(FievarParser::parse("abc12", NumAlign::Left), vec!["abc12"]);
    assert_eq!(FievarParser::parse("abc12_x", NumAlign::Left), vec!["abc12", "x"]);
    assert_eq!(FievarParser::parse("AB12", NumAlign::Left), vec!["AB12"]);
}

#[test]
fn digits_to_the_right_leave_the_word_before_them_in_any_case() {
    assert_eq!(FievarParser::parse("abc12", NumAlign::Right), vec!["abc", "12"]);
    assert_eq!(FievarParser::parse("abc12_x", NumAlign::Right), vec!["abc", "12", "x"]);
    assert_eq!(FievarParser::parse("AB12", NumAlign::Right), vec!["AB", "12"]);
    assert_eq!(FievarParser::parse("ab1_2cd", NumAlign::Right), vec!["ab", "1", "2cd"]);
}

#[test]
fn digits_after_an_underscore() {
    assert_eq!(FievarParser::parse("_12ab", NumAlign::Left), vec!["12", "ab"]);
    assert_eq!(FievarParser::parse("_12ab", NumAlign::Middle), vec!["12", "ab"]);
    assert_eq!(FievarParser::parse("_12ab", NumAlign::Right), vec!["12ab"]);
    assert_eq!(FievarParser::parse("x_1Ab", NumAlign::Right), vec!["x", "1Ab"]);
    assert_eq!(FievarParser::parse("x_1ABc", NumAlign::Right), vec!["x", "1A", "Bc"]);
    assert_eq!(FievarParser::parse("x_1_2", NumAlign::Left), vec!["x", "1", "2"]);
}

#[test]
fn digits_at_the_start() {
    assert_eq!(FievarParser::parse("12ab", NumAlign::Left), vec!["12", "ab"]);
    assert_eq!(FievarParser::parse("12ab", NumAlign::Middle), vec!["12", "ab"]);
    assert_eq!(FievarParser::parse("12ab", NumAlign::Right), vec!["12ab"]);
    assert_eq!(FievarParser::parse("1A", NumAlign::Left), vec!["1", "A"]);
}

#[test]
fn word_count_without_digits_is_the_same_for_every_alignment() {
    for name in ["aVeryLongName", "HTTPServer_error__Code", "x", "_", "ABCd_eF"] {
        let left = FievarParser::parse(name, NumAlign::Left);
        let middle = FievarParser::parse(name, NumAlign::Middle);
        let right = FievarParser::parse(name, NumAlign::Right);
        assert_eq!(left.len(), middle.len());
        assert_eq!(left.len(), right.len());
        assert_eq!(left, middle);
        assert_eq!(left, right);
    }
}

#[test]
fn words_make_up_the_name_without_underscores() {
    for name in ["AVeryLong2Variant", "a1B__c2_3dEF4", "_x_", "HTTPServer", "12ab_"] {
        for db in ALIGNMENTS {
            let words = FievarParser::parse(name, db);
            assert!(words.iter().all(|w| !w.is_empty() && !w.contains('_')));
            assert_eq!(words.concat(), name.replace('_', ""));
        }
    }
}

#[test]
fn identifiers_that_can_be_cut() {
    assert!(is_valid_identifier("access_token"));
    assert!(is_valid_identifier("AVeryLong0Variant"));
    assert!(is_valid_identifier("_"));
    assert!(is_valid_identifier("0"));
    assert!(is_valid_identifier("azAZ09_"));
}

#[test]
fn identifiers_that_cannot_be_cut() {
    assert!(!is_valid_identifier(""));
    assert!(!is_valid_identifier("mime-type"));
    assert!(!is_valid_identifier("r#type"));
    assert!(!is_valid_identifier("a b"));
    assert!(!is_valid_identifier("caf\u{e9}"));
    assert!(!is_valid_identifier("a{"));
    assert!(!is_valid_identifier("a["));
    assert!(!is_valid_identifier("a@"));
    assert!(!is_valid_identifier("a`"));
    assert!(!is_valid_identifier("a/"));
    assert!(!is_valid_identifier("a:"));
}
