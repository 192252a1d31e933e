use crust_lexer::chars::{
    count_run, is_digit, is_identifier_part, is_identifier_start, is_punctuation, is_whitespace,
    CharKind,
};
use crust_lexer::checker::{
    FixedCharTokenChecker, FixedStringTokenChecker, IdentifierTokenChecker,
    IntLiteralTokenChecker, SingleCharTokenChecker, TokenChecker,
};
use crust_lexer::lexer::{Lexer, TokenCandidate, TokenClass};

#[test]
fn whitespace_characters() {
    for c in [' ', '\t', '\n', '\r'] {
        assert!(is_whitespace(c));
    }
    for c in ['a', '0', '_', ';', '\0', '\u{b}', '\u{c}', '\u{a0}'] {
        assert!(!is_whitespace(c));
    }
}

#[test]
fn digit_characters() {
    for c in '0'..='9' {
        assert!(is_digit(c));
    }
    for c in ['/', ':', 'a', ' ', '\u{663}'] {
        assert!(!is_digit(c));
    }
}

#[test]
fn identifier_characters() {
    for c in ('a'..='z').chain('A'..='Z').chain(['_']) {
        assert!(is_identifier_start(c));
        assert!(is_identifier_part(c));
    }
    for c in '0'..='9' {
        assert!(!is_identifier_start(c));
        assert!(is_identifier_part(c));
    }
    for c in ['@', '`', '[', '{', ' ', '-', '\u{e9}'] {
        assert!(!is_identifier_start(c));
        assert!(!is_identifier_part(c));
    }
}

#[test]
fn punctuation_characters() {
    for c in "!&|^~?(){}[]*+-/<>=,.;:".chars() {
        assert!(is_punctuation(c));
    }
    for c in ['@', '#', '$', '%', '\'', '"', '\\', '`', '_', 'a', '0', ' '] {
        assert!(!is_punctuation(c));
    }
}

#[test]
fn char_kind_membership() {
    assert!(CharKind::Whitespace.contains('\t'));
    assert!(!CharKind::Whitespace.contains('x'));
    assert!(CharKind::Digit.contains('7'));
    assert!(!CharKind::Digit.contains('x'));
    assert!(CharKind::Word.contains('x'));
    assert!(CharKind::Word.contains('7'));
    assert!(CharKind::Word.contains('_'));
    assert!(!CharKind::Word.contains('-'));
}

#[test]
fn runs_stop_at_the_first_other_character() {
    assert_eq!(count_run("", CharKind::Digit), 0);
    assert_eq!(count_run("123", CharKind::Digit), 3);
    assert_eq!(count_run("12a3", CharKind::Digit), 2);
    assert_eq!(count_run("a12", CharKind::Digit), 0);
    assert_eq!(count_run(" \t\n\rx ", CharKind::Whitespace), 4);
    assert_eq!(count_run("ab_1-2", CharKind::Word), 4);
}

#[test]
fn runs_count_characters() {
    assert_eq!(count_run("12\u{e9}3", CharKind::Digit), 2);
    assert_eq!(count_run("\u{e9}12", CharKind::Digit), 0);
}

#[test]
fn identifier_checker() {
    let checker = IdentifierTokenChecker {};
    assert_eq!(checker.check_token(""), 0);
    assert_eq!(checker.check_token("abc"), 3);
    assert_eq!(checker.check_token("abc def"), 3);
    assert_eq!(checker.check_token("a1b2;"), 4);
    assert_eq!(checker.check_token("_"), 1);
    assert_eq!(checker.check_token("1abc"), 0);
    assert_eq!(checker.check_token(" abc"), 0);
    assert_eq!(checker.check_token("returning"), 9);
    assert_eq!(checker.check_token("ab\u{e9}"), 2);
}

#[test]
fn int_literal_checker() {
    let checker = IntLiteralTokenChecker {};
    assert_eq!(checker.check_token(""), 0);
    assert_eq!(checker.check_token("42;"), 2);
    assert_eq!(checker.check_token("007"), 3);
    assert_eq!(checker.check_token("x1"), 0);
    assert_eq!(checker.check_token("-1"), 0);
}

#[test]
fn single_char_checker() {
    let checker = SingleCharTokenChecker {};
    assert_eq!(checker.check_token(""), 0);
    assert_eq!(checker.check_token(";"), 1);
    assert_eq!(checker.check_token(";;"), 1);
    assert_eq!(checker.check_token("->"), 1);
    assert_eq!(checker.check_token("@"), 0);
    assert_eq!(checker.check_token("a;"), 0);
}

#[test]
fn fixed_char_checker() {
    let checker = FixedCharTokenChecker { target: '(' };
    assert_eq!(checker.check_token(""), 0);
    assert_eq!(checker.check_token("("), 1);
    assert_eq!(checker.check_token("(("), 1);
    assert_eq!(checker.check_token(")("), 0);
}

#[test]
fn fixed_string_checker_needs_no_boundary() {
    let checker = FixedStringTokenChecker::new("->");
    assert_eq!(checker.check_token(""), 0);
    assert_eq!(checker.check_token("-"), 0);
    assert_eq!(checker.check_token("->"), 2);
    assert_eq!(checker.check_token("->x"), 2);
    assert_eq!(checker.check_token("-> x"), 2);
    assert_eq!(checker.check_token("-->"), 0);
    assert_eq!(checker.check_token(">-"), 0);
}

#[test]
fn keyword_checker_needs_a_boundary() {
    let checker = FixedStringTokenChecker::keyword("int");
    assert_eq!(checker.check_token(""), 0);
    assert_eq!(checker.check_token("in"), 0);
    assert_eq!(checker.check_token("int"), 3);
    assert_eq!(checker.check_token("int x"), 3);
    assert_eq!(checker.check_token("int\tx"), 3);
    assert_eq!(checker.check_token("int\n"), 3);
    assert_eq!(checker.check_token("int\r\n"), 3);
    assert_eq!(checker.check_token("intx"), 0);
    assert_eq!(checker.check_token("int32"), 0);
    assert_eq!(checker.check_token("int;"), 0);
    assert_eq!(checker.check_token("ant "), 0);
    assert_eq!(checker.check_token(" int"), 0);
}

#[test]
fn empty_fixed_string_matches_nothing() {
    assert_eq!(FixedStringTokenChecker::new("").check_token("abc"), 0);
    assert_eq!(FixedStringTokenChecker::keyword("").check_token(" abc"), 0);
    assert_eq!(FixedStringTokenChecker::keyword("").check_token(""), 0);
}

#[test]
fn later_classifier_wins_a_tie() {
    let previous = TokenCandidate { class: TokenClass::IDENTIFIER, length: 6 };
    let candidate = Lexer::_check_token(
        "return",
        TokenClass::RETURN,
        &FixedStringTokenChecker::keyword("return"),
        previous,
    );
    assert_eq!(candidate.class, TokenClass::RETURN);
    assert_eq!(candidate.length, 6);
}

#[test]
fn longer_match_replaces_the_candidate() {
    let previous = TokenCandidate { class: TokenClass::SINGLECHAR, length: 1 };
    let arrow = FixedStringTokenChecker::new("->");
    let candidate = Lexer::_check_token("->", TokenClass::RETTYPE, &arrow, previous);
    assert_eq!(candidate.class, TokenClass::RETTYPE);
    assert_eq!(candidate.length, 2);
}

#[test]
fn shorter_match_leaves_the_candidate() {
    let previous = TokenCandidate { class: TokenClass::IDENTIFIER, length: 9 };
    let candidate = Lexer::_check_token(
        "returning",
        TokenClass::RETURN,
        &FixedStringTokenChecker::new("return"),
        previous,
    );
    assert_eq!(candidate.class, TokenClass::IDENTIFIER);
    assert_eq!(candidate.length, 9);
}

#[test]
fn failed_match_leaves_the_error_candidate() {
    let previous = TokenCandidate { class: TokenClass::ERROR, length: 1 };
    let candidate =
        Lexer::_check_token("@", TokenClass::IDENTIFIER, &IdentifierTokenChecker {}, previous);
    assert_eq!(candidate.class, TokenClass::ERROR);
    assert_eq!(candidate.length, 1);
}

#[test]
fn fixed_string_checker_counts_characters() {
    let checker = FixedStringTokenChecker::new("\u{e9}t\u{e9}");
    assert_eq!(checker.check_token("\u{e9}t\u{e9}s"), 3);
    assert_eq!(checker.check_token("\u{e9}te"), 0);
    assert_eq!(FixedCharTokenChecker { target: '\u{e9}' }.check_token("\u{e9}t\u{e9}"), 1);
}
