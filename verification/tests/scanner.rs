use crust_lexer::lexer::{Lexer, TokenClass};

fn lexer_of(source: &str) -> Lexer {
    let mut lexer = Lexer::new();
    assert!(lexer.load_input(source.to_string()));
    lexer
}

/// Scans `source` to its end: class, text, line and offset of every token, the
/// closing `EOF` token included.
fn scan(source: &str) -> Vec<(TokenClass, String, usize, usize)> {
    let mut lexer = lexer_of(source);
    let mut tokens = Vec::new();
    loop {
        let token = lexer.get_next_token();
        let class = token.class;
        tokens.push((class, token.str.to_string(), token.line, token.pos));
        if class == TokenClass::EOF {
            return tokens;
        }
        assert!(tokens.len() <= source.len() + 1);
    }
}

fn classes_and_texts(source: &str) -> Vec<(TokenClass, String)> {
    scan(source).into_iter().map(|(class, text, _, _)| (class, text)).collect()
}

fn tok(class: TokenClass, text: &str) -> (TokenClass, String) {
    (class, text.to_string())
}

#[test]
fn new_lexer_is_at_end_of_input() {
    let mut lexer = Lexer::new();
    let token = lexer.get_next_token();
    assert_eq!(token.class, TokenClass::EOF);
    assert_eq!(token.str, "");
    assert_eq!(token.line, 1);
    assert_eq!(token.pos, 0);
}

#[test]
fn empty_source_yields_end_of_input() {
    let mut lexer = lexer_of("");
    for _ in 0..3 {
        let token = lexer.get_next_token();
        assert_eq!(token.class, TokenClass::EOF);
        assert_eq!(token.str, "");
        assert_eq!(token.line, 1);
        assert_eq!(token.pos, 0);
    }
}

#[test]
fn whitespace_only_source_yields_end_of_input() {
    assert_eq!(scan(" \t\r\n  "), vec![(TokenClass::EOF, String::new(), 2, 6)]);
}

#[test]
fn exhausted_lexer_keeps_yielding_end_of_input() {
    let mut lexer = lexer_of("x");
    assert_eq!(lexer.get_next_token().class, TokenClass::IDENTIFIER);
    for _ in 0..3 {
        let token = lexer.get_next_token();
        assert_eq!(token.class, TokenClass::EOF);
        assert_eq!(token.str, "");
        assert_eq!(token.pos, 1);
    }
}

#[test]
fn return_is_a_keyword() {
    assert_eq!(
        classes_and_texts("return"),
        vec![tok(TokenClass::RETURN, "return"), tok(TokenClass::EOF, "")]
    );
}

#[test]
fn returning_is_an_identifier() {
    let tokens = classes_and_texts("returning");
    assert_eq!(tokens, vec![tok(TokenClass::IDENTIFIER, "returning"), tok(TokenClass::EOF, "")]);
    assert_eq!(tokens[0].1.len(), 9);
}

#[test]
fn keyword_before_whitespace_is_a_keyword() {
    assert_eq!(
        classes_and_texts("return x"),
        vec![
            tok(TokenClass::RETURN, "return"),
            tok(TokenClass::IDENTIFIER, "x"),
            tok(TokenClass::EOF, "")
        ]
    );
}

#[test]
fn keyword_before_punctuation_is_an_identifier() {
    assert_eq!(
        classes_and_texts("return;"),
        vec![
            tok(TokenClass::IDENTIFIER, "return"),
            tok(TokenClass::SINGLECHAR, ";"),
            tok(TokenClass::EOF, "")
        ]
    );
}

#[test]
fn every_keyword_is_recognised() {
    assert_eq!(
        classes_and_texts("function return int32 void int"),
        vec![
            tok(TokenClass::FUNCTION, "function"),
            tok(TokenClass::RETURN, "return"),
            tok(TokenClass::INT32, "int32"),
            tok(TokenClass::VOID, "void"),
            tok(TokenClass::INT, "int"),
            tok(TokenClass::EOF, "")
        ]
    );
}

#[test]
fn whitespace_between_tokens_is_transparent() {
    let wide = classes_and_texts("int  x");
    let narrow = classes_and_texts("int x");
    let expected = vec![tok(TokenClass::INT, "int"), tok(TokenClass::IDENTIFIER, "x")];
    assert_eq!(wide[..2], expected[..]);
    assert_eq!(narrow[..2], expected[..]);
    assert_eq!(wide, narrow);
}

#[test]
fn whitespace_never_appears_in_token_text() {
    for (_, text, _, _) in scan(" function\tmain ( )\r\n{ return 42 ; @ }\n") {
        assert!(!text.contains(|c: char| c == ' ' || c == '\t' || c == '\n' || c == '\r'));
    }
}

#[test]
fn intx_is_one_identifier() {
    assert_eq!(
        classes_and_texts("intx"),
        vec![tok(TokenClass::IDENTIFIER, "intx"), tok(TokenClass::EOF, "")]
    );
}

#[test]
fn int32_is_not_int_followed_by_a_number() {
    assert_eq!(
        classes_and_texts("int32 int3 int"),
        vec![
            tok(TokenClass::INT32, "int32"),
            tok(TokenClass::IDENTIFIER, "int3"),
            tok(TokenClass::INT, "int"),
            tok(TokenClass::EOF, "")
        ]
    );
}

#[test]
fn integer_literal_then_semicolon() {
    assert_eq!(
        classes_and_texts("42;"),
        vec![
            tok(TokenClass::INTLITERAL, "42"),
            tok(TokenClass::SINGLECHAR, ";"),
            tok(TokenClass::EOF, "")
        ]
    );
}

#[test]
fn digits_do_not_begin_an_identifier() {
    assert_eq!(
        classes_and_texts("9lives"),
        vec![
            tok(TokenClass::INTLITERAL, "9"),
            tok(TokenClass::IDENTIFIER, "lives"),
            tok(TokenClass::EOF, "")
        ]
    );
}

#[test]
fn identifier_may_hold_digits_and_underscores() {
    assert_eq!(
        classes_and_texts("_a1_B2"),
        vec![tok(TokenClass::IDENTIFIER, "_a1_B2"), tok(TokenClass::EOF, "")]
    );
}

#[test]
fn arrow_is_longer_than_minus() {
    assert_eq!(
        classes_and_texts("->"),
        vec![tok(TokenClass::RETTYPE, "->"), tok(TokenClass::EOF, "")]
    );
    assert_eq!(
        classes_and_texts("- >"),
        vec![
            tok(TokenClass::SINGLECHAR, "-"),
            tok(TokenClass::SINGLECHAR, ">"),
            tok(TokenClass::EOF, "")
        ]
    );
}

#[test]
fn arrow_needs_no_boundary() {
    assert_eq!(
        classes_and_texts("->int32"),
        vec![
            tok(TokenClass::RETTYPE, "->"),
            tok(TokenClass::INT32, "int32"),
            tok(TokenClass::EOF, "")
        ]
    );
}

#[test]
fn every_punctuation_mark_is_a_single_char_token() {
    let marks = "!&|^~?(){}[]*+-/<>=,.;:";
    let tokens = classes_and_texts(&marks.chars().map(|c| format!("{} ", c)).collect::<String>());
    assert_eq!(tokens.len(), marks.len() + 1);
    for (token, mark) in tokens.iter().zip(marks.chars()) {
        assert_eq!(*token, tok(TokenClass::SINGLECHAR, &mark.to_string()));
    }
}

#[test]
fn unrecognized_character_is_an_error_token() {
    let mut lexer = lexer_of("@");
    let token = lexer.get_next_token();
    assert_eq!(token.class, TokenClass::ERROR);
    assert_eq!(token.str, "@");
    assert_eq!(token.line, 1);
    assert_eq!(token.pos, 0);
}

#[test]
fn error_token_carries_its_position() {
    assert_eq!(
        scan("x =\n  @1"),
        vec![
            (TokenClass::IDENTIFIER, "x".to_string(), 1, 0),
            (TokenClass::SINGLECHAR, "=".to_string(), 1, 2),
            (TokenClass::ERROR, "@".to_string(), 2, 6),
            (TokenClass::INTLITERAL, "1".to_string(), 2, 7),
            (TokenClass::EOF, String::new(), 2, 8),
        ]
    );
}

#[test]
fn scanner_goes_on_after_an_error() {
    assert_eq!(
        classes_and_texts("@@a"),
        vec![
            tok(TokenClass::ERROR, "@"),
            tok(TokenClass::ERROR, "@"),
            tok(TokenClass::IDENTIFIER, "a"),
            tok(TokenClass::EOF, "")
        ]
    );
}

#[test]
fn lines_are_counted_from_one() {
    assert_eq!(
        scan("a\nb\r\n\n  c d"),
        vec![
            (TokenClass::IDENTIFIER, "a".to_string(), 1, 0),
            (TokenClass::IDENTIFIER, "b".to_string(), 2, 2),
            (TokenClass::IDENTIFIER, "c".to_string(), 4, 8),
            (TokenClass::IDENTIFIER, "d".to_string(), 4, 10),
            (TokenClass::EOF, String::new(), 4, 11),
        ]
    );
}

#[test]
fn positions_are_offsets_into_the_source() {
    let source = "function main() -> int32 { return 0; }";
    for (class, text, _, pos) in scan(source) {
        if class != TokenClass::EOF {
            assert_eq!(&source[pos..pos + text.len()], text);
        } else {
            assert_eq!(pos, source.len());
        }
    }
}

#[test]
fn small_program() {
    assert_eq!(
        classes_and_texts("function main() -> int32 {\n    return 42 ;\n}\n"),
        vec![
            tok(TokenClass::FUNCTION, "function"),
            tok(TokenClass::IDENTIFIER, "main"),
            tok(TokenClass::SINGLECHAR, "("),
            tok(TokenClass::SINGLECHAR, ")"),
            tok(TokenClass::RETTYPE, "->"),
            tok(TokenClass::INT32, "int32"),
            tok(TokenClass::SINGLECHAR, "{"),
            tok(TokenClass::RETURN, "return"),
            tok(TokenClass::INTLITERAL, "42"),
            tok(TokenClass::SINGLECHAR, ";"),
            tok(TokenClass::SINGLECHAR, "}"),
            tok(TokenClass::EOF, ""),
        ]
    );
}

#[test]
fn repeated_scans_agree() {
    let source = "function f(a, b) -> int { return a+b ; } @ 12ab\n";
    assert_eq!(scan(source), scan(source));
}

#[test]
fn every_token_advances_the_cursor() {
    let source = "a @ -> 12 ; int32\nreturn";
    let tokens = scan(source);
    for pair in tokens.windows(2) {
        assert!(pair[0].3 + pair[0].1.len() <= pair[1].3);
        assert!(pair[0].3 < pair[1].3);
        assert!(pair[0].1.len() >= 1);
    }
}

#[test]
fn load_input_restarts_the_scan() {
    let mut lexer = lexer_of("a b");
    assert_eq!(lexer.get_next_token().str, "a");
    assert!(lexer.load_input("\nc".to_string()));
    let token = lexer.get_next_token();
    assert_eq!(token.class, TokenClass::IDENTIFIER);
    assert_eq!(token.str, "c");
    assert_eq!(token.line, 2);
    assert_eq!(token.pos, 1);
}

#[test]
fn load_input_refuses_text_outside_ascii() {
    let mut lexer = lexer_of("a b");
    assert_eq!(lexer.get_next_token().str, "a");
    assert!(!lexer.load_input("x = \u{e9};".to_string()));
    let token = lexer.get_next_token();
    assert_eq!(token.class, TokenClass::IDENTIFIER);
    assert_eq!(token.str, "b");
    assert_eq!(token.pos, 2);
}

#[test]
fn first_token_of_a_text() {
    let first = |source: &str| {
        let mut lexer = lexer_of(source);
        let token = lexer.get_next_token();
        (token.class, token.str.len())
    };
    assert_eq!(first("return"), (TokenClass::RETURN, 6));
    assert_eq!(first("returning"), (TokenClass::IDENTIFIER, 9));
    assert_eq!(first("->x"), (TokenClass::RETTYPE, 2));
    assert_eq!(first("-x"), (TokenClass::SINGLECHAR, 1));
    assert_eq!(first("42;"), (TokenClass::INTLITERAL, 2));
    assert_eq!(first("x"), (TokenClass::IDENTIFIER, 1));
    assert_eq!(first("@x"), (TokenClass::ERROR, 1));
    assert_eq!(first("int32 x"), (TokenClass::INT32, 5));
    assert_eq!(first("int x"), (TokenClass::INT, 3));
    assert_eq!(first("void"), (TokenClass::VOID, 4));
    assert_eq!(first("function f"), (TokenClass::FUNCTION, 8));
    assert_eq!(first("  \n"), (TokenClass::EOF, 0));
}

#[test]
fn amount_of_whitespace_does_not_change_the_tokens() {
    let narrow = classes_and_texts("function f ( a , b ) -> int32 { return a ; }");
    let wide = classes_and_texts(
        "function\tf  (\na\r\n,\n\n b )   ->\tint32\n{\n\treturn  a\n;\n}",
    );
    assert_eq!(narrow, wide);
    assert_ne!(classes_and_texts("int x"), classes_and_texts("intx"));
}

#[test]
fn rest_of_a_scan_is_the_scan_of_the_rest() {
    let source = "int x = 42 ;\nreturn x ;";
    let mut lexer = lexer_of(source);
    let mut seen = 0;
    loop {
        let token = lexer.get_next_token();
        if token.class == TokenClass::EOF {
            break;
        }
        seen += 1;
        let behind = token.pos + token.str.len();
        let whole = classes_and_texts(source);
        assert_eq!(whole[seen..], classes_and_texts(&source[behind..])[..]);
    }
    assert_eq!(seen, 8);
}
