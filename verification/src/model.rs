//! The mathematical model of scanning: what the next token of a text is, as a
//! function of the text and the cursor.

use crate::chars::{lemma_run_len_is_run, run_len, spec_is_whitespace, CharKind};
use crate::checker::{fixed_string_len, identifier_len, int_literal_len, punctuation_len};
use crate::lexer::TokenClass;
use vstd::prelude::*;

verus! {

/// A token as a mathematical value.
pub struct TokenView {
    pub class: TokenClass,
    pub text: Seq<char>,
    pub line: nat,
    pub pos: nat,
}

/// A scanner as a mathematical value: the source text and the cursor into it.
pub struct LexerView {
    pub text: Seq<char>,
    pub cursor: nat,
}

/// The fixed string of a class that is matched by one; empty for the other classes.
pub open spec fn literal(class: TokenClass) -> Seq<char> {
    match class {
        TokenClass::RETTYPE => "->"@,
        TokenClass::FUNCTION => "function"@,
        TokenClass::INT32 => "int32"@,
        TokenClass::RETURN => "return"@,
        TokenClass::VOID => "void"@,
        TokenClass::INT => "int"@,
        _ => Seq::empty(),
    }
}

/// The classes of the keywords.
pub open spec fn is_keyword(class: TokenClass) -> bool {
    class == TokenClass::FUNCTION || class == TokenClass::INT32 || class == TokenClass::RETURN
        || class == TokenClass::VOID || class == TokenClass::INT
}

/// The number of leading characters of `buffer` that the classifier of `class`
/// matches. A keyword must end at a token boundary; the arrow delimits itself.
/// The classes `ERROR` and `EOF` have no classifier and match nothing.
pub open spec fn match_length(class: TokenClass, buffer: Seq<char>) -> nat {
    match class {
        TokenClass::IDENTIFIER => identifier_len(buffer),
        TokenClass::INTLITERAL => int_literal_len(buffer),
        TokenClass::SINGLECHAR => punctuation_len(buffer),
        TokenClass::RETTYPE => fixed_string_len(literal(class), false, buffer),
        TokenClass::FUNCTION
        | TokenClass::INT32
        | TokenClass::RETURN
        | TokenClass::VOID
        | TokenClass::INT => fixed_string_len(literal(class), true, buffer),
        TokenClass::ERROR | TokenClass::EOF => 0,
    }
}

/// The rank of a class in the fixed order in which the classifiers are consulted.
/// Among classes that match the same number of characters the highest rank wins.
pub open spec fn precedence(class: TokenClass) -> nat {
    match class {
        TokenClass::ERROR | TokenClass::EOF => 0,
        TokenClass::IDENTIFIER => 1,
        TokenClass::INTLITERAL => 2,
        TokenClass::SINGLECHAR => 3,
        TokenClass::RETTYPE => 4,
        TokenClass::FUNCTION => 5,
        TokenClass::INT32 => 6,
        TokenClass::RETURN => 7,
        TokenClass::VOID => 8,
        TokenClass::INT => 9,
    }
}

/// The larger of two lengths.
pub open spec fn longer(a: nat, b: nat) -> nat {
    if a >= b {
        a
    } else {
        b
    }
}

/// The length of the token at the head of a non-empty `buffer`: the longest match
/// of any classifier, and 1 where no classifier matches.
#[verifier::opaque]
pub open spec fn longest_match(buffer: Seq<char>) -> nat {
    longer(
        match_length(TokenClass::INT, buffer),
        longer(
            match_length(TokenClass::VOID, buffer),
            longer(
                match_length(TokenClass::RETURN, buffer),
                longer(
                    match_length(TokenClass::INT32, buffer),
                    longer(
                        match_length(TokenClass::FUNCTION, buffer),
                        longer(
                            match_length(TokenClass::RETTYPE, buffer),
                            longer(
                                match_length(TokenClass::SINGLECHAR, buffer),
                                longer(
                                    match_length(TokenClass::INTLITERAL, buffer),
                                    longer(match_length(TokenClass::IDENTIFIER, buffer), 1),
                                ),
                            ),
                        ),
                    ),
                ),
            ),
        ),
    )
}

/// The class of the token at the head of a non-empty `buffer`: of the classes
/// whose classifier matches [`longest_match`] characters the one of highest
/// precedence, and `ERROR` where there is none.
#[verifier::opaque]
pub open spec fn winning_class(buffer: Seq<char>) -> TokenClass {
    let n = longest_match(buffer);
    if match_length(TokenClass::INT, buffer) == n {
        TokenClass::INT
    } else if match_length(TokenClass::VOID, buffer) == n {
        TokenClass::VOID
    } else if match_length(TokenClass::RETURN, buffer) == n {
        TokenClass::RETURN
    } else if match_length(TokenClass::INT32, buffer) == n {
        TokenClass::INT32
    } else if match_length(TokenClass::FUNCTION, buffer) == n {
        TokenClass::FUNCTION
    } else if match_length(TokenClass::RETTYPE, buffer) == n {
        TokenClass::RETTYPE
    } else if match_length(TokenClass::SINGLECHAR, buffer) == n {
        TokenClass::SINGLECHAR
    } else if match_length(TokenClass::INTLITERAL, buffer) == n {
        TokenClass::INTLITERAL
    } else if match_length(TokenClass::IDENTIFIER, buffer) == n {
        TokenClass::IDENTIFIER
    } else {
        TokenClass::ERROR
    }
}

/// The number of newline characters in `s`.
pub open spec fn newlines_in(s: Seq<char>) -> nat
    decreases s.len(),
{
    if s.len() == 0 {
        0
    } else if s.last() == '\n' {
        newlines_in(s.drop_last()) + 1
    } else {
        newlines_in(s.drop_last())
    }
}

/// The 1-based number of the line that holds offset `pos` of `text`.
pub open spec fn line_at(text: Seq<char>, pos: nat) -> nat {
    1 + newlines_in(text.take(pos as int))
}

/// Where the next token starts: the cursor moved past the whitespace that follows it.
pub open spec fn token_start(text: Seq<char>, cursor: nat) -> nat {
    cursor + run_len(text.skip(cursor as int), CharKind::Whitespace)
}

/// The token that a scanner of `text` emits when its cursor stands at `cursor`.
pub open spec fn next_token(text: Seq<char>, cursor: nat) -> TokenView {
    let start = token_start(text, cursor);
    if start >= text.len() {
        TokenView {
            class: TokenClass::EOF,
            text: Seq::empty(),
            line: line_at(text, start),
            pos: start,
        }
    } else {
        let buffer = text.skip(start as int);
        TokenView {
            class: winning_class(buffer),
            text: buffer.take(longest_match(buffer) as int),
            line: line_at(text, start),
            pos: start,
        }
    }
}

/// Where the cursor stands after the scanner has emitted [`next_token`]: behind it.
pub open spec fn next_cursor(text: Seq<char>, cursor: nat) -> nat {
    let token = next_token(text, cursor);
    token.pos + token.text.len()
}

/// The tokens that a scanner of `text` emits from `cursor` on, one call after
/// another, up to and including the first token of class `EOF`.
pub open spec fn token_stream(text: Seq<char>, cursor: nat) -> Seq<TokenView>
    decreases text.len() - cursor,
    when cursor <= text.len()
    via token_stream_terminates
{
    let token = next_token(text, cursor);
    if token.class == TokenClass::EOF {
        seq![token]
    } else {
        seq![token] + token_stream(text, next_cursor(text, cursor))
    }
}

#[via_fn]
proof fn token_stream_terminates(text: Seq<char>, cursor: nat) {
    lemma_next_cursor(text, cursor);
}

/// Where the next token starts: at the first character from the cursor on that
/// is not whitespace, or at the end of the text.
pub proof fn lemma_token_start(text: Seq<char>, cursor: nat)
    requires
        cursor <= text.len(),
    ensures
        cursor <= token_start(text, cursor) <= text.len(),
        forall|i: int|
            cursor <= i < token_start(text, cursor) ==> spec_is_whitespace(#[trigger] text[i]),
        token_start(text, cursor) < text.len() ==> !spec_is_whitespace(
            text[token_start(text, cursor) as int],
        ),
{
    let rest = text.skip(cursor as int);
    lemma_run_len_is_run(rest, CharKind::Whitespace);
    assert forall|i: int| cursor <= i < token_start(text, cursor) implies spec_is_whitespace(
        #[trigger] text[i],
    ) by {
        assert(text[i] == rest[i - cursor]);
    }
    if token_start(text, cursor) < text.len() {
        assert(text[token_start(text, cursor) as int] == rest[token_start(text, cursor) - cursor]);
    }
}

/// The cursor stays within the text, never moves back, and moves forward with
/// every token but the one of class `EOF`, which is emitted at the end of the text.
pub proof fn lemma_next_cursor(text: Seq<char>, cursor: nat)
    requires
        cursor <= text.len(),
    ensures
        cursor <= next_cursor(text, cursor) <= text.len(),
        next_token(text, cursor).class != TokenClass::EOF ==> cursor < next_cursor(text, cursor),
        next_token(text, cursor).class == TokenClass::EOF ==> next_cursor(text, cursor)
            == text.len(),
{
    lemma_token_start(text, cursor);
    let start = token_start(text, cursor);
    if start < text.len() {
        let buffer = text.skip(start as int);
        lemma_longest_match_is_prefix(buffer);
    }
}

/// The characters of the keywords and of the arrow, one by one.
pub proof fn lemma_literals()
    ensures
        literal(TokenClass::RETTYPE) == seq!['-', '>'],
        literal(TokenClass::FUNCTION) == seq!['f', 'u', 'n', 'c', 't', 'i', 'o', 'n'],
        literal(TokenClass::INT32) == seq!['i', 'n', 't', '3', '2'],
        literal(TokenClass::RETURN) == seq!['r', 'e', 't', 'u', 'r', 'n'],
        literal(TokenClass::VOID) == seq!['v', 'o', 'i', 'd'],
        literal(TokenClass::INT) == seq!['i', 'n', 't'],
{
    reveal_strlit("->");
    reveal_strlit("function");
    reveal_strlit("int32");
    reveal_strlit("return");
    reveal_strlit("void");
    reveal_strlit("int");
}

/// No character of a fixed string is whitespace.
pub proof fn lemma_literal_has_no_whitespace(class: TokenClass)
    ensures
        forall|i: int|
            0 <= i < literal(class).len() ==> !spec_is_whitespace(#[trigger] literal(class)[i]),
{
    lemma_literals();
}

/// A classifier matches a prefix of the buffer, and no whitespace.
pub proof fn lemma_match_is_prefix(class: TokenClass, buffer: Seq<char>)
    ensures
        match_length(class, buffer) <= buffer.len(),
        forall|i: int|
            0 <= i < match_length(class, buffer) ==> !spec_is_whitespace(#[trigger] buffer[i]),
{
    let n = match_length(class, buffer);
    match class {
        TokenClass::IDENTIFIER => {
            lemma_run_len_is_run(buffer, CharKind::Word);
        },
        TokenClass::INTLITERAL => {
            lemma_run_len_is_run(buffer, CharKind::Digit);
        },
        TokenClass::SINGLECHAR | TokenClass::ERROR | TokenClass::EOF => {},
        _ => {
            lemma_literal_has_no_whitespace(class);
            assert forall|i: int| 0 <= i < n implies !spec_is_whitespace(#[trigger] buffer[i]) by {
                assert(buffer.subrange(0, n as int)[i] == literal(class)[i]);
            }
        },
    }
}

/// The token at the head of a buffer that begins with no whitespace lies within
/// the buffer, is not empty, and holds no whitespace.
pub proof fn lemma_longest_match_is_prefix(buffer: Seq<char>)
    requires
        buffer.len() > 0,
        !spec_is_whitespace(buffer[0]),
    ensures
        1 <= longest_match(buffer) <= buffer.len(),
        forall|i: int| 0 <= i < longest_match(buffer) ==> !spec_is_whitespace(#[trigger] buffer[i]),
        winning_class(buffer) != TokenClass::EOF,
{
    reveal(longest_match);
    reveal(winning_class);
    lemma_match_is_prefix(TokenClass::IDENTIFIER, buffer);
    lemma_match_is_prefix(TokenClass::INTLITERAL, buffer);
    lemma_match_is_prefix(TokenClass::SINGLECHAR, buffer);
    lemma_match_is_prefix(TokenClass::RETTYPE, buffer);
    lemma_match_is_prefix(TokenClass::FUNCTION, buffer);
    lemma_match_is_prefix(TokenClass::INT32, buffer);
    lemma_match_is_prefix(TokenClass::RETURN, buffer);
    lemma_match_is_prefix(TokenClass::VOID, buffer);
    lemma_match_is_prefix(TokenClass::INT, buffer);
}

/// Characters other than the newline do not change the line.
pub proof fn lemma_line_unchanged(text: Seq<char>, from: nat, to: nat)
    requires
        from <= to <= text.len(),
        forall|i: int| from <= i < to ==> text[i] != '\n',
    ensures
        line_at(text, to) == line_at(text, from),
    decreases to - from,
{
    if from < to {
        lemma_line_unchanged(text, from, (to - 1) as nat);
        assert(text.take(to as int).drop_last() =~= text.take(to - 1));
    }
}

/// Reading one more character moves to the next line exactly when it is a newline.
pub proof fn lemma_line_step(text: Seq<char>, pos: nat)
    requires
        pos < text.len(),
    ensures
        line_at(text, pos + 1) == line_at(text, pos) + if text[pos as int] == '\n' {
            1nat
        } else {
            0nat
        },
        line_at(text, pos) <= pos + 1,
    decreases pos,
{
    assert(text.take(pos + 1 as int).drop_last() =~= text.take(pos as int));
    if pos > 0 {
        lemma_line_step(text, (pos - 1) as nat);
    }
}

} // verus!
