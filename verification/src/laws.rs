//! Laws of scanning, proved of the model that the scanner's contracts speak of.

use crate::chars::{
    lemma_run_len_is_run, lemma_run_len_unique, run_len, spec_is_digit, spec_is_identifier_part,
    spec_is_identifier_start, spec_is_punctuation, spec_is_whitespace, CharKind,
};
use crate::checker::{ends_at_boundary, fixed_string_len, identifier_len};
use crate::lexer::TokenClass;
use crate::model::{
    is_keyword, lemma_literal_has_no_whitespace, lemma_literals, lemma_longest_match_is_prefix,
    lemma_next_cursor, lemma_token_start, literal, longest_match, match_length, next_cursor,
    next_token, precedence, token_start, token_stream, winning_class, LexerView,
};
use vstd::prelude::*;

verus! {

/// Scanning is deterministic: two scanners that hold the same text and stand at
/// the same cursor emit the same token, move to the same cursor, and emit the same
/// sequence of tokens up to the end of the text.
pub proof fn lemma_scanning_is_deterministic(a: LexerView, b: LexerView)
    requires
        a.text == b.text,
        a.cursor == b.cursor,
    ensures
        next_token(a.text, a.cursor) == next_token(b.text, b.cursor),
        next_cursor(a.text, a.cursor) == next_cursor(b.text, b.cursor),
        token_stream(a.text, a.cursor) == token_stream(b.text, b.cursor),
{
}

/// The sequence of tokens from a cursor on begins with the token emitted there
/// and, unless that is the end of the text, goes on with the sequence from the
/// next cursor on. It ends with the first token of class `EOF`.
pub proof fn lemma_token_stream_unfolds(text: Seq<char>, cursor: nat)
    requires
        cursor <= text.len(),
    ensures
        token_stream(text, cursor).len() >= 1,
        token_stream(text, cursor)[0] == next_token(text, cursor),
        token_stream(text, cursor).last().class == TokenClass::EOF,
        next_token(text, cursor).class == TokenClass::EOF ==> token_stream(text, cursor) == seq![
            next_token(text, cursor),
        ],
        next_token(text, cursor).class != TokenClass::EOF ==> token_stream(text, cursor) == seq![
            next_token(text, cursor),
        ] + token_stream(text, next_cursor(text, cursor)),
    decreases text.len() - cursor,
{
    lemma_next_cursor(text, cursor);
    if next_token(text, cursor).class != TokenClass::EOF {
        lemma_token_stream_unfolds(text, next_cursor(text, cursor));
    }
}

/// Progress: while characters remain behind the cursor, every token moves the
/// cursor forward by at least one character, and never past the end of the text.
pub proof fn lemma_scanner_makes_progress(text: Seq<char>, cursor: nat)
    requires
        cursor < text.len(),
    ensures
        cursor < next_cursor(text, cursor) <= text.len(),
{
    lemma_next_cursor(text, cursor);
}

/// Maximal munch: no classifier matches more characters of the buffer than the
/// token at its head is long.
pub proof fn lemma_maximal_munch(buffer: Seq<char>, class: TokenClass)
    ensures
        match_length(class, buffer) <= longest_match(buffer),
{
    reveal(longest_match);
}

/// The token is not empty, and as long as the match of the classifier of its
/// class. A token of class `ERROR` is one character long, and is emitted only
/// where no classifier matches anything.
pub proof fn lemma_longest_match_is_attained(buffer: Seq<char>)
    ensures
        longest_match(buffer) >= 1,
        winning_class(buffer) != TokenClass::EOF,
        winning_class(buffer) != TokenClass::ERROR ==> match_length(winning_class(buffer), buffer)
            == longest_match(buffer),
        winning_class(buffer) == TokenClass::ERROR ==> longest_match(buffer) == 1,
        winning_class(buffer) == TokenClass::ERROR ==> forall|class: TokenClass| #[trigger]
            match_length(class, buffer) == 0,
{
    reveal(longest_match);
    reveal(winning_class);
    if winning_class(buffer) == TokenClass::ERROR {
        assert forall|class: TokenClass| #[trigger] match_length(class, buffer) == 0 by {
            lemma_maximal_munch(buffer, class);
        }
    }
}

/// Precedence breaks ties: of the classes whose classifier matches as many
/// characters as the token is long, the token has the one of highest precedence.
pub proof fn lemma_precedence_breaks_ties(buffer: Seq<char>, class: TokenClass)
    requires
        match_length(class, buffer) == longest_match(buffer),
    ensures
        precedence(class) <= precedence(winning_class(buffer)),
{
    reveal(longest_match);
    reveal(winning_class);
}

/// The winner is unique: a class whose classifier matches at least one character,
/// and at least as many as any other, and that has the highest precedence of those
/// that match as many, is the class of the token, and its match is the token.
pub proof fn lemma_winner_is_unique(buffer: Seq<char>, class: TokenClass)
    requires
        match_length(class, buffer) >= 1,
        forall|other: TokenClass| #[trigger]
            match_length(other, buffer) <= match_length(class, buffer),
        forall|other: TokenClass|
            other != class && #[trigger] match_length(other, buffer) == match_length(class, buffer)
                ==> precedence(other) < precedence(class),
    ensures
        winning_class(buffer) == class,
        longest_match(buffer) == match_length(class, buffer),
{
    reveal(longest_match);
    reveal(winning_class);
    assert(match_length(TokenClass::IDENTIFIER, buffer) <= match_length(class, buffer));
    assert(match_length(TokenClass::INTLITERAL, buffer) <= match_length(class, buffer));
    assert(match_length(TokenClass::SINGLECHAR, buffer) <= match_length(class, buffer));
    assert(match_length(TokenClass::RETTYPE, buffer) <= match_length(class, buffer));
    assert(match_length(TokenClass::FUNCTION, buffer) <= match_length(class, buffer));
    assert(match_length(TokenClass::INT32, buffer) <= match_length(class, buffer));
    assert(match_length(TokenClass::RETURN, buffer) <= match_length(class, buffer));
    assert(match_length(TokenClass::VOID, buffer) <= match_length(class, buffer));
    assert(match_length(TokenClass::INT, buffer) <= match_length(class, buffer));
}

/// Maximal munch, of the scanner: where the scanner emits a token, no classifier
/// matches more characters at the start of that token than the token holds.
pub proof fn lemma_token_is_longest_match(text: Seq<char>, cursor: nat, class: TokenClass)
    requires
        cursor <= text.len(),
        next_token(text, cursor).class != TokenClass::EOF,
    ensures
        match_length(class, text.skip(next_token(text, cursor).pos as int)) <= next_token(
            text,
            cursor,
        ).text.len(),
{
    lemma_token_start(text, cursor);
    let buffer = text.skip(token_start(text, cursor) as int);
    lemma_longest_match_is_prefix(buffer);
    lemma_maximal_munch(buffer, class);
}

/// A token is the span of the text from its offset to the next cursor, and no
/// character of it is whitespace.
pub proof fn lemma_token_text_has_no_whitespace(text: Seq<char>, cursor: nat)
    requires
        cursor <= text.len(),
    ensures
        next_token(text, cursor).text == text.subrange(
            next_token(text, cursor).pos as int,
            next_cursor(text, cursor) as int,
        ),
        forall|i: int|
            0 <= i < next_token(text, cursor).text.len() ==> !spec_is_whitespace(
                #[trigger] next_token(text, cursor).text[i],
            ),
{
    lemma_token_start(text, cursor);
    let start = token_start(text, cursor);
    if start < text.len() {
        let buffer = text.skip(start as int);
        lemma_longest_match_is_prefix(buffer);
        assert(buffer.take(longest_match(buffer) as int) =~= text.subrange(
            start as int,
            (start + longest_match(buffer)) as int,
        ));
    }
}

/// Whitespace before a token is transparent: a scanner that stands before a run
/// of whitespace emits the same token, and moves to the same cursor, as one that
/// stands behind it.
pub proof fn lemma_leading_whitespace_is_transparent(text: Seq<char>, cursor: nat, skipped: nat)
    requires
        cursor + skipped <= text.len(),
        forall|i: int| cursor <= i < cursor + skipped ==> spec_is_whitespace(#[trigger] text[i]),
    ensures
        next_token(text, cursor) == next_token(text, cursor + skipped),
        next_cursor(text, cursor) == next_cursor(text, cursor + skipped),
{
    lemma_token_start(text, cursor + skipped);
    let start = token_start(text, cursor + skipped);
    let rest = text.skip(cursor as int);
    assert forall|j: int| 0 <= j < start - cursor implies CharKind::Whitespace.contains(
        #[trigger] rest[j],
    ) by {
        assert(rest[j] == text[cursor + j]);
    }
    lemma_run_len_unique(rest, CharKind::Whitespace, start - cursor);
}

/// The end of the text is a terminal state: once nothing but whitespace remains
/// the scanner emits the empty token of class `EOF`, moves to the end of the text,
/// and from there emits that same token at every call.
pub proof fn lemma_end_of_input_is_terminal(text: Seq<char>, cursor: nat)
    requires
        cursor <= text.len(),
        forall|i: int| cursor <= i < text.len() ==> spec_is_whitespace(#[trigger] text[i]),
    ensures
        next_token(text, cursor).class == TokenClass::EOF,
        next_token(text, cursor).text.len() == 0,
        next_token(text, cursor).pos == text.len(),
        next_cursor(text, cursor) == text.len(),
        next_token(text, next_cursor(text, cursor)) == next_token(text, cursor),
        next_cursor(text, next_cursor(text, cursor)) == next_cursor(text, cursor),
{
    lemma_leading_whitespace_is_transparent(text, cursor, (text.len() - cursor) as nat);
    lemma_token_start(text, text.len());
}

/// A token of class `EOF` is emitted only where nothing but whitespace remains.
pub proof fn lemma_end_of_input_only_at_end(text: Seq<char>, cursor: nat)
    requires
        cursor <= text.len(),
        next_token(text, cursor).class == TokenClass::EOF,
    ensures
        forall|i: int| cursor <= i < text.len() ==> spec_is_whitespace(#[trigger] text[i]),
{
    lemma_token_start(text, cursor);
    if token_start(text, cursor) < text.len() {
        lemma_longest_match_is_prefix(text.skip(token_start(text, cursor) as int));
    }
}

/// No fixed string matches a buffer that begins with a character other than the
/// first of the string.
proof fn lemma_literal_needs_first_char(class: TokenClass, buffer: Seq<char>)
    requires
        buffer.len() > 0,
        literal(class).len() > 0,
        buffer[0] != literal(class)[0],
    ensures
        !literal(class).is_prefix_of(buffer),
{
    if literal(class).len() <= buffer.len() {
        assert(buffer.subrange(0, literal(class).len() as int)[0] == buffer[0]);
    }
}

/// No fixed string matches a buffer that begins with a character that is none
/// of `-`, `f`, `i`, `r` and `v`.
proof fn lemma_no_literal_matches(buffer: Seq<char>)
    requires
        buffer.len() > 0,
        buffer[0] != '-' && buffer[0] != 'f' && buffer[0] != 'i' && buffer[0] != 'r' && buffer[0]
            != 'v',
    ensures
        forall|class: TokenClass| literal(class).len() > 0 ==> !(#[trigger] literal(
            class,
        )).is_prefix_of(buffer),
{
    lemma_literals();
    assert forall|class: TokenClass| literal(class).len() > 0 implies !(#[trigger] literal(
        class,
    )).is_prefix_of(buffer) by {
        lemma_literal_needs_first_char(class, buffer);
    }
}

/// Integer literals: a buffer that begins with a digit has at its head a token
/// of class `INTLITERAL`, which is the run of digits there.
pub proof fn lemma_digits_are_int_literal(buffer: Seq<char>)
    requires
        buffer.len() > 0,
        spec_is_digit(buffer[0]),
    ensures
        winning_class(buffer) == TokenClass::INTLITERAL,
        longest_match(buffer) == run_len(buffer, CharKind::Digit),
{
    lemma_no_literal_matches(buffer);
    assert forall|other: TokenClass|
        other != TokenClass::INTLITERAL implies #[trigger] match_length(other, buffer) == 0 by {
        assert(literal(other).len() > 0 ==> !literal(other).is_prefix_of(buffer));
    }
    lemma_winner_is_unique(buffer, TokenClass::INTLITERAL);
}

/// Identifiers: a buffer that begins with a letter or an underscore, and at whose
/// head no keyword matches, has there a token of class `IDENTIFIER`, which is the
/// run of letters, digits and underscores there.
pub proof fn lemma_word_is_identifier(buffer: Seq<char>)
    requires
        buffer.len() > 0,
        spec_is_identifier_start(buffer[0]),
        forall|class: TokenClass| is_keyword(class) ==> #[trigger] match_length(class, buffer) == 0,
    ensures
        winning_class(buffer) == TokenClass::IDENTIFIER,
        longest_match(buffer) == run_len(buffer, CharKind::Word),
{
    lemma_literals();
    lemma_literal_needs_first_char(TokenClass::RETTYPE, buffer);
    lemma_run_len_unique(buffer, CharKind::Digit, 0);
    lemma_winner_is_unique(buffer, TokenClass::IDENTIFIER);
}

/// Punctuation: a buffer that begins with an operator or punctuation mark has at
/// its head the arrow, of class `RETTYPE`, where it begins with `->`, and else
/// that one character, of class `SINGLECHAR`.
pub proof fn lemma_punctuation_is_single_char_or_arrow(buffer: Seq<char>)
    requires
        buffer.len() > 0,
        spec_is_punctuation(buffer[0]),
    ensures
        literal(TokenClass::RETTYPE).is_prefix_of(buffer) ==> winning_class(buffer)
            == TokenClass::RETTYPE && longest_match(buffer) == 2,
        !literal(TokenClass::RETTYPE).is_prefix_of(buffer) ==> winning_class(buffer)
            == TokenClass::SINGLECHAR && longest_match(buffer) == 1,
{
    lemma_literals();
    lemma_run_len_unique(buffer, CharKind::Digit, 0);
    assert forall|class: TokenClass| is_keyword(class) implies #[trigger] match_length(
        class,
        buffer,
    ) == 0 by {
        lemma_literal_needs_first_char(class, buffer);
    }
    if literal(TokenClass::RETTYPE).is_prefix_of(buffer) {
        lemma_winner_is_unique(buffer, TokenClass::RETTYPE);
    } else {
        lemma_winner_is_unique(buffer, TokenClass::SINGLECHAR);
    }
}

/// Unrecognized characters: the token at the head of a buffer is of class `ERROR`
/// exactly when the buffer begins with a character that is no letter, digit,
/// underscore, operator or punctuation mark. Such a token is that one character.
pub proof fn lemma_error_is_unrecognized_character(buffer: Seq<char>)
    requires
        buffer.len() > 0,
    ensures
        winning_class(buffer) == TokenClass::ERROR <==> !spec_is_identifier_part(buffer[0])
            && !spec_is_punctuation(buffer[0]),
        winning_class(buffer) == TokenClass::ERROR ==> longest_match(buffer) == 1,
{
    if !spec_is_identifier_part(buffer[0]) && !spec_is_punctuation(buffer[0]) {
        lemma_no_literal_matches(buffer);
        lemma_run_len_unique(buffer, CharKind::Digit, 0);
        assert forall|class: TokenClass| #[trigger] match_length(class, buffer) == 0 by {
            assert(literal(class).len() > 0 ==> !literal(class).is_prefix_of(buffer));
        }
        lemma_longest_match_is_attained(buffer);
    } else {
        lemma_run_len_is_run(buffer, CharKind::Word);
        lemma_run_len_is_run(buffer, CharKind::Digit);
        let matching = if spec_is_punctuation(buffer[0]) {
            TokenClass::SINGLECHAR
        } else if spec_is_digit(buffer[0]) {
            TokenClass::INTLITERAL
        } else {
            TokenClass::IDENTIFIER
        };
        assert(match_length(matching, buffer) >= 1);
        lemma_longest_match_is_attained(buffer);
    }
}

/// An unrecognized character is reported where it stands: the scanner emits it
/// alone, as a token of class `ERROR` at the offset of the character, and moves
/// behind it.
pub proof fn lemma_unrecognized_character_is_emitted(text: Seq<char>, cursor: nat)
    requires
        cursor < text.len(),
        !spec_is_whitespace(text[cursor as int]),
        !spec_is_identifier_part(text[cursor as int]),
        !spec_is_punctuation(text[cursor as int]),
    ensures
        next_token(text, cursor).class == TokenClass::ERROR,
        next_token(text, cursor).text == seq![text[cursor as int]],
        next_token(text, cursor).pos == cursor,
        next_cursor(text, cursor) == cursor + 1,
{
    let rest = text.skip(cursor as int);
    lemma_run_len_unique(rest, CharKind::Whitespace, 0);
    lemma_error_is_unrecognized_character(rest);
    assert(rest.take(1) =~= seq![text[cursor as int]]);
}

/// Boundary-correct keyword matching: the classifier of a keyword matches only
/// the whole keyword, and only where the end of the buffer or a whitespace
/// character follows it.
pub proof fn lemma_keyword_needs_boundary(class: TokenClass, buffer: Seq<char>)
    requires
        is_keyword(class),
        match_length(class, buffer) > 0,
    ensures
        match_length(class, buffer) == literal(class).len(),
        buffer.take(literal(class).len() as int) == literal(class),
        ends_at_boundary(buffer, literal(class).len()),
{
}

/// Two strings without whitespace that both match the head of a buffer up to a
/// token boundary are equally long.
proof fn lemma_delimited_matches_agree(a: Seq<char>, b: Seq<char>, buffer: Seq<char>)
    requires
        fixed_string_len(a, true, buffer) > 0,
        fixed_string_len(b, true, buffer) > 0,
        forall|i: int| 0 <= i < a.len() ==> !spec_is_whitespace(#[trigger] a[i]),
        forall|i: int| 0 <= i < b.len() ==> !spec_is_whitespace(#[trigger] b[i]),
    ensures
        a.len() == b.len(),
{
    if a.len() < b.len() {
        assert(buffer.subrange(0, b.len() as int)[a.len() as int] == b[a.len() as int]);
    } else if b.len() < a.len() {
        assert(buffer.subrange(0, a.len() as int)[b.len() as int] == a[b.len() as int]);
    }
}

/// Precedence of keywords: where the classifier of a keyword matches, the
/// identifier classifier matches the same characters, nothing matches more, and
/// the token is of the keyword's class.
pub proof fn lemma_keyword_beats_identifier(class: TokenClass, buffer: Seq<char>)
    requires
        is_keyword(class),
        match_length(class, buffer) > 0,
    ensures
        identifier_len(buffer) == match_length(class, buffer),
        longest_match(buffer) == match_length(class, buffer),
        winning_class(buffer) == class,
{
    lemma_literals();
    let word = literal(class);
    let n = word.len();
    assert forall|j: int| 0 <= j < n implies CharKind::Word.contains(#[trigger] buffer[j]) by {
        assert(buffer[j] == buffer.subrange(0, n as int)[j] == word[j]);
    }
    lemma_run_len_unique(buffer, CharKind::Word, n as int);
    lemma_run_len_unique(buffer, CharKind::Digit, 0);
    lemma_literal_needs_first_char(TokenClass::RETTYPE, buffer);
    assert forall|other: TokenClass|
        is_keyword(other) && other != class implies #[trigger] match_length(other, buffer)
        == 0 by {
        if match_length(other, buffer) > 0 {
            lemma_literal_has_no_whitespace(class);
            lemma_literal_has_no_whitespace(other);
            lemma_delimited_matches_agree(word, literal(other), buffer);
        }
    }
    lemma_winner_is_unique(buffer, class);
}

/// A keyword that runs on into a letter, a digit or an underscore is no keyword:
/// its classifier matches nothing, and the token is longer than the keyword.
pub proof fn lemma_keyword_prefix_of_longer_word(class: TokenClass, buffer: Seq<char>)
    requires
        is_keyword(class),
        literal(class).is_prefix_of(buffer),
        literal(class).len() < buffer.len(),
        spec_is_identifier_part(buffer[literal(class).len() as int]),
    ensures
        match_length(class, buffer) == 0,
        winning_class(buffer) != class,
        longest_match(buffer) > literal(class).len(),
{
    lemma_literals();
    let word = literal(class);
    let n = word.len();
    assert forall|j: int| 0 <= j <= n implies CharKind::Word.contains(#[trigger] buffer[j]) by {
        if j < n {
            assert(buffer[j] == buffer.subrange(0, n as int)[j] == word[j]);
        }
    }
    lemma_run_len_is_run(buffer, CharKind::Word);
    assert(identifier_len(buffer) > n);
    lemma_maximal_munch(buffer, TokenClass::IDENTIFIER);
    lemma_longest_match_is_attained(buffer);
}

} // verus!
