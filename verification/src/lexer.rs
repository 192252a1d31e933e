//! The scanner: it owns the source text and a cursor, and emits one token per call.

use crate::chars::{is_whitespace, lemma_run_len_unique, CharKind};
use crate::checker::{
    FixedStringTokenChecker, IdentifierTokenChecker, IntLiteralTokenChecker,
    SingleCharTokenChecker, TokenChecker,
};
use crate::model::{
    lemma_line_step, lemma_line_unchanged, lemma_longest_match_is_prefix, line_at, longest_match,
    next_cursor, next_token, token_start, winning_class, LexerView, TokenView,
};
use vstd::prelude::*;
use vstd::std_specs::iter::IteratorSpec;
use vstd::utf8::{is_ascii_chars, is_ascii_chars_encode_utf8};

verus! {

/// The lexical categories.
#[allow(non_camel_case_types)]
#[derive(Clone, Copy, Debug, PartialEq, Eq, Structural)]
pub enum TokenClass {
    /// No valid token: a character that no classifier matches.
    ERROR,
    /// Any one-character operator or punctuation mark.
    SINGLECHAR,
    /// The return-type arrow `->`.
    RETTYPE,
    /// The keyword `function`.
    FUNCTION,
    /// The keyword `return`.
    RETURN,
    /// The keyword `int32`.
    INT32,
    /// The keyword `int`.
    INT,
    /// The keyword `void`.
    VOID,
    /// A run of decimal digits.
    INTLITERAL,
    /// A name: letters, digits and underscores, not beginning with a digit.
    IDENTIFIER,
    /// The end of the source text.
    EOF,
}

/// A classified, positioned span of the source text.
#[derive(Debug)]
pub struct Token<'a> {
    /// The lexical category of the token.
    pub class: TokenClass,
    /// The matched characters, borrowed from the scanner's text.
    pub str: &'a str,
    /// The 1-based line on which the token starts.
    pub line: usize,
    /// The offset into the source text at which the token starts.
    pub pos: usize,
}

impl<'a> View for Token<'a> {
    type V = TokenView;

    open spec fn view(&self) -> TokenView {
        TokenView {
            class: self.class,
            text: self.str@,
            line: self.line as nat,
            pos: self.pos as nat,
        }
    }
}

/// The best match found so far while the classifiers are consulted in turn.
pub struct TokenCandidate {
    /// The class of the classifier that matched.
    pub class: TokenClass,
    /// The number of characters that it matched.
    pub length: usize,
}

/// Where the scanner stands in its text.
struct Cursor {
    /// Offset of the next character to read.
    pos: usize,
    /// The 1-based line that holds `pos`.
    line: usize,
}

/// The scanner. It holds the whole source text, which is plain ASCII, and a
/// cursor into it that only moves forward.
pub struct Lexer {
    cursor: Cursor,
    input_buffer: String,
}

impl View for Lexer {
    type V = LexerView;

    closed spec fn view(&self) -> LexerView {
        LexerView { text: self.input_buffer@, cursor: self.cursor.pos as nat }
    }
}

impl Lexer {
    /// The text is plain ASCII, so that offsets in bytes are offsets in characters,
    /// and shorter than the largest machine word, so that a line number fits one.
    /// The cursor lies within the text, and the line is that of the cursor.
    #[verifier::type_invariant]
    spec fn well_formed(&self) -> bool {
        &&& is_ascii_chars(self.input_buffer@)
        &&& self.input_buffer@.len() < usize::MAX
        &&& self.cursor.pos <= self.input_buffer@.len()
        &&& self.cursor.line == line_at(self.input_buffer@, self.cursor.pos as nat)
    }

    /// A scanner of the empty text.
    pub fn new() -> (lexer: Lexer)
        ensures
            lexer@ == (LexerView { text: Seq::empty(), cursor: 0 }),
    {
        Lexer { cursor: Cursor { pos: 0, line: 1 }, input_buffer: String::new() }
    }

    /// Replaces the text to scan by `source` and moves the cursor to its start.
    ///
    /// The scanner reads single-byte characters only, and numbers lines in a
    /// machine word: a source that holds a character outside ASCII, or that is as
    /// long as the largest machine word, is refused, and the scanner is left as
    /// it was.
    pub fn load_input(&mut self, source: String) -> (accepted: bool)
        ensures
            accepted == (is_ascii_chars(source@) && source@.len() < usize::MAX),
            accepted ==> final(self)@ == (LexerView { text: source@, cursor: 0 }),
            !accepted ==> final(self)@ == old(self)@,
    {
        let len: usize = source.as_str().as_bytes().len();
        proof {
            if is_ascii_chars(source@) {
                is_ascii_chars_encode_utf8(source@);
            }
        }
        if !source.as_str().is_ascii() || len == usize::MAX {
            return false;
        }
        *self = Lexer { cursor: Cursor { pos: 0, line: 1 }, input_buffer: source };
        true
    }

    /// Skips the whitespace at the cursor and emits the token that follows it:
    /// the longest match of any classifier, of the class of highest precedence
    /// among those that match so much. A character that no classifier matches is
    /// emitted alone, as a token of class `ERROR`; at the end of the text the
    /// token is empty and of class `EOF`. The cursor moves behind the token.
    ///
    /// The token carries the offset at which it starts and the number of its
    /// line, which is one more than the number of newlines before that offset.
    pub fn get_next_token(&mut self) -> (token: Token<'_>)
        ensures
            token@ == next_token(old(self)@.text, old(self)@.cursor),
            final(self)@.text == old(self)@.text,
            final(self)@.cursor == next_cursor(old(self)@.text, old(self)@.cursor),
            final(self)@.cursor <= old(self)@.text.len(),
            old(self)@.cursor < old(self)@.text.len() ==> old(self)@.cursor < final(self)@.cursor,
    {
        proof {
            use_type_invariant(&*self);
            is_ascii_chars_encode_utf8(self.input_buffer@);
        }
        let ghost text = self.input_buffer@;
        let ghost origin = self.cursor.pos;
        let source = self.input_buffer.as_str();
        let len: usize = source.as_bytes().len();
        let mut pos: usize = self.cursor.pos;
        let mut line: usize = self.cursor.line;

        // Throw away all whitespace
        let mut chars = source.substring_ascii(pos, len).chars();
        loop
            invariant_except_break
                chars.remaining() == text.skip(pos as int),
            invariant
                text.len() == len < usize::MAX,
                origin <= pos <= len,
                line == line_at(text, pos as nat),
                forall|j: int| origin <= j < pos ==> is_whitespace(#[trigger] text[j]),
            ensures
                pos < len ==> !is_whitespace(text[pos as int]),
            decreases len - pos,
        {
            match chars.next() {
                None => {
                    break;
                },
                Some(c) => {
                    if !is_whitespace(c) {
                        break;
                    }
                    proof {
                        lemma_line_step(text, pos as nat);
                    }
                    if c == '\n' {
                        line += 1;
                    }
                    pos += 1;
                },
            }
        }
        proof {
            let rest = text.skip(origin as int);
            assert forall|j: int| 0 <= j < pos - origin implies CharKind::Whitespace.contains(
                #[trigger] rest[j],
            ) by {
                assert(rest[j] == text[origin + j]);
            }
            lemma_run_len_unique(rest, CharKind::Whitespace, pos - origin);
        }
        if pos == len {
            self.cursor = Cursor { pos, line };
            assert(text.subrange(pos as int, pos as int) =~= Seq::<char>::empty());
            return Token {
                class: TokenClass::EOF,
                str: self.input_buffer.as_str().substring_ascii(pos, pos),
                line,
                pos,
            };
        }
        let buffer = source.substring_ascii(pos, len);
        let candidate = Self::_best_candidate(buffer);
        proof {
            lemma_longest_match_is_prefix(buffer@);
            assert forall|i: int| pos <= i < pos + candidate.length implies text[i] != '\n' by {
                assert(text[i] == buffer@[i - pos]);
            }
            lemma_line_unchanged(text, pos as nat, (pos + candidate.length) as nat);
        }
        let end: usize = pos + candidate.length;
        self.cursor = Cursor { pos: end, line };
        assert(buffer@.take(candidate.length as int) =~= text.subrange(pos as int, end as int));
        Token {
            class: candidate.class,
            str: self.input_buffer.as_str().substring_ascii(pos, end),
            line,
            pos,
        }
    }

    /// Consults every classifier on `buffer`, in ascending precedence, and returns
    /// the best match: the longest, and among the longest the one found last. Where
    /// no classifier matches, the candidate is one character of class `ERROR`.
    fn _best_candidate(buffer: &str) -> (candidate: TokenCandidate)
        requires
            buffer@.len() > 0,
        ensures
            candidate.length == longest_match(buffer@),
            candidate.class == winning_class(buffer@),
    {
        proof {
            reveal(longest_match);
            reveal(winning_class);
        }
        let identifier = IdentifierTokenChecker {};
        let int_literal = IntLiteralTokenChecker {};
        let single_char = SingleCharTokenChecker {};
        let arrow = FixedStringTokenChecker::new("->");
        let function_keyword = FixedStringTokenChecker::keyword("function");
        let int32_keyword = FixedStringTokenChecker::keyword("int32");
        let return_keyword = FixedStringTokenChecker::keyword("return");
        let void_keyword = FixedStringTokenChecker::keyword("void");
        let int_keyword = FixedStringTokenChecker::keyword("int");

        let mut candidate = TokenCandidate { class: TokenClass::ERROR, length: 1 };
        candidate = Self::_check_token(buffer, TokenClass::IDENTIFIER, &identifier, candidate);
        candidate = Self::_check_token(buffer, TokenClass::INTLITERAL, &int_literal, candidate);
        candidate = Self::_check_token(buffer, TokenClass::SINGLECHAR, &single_char, candidate);
        candidate = Self::_check_token(buffer, TokenClass::RETTYPE, &arrow, candidate);
        candidate = Self::_check_token(buffer, TokenClass::FUNCTION, &function_keyword, candidate);
        candidate = Self::_check_token(buffer, TokenClass::INT32, &int32_keyword, candidate);
        candidate = Self::_check_token(buffer, TokenClass::RETURN, &return_keyword, candidate);
        candidate = Self::_check_token(buffer, TokenClass::VOID, &void_keyword, candidate);
        candidate = Self::_check_token(buffer, TokenClass::INT, &int_keyword, candidate);
        candidate
    }

    /// Consults one classifier: its match replaces the candidate where it is at
    /// least as long.
    pub fn _check_token(
        buffer: &str,
        token: TokenClass,
        checker: &dyn TokenChecker,
        prev_candidate: TokenCandidate,
    ) -> (candidate: TokenCandidate)
        ensures
            checker.match_length(buffer@) >= prev_candidate.length ==> candidate.class == token
                && candidate.length == checker.match_length(buffer@),
            checker.match_length(buffer@) < prev_candidate.length ==> candidate == prev_candidate,
    {
        let length: usize = checker.check_token(buffer);
        if length >= prev_candidate.length {
            return TokenCandidate { class: token, length: length };
        }
        return prev_candidate;
    }
}

} // verus!
