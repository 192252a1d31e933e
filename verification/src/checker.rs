//! Token classifiers: each one answers how many leading characters of a buffer
//! match its pattern.

use crate::chars::{
    count_run, is_identifier_start, is_punctuation, is_whitespace, lemma_chars_at_most_bytes,
    lemma_run_len_is_run, run_len, spec_is_identifier_start, spec_is_punctuation,
    spec_is_whitespace, CharKind,
};
use vstd::prelude::*;
use vstd::std_specs::iter::IteratorSpec;

verus! {

/// Length matched by the identifier pattern: a run of letters, underscores and
/// digits that does not begin with a digit.
pub open spec fn identifier_len(buffer: Seq<char>) -> nat {
    if buffer.len() > 0 && spec_is_identifier_start(buffer[0]) {
        run_len(buffer, CharKind::Word)
    } else {
        0
    }
}

/// Length matched by the integer-literal pattern: a run of decimal digits.
pub open spec fn int_literal_len(buffer: Seq<char>) -> nat {
    run_len(buffer, CharKind::Digit)
}

/// Length matched by the punctuation pattern: 1 if the buffer begins with one of
/// the one-character operators or punctuation marks.
pub open spec fn punctuation_len(buffer: Seq<char>) -> nat {
    if buffer.len() > 0 && spec_is_punctuation(buffer[0]) {
        1
    } else {
        0
    }
}

/// Length matched by a single fixed character: 1 if the buffer begins with `target`.
pub open spec fn fixed_char_len(target: char, buffer: Seq<char>) -> nat {
    if buffer.len() > 0 && buffer[0] == target {
        1
    } else {
        0
    }
}

/// Whether a match of `n` characters ends at a token boundary of `buffer`: at the
/// end of the buffer or before a whitespace character.
pub open spec fn ends_at_boundary(buffer: Seq<char>, n: nat) -> bool {
    n >= buffer.len() || spec_is_whitespace(buffer[n as int])
}

/// Length matched by a fixed string: the whole of `literal` if the buffer begins
/// with it and, where `boundary` is asked for, the match ends at a token boundary.
pub open spec fn fixed_string_len(literal: Seq<char>, boundary: bool, buffer: Seq<char>) -> nat {
    if literal.is_prefix_of(buffer) && (boundary ==> ends_at_boundary(buffer, literal.len())) {
        literal.len()
    } else {
        0
    }
}

/// A token classifier.
pub trait TokenChecker {
    /// The number of leading characters of `buffer` that match the pattern, 0 if none.
    spec fn match_length(&self, buffer: Seq<char>) -> nat;

    /// Returns the number of leading characters of `buffer` that match the pattern.
    fn check_token(&self, buffer: &str) -> (length: usize)
        ensures
            length == self.match_length(buffer@),
            length <= buffer@.len(),
    ;
}

/// Matches any one of the one-character operators and punctuation marks.
pub struct SingleCharTokenChecker {}

impl TokenChecker for SingleCharTokenChecker {
    open spec fn match_length(&self, buffer: Seq<char>) -> nat {
        punctuation_len(buffer)
    }

    fn check_token(&self, buffer: &str) -> (length: usize) {
        let mut chars = buffer.chars();
        match chars.next() {
            None => 0,
            Some(c) => if is_punctuation(c) {
                1
            } else {
                0
            },
        }
    }
}

/// Matches one fixed character.
pub struct FixedCharTokenChecker {
    pub target: char,
}

impl TokenChecker for FixedCharTokenChecker {
    open spec fn match_length(&self, buffer: Seq<char>) -> nat {
        fixed_char_len(self.target, buffer)
    }

    fn check_token(&self, buffer: &str) -> (length: usize) {
        let mut chars = buffer.chars();
        match chars.next() {
            None => 0,
            Some(c) => if c == self.target {
                1
            } else {
                0
            },
        }
    }
}

/// Matches a fixed string, such as a keyword or a multi-character operator.
pub struct FixedStringTokenChecker {
    str: String,
    boundary: bool,
}

impl FixedStringTokenChecker {
    /// The string that is matched.
    pub closed spec fn literal(&self) -> Seq<char> {
        self.str@
    }

    /// Whether a match must end at a token boundary.
    pub closed spec fn checks_boundary(&self) -> bool {
        self.boundary
    }

    /// A classifier for the self-delimiting string `str`: it matches wherever the
    /// buffer begins with `str`.
    pub fn new(str: &str) -> (checker: FixedStringTokenChecker)
        ensures
            checker.literal() == str@,
            !checker.checks_boundary(),
    {
        FixedStringTokenChecker { str: str.to_owned(), boundary: false }
    }

    /// A classifier for the keyword `str`: it matches where the buffer begins with
    /// `str` and the keyword is followed by whitespace or by the end of the buffer.
    pub fn keyword(str: &str) -> (checker: FixedStringTokenChecker)
        ensures
            checker.literal() == str@,
            checker.checks_boundary(),
    {
        FixedStringTokenChecker { str: str.to_owned(), boundary: true }
    }
}

impl TokenChecker for FixedStringTokenChecker {
    open spec fn match_length(&self, buffer: Seq<char>) -> nat {
        fixed_string_len(self.literal(), self.checks_boundary(), buffer)
    }

    fn check_token(&self, buffer: &str) -> (length: usize) {
        // The count of characters cannot overflow: it is at most the count of bytes.
        let limit: usize = buffer.as_bytes().len();
        proof {
            lemma_chars_at_most_bytes(buffer@);
        }
        let ghost lit = self.str@;
        let ghost buf = buffer@;
        let mut expected = self.str.as_str().chars();
        let mut actual = buffer.chars();
        let mut n: usize = 0;
        loop
            invariant
                lit == self.str@,
                buf == buffer@,
                n <= lit.len(),
                n <= buf.len() <= limit,
                expected.remaining() == lit.skip(n as int),
                actual.remaining() == buf.skip(n as int),
                forall|j: int| 0 <= j < n ==> lit[j] == buf[j],
            decreases lit.len() - n,
        {
            match expected.next() {
                None => {
                    assert(lit =~= buf.subrange(0, n as int));
                    if !self.boundary {
                        return n;
                    }
                    return match actual.next() {
                        None => n,
                        Some(c) => if is_whitespace(c) {
                            n
                        } else {
                            0
                        },
                    };
                },
                Some(e) => {
                    match actual.next() {
                        None => {
                            return 0;
                        },
                        Some(a) => {
                            if a != e {
                                assert(!lit.is_prefix_of(buf)) by {
                                    if lit.len() <= buf.len() {
                                        assert(buf.subrange(0, lit.len() as int)[n as int]
                                            == buf[n as int]);
                                    }
                                }
                                return 0;
                            }
                            n += 1;
                        },
                    }
                },
            }
        }
    }
}

/// Matches an identifier.
pub struct IdentifierTokenChecker {}

impl TokenChecker for IdentifierTokenChecker {
    open spec fn match_length(&self, buffer: Seq<char>) -> nat {
        identifier_len(buffer)
    }

    fn check_token(&self, buffer: &str) -> (length: usize) {
        let mut chars = buffer.chars();
        match chars.next() {
            None => 0,
            Some(c) => if is_identifier_start(c) {
                proof {
                    lemma_run_len_is_run(buffer@, CharKind::Word);
                }
                count_run(buffer, CharKind::Word)
            } else {
                0
            },
        }
    }
}

/// Matches an integer literal.
pub struct IntLiteralTokenChecker {}

impl TokenChecker for IntLiteralTokenChecker {
    open spec fn match_length(&self, buffer: Seq<char>) -> nat {
        int_literal_len(buffer)
    }

    fn check_token(&self, buffer: &str) -> (length: usize) {
        proof {
            lemma_run_len_is_run(buffer@, CharKind::Digit);
        }
        count_run(buffer, CharKind::Digit)
    }
}

} // verus!
