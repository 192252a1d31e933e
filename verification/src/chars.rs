//! Character classes of the source alphabet, and runs of characters of one class.

use vstd::prelude::*;
use vstd::std_specs::iter::IteratorSpec;
use vstd::utf8::encode_utf8;

verus! {

/// The characters that separate tokens: space, tab, newline, carriage return.
pub open spec fn spec_is_whitespace(c: char) -> bool {
    c == ' ' || c == '\t' || c == '\n' || c == '\r'
}

/// The decimal digits `0` to `9`.
pub open spec fn spec_is_digit(c: char) -> bool {
    '0' <= c <= '9'
}

/// The characters that may begin an identifier: ASCII letters and the underscore.
pub open spec fn spec_is_identifier_start(c: char) -> bool {
    ('a' <= c <= 'z') || ('A' <= c <= 'Z') || c == '_'
}

/// The characters that may continue an identifier: those that may begin one, and digits.
pub open spec fn spec_is_identifier_part(c: char) -> bool {
    spec_is_identifier_start(c) || spec_is_digit(c)
}

/// The one-character operators and punctuation marks.
pub open spec fn spec_is_punctuation(c: char) -> bool {
    ||| c == '!' || c == '&' || c == '|' || c == '^' || c == '~' || c == '?'
    ||| c == '(' || c == ')' || c == '{' || c == '}' || c == '[' || c == ']'
    ||| c == '*' || c == '+' || c == '-' || c == '/' || c == '<' || c == '>' || c == '='
    ||| c == ',' || c == '.' || c == ';' || c == ':'
}

/// Whether `c` is a whitespace character.
#[verifier::when_used_as_spec(spec_is_whitespace)]
pub fn is_whitespace(c: char) -> (r: bool)
    ensures
        r == spec_is_whitespace(c),
{
    match c {
        ' ' | '\t' | '\n' | '\r' => true,
        _ => false,
    }
}

/// Whether `c` is a decimal digit.
#[verifier::when_used_as_spec(spec_is_digit)]
pub fn is_digit(c: char) -> (r: bool)
    ensures
        r == spec_is_digit(c),
{
    c >= '0' && c <= '9'
}

/// Whether `c` may begin an identifier.
#[verifier::when_used_as_spec(spec_is_identifier_start)]
pub fn is_identifier_start(c: char) -> (r: bool)
    ensures
        r == spec_is_identifier_start(c),
{
    (c >= 'a' && c <= 'z') || (c >= 'A' && c <= 'Z') || c == '_'
}

/// Whether `c` may continue an identifier.
#[verifier::when_used_as_spec(spec_is_identifier_part)]
pub fn is_identifier_part(c: char) -> (r: bool)
    ensures
        r == spec_is_identifier_part(c),
{
    is_identifier_start(c) || is_digit(c)
}

/// Whether `c` is a one-character operator or punctuation mark.
#[verifier::when_used_as_spec(spec_is_punctuation)]
pub fn is_punctuation(c: char) -> (r: bool)
    ensures
        r == spec_is_punctuation(c),
{
    match c {
        '!' | '&' | '|' | '^' | '~' | '?' | '(' | ')' | '{' | '}' | '[' | ']' | '*' | '+' | '-'
        | '/' | '<' | '>' | '=' | ',' | '.' | ';' | ':' => true,
        _ => false,
    }
}

/// A class of characters of which a classifier scans a run.
#[derive(Clone, Copy, Debug, PartialEq, Eq, Structural)]
pub enum CharKind {
    /// See [`spec_is_whitespace`].
    Whitespace,
    /// See [`spec_is_digit`].
    Digit,
    /// See [`spec_is_identifier_part`].
    Word,
}

impl CharKind {
    /// Whether `c` belongs to the class.
    pub open spec fn spec_contains(self, c: char) -> bool {
        match self {
            CharKind::Whitespace => spec_is_whitespace(c),
            CharKind::Digit => spec_is_digit(c),
            CharKind::Word => spec_is_identifier_part(c),
        }
    }

    /// Tests whether `c` belongs to the class.
    #[verifier::when_used_as_spec(spec_contains)]
    pub fn contains(self, c: char) -> (r: bool)
        ensures
            r == self.spec_contains(c),
    {
        match self {
            CharKind::Whitespace => is_whitespace(c),
            CharKind::Digit => is_digit(c),
            CharKind::Word => is_identifier_part(c),
        }
    }
}

/// The length of the longest prefix of `s` whose characters all belong to `kind`.
pub open spec fn run_len(s: Seq<char>, kind: CharKind) -> nat
    decreases s.len(),
{
    if s.len() > 0 && kind.contains(s[0]) {
        1 + run_len(s.drop_first(), kind)
    } else {
        0
    }
}

/// A run is a prefix: it is no longer than the sequence, every character in it
/// belongs to the class, and the character after it, if there is one, does not.
pub proof fn lemma_run_len_is_run(s: Seq<char>, kind: CharKind)
    ensures
        run_len(s, kind) <= s.len(),
        forall|j: int| 0 <= j < run_len(s, kind) ==> kind.contains(#[trigger] s[j]),
        run_len(s, kind) < s.len() ==> !kind.contains(s[run_len(s, kind) as int]),
    decreases s.len(),
{
    if s.len() > 0 && kind.contains(s[0]) {
        let t = s.drop_first();
        lemma_run_len_is_run(t, kind);
        assert forall|j: int| 0 <= j < run_len(s, kind) implies kind.contains(#[trigger] s[j]) by {
            if j > 0 {
                assert(s[j] == t[j - 1]);
            }
        }
        if run_len(s, kind) < s.len() {
            assert(s[run_len(s, kind) as int] == t[run_len(t, kind) as int]);
        }
    }
}

/// The three properties of [`lemma_run_len_is_run`] determine the length of the run.
pub proof fn lemma_run_len_unique(s: Seq<char>, kind: CharKind, n: int)
    requires
        0 <= n <= s.len(),
        forall|j: int| 0 <= j < n ==> kind.contains(#[trigger] s[j]),
        n < s.len() ==> !kind.contains(s[n]),
    ensures
        run_len(s, kind) == n,
    decreases n,
{
    if n > 0 {
        let t = s.drop_first();
        assert forall|j: int| 0 <= j < n - 1 implies kind.contains(#[trigger] t[j]) by {
            assert(t[j] == s[j + 1]);
        }
        lemma_run_len_unique(t, kind, n - 1);
    }
}

/// A string has at most as many characters as its UTF-8 encoding has bytes.
pub proof fn lemma_chars_at_most_bytes(s: Seq<char>)
    ensures
        s.len() <= encode_utf8(s).len(),
    decreases s.len(),
{
    if s.len() > 0 {
        lemma_chars_at_most_bytes(s.drop_first());
    }
}

/// Counts the leading characters of `buffer` that belong to `kind`.
pub fn count_run(buffer: &str, kind: CharKind) -> (n: usize)
    ensures
        n == run_len(buffer@, kind),
{
    // The count of characters cannot overflow: it is at most the count of bytes.
    let limit: usize = buffer.as_bytes().len();
    proof {
        lemma_chars_at_most_bytes(buffer@);
    }
    let mut chars = buffer.chars();
    let mut n: usize = 0;
    loop
        invariant
            n <= buffer@.len() <= limit,
            chars.remaining() == buffer@.skip(n as int),
            forall|j: int| 0 <= j < n ==> kind.contains(#[trigger] buffer@[j]),
        decreases buffer@.len() - n,
    {
        match chars.next() {
            Some(c) => {
                if !kind.contains(c) {
                    proof {
                        lemma_run_len_unique(buffer@, kind, n as int);
                    }
                    return n;
                }
                n += 1;
            },
            None => {
                proof {
                    lemma_run_len_unique(buffer@, kind, n as int);
                }
                return n;
            },
        }
    }
}

} // verus!
