//! Whitespace transparency: what the tokens of a text are does not depend on how
//! much whitespace separates them, nor on where in a longer text they stand.

use crate::chars::{
    lemma_run_len_is_run, lemma_run_len_unique, run_len, spec_is_whitespace, CharKind,
};
use crate::checker::fixed_string_len;
use crate::laws::{lemma_leading_whitespace_is_transparent, lemma_token_stream_unfolds};
use crate::lexer::TokenClass;
use crate::model::{
    lemma_literal_has_no_whitespace, lemma_next_cursor, lemma_token_start, line_at, literal,
    longest_match, match_length, next_cursor, next_token, token_start, token_stream,
    winning_class, TokenView,
};
use vstd::prelude::*;

verus! {

/// What the tokens of a sequence are, apart from where they stand: the class and
/// the text of each.
pub open spec fn content(tokens: Seq<TokenView>) -> Seq<(TokenClass, Seq<char>)> {
    tokens.map_values(|token: TokenView| (token.class, token.text))
}

/// The content of a token followed by more tokens.
proof fn lemma_content_of_cons(token: TokenView, tokens: Seq<TokenView>)
    ensures
        content(seq![token] + tokens) == seq![(token.class, token.text)] + content(tokens),
{
}

/// Scanning does not look behind the cursor: the token emitted at a cursor is, but
/// for its line and offset, the first token of the text that remains there.
pub proof fn lemma_next_token_of_remainder(text: Seq<char>, cursor: nat)
    requires
        cursor <= text.len(),
    ensures
        next_token(text, cursor).class == next_token(text.skip(cursor as int), 0).class,
        next_token(text, cursor).text == next_token(text.skip(cursor as int), 0).text,
        next_token(text, cursor).pos == cursor + next_token(text.skip(cursor as int), 0).pos,
        next_cursor(text, cursor) == cursor + next_cursor(text.skip(cursor as int), 0),
{
    let rest = text.skip(cursor as int);
    assert(rest.skip(0) =~= rest);
    let start = token_start(text, cursor);
    lemma_token_start(text, cursor);
    if start < text.len() {
        assert(rest.skip(start - cursor) =~= text.skip(start as int));
    }
}

/// Scanning does not look behind the cursor: the tokens emitted from a cursor on
/// are, but for their lines and offsets, the tokens of the text that remains there.
pub proof fn lemma_token_stream_of_remainder(text: Seq<char>, cursor: nat)
    requires
        cursor <= text.len(),
    ensures
        content(token_stream(text, cursor)) == content(token_stream(text.skip(cursor as int), 0)),
    decreases text.len() - cursor,
{
    let rest = text.skip(cursor as int);
    lemma_next_token_of_remainder(text, cursor);
    lemma_next_cursor(text, cursor);
    lemma_token_stream_unfolds(text, cursor);
    lemma_token_stream_unfolds(rest, 0);
    let token = next_token(text, cursor);
    let first = next_token(rest, 0);
    if token.class != TokenClass::EOF {
        let next = next_cursor(text, cursor);
        let ahead = (next - cursor) as nat;
        lemma_token_stream_of_remainder(text, next);
        lemma_token_stream_of_remainder(rest, ahead);
        assert(rest.skip(ahead as int) =~= text.skip(next as int));
        lemma_content_of_cons(token, token_stream(text, next));
        lemma_content_of_cons(first, token_stream(rest, ahead));
    }
}

/// A run within two buffers that agree up to a character that ends the run in
/// both is the same run.
proof fn lemma_run_len_is_local(a: Seq<char>, b: Seq<char>, kind: CharKind, m: nat)
    requires
        m < a.len(),
        m < b.len(),
        forall|j: int| 0 <= j < m ==> a[j] == b[j],
        !kind.contains(a[m as int]),
        !kind.contains(b[m as int]),
    ensures
        run_len(a, kind) == run_len(b, kind),
        run_len(a, kind) <= m,
{
    let n = run_len(a, kind);
    lemma_run_len_is_run(a, kind);
    assert forall|j: int| 0 <= j < n implies kind.contains(#[trigger] b[j]) by {
        assert(kind.contains(a[j]));
    }
    lemma_run_len_unique(b, kind, n as int);
}

/// A fixed string without whitespace matches two buffers alike where they agree
/// up to a whitespace character of both.
proof fn lemma_fixed_string_len_is_local(
    word: Seq<char>,
    boundary: bool,
    a: Seq<char>,
    b: Seq<char>,
    m: nat,
)
    requires
        m < a.len(),
        m < b.len(),
        forall|j: int| 0 <= j < m ==> a[j] == b[j],
        spec_is_whitespace(a[m as int]),
        spec_is_whitespace(b[m as int]),
        forall|i: int| 0 <= i < word.len() ==> !spec_is_whitespace(#[trigger] word[i]),
    ensures
        fixed_string_len(word, boundary, a) == fixed_string_len(word, boundary, b),
        fixed_string_len(word, boundary, a) <= m,
{
    let n = word.len();
    if n > m {
        if word.is_prefix_of(a) {
            assert(a.subrange(0, n as int)[m as int] == word[m as int]);
        }
        if word.is_prefix_of(b) {
            assert(b.subrange(0, n as int)[m as int] == word[m as int]);
        }
    } else {
        assert(a.subrange(0, n as int) =~= b.subrange(0, n as int));
    }
}

/// Every classifier matches two buffers alike where they agree up to a whitespace
/// character of both, and so the tokens at their heads are alike.
proof fn lemma_match_is_local(a: Seq<char>, b: Seq<char>, m: nat)
    requires
        1 <= m < a.len(),
        m < b.len(),
        forall|j: int| 0 <= j < m ==> a[j] == b[j],
        spec_is_whitespace(a[m as int]),
        spec_is_whitespace(b[m as int]),
    ensures
        forall|class: TokenClass| #[trigger] match_length(class, a) == match_length(class, b),
        longest_match(a) == longest_match(b),
        longest_match(a) <= m,
        winning_class(a) == winning_class(b),
{
    reveal(longest_match);
    reveal(winning_class);
    lemma_run_len_is_local(a, b, CharKind::Word, m);
    lemma_run_len_is_local(a, b, CharKind::Digit, m);
    assert forall|class: TokenClass| #[trigger]
        match_length(class, a) == match_length(class, b) && match_length(class, a) <= m by {
        lemma_literal_has_no_whitespace(class);
        lemma_fixed_string_len_is_local(literal(class), true, a, b, m);
        lemma_fixed_string_len_is_local(literal(class), false, a, b, m);
    }
}

/// Scanning does not look past the whitespace behind a token: where two texts
/// agree up to a whitespace character of both, and a token starts before it, the
/// scanner emits the same token in both and moves to the same cursor.
pub proof fn lemma_next_token_is_local(a: Seq<char>, b: Seq<char>, k: nat, cursor: nat)
    requires
        k < a.len(),
        k < b.len(),
        a.take(k as int) == b.take(k as int),
        spec_is_whitespace(a[k as int]),
        spec_is_whitespace(b[k as int]),
        cursor <= token_start(a, cursor) < k,
    ensures
        next_token(a, cursor) == next_token(b, cursor),
        next_cursor(a, cursor) == next_cursor(b, cursor),
        cursor < next_cursor(a, cursor) <= k,
{
    assert forall|j: int| 0 <= j < k implies a[j] == b[j] by {
        assert(a[j] == a.take(k as int)[j]);
        assert(b[j] == b.take(k as int)[j]);
    }
    let start = token_start(a, cursor);
    lemma_token_start(a, cursor);
    lemma_next_cursor(a, cursor);
    let rest = b.skip(cursor as int);
    assert forall|j: int| 0 <= j < start - cursor implies CharKind::Whitespace.contains(
        #[trigger] rest[j],
    ) by {
        assert(rest[j] == a[cursor + j]);
    }
    lemma_run_len_unique(rest, CharKind::Whitespace, start - cursor);
    assert(a.take(start as int) =~= b.take(start as int));
    let head_a = a.skip(start as int);
    let head_b = b.skip(start as int);
    let m = (k - start) as nat;
    lemma_match_is_local(head_a, head_b, m);
    assert(head_a.take(longest_match(head_a) as int) =~= head_b.take(longest_match(head_b) as int));
}

/// Two texts that agree up to a whitespace character of both, and whose tokens
/// from there on are alike, have like tokens from any cursor before it on.
proof fn lemma_token_streams_agree(a: Seq<char>, b: Seq<char>, k: nat, cursor: nat)
    requires
        k < a.len(),
        k < b.len(),
        a.take(k as int) == b.take(k as int),
        spec_is_whitespace(a[k as int]),
        spec_is_whitespace(b[k as int]),
        content(token_stream(a, k)) == content(token_stream(b, k)),
        cursor <= k,
    ensures
        content(token_stream(a, cursor)) == content(token_stream(b, cursor)),
    decreases k - cursor,
{
    lemma_token_start(a, cursor);
    lemma_token_stream_unfolds(a, cursor);
    lemma_token_stream_unfolds(b, cursor);
    if token_start(a, cursor) < k {
        lemma_next_token_is_local(a, b, k, cursor);
        let token = next_token(a, cursor);
        let next = next_cursor(a, cursor);
        lemma_token_streams_agree(a, b, k, next);
        lemma_content_of_cons(token, token_stream(a, next));
        lemma_content_of_cons(token, token_stream(b, next));
    } else {
        let skipped = (k - cursor) as nat;
        assert forall|i: int| cursor <= i < cursor + skipped implies spec_is_whitespace(
            #[trigger] b[i],
        ) by {
            assert(a[i] == a.take(k as int)[i]);
            assert(b[i] == b.take(k as int)[i]);
        }
        lemma_leading_whitespace_is_transparent(a, cursor, skipped);
        lemma_leading_whitespace_is_transparent(b, cursor, skipped);
        lemma_token_stream_unfolds(a, k);
        lemma_token_stream_unfolds(b, k);
    }
}

/// The tokens from the start of a run of whitespace on are those of the text
/// behind the run.
proof fn lemma_token_stream_behind_gap(before: Seq<char>, gap: Seq<char>, after: Seq<char>)
    requires
        forall|i: int| 0 <= i < gap.len() ==> spec_is_whitespace(#[trigger] gap[i]),
    ensures
        content(token_stream(before + gap + after, before.len())) == content(
            token_stream(after, 0),
        ),
{
    let text = before + gap + after;
    let k = before.len();
    let end = k + gap.len();
    assert forall|i: int| k <= i < end implies spec_is_whitespace(#[trigger] text[i]) by {
        assert(text[i] == gap[i - k]);
    }
    lemma_leading_whitespace_is_transparent(text, k, gap.len());
    lemma_token_stream_unfolds(text, k);
    lemma_token_stream_unfolds(text, end);
    lemma_token_stream_of_remainder(text, end);
    assert(text.skip(end as int) =~= after);
}

/// Whitespace transparency: how much whitespace separates two parts of a text
/// does not change what the tokens of the text are. Two texts that differ only
/// in one run of whitespace, which is empty in neither, have tokens of the same
/// classes and texts, in the same order.
pub proof fn lemma_amount_of_whitespace_is_transparent(
    before: Seq<char>,
    gap: Seq<char>,
    other_gap: Seq<char>,
    after: Seq<char>,
)
    requires
        gap.len() > 0,
        other_gap.len() > 0,
        forall|i: int| 0 <= i < gap.len() ==> spec_is_whitespace(#[trigger] gap[i]),
        forall|i: int| 0 <= i < other_gap.len() ==> spec_is_whitespace(#[trigger] other_gap[i]),
    ensures
        content(token_stream(before + gap + after, 0)) == content(
            token_stream(before + other_gap + after, 0),
        ),
{
    let a = before + gap + after;
    let b = before + other_gap + after;
    let k = before.len();
    assert(a.take(k as int) =~= before);
    assert(b.take(k as int) =~= before);
    assert(a[k as int] == gap[0]);
    assert(b[k as int] == other_gap[0]);
    lemma_token_stream_behind_gap(before, gap, after);
    lemma_token_stream_behind_gap(before, other_gap, after);
    lemma_token_streams_agree(a, b, k, 0);
}

} // verus!
