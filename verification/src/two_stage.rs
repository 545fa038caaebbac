//! The two-stage extractor: stage one builds the structural index, stage two
//! recovers the token stream by walking the index. Punctuation tokens come
//! straight from index entries, string tokens find their closing quote by
//! stepping through index entries with a backward escape-parity check, and
//! only the non-structural spans in between (including anything before the
//! first structural byte or after the last token) are scanned byte by byte.
//!
//! The walk is proved to return **exactly** the token stream of the
//! specification-level tokenizer — the same spec the single-pass tokenizer
//! is proved against — so the two paths agree on every input: same tokens,
//! same order, same errors. The lemmas in the middle of this file carry the
//! heart of that proof: the escape-parity check agrees with the running
//! escape flag, and the index walk's closing quote is the very byte the
//! byte-by-byte scan stops at.

use vstd::prelude::*;

verus! {

use crate::lexical::{lemma_spec_skip_ws_bounds, skip_whitespace_and_comments_range, spec_skip_ws};
use crate::simd::{
    StructType, StructuralIndex, is_structural, lemma_structural_positions_upto_props,
    positions_view, struct_type_of, structural_positions,
};
use crate::token::{
    ParseError, SpecParseError, SpecToken, Token, TokenType, msg_unterminated_string,
    unterminated_string_message,
};
use crate::tokenizer::{
    cons_token, copy_range, eof_token, lemma_prepend_empty, lemma_prepend_step,
    lemma_spec_scan_advances, lemma_tokens_view_push, prepend_tokens, punct_type, scan_token,
    spec_scan, spec_tokenize, spec_tokens_from, string_end, tokens_view,
};

// ---------------------------------------------------------------------------
// Specification: the index, seen through the input bytes alone.
// ---------------------------------------------------------------------------

/// How many entries the structural index of `s` has.
pub open spec fn sidx_len(s: Seq<u8>) -> int {
    structural_positions(s).len() as int
}

/// The byte offset of index entry `k`.
pub open spec fn sidx_pos(s: Seq<u8>, k: int) -> int {
    structural_positions(s)[k]
}

/// The structural tag of index entry `k`.
pub open spec fn sidx_tag(s: Seq<u8>, k: int) -> StructType {
    struct_type_of(s[sidx_pos(s, k)])->Some_0
}

// ---------------------------------------------------------------------------
// Specification: escape determination by backslash parity.
// ---------------------------------------------------------------------------

/// The length of the maximal run of consecutive backslashes ending just
/// before `p`, never reaching back to the opening quote at `open_pos`.
pub open spec fn backslash_run(s: Seq<u8>, open_pos: int, p: int) -> int
    decreases p,
{
    if p <= 0 || p <= open_pos + 1 || p > s.len() || s[p - 1] != 92 {
        0
    } else {
        backslash_run(s, open_pos, p - 1) + 1
    }
}

/// A candidate closing quote at `p` is escaped when an odd run of
/// backslashes precedes it.
pub open spec fn is_escaped(s: Seq<u8>, open_pos: int, p: int) -> bool {
    backslash_run(s, open_pos, p) % 2 == 1
}

/// The first index entry at or after `j` whose tag is `tag` and whose byte is
/// not escaped; `sidx_len(s)` if there is none.
pub open spec fn find_close(s: Seq<u8>, j: int, open_pos: int, tag: StructType) -> int
    decreases sidx_len(s) - j,
{
    if j < 0 || j >= sidx_len(s) {
        sidx_len(s)
    } else if sidx_tag(s, j) == tag && !is_escaped(s, open_pos, sidx_pos(s, j)) {
        j
    } else {
        find_close(s, j + 1, open_pos, tag)
    }
}

pub proof fn lemma_find_close_bounds(s: Seq<u8>, j: int, open_pos: int, tag: StructType)
    requires
        0 <= j <= sidx_len(s),
    ensures
        j <= find_close(s, j, open_pos, tag) <= sidx_len(s),
    decreases sidx_len(s) - j,
{
    if j < sidx_len(s) {
        if !(sidx_tag(s, j) == tag && !is_escaped(s, open_pos, sidx_pos(s, j))) {
            lemma_find_close_bounds(s, j + 1, open_pos, tag);
        }
    }
}

/// The first position at or after `pos` holding an unescaped `quote` byte,
/// or `end` if there is none: the byte-by-byte reading of "the matching
/// closing quote", stated with the backward parity check.
pub open spec fn first_unescaped(s: Seq<u8>, open_pos: int, pos: int, end: int, quote: u8) -> int
    decreases end - pos,
{
    if pos < 0 || pos >= end {
        end
    } else if s[pos] == quote && !is_escaped(s, open_pos, pos) {
        pos
    } else {
        first_unescaped(s, open_pos, pos + 1, end, quote)
    }
}

pub proof fn lemma_backslash_run_nonneg(s: Seq<u8>, open_pos: int, p: int)
    ensures
        backslash_run(s, open_pos, p) >= 0,
    decreases p,
{
    if !(p <= 0 || p <= open_pos + 1 || p > s.len() || s[p - 1] != 92) {
        lemma_backslash_run_nonneg(s, open_pos, p - 1);
    }
}

/// The two escape determinations agree: scanning forward with a running
/// escape flag (as the single-pass tokenizer does) finds the same closing
/// quote as looking backward from each candidate and counting the parity of
/// the preceding backslash run (as the index walk does). The flag that the
/// forward scan carries at `pos` is exactly the parity at `pos`.
pub proof fn lemma_escape_parity_flag(s: Seq<u8>, open_pos: int, pos: int, quote: u8)
    requires
        0 <= open_pos,
        open_pos < pos <= s.len(),
        quote != 92,
    ensures
        string_end(s, pos, s.len() as int, quote, is_escaped(s, open_pos, pos))
            == first_unescaped(s, open_pos, pos, s.len() as int, quote),
    decreases s.len() - pos,
{
    let end = s.len() as int;
    if pos < end {
        if is_escaped(s, open_pos, pos) {
            assert(backslash_run(s, open_pos, pos) % 2 == 1);
            lemma_backslash_run_nonneg(s, open_pos, pos);
            assert(backslash_run(s, open_pos, pos) > 0);
            if s[pos] == 92 {
                assert(backslash_run(s, open_pos, pos + 1) == backslash_run(s, open_pos, pos) + 1);
            } else {
                assert(backslash_run(s, open_pos, pos + 1) == 0);
            }
            assert(!is_escaped(s, open_pos, pos + 1));
            lemma_escape_parity_flag(s, open_pos, pos + 1, quote);
        } else if s[pos] == 92 {
            assert(backslash_run(s, open_pos, pos + 1) == backslash_run(s, open_pos, pos) + 1);
            assert(is_escaped(s, open_pos, pos + 1));
            lemma_escape_parity_flag(s, open_pos, pos + 1, quote);
        } else if s[pos] == quote {
            assert(string_end(s, pos, end, quote, false) == pos);
            assert(first_unescaped(s, open_pos, pos, end, quote) == pos);
        } else {
            assert(backslash_run(s, open_pos, pos + 1) == 0);
            lemma_escape_parity_flag(s, open_pos, pos + 1, quote);
        }
    }
}

/// At the byte right after the opening quote no backslash run has started
/// yet, so the single-pass scan (flag initially clear) and the parity scan
/// look for the closing quote from the same state.
pub proof fn lemma_string_scan_agrees(s: Seq<u8>, open_pos: int, quote: u8)
    requires
        0 <= open_pos < s.len(),
        quote != 92,
    ensures
        string_end(s, open_pos + 1, s.len() as int, quote, false) == first_unescaped(
            s,
            open_pos,
            open_pos + 1,
            s.len() as int,
            quote,
        ),
{
    assert(backslash_run(s, open_pos, open_pos + 1) == 0);
    lemma_escape_parity_flag(s, open_pos, open_pos + 1, quote);
}

proof fn lemma_first_unescaped_skip(s: Seq<u8>, open_pos: int, b: int, c: int, qb: u8)
    requires
        0 <= b <= c <= s.len(),
        forall|q: int| b <= q < c ==> s[q] != qb,
    ensures
        first_unescaped(s, open_pos, b, s.len() as int, qb) == first_unescaped(
            s,
            open_pos,
            c,
            s.len() as int,
            qb,
        ),
    decreases c - b,
{
    if b < c {
        assert(s[b] != qb);
        lemma_first_unescaped_skip(s, open_pos, b + 1, c, qb);
    }
}

/// Walking the index entries for an unescaped closing tag finds the same
/// place as walking the bytes for an unescaped closing quote, because every
/// quote byte is structural and therefore an index entry: either both walks
/// stop at one byte, or both run out.
proof fn lemma_find_close_matches(
    s: Seq<u8>,
    j: int,
    open_pos: int,
    qb: u8,
    tag: StructType,
    b: int,
)
    requires
        0 <= j <= sidx_len(s),
        0 <= b <= s.len(),
        (tag == StructType::Quote && qb == 34) || (tag == StructType::SingleQuote && qb == 39),
        forall|k: int| j <= k < sidx_len(s) ==> #[trigger] sidx_pos(s, k) >= b,
        forall|q: int|
            b <= q < s.len() && is_structural(s[q]) ==> exists|k: int|
                j <= k < sidx_len(s) && #[trigger] sidx_pos(s, k) == q,
    ensures
        ({
            let jc = find_close(s, j, open_pos, tag);
            let bc = first_unescaped(s, open_pos, b, s.len() as int, qb);
            &&& (jc < sidx_len(s) ==> bc == sidx_pos(s, jc))
            &&& (jc >= sidx_len(s) ==> bc == s.len())
        }),
    decreases sidx_len(s) - j,
{
    let len = s.len() as int;
    lemma_structural_positions_upto_props(s, len);
    if j >= sidx_len(s) {
        assert forall|q: int| b <= q < len implies s[q] != qb by {
            if s[q] == qb {
                assert(is_structural(s[q]));
            }
        }
        lemma_first_unescaped_skip(s, open_pos, b, len, qb);
    } else {
        let pj = sidx_pos(s, j);
        assert(0 <= pj < len && is_structural(s[pj]));
        assert forall|k: int| j <= k < sidx_len(s) implies #[trigger] sidx_pos(s, k) >= pj by {
            if k > j {
                assert(structural_positions(s)[j] < structural_positions(s)[k]);
            }
        }
        assert forall|q: int| b <= q < pj implies s[q] != qb by {
            if s[q] == qb {
                assert(is_structural(s[q]));
                let k = choose|k: int| j <= k < sidx_len(s) && #[trigger] sidx_pos(s, k) == q;
                assert(sidx_pos(s, k) >= pj);
            }
        }
        lemma_first_unescaped_skip(s, open_pos, b, pj, qb);
        if sidx_tag(s, j) == tag && !is_escaped(s, open_pos, pj) {
            assert(s[pj] == qb);
            assert(find_close(s, j, open_pos, tag) == j);
            assert(first_unescaped(s, open_pos, pj, len, qb) == pj);
        } else {
            if sidx_tag(s, j) == tag {
                assert(s[pj] == qb);
            } else {
                assert(s[pj] != qb);
            }
            assert(first_unescaped(s, open_pos, pj, len, qb) == first_unescaped(
                s,
                open_pos,
                pj + 1,
                len,
                qb,
            ));
            assert(find_close(s, j, open_pos, tag) == find_close(s, j + 1, open_pos, tag));
            assert forall|k: int| j + 1 <= k < sidx_len(s) implies #[trigger] sidx_pos(s, k) >= pj
                + 1 by {
                assert(structural_positions(s)[j] < structural_positions(s)[k]);
            }
            assert forall|q: int|
                pj + 1 <= q < len && is_structural(s[q]) implies exists|k: int|
                    j + 1 <= k < sidx_len(s) && #[trigger] sidx_pos(s, k) == q by {
                assert(q >= b);
                let k = choose|k: int| j <= k < sidx_len(s) && #[trigger] sidx_pos(s, k) == q;
                assert(k != j);
                assert(sidx_pos(s, k) == q);
            }
            lemma_find_close_matches(s, j + 1, open_pos, qb, tag, pj + 1);
        }
    }
}

/// Both tokenizer paths agree on where a string closes. For a string opened
/// at index entry `i`, the closing quote that the index walk selects is the
/// very byte that the single-pass forward scan stops at; and when the index
/// walk finds no closer, the forward scan reaches the end of the input too,
/// so both paths report the string unterminated.
pub proof fn lemma_string_close_agrees(s: Seq<u8>, i: int)
    requires
        0 <= i < sidx_len(s),
        sidx_tag(s, i) == StructType::Quote || sidx_tag(s, i) == StructType::SingleQuote,
    ensures
        ({
            let p = sidx_pos(s, i);
            let jc = find_close(s, i + 1, p, sidx_tag(s, i));
            let se = string_end(s, p + 1, s.len() as int, s[p], false);
            &&& (jc < sidx_len(s) ==> se == sidx_pos(s, jc))
            &&& (jc >= sidx_len(s) ==> se == s.len())
        }),
{
    let len = s.len() as int;
    lemma_structural_positions_upto_props(s, len);
    let p = sidx_pos(s, i);
    assert(0 <= p < len && is_structural(s[p]));
    let qb = s[p];
    let tag = sidx_tag(s, i);
    assert((tag == StructType::Quote && qb == 34) || (tag == StructType::SingleQuote && qb == 39));
    assert forall|k: int| i + 1 <= k < sidx_len(s) implies #[trigger] sidx_pos(s, k) >= p + 1 by {
        assert(structural_positions(s)[i] < structural_positions(s)[k]);
    }
    assert forall|q: int|
        p + 1 <= q < len && is_structural(s[q]) implies exists|k: int|
            i + 1 <= k < sidx_len(s) && #[trigger] sidx_pos(s, k) == q by {
        assert(structural_positions(s).contains(q));
        let k = choose|k: int|
            0 <= k < structural_positions(s).len() && structural_positions(s)[k] == q;
        assert(sidx_pos(s, k) == q);
        if k <= i {
            if k < i {
                assert(structural_positions(s)[k] < structural_positions(s)[i]);
            }
            assert(false);
        }
    }
    lemma_find_close_matches(s, i + 1, p, qb, tag, p + 1);
    lemma_string_scan_agrees(s, p, qb);
}

// ---------------------------------------------------------------------------
// Specification: what the two-stage path returns.
// ---------------------------------------------------------------------------

/// The two-stage path returns the very token stream of the single-pass
/// tokenizer: the structural index changes how the stream is found, never
/// what it is.
pub open spec fn spec_parse_two_stage(s: Seq<u8>) -> Result<Seq<SpecToken>, SpecParseError> {
    spec_tokenize(s)
}

/// Tokenizer equivalence: the two paths produce the same token stream —
/// same kinds, same texts, same order, same offsets — and fail with the
/// same error, on every input. The substance of this statement is carried
/// by the contracts of `extract_tokens` and `tokenize`, which equate both
/// executable paths with the one specification-level stream.
pub proof fn lemma_tokenizer_equivalence(s: Seq<u8>)
    ensures
        spec_parse_two_stage(s) == spec_tokenize(s),
{
}

// ---------------------------------------------------------------------------
// Index facts used by the executable walk.
// ---------------------------------------------------------------------------

proof fn lemma_index_facts(positions: Seq<usize>, types: Seq<StructType>, s: Seq<u8>)
    requires
        positions_view(positions) == structural_positions(s),
        types.len() == positions.len(),
        forall|k: int|
            0 <= k < types.len() ==> Some(#[trigger] types[k]) == struct_type_of(
                s[positions[k] as int],
            ),
    ensures
        positions.len() == sidx_len(s),
        forall|k: int|
            0 <= k < positions.len() ==> #[trigger] positions[k] as int == sidx_pos(s, k),
        forall|k: int| 0 <= k < types.len() ==> #[trigger] types[k] == sidx_tag(s, k),
        forall|k: int|
            0 <= k < positions.len() ==> 0 <= #[trigger] sidx_pos(s, k) < s.len() && is_structural(
                s[sidx_pos(s, k)],
            ),
        forall|k1: int, k2: int|
            0 <= k1 < k2 < positions.len() ==> #[trigger] sidx_pos(s, k1) < #[trigger] sidx_pos(
                s,
                k2,
            ),
{
    lemma_structural_positions_upto_props(s, s.len() as int);
    assert forall|k: int|
        0 <= k < positions.len() implies #[trigger] positions[k] as int == sidx_pos(s, k) by {
        assert(positions_view(positions)[k] == positions[k] as int);
    }
    assert forall|k: int| 0 <= k < types.len() implies #[trigger] types[k] == sidx_tag(s, k) by {
        assert(positions[k] as int == sidx_pos(s, k));
        assert(Some(types[k]) == struct_type_of(s[sidx_pos(s, k)]));
    }
}

// ---------------------------------------------------------------------------
// Executable extraction.
// ---------------------------------------------------------------------------

/// Extract the string token opened at index entry `start_idx`: find the
/// matching unescaped closing quote through the index and capture the bytes
/// between the quotes verbatim. Returns the token and the index entry after
/// the closing quote, or the unterminated-string error at the opening quote.
pub fn extract_string(
    input: &[u8],
    index: &StructuralIndex,
    start_idx: usize,
    quote_type: StructType,
) -> (r: Result<(Token, usize), ParseError>)
    requires
        index.wf(input@),
        start_idx < index.positions@.len(),
        index.types@[start_idx as int] == quote_type,
    ensures
        ({
            let s = input@;
            let j = find_close(s, start_idx + 1, sidx_pos(s, start_idx as int), quote_type);
            &&& (j >= sidx_len(s) ==> r is Err && r->Err_0@ == (SpecParseError {
                message: msg_unterminated_string(),
                position: sidx_pos(s, start_idx as int),
            }))
            &&& (j < sidx_len(s) ==> r is Ok && r->Ok_0.1 as int == j + 1 && r->Ok_0.0@
                == (SpecToken {
                token_type: TokenType::String,
                value: s.subrange(sidx_pos(s, start_idx as int) + 1, sidx_pos(s, j)),
                start: sidx_pos(s, start_idx as int),
                end: sidx_pos(s, j) + 1,
            }))
        }),
{
    let ghost s = input@;
    proof {
        lemma_index_facts(index.positions@, index.types@, s);
    }
    let len = input.len();
    let npos = index.len();
    let start_pos = index.positions[start_idx];
    let ghost op = start_pos as int;
    let mut k = start_idx + 1;
    while k < npos
        invariant
            index.wf(s),
            s == input@,
            npos == index.positions@.len(),
            npos == sidx_len(s),
            start_idx < npos,
            start_idx + 1 <= k <= npos,
            start_pos as int == sidx_pos(s, start_idx as int),
            op == start_pos as int,
            len == s.len(),
            forall|k2: int|
                0 <= k2 < npos ==> #[trigger] index.positions@[k2] as int == sidx_pos(s, k2),
            forall|k2: int| 0 <= k2 < npos ==> #[trigger] index.types@[k2] == sidx_tag(s, k2),
            forall|k2: int| 0 <= k2 < npos ==> 0 <= #[trigger] sidx_pos(s, k2) < s.len(),
            forall|k1: int, k2: int|
                0 <= k1 < k2 < npos ==> #[trigger] sidx_pos(s, k1) < #[trigger] sidx_pos(s, k2),
            find_close(s, start_idx + 1, op, quote_type) == find_close(s, k as int, op, quote_type),
        decreases npos - k,
    {
        let pos_k = index.positions[k];
        let typ_k = index.types[k];
        assert(start_pos < pos_k && pos_k < len);
        // count the backslashes immediately before this candidate
        let mut q = pos_k;
        while q > start_pos + 1 && input[q - 1] == 92
            invariant
                s == input@,
                op == start_pos as int,
                start_pos < pos_k < s.len(),
                start_pos < q <= pos_k,
                backslash_run(s, op, pos_k as int) == backslash_run(s, op, q as int) + (pos_k - q),
            decreases q,
        {
            proof {
                let qi = q as int;
                assert(qi > 0 && qi > op + 1 && qi <= s.len() && s[qi - 1] == 92);
                assert(backslash_run(s, op, qi) == backslash_run(s, op, qi - 1) + 1);
            }
            q = q - 1;
        }
        assert(backslash_run(s, op, q as int) == 0);
        let escaped = (pos_k - q) % 2 == 1;
        assert(escaped == is_escaped(s, op, pos_k as int));
        if typ_k == quote_type && !escaped {
            assert(find_close(s, k as int, op, quote_type) == k as int);
            let value = copy_range(input, start_pos + 1, pos_k);
            let t = Token::new(TokenType::String, value, start_pos, pos_k + 1);
            return Ok((t, k + 1));
        }
        assert(find_close(s, k as int, op, quote_type) == find_close(
            s,
            k + 1 as int,
            op,
            quote_type,
        ));
        k = k + 1;
    }
    assert(find_close(s, k as int, op, quote_type) == sidx_len(s));
    Err(ParseError::new(unterminated_string_message(), start_pos))
}

/// Scan the one value token (number, keyword, identifier — or the error
/// that a malformed one raises) that starts at the non-structural position
/// `p`, and push it. Returns the position where the walk resumes.
pub fn extract_value_tokens(input: &[u8], p: usize, tokens: &mut Vec<Token>) -> (r: Result<
    usize,
    ParseError,
>)
    requires
        p < input@.len(),
    ensures
        ({
            let sr = spec_scan(input@, p as int);
            &&& (sr is Ok ==> r is Ok && r->Ok_0 as int == sr->Ok_0.1 && tokens_view(
                final(tokens)@,
            ) == tokens_view(old(tokens)@).push(sr->Ok_0.0))
            &&& (sr is Err ==> r is Err && r->Err_0@ == sr->Err_0 && final(tokens)@ == old(
                tokens,
            )@)
        }),
{
    match scan_token(input, p) {
        Ok((t, q)) => {
            proof {
                lemma_tokens_view_push(tokens@, t);
            }
            tokens.push(t);
            Ok(q)
        },
        Err(e) => Err(e),
    }
}

/// Walk the input through the structural index and extract the token
/// stream: index entries yield punctuation and string tokens directly, and
/// the spans between them — including anything before the first entry,
/// after the last token, or left over when a comment swallows entries — are
/// scanned byte by byte. Returns exactly the token stream that the
/// specification-level tokenizer assigns to the input, or its error: the
/// same contract that the single-pass tokenizer carries.
pub fn extract_tokens(input: &[u8], index: &StructuralIndex) -> (r: Result<Vec<Token>, ParseError>)
    requires
        index.wf(input@),
    ensures
        spec_tokenize(input@) is Ok ==> r is Ok && tokens_view(r->Ok_0@) == spec_tokenize(
            input@,
        )->Ok_0,
        spec_tokenize(input@) is Err ==> r is Err && r->Err_0@ == spec_tokenize(input@)->Err_0,
{
    let ghost s = input@;
    proof {
        lemma_index_facts(index.positions@, index.types@, s);
        lemma_prepend_empty(spec_tokens_from(s, 0));
        assert(tokens_view(Seq::<Token>::empty()) =~= Seq::<SpecToken>::empty());
    }
    let len = input.len();
    let npos = index.len();
    let mut tokens: Vec<Token> = Vec::new();
    let mut pos: usize = 0;
    let mut i: usize = 0;
    while pos < len
        invariant
            index.wf(s),
            s == input@,
            len == s.len(),
            npos == index.positions@.len(),
            npos == sidx_len(s),
            pos <= len,
            i <= npos,
            forall|k: int|
                0 <= k < npos ==> #[trigger] index.positions@[k] as int == sidx_pos(s, k),
            forall|k: int| 0 <= k < npos ==> #[trigger] index.types@[k] == sidx_tag(s, k),
            forall|k: int|
                0 <= k < npos ==> 0 <= #[trigger] sidx_pos(s, k) < s.len() && is_structural(
                    s[sidx_pos(s, k)],
                ),
            forall|k1: int, k2: int|
                0 <= k1 < k2 < npos ==> #[trigger] sidx_pos(s, k1) < #[trigger] sidx_pos(s, k2),
            forall|k: int| 0 <= k < i ==> #[trigger] sidx_pos(s, k) < pos,
            prepend_tokens(tokens_view(tokens@), spec_tokens_from(s, pos as int)) == spec_tokenize(
                s,
            ),
        decreases len - pos,
    {
        let ghost pos0 = pos as int;
        let p = skip_whitespace_and_comments_range(input, pos, len);
        proof {
            lemma_spec_skip_ws_bounds(s, pos0, len as int);
        }
        if p >= len {
            assert(spec_tokens_from(s, pos0) == Ok::<_, SpecParseError>(seq![eof_token(len as int)]));
            let t = Token::new(TokenType::EOF, Vec::new(), len, len);
            proof {
                lemma_tokens_view_push(tokens@, t);
                assert(tokens_view(tokens@).push(t@) =~= tokens_view(tokens@) + seq![
                    eof_token(len as int),
                ]);
            }
            tokens.push(t);
            return Ok(tokens);
        }
        // step the index cursor over entries the skip has passed (whitespace
        // never holds one, but a comment can swallow structural bytes)
        while i < npos && index.positions[i] < p
            invariant
                s == input@,
                npos == index.positions@.len(),
                i <= npos,
                forall|k: int|
                    0 <= k < npos ==> #[trigger] index.positions@[k] as int == sidx_pos(s, k),
                forall|k: int| 0 <= k < i ==> #[trigger] sidx_pos(s, k) < p,
            decreases npos - i,
        {
            i = i + 1;
        }
        if i < npos && index.positions[i] == p {
            // the walk stands on a structural byte: entry i describes it
            let typ = index.types[i];
            if typ == StructType::Quote || typ == StructType::SingleQuote {
                match extract_string(input, index, i, typ) {
                    Ok((t, ni)) => {
                        let newpos = t.end;
                        proof {
                            lemma_string_close_agrees(s, i as int);
                            lemma_find_close_bounds(s, i as int + 1, p as int, typ);
                            let jc = find_close(s, i as int + 1, p as int, typ);
                            assert(jc < sidx_len(s));
                            let cp = sidx_pos(s, jc);
                            assert(s[p as int] == 34 || s[p as int] == 39);
                            assert(string_end(s, p + 1 as int, len as int, s[p as int], false)
                                == cp);
                            assert(spec_scan(s, p as int) == Ok::<_, SpecParseError>(
                                (t@, cp + 1),
                            ));
                            assert(spec_tokens_from(s, pos0) == cons_token(
                                t@,
                                spec_tokens_from(s, cp + 1),
                            ));
                            lemma_prepend_step(tokens_view(tokens@), t@, spec_tokens_from(
                                s,
                                cp + 1,
                            ));
                            lemma_tokens_view_push(tokens@, t);
                            assert forall|k: int| 0 <= k < ni implies #[trigger] sidx_pos(s, k)
                                < newpos as int by {
                                if k < jc {
                                    assert(sidx_pos(s, k) < sidx_pos(s, jc));
                                }
                            }
                        }
                        tokens.push(t);
                        pos = newpos;
                        i = ni;
                    },
                    Err(e) => {
                        proof {
                            lemma_string_close_agrees(s, i as int);
                            lemma_find_close_bounds(s, i as int + 1, p as int, typ);
                            assert(s[p as int] == 34 || s[p as int] == 39);
                            assert(string_end(s, p + 1 as int, len as int, s[p as int], false)
                                == len as int);
                            assert(spec_scan(s, p as int) == Err::<(SpecToken, int), _>(
                                SpecParseError {
                                    message: msg_unterminated_string(),
                                    position: p as int,
                                },
                            ));
                            assert(spec_tokens_from(s, pos0) == Err::<Seq<SpecToken>, _>(e@));
                        }
                        return Err(e);
                    },
                }
            } else {
                let tt = match typ {
                    StructType::BraceOpen => TokenType::LeftBrace,
                    StructType::BraceClose => TokenType::RightBrace,
                    StructType::BracketOpen => TokenType::LeftBracket,
                    StructType::BracketClose => TokenType::RightBracket,
                    StructType::Colon => TokenType::Colon,
                    StructType::Comma => TokenType::Comma,
                    StructType::Quote => TokenType::String,
                    StructType::SingleQuote => TokenType::String,
                };
                let t = Token::new(tt, Vec::new(), p, p + 1);
                proof {
                    assert(is_structural(s[p as int]));
                    assert(punct_type(s[p as int]) == Some(tt));
                    assert(spec_scan(s, p as int) == Ok::<_, SpecParseError>((t@, p + 1 as int)));
                    assert(spec_tokens_from(s, pos0) == cons_token(
                        t@,
                        spec_tokens_from(s, p + 1 as int),
                    ));
                    lemma_prepend_step(tokens_view(tokens@), t@, spec_tokens_from(
                        s,
                        p + 1 as int,
                    ));
                    lemma_tokens_view_push(tokens@, t);
                }
                tokens.push(t);
                pos = p + 1;
                i = i + 1;
            }
        } else {
            // the byte at p is not structural: a value token or an error
            proof {
                if is_structural(s[p as int]) {
                    lemma_structural_positions_upto_props(s, s.len() as int);
                    assert(structural_positions(s).contains(p as int));
                    let k = choose|k: int|
                        0 <= k < structural_positions(s).len() && structural_positions(s)[k]
                            == p as int;
                    assert(sidx_pos(s, k) == p as int);
                    assert(k >= i);
                    if k > i {
                        assert(sidx_pos(s, i as int) < sidx_pos(s, k));
                    }
                    assert(false);
                }
            }
            let ghost tokens_before = tokens@;
            match extract_value_tokens(input, p, &mut tokens) {
                Ok(q) => {
                    proof {
                        lemma_spec_scan_advances(s, p as int);
                        let t_spec = spec_scan(s, p as int)->Ok_0.0;
                        assert(spec_tokens_from(s, pos0) == cons_token(
                            t_spec,
                            spec_tokens_from(s, q as int),
                        ));
                        lemma_prepend_step(
                            tokens_view(tokens_before),
                            t_spec,
                            spec_tokens_from(s, q as int),
                        );
                    }
                    pos = q;
                },
                Err(e) => {
                    assert(spec_tokens_from(s, pos0) == Err::<Seq<SpecToken>, _>(e@));
                    return Err(e);
                },
            }
        }
    }
    assert(spec_tokens_from(s, pos as int) == Ok::<_, SpecParseError>(
        seq![eof_token(len as int)],
    ));
    let t = Token::new(TokenType::EOF, Vec::new(), len, len);
    proof {
        lemma_tokens_view_push(tokens@, t);
        assert(tokens_view(tokens@).push(t@) =~= tokens_view(tokens@) + seq![eof_token(len as int)]);
    }
    tokens.push(t);
    Ok(tokens)
}

/// Parse dirty JSON by the two-stage path: build the structural index, then
/// extract the token stream through it. Output-equivalent to the
/// single-pass `tokenize` on every input, by contract: both return exactly
/// the specification-level token stream.
pub fn parse_two_stage(input: &[u8]) -> (r: Result<Vec<Token>, ParseError>)
    ensures
        spec_parse_two_stage(input@) is Ok ==> r is Ok && tokens_view(r->Ok_0@)
            == spec_parse_two_stage(input@)->Ok_0,
        spec_parse_two_stage(input@) is Err ==> r is Err && r->Err_0@ == spec_parse_two_stage(
            input@,
        )->Err_0,
{
    let index = StructuralIndex::build(input);
    extract_tokens(input, &index)
}

} // verus!
