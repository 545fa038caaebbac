//! The single-pass tokenizer, and the specification-level tokenizer that both
//! tokenizer paths are measured against.
//!
//! The specification functions here define, over a byte sequence, exactly
//! which token stream (or which error) tokenization yields. The executable
//! single-pass tokenizer is proved to return precisely that result.

use vstd::prelude::*;

verus! {

use crate::lexical::{
    is_digit_byte, is_hex_digit_byte, is_ident_char_byte, is_ident_start_byte,
    is_number_char_byte, lemma_spec_skip_ws_bounds, skip_whitespace_and_comments_range,
    spec_skip_ws,
};
use crate::token::{
    ParseError, SpecParseError, SpecToken, Token, TokenType, end_after_plus_message,
    invalid_hex_number_message, msg_end_after_plus, msg_invalid_hex_number,
    msg_unexpected_character, msg_unterminated_string, unexpected_character_message,
    unterminated_string_message,
};

// ---------------------------------------------------------------------------
// Specification: where each token form ends.
// ---------------------------------------------------------------------------

/// Where a string opened with `quote` ends: the position of the first closing
/// quote at or after `pos` that is not escaped by a backslash, or `end` if the
/// string never closes. `escaped` says whether the byte at `pos` is preceded
/// by an odd run of backslashes.
pub open spec fn string_end(s: Seq<u8>, pos: int, end: int, quote: u8, escaped: bool) -> int
    decreases end - pos,
{
    if pos < 0 || pos >= end {
        end
    } else if escaped {
        string_end(s, pos + 1, end, quote, false)
    } else if s[pos] == 92 {
        string_end(s, pos + 1, end, quote, true)
    } else if s[pos] == quote {
        pos
    } else {
        string_end(s, pos + 1, end, quote, false)
    }
}

/// The first position at or after `pos` whose byte is not part of a number
/// literal, bounded by `end`.
pub open spec fn number_end(s: Seq<u8>, pos: int, end: int) -> int
    decreases end - pos,
{
    if pos < 0 || pos >= end {
        pos
    } else if is_number_char_byte(s[pos]) {
        number_end(s, pos + 1, end)
    } else {
        pos
    }
}

/// The first position at or after `pos` whose byte is not a hex digit.
pub open spec fn hex_end(s: Seq<u8>, pos: int, end: int) -> int
    decreases end - pos,
{
    if pos < 0 || pos >= end {
        pos
    } else if is_hex_digit_byte(s[pos]) {
        hex_end(s, pos + 1, end)
    } else {
        pos
    }
}

/// The first position at or after `pos` whose byte cannot continue an
/// identifier.
pub open spec fn ident_end(s: Seq<u8>, pos: int, end: int) -> int
    decreases end - pos,
{
    if pos < 0 || pos >= end {
        pos
    } else if is_ident_char_byte(s[pos]) {
        ident_end(s, pos + 1, end)
    } else {
        pos
    }
}

pub proof fn lemma_string_end_bounds(s: Seq<u8>, pos: int, end: int, quote: u8, escaped: bool)
    requires
        0 <= pos <= end,
    ensures
        pos <= string_end(s, pos, end, quote, escaped) <= end,
    decreases end - pos,
{
    if pos < end {
        if escaped {
            lemma_string_end_bounds(s, pos + 1, end, quote, false);
        } else if s[pos] == 92 {
            lemma_string_end_bounds(s, pos + 1, end, quote, true);
        } else if s[pos] != quote {
            lemma_string_end_bounds(s, pos + 1, end, quote, false);
        }
    }
}

pub proof fn lemma_number_end_bounds(s: Seq<u8>, pos: int, end: int)
    requires
        0 <= pos <= end,
    ensures
        pos <= number_end(s, pos, end) <= end,
    decreases end - pos,
{
    if pos < end && is_number_char_byte(s[pos]) {
        lemma_number_end_bounds(s, pos + 1, end);
    }
}

pub proof fn lemma_hex_end_bounds(s: Seq<u8>, pos: int, end: int)
    requires
        0 <= pos <= end,
    ensures
        pos <= hex_end(s, pos, end) <= end,
    decreases end - pos,
{
    if pos < end && is_hex_digit_byte(s[pos]) {
        lemma_hex_end_bounds(s, pos + 1, end);
    }
}

pub proof fn lemma_ident_end_bounds(s: Seq<u8>, pos: int, end: int)
    requires
        0 <= pos <= end,
    ensures
        pos <= ident_end(s, pos, end) <= end,
    decreases end - pos,
{
    if pos < end && is_ident_char_byte(s[pos]) {
        lemma_ident_end_bounds(s, pos + 1, end);
    }
}

// ---------------------------------------------------------------------------
// Specification: hex values and decimal rendering.
// ---------------------------------------------------------------------------

/// The numeric value of one hex digit byte.
pub open spec fn hex_digit_val(b: u8) -> int {
    if 48 <= b <= 57 {
        b - 48
    } else if 65 <= b <= 70 {
        b - 55
    } else if 97 <= b <= 102 {
        b - 87
    } else {
        0
    }
}

/// The value of a sequence of hex digit bytes, most significant first.
pub open spec fn hex_val(s: Seq<u8>) -> int
    decreases s.len(),
{
    if s.len() == 0 {
        0
    } else {
        hex_val(s.drop_last()) * 16 + hex_digit_val(s.last())
    }
}

pub proof fn lemma_hex_val_nonneg(s: Seq<u8>)
    ensures
        hex_val(s) >= 0,
    decreases s.len(),
{
    if s.len() > 0 {
        lemma_hex_val_nonneg(s.drop_last());
    }
}

/// Extending a digit run multiplies the value by 16 and adds the new digit.
pub proof fn lemma_hex_val_extend(s: Seq<u8>, a: int, j: int)
    requires
        0 <= a <= j < s.len(),
    ensures
        hex_val(s.subrange(a, j + 1)) == hex_val(s.subrange(a, j)) * 16 + hex_digit_val(s[j]),
{
    let t = s.subrange(a, j + 1);
    assert(t.drop_last() =~= s.subrange(a, j));
    assert(t.last() == s[j]);
}

/// A digit run's value never shrinks as the run grows.
pub proof fn lemma_hex_val_prefix_le(s: Seq<u8>, a: int, j: int, b: int)
    requires
        0 <= a <= j <= b <= s.len(),
    ensures
        hex_val(s.subrange(a, j)) <= hex_val(s.subrange(a, b)),
    decreases b - j,
{
    if j < b {
        lemma_hex_val_extend(s, a, j);
        lemma_hex_val_nonneg(s.subrange(a, j));
        assert(hex_digit_val(s[j]) >= 0);
        lemma_hex_val_prefix_le(s, a, j + 1, b);
    }
}

/// The decimal digit bytes of a non-negative integer, most significant first.
pub open spec fn dec_rep(n: int) -> Seq<u8>
    decreases n,
{
    if n < 10 {
        seq![(48 + n) as u8]
    } else {
        dec_rep(n / 10).push((48 + n % 10) as u8)
    }
}

/// The value a run of decimal digit bytes denotes, most significant first.
pub open spec fn dec_val(s: Seq<u8>) -> int
    decreases s.len(),
{
    if s.len() == 0 {
        0
    } else {
        dec_val(s.drop_last()) * 10 + (s.last() - 48)
    }
}

/// The decimal rendering is faithful: it consists of digit bytes only, has
/// no spurious leading zero, and denotes exactly the value it was produced
/// from. This pins down the normalized decimal form that hex number
/// literals are rewritten into.
pub proof fn lemma_dec_rep_correct(n: int)
    requires
        n >= 0,
    ensures
        dec_val(dec_rep(n)) == n,
        dec_rep(n).len() >= 1,
        forall|k: int| 0 <= k < dec_rep(n).len() ==> is_digit_byte(#[trigger] dec_rep(n)[k]),
        n >= 1 ==> dec_rep(n)[0] != 48,
    decreases n,
{
    if n < 10 {
        assert(dec_rep(n) == seq![(48 + n) as u8]);
        assert(dec_rep(n).drop_last() =~= Seq::<u8>::empty());
        assert(dec_val(Seq::<u8>::empty()) == 0);
        assert(dec_val(dec_rep(n)) == n);
    } else {
        lemma_dec_rep_correct(n / 10);
        let prefix = dec_rep(n / 10);
        let whole = dec_rep(n);
        assert(whole == prefix.push((48 + n % 10) as u8));
        assert(whole.drop_last() =~= prefix);
        assert(dec_val(whole) == dec_val(prefix) * 10 + n % 10);
        assert(whole[0] == prefix[0]);
    }
}

// ---------------------------------------------------------------------------
// Specification: one token, and the whole stream.
// ---------------------------------------------------------------------------

pub open spec fn true_bytes() -> Seq<u8> {
    seq![116u8, 114u8, 117u8, 101u8]
}

pub open spec fn false_bytes() -> Seq<u8> {
    seq![102u8, 97u8, 108u8, 115u8, 101u8]
}

pub open spec fn null_bytes() -> Seq<u8> {
    seq![110u8, 117u8, 108u8, 108u8]
}

/// True/False/Null for the three keywords, Identifier for any other word.
pub open spec fn classify_ident(v: Seq<u8>) -> TokenType {
    if v == true_bytes() {
        TokenType::True
    } else if v == false_bytes() {
        TokenType::False
    } else if v == null_bytes() {
        TokenType::Null
    } else {
        TokenType::Identifier
    }
}

/// The token kind of a one-byte punctuation token.
pub open spec fn punct_type(b: u8) -> Option<TokenType> {
    if b == 123 {
        Some(TokenType::LeftBrace)
    } else if b == 125 {
        Some(TokenType::RightBrace)
    } else if b == 91 {
        Some(TokenType::LeftBracket)
    } else if b == 93 {
        Some(TokenType::RightBracket)
    } else if b == 58 {
        Some(TokenType::Colon)
    } else if b == 44 {
        Some(TokenType::Comma)
    } else {
        None
    }
}

/// The token that starts at position `p` (a non-skippable position inside the
/// buffer), together with the position where scanning resumes, or the error
/// that tokenization stops with.
pub open spec fn spec_scan(s: Seq<u8>, p: int) -> Result<(SpecToken, int), SpecParseError> {
    let len = s.len() as int;
    if s[p] == 34 || s[p] == 39 {
        let e = string_end(s, p + 1, len, s[p], false);
        if e >= len {
            Err(SpecParseError { message: msg_unterminated_string(), position: p })
        } else {
            Ok(
                (
                    SpecToken {
                        token_type: TokenType::String,
                        value: s.subrange(p + 1, e),
                        start: p,
                        end: e + 1,
                    },
                    e + 1,
                ),
            )
        }
    } else if is_digit_byte(s[p]) || s[p] == 45 || s[p] == 43 || s[p] == 46 {
        if s[p] == 43 {
            if p + 1 >= len {
                Err(SpecParseError { message: msg_end_after_plus(), position: p + 1 })
            } else {
                let e = number_end(s, p + 1, len);
                Ok(
                    (
                        SpecToken {
                            token_type: TokenType::Number,
                            value: s.subrange(p + 1, e),
                            start: p,
                            end: e,
                        },
                        e,
                    ),
                )
            }
        } else if s[p] == 48 && p + 1 < len && s[p + 1] == 120 {
            let h = hex_end(s, p + 2, len);
            if h == p + 2 {
                Err(SpecParseError { message: msg_invalid_hex_number(), position: p })
            } else {
                let hv = hex_val(s.subrange(p + 2, h));
                let value = if hv <= u64::MAX {
                    dec_rep(hv)
                } else {
                    s.subrange(p, h)
                };
                Ok(
                    (
                        SpecToken { token_type: TokenType::Number, value, start: p, end: h },
                        h,
                    ),
                )
            }
        } else {
            let e = number_end(s, p + 1, len);
            Ok(
                (
                    SpecToken {
                        token_type: TokenType::Number,
                        value: s.subrange(p, e),
                        start: p,
                        end: e,
                    },
                    e,
                ),
            )
        }
    } else if is_ident_start_byte(s[p]) {
        let e = ident_end(s, p, len);
        Ok(
            (
                SpecToken {
                    token_type: classify_ident(s.subrange(p, e)),
                    value: s.subrange(p, e),
                    start: p,
                    end: e,
                },
                e,
            ),
        )
    } else if punct_type(s[p]) is Some {
        Ok(
            (
                SpecToken {
                    token_type: punct_type(s[p])->Some_0,
                    value: Seq::empty(),
                    start: p,
                    end: p + 1,
                },
                p + 1,
            ),
        )
    } else {
        Err(SpecParseError { message: msg_unexpected_character(s[p]), position: p })
    }
}

/// A successful scan advances, and never runs past the buffer.
pub proof fn lemma_spec_scan_advances(s: Seq<u8>, p: int)
    requires
        0 <= p < s.len(),
    ensures
        spec_scan(s, p) is Ok ==> p < spec_scan(s, p)->Ok_0.1 <= s.len(),
{
    let len = s.len() as int;
    if s[p] == 34 || s[p] == 39 {
        lemma_string_end_bounds(s, p + 1, len, s[p], false);
    } else if is_digit_byte(s[p]) || s[p] == 45 || s[p] == 43 || s[p] == 46 {
        if s[p] == 43 {
            if p + 1 < len {
                lemma_number_end_bounds(s, p + 1, len);
            }
        } else if s[p] == 48 && p + 1 < len && s[p + 1] == 120 {
            lemma_hex_end_bounds(s, p + 2, len);
        } else {
            lemma_number_end_bounds(s, p + 1, len);
        }
    } else if is_ident_start_byte(s[p]) {
        lemma_ident_end_bounds(s, p, len);
        assert(ident_end(s, p, len) == ident_end(s, p + 1, len));
        lemma_ident_end_bounds(s, p + 1, len);
    }
}

/// The EOF token closing every successful token stream.
pub open spec fn eof_token(len: int) -> SpecToken {
    SpecToken { token_type: TokenType::EOF, value: Seq::empty(), start: len, end: len }
}

/// The token stream of `s` from position `pos` on: skip whitespace and
/// comments, scan one token, continue after it; close with the EOF token at
/// the buffer's end, or stop at the first error.
pub open spec fn spec_tokens_from(s: Seq<u8>, pos: int) -> Result<Seq<SpecToken>, SpecParseError>
    decreases s.len() - pos,
        when 0 <= pos
    via spec_tokens_from_decreases
{
    let len = s.len() as int;
    let p = spec_skip_ws(s, pos, len);
    if p >= len {
        Ok(seq![eof_token(len)])
    } else {
        match spec_scan(s, p) {
            Err(e) => Err(e),
            Ok((t, q)) => match spec_tokens_from(s, q) {
                Err(e) => Err(e),
                Ok(rest) => Ok(seq![t] + rest),
            },
        }
    }
}

#[via_fn]
proof fn spec_tokens_from_decreases(s: Seq<u8>, pos: int) {
    let len = s.len() as int;
    lemma_spec_skip_ws_bounds(s, pos, len);
    let p = spec_skip_ws(s, pos, len);
    if 0 <= p < len {
        lemma_spec_scan_advances(s, p);
    }
}

/// The token stream (or error) of a whole input.
pub open spec fn spec_tokenize(s: Seq<u8>) -> Result<Seq<SpecToken>, SpecParseError> {
    spec_tokens_from(s, 0)
}

// ---------------------------------------------------------------------------
// Views and stream composition helpers.
// ---------------------------------------------------------------------------

/// The mathematical token stream of a vector of tokens.
pub open spec fn tokens_view(v: Seq<Token>) -> Seq<SpecToken> {
    v.map_values(|t: Token| t@)
}

/// Prefix a stream result with already-emitted tokens.
pub open spec fn prepend_tokens(
    ts: Seq<SpecToken>,
    r: Result<Seq<SpecToken>, SpecParseError>,
) -> Result<Seq<SpecToken>, SpecParseError> {
    match r {
        Ok(rest) => Ok(ts + rest),
        Err(e) => Err(e),
    }
}

/// Prefix a stream result with one token.
pub open spec fn cons_token(
    t: SpecToken,
    r: Result<Seq<SpecToken>, SpecParseError>,
) -> Result<Seq<SpecToken>, SpecParseError> {
    match r {
        Ok(rest) => Ok(seq![t] + rest),
        Err(e) => Err(e),
    }
}

pub proof fn lemma_prepend_empty(r: Result<Seq<SpecToken>, SpecParseError>)
    ensures
        prepend_tokens(Seq::empty(), r) == r,
{
    match r {
        Ok(rest) => {
            assert(Seq::<SpecToken>::empty() + rest =~= rest);
        },
        Err(_) => {},
    }
}

pub proof fn lemma_prepend_step(
    ts: Seq<SpecToken>,
    t: SpecToken,
    r: Result<Seq<SpecToken>, SpecParseError>,
)
    ensures
        prepend_tokens(ts.push(t), r) == prepend_tokens(ts, cons_token(t, r)),
{
    match r {
        Ok(rest) => {
            assert(ts.push(t) + rest =~= ts + (seq![t] + rest));
        },
        Err(_) => {},
    }
}

pub proof fn lemma_tokens_view_push(v: Seq<Token>, t: Token)
    ensures
        tokens_view(v.push(t)) == tokens_view(v).push(t@),
{
    assert(tokens_view(v.push(t)) =~= tokens_view(v).push(t@));
}

// ---------------------------------------------------------------------------
// Executable scanning helpers.
// ---------------------------------------------------------------------------

/// Find the unescaped closing quote, keeping a running escape flag.
pub(crate) fn scan_string_end(input: &[u8], start: usize, quote: u8) -> (r: usize)
    requires
        start <= input@.len(),
    ensures
        r == string_end(input@, start as int, input@.len() as int, quote, false),
        start <= r <= input@.len(),
{
    let ghost s = input@;
    let len = input.len();
    let mut pos = start;
    let mut escaped = false;
    proof {
        lemma_string_end_bounds(s, start as int, len as int, quote, false);
    }
    while pos < len
        invariant
            s == input@,
            len == s.len(),
            start <= pos <= len,
            string_end(s, start as int, len as int, quote, false) == string_end(
                s,
                pos as int,
                len as int,
                quote,
                escaped,
            ),
        decreases len - pos,
    {
        let c = input[pos];
        if escaped {
            escaped = false;
            pos = pos + 1;
        } else if c == 92 {
            escaped = true;
            pos = pos + 1;
        } else if c == quote {
            assert(string_end(s, pos as int, len as int, quote, false) == pos as int);
            proof {
                lemma_string_end_bounds(s, start as int, len as int, quote, false);
            }
            return pos;
        } else {
            pos = pos + 1;
        }
    }
    assert(string_end(s, pos as int, len as int, quote, escaped) == len as int);
    pos
}

/// Consume the greedy run of number bytes.
pub(crate) fn scan_number_end(input: &[u8], start: usize, end: usize) -> (r: usize)
    requires
        start <= end <= input@.len(),
    ensures
        r == number_end(input@, start as int, end as int),
        start <= r <= end,
{
    let ghost s = input@;
    let len = end;
    let mut pos = start;
    while pos < len
        invariant
            s == input@,
            len == end <= s.len(),
            start <= pos <= len,
            number_end(s, start as int, len as int) == number_end(s, pos as int, len as int),
        decreases len - pos,
    {
        let c = input[pos];
        if (48 <= c && c <= 57) || c == 46 || c == 101 || c == 69 || c == 43 || c == 45 {
            pos = pos + 1;
        } else {
            assert(number_end(s, pos as int, len as int) == pos as int);
            return pos;
        }
    }
    assert(number_end(s, pos as int, len as int) == pos as int);
    pos
}

/// Consume the greedy run of hex digit bytes.
pub(crate) fn scan_hex_end(input: &[u8], start: usize, end: usize) -> (r: usize)
    requires
        start <= end <= input@.len(),
    ensures
        r == hex_end(input@, start as int, end as int),
        start <= r <= end,
        forall|k: int| start <= k < r ==> is_hex_digit_byte(input@[k]),
{
    let ghost s = input@;
    let len = end;
    let mut pos = start;
    while pos < len
        invariant
            s == input@,
            len == end <= s.len(),
            start <= pos <= len,
            hex_end(s, start as int, len as int) == hex_end(s, pos as int, len as int),
            forall|k: int| start <= k < pos ==> is_hex_digit_byte(s[k]),
        decreases len - pos,
    {
        let c = input[pos];
        if (48 <= c && c <= 57) || (65 <= c && c <= 70) || (97 <= c && c <= 102) {
            pos = pos + 1;
        } else {
            assert(hex_end(s, pos as int, len as int) == pos as int);
            return pos;
        }
    }
    assert(hex_end(s, pos as int, len as int) == pos as int);
    pos
}

/// Consume the greedy run of identifier bytes.
pub(crate) fn scan_ident_end(input: &[u8], start: usize, end: usize) -> (r: usize)
    requires
        start <= end <= input@.len(),
    ensures
        r == ident_end(input@, start as int, end as int),
        start <= r <= end,
{
    let ghost s = input@;
    let len = end;
    let mut pos = start;
    while pos < len
        invariant
            s == input@,
            len == end <= s.len(),
            start <= pos <= len,
            ident_end(s, start as int, len as int) == ident_end(s, pos as int, len as int),
        decreases len - pos,
    {
        let c = input[pos];
        if (65 <= c && c <= 90) || (97 <= c && c <= 122) || (48 <= c && c <= 57) || c == 95
            || c == 36 {
            pos = pos + 1;
        } else {
            assert(ident_end(s, pos as int, len as int) == pos as int);
            return pos;
        }
    }
    assert(ident_end(s, pos as int, len as int) == pos as int);
    pos
}

/// Copy `input[a..b]` into an owned vector.
pub(crate) fn copy_range(input: &[u8], a: usize, b: usize) -> (r: Vec<u8>)
    requires
        a <= b <= input@.len(),
    ensures
        r@ == input@.subrange(a as int, b as int),
{
    let ghost s = input@;
    let mut out: Vec<u8> = Vec::new();
    let mut i = a;
    assert(out@ =~= s.subrange(a as int, a as int));
    while i < b
        invariant
            s == input@,
            a <= i <= b <= s.len(),
            out@ == s.subrange(a as int, i as int),
        decreases b - i,
    {
        out.push(input[i]);
        assert(out@ =~= s.subrange(a as int, i + 1 as int));
        i = i + 1;
    }
    out
}

/// Fold the hex digit run `input[a..b]` into a value, or report that it
/// exceeds the largest representable value.
pub(crate) fn parse_hex_value(input: &[u8], a: usize, b: usize) -> (r: Option<u64>)
    requires
        a <= b <= input@.len(),
        forall|k: int| a <= k < b ==> is_hex_digit_byte(input@[k]),
    ensures
        match r {
            Some(v) => v as int == hex_val(input@.subrange(a as int, b as int)),
            None => hex_val(input@.subrange(a as int, b as int)) > u64::MAX,
        },
{
    let ghost s = input@;
    let mut v: u64 = 0;
    let mut i = a;
    assert(hex_val(s.subrange(a as int, a as int)) == 0);
    while i < b
        invariant
            s == input@,
            a <= i <= b <= s.len(),
            forall|k: int| a <= k < b ==> is_hex_digit_byte(s[k]),
            v as int == hex_val(s.subrange(a as int, i as int)),
        decreases b - i,
    {
        let c = input[i];
        let d: u8 = if 48 <= c && c <= 57 {
            c - 48
        } else if 65 <= c && c <= 70 {
            c - 55
        } else {
            c - 87
        };
        assert(d as int == hex_digit_val(s[i as int]) && d <= 15);
        proof {
            lemma_hex_val_extend(s, a as int, i as int);
        }
        if v >= 1152921504606846976 {
            proof {
                assert(hex_val(s.subrange(a as int, i + 1)) > u64::MAX);
                lemma_hex_val_prefix_le(s, a as int, i + 1, b as int);
            }
            return None;
        }
        v = v * 16 + (d as u64);
        i = i + 1;
    }
    Some(v)
}

/// Render a value in decimal, appending its digit bytes.
pub(crate) fn push_decimal(n: u64, out: &mut Vec<u8>)
    ensures
        final(out)@ == old(out)@ + dec_rep(n as int),
    decreases n,
{
    if n < 10 {
        out.push(48 + (n as u8));
        assert(out@ =~= old(out)@ + dec_rep(n as int));
    } else {
        proof {
            assert(n / 10 < n);
        }
        push_decimal(n / 10, out);
        out.push(48 + ((n % 10) as u8));
        assert(out@ =~= old(out)@ + dec_rep(n as int));
    }
}

/// Classify an identifier's bytes as a keyword or a bare identifier.
pub(crate) fn classify_identifier(value: &Vec<u8>) -> (t: TokenType)
    ensures
        t == classify_ident(value@),
{
    if value.len() == 4 && value[0] == 116 && value[1] == 114 && value[2] == 117 && value[3]
        == 101 {
        assert(value@ =~= true_bytes());
        TokenType::True
    } else if value.len() == 5 && value[0] == 102 && value[1] == 97 && value[2] == 108 && value[3]
        == 115 && value[4] == 101 {
        assert(value@ =~= false_bytes());
        TokenType::False
    } else if value.len() == 4 && value[0] == 110 && value[1] == 117 && value[2] == 108 && value[3]
        == 108 {
        assert(value@ =~= null_bytes());
        TokenType::Null
    } else {
        proof {
            if value@ == true_bytes() {
                assert(value@.len() == 4 && value@[0] == 116 && value@[1] == 114 && value@[2]
                    == 117 && value@[3] == 101);
            }
            if value@ == false_bytes() {
                assert(value@.len() == 5 && value@[0] == 102 && value@[1] == 97 && value@[2] == 108
                    && value@[3] == 115 && value@[4] == 101);
            }
            if value@ == null_bytes() {
                assert(value@.len() == 4 && value@[0] == 110 && value@[1] == 117 && value@[2]
                    == 108 && value@[3] == 108);
            }
        }
        TokenType::Identifier
    }
}

// ---------------------------------------------------------------------------
// The single-pass tokenizer.
// ---------------------------------------------------------------------------

/// Scan the one token that starts at position `p` (a non-skippable position
/// inside the buffer). Returns exactly the token and resume position that
/// the specification-level scan assigns, or its error. Shared by the
/// single-pass tokenizer and, for the non-structural spans, by the
/// two-stage extractor.
pub(crate) fn scan_token(input: &[u8], p: usize) -> (r: Result<(Token, usize), ParseError>)
    requires
        p < input@.len(),
    ensures
        ({
            let sr = spec_scan(input@, p as int);
            &&& (sr is Ok ==> r is Ok && r->Ok_0.0@ == sr->Ok_0.0 && r->Ok_0.1 as int
                == sr->Ok_0.1)
            &&& (sr is Err ==> r is Err && r->Err_0@ == sr->Err_0)
        }),
{
    let ghost s = input@;
    let len = input.len();
    let c = input[p];
    if c == 34 || c == 39 {
        let e = scan_string_end(input, p + 1, c);
        if e >= len {
            assert(spec_scan(s, p as int) == Err::<(SpecToken, int), _>(
                SpecParseError { message: msg_unterminated_string(), position: p as int },
            ));
            return Err(ParseError::new(unterminated_string_message(), p));
        }
        let value = copy_range(input, p + 1, e);
        let t = Token::new(TokenType::String, value, p, e + 1);
        assert(spec_scan(s, p as int) == Ok::<_, SpecParseError>((t@, e + 1 as int)));
        Ok((t, e + 1))
    } else if (48 <= c && c <= 57) || c == 45 || c == 43 || c == 46 {
        if c == 43 {
            if p + 1 >= len {
                assert(spec_scan(s, p as int) == Err::<(SpecToken, int), _>(
                    SpecParseError { message: msg_end_after_plus(), position: p + 1 as int },
                ));
                return Err(ParseError::new(end_after_plus_message(), p + 1));
            }
            let e = scan_number_end(input, p + 1, len);
            let value = copy_range(input, p + 1, e);
            let t = Token::new(TokenType::Number, value, p, e);
            assert(spec_scan(s, p as int) == Ok::<_, SpecParseError>((t@, e as int)));
            Ok((t, e))
        } else if c == 48 && p + 1 < len && input[p + 1] == 120 {
            let h = scan_hex_end(input, p + 2, len);
            if h == p + 2 {
                assert(spec_scan(s, p as int) == Err::<(SpecToken, int), _>(
                    SpecParseError { message: msg_invalid_hex_number(), position: p as int },
                ));
                return Err(ParseError::new(invalid_hex_number_message(), p));
            }
            let t = match parse_hex_value(input, p + 2, h) {
                Some(v) => {
                    let mut value: Vec<u8> = Vec::new();
                    push_decimal(v, &mut value);
                    proof {
                        assert(value@ =~= dec_rep(v as int));
                    }
                    Token::new(TokenType::Number, value, p, h)
                },
                None => {
                    let value = copy_range(input, p, h);
                    Token::new(TokenType::Number, value, p, h)
                },
            };
            assert(spec_scan(s, p as int) == Ok::<_, SpecParseError>((t@, h as int)));
            Ok((t, h))
        } else {
            let e = scan_number_end(input, p + 1, len);
            let value = copy_range(input, p, e);
            let t = Token::new(TokenType::Number, value, p, e);
            assert(spec_scan(s, p as int) == Ok::<_, SpecParseError>((t@, e as int)));
            Ok((t, e))
        }
    } else if (65 <= c && c <= 90) || (97 <= c && c <= 122) || c == 95 || c == 36 {
        let e = scan_ident_end(input, p, len);
        proof {
            assert(ident_end(s, p as int, len as int) == ident_end(s, p + 1 as int, len as int));
            lemma_ident_end_bounds(s, p + 1 as int, len as int);
        }
        let value = copy_range(input, p, e);
        let tt = classify_identifier(&value);
        let t = Token::new(tt, value, p, e);
        assert(spec_scan(s, p as int) == Ok::<_, SpecParseError>((t@, e as int)));
        Ok((t, e))
    } else {
        let tt_opt: Option<TokenType> = if c == 123 {
            Some(TokenType::LeftBrace)
        } else if c == 125 {
            Some(TokenType::RightBrace)
        } else if c == 91 {
            Some(TokenType::LeftBracket)
        } else if c == 93 {
            Some(TokenType::RightBracket)
        } else if c == 58 {
            Some(TokenType::Colon)
        } else if c == 44 {
            Some(TokenType::Comma)
        } else {
            None
        };
        match tt_opt {
            Some(tt) => {
                let t = Token::new(tt, Vec::new(), p, p + 1);
                assert(spec_scan(s, p as int) == Ok::<_, SpecParseError>((t@, p + 1 as int)));
                Ok((t, p + 1))
            },
            None => {
                assert(spec_scan(s, p as int) == Err::<(SpecToken, int), _>(
                    SpecParseError {
                        message: msg_unexpected_character(s[p as int]),
                        position: p as int,
                    },
                ));
                Err(ParseError::new(unexpected_character_message(c), p))
            },
        }
    }
}

/// Tokenize dirty JSON in one pass over the raw bytes. Returns exactly the
/// token stream that the specification-level tokenizer assigns to the input,
/// or its error.
pub fn tokenize(input: &[u8]) -> (r: Result<Vec<Token>, ParseError>)
    ensures
        spec_tokenize(input@) is Ok ==> r is Ok && tokens_view(r->Ok_0@) == spec_tokenize(
            input@,
        )->Ok_0,
        spec_tokenize(input@) is Err ==> r is Err && r->Err_0@ == spec_tokenize(input@)->Err_0,
{
    let ghost s = input@;
    let len = input.len();
    let mut tokens: Vec<Token> = Vec::new();
    let mut pos: usize = 0;
    proof {
        lemma_prepend_empty(spec_tokens_from(s, 0));
        assert(tokens_view(tokens@) =~= Seq::<SpecToken>::empty());
    }
    while pos < len
        invariant
            s == input@,
            len == s.len(),
            pos <= len,
            prepend_tokens(tokens_view(tokens@), spec_tokens_from(s, pos as int)) == spec_tokenize(
                s,
            ),
        decreases len - pos,
    {
        let ghost pos0 = pos as int;
        let p = skip_whitespace_and_comments_range(input, pos, len);
        proof {
            lemma_spec_skip_ws_bounds(s, pos0, len as int);
        }
        if p >= len {
            assert(spec_tokens_from(s, pos0) == Ok::<_, SpecParseError>(seq![eof_token(len as int)]));
            let t = Token::new(TokenType::EOF, Vec::new(), len, len);
            proof {
                lemma_tokens_view_push(tokens@, t);
                assert(tokens_view(tokens@).push(t@) =~= tokens_view(tokens@) + seq![
                    eof_token(len as int),
                ]);
            }
            tokens.push(t);
            return Ok(tokens);
        }
        match scan_token(input, p) {
            Ok((t, q)) => {
                proof {
                    lemma_spec_scan_advances(s, p as int);
                    assert(spec_tokens_from(s, pos0) == cons_token(
                        t@,
                        spec_tokens_from(s, q as int),
                    ));
                    lemma_prepend_step(tokens_view(tokens@), t@, spec_tokens_from(s, q as int));
                    lemma_tokens_view_push(tokens@, t);
                }
                tokens.push(t);
                pos = q;
            },
            Err(e) => {
                assert(spec_tokens_from(s, pos0) == Err::<Seq<SpecToken>, _>(e@));
                return Err(e);
            },
        }
    }
    assert(spec_tokens_from(s, pos as int) == Ok::<_, SpecParseError>(
        seq![eof_token(len as int)],
    ));
    let t = Token::new(TokenType::EOF, Vec::new(), len, len);
    proof {
        lemma_tokens_view_push(tokens@, t);
        assert(tokens_view(tokens@).push(t@) =~= tokens_view(tokens@) + seq![eof_token(len as int)]);
    }
    tokens.push(t);
    Ok(tokens)
}

} // verus!
