//! The reconstructor: renders a token stream as strictly valid JSON text.
//!
//! Strings and bare identifiers come out double-quoted, literals pass
//! through, and a comma directly before a closing delimiter (or at the end of
//! input) is elided, both by a look-ahead at the comma and by a retroactive
//! pop at the closing delimiter.

use vstd::prelude::*;

verus! {

use crate::token::{SpecToken, Token, TokenType};
use crate::tokenizer::{false_bytes, null_bytes, tokens_view, true_bytes};

/// The first `n` bytes of a string payload, with every double quote that is
/// not already escaped by a preceding backslash turned into `\"`.
pub open spec fn escape_quotes_upto(v: Seq<u8>, n: int) -> Seq<u8>
    decreases n,
{
    if n <= 0 {
        Seq::empty()
    } else {
        let prev = escape_quotes_upto(v, n - 1);
        if v[n - 1] == 34 && (n - 1 == 0 || v[n - 2] != 92) {
            prev + seq![92u8, 34u8]
        } else {
            prev.push(v[n - 1])
        }
    }
}

/// A string payload with its unescaped double quotes escaped.
pub open spec fn escape_quotes(v: Seq<u8>) -> Seq<u8> {
    escape_quotes_upto(v, v.len() as int)
}

/// The output after rendering token `i` of `tokens` onto `acc`.
pub open spec fn recon_token(acc: Seq<u8>, tokens: Seq<SpecToken>, i: int) -> Seq<u8> {
    let t = tokens[i];
    match t.token_type {
        TokenType::String => acc + seq![34u8] + escape_quotes(t.value) + seq![34u8],
        TokenType::Number => acc + t.value,
        TokenType::True => acc + true_bytes(),
        TokenType::False => acc + false_bytes(),
        TokenType::Null => acc + null_bytes(),
        TokenType::Identifier => acc + seq![34u8] + t.value + seq![34u8],
        TokenType::LeftBrace => acc.push(123),
        TokenType::RightBrace => if acc.len() > 0 && acc.last() == 44 {
            acc.drop_last().push(125)
        } else {
            acc.push(125)
        },
        TokenType::LeftBracket => acc.push(91),
        TokenType::RightBracket => if acc.len() > 0 && acc.last() == 44 {
            acc.drop_last().push(93)
        } else {
            acc.push(93)
        },
        TokenType::Colon => acc.push(58),
        TokenType::Comma => if i + 1 < tokens.len() && !(tokens[i + 1].token_type
            == TokenType::RightBrace || tokens[i + 1].token_type == TokenType::RightBracket
            || tokens[i + 1].token_type == TokenType::EOF) {
            acc.push(44)
        } else {
            acc
        },
        TokenType::EOF => acc,
    }
}

/// The output after rendering tokens `i..` onto `acc`; rendering stops at the
/// first EOF token.
pub open spec fn recon_from(tokens: Seq<SpecToken>, i: int, acc: Seq<u8>) -> Seq<u8>
    decreases tokens.len() - i,
{
    if i < 0 || i >= tokens.len() {
        acc
    } else if tokens[i].token_type == TokenType::EOF {
        acc
    } else {
        recon_from(tokens, i + 1, recon_token(acc, tokens, i))
    }
}

/// The JSON text rendered from a token stream.
pub open spec fn spec_reconstruct(tokens: Seq<SpecToken>) -> Seq<u8> {
    recon_from(tokens, 0, Seq::empty())
}

/// Append a string payload to `out`, escaping unescaped double quotes.
fn push_escaped(out: &mut Vec<u8>, value: &Vec<u8>)
    ensures
        final(out)@ == old(out)@ + escape_quotes(value@),
{
    let ghost v = value@;
    let ghost base = out@;
    let n = value.len();
    let mut idx: usize = 0;
    assert(out@ =~= base + escape_quotes_upto(v, 0));
    while idx < n
        invariant
            v == value@,
            n == v.len(),
            idx <= n,
            out@ == base + escape_quotes_upto(v, idx as int),
        decreases n - idx,
    {
        let b = value[idx];
        if b == 34 && (idx == 0 || value[idx - 1] != 92) {
            out.push(92);
            out.push(34);
            assert(out@ =~= base + escape_quotes_upto(v, idx + 1));
        } else {
            out.push(b);
            assert(out@ =~= base + escape_quotes_upto(v, idx + 1));
        }
        idx = idx + 1;
    }
}

/// Reconstruct valid JSON text from a token stream. Returns exactly the
/// rendering that the specification-level reconstructor assigns to the
/// stream.
pub fn reconstruct_json(tokens: &Vec<Token>) -> (r: Vec<u8>)
    ensures
        r@ == spec_reconstruct(tokens_view(tokens@)),
{
    let ghost tv = tokens_view(tokens@);
    let n = tokens.len();
    let mut result: Vec<u8> = Vec::new();
    let mut i: usize = 0;
    assert(result@ =~= Seq::<u8>::empty());
    while i < n
        invariant
            tv == tokens_view(tokens@),
            n == tokens@.len(),
            i <= n,
            tv.len() == n,
            recon_from(tv, i as int, result@) == spec_reconstruct(tv),
        decreases n - i,
    {
        let ghost acc0 = result@;
        assert(tv[i as int] == tokens@[i as int]@);
        match tokens[i].token_type {
            TokenType::String => {
                result.push(34);
                push_escaped(&mut result, &tokens[i].value);
                result.push(34);
                assert(result@ =~= recon_token(acc0, tv, i as int));
            },
            TokenType::Number => {
                let mut j: usize = 0;
                let ghost value = tokens@[i as int].value@;
                let m = tokens[i].value.len();
                while j < m
                    invariant
                        i < tokens@.len(),
                        value == tokens@[i as int].value@,
                        m == value.len(),
                        j <= m,
                        result@ == acc0 + value.subrange(0, j as int),
                    decreases m - j,
                {
                    result.push(tokens[i].value[j]);
                    assert(result@ =~= acc0 + value.subrange(0, j + 1 as int));
                    j = j + 1;
                }
                assert(value.subrange(0, m as int) =~= value);
                assert(result@ =~= recon_token(acc0, tv, i as int));
            },
            TokenType::True => {
                result.push(116);
                result.push(114);
                result.push(117);
                result.push(101);
                assert(result@ =~= recon_token(acc0, tv, i as int));
            },
            TokenType::False => {
                result.push(102);
                result.push(97);
                result.push(108);
                result.push(115);
                result.push(101);
                assert(result@ =~= recon_token(acc0, tv, i as int));
            },
            TokenType::Null => {
                result.push(110);
                result.push(117);
                result.push(108);
                result.push(108);
                assert(result@ =~= recon_token(acc0, tv, i as int));
            },
            TokenType::Identifier => {
                result.push(34);
                let mut j: usize = 0;
                let ghost value = tokens@[i as int].value@;
                let m = tokens[i].value.len();
                while j < m
                    invariant
                        i < tokens@.len(),
                        value == tokens@[i as int].value@,
                        m == value.len(),
                        j <= m,
                        result@ == acc0 + seq![34u8] + value.subrange(0, j as int),
                    decreases m - j,
                {
                    result.push(tokens[i].value[j]);
                    assert(result@ =~= acc0 + seq![34u8] + value.subrange(0, j + 1 as int));
                    j = j + 1;
                }
                result.push(34);
                assert(value.subrange(0, m as int) =~= value);
                assert(result@ =~= recon_token(acc0, tv, i as int));
            },
            TokenType::LeftBrace => {
                result.push(123);
                assert(result@ =~= recon_token(acc0, tv, i as int));
            },
            TokenType::RightBrace => {
                if result.len() > 0 && result[result.len() - 1] == 44 {
                    result.pop();
                }
                result.push(125);
                assert(result@ =~= recon_token(acc0, tv, i as int));
            },
            TokenType::LeftBracket => {
                result.push(91);
                assert(result@ =~= recon_token(acc0, tv, i as int));
            },
            TokenType::RightBracket => {
                if result.len() > 0 && result[result.len() - 1] == 44 {
                    result.pop();
                }
                result.push(93);
                assert(result@ =~= recon_token(acc0, tv, i as int));
            },
            TokenType::Colon => {
                result.push(58);
                assert(result@ =~= recon_token(acc0, tv, i as int));
            },
            TokenType::Comma => {
                if i + 1 < n {
                    let nt = tokens[i + 1].token_type;
                    assert(tv[i + 1 as int] == tokens@[i + 1 as int]@);
                    if !(nt == TokenType::RightBrace || nt == TokenType::RightBracket || nt
                        == TokenType::EOF) {
                        result.push(44);
                    }
                }
                assert(result@ =~= recon_token(acc0, tv, i as int));
            },
            TokenType::EOF => {
                assert(recon_from(tv, i as int, result@) == result@);
                return result;
            },
        }
        assert(recon_from(tv, i as int, acc0) == recon_from(tv, i + 1 as int, result@));
        i = i + 1;
    }
    result
}

} // verus!
