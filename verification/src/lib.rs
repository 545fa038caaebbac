//! Cleaning of "dirty" JSON: text that is JSON-like but allows unquoted keys,
//! single-quoted strings, line and block comments, trailing commas, and hex
//! number literals. The library tokenizes such text and re-emits the tokens as
//! strictly valid JSON.
//!
//! Two tokenizer paths feed one reconstructor: a single-pass scalar tokenizer,
//! and a two-stage path that first indexes every structural character and then
//! extracts tokens by walking that index.

pub mod lexical;
pub mod reconstruct;
pub mod simd;
pub mod token;
pub mod tokenizer;
pub mod two_stage;

pub use lexical::{
    is_digit, is_identifier_char, is_identifier_start, is_whitespace,
    skip_whitespace_and_comments, skip_whitespace_and_comments_range,
};
pub use reconstruct::reconstruct_json;
pub use simd::{
    find_structural_positions_scalar, find_structural_positions_simd, is_structural_char,
    StructType, StructuralIndex,
};
pub use token::{ParseError, Token, TokenType};
pub use tokenizer::tokenize;
pub use two_stage::parse_two_stage;

use vstd::prelude::*;

verus! {

use crate::reconstruct::spec_reconstruct;
use crate::tokenizer::spec_tokenize;
use crate::two_stage::spec_parse_two_stage;

/// Clean dirty JSON with the single-pass tokenizer: tokenize the input, then
/// render the token stream as strictly valid JSON. Succeeds exactly when
/// tokenization succeeds, and then returns exactly the rendering of the
/// input's token stream; fails with exactly the tokenizer's error otherwise.
pub fn clean_dirty_json(input: &[u8]) -> (r: Result<Vec<u8>, ParseError>)
    ensures
        spec_tokenize(input@) is Ok ==> r is Ok && r->Ok_0@ == spec_reconstruct(
            spec_tokenize(input@)->Ok_0,
        ),
        spec_tokenize(input@) is Err ==> r is Err && r->Err_0@ == spec_tokenize(input@)->Err_0,
{
    match tokenize(input) {
        Ok(tokens) => Ok(reconstruct_json(&tokens)),
        Err(e) => Err(e),
    }
}

/// Clean dirty JSON with the two-stage path: build the structural index,
/// extract the token stream through it, then render that stream. The
/// extracted stream is, by contract, exactly the single-pass stream, so
/// this function is output-equivalent to `clean_dirty_json` on every
/// input: the same text on success, the same error otherwise.
pub fn clean_dirty_json_simd(input: &[u8]) -> (r: Result<Vec<u8>, ParseError>)
    ensures
        spec_parse_two_stage(input@) is Ok ==> r is Ok && r->Ok_0@ == spec_reconstruct(
            spec_parse_two_stage(input@)->Ok_0,
        ),
        spec_parse_two_stage(input@) is Err ==> r is Err && r->Err_0@ == spec_parse_two_stage(
            input@,
        )->Err_0,
{
    match parse_two_stage(input) {
        Ok(tokens) => Ok(reconstruct_json(&tokens)),
        Err(e) => Err(e),
    }
}

} // verus!
