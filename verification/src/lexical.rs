//! Character classification and the whitespace/comment skipper shared by both
//! tokenizer paths. The skipper works on a bounded byte range, so it serves
//! both the full-buffer single-pass tokenizer and the gap scans of the
//! two-stage extractor.

use vstd::prelude::*;

verus! {

use vstd::string::StringSliceAdditionalSpecFns;

// ---------------------------------------------------------------------------
// Byte classification, in specification form.
// ---------------------------------------------------------------------------

/// Whitespace: space, tab, line feed, carriage return.
pub open spec fn is_ws_byte(b: u8) -> bool {
    b == 32 || b == 9 || b == 10 || b == 13
}

pub open spec fn is_digit_byte(b: u8) -> bool {
    48 <= b <= 57
}

pub open spec fn is_hex_digit_byte(b: u8) -> bool {
    48 <= b <= 57 || 65 <= b <= 70 || 97 <= b <= 102
}

pub open spec fn is_alpha_byte(b: u8) -> bool {
    65 <= b <= 90 || 97 <= b <= 122
}

/// Bytes that may start an identifier: letters, `_`, `$`.
pub open spec fn is_ident_start_byte(b: u8) -> bool {
    is_alpha_byte(b) || b == 95 || b == 36
}

/// Bytes that may continue an identifier: letters, digits, `_`, `$`.
pub open spec fn is_ident_char_byte(b: u8) -> bool {
    is_alpha_byte(b) || is_digit_byte(b) || b == 95 || b == 36
}

/// Bytes consumed greedily inside a non-hex number literal.
pub open spec fn is_number_char_byte(b: u8) -> bool {
    is_digit_byte(b) || b == 46 || b == 101 || b == 69 || b == 43 || b == 45
}

// ---------------------------------------------------------------------------
// Public character classifiers.
// ---------------------------------------------------------------------------

/// Check if a character is whitespace.
pub fn is_whitespace(c: char) -> (r: bool)
    ensures
        r == (c == ' ' || c == '\t' || c == '\n' || c == '\r'),
{
    c == ' ' || c == '\t' || c == '\n' || c == '\r'
}

/// Check if a character is a decimal digit.
pub fn is_digit(c: char) -> (r: bool)
    ensures
        r == (48 <= c as u32 <= 57),
{
    let u = c as u32;
    48 <= u && u <= 57
}

/// Check if a character can start an identifier.
pub fn is_identifier_start(c: char) -> (r: bool)
    ensures
        r == (65 <= c as u32 <= 90 || 97 <= c as u32 <= 122 || c == '_' || c == '$'),
{
    let u = c as u32;
    (65 <= u && u <= 90) || (97 <= u && u <= 122) || c == '_' || c == '$'
}

/// Check if a character can be part of an identifier.
pub fn is_identifier_char(c: char) -> (r: bool)
    ensures
        r == (65 <= c as u32 <= 90 || 97 <= c as u32 <= 122 || 48 <= c as u32 <= 57 || c == '_'
            || c == '$'),
{
    let u = c as u32;
    (65 <= u && u <= 90) || (97 <= u && u <= 122) || (48 <= u && u <= 57) || c == '_' || c == '$'
}

// ---------------------------------------------------------------------------
// Skipping whitespace and comments, in specification form.
// ---------------------------------------------------------------------------

/// The position where a line comment opened before `pos` ends: the first
/// line-feed byte at or after `pos`, or `end` if there is none.
pub open spec fn find_line_end(s: Seq<u8>, pos: int, end: int) -> int
    decreases end - pos,
{
    if pos < 0 || pos >= end {
        pos
    } else if s[pos] == 10 {
        pos
    } else {
        find_line_end(s, pos + 1, end)
    }
}

/// The position just past the `*/` that closes a block comment whose body
/// starts at `pos`. An unterminated comment ends at the last position from
/// which no two-byte `*/` fits before `end`.
pub open spec fn find_block_end(s: Seq<u8>, pos: int, end: int) -> int
    decreases end - pos,
{
    if pos < 0 || pos + 1 >= end {
        pos
    } else if s[pos] == 42 && s[pos + 1] == 47 {
        pos + 2
    } else {
        find_block_end(s, pos + 1, end)
    }
}

pub proof fn lemma_find_line_end_bounds(s: Seq<u8>, pos: int, end: int)
    ensures
        find_line_end(s, pos, end) >= pos,
        pos <= end ==> find_line_end(s, pos, end) <= end,
    decreases end - pos,
{
    if 0 <= pos < end {
        if s[pos] != 10 {
            lemma_find_line_end_bounds(s, pos + 1, end);
        }
    }
}

pub proof fn lemma_find_block_end_bounds(s: Seq<u8>, pos: int, end: int)
    ensures
        find_block_end(s, pos, end) >= pos,
        pos <= end ==> find_block_end(s, pos, end) <= end,
    decreases end - pos,
{
    if 0 <= pos && pos + 1 < end {
        if !(s[pos] == 42 && s[pos + 1] == 47) {
            lemma_find_block_end_bounds(s, pos + 1, end);
        }
    }
}

/// The position of the first byte at or after `pos` that is neither
/// whitespace nor part of a `//` or `/*` comment, bounded by `end`.
pub open spec fn spec_skip_ws(s: Seq<u8>, pos: int, end: int) -> int
    decreases end - pos,
        when true
    via spec_skip_ws_decreases
{
    if pos < 0 || pos >= end {
        pos
    } else if is_ws_byte(s[pos]) {
        spec_skip_ws(s, pos + 1, end)
    } else if s[pos] == 47 && pos + 1 < end && s[pos + 1] == 47 {
        spec_skip_ws(s, find_line_end(s, pos + 2, end), end)
    } else if s[pos] == 47 && pos + 1 < end && s[pos + 1] == 42 {
        spec_skip_ws(s, find_block_end(s, pos + 2, end), end)
    } else {
        pos
    }
}

#[via_fn]
proof fn spec_skip_ws_decreases(s: Seq<u8>, pos: int, end: int) {
    lemma_find_line_end_bounds(s, pos + 2, end);
    lemma_find_block_end_bounds(s, pos + 2, end);
}

pub proof fn lemma_spec_skip_ws_bounds(s: Seq<u8>, pos: int, end: int)
    requires
        0 <= pos,
    ensures
        pos <= spec_skip_ws(s, pos, end),
        pos <= end ==> spec_skip_ws(s, pos, end) <= end,
    decreases end - pos,
{
    if pos < end {
        if is_ws_byte(s[pos]) {
            lemma_spec_skip_ws_bounds(s, pos + 1, end);
        } else if s[pos] == 47 && pos + 1 < end && s[pos + 1] == 47 {
            lemma_find_line_end_bounds(s, pos + 2, end);
            lemma_spec_skip_ws_bounds(s, find_line_end(s, pos + 2, end), end);
        } else if s[pos] == 47 && pos + 1 < end && s[pos + 1] == 42 {
            lemma_find_block_end_bounds(s, pos + 2, end);
            lemma_spec_skip_ws_bounds(s, find_block_end(s, pos + 2, end), end);
        }
    }
}

// ---------------------------------------------------------------------------
// Executable skipper.
// ---------------------------------------------------------------------------

/// Skip whitespace and comments within `input[..end]`, starting at `start`.
pub fn skip_whitespace_and_comments_range(input: &[u8], start: usize, end: usize) -> (r: usize)
    requires
        end <= input@.len(),
    ensures
        r == spec_skip_ws(input@, start as int, end as int),
        start <= r,
        start <= end ==> r <= end,
{
    let ghost s = input@;
    let mut pos = start;
    proof {
        lemma_spec_skip_ws_bounds(s, start as int, end as int);
    }
    while pos < end
        invariant
            end <= s.len(),
            s == input@,
            start <= pos,
            spec_skip_ws(s, start as int, end as int) == spec_skip_ws(s, pos as int, end as int),
        decreases end - pos,
    {
        let c = input[pos];
        if c == 32 || c == 9 || c == 10 || c == 13 {
            assert(spec_skip_ws(s, pos as int, end as int) == spec_skip_ws(
                s,
                pos as int + 1,
                end as int,
            ));
            pos = pos + 1;
        } else if c == 47 && pos + 1 < end && input[pos + 1] == 47 {
            let ghost p0 = pos as int;
            assert(spec_skip_ws(s, p0, end as int) == spec_skip_ws(
                s,
                find_line_end(s, p0 + 2, end as int),
                end as int,
            ));
            pos = pos + 2;
            while pos < end && input[pos] != 10
                invariant
                    end <= s.len(),
                    s == input@,
                    p0 + 2 <= pos,
                    pos <= end,
                    find_line_end(s, p0 + 2, end as int) == find_line_end(
                        s,
                        pos as int,
                        end as int,
                    ),
                decreases end - pos,
            {
                pos = pos + 1;
            }
            assert(find_line_end(s, pos as int, end as int) == pos as int);
            proof {
                lemma_spec_skip_ws_bounds(s, pos as int, end as int);
            }
        } else if c == 47 && pos + 1 < end && input[pos + 1] == 42 {
            let ghost p0 = pos as int;
            assert(spec_skip_ws(s, p0, end as int) == spec_skip_ws(
                s,
                find_block_end(s, p0 + 2, end as int),
                end as int,
            ));
            pos = pos + 2;
            while pos < end - 1 && !(input[pos] == 42 && input[pos + 1] == 47)
                invariant
                    end <= s.len(),
                    2 <= end,
                    s == input@,
                    p0 + 2 <= pos,
                    pos <= end,
                    find_block_end(s, p0 + 2, end as int) == find_block_end(
                        s,
                        pos as int,
                        end as int,
                    ),
                decreases end - pos,
            {
                pos = pos + 1;
            }
            if pos < end - 1 {
                assert(find_block_end(s, pos as int, end as int) == pos as int + 2);
                pos = pos + 2;
            } else {
                assert(find_block_end(s, pos as int, end as int) == pos as int);
            }
            proof {
                lemma_spec_skip_ws_bounds(s, pos as int, end as int);
            }
        } else {
            assert(spec_skip_ws(s, pos as int, end as int) == pos as int);
            return pos;
        }
    }
    assert(spec_skip_ws(s, pos as int, end as int) == pos as int);
    pos
}

/// Skip whitespace and comments over the whole input, starting at `pos`.
pub fn skip_whitespace_and_comments(input: &str, pos: usize) -> (r: usize)
    ensures
        r == spec_skip_ws(input.spec_bytes(), pos as int, input.spec_bytes().len() as int),
        pos <= r <= input.spec_bytes().len() || (pos > input.spec_bytes().len() && r == pos),
{
    let bytes = input.as_bytes();
    let end = bytes.len();
    skip_whitespace_and_comments_range(bytes, pos, end)
}

} // verus!
