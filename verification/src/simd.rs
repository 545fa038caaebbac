//! Structural character detection and the structural index.
//!
//! The scanner finds every occurrence of the eight structural bytes
//! (`{ } [ ] : , " '`) in the input, in ascending order. The index pairs each
//! found offset with its structural tag; the two-stage extractor walks the
//! index instead of rescanning the buffer.

use vstd::prelude::*;

verus! {

/// The eight structural bytes: `{ } [ ] : , " '`.
pub open spec fn is_structural(b: u8) -> bool {
    b == 123 || b == 125 || b == 91 || b == 93 || b == 58 || b == 44 || b == 34 || b == 39
}

/// The ascending sequence of offsets below `n` whose byte is structural.
pub open spec fn structural_positions_upto(s: Seq<u8>, n: int) -> Seq<int>
    decreases n,
{
    if n <= 0 {
        Seq::empty()
    } else if is_structural(s[n - 1]) {
        structural_positions_upto(s, n - 1).push(n - 1)
    } else {
        structural_positions_upto(s, n - 1)
    }
}

/// The ascending sequence of all structural offsets in `s`.
pub open spec fn structural_positions(s: Seq<u8>) -> Seq<int> {
    structural_positions_upto(s, s.len() as int)
}

/// A sequence of positions, viewed as mathematical integers.
pub open spec fn positions_view(v: Seq<usize>) -> Seq<int> {
    v.map_values(|p: usize| p as int)
}

pub proof fn lemma_structural_positions_upto_props(s: Seq<u8>, n: int)
    requires
        n <= s.len(),
    ensures
        forall|k: int|
            0 <= k < structural_positions_upto(s, n).len() ==> 0 <= #[trigger] structural_positions_upto(s, n)[k] < n
                && is_structural(s[structural_positions_upto(s, n)[k]]),
        forall|k1: int, k2: int|
            0 <= k1 < k2 < structural_positions_upto(s, n).len()
                ==> #[trigger] structural_positions_upto(s, n)[k1]
                < #[trigger] structural_positions_upto(s, n)[k2],
        forall|j: int|
            0 <= j < n && is_structural(s[j]) ==> structural_positions_upto(s, n).contains(j),
    decreases n,
{
    if n > 0 {
        lemma_structural_positions_upto_props(s, n - 1);
        let prev = structural_positions_upto(s, n - 1);
        let cur = structural_positions_upto(s, n);
        assert forall|j: int| 0 <= j < n && is_structural(s[j]) implies cur.contains(j) by {
            if j < n - 1 {
                assert(prev.contains(j));
                let k = choose|k: int| 0 <= k < prev.len() && prev[k] == j;
                if is_structural(s[n - 1]) {
                    assert(cur == prev.push(n - 1));
                    assert(cur[k] == prev[k]);
                } else {
                    assert(cur == prev);
                }
                assert(cur[k] == j);
            } else {
                assert(is_structural(s[n - 1]));
                assert(cur == prev.push(n - 1));
                assert(cur[cur.len() - 1] == j);
            }
        }
    }
}

/// Check if a byte is a structural character.
#[inline(always)]
pub fn is_structural_char(byte: u8) -> (r: bool)
    ensures
        r == is_structural(byte),
{
    byte == 123 || byte == 125 || byte == 91 || byte == 93 || byte == 58 || byte == 44
        || byte == 34 || byte == 39
}

/// Scalar scan: walk the buffer byte by byte and collect structural offsets.
pub fn find_structural_positions_scalar(input: &[u8]) -> (r: Vec<usize>)
    ensures
        positions_view(r@) == structural_positions(input@),
{
    let ghost s = input@;
    let mut positions: Vec<usize> = Vec::new();
    let mut i: usize = 0;
    assert(positions_view(positions@) =~= structural_positions_upto(s, 0));
    while i < input.len()
        invariant
            s == input@,
            i <= s.len(),
            positions_view(positions@) == structural_positions_upto(s, i as int),
        decreases input@.len() - i,
    {
        if is_structural_char(input[i]) {
            positions.push(i);
            assert(positions_view(positions@) =~= structural_positions_upto(s, i + 1));
        } else {
            assert(positions_view(positions@) =~= structural_positions_upto(s, i + 1));
        }
        i = i + 1;
    }
    positions
}

proof fn lemma_or_bit(a: u16, b: u16)
    ensures
        forall|k: u16|
            k < 16 ==> ((((a | b) >> k) & 1 == 1) <==> ((a >> k) & 1 == 1 || (b >> k) & 1 == 1)),
{
    assert(forall|k: u16|
        k < 16 ==> ((((a | b) >> k) & 1 == 1) <==> ((a >> k) & 1 == 1 || (b >> k) & 1 == 1)))
        by (bit_vector);
}

proof fn lemma_set_bit(m: u16, l: u16)
    requires
        l < 16,
    ensures
        ((m | (1u16 << l)) >> l) & 1 == 1,
        forall|b: u16| b < 16 && b != l ==> ((m | (1u16 << l)) >> b) & 1 == (m >> b) & 1,
{
    assert(((m | (1u16 << l)) >> l) & 1 == 1) by (bit_vector)
        requires
            l < 16,
    ;
    assert(forall|b: u16| b < 16 && b != l ==> ((m | (1u16 << l)) >> b) & 1 == (m >> b) & 1)
        by (bit_vector)
        requires
            l < 16,
    ;
}

/// One equality mask: bit `b` is set exactly when the byte at `base + b`
/// equals `target`.
fn eq_mask16(input: &[u8], base: usize, target: u8) -> (m: u16)
    requires
        base + 16 <= input@.len(),
    ensures
        forall|b: u16| b < 16 ==> (((m >> b) & 1 == 1) <==> input@[base + b] == target),
{
    let ghost s = input@;
    let n = input.len();
    let mut m: u16 = 0;
    let mut lane: u16 = 0;
    assert(forall|b: u16| b < 16 ==> (0u16 >> b) & 1 == 0) by (bit_vector);
    while lane < 16
        invariant
            s == input@,
            n == s.len(),
            base + 16 <= s.len(),
            lane <= 16,
            forall|b: u16| b < lane ==> (((m >> b) & 1 == 1) <==> s[base + b] == target),
            forall|b: u16| lane <= b < 16 ==> (m >> b) & 1 == 0,
        decreases 16 - lane,
    {
        let ghost m0 = m;
        let ghost lane0 = lane;
        let hit = input[base + (lane as usize)] == target;
        if hit {
            proof {
                lemma_set_bit(m, lane);
            }
            m = m | (1u16 << lane);
        }
        proof {
            assert forall|b: u16| b < lane0 + 1 implies (((m >> b) & 1 == 1) <==> s[base + b]
                == target) by {
                if hit {
                    if b < lane0 {
                        assert((m >> b) & 1 == (m0 >> b) & 1);
                        assert((((m0 >> b) & 1 == 1) <==> s[base + b] == target));
                    } else {
                        assert((m >> lane0) & 1 == 1);
                    }
                } else {
                    if b == lane0 {
                        assert((m >> lane0) & 1 == 0);
                    } else {
                        assert((((m >> b) & 1 == 1) <==> s[base + b] == target));
                    }
                }
            }
            assert forall|b: u16| lane0 + 1 <= b < 16 implies (m >> b) & 1 == 0 by {
                if hit {
                    assert((m >> b) & 1 == (m0 >> b) & 1);
                    assert((m0 >> b) & 1 == 0);
                } else {
                    assert((m >> b) & 1 == 0);
                }
            }
        }
        lane = lane + 1;
    }
    m
}

/// The structural mask of one 16-byte chunk: one equality mask per
/// structural character, all OR-ed together.
fn structural_mask16(input: &[u8], base: usize) -> (m: u16)
    requires
        base + 16 <= input@.len(),
    ensures
        forall|b: u16| b < 16 ==> (((m >> b) & 1 == 1) <==> is_structural(input@[base + b])),
{
    let brace_open = eq_mask16(input, base, 123);
    let brace_close = eq_mask16(input, base, 125);
    let bracket_open = eq_mask16(input, base, 91);
    let bracket_close = eq_mask16(input, base, 93);
    let colon = eq_mask16(input, base, 58);
    let comma = eq_mask16(input, base, 44);
    let quote = eq_mask16(input, base, 34);
    let single_quote = eq_mask16(input, base, 39);

    let braces = brace_open | brace_close;
    let brackets = bracket_open | bracket_close;
    let separators = colon | comma;
    let quotes = quote | single_quote;
    let structural1 = braces | brackets;
    let structural2 = separators | quotes;
    let structural = structural1 | structural2;
    proof {
        lemma_or_bit(brace_open, brace_close);
        lemma_or_bit(bracket_open, bracket_close);
        lemma_or_bit(colon, comma);
        lemma_or_bit(quote, single_quote);
        lemma_or_bit(braces, brackets);
        lemma_or_bit(separators, quotes);
        lemma_or_bit(structural1, structural2);
        let s = input@;
        assert forall|b: u16| b < 16 implies (((structural >> b) & 1 == 1) <==> is_structural(
            s[base + b],
        )) by {
            assert(((brace_open >> b) & 1 == 1) <==> s[base + b] == 123);
            assert(((brace_close >> b) & 1 == 1) <==> s[base + b] == 125);
            assert(((bracket_open >> b) & 1 == 1) <==> s[base + b] == 91);
            assert(((bracket_close >> b) & 1 == 1) <==> s[base + b] == 93);
            assert(((colon >> b) & 1 == 1) <==> s[base + b] == 58);
            assert(((comma >> b) & 1 == 1) <==> s[base + b] == 44);
            assert(((quote >> b) & 1 == 1) <==> s[base + b] == 34);
            assert(((single_quote >> b) & 1 == 1) <==> s[base + b] == 39);
            assert(((braces >> b) & 1 == 1) <==> ((brace_open >> b) & 1 == 1 || (brace_close >> b)
                & 1 == 1));
            assert(((brackets >> b) & 1 == 1) <==> ((bracket_open >> b) & 1 == 1 || (bracket_close
                >> b) & 1 == 1));
            assert(((separators >> b) & 1 == 1) <==> ((colon >> b) & 1 == 1 || (comma >> b) & 1
                == 1));
            assert(((quotes >> b) & 1 == 1) <==> ((quote >> b) & 1 == 1 || (single_quote >> b) & 1
                == 1));
            assert(((structural1 >> b) & 1 == 1) <==> ((braces >> b) & 1 == 1 || (brackets >> b)
                & 1 == 1));
            assert(((structural2 >> b) & 1 == 1) <==> ((separators >> b) & 1 == 1 || (quotes >> b)
                & 1 == 1));
            assert(((structural >> b) & 1 == 1) <==> ((structural1 >> b) & 1 == 1 || (structural2
                >> b) & 1 == 1));
        }
    }
    structural
}

/// Lane-parallel scan: process the buffer in 16-byte chunks, build one
/// equality mask per structural character against each chunk, OR the masks
/// into a per-byte bitmask, and append every set bit's absolute offset in
/// ascending order; any remainder is scanned byte by byte. Returns exactly
/// what the scalar scan returns.
pub fn find_structural_positions_simd(input: &[u8]) -> (r: Vec<usize>)
    ensures
        positions_view(r@) == structural_positions(input@),
{
    let ghost s = input@;
    let len = input.len();
    let mut positions: Vec<usize> = Vec::new();
    let mut i: usize = 0;
    assert(positions_view(positions@) =~= structural_positions_upto(s, 0));
    while 16 <= len - i
        invariant
            s == input@,
            len == s.len(),
            i <= len,
            positions_view(positions@) == structural_positions_upto(s, i as int),
        decreases len - i,
    {
        let mask = structural_mask16(input, i);
        let mut bit: u16 = 0;
        while bit < 16
            invariant
                s == input@,
                len == s.len(),
                i + 16 <= len,
                bit <= 16,
                forall|b: u16| b < 16 ==> (((mask >> b) & 1 == 1) <==> is_structural(s[i + b])),
                positions_view(positions@) == structural_positions_upto(s, i + bit),
            decreases 16 - bit,
        {
            if (mask >> bit) & 1 == 1 {
                positions.push(i + (bit as usize));
                assert(positions_view(positions@) =~= structural_positions_upto(s, i + bit + 1));
            } else {
                assert(positions_view(positions@) =~= structural_positions_upto(s, i + bit + 1));
            }
            bit = bit + 1;
        }
        i = i + 16;
    }
    while i < len
        invariant
            s == input@,
            len == s.len(),
            i <= len,
            positions_view(positions@) == structural_positions_upto(s, i as int),
        decreases len - i,
    {
        if is_structural_char(input[i]) {
            positions.push(i);
            assert(positions_view(positions@) =~= structural_positions_upto(s, i + 1));
        } else {
            assert(positions_view(positions@) =~= structural_positions_upto(s, i + 1));
        }
        i = i + 1;
    }
    positions
}

/// Both scanner entry points return the same offsets, in the same order, for
/// every byte buffer.
pub proof fn lemma_scanner_equivalence(input: Seq<u8>, simd_out: Seq<usize>, scalar_out: Seq<usize>)
    requires
        positions_view(simd_out) == structural_positions(input),
        positions_view(scalar_out) == structural_positions(input),
    ensures
        simd_out == scalar_out,
{
    assert(positions_view(simd_out).len() == simd_out.len());
    assert(positions_view(scalar_out).len() == scalar_out.len());
    assert forall|k: int| 0 <= k < simd_out.len() implies simd_out[k] == scalar_out[k] by {
        assert(positions_view(simd_out)[k] == simd_out[k] as int);
        assert(positions_view(scalar_out)[k] == scalar_out[k] as int);
    }
    assert(simd_out =~= scalar_out);
}

/// Structural character tags.
#[derive(Debug, Clone, Copy, PartialEq, Eq, Structural)]
pub enum StructType {
    BraceOpen,
    BraceClose,
    BracketOpen,
    BracketClose,
    Colon,
    Comma,
    Quote,
    SingleQuote,
}

/// The tag of a structural byte, `None` for any other byte.
pub open spec fn struct_type_of(b: u8) -> Option<StructType> {
    if b == 123 {
        Some(StructType::BraceOpen)
    } else if b == 125 {
        Some(StructType::BraceClose)
    } else if b == 91 {
        Some(StructType::BracketOpen)
    } else if b == 93 {
        Some(StructType::BracketClose)
    } else if b == 58 {
        Some(StructType::Colon)
    } else if b == 44 {
        Some(StructType::Comma)
    } else if b == 34 {
        Some(StructType::Quote)
    } else if b == 39 {
        Some(StructType::SingleQuote)
    } else {
        None
    }
}

impl StructType {
    /// Get the structural tag of a byte.
    #[inline]
    pub fn from_byte(byte: u8) -> (r: Option<StructType>)
        ensures
            r == struct_type_of(byte),
    {
        if byte == 123 {
            Some(StructType::BraceOpen)
        } else if byte == 125 {
            Some(StructType::BraceClose)
        } else if byte == 91 {
            Some(StructType::BracketOpen)
        } else if byte == 93 {
            Some(StructType::BracketClose)
        } else if byte == 58 {
            Some(StructType::Colon)
        } else if byte == 44 {
            Some(StructType::Comma)
        } else if byte == 34 {
            Some(StructType::Quote)
        } else if byte == 39 {
            Some(StructType::SingleQuote)
        } else {
            None
        }
    }
}

/// The structural index: every structural offset of an input, in ascending
/// order, each paired with its tag.
pub struct StructuralIndex {
    pub positions: Vec<usize>,
    pub types: Vec<StructType>,
}

impl StructuralIndex {
    /// The index describes `s`: the offsets are exactly the structural
    /// offsets of `s`, ascending, and each tag matches its offset's byte.
    pub open spec fn wf(&self, s: Seq<u8>) -> bool {
        &&& positions_view(self.positions@) == structural_positions(s)
        &&& self.types@.len() == self.positions@.len()
        &&& forall|k: int|
            0 <= k < self.types@.len() ==> Some(#[trigger] self.types@[k]) == struct_type_of(
                s[self.positions@[k] as int],
            )
    }

    /// Build the structural index of an input.
    pub fn build(input: &[u8]) -> (r: StructuralIndex)
        ensures
            r.wf(input@),
    {
        let ghost s = input@;
        let positions = find_structural_positions_simd(input);
        proof {
            lemma_structural_positions_upto_props(s, s.len() as int);
            assert forall|k: int|
                0 <= k < positions@.len() implies 0 <= #[trigger] positions@[k] < s.len()
                && is_structural(s[positions@[k] as int]) by {
                assert(positions_view(positions@)[k] == positions@[k] as int);
                assert(0 <= structural_positions(s)[k] < s.len());
            }
        }
        let mut types: Vec<StructType> = Vec::new();
        let n = positions.len();
        let mut i: usize = 0;
        while i < n
            invariant
                s == input@,
                n == positions@.len(),
                positions_view(positions@) == structural_positions(s),
                i <= n,
                types@.len() == i,
                forall|k: int|
                    0 <= k < i ==> Some(#[trigger] types@[k]) == struct_type_of(
                        s[positions@[k] as int],
                    ),
                forall|k: int|
                    0 <= k < n ==> 0 <= #[trigger] positions@[k] < s.len() && is_structural(
                        s[positions@[k] as int],
                    ),
            decreases n - i,
        {
            let p = positions[i];
            match StructType::from_byte(input[p]) {
                Some(t) => {
                    types.push(t);
                },
                None => {
                    assert(false);
                },
            }
            i = i + 1;
        }
        StructuralIndex { positions, types }
    }

    /// The number of structural characters.
    #[inline]
    pub fn len(&self) -> (r: usize)
        ensures
            r == self.positions@.len(),
    {
        self.positions.len()
    }

    /// Check if the index is empty.
    #[inline]
    pub fn is_empty(&self) -> (r: bool)
        ensures
            r == (self.positions@.len() == 0),
    {
        self.positions.is_empty()
    }

    /// Get the offset and tag at `index`, or `None` past the end.
    #[inline]
    pub fn get(&self, index: usize) -> (r: Option<(usize, StructType)>)
        requires
            self.types@.len() == self.positions@.len(),
        ensures
            index < self.positions@.len() ==> r == Some(
                (self.positions@[index as int], self.types@[index as int]),
            ),
            index >= self.positions@.len() ==> r is None,
    {
        if index < self.len() {
            Some((self.positions[index], self.types[index]))
        } else {
            None
        }
    }
}

} // verus!
