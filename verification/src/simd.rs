//! Finding the text that a width policy leaves alone, a block at a time.
//!
//! Whether a character of one byte changes its width is decided by three answers:
//! whether letters, digits and symbols are made wide. That makes eight sets of bytes
//! that pass through, each of them a table of sixteen bytes: bit `hi` of row `lo` is
//! set where the byte `hi << 4 | lo` passes. A block of bytes is classified with two
//! lookups for each byte and an `and` of the two; bytes of longer characters never
//! pass, so a run that passes ends between two characters.

use crate::editing;
use crate::settings::Mode;
use crate::strings;
use crate::width::Normalizer;
use vstd::prelude::*;
#[allow(unused_imports)]
use vstd::utf8::*;

verus! {

/// A set of bytes that pass through, by low nibble: bit `hi` of row `lo` is set where
/// the byte `hi << 4 | lo` passes.
pub type Lut = [u8; 16];

/// The bit of each high nibble that a character of one byte can have, and zero for
/// the others.
pub const BIT_LUT: Lut = [1, 2, 4, 8, 16, 32, 64, 128, 0, 0, 0, 0, 0, 0, 0, 0];

/// The number of bytes from which a text is scanned in blocks.
pub const MIN_VECTOR_BYTES: usize = 16;

/// The sets of bytes that pass through. Letters are made wide in the last four, digits
/// in the last two of each four, and symbols in every other one.
const LUTS: [Lut; 8] = [
    [
        0xff, 0xff, 0xff, 0xff, 0xff, 0xff, 0xff, 0xff,
        0xff, 0xff, 0xff, 0xff, 0xff, 0xff, 0xff, 0xff,
    ],
    [
        0xab, 0xfb, 0xfb, 0xfb, 0xfb, 0xfb, 0xfb, 0xfb,
        0xfb, 0xfb, 0xf3, 0x53, 0x53, 0x53, 0x53, 0xd3,
    ],
    [
        0xf7, 0xf7, 0xf7, 0xf7, 0xf7, 0xf7, 0xf7, 0xf7,
        0xf7, 0xf7, 0xff, 0xff, 0xff, 0xff, 0xff, 0xff,
    ],
    [
        0xa3, 0xf3, 0xf3, 0xf3, 0xf3, 0xf3, 0xf3, 0xf3,
        0xf3, 0xf3, 0xf3, 0x53, 0x53, 0x53, 0x53, 0xd3,
    ],
    [
        0x5f, 0x0f, 0x0f, 0x0f, 0x0f, 0x0f, 0x0f, 0x0f,
        0x0f, 0x0f, 0x0f, 0xaf, 0xaf, 0xaf, 0xaf, 0xaf,
    ],
    [
        0x0b, 0x0b, 0x0b, 0x0b, 0x0b, 0x0b, 0x0b, 0x0b,
        0x0b, 0x0b, 0x03, 0x03, 0x03, 0x03, 0x03, 0x83,
    ],
    [
        0x57, 0x07, 0x07, 0x07, 0x07, 0x07, 0x07, 0x07,
        0x07, 0x07, 0x0f, 0xaf, 0xaf, 0xaf, 0xaf, 0xaf,
    ],
    [
        0x03, 0x03, 0x03, 0x03, 0x03, 0x03, 0x03, 0x03,
        0x03, 0x03, 0x03, 0x03, 0x03, 0x03, 0x03, 0x83,
    ],
];

/// Whether a policy leaves a character of one byte alone: letters, digits and symbols
/// go by their own answers, and control characters always stay.
pub open spec fn passes(b: u8, full_alpha: bool, full_digit: bool, full_symbol: bool) -> bool {
    if 0x41 <= b && b <= 0x5a || 0x61 <= b && b <= 0x7a {
        !full_alpha
    } else if 0x30 <= b && b <= 0x39 {
        !full_digit
    } else if 0x20 <= b && b <= 0x7e {
        !full_symbol
    } else {
        true
    }
}

/// Whether a table says that a byte passes through.
pub open spec fn admitted(lut: Seq<u8>, b: u8) -> bool {
    b < 0x80 && lut[(b & 0x0f) as int] & (1u8 << (b >> 4u8)) != 0
}

/// Whether a table is the set of a policy.
pub open spec fn is_set_of(lut: Seq<u8>, full_alpha: bool, full_digit: bool, full_symbol: bool) -> bool {
    forall|b: u8|
        #[trigger] admitted(lut, b) == (b < 0x80 && passes(
            b,
            full_alpha,
            full_digit,
            full_symbol,
        ))
}

/// Whether so many bytes, and no more, pass through at the start of a text.
pub open spec fn is_run(src: Seq<u8>, lut: Seq<u8>, n: int) -> bool {
    &&& 0 <= n <= src.len()
    &&& forall|i: int| 0 <= i < n ==> admitted(lut, #[trigger] src[i])
    &&& n < src.len() ==> !admitted(lut, src[n])
}

// ---------------------------------------------------------------------------
// The tables.

/// The row of a policy for a low nibble: control characters, letters, digits, and
/// symbols.
spec fn row(full_alpha: bool, full_digit: bool, full_symbol: bool, lo: u8) -> u8 {
    let control: u8 = if lo == 15 {
        0x83
    } else {
        0x03
    };
    let alpha: u8 = if full_alpha {
        0
    } else if lo == 0 {
        0xa0
    } else if lo <= 10 {
        0xf0
    } else {
        0x50
    };
    let digit: u8 = if !full_digit && lo <= 9 {
        0x08
    } else {
        0
    };
    let symbol: u8 = if full_symbol {
        0
    } else if lo == 0 {
        0x54
    } else if lo <= 9 {
        0x04
    } else if lo == 10 {
        0x0c
    } else if lo <= 14 {
        0xac
    } else {
        0x2c
    };
    (control + alpha + digit + symbol) as u8
}

/// Every row is in its table.
proof fn lemma_table(full_alpha: bool, full_digit: bool, full_symbol: bool, lo: u8)
    requires
        lo < 16,
    ensures
        LUTS@[lut_index_of(full_alpha, full_digit, full_symbol)]@[lo as int] == row(
            full_alpha,
            full_digit,
            full_symbol,
            lo,
        ),
{
}

/// Every row has the bits of the bytes that pass.
proof fn lemma_row(full_alpha: bool, full_digit: bool, full_symbol: bool, b: u8)
    requires
        b < 0x80,
    ensures
        (row(full_alpha, full_digit, full_symbol, b & 0x0f) & (1u8 << (b >> 4u8)) != 0) == passes(
            b,
            full_alpha,
            full_digit,
            full_symbol,
        ),
{
    assert((row(full_alpha, full_digit, full_symbol, b & 0x0f) & (1u8 << (b >> 4u8)) != 0)
        == passes(b, full_alpha, full_digit, full_symbol)) by (bit_vector)
        requires
            b < 0x80,
    ;
}

/// A low nibble is below sixteen, and so is a high one.
proof fn lemma_nibbles(b: u8)
    ensures
        b & 0x0f < 16,
        b >> 4u8 < 16,
        b < 0x80 ==> b >> 4u8 < 8,
        b >= 0x80 ==> b >> 4u8 >= 8,
{
    assert(b & 0x0f < 16 && b >> 4u8 < 16 && (b < 0x80 ==> b >> 4u8 < 8) && (b >= 0x80 ==> b >> 4u8
        >= 8)) by (bit_vector);
}

/// The position of the table of a policy.
pub open spec fn lut_index_of(full_alpha: bool, full_digit: bool, full_symbol: bool) -> int {
    (if full_alpha {
        4int
    } else {
        0
    }) + (if full_digit {
        2int
    } else {
        0
    }) + (if full_symbol {
        1int
    } else {
        0
    })
}

/// Every table is the set of its policy.
proof fn lemma_tables(full_alpha: bool, full_digit: bool, full_symbol: bool)
    ensures
        is_set_of(
            LUTS@[lut_index_of(full_alpha, full_digit, full_symbol)]@,
            full_alpha,
            full_digit,
            full_symbol,
        ),
{
    assert forall|b: u8| #[trigger]
        admitted(LUTS@[lut_index_of(full_alpha, full_digit, full_symbol)]@, b) == (b < 0x80
            && passes(b, full_alpha, full_digit, full_symbol)) by {
        lemma_nibbles(b);
        lemma_table(full_alpha, full_digit, full_symbol, b & 0x0f);
        if b < 0x80 {
            lemma_row(full_alpha, full_digit, full_symbol, b);
        }
    }
}

/// The position of the table of a policy.
fn lut_index(full_alpha: bool, full_digit: bool, full_symbol: bool) -> (r: usize)
    ensures
        r == lut_index_of(full_alpha, full_digit, full_symbol),
        r < 8,
{
    let alpha: usize = if full_alpha {
        4
    } else {
        0
    };
    let digit: usize = if full_digit {
        2
    } else {
        0
    };
    let symbol: usize = if full_symbol {
        1
    } else {
        0
    };
    alpha + digit + symbol
}

/// Whether a policy leaves a character of one byte alone.
pub fn passes_through(b: u8, full_alpha: bool, full_digit: bool, full_symbol: bool) -> (r: bool)
    ensures
        r == passes(b, full_alpha, full_digit, full_symbol),
{
    if 0x41 <= b && b <= 0x5a || 0x61 <= b && b <= 0x7a {
        !full_alpha
    } else if 0x30 <= b && b <= 0x39 {
        !full_digit
    } else if 0x20 <= b && b <= 0x7e {
        !full_symbol
    } else {
        true
    }
}

/// The set of bytes that a policy leaves alone.
pub fn passthrough_lut(full_alpha: bool, full_digit: bool, full_symbol: bool) -> (r: &'static Lut)
    ensures
        is_set_of(r@, full_alpha, full_digit, full_symbol),
{
    proof {
        lemma_tables(full_alpha, full_digit, full_symbol);
    }
    &LUTS[lut_index(full_alpha, full_digit, full_symbol)]
}

/// Whether a table says that a byte passes through.
pub fn admits(lut: &Lut, b: u8) -> (r: bool)
    ensures
        r == admitted(lut@, b),
{
    proof {
        lemma_nibbles(b);
    }
    b < 0x80 && (lut[(b & 0x0f) as usize] & (1u8 << (b >> 4u8))) != 0
}

// ---------------------------------------------------------------------------
// Blocks.

/// Whether a bit of a mask is set.
spec fn bit(mask: u64, j: u64) -> bool {
    (mask >> j) & 1 == 1
}

/// Setting a bit leaves the others as they were.
proof fn lemma_set_bit(mask: u64, k: u64, j: u64)
    requires
        k < 64,
        j < 64,
    ensures
        bit(mask | (1u64 << k), j) == (j == k || bit(mask, j)),
{
    assert(((mask | (1u64 << k)) >> j) & 1 == 1 <==> (j == k || (mask >> j) & 1 == 1)) by (bit_vector)
        requires
            k < 64,
            j < 64,
    ;
}

/// No bit of nothing is set.
proof fn lemma_no_bit(j: u64)
    requires
        j < 64,
    ensures
        !bit(0, j),
{
    assert((0u64 >> j) & 1 == 0) by (bit_vector)
        requires
            j < 64,
    ;
}

/// The two lookups agree with what a table says of a byte.
proof fn lemma_hit(lut: Seq<u8>, b: u8)
    ensures
        (lut[(b & 0x0f) as int] & BIT_LUT@[(b >> 4u8) as int] != 0) == admitted(lut, b),
{
    lemma_nibbles(b);
    let hi = b >> 4u8;
    let row = lut[(b & 0x0f) as int];
    assert(row & 0 == 0) by (bit_vector);
    assert(hi < 8 ==> (1u8 << hi) == (if hi == 0 {
        1u8
    } else if hi == 1 {
        2
    } else if hi == 2 {
        4
    } else if hi == 3 {
        8
    } else if hi == 4 {
        16
    } else if hi == 5 {
        32
    } else if hi == 6 {
        64
    } else {
        128
    })) by (bit_vector);
}

/// The bytes of a block that do not pass through, the first of them in the lowest bit.
fn stop_mask(src: &[u8], at: usize, lanes: usize, lut: &Lut) -> (mask: u64)
    requires
        at + lanes <= src@.len(),
        lanes <= 64,
    ensures
        forall|j: u64|
            #![trigger bit(mask, j)]
            j < 64 ==> bit(mask, j) == (j < lanes && !admitted(lut@, src@[at + j])),
{
    let len: usize = src.len();
    let mut mask: u64 = 0;
    let mut k: usize = 0;
    proof {
        assert forall|j: u64| j < 64 implies #[trigger] bit(mask, j) == false by {
            lemma_no_bit(j);
        }
    }
    while k < lanes
        invariant
            k <= lanes,
            lanes <= 64,
            at + lanes <= len,
            len == src@.len(),
            forall|j: u64|
                #![trigger bit(mask, j)]
                j < 64 ==> bit(mask, j) == (j < k && !admitted(lut@, src@[at + j])),
        decreases lanes - k,
    {
        let b: u8 = src[at + k];
        proof {
            lemma_nibbles(b);
            lemma_hit(lut@, b);
        }
        let hit: u8 = lut[(b & 0x0f) as usize] & BIT_LUT[(b >> 4u8) as usize];
        if hit == 0 {
            let ghost before = mask;
            mask = mask | (1u64 << (k as u64));
            proof {
                assert forall|j: u64| j < 64 implies #[trigger] bit(mask, j) == (j < k + 1
                    && !admitted(lut@, src@[at + j])) by {
                    lemma_set_bit(before, k as u64, j);
                }
            }
        }
        k = k + 1;
    }
    mask
}

/// Scans from a position in whole blocks. The flag says that the run ends there.
fn scan_blocks(src: &[u8], from: usize, lanes: usize, lut: &Lut) -> (r: (usize, bool))
    requires
        from <= src@.len(),
        1 <= lanes <= 64,
    ensures
        from <= r.0 <= src@.len(),
        forall|i: int| from <= i < r.0 ==> admitted(lut@, #[trigger] src@[i]),
        r.1 ==> r.0 < src@.len() && !admitted(lut@, src@[r.0 as int]),
{
    let mut at: usize = from;
    while src.len() - at >= lanes
        invariant
            from <= at <= src@.len(),
            1 <= lanes <= 64,
            forall|i: int| from <= i < at ==> admitted(lut@, #[trigger] src@[i]),
        decreases src@.len() - at,
    {
        let mask: u64 = stop_mask(src, at, lanes, lut);
        if mask != 0 {
            let first: u32 = mask.trailing_zeros();
            proof {
                assert(bit(mask, first as u64));
                assert forall|i: int| at <= i < at + first implies admitted(
                    lut@,
                    #[trigger] src@[i],
                ) by {
                    let j = (i - at) as u64;
                    assert((mask >> j) & 1 == 0);
                    assert(!bit(mask, j));
                }
            }
            return (at + first as usize, true);
        }
        proof {
            assert forall|i: int| at <= i < at + lanes implies admitted(
                lut@,
                #[trigger] src@[i],
            ) by {
                let j = (i - at) as u64;
                lemma_no_bit(j);
                assert(!bit(mask, j));
            }
        }
        at = at + lanes;
    }
    (at, false)
}

/// Scans from a position byte by byte.
fn scan_bytes(src: &[u8], from: usize, lut: &Lut) -> (r: usize)
    requires
        from <= src@.len(),
    ensures
        from <= r <= src@.len(),
        forall|i: int| from <= i < r ==> admitted(lut@, #[trigger] src@[i]),
        r < src@.len() ==> !admitted(lut@, src@[r as int]),
{
    let mut at: usize = from;
    while at < src.len() && admits(lut, src[at])
        invariant
            from <= at <= src@.len(),
            forall|i: int| from <= i < at ==> admitted(lut@, #[trigger] src@[i]),
        ensures
            at < src@.len() ==> !admitted(lut@, src@[at as int]),
        decreases src@.len() - at,
    {
        at = at + 1;
    }
    at
}

/// The length of the run at the start of a text, byte by byte.
pub fn scan_scalar(src: &[u8], lut: &Lut) -> (r: usize)
    ensures
        is_run(src@, lut@, r as int),
{
    scan_bytes(src, 0, lut)
}

/// The length of the run at the start of a text, in blocks of the width of an AVX
/// register.
pub fn scan_avx(src: &[u8], lut: &Lut) -> (r: usize)
    ensures
        is_run(src@, lut@, r as int),
{
    let (at, done) = scan_blocks(src, 0, 16, lut);
    if done {
        return at;
    }
    scan_bytes(src, at, lut)
}

/// The length of the run at the start of a text, in blocks of the width of an AVX2
/// register and then in narrower ones.
pub fn scan_avx2(src: &[u8], lut: &Lut) -> (r: usize)
    ensures
        is_run(src@, lut@, r as int),
{
    let (wide, done) = scan_blocks(src, 0, 32, lut);
    if done {
        return wide;
    }
    let (at, done) = scan_blocks(src, wide, 16, lut);
    if done {
        return at;
    }
    scan_bytes(src, at, lut)
}

/// The length of the run at the start of a text, in blocks of the width of an AVX-512
/// register and then in narrower ones.
pub fn scan_avx512(src: &[u8], lut: &Lut) -> (r: usize)
    ensures
        is_run(src@, lut@, r as int),
{
    let (widest, done) = scan_blocks(src, 0, 64, lut);
    if done {
        return widest;
    }
    let (wide, done) = scan_blocks(src, widest, 32, lut);
    if done {
        return wide;
    }
    let (at, done) = scan_blocks(src, wide, 16, lut);
    if done {
        return at;
    }
    scan_bytes(src, at, lut)
}

/// How many bytes at the start of a text pass through. A short text is scanned byte by
/// byte.
pub fn passthrough_len(src: &[u8], lut: &Lut) -> (r: usize)
    ensures
        is_run(src@, lut@, r as int),
{
    if src.len() < MIN_VECTOR_BYTES {
        return scan_scalar(src, lut);
    }
    scan_avx512(src, lut)
}

// ---------------------------------------------------------------------------
// Laws.

/// Scans agree: a text has one run.
pub proof fn scans_agree(src: Seq<u8>, lut: Seq<u8>, m: int, n: int)
    requires
        is_run(src, lut, m),
        is_run(src, lut, n),
    ensures
        m == n,
{
    if m < n {
        assert(admitted(lut, src[m]));
    } else if n < m {
        assert(admitted(lut, src[n]));
    }
}

/// A policy has one table.
pub proof fn tables_are_unique(a: Lut, b: Lut, full_alpha: bool, full_digit: bool, full_symbol: bool)
    requires
        is_set_of(a@, full_alpha, full_digit, full_symbol),
        is_set_of(b@, full_alpha, full_digit, full_symbol),
    ensures
        a@ == b@,
{
    assert forall|lo: int| 0 <= lo < 16 implies a@[lo] == b@[lo] by {
        lemma_same_row(a@, b@, full_alpha, full_digit, full_symbol, lo as u8);
    }
    assert(a@ =~= b@);
}

/// A row is made of its eight bits.
proof fn lemma_same_row(
    a: Seq<u8>,
    b: Seq<u8>,
    full_alpha: bool,
    full_digit: bool,
    full_symbol: bool,
    lo: u8,
)
    requires
        is_set_of(a, full_alpha, full_digit, full_symbol),
        is_set_of(b, full_alpha, full_digit, full_symbol),
        lo < 16,
    ensures
        a[lo as int] == b[lo as int],
{
    let x = a[lo as int];
    let y = b[lo as int];
    assert forall|hi: u8| hi < 8 implies (x & #[trigger] (1u8 << hi) != 0) == (y & (1u8 << hi)
        != 0) by {
        let c = lo | (hi << 4u8);
        assert(c < 0x80 && c & 0x0f == lo && c >> 4u8 == hi) by (bit_vector)
            requires
                c == lo | (hi << 4u8),
                lo < 16,
                hi < 8,
        ;
        assert(admitted(a, c) == admitted(b, c));
    }
    assert((x & (1u8 << 0u8) != 0) == (y & (1u8 << 0u8) != 0));
    assert((x & (1u8 << 1u8) != 0) == (y & (1u8 << 1u8) != 0));
    assert((x & (1u8 << 2u8) != 0) == (y & (1u8 << 2u8) != 0));
    assert((x & (1u8 << 3u8) != 0) == (y & (1u8 << 3u8) != 0));
    assert((x & (1u8 << 4u8) != 0) == (y & (1u8 << 4u8) != 0));
    assert((x & (1u8 << 5u8) != 0) == (y & (1u8 << 5u8) != 0));
    assert((x & (1u8 << 6u8) != 0) == (y & (1u8 << 6u8) != 0));
    assert((x & (1u8 << 7u8) != 0) == (y & (1u8 << 7u8) != 0));
    assert(x == y) by (bit_vector)
        requires
            (x & (1u8 << 0u8) != 0) == (y & (1u8 << 0u8) != 0),
            (x & (1u8 << 1u8) != 0) == (y & (1u8 << 1u8) != 0),
            (x & (1u8 << 2u8) != 0) == (y & (1u8 << 2u8) != 0),
            (x & (1u8 << 3u8) != 0) == (y & (1u8 << 3u8) != 0),
            (x & (1u8 << 4u8) != 0) == (y & (1u8 << 4u8) != 0),
            (x & (1u8 << 5u8) != 0) == (y & (1u8 << 5u8) != 0),
            (x & (1u8 << 6u8) != 0) == (y & (1u8 << 6u8) != 0),
            (x & (1u8 << 7u8) != 0) == (y & (1u8 << 7u8) != 0),
    ;
}

/// A run ends between two characters, and every character in it has one byte.
pub proof fn runs_end_between_characters(text: Seq<char>, lut: Seq<u8>, n: int)
    requires
        0 <= n <= encode_utf8(text).len(),
        forall|i: int| 0 <= i < n ==> admitted(lut, #[trigger] encode_utf8(text)[i]),
    ensures
        n <= text.len(),
        encode_utf8(text.take(n)) == encode_utf8(text).take(n),
        encode_utf8(text.skip(n)) == encode_utf8(text).skip(n),
        forall|i: int| 0 <= i < n ==> (#[trigger] text[i]) as int == encode_utf8(text)[i],
    decreases n,
{
    let bytes = encode_utf8(text);
    if n == 0 {
        assert(text.take(0) =~= Seq::<char>::empty());
        assert(text.skip(0) =~= text);
        assert(bytes.take(0) =~= encode_utf8(text.take(0)));
        assert(bytes.skip(0) =~= bytes);
    } else {
        if text.len() == 0 {
            assert(bytes.len() == 0);
        }
        let rest = text.drop_first();
        let first = encode_scalar(text[0] as u32);
        let below = encode_utf8(rest);
        assert(bytes == first + below);
        strings::lemma_char_width(text[0]);
        assert(admitted(lut, bytes[0]));
        assert(bytes[0] == first[0]);
        lemma_short_lead(text[0]);
        assert forall|i: int| 0 <= i < n - 1 implies admitted(lut, #[trigger] below[i]) by {
            assert(below[i] == bytes[i + 1]);
            assert(admitted(lut, bytes[i + 1]));
        }
        runs_end_between_characters(rest, lut, n - 1);
        assert(text.take(n).drop_first() =~= rest.take(n - 1));
        assert(text.skip(n) =~= rest.skip(n - 1));
        assert(bytes.take(n) =~= first + below.take(n - 1));
        assert(bytes.skip(n) =~= below.skip(n - 1));
        assert forall|i: int| 0 <= i < n implies (#[trigger] text[i]) as int == bytes[i] by {
            if i > 0 {
                assert(rest[i - 1] == text[i]);
                assert(below[i - 1] == bytes[i]);
            }
        }
    }
}

/// A character whose first byte is below 0x80 has that byte alone.
proof fn lemma_short_lead(c: char)
    ensures
        encode_scalar(c as u32).len() >= 1,
        encode_scalar(c as u32)[0] < 0x80 ==> encode_scalar(c as u32).len() == 1
            && encode_scalar(c as u32)[0] == c as int,
{
    vstd::utf8::char_is_scalar(c);
    let v = c as u32;
    assert(0xC0 | ((v >> 6) & 0x1F) as u8 >= 0x80) by (bit_vector);
    assert(0xE0 | ((v >> 12) & 0x0F) as u8 >= 0x80) by (bit_vector);
    assert(0xF0 | ((v >> 18) & 0x7) as u8 >= 0x80) by (bit_vector);
    assert(v <= 0x7f ==> (v & 0x7F) as u8 == v) by (bit_vector);
}

/// The bytes that pass through are those that a policy leaves as they are.
pub proof fn what_passes_is_left_alone(policy: Normalizer, mode: Mode, b: u8)
    requires
        b < 0x80,
    ensures
        passes(
            b,
            policy.width.alnum.full_in(mode),
            policy.width.number.full_in(mode),
            policy.width.symbol.full_in(mode),
        ) == (policy.normalized(b as char, mode) == b as char),
{
    lemma_wide(b as char);
}

/// A printed character of ASCII is another one in full width.
proof fn lemma_wide(c: char)
    requires
        c as int <= 0x7f,
    ensures
        ' ' <= c && c <= '~' ==> editing::full_width(c) != c,
{
}

/// A run is the part of a text that a policy leaves as it is: every character in it
/// stays, and the one behind it is changed, or has more than one byte.
pub proof fn runs_are_left_alone(
    text: Seq<char>,
    policy: Normalizer,
    mode: Mode,
    lut: Seq<u8>,
    n: int,
)
    requires
        is_set_of(
            lut,
            policy.width.alnum.full_in(mode),
            policy.width.number.full_in(mode),
            policy.width.symbol.full_in(mode),
        ),
        is_run(encode_utf8(text), lut, n),
    ensures
        n <= text.len(),
        forall|i: int| 0 <= i < n ==> policy.normalized(#[trigger] text[i], mode) == text[i],
        n < text.len() ==> text[n] as int >= 0x80 || policy.normalized(text[n], mode) != text[n],
{
    let bytes = encode_utf8(text);
    runs_end_between_characters(text, lut, n);
    assert forall|i: int| 0 <= i < n implies policy.normalized(#[trigger] text[i], mode)
        == text[i] by {
        assert(admitted(lut, bytes[i]));
        what_passes_is_left_alone(policy, mode, bytes[i]);
        lemma_byte(text[i], bytes[i]);
    }
    if n < text.len() && (text[n] as int) < 0x80 {
        let rest = text.skip(n);
        assert(encode_utf8(rest) == bytes.skip(n));
        assert(rest[0] == text[n]);
        lemma_one_byte(text[n]);
        assert(encode_utf8(rest) == encode_scalar(rest[0] as u32) + encode_utf8(
            rest.drop_first(),
        ));
        assert(bytes.skip(n).len() == bytes.len() - n);
        let b = bytes[n];
        assert(b == bytes.skip(n)[0]);
        assert(!admitted(lut, b));
        what_passes_is_left_alone(policy, mode, b);
        lemma_byte(text[n], b);
    }
}

/// A byte is the character with its value.
proof fn lemma_byte(c: char, b: u8)
    requires
        c as int == b,
    ensures
        b as char == c,
{
}

/// A character of ASCII has one byte, which is its value.
proof fn lemma_one_byte(c: char)
    requires
        (c as int) < 0x80,
    ensures
        encode_scalar(c as u32).len() == 1,
        encode_scalar(c as u32)[0] == c as int,
{
    let v = c as u32;
    assert(v <= 0x7f ==> (v & 0x7F) as u8 == v) by (bit_vector);
}

} // verus!
