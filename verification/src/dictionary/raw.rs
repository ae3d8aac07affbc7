//! Little-endian records and single bits in a byte string.

use vstd::prelude::*;

verus! {

/// The little-endian 16-bit number at `at`.
pub open spec fn le16(b: Seq<u8>, at: int) -> int {
    b[at] + 0x100 * b[at + 1]
}

/// The little-endian 32-bit number at `at`.
pub open spec fn le32(b: Seq<u8>, at: int) -> int {
    b[at] + 0x100 * b[at + 1] + 0x1_0000 * b[at + 2] + 0x100_0000 * b[at + 3]
}

/// The value of a 32-bit pattern read as a two's complement number.
pub open spec fn signed32(value: int) -> int {
    if value < 0x8000_0000 {
        value
    } else {
        value - 0x1_0000_0000
    }
}

/// Bit `index` of a byte string, counted from the low bit of the first byte.
pub open spec fn bit(b: Seq<u8>, index: int) -> bool {
    byte_bit(b[index / 8], index % 8)
}

/// Bit `k` of a byte.
pub open spec fn byte_bit(byte: u8, k: int) -> bool {
    (byte & (1u8 << (k as u8))) != 0u8
}

/// The four bytes at `at`.
pub open spec fn tag_at(b: Seq<u8>, at: int) -> [u8; 4] {
    [b[at], b[at + 1], b[at + 2], b[at + 3]]
}

/// Byte strings in lexicographic order: `a` comes strictly before `b`.
pub open spec fn before(a: Seq<u8>, b: Seq<u8>) -> bool
    decreases a.len(),
{
    if b.len() == 0 {
        false
    } else if a.len() == 0 {
        true
    } else if a[0] != b[0] {
        a[0] < b[0]
    } else {
        before(a.drop_first(), b.drop_first())
    }
}

/// No byte string comes before itself.
pub proof fn lemma_before_irreflexive(a: Seq<u8>)
    ensures
        !before(a, a),
    decreases a.len(),
{
    if a.len() > 0 {
        lemma_before_irreflexive(a.drop_first());
    }
}

/// The order is transitive.
pub proof fn lemma_before_transitive(a: Seq<u8>, b: Seq<u8>, c: Seq<u8>)
    requires
        before(a, b),
        before(b, c),
    ensures
        before(a, c),
    decreases a.len(),
{
    if a.len() > 0 && b.len() > 0 && c.len() > 0 && a[0] == b[0] && b[0] == c[0] {
        lemma_before_transitive(a.drop_first(), b.drop_first(), c.drop_first());
    }
}

/// Of two different byte strings one comes before the other.
pub proof fn lemma_before_total(a: Seq<u8>, b: Seq<u8>)
    ensures
        before(a, b) || before(b, a) || a == b,
    decreases a.len(),
{
    if a.len() == 0 {
        if b.len() == 0 {
            assert(a =~= b);
        }
    } else if b.len() > 0 && a[0] == b[0] {
        lemma_before_total(a.drop_first(), b.drop_first());
        if a.drop_first() == b.drop_first() {
            assert(a =~= seq![a[0]] + a.drop_first());
            assert(b =~= seq![b[0]] + b.drop_first());
        }
    }
}

pub fn read_u16(bytes: &[u8], at: usize) -> (r: Option<u16>)
    ensures
        r is Some <==> at + 2 <= bytes@.len(),
        r matches Some(v) ==> v == le16(bytes@, at as int),
{
    let n: usize = bytes.len();
    if n < 2 || at > n - 2 {
        return None;
    }
    Some(bytes[at] as u16 + 0x100 * (bytes[at + 1] as u16))
}

pub fn read_u32(bytes: &[u8], at: usize) -> (r: Option<u32>)
    ensures
        r is Some <==> at + 4 <= bytes@.len(),
        r matches Some(v) ==> v == le32(bytes@, at as int),
{
    let n: usize = bytes.len();
    if n < 4 || at > n - 4 {
        return None;
    }
    Some(
        bytes[at] as u32 + 0x100 * (bytes[at + 1] as u32) + 0x1_0000 * (bytes[at + 2] as u32)
            + 0x100_0000 * (bytes[at + 3] as u32),
    )
}

pub fn read_i32(bytes: &[u8], at: usize) -> (r: Option<i32>)
    ensures
        r is Some <==> at + 4 <= bytes@.len(),
        r matches Some(v) ==> v == signed32(le32(bytes@, at as int)),
{
    match read_u32(bytes, at) {
        None => None,
        Some(value) => if value < 0x8000_0000 {
            Some(value as i32)
        } else {
            Some(-((0xffff_ffff - value) as i32) - 1)
        },
    }
}

/// The `index`-th 32-bit offset of an offsets table.
pub fn read_offset(bytes: &[u8], index: usize) -> (r: Option<usize>)
    ensures
        r is Some <==> 4 * index + 4 <= bytes@.len(),
        r matches Some(v) ==> v == le32(bytes@, 4 * index),
{
    let n: usize = bytes.len();
    if index >= n / 4 {
        return None;
    }
    match read_u32(bytes, index * 4) {
        None => None,
        Some(value) => Some(value as usize),
    }
}

pub fn bit_at(bytes: &[u8], index: usize) -> (r: Option<bool>)
    ensures
        r is Some <==> index / 8 < bytes@.len(),
        r matches Some(v) ==> v == bit(bytes@, index as int),
{
    if index / 8 >= bytes.len() {
        return None;
    }
    let byte: u8 = bytes[index / 8];
    Some((byte & (1u8 << ((index % 8) as u8))) != 0u8)
}

pub fn read_tag(bytes: &[u8], at: usize) -> (tag: [u8; 4])
    requires
        at + 4 <= bytes@.len(),
    ensures
        tag == tag_at(bytes@, at as int),
{
    [bytes[at], bytes[at + 1], bytes[at + 2], bytes[at + 3]]
}

pub fn same_tag(a: [u8; 4], b: [u8; 4]) -> (same: bool)
    ensures
        same == (a == b),
{
    let same = a[0] == b[0] && a[1] == b[1] && a[2] == b[2] && a[3] == b[3];
    proof {
        if same {
            assert(a =~= b);
        }
    }
    same
}

/// How two byte strings compare: `(before(a, b), a == b)`.
pub fn order_bytes(a: &[u8], b: &[u8]) -> (r: (bool, bool))
    ensures
        r.0 == before(a@, b@),
        r.1 == (a@ == b@),
        !r.0 && !r.1 ==> before(b@, a@),
{
    let mut i: usize = 0;
    proof {
        assert(a@.skip(0) =~= a@);
        assert(b@.skip(0) =~= b@);
    }
    while i < a.len() && i < b.len() && a[i] == b[i]
        invariant
            0 <= i <= a@.len(),
            i <= b@.len(),
            a@.take(i as int) == b@.take(i as int),
            before(a@, b@) == before(a@.skip(i as int), b@.skip(i as int)),
        decreases a@.len() - i,
    {
        proof {
            assert(a@.skip(i as int).drop_first() =~= a@.skip(i + 1));
            assert(b@.skip(i as int).drop_first() =~= b@.skip(i + 1));
            assert(a@.take(i + 1) =~= a@.take(i as int).push(a@[i as int]));
            assert(b@.take(i + 1) =~= b@.take(i as int).push(b@[i as int]));
        }
        i = i + 1;
    }
    let less = if i >= b.len() {
        false
    } else if i >= a.len() {
        true
    } else {
        a[i] < b[i]
    };
    let same = i >= a.len() && i >= b.len();
    proof {
        lemma_before_total(a@, b@);
        if same {
            assert(a@.take(i as int) =~= a@);
            assert(b@.take(i as int) =~= b@);
        } else {
            if a@ == b@ {
                assert(a@.skip(i as int)[0] == b@.skip(i as int)[0]);
            }
        }
    }
    (less, same)
}

} // verus!
