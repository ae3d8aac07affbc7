//! Characters, strings and their UTF-8 lengths.
//!
//! Text is modelled as a `Seq<char>`. Capacities are counted in UTF-8 bytes,
//! so this module also relates a sequence of characters to the length of its
//! encoding.

use vstd::prelude::*;
#[allow(unused_imports)]
use vstd::utf8::*;

verus! {

/// The number of bytes `text` takes in UTF-8.
pub open spec fn utf8_len(text: Seq<char>) -> nat {
    encode_utf8(text).len()
}

/// The number of bytes one character takes in UTF-8.
pub open spec fn char_width(c: char) -> nat {
    if (c as u32) < 0x80 {
        1
    } else if (c as u32) < 0x800 {
        2
    } else if (c as u32) < 0x1_0000 {
        3
    } else {
        4
    }
}

/// A character is encoded in as many bytes as [`char_width`] says.
pub proof fn lemma_char_width(c: char)
    ensures
        encode_scalar(c as u32).len() == char_width(c),
        1 <= char_width(c) <= 4,
{
    vstd::utf8::char_is_scalar(c);
}

/// The encoding of a concatenation is the concatenation of the encodings.
pub proof fn lemma_encode_concat(a: Seq<char>, b: Seq<char>)
    ensures
        encode_utf8(a + b) == encode_utf8(a) + encode_utf8(b),
        utf8_len(a + b) == utf8_len(a) + utf8_len(b),
    decreases a.len(),
{
    if a.len() == 0 {
        assert(a + b =~= b);
        assert(encode_utf8(a) + encode_utf8(b) =~= encode_utf8(b));
    } else {
        lemma_encode_concat(a.drop_first(), b);
        assert((a + b).drop_first() =~= a.drop_first() + b);
        assert(encode_utf8(a + b) =~= encode_utf8(a) + encode_utf8(b));
    }
}

/// One character more adds its width to the encoded length.
pub proof fn lemma_len_push(a: Seq<char>, c: char)
    ensures
        utf8_len(seq![c]) == char_width(c),
        utf8_len(a.push(c)) == utf8_len(a) + char_width(c),
{
    lemma_char_width(c);
    reveal_with_fuel(encode_utf8, 2);
    assert(seq![c].drop_first() =~= Seq::<char>::empty());
    assert(encode_utf8(seq![c]) =~= encode_scalar(c as u32));
    assert(a.push(c) =~= a + seq![c]);
    lemma_encode_concat(a, seq![c]);
}

/// A text never has more characters than bytes, and never more than four bytes
/// for each character.
pub proof fn lemma_len_bounds(a: Seq<char>)
    ensures
        a.len() <= utf8_len(a) <= 4 * a.len(),
    decreases a.len(),
{
    if a.len() > 0 {
        lemma_len_bounds(a.drop_last());
        lemma_len_push(a.drop_last(), a.last());
        assert(a.drop_last().push(a.last()) =~= a);
    }
}

/// Two texts with the same encoding are the same text.
pub proof fn lemma_encode_injective(a: Seq<char>, b: Seq<char>)
    requires
        encode_utf8(a) == encode_utf8(b),
    ensures
        a == b,
{
    encode_utf8_decode_utf8(a);
    encode_utf8_decode_utf8(b);
}

/// `String::push` appends one character.
#[verifier::external_body]
pub(crate) fn push_char(s: &mut String, c: char)
    ensures
        final(s)@ == old(s)@.push(c),
{
    s.push(c)
}

/// `String::pop` removes and returns the last character, if there is one.
#[verifier::external_body]
pub(crate) fn pop_char(s: &mut String) -> (c: Option<char>)
    ensures
        old(s)@.len() == 0 ==> c is None && final(s)@ == old(s)@,
        old(s)@.len() > 0 ==> c == Some(old(s)@.last()) && final(s)@ == old(s)@.drop_last(),
{
    s.pop()
}

/// `core::str::from_utf8` accepts exactly the well-formed UTF-8 sequences and
/// returns the text that they encode.
#[verifier::external_body]
pub(crate) fn text_from_utf8(bytes: &[u8]) -> (text: Option<&str>)
    ensures
        text is Some <==> valid_utf8(bytes@),
        text matches Some(s) ==> s@ == decode_utf8(bytes@),
{
    core::str::from_utf8(bytes).ok()
}

/// What the standard library's `Debug` form of a text is: the text in quotes,
/// with escapes.
pub uninterp spec fn debug_form(s: Seq<char>) -> Seq<char>;

/// The `Debug` implementation of `str` writes [`debug_form`] of the text.
#[verifier::external_body]
pub(crate) fn debug_text(s: &str) -> (r: String)
    ensures
        r@ == debug_form(s@),
{
    format!("{s:?}")
}

/// `char::from_u32` accepts exactly the Unicode scalar values.
#[verifier::external_body]
pub(crate) fn char_from_u32(value: u32) -> (c: Option<char>)
    ensures
        c is Some <==> is_scalar_value(value as int),
        c matches Some(ch) ==> ch as int == value,
{
    char::from_u32(value)
}

/// Whether `value` is a Unicode scalar value.
pub open spec fn is_scalar_value(value: int) -> bool {
    0 <= value < 0xd800 || 0xe000 <= value <= 0x10_ffff
}

/// The characters of `s`, in order.
pub fn chars_of(s: &str) -> (chars: Vec<char>)
    ensures
        chars@ == s@,
{
    let mut chars: Vec<char> = Vec::new();
    for c in it: s.chars()
        invariant
            it.seq() == s@,
            chars@ == s@.take(it.index()),
    {
        chars.push(c);
        assert(s@.take(it.index() + 1) =~= s@.take(it.index()).push(c));
    }
    assert(s@.take(s@.len() as int) =~= s@);
    chars
}

/// Whether two texts are the same.
pub fn same_text(a: &str, b: &str) -> (same: bool)
    ensures
        same == (a@ == b@),
{
    let x: &[u8] = a.as_bytes();
    let y: &[u8] = b.as_bytes();
    let same = same_bytes(x, y);
    proof {
        if same {
            lemma_encode_injective(a@, b@);
        }
    }
    same
}

/// Whether two byte strings are the same.
pub fn same_bytes(x: &[u8], y: &[u8]) -> (same: bool)
    ensures
        same == (x@ == y@),
{
    if x.len() != y.len() {
        return false;
    }
    let mut i: usize = 0;
    while i < x.len()
        invariant
            x@.len() == y@.len(),
            0 <= i <= x@.len(),
            x@.take(i as int) == y@.take(i as int),
        decreases x@.len() - i,
    {
        if x[i] != y[i] {
            return false;
        }
        assert(x@.take(i + 1) =~= x@.take(i as int).push(x@[i as int]));
        assert(y@.take(i + 1) =~= y@.take(i as int).push(y@[i as int]));
        i = i + 1;
    }
    assert(x@.take(i as int) =~= x@);
    assert(y@.take(i as int) =~= y@);
    true
}

/// The bytes `c` takes in UTF-8.
pub fn utf8_width(c: char) -> (width: usize)
    ensures
        width == char_width(c),
{
    let value: u32 = c as u32;
    if value < 0x80 {
        1
    } else if value < 0x800 {
        2
    } else if value < 0x1_0000 {
        3
    } else {
        4
    }
}

/// The text made of `chars`.
pub fn string_of(chars: &[char]) -> (s: String)
    ensures
        s@ == chars@,
{
    let mut s: String = String::new();
    let mut i: usize = 0;
    while i < chars.len()
        invariant
            0 <= i <= chars@.len(),
            s@ == chars@.take(i as int),
        decreases chars@.len() - i,
    {
        push_char(&mut s, chars[i]);
        assert(chars@.take(i + 1) =~= chars@.take(i as int).push(chars@[i as int]));
        i = i + 1;
    }
    assert(chars@.take(i as int) =~= chars@);
    s
}

/// The decimal digit of a number below ten.
pub open spec fn digit(n: nat) -> char {
    (48 + n) as char
}

/// A number in decimal notation.
pub open spec fn decimal(n: nat) -> Seq<char>
    decreases n,
{
    if n < 10 {
        seq![digit(n)]
    } else {
        decimal(n / 10).push(digit(n % 10))
    }
}

/// The decimal digit of a number below ten.
pub fn digit_char(n: u8) -> (c: char)
    requires
        n < 10,
    ensures
        c == digit(n as nat),
{
    (48 + n) as char
}

/// Appends a number in decimal notation.
pub fn push_decimal(s: &mut String, n: u64)
    ensures
        final(s)@ == old(s)@ + decimal(n as nat),
    decreases n,
{
    if n >= 10 {
        push_decimal(s, n / 10);
    }
    push_char(s, digit_char((n % 10) as u8));
    assert(s@ =~= old(s)@ + decimal(n as nat));
}

/// Texts in lexicographic order: `a` comes strictly before `b`.
pub open spec fn precedes(a: Seq<char>, b: Seq<char>) -> bool
    decreases a.len(),
{
    if b.len() == 0 {
        false
    } else if a.len() == 0 {
        true
    } else if a[0] != b[0] {
        a[0] < b[0]
    } else {
        precedes(a.drop_first(), b.drop_first())
    }
}

/// No text comes before itself.
pub proof fn lemma_precedes_irreflexive(a: Seq<char>)
    ensures
        !precedes(a, a),
    decreases a.len(),
{
    if a.len() > 0 {
        lemma_precedes_irreflexive(a.drop_first());
    }
}

/// The order is transitive.
pub proof fn lemma_precedes_transitive(a: Seq<char>, b: Seq<char>, c: Seq<char>)
    requires
        precedes(a, b),
        precedes(b, c),
    ensures
        precedes(a, c),
    decreases a.len(),
{
    if a.len() > 0 && b.len() > 0 && c.len() > 0 && a[0] == b[0] && b[0] == c[0] {
        lemma_precedes_transitive(a.drop_first(), b.drop_first(), c.drop_first());
    }
}

/// Of two different texts one comes before the other.
pub proof fn lemma_precedes_total(a: Seq<char>, b: Seq<char>)
    ensures
        precedes(a, b) || precedes(b, a) || a == b,
    decreases a.len(),
{
    if a.len() == 0 {
        if b.len() == 0 {
            assert(a =~= b);
        }
    } else if b.len() > 0 && a[0] == b[0] {
        lemma_precedes_total(a.drop_first(), b.drop_first());
        if a.drop_first() == b.drop_first() {
            assert(a =~= seq![a[0]] + a.drop_first());
            assert(b =~= seq![b[0]] + b.drop_first());
        }
    }
}

/// A text comes before every longer one that starts with it.
pub proof fn lemma_prefix_precedes(a: Seq<char>, b: Seq<char>)
    requires
        a.len() < b.len(),
        a == b.take(a.len() as int),
    ensures
        precedes(a, b),
    decreases a.len(),
{
    if a.len() > 0 {
        assert(a[0] == b.take(a.len() as int)[0]);
        assert(a.drop_first() =~= b.drop_first().take(a.len() - 1));
        lemma_prefix_precedes(a.drop_first(), b.drop_first());
    }
}

/// What lies between a text and a longer one that starts with it starts with it
/// too.
pub proof fn lemma_prefix_between(a: Seq<char>, b: Seq<char>, c: Seq<char>)
    requires
        precedes(a, b),
        b == c || precedes(b, c),
        a.len() <= c.len(),
        a == c.take(a.len() as int),
    ensures
        a.len() < b.len(),
        a == b.take(a.len() as int),
    decreases a.len(),
{
    if a.len() == 0 {
        assert(a =~= b.take(0));
    } else {
        assert(a[0] == c.take(a.len() as int)[0]);
        if b.len() > 0 {
            assert(a[0] == b[0]);
            assert(a.drop_first() =~= c.drop_first().take(a.len() - 1));
            lemma_prefix_between(a.drop_first(), b.drop_first(), c.drop_first());
            assert(b.take(a.len() as int) =~= seq![b[0]] + b.drop_first().take(a.len() - 1));
            assert(a =~= seq![a[0]] + a.drop_first());
        }
    }
}

/// How two ASCII texts compare: `(precedes(a, b), a == b)`.
pub fn order_ascii(a: &str, b: &str) -> (r: (bool, bool))
    requires
        is_ascii_chars(a@),
        is_ascii_chars(b@),
    ensures
        r.0 == precedes(a@, b@),
        r.1 == (a@ == b@),
        !r.0 && !r.1 ==> precedes(b@, a@),
{
    let x: &[u8] = a.as_bytes();
    let y: &[u8] = b.as_bytes();
    proof {
        is_ascii_chars_encode_utf8(a@);
        is_ascii_chars_encode_utf8(b@);
        assert(a@.skip(0) =~= a@);
        assert(b@.skip(0) =~= b@);
    }
    let mut i: usize = 0;
    while i < x.len() && i < y.len() && x[i] == y[i]
        invariant
            is_ascii_chars(a@),
            is_ascii_chars(b@),
            x@.len() == a@.len(),
            y@.len() == b@.len(),
            forall|k: int| 0 <= k < a@.len() ==> x@[k] == #[trigger] a@[k] as u8,
            forall|k: int| 0 <= k < b@.len() ==> y@[k] == #[trigger] b@[k] as u8,
            0 <= i <= a@.len(),
            i <= b@.len(),
            a@.take(i as int) == b@.take(i as int),
            precedes(a@, b@) == precedes(a@.skip(i as int), b@.skip(i as int)),
        decreases a@.len() - i,
    {
        proof {
            assert(a@[i as int] == b@[i as int]);
            assert(a@.skip(i as int).drop_first() =~= a@.skip(i + 1));
            assert(b@.skip(i as int).drop_first() =~= b@.skip(i + 1));
            assert(a@.take(i + 1) =~= a@.take(i as int).push(a@[i as int]));
            assert(b@.take(i + 1) =~= b@.take(i as int).push(b@[i as int]));
        }
        i = i + 1;
    }
    let less = if i >= y.len() {
        false
    } else if i >= x.len() {
        true
    } else {
        x[i] < y[i]
    };
    let same = i >= x.len() && i >= y.len();
    proof {
        lemma_precedes_total(a@, b@);
        if i < x@.len() && i < y@.len() {
            assert(x@[i as int] == a@[i as int] as u8);
            assert(y@[i as int] == b@[i as int] as u8);
            assert(a@.skip(i as int)[0] == a@[i as int]);
            assert(b@.skip(i as int)[0] == b@[i as int]);
        }
        if same {
            assert(a@.take(i as int) =~= a@);
            assert(b@.take(i as int) =~= b@);
        }
    }
    (less, same)
}

/// The character at `i`, or zero where there is none.
pub open spec fn char_code(s: Seq<char>, i: int) -> int {
    if 0 <= i < s.len() {
        s[i] as int
    } else {
        0
    }
}

/// A number that tells names apart, out of the length of a name and four of its
/// characters.
pub open spec fn signature(s: Seq<char>) -> int {
    s.len() + 64 * char_code(s, 0) + 0x2000 * char_code(s, 5) + 0x10_0000 * char_code(s, 10)
        + 0x800_0000 * char_code(s, s.len() - 1)
}

} // verus!
