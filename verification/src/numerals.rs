//! Readings of numbers, and the ways to write numbers.

use crate::strings;
use crate::text;
use crate::text::{write_pieces, TextSink};
use crate::values::Overflow;
use vstd::prelude::*;

verus! {

/// The largest number that is read.
pub const MAX_VALUE: u32 = 9999;

/// A number at the start of a reading, with what it counts.
#[derive(Debug, Clone, Copy, PartialEq, Eq, Structural)]
pub struct NumericSpan {
    pub value: u32,
    pub counter: Option<NumericCounter>,
    /// The bytes of the reading that it takes.
    pub bytes: usize,
}

/// What a number counts.
#[derive(Debug, Clone, Copy, PartialEq, Eq, Structural)]
pub enum NumericCounter {
    Day,
    Month,
    Year,
}

/// How a number is written.
#[derive(Debug, Clone, Copy, PartialEq, Eq, Structural)]
pub enum NumericStyle {
    Arabic,
    FullWidth,
    Kanji,
}

/// Every way to write a number, in order.
pub const NUMERIC_STYLES: [NumericStyle; 3] = [
    NumericStyle::Arabic,
    NumericStyle::FullWidth,
    NumericStyle::Kanji,
];

impl NumericCounter {
    /// The character for what is counted.
    pub open spec fn surface_of(self) -> Seq<char> {
        match self {
            NumericCounter::Day => "日"@,
            NumericCounter::Month => "月"@,
            NumericCounter::Year => "年"@,
        }
    }

    /// The character for what is counted.
    pub fn surface(self) -> (s: &'static str)
        ensures
            s@ == self.surface_of(),
    {
        match self {
            NumericCounter::Day => "日",
            NumericCounter::Month => "月",
            NumericCounter::Year => "年",
        }
    }
}

// ---------------------------------------------------------------------------
// The readings.

/// Whether a reading goes on with `token` at `i`.
pub open spec fn leads(s: Seq<char>, i: int, token: Seq<char>) -> bool {
    i + token.len() <= s.len() && s.subrange(i, i + token.len()) == token
}

/// A day of the month with a reading of its own, and the length of it.
pub open spec fn day_at(s: Seq<char>, i: int) -> Option<(int, int)> {
    if leads(s, i, "にじゅうよっか"@) {
        Some((24, "にじゅうよっか"@.len() as int))
    } else if leads(s, i, "じゅうよっか"@) {
        Some((14, "じゅうよっか"@.len() as int))
    } else if leads(s, i, "ここのか"@) {
        Some((9, "ここのか"@.len() as int))
    } else if leads(s, i, "ついたち"@) {
        Some((1, "ついたち"@.len() as int))
    } else if leads(s, i, "とおか"@) {
        Some((10, "とおか"@.len() as int))
    } else if leads(s, i, "はつか"@) {
        Some((20, "はつか"@.len() as int))
    } else if leads(s, i, "ふつか"@) {
        Some((2, "ふつか"@.len() as int))
    } else if leads(s, i, "みっか"@) {
        Some((3, "みっか"@.len() as int))
    } else if leads(s, i, "よっか"@) {
        Some((4, "よっか"@.len() as int))
    } else if leads(s, i, "いつか"@) {
        Some((5, "いつか"@.len() as int))
    } else if leads(s, i, "むいか"@) {
        Some((6, "むいか"@.len() as int))
    } else if leads(s, i, "なのか"@) {
        Some((7, "なのか"@.len() as int))
    } else if leads(s, i, "ようか"@) {
        Some((8, "ようか"@.len() as int))
    } else {
        None
    }
}

/// What a number counts, and the length of its reading.
pub open spec fn counter_at(s: Seq<char>, i: int) -> Option<(NumericCounter, int)> {
    if leads(s, i, "にち"@) {
        Some((NumericCounter::Day, "にち"@.len() as int))
    } else if leads(s, i, "じつ"@) {
        Some((NumericCounter::Day, "じつ"@.len() as int))
    } else if leads(s, i, "がつ"@) {
        Some((NumericCounter::Month, "がつ"@.len() as int))
    } else if leads(s, i, "ねん"@) {
        Some((NumericCounter::Year, "ねん"@.len() as int))
    } else {
        None
    }
}

/// Whether what follows makes an ambiguous reading a digit: something counted, or a
/// power of ten.
pub open spec fn decides(s: Seq<char>, i: int) -> bool {
    ||| counter_at(s, i) is Some
    ||| leads(s, i, "じゅう"@)
    ||| leads(s, i, "ひゃく"@)
    ||| leads(s, i, "びゃく"@)
    ||| leads(s, i, "ぴゃく"@)
    ||| leads(s, i, "せん"@)
    ||| leads(s, i, "ぜん"@)
    ||| leads(s, i, "まん"@)
}

/// A digit, and the length of its reading. Before a power of ten a digit may be
/// contracted; elsewhere し and く are digits only where what follows decides it.
#[verifier::opaque]
pub open spec fn digit_at(s: Seq<char>, i: int, in_place: bool) -> Option<(int, int)> {
    if leads(s, i, "きゅう"@) {
        Some((9, "きゅう"@.len() as int))
    } else if leads(s, i, "いち"@) {
        Some((1, "いち"@.len() as int))
    } else if leads(s, i, "いっ"@) && in_place {
        Some((1, "いっ"@.len() as int))
    } else if leads(s, i, "さん"@) {
        Some((3, "さん"@.len() as int))
    } else if leads(s, i, "よん"@) {
        Some((4, "よん"@.len() as int))
    } else if leads(s, i, "なな"@) {
        Some((7, "なな"@.len() as int))
    } else if leads(s, i, "しち"@) {
        Some((7, "しち"@.len() as int))
    } else if leads(s, i, "はち"@) {
        Some((8, "はち"@.len() as int))
    } else if leads(s, i, "はっ"@) && in_place {
        Some((8, "はっ"@.len() as int))
    } else if leads(s, i, "ろく"@) {
        Some((6, "ろく"@.len() as int))
    } else if leads(s, i, "ろっ"@) && in_place {
        Some((6, "ろっ"@.len() as int))
    } else if leads(s, i, "ぜろ"@) {
        Some((0, "ぜろ"@.len() as int))
    } else if leads(s, i, "れい"@) {
        Some((0, "れい"@.len() as int))
    } else if leads(s, i, "し"@) && (in_place || decides(s, i + "し"@.len())) {
        Some((4, "し"@.len() as int))
    } else if leads(s, i, "く"@) && (in_place || decides(s, i + "く"@.len())) {
        Some((9, "く"@.len() as int))
    } else if leads(s, i, "ご"@) {
        Some((5, "ご"@.len() as int))
    } else if leads(s, i, "に"@) {
        Some((2, "に"@.len() as int))
    } else {
        None
    }
}

/// The first of several readings that a reading goes on with, by its length.
pub open spec fn marker_at(s: Seq<char>, i: int, markers: Seq<Seq<char>>) -> Option<int>
    decreases markers.len(),
{
    if markers.len() == 0 {
        None
    } else if leads(s, i, markers[0]) {
        Some(markers[0].len() as int)
    } else {
        marker_at(s, i, markers.skip(1))
    }
}

/// A power of ten with its digit, and the length of its reading. Without a digit it
/// counts once.
#[verifier::opaque]
pub open spec fn place_at(s: Seq<char>, i: int, markers: Seq<Seq<char>>, power: int) -> Option<
    (int, int),
> {
    let (digit, n) = match digit_at(s, i, true) {
        Some(found) => found,
        None => (1, 0),
    };
    match marker_at(s, i + n, markers) {
        Some(m) => Some((digit * power, n + m)),
        None => None,
    }
}

/// A sum and a position after one more part.
pub open spec fn after(part: Option<(int, int)>, sum: int, i: int) -> (int, int) {
    match part {
        Some((value, n)) => (sum + value, i + n),
        None => (sum, i),
    }
}

/// The powers of ten at the start of a reading: their sum, where they end, and
/// whether there is any.
pub open spec fn words_places(s: Seq<char>) -> (int, int, bool) {
    let myriads = place_at(s, 0, seq!["まん"@], 10000);
    let (v1, i1) = after(myriads, 0, 0);
    let thousands = place_at(s, i1, seq!["せん"@, "ぜん"@], 1000);
    let (v2, i2) = after(thousands, v1, i1);
    let hundreds = place_at(s, i2, seq!["ひゃく"@, "びゃく"@, "ぴゃく"@], 100);
    let (v3, i3) = after(hundreds, v2, i2);
    let tens = place_at(s, i3, seq!["じゅう"@], 10);
    let (v4, i4) = after(tens, v3, i3);
    (v4, i4, myriads is Some || thousands is Some || hundreds is Some || tens is Some)
}

/// A number in words at the start of a reading, and its length: thousands,
/// hundreds, tens and, where `ones` says so, ones, in this order.
pub open spec fn words_number(s: Seq<char>, ones: bool) -> Option<(int, int)> {
    let (places, i, any) = words_places(s);
    let digit = if ones {
        digit_at(s, i, false)
    } else {
        None
    };
    let (value, n) = after(digit, places, i);
    if value > MAX_VALUE || !(any || digit is Some) {
        None
    } else {
        Some((value, n))
    }
}

/// An ASCII digit.
pub open spec fn ascii_digit(c: char) -> bool {
    '0' <= c && c <= '9'
}

/// A full-width digit.
pub open spec fn full_digit(c: char) -> bool {
    '０' <= c && c <= '９'
}

/// The number of ASCII digits at the start of a text, but no more than `most`.
pub open spec fn digit_run(s: Seq<char>, most: nat) -> nat
    decreases most,
{
    if most == 0 || s.len() == 0 || !ascii_digit(s[0]) {
        0
    } else {
        1 + digit_run(s.skip(1), (most - 1) as nat)
    }
}

/// The number that the first `n` digits write, with `zero` for the digit zero.
pub open spec fn digits_value(s: Seq<char>, n: nat, zero: char) -> int
    decreases n,
{
    if n == 0 {
        0
    } else {
        digits_value(s, (n - 1) as nat, zero) * 10 + (s[n - 1] as int - zero as int)
    }
}

/// A number in ASCII digits at the start of a reading, and its length: at most four
/// digits, and a zero only by itself.
pub open spec fn ascii_number(s: Seq<char>) -> Option<(int, int)> {
    let n = digit_run(s, 4);
    if n == 0 || (s[0] == '0' && n > 1) {
        None
    } else {
        Some((digits_value(s, n, '0'), n as int))
    }
}

/// The number of full-width digits at the start of a text from `i` on.
pub open spec fn full_run(s: Seq<char>, i: int) -> int
    decreases s.len() - i,
{
    if 0 <= i < s.len() && full_digit(s[i]) {
        full_run(s, i + 1)
    } else {
        i
    }
}

/// A number in full-width digits at the start of a reading, and its length.
pub open spec fn full_number(s: Seq<char>) -> Option<(int, int)> {
    let n = full_run(s, 0);
    if n == 0 || digits_value(s, n as nat, '０') > MAX_VALUE {
        None
    } else {
        Some((digits_value(s, n as nat, '０'), n))
    }
}

/// A number together with what it counts, where something counted follows it, and
/// the length of both.
pub open spec fn counted(s: Seq<char>, number: Option<(int, int)>) -> Option<
    (int, Option<NumericCounter>, int),
> {
    match number {
        Some((value, n)) => match counter_at(s, n) {
            Some((counter, m)) => Some((value, Some(counter), n + m)),
            None => Some((value, None, n)),
        },
        None => None,
    }
}

/// How much of a reading is taken.
pub open spec fn taken(span: Option<(int, Option<NumericCounter>, int)>) -> int {
    match span {
        Some((value, counter, n)) => n,
        None => 0,
    }
}

/// A number in words with what it counts: of the two ways to read it, with a digit
/// in the ones and without one, the way that takes more of the reading. In
/// じゅうにち the に belongs to what is counted and is no digit.
pub open spec fn counted_words(s: Seq<char>) -> Option<(int, Option<NumericCounter>, int)> {
    let whole = counted(s, words_number(s, true));
    let round = counted(s, words_number(s, false));
    if whole is None || taken(round) > taken(whole) {
        round
    } else {
        whole
    }
}

/// A number at the start of a reading: its value, what it counts, and its length in
/// characters.
pub open spec fn number_at_start(s: Seq<char>) -> Option<(int, Option<NumericCounter>, int)> {
    match day_at(s, 0) {
        Some((value, n)) => Some((value, Some(NumericCounter::Day), n)),
        None => match ascii_number(s) {
            Some(found) => counted(s, Some(found)),
            None => match full_number(s) {
                Some(found) => counted(s, Some(found)),
                None => counted_words(s),
            },
        },
    }
}

/// Whether a reading goes on with `token` at `i`.
fn leads_with(s: &[char], i: usize, token: &str) -> (r: bool)
    requires
        i <= s@.len(),
    ensures
        r == leads(s@, i as int, token@),
{
    let t: Vec<char> = strings::chars_of(token);
    assert(s.len() == s@.len());
    if t.len() > s.len() - i {
        return false;
    }
    let mut k: usize = 0;
    while k < t.len()
        invariant
            k <= t@.len(),
            t@ == token@,
            i + t@.len() <= s@.len() <= usize::MAX,
            forall|j: int| 0 <= j < k ==> s@[i + j] == #[trigger] t@[j],
        decreases t@.len() - k,
    {
        if s[i + k] != t[k] {
            assert(s@.subrange(i as int, i + t@.len())[k as int] == s@[i + k]);
            return false;
        }
        k = k + 1;
    }
    assert(s@.subrange(i as int, i + t@.len()) =~= t@);
    true
}

/// A day of the month with a reading of its own.
fn parse_traditional_day(s: &[char]) -> (r: Option<(u32, usize)>)
    ensures
        match day_at(s@, 0) {
            Some((value, n)) => r matches Some((v, m)) && v == value && m == n && n <= s@.len(),
            None => r is None,
        },
{
    if leads_with(s, 0, "にじゅうよっか") {
        return Some((24, "にじゅうよっか".unicode_len()));
    }
    if leads_with(s, 0, "じゅうよっか") {
        return Some((14, "じゅうよっか".unicode_len()));
    }
    if leads_with(s, 0, "ここのか") {
        return Some((9, "ここのか".unicode_len()));
    }
    if leads_with(s, 0, "ついたち") {
        return Some((1, "ついたち".unicode_len()));
    }
    if leads_with(s, 0, "とおか") {
        return Some((10, "とおか".unicode_len()));
    }
    if leads_with(s, 0, "はつか") {
        return Some((20, "はつか".unicode_len()));
    }
    if leads_with(s, 0, "ふつか") {
        return Some((2, "ふつか".unicode_len()));
    }
    if leads_with(s, 0, "みっか") {
        return Some((3, "みっか".unicode_len()));
    }
    if leads_with(s, 0, "よっか") {
        return Some((4, "よっか".unicode_len()));
    }
    if leads_with(s, 0, "いつか") {
        return Some((5, "いつか".unicode_len()));
    }
    if leads_with(s, 0, "むいか") {
        return Some((6, "むいか".unicode_len()));
    }
    if leads_with(s, 0, "なのか") {
        return Some((7, "なのか".unicode_len()));
    }
    if leads_with(s, 0, "ようか") {
        return Some((8, "ようか".unicode_len()));
    }
    None
}

/// What a number counts.
fn parse_counter(s: &[char], i: usize) -> (r: Option<(NumericCounter, usize)>)
    requires
        i <= s@.len(),
    ensures
        match counter_at(s@, i as int) {
            Some((counter, n)) => r matches Some((c, m)) && c == counter && m == n && i + n
                <= s@.len(),
            None => r is None,
        },
{
    if leads_with(s, i, "にち") {
        return Some((NumericCounter::Day, "にち".unicode_len()));
    }
    if leads_with(s, i, "じつ") {
        return Some((NumericCounter::Day, "じつ".unicode_len()));
    }
    if leads_with(s, i, "がつ") {
        return Some((NumericCounter::Month, "がつ".unicode_len()));
    }
    if leads_with(s, i, "ねん") {
        return Some((NumericCounter::Year, "ねん".unicode_len()));
    }
    None
}

/// Whether what follows makes an ambiguous reading a digit.
fn followed_by_counter_or_place(s: &[char], i: usize) -> (r: bool)
    requires
        i <= s@.len(),
    ensures
        r == decides(s@, i as int),
{
    parse_counter(s, i).is_some()
        || leads_with(s, i, "じゅう")
        || leads_with(s, i, "ひゃく")
        || leads_with(s, i, "びゃく")
        || leads_with(s, i, "ぴゃく")
        || leads_with(s, i, "せん")
        || leads_with(s, i, "ぜん")
        || leads_with(s, i, "まん")
}

/// A digit.
fn take_ones(s: &[char], i: usize, in_place: bool) -> (r: Option<(u32, usize)>)
    requires
        i <= s@.len(),
    ensures
        match digit_at(s@, i as int, in_place) {
            Some((digit, n)) => r matches Some((d, m)) && d == digit && m == n && i + n <= s@.len()
                && d <= 9,
            None => r is None,
        },
{
    proof {
        reveal(digit_at);
    }
    assert(s.len() == s@.len());
    if leads_with(s, i, "きゅう") {
        return Some((9, "きゅう".unicode_len()));
    }
    if leads_with(s, i, "いち") {
        return Some((1, "いち".unicode_len()));
    }
    if leads_with(s, i, "いっ") && in_place {
        return Some((1, "いっ".unicode_len()));
    }
    if leads_with(s, i, "さん") {
        return Some((3, "さん".unicode_len()));
    }
    if leads_with(s, i, "よん") {
        return Some((4, "よん".unicode_len()));
    }
    if leads_with(s, i, "なな") {
        return Some((7, "なな".unicode_len()));
    }
    if leads_with(s, i, "しち") {
        return Some((7, "しち".unicode_len()));
    }
    if leads_with(s, i, "はち") {
        return Some((8, "はち".unicode_len()));
    }
    if leads_with(s, i, "はっ") && in_place {
        return Some((8, "はっ".unicode_len()));
    }
    if leads_with(s, i, "ろく") {
        return Some((6, "ろく".unicode_len()));
    }
    if leads_with(s, i, "ろっ") && in_place {
        return Some((6, "ろっ".unicode_len()));
    }
    if leads_with(s, i, "ぜろ") {
        return Some((0, "ぜろ".unicode_len()));
    }
    if leads_with(s, i, "れい") {
        return Some((0, "れい".unicode_len()));
    }
    if leads_with(s, i, "し") && (in_place || followed_by_counter_or_place(s, i + "し".unicode_len())) {
        return Some((4, "し".unicode_len()));
    }
    if leads_with(s, i, "く") && (in_place || followed_by_counter_or_place(s, i + "く".unicode_len())) {
        return Some((9, "く".unicode_len()));
    }
    if leads_with(s, i, "ご") {
        return Some((5, "ご".unicode_len()));
    }
    if leads_with(s, i, "に") {
        return Some((2, "に".unicode_len()));
    }
    None
}

/// The texts of a list.
pub open spec fn texts(list: Seq<&str>) -> Seq<Seq<char>> {
    Seq::new(list.len(), |i: int| list[i]@)
}

/// A power of ten with its digit.
fn take_place(s: &[char], i: usize, markers: &[&str], power: u32) -> (r: Option<(u32, usize)>)
    requires
        i <= s@.len(),
        power <= 10000,
    ensures
        match place_at(s@, i as int, texts(markers@), power as int) {
            Some((value, n)) => r matches Some((v, m)) && v == value && m == n && i + n <= s@.len()
                && v <= 9 * power,
            None => r is None,
        },
{
    proof {
        reveal(place_at);
    }
    let (digit, n): (u32, usize) = match take_ones(s, i, true) {
        Some(found) => found,
        None => (1, 0),
    };
    assert(digit * power <= 9 * power) by (nonlinear_arith)
        requires
            digit <= 9,
    ;
    let mut k: usize = 0;
    assert(texts(markers@).skip(0) =~= texts(markers@));
    assert(s.len() == s@.len());
    while k < markers.len()
        invariant
            k <= markers@.len(),
            i + n <= s@.len() <= usize::MAX,
            digit * power <= 9 * power <= 90000,
            marker_at(s@, i + n, texts(markers@)) == marker_at(
                s@,
                i + n,
                texts(markers@).skip(k as int),
            ),
            place_at(s@, i as int, texts(markers@), power as int) == (match marker_at(
                s@,
                i + n,
                texts(markers@),
            ) {
                Some(m) => Some((digit * power, n + m)),
                None => None::<(int, int)>,
            }),
        decreases markers@.len() - k,
    {
        let marker: &str = markers[k];
        let ghost rest = texts(markers@).skip(k as int);
        assert(rest[0] == marker@);
        assert(rest.skip(1) =~= texts(markers@).skip(k + 1));
        if leads_with(s, i + n, marker) {
            return Some((digit * power, n + marker.unicode_len()));
        }
        k = k + 1;
    }
    None
}

/// A number in ASCII digits.
fn parse_ascii_number(s: &[char]) -> (r: Option<(u32, usize)>)
    ensures
        match ascii_number(s@) {
            Some((value, n)) => r matches Some((v, m)) && v == value && m == n && n <= s@.len()
                && v <= MAX_VALUE,
            None => r is None,
        },
{
    let mut value: u32 = 0;
    let mut n: usize = 0;
    assert(s@.skip(0) =~= s@);
    while n < 4 && n < s.len() && '0' <= s[n] && s[n] <= '9'
        invariant
            n <= 4,
            n <= s@.len(),
            digit_run(s@, 4) == n + digit_run(s@.skip(n as int), (4 - n) as nat),
            value == digits_value(s@, n as nat, '0'),
            n == 0 ==> value == 0,
            n == 1 ==> value <= 9,
            n == 2 ==> value <= 99,
            n == 3 ==> value <= 999,
            n == 4 ==> value <= 9999,
        decreases 4 - n,
    {
        assert(s@.skip(n as int).skip(1) =~= s@.skip(n + 1));
        let digit: u32 = s[n] as u32 - 48;
        value = value * 10 + digit;
        n = n + 1;
    }
    if n == 0 {
        return None;
    }
    if s[0] == '0' && n > 1 {
        return None;
    }
    Some((value, n))
}

/// A number in full-width digits only grows with every digit.
proof fn lemma_full_grows(s: Seq<char>, i: int, n: int)
    requires
        0 <= i <= n <= s.len(),
        forall|k: int| 0 <= k < n ==> full_digit(#[trigger] s[k]),
    ensures
        0 <= digits_value(s, i as nat, '０') <= digits_value(s, n as nat, '０'),
    decreases n,
{
    if n > 0 {
        if i < n {
            lemma_full_grows(s, i, n - 1);
        } else {
            lemma_full_grows(s, i - 1, n - 1);
        }
        assert(full_digit(s[n - 1]));
    }
}

/// Every character of the run is a digit.
proof fn lemma_full_run(s: Seq<char>, i: int)
    requires
        0 <= i <= s.len(),
    ensures
        i <= full_run(s, i) <= s.len(),
        forall|k: int| i <= k < full_run(s, i) ==> full_digit(#[trigger] s[k]),
    decreases s.len() - i,
{
    if i < s.len() && full_digit(s[i]) {
        lemma_full_run(s, i + 1);
    }
}

/// A number in full-width digits.
fn parse_fullwidth_number(s: &[char]) -> (r: Option<(u32, usize)>)
    ensures
        match full_number(s@) {
            Some((value, n)) => r matches Some((v, m)) && v == value && m == n && n <= s@.len()
                && v <= MAX_VALUE,
            None => r is None,
        },
{
    let mut value: u32 = 0;
    let mut n: usize = 0;
    proof {
        lemma_full_run(s@, 0);
    }
    while n < s.len() && '０' <= s[n] && s[n] <= '９'
        invariant
            n <= s@.len(),
            full_run(s@, 0) == full_run(s@, n as int),
            full_run(s@, 0) <= s@.len(),
            forall|k: int| 0 <= k < full_run(s@, 0) ==> full_digit(#[trigger] s@[k]),
            value == digits_value(s@, n as nat, '０'),
            value <= MAX_VALUE,
        decreases s@.len() - n,
    {
        let digit: u32 = s[n] as u32 - 0xff10;
        let next: u32 = value * 10 + digit;
        proof {
            lemma_full_run(s@, n + 1);
            lemma_full_grows(s@, n + 1, full_run(s@, 0));
        }
        if next > MAX_VALUE {
            return None;
        }
        value = next;
        n = n + 1;
    }
    if n == 0 {
        None
    } else {
        Some((value, n))
    }
}

/// Whether a number that was parsed is the one that a reading holds.
spec fn is_number(s: Seq<char>, r: Option<(u32, usize)>, number: Option<(int, int)>) -> bool {
    match number {
        Some((value, n)) => r matches Some((v, m)) && v == value && m == n && n <= s.len() && v
            <= MAX_VALUE,
        None => r is None,
    }
}

/// A number in words, with a digit in the ones and without one.
fn parse_japanese_number(s: &[char]) -> (r: (Option<(u32, usize)>, Option<(u32, usize)>))
    ensures
        is_number(s@, r.0, words_number(s@, true)),
        is_number(s@, r.1, words_number(s@, false)),
{
    let myriad: [&str; 1] = ["まん"];
    let thousand: [&str; 2] = ["せん", "ぜん"];
    let hundred: [&str; 3] = ["ひゃく", "びゃく", "ぴゃく"];
    let ten: [&str; 1] = ["じゅう"];
    assert(texts(myriad@) =~= seq!["まん"@]);
    assert(texts(thousand@) =~= seq!["せん"@, "ぜん"@]);
    assert(texts(hundred@) =~= seq!["ひゃく"@, "びゃく"@, "ぴゃく"@]);
    assert(texts(ten@) =~= seq!["じゅう"@]);
    let myriads: Option<(u32, usize)> = take_place(s, 0, &myriad, 10000);
    let (v1, i1): (u32, usize) = add_part(s, myriads, 0, 0);
    let thousands: Option<(u32, usize)> = take_place(s, i1, &thousand, 1000);
    let (v2, i2): (u32, usize) = add_part(s, thousands, v1, i1);
    let hundreds: Option<(u32, usize)> = take_place(s, i2, &hundred, 100);
    let (v3, i3): (u32, usize) = add_part(s, hundreds, v2, i2);
    let tens: Option<(u32, usize)> = take_place(s, i3, &ten, 10);
    let (v4, i4): (u32, usize) = add_part(s, tens, v3, i3);
    let ones: Option<(u32, usize)> = take_ones(s, i4, false);
    let (v5, i5): (u32, usize) = add_part(s, ones, v4, i4);
    let any: bool = myriads.is_some() || thousands.is_some() || hundreds.is_some()
        || tens.is_some();
    assert(words_places(s@) == (v4 as int, i4 as int, any));
    let whole: Option<(u32, usize)> = if (any || ones.is_some()) && v5 <= MAX_VALUE {
        Some((v5, i5))
    } else {
        None
    };
    let round: Option<(u32, usize)> = if any && v4 <= MAX_VALUE {
        Some((v4, i4))
    } else {
        None
    };
    (whole, round)
}

/// A sum and a position after one more part.
fn add_part(s: &[char], part: Option<(u32, usize)>, sum: u32, i: usize) -> (r: (u32, usize))
    requires
        i <= s@.len(),
        sum <= 400000,
        part matches Some((value, n)) ==> value <= 90000 && i + n <= s@.len(),
    ensures
        r.0 == after(view_part(part), sum as int, i as int).0,
        r.1 == after(view_part(part), sum as int, i as int).1,
        r.1 <= s@.len(),
        r.0 <= sum + 90000,
{
    assert(s.len() == s@.len());
    match part {
        Some((value, n)) => (sum + value, i + n),
        None => (sum, i),
    }
}

/// What a part says.
pub open spec fn view_part(part: Option<(u32, usize)>) -> Option<(int, int)> {
    match part {
        Some((value, n)) => Some((value as int, n as int)),
        None => None,
    }
}

/// The bytes of the first `n` characters.
fn bytes_of(s: &[char], n: usize) -> (r: usize)
    requires
        n <= s@.len(),
        strings::utf8_len(s@) <= usize::MAX,
    ensures
        r == strings::utf8_len(s@.take(n as int)),
{
    let prefix: &[char] = vstd::slice::slice_subrange(s, 0, n);
    assert(prefix@ =~= s@.take(n as int));
    let text: String = strings::string_of(prefix);
    let bytes: &[u8] = text.as_str().as_bytes();
    bytes.len()
}

/// A number together with what it counts.
fn take_counter(s: &[char], value: u32, n: usize) -> (r: (u32, Option<NumericCounter>, usize))
    requires
        n <= s@.len(),
    ensures
        counted(s@, Some((value as int, n as int))) == Some((r.0 as int, r.1, r.2 as int)),
        r.0 == value,
        r.2 <= s@.len(),
{
    assert(s.len() == s@.len());
    match parse_counter(s, n) {
        Some((counter, m)) => (value, Some(counter), n + m),
        None => (value, None, n),
    }
}

/// A number in words with what it counts.
fn parse_counted_words(s: &[char]) -> (r: Option<(u32, Option<NumericCounter>, usize)>)
    ensures
        match counted_words(s@) {
            Some((value, counter, n)) => r matches Some((v, c, m)) && v == value && c == counter
                && m == n && n <= s@.len(),
            None => r is None,
        },
{
    let (whole, round): (Option<(u32, usize)>, Option<(u32, usize)>) = parse_japanese_number(s);
    match (whole, round) {
        (Some((v, n)), Some((w, m))) => {
            let longer: (u32, Option<NumericCounter>, usize) = take_counter(s, v, n);
            let shorter: (u32, Option<NumericCounter>, usize) = take_counter(s, w, m);
            if shorter.2 > longer.2 {
                Some(shorter)
            } else {
                Some(longer)
            }
        },
        (Some((v, n)), None) => Some(take_counter(s, v, n)),
        (None, Some((w, m))) => Some(take_counter(s, w, m)),
        (None, None) => None,
    }
}

/// The longest number at the start of a reading, with what it counts.
pub fn parse_numeric_prefix(reading: &str) -> (r: Option<NumericSpan>)
    ensures
        match number_at_start(reading@) {
            Some((value, counter, n)) => {
                &&& r matches Some(span)
                &&& span.value == value
                &&& span.counter == counter
                &&& span.bytes == strings::utf8_len(reading@.take(n))
                &&& n <= reading@.len()
            },
            None => r is None,
        },
{
    let s: Vec<char> = strings::chars_of(reading);
    let whole: &[u8] = reading.as_bytes();
    assert(whole.len() == strings::utf8_len(s@));
    assert(s.len() == s@.len());
    let (value, counter, n): (u32, Option<NumericCounter>, usize) = match parse_traditional_day(
        &s,
    ) {
        Some((value, n)) => (value, Some(NumericCounter::Day), n),
        None => match parse_ascii_number(&s) {
            Some((value, n)) => take_counter(&s, value, n),
            None => match parse_fullwidth_number(&s) {
                Some((value, n)) => take_counter(&s, value, n),
                None => match parse_counted_words(&s) {
                    Some(found) => found,
                    None => {
                        return None;
                    },
                },
            },
        },
    };
    Some(NumericSpan { value, counter, bytes: bytes_of(&s, n) })
}

/// Whether a number is worth its own candidates: it counts something, or has more
/// than one digit.
pub fn should_emit_numeric_span(span: NumericSpan) -> (r: bool)
    ensures
        r == (span.counter is Some || span.value >= 10),
{
    span.counter.is_some() || span.value >= 10
}

/// A digit or number in a form for decoration: superscript or circled.
pub open spec fn decorative(c: char) -> bool {
    c == '\u{b2}' || c == '\u{b3}' || c == '\u{b9}' || c == '\u{2070}' || ('\u{2074}' <= c && c
        <= '\u{2079}') || ('\u{2460}' <= c && c <= '\u{2473}') || ('\u{3251}' <= c && c
        <= '\u{325f}') || ('\u{32b1}' <= c && c <= '\u{32bf}')
}

/// A digit or number in a form for decoration: superscript or circled.
pub fn is_decorative_numeral_char(c: char) -> (r: bool)
    ensures
        r == decorative(c),
{
    c == '\u{b2}' || c == '\u{b3}' || c == '\u{b9}' || c == '\u{2070}' || ('\u{2074}' <= c && c
        <= '\u{2079}') || ('\u{2460}' <= c && c <= '\u{2473}') || ('\u{3251}' <= c && c
        <= '\u{325f}') || ('\u{32b1}' <= c && c <= '\u{32bf}')
}

/// A digit, or a kanji for a digit or a power of ten.
pub open spec fn numeral_char(c: char) -> bool {
    ascii_digit(c) || full_digit(c) || c == '零' || c == '一' || c == '二' || c == '三' || c == '四'
        || c == '五' || c == '六' || c == '七' || c == '八' || c == '九' || c == '十' || c == '百'
        || c == '千'
}

/// Whether a text is a number of days, in any way to write numbers.
pub open spec fn numeric_day_surface(s: Seq<char>) -> bool {
    s.len() >= 2 && s.last() == '日' && forall|i: int|
        0 <= i < s.len() - 1 ==> numeral_char(#[trigger] s[i])
}

/// Whether a text is a number of days, in any way to write numbers.
pub fn is_numeric_day_surface(surface: &str) -> (r: bool)
    ensures
        r == numeric_day_surface(surface@),
{
    let s: Vec<char> = strings::chars_of(surface);
    if s.len() < 2 || s[s.len() - 1] != '日' {
        return false;
    }
    let mut i: usize = 0;
    while i < s.len() - 1
        invariant
            i <= s@.len() - 1,
            s@ == surface@,
            s@.len() >= 2,
            s@.last() == '日',
            forall|k: int| 0 <= k < i ==> numeral_char(#[trigger] surface@[k]),
        decreases s@.len() - i,
    {
        let c: char = s[i];
        if !(('0' <= c && c <= '9') || ('０' <= c && c <= '９') || c == '零' || c == '一' || c
            == '二' || c == '三' || c == '四' || c == '五' || c == '六' || c == '七' || c == '八' || c
            == '九' || c == '十' || c == '百' || c == '千') {
            assert(!numeral_char(surface@[i as int]));
            return false;
        }
        i = i + 1;
    }
    true
}

// ---------------------------------------------------------------------------
// The ways to write numbers.

/// A digit in full width.
pub open spec fn widened(c: char) -> char {
    match c {
        '0' => '０',
        '1' => '１',
        '2' => '２',
        '3' => '３',
        '4' => '４',
        '5' => '５',
        '6' => '６',
        '7' => '７',
        '8' => '８',
        '9' => '９',
        _ => c,
    }
}

/// A digit in full width.
fn widen(c: char) -> (r: char)
    ensures
        r == widened(c),
{
    match c {
        '0' => '０',
        '1' => '１',
        '2' => '２',
        '3' => '３',
        '4' => '４',
        '5' => '５',
        '6' => '６',
        '7' => '７',
        '8' => '８',
        '9' => '９',
        _ => c,
    }
}

/// A number in full-width digits.
pub open spec fn full_decimal(n: nat) -> Seq<char> {
    Seq::new(strings::decimal(n).len(), |i: int| widened(strings::decimal(n)[i]))
}

/// A digit in kanji.
pub open spec fn kanji_digit(n: int) -> Seq<char> {
    if n == 0 {
        "零"@
    } else if n == 1 {
        "一"@
    } else if n == 2 {
        "二"@
    } else if n == 3 {
        "三"@
    } else if n == 4 {
        "四"@
    } else if n == 5 {
        "五"@
    } else if n == 6 {
        "六"@
    } else if n == 7 {
        "七"@
    } else if n == 8 {
        "八"@
    } else {
        "九"@
    }
}

/// The pieces of a power of ten with its digit: nothing for none of it, and no
/// digit for one of it.
pub open spec fn kanji_place(digit: int, place: Seq<char>) -> Seq<Seq<char>> {
    if digit == 0 {
        Seq::empty()
    } else if digit == 1 {
        seq![place]
    } else {
        seq![kanji_digit(digit), place]
    }
}

/// The pieces of a number in kanji.
pub open spec fn kanji_pieces(n: int) -> Seq<Seq<char>> {
    if n == 0 {
        seq![kanji_digit(0)]
    } else {
        kanji_place(n / 1000, "千"@) + kanji_place((n / 100) % 10, "百"@) + kanji_place(
            (n / 10) % 10,
            "十"@,
        ) + (if n % 10 == 0 {
            Seq::<Seq<char>>::empty()
        } else {
            seq![kanji_digit(n % 10)]
        })
    }
}

/// The pieces of a number in a style.
pub open spec fn number_pieces(style: NumericStyle, n: nat) -> Seq<Seq<char>> {
    match style {
        NumericStyle::Arabic => seq![strings::decimal(n)],
        NumericStyle::FullWidth => full_decimal(n).map_values(|c: char| seq![c]),
        NumericStyle::Kanji => kanji_pieces(n as int),
    }
}

/// The pieces of a number in a style, with what it counts.
pub open spec fn span_pieces(style: NumericStyle, span: NumericSpan) -> Seq<Seq<char>> {
    match span.counter {
        Some(counter) => number_pieces(style, span.value as nat).push(counter.surface_of()),
        None => number_pieces(style, span.value as nat),
    }
}

/// A digit in kanji.
fn kanji_digit_text(n: u32) -> (s: &'static str)
    requires
        n <= 9,
    ensures
        s@ == kanji_digit(n as int),
{
    match n {
        0 => "零",
        1 => "一",
        2 => "二",
        3 => "三",
        4 => "四",
        5 => "五",
        6 => "六",
        7 => "七",
        8 => "八",
        _ => "九",
    }
}

/// Adds a power of ten with its digit.
fn write_kanji_place(pieces: &mut Vec<String>, digit: u32, place: &str)
    requires
        digit <= 9,
    ensures
        text::pieces_of(final(pieces)@) == text::pieces_of(old(pieces)@) + kanji_place(
            digit as int,
            place@,
        ),
{
    if digit > 1 {
        pieces.push(kanji_digit_text(digit).to_owned());
    }
    if digit > 0 {
        pieces.push(place.to_owned());
    }
    assert(text::pieces_of(pieces@) =~= text::pieces_of(old(pieces)@) + kanji_place(
        digit as int,
        place@,
    ));
}

/// A number in kanji.
fn write_kanji(value: u32) -> (r: Vec<String>)
    requires
        value <= MAX_VALUE,
    ensures
        text::pieces_of(r@) == kanji_pieces(value as int),
{
    let mut pieces: Vec<String> = Vec::new();
    assert(text::pieces_of(pieces@) =~= Seq::<Seq<char>>::empty());
    if value == 0 {
        pieces.push(kanji_digit_text(0).to_owned());
        assert(text::pieces_of(pieces@) =~= kanji_pieces(0));
        return pieces;
    }
    write_kanji_place(&mut pieces, value / 1000, "千");
    write_kanji_place(&mut pieces, (value / 100) % 10, "百");
    write_kanji_place(&mut pieces, (value / 10) % 10, "十");
    let ones: u32 = value % 10;
    if ones > 0 {
        pieces.push(kanji_digit_text(ones).to_owned());
    }
    assert(text::pieces_of(pieces@) =~= kanji_pieces(value as int));
    pieces
}

/// A number in full-width digits.
fn write_fullwidth(value: u32) -> (r: Vec<String>)
    ensures
        text::pieces_of(r@) == number_pieces(NumericStyle::FullWidth, value as nat),
{
    let mut digits: String = String::new();
    strings::push_decimal(&mut digits, value as u64);
    assert(digits@ =~= strings::decimal(value as nat));
    let chars: Vec<char> = strings::chars_of(digits.as_str());
    let ghost goal = number_pieces(NumericStyle::FullWidth, value as nat);
    let mut pieces: Vec<String> = Vec::new();
    let mut i: usize = 0;
    while i < chars.len()
        invariant
            i <= chars@.len(),
            chars@ == strings::decimal(value as nat),
            goal == number_pieces(NumericStyle::FullWidth, value as nat),
            text::pieces_of(pieces@) == goal.take(i as int),
        decreases chars@.len() - i,
    {
        let mut piece: String = String::new();
        strings::push_char(&mut piece, widen(chars[i]));
        assert(piece@ =~= goal[i as int]);
        let ghost before = text::pieces_of(pieces@);
        pieces.push(piece);
        assert(text::pieces_of(pieces@) =~= before.push(piece@));
        i = i + 1;
        assert(goal.take(i as int) =~= goal.take(i - 1).push(goal[i - 1]));
    }
    assert(goal.take(i as int) =~= goal);
    pieces
}

impl NumericStyle {
    /// What the style is called.
    pub open spec fn annotation_of(self) -> Seq<char> {
        match self {
            NumericStyle::Arabic => "算用数字"@,
            NumericStyle::FullWidth => "全角数字"@,
            NumericStyle::Kanji => "漢数字"@,
        }
    }

    /// What the style is called.
    pub fn annotation(self) -> (s: &'static str)
        ensures
            s@ == self.annotation_of(),
    {
        match self {
            NumericStyle::Arabic => "算用数字",
            NumericStyle::FullWidth => "全角数字",
            NumericStyle::Kanji => "漢数字",
        }
    }

    /// Writes a number, with what it counts. Kanji go up to [`MAX_VALUE`].
    pub fn write<S: TextSink>(self, span: NumericSpan, sink: &mut S) -> (r: Result<(), Overflow>)
        requires
            self is Kanji ==> span.value <= MAX_VALUE,
        ensures
            (*final(sink)).limit() == (*old(sink)).limit(),
            ({
                let (after, all) = text::written(
                    (*old(sink)).limit(),
                    (*old(sink)).text(),
                    span_pieces(self, span),
                );
                (*final(sink)).text() == after && r is Ok == all
            }),
    {
        let mut pieces: Vec<String> = match self {
            NumericStyle::Arabic => {
                let mut digits: String = String::new();
                strings::push_decimal(&mut digits, span.value as u64);
                assert(digits@ =~= strings::decimal(span.value as nat));
                let mut one: Vec<String> = Vec::new();
                one.push(digits);
                assert(text::pieces_of(one@) =~= number_pieces(self, span.value as nat));
                one
            },
            NumericStyle::FullWidth => write_fullwidth(span.value),
            NumericStyle::Kanji => write_kanji(span.value),
        };
        let ghost before = text::pieces_of(pieces@);
        if let Some(counter) = span.counter {
            pieces.push(counter.surface().to_owned());
            assert(text::pieces_of(pieces@) =~= before.push(counter.surface_of()));
        }
        write_pieces(sink, &pieces)
    }
}

} // verus!
