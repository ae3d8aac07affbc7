//! Numbers in words: every way to say a number is read as the number.

use crate::numerals;
use crate::numerals::NumericCounter;
use crate::strings;
use vstd::prelude::*;

verus! {

/// Whether a word says a digit wherever it stands.
pub open spec fn says(d: int, w: Seq<char>) -> bool {
    ||| d == 0 && w == "ぜろ"@
    ||| d == 0 && w == "れい"@
    ||| d == 1 && w == "いち"@
    ||| d == 2 && w == "に"@
    ||| d == 3 && w == "さん"@
    ||| d == 4 && w == "よん"@
    ||| d == 5 && w == "ご"@
    ||| d == 6 && w == "ろく"@
    ||| d == 7 && w == "なな"@
    ||| d == 7 && w == "しち"@
    ||| d == 8 && w == "はち"@
    ||| d == 9 && w == "きゅう"@
}

/// Whether a word says a digit in front of a power of ten, where some are contracted, or
/// in front of something counted.
pub open spec fn says_in_front(d: int, w: Seq<char>) -> bool {
    ||| says(d, w)
    ||| d == 4 && w == "し"@
    ||| d == 9 && w == "く"@
}

/// Whether a word says a digit in front of a power of ten.
pub open spec fn says_in_place(d: int, w: Seq<char>) -> bool {
    ||| says_in_front(d, w)
    ||| d == 1 && w == "いっ"@
    ||| d == 6 && w == "ろっ"@
    ||| d == 8 && w == "はっ"@
}

/// Whether a word says a power of ten.
pub open spec fn says_power(power: int, m: Seq<char>) -> bool {
    ||| power == 1000 && (m == "せん"@ || m == "ぜん"@)
    ||| power == 100 && (m == "ひゃく"@ || m == "びゃく"@ || m == "ぴゃく"@)
    ||| power == 10 && m == "じゅう"@
}

/// Whether a word says what is counted.
pub open spec fn says_counter(counter: Option<NumericCounter>, w: Seq<char>) -> bool {
    match counter {
        None => w.len() == 0,
        Some(NumericCounter::Day) => w == "にち"@ || w == "じつ"@,
        Some(NumericCounter::Month) => w == "がつ"@,
        Some(NumericCounter::Year) => w == "ねん"@,
    }
}

/// A power of ten as it is said: how many of it, the word for that, and the word for the
/// power. One of it may be said without a word for one.
pub struct Place {
    pub digit: int,
    pub word: Seq<char>,
    pub power: Seq<char>,
}

/// The word for a power of ten with its digit.
pub open spec fn place_text(p: Option<Place>) -> Seq<char> {
    match p {
        Some(place) => place.word + place.power,
        None => Seq::empty(),
    }
}

/// How much it comes to.
pub open spec fn place_value(p: Option<Place>, power: int) -> int {
    match p {
        Some(place) => place.digit * power,
        None => 0,
    }
}

/// Whether it is said as it should be.
pub open spec fn place_said(p: Option<Place>, power: int) -> bool {
    p matches Some(place) ==> says_power(power, place.power) && (if place.word.len() == 0 {
        place.digit == 1
    } else {
        says_in_place(place.digit, place.word)
    })
}

/// A number as it is said, with what it counts.
pub struct Spoken {
    pub thousands: Option<Place>,
    pub hundreds: Option<Place>,
    pub tens: Option<Place>,
    pub ones: Option<(int, Seq<char>)>,
    pub counter: Option<NumericCounter>,
    pub counted: Seq<char>,
}

impl Spoken {
    /// The word for the ones.
    pub open spec fn ones_text(self) -> Seq<char> {
        match self.ones {
            Some((d, w)) => w,
            None => Seq::empty(),
        }
    }

    /// The digit of the ones.
    pub open spec fn ones_digit(self) -> int {
        match self.ones {
            Some((d, w)) => d,
            None => 0,
        }
    }

    /// What is said.
    pub open spec fn text(self) -> Seq<char> {
        place_text(self.thousands) + place_text(self.hundreds) + place_text(self.tens)
            + self.ones_text() + self.counted
    }

    /// What it comes to.
    pub open spec fn value(self) -> int {
        place_value(self.thousands, 1000) + place_value(self.hundreds, 100) + place_value(
            self.tens,
            10,
        ) + self.ones_digit()
    }

    /// Whether it is said as it should be, and is not nothing.
    pub open spec fn said(self) -> bool {
        &&& place_said(self.thousands, 1000)
        &&& place_said(self.hundreds, 100)
        &&& place_said(self.tens, 10)
        &&& self.ones matches Some((d, w)) ==> (if self.counter is Some {
            says_in_front(d, w)
        } else {
            says(d, w)
        })
        &&& says_counter(self.counter, self.counted)
        &&& self.thousands is Some || self.hundreds is Some || self.tens is Some || self.ones is Some
    }
}

// ---------------------------------------------------------------------------
// Single words.

/// A reading goes on with a token only where the token's first two characters stand.
proof fn lemma_starts(s: Seq<char>, i: int, token: Seq<char>)
    requires
        0 <= i,
        token.len() > 0,
    ensures
        numerals::leads(s, i, token) ==> i < s.len() && s[i] == token[0],
        numerals::leads(s, i, token) && token.len() > 1 ==> i + 1 < s.len() && s[i + 1] == token[1],
{
    if numerals::leads(s, i, token) {
        let part = s.subrange(i, i + token.len());
        assert(part[0] == s[i]);
        if token.len() > 1 {
            assert(part[1] == s[i + 1]);
        }
    }
}

/// What stands behind a word that may be the start of a longer one.
spec fn behind(s: Seq<char>, i: int) -> char {
    if 0 <= i < s.len() {
        s[i]
    } else {
        ' '
    }
}

/// A word for a digit is read as the digit.
proof fn lemma_digit(s: Seq<char>, i: int, d: int, w: Seq<char>, in_place: bool)
    requires
        0 <= i,
        numerals::leads(s, i, w),
        in_place ==> says_in_place(d, w),
        !in_place ==> says_in_front(d, w),
        behind(s, i + w.len()) != 'ち',
        !in_place ==> says(d, w) || numerals::counter_at(s, i + w.len()) is Some,
    ensures
        numerals::digit_at(s, i, in_place) == Some((d, w.len() as int)),
        0 <= d <= 9,
        w.len() > 0,
{
    reveal(numerals::digit_at);
    reveal_strlit("きゅう");
    reveal_strlit("いち");
    reveal_strlit("いっ");
    reveal_strlit("さん");
    reveal_strlit("よん");
    reveal_strlit("なな");
    reveal_strlit("しち");
    reveal_strlit("はち");
    reveal_strlit("はっ");
    reveal_strlit("ろく");
    reveal_strlit("ろっ");
    reveal_strlit("ぜろ");
    reveal_strlit("れい");
    reveal_strlit("し");
    reveal_strlit("く");
    reveal_strlit("ご");
    reveal_strlit("に");
    lemma_starts(s, i, "きゅう"@);
    lemma_starts(s, i, "いち"@);
    lemma_starts(s, i, "いっ"@);
    lemma_starts(s, i, "さん"@);
    lemma_starts(s, i, "よん"@);
    lemma_starts(s, i, "なな"@);
    lemma_starts(s, i, "しち"@);
    lemma_starts(s, i, "はち"@);
    lemma_starts(s, i, "はっ"@);
    lemma_starts(s, i, "ろく"@);
    lemma_starts(s, i, "ろっ"@);
    lemma_starts(s, i, "ぜろ"@);
    lemma_starts(s, i, "れい"@);
    lemma_starts(s, i, "し"@);
    lemma_starts(s, i, "く"@);
    lemma_starts(s, i, "ご"@);
    lemma_starts(s, i, "に"@);
}

/// Where no word for a digit starts, none is read.
proof fn lemma_no_digit(s: Seq<char>, i: int, in_place: bool)
    requires
        0 <= i,
        i < s.len() ==> (s[i] == 'せ' || s[i] == 'ひ' || s[i] == 'び' || s[i] == 'ぴ' || s[i] == 'じ'
            || s[i] == 'が' || s[i] == 'ね' || (s[i] == 'ぜ' && behind(s, i + 1) == 'ん')),
    ensures
        numerals::digit_at(s, i, in_place) is None,
{
    reveal(numerals::digit_at);
    reveal_strlit("きゅう");
    reveal_strlit("いち");
    reveal_strlit("いっ");
    reveal_strlit("さん");
    reveal_strlit("よん");
    reveal_strlit("なな");
    reveal_strlit("しち");
    reveal_strlit("はち");
    reveal_strlit("はっ");
    reveal_strlit("ろく");
    reveal_strlit("ろっ");
    reveal_strlit("ぜろ");
    reveal_strlit("れい");
    reveal_strlit("し");
    reveal_strlit("く");
    reveal_strlit("ご");
    reveal_strlit("に");
    lemma_starts(s, i, "きゅう"@);
    lemma_starts(s, i, "いち"@);
    lemma_starts(s, i, "いっ"@);
    lemma_starts(s, i, "さん"@);
    lemma_starts(s, i, "よん"@);
    lemma_starts(s, i, "なな"@);
    lemma_starts(s, i, "しち"@);
    lemma_starts(s, i, "はち"@);
    lemma_starts(s, i, "はっ"@);
    lemma_starts(s, i, "ろく"@);
    lemma_starts(s, i, "ろっ"@);
    lemma_starts(s, i, "ぜろ"@);
    lemma_starts(s, i, "れい"@);
    lemma_starts(s, i, "し"@);
    lemma_starts(s, i, "く"@);
    lemma_starts(s, i, "ご"@);
    lemma_starts(s, i, "に"@);
}

/// The words for the powers of ten that are looked for.
spec fn words_for(power: int) -> Seq<Seq<char>> {
    if power == 10000 {
        seq!["まん"@]
    } else if power == 1000 {
        seq!["せん"@, "ぜん"@]
    } else if power == 100 {
        seq!["ひゃく"@, "びゃく"@, "ぴゃく"@]
    } else {
        seq!["じゅう"@]
    }
}

/// Whether a number is one of the powers of ten that are looked for.
spec fn is_power(power: int) -> bool {
    power == 10000 || power == 1000 || power == 100 || power == 10
}

/// A word for a power of ten is read as the power, and as no other.
proof fn lemma_power(s: Seq<char>, i: int, m: Seq<char>, power: int, wanted: int)
    requires
        0 <= i,
        numerals::leads(s, i, m),
        says_power(power, m),
        is_power(wanted),
    ensures
        numerals::marker_at(s, i, words_for(wanted)) == if wanted == power {
            Some(m.len() as int)
        } else {
            None::<int>
        },
        m.len() > 1,
        i < s.len(),
        s[i] == m[0],
        s[i + 1] == m[1],
        m[0] == 'せ' || m[0] == 'ひ' || m[0] == 'び' || m[0] == 'ぴ' || m[0] == 'じ' || (m[0] == 'ぜ'
            && m[1] == 'ん'),
{
    reveal_with_fuel(numerals::marker_at, 4);
    reveal_strlit("まん");
    reveal_strlit("せん");
    reveal_strlit("ぜん");
    reveal_strlit("ひゃく");
    reveal_strlit("びゃく");
    reveal_strlit("ぴゃく");
    reveal_strlit("じゅう");
    lemma_starts(s, i, "まん"@);
    lemma_starts(s, i, "せん"@);
    lemma_starts(s, i, "ぜん"@);
    lemma_starts(s, i, "ひゃく"@);
    lemma_starts(s, i, "びゃく"@);
    lemma_starts(s, i, "ぴゃく"@);
    lemma_starts(s, i, "じゅう"@);
    lemma_starts(s, i, m);
    let two = seq!["せん"@, "ぜん"@];
    assert(two.skip(1) =~= seq!["ぜん"@]);
    let three = seq!["ひゃく"@, "びゃく"@, "ぴゃく"@];
    assert(three.skip(1) =~= seq!["びゃく"@, "ぴゃく"@]);
    assert(three.skip(1).skip(1) =~= seq!["ぴゃく"@]);
}

/// Where no word for a power of ten starts, none is read.
proof fn lemma_no_power(s: Seq<char>, i: int, wanted: int)
    requires
        0 <= i,
        is_power(wanted),
        i < s.len() ==> s[i] == 'に' || s[i] == 'ち' || s[i] == 'が' || s[i] == 'ね' || (s[i] == 'じ'
            && behind(s, i + 1) == 'つ'),
    ensures
        numerals::marker_at(s, i, words_for(wanted)) is None,
{
    reveal_with_fuel(numerals::marker_at, 4);
    reveal_strlit("まん");
    reveal_strlit("せん");
    reveal_strlit("ぜん");
    reveal_strlit("ひゃく");
    reveal_strlit("びゃく");
    reveal_strlit("ぴゃく");
    reveal_strlit("じゅう");
    lemma_starts(s, i, "まん"@);
    lemma_starts(s, i, "せん"@);
    lemma_starts(s, i, "ぜん"@);
    lemma_starts(s, i, "ひゃく"@);
    lemma_starts(s, i, "びゃく"@);
    lemma_starts(s, i, "ぴゃく"@);
    lemma_starts(s, i, "じゅう"@);
    let two = seq!["せん"@, "ぜん"@];
    assert(two.skip(1) =~= seq!["ぜん"@]);
    let three = seq!["ひゃく"@, "びゃく"@, "ぴゃく"@];
    assert(three.skip(1) =~= seq!["びゃく"@, "ぴゃく"@]);
    assert(three.skip(1).skip(1) =~= seq!["ぴゃく"@]);
}

// ---------------------------------------------------------------------------
// Parts of a number.

/// A power of ten with its digit is read as what it comes to, and as no other power.
proof fn lemma_place(s: Seq<char>, i: int, p: Place, power: int, wanted: int)
    requires
        0 <= i,
        power == 1000 || power == 100 || power == 10,
        place_said(Some(p), power),
        numerals::leads(s, i, p.word + p.power),
        is_power(wanted),
    ensures
        numerals::place_at(s, i, words_for(wanted), wanted) == if wanted == power {
            Some((p.digit * power, (p.word + p.power).len() as int))
        } else {
            None::<(int, int)>
        },
{
    reveal(numerals::place_at);
    let n = p.word.len() as int;
    let whole = p.word + p.power;
    assert(s.subrange(i, i + n) =~= p.word) by {
        assert(s.subrange(i, i + whole.len()).take(n) =~= s.subrange(i, i + n));
        assert(whole.take(n) =~= p.word);
    }
    assert(s.subrange(i + n, i + whole.len()) =~= p.power) by {
        assert(s.subrange(i, i + whole.len()).skip(n) =~= s.subrange(i + n, i + whole.len()));
        assert(whole.skip(n) =~= p.power);
    }
    lemma_power(s, i + n, p.power, power, wanted);
    if n == 0 {
        lemma_no_digit(s, i, true);
    } else {
        lemma_digit(s, i, p.digit, p.word, true);
    }
}

/// What follows the powers of ten of a number: the ones, what is counted, and the end.
spec fn ends_with(s: Seq<char>, i: int, n: Spoken) -> bool {
    &&& 0 <= i <= s.len()
    &&& s.skip(i) == n.ones_text() + n.counted
}

/// What stands where something counted starts, or at the end.
proof fn lemma_tail(s: Seq<char>, i: int, counter: Option<NumericCounter>, w: Seq<char>)
    requires
        0 <= i <= s.len(),
        s.skip(i) == w,
        says_counter(counter, w),
    ensures
        counter is None ==> i == s.len(),
        counter is Some ==> i + 2 == s.len(),
        i < s.len() ==> s[i] == 'に' || s[i] == 'が' || s[i] == 'ね' || (s[i] == 'じ' && behind(s, i + 1)
            == 'つ'),
        i < s.len() && s[i] == 'に' ==> behind(s, i + 1) == 'ち',
        numerals::counter_at(s, i) == match counter {
            Some(c) => Some((c, w.len() as int)),
            None => None,
        },
{
    reveal_strlit("にち");
    reveal_strlit("じつ");
    reveal_strlit("がつ");
    reveal_strlit("ねん");
    lemma_starts(s, i, "にち"@);
    lemma_starts(s, i, "じつ"@);
    lemma_starts(s, i, "がつ"@);
    lemma_starts(s, i, "ねん"@);
    assert(s.skip(i).len() == w.len());
    if w.len() > 0 {
        assert(s.skip(i)[0] == s[i]);
        assert(s.skip(i)[1] == s[i + 1]);
        assert(s.subrange(i, i + w.len()) =~= s.skip(i));
    }
}

/// The ones of a number, as a digit that may stand in front of a power of ten.
proof fn lemma_ones(s: Seq<char>, i: int, n: Spoken, in_place: bool)
    requires
        n.said(),
        ends_with(s, i, n),
        n.ones is Some,
    ensures
        numerals::digit_at(s, i, in_place) == Some((n.ones_digit(), n.ones_text().len() as int)),
        0 <= n.ones_digit() <= 9,
        n.ones_text().len() > 0,
        i + n.ones_text().len() <= s.len(),
        s.skip(i + n.ones_text().len()) == n.counted,
        numerals::counter_at(s, i) is None,
{
    let (d, w) = n.ones->0;
    let j = i + w.len();
    let rest = w + n.counted;
    assert(s.skip(i).len() == rest.len());
    assert(s.subrange(i, j) =~= w) by {
        assert(s.skip(i).take(w.len() as int) =~= s.subrange(i, j));
        assert(rest.take(w.len() as int) =~= w);
    }
    assert(s.skip(j) =~= n.counted) by {
        assert(s.skip(i).skip(w.len() as int) =~= s.skip(j));
        assert(rest.skip(w.len() as int) =~= n.counted);
    }
    lemma_tail(s, j, n.counter, n.counted);
    lemma_digit(s, i, d, w, in_place);
    reveal_strlit("にち");
    reveal_strlit("じつ");
    reveal_strlit("がつ");
    reveal_strlit("ねん");
    reveal_strlit("きゅう");
    reveal_strlit("いち");
    reveal_strlit("いっ");
    reveal_strlit("さん");
    reveal_strlit("よん");
    reveal_strlit("なな");
    reveal_strlit("しち");
    reveal_strlit("はち");
    reveal_strlit("はっ");
    reveal_strlit("ろく");
    reveal_strlit("ろっ");
    reveal_strlit("ぜろ");
    reveal_strlit("れい");
    reveal_strlit("し");
    reveal_strlit("く");
    reveal_strlit("ご");
    reveal_strlit("に");
    lemma_starts(s, i, "にち"@);
    lemma_starts(s, i, "じつ"@);
    lemma_starts(s, i, "がつ"@);
    lemma_starts(s, i, "ねん"@);
    lemma_starts(s, i, w);
}

/// Behind the powers of ten no power of ten is read.
proof fn lemma_no_place(s: Seq<char>, i: int, n: Spoken, wanted: int)
    requires
        n.said(),
        ends_with(s, i, n),
        is_power(wanted),
    ensures
        numerals::place_at(s, i, words_for(wanted), wanted) is None,
{
    reveal(numerals::place_at);
    if n.ones is Some {
        lemma_ones(s, i, n, true);
        let j = i + n.ones_text().len();
        lemma_tail(s, j, n.counter, n.counted);
        lemma_no_power(s, j, wanted);
    } else {
        assert(n.ones_text() + n.counted =~= n.counted);
        lemma_tail(s, i, n.counter, n.counted);
        if i < s.len() && s[i] == 'に' {
            reveal_strlit("に");
            assert(s.subrange(i, i + 1) =~= "に"@);
            lemma_two(s, i);
            lemma_no_power(s, i + 1, wanted);
        } else {
            if i < s.len() {
                lemma_no_digit(s, i, true);
            } else {
                lemma_nothing(s, i);
            }
            lemma_no_power(s, i, wanted);
        }
    }
}

/// に is read as two.
proof fn lemma_two(s: Seq<char>, i: int)
    requires
        0 <= i < s.len(),
        s[i] == 'に',
    ensures
        numerals::digit_at(s, i, true) == Some((2int, 1int)),
        numerals::digit_at(s, i, false) == Some((2int, 1int)),
{
    reveal(numerals::digit_at);
    reveal_strlit("きゅう");
    reveal_strlit("いち");
    reveal_strlit("いっ");
    reveal_strlit("さん");
    reveal_strlit("よん");
    reveal_strlit("なな");
    reveal_strlit("しち");
    reveal_strlit("はち");
    reveal_strlit("はっ");
    reveal_strlit("ろく");
    reveal_strlit("ろっ");
    reveal_strlit("ぜろ");
    reveal_strlit("れい");
    reveal_strlit("し");
    reveal_strlit("く");
    reveal_strlit("ご");
    reveal_strlit("に");
    lemma_starts(s, i, "きゅう"@);
    lemma_starts(s, i, "いち"@);
    lemma_starts(s, i, "いっ"@);
    lemma_starts(s, i, "さん"@);
    lemma_starts(s, i, "よん"@);
    lemma_starts(s, i, "なな"@);
    lemma_starts(s, i, "しち"@);
    lemma_starts(s, i, "はち"@);
    lemma_starts(s, i, "はっ"@);
    lemma_starts(s, i, "ろく"@);
    lemma_starts(s, i, "ろっ"@);
    lemma_starts(s, i, "ぜろ"@);
    lemma_starts(s, i, "れい"@);
    lemma_starts(s, i, "し"@);
    lemma_starts(s, i, "く"@);
    lemma_starts(s, i, "ご"@);
    lemma_starts(s, i, "に"@);
    assert(s.subrange(i, i + 1) =~= "に"@);
}

/// Nothing is read at the end.
proof fn lemma_nothing(s: Seq<char>, i: int)
    requires
        i >= s.len(),
        i >= 0,
    ensures
        numerals::digit_at(s, i, true) is None,
        numerals::digit_at(s, i, false) is None,
{
    reveal(numerals::digit_at);
    reveal_strlit("きゅう");
    reveal_strlit("いち");
    reveal_strlit("いっ");
    reveal_strlit("さん");
    reveal_strlit("よん");
    reveal_strlit("なな");
    reveal_strlit("しち");
    reveal_strlit("はち");
    reveal_strlit("はっ");
    reveal_strlit("ろく");
    reveal_strlit("ろっ");
    reveal_strlit("ぜろ");
    reveal_strlit("れい");
    reveal_strlit("し");
    reveal_strlit("く");
    reveal_strlit("ご");
    reveal_strlit("に");
}

/// One part after the other: where each power of ten ends, and that none is read where
/// none is said.
proof fn lemma_places(s: Seq<char>, n: Spoken)
    requires
        n.said(),
        s == n.text(),
    ensures
        numerals::words_places(s).0 == place_value(n.thousands, 1000) + place_value(
            n.hundreds,
            100,
        ) + place_value(n.tens, 10),
        ends_with(s, numerals::words_places(s).1, n),
        numerals::words_places(s).2 == (n.thousands is Some || n.hundreds is Some || n.tens
            is Some),
{
    let i1 = place_text(n.thousands).len() as int;
    let i2 = i1 + place_text(n.hundreds).len();
    lemma_layout(s, n);
    assert(words_for(10000) =~= seq!["まん"@]);
    lemma_first_part(s, 0, n, 0, 10000);
    lemma_first_part(s, 0, n, 0, 1000);
    lemma_first_part(s, i1, n, 1, 100);
    lemma_first_part(s, i2, n, 2, 10);
}

/// Where the parts of a number stand.
proof fn lemma_layout(s: Seq<char>, n: Spoken)
    requires
        s == n.text(),
    ensures
        ({
            let i1 = place_text(n.thousands).len() as int;
            let i2 = i1 + place_text(n.hundreds).len();
            let i3 = i2 + place_text(n.tens).len();
            &&& i3 <= s.len()
            &&& s.skip(0) == rest_from(n, 0)
            &&& s.skip(i1) == rest_from(n, 1)
            &&& s.skip(i2) == rest_from(n, 2)
            &&& s.skip(i3) == rest_from(n, 3)
        }),
{
    let (a, b, c) = (place_text(n.thousands), place_text(n.hundreds), place_text(n.tens));
    let d = n.ones_text() + n.counted;
    assert(s =~= a + (b + (c + d)));
    lemma_skip(a, b + (c + d));
    lemma_skip(b, c + d);
    lemma_skip(c, d);
    assert(s.skip(0) =~= s);
    assert(s.skip((a.len() + b.len()) as int) =~= s.skip(a.len() as int).skip(b.len() as int));
    assert(s.skip((a.len() + b.len() + c.len()) as int) =~= s.skip(
        (a.len() + b.len()) as int,
    ).skip(c.len() as int));
}

proof fn lemma_skip(a: Seq<char>, b: Seq<char>)
    ensures
        (a + b).skip(a.len() as int) == b,
{
    assert((a + b).skip(a.len() as int) =~= b);
}

/// The parts of a number from the `k`-th on.
spec fn rest_from(n: Spoken, k: int) -> Seq<char> {
    let last = n.ones_text() + n.counted;
    if k == 0 {
        place_text(n.thousands) + (place_text(n.hundreds) + (place_text(n.tens) + last))
    } else if k == 1 {
        place_text(n.hundreds) + (place_text(n.tens) + last)
    } else if k == 2 {
        place_text(n.tens) + last
    } else {
        last
    }
}

/// The first power of ten of a number from the `k`-th on, with what it is.
spec fn first_place(n: Spoken, k: int) -> Option<(Place, int)> {
    if k <= 0 && n.thousands is Some {
        Some((n.thousands->0, 1000))
    } else if k <= 1 && n.hundreds is Some {
        Some((n.hundreds->0, 100))
    } else if k <= 2 && n.tens is Some {
        Some((n.tens->0, 10))
    } else {
        None
    }
}

/// What is read of the parts of a number from the `k`-th on: the first of them where its
/// power is looked for, and else nothing.
proof fn lemma_first_part(s: Seq<char>, i: int, n: Spoken, k: int, wanted: int)
    requires
        n.said(),
        0 <= k <= 3,
        0 <= i <= s.len(),
        s.skip(i) == rest_from(n, k),
        is_power(wanted),
    ensures
        numerals::place_at(s, i, words_for(wanted), wanted) == match first_place(n, k) {
            Some((p, power)) => if power == wanted {
                Some((p.digit * wanted, (p.word + p.power).len() as int))
            } else {
                None::<(int, int)>
            },
            None => None::<(int, int)>,
        },
    decreases 3 - k,
{
    if k == 3 {
        lemma_no_place(s, i, n, wanted);
    } else {
        let (here, power): (Option<Place>, int) = if k == 0 {
            (n.thousands, 1000)
        } else if k == 1 {
            (n.hundreds, 100)
        } else {
            (n.tens, 10)
        };
        let rest = rest_from(n, k);
        match here {
            Some(p) => {
                let m = (p.word + p.power).len() as int;
                assert(s.skip(i).len() == rest.len());
                assert(rest.take(m) =~= p.word + p.power);
                assert(s.skip(i).take(m) =~= s.subrange(i, i + m));
                lemma_place(s, i, p, power, wanted);
            },
            None => {
                assert(rest =~= rest_from(n, k + 1));
                lemma_first_part(s, i, n, k + 1, wanted);
            },
        }
    }
}

// ---------------------------------------------------------------------------
// Whole numbers.

/// A letter of the words for numbers and for what is counted.
spec fn letter(c: char) -> bool {
    c != 'か' && c != 'た' && !numerals::ascii_digit(c) && !numerals::full_digit(c)
}

/// Whether a text is made of such letters.
spec fn letters(s: Seq<char>) -> bool {
    forall|i: int| 0 <= i < s.len() ==> letter(#[trigger] s[i])
}

proof fn lemma_letters(a: Seq<char>, b: Seq<char>)
    requires
        letters(a),
        letters(b),
    ensures
        letters(a + b),
{
    let whole = a + b;
    assert forall|i: int| 0 <= i < whole.len() implies letter(#[trigger] whole[i]) by {
        if i < a.len() {
            assert(whole[i] == a[i]);
        } else {
            assert(whole[i] == b[i - a.len()]);
        }
    }
}

proof fn lemma_digit_letters(d: int, w: Seq<char>)
    requires
        says_in_place(d, w),
    ensures
        letters(w),
{
    reveal_strlit("きゅう");
    reveal_strlit("いち");
    reveal_strlit("いっ");
    reveal_strlit("さん");
    reveal_strlit("よん");
    reveal_strlit("なな");
    reveal_strlit("しち");
    reveal_strlit("はち");
    reveal_strlit("はっ");
    reveal_strlit("ろく");
    reveal_strlit("ろっ");
    reveal_strlit("ぜろ");
    reveal_strlit("れい");
    reveal_strlit("し");
    reveal_strlit("く");
    reveal_strlit("ご");
    reveal_strlit("に");
}

proof fn lemma_power_letters(power: int, m: Seq<char>)
    requires
        says_power(power, m),
    ensures
        letters(m),
{
    reveal_strlit("まん");
    reveal_strlit("せん");
    reveal_strlit("ぜん");
    reveal_strlit("ひゃく");
    reveal_strlit("びゃく");
    reveal_strlit("ぴゃく");
    reveal_strlit("じゅう");
}

proof fn lemma_place_letters(p: Option<Place>, power: int)
    requires
        place_said(p, power),
    ensures
        letters(place_text(p)),
{
    if let Some(place) = p {
        if place.word.len() > 0 {
            lemma_digit_letters(place.digit, place.word);
        }
        lemma_power_letters(power, place.power);
        lemma_letters(place.word, place.power);
    }
}

proof fn lemma_text_letters(n: Spoken)
    requires
        n.said(),
    ensures
        letters(n.text()),
{
    reveal_strlit("にち");
    reveal_strlit("じつ");
    reveal_strlit("がつ");
    reveal_strlit("ねん");
    lemma_place_letters(n.thousands, 1000);
    lemma_place_letters(n.hundreds, 100);
    lemma_place_letters(n.tens, 10);
    if let Some((d, w)) = n.ones {
        lemma_digit_letters(d, w);
    }
    assert(letters(n.counted));
    let (a, b, c) = (place_text(n.thousands), place_text(n.hundreds), place_text(n.tens));
    lemma_letters(a, b);
    lemma_letters(a + b, c);
    lemma_letters(a + b + c, n.ones_text());
    lemma_letters(a + b + c + n.ones_text(), n.counted);
}

/// A token with か or た in it is no start of such a text.
proof fn lemma_no_token(s: Seq<char>, token: Seq<char>, k: int)
    requires
        letters(s),
        0 <= k < token.len(),
        token[k] == 'か' || token[k] == 'た',
    ensures
        !numerals::leads(s, 0, token),
{
    if numerals::leads(s, 0, token) {
        assert(s.subrange(0, token.len() as int)[k] == s[k]);
    }
}

/// No day with a reading of its own is read in such a text.
proof fn lemma_no_day(s: Seq<char>)
    requires
        letters(s),
    ensures
        numerals::day_at(s, 0) is None,
{
    reveal_strlit("にじゅうよっか");
    reveal_strlit("じゅうよっか");
    reveal_strlit("ここのか");
    reveal_strlit("ついたち");
    reveal_strlit("とおか");
    reveal_strlit("はつか");
    reveal_strlit("ふつか");
    reveal_strlit("みっか");
    reveal_strlit("よっか");
    reveal_strlit("いつか");
    reveal_strlit("むいか");
    reveal_strlit("なのか");
    reveal_strlit("ようか");
    lemma_no_token(s, "にじゅうよっか"@, 6);
    lemma_no_token(s, "じゅうよっか"@, 5);
    lemma_no_token(s, "ここのか"@, 3);
    lemma_no_token(s, "ついたち"@, 2);
    lemma_no_token(s, "とおか"@, 2);
    lemma_no_token(s, "はつか"@, 2);
    lemma_no_token(s, "ふつか"@, 2);
    lemma_no_token(s, "みっか"@, 2);
    lemma_no_token(s, "よっか"@, 2);
    lemma_no_token(s, "いつか"@, 2);
    lemma_no_token(s, "むいか"@, 2);
    lemma_no_token(s, "なのか"@, 2);
    lemma_no_token(s, "ようか"@, 2);
}

/// No number in digits is read in such a text.
proof fn lemma_no_digits(s: Seq<char>)
    requires
        letters(s),
    ensures
        numerals::ascii_number(s) is None,
        numerals::full_number(s) is None,
{
    if s.len() > 0 {
        assert(letter(s[0]));
    }
}

/// A number that is said is read as the number, with what it counts, to the end.
pub proof fn spoken_numbers_read_back(n: Spoken)
    requires
        n.said(),
    ensures
        numerals::number_at_start(n.text()) == Some(
            (n.value(), n.counter, n.text().len() as int),
        ),
{
    let s = n.text();
    lemma_text_letters(n);
    lemma_no_day(s);
    lemma_no_digits(s);
    lemma_places(s, n);
    lemma_values(n);
    let (places, i, any) = numerals::words_places(s);
    if n.ones is Some {
        lemma_ones(s, i, n, false);
        lemma_tail(s, i + n.ones_text().len(), n.counter, n.counted);
    } else {
        assert(n.ones_text() + n.counted =~= n.counted);
        lemma_tail(s, i, n.counter, n.counted);
        if i < s.len() && s[i] == 'に' {
            lemma_two(s, i);
            lemma_no_counter_behind(s, i + 1);
        } else if i < s.len() {
            lemma_no_digit(s, i, false);
        } else {
            lemma_nothing(s, i);
        }
    }
}

/// ち starts nothing that is counted.
proof fn lemma_no_counter_behind(s: Seq<char>, i: int)
    requires
        0 <= i < s.len(),
        s[i] == 'ち',
    ensures
        numerals::counter_at(s, i) is None,
{
    reveal_strlit("にち");
    reveal_strlit("じつ");
    reveal_strlit("がつ");
    reveal_strlit("ねん");
    lemma_starts(s, i, "にち"@);
    lemma_starts(s, i, "じつ"@);
    lemma_starts(s, i, "がつ"@);
    lemma_starts(s, i, "ねん"@);
}

/// A number that is said is within what is read.
proof fn lemma_values(n: Spoken)
    requires
        n.said(),
    ensures
        0 <= n.value() <= 9999,
        n.ones is None ==> n.value() <= 9990,
{
    lemma_place_value(n.thousands, 1000);
    lemma_place_value(n.hundreds, 100);
    lemma_place_value(n.tens, 10);
}

proof fn lemma_place_value(p: Option<Place>, power: int)
    requires
        place_said(p, power),
        power == 1000 || power == 100 || power == 10,
    ensures
        0 <= place_value(p, power) <= 9 * power,
{
}

// ---------------------------------------------------------------------------
// The ordinary reading of a number.

/// The ordinary word for a digit.
pub open spec fn digit_word(d: int) -> Seq<char> {
    if d == 1 {
        "いち"@
    } else if d == 2 {
        "に"@
    } else if d == 3 {
        "さん"@
    } else if d == 4 {
        "よん"@
    } else if d == 5 {
        "ご"@
    } else if d == 6 {
        "ろく"@
    } else if d == 7 {
        "なな"@
    } else if d == 8 {
        "はち"@
    } else {
        "きゅう"@
    }
}

/// The ordinary reading of thousands.
pub open spec fn thousands_word(d: int) -> Seq<char> {
    if d == 0 {
        Seq::empty()
    } else if d == 1 {
        "せん"@
    } else if d == 3 {
        "さん"@ + "ぜん"@
    } else if d == 8 {
        "はっ"@ + "せん"@
    } else {
        digit_word(d) + "せん"@
    }
}

/// The ordinary reading of hundreds.
pub open spec fn hundreds_word(d: int) -> Seq<char> {
    if d == 0 {
        Seq::empty()
    } else if d == 1 {
        "ひゃく"@
    } else if d == 3 {
        "さん"@ + "びゃく"@
    } else if d == 6 {
        "ろっ"@ + "ぴゃく"@
    } else if d == 8 {
        "はっ"@ + "ぴゃく"@
    } else {
        digit_word(d) + "ひゃく"@
    }
}

/// The ordinary reading of tens.
pub open spec fn tens_word(d: int) -> Seq<char> {
    if d == 0 {
        Seq::empty()
    } else if d == 1 {
        "じゅう"@
    } else {
        digit_word(d) + "じゅう"@
    }
}

/// The ordinary reading of a number from one to 9999.
pub open spec fn ordinary(v: int) -> Seq<char> {
    thousands_word(v / 1000) + hundreds_word(v / 100 % 10) + tens_word(v / 10 % 10) + (if v % 10
        == 0 {
        Seq::empty()
    } else {
        digit_word(v % 10)
    })
}

/// A power of ten in its ordinary reading.
spec fn ordinary_place(d: int, power: int) -> Option<Place> {
    let none = Seq::<char>::empty();
    if d == 0 {
        None
    } else if power == 1000 {
        Some(
            Place {
                digit: d,
                word: if d == 1 {
                    none
                } else if d == 8 {
                    "はっ"@
                } else {
                    digit_word(d)
                },
                power: if d == 3 {
                    "ぜん"@
                } else {
                    "せん"@
                },
            },
        )
    } else if power == 100 {
        Some(
            Place {
                digit: d,
                word: if d == 1 {
                    none
                } else if d == 6 {
                    "ろっ"@
                } else if d == 8 {
                    "はっ"@
                } else {
                    digit_word(d)
                },
                power: if d == 3 {
                    "びゃく"@
                } else if d == 6 || d == 8 {
                    "ぴゃく"@
                } else {
                    "ひゃく"@
                },
            },
        )
    } else {
        Some(
            Place {
                digit: d,
                word: if d == 1 {
                    none
                } else {
                    digit_word(d)
                },
                power: "じゅう"@,
            },
        )
    }
}

proof fn lemma_ordinary_place(d: int, power: int)
    requires
        0 <= d <= 9,
        power == 1000 || power == 100 || power == 10,
    ensures
        place_said(ordinary_place(d, power), power),
        place_value(ordinary_place(d, power), power) == d * power,
        place_text(ordinary_place(d, power)) == if power == 1000 {
            thousands_word(d)
        } else if power == 100 {
            hundreds_word(d)
        } else {
            tens_word(d)
        },
{
    reveal_strlit("きゅう");
    reveal_strlit("いち");
    reveal_strlit("いっ");
    reveal_strlit("さん");
    reveal_strlit("よん");
    reveal_strlit("なな");
    reveal_strlit("しち");
    reveal_strlit("はち");
    reveal_strlit("はっ");
    reveal_strlit("ろく");
    reveal_strlit("ろっ");
    reveal_strlit("ぜろ");
    reveal_strlit("れい");
    reveal_strlit("し");
    reveal_strlit("く");
    reveal_strlit("ご");
    reveal_strlit("に");
    let none = Seq::<char>::empty();
    assert(none + "せん"@ =~= "せん"@);
    assert(none + "ひゃく"@ =~= "ひゃく"@);
    assert(none + "じゅう"@ =~= "じゅう"@);
}

/// The digits of a number add up to the number.
proof fn lemma_digits_add_up(v: int)
    requires
        0 <= v <= 9999,
    ensures
        v / 1000 * 1000 + v / 100 % 10 * 100 + v / 10 % 10 * 10 + v % 10 == v,
        0 <= v / 1000 <= 9,
{
    let (a, b, c) = (v / 10, v / 100, v / 1000);
    assert(v == 10 * a + v % 10);
    assert(a == 10 * b + a % 10);
    assert(b == 10 * c + b % 10);
}

proof fn lemma_digit_word(d: int)
    requires
        1 <= d <= 9,
    ensures
        says(d, digit_word(d)),
{
}

/// The ordinary reading of every number reads back as the number.
pub proof fn ordinary_readings_read_back(v: int)
    requires
        1 <= v <= 9999,
    ensures
        numerals::number_at_start(ordinary(v)) == Some(
            (v, None::<NumericCounter>, ordinary(v).len() as int),
        ),
{
    let (a, b, c, d) = (v / 1000, v / 100 % 10, v / 10 % 10, v % 10);
    lemma_digits_add_up(v);
    lemma_ordinary(a, b, c, d);
}

proof fn lemma_ordinary(a: int, b: int, c: int, d: int)
    requires
        0 <= a <= 9,
        0 <= b <= 9,
        0 <= c <= 9,
        0 <= d <= 9,
        a + b + c + d > 0,
    ensures
        ({
            let s = thousands_word(a) + hundreds_word(b) + tens_word(c) + (if d == 0 {
                Seq::empty()
            } else {
                digit_word(d)
            });
            numerals::number_at_start(s) == Some(
                (a * 1000 + b * 100 + c * 10 + d, None::<NumericCounter>, s.len() as int),
            )
        }),
{
    let n = Spoken {
        thousands: ordinary_place(a, 1000),
        hundreds: ordinary_place(b, 100),
        tens: ordinary_place(c, 10),
        ones: if d == 0 {
            None
        } else {
            Some((d, digit_word(d)))
        },
        counter: None,
        counted: Seq::empty(),
    };
    lemma_ordinary_place(a, 1000);
    lemma_ordinary_place(b, 100);
    lemma_ordinary_place(c, 10);
    if d > 0 {
        lemma_digit_word(d);
    }
    let s = thousands_word(a) + hundreds_word(b) + tens_word(c) + n.ones_text();
    assert(n.text() =~= s);
    spoken_numbers_read_back(n);
}

// ---------------------------------------------------------------------------
// Days with a reading of their own.

/// The days of the month that have a reading of their own, in order.
pub open spec fn own_readings() -> Seq<(int, Seq<char>)> {
    seq![
        (1int, "ついたち"@),
        (2int, "ふつか"@),
        (3int, "みっか"@),
        (4int, "よっか"@),
        (5int, "いつか"@),
        (6int, "むいか"@),
        (7int, "なのか"@),
        (8int, "ようか"@),
        (9int, "ここのか"@),
        (10int, "とおか"@),
        (14int, "じゅうよっか"@),
        (20int, "はつか"@),
        (24int, "にじゅうよっか"@),
    ]
}

/// A day with a reading of its own is read as the day, whatever follows.
#[verifier::spinoff_prover]
#[verifier::rlimit(60)]
pub proof fn own_readings_read_back(k: int, rest: Seq<char>)
    requires
        0 <= k < own_readings().len(),
    ensures
        ({
            let (day, reading) = own_readings()[k];
            numerals::number_at_start(reading + rest) == Some(
                (day, Some(NumericCounter::Day), reading.len() as int),
            )
        }),
{
    let (day, reading) = own_readings()[k];
    let s = reading + rest;
    reveal_strlit("にじゅうよっか");
    reveal_strlit("じゅうよっか");
    reveal_strlit("ここのか");
    reveal_strlit("ついたち");
    reveal_strlit("とおか");
    reveal_strlit("はつか");
    reveal_strlit("ふつか");
    reveal_strlit("みっか");
    reveal_strlit("よっか");
    reveal_strlit("いつか");
    reveal_strlit("むいか");
    reveal_strlit("なのか");
    reveal_strlit("ようか");
    assert(s.subrange(0, reading.len() as int) =~= reading);
    assert forall|j: int| 0 <= j < reading.len() implies s[j] == reading[j] by {}
    assert(s[0] == reading[0] && s[1] == reading[1] && s[2] == reading[2]);
    lemma_starts(s, 0, "にじゅうよっか"@);
    lemma_starts(s, 0, "じゅうよっか"@);
    lemma_starts(s, 0, "ここのか"@);
    lemma_starts(s, 0, "ついたち"@);
    lemma_starts(s, 0, "とおか"@);
    lemma_starts(s, 0, "はつか"@);
    lemma_starts(s, 0, "ふつか"@);
    lemma_starts(s, 0, "みっか"@);
    lemma_starts(s, 0, "よっか"@);
    lemma_starts(s, 0, "いつか"@);
    lemma_starts(s, 0, "むいか"@);
    lemma_starts(s, 0, "なのか"@);
    lemma_starts(s, 0, "ようか"@);
    lemma_third(s, "にじゅうよっか"@);
    lemma_third(s, "じゅうよっか"@);
    lemma_third(s, "ここのか"@);
    lemma_third(s, "ついたち"@);
    lemma_third(s, "とおか"@);
    lemma_third(s, "はつか"@);
    lemma_third(s, "ふつか"@);
    lemma_third(s, "みっか"@);
    lemma_third(s, "よっか"@);
    lemma_third(s, "いつか"@);
    lemma_third(s, "むいか"@);
    lemma_third(s, "なのか"@);
    lemma_third(s, "ようか"@);
}

/// A reading starts with a token only where the token's third character stands.
proof fn lemma_third(s: Seq<char>, token: Seq<char>)
    requires
        token.len() > 2,
    ensures
        numerals::leads(s, 0, token) ==> s.len() > 2 && s[2] == token[2],
{
    if numerals::leads(s, 0, token) {
        assert(s.subrange(0, token.len() as int)[2] == s[2]);
    }
}

// ---------------------------------------------------------------------------
// What is written.

/// What digits come to, with `zero` for the digit zero.
pub open spec fn comes_to(s: Seq<char>, zero: char) -> int
    decreases s.len(),
{
    if s.len() == 0 {
        0
    } else {
        comes_to(s.drop_last(), zero) * 10 + (s.last() as int - zero as int)
    }
}

/// Whether a text is made of digits.
pub open spec fn all_digits(s: Seq<char>, zero: char) -> bool {
    forall|i: int| 0 <= i < s.len() ==> zero as int <= (#[trigger] s[i]) as int <= zero as int + 9
}

/// A number is written in digits that come to the number, without a zero in front.
pub proof fn written_digits_come_to_the_number(v: nat)
    ensures
        comes_to(strings::decimal(v), '0') == v,
        all_digits(strings::decimal(v), '0'),
        strings::decimal(v).len() > 0,
        strings::decimal(v)[0] == '0' ==> v == 0 && strings::decimal(v).len() == 1,
        comes_to(numerals::full_decimal(v), '０') == v,
        all_digits(numerals::full_decimal(v), '０'),
        numerals::full_decimal(v).len() == strings::decimal(v).len(),
    decreases v,
{
    let s = strings::decimal(v);
    let f = numerals::full_decimal(v);
    if v >= 10 {
        written_digits_come_to_the_number(v / 10);
        let before = strings::decimal(v / 10);
        lemma_digit_char(v % 10);
        assert(s.drop_last() =~= before);
        assert(f.drop_last() =~= numerals::full_decimal(v / 10));
        assert forall|i: int| 0 <= i < s.len() implies '0' as int <= (#[trigger] s[i]) as int
            <= '0' as int + 9 by {
            if i < before.len() {
                assert(s[i] == before[i]);
            }
        }
        assert forall|i: int| 0 <= i < f.len() implies '０' as int <= (#[trigger] f[i]) as int
            <= '０' as int + 9 by {
            lemma_wide(s[i]);
        }
        lemma_wide(s.last());
        assert(f.last() == numerals::widened(s.last()));
        assert(s[0] == before[0]);
    } else {
        lemma_digit_char(v);
        lemma_wide(s[0]);
        reveal_with_fuel(comes_to, 2);
        assert(s.drop_last() =~= Seq::empty());
        assert(f.drop_last() =~= Seq::empty());
        assert(f[0] == numerals::widened(s[0]));
    }
}

proof fn lemma_digit_char(n: nat)
    requires
        n <= 9,
    ensures
        strings::digit(n) as int == '0' as int + n,
{
}

proof fn lemma_wide(c: char)
    requires
        '0' <= c,
        c <= '9',
    ensures
        numerals::widened(c) as int - '０' as int == c as int - '0' as int,
{
}

/// The digit that a kanji stands for.
pub open spec fn kanji_digit_value(c: char) -> Option<int> {
    match c {
        '零' => Some(0),
        '一' => Some(1),
        '二' => Some(2),
        '三' => Some(3),
        '四' => Some(4),
        '五' => Some(5),
        '六' => Some(6),
        '七' => Some(7),
        '八' => Some(8),
        '九' => Some(9),
        _ => None,
    }
}

/// The power of ten that a kanji stands for.
pub open spec fn kanji_power(c: char) -> int {
    match c {
        '十' => 10,
        '百' => 100,
        '千' => 1000,
        _ => 0,
    }
}

/// What kanji come to: a digit multiplies the power of ten behind it, a power without a
/// digit counts once, and all of them add up.
pub open spec fn kanji_value(s: Seq<char>, sum: int, digit: Option<int>) -> int
    decreases s.len(),
{
    if s.len() == 0 {
        sum + match digit {
            Some(d) => d,
            None => 0,
        }
    } else {
        match kanji_digit_value(s[0]) {
            Some(d) => kanji_value(s.skip(1), sum, Some(d)),
            None => kanji_value(
                s.skip(1),
                sum + kanji_power(s[0]) * match digit {
                    Some(d) => d,
                    None => 1,
                },
                None,
            ),
        }
    }
}

/// The kanji of a power of ten with its digit come to as much.
proof fn lemma_kanji_place(digit: int, place: Seq<char>, power: int, rest: Seq<char>, sum: int)
    requires
        0 <= digit <= 9,
        place.len() == 1,
        kanji_digit_value(place[0]) is None,
        kanji_power(place[0]) == power,
    ensures
        kanji_value(numerals::kanji_place(digit, place).flatten() + rest, sum, None) == kanji_value(
            rest,
            sum + digit * power,
            None,
        ),
{
    reveal_strlit("一");
    reveal_strlit("二");
    reveal_strlit("三");
    reveal_strlit("四");
    reveal_strlit("五");
    reveal_strlit("六");
    reveal_strlit("七");
    reveal_strlit("八");
    reveal_strlit("九");
    reveal_strlit("零");
    let pieces = numerals::kanji_place(digit, place);
    reveal_with_fuel(Seq::flatten, 4);
    reveal_with_fuel(kanji_value, 3);
    let none = Seq::<Seq<char>>::empty();
    let text = pieces.flatten() + rest;
    if digit == 0 {
        assert(text =~= rest);
    } else if digit == 1 {
        assert(pieces.drop_first() =~= none);
        assert(text =~= place + rest);
        assert(text.skip(1) =~= rest);
    } else {
        assert(pieces.drop_first() =~= seq![place]);
        assert(pieces.drop_first().drop_first() =~= none);
        let word = numerals::kanji_digit(digit);
        assert(text =~= word + (place + rest));
        assert(text[0] == word[0]);
        assert(kanji_digit_value(text[0]) == Some(digit));
        assert(text.skip(1) =~= place + rest);
        assert(text.skip(1)[0] == place[0]);
        assert(text.skip(1).skip(1) =~= rest);
        assert(power * digit == digit * power) by (nonlinear_arith);
    }
}

/// Pieces come one list after the other.
proof fn lemma_flatten_concat(a: Seq<Seq<char>>, b: Seq<Seq<char>>)
    ensures
        (a + b).flatten() == a.flatten() + b.flatten(),
    decreases a.len(),
{
    if a.len() == 0 {
        assert(a + b =~= b);
        assert(a.flatten() + b.flatten() =~= b.flatten());
    } else {
        lemma_flatten_concat(a.drop_first(), b);
        assert((a + b).drop_first() =~= a.drop_first() + b);
        assert((a + b).flatten() =~= a.flatten() + b.flatten());
    }
}

/// The ones of a number in kanji.
spec fn kanji_ones(v: int) -> Seq<char> {
    if v % 10 == 0 {
        Seq::empty()
    } else {
        numerals::kanji_digit(v % 10)
    }
}

/// The text of a number in kanji, part by part.
proof fn lemma_kanji_text(v: int)
    requires
        0 < v <= 9999,
    ensures
        numerals::kanji_pieces(v).flatten() == numerals::kanji_place(
            v / 1000,
            "千"@,
        ).flatten() + (numerals::kanji_place((v / 100) % 10, "百"@).flatten() + (
        numerals::kanji_place((v / 10) % 10, "十"@).flatten() + kanji_ones(v))),
{
    let a = numerals::kanji_place(v / 1000, "千"@);
    let b = numerals::kanji_place((v / 100) % 10, "百"@);
    let c = numerals::kanji_place((v / 10) % 10, "十"@);
    let d = if v % 10 == 0 {
        Seq::<Seq<char>>::empty()
    } else {
        seq![numerals::kanji_digit(v % 10)]
    };
    lemma_flatten_concat(a, b);
    lemma_flatten_concat(a + b, c);
    lemma_flatten_concat(a + b + c, d);
    d.lemma_flatten_one_element();
    assert(d.flatten() =~= kanji_ones(v));
    assert(a.flatten() + b.flatten() + c.flatten() + d.flatten() =~= a.flatten() + (b.flatten() + (
    c.flatten() + d.flatten())));
}

/// The ones in kanji come to the ones.
proof fn lemma_kanji_ones(v: int, sum: int)
    requires
        0 < v <= 9999,
    ensures
        kanji_value(kanji_ones(v), sum, None) == sum + v % 10,
        !kanji_ones(v).contains('零'),
{
    reveal_strlit("一");
    reveal_strlit("二");
    reveal_strlit("三");
    reveal_strlit("四");
    reveal_strlit("五");
    reveal_strlit("六");
    reveal_strlit("七");
    reveal_strlit("八");
    reveal_strlit("九");
    reveal_strlit("零");
    reveal_with_fuel(kanji_value, 3);
    let w = kanji_ones(v);
    if v % 10 != 0 {
        assert(w.skip(1) =~= Seq::<char>::empty());
    }
}

/// Zero in kanji.
proof fn lemma_kanji_zero()
    ensures
        kanji_value(numerals::kanji_pieces(0).flatten(), 0, None) == 0,
{
    reveal_strlit("零");
    reveal_with_fuel(kanji_value, 3);
    let pieces = numerals::kanji_pieces(0);
    pieces.lemma_flatten_one_element();
    assert(pieces.flatten() =~= "零"@);
    assert("零"@.skip(1) =~= Seq::<char>::empty());
}

/// The places of a number in kanji, one after the other, come to their sum.
#[verifier::spinoff_prover]
proof fn lemma_kanji_places(p: int, q: int, r: int, d: Seq<char>)
    requires
        0 <= p <= 9,
        0 <= q <= 9,
        0 <= r <= 9,
    ensures
        kanji_value(
            numerals::kanji_place(p, "千"@).flatten() + (numerals::kanji_place(
                q,
                "百"@,
            ).flatten() + (numerals::kanji_place(r, "十"@).flatten() + d)),
            0,
            None,
        ) == kanji_value(d, p * 1000 + q * 100 + r * 10, None),
{
    reveal_strlit("千");
    reveal_strlit("百");
    reveal_strlit("十");
    let b = numerals::kanji_place(q, "百"@).flatten();
    let c = numerals::kanji_place(r, "十"@).flatten();
    lemma_kanji_place(p, "千"@, 1000, b + (c + d), 0);
    lemma_kanji_place(q, "百"@, 100, c + d, p * 1000);
    lemma_kanji_place(r, "十"@, 10, d, p * 1000 + q * 100);
}

/// No zero is written in a number in kanji.
#[verifier::spinoff_prover]
proof fn lemma_no_zeros(p: int, q: int, r: int, d: Seq<char>)
    requires
        0 <= p <= 9,
        0 <= q <= 9,
        0 <= r <= 9,
        !d.contains('零'),
    ensures
        !(numerals::kanji_place(p, "千"@).flatten() + (numerals::kanji_place(
            q,
            "百"@,
        ).flatten() + (numerals::kanji_place(r, "十"@).flatten() + d))).contains('零'),
{
    reveal_strlit("千");
    reveal_strlit("百");
    reveal_strlit("十");
    let a = numerals::kanji_place(p, "千"@).flatten();
    let b = numerals::kanji_place(q, "百"@).flatten();
    let c = numerals::kanji_place(r, "十"@).flatten();
    lemma_no_zero(p, "千"@);
    lemma_no_zero(q, "百"@);
    lemma_no_zero(r, "十"@);
    lemma_without(c, d, '零');
    lemma_without(b, c + d, '零');
    lemma_without(a, b + (c + d), '零');
}

/// A number in kanji comes to the number, and has no zero in it unless it is zero.
#[verifier::spinoff_prover]
pub proof fn kanji_come_to_the_number(v: int)
    requires
        0 <= v <= 9999,
    ensures
        kanji_value(numerals::kanji_pieces(v).flatten(), 0, None) == v,
        v > 0 ==> !numerals::kanji_pieces(v).flatten().contains('零'),
{
    if v == 0 {
        lemma_kanji_zero();
    } else {
        let p = v / 1000;
        let q = (v / 100) % 10;
        let r = (v / 10) % 10;
        lemma_kanji_text(v);
        lemma_kanji_ones(v, p * 1000 + q * 100 + r * 10);
        lemma_kanji_places(p, q, r, kanji_ones(v));
        lemma_no_zeros(p, q, r, kanji_ones(v));
    }
}

proof fn lemma_without(a: Seq<char>, b: Seq<char>, x: char)
    requires
        !a.contains(x),
        !b.contains(x),
    ensures
        !(a + b).contains(x),
{
    let whole = a + b;
    if whole.contains(x) {
        let i = whole.index_of(x);
        if i < a.len() {
            assert(a[i] == x);
        } else {
            assert(b[i - a.len()] == x);
        }
    }
}

/// No zero is written in front of a power of ten.
proof fn lemma_no_zero(digit: int, place: Seq<char>)
    requires
        0 <= digit <= 9,
        place.len() == 1,
        place[0] != '零',
    ensures
        !numerals::kanji_place(digit, place).flatten().contains('零'),
{
    reveal_strlit("一");
    reveal_strlit("二");
    reveal_strlit("三");
    reveal_strlit("四");
    reveal_strlit("五");
    reveal_strlit("六");
    reveal_strlit("七");
    reveal_strlit("八");
    reveal_strlit("九");
    reveal_strlit("零");
    reveal_with_fuel(Seq::flatten, 4);
    let pieces = numerals::kanji_place(digit, place);
    let none = Seq::<Seq<char>>::empty();
    if digit == 1 {
        assert(pieces.drop_first() =~= none);
        assert(pieces.flatten() =~= place);
    } else if digit > 1 {
        assert(pieces.drop_first() =~= seq![place]);
        assert(pieces.drop_first().drop_first() =~= none);
        assert(pieces.flatten() =~= numerals::kanji_digit(digit) + place);
    }
}

/// What is counted is written as the kanji for it: the sun for days, the moon for months
/// and the year for years.
pub proof fn counters_are_written_as_their_kanji()
    ensures
        NumericCounter::Day.surface_of() == seq!['日'],
        NumericCounter::Month.surface_of() == seq!['月'],
        NumericCounter::Year.surface_of() == seq!['年'],
{
    reveal_strlit("日");
    reveal_strlit("月");
    reveal_strlit("年");
    assert("日"@ =~= seq!['日']);
    assert("月"@ =~= seq!['月']);
    assert("年"@ =~= seq!['年']);
}

// ---------------------------------------------------------------------------
// What is no number.

proof fn lemma_digit_sign(s: Seq<char>, i: int, in_place: bool)
    ensures
        numerals::digit_at(s, i, in_place) matches Some((d, n)) ==> d >= 0,
{
    reveal(numerals::digit_at);
}

proof fn lemma_place_sign(s: Seq<char>, i: int, power: int)
    requires
        is_power(power),
    ensures
        numerals::place_at(s, i, words_for(power), power) matches Some((v, n)) ==> v >= 0,
{
    reveal(numerals::place_at);
    lemma_digit_sign(s, i, true);
}

/// How many ten thousands stand at the start of a text.
proof fn lemma_myriads(s: Seq<char>, d: int, w: Seq<char>)
    requires
        if w.len() == 0 {
            d == 1
        } else {
            says_in_place(d, w)
        },
        numerals::leads(s, 0, w + "まん"@),
    ensures
        numerals::place_at(s, 0, words_for(10000), 10000) == Some(
            (d * 10000, w.len() as int + 2),
        ),
        w.len() < s.len(),
        s[w.len() as int] == 'ま',
        w.len() > 0 ==> numerals::leads(s, 0, w),
{
    reveal(numerals::place_at);
    reveal_with_fuel(numerals::marker_at, 2);
    reveal_strlit("まん");
    let n = w.len() as int;
    let whole = w + "まん"@;
    assert(s.subrange(0, n) =~= w) by {
        assert(s.subrange(0, whole.len() as int).take(n) =~= s.subrange(0, n));
        assert(whole.take(n) =~= w);
    }
    assert(s.subrange(n, n + 2) =~= "まん"@) by {
        assert(s.subrange(0, whole.len() as int).skip(n) =~= s.subrange(n, n + 2));
        assert(whole.skip(n) =~= "まん"@);
    }
    assert(s.subrange(n, n + 2)[0] == s[n]);
    assert(words_for(10000)[0] == "まん"@);
    assert(numerals::leads(s, n, "まん"@));
    if n == 0 {
        lemma_no_digit_at_ma(s);
    } else {
        lemma_digit(s, 0, d, w, true);
    }
}

proof fn lemma_no_digit_at_ma(s: Seq<char>)
    requires
        s.len() > 0,
        s[0] == 'ま',
    ensures
        numerals::digit_at(s, 0, true) is None,
{
    reveal(numerals::digit_at);
    reveal_strlit("きゅう");
    reveal_strlit("いち");
    reveal_strlit("いっ");
    reveal_strlit("さん");
    reveal_strlit("よん");
    reveal_strlit("なな");
    reveal_strlit("しち");
    reveal_strlit("はち");
    reveal_strlit("はっ");
    reveal_strlit("ろく");
    reveal_strlit("ろっ");
    reveal_strlit("ぜろ");
    reveal_strlit("れい");
    reveal_strlit("し");
    reveal_strlit("く");
    reveal_strlit("ご");
    reveal_strlit("に");
    lemma_starts(s, 0, "きゅう"@);
    lemma_starts(s, 0, "いち"@);
    lemma_starts(s, 0, "いっ"@);
    lemma_starts(s, 0, "さん"@);
    lemma_starts(s, 0, "よん"@);
    lemma_starts(s, 0, "なな"@);
    lemma_starts(s, 0, "しち"@);
    lemma_starts(s, 0, "はち"@);
    lemma_starts(s, 0, "はっ"@);
    lemma_starts(s, 0, "ろく"@);
    lemma_starts(s, 0, "ろっ"@);
    lemma_starts(s, 0, "ぜろ"@);
    lemma_starts(s, 0, "れい"@);
    lemma_starts(s, 0, "し"@);
    lemma_starts(s, 0, "く"@);
    lemma_starts(s, 0, "ご"@);
    lemma_starts(s, 0, "に"@);
}

/// No day of the month is read where a digit or nothing stands in front of まん.
proof fn lemma_no_day_in_myriads(s: Seq<char>, d: int, w: Seq<char>)
    requires
        w.len() == 0 || (says_in_place(d, w) && numerals::leads(s, 0, w)),
        w.len() < s.len(),
        s[w.len() as int] == 'ま',
    ensures
        numerals::day_at(s, 0) is None,
        !numerals::ascii_digit(s[0]),
        !numerals::full_digit(s[0]),
{
    reveal_strlit("にじゅうよっか");
    reveal_strlit("じゅうよっか");
    reveal_strlit("ここのか");
    reveal_strlit("ついたち");
    reveal_strlit("とおか");
    reveal_strlit("はつか");
    reveal_strlit("ふつか");
    reveal_strlit("みっか");
    reveal_strlit("よっか");
    reveal_strlit("いつか");
    reveal_strlit("むいか");
    reveal_strlit("なのか");
    reveal_strlit("ようか");
    reveal_strlit("きゅう");
    reveal_strlit("いち");
    reveal_strlit("いっ");
    reveal_strlit("さん");
    reveal_strlit("よん");
    reveal_strlit("なな");
    reveal_strlit("しち");
    reveal_strlit("はち");
    reveal_strlit("はっ");
    reveal_strlit("ろく");
    reveal_strlit("ろっ");
    reveal_strlit("ぜろ");
    reveal_strlit("れい");
    reveal_strlit("し");
    reveal_strlit("く");
    reveal_strlit("ご");
    reveal_strlit("に");
    lemma_starts(s, 0, "にじゅうよっか"@);
    lemma_starts(s, 0, "じゅうよっか"@);
    lemma_starts(s, 0, "ここのか"@);
    lemma_starts(s, 0, "ついたち"@);
    lemma_starts(s, 0, "とおか"@);
    lemma_starts(s, 0, "はつか"@);
    lemma_starts(s, 0, "ふつか"@);
    lemma_starts(s, 0, "みっか"@);
    lemma_starts(s, 0, "よっか"@);
    lemma_starts(s, 0, "いつか"@);
    lemma_starts(s, 0, "むいか"@);
    lemma_starts(s, 0, "なのか"@);
    lemma_starts(s, 0, "ようか"@);
    if w.len() > 0 {
        lemma_starts(s, 0, w);
    }
}

/// A number of ten thousand or more is not read, whatever follows.
pub proof fn ten_thousand_is_too_much(s: Seq<char>, d: int, w: Seq<char>)
    requires
        d > 0,
        if w.len() == 0 {
            d == 1
        } else {
            says_in_place(d, w)
        },
        numerals::leads(s, 0, w + "まん"@),
    ensures
        numerals::number_at_start(s) is None,
{
    lemma_myriads(s, d, w);
    lemma_no_day_in_myriads(s, d, w);
    assert(words_for(10000) =~= seq!["まん"@]);
    let (v1, i1) = numerals::after(
        numerals::place_at(s, 0, words_for(10000), 10000),
        0,
        0,
    );
    lemma_place_sign(s, i1, 1000);
    let (v2, i2) = numerals::after(numerals::place_at(s, i1, words_for(1000), 1000), v1, i1);
    lemma_place_sign(s, i2, 100);
    let (v3, i3) = numerals::after(numerals::place_at(s, i2, words_for(100), 100), v2, i2);
    lemma_place_sign(s, i3, 10);
    let (v4, i4) = numerals::after(numerals::place_at(s, i3, words_for(10), 10), v3, i3);
    lemma_digit_sign(s, i4, false);
    assert(numerals::words_places(s).0 >= 10000);
    assert(numerals::full_run(s, 0) == 0);
}

/// A word that is a digit only in front of something: a short one for four or nine, or one
/// that is contracted.
pub open spec fn is_short(s: Seq<char>) -> bool {
    ||| s == seq!['し']
    ||| s == seq!['く']
    ||| s == seq!['い', 'っ']
    ||| s == seq!['ろ', 'っ']
    ||| s == seq!['は', 'っ']
}

proof fn lemma_short_days(s: Seq<char>)
    requires
        is_short(s),
    ensures
        numerals::day_at(s, 0) is None,
{
    reveal_strlit("にじゅうよっか");
    reveal_strlit("じゅうよっか");
    reveal_strlit("ここのか");
    reveal_strlit("ついたち");
    reveal_strlit("とおか");
    reveal_strlit("はつか");
    reveal_strlit("ふつか");
    reveal_strlit("みっか");
    reveal_strlit("よっか");
    reveal_strlit("いつか");
    reveal_strlit("むいか");
    reveal_strlit("なのか");
    reveal_strlit("ようか");
    lemma_starts(s, 0, "にじゅうよっか"@);
    lemma_starts(s, 0, "じゅうよっか"@);
    lemma_starts(s, 0, "ここのか"@);
    lemma_starts(s, 0, "ついたち"@);
    lemma_starts(s, 0, "とおか"@);
    lemma_starts(s, 0, "はつか"@);
    lemma_starts(s, 0, "ふつか"@);
    lemma_starts(s, 0, "みっか"@);
    lemma_starts(s, 0, "よっか"@);
    lemma_starts(s, 0, "いつか"@);
    lemma_starts(s, 0, "むいか"@);
    lemma_starts(s, 0, "なのか"@);
    lemma_starts(s, 0, "ようか"@);
}

proof fn lemma_undecided(s: Seq<char>, i: int)
    requires
        i >= s.len(),
        i >= 0,
    ensures
        !numerals::decides(s, i),
{
    reveal_strlit("まん");
    reveal_strlit("せん");
    reveal_strlit("ぜん");
    reveal_strlit("ひゃく");
    reveal_strlit("びゃく");
    reveal_strlit("ぴゃく");
    reveal_strlit("じゅう");
    reveal_strlit("にち");
    reveal_strlit("じつ");
    reveal_strlit("がつ");
    reveal_strlit("ねん");
}

proof fn lemma_short_digit(s: Seq<char>)
    requires
        is_short(s),
    ensures
        numerals::digit_at(s, 0, false) is None,
        numerals::digit_at(s, 0, true) matches Some((d, n)) && n == s.len(),
{
    reveal(numerals::digit_at);
    reveal_strlit("きゅう");
    reveal_strlit("いち");
    reveal_strlit("いっ");
    reveal_strlit("さん");
    reveal_strlit("よん");
    reveal_strlit("なな");
    reveal_strlit("しち");
    reveal_strlit("はち");
    reveal_strlit("はっ");
    reveal_strlit("ろく");
    reveal_strlit("ろっ");
    reveal_strlit("ぜろ");
    reveal_strlit("れい");
    reveal_strlit("し");
    reveal_strlit("く");
    reveal_strlit("ご");
    reveal_strlit("に");
    lemma_starts(s, 0, "きゅう"@);
    lemma_starts(s, 0, "いち"@);
    lemma_starts(s, 0, "いっ"@);
    lemma_starts(s, 0, "さん"@);
    lemma_starts(s, 0, "よん"@);
    lemma_starts(s, 0, "なな"@);
    lemma_starts(s, 0, "しち"@);
    lemma_starts(s, 0, "はち"@);
    lemma_starts(s, 0, "はっ"@);
    lemma_starts(s, 0, "ろく"@);
    lemma_starts(s, 0, "ろっ"@);
    lemma_starts(s, 0, "ぜろ"@);
    lemma_starts(s, 0, "れい"@);
    lemma_starts(s, 0, "し"@);
    lemma_starts(s, 0, "く"@);
    lemma_starts(s, 0, "ご"@);
    lemma_starts(s, 0, "に"@);
    lemma_undecided(s, s.len() as int);
    assert(s.subrange(0, s.len() as int) =~= s);
    assert("し"@ =~= seq!['し']);
    assert("く"@ =~= seq!['く']);
    assert("いっ"@ =~= seq!['い', 'っ']);
    assert("ろっ"@ =~= seq!['ろ', 'っ']);
    assert("はっ"@ =~= seq!['は', 'っ']);
}

proof fn lemma_short_place(s: Seq<char>, power: int)
    requires
        is_short(s),
        is_power(power),
    ensures
        numerals::place_at(s, 0, words_for(power), power) is None,
{
    reveal(numerals::place_at);
    lemma_short_digit(s);
    lemma_no_power(s, s.len() as int, power);
}

/// The short words for four and nine are no numbers by themselves, and neither are words
/// that are contracted.
pub proof fn short_words_are_no_numbers(s: Seq<char>)
    requires
        is_short(s),
    ensures
        numerals::number_at_start(s) is None,
{
    lemma_short_days(s);
    lemma_short_digit(s);
    lemma_short_place(s, 10000);
    lemma_short_place(s, 1000);
    lemma_short_place(s, 100);
    lemma_short_place(s, 10);
    assert(words_for(10000) =~= seq!["まん"@]);
    assert(!numerals::ascii_digit(s[0]) && !numerals::full_digit(s[0]));
}

} // verus!
