//! What holds of numbers as a whole.

use crate::numerals;
use crate::numerals::MAX_VALUE;
use crate::strings;
use vstd::prelude::*;

verus! {

/// Every reading of a day starts with a kana.
proof fn lemma_days_start_with_kana(s: Seq<char>)
    requires
        s.len() > 0,
        numerals::ascii_digit(s[0]) || numerals::full_digit(s[0]),
    ensures
        numerals::day_at(s, 0) is None,
{
    reveal_strlit("にじゅうよっか");
    if numerals::leads(s, 0, "にじゅうよっか"@) {
        assert(s.subrange(0, "にじゅうよっか"@.len() as int)[0] == s[0]);
    }
    reveal_strlit("じゅうよっか");
    if numerals::leads(s, 0, "じゅうよっか"@) {
        assert(s.subrange(0, "じゅうよっか"@.len() as int)[0] == s[0]);
    }
    reveal_strlit("ここのか");
    if numerals::leads(s, 0, "ここのか"@) {
        assert(s.subrange(0, "ここのか"@.len() as int)[0] == s[0]);
    }
    reveal_strlit("ついたち");
    if numerals::leads(s, 0, "ついたち"@) {
        assert(s.subrange(0, "ついたち"@.len() as int)[0] == s[0]);
    }
    reveal_strlit("とおか");
    if numerals::leads(s, 0, "とおか"@) {
        assert(s.subrange(0, "とおか"@.len() as int)[0] == s[0]);
    }
    reveal_strlit("はつか");
    if numerals::leads(s, 0, "はつか"@) {
        assert(s.subrange(0, "はつか"@.len() as int)[0] == s[0]);
    }
    reveal_strlit("ふつか");
    if numerals::leads(s, 0, "ふつか"@) {
        assert(s.subrange(0, "ふつか"@.len() as int)[0] == s[0]);
    }
    reveal_strlit("みっか");
    if numerals::leads(s, 0, "みっか"@) {
        assert(s.subrange(0, "みっか"@.len() as int)[0] == s[0]);
    }
    reveal_strlit("よっか");
    if numerals::leads(s, 0, "よっか"@) {
        assert(s.subrange(0, "よっか"@.len() as int)[0] == s[0]);
    }
    reveal_strlit("いつか");
    if numerals::leads(s, 0, "いつか"@) {
        assert(s.subrange(0, "いつか"@.len() as int)[0] == s[0]);
    }
    reveal_strlit("むいか");
    if numerals::leads(s, 0, "むいか"@) {
        assert(s.subrange(0, "むいか"@.len() as int)[0] == s[0]);
    }
    reveal_strlit("なのか");
    if numerals::leads(s, 0, "なのか"@) {
        assert(s.subrange(0, "なのか"@.len() as int)[0] == s[0]);
    }
    reveal_strlit("ようか");
    if numerals::leads(s, 0, "ようか"@) {
        assert(s.subrange(0, "ようか"@.len() as int)[0] == s[0]);
    }
}

/// Nothing is counted behind the end of a reading.
proof fn lemma_no_counter_at_end(s: Seq<char>)
    ensures
        numerals::counter_at(s, s.len() as int) is None,
{
    reveal_strlit("にち");
    reveal_strlit("じつ");
    reveal_strlit("がつ");
    reveal_strlit("ねん");
}

/// The readings of digits take at least one character and stay within the reading.
proof fn lemma_digit_bounds(s: Seq<char>, i: int, in_place: bool)
    requires
        0 <= i <= s.len(),
    ensures
        numerals::digit_at(s, i, in_place) matches Some((digit, n)) ==> 0 <= digit <= 9 && 0 < n && i
            + n <= s.len(),
{
    reveal(numerals::digit_at);
    reveal_strlit("きゅう");
    reveal_strlit("いち");
    reveal_strlit("いっ");
    reveal_strlit("さん");
    reveal_strlit("よん");
    reveal_strlit("なな");
    reveal_strlit("しち");
    reveal_strlit("はち");
    reveal_strlit("はっ");
    reveal_strlit("ろく");
    reveal_strlit("ろっ");
    reveal_strlit("ぜろ");
    reveal_strlit("れい");
    reveal_strlit("し");
    reveal_strlit("く");
    reveal_strlit("ご");
    reveal_strlit("に");
}

proof fn lemma_marker_bounds(s: Seq<char>, i: int, markers: Seq<Seq<char>>)
    requires
        0 <= i <= s.len(),
        forall|k: int| 0 <= k < markers.len() ==> (#[trigger] markers[k]).len() > 0,
    ensures
        numerals::marker_at(s, i, markers) matches Some(n) ==> 0 < n && i + n <= s.len(),
    decreases markers.len(),
{
    if markers.len() > 0 {
        assert(markers[0].len() > 0);
        let rest = markers.skip(1);
        assert forall|k: int| 0 <= k < rest.len() implies (#[trigger] rest[k]).len() > 0 by {
            assert(rest[k] == markers[k + 1]);
        }
        lemma_marker_bounds(s, i, rest);
    }
}

proof fn lemma_place_bounds(s: Seq<char>, i: int, markers: Seq<Seq<char>>, power: int)
    requires
        0 <= i <= s.len(),
        0 <= power,
        forall|k: int| 0 <= k < markers.len() ==> (#[trigger] markers[k]).len() > 0,
    ensures
        numerals::place_at(s, i, markers, power) matches Some((value, n)) ==> 0 <= value && 0 < n
            && i + n <= s.len(),
{
    reveal(numerals::place_at);
    lemma_digit_bounds(s, i, true);
    let (digit, n) = match numerals::digit_at(s, i, true) {
        Some(found) => found,
        None => (1, 0),
    };
    lemma_marker_bounds(s, i + n, markers);
    assert(0 <= digit * power) by (nonlinear_arith)
        requires
            0 <= digit,
            0 <= power,
    ;
}

proof fn lemma_words_bounds(s: Seq<char>)
    ensures
        numerals::words_number(s, true) matches Some((value, n)) ==> 0 <= value <= MAX_VALUE && 0
            < n <= s.len(),
        numerals::words_number(s, false) matches Some((value, n)) ==> 0 <= value <= MAX_VALUE && 0
            < n <= s.len(),
{
    reveal_strlit("じゅう");
    reveal_strlit("ひゃく");
    reveal_strlit("びゃく");
    reveal_strlit("ぴゃく");
    reveal_strlit("せん");
    reveal_strlit("ぜん");
    reveal_strlit("まん");
    let m1 = seq!["まん"@];
    let m2 = seq!["せん"@, "ぜん"@];
    let m3 = seq!["ひゃく"@, "びゃく"@, "ぴゃく"@];
    let m4 = seq!["じゅう"@];
    lemma_place_bounds(s, 0, m1, 10000);
    let (v1, i1) = numerals::after(numerals::place_at(s, 0, m1, 10000), 0, 0);
    lemma_place_bounds(s, i1, m2, 1000);
    let (v2, i2) = numerals::after(numerals::place_at(s, i1, m2, 1000), v1, i1);
    lemma_place_bounds(s, i2, m3, 100);
    let (v3, i3) = numerals::after(numerals::place_at(s, i2, m3, 100), v2, i2);
    lemma_place_bounds(s, i3, m4, 10);
    let (v4, i4) = numerals::after(numerals::place_at(s, i3, m4, 10), v3, i3);
    lemma_digit_bounds(s, i4, false);
}

proof fn lemma_digit_run(s: Seq<char>, most: nat)
    ensures
        numerals::digit_run(s, most) <= most,
        numerals::digit_run(s, most) <= s.len(),
        forall|k: int|
            0 <= k < numerals::digit_run(s, most) ==> numerals::ascii_digit(#[trigger] s[k]),
    decreases most,
{
    if most > 0 && s.len() > 0 && numerals::ascii_digit(s[0]) {
        lemma_digit_run(s.skip(1), (most - 1) as nat);
        assert forall|k: int| 0 <= k < numerals::digit_run(s, most) implies numerals::ascii_digit(
            #[trigger] s[k],
        ) by {
            if k > 0 {
                assert(s[k] == s.skip(1)[k - 1]);
            }
        }
    }
}

proof fn lemma_ascii_bounds(s: Seq<char>)
    ensures
        numerals::ascii_number(s) matches Some((value, n)) ==> 0 <= value <= MAX_VALUE && 0 < n
            <= s.len(),
{
    lemma_digit_run(s, 4);
    reveal_with_fuel(numerals::digits_value, 5);
}

proof fn lemma_full_bounds(s: Seq<char>, i: int)
    requires
        0 <= i <= s.len(),
    ensures
        i <= numerals::full_run(s, i) <= s.len(),
        forall|k: int| i <= k < numerals::full_run(s, i) ==> numerals::full_digit(#[trigger] s[k]),
    decreases s.len() - i,
{
    if i < s.len() && numerals::full_digit(s[i]) {
        lemma_full_bounds(s, i + 1);
    }
}

proof fn lemma_full_value(s: Seq<char>, n: nat)
    requires
        n <= s.len(),
        forall|k: int| 0 <= k < n ==> numerals::full_digit(#[trigger] s[k]),
    ensures
        0 <= numerals::digits_value(s, n, '０'),
    decreases n,
{
    if n > 0 {
        lemma_full_value(s, (n - 1) as nat);
        assert(numerals::full_digit(s[n - 1]));
    }
}

/// A number that is read is at most [`MAX_VALUE`], and takes at least one character
/// of the reading and no more than there are.
pub proof fn numbers_are_bounded(s: Seq<char>)
    ensures
        numerals::number_at_start(s) matches Some((value, counter, n)) ==> 0 <= value <= MAX_VALUE
            && 0 < n <= s.len(),
{
    lemma_ascii_bounds(s);
    lemma_words_bounds(s);
    lemma_full_bounds(s, 0);
    lemma_full_value(s, numerals::full_run(s, 0) as nat);
    reveal_strlit("にじゅうよっか");
    reveal_strlit("じゅうよっか");
    reveal_strlit("ここのか");
    reveal_strlit("ついたち");
    reveal_strlit("とおか");
    reveal_strlit("はつか");
    reveal_strlit("ふつか");
    reveal_strlit("みっか");
    reveal_strlit("よっか");
    reveal_strlit("いつか");
    reveal_strlit("むいか");
    reveal_strlit("なのか");
    reveal_strlit("ようか");
    reveal_strlit("にち");
    reveal_strlit("じつ");
    reveal_strlit("がつ");
    reveal_strlit("ねん");
}

// ---------------------------------------------------------------------------
// The longest way to read a number is taken.

/// A reading goes on with a token only where the token's first two characters stand.
proof fn lemma_starts(s: Seq<char>, i: int, token: Seq<char>)
    requires
        0 <= i,
        token.len() > 0,
    ensures
        numerals::leads(s, i, token) ==> i < s.len() && s[i] == token[0],
        numerals::leads(s, i, token) && token.len() > 1 ==> i + 1 < s.len() && s[i + 1] == token[1],
{
    if numerals::leads(s, i, token) {
        let part = s.subrange(i, i + token.len());
        assert(part[0] == s[i]);
        if token.len() > 1 {
            assert(part[1] == s[i + 1]);
        }
    }
}

/// Whether the two characters can not start a digit.
spec fn starts_no_digit(c: char, d: char) -> bool {
    &&& c != 'き' && c != 'さ' && c != 'し' && c != 'ろ' && c != 'ぜ' && c != 'れ' && c != 'く' && c
        != 'ご' && c != 'に'
    &&& c == 'い' || c == 'は' ==> d != 'ち' && d != 'っ'
    &&& c == 'よ' ==> d != 'ん'
    &&& c == 'な' ==> d != 'な'
}

proof fn lemma_no_digit(s: Seq<char>, i: int, in_place: bool)
    requires
        0 <= i,
        i < s.len() ==> starts_no_digit(s[i], s[i + 1]),
    ensures
        numerals::digit_at(s, i, in_place) is None,
{
    reveal(numerals::digit_at);
    reveal_strlit("きゅう");
    reveal_strlit("いち");
    reveal_strlit("いっ");
    reveal_strlit("さん");
    reveal_strlit("よん");
    reveal_strlit("なな");
    reveal_strlit("しち");
    reveal_strlit("はち");
    reveal_strlit("はっ");
    reveal_strlit("ろく");
    reveal_strlit("ろっ");
    reveal_strlit("ぜろ");
    reveal_strlit("れい");
    reveal_strlit("し");
    reveal_strlit("く");
    reveal_strlit("ご");
    reveal_strlit("に");
    lemma_starts(s, i, "きゅう"@);
    lemma_starts(s, i, "いち"@);
    lemma_starts(s, i, "いっ"@);
    lemma_starts(s, i, "さん"@);
    lemma_starts(s, i, "よん"@);
    lemma_starts(s, i, "なな"@);
    lemma_starts(s, i, "しち"@);
    lemma_starts(s, i, "はち"@);
    lemma_starts(s, i, "はっ"@);
    lemma_starts(s, i, "ろく"@);
    lemma_starts(s, i, "ろっ"@);
    lemma_starts(s, i, "ぜろ"@);
    lemma_starts(s, i, "れい"@);
    lemma_starts(s, i, "し"@);
    lemma_starts(s, i, "く"@);
    lemma_starts(s, i, "ご"@);
    lemma_starts(s, i, "に"@);
}

/// Whether a character can not start a power of ten.
spec fn starts_no_place(c: char) -> bool {
    c != 'ま' && c != 'せ' && c != 'ぜ' && c != 'ひ' && c != 'び' && c != 'ぴ' && c != 'じ'
}

/// No power of ten stands where its first character does not.
proof fn lemma_no_place(s: Seq<char>, i: int, ten: bool)
    requires
        0 <= i < s.len(),
        starts_no_place(s[i]) || (ten && s[i] == 'じ'),
    ensures
        numerals::marker_at(s, i, seq!["まん"@]) is None,
        numerals::marker_at(s, i, seq!["せん"@, "ぜん"@]) is None,
        numerals::marker_at(s, i, seq!["ひゃく"@, "びゃく"@, "ぴゃく"@]) is None,
        !ten ==> numerals::marker_at(s, i, seq!["じゅう"@]) is None,
{
    reveal_with_fuel(numerals::marker_at, 4);
    reveal_strlit("まん");
    reveal_strlit("せん");
    reveal_strlit("ぜん");
    reveal_strlit("ひゃく");
    reveal_strlit("びゃく");
    reveal_strlit("ぴゃく");
    reveal_strlit("じゅう");
    lemma_starts(s, i, "まん"@);
    lemma_starts(s, i, "せん"@);
    lemma_starts(s, i, "ぜん"@);
    lemma_starts(s, i, "ひゃく"@);
    lemma_starts(s, i, "びゃく"@);
    lemma_starts(s, i, "ぴゃく"@);
    lemma_starts(s, i, "じゅう"@);
    let pair = seq!["せん"@, "ぜん"@];
    assert(pair.skip(1) =~= seq!["ぜん"@]);
    let three = seq!["ひゃく"@, "びゃく"@, "ぴゃく"@];
    assert(three.skip(1) =~= seq!["びゃく"@, "ぴゃく"@]);
    assert(three.skip(1).skip(1) =~= seq!["ぴゃく"@]);
}

proof fn lemma_no_counter(s: Seq<char>, i: int)
    requires
        0 <= i < s.len(),
        s[i] != 'に' && s[i] != 'じ' && s[i] != 'が' && s[i] != 'ね',
    ensures
        numerals::counter_at(s, i) is None,
{
    reveal_strlit("にち");
    reveal_strlit("じつ");
    reveal_strlit("がつ");
    reveal_strlit("ねん");
    lemma_starts(s, i, "にち"@);
    lemma_starts(s, i, "じつ"@);
    lemma_starts(s, i, "がつ"@);
    lemma_starts(s, i, "ねん"@);
}

/// Nothing is a number in words where neither a digit nor a power of ten starts.
proof fn lemma_no_words(s: Seq<char>)
    requires
        s.len() > 0,
        starts_no_digit(s[0], s[1]),
        starts_no_place(s[0]),
    ensures
        numerals::words_number(s, true) is None,
        numerals::words_number(s, false) is None,
{
    reveal(numerals::place_at);
    lemma_no_digit(s, 0, true);
    lemma_no_digit(s, 0, false);
    lemma_no_place(s, 0, false);
}

/// じゅう in front of よっか is ten in words, and no more.
proof fn lemma_tenth(s: Seq<char>)
    requires
        numerals::leads(s, 0, "じゅうよっか"@),
    ensures
        numerals::taken(numerals::counted(s, numerals::words_number(s, true))) == 3,
        numerals::taken(numerals::counted(s, numerals::words_number(s, false))) == 3,
{
    reveal(numerals::place_at);
    reveal_with_fuel(numerals::marker_at, 2);
    reveal_strlit("じゅうよっか");
    reveal_strlit("じゅう");
    let part = s.subrange(0, 6);
    assert(part[0] == s[0] && part[3] == s[3] && part[4] == s[4]);
    lemma_no_digit(s, 0, true);
    lemma_no_place(s, 0, true);
    assert(s.subrange(0, 3) =~= part.subrange(0, 3));
    assert(s.subrange(0, 3) =~= "じゅう"@);
    assert(numerals::marker_at(s, 0, seq!["じゅう"@]) == Some(3int));
    assert(numerals::words_places(s) == (10int, 3int, true));
    lemma_no_digit(s, 3, false);
    lemma_no_counter(s, 3);
}

/// にじゅう in front of よっか is twenty in words, and no more.
proof fn lemma_twentieth(s: Seq<char>)
    requires
        numerals::leads(s, 0, "にじゅうよっか"@),
    ensures
        numerals::taken(numerals::counted(s, numerals::words_number(s, true))) == 4,
        numerals::taken(numerals::counted(s, numerals::words_number(s, false))) == 4,
{
    reveal(numerals::place_at);
    reveal_with_fuel(numerals::marker_at, 2);
    reveal_strlit("にじゅうよっか");
    reveal_strlit("じゅう");
    let part = s.subrange(0, 7);
    assert(part[0] == s[0] && part[1] == s[1] && part[4] == s[4] && part[5] == s[5]);
    assert(numerals::digit_at(s, 0, true) == Some((2int, 1int))) by {
        reveal(numerals::digit_at);
        reveal_strlit("きゅう");
        reveal_strlit("いち");
        reveal_strlit("いっ");
        reveal_strlit("さん");
        reveal_strlit("よん");
        reveal_strlit("なな");
        reveal_strlit("しち");
        reveal_strlit("はち");
        reveal_strlit("はっ");
        reveal_strlit("ろく");
        reveal_strlit("ろっ");
        reveal_strlit("ぜろ");
        reveal_strlit("れい");
        reveal_strlit("し");
        reveal_strlit("く");
        reveal_strlit("ご");
        reveal_strlit("に");
        lemma_starts(s, 0, "きゅう"@);
        lemma_starts(s, 0, "いち"@);
        lemma_starts(s, 0, "いっ"@);
        lemma_starts(s, 0, "さん"@);
        lemma_starts(s, 0, "よん"@);
        lemma_starts(s, 0, "なな"@);
        lemma_starts(s, 0, "しち"@);
        lemma_starts(s, 0, "はち"@);
        lemma_starts(s, 0, "はっ"@);
        lemma_starts(s, 0, "ろく"@);
        lemma_starts(s, 0, "ろっ"@);
        lemma_starts(s, 0, "ぜろ"@);
        lemma_starts(s, 0, "れい"@);
        lemma_starts(s, 0, "し"@);
        lemma_starts(s, 0, "く"@);
        lemma_starts(s, 0, "ご"@);
        lemma_starts(s, 0, "に"@);
        assert(s.subrange(0, 1) =~= "に"@);
    }
    lemma_no_place(s, 1, true);
    assert(s.subrange(1, 4) =~= part.subrange(1, 4));
    assert(s.subrange(1, 4) =~= "じゅう"@);
    assert(numerals::marker_at(s, 1, seq!["じゅう"@]) == Some(3int));
    assert(numerals::words_places(s) == (20int, 4int, true));
    lemma_no_digit(s, 4, false);
    lemma_no_counter(s, 4);
}

/// A day with a reading of its own is never shorter than a number in words.
proof fn lemma_days_are_longest(s: Seq<char>)
    requires
        numerals::day_at(s, 0) is Some,
    ensures
        numerals::taken(numerals::counted(s, numerals::words_number(s, true)))
            <= numerals::day_at(s, 0).unwrap().1,
        numerals::taken(numerals::counted(s, numerals::words_number(s, false)))
            <= numerals::day_at(s, 0).unwrap().1,
        !numerals::ascii_digit(s[0]),
        !numerals::full_digit(s[0]),
        s.len() > 0,
        numerals::day_at(s, 0).unwrap().1 > 0,
{
    reveal_strlit("にじゅうよっか");
    reveal_strlit("じゅうよっか");
    reveal_strlit("ここのか");
    reveal_strlit("ついたち");
    reveal_strlit("とおか");
    reveal_strlit("はつか");
    reveal_strlit("ふつか");
    reveal_strlit("みっか");
    reveal_strlit("よっか");
    reveal_strlit("いつか");
    reveal_strlit("むいか");
    reveal_strlit("なのか");
    reveal_strlit("ようか");
    lemma_starts(s, 0, "にじゅうよっか"@);
    lemma_starts(s, 0, "じゅうよっか"@);
    lemma_starts(s, 0, "ここのか"@);
    lemma_starts(s, 0, "ついたち"@);
    lemma_starts(s, 0, "とおか"@);
    lemma_starts(s, 0, "はつか"@);
    lemma_starts(s, 0, "ふつか"@);
    lemma_starts(s, 0, "みっか"@);
    lemma_starts(s, 0, "よっか"@);
    lemma_starts(s, 0, "いつか"@);
    lemma_starts(s, 0, "むいか"@);
    lemma_starts(s, 0, "なのか"@);
    lemma_starts(s, 0, "ようか"@);
    if numerals::leads(s, 0, "にじゅうよっか"@) {
        lemma_twentieth(s);
    } else if numerals::leads(s, 0, "じゅうよっか"@) {
        lemma_tenth(s);
    } else {
        lemma_no_words(s);
    }
}

/// A number at the start of a reading is read in the longest way there is: no day
/// with a reading of its own, no number in ASCII digits, in full-width digits or in
/// words, with a digit in the ones or without one, takes more of the reading
/// together with what it counts. What is read is one of these.
pub proof fn longest_number_is_read(s: Seq<char>)
    ensures
        ({
            let read = numerals::number_at_start(s);
            let day = match numerals::day_at(s, 0) {
                Some((value, n)) => Some((value, Some(numerals::NumericCounter::Day), n)),
                None => None,
            };
            let ascii = numerals::counted(s, numerals::ascii_number(s));
            let full = numerals::counted(s, numerals::full_number(s));
            let whole = numerals::counted(s, numerals::words_number(s, true));
            let round = numerals::counted(s, numerals::words_number(s, false));
            &&& read == day || read == ascii || read == full || read == whole || read == round
            &&& numerals::taken(day) <= numerals::taken(read)
            &&& numerals::taken(ascii) <= numerals::taken(read)
            &&& numerals::taken(full) <= numerals::taken(read)
            &&& numerals::taken(whole) <= numerals::taken(read)
            &&& numerals::taken(round) <= numerals::taken(read)
            &&& read is None ==> day is None && ascii is None && full is None && whole is None
                && round is None
        }),
{
    lemma_ascii_bounds(s);
    lemma_digit_run(s, 4);
    lemma_words_bounds(s);
    lemma_full_bounds(s, 0);
    if numerals::day_at(s, 0) is Some {
        lemma_days_are_longest(s);
    } else if s.len() > 0 && (numerals::ascii_digit(s[0]) || numerals::full_digit(s[0])) {
        lemma_no_words(s);
    }
}

// ---------------------------------------------------------------------------
// What is written reads back.

proof fn lemma_value_prefix(s: Seq<char>, c: char, n: nat, zero: char)
    requires
        n <= s.len(),
    ensures
        numerals::digits_value(s.push(c), n, zero) == numerals::digits_value(s, n, zero),
    decreases n,
{
    if n > 0 {
        lemma_value_prefix(s, c, (n - 1) as nat, zero);
    }
}

/// A number in decimal notation: its digits, its value, and no zero in front.
proof fn lemma_decimal(v: nat)
    ensures
        ({
            let s = strings::decimal(v);
            &&& s.len() > 0
            &&& forall|k: int| 0 <= k < s.len() ==> numerals::ascii_digit(#[trigger] s[k])
            &&& numerals::digits_value(s, s.len(), '0') == v
            &&& s[0] == '0' ==> v == 0 && s.len() == 1
        }),
    decreases v,
{
    let s = strings::decimal(v);
    if v >= 10 {
        let before = strings::decimal(v / 10);
        lemma_decimal(v / 10);
        lemma_value_prefix(before, strings::digit(v % 10), before.len(), '0');
        assert(s == before.push(strings::digit(v % 10)));
    } else {
        assert(s.len() == 1);
        reveal_with_fuel(numerals::digits_value, 2);
    }
}

pub proof fn lemma_decimal_len(v: nat)
    requires
        v <= MAX_VALUE,
    ensures
        strings::decimal(v).len() <= 4,
{
    reveal_with_fuel(strings::decimal, 5);
}

proof fn lemma_run_is_whole(s: Seq<char>, most: nat)
    requires
        s.len() <= most,
        forall|k: int| 0 <= k < s.len() ==> numerals::ascii_digit(#[trigger] s[k]),
    ensures
        numerals::digit_run(s, most) == s.len(),
    decreases most,
{
    if s.len() > 0 {
        let rest = s.skip(1);
        assert forall|k: int| 0 <= k < rest.len() implies numerals::ascii_digit(
            #[trigger] rest[k],
        ) by {
            assert(rest[k] == s[k + 1]);
        }
        lemma_run_is_whole(rest, (most - 1) as nat);
    }
}

/// A number in Arabic digits reads back as the number.
pub proof fn arabic_numbers_read_back(v: nat)
    requires
        v <= MAX_VALUE,
    ensures
        numerals::number_at_start(strings::decimal(v)) == Some(
            (v as int, None::<numerals::NumericCounter>, strings::decimal(v).len() as int),
        ),
{
    let s = strings::decimal(v);
    lemma_decimal(v);
    lemma_decimal_len(v);
    lemma_run_is_whole(s, 4);
    lemma_days_start_with_kana(s);
    lemma_no_counter_at_end(s);
}

proof fn lemma_full_value_same(v: nat, n: nat)
    requires
        n <= strings::decimal(v).len(),
        forall|k: int|
            0 <= k < strings::decimal(v).len() ==> numerals::ascii_digit(
                #[trigger] strings::decimal(v)[k],
            ),
    ensures
        numerals::digits_value(numerals::full_decimal(v), n, '０') == numerals::digits_value(
            strings::decimal(v),
            n,
            '0',
        ),
    decreases n,
{
    if n > 0 {
        lemma_full_value_same(v, (n - 1) as nat);
        let c = strings::decimal(v)[n - 1];
        assert(numerals::ascii_digit(c));
        assert(numerals::full_decimal(v)[n - 1] == numerals::widened(c));
    }
}

proof fn lemma_full_run_is_whole(s: Seq<char>, i: int)
    requires
        0 <= i <= s.len(),
        forall|k: int| 0 <= k < s.len() ==> numerals::full_digit(#[trigger] s[k]),
    ensures
        numerals::full_run(s, i) == s.len(),
    decreases s.len() - i,
{
    if i < s.len() {
        assert(numerals::full_digit(s[i]));
        lemma_full_run_is_whole(s, i + 1);
    }
}

/// A number in full-width digits reads back as the number.
pub proof fn full_width_numbers_read_back(v: nat)
    requires
        v <= MAX_VALUE,
    ensures
        numerals::number_at_start(numerals::full_decimal(v)) == Some(
            (v as int, None::<numerals::NumericCounter>, strings::decimal(v).len() as int),
        ),
{
    let s = numerals::full_decimal(v);
    lemma_decimal(v);
    assert forall|k: int| 0 <= k < s.len() implies numerals::full_digit(#[trigger] s[k]) by {
        assert(numerals::ascii_digit(strings::decimal(v)[k]));
    }
    lemma_full_value_same(v, strings::decimal(v).len());
    lemma_full_run_is_whole(s, 0);
    assert(numerals::full_digit(s[0]));
    lemma_days_start_with_kana(s);
    lemma_no_counter_at_end(s);
}

} // verus!
