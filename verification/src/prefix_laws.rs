//! Numbers with more text behind them.

use crate::numerals;
use crate::numerals::NumericCounter;
use crate::spoken_laws;
use crate::spoken_laws::Spoken;
use vstd::prelude::*;

verus! {

/// A letter of a word for a number, for a day of the month or for what is counted.
pub open spec fn number_letter(c: char) -> bool {
    c == 'に' || c == 'じ' || c == 'ゅ' || c == 'う' || c == 'よ' || c == 'っ' || c == 'か'
        || c == 'こ' || c == 'の' || c == 'つ' || c == 'い' || c == 'た' || c == 'ち' || c == 'と'
        || c == 'お' || c == 'は' || c == 'ふ' || c == 'み' || c == 'む' || c == 'な' || c == 'が'
        || c == 'ね' || c == 'ん' || c == 'き' || c == 'さ' || c == 'し' || c == 'ろ' || c == 'く'
        || c == 'ぜ' || c == 'れ' || c == 'ご' || c == 'ま' || c == 'せ' || c == 'ひ' || c == 'ゃ'
        || c == 'び' || c == 'ぴ'
}

/// Whether a text starts with a character that no number goes on with: no digit, and no
/// letter of the words for numbers.
pub open spec fn starts_apart(rest: Seq<char>) -> bool {
    &&& rest.len() > 0
    &&& !number_letter(rest[0])
    &&& !('0' <= rest[0] && rest[0] <= '9')
    &&& !('０' <= rest[0] && rest[0] <= '９')
}

/// A word for a number stands in a text where it stands in the text with more behind it.
proof fn lemma_token(s: Seq<char>, rest: Seq<char>, i: int, token: Seq<char>)
    requires
        0 <= i <= s.len(),
        starts_apart(rest),
        token.len() > 0,
        forall|k: int| 0 <= k < token.len() ==> number_letter(#[trigger] token[k]),
    ensures
        numerals::leads(s + rest, i, token) == numerals::leads(s, i, token),
        numerals::leads(s, i, token) ==> i + token.len() <= s.len(),
{
    let whole = s + rest;
    let end = i + token.len();
    if end <= s.len() {
        assert(whole.subrange(i, end) =~= s.subrange(i, end));
    } else if numerals::leads(whole, i, token) {
        let k = s.len() - i;
        assert(whole.subrange(i, end)[k] == rest[0]);
        assert(number_letter(token[k]));
    }
}

proof fn lemma_day(s: Seq<char>, rest: Seq<char>)
    requires
        starts_apart(rest),
    ensures
        numerals::day_at(s + rest, 0) == numerals::day_at(s, 0),
{
    let i: int = 0;
    reveal_strlit("にじゅうよっか");
    reveal_strlit("じゅうよっか");
    reveal_strlit("ここのか");
    reveal_strlit("ついたち");
    reveal_strlit("とおか");
    reveal_strlit("はつか");
    reveal_strlit("ふつか");
    reveal_strlit("みっか");
    reveal_strlit("よっか");
    reveal_strlit("いつか");
    reveal_strlit("むいか");
    reveal_strlit("なのか");
    reveal_strlit("ようか");
    lemma_token(s, rest, i, "にじゅうよっか"@);
    lemma_token(s, rest, i, "じゅうよっか"@);
    lemma_token(s, rest, i, "ここのか"@);
    lemma_token(s, rest, i, "ついたち"@);
    lemma_token(s, rest, i, "とおか"@);
    lemma_token(s, rest, i, "はつか"@);
    lemma_token(s, rest, i, "ふつか"@);
    lemma_token(s, rest, i, "みっか"@);
    lemma_token(s, rest, i, "よっか"@);
    lemma_token(s, rest, i, "いつか"@);
    lemma_token(s, rest, i, "むいか"@);
    lemma_token(s, rest, i, "なのか"@);
    lemma_token(s, rest, i, "ようか"@);
}

proof fn lemma_counter(s: Seq<char>, rest: Seq<char>, i: int)
    requires
        0 <= i <= s.len(),
        starts_apart(rest),
    ensures
        numerals::counter_at(s + rest, i) == numerals::counter_at(s, i),
{
    reveal_strlit("にち");
    reveal_strlit("じつ");
    reveal_strlit("がつ");
    reveal_strlit("ねん");
    lemma_token(s, rest, i, "にち"@);
    lemma_token(s, rest, i, "じつ"@);
    lemma_token(s, rest, i, "がつ"@);
    lemma_token(s, rest, i, "ねん"@);
}

proof fn lemma_decides(s: Seq<char>, rest: Seq<char>, i: int)
    requires
        0 <= i <= s.len(),
        starts_apart(rest),
    ensures
        numerals::decides(s + rest, i) == numerals::decides(s, i),
{
    lemma_counter(s, rest, i);
    reveal_strlit("まん");
    reveal_strlit("せん");
    reveal_strlit("ぜん");
    reveal_strlit("ひゃく");
    reveal_strlit("びゃく");
    reveal_strlit("ぴゃく");
    reveal_strlit("じゅう");
    lemma_token(s, rest, i, "まん"@);
    lemma_token(s, rest, i, "せん"@);
    lemma_token(s, rest, i, "ぜん"@);
    lemma_token(s, rest, i, "ひゃく"@);
    lemma_token(s, rest, i, "びゃく"@);
    lemma_token(s, rest, i, "ぴゃく"@);
    lemma_token(s, rest, i, "じゅう"@);
}

proof fn lemma_ones(s: Seq<char>, rest: Seq<char>, i: int, in_place: bool)
    requires
        0 <= i <= s.len(),
        starts_apart(rest),
    ensures
        numerals::digit_at(s + rest, i, in_place) == numerals::digit_at(s, i, in_place),
        numerals::digit_at(s, i, in_place) matches Some((d, n)) ==> 0 <= n && i + n <= s.len(),
{
    reveal(numerals::digit_at);
    reveal_strlit("きゅう");
    reveal_strlit("いち");
    reveal_strlit("いっ");
    reveal_strlit("さん");
    reveal_strlit("よん");
    reveal_strlit("なな");
    reveal_strlit("しち");
    reveal_strlit("はち");
    reveal_strlit("はっ");
    reveal_strlit("ろく");
    reveal_strlit("ろっ");
    reveal_strlit("ぜろ");
    reveal_strlit("れい");
    reveal_strlit("し");
    reveal_strlit("く");
    reveal_strlit("ご");
    reveal_strlit("に");
    lemma_token(s, rest, i, "きゅう"@);
    lemma_token(s, rest, i, "いち"@);
    lemma_token(s, rest, i, "いっ"@);
    lemma_token(s, rest, i, "さん"@);
    lemma_token(s, rest, i, "よん"@);
    lemma_token(s, rest, i, "なな"@);
    lemma_token(s, rest, i, "しち"@);
    lemma_token(s, rest, i, "はち"@);
    lemma_token(s, rest, i, "はっ"@);
    lemma_token(s, rest, i, "ろく"@);
    lemma_token(s, rest, i, "ろっ"@);
    lemma_token(s, rest, i, "ぜろ"@);
    lemma_token(s, rest, i, "れい"@);
    lemma_token(s, rest, i, "し"@);
    lemma_token(s, rest, i, "く"@);
    lemma_token(s, rest, i, "ご"@);
    lemma_token(s, rest, i, "に"@);
    if i < s.len() {
        lemma_decides(s, rest, i + 1);
    }
}

proof fn lemma_marker(s: Seq<char>, rest: Seq<char>, i: int, markers: Seq<Seq<char>>)
    requires
        0 <= i <= s.len(),
        starts_apart(rest),
        forall|j: int| 0 <= j < markers.len() ==> (#[trigger] markers[j]).len() > 0,
        forall|j: int, k: int|
            0 <= j < markers.len() && 0 <= k < markers[j].len() ==> number_letter(
                #[trigger] markers[j][k],
            ),
    ensures
        numerals::marker_at(s + rest, i, markers) == numerals::marker_at(s, i, markers),
        numerals::marker_at(s, i, markers) matches Some(n) ==> 0 <= n && i + n <= s.len(),
    decreases markers.len(),
{
    if markers.len() > 0 {
        assert forall|k: int| 0 <= k < markers[0].len() implies number_letter(
            #[trigger] markers[0][k],
        ) by {}
        lemma_token(s, rest, i, markers[0]);
        lemma_marker(s, rest, i, markers.skip(1));
    }
}

proof fn lemma_place(
    s: Seq<char>,
    rest: Seq<char>,
    i: int,
    markers: Seq<Seq<char>>,
    power: int,
)
    requires
        0 <= i <= s.len(),
        starts_apart(rest),
        forall|j: int| 0 <= j < markers.len() ==> (#[trigger] markers[j]).len() > 0,
        forall|j: int, k: int|
            0 <= j < markers.len() && 0 <= k < markers[j].len() ==> number_letter(
                #[trigger] markers[j][k],
            ),
    ensures
        numerals::place_at(s + rest, i, markers, power) == numerals::place_at(
            s,
            i,
            markers,
            power,
        ),
        numerals::place_at(s, i, markers, power) matches Some((d, n)) ==> 0 <= n && i + n
            <= s.len(),
{
    reveal(numerals::place_at);
    lemma_ones(s, rest, i, true);
    let n = match numerals::digit_at(s, i, true) {
        Some((d, n)) => n,
        None => 0,
    };
    lemma_marker(s, rest, i + n, markers);
}

proof fn lemma_places(s: Seq<char>, rest: Seq<char>)
    requires
        starts_apart(rest),
    ensures
        numerals::words_places(s + rest) == numerals::words_places(s),
        0 <= numerals::words_places(s).1 <= s.len(),
{
    reveal_strlit("まん");
    reveal_strlit("せん");
    reveal_strlit("ぜん");
    reveal_strlit("ひゃく");
    reveal_strlit("びゃく");
    reveal_strlit("ぴゃく");
    reveal_strlit("じゅう");
    let m1 = seq!["まん"@];
    let m2 = seq!["せん"@, "ぜん"@];
    let m3 = seq!["ひゃく"@, "びゃく"@, "ぴゃく"@];
    let m4 = seq!["じゅう"@];
    lemma_place(s, rest, 0, m1, 10000);
    let (v1, i1) = numerals::after(numerals::place_at(s, 0, m1, 10000), 0, 0);
    lemma_place(s, rest, i1, m2, 1000);
    let (v2, i2) = numerals::after(numerals::place_at(s, i1, m2, 1000), v1, i1);
    lemma_place(s, rest, i2, m3, 100);
    let (v3, i3) = numerals::after(numerals::place_at(s, i2, m3, 100), v2, i2);
    lemma_place(s, rest, i3, m4, 10);
}

proof fn lemma_words(s: Seq<char>, rest: Seq<char>)
    requires
        starts_apart(rest),
    ensures
        numerals::counted_words(s + rest) == numerals::counted_words(s),
{
    lemma_places(s, rest);
    let (places, i, any) = numerals::words_places(s);
    lemma_ones(s, rest, i, false);
    let (value, n) = numerals::after(numerals::digit_at(s, i, false), places, i);
    lemma_counter(s, rest, n);
    lemma_counter(s, rest, i);
}

proof fn lemma_run(s: Seq<char>, rest: Seq<char>, most: nat)
    requires
        starts_apart(rest),
    ensures
        numerals::digit_run(s + rest, most) == numerals::digit_run(s, most),
        numerals::digit_run(s, most) <= s.len(),
    decreases most,
{
    if s.len() > 0 && most > 0 {
        assert((s + rest).skip(1) =~= s.skip(1) + rest);
        lemma_run(s.skip(1), rest, (most - 1) as nat);
    } else if most > 0 {
        assert((s + rest)[0] == rest[0]);
    }
}

proof fn lemma_value(s: Seq<char>, rest: Seq<char>, n: nat, zero: char)
    requires
        n <= s.len(),
    ensures
        numerals::digits_value(s + rest, n, zero) == numerals::digits_value(s, n, zero),
    decreases n,
{
    if n > 0 {
        lemma_value(s, rest, (n - 1) as nat, zero);
    }
}

proof fn lemma_full_run(s: Seq<char>, rest: Seq<char>, i: int)
    requires
        0 <= i <= s.len(),
        starts_apart(rest),
    ensures
        numerals::full_run(s + rest, i) == numerals::full_run(s, i),
        i <= numerals::full_run(s, i) <= s.len(),
    decreases s.len() - i,
{
    if i < s.len() {
        lemma_full_run(s, rest, i + 1);
    } else {
        assert((s + rest)[i] == rest[0]);
    }
}

/// What follows a number does not change it, where it starts with a character that no
/// number goes on with: the same number is read, with the same thing counted, and as much
/// of the text is taken.
pub proof fn what_follows_changes_no_number(s: Seq<char>, rest: Seq<char>)
    requires
        starts_apart(rest),
    ensures
        numerals::number_at_start(s + rest) == numerals::number_at_start(s),
{
    lemma_day(s, rest);
    lemma_run(s, rest, 4);
    let n = numerals::digit_run(s, 4);
    lemma_value(s, rest, n, '0');
    lemma_counter(s, rest, n as int);
    lemma_full_run(s, rest, 0);
    let m = numerals::full_run(s, 0);
    lemma_value(s, rest, m as nat, '０');
    lemma_counter(s, rest, m);
    lemma_words(s, rest);
    if n > 0 {
        assert((s + rest)[0] == s[0]);
    }
}

/// A number that is said is read as the number, whatever follows it.
pub proof fn spoken_numbers_are_read_in_front(n: Spoken, rest: Seq<char>)
    requires
        n.said(),
        starts_apart(rest),
    ensures
        numerals::number_at_start(n.text() + rest) == Some(
            (n.value(), n.counter, n.text().len() as int),
        ),
{
    spoken_laws::spoken_numbers_read_back(n);
    what_follows_changes_no_number(n.text(), rest);
}

/// The number that digits write.
pub open spec fn worth(s: Seq<char>, zero: char) -> int
    decreases s.len(),
{
    if s.len() == 0 {
        0
    } else {
        worth(s.drop_last(), zero) * 10 + (s.last() as int - zero as int)
    }
}

/// Whether a text is made of digits.
pub open spec fn digits(s: Seq<char>, zero: char) -> bool {
    forall|i: int| 0 <= i < s.len() ==> zero <= #[trigger] s[i] && s[i] as int <= zero as int + 9
}

proof fn lemma_worth(s: Seq<char>, rest: Seq<char>, n: nat, zero: char)
    requires
        n <= s.len(),
    ensures
        numerals::digits_value(s + rest, n, zero) == worth(s.take(n as int), zero),
    decreases n,
{
    if n > 0 {
        lemma_worth(s, rest, (n - 1) as nat, zero);
        assert(s.take(n as int).drop_last() =~= s.take(n - 1));
    }
}

proof fn lemma_all_run(s: Seq<char>, rest: Seq<char>, most: nat)
    requires
        digits(s, '0'),
        s.len() == most || (s.len() < most && (rest.len() == 0 || !('0' <= rest[0] && rest[0]
            <= '9'))),
    ensures
        numerals::digit_run(s + rest, most) == s.len(),
    decreases most,
{
    if s.len() > 0 {
        assert((s + rest).skip(1) =~= s.skip(1) + rest);
        assert('0' <= s[0] && s[0] <= '9');
        assert forall|i: int| 0 <= i < s.skip(1).len() implies '0' <= #[trigger] s.skip(1)[i]
            && s.skip(1)[i] as int <= '0' as int + 9 by {
            assert(s.skip(1)[i] == s[i + 1]);
        }
        lemma_all_run(s.skip(1), rest, (most - 1) as nat);
    } else if rest.len() > 0 {
        assert((s + rest)[0] == rest[0]);
    }
}

proof fn lemma_all_full(s: Seq<char>, rest: Seq<char>, i: int)
    requires
        digits(s, '０'),
        0 <= i <= s.len(),
        rest.len() > 0 ==> !('０' <= rest[0] && rest[0] <= '９'),
    ensures
        numerals::full_run(s + rest, i) == s.len(),
    decreases s.len() - i,
{
    if i < s.len() {
        assert('０' <= s[i] && s[i] <= '９');
        lemma_all_full(s, rest, i + 1);
    } else if rest.len() > 0 {
        assert((s + rest)[i] == rest[0]);
    }
}

/// The word for what is counted, behind a number in digits.
proof fn lemma_counted(s: Seq<char>, n: int, counter: Option<NumericCounter>, w: Seq<char>)
    requires
        0 <= n,
        n + w.len() == s.len(),
        s.skip(n) == w,
        spoken_laws::says_counter(counter, w),
    ensures
        numerals::counter_at(s, n) == match counter {
            Some(c) => Some((c, w.len() as int)),
            None => None,
        },
{
    reveal_strlit("にち");
    reveal_strlit("じつ");
    reveal_strlit("がつ");
    reveal_strlit("ねん");
    assert(s.subrange(n, n + w.len()) =~= w);
    assert("にち"@[0] == 'に' && "じつ"@[0] == 'じ' && "がつ"@[0] == 'が' && "ねん"@[0] == 'ね');
    if w.len() > 0 {
        assert(s.skip(n)[0] == s[n]);
        assert(s.subrange(n, n + 2) =~= s.skip(n));
    }
}

proof fn lemma_starts_with_digit(s: Seq<char>)
    requires
        s.len() > 0,
        ('0' <= s[0] && s[0] <= '9') || ('０' <= s[0] && s[0] <= '９'),
    ensures
        numerals::day_at(s, 0) is None,
{
    reveal_strlit("にじゅうよっか");
    reveal_strlit("じゅうよっか");
    reveal_strlit("ここのか");
    reveal_strlit("ついたち");
    reveal_strlit("とおか");
    reveal_strlit("はつか");
    reveal_strlit("ふつか");
    reveal_strlit("みっか");
    reveal_strlit("よっか");
    reveal_strlit("いつか");
    reveal_strlit("むいか");
    reveal_strlit("なのか");
    reveal_strlit("ようか");
    if numerals::leads(s, 0, "にじゅうよっか"@) {
        assert(s.subrange(0, "にじゅうよっか"@.len() as int)[0] == s[0]);
    }
    if numerals::leads(s, 0, "じゅうよっか"@) {
        assert(s.subrange(0, "じゅうよっか"@.len() as int)[0] == s[0]);
    }
    if numerals::leads(s, 0, "ここのか"@) {
        assert(s.subrange(0, "ここのか"@.len() as int)[0] == s[0]);
    }
    if numerals::leads(s, 0, "ついたち"@) {
        assert(s.subrange(0, "ついたち"@.len() as int)[0] == s[0]);
    }
    if numerals::leads(s, 0, "とおか"@) {
        assert(s.subrange(0, "とおか"@.len() as int)[0] == s[0]);
    }
    if numerals::leads(s, 0, "はつか"@) {
        assert(s.subrange(0, "はつか"@.len() as int)[0] == s[0]);
    }
    if numerals::leads(s, 0, "ふつか"@) {
        assert(s.subrange(0, "ふつか"@.len() as int)[0] == s[0]);
    }
    if numerals::leads(s, 0, "みっか"@) {
        assert(s.subrange(0, "みっか"@.len() as int)[0] == s[0]);
    }
    if numerals::leads(s, 0, "よっか"@) {
        assert(s.subrange(0, "よっか"@.len() as int)[0] == s[0]);
    }
    if numerals::leads(s, 0, "いつか"@) {
        assert(s.subrange(0, "いつか"@.len() as int)[0] == s[0]);
    }
    if numerals::leads(s, 0, "むいか"@) {
        assert(s.subrange(0, "むいか"@.len() as int)[0] == s[0]);
    }
    if numerals::leads(s, 0, "なのか"@) {
        assert(s.subrange(0, "なのか"@.len() as int)[0] == s[0]);
    }
    if numerals::leads(s, 0, "ようか"@) {
        assert(s.subrange(0, "ようか"@.len() as int)[0] == s[0]);
    }
}

/// A number in one to four ASCII digits, without a zero in front, is read as the number,
/// together with the word for what is counted.
pub proof fn ascii_digits_are_counted(
    s: Seq<char>,
    counter: Option<NumericCounter>,
    w: Seq<char>,
)
    requires
        1 <= s.len() <= 4,
        digits(s, '0'),
        s[0] == '0' ==> s.len() == 1,
        spoken_laws::says_counter(counter, w),
    ensures
        numerals::number_at_start(s + w) == Some((worth(s, '0'), counter, (s + w).len() as int)),
{
    reveal_strlit("にち");
    reveal_strlit("じつ");
    reveal_strlit("がつ");
    reveal_strlit("ねん");
    lemma_all_run(s, w, 4);
    lemma_worth(s, w, s.len(), '0');
    assert(s.take(s.len() as int) =~= s);
    assert((s + w).skip(s.len() as int) =~= w);
    assert((s + w)[0] == s[0]);
    lemma_starts_with_digit(s + w);
    lemma_counted(s + w, s.len() as int, counter, w);
}

/// A number in full-width digits is read as the number, however many zeros stand in front,
/// together with the word for what is counted, where it is no more than 9999.
pub proof fn full_width_digits_are_counted(
    s: Seq<char>,
    counter: Option<NumericCounter>,
    w: Seq<char>,
)
    requires
        1 <= s.len(),
        digits(s, '０'),
        worth(s, '０') <= 9999,
        spoken_laws::says_counter(counter, w),
    ensures
        numerals::number_at_start(s + w) == Some((worth(s, '０'), counter, (s + w).len() as int)),
{
    reveal_strlit("にち");
    reveal_strlit("じつ");
    reveal_strlit("がつ");
    reveal_strlit("ねん");
    lemma_all_full(s, w, 0);
    lemma_worth(s, w, s.len(), '０');
    assert(s.take(s.len() as int) =~= s);
    assert((s + w).skip(s.len() as int) =~= w);
    assert((s + w)[0] == s[0]);
    lemma_starts_with_digit(s + w);
    assert(numerals::digit_run(s + w, 4) == 0);
    lemma_counted(s + w, s.len() as int, counter, w);
}

/// Of more than four ASCII digits the first four are read.
pub proof fn four_digits_are_read(s: Seq<char>, rest: Seq<char>)
    requires
        s.len() == 4,
        digits(s, '0'),
        s[0] != '0',
        rest.len() > 0,
        '0' <= rest[0] && rest[0] <= '9',
    ensures
        numerals::number_at_start(s + rest) == Some(
            (worth(s, '0'), None::<NumericCounter>, 4int),
        ),
{
    reveal_strlit("にち");
    reveal_strlit("じつ");
    reveal_strlit("がつ");
    reveal_strlit("ねん");
    lemma_all_run(s, rest, 4);
    lemma_worth(s, rest, 4, '0');
    assert(s.take(4) =~= s);
    assert((s + rest)[0] == s[0]);
    lemma_starts_with_digit(s + rest);
    assert((s + rest)[4] == rest[0]);
    if numerals::leads(s + rest, 4, "にち"@) {
        assert((s + rest).subrange(4, 6)[0] == rest[0]);
    }
    if numerals::leads(s + rest, 4, "じつ"@) {
        assert((s + rest).subrange(4, 6)[0] == rest[0]);
    }
    if numerals::leads(s + rest, 4, "がつ"@) {
        assert((s + rest).subrange(4, 6)[0] == rest[0]);
    }
    if numerals::leads(s + rest, 4, "ねん"@) {
        assert((s + rest).subrange(4, 6)[0] == rest[0]);
    }
}

} // verus!
