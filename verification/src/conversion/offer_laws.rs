//! Which candidates are offered, and as what.

use super::dates;
use super::dates::DateSurface;
use super::numerals;
use super::punctuation;
use super::punctuation::PunctuationVariant;
use super::single_kanji;
use super::CandidateView;
use crate::conversion;
use crate::dictionary::image;
use crate::numerals as numbers;
use crate::numerals::{NumericCounter, NumericSpan, NumericStyle};
use crate::spoken_laws;
use crate::spoken_laws::Spoken;
use crate::strings;
use vstd::prelude::*;

verus! {

// ---------------------------------------------------------------------------
// Numbers.

/// The kanji of what is counted.
pub open spec fn counter_kanji(counter: Option<NumericCounter>) -> Seq<char> {
    match counter {
        None => Seq::empty(),
        Some(NumericCounter::Day) => seq!['日'],
        Some(NumericCounter::Month) => seq!['月'],
        Some(NumericCounter::Year) => seq!['年'],
    }
}

/// Whether a text writes a number in a style.
pub open spec fn writes(style: NumericStyle, text: Seq<char>, value: int) -> bool {
    match style {
        NumericStyle::Arabic => text.len() > 0 && spoken_laws::all_digits(text, '0')
            && spoken_laws::comes_to(text, '0') == value && (text[0] == '0' ==> text.len() == 1),
        NumericStyle::FullWidth => text.len() > 0 && spoken_laws::all_digits(text, '０')
            && spoken_laws::comes_to(text, '０') == value,
        NumericStyle::Kanji => text.len() > 0 && spoken_laws::kanji_value(text, 0, None) == value,
    }
}

/// The text of a number in a style, without what it counts.
pub open spec fn number_text(style: NumericStyle, value: int) -> Seq<char> {
    numbers::number_pieces(style, value as nat).flatten()
}

proof fn lemma_singles(s: Seq<char>)
    ensures
        s.map_values(|c: char| seq![c]).flatten() == s,
    decreases s.len(),
{
    let pieces = s.map_values(|c: char| seq![c]);
    if s.len() == 0 {
        assert(pieces.flatten() =~= s);
    } else {
        let rest = s.drop_first();
        lemma_singles(rest);
        assert(pieces.drop_first() =~= rest.map_values(|c: char| seq![c]));
        assert(pieces.flatten() =~= seq![s[0]] + rest);
        assert(seq![s[0]] + rest =~= s);
    }
}

/// A number that is offered in a style is written in the style, and then comes the kanji of
/// what it counts. The styles are Arabic, full width and kanji, in this order.
pub proof fn forms_write_the_number(value: int, counter: Option<NumericCounter>, k: int)
    requires
        0 <= value <= 9999,
        0 <= k < 3,
    ensures
        ({
            let style = if k == 0 {
                NumericStyle::Arabic
            } else if k == 1 {
                NumericStyle::FullWidth
            } else {
                NumericStyle::Kanji
            };
            let text = number_text(style, value);
            &&& numerals::forms(value, counter).len() == 3
            &&& numerals::forms(value, counter)[k] == text + counter_kanji(counter)
            &&& writes(style, text, value)
        }),
{
    let style = if k == 0 {
        NumericStyle::Arabic
    } else if k == 1 {
        NumericStyle::FullWidth
    } else {
        NumericStyle::Kanji
    };
    let pieces = numbers::number_pieces(style, value as nat);
    let span = NumericSpan { value: value as u32, counter, bytes: 0 };
    spoken_laws::counters_are_written_as_their_kanji();
    spoken_laws::written_digits_come_to_the_number(value as nat);
    spoken_laws::kanji_come_to_the_number(value);
    match counter {
        None => {
            assert(pieces.flatten() + counter_kanji(counter) =~= pieces.flatten());
        },
        Some(c) => {
            pieces.lemma_flatten_push(c.surface_of());
            assert(numbers::span_pieces(style, span) == pieces.push(c.surface_of()));
        },
    }
    match style {
        NumericStyle::Arabic => {
            pieces.lemma_flatten_one_element();
        },
        NumericStyle::FullWidth => {
            lemma_singles(numbers::full_decimal(value as nat));
        },
        NumericStyle::Kanji => {
            if pieces.flatten().len() == 0 {
                reveal_with_fuel(spoken_laws::kanji_value, 2);
                assert(value == 0);
                reveal_strlit("零");
                pieces.lemma_flatten_one_element();
            }
        },
    }
}

/// A number that is said is offered in every style, where it counts something or has more
/// than one digit.
pub proof fn spoken_numbers_are_offered(n: Spoken)
    requires
        n.said(),
    ensures
        numerals::number_read(n.text()) == if n.counter is Some || n.value() >= 10 {
            Some((n.value(), n.counter))
        } else {
            None::<(int, Option<NumericCounter>)>
        },
{
    spoken_laws::spoken_numbers_read_back(n);
    assert(n.text().take(n.text().len() as int) =~= n.text());
}

/// A form that is added costs as much more than the one before it as its place says: from
/// the cost for forms on, or behind the entry of the dictionary that writes the number.
pub proof fn added_forms_cost_more_and_more(
    list: Seq<CandidateView>,
    all: Seq<Seq<char>>,
    reading: Seq<char>,
    lexical: Option<i64>,
    form_cost: i64,
    n: int,
    i: int,
)
    requires
        0 <= n <= all.len(),
        n <= 3,
        list.len() <= i < numerals::with_forms(list, all, reading, lexical, form_cost, n).len(),
    ensures
        ({
            let c = numerals::with_forms(list, all, reading, lexical, form_cost, n)[i];
            let start: int = match lexical {
                Some(cost) => cost + 1,
                None => form_cost as int,
            };
            exists|k: int|
                0 <= k < n && c.text == #[trigger] all[k] && (start + k <= i64::MAX ==> c.cost
                    == start + k) && covers(c, reading)
        }),
    decreases n,
{
    if n > 0 {
        let before = numerals::with_forms(list, all, reading, lexical, form_cost, n - 1);
        if i < before.len() {
            added_forms_cost_more_and_more(list, all, reading, lexical, form_cost, n - 1, i);
            let c = before[i];
            let start: int = match lexical {
                Some(cost) => cost + 1,
                None => form_cost as int,
            };
            let k = choose|k: int|
                0 <= k < n - 1 && c.text == #[trigger] all[k] && (start + k <= i64::MAX ==> c.cost
                    == start + k) && covers(c, reading);
            assert(c.text == all[k]);
        } else {
            assert(numerals::with_forms(list, all, reading, lexical, form_cost, n)[i].text
                == all[n - 1]);
        }
    }
}

/// Whether a candidate is one segment that was made up: it stands for the whole reading
/// with the whole text, and is no entry of the dictionary.
pub open spec fn covers(c: CandidateView, reading: Seq<char>) -> bool {
    &&& c.segments.len() == 1
    &&& c.segments[0].reading_start == 0
    &&& c.segments[0].text_start == 0
    &&& strings::utf8_len(reading) <= u16::MAX ==> c.segments[0].reading_end == strings::utf8_len(
        reading,
    )
    &&& strings::utf8_len(c.text) <= u16::MAX ==> c.segments[0].text_end == strings::utf8_len(
        c.text,
    )
    &&& c.segments[0].word_count == 1
    &&& c.segments[0].it_word_count == 0
    &&& c.segments[0].flags.0 == 0
    &&& c.system_entry_index is None
    &&& c.path_evidence.generated_edges == 1
    &&& c.path_evidence.system_bytes == 0
    &&& !c.generated_day_suffix
}

/// A candidate that was made up writes the number at no less than what goes behind the
/// entry of the dictionary, and no candidate changes but for that.
pub proof fn only_made_up_forms_are_raised(
    c: CandidateView,
    all: Seq<Seq<char>>,
    lexical: Option<i64>,
)
    ensures
        ({
            let after = numerals::behind_lexical(c, all, lexical);
            &&& (CandidateView { cost: c.cost, ..after }) == c
            &&& after.cost >= c.cost
            &&& after.cost != c.cost ==> lexical is Some && c.path_evidence.generated_edges != 0
                && exists|k: int| 0 <= k < all.len() && #[trigger] all[k] == c.text
        }),
{
    lemma_position(all, c.text, 0);
}

proof fn lemma_position(all: Seq<Seq<char>>, text: Seq<char>, i: int)
    requires
        0 <= i,
    ensures
        match numerals::position(all, text, i) {
            Some(k) => i <= k < all.len() && all[k] == text && forall|j: int|
                i <= j < k ==> #[trigger] all[j] != text,
            None => forall|j: int| i <= j < all.len() ==> #[trigger] all[j] != text,
        },
    decreases all.len() - i,
{
    if i < all.len() && all[i] != text {
        lemma_position(all, text, i + 1);
    }
}

// ---------------------------------------------------------------------------
// What is taken out.

proof fn lemma_filter_first(list: Seq<CandidateView>, pred: spec_fn(CandidateView) -> bool)
    requires
        list.len() > 0,
    ensures
        list.filter(pred) == (if pred(list[0]) {
            seq![list[0]]
        } else {
            Seq::empty()
        }) + list.skip(1).filter(pred),
{
    let one = seq![list[0]];
    assert(list =~= one + list.skip(1));
    Seq::filter_distributes_over_add(one, list.skip(1), pred);
    reveal_with_fuel(Seq::filter, 2);
    assert(one.drop_last() =~= Seq::empty());
    assert(one.filter(pred) =~= if pred(list[0]) {
        one
    } else {
        Seq::empty()
    });
}

/// Whether a text is a number of days: digits or kanji for numbers, and then 日.
pub open spec fn is_day(text: Seq<char>) -> bool {
    &&& text.len() >= 2
    &&& text[text.len() - 1] == '日'
    &&& forall|i: int|
        0 <= i < text.len() - 1 ==> {
            let c = #[trigger] text[i];
            ('0' <= c && c <= '9') || ('０' <= c && c <= '９') || spoken_laws::kanji_digit_value(c)
                is Some || spoken_laws::kanji_power(c) > 0
        }
}

/// Where a reading ends in じつ, what is left are the candidates that are no number of days,
/// in their order, and else all of them.
pub proof fn numbers_of_days_are_taken_out(list: Seq<CandidateView>)
    ensures
        dates::without_days(list) == list.filter(|c: CandidateView| !is_day(c.text)),
    decreases list.len(),
{
    let pred = |c: CandidateView| !is_day(c.text);
    if list.len() == 0 {
        reveal(Seq::filter);
        assert(dates::without_days(list) =~= list);
    } else {
        numbers_of_days_are_taken_out(list.skip(1));
        lemma_filter_first(list, pred);
        lemma_is_day(list[0].text);
        assert(Seq::<CandidateView>::empty() + list.skip(1).filter(pred) =~= list.skip(1).filter(
            pred,
        ));
    }
}

proof fn lemma_is_day(text: Seq<char>)
    ensures
        numbers::numeric_day_surface(text) == is_day(text),
{
    assert forall|i: int| 0 <= i < text.len() implies numbers::numeral_char(#[trigger] text[i]) == ((
    '0' <= text[i] && text[i] <= '9') || ('０' <= text[i] && text[i] <= '９')
        || spoken_laws::kanji_digit_value(text[i]) is Some || spoken_laws::kanji_power(text[i])
        > 0) by {
        lemma_numeral(text[i]);
    }
}

proof fn lemma_numeral(c: char)
    ensures
        numbers::numeral_char(c) == (('0' <= c && c <= '9') || ('０' <= c && c <= '９')
            || spoken_laws::kanji_digit_value(c) is Some || spoken_laws::kanji_power(c) > 0),
{
}

/// What is left beside a family of marks are the candidates that are none of its marks by
/// themselves, in their order.
pub proof fn marks_are_taken_out(list: Seq<CandidateView>, family: Seq<PunctuationVariant>)
    ensures
        punctuation::without_family(list, family) == list.filter(
            |c: CandidateView|
                !(exists|i: int| 0 <= i < family.len() && c.text == seq![(#[trigger] family[i]).glyph]),
        ),
    decreases list.len(),
{
    let pred = |c: CandidateView|
        !(exists|i: int| 0 <= i < family.len() && c.text == seq![(#[trigger] family[i]).glyph]);
    if list.len() == 0 {
        reveal(Seq::filter);
        assert(punctuation::without_family(list, family) =~= list);
    } else {
        marks_are_taken_out(list.skip(1), family);
        lemma_filter_first(list, pred);
        let c = list[0];
        if punctuation::is_member(family, c.text) {
            let i = choose|i: int| 0 <= i < family.len() && (#[trigger] family[i]).glyph == c.text[0];
            assert(c.text =~= seq![family[i].glyph]);
        } else {
            assert forall|i: int| 0 <= i < family.len() implies c.text
                != seq![(#[trigger] family[i]).glyph] by {
                if c.text == seq![family[i].glyph] {
                    assert(c.text[0] == family[i].glyph);
                }
            }
        }
        assert(Seq::<CandidateView>::empty() + list.skip(1).filter(pred) =~= list.skip(1).filter(
            pred,
        ));
    }
}

/// The digits for decoration: superscripts, and numbers in circles.
pub open spec fn is_decoration(c: char) -> bool {
    let n = c as int;
    n == 0xb2 || n == 0xb3 || n == 0xb9 || n == 0x2070 || 0x2074 <= n <= 0x2079 || 0x2460 <= n
        <= 0x2473 || 0x3251 <= n <= 0x325f || 0x32b1 <= n <= 0x32bf
}

/// Beside the forms of a number stay the candidates without a digit for decoration that are
/// one of the forms, the reading itself or an entry of the dictionary, in their order.
pub proof fn what_only_sounds_like_a_number_goes(
    list: Seq<CandidateView>,
    all: Seq<Seq<char>>,
    reading: Seq<char>,
)
    ensures
        numerals::staying(list, all, reading) == list.filter(
            |c: CandidateView|
                {
                    &&& !(exists|i: int| 0 <= i < c.text.len() && is_decoration(#[trigger] c.text[i]))
                    &&& all.contains(c.text) || c.text == reading || c.system_entry_index is Some
                },
        ),
    decreases list.len(),
{
    let pred = |c: CandidateView|
        {
            &&& !(exists|i: int| 0 <= i < c.text.len() && is_decoration(#[trigger] c.text[i]))
            &&& all.contains(c.text) || c.text == reading || c.system_entry_index is Some
        };
    if list.len() == 0 {
        reveal(Seq::filter);
        assert(numerals::staying(list, all, reading) =~= list);
    } else {
        what_only_sounds_like_a_number_goes(list.skip(1), all, reading);
        lemma_filter_first(list, pred);
        let c = list[0];
        lemma_position(all, c.text, 0);
        if all.contains(c.text) {
            let k = all.index_of(c.text);
            assert(all[k] == c.text);
        }
        assert forall|i: int| 0 <= i < c.text.len() implies numbers::decorative(#[trigger] c.text[i])
            == is_decoration(c.text[i]) by {
            lemma_decoration(c.text[i]);
        }
        assert(numerals::decorated(c.text) == exists|i: int|
            0 <= i < c.text.len() && is_decoration(#[trigger] c.text[i]));
        assert(Seq::<CandidateView>::empty() + list.skip(1).filter(pred) =~= list.skip(1).filter(
            pred,
        ));
    }
}

proof fn lemma_decoration(c: char)
    ensures
        numbers::decorative(c) == is_decoration(c),
{
}

// ---------------------------------------------------------------------------
// Dates.

/// Whether a candidate is a way to write a date.
pub open spec fn is_date(
    c: CandidateView,
    base: CandidateView,
    reading: Seq<char>,
    surface: DateSurface,
    k: int,
) -> bool {
    &&& covers(c, reading)
    &&& c.text == surface.text@
    &&& c.annotation == surface.annotation@
    &&& !c.synthetic_exact
    &&& base.cost + 10 + k <= i64::MAX ==> c.cost == base.cost + 10 + k
    &&& base.segments.len() > 0 ==> c.segments[0].left_id == base.segments[0].left_id
        && c.segments[0].right_id == base.segments[base.segments.len() - 1].right_id
}

/// Whether a candidate is one of the first `n` ways to write a date.
pub open spec fn is_some_date(
    c: CandidateView,
    base: CandidateView,
    reading: Seq<char>,
    surfaces: Seq<DateSurface>,
    n: int,
) -> bool {
    exists|k: int| 0 <= k < n && is_date(c, base, reading, #[trigger] surfaces[k], k)
}

proof fn lemma_has_on(before: Seq<CandidateView>, after: Seq<CandidateView>, text: Seq<char>)
    requires
        before.len() <= after.len(),
        forall|i: int| 0 <= i < before.len() ==> after[i] == #[trigger] before[i],
        conversion::has_text(before, text),
    ensures
        conversion::has_text(after, text),
{
    let i = choose|i: int| 0 <= i < before.len() && (#[trigger] before[i]).text == text;
    assert(after[i].text == text);
}

/// Every way to write a date is offered where it fits and the list did not run full. What
/// is added is one of the ways, with its note, from ten above the first candidate on, and
/// joins its neighbours as the first candidate does.
pub proof fn every_date_is_offered(
    list: Seq<CandidateView>,
    reading: Seq<char>,
    surfaces: Seq<DateSurface>,
    n: int,
    most: nat,
)
    requires
        0 <= n <= surfaces.len(),
        list.len() > 0,
    ensures
        ({
            let after = dates::with_dates(list, reading, surfaces, n, most);
            &&& after.len() < most ==> forall|k: int|
                0 <= k < n && strings::utf8_len((#[trigger] surfaces[k]).text@) <= 512
                    && strings::utf8_len(surfaces[k].annotation@) <= 512 ==> conversion::has_text(
                    after,
                    surfaces[k].text@,
                )
            &&& forall|i: int|
                list.len() <= i < after.len() ==> is_some_date(
                    #[trigger] after[i],
                    list[0],
                    reading,
                    surfaces,
                    n,
                )
            &&& list.len() <= after.len() && after.take(list.len() as int) == list
        }),
    decreases n,
{
    let after = dates::with_dates(list, reading, surfaces, n, most);
    if n == 0 {
        assert(list.take(list.len() as int) =~= list);
    } else {
        every_date_is_offered(list, reading, surfaces, n - 1, most);
        let before = dates::with_dates(list, reading, surfaces, n - 1, most);
        assert(forall|i: int| 0 <= i < before.len() ==> after[i] == #[trigger] before[i]);
        assert(after.take(list.len() as int) =~= before.take(list.len() as int));
        if after.len() < most {
            assert forall|k: int|
                0 <= k < n && strings::utf8_len((#[trigger] surfaces[k]).text@) <= 512
                    && strings::utf8_len(surfaces[k].annotation@) <= 512 implies conversion::has_text(
                after,
                surfaces[k].text@,
            ) by {
                let text = surfaces[k].text@;
                if conversion::has_text(before, text) {
                    lemma_has_on(before, after, text);
                } else {
                    assert(k == n - 1);
                    assert(after[before.len() as int].text == text);
                }
            }
        }
        assert forall|i: int| list.len() <= i < after.len() implies is_some_date(
            #[trigger] after[i],
            list[0],
            reading,
            surfaces,
            n,
        ) by {
            if i < before.len() {
                assert(after[i] == before[i]);
                let k = choose|k: int|
                    0 <= k < n - 1 && is_date(
                        before[i],
                        list[0],
                        reading,
                        #[trigger] surfaces[k],
                        k,
                    );
                assert(is_date(after[i], list[0], reading, surfaces[k], k));
            } else {
                assert(is_date(after[i], list[0], reading, surfaces[n - 1], n - 1));
            }
        }
    }
}

// ---------------------------------------------------------------------------
// Single kanji.

/// Whether a candidate is a kanji of the reading: behind everything that was there.
pub open spec fn is_kanji(
    c: CandidateView,
    ceiling: int,
    d: image::ImageView,
    reading: Seq<char>,
    kanji: char,
    k: int,
    class: u16,
) -> bool {
    &&& covers(c, reading)
    &&& c.text == seq![kanji]
    &&& c.annotation == single_kanji::note_of(d, kanji)
    &&& !c.synthetic_exact
    &&& c.segments[0].left_id == class && c.segments[0].right_id == class
    &&& c.cost == conversion::cost_sum(ceiling, k + 1)
}

/// Whether a candidate is one of the first `n` kanji of the reading.
pub open spec fn is_some_kanji(
    c: CandidateView,
    ceiling: int,
    d: image::ImageView,
    reading: Seq<char>,
    chars: Seq<char>,
    n: int,
    class: u16,
) -> bool {
    exists|k: int| 0 <= k < n && is_kanji(c, ceiling, d, reading, #[trigger] chars[k], k, class)
}

/// What a list costs at most.
pub open spec fn ceiling_of(list: Seq<CandidateView>) -> int {
    match single_kanji::highest_cost(list, list.len() as int) {
        Some(cost) => cost as int,
        None => 0,
    }
}

/// The ceiling is the highest cost of a list.
pub proof fn ceilings_are_highest(list: Seq<CandidateView>, n: int)
    requires
        0 <= n <= list.len(),
    ensures
        match single_kanji::highest_cost(list, n) {
            None => n == 0,
            Some(cost) => (forall|i: int| 0 <= i < n ==> (#[trigger] list[i]).cost <= cost) && exists|
                i: int,
            |
                0 <= i < n && (#[trigger] list[i]).cost == cost,
        },
    decreases n,
{
    if n > 0 {
        ceilings_are_highest(list, n - 1);
        assert(list[n - 1].cost == list[n - 1].cost);
    }
}

/// Every kanji of the reading is offered where its note fits and the list did not run full.
/// What is added is one of the kanji by itself, behind everything that was there and in the
/// order of the dictionary.
pub proof fn every_kanji_is_offered(
    list: Seq<CandidateView>,
    d: image::ImageView,
    reading: Seq<char>,
    chars: Seq<char>,
    n: int,
    wanted: nat,
    class: u16,
)
    requires
        0 <= n <= chars.len(),
    ensures
        ({
            let after = single_kanji::with_kanji(list, d, reading, chars, n, wanted, class);
            &&& after.len() < wanted ==> forall|k: int|
                0 <= k < n && strings::utf8_len(single_kanji::note_of(d, #[trigger] chars[k])) <= 512
                    ==> conversion::has_text(after, seq![chars[k]])
            &&& list.len() <= after.len() && after.take(list.len() as int) == list
            &&& forall|i: int|
                list.len() <= i < after.len() ==> is_some_kanji(
                    #[trigger] after[i],
                    ceiling_of(list),
                    d,
                    reading,
                    chars,
                    n,
                    class,
                )
        }),
    decreases n,
{
    let after = single_kanji::with_kanji(list, d, reading, chars, n, wanted, class);
    if n == 0 {
        assert(list.take(list.len() as int) =~= list);
    } else {
        every_kanji_is_offered(list, d, reading, chars, n - 1, wanted, class);
        let before = single_kanji::with_kanji(list, d, reading, chars, n - 1, wanted, class);
        assert(forall|i: int| 0 <= i < before.len() ==> after[i] == #[trigger] before[i]);
        assert(after.take(list.len() as int) =~= before.take(list.len() as int));
        if after.len() < wanted {
            assert forall|k: int|
                0 <= k < n && strings::utf8_len(single_kanji::note_of(d, #[trigger] chars[k])) <= 512 implies conversion::has_text(
                after,
                seq![chars[k]],
            ) by {
                let text = seq![chars[k]];
                if k < n - 1 {
                    lemma_has_on(before, after, text);
                } else if conversion::has_text(list, text) {
                    assert forall|i: int| 0 <= i < list.len() implies after[i]
                        == #[trigger] list[i] by {
                        assert(after.take(list.len() as int)[i] == after[i]);
                    }
                    lemma_has_on(list, after, text);
                } else if single_kanji::occurs_before(chars, chars[k], n - 1) {
                    let m = choose|m: int| 0 <= m < n - 1 && #[trigger] chars[m] == chars[k];
                    assert(conversion::has_text(before, seq![chars[m]]));
                    lemma_has_on(before, after, text);
                } else {
                    assert(after[before.len() as int].text == text);
                }
            }
        }
        assert forall|i: int| list.len() <= i < after.len() implies is_some_kanji(
            #[trigger] after[i],
            ceiling_of(list),
            d,
            reading,
            chars,
            n,
            class,
        ) by {
            if i < before.len() {
                assert(after[i] == before[i]);
                let k = choose|k: int|
                    0 <= k < n - 1 && is_kanji(
                        before[i],
                        ceiling_of(list),
                        d,
                        reading,
                        #[trigger] chars[k],
                        k,
                        class,
                    );
                assert(is_kanji(after[i], ceiling_of(list), d, reading, chars[k], k, class));
            } else {
                assert(is_kanji(after[i], ceiling_of(list), d, reading, chars[n - 1], n - 1, class));
            }
        }
    }
}

/// The note of a kanji says what kind of variant it is and of which character; a kanji that
/// is no variant is a single kanji.
pub proof fn notes_name_the_original(
    d: image::ImageView,
    t: image::SingleKanjiView,
    i: int,
    c: char,
    original: char,
    kind: crate::dictionary::SingleKanjiVariantKind,
)
    requires
        d.single_kanji == Some(t),
        t.find_variant(c as int) == Some(i),
        t.original(i) == original as int,
        t.kind(i) == Some(kind),
    ensures
        single_kanji::note_of(d, c) == kind.label_of() + seq!['（', original, '）'],
{
    crate::dictionary::walk_laws::lemma_label(original, t.original(i));
    assert(kind.label_of().push('（').push(original).push('）') =~= kind.label_of() + seq![
        '（',
        original,
        '）',
    ]);
}

// ---------------------------------------------------------------------------
// Marks.

/// The marks of a family are offered as they are, each with its note, whatever the settings
/// say of marks.
pub proof fn marks_are_offered_as_they_are(
    family: Seq<PunctuationVariant>,
    reading: Seq<char>,
    first: i64,
    n: nat,
    i: int,
)
    requires
        0 <= i < n <= family.len(),
    ensures
        ({
            let all = punctuation::members(family, reading, first, n);
            let c = all[i];
            &&& all.len() == n
            &&& covers(c, reading)
            &&& c.text == seq![family[i].glyph]
            &&& c.annotation == family[i].annotation@
            &&& c.synthetic_exact
            &&& first + i <= i64::MAX ==> c.cost == first + i
        }),
{
}

// ---------------------------------------------------------------------------
// Costs.

/// Whether a cost is the lowest of those candidates of a list that count, where any does.
pub open spec fn is_lowest(
    list: Seq<CandidateView>,
    counts: spec_fn(CandidateView) -> bool,
    lowest: Option<i64>,
) -> bool {
    match lowest {
        Some(cost) => {
            &&& exists|i: int|
                0 <= i < list.len() && counts(#[trigger] list[i]) && list[i].cost == cost
            &&& forall|i: int|
                0 <= i < list.len() && counts(#[trigger] list[i]) ==> list[i].cost >= cost
        },
        None => forall|i: int| 0 <= i < list.len() ==> !counts(#[trigger] list[i]),
    }
}

proof fn lemma_one_more(
    list: Seq<CandidateView>,
    counts: spec_fn(CandidateView) -> bool,
    lowest: Option<i64>,
)
    requires
        list.len() > 0,
        is_lowest(list.drop_last(), counts, lowest),
    ensures
        is_lowest(
            list,
            counts,
            if counts(list.last()) {
                conversion::lower(lowest, list.last().cost)
            } else {
                lowest
            },
        ),
{
    let before = list.drop_last();
    assert forall|i: int| 0 <= i < before.len() implies #[trigger] list[i] == before[i] by {}
    assert(list[list.len() - 1] == list.last());
    if let Some(cost) = lowest {
        let k = choose|i: int|
            0 <= i < before.len() && counts(#[trigger] before[i]) && before[i].cost == cost;
        assert(counts(list[k]) && list[k].cost == cost);
    }
    if lowest is None {
        assert forall|i: int| 0 <= i < before.len() implies !counts(#[trigger] list[i]) by {
            assert(!counts(before[i]));
        }
    }
}

proof fn lemma_covered(list: Seq<CandidateView>, reading_len: nat, n: int)
    requires
        0 <= n <= list.len(),
    ensures
        is_lowest(
            list.take(n),
            |c: CandidateView|
                c.path_evidence.generated_edges == 0 && c.path_evidence.system_bytes
                    == reading_len,
            dates::lowest_covered(list, reading_len, n),
        ),
    decreases n,
{
    let counts = |c: CandidateView|
        c.path_evidence.generated_edges == 0 && c.path_evidence.system_bytes == reading_len;
    if n > 0 {
        lemma_covered(list, reading_len, n - 1);
        assert(list.take(n).drop_last() =~= list.take(n - 1));
        assert(list.take(n).last() == list[n - 1]);
        lemma_one_more(list.take(n), counts, dates::lowest_covered(list, reading_len, n - 1));
    }
}

/// A day that was made up is held against the candidate with the lowest cost of those that
/// the dictionary covers from end to end with nothing made up.
pub proof fn days_are_held_against_what_is_covered(list: Seq<CandidateView>, reading_len: nat)
    ensures
        is_lowest(
            list,
            |c: CandidateView|
                c.path_evidence.generated_edges == 0 && c.path_evidence.system_bytes
                    == reading_len,
            dates::lowest_covered(list, reading_len, list.len() as int),
        ),
{
    lemma_covered(list, reading_len, list.len() as int);
    assert(list.take(list.len() as int) =~= list);
}

proof fn lemma_found(all: Seq<Seq<char>>, text: Seq<char>, i: int)
    requires
        0 <= i <= all.len(),
    ensures
        numerals::position(all, text, i) is Some == all.skip(i).contains(text),
    decreases all.len() - i,
{
    let rest = all.skip(i);
    if i < all.len() {
        lemma_found(all, text, i + 1);
        let next = all.skip(i + 1);
        assert(rest[0] == all[i]);
        assert forall|k: int| 0 <= k < next.len() implies #[trigger] next[k] == rest[k + 1] by {}
        if rest.contains(text) && all[i] != text {
            let k = rest.index_of(text);
            assert(next[k - 1] == text);
        }
        if next.contains(text) {
            let k = next.index_of(text);
            assert(rest[k + 1] == text);
        }
    }
}

proof fn lemma_lexical(list: Seq<CandidateView>, all: Seq<Seq<char>>, n: int)
    requires
        0 <= n <= list.len(),
    ensures
        is_lowest(
            list.take(n),
            |c: CandidateView| c.system_entry_index is Some && all.contains(c.text),
            numerals::lexical_cost(list, all, n),
        ),
    decreases n,
{
    let counts = |c: CandidateView| c.system_entry_index is Some && all.contains(c.text);
    if n > 0 {
        lemma_lexical(list, all, n - 1);
        assert(list.take(n).drop_last() =~= list.take(n - 1));
        assert(list.take(n).last() == list[n - 1]);
        lemma_found(all, list[n - 1].text, 0);
        assert(all.skip(0) =~= all);
        lemma_one_more(list.take(n), counts, numerals::lexical_cost(list, all, n - 1));
    }
}

/// The forms of a number that were made up are held against the entry of the dictionary
/// with the lowest cost of those that write the number in one of the forms.
pub proof fn forms_are_held_against_the_dictionary(list: Seq<CandidateView>, all: Seq<Seq<char>>)
    ensures
        is_lowest(
            list,
            |c: CandidateView| c.system_entry_index is Some && all.contains(c.text),
            numerals::lexical_cost(list, all, list.len() as int),
        ),
{
    lemma_lexical(list, all, list.len() as int);
    assert(list.take(list.len() as int) =~= list);
}

proof fn lemma_any(list: Seq<CandidateView>, n: int)
    requires
        0 <= n <= list.len(),
    ensures
        is_lowest(list.take(n), |c: CandidateView| true, punctuation::lowest_cost(list, n)),
    decreases n,
{
    let counts = |c: CandidateView| true;
    if n > 0 {
        lemma_any(list, n - 1);
        assert(list.take(n).drop_last() =~= list.take(n - 1));
        assert(list.take(n).last() == list[n - 1]);
        lemma_one_more(list.take(n), counts, punctuation::lowest_cost(list, n - 1));
    }
}

/// Marks are held against the candidate with the lowest cost of all.
pub proof fn marks_are_held_against_every_candidate(list: Seq<CandidateView>)
    ensures
        is_lowest(
            list,
            |c: CandidateView| true,
            punctuation::lowest_cost(list, list.len() as int),
        ),
{
    lemma_any(list, list.len() as int);
    assert(list.take(list.len() as int) =~= list);
}

/// A reading ends in じつ where the two letters stand at its end, and nowhere else.
pub proof fn readings_in_jitsu_end_so(front: Seq<char>, reading: Seq<char>)
    ensures
        dates::ends_in_jitsu(front + "じつ"@),
        dates::ends_in_jitsu(reading) ==> reading == reading.take(reading.len() - 2) + "じつ"@,
{
    reveal_strlit("じつ");
    assert("じつ"@ =~= seq!['じ', 'つ']);
    if dates::ends_in_jitsu(reading) {
        assert(reading =~= reading.take(reading.len() - 2) + "じつ"@);
    }
}

/// Costs add up, and stop at the lowest and the highest that there are: neither does a sum
/// turn back, nor is one lower than another of smaller parts.
pub proof fn costs_add_up(a: i64, b: int, c: i64, d: int)
    ensures
        -9223372036854775808 <= a + b <= 9223372036854775807 ==> conversion::cost_sum(a as int, b)
            == a + b,
        a + b < -9223372036854775808 ==> conversion::cost_sum(a as int, b) == -9223372036854775808,
        a + b > 9223372036854775807 ==> conversion::cost_sum(a as int, b) == 9223372036854775807,
        a <= c && b <= d ==> conversion::cost_sum(a as int, b) <= conversion::cost_sum(
            c as int,
            d,
        ),
{
}

/// A candidate that was made up is one word that covers the whole of the reading and the
/// whole of its own text, and no entry of the dictionary stands behind it.
pub proof fn made_up_candidates_cover_the_reading(
    text: Seq<char>,
    annotation: Seq<char>,
    reading: Seq<char>,
    left: u16,
    right: u16,
    exact: bool,
    cost: i64,
)
    requires
        vstd::utf8::encode_utf8(text).len() <= 65535,
        vstd::utf8::encode_utf8(reading).len() <= 65535,
    ensures
        ({
            let c = conversion::generated(text, annotation, reading, left, right, exact, cost);
            let word = c.segments[0];
            &&& c.text == text
            &&& c.annotation == annotation
            &&& c.cost == cost
            &&& c.synthetic_exact == exact
            &&& c.system_entry_index is None
            &&& !c.generated_day_suffix
            &&& c.path_evidence.generated_edges == 1
            &&& c.path_evidence.system_bytes == 0
            &&& c.segments.len() == 1
            &&& word.reading_start == 0
            &&& word.reading_end == vstd::utf8::encode_utf8(reading).len()
            &&& word.text_start == 0
            &&& word.text_end == vstd::utf8::encode_utf8(text).len()
            &&& word.left_id == left
            &&& word.right_id == right
            &&& word.flags.0 == 0
            &&& word.word_count == 1
            &&& word.it_word_count == 0
        }),
{
}

/// A list is cut behind so many candidates, and one that is no longer stays.
pub proof fn lists_are_cut_at_the_end(list: Seq<CandidateView>, n: nat)
    ensures
        ({
            let cut = punctuation::at_most(list, n);
            &&& cut.len() <= n
            &&& cut.len() == n || cut.len() == list.len()
            &&& cut.len() <= list.len()
            &&& forall|i: int| 0 <= i < cut.len() ==> #[trigger] cut[i] == list[i]
        }),
{
}

/// The marks of a family are taken up to the first whose note has more than 512 bytes.
pub proof fn marks_stop_at_a_note_that_is_too_long(family: Seq<PunctuationVariant>, i: int, k: int)
    requires
        0 <= i <= k <= family.len(),
        forall|j: int|
            i <= j < k ==> vstd::utf8::encode_utf8((#[trigger] family[j]).annotation@).len() <= 512,
        k < family.len() ==> vstd::utf8::encode_utf8(family[k].annotation@).len() > 512,
    ensures
        punctuation::first_too_long(family, i) == k,
    decreases k - i,
{
    if i < k {
        assert(vstd::utf8::encode_utf8(family[i].annotation@).len() <= 512);
        marks_stop_at_a_note_that_is_too_long(family, i + 1, k);
    }
}

} // verus!
