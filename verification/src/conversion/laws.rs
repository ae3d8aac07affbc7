//! What holds of the passes over a list of candidates.

use super::dates;
use super::dates::DateSurface;
use super::numerals;
use super::punctuation;
use super::punctuation::PunctuationVariant;
use super::single_kanji;
use super::sorting;
use super::CandidateView;
use crate::conversion;
use crate::dictionary::image;
use crate::numerals::NumericCounter;
use vstd::prelude::*;

verus! {

// ---------------------------------------------------------------------------
// Single kanji.

/// The highest cost is at least every cost, and is one of them.
proof fn lemma_highest(list: Seq<CandidateView>, n: int)
    requires
        0 <= n <= list.len(),
    ensures
        n > 0 ==> single_kanji::highest_cost(list, n) is Some,
        forall|i: int|
            0 <= i < n ==> (#[trigger] list[i]).cost <= single_kanji::highest_cost(
                list,
                n,
            )->Some_0,
    decreases n,
{
    if n > 0 {
        lemma_highest(list, n - 1);
    }
}

/// Single kanji come behind what was there, which stays as it was, and no list grows
/// past what is wanted. Each of them is new, and, while costs do not run out, costs
/// more than everything that was there.
pub proof fn kanji_go_behind(
    list: Seq<CandidateView>,
    d: image::ImageView,
    reading: Seq<char>,
    chars: Seq<char>,
    n: int,
    wanted: nat,
    class: u16,
)
    requires
        0 <= n <= chars.len(),
    ensures
        ({
            let after = single_kanji::with_kanji(list, d, reading, chars, n, wanted, class);
            &&& list.len() <= after.len()
            &&& after.len() <= list.len() || after.len() <= wanted
            &&& after.take(list.len() as int) == list
            &&& forall|i: int|
                list.len() <= i < after.len() ==> !conversion::has_text(
                    list,
                    (#[trigger] after[i]).text,
                )
            &&& (match single_kanji::highest_cost(list, list.len() as int) {
                Some(cost) => cost + n <= i64::MAX ==> forall|i: int, j: int|
                    0 <= i < list.len() <= j < after.len() ==> (#[trigger] list[i]).cost < (
                    #[trigger] after[j]).cost,
                None => list.len() == 0,
            })
        }),
    decreases n,
{
    lemma_highest(list, list.len() as int);
    if n <= 0 {
        assert(list.take(list.len() as int) =~= list);
    } else {
        kanji_go_behind(list, d, reading, chars, n - 1, wanted, class);
        let before = single_kanji::with_kanji(list, d, reading, chars, n - 1, wanted, class);
        let after = single_kanji::with_kanji(list, d, reading, chars, n, wanted, class);
        assert(after.take(list.len() as int) =~= before.take(list.len() as int));
    }
}

/// No kanji is offered twice.
pub proof fn kanji_are_offered_once(
    list: Seq<CandidateView>,
    d: image::ImageView,
    reading: Seq<char>,
    chars: Seq<char>,
    n: int,
    wanted: nat,
    class: u16,
)
    requires
        0 <= n <= chars.len(),
    ensures
        ({
            let after = single_kanji::with_kanji(list, d, reading, chars, n, wanted, class);
            forall|i: int, j: int|
                list.len() <= i < j < after.len() ==> (#[trigger] after[i]).text != (
                #[trigger] after[j]).text
        }),
{
    lemma_kanji_occur(list, d, reading, chars, n, wanted, class);
}

proof fn lemma_kanji_occur(
    list: Seq<CandidateView>,
    d: image::ImageView,
    reading: Seq<char>,
    chars: Seq<char>,
    n: int,
    wanted: nat,
    class: u16,
)
    requires
        0 <= n <= chars.len(),
    ensures
        ({
            let after = single_kanji::with_kanji(list, d, reading, chars, n, wanted, class);
            &&& list.len() <= after.len()
            &&& forall|i: int|
                list.len() <= i < after.len() ==> (#[trigger] after[i]).text.len() == 1
                    && single_kanji::occurs_before(chars, after[i].text[0], n)
            &&& forall|i: int, j: int|
                list.len() <= i < j < after.len() ==> (#[trigger] after[i]).text != (
                #[trigger] after[j]).text
        }),
    decreases n,
{
    if n > 0 {
        lemma_kanji_occur(list, d, reading, chars, n - 1, wanted, class);
        let before = single_kanji::with_kanji(list, d, reading, chars, n - 1, wanted, class);
        let after = single_kanji::with_kanji(list, d, reading, chars, n, wanted, class);
        assert forall|i: int| list.len() <= i < after.len() implies (
        #[trigger] after[i]).text.len() == 1 && single_kanji::occurs_before(
            chars,
            after[i].text[0],
            n,
        ) by {
            if i < before.len() {
                assert(after[i] == before[i]);
                let m = choose|m: int|
                    0 <= m < n - 1 && #[trigger] chars[m] == before[i].text[0];
                assert(chars[m] == after[i].text[0]);
            } else {
                assert(chars[n - 1] == after[i].text[0]);
            }
        }
        assert forall|i: int, j: int| list.len() <= i < j < after.len() implies (
        #[trigger] after[i]).text != (#[trigger] after[j]).text by {
            assert(after[i] == before[i]);
            if j < before.len() {
                assert(after[j] == before[j]);
            } else {
                assert(after[j].text[0] == chars[n - 1]);
                assert(single_kanji::occurs_before(chars, before[i].text[0], n - 1));
            }
        }
    }
}

// ---------------------------------------------------------------------------
// Marks of punctuation.

/// The lowest cost is at most every cost.
proof fn lemma_lowest(list: Seq<CandidateView>, n: int)
    requires
        0 <= n <= list.len(),
    ensures
        n > 0 ==> punctuation::lowest_cost(list, n) is Some,
        forall|i: int|
            0 <= i < n ==> (#[trigger] list[i]).cost >= punctuation::lowest_cost(list, n)->Some_0,
    decreases n,
{
    if n > 0 {
        lemma_lowest(list, n - 1);
    }
}

/// The marks of a family come in its order and, while costs do not run out, cost less
/// than everything else.
pub proof fn marks_go_first(
    kept: Seq<CandidateView>,
    family: Seq<PunctuationVariant>,
    reading: Seq<char>,
)
    requires
        forall|i: int| 0 <= i < kept.len() ==> (#[trigger] kept[i]).cost >= i64::MIN + family.len(),
        i64::MIN + family.len() <= 0,
    ensures
        ({
            let marks = punctuation::members(
                family,
                reading,
                punctuation::first_cost(kept, family.len()),
                family.len(),
            );
            &&& forall|i: int|
                0 <= i < family.len() ==> (#[trigger] marks[i]).text == seq![family[i].glyph]
            &&& forall|i: int, j: int|
                0 <= i < j < marks.len() ==> (#[trigger] marks[i]).cost < (
                #[trigger] marks[j]).cost
            &&& forall|i: int, j: int|
                0 <= i < marks.len() && 0 <= j < kept.len() ==> (#[trigger] marks[i]).cost < (
                #[trigger] kept[j]).cost
        }),
{
    lemma_lowest(kept, kept.len() as int);
    lemma_lowest_is_one(kept, kept.len() as int);
}

/// The lowest cost is the cost of a candidate.
proof fn lemma_lowest_is_one(list: Seq<CandidateView>, n: int)
    requires
        0 <= n <= list.len(),
    ensures
        match punctuation::lowest_cost(list, n) {
            Some(cost) => exists|i: int| 0 <= i < n && (#[trigger] list[i]).cost == cost,
            None => n == 0,
        },
    decreases n,
{
    if n > 0 {
        lemma_lowest_is_one(list, n - 1);
        assert(list[n - 1].cost == list[n - 1].cost);
    }
}

/// No mark of a family stays where the search put it, and nothing else goes.
pub proof fn only_marks_are_taken_out(list: Seq<CandidateView>, family: Seq<PunctuationVariant>)
    ensures
        ({
            let kept = punctuation::without_family(list, family);
            &&& forall|i: int|
                0 <= i < kept.len() ==> !punctuation::is_member(family, (#[trigger] kept[i]).text)
            &&& forall|i: int|
                0 <= i < list.len() && !punctuation::is_member(family, (#[trigger] list[i]).text)
                    ==> kept.contains(list[i])
        }),
    decreases list.len(),
{
    if list.len() > 0 {
        let rest = list.skip(1);
        only_marks_are_taken_out(rest, family);
        let below = punctuation::without_family(rest, family);
        let kept = punctuation::without_family(list, family);
        assert forall|i: int|
            0 <= i < list.len() && !punctuation::is_member(
                family,
                (#[trigger] list[i]).text,
            ) implies kept.contains(list[i]) by {
            if i == 0 {
                assert(kept[0] == list[0]);
            } else {
                assert(rest[i - 1] == list[i]);
                let k = choose|k: int| 0 <= k < below.len() && below[k] == list[i];
                if punctuation::is_member(family, list[0].text) {
                    assert(kept[k] == list[i]);
                } else {
                    assert(kept[k + 1] == list[i]);
                }
            }
        }
    }
}

// ---------------------------------------------------------------------------
// Dates.

/// Dates come behind what was there, which stays as it was; no list grows past the
/// most that it may hold, and no date is offered that was there already.
pub proof fn dates_go_behind(
    list: Seq<CandidateView>,
    reading: Seq<char>,
    surfaces: Seq<DateSurface>,
    n: int,
    most: nat,
)
    requires
        0 <= n <= surfaces.len(),
    ensures
        ({
            let after = dates::with_dates(list, reading, surfaces, n, most);
            &&& list.len() <= after.len()
            &&& after.len() <= list.len() || after.len() <= most
            &&& after.take(list.len() as int) == list
            &&& forall|i: int, j: int|
                0 <= i < j < after.len() && list.len() <= j ==> (#[trigger] after[i]).text != (
                #[trigger] after[j]).text
        }),
    decreases n,
{
    if n <= 0 {
        assert(list.take(list.len() as int) =~= list);
    } else {
        dates_go_behind(list, reading, surfaces, n - 1, most);
        let before = dates::with_dates(list, reading, surfaces, n - 1, most);
        let after = dates::with_dates(list, reading, surfaces, n, most);
        assert(after.take(list.len() as int) =~= before.take(list.len() as int));
        assert forall|i: int, j: int|
            0 <= i < j < after.len() && list.len() <= j implies (#[trigger] after[i]).text != (
        #[trigger] after[j]).text by {
            assert(after[i] == before[i]);
            if j < before.len() {
                assert(after[j] == before[j]);
            }
        }
    }
}

/// Demoting the days that were made up changes no candidate but in its cost, lowers
/// no cost and touches nothing else; behind it, while costs do not run out, no such
/// day costs less than what the dictionary covers, or as much.
pub proof fn made_up_days_go_behind(list: Seq<CandidateView>, reading_len: nat)
    ensures
        ({
            let after = dates::with_days_demoted(list, reading_len);
            &&& after.len() == list.len()
            &&& forall|i: int|
                0 <= i < list.len() ==> (CandidateView {
                    cost: list[i].cost,
                    ..#[trigger] after[i]
                }) == list[i]
            &&& forall|i: int| 0 <= i < list.len() ==> (#[trigger] after[i]).cost >= list[i].cost
            &&& forall|i: int|
                0 <= i < list.len() && !list[i].generated_day_suffix ==> #[trigger] after[i]
                    == list[i]
            &&& dates::lowest_covered(list, reading_len, list.len() as int) matches Some(cost) ==> (
            cost < i64::MAX ==> forall|i: int|
                0 <= i < list.len() && list[i].generated_day_suffix ==> (#[trigger] after[i]).cost
                    > cost)
        }),
{
}

// ---------------------------------------------------------------------------
// Numbers.

/// Forms that are added leave the list in front of them as it was.
proof fn lemma_with_forms(
    list: Seq<CandidateView>,
    all: Seq<Seq<char>>,
    reading: Seq<char>,
    lexical: Option<i64>,
    form_cost: i64,
    n: int,
)
    requires
        0 <= n <= all.len(),
    ensures
        ({
            let after = numerals::with_forms(list, all, reading, lexical, form_cost, n);
            &&& list.len() <= after.len()
            &&& forall|i: int| 0 <= i < list.len() ==> #[trigger] after[i] == list[i]
            &&& forall|k: int| 0 <= k < n ==> conversion::has_text(after, #[trigger] all[k])
        }),
    decreases n,
{
    if n > 0 {
        lemma_with_forms(list, all, reading, lexical, form_cost, n - 1);
        let before = numerals::with_forms(list, all, reading, lexical, form_cost, n - 1);
        let after = numerals::with_forms(list, all, reading, lexical, form_cost, n);
        assert forall|k: int| 0 <= k < n implies conversion::has_text(after, #[trigger] all[k]) by {
            if k < n - 1 {
                let i = choose|i: int| 0 <= i < before.len() && (#[trigger] before[i]).text == all[k];
                assert(after[i].text == all[k]);
            } else if !conversion::has_text(before, all[k]) {
                assert(after[before.len() as int].text == all[k]);
            }
        }
    }
}

/// What stays of a list was in it, is not decorated, and is all that may stay.
proof fn lemma_staying(list: Seq<CandidateView>, all: Seq<Seq<char>>, reading: Seq<char>)
    ensures
        ({
            let kept = numerals::staying(list, all, reading);
            &&& forall|i: int|
                0 <= i < kept.len() ==> numerals::stays(#[trigger] kept[i], all, reading)
                    && list.contains(kept[i])
            &&& forall|i: int|
                0 <= i < list.len() && numerals::stays(#[trigger] list[i], all, reading)
                    ==> kept.contains(list[i])
        }),
    decreases list.len(),
{
    if list.len() > 0 {
        let rest = list.skip(1);
        lemma_staying(rest, all, reading);
        let below = numerals::staying(rest, all, reading);
        let kept = numerals::staying(list, all, reading);
        let shift: int = if numerals::stays(list[0], all, reading) {
            1
        } else {
            0
        };
        assert forall|i: int| 0 <= i < kept.len() implies numerals::stays(
            #[trigger] kept[i],
            all,
            reading,
        ) && list.contains(kept[i]) by {
            if i < shift {
                assert(list[0] == kept[i]);
            } else {
                assert(kept[i] == below[i - shift]);
                let k = choose|k: int| 0 <= k < rest.len() && rest[k] == below[i - shift];
                assert(list[k + 1] == kept[i]);
            }
        }
        assert forall|i: int|
            0 <= i < list.len() && numerals::stays(#[trigger] list[i], all, reading) implies
        kept.contains(list[i]) by {
            if i == 0 {
                assert(kept[0] == list[0]);
            } else {
                assert(rest[i - 1] == list[i]);
                let k = choose|k: int| 0 <= k < below.len() && below[k] == list[i];
                assert(kept[k + shift] == list[i]);
            }
        }
    }
}

/// A list has the same candidates when it is sorted.
proof fn lemma_sorted_has(list: Seq<CandidateView>, c: CandidateView)
    requires
        list.contains(c),
    ensures
        sorting::stable_sorted(list).contains(c),
{
    sorting::sorting_orders_and_keeps(list);
    list.to_multiset_ensures();
    sorting::stable_sorted(list).to_multiset_ensures();
    assert(list.to_multiset().count(c) > 0);
}

/// Where a reading is a number, the number is offered in every style.
pub proof fn every_form_is_offered(
    list: Seq<CandidateView>,
    value: int,
    counter: Option<NumericCounter>,
    reading: Seq<char>,
    lexical: Option<i64>,
    form_cost: i64,
    k: int,
)
    requires
        0 <= k < 3,
    ensures
        ({
            let all = numerals::forms(value, counter);
            conversion::has_text(
                sorting::stable_sorted(
                    numerals::with_forms(list, all, reading, lexical, form_cost, 3),
                ),
                all[k],
            )
        }),
{
    let all = numerals::forms(value, counter);
    let after = numerals::with_forms(list, all, reading, lexical, form_cost, 3);
    lemma_with_forms(list, all, reading, lexical, form_cost, 3);
    assert(conversion::has_text(after, all[k]));
    let i = choose|i: int| 0 <= i < after.len() && (#[trigger] after[i]).text == all[k];
    assert(after.contains(after[i]));
    lemma_sorted_has(after, after[i]);
    let sorted = sorting::stable_sorted(after);
    let j = choose|j: int| 0 <= j < sorted.len() && sorted[j] == after[i];
    assert(sorted[j].text == all[k]);
}

/// An entry of the dictionary stays beside the forms of a number, unless it holds a
/// digit for decoration; nothing else does but the forms and the reading itself.
pub proof fn dictionary_entries_stay(
    list: Seq<CandidateView>,
    all: Seq<Seq<char>>,
    reading: Seq<char>,
)
    ensures
        ({
            let kept = numerals::staying(list, all, reading);
            &&& forall|i: int|
                0 <= i < list.len() && (#[trigger] list[i]).system_entry_index is Some
                    && !numerals::decorated(list[i].text) ==> kept.contains(list[i])
            &&& forall|i: int|
                0 <= i < kept.len() ==> !numerals::decorated((#[trigger] kept[i]).text) && (
                numerals::position(all, kept[i].text, 0) is Some || kept[i].text == reading
                    || kept[i].system_entry_index is Some)
        }),
{
    lemma_staying(list, all, reading);
    let kept = numerals::staying(list, all, reading);
    assert forall|i: int|
        0 <= i < list.len() && (#[trigger] list[i]).system_entry_index is Some
            && !numerals::decorated(list[i].text) implies kept.contains(list[i]) by {
        assert(numerals::stays(list[i], all, reading));
    }
    assert forall|i: int| 0 <= i < kept.len() implies !numerals::decorated(
        (#[trigger] kept[i]).text,
    ) && (numerals::position(all, kept[i].text, 0) is Some || kept[i].text == reading
        || kept[i].system_entry_index is Some) by {
        assert(numerals::stays(kept[i], all, reading));
    }
}

/// A position that is found is one of the texts.
proof fn lemma_position(all: Seq<Seq<char>>, text: Seq<char>, i: int)
    requires
        0 <= i,
    ensures
        numerals::position(all, text, i) matches Some(k) ==> i <= k < all.len() && all[k] == text,
    decreases all.len() - i,
{
    if i < all.len() && all[i] != text {
        lemma_position(all, text, i + 1);
    }
}

/// While costs do not run out, no form that was made up goes before the entry of the
/// dictionary that writes the number: neither one that the search found nor one that
/// is added.
pub proof fn dictionary_form_goes_first(
    list: Seq<CandidateView>,
    all: Seq<Seq<char>>,
    reading: Seq<char>,
    form_cost: i64,
    n: int,
)
    requires
        0 <= n <= all.len(),
    ensures
        numerals::lexical_cost(list, all, list.len() as int) matches Some(cost) ==> (cost + 1
            + all.len() <= i64::MAX ==> {
            let lexical = Some(cost);
            let raised = numerals::all_behind_lexical(list, all, lexical);
            let after = numerals::with_forms(
                numerals::staying(raised, all, reading),
                all,
                reading,
                lexical,
                form_cost,
                n,
            );
            forall|i: int|
                0 <= i < after.len() && (#[trigger] after[i]).path_evidence.generated_edges != 0
                    && numerals::position(all, after[i].text, 0) is Some ==> after[i].cost > cost
        }),
    decreases n,
{
    let found = numerals::lexical_cost(list, all, list.len() as int);
    if found is Some && found->Some_0 + 1 + all.len() <= i64::MAX {
        let cost = found->Some_0;
        let raised = numerals::all_behind_lexical(list, all, found);
        let kept = numerals::staying(raised, all, reading);
        let after = numerals::with_forms(kept, all, reading, found, form_cost, n);
        if n > 0 {
            dictionary_form_goes_first(list, all, reading, form_cost, n - 1);
        } else {
            lemma_staying(raised, all, reading);
            assert forall|i: int|
                0 <= i < after.len() && (#[trigger] after[i]).path_evidence.generated_edges != 0
                    && numerals::position(all, after[i].text, 0) is Some implies after[i].cost
                > cost by {
                assert(raised.contains(kept[i]));
                let k = choose|k: int| 0 <= k < raised.len() && raised[k] == kept[i];
                lemma_position(all, list[k].text, 0);
                assert(raised[k] == numerals::behind_lexical(list[k], all, found));
            }
        }
    }
}

} // verus!
