//! What holds of repair as a whole.

use super::english;
use super::kana;
use super::variants;
use super::variants::{Slip, VariantView};
use super::MAX_REPAIR_VARIANTS;
use crate::preferences::InputSupport;
use crate::settings::Mode;
use crate::strings;
use crate::values::MAX_PREEDIT_BYTES;
use crate::width;
use crate::width::Normalizer;
use vstd::prelude::*;

verus! {

/// Whether one character was put in, taken out or replaced.
pub open spec fn one_edit(from: Seq<char>, to: Seq<char>) -> bool {
    exists|i: int, c: char| #[trigger] edited(from, i, c, to)
}

/// Whether `to` is `from` with one character put in, taken out or replaced at `i`.
pub open spec fn edited(from: Seq<char>, i: int, c: char, to: Seq<char>) -> bool {
    ||| 0 <= i < from.len() && to == from.remove(i)
    ||| 0 <= i <= from.len() && to == from.insert(i, c)
    ||| 0 <= i < from.len() && to == from.update(i, c)
}

/// A character that repair leaves alone: neither kana nor the long vowel mark.
pub open spec fn literal(c: char) -> bool {
    !kana::hiragana(c) && !kana::katakana(c) && c != 'ー'
}

/// The characters of a reading that repair leaves alone.
pub open spec fn literals(text: Seq<char>) -> Seq<char> {
    text.filter(|c: char| literal(c))
}

/// Whether a reading is one edit away from another and has the same literals.
pub open spec fn close(typed: Seq<char>, repaired: Seq<char>) -> bool {
    one_edit(typed, repaired) && literals(repaired) == literals(typed)
}

proof fn lemma_remove_close(typed: Seq<char>, i: int)
    requires
        0 <= i < typed.len(),
        !literal(typed[i]),
    ensures
        close(typed, typed.remove(i)),
{
    let p = |c: char| literal(c);
    let a = typed.take(i);
    let b = typed.skip(i + 1);
    assert(typed =~= a + (seq![typed[i]] + b));
    assert(typed.remove(i) =~= a + b);
    Seq::filter_distributes_over_add(a, seq![typed[i]] + b, p);
    Seq::filter_distributes_over_add(seq![typed[i]], b, p);
    Seq::filter_distributes_over_add(a, b, p);
    reveal_with_fuel(Seq::filter, 2);
    assert(seq![typed[i]].filter(p) + b.filter(p) =~= b.filter(p));
    assert(edited(typed, i, 'ー', typed.remove(i)));
}

proof fn lemma_insert_close(typed: Seq<char>, i: int, c: char)
    requires
        0 <= i <= typed.len(),
        !literal(c),
    ensures
        close(typed, typed.insert(i, c)),
{
    let p = |c: char| literal(c);
    let a = typed.take(i);
    let b = typed.skip(i);
    assert(typed =~= a + b);
    assert(typed.insert(i, c) =~= a + (seq![c] + b));
    Seq::filter_distributes_over_add(a, seq![c] + b, p);
    Seq::filter_distributes_over_add(seq![c], b, p);
    Seq::filter_distributes_over_add(a, b, p);
    reveal_with_fuel(Seq::filter, 2);
    assert(seq![c].filter(p) + b.filter(p) =~= b.filter(p));
    assert(edited(typed, i, c, typed.insert(i, c)));
}

proof fn lemma_update_close(typed: Seq<char>, i: int, c: char)
    requires
        0 <= i < typed.len(),
        !literal(typed[i]),
        !literal(c),
    ensures
        close(typed, typed.update(i, c)),
{
    lemma_remove_close(typed, i);
    lemma_insert_close(typed.remove(i), i, c);
    assert(typed.remove(i).insert(i, c) =~= typed.update(i, c));
    assert(edited(typed, i, c, typed.update(i, c)));
}

proof fn lemma_any_letter_close(typed: Seq<char>, i: int, n: nat)
    requires
        0 <= i < typed.len(),
        !literal(typed[i]),
        n <= 8,
    ensures
        forall|k: int|
            0 <= k < variants::any_letter_at(typed, i, n).len() ==> close(
                typed,
                #[trigger] variants::any_letter_at(typed, i, n)[k],
            ),
    decreases n,
{
    if n > 0 {
        lemma_any_letter_close(typed, i, (n - 1) as nat);
        assert(!literal(variants::ALPHABET@[n - 1]));
        lemma_update_close(typed, i, variants::ALPHABET@[n - 1]);
        let before = variants::any_letter_at(typed, i, (n - 1) as nat);
        let all = variants::any_letter_at(typed, i, n);
        assert forall|k: int| 0 <= k < all.len() implies close(typed, #[trigger] all[k]) by {
            if k < before.len() {
                assert(all[k] == before[k]);
            }
        }
    }
}

proof fn lemma_undone_at_close(slip: Slip, support: InputSupport, typed: Seq<char>, i: int)
    requires
        0 <= i < typed.len(),
    ensures
        forall|k: int|
            0 <= k < variants::undone_at(slip, support, typed, i).len() ==> close(
                typed,
                #[trigger] variants::undone_at(slip, support, typed, i)[k],
            ),
{
    let c = typed[i];
    match slip {
        Slip::DoubledN | Slip::ExtraSokuon | Slip::AnyMark => {
            if !literal(c) {
                lemma_remove_close(typed, i);
            }
        },
        Slip::MissingN => {
            lemma_insert_close(typed, i, 'ん');
        },
        Slip::DoubledVowel => {
            if kana::vowel_kana(c) {
                lemma_remove_close(typed, i);
                if i + 1 < typed.len() && typed[i + 1] == c {
                    lemma_remove_close(typed, i + 1);
                }
            }
        },
        Slip::MissingVowel => {
            if let Some(vowel) = kana::lengthened_by(c) {
                lemma_insert_close(typed, i + 1, vowel);
            }
        },
        Slip::Kana => {
            let letters = variants::lookalikes(c, support);
            assert forall|k: int| 0 <= k < letters.len() implies close(
                typed,
                #[trigger] variants::replaced_by(typed, i, letters)[k],
            ) by {
                lemma_update_close(typed, i, letters[k]);
            }
        },
        Slip::ProperNoun => {
            if let Some(other) = variants::soundalike(c) {
                lemma_update_close(typed, i, other);
            }
        },
        Slip::AnyLetter => {
            if !literal(c) {
                lemma_any_letter_close(typed, i, 8);
            }
        },
    }
}

proof fn lemma_undone_close(slip: Slip, support: InputSupport, typed: Seq<char>, n: nat)
    requires
        n <= typed.len(),
    ensures
        forall|k: int|
            0 <= k < variants::undone(slip, support, typed, n).len() ==> close(
                typed,
                #[trigger] variants::undone(slip, support, typed, n)[k],
            ),
    decreases n,
{
    if n > 0 {
        lemma_undone_close(slip, support, typed, (n - 1) as nat);
        lemma_undone_at_close(slip, support, typed, n - 1);
        let before = variants::undone(slip, support, typed, (n - 1) as nat);
        let here = variants::undone_at(slip, support, typed, n - 1);
        let all = variants::undone(slip, support, typed, n);
        assert forall|k: int| 0 <= k < all.len() implies close(typed, #[trigger] all[k]) by {
            if k < before.len() {
                assert(all[k] == before[k]);
            } else {
                assert(all[k] == here[k - before.len()]);
            }
        }
    }
}

/// What every list of variants keeps.
pub open spec fn sound(list: Seq<VariantView>, typed: Seq<char>, limit: nat) -> bool {
    &&& list.len() <= limit
    &&& forall|i: int|
        0 <= i < list.len() ==> {
            let v = #[trigger] list[i];
            &&& v.repaired != typed
            &&& v.repaired.len() > 0
            &&& strings::utf8_len(v.repaired) <= MAX_PREEDIT_BYTES
            &&& v.typed_end == strings::utf8_len(typed)
            &&& close(typed, v.repaired)
        }
    &&& forall|i: int, j: int|
        0 <= i < j < list.len() ==> (#[trigger] list[i]).repaired != (#[trigger] list[j]).repaired
}

proof fn lemma_all_admitted_sound(
    list: Seq<VariantView>,
    typed: Seq<char>,
    offers: Seq<Seq<char>>,
    penalty: int,
    kind: variants::RepairKind,
    limit: nat,
)
    requires
        sound(list, typed, limit),
        forall|k: int| 0 <= k < offers.len() ==> close(typed, #[trigger] offers[k]),
    ensures
        sound(variants::all_admitted(list, typed, offers, penalty, kind, limit), typed, limit),
    decreases offers.len(),
{
    if offers.len() > 0 {
        lemma_all_admitted_sound(list, typed, offers.drop_last(), penalty, kind, limit);
        let before = variants::all_admitted(
            list,
            typed,
            offers.drop_last(),
            penalty,
            kind,
            limit,
        );
        let after = variants::all_admitted(list, typed, offers, penalty, kind, limit);
        assert(close(typed, offers[offers.len() - 1]));
        if after != before {
            assert(!variants::listed(before, offers.last(), strings::utf8_len(typed)));
            assert forall|i: int, j: int| 0 <= i < j < after.len() implies (
            #[trigger] after[i]).repaired != (#[trigger] after[j]).repaired by {
                assert(after[i] == before[i]);
                if j < before.len() {
                    assert(after[j] == before[j]);
                }
            }
        }
    }
}

proof fn lemma_with_all_undone_sound(
    list: Seq<VariantView>,
    slips: Seq<Slip>,
    support: InputSupport,
    typed: Seq<char>,
    limit: nat,
)
    requires
        sound(list, typed, limit),
    ensures
        sound(variants::with_all_undone(list, slips, support, typed, limit), typed, limit),
    decreases slips.len(),
{
    if slips.len() > 0 {
        lemma_with_all_undone_sound(list, slips.drop_last(), support, typed, limit);
        lemma_undone_close(slips.last(), support, typed, typed.len());
        lemma_all_admitted_sound(
            variants::with_all_undone(list, slips.drop_last(), support, typed, limit),
            typed,
            variants::undone(slips.last(), support, typed, typed.len()),
            variants::slip_penalty(slips.last()) as int,
            variants::slip_kind(slips.last()),
            limit,
        );
    }
}

/// Variants are few, differ from what was typed and from each other, stand for all
/// the typed bytes, and are one edit away from what was typed with everything but
/// kana left as it was.
pub proof fn variants_are_bounded_single_edits(
    typed: Seq<char>,
    support: InputSupport,
    max_variants: nat,
)
    ensures
        ({
            let found = variants::variants(typed, support, max_variants);
            &&& found.len() <= max_variants
            &&& found.len() <= MAX_REPAIR_VARIANTS
            &&& sound(found, typed, max_variants)
        }),
{
    let limit: nat = if max_variants < MAX_REPAIR_VARIANTS {
        max_variants
    } else {
        MAX_REPAIR_VARIANTS as nat
    };
    lemma_with_all_undone_sound(
        Seq::empty(),
        variants::slips(support.advanced),
        support,
        typed,
        limit,
    );
}

/// The broad pass keeps what holds of a list: it adds readings one edit away, and
/// never touches a character that is not kana.
pub proof fn broad_pass_keeps_literals(
    list: Seq<VariantView>,
    typed: Seq<char>,
    support: InputSupport,
    limit: nat,
)
    requires
        sound(list, typed, limit),
    ensures
        sound(
            variants::with_undone(
                variants::with_undone(list, Slip::AnyMark, support, typed, limit),
                Slip::AnyLetter,
                support,
                typed,
                limit,
            ),
            typed,
            limit,
        ),
{
    let both = seq![Slip::AnyMark, Slip::AnyLetter];
    lemma_with_all_undone_sound(list, both, support, typed, limit);
    assert(both.drop_last() =~= seq![Slip::AnyMark]);
    assert(both.drop_last().drop_last() =~= Seq::<Slip>::empty());
    reveal_with_fuel(variants::with_all_undone, 3);
}

/// A reading with a digit in it is taken at its word.
pub proof fn digits_are_never_repaired(
    typed: Seq<char>,
    support: InputSupport,
    max_variants: nat,
    i: int,
)
    requires
        0 <= i < typed.len(),
        variants::any_digit(typed[i]),
    ensures
        variants::variants(typed, support, max_variants).len() == 0,
{
}

/// Nothing is repaired, and no mark changes, where repair is off.
pub proof fn off_means_off(
    typed: Seq<char>,
    support: InputSupport,
    max_variants: nat,
    previous: Option<char>,
    mark: char,
)
    requires
        !support.enabled,
    ensures
        variants::variants(typed, support, max_variants).len() == 0,
        super::mark_after(previous, mark, support) is None,
        forall|skip: bool| !#[trigger] support.corrects_spelling(skip),
{
}

/// A mark that depends on what stands before it is always one of four.
pub proof fn contextual_marks_are_four(previous: Option<char>, mark: char, support: InputSupport)
    ensures
        super::mark_after(previous, mark, support) matches Some(c) ==> c == '．' || c == '，' || c
            == '／' || c == '－',
{
}

/// A full stop or a comma that depends on what stands before it looks as the style
/// of punctuation has it.
pub proof fn contextual_marks_take_the_style(
    previous: Option<char>,
    mark: char,
    support: InputSupport,
    style: Normalizer,
    mode: Mode,
)
    requires
        width::japanese_period(mark) || width::japanese_comma(mark),
    ensures
        super::mark_after(previous, mark, support) matches Some(c) ==> style.normalized(c, mode)
            == style.normalized(mark, mode),
{
}

/// A katakana reading is never empty and fits uncommitted text.
pub proof fn english_readings_fit(typed: Seq<char>)
    ensures
        english::english_reading(typed) matches Some(text) ==> text.len() > 0 && strings::utf8_len(
            text,
        ) <= MAX_PREEDIT_BYTES,
{
}

} // verus!
