//! Alternate readings at a distance of one edit.

use super::kana;
use super::kana::{
    is_advanced_deletable, is_ascii_digit, is_hiragana, is_katakana, is_vowel_kana,
    lengthening_vowel, swap_dakuten, to_half_ascii,
};
use super::{ADVANCED_MAX_CHARS, ADVANCED_REPAIR_PENALTY, MAX_REPAIR_VARIANTS, REPAIR_PENALTY};
use crate::preferences::InputSupport;
use crate::strings;
use crate::values::{FixedStr, MAX_PREEDIT_BYTES};
use vstd::prelude::*;
#[allow(unused_imports)]
use vstd::std_specs::iter::*;

verus! {

/// Where a variant comes from.
#[derive(Debug, Clone, Copy, PartialEq, Eq, Structural)]
pub enum RepairKind {
    Rule,
    Advanced,
    EnglishSpelling,
    CommitHistory,
}

/// One alternate reading that covers `typed_end` bytes of the typed reading.
#[derive(Debug, PartialEq, Eq)]
pub struct RepairVariant {
    pub repaired: FixedStr<MAX_PREEDIT_BYTES>,
    pub typed_end: u16,
    pub penalty: i64,
    pub kind: RepairKind,
}

impl Clone for RepairVariant {
    fn clone(&self) -> (r: Self)
        ensures
            r@ == self@,
    {
        RepairVariant {
            repaired: self.repaired.clone(),
            typed_end: self.typed_end,
            penalty: self.penalty,
            kind: self.kind,
        }
    }
}

/// What a variant says.
#[verifier::ext_equal]
pub struct VariantView {
    pub repaired: Seq<char>,
    pub typed_end: nat,
    pub penalty: int,
    pub kind: RepairKind,
}

impl View for RepairVariant {
    type V = VariantView;

    open spec fn view(&self) -> VariantView {
        VariantView {
            repaired: self.repaired@,
            typed_end: self.typed_end as nat,
            penalty: self.penalty as int,
            kind: self.kind,
        }
    }
}

/// A list of variants without duplicates.
#[derive(Debug, PartialEq, Eq)]
pub struct RepairVariantList {
    items: Vec<RepairVariant>,
}

impl Clone for RepairVariantList {
    fn clone(&self) -> (r: Self)
        ensures
            r@ == self@,
    {
        let mut items: Vec<RepairVariant> = Vec::new();
        let mut i: usize = 0;
        while i < self.items.len()
            invariant
                i <= self.items@.len(),
                items@.len() == i,
                forall|k: int| 0 <= k < i ==> (#[trigger] items@[k])@ == self.items@[k]@,
            decreases self.items@.len() - i,
        {
            items.push(self.items[i].clone());
            i = i + 1;
        }
        let r = RepairVariantList { items };
        assert(r@ =~= self@);
        r
    }
}

impl View for RepairVariantList {
    type V = Seq<VariantView>;

    closed spec fn view(&self) -> Seq<VariantView> {
        Seq::new(self.items@.len(), |i: int| self.items@[i]@)
    }
}

impl Default for RepairVariantList {
    fn default() -> (r: Self)
        ensures
            r@ == Seq::<VariantView>::empty(),
    {
        RepairVariantList::new()
    }
}

impl RepairVariantList {
    /// The empty list.
    pub fn new() -> (r: Self)
        ensures
            r@ == Seq::<VariantView>::empty(),
    {
        let r = RepairVariantList { items: Vec::new() };
        assert(r@ =~= Seq::<VariantView>::empty());
        r
    }

    /// The number of variants.
    pub fn len(&self) -> (n: usize)
        ensures
            n == self@.len(),
    {
        self.items.len()
    }

    /// Whether there is no variant.
    pub fn is_empty(&self) -> (b: bool)
        ensures
            b == (self@.len() == 0),
    {
        self.items.len() == 0
    }

    /// The variants, in the order in which they were found.
    pub fn as_slice(&self) -> (s: &[RepairVariant])
        ensures
            s@.len() == self@.len(),
            forall|i: int| 0 <= i < s@.len() ==> (#[trigger] s@[i])@ == self@[i],
    {
        self.items.as_slice()
    }

    /// The variants, one after the other.
    pub fn iter(&self) -> (r: core::slice::Iter<'_, RepairVariant>)
        ensures
            IteratorSpec::remaining(&r).len() == self@.len(),
            forall|i: int|
                0 <= i < self@.len() ==> (#[trigger] IteratorSpec::remaining(&r)[i])@ == self@[i],
    {
        self.items.as_slice().iter()
    }
}

/// Whether a list already has a reading for the same typed bytes.
pub open spec fn listed(list: Seq<VariantView>, repaired: Seq<char>, typed_end: nat) -> bool {
    exists|i: int|
        0 <= i < list.len() && (#[trigger] list[i]).repaired == repaired && list[i].typed_end
            == typed_end
}

/// A list after a reading was offered to it. It is taken where there is room, where
/// it is not empty, new to the list and unlike the typed reading, and where it and
/// the number of typed bytes can be held.
pub open spec fn admitted(
    list: Seq<VariantView>,
    typed: Seq<char>,
    repaired: Seq<char>,
    penalty: int,
    kind: RepairKind,
    limit: nat,
) -> Seq<VariantView> {
    let typed_end = strings::utf8_len(typed);
    if list.len() >= limit || repaired.len() == 0 || repaired == typed || listed(
        list,
        repaired,
        typed_end,
    ) || typed_end > u16::MAX || strings::utf8_len(repaired) > MAX_PREEDIT_BYTES {
        list
    } else {
        list.push(VariantView { repaired, typed_end, penalty, kind })
    }
}

/// A list after several readings were offered to it, one by one.
pub open spec fn all_admitted(
    list: Seq<VariantView>,
    typed: Seq<char>,
    offers: Seq<Seq<char>>,
    penalty: int,
    kind: RepairKind,
    limit: nat,
) -> Seq<VariantView>
    decreases offers.len(),
{
    if offers.len() == 0 {
        list
    } else {
        admitted(
            all_admitted(list, typed, offers.drop_last(), penalty, kind, limit),
            typed,
            offers.last(),
            penalty,
            kind,
            limit,
        )
    }
}

/// One way in which a reading goes wrong at a place.
#[derive(Clone, Copy, PartialEq, Eq, Structural)]
pub enum Slip {
    /// The syllable n was typed twice.
    DoubledN,
    /// The syllable n was left out.
    MissingN,
    /// A small tsu too much.
    ExtraSokuon,
    /// A vowel was typed twice.
    DoubledVowel,
    /// The vowel that lengthens a syllable was left out.
    MissingVowel,
    /// A letter was mistaken for one that looks like it.
    Kana,
    /// A letter was mistaken for one that sounds like it in names.
    ProperNoun,
    /// A mark too much, in a short reading.
    AnyMark,
    /// A wrong vowel or mark, in a short reading.
    AnyLetter,
}

/// The letters that stand in for a letter that was mistaken.
pub open spec fn lookalikes(c: char, support: InputSupport) -> Seq<char> {
    let swapped = if support.dakuten_swap && kana::dakuten_swapped(c) is Some {
        seq![kana::dakuten_swapped(c)->0]
    } else {
        Seq::<char>::empty()
    };
    if support.tsu_sokuon && c == 'つ' {
        swapped.push('っ')
    } else if support.wa_wo && c == 'わ' {
        swapped.push('を')
    } else if support.small_u && c == 'ぅ' {
        swapped.push('う')
    } else {
        swapped
    }
}

/// The letter that sounds like another in names.
pub open spec fn soundalike(c: char) -> Option<char> {
    match c {
        'お' => Some('う'),
        'う' => Some('お'),
        'ず' => Some('づ'),
        'づ' => Some('ず'),
        'じ' => Some('ぢ'),
        'ぢ' => Some('じ'),
        _ => None,
    }
}

/// The letter that sounds like another in names.
fn fuzzy_proper_letter(c: char) -> (r: Option<char>)
    ensures
        r == soundalike(c),
{
    match c {
        'お' => Some('う'),
        'う' => Some('お'),
        'ず' => Some('づ'),
        'づ' => Some('ず'),
        'じ' => Some('ぢ'),
        'ぢ' => Some('じ'),
        _ => None,
    }
}

/// The letters that any letter of a short reading may stand for.
pub const ALPHABET: [char; 8] = ['あ', 'い', 'う', 'え', 'お', 'ん', 'っ', 'ー'];

/// A reading with the letter at `i` replaced by each letter.
pub open spec fn replaced_by(typed: Seq<char>, i: int, letters: Seq<char>) -> Seq<Seq<char>> {
    Seq::new(letters.len(), |k: int| typed.update(i, letters[k]))
}

/// A reading with the letter at `i` replaced by the first `n` letters of the
/// alphabet but itself.
pub open spec fn any_letter_at(typed: Seq<char>, i: int, n: nat) -> Seq<Seq<char>>
    decreases n,
{
    if n == 0 {
        Seq::<Seq<char>>::empty()
    } else {
        let before = any_letter_at(typed, i, (n - 1) as nat);
        if ALPHABET@[n - 1] == typed[i] {
            before
        } else {
            before.push(typed.update(i, ALPHABET@[n - 1]))
        }
    }
}

/// The readings that undo a slip at one place of a reading, in order.
pub open spec fn undone_at(
    slip: Slip,
    support: InputSupport,
    typed: Seq<char>,
    i: int,
) -> Seq<Seq<char>> {
    let none = Seq::<Seq<char>>::empty();
    let c = typed[i];
    let more = i + 1 < typed.len();
    match slip {
        Slip::DoubledN => if support.n_count && more && c == 'ん' && typed[i + 1] == 'ん' {
            seq![typed.remove(i)]
        } else {
            none
        },
        Slip::MissingN => if support.n_count && i > 0 && typed[i - 1] != 'ん' && kana::hiragana(c)
            && !kana::vowel_kana(c) && c != 'ん' && c != 'っ' {
            seq![typed.insert(i, 'ん')]
        } else {
            none
        },
        Slip::ExtraSokuon => if support.consonant_extra && c == 'っ' {
            seq![typed.remove(i)]
        } else {
            none
        },
        Slip::DoubledVowel => if support.vowel_count && more && kana::vowel_kana(c) && c
            == typed[i + 1] {
            seq![typed.remove(i), typed.remove(i + 1)]
        } else {
            none
        },
        Slip::MissingVowel => match kana::lengthened_by(c) {
            Some(vowel) => if support.vowel_count && !(more && typed[i + 1] == vowel) {
                seq![typed.insert(i + 1, vowel)]
            } else {
                none
            },
            None => none,
        },
        Slip::Kana => replaced_by(typed, i, lookalikes(c, support)),
        Slip::ProperNoun => match soundalike(c) {
            Some(other) => if support.fuzzy_proper_nouns {
                seq![typed.update(i, other)]
            } else {
                none
            },
            None => none,
        },
        Slip::AnyMark => if typed.len() <= ADVANCED_MAX_CHARS && kana::slip(c) {
            seq![typed.remove(i)]
        } else {
            none
        },
        Slip::AnyLetter => if typed.len() <= ADVANCED_MAX_CHARS && (kana::hiragana(c)
            || kana::katakana(c)) {
            any_letter_at(typed, i, 8)
        } else {
            none
        },
    }
}

/// The readings that undo a slip at one of the first `n` places, in order.
pub open spec fn undone(slip: Slip, support: InputSupport, typed: Seq<char>, n: nat) -> Seq<
    Seq<char>,
>
    decreases n,
{
    if n == 0 {
        Seq::<Seq<char>>::empty()
    } else {
        undone(slip, support, typed, (n - 1) as nat) + undone_at(
            slip,
            support,
            typed,
            n - 1,
        )
    }
}

/// The cost of the readings that undo a slip.
pub open spec fn slip_penalty(slip: Slip) -> i64 {
    match slip {
        Slip::AnyMark | Slip::AnyLetter => ADVANCED_REPAIR_PENALTY,
        _ => REPAIR_PENALTY,
    }
}

/// The kind of the readings that undo a slip.
pub open spec fn slip_kind(slip: Slip) -> RepairKind {
    match slip {
        Slip::AnyMark | Slip::AnyLetter => RepairKind::Advanced,
        _ => RepairKind::Rule,
    }
}

/// A list with the readings that undo a slip anywhere in a reading.
pub open spec fn with_undone(
    list: Seq<VariantView>,
    slip: Slip,
    support: InputSupport,
    typed: Seq<char>,
    limit: nat,
) -> Seq<VariantView> {
    all_admitted(
        list,
        typed,
        undone(slip, support, typed, typed.len()),
        slip_penalty(slip) as int,
        slip_kind(slip),
        limit,
    )
}

/// A list with the readings that undo each of several slips, slip by slip.
pub open spec fn with_all_undone(
    list: Seq<VariantView>,
    slips: Seq<Slip>,
    support: InputSupport,
    typed: Seq<char>,
    limit: nat,
) -> Seq<VariantView>
    decreases slips.len(),
{
    if slips.len() == 0 {
        list
    } else {
        with_undone(
            with_all_undone(list, slips.drop_last(), support, typed, limit),
            slips.last(),
            support,
            typed,
            limit,
        )
    }
}

/// The slips that are looked for, in order.
pub open spec fn slips(advanced: bool) -> Seq<Slip> {
    let rules = seq![
        Slip::DoubledN,
        Slip::MissingN,
        Slip::ExtraSokuon,
        Slip::DoubledVowel,
        Slip::MissingVowel,
        Slip::Kana,
        Slip::ProperNoun,
    ];
    if advanced {
        rules.push(Slip::AnyMark).push(Slip::AnyLetter)
    } else {
        rules
    }
}

/// Whether a character is a digit of either width.
pub open spec fn any_digit(c: char) -> bool {
    kana::ascii_digit(kana::half_ascii(c))
}

/// Whether a reading is looked at at all: repair is on, the reading holds kana and
/// no digit.
pub open spec fn repairable(typed: Seq<char>, support: InputSupport) -> bool {
    &&& support.enabled
    &&& exists|i: int|
        0 <= i < typed.len() && (kana::hiragana(#[trigger] typed[i]) || kana::katakana(typed[i]))
    &&& forall|i: int| 0 <= i < typed.len() ==> !any_digit(#[trigger] typed[i])
}

/// The variants of a reading.
pub open spec fn variants(typed: Seq<char>, support: InputSupport, max_variants: nat) -> Seq<
    VariantView,
> {
    if repairable(typed, support) {
        with_all_undone(
            Seq::<VariantView>::empty(),
            slips(support.advanced),
            support,
            typed,
            if max_variants < MAX_REPAIR_VARIANTS {
                max_variants
            } else {
                MAX_REPAIR_VARIANTS as nat
            },
        )
    } else {
        Seq::<VariantView>::empty()
    }
}

/// Offers a reading to the list.
fn push_unique(
    out: &mut RepairVariantList,
    typed: &str,
    repaired: &str,
    penalty: i64,
    kind: RepairKind,
    limit: usize,
)
    ensures
        final(out)@ == admitted(old(out)@, typed@, repaired@, penalty as int, kind, limit as nat),
{
    if out.items.len() >= limit || repaired.is_empty() || strings::same_text(repaired, typed) {
        return;
    }
    let bytes: &[u8] = typed.as_bytes();
    let typed_end: usize = bytes.len();
    if typed_end > 0xffff {
        return;
    }
    let mut i: usize = 0;
    while i < out.items.len()
        invariant
            i <= out.items@.len(),
            out@ == old(out)@,
            typed_end == strings::utf8_len(typed@),
            forall|k: int|
                0 <= k < i ==> !((#[trigger] out@[k]).repaired == repaired@ && out@[k].typed_end
                    == typed_end),
        decreases out.items@.len() - i,
    {
        assert(out@[i as int] == out.items@[i as int]@);
        if strings::same_text(out.items[i].repaired.as_str(), repaired) && out.items[i].typed_end
            as usize == typed_end {
            assert(listed(out@, repaired@, typed_end as nat));
            return;
        }
        i = i + 1;
    }
    assert(!listed(out@, repaired@, typed_end as nat));
    let mut text: FixedStr<MAX_PREEDIT_BYTES> = FixedStr::new();
    assert(Seq::<char>::empty() + repaired@ =~= repaired@);
    if text.push_str(repaired).is_err() {
        return;
    }
    let ghost before = out@;
    out.items.push(RepairVariant { repaired: text, typed_end: typed_end as u16, penalty, kind });
    assert(out@ =~= before.push(
        VariantView {
            repaired: repaired@,
            typed_end: typed_end as nat,
            penalty: penalty as int,
            kind,
        },
    ));
}

/// The letters that stand in for a letter that was mistaken.
fn kana_replacements(c: char, support: InputSupport) -> (r: Vec<char>)
    ensures
        r@ == lookalikes(c, support),
{
    let mut r: Vec<char> = Vec::new();
    if support.dakuten_swap {
        if let Some(swapped) = swap_dakuten(c) {
            r.push(swapped);
        }
    }
    assert(r@ =~= if support.dakuten_swap && kana::dakuten_swapped(c) is Some {
        seq![kana::dakuten_swapped(c)->0]
    } else {
        Seq::<char>::empty()
    });
    if support.tsu_sokuon && c == 'つ' {
        r.push('っ');
    }
    if support.wa_wo && c == 'わ' {
        r.push('を');
    }
    if support.small_u && c == 'ぅ' {
        r.push('う');
    }
    r
}

/// A reading without the letter at `i`.
fn removed(typed: &str, i: usize) -> (r: String)
    requires
        i < typed@.len(),
    ensures
        r@ == typed@.remove(i as int),
{
    let mut chars: Vec<char> = strings::chars_of(typed);
    chars.remove(i);
    strings::string_of(&chars)
}

/// A reading with a letter put in before `i`.
fn inserted(typed: &str, i: usize, c: char) -> (r: String)
    requires
        i <= typed@.len(),
    ensures
        r@ == typed@.insert(i as int, c),
{
    let mut chars: Vec<char> = strings::chars_of(typed);
    chars.insert(i, c);
    strings::string_of(&chars)
}

/// A reading with another letter at `i`.
fn replaced(typed: &str, i: usize, c: char) -> (r: String)
    requires
        i < typed@.len(),
    ensures
        r@ == typed@.update(i as int, c),
{
    let mut chars: Vec<char> = strings::chars_of(typed);
    chars.set(i, c);
    strings::string_of(&chars)
}

/// What a list of texts says.
pub open spec fn texts(list: Seq<String>) -> Seq<Seq<char>> {
    Seq::new(list.len(), |i: int| list[i]@)
}

/// The readings that undo a slip at one place.
fn undo_at(slip: Slip, support: InputSupport, typed: &str, chars: &[char], i: usize) -> (r: Vec<
    String,
>)
    requires
        i < chars@.len(),
        chars@ == typed@,
    ensures
        texts(r@) == undone_at(slip, support, typed@, i as int),
{
    let mut r: Vec<String> = Vec::new();
    assert(chars.len() == chars@.len());
    let c: char = chars[i];
    let more: bool = i + 1 < chars.len();
    match slip {
        Slip::DoubledN => {
            if support.n_count && more && c == 'ん' && chars[i + 1] == 'ん' {
                r.push(removed(typed, i));
            }
        },
        Slip::MissingN => {
            if support.n_count && i > 0 && chars[i - 1] != 'ん' && is_hiragana(c)
                && !is_vowel_kana(c) && c != 'ん' && c != 'っ' {
                r.push(inserted(typed, i, 'ん'));
            }
        },
        Slip::ExtraSokuon => {
            if support.consonant_extra && c == 'っ' {
                r.push(removed(typed, i));
            }
        },
        Slip::DoubledVowel => {
            if support.vowel_count && more && is_vowel_kana(c) && c == chars[i + 1] {
                r.push(removed(typed, i));
                r.push(removed(typed, i + 1));
            }
        },
        Slip::MissingVowel => {
            if let Some(vowel) = lengthening_vowel(c) {
                if support.vowel_count && !(more && chars[i + 1] == vowel) {
                    r.push(inserted(typed, i + 1, vowel));
                }
            }
        },
        Slip::Kana => {
            let letters: Vec<char> = kana_replacements(c, support);
            let mut k: usize = 0;
            while k < letters.len()
                invariant
                    i < typed@.len(),
                    k <= letters@.len(),
                    texts(r@) == replaced_by(typed@, i as int, letters@.take(k as int)),
                decreases letters@.len() - k,
            {
                let ghost before = texts(r@);
                r.push(replaced(typed, i, letters[k]));
                assert(texts(r@) =~= before.push(typed@.update(i as int, letters@[k as int])));
                assert(letters@.take(k + 1) =~= letters@.take(k as int).push(letters@[k as int]));
                k = k + 1;
                assert(texts(r@) =~= replaced_by(typed@, i as int, letters@.take(k as int)));
            }
            assert(letters@.take(k as int) =~= letters@);
        },
        Slip::ProperNoun => {
            if let Some(other) = fuzzy_proper_letter(c) {
                if support.fuzzy_proper_nouns {
                    r.push(replaced(typed, i, other));
                }
            }
        },
        Slip::AnyMark => {
            if chars.len() <= ADVANCED_MAX_CHARS && is_advanced_deletable(c) {
                r.push(removed(typed, i));
            }
        },
        Slip::AnyLetter => {
            if chars.len() <= ADVANCED_MAX_CHARS && (is_hiragana(c) || is_katakana(c)) {
                let mut k: usize = 0;
                while k < 8
                    invariant
                        i < typed@.len(),
                        c == typed@[i as int],
                        k <= 8,
                        texts(r@) == any_letter_at(typed@, i as int, k as nat),
                    decreases 8 - k,
                {
                    let letter: char = ALPHABET[k];
                    let ghost before = texts(r@);
                    if letter != c {
                        r.push(replaced(typed, i, letter));
                        assert(texts(r@) =~= before.push(typed@.update(i as int, letter)));
                    }
                    k = k + 1;
                }
            }
        },
    }
    assert(texts(r@) =~= undone_at(slip, support, typed@, i as int));
    r
}

/// Offers come one list after the other.
proof fn lemma_all_admitted_concat(
    list: Seq<VariantView>,
    typed: Seq<char>,
    a: Seq<Seq<char>>,
    b: Seq<Seq<char>>,
    penalty: int,
    kind: RepairKind,
    limit: nat,
)
    ensures
        all_admitted(list, typed, a + b, penalty, kind, limit) == all_admitted(
            all_admitted(list, typed, a, penalty, kind, limit),
            typed,
            b,
            penalty,
            kind,
            limit,
        ),
    decreases b.len(),
{
    if b.len() == 0 {
        assert(a + b =~= a);
    } else {
        assert((a + b).drop_last() =~= a + b.drop_last());
        lemma_all_admitted_concat(list, typed, a, b.drop_last(), penalty, kind, limit);
    }
}

/// Offers the readings that undo a slip.
fn push_undone(
    slip: Slip,
    typed: &str,
    support: InputSupport,
    out: &mut RepairVariantList,
    limit: usize,
)
    ensures
        final(out)@ == with_undone(old(out)@, slip, support, typed@, limit as nat),
{
    let chars: Vec<char> = strings::chars_of(typed);
    let (penalty, kind): (i64, RepairKind) = match slip {
        Slip::AnyMark | Slip::AnyLetter => (ADVANCED_REPAIR_PENALTY, RepairKind::Advanced),
        _ => (REPAIR_PENALTY, RepairKind::Rule),
    };
    let ghost start = out@;
    let mut i: usize = 0;
    while i < chars.len()
        invariant
            i <= chars@.len(),
            chars@ == typed@,
            penalty == slip_penalty(slip),
            kind == slip_kind(slip),
            out@ == all_admitted(
                start,
                typed@,
                undone(slip, support, typed@, i as nat),
                penalty as int,
                kind,
                limit as nat,
            ),
        decreases chars@.len() - i,
    {
        let offers: Vec<String> = undo_at(slip, support, typed, &chars, i);
        let ghost here = out@;
        let mut k: usize = 0;
        while k < offers.len()
            invariant
                k <= offers@.len(),
                out@ == all_admitted(
                    here,
                    typed@,
                    texts(offers@).take(k as int),
                    penalty as int,
                    kind,
                    limit as nat,
                ),
            decreases offers@.len() - k,
        {
            push_unique(out, typed, offers[k].as_str(), penalty, kind, limit);
            k = k + 1;
            assert(texts(offers@).take(k as int).drop_last() =~= texts(offers@).take(k - 1));
        }
        assert(texts(offers@).take(k as int) =~= texts(offers@));
        proof {
            lemma_all_admitted_concat(
                start,
                typed@,
                undone(slip, support, typed@, i as nat),
                undone_at(slip, support, typed@, i as int),
                penalty as int,
                kind,
                limit as nat,
            );
        }
        i = i + 1;
    }
}

/// Offers a reading with one n less or one n more.
fn push_n_count_variants(
    typed: &str,
    support: InputSupport,
    out: &mut RepairVariantList,
    limit: usize,
)
    ensures
        final(out)@ == with_undone(
            with_undone(old(out)@, Slip::DoubledN, support, typed@, limit as nat),
            Slip::MissingN,
            support,
            typed@,
            limit as nat,
        ),
{
    push_undone(Slip::DoubledN, typed, support, out, limit);
    push_undone(Slip::MissingN, typed, support, out, limit);
}

/// Offers a reading with one vowel less or one vowel more.
fn push_vowel_variants(
    typed: &str,
    support: InputSupport,
    out: &mut RepairVariantList,
    limit: usize,
)
    ensures
        final(out)@ == with_undone(
            with_undone(old(out)@, Slip::DoubledVowel, support, typed@, limit as nat),
            Slip::MissingVowel,
            support,
            typed@,
            limit as nat,
        ),
{
    push_undone(Slip::DoubledVowel, typed, support, out, limit);
    push_undone(Slip::MissingVowel, typed, support, out, limit);
}

/// Offers what a single edit of a short reading gives: a mark taken out, or a kana
/// replaced by a vowel or a mark. Other characters stay as they are.
pub fn push_advanced_variants(typed: &str, out: &mut RepairVariantList, limit: usize)
    ensures
        forall|support: InputSupport|
            final(out)@ == #[trigger] with_undone(
                with_undone(old(out)@, Slip::AnyMark, support, typed@, limit as nat),
                Slip::AnyLetter,
                support,
                typed@,
                limit as nat,
            ),
{
    let support = InputSupport::default();
    let ghost start = out@;
    push_undone(Slip::AnyMark, typed, support, out, limit);
    push_undone(Slip::AnyLetter, typed, support, out, limit);
    proof {
        assert forall|other: InputSupport|
            out@ == #[trigger] with_undone(
                with_undone(start, Slip::AnyMark, other, typed@, limit as nat),
                Slip::AnyLetter,
                other,
                typed@,
                limit as nat,
            ) by {
            lemma_advanced_ignores_support(Slip::AnyMark, support, other, typed@, typed@.len());
            lemma_advanced_ignores_support(Slip::AnyLetter, support, other, typed@, typed@.len());
        }
    }
}

/// The broad pass does not depend on which rules are on.
proof fn lemma_advanced_ignores_support(
    slip: Slip,
    a: InputSupport,
    b: InputSupport,
    typed: Seq<char>,
    n: nat,
)
    requires
        slip is AnyMark || slip is AnyLetter,
    ensures
        undone(slip, a, typed, n) == undone(slip, b, typed, n),
    decreases n,
{
    if n > 0 {
        lemma_advanced_ignores_support(slip, a, b, typed, (n - 1) as nat);
    }
}

/// Collects the variants of `typed`: other readings to look up, each of which
/// covers all the typed bytes. The typed reading itself is never one of them.
///
/// A reading without kana is left to the English spellings, and one with a digit
/// is taken at its word.
pub fn collect_repair_variants(typed: &str, support: InputSupport, max_variants: usize) -> (r:
    RepairVariantList)
    ensures
        r@ == variants(typed@, support, max_variants as nat),
{
    let mut out = RepairVariantList::new();
    if !support.is_active() {
        return out;
    }
    let chars: Vec<char> = strings::chars_of(typed);
    let mut kana_found: bool = false;
    let mut i: usize = 0;
    while i < chars.len()
        invariant
            i <= chars@.len(),
            chars@ == typed@,
            out@ == Seq::<VariantView>::empty(),
            kana_found == exists|k: int|
                0 <= k < i && (kana::hiragana(#[trigger] typed@[k]) || kana::katakana(typed@[k])),
            forall|k: int| 0 <= k < i ==> !any_digit(#[trigger] typed@[k]),
        decreases chars@.len() - i,
    {
        let c: char = chars[i];
        if is_ascii_digit(to_half_ascii(c)) {
            assert(any_digit(typed@[i as int]));
            return out;
        }
        if is_hiragana(c) || is_katakana(c) {
            assert(kana::hiragana(typed@[i as int]) || kana::katakana(typed@[i as int]));
            kana_found = true;
        }
        i = i + 1;
    }
    if !kana_found {
        return out;
    }
    let limit: usize = if max_variants < MAX_REPAIR_VARIANTS {
        max_variants
    } else {
        MAX_REPAIR_VARIANTS
    };
    push_n_count_variants(typed, support, &mut out, limit);
    push_undone(Slip::ExtraSokuon, typed, support, &mut out, limit);
    push_vowel_variants(typed, support, &mut out, limit);
    push_undone(Slip::Kana, typed, support, &mut out, limit);
    push_undone(Slip::ProperNoun, typed, support, &mut out, limit);
    if support.advanced {
        push_advanced_variants(typed, &mut out, limit);
    }
    proof {
        reveal_with_fuel(with_all_undone, 10);
        assert(slips(true).drop_last().drop_last() =~= slips(false));
        assert(slips(false).drop_last() =~= seq![
            Slip::DoubledN,
            Slip::MissingN,
            Slip::ExtraSokuon,
            Slip::DoubledVowel,
            Slip::MissingVowel,
            Slip::Kana,
        ]);
    }
    out
}

} // verus!
